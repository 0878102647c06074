//! Per-account colours, as a stylesheet in which every widget
//! tagged with `account-<id>` picks its colour up from `--account-color`
//! without being rebound when the user changes it.

use vstd::prelude::*;
use vstd::utf8;
use crate::models::Account;
use crate::text;

verus! {

/// The class of an account.
pub open spec fn class_of(account_id: i64) -> Seq<char> {
    "account-"@ + text::signed_decimal(account_id as int)
}

/// The CSS class that ties a widget to an account's colour.
pub fn css_class(account_id: i64) -> (r: String)
    ensures
        r@ == class_of(account_id),
{
    let mut out = text::chars_of("account-");
    text::extend(&mut out, &text::to_signed_decimal(account_id));
    text::text_of(&out)
}

/// Whether a class ties a widget to an account. `account-dot` and friends are styling, not tags.
pub open spec fn is_tag(class: Seq<char>) -> bool {
    text::starts_with(class, "account-"@) && text::all_digits(class.skip(8))
}

/// Whether a class ties a widget to an account.
pub fn is_account_tag(class: &str) -> (r: bool)
    ensures
        r == is_tag(class@),
{
    proof {
        reveal_strlit("account-");
    }
    if !text::str_starts(class, "account-") {
        return false;
    }
    let chars = text::chars_of(class);
    let mut i: usize = 8;
    while i < chars.len()
        invariant
            8 <= i <= chars.len(),
            chars@ == class@,
            forall|k: int| 0 <= k < i - 8 ==> text::is_digit(#[trigger] class@.skip(8)[k]),
        decreases chars.len() - i,
    {
        let c = chars[i];
        assert(class@.skip(8)[i - 8] == c);
        if !('0' <= c && c <= '9') {
            return false;
        }
        i = i + 1;
    }
    true
}

/// The tags among some classes.
pub open spec fn tags_in(classes: Seq<Seq<char>>) -> Seq<Seq<char>>
    decreases classes.len(),
{
    if classes.len() == 0 {
        Seq::empty()
    } else if is_tag(classes.last()) {
        tags_in(classes.drop_last()).push(classes.last())
    } else {
        tags_in(classes.drop_last())
    }
}

/// The classes to take off a widget before it is tied to another account.
pub fn stale_tags(classes: &[String]) -> (r: Vec<String>)
    ensures
        text::texts(r@) == tags_in(text::texts(classes@)),
{
    let ghost views = text::texts(classes@);
    let mut out: Vec<String> = Vec::new();
    let mut i: usize = 0;
    assert(text::texts(out@) =~= Seq::empty());
    assert(views.take(0) =~= Seq::empty());
    while i < classes.len()
        invariant
            i <= classes.len(),
            views == text::texts(classes@),
            text::texts(out@) == tags_in(views.take(i as int)),
        decreases classes.len() - i,
    {
        proof {
            assert(views.take(i + 1).drop_last() =~= views.take(i as int));
            assert(views.take(i + 1).last() == classes@[i as int]@);
        }
        if is_account_tag(&classes[i]) {
            let ghost before = out@;
            out.push(classes[i].clone());
            assert(text::texts(out@) =~= text::texts(before).push(classes@[i as int]@));
        }
        i = i + 1;
    }
    assert(views.take(i as int) =~= views);
    out
}

/// The rule for an account, given the text colour that reads on its own.
pub open spec fn rule_of(id: i64, color: Seq<char>, contrast: Seq<char>) -> Seq<char> {
    "."@ + class_of(id) + " { --account-color: "@ + color + "; --account-fg-color: "@ + contrast
        + "; }\n"@
}

/// The colour rule for an account.
pub fn account_rule(account: &Account, contrast: &str) -> (r: String)
    ensures
        r@ == rule_of(account.id, account.shown_color(), contrast@),
{
    let mut out = text::chars_of(".");
    text::extend_str(&mut out, &css_class(account.id));
    text::extend_str(&mut out, " { --account-color: ");
    text::extend_str(&mut out, account.color_hex());
    text::extend_str(&mut out, "; --account-fg-color: ");
    text::extend_str(&mut out, contrast);
    text::extend_str(&mut out, "; }\n");
    text::text_of(&out)
}

/// The value of a byte as a hexadecimal digit.
pub open spec fn digit_of(b: u8) -> Option<int> {
    if 48 <= b <= 57 {
        Some(b - 48)
    } else if 97 <= b <= 102 {
        Some(b - 87)
    } else if 65 <= b <= 70 {
        Some(b - 55)
    } else {
        None
    }
}

/// The number in the two bytes at a place, zero where they are none. It may have a plus sign.
pub open spec fn channel_at(bytes: Seq<u8>, at: int) -> int {
    if at < 0 || at + 2 > bytes.len() {
        0
    } else {
        match (digit_of(bytes[at]), digit_of(bytes[at + 1])) {
            (Some(high), Some(low)) => high * 16 + low,
            (None, Some(low)) => if bytes[at] == 43 {
                low
            } else {
                0
            },
            _ => 0,
        }
    }
}

fn digit(b: u8) -> (r: Option<u8>)
    ensures
        match r {
            Some(d) => digit_of(b) == Some(d as int) && d < 16,
            None => digit_of(b) is None,
        },
{
    if 48 <= b && b <= 57 {
        Some(b - 48)
    } else if 97 <= b && b <= 102 {
        Some(b - 87)
    } else if 65 <= b && b <= 70 {
        Some(b - 55)
    } else {
        None
    }
}

fn channel(bytes: &[u8], at: usize) -> (r: u8)
    requires
        at <= 5,
    ensures
        r == channel_at(bytes@, at as int),
{
    if at + 2 > bytes.len() {
        return 0;
    }
    match digit(bytes[at + 1]) {
        Some(low) => match digit(bytes[at]) {
            Some(high) => high * 16 + low,
            None => if bytes[at] == 43 {
                low
            } else {
                0
            },
        },
        None => 0,
    }
}

/// The red, green and blue of a `#rrggbb` colour, each zero where it cannot be read.
pub fn channels(hex: &str) -> (r: (u8, u8, u8))
    ensures
        r.0 == channel_at(utf8::encode_utf8(hex@), 1),
        r.1 == channel_at(utf8::encode_utf8(hex@), 3),
        r.2 == channel_at(utf8::encode_utf8(hex@), 5),
{
    let bytes = hex.as_bytes();
    (channel(bytes, 1), channel(bytes, 3), channel(bytes, 5))
}

// --- palettes -------------------------------------------------------------

/// The swatches of one row of a palette.
pub const COLUMNS: usize = 8;

/// What a palette says: the colours and their names.
pub open spec fn palette_view(palette: Seq<(&'static str, &'static str)>) -> Seq<
    (Seq<char>, Seq<char>),
> {
    Seq::new(palette.len(), |i: int| (palette[i].0@, palette[i].1@))
}

/// The colours for text.
pub open spec fn text_colors() -> Seq<(Seq<char>, Seq<char>)> {
    seq![
        ("#1c71d8"@, "Blue"@),
        ("#26a269"@, "Green"@),
        ("#e5a50a"@, "Yellow"@),
        ("#e66100"@, "Orange"@),
        ("#c01c28"@, "Red"@),
        ("#813d9c"@, "Purple"@),
        ("#865e3c"@, "Brown"@),
        ("#3d3846"@, "Dark"@),
        ("#62a0ea"@, "Light Blue"@),
        ("#57e389"@, "Light Green"@),
        ("#f8e45c"@, "Light Yellow"@),
        ("#ffbe6f"@, "Light Orange"@),
        ("#ed333b"@, "Light Red"@),
        ("#c061cb"@, "Light Purple"@),
        ("#cdab8f"@, "Light Brown"@),
        ("#9a9996"@, "Grey"@),
    ]
}

/// The colours for highlights.
pub open spec fn highlight_colors() -> Seq<(Seq<char>, Seq<char>)> {
    seq![
        ("#f9f06b"@, "Yellow"@),
        ("#8ff0a4"@, "Green"@),
        ("#99c1f1"@, "Blue"@),
        ("#ffbe6f"@, "Orange"@),
        ("#f66151"@, "Red"@),
        ("#dc8add"@, "Purple"@),
        ("#cdab8f"@, "Brown"@),
        ("#c0bfbc"@, "Grey"@),
    ]
}

/// The colours for text, with their names.
pub fn text_palette() -> (r: Vec<(&'static str, &'static str)>)
    ensures
        palette_view(r@) == text_colors(),
{
    let palette: Vec<(&'static str, &'static str)> = vec![
        ("#1c71d8", "Blue"),
        ("#26a269", "Green"),
        ("#e5a50a", "Yellow"),
        ("#e66100", "Orange"),
        ("#c01c28", "Red"),
        ("#813d9c", "Purple"),
        ("#865e3c", "Brown"),
        ("#3d3846", "Dark"),
        ("#62a0ea", "Light Blue"),
        ("#57e389", "Light Green"),
        ("#f8e45c", "Light Yellow"),
        ("#ffbe6f", "Light Orange"),
        ("#ed333b", "Light Red"),
        ("#c061cb", "Light Purple"),
        ("#cdab8f", "Light Brown"),
        ("#9a9996", "Grey"),
    ];
    assert(palette_view(palette@) =~= text_colors());
    palette
}

/// The colours for highlights, with their names.
pub fn highlight_palette() -> (r: Vec<(&'static str, &'static str)>)
    ensures
        palette_view(r@) == highlight_colors(),
{
    let palette: Vec<(&'static str, &'static str)> = vec![
        ("#f9f06b", "Yellow"),
        ("#8ff0a4", "Green"),
        ("#99c1f1", "Blue"),
        ("#ffbe6f", "Orange"),
        ("#f66151", "Red"),
        ("#dc8add", "Purple"),
        ("#cdab8f", "Brown"),
        ("#c0bfbc", "Grey"),
    ];
    assert(palette_view(palette@) =~= highlight_colors());
    palette
}

/// The column and the row of a swatch.
pub fn swatch_cell(place: usize) -> (r: (usize, usize))
    ensures
        r.0 < COLUMNS,
        r.1 * 8 + r.0 == place,
{
    (place % COLUMNS, place / COLUMNS)
}

/// Whether a swatch wears the check: it is the colour under the caret.
pub fn is_checked(hex: &str, current: Option<&str>) -> (r: bool)
    ensures
        r == (match current {
            Some(c) => c@ == hex@,
            None => false,
        }),
{
    match current {
        Some(c) => text::same_str(c, hex),
        None => false,
    }
}

/// A class is taken off a widget exactly if the widget wears it and it ties the widget to an account.
pub proof fn every_tag_is_taken_off(classes: Seq<Seq<char>>, class: Seq<char>)
    ensures
        tags_in(classes).contains(class) <==> classes.contains(class) && is_tag(class),
    decreases classes.len(),
{
    if classes.len() > 0 {
        let before = classes.drop_last();
        every_tag_is_taken_off(before, class);
        let tags = tags_in(before);
        if tags.contains(class) {
            let k = choose|k: int| 0 <= k < tags.len() && tags[k] == class;
            assert(tags_in(classes)[k] == class);
            let m = choose|m: int| 0 <= m < before.len() && before[m] == class;
            assert(classes[m] == class);
        }
        if class == classes.last() && is_tag(class) {
            assert(tags_in(classes).last() == class);
            assert(classes[classes.len() - 1] == class);
        }
        if classes.contains(class) {
            let m = choose|m: int| 0 <= m < classes.len() && classes[m] == class;
            if m < before.len() {
                assert(before[m] == class);
            }
        }
        if tags_in(classes).contains(class) {
            let k = choose|k: int| 0 <= k < tags_in(classes).len() && tags_in(classes)[k] == class;
            if k < tags.len() {
                assert(tags[k] == class);
            }
        }
    }
}

/// The class of a stored account ties widgets to it, and to no other account.
pub proof fn accounts_have_their_own_classes(a: i64, b: i64)
    requires
        a >= 0,
        b >= 0,
    ensures
        is_tag(class_of(a)),
        class_of(a) == class_of(b) ==> a == b,
{
    reveal_strlit("account-");
    let prefix = "account-"@;
    let x = text::decimal(a as nat);
    let y = text::decimal(b as nat);
    text::numbers_read_back(a as nat, a as nat, 0, 0);
    text::numbers_read_back(b as nat, b as nat, 0, 0);
    assert(class_of(a).subrange(0, 8) =~= prefix);
    assert(class_of(a).skip(8) =~= x);
    text::digits_have_no(a as nat, '+');
    if x.len() > 1 && x[0] == '+' {
        assert(x.contains(x[0]));
    }
    assert(text::all_digits(x));
    assert(class_of(b).skip(8) =~= y);
}

/// The byte of a hexadecimal digit.
pub open spec fn byte_of_digit(d: int, is_upper: bool) -> u8 {
    if d < 10 {
        (48 + d) as u8
    } else if is_upper {
        (55 + d) as u8
    } else {
        (87 + d) as u8
    }
}

/// A number written in two hexadecimal digits reads back as itself, in either case.
pub proof fn channels_read_back(bytes: Seq<u8>, at: int, n: int, upper: bool)
    requires
        0 <= at,
        at + 2 <= bytes.len(),
        0 <= n < 256,
        bytes[at] == byte_of_digit(n / 16, upper),
        bytes[at + 1] == byte_of_digit(n % 16, upper),
    ensures
        channel_at(bytes, at) == n,
{
}

} // verus!
