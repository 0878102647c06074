//! The editable page behind the composer and the signature
//! editor: what goes into its template, the toolbar mapping, the scripts that
//! edit it, and what its reports say.

use vstd::prelude::*;
use crate::codec;
use crate::text;

verus! {

// --- JSON -----------------------------------------------------------------

/// A character as it stands in a JSON string.
pub open spec fn json_char(c: char) -> Seq<char> {
    if c == '"' {
        seq!['\\', '"']
    } else if c == '\\' {
        seq!['\\', '\\']
    } else if c == '\u{8}' {
        seq!['\\', 'b']
    } else if c == '\t' {
        seq!['\\', 't']
    } else if c == '\n' {
        seq!['\\', 'n']
    } else if c == '\u{c}' {
        seq!['\\', 'f']
    } else if c == '\r' {
        seq!['\\', 'r']
    } else if (c as int) < 32 {
        seq!['\\', 'u', '0', '0', codec::hex_digit(c as int / 16), codec::hex_digit(c as int % 16)]
    } else {
        seq![c]
    }
}

/// The inside of the JSON string for the text from `i` on.
pub open spec fn json_inside(s: Seq<char>, i: int) -> Seq<char>
    decreases s.len() - i,
{
    if i < 0 || i >= s.len() {
        Seq::empty()
    } else {
        json_char(s[i]) + json_inside(s, i + 1)
    }
}

/// A text as a JSON string.
pub open spec fn json_string(s: Seq<char>) -> Seq<char> {
    seq!['"'] + json_inside(s, 0) + seq!['"']
}

/// Calls `serde_json::to_string` on a string, which succeeds and gives it in quotes: a quote and a
/// backslash are escaped by a backslash, the control characters below the space by a letter or, where
/// they have none, by their number in four hexadecimal digits.
#[verifier::external_body]
fn json(text: &str) -> (r: String)
    ensures
        r@ == json_string(text@),
{
    serde_json::to_string(text).unwrap_or_default()
}

proof fn plain_digits(c: char)
    requires
        (c as int) < 32,
    ensures
        codec::hex_digit(c as int / 16) != '"',
        codec::hex_digit(c as int % 16) != '"',
{
    let n = c as int;
    assert(0 <= n);
    let low = n % 16;
    let high = n / 16;
    assert(0 <= low < 16);
    assert(0 <= high < 2);
}

/// A JSON string ends where it seems to: no quote stands in its inside but behind a backslash.
pub proof fn json_strings_stay_closed(s: Seq<char>, i: int, k: int)
    requires
        0 <= i <= s.len(),
        0 <= k < json_inside(s, i).len(),
        json_inside(s, i)[k] == '"',
    ensures
        k > 0,
        json_inside(s, i)[k - 1] == '\\',
    decreases s.len() - i,
{
    if i < s.len() {
        let head = json_char(s[i]);
        let rest = json_inside(s, i + 1);
        assert(json_inside(s, i) =~= head + rest);
        if (s[i] as int) < 32 {
            plain_digits(s[i]);
        }
        if k >= head.len() {
            assert(rest[k - head.len()] == '"');
            json_strings_stay_closed(s, i + 1, k - head.len());
        }
    }
}

// --- the page -------------------------------------------------------------

/// Toolbar toggles and the commands they run.
pub open spec fn format_commands() -> Seq<(Seq<char>, Seq<char>)> {
    seq![
        ("bold"@, "bold"@),
        ("italic"@, "italic"@),
        ("underline"@, "underline"@),
        ("strike"@, "strikeThrough"@),
        ("bullets"@, "insertUnorderedList"@),
        ("numbers"@, "insertOrderedList"@),
    ]
}

/// What a list of toggles says.
pub open spec fn command_views(list: Seq<(&'static str, &'static str)>) -> Seq<
    (Seq<char>, Seq<char>),
> {
    Seq::new(list.len(), |i: int| (list[i].0@, list[i].1@))
}

/// Toolbar toggles and the commands they run.
pub fn commands() -> (r: Vec<(&'static str, &'static str)>)
    ensures
        command_views(r@) == format_commands(),
{
    let list: Vec<(&'static str, &'static str)> = vec![
        ("bold", "bold"),
        ("italic", "italic"),
        ("underline", "underline"),
        ("strike", "strikeThrough"),
        ("bullets", "insertUnorderedList"),
        ("numbers", "insertOrderedList"),
    ];
    assert(command_views(list@) =~= format_commands());
    list
}

/// The command of the toggle with a name, from `i` on, or the name itself where there is none.
pub open spec fn command_of(name: Seq<char>, i: int) -> Seq<char>
    decreases format_commands().len() - i,
{
    if i < 0 || i >= format_commands().len() {
        name
    } else if format_commands()[i].0 == name {
        format_commands()[i].1
    } else {
        command_of(name, i + 1)
    }
}

/// The command that a toggle runs.
pub fn command_for(name: &str) -> (r: String)
    ensures
        r@ == command_of(name@, 0),
{
    let list = commands();
    let mut i: usize = 0;
    while i < list.len()
        invariant
            i <= list.len(),
            command_views(list@) == format_commands(),
            command_of(name@, 0) == command_of(name@, i as int),
        decreases list.len() - i,
    {
        assert(format_commands()[i as int] == command_views(list@)[i as int]);
        if text::same_str(list[i].0, name) {
            return list[i].1.to_owned();
        }
        i = i + 1;
    }
    name.to_owned()
}

/// The commands as a JSON array.
pub const COMMANDS_JSON: &'static str =
    "[\"bold\",\"italic\",\"underline\",\"strikeThrough\",\"insertUnorderedList\",\"insertOrderedList\"]";

/// A template with its marks filled in, one after the other.
pub open spec fn filled_page(
    template: Seq<char>,
    family: Seq<char>,
    size: Seq<char>,
    accent: Seq<char>,
    body: Seq<char>,
) -> Seq<char> {
    let a = text::replace_text(template, "__FAMILY__"@, family);
    let b = text::replace_text(a, "__SIZE__"@, size);
    let c = text::replace_text(b, "__ACCENT__"@, accent);
    let d = text::replace_text(c, "__BODY__"@, body);
    text::replace_text(d, "__COMMANDS__"@, COMMANDS_JSON@)
}

fn fill(page: &[char], mark: &str, with: &str) -> (r: Vec<char>)
    requires
        mark@.len() > 0,
    ensures
        r@ == text::replace_text(page@, mark@, with@),
{
    text::replaced_text(page, &text::chars_of(mark), &text::chars_of(with))
}

/// The editor's page, from its template.
pub fn page(template: &str, family: &str, size: &str, accent: &str, body: &str) -> (r: String)
    ensures
        r@ == filled_page(template@, family@, size@, accent@, body@),
{
    proof {
        reveal_strlit("__FAMILY__");
        reveal_strlit("__SIZE__");
        reveal_strlit("__ACCENT__");
        reveal_strlit("__BODY__");
        reveal_strlit("__COMMANDS__");
    }
    let a = fill(&text::chars_of(template), "__FAMILY__", family);
    let b = fill(&a, "__SIZE__", size);
    let c = fill(&b, "__ACCENT__", accent);
    let d = fill(&c, "__BODY__", body);
    let e = fill(&d, "__COMMANDS__", COMMANDS_JSON);
    text::text_of(&e)
}

/// The family and the size in a font description.
pub open spec fn font_parts(description: Seq<char>) -> (Seq<char>, Seq<char>) {
    let space = text::rfind(description, ' ');
    if space >= 0 && text::all_digits(description.skip(space + 1)) {
        (description.take(space), description.skip(space + 1))
    } else {
        (description, "11"@)
    }
}

/// Split a "Cantarell 11" style font description into family and size.
pub fn split_font(description: Option<&str>) -> (r: (String, String))
    ensures
        (r.0@, r.1@) == font_parts(
            match description {
                Some(d) => d@,
                None => "Sans 11"@,
            },
        ),
{
    let whole: &str = match description {
        Some(d) => d,
        None => "Sans 11",
    };
    let chars = text::chars_of(whole);
    if let Some(space) = text::rfind_char(&chars, ' ') {
        let size = text::slice_of(&chars, space + 1, chars.len());
        assert(size@ =~= whole@.skip(space + 1));
        let mut i: usize = 0;
        while i < size.len() && '0' <= size[i] && size[i] <= '9'
            invariant
                i <= size.len(),
                forall|k: int| 0 <= k < i ==> text::is_digit(#[trigger] size@[k]),
            decreases size.len() - i,
        {
            i = i + 1;
        }
        if i == size.len() {
            let family = text::slice_of(&chars, 0, space);
            assert(family@ =~= whole@.take(space as int));
            return (text::text_of(&family), text::text_of(&size));
        }
        assert(!text::is_digit(size@[i as int]));
    }
    (whole.to_owned(), "11".to_owned())
}

/// Whether a colour is one that the page gives unstyled text, in either scheme: text that reads back
/// as one of these carries no colour of its own.
pub fn is_default_text_color(hex: &str) -> (r: bool)
    ensures
        r == (hex@ == "#241f31"@ || hex@ == "#f6f5f4"@),
{
    text::same_str(hex, "#241f31") || text::same_str(hex, "#f6f5f4")
}

/// A text cut to some length, with an ellipsis.
pub open spec fn elided(s: Seq<char>, most: nat) -> Seq<char> {
    if s.len() <= most {
        s
    } else if most == 0 {
        seq!['\u{2026}']
    } else {
        s.take(most - 1).push('\u{2026}')
    }
}

/// `text` cut to `max` characters with an ellipsis, for a menu heading.
pub fn elide(text: &str, max: usize) -> (r: String)
    ensures
        r@ == elided(text@, max as nat),
{
    let chars = text::chars_of(text);
    if chars.len() <= max {
        return text.to_owned();
    }
    let keep: usize = if max > 0 {
        max - 1
    } else {
        0
    };
    let mut out = text::slice_of(&chars, 0, keep);
    out.push('\u{2026}');
    assert(out@ =~= elided(text@, max as nat));
    text::text_of(&out)
}

/// What is cut is never longer than asked, but for the ellipsis itself.
pub proof fn cut_fits(s: Seq<char>, most: nat)
    requires
        most > 0,
    ensures
        elided(s, most).len() <= most,
{
}

// --- scripts --------------------------------------------------------------

/// Which colour a swatch sets.
#[derive(Clone, Copy, Debug, PartialEq, Eq, Structural)]
pub enum ColorKind {
    Text,
    Highlight,
}

/// A call of a function of the page.
pub open spec fn call(function: Seq<char>, arguments: Seq<char>) -> Seq<char> {
    function + "("@ + arguments + ")"@
}

fn script(function: &str, arguments: &[char]) -> (r: String)
    ensures
        r@ == call(function@, arguments@),
{
    let mut out = text::chars_of(function);
    text::extend_str(&mut out, "(");
    text::extend(&mut out, arguments);
    text::extend_str(&mut out, ")");
    text::text_of(&out)
}

/// The script that runs one editing command.
pub fn exec(command: &str, argument: Option<&str>) -> (r: String)
    ensures
        r@ == call(
            "document.execCommand"@,
            json_string(command@) + ", false, "@ + (match argument {
                Some(a) => json_string(a@),
                None => "null"@,
            }),
        ),
{
    let mut arguments = text::chars_of(&json(command));
    text::extend_str(&mut arguments, ", false, ");
    match argument {
        Some(a) => {
            text::extend_str(&mut arguments, &json(a));
        },
        None => {
            text::extend_str(&mut arguments, "null");
        },
    }
    script("document.execCommand", &arguments)
}

/// The script that re-encodes the `index`th picture at the preset `name` (`original` restores
/// the bytes it was pasted with).
pub fn resize_image(index: usize, name: &str) -> (r: String)
    ensures
        r@ == call(
            "window.rustleResizeImage"@,
            text::decimal(index as nat) + ", "@ + json_string(name@),
        ),
{
    let mut arguments = text::to_decimal(index as u64);
    text::extend_str(&mut arguments, ", ");
    text::extend_str(&mut arguments, &json(name));
    script("window.rustleResizeImage", &arguments)
}

/// The script that takes the `index`th picture out of the message.
pub fn remove_image(index: usize) -> (r: String)
    ensures
        r@ == call("window.rustleRemoveImage"@, text::decimal(index as nat)),
{
    script("window.rustleRemoveImage", &text::to_decimal(index as u64))
}

/// The script that colours the selection or, with `None`, hands it back to its surroundings.
pub fn set_color(kind: ColorKind, hex: Option<&str>) -> (r: String)
    ensures
        r@ == call(
            "window.rustleSetColor"@,
            json_string(
                match kind {
                    ColorKind::Text => "text"@,
                    ColorKind::Highlight => "highlight"@,
                },
            ) + ", "@ + (match hex {
                Some(c) => json_string(c@),
                None => "null"@,
            }),
        ),
{
    let name: &str = match kind {
        ColorKind::Text => "text",
        ColorKind::Highlight => "highlight",
    };
    let mut arguments = text::chars_of(&json(name));
    text::extend_str(&mut arguments, ", ");
    match hex {
        Some(c) => {
            text::extend_str(&mut arguments, &json(c));
        },
        None => {
            text::extend_str(&mut arguments, "null");
        },
    }
    script("window.rustleSetColor", &arguments)
}

/// The script that links the selection to `href`, showing `text`.
pub fn insert_link(href: &str, text: &str) -> (r: String)
    ensures
        r@ == call(
            "window.rustleInsertLink"@,
            json_string(href@) + ", "@ + json_string(text@),
        ),
{
    let mut arguments = text::chars_of(&json(href));
    text::extend_str(&mut arguments, ", ");
    text::extend_str(&mut arguments, &json(text));
    script("window.rustleInsertLink", &arguments)
}

/// The script that points the `index`th link at `href`, showing `text`.
pub fn update_link(index: usize, href: &str, text: &str) -> (r: String)
    ensures
        r@ == call(
            "window.rustleUpdateLink"@,
            text::decimal(index as nat) + ", "@ + json_string(href@) + ", "@ + json_string(text@),
        ),
{
    let mut arguments = text::to_decimal(index as u64);
    text::extend_str(&mut arguments, ", ");
    text::extend_str(&mut arguments, &json(href));
    text::extend_str(&mut arguments, ", ");
    text::extend_str(&mut arguments, &json(text));
    script("window.rustleUpdateLink", &arguments)
}

/// The script that turns the `index`th link back into plain text.
pub fn remove_link(index: usize) -> (r: String)
    ensures
        r@ == call("window.rustleRemoveLink"@, text::decimal(index as nat)),
{
    script("window.rustleRemoveLink", &text::to_decimal(index as u64))
}

/// The start of the script that swaps the signature, before the new block.
pub const SWAP_BEFORE: &'static str = "(function () { var block = ";

/// The rest of the script that swaps the signature: the existing block is swapped for the
/// new one, or removed where that is empty. A body without one gets the block where the reply and
/// forward bodies put it: ahead of the quote, or at the end.
pub const SWAP_AFTER: &'static str = "; var old = document.querySelector('.signature'); if (old) { old.insertAdjacentHTML('beforebegin', block); old.remove(); } else if (block) { var quote = document.querySelector('blockquote'); var anchor = quote && (quote.previousElementSibling || quote); if (anchor) anchor.insertAdjacentHTML('beforebegin', block); else document.body.insertAdjacentHTML('beforeend', block); } else return; window.rustlePost(); })()";

/// The script that replaces the signature block in the body.
pub fn swap_signature(block: &str) -> (r: String)
    ensures
        r@ == SWAP_BEFORE@ + json_string(block@) + SWAP_AFTER@,
{
    let mut out = text::chars_of(SWAP_BEFORE);
    text::extend_str(&mut out, &json(block));
    text::extend_str(&mut out, SWAP_AFTER);
    text::text_of(&out)
}

// --- links ----------------------------------------------------------------

/// A link in the editor.
#[derive(Debug, PartialEq, Eq)]
pub struct Link {
    pub text: String,
    pub href: String,
}

/// What the link dialog starts with.
#[derive(Debug, PartialEq, Eq)]
pub struct LinkForm {
    pub heading: &'static str,
    pub confirm: &'static str,
    pub text: String,
    pub href: String,
    /// Whether the address is asked for first: so it is when the text is already there.
    pub starts_at_address: bool,
}

/// What the dialog for a link starts with: an existing link to edit, or the selection that a new
/// link will cover.
pub fn link_form(link: &Option<Link>, selection: &str) -> (r: LinkForm)
    ensures
        match *link {
            Some(l) => {
                &&& r.heading@ == "Edit Link"@
                &&& r.confirm@ == "Save"@
                &&& r.text@ == l.text@
                &&& r.href@ == l.href@
                &&& r.starts_at_address
            },
            None => {
                &&& r.heading@ == "Insert Link"@
                &&& r.confirm@ == "Insert"@
                &&& r.text@ == selection@
                &&& r.href@.len() == 0
                &&& r.starts_at_address == (selection@.len() > 0)
            },
        },
{
    match link {
        Some(l) => LinkForm {
            heading: "Edit Link",
            confirm: "Save",
            text: l.text.clone(),
            href: l.href.clone(),
            starts_at_address: true,
        },
        None => LinkForm {
            heading: "Insert Link",
            confirm: "Insert",
            text: selection.to_owned(),
            href: String::new(),
            starts_at_address: !selection.is_empty(),
        },
    }
}

/// Whether a link with this in its address field may be confirmed.
pub fn may_confirm(href: &str) -> (r: bool)
    ensures
        r == (text::trim(href@).len() > 0),
{
    !text::trim_str(href).as_str().is_empty()
}

/// The link that was confirmed: none without an address, and one without a text shows the address.
pub fn confirmed(text: &str, href: &str) -> (r: Option<Link>)
    ensures
        match r {
            Some(link) => {
                &&& text::trim(href@).len() > 0
                &&& link.href@ == text::trim(href@)
                &&& link.text@ == (if text::trim(text@).len() == 0 {
                    text::trim(href@)
                } else {
                    text::trim(text@)
                })
            },
            None => text::trim(href@).len() == 0,
        },
{
    let address = text::trim_str(href);
    if address.as_str().is_empty() {
        return None;
    }
    let shown = text::trim_str(text);
    let label: String = if shown.as_str().is_empty() {
        address.clone()
    } else {
        shown
    };
    Some(Link { text: label, href: address })
}

// --- pictures -------------------------------------------------------------

/// The name of a preset size for a picture.
pub fn size_label(name: &str) -> (r: &'static str)
    ensures
        r@ == (if name@ == "small"@ {
            "Small"@
        } else if name@ == "medium"@ {
            "Medium"@
        } else if name@ == "large"@ {
            "Large"@
        } else {
            "Original"@
        }),
{
    if text::same_str(name, "small") {
        "Small"
    } else if text::same_str(name, "medium") {
        "Medium"
    } else if text::same_str(name, "large") {
        "Large"
    } else {
        "Original"
    }
}

/// The size, on the seven-step scale of the page, of an entry of the size list: small, normal, large
/// or, from there on, huge.
pub fn font_size(entry: u32) -> (r: &'static str)
    ensures
        r@ == (if entry == 0 {
            "2"@
        } else if entry == 1 {
            "3"@
        } else if entry == 2 {
            "5"@
        } else {
            "6"@
        }),
{
    if entry == 0 {
        "2"
    } else if entry == 1 {
        "3"
    } else if entry == 2 {
        "5"
    } else {
        "6"
    }
}

/// A font description that ends in a size reads as its family and that size, and one that does not is
/// all family.
pub proof fn font_descriptions_read_back(family: Seq<char>, size: nat)
    ensures
        font_parts(family + seq![' '] + text::decimal(size)) == (family, text::decimal(size)),
        !family.contains(' ') ==> font_parts(family).0 == family,
{
    let digits = text::decimal(size);
    let all = family + seq![' '] + digits;
    text::numbers_read_back(size, size, 0, 0);
    text::digits_have_no(size, '+');
    text::digits_have_no(size, ' ');
    if digits.len() > 1 && digits[0] == '+' {
        assert(digits.contains(digits[0]));
    }
    assert(text::all_digits(digits));
    text::rfind_at_is_last(all, ' ', all.len() as int);
    let space = text::rfind(all, ' ');
    assert(all[family.len() as int] == ' ');
    if space > family.len() {
        assert(digits[space - family.len() - 1] == all[space]);
        assert(digits.contains(digits[space - family.len() - 1]));
    }
    assert(all.take(space) =~= family);
    assert(all.skip(space + 1) =~= digits);
    text::rfind_at_is_last(family, ' ', family.len() as int);
    if text::rfind(family, ' ') >= 0 {
        assert(family.contains(family[text::rfind(family, ' ')]));
    }
}

/// What is cut keeps as much of the text as fits beside the ellipsis, and what fits is not cut.
pub proof fn cutting_keeps_what_fits(s: Seq<char>, most: nat)
    requires
        most > 0,
    ensures
        s.len() <= most ==> elided(s, most) == s,
        s.len() > most ==> elided(s, most).len() == most && elided(s, most).drop_last()
            == s.take(most - 1) && elided(s, most).last() == '\u{2026}',
{
    if s.len() > most {
        assert(elided(s, most).drop_last() =~= s.take(most - 1));
    }
}

} // verus!
