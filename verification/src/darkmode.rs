//! Dark-mode adaptation of message HTML:
//! light backgrounds are pulled down to dark, dark text and borders are lifted
//! to light, and everything keeps its hue so brand colours survive. Nothing
//! else is touched: images, already-dark designs, mid-tone colours.
//!
//! The reader runs with JavaScript off, so this is a source rewrite: inline
//! `style` attributes, the legacy colour attributes (`bgcolor`, `color`,
//! `text`, ...) and `<style>` blocks. Layout is never altered.
//!
//! This module finds the colours of a page and puts others in their place. What a colour becomes
//! is computed in floating point by the caller, which gives it as a table.

use vstd::prelude::*;
use crate::html;
use crate::pattern;
use crate::text;

verus! {

/// The canvas the reader paints behind a message in dark mode. White maps onto the same lightness.
pub const CANVAS: &'static str = "#1a1a1a";

/// The text colour an unstyled body gets in dark mode.
pub const TEXT: &'static str = "#f0f0f0";

/// The attributes that hold colours.
pub const ATTRIBUTE_PATTERN: &'static str =
    "(?i)(\\s(style|bgcolor|color|text|link|alink|vlink|bordercolor)\\s*=\\s*)(?:\"([^\"]*)\"|'([^']*)'|([^\\s\"'>]+))";

/// The body of a rule in a stylesheet.
pub const RULE_PATTERN: &'static str = "\\{([^{}]*)\\}";

/// What may be a colour in a value, and what has to be skipped whole.
pub const TOKEN_PATTERN: &'static str =
    "(?i)url\\([^)]*\\)|[a-z-]+-gradient\\([^)]*\\)|#[0-9a-f]{3,8}\\b|rgba?\\([^)]*\\)|hsla?\\([^)]*\\)|[a-z]+";

/// What a colour is for.
#[derive(Clone, Copy, Debug, PartialEq, Eq, Structural)]
pub enum Role {
    Background,
    Text,
    Border,
}

/// What the property of a name colours, if anything.
pub open spec fn role_of(property: Seq<char>) -> Option<Role> {
    let name = text::ascii_lower(property);
    if name == "background"@ || name == "background-color"@ {
        Some(Role::Background)
    } else if name == "color"@ || name == "-webkit-text-fill-color"@ || name == "fill"@ {
        Some(Role::Text)
    } else if text::starts_with(name, "border"@) || text::starts_with(name, "outline"@) {
        Some(Role::Border)
    } else if name == "box-shadow"@ || name == "text-decoration-color"@ || name
        == "column-rule-color"@ {
        Some(Role::Border)
    } else {
        None
    }
}

impl Role {
    /// What the property of a name colours, if anything.
    pub fn of(property: &str) -> (r: Option<Self>)
        ensures
            r == role_of(property@),
    {
        let lower = text::to_ascii_lower(&text::chars_of(property));
        let name = text::text_of(&lower);
        if text::same_str(&name, "background") || text::same_str(&name, "background-color") {
            Some(Role::Background)
        } else if text::same_str(&name, "color") || text::same_str(
            &name,
            "-webkit-text-fill-color",
        ) || text::same_str(&name, "fill") {
            Some(Role::Text)
        } else if text::str_starts(&name, "border") || text::str_starts(&name, "outline") {
            Some(Role::Border)
        } else if text::same_str(&name, "box-shadow") || text::same_str(
            &name,
            "text-decoration-color",
        ) || text::same_str(&name, "column-rule-color") {
            Some(Role::Border)
        } else {
            None
        }
    }
}

// --- pieces ---------------------------------------------------------------

/// A piece of a page.
#[derive(Debug, PartialEq, Eq)]
pub enum Piece {
    /// Something that stays.
    Text(String),
    /// Something that may be a colour.
    Colour { token: String, role: Role },
}

/// What a piece says.
pub enum PieceView {
    Text(Seq<char>),
    Colour { token: Seq<char>, role: Role },
}

impl View for Piece {
    type V = PieceView;

    open spec fn view(&self) -> PieceView {
        match self {
            Piece::Text(t) => PieceView::Text(t@),
            Piece::Colour { token, role } => PieceView::Colour { token: token@, role: *role },
        }
    }
}

/// What some pieces say.
pub open spec fn piece_views(pieces: Seq<Piece>) -> Seq<PieceView> {
    Seq::new(pieces.len(), |i: int| pieces[i]@)
}

/// The pieces of a value from its `i`th gap on: gaps and tokens in turn.
pub open spec fn turns(gaps: Seq<Seq<char>>, tokens: Seq<Seq<char>>, role: Role, i: int) -> Seq<
    PieceView,
>
    decreases gaps.len() - i,
{
    if i < 0 || i >= gaps.len() {
        Seq::empty()
    } else if i < tokens.len() {
        seq![PieceView::Text(gaps[i]), PieceView::Colour { token: tokens[i], role }] + turns(
            gaps,
            tokens,
            role,
            i + 1,
        )
    } else {
        seq![PieceView::Text(gaps[i])] + turns(gaps, tokens, role, i + 1)
    }
}

/// The pieces of a value that colours something.
pub open spec fn value_pieces(value: Seq<char>, role: Role) -> Seq<PieceView> {
    turns(
        pattern::pattern_gaps(TOKEN_PATTERN@, value),
        pattern::whole_matches(pattern::pattern_groups(TOKEN_PATTERN@, value)),
        role,
        0,
    )
}

/// The pieces of a declaration: its value's, if it colours something.
pub open spec fn declaration_pieces(declaration: Seq<char>) -> Seq<PieceView> {
    let colon = text::find(declaration, ':');
    if colon >= declaration.len() {
        seq![PieceView::Text(declaration)]
    } else {
        match role_of(text::trim(declaration.take(colon))) {
            Some(role) => seq![PieceView::Text(declaration.take(colon + 1))] + value_pieces(
                declaration.skip(colon + 1),
                role,
            ),
            None => seq![PieceView::Text(declaration)],
        }
    }
}

/// The declarations of a style, split on `;` outside parentheses, where the one that is read started
/// at `start`, the text is read up to `i` and `depth` parentheses are open.
pub open spec fn declarations(s: Seq<char>, start: int, i: int, depth: nat) -> Seq<Seq<char>>
    decreases s.len() - i,
{
    if i < 0 || i >= s.len() {
        seq![s.skip(start)]
    } else if s[i] == '(' {
        declarations(s, start, i + 1, depth + 1)
    } else if s[i] == ')' {
        declarations(
            s,
            start,
            i + 1,
            if depth > 0 {
                (depth - 1) as nat
            } else {
                0
            },
        )
    } else if s[i] == ';' && depth == 0 {
        seq![s.subrange(start, i)] + declarations(s, i + 1, i + 1, 0)
    } else {
        declarations(s, start, i + 1, depth)
    }
}

/// The pieces of the declarations from the `i`th on, with the `;` before each but the first.
pub open spec fn list_pieces(parts: Seq<Seq<char>>, i: int) -> Seq<PieceView>
    decreases parts.len() - i,
{
    if i < 0 || i >= parts.len() {
        Seq::empty()
    } else if i == 0 {
        declaration_pieces(parts[0]) + list_pieces(parts, 1)
    } else {
        seq![PieceView::Text(";"@)] + declaration_pieces(parts[i]) + list_pieces(parts, i + 1)
    }
}

/// The pieces of a style.
pub open spec fn style_pieces(style: Seq<char>) -> Seq<PieceView> {
    list_pieces(declarations(style, 0, 0, 0), 0)
}

/// A group of a match, empty if it took no part in it.
pub open spec fn group_at(groups: Seq<Option<Seq<char>>>, k: int) -> Option<Seq<char>> {
    if 0 <= k < groups.len() {
        groups[k]
    } else {
        None
    }
}

/// The text of a group of a match, empty if it took no part in it.
pub open spec fn group_or_empty(groups: Seq<Option<Seq<char>>>, k: int) -> Seq<char> {
    match group_at(groups, k) {
        Some(t) => t,
        None => Seq::empty(),
    }
}

/// The pieces of a stylesheet from its `i`th gap on.
pub open spec fn sheet_pieces(
    gaps: Seq<Seq<char>>,
    found: Seq<Seq<Option<Seq<char>>>>,
    i: int,
) -> Seq<PieceView>
    decreases gaps.len() - i,
{
    if i < 0 || i >= gaps.len() {
        Seq::empty()
    } else if i < found.len() {
        seq![PieceView::Text(gaps[i]), PieceView::Text("{"@)] + style_pieces(
            group_or_empty(found[i], 1),
        ) + seq![PieceView::Text("}"@)] + sheet_pieces(gaps, found, i + 1)
    } else {
        seq![PieceView::Text(gaps[i])] + sheet_pieces(gaps, found, i + 1)
    }
}

/// The value of an attribute: in double quotes, in single ones or bare.
pub open spec fn attribute_value(groups: Seq<Option<Seq<char>>>) -> Seq<char> {
    match group_at(groups, 3) {
        Some(v) => v,
        None => match group_at(groups, 4) {
            Some(v) => v,
            None => group_or_empty(groups, 5),
        },
    }
}

/// The quote that an attribute gets: its own, or a double one if it had none.
pub open spec fn attribute_quote(groups: Seq<Option<Seq<char>>>) -> Seq<char> {
    if group_at(groups, 3) is None && group_at(groups, 4) is Some {
        "'"@
    } else {
        "\""@
    }
}

/// The pieces of an attribute's value.
pub open spec fn attribute_inside(name: Seq<char>, value: Seq<char>) -> Seq<PieceView> {
    if name == "style"@ {
        style_pieces(value)
    } else if name == "bgcolor"@ {
        value_pieces(value, Role::Background)
    } else if name == "bordercolor"@ {
        value_pieces(value, Role::Border)
    } else {
        value_pieces(value, Role::Text)
    }
}

/// The pieces of an attribute.
pub open spec fn attribute_pieces(groups: Seq<Option<Seq<char>>>) -> Seq<PieceView> {
    seq![
        PieceView::Text(group_or_empty(groups, 1)),
        PieceView::Text(attribute_quote(groups)),
    ] + attribute_inside(
        text::ascii_lower(group_or_empty(groups, 2)),
        attribute_value(groups),
    ) + seq![PieceView::Text(attribute_quote(groups))]
}

/// The pieces of a tag from its `i`th gap on.
pub open spec fn tag_pieces(
    gaps: Seq<Seq<char>>,
    found: Seq<Seq<Option<Seq<char>>>>,
    i: int,
) -> Seq<PieceView>
    decreases gaps.len() - i,
{
    if i < 0 || i >= gaps.len() {
        Seq::empty()
    } else if i < found.len() {
        seq![PieceView::Text(gaps[i])] + attribute_pieces(found[i]) + tag_pieces(gaps, found, i + 1)
    } else {
        seq![PieceView::Text(gaps[i])] + tag_pieces(gaps, found, i + 1)
    }
}

/// The place of the `>` that closes a tag, from `i` on, where a quote may be open.
pub open spec fn tag_end(s: Seq<char>, i: int, quote: Option<char>) -> Option<int>
    decreases s.len() - i,
{
    if i < 0 || i >= s.len() {
        None
    } else {
        match quote {
            Some(q) => tag_end(
                s,
                i + 1,
                if s[i] == q {
                    None
                } else {
                    quote
                },
            ),
            None => if s[i] == '"' || s[i] == '\'' {
                tag_end(s, i + 1, Some(s[i]))
            } else if s[i] == '>' {
                Some(i)
            } else {
                tag_end(s, i + 1, None)
            },
        }
    }
}

/// Where the comment that starts at `open` ends.
pub open spec fn comment_end(s: Seq<char>, open: int) -> int {
    match text::find_text_at(s, "-->"@, open + 1) {
        Some(e) => e + 3,
        None => s.len() as int,
    }
}

/// Whether a letter, a slash or a bang follows the `<` at `open`.
pub open spec fn opens_tag(s: Seq<char>, open: int) -> bool {
    open + 1 < s.len() && (html::is_alpha(s[open + 1]) || s[open + 1] == '/' || s[open + 1] == '!')
}

/// Whether the tag at `open` starts a stylesheet.
pub open spec fn opens_style(s: Seq<char>, open: int) -> bool {
    &&& text::starts_with(text::ascii_lower(s.skip(open + 1)), "style"@)
    &&& !(open + 6 < s.len() && html::is_alnum(s[open + 6]))
}

/// Where the stylesheet that starts at `start` ends.
pub open spec fn style_end(s: Seq<char>, start: int) -> int {
    match text::find_text_at(text::ascii_lower(s), "</style"@, start) {
        Some(e) => e,
        None => s.len() as int,
    }
}

/// The pieces of a stylesheet.
pub open spec fn stylesheet_pieces(css: Seq<char>) -> Seq<PieceView> {
    sheet_pieces(
        pattern::pattern_gaps(RULE_PATTERN@, css),
        pattern::pattern_groups(RULE_PATTERN@, css),
        0,
    )
}

/// The pieces of a tag.
pub open spec fn whole_tag_pieces(tag: Seq<char>) -> Seq<PieceView> {
    tag_pieces(
        pattern::pattern_gaps(ATTRIBUTE_PATTERN@, tag),
        pattern::pattern_groups(ATTRIBUTE_PATTERN@, tag),
        0,
    )
}

/// The pieces of a page from `pos` on.
pub open spec fn page_pieces(s: Seq<char>, pos: int) -> Seq<PieceView>
    decreases s.len() - pos,
{
    let open = text::find_at(s, '<', pos);
    if pos < 0 || pos > s.len() {
        Seq::empty()
    } else if open >= s.len() || open < pos {
        seq![PieceView::Text(s.skip(pos))]
    } else {
        proof {
            text::find_text_at_is_first(s, "-->"@, open + 1);
            reveal_strlit("-->");
            tag_end_is_after(s, open + 1, None);
        }
        let before = seq![PieceView::Text(s.subrange(pos, open))];
        if text::starts_with(s.skip(open + 1), "!--"@) {
            let end = comment_end(s, open);
            before + seq![PieceView::Text(s.subrange(open, end))] + page_pieces(s, end)
        } else {
            match tag_end(s, open + 1, None) {
                Some(close) => if opens_tag(s, open) {
                    let tag = whole_tag_pieces(s.subrange(open, close + 1));
                    if opens_style(s, open) {
                        let end = style_end(s, close + 1);
                        proof {
                            text::find_text_at_is_first(
                                text::ascii_lower(s),
                                "</style"@,
                                close + 1,
                            );
                            reveal_strlit("</style");
                        }
                        before + tag + stylesheet_pieces(s.subrange(close + 1, end)) + page_pieces(
                            s,
                            end,
                        )
                    } else {
                        before + tag + page_pieces(s, close + 1)
                    }
                } else {
                    before + seq![PieceView::Text("<"@)] + page_pieces(s, open + 1)
                },
                None => before + seq![PieceView::Text("<"@)] + page_pieces(s, open + 1),
            }
        }
    }
}

/// A tag ends behind its start.
pub proof fn tag_end_is_after(s: Seq<char>, i: int, quote: Option<char>)
    requires
        0 <= i,
    ensures
        tag_end(s, i, quote) matches Some(e) ==> i <= e < s.len(),
    decreases s.len() - i,
{
    if i < s.len() {
        match quote {
            Some(q) => {
                tag_end_is_after(
                    s,
                    i + 1,
                    if s[i] == q {
                        None
                    } else {
                        quote
                    },
                );
            },
            None => {
                tag_end_is_after(s, i + 1, Some(s[i]));
                tag_end_is_after(s, i + 1, None);
            },
        }
    }
}

// --- finding the pieces ---------------------------------------------------

fn push_text(out: &mut Vec<Piece>, piece: &str)
    ensures
        piece_views(final(out)@) == piece_views(old(out)@) + seq![PieceView::Text(piece@)],
{
    out.push(Piece::Text(piece.to_owned()));
    assert(piece_views(out@) =~= piece_views(old(out)@) + seq![PieceView::Text(piece@)]);
}

fn push_chars(out: &mut Vec<Piece>, s: &[char], start: usize, end: usize)
    requires
        start <= end <= s.len(),
    ensures
        piece_views(final(out)@) == piece_views(old(out)@) + seq![
            PieceView::Text(s@.subrange(start as int, end as int)),
        ],
{
    let piece = text::slice_of(s, start, end);
    push_text(out, &text::text_of(&piece));
}

fn append(out: &mut Vec<Piece>, more: &mut Vec<Piece>)
    ensures
        piece_views(final(out)@) == piece_views(old(out)@) + piece_views(old(more)@),
{
    out.append(more);
    assert(piece_views(out@) =~= piece_views(old(out)@) + piece_views(old(more)@));
}

/// What pieces read as, where nothing is recoloured.
pub open spec fn plain_text(pieces: Seq<PieceView>, i: int) -> Seq<char>
    decreases pieces.len() - i,
{
    if i < 0 || i >= pieces.len() {
        Seq::empty()
    } else {
        (match pieces[i] {
            PieceView::Text(t) => t,
            PieceView::Colour { token, role } => token,
        }) + plain_text(pieces, i + 1)
    }
}

proof fn plain_text_shifts(a: Seq<PieceView>, b: Seq<PieceView>, i: int)
    requires
        0 <= i <= b.len(),
    ensures
        plain_text(a + b, a.len() + i) == plain_text(b, i),
    decreases b.len() - i,
{
    if i < b.len() {
        assert((a + b)[a.len() + i] == b[i]);
        plain_text_shifts(a, b, i + 1);
    }
}

proof fn turns_read_back(gaps: Seq<Seq<char>>, tokens: Seq<Seq<char>>, role: Role, i: int)
    requires
        0 <= i <= gaps.len(),
    ensures
        plain_text(turns(gaps, tokens, role, i), 0) == pattern::interleave(gaps, tokens, i),
    decreases gaps.len() - i,
{
    if i < gaps.len() {
        let rest = turns(gaps, tokens, role, i + 1);
        turns_read_back(gaps, tokens, role, i + 1);
        if i < tokens.len() {
            let head = seq![
                PieceView::Text(gaps[i]),
                PieceView::Colour { token: tokens[i], role },
            ];
            plain_text_shifts(head, rest, 0);
            assert((head + rest)[0] == head[0] && (head + rest)[1] == head[1]);
            assert(plain_text(head + rest, 1) =~= tokens[i] + plain_text(rest, 0));
            assert(plain_text(head + rest, 0) =~= gaps[i] + plain_text(head + rest, 1));
            assert(gaps[i] + (tokens[i] + plain_text(rest, 0)) =~= gaps[i] + tokens[i]
                + plain_text(rest, 0));
        } else {
            let head = seq![PieceView::Text(gaps[i])];
            plain_text_shifts(head, rest, 0);
            assert((head + rest)[0] == head[0]);
            assert(plain_text(head + rest, 0) =~= gaps[i] + plain_text(rest, 0));
        }
    }
}

/// The pieces of a value that colours something. They make up the value.
pub fn pieces_of_value(value: &str, role: Role) -> (r: Vec<Piece>)
    ensures
        piece_views(r@) == value_pieces(value@, role),
        plain_text(piece_views(r@), 0) == value@,
{
    let gaps = pattern::gaps(TOKEN_PATTERN, value);
    let found = pattern::matches(TOKEN_PATTERN, value);
    let tokens = pattern::first_groups(&found);
    let ghost g = text::texts(gaps@);
    let ghost t = text::texts(tokens@);
    proof {
        let groups = pattern::groups_view(found@);
        assert forall|i: int| 0 <= i < groups.len() implies #[trigger] pattern::whole_matches(
            groups,
        )[i] == t[i] by {
            assert(groups[i] == pattern::match_view(found@[i]@));
            assert(groups[i][0] == pattern::group_text(found@[i]@[0]));
        }
        assert(pattern::whole_matches(groups) =~= t);
    }
    let mut out: Vec<Piece> = Vec::new();
    let mut i: usize = 0;
    while i < gaps.len()
        invariant
            i <= gaps.len(),
            g == text::texts(gaps@),
            t == text::texts(tokens@),
            piece_views(out@) + turns(g, t, role, i as int) =~= turns(g, t, role, 0),
        decreases gaps.len() - i,
    {
        let ghost before = piece_views(out@);
        push_text(&mut out, &gaps[i]);
        if i < tokens.len() {
            let ghost middle = out@;
            out.push(Piece::Colour { token: tokens[i].clone(), role });
            assert(piece_views(out@) =~= piece_views(middle).push(
                PieceView::Colour { token: t[i as int], role },
            ));
        }
        i = i + 1;
    }
    proof {
        turns_read_back(g, t, role, 0);
    }
    out
}

fn pieces_of_declaration(declaration: &[char]) -> (r: Vec<Piece>)
    ensures
        piece_views(r@) == declaration_pieces(declaration@),
{
    let mut out: Vec<Piece> = Vec::new();
    assert(piece_views(out@) =~= Seq::empty());
    let n: usize = declaration.len();
    let colon: usize = text::find_char(declaration, ':', 0);
    if colon < n {
        let property = text::trimmed(&text::slice_of(declaration, 0, colon));
        assert(declaration@.subrange(0, colon as int) =~= declaration@.take(colon as int));
        if let Some(role) = Role::of(&text::text_of(&property)) {
            push_chars(&mut out, declaration, 0, colon + 1);
            let value = text::slice_of(declaration, colon + 1, n);
            assert(value@ =~= declaration@.skip(colon + 1));
            assert(declaration@.subrange(0, colon + 1) =~= declaration@.take(colon + 1));
            let mut inner = pieces_of_value(&text::text_of(&value), role);
            append(&mut out, &mut inner);
            return out;
        }
    }
    push_chars(&mut out, declaration, 0, n);
    assert(declaration@.subrange(0, n as int) =~= declaration@);
    out
}

/// Split on `;` outside parentheses, so a `url(data:...;base64,...)` survives.
pub fn split_declarations(style: &[char]) -> (r: Vec<Vec<char>>)
    ensures
        text::char_texts(r@) == declarations(style@, 0, 0, 0),
        r.len() >= 1,
{
    let mut parts: Vec<Vec<char>> = Vec::new();
    let mut depth: usize = 0;
    let mut start: usize = 0;
    let mut i: usize = 0;
    assert(text::char_texts(parts@) =~= Seq::empty());
    while i < style.len()
        invariant
            start <= i <= style.len(),
            depth <= i,
            text::char_texts(parts@) + declarations(
                style@,
                start as int,
                i as int,
                depth as nat,
            ) =~= declarations(style@, 0, 0, 0),
        decreases style.len() - i,
    {
        let c = style[i];
        if c == '(' {
            depth = depth + 1;
        } else if c == ')' {
            if depth > 0 {
                depth = depth - 1;
            }
        } else if c == ';' && depth == 0 {
            let ghost before = parts@;
            let part = text::slice_of(style, start, i);
            let ghost view = part@;
            parts.push(part);
            assert(text::char_texts(parts@) =~= text::char_texts(before).push(view));
            start = i + 1;
        }
        i = i + 1;
    }
    let ghost before = parts@;
    let part = text::slice_of(style, start, style.len());
    assert(part@ =~= style@.skip(start as int));
    let ghost view = part@;
    parts.push(part);
    assert(text::char_texts(parts@) =~= text::char_texts(before).push(view));
    parts
}

/// The pieces of a `prop: value; prop: value` list, with unknown properties as
/// they are.
pub fn pieces_of_style(style: &str) -> (r: Vec<Piece>)
    ensures
        piece_views(r@) == style_pieces(style@),
{
    let parts = split_declarations(&text::chars_of(style));
    let ghost views = text::char_texts(parts@);
    let mut out: Vec<Piece> = Vec::new();
    let mut i: usize = 0;
    assert(piece_views(out@) =~= Seq::empty());
    while i < parts.len()
        invariant
            i <= parts.len(),
            views == text::char_texts(parts@),
            piece_views(out@) + list_pieces(views, i as int) =~= list_pieces(views, 0),
        decreases parts.len() - i,
    {
        if i > 0 {
            push_text(&mut out, ";");
        }
        assert(views[i as int] == parts@[i as int]@);
        let mut inner = pieces_of_declaration(&parts[i]);
        append(&mut out, &mut inner);
        i = i + 1;
    }
    out
}

fn group_in(groups: &[Option<String>], k: usize) -> (r: Option<&str>)
    ensures
        match r {
            Some(t) => group_at(pattern::match_view(groups@), k as int) == Some(t@),
            None => group_at(pattern::match_view(groups@), k as int) is None,
        },
{
    if k < groups.len() {
        assert(pattern::match_view(groups@)[k as int] == pattern::group_text(groups@[k as int]));
        match &groups[k] {
            Some(t) => Some(t.as_str()),
            None => None,
        }
    } else {
        None
    }
}

fn group_text_in(groups: &[Option<String>], k: usize) -> (r: &str)
    ensures
        r@ == group_or_empty(pattern::match_view(groups@), k as int),
{
    proof {
        reveal_strlit("");
        assert(""@ =~= Seq::<char>::empty());
    }
    match group_in(groups, k) {
        Some(t) => t,
        None => "",
    }
}

fn pieces_of_stylesheet(css: &str) -> (r: Vec<Piece>)
    ensures
        piece_views(r@) == stylesheet_pieces(css@),
{
    let gaps = pattern::gaps(RULE_PATTERN, css);
    let found = pattern::matches(RULE_PATTERN, css);
    let ghost g = text::texts(gaps@);
    let ghost f = pattern::groups_view(found@);
    let mut out: Vec<Piece> = Vec::new();
    let mut i: usize = 0;
    assert(piece_views(out@) =~= Seq::empty());
    while i < gaps.len()
        invariant
            i <= gaps.len(),
            g == text::texts(gaps@),
            f == pattern::groups_view(found@),
            piece_views(out@) + sheet_pieces(g, f, i as int) =~= sheet_pieces(g, f, 0),
        decreases gaps.len() - i,
    {
        push_text(&mut out, &gaps[i]);
        if i < found.len() {
            assert(f[i as int] == pattern::match_view(found@[i as int]@));
            push_text(&mut out, "{");
            let mut inner = pieces_of_style(group_text_in(&found[i], 1));
            append(&mut out, &mut inner);
            push_text(&mut out, "}");
        }
        i = i + 1;
    }
    out
}

fn pieces_of_attribute(groups: &[Option<String>]) -> (r: Vec<Piece>)
    ensures
        piece_views(r@) == attribute_pieces(pattern::match_view(groups@)),
{
    let mut out: Vec<Piece> = Vec::new();
    assert(piece_views(out@) =~= Seq::empty());
    let value: &str = match group_in(groups, 3) {
        Some(v) => v,
        None => match group_in(groups, 4) {
            Some(v) => v,
            None => group_text_in(groups, 5),
        },
    };
    let single = group_in(groups, 3).is_none() && group_in(groups, 4).is_some();
    let quote: &str = if single {
        "'"
    } else {
        "\""
    };
    push_text(&mut out, group_text_in(groups, 1));
    push_text(&mut out, quote);
    let lower = text::to_ascii_lower(&text::chars_of(group_text_in(groups, 2)));
    let name = text::text_of(&lower);
    let mut inner = if text::same_str(&name, "style") {
        pieces_of_style(value)
    } else if text::same_str(&name, "bgcolor") {
        pieces_of_value(value, Role::Background)
    } else if text::same_str(&name, "bordercolor") {
        pieces_of_value(value, Role::Border)
    } else {
        pieces_of_value(value, Role::Text)
    };
    append(&mut out, &mut inner);
    push_text(&mut out, quote);
    out
}

fn pieces_of_tag(tag: &str) -> (r: Vec<Piece>)
    ensures
        piece_views(r@) == whole_tag_pieces(tag@),
{
    let gaps = pattern::gaps(ATTRIBUTE_PATTERN, tag);
    let found = pattern::matches(ATTRIBUTE_PATTERN, tag);
    let ghost g = text::texts(gaps@);
    let ghost f = pattern::groups_view(found@);
    let mut out: Vec<Piece> = Vec::new();
    let mut i: usize = 0;
    assert(piece_views(out@) =~= Seq::empty());
    while i < gaps.len()
        invariant
            i <= gaps.len(),
            g == text::texts(gaps@),
            f == pattern::groups_view(found@),
            piece_views(out@) + tag_pieces(g, f, i as int) =~= tag_pieces(g, f, 0),
        decreases gaps.len() - i,
    {
        push_text(&mut out, &gaps[i]);
        if i < found.len() {
            assert(f[i as int] == pattern::match_view(found@[i as int]@));
            let mut inner = pieces_of_attribute(&found[i]);
            append(&mut out, &mut inner);
        }
        i = i + 1;
    }
    out
}

/// Index of the `>` closing the tag whose inside starts at `from`, honouring quotes.
fn find_tag_end(s: &[char], from: usize) -> (r: Option<usize>)
    requires
        from <= s.len(),
    ensures
        match r {
            Some(e) => tag_end(s@, from as int, None) == Some(e as int) && from <= e < s.len(),
            None => tag_end(s@, from as int, None) is None,
        },
{
    let mut quote: Option<char> = None;
    let mut i: usize = from;
    while i < s.len()
        invariant
            from <= i <= s.len(),
            tag_end(s@, from as int, None) == tag_end(s@, i as int, quote),
        decreases s.len() - i,
    {
        let c = s[i];
        match quote {
            Some(q) => {
                if c == q {
                    quote = None;
                }
            },
            None => {
                if c == '"' || c == '\'' {
                    quote = Some(c);
                } else if c == '>' {
                    return Some(i);
                }
            },
        }
        i = i + 1;
    }
    None
}

/// The pieces of a page: its text, and what may be a colour where colours stand.
pub fn pieces(html: &str) -> (r: Vec<Piece>)
    ensures
        piece_views(r@) == page_pieces(html@, 0),
{
    let s = text::chars_of(html);
    let lower = text::to_ascii_lower(&s);
    let n: usize = s.len();
    let mut out: Vec<Piece> = Vec::new();
    let mut pos: usize = 0;
    assert(piece_views(out@) =~= Seq::empty());
    let mut open: usize = text::find_char(&s, '<', 0);
    while open < n
        invariant
            n == s.len(),
            s@ == html@,
            lower@ == text::ascii_lower(s@),
            lower.len() == n,
            pos <= n,
            open == text::find_at(s@, '<', pos as int),
            pos <= open <= n,
            piece_views(out@) + page_pieces(s@, pos as int) =~= page_pieces(s@, 0),
        decreases n - pos,
    {
        proof {
            text::find_at_is_first(s@, '<', pos as int);
        }
        push_chars(&mut out, &s, pos, open);
        let ghost old_pos = pos;
        let after = text::slice_of(&lower, open + 1, n);
        proof {
            assert(after@ =~= text::ascii_lower(s@.skip(open + 1)));
            comment_mark_has_no_case(s@.skip(open + 1));
        }
        if text::stands_at(&after, &text::chars_of("!--"), 0) {
            let end: usize = match text::find_text(&s, &text::chars_of("-->"), open + 1) {
                Some(e) => {
                    proof {
                        text::find_text_at_is_first(s@, "-->"@, open + 1);
                        reveal_strlit("-->");
                    }
                    e + 3
                },
                None => n,
            };
            push_chars(&mut out, &s, open, end);
            pos = end;
        } else {
            let is_tag = open + 1 < n && (html::alpha(s[open + 1]) || s[open + 1] == '/' || s[open
                + 1] == '!');
            match find_tag_end(&s, open + 1) {
                Some(close) => {
                    if is_tag {
                        let tag = text::slice_of(&s, open, close + 1);
                        let mut inner = pieces_of_tag(&text::text_of(&tag));
                        append(&mut out, &mut inner);
                        let sheet = text::stands_at(&after, &text::chars_of("style"), 0) && !(
                        after.len() > 5 && html::alnum(s[open + 6]));
                        if sheet {
                            let end: usize = match text::find_text(
                                &lower,
                                &text::chars_of("</style"),
                                close + 1,
                            ) {
                                Some(e) => {
                                    proof {
                                        text::find_text_at_is_first(
                                            lower@,
                                            "</style"@,
                                            close + 1,
                                        );
                                        reveal_strlit("</style");
                                    }
                                    e
                                },
                                None => n,
                            };
                            let css = text::slice_of(&s, close + 1, end);
                            let mut rules = pieces_of_stylesheet(&text::text_of(&css));
                            append(&mut out, &mut rules);
                            pos = end;
                        } else {
                            pos = close + 1;
                        }
                    } else {
                        push_text(&mut out, "<");
                        pos = open + 1;
                    }
                },
                None => {
                    push_text(&mut out, "<");
                    pos = open + 1;
                },
            }
        }
        open = text::find_char(&s, '<', pos);
    }
    push_chars(&mut out, &s, pos, n);
    assert(s@.subrange(pos as int, n as int) =~= s@.skip(pos as int));
    out
}

proof fn comment_mark_has_no_case(s: Seq<char>)
    ensures
        text::starts_with(text::ascii_lower(s), "!--"@) == text::starts_with(s, "!--"@),
{
    reveal_strlit("!--");
    let m = "!--"@;
    let low = text::ascii_lower(s);
    if text::starts_with(low, m) {
        let head = low.subrange(0, 3);
        assert(head[0] == low[0] && head[1] == low[1] && head[2] == low[2]);
        assert(s.subrange(0, 3) =~= m);
    }
    if text::starts_with(s, m) {
        let head = s.subrange(0, 3);
        assert(head[0] == s[0] && head[1] == s[1] && head[2] == s[2]);
        assert(low.subrange(0, 3) =~= m);
    }
}

// --- recolouring ----------------------------------------------------------

/// What a colour becomes where it has a role.
#[derive(Debug, PartialEq, Eq)]
pub struct Recolour {
    pub token: String,
    pub role: Role,
    pub css: String,
}

/// What the first entry of a table, from the `i`th on, that speaks of a colour in a role makes of
/// it.
pub open spec fn entry_for(table: Seq<Recolour>, token: Seq<char>, role: Role, i: int) -> Option<
    Seq<char>,
>
    decreases table.len() - i,
{
    if i < 0 || i >= table.len() {
        None
    } else if table[i].token@ == token && table[i].role == role {
        Some(table[i].css@)
    } else {
        entry_for(table, token, role, i + 1)
    }
}

/// What a piece reads as.
pub open spec fn piece_text(piece: PieceView, table: Seq<Recolour>) -> Seq<char> {
    match piece {
        PieceView::Text(t) => t,
        PieceView::Colour { token, role } => match entry_for(table, token, role, 0) {
            Some(css) => css,
            None => token,
        },
    }
}

/// What the pieces from the `i`th on read as.
pub open spec fn rendered(pieces: Seq<PieceView>, table: Seq<Recolour>, i: int) -> Seq<char>
    decreases pieces.len() - i,
{
    if i < 0 || i >= pieces.len() {
        Seq::empty()
    } else {
        piece_text(pieces[i], table) + rendered(pieces, table, i + 1)
    }
}

/// A page with its colours replaced as a table says.
pub open spec fn adapted(html: Seq<char>, table: Seq<Recolour>) -> Seq<char> {
    rendered(page_pieces(html, 0), table, 0)
}

fn find_entry(table: &[Recolour], token: &str, role: Role) -> (r: Option<usize>)
    ensures
        match r {
            Some(i) => i < table.len() && entry_for(table@, token@, role, 0) == Some(
                table@[i as int].css@,
            ),
            None => entry_for(table@, token@, role, 0) is None,
        },
{
    let mut i: usize = 0;
    while i < table.len()
        invariant
            i <= table.len(),
            entry_for(table@, token@, role, 0) == entry_for(table@, token@, role, i as int),
        decreases table.len() - i,
    {
        if text::same_str(&table[i].token, token) && table[i].role == role {
            return Some(i);
        }
        i = i + 1;
    }
    None
}

/// Rewrite `html` for a dark canvas, each colour as the table says.
pub fn adapt(html: &str, table: &[Recolour]) -> (r: String)
    ensures
        r@ == adapted(html@, table@),
{
    let all = pieces(html);
    let ghost views = piece_views(all@);
    let mut out: Vec<char> = Vec::new();
    let mut i: usize = 0;
    while i < all.len()
        invariant
            i <= all.len(),
            views == piece_views(all@),
            out@ + rendered(views, table@, i as int) =~= rendered(views, table@, 0),
        decreases all.len() - i,
    {
        assert(views[i as int] == all@[i as int]@);
        match &all[i] {
            Piece::Text(t) => {
                text::extend_str(&mut out, t);
            },
            Piece::Colour { token, role } => match find_entry(table, token, *role) {
                Some(k) => {
                    text::extend_str(&mut out, &table[k].css);
                },
                None => {
                    text::extend_str(&mut out, token);
                },
            },
        }
        i = i + 1;
    }
    text::text_of(&out)
}

/// The pieces among some that may be colours.
pub open spec fn colour_pieces(pieces: Seq<PieceView>) -> Seq<PieceView>
    decreases pieces.len(),
{
    if pieces.len() == 0 {
        Seq::empty()
    } else {
        let before = colour_pieces(pieces.drop_last());
        match pieces.last() {
            PieceView::Text(t) => before,
            other => before.push(other),
        }
    }
}

/// What may be a colour in a page, with what it would colour.
pub fn colours(html: &str) -> (r: Vec<Piece>)
    ensures
        piece_views(r@) == colour_pieces(page_pieces(html@, 0)),
{
    let all = pieces(html);
    let ghost views = piece_views(all@);
    let mut out: Vec<Piece> = Vec::new();
    let mut i: usize = 0;
    assert(piece_views(out@) =~= Seq::empty());
    assert(views.take(0) =~= Seq::empty());
    while i < all.len()
        invariant
            i <= all.len(),
            views == piece_views(all@),
            piece_views(out@) == colour_pieces(views.take(i as int)),
        decreases all.len() - i,
    {
        proof {
            assert(views.take(i + 1).drop_last() =~= views.take(i as int));
            assert(views.take(i + 1).last() == all@[i as int]@);
        }
        if let Piece::Colour { token, role } = &all[i] {
            let ghost before = out@;
            out.push(Piece::Colour { token: token.clone(), role: *role });
            assert(piece_views(out@) =~= piece_views(before).push(
                PieceView::Colour { token: token@, role: *role },
            ));
        }
        i = i + 1;
    }
    assert(views.take(i as int) =~= views);
    out
}

/// Where a tag ends does not depend on what precedes it.
proof fn tag_end_shifts(p: Seq<char>, s: Seq<char>, i: int, quote: Option<char>)
    requires
        0 <= i,
    ensures
        tag_end(p + s, p.len() + i, quote) == match tag_end(s, i, quote) {
            Some(e) => Some(p.len() + e),
            None => None,
        },
    decreases s.len() - i,
{
    if i < s.len() {
        assert((p + s)[p.len() + i] == s[i]);
        assert(p.len() + (i + 1) == p.len() + i + 1);
        match quote {
            Some(q) => {
                tag_end_shifts(
                    p,
                    s,
                    i + 1,
                    if s[i] == q {
                        None
                    } else {
                        quote
                    },
                );
            },
            None => {
                tag_end_shifts(p, s, i + 1, Some(s[i]));
                tag_end_shifts(p, s, i + 1, None);
            },
        }
    }
}

/// The pieces of a page do not depend on what precedes the place they start at.
proof fn page_pieces_shift(p: Seq<char>, s: Seq<char>, pos: int)
    requires
        0 <= pos <= s.len(),
    ensures
        page_pieces(p + s, p.len() + pos) == page_pieces(s, pos),
    decreases s.len() - pos,
{
    let w = p + s;
    let n = p.len() as int;
    text::find_at_shifts(p, s, '<', pos);
    text::find_at_is_first(s, '<', pos);
    let open = text::find_at(s, '<', pos);
    if open >= s.len() {
        assert(w.skip(n + pos) =~= s.skip(pos));
    } else {
        assert(w.subrange(n + pos, n + open) =~= s.subrange(pos, open));
        assert(w.skip(n + open + 1) =~= s.skip(open + 1));
        text::find_text_at_shifts(p, s, "-->"@, open + 1);
        text::find_text_at_is_first(s, "-->"@, open + 1);
        reveal_strlit("-->");
        assert(n + (open + 1) == n + open + 1);
        if text::starts_with(s.skip(open + 1), "!--"@) {
            let end = comment_end(s, open);
            assert(comment_end(w, n + open) == n + end);
            assert(w.subrange(n + open, n + end) =~= s.subrange(open, end));
            page_pieces_shift(p, s, end);
        } else {
            tag_end_shifts(p, s, open + 1, None);
            tag_end_is_after(s, open + 1, None);
            page_pieces_shift(p, s, open + 1);
            if let Some(close) = tag_end(s, open + 1, None) {
                assert(opens_tag(w, n + open) == opens_tag(s, open));
                assert(opens_style(w, n + open) == opens_style(s, open));
                assert(w.subrange(n + open, n + close + 1) =~= s.subrange(open, close + 1));
                assert(text::ascii_lower(w) =~= text::ascii_lower(p) + text::ascii_lower(s));
                let lower = text::ascii_lower(s);
                text::find_text_at_shifts(text::ascii_lower(p), lower, "</style"@, close + 1);
                text::find_text_at_is_first(lower, "</style"@, close + 1);
                reveal_strlit("</style");
                let end = style_end(s, close + 1);
                assert(n + (close + 1) == n + close + 1);
                assert(style_end(w, n + close + 1) == n + end);
                assert(w.subrange(n + close + 1, n + end) =~= s.subrange(close + 1, end));
                page_pieces_shift(p, s, end);
                page_pieces_shift(p, s, close + 1);
            }
        }
    }
}

/// What a text and the pieces after it read as.
proof fn rendered_splits(first: Seq<char>, rest: Seq<PieceView>, table: Seq<Recolour>, i: int)
    requires
        0 <= i <= rest.len(),
    ensures
        rendered(seq![PieceView::Text(first)] + rest, table, i + 1) == rendered(rest, table, i),
        rendered(seq![PieceView::Text(first)] + rest, table, 0) == first + rendered(
            seq![PieceView::Text(first)] + rest,
            table,
            1,
        ),
    decreases rest.len() - i,
{
    let all = seq![PieceView::Text(first)] + rest;
    if i < rest.len() {
        rendered_splits(first, rest, table, i + 1);
        assert(all[i + 1] == rest[i]);
    }
}

/// Text before markup is left alone, whatever becomes of colours: the markup reads as it would on
/// its own. So does text with none.
pub proof fn text_is_left_alone(t: Seq<char>, html: Seq<char>, table: Seq<Recolour>)
    requires
        !t.contains('<'),
    ensures
        adapted(t + html, table) == t + adapted(html, table),
        adapted(t, table) == t,
{
    text_before_is_kept(t, html, table);
    text_before_is_kept(t, Seq::empty(), table);
    assert(t + Seq::<char>::empty() =~= t);
    let none = Seq::<char>::empty();
    assert(none.skip(0) =~= none);
    text::find_at_is_first(none, '<', 0);
    assert(page_pieces(none, 0) =~= seq![PieceView::Text(none)]);
    assert(rendered(page_pieces(none, 0), table, 1) =~= none);
    assert(adapted(none, table) =~= none);
}

proof fn text_before_is_kept(t: Seq<char>, html: Seq<char>, table: Seq<Recolour>)
    requires
        !t.contains('<'),
    ensures
        adapted(t + html, table) == t + adapted(html, table),
{
    let w = t + html;
    let n = t.len() as int;
    page_pieces_shift(t, html, 0);
    text::find_at_shifts(t, html, '<', 0);
    text::find_at_is_first(html, '<', 0);
    text::find_at_is_first(w, '<', 0);
    let open = text::find_at(html, '<', 0);
    assert forall|j: int| 0 <= j < n implies w[j] != '<' by {
        if w[j] == '<' {
            assert(t[j] == '<');
            assert(t.contains('<'));
        }
    }
    assert forall|j: int| n <= j < n + open implies w[j] != '<' by {
        assert(w[j] == html[j - n]);
    }
    if open < html.len() {
        assert(w[n + open] == html[open]);
    }
    assert(text::find_at(w, '<', 0) == n + open);
    let late = page_pieces(w, n);
    let early = page_pieces(w, 0);
    let rest = late.skip(1);
    let first = html.take(open);
    if open >= html.len() {
        assert(w.skip(0) =~= t + first);
        assert(w.skip(n) =~= first);
    } else {
        assert(w.subrange(0, n + open) =~= t + first);
        assert(w.subrange(n, n + open) =~= first);
    }
    assert(late =~= seq![PieceView::Text(first)] + rest);
    assert(early =~= seq![PieceView::Text(t + first)] + rest);
    rendered_splits(first, rest, table, 0);
    rendered_splits(t + first, rest, table, 0);
    assert(t + first + rendered(rest, table, 0) =~= t + (first + rendered(rest, table, 0)));
}

/// A comment ends where it is closed first.
proof fn comment_closes(inside: Seq<char>, html: Seq<char>)
    requires
        !text::contains_text(inside, "-->"@),
        !text::starts_with(inside, ">"@),
        !text::starts_with(inside, "->"@),
    ensures
        comment_end("<!--"@ + inside + "-->"@ + html, 0) == inside.len() + 7,
{
    reveal_strlit("<!--");
    reveal_strlit("-->");
    reveal_strlit(">");
    reveal_strlit("->");
    let s = "<!--"@ + inside + "-->"@ + html;
    let m = inside.len() as int;
    text::find_text_at_is_first(s, "-->"@, 1);
    assert(s.subrange(4 + m, 7 + m) =~= "-->"@);
    assert(text::matches_at(s, "-->"@, 4 + m));
    assert forall|j: int| 1 <= j < 4 + m implies !text::matches_at(s, "-->"@, j) by {
        if text::matches_at(s, "-->"@, j) {
            let found = s.subrange(j, j + 3);
            assert(found[0] == s[j] && found[1] == s[j + 1] && found[2] == s[j + 2]);
            if j == 2 {
                if m > 0 {
                    assert(s[4] == inside[0]);
                    assert(inside.subrange(0, 1) =~= ">"@);
                }
            } else if j == 3 {
                if m > 1 {
                    assert(s[4] == inside[0] && s[5] == inside[1]);
                    assert(inside.subrange(0, 2) =~= "->"@);
                }
            } else if j >= 4 && j - 4 + 3 <= m {
                assert(inside.subrange(j - 4, j - 1) =~= "-->"@);
                assert(text::matches_at(inside, "-->"@, j - 4));
            }
        }
    }
}

/// A comment is left alone, whatever becomes of colours, and what follows it reads as it would on
/// its own. One that starts with what would end it is none.
pub proof fn comments_are_left_alone(inside: Seq<char>, html: Seq<char>, table: Seq<Recolour>)
    requires
        !text::contains_text(inside, "-->"@),
        !text::starts_with(inside, ">"@),
        !text::starts_with(inside, "->"@),
    ensures
        adapted("<!--"@ + inside + "-->"@ + html, table) == "<!--"@ + inside + "-->"@ + adapted(
            html,
            table,
        ),
{
    reveal_strlit("<!--");
    reveal_strlit("-->");
    reveal_strlit("!--");
    let comment = "<!--"@ + inside + "-->"@;
    let s = comment + html;
    let n = comment.len() as int;
    comment_closes(inside, html);
    text::find_at_is_first(s, '<', 0);
    assert(s[0] == '<');
    assert(s.skip(1).subrange(0, 3) =~= "!--"@);
    page_pieces_shift(comment, html, 0);
    let tail = page_pieces(html, 0);
    let none = Seq::<char>::empty();
    assert(s.subrange(0, 0) =~= none);
    assert(s.subrange(0, n) =~= comment);
    let rest = seq![PieceView::Text(comment)] + tail;
    assert(page_pieces(s, 0) =~= seq![PieceView::Text(none)] + rest);
    rendered_splits(none, rest, table, 0);
    rendered_splits(comment, tail, table, 0);
    assert(none + rendered(rest, table, 0) =~= rendered(rest, table, 0));
}

// --- what is recoloured ---------------------------------------------------

proof fn rendered_shifts(a: Seq<PieceView>, b: Seq<PieceView>, table: Seq<Recolour>, i: int)
    requires
        0 <= i <= b.len(),
    ensures
        rendered(a + b, table, a.len() + i) == rendered(b, table, i),
    decreases b.len() - i,
{
    if i < b.len() {
        assert((a + b)[a.len() + i] == b[i]);
        rendered_shifts(a, b, table, i + 1);
        assert(a.len() + (i + 1) == a.len() + i + 1);
    }
}

proof fn rendered_adds_from(a: Seq<PieceView>, b: Seq<PieceView>, table: Seq<Recolour>, i: int)
    requires
        0 <= i <= a.len(),
    ensures
        rendered(a + b, table, i) == rendered(a, table, i) + rendered(b, table, 0),
    decreases a.len() - i,
{
    if i < a.len() {
        rendered_adds_from(a, b, table, i + 1);
        assert((a + b)[i] == a[i]);
        assert(piece_text(a[i], table) + (rendered(a, table, i + 1) + rendered(b, table, 0))
            =~= piece_text(a[i], table) + rendered(a, table, i + 1) + rendered(b, table, 0));
    } else {
        rendered_shifts(a, b, table, 0);
        assert(Seq::<char>::empty() + rendered(b, table, 0) =~= rendered(b, table, 0));
    }
}

/// Pieces in a row read as the one and then the other.
proof fn rendered_adds(a: Seq<PieceView>, b: Seq<PieceView>, table: Seq<Recolour>)
    ensures
        rendered(a + b, table, 0) == rendered(a, table, 0) + rendered(b, table, 0),
{
    rendered_adds_from(a, b, table, 0);
}

/// A text reads as it is.
proof fn rendered_text(t: Seq<char>, table: Seq<Recolour>)
    ensures
        rendered(seq![PieceView::Text(t)], table, 0) == t,
{
    let one = seq![PieceView::Text(t)];
    assert(rendered(one, table, 1) =~= Seq::empty());
    assert(t + Seq::<char>::empty() =~= t);
}

/// What a token becomes in a role: what the first entry of the table for it says, if there is one.
pub open spec fn becomes(token: Seq<char>, role: Role, table: Seq<Recolour>) -> Seq<char> {
    match entry_for(table, token, role, 0) {
        Some(css) => css,
        None => token,
    }
}

/// The first entry of a table for a token in a role decides what it becomes; where there is none it
/// stays.
pub proof fn the_first_entry_decides(table: Seq<Recolour>, token: Seq<char>, role: Role, k: int)
    requires
        0 <= k <= table.len(),
        forall|j: int|
            0 <= j < k ==> (#[trigger] table[j]).token@ != token || table[j].role != role,
        k < table.len() ==> table[k].token@ == token && table[k].role == role,
    ensures
        becomes(token, role, table) == (if k < table.len() {
            table[k].css@
        } else {
            token
        }),
{
    entries_before_are_passed(table, token, role, 0, k);
}

proof fn entries_before_are_passed(
    table: Seq<Recolour>,
    token: Seq<char>,
    role: Role,
    i: int,
    k: int,
)
    requires
        0 <= i <= k <= table.len(),
        forall|j: int|
            i <= j < k ==> (#[trigger] table[j]).token@ != token || table[j].role != role,
    ensures
        entry_for(table, token, role, i) == entry_for(table, token, role, k),
    decreases k - i,
{
    if i < k {
        assert(table[i].token@ != token || table[i].role != role);
        entries_before_are_passed(table, token, role, i + 1, k);
    }
}

proof fn turns_read(
    gaps: Seq<Seq<char>>,
    tokens: Seq<Seq<char>>,
    role: Role,
    table: Seq<Recolour>,
    i: int,
)
    requires
        0 <= i <= gaps.len(),
    ensures
        rendered(turns(gaps, tokens, role, i), table, 0) == pattern::interleave(
            gaps,
            Seq::new(tokens.len(), |k: int| becomes(tokens[k], role, table)),
            i,
        ),
    decreases gaps.len() - i,
{
    let new = Seq::new(tokens.len(), |k: int| becomes(tokens[k], role, table));
    if i < gaps.len() {
        turns_read(gaps, tokens, role, table, i + 1);
        let rest = turns(gaps, tokens, role, i + 1);
        let text = seq![PieceView::Text(gaps[i])];
        rendered_text(gaps[i], table);
        if i < tokens.len() {
            let colour = seq![PieceView::Colour { token: tokens[i], role }];
            assert(rendered(colour, table, 1) =~= Seq::empty());
            assert(rendered(colour, table, 0) =~= new[i]);
            assert(seq![PieceView::Text(gaps[i]), PieceView::Colour { token: tokens[i], role }]
                =~= text + colour);
            rendered_adds(text, colour, table);
            rendered_adds(text + colour, rest, table);
        } else {
            rendered_adds(text, rest, table);
        }
    }
}

/// Every colour of a value is replaced, and nothing else in it: what stands between the tokens of
/// the value stays, and each token becomes what the table says of it in the role of the property.
pub proof fn values_are_recoloured_throughout(value: Seq<char>, role: Role, table: Seq<Recolour>)
    ensures
        ({
            let tokens = pattern::whole_matches(pattern::pattern_groups(TOKEN_PATTERN@, value));
            rendered(value_pieces(value, role), table, 0) == pattern::interleave(
                pattern::pattern_gaps(TOKEN_PATTERN@, value),
                Seq::new(tokens.len(), |k: int| becomes(tokens[k], role, table)),
                0,
            )
        }),
{
    turns_read(
        pattern::pattern_gaps(TOKEN_PATTERN@, value),
        pattern::whole_matches(pattern::pattern_groups(TOKEN_PATTERN@, value)),
        role,
        table,
        0,
    );
}

/// What properties colour, whatever the case of their names.
pub proof fn properties_have_their_roles(name: Seq<char>, other: Seq<char>)
    ensures
        text::eq_ignore_case(name, other) ==> role_of(name) == role_of(other),
        role_of("background"@) == Some(Role::Background),
        role_of("background-color"@) == Some(Role::Background),
        role_of("color"@) == Some(Role::Text),
        role_of("-webkit-text-fill-color"@) == Some(Role::Text),
        role_of("fill"@) == Some(Role::Text),
        role_of("box-shadow"@) == Some(Role::Border),
        role_of("text-decoration-color"@) == Some(Role::Border),
        role_of("column-rule-color"@) == Some(Role::Border),
        role_of("border"@ + name) == Some(Role::Border),
        role_of("outline"@ + name) == Some(Role::Border),
{
    reveal_strlit("background");
    reveal_strlit("background-color");
    reveal_strlit("color");
    reveal_strlit("-webkit-text-fill-color");
    reveal_strlit("fill");
    reveal_strlit("box-shadow");
    reveal_strlit("text-decoration-color");
    reveal_strlit("column-rule-color");
    reveal_strlit("border");
    reveal_strlit("outline");
    assert(text::ascii_lower("background"@) =~= "background"@);
    assert(text::ascii_lower("background-color"@) =~= "background-color"@);
    assert(text::ascii_lower("color"@) =~= "color"@);
    assert(text::ascii_lower("-webkit-text-fill-color"@) =~= "-webkit-text-fill-color"@);
    assert(text::ascii_lower("fill"@) =~= "fill"@);
    assert(text::ascii_lower("box-shadow"@) =~= "box-shadow"@);
    assert(text::ascii_lower("text-decoration-color"@) =~= "text-decoration-color"@);
    assert(text::ascii_lower("column-rule-color"@) =~= "column-rule-color"@);
    assert("color"@[0] == 'c' && "background"@[0] == 'b' && "background-color"@[0] == 'b');
    assert("-webkit-text-fill-color"@[0] == '-' && "fill"@[0] == 'f');
    assert("box-shadow"@[0] == 'b' && "box-shadow"@[1] == 'o' && "box-shadow"@[2] == 'x');
    assert("border"@[0] == 'b' && "border"@[1] == 'o' && "border"@[2] == 'r');
    assert("outline"@[0] == 'o' && "background"@[1] == 'a' && "background-color"@[1] == 'a');
    let b = text::ascii_lower("border"@ + name);
    assert(b[0] == 'b' && b[1] == 'o');
    assert(b.subrange(0, 6) =~= "border"@);
    let o = text::ascii_lower("outline"@ + name);
    assert(o[0] == 'o');
    assert(o.subrange(0, 7) =~= "outline"@);
}

/// A declaration keeps its property and the white space around it, and its value is recoloured as
/// the property says; one that colours nothing is left alone, and so is what is no declaration.
pub proof fn declarations_keep_their_property(
    property: Seq<char>,
    value: Seq<char>,
    table: Seq<Recolour>,
)
    requires
        !property.contains(':'),
    ensures
        rendered(declaration_pieces(property + seq![':'] + value), table, 0) == property + seq![':']
            + (match role_of(text::trim(property)) {
            Some(role) => rendered(value_pieces(value, role), table, 0),
            None => value,
        }),
        rendered(declaration_pieces(property), table, 0) == property,
{
    let d = property + seq![':'] + value;
    let n = property.len() as int;
    text::find_at_is_first(d, ':', 0);
    text::find_at_is_first(property, ':', 0);
    assert(d[n] == ':');
    assert forall|j: int| 0 <= j < n implies d[j] != ':' by {
        assert(d[j] == property[j]);
        assert(property.contains(property[j]));
    }
    assert(text::find(d, ':') == n);
    assert forall|j: int| 0 <= j < n implies property[j] != ':' by {
        assert(property.contains(property[j]));
    }
    assert(text::find(property, ':') >= n);
    assert(d.take(n) =~= property);
    assert(d.take(n + 1) =~= property + seq![':']);
    assert(d.skip(n + 1) =~= value);
    rendered_text(property, table);
    rendered_text(d, table);
    rendered_text(property + seq![':'], table);
    if let Some(role) = role_of(text::trim(property)) {
        rendered_adds(
            seq![PieceView::Text(property + seq![':'])],
            value_pieces(value, role),
            table,
        );
    }
}

/// How many parentheses are open before the character at `n`.
pub open spec fn open_before(s: Seq<char>, n: int) -> nat
    decreases n,
{
    if n <= 0 || n > s.len() {
        0
    } else if s[n - 1] == '(' {
        open_before(s, n - 1) + 1
    } else if s[n - 1] == ')' && open_before(s, n - 1) > 0 {
        (open_before(s, n - 1) - 1) as nat
    } else {
        open_before(s, n - 1)
    }
}

proof fn declarations_shift(p: Seq<char>, s: Seq<char>, start: int, i: int, depth: nat)
    requires
        0 <= start <= i <= s.len(),
    ensures
        declarations(p + s, p.len() + start, p.len() + i, depth) == declarations(
            s,
            start,
            i,
            depth,
        ),
    decreases s.len() - i,
{
    let w = p + s;
    let n = p.len() as int;
    if i < s.len() {
        assert(w[n + i] == s[i]);
        assert(n + (i + 1) == n + i + 1);
        if s[i] == ';' && depth == 0 {
            assert(w.subrange(n + start, n + i) =~= s.subrange(start, i));
            declarations_shift(p, s, i + 1, i + 1, 0);
        } else if s[i] == '(' {
            declarations_shift(p, s, start, i + 1, depth + 1);
        } else if s[i] == ')' {
            declarations_shift(
                p,
                s,
                start,
                i + 1,
                if depth > 0 {
                    (depth - 1) as nat
                } else {
                    0
                },
            );
        } else {
            declarations_shift(p, s, start, i + 1, depth);
        }
    } else {
        assert(w.skip(n + start) =~= s.skip(start));
    }
}

proof fn declarations_add_from(a: Seq<char>, b: Seq<char>, start: int, i: int)
    requires
        0 <= start <= i <= a.len(),
        open_before(a, a.len() as int) == 0,
    ensures
        declarations(a + seq![';'] + b, start, i, open_before(a, i)) == declarations(
            a,
            start,
            i,
            open_before(a, i),
        ) + declarations(b, 0, 0, 0),
    decreases a.len() - i,
{
    let w = a + seq![';'] + b;
    let depth = open_before(a, i);
    let rest = declarations(b, 0, 0, 0);
    if i < a.len() {
        assert(w[i] == a[i]);
        if a[i] == ';' && depth == 0 {
            assert(w.subrange(start, i) =~= a.subrange(start, i));
            assert(open_before(a, i + 1) == 0);
            declarations_add_from(a, b, i + 1, i + 1);
            let tail = declarations(a, i + 1, i + 1, 0);
            assert(seq![a.subrange(start, i)] + (tail + rest) =~= seq![a.subrange(start, i)] + tail
                + rest);
        } else {
            declarations_add_from(a, b, start, i + 1);
        }
    } else {
        let front = a + seq![';'];
        assert(w[i] == ';');
        assert(w.subrange(start, i) =~= a.skip(start));
        declarations_shift(front, b, 0, 0, 0);
        assert(front.len() == i + 1);
    }
}

proof fn declaration_goes_on(d: Seq<char>, i: int)
    requires
        0 <= i <= d.len(),
        forall|k: int| 0 <= k < d.len() && #[trigger] d[k] == ';' ==> open_before(d, k) > 0,
    ensures
        declarations(d, 0, i, open_before(d, i)) == seq![d],
    decreases d.len() - i,
{
    if i < d.len() {
        declaration_goes_on(d, i + 1);
        assert(d[i] == ';' ==> open_before(d, i) > 0);
    } else {
        assert(d.skip(0) =~= d);
    }
}

proof fn list_adds_from(x: Seq<Seq<char>>, y: Seq<Seq<char>>, i: int)
    requires
        0 <= i <= y.len(),
        x.len() > 0,
    ensures
        i > 0 ==> list_pieces(x + y, x.len() + i) == list_pieces(y, i),
        i == 0 && y.len() > 0 ==> list_pieces(x + y, x.len() as int) == seq![PieceView::Text(";"@)]
            + list_pieces(y, 0),
    decreases y.len() - i,
{
    if i < y.len() {
        assert((x + y)[x.len() + i] == y[i]);
        list_adds_from(x, y, i + 1);
        assert(x.len() + (i + 1) == x.len() + i + 1);
        if i == 0 {
            let semi = seq![PieceView::Text(";"@)];
            assert(semi + declaration_pieces(y[0]) + list_pieces(y, 1) =~= semi + (
            declaration_pieces(y[0]) + list_pieces(y, 1)));
        }
    }
}

proof fn list_splits(x: Seq<Seq<char>>, y: Seq<Seq<char>>, i: int)
    requires
        0 <= i <= x.len(),
        x.len() > 0,
        y.len() > 0,
    ensures
        list_pieces(x + y, i) == list_pieces(x, i) + seq![PieceView::Text(";"@)] + list_pieces(
            y,
            0,
        ),
    decreases x.len() - i,
{
    let semi = seq![PieceView::Text(";"@)];
    let tail = list_pieces(y, 0);
    if i < x.len() {
        assert((x + y)[i] == x[i]);
        list_splits(x, y, i + 1);
        let rest = list_pieces(x, i + 1);
        let own = declaration_pieces(x[i]);
        if i == 0 {
            assert(own + (rest + semi + tail) =~= own + rest + semi + tail);
        } else {
            assert(semi + own + (rest + semi + tail) =~= semi + own + rest + semi + tail);
        }
    } else {
        list_adds_from(x, y, 0);
        assert(Seq::<PieceView>::empty() + semi + tail =~= semi + tail);
    }
}

/// Every declaration of a style is rewritten, whatever stands before it: two styles with a `;`
/// between them read as the one, the `;` and the other, where the first closes what it opens. A
/// `;` in parentheses ends no declaration.
pub proof fn styles_are_recoloured_throughout(a: Seq<char>, b: Seq<char>, table: Seq<Recolour>)
    requires
        open_before(a, a.len() as int) == 0,
    ensures
        rendered(style_pieces(a + seq![';'] + b), table, 0) == rendered(style_pieces(a), table, 0)
            + seq![';'] + rendered(style_pieces(b), table, 0),
        (forall|k: int| 0 <= k < a.len() && #[trigger] a[k] == ';' ==> open_before(a, k) > 0)
            ==> rendered(style_pieces(a), table, 0) == rendered(declaration_pieces(a), table, 0),
{
    reveal_strlit(";");
    assert(";"@ =~= seq![';']);
    declarations_add_from(a, b, 0, 0);
    let x = declarations(a, 0, 0, 0);
    let y = declarations(b, 0, 0, 0);
    some_declaration(a, 0, 0, 0);
    some_declaration(b, 0, 0, 0);
    list_splits(x, y, 0);
    let semi = seq![PieceView::Text(";"@)];
    rendered_adds(style_pieces(a) + semi, style_pieces(b), table);
    rendered_adds(style_pieces(a), semi, table);
    rendered_text(";"@, table);
    if forall|k: int| 0 <= k < a.len() && #[trigger] a[k] == ';' ==> open_before(a, k) > 0 {
        declaration_goes_on(a, 0);
        assert(x =~= seq![a]);
        assert(list_pieces(x, 1) =~= Seq::empty());
        assert(style_pieces(a) =~= declaration_pieces(a));
    }
}

proof fn some_declaration(s: Seq<char>, start: int, i: int, depth: nat)
    requires
        0 <= i <= s.len(),
    ensures
        declarations(s, start, i, depth).len() > 0,
    decreases s.len() - i,
{
    if i < s.len() {
        if s[i] == '(' {
            some_declaration(s, start, i + 1, depth + 1);
        } else if s[i] == ')' {
            some_declaration(
                s,
                start,
                i + 1,
                if depth > 0 {
                    (depth - 1) as nat
                } else {
                    0
                },
            );
        } else if !(s[i] == ';' && depth == 0) {
            some_declaration(s, start, i + 1, depth);
        }
    }
}

/// What the body of the `k`th rule of a stylesheet reads as.
pub open spec fn rule_read(
    found: Seq<Seq<Option<Seq<char>>>>,
    table: Seq<Recolour>,
    k: int,
) -> Seq<char> {
    seq!['{'] + rendered(style_pieces(group_or_empty(found[k], 1)), table, 0) + seq!['}']
}

proof fn sheet_reads(
    gaps: Seq<Seq<char>>,
    found: Seq<Seq<Option<Seq<char>>>>,
    table: Seq<Recolour>,
    i: int,
)
    requires
        0 <= i <= gaps.len(),
    ensures
        rendered(sheet_pieces(gaps, found, i), table, 0) == pattern::interleave(
            gaps,
            Seq::new(found.len(), |k: int| rule_read(found, table, k)),
            i,
        ),
    decreases gaps.len() - i,
{
    let new = Seq::new(found.len(), |k: int| rule_read(found, table, k));
    if i < gaps.len() {
        sheet_reads(gaps, found, table, i + 1);
        let rest = sheet_pieces(gaps, found, i + 1);
        let text = seq![PieceView::Text(gaps[i])];
        rendered_text(gaps[i], table);
        if i < found.len() {
            reveal_strlit("{");
            reveal_strlit("}");
            assert("{"@ =~= seq!['{']);
            assert("}"@ =~= seq!['}']);
            let open = seq![PieceView::Text("{"@)];
            let body = style_pieces(group_or_empty(found[i], 1));
            let close = seq![PieceView::Text("}"@)];
            rendered_text("{"@, table);
            rendered_text("}"@, table);
            assert(seq![PieceView::Text(gaps[i]), PieceView::Text("{"@)] =~= text + open);
            rendered_adds(text, open, table);
            rendered_adds(text + open, body, table);
            rendered_adds(text + open + body, close, table);
            rendered_adds(text + open + body + close, rest, table);
            assert(new[i] == rule_read(found, table, i));
            assert(rendered(sheet_pieces(gaps, found, i), table, 0) =~= gaps[i] + new[i]
                + rendered(rest, table, 0));
        } else {
            rendered_adds(text, rest, table);
        }
    }
}

/// Every rule of a stylesheet is rewritten, whatever rules stand before it: what is outside its
/// rules stays, and the body of each of them reads as a style does.
pub proof fn stylesheets_are_recoloured_throughout(css: Seq<char>, table: Seq<Recolour>)
    ensures
        ({
            let found = pattern::pattern_groups(RULE_PATTERN@, css);
            rendered(stylesheet_pieces(css), table, 0) == pattern::interleave(
                pattern::pattern_gaps(RULE_PATTERN@, css),
                Seq::new(
                    found.len(),
                    |k: int|
                        seq!['{'] + rendered(style_pieces(group_or_empty(found[k], 1)), table, 0)
                            + seq!['}'],
                ),
                0,
            )
        }),
{
    let found = pattern::pattern_groups(RULE_PATTERN@, css);
    sheet_reads(pattern::pattern_gaps(RULE_PATTERN@, css), found, table, 0);
    assert(Seq::new(found.len(), |k: int| rule_read(found, table, k)) =~= Seq::new(
        found.len(),
        |k: int|
            seq!['{'] + rendered(style_pieces(group_or_empty(found[k], 1)), table, 0) + seq!['}'],
    ));
}

/// Whether a pattern finds in two texts in a row what it finds in the one and then what it finds in
/// the other: so it is where the first does not end inside a match.
pub open spec fn are_apart(pattern: Seq<char>, a: Seq<char>, b: Seq<char>) -> bool {
    let x = pattern::pattern_gaps(pattern, a);
    let y = pattern::pattern_gaps(pattern, b);
    let found = pattern::pattern_groups(pattern, a);
    &&& x.len() == found.len() + 1
    &&& y.len() == pattern::pattern_groups(pattern, b).len() + 1
    &&& pattern::pattern_groups(pattern, a + b) == found + pattern::pattern_groups(pattern, b)
    &&& pattern::pattern_gaps(pattern, a + b) == x.drop_last() + seq![x.last() + y[0]] + y.skip(1)
}

proof fn interleave_shifts(
    p: Seq<Seq<char>>,
    g: Seq<Seq<char>>,
    q: Seq<Seq<char>>,
    m: Seq<Seq<char>>,
    i: int,
)
    requires
        p.len() == q.len(),
        0 <= i <= g.len(),
    ensures
        pattern::interleave(p + g, q + m, p.len() + i) == pattern::interleave(g, m, i),
    decreases g.len() - i,
{
    if i < g.len() {
        assert((p + g)[p.len() + i] == g[i]);
        if i < m.len() {
            assert((q + m)[p.len() + i] == m[i]);
        }
        interleave_shifts(p, g, q, m, i + 1);
        assert(p.len() + (i + 1) == p.len() + i + 1);
    }
}

/// What is woven of two lists of pieces that share a border is woven of the one and of the other.
proof fn interleave_adds(
    x: Seq<Seq<char>>,
    m: Seq<Seq<char>>,
    y: Seq<Seq<char>>,
    n: Seq<Seq<char>>,
    i: int,
)
    requires
        x.len() == m.len() + 1,
        y.len() == n.len() + 1,
        0 <= i <= m.len(),
    ensures
        pattern::interleave(x.drop_last() + seq![x.last() + y[0]] + y.skip(1), m + n, i)
            == pattern::interleave(x, m, i) + pattern::interleave(y, n, 0),
    decreases m.len() - i,
{
    let all = x.drop_last() + seq![x.last() + y[0]] + y.skip(1);
    let k = m.len() as int;
    if i < k {
        interleave_adds(x, m, y, n, i + 1);
        assert(all[i] == x[i]);
        assert((m + n)[i] == m[i]);
        assert(pattern::interleave(all, m + n, i) =~= pattern::interleave(x, m, i)
            + pattern::interleave(y, n, 0));
    } else {
        assert(all[k] == x[k] + y[0]);
        assert(pattern::interleave(x, m, k + 1) =~= Seq::empty());
        assert(pattern::interleave(x, m, k) =~= x[k]);
        let p = x.drop_last();
        let g = seq![x.last() + y[0]] + y.skip(1);
        assert(all =~= p + g);
        interleave_shifts(p, g, m, n, 1);
        let one = seq![x.last() + y[0]];
        let none = seq![y[0]];
        interleave_tail(one, none, y.skip(1), n, 1);
        assert(none + y.skip(1) =~= y);
        assert(pattern::interleave(all, m + n, k + 1) == pattern::interleave(y, n, 1));
        if n.len() > 0 {
            assert((m + n)[k] == n[0]);
        }
        assert(pattern::interleave(all, m + n, k) =~= x[k] + pattern::interleave(y, n, 0));
    }
}

proof fn interleave_tail(
    a: Seq<Seq<char>>,
    b: Seq<Seq<char>>,
    rest: Seq<Seq<char>>,
    n: Seq<Seq<char>>,
    i: int,
)
    requires
        a.len() == b.len(),
        a.len() <= i <= a.len() + rest.len(),
    ensures
        pattern::interleave(a + rest, n, i) == pattern::interleave(b + rest, n, i),
    decreases a.len() + rest.len() - i,
{
    if i < a.len() + rest.len() {
        assert((a + rest)[i] == (b + rest)[i]);
        interleave_tail(a, b, rest, n, i + 1);
    }
}

/// Two stylesheets in a row read as the one and then the other, where the first does not end inside
/// a rule: the rules of the second are rewritten as they would be on their own.
pub proof fn stylesheets_add_up(a: Seq<char>, b: Seq<char>, table: Seq<Recolour>)
    ensures
        are_apart(RULE_PATTERN@, a, b) ==> rendered(stylesheet_pieces(a + b), table, 0) == rendered(
            stylesheet_pieces(a),
            table,
            0,
        ) + rendered(stylesheet_pieces(b), table, 0),
{
    if are_apart(RULE_PATTERN@, a, b) {
        let f = pattern::pattern_groups(RULE_PATTERN@, a);
        let h = pattern::pattern_groups(RULE_PATTERN@, b);
        let x = pattern::pattern_gaps(RULE_PATTERN@, a);
        let y = pattern::pattern_gaps(RULE_PATTERN@, b);
        sheet_reads(pattern::pattern_gaps(RULE_PATTERN@, a + b), f + h, table, 0);
        sheet_reads(x, f, table, 0);
        sheet_reads(y, h, table, 0);
        let m = Seq::new(f.len(), |k: int| rule_read(f, table, k));
        let n = Seq::new(h.len(), |k: int| rule_read(h, table, k));
        let both = Seq::new((f + h).len(), |k: int| rule_read(f + h, table, k));
        assert forall|k: int| 0 <= k < both.len() implies #[trigger] both[k] == (m + n)[k] by {
            if k < f.len() {
                assert((f + h)[k] == f[k]);
            } else {
                assert((f + h)[k] == h[k - f.len()]);
            }
        }
        assert(both =~= m + n);
        interleave_adds(x, m, y, n, 0);
    }
}

/// What an attribute that holds colours reads as, given its groups: its name and the equals sign,
/// and its value in the quotes it had, or in double ones.
pub open spec fn attribute_read(groups: Seq<Option<Seq<char>>>, table: Seq<Recolour>) -> Seq<char> {
    let name = text::ascii_lower(group_or_empty(groups, 2));
    let quote = if group_at(groups, 3) is None && group_at(groups, 4) is Some {
        '\''
    } else {
        '"'
    };
    let value = if group_at(groups, 3) is Some {
        group_at(groups, 3)->0
    } else if group_at(groups, 4) is Some {
        group_at(groups, 4)->0
    } else {
        group_or_empty(groups, 5)
    };
    let inside = if name == "style"@ {
        rendered(style_pieces(value), table, 0)
    } else if name == "bgcolor"@ {
        rendered(value_pieces(value, Role::Background), table, 0)
    } else if name == "bordercolor"@ {
        rendered(value_pieces(value, Role::Border), table, 0)
    } else {
        rendered(value_pieces(value, Role::Text), table, 0)
    };
    group_or_empty(groups, 1) + seq![quote] + inside + seq![quote]
}

proof fn attribute_reads(groups: Seq<Option<Seq<char>>>, table: Seq<Recolour>)
    ensures
        rendered(attribute_pieces(groups), table, 0) == attribute_read(groups, table),
{
    reveal_strlit("'");
    reveal_strlit("\"");
    assert("'"@ =~= seq!['\'']);
    assert("\""@ =~= seq!['"']);
    let head = seq![PieceView::Text(group_or_empty(groups, 1))];
    let quote = seq![PieceView::Text(attribute_quote(groups))];
    let inside = attribute_inside(
        text::ascii_lower(group_or_empty(groups, 2)),
        attribute_value(groups),
    );
    rendered_text(group_or_empty(groups, 1), table);
    rendered_text(attribute_quote(groups), table);
    assert(seq![
        PieceView::Text(group_or_empty(groups, 1)),
        PieceView::Text(attribute_quote(groups)),
    ] =~= head + quote);
    rendered_adds(head, quote, table);
    rendered_adds(head + quote, inside, table);
    rendered_adds(head + quote + inside, quote, table);
}

proof fn tag_reads(
    gaps: Seq<Seq<char>>,
    found: Seq<Seq<Option<Seq<char>>>>,
    table: Seq<Recolour>,
    i: int,
)
    requires
        0 <= i <= gaps.len(),
    ensures
        rendered(tag_pieces(gaps, found, i), table, 0) == pattern::interleave(
            gaps,
            Seq::new(found.len(), |k: int| attribute_read(found[k], table)),
            i,
        ),
    decreases gaps.len() - i,
{
    let new = Seq::new(found.len(), |k: int| attribute_read(found[k], table));
    if i < gaps.len() {
        tag_reads(gaps, found, table, i + 1);
        let rest = tag_pieces(gaps, found, i + 1);
        let text = seq![PieceView::Text(gaps[i])];
        rendered_text(gaps[i], table);
        if i < found.len() {
            attribute_reads(found[i], table);
            rendered_adds(text, attribute_pieces(found[i]), table);
            rendered_adds(text + attribute_pieces(found[i]), rest, table);
            assert(new[i] == attribute_read(found[i], table));
        } else {
            rendered_adds(text, rest, table);
        }
    }
}

/// Every attribute of a tag that holds colours is rewritten, whatever stands before it, and the rest
/// of the tag stays.
pub proof fn tags_are_recoloured_throughout(tag: Seq<char>, table: Seq<Recolour>)
    ensures
        ({
            let found = pattern::pattern_groups(ATTRIBUTE_PATTERN@, tag);
            rendered(whole_tag_pieces(tag), table, 0) == pattern::interleave(
                pattern::pattern_gaps(ATTRIBUTE_PATTERN@, tag),
                Seq::new(found.len(), |k: int| attribute_read(found[k], table)),
                0,
            )
        }),
{
    tag_reads(
        pattern::pattern_gaps(ATTRIBUTE_PATTERN@, tag),
        pattern::pattern_groups(ATTRIBUTE_PATTERN@, tag),
        table,
        0,
    );
}

proof fn tag_end_stays(s: Seq<char>, t: Seq<char>, i: int, quote: Option<char>)
    requires
        0 <= i,
        tag_end(s, i, quote) is Some,
    ensures
        tag_end(s + t, i, quote) == tag_end(s, i, quote),
    decreases s.len() - i,
{
    if i < s.len() {
        assert((s + t)[i] == s[i]);
        match quote {
            Some(q) => {
                tag_end_stays(
                    s,
                    t,
                    i + 1,
                    if s[i] == q {
                        None
                    } else {
                        quote
                    },
                );
            },
            None => {
                if s[i] == '"' || s[i] == '\'' {
                    tag_end_stays(s, t, i + 1, Some(s[i]));
                } else if s[i] != '>' {
                    tag_end_stays(s, t, i + 1, None);
                }
            },
        }
    }
}

/// What may be a colour in some pieces in a row is what may be one in the one and then in the other,
/// and no such piece is left out.
pub proof fn every_colour_is_listed(a: Seq<PieceView>, b: Seq<PieceView>)
    ensures
        colour_pieces(a + b) == colour_pieces(a) + colour_pieces(b),
        forall|i: int|
            0 <= i < a.len() && (#[trigger] a[i]) is Colour ==> colour_pieces(a).contains(a[i]),
        forall|i: int|
            0 <= i < colour_pieces(a).len() ==> (#[trigger] colour_pieces(a)[i]) is Colour
                && a.contains(colour_pieces(a)[i]),
{
    colours_add_up(a, b);
    colours_are_found(a);
}

proof fn colours_add_up(a: Seq<PieceView>, b: Seq<PieceView>)
    ensures
        colour_pieces(a + b) == colour_pieces(a) + colour_pieces(b),
    decreases b.len(),
{
    if b.len() == 0 {
        assert(a + b =~= a);
        assert(colour_pieces(a) + colour_pieces(b) =~= colour_pieces(a));
    } else {
        assert((a + b).drop_last() =~= a + b.drop_last());
        assert((a + b).last() == b.last());
        colours_add_up(a, b.drop_last());
        assert(colour_pieces(a + b) =~= colour_pieces(a) + colour_pieces(b));
    }
}

proof fn colours_are_found(a: Seq<PieceView>)
    ensures
        forall|i: int|
            0 <= i < a.len() && (#[trigger] a[i]) is Colour ==> colour_pieces(a).contains(a[i]),
        forall|i: int|
            0 <= i < colour_pieces(a).len() ==> (#[trigger] colour_pieces(a)[i]) is Colour
                && a.contains(colour_pieces(a)[i]),
    decreases a.len(),
{
    if a.len() > 0 {
        let short = a.drop_last();
        colours_are_found(short);
        let before = colour_pieces(short);
        let all = colour_pieces(a);
        assert(all.subrange(0, before.len() as int) =~= before);
        assert forall|i: int| 0 <= i < a.len() && (#[trigger] a[i]) is Colour implies all.contains(
            a[i],
        ) by {
            if i < short.len() {
                assert(short[i] == a[i]);
                let k = choose|k: int| 0 <= k < before.len() && before[k] == a[i];
                assert(all[k] == a[i]);
            } else {
                assert(all[before.len() as int] == a[i]);
            }
        }
        assert forall|i: int| 0 <= i < all.len() implies (#[trigger] all[i]) is Colour && a.contains(
            all[i],
        ) by {
            if i < before.len() {
                assert(all[i] == before[i]);
                let k = choose|k: int| 0 <= k < short.len() && short[k] == before[i];
                assert(a[k] == all[i]);
            } else {
                assert(a[a.len() - 1] == all[i]);
            }
        }
    }
}

/// A `<` that starts neither a tag nor a comment stays, and what follows it reads as it would on its
/// own.
pub proof fn stray_brackets_stay(html: Seq<char>, table: Seq<Recolour>)
    requires
        html.len() > 0 ==> !html::is_alpha(html[0]) && html[0] != '/' && html[0] != '!',
    ensures
        adapted(seq!['<'] + html, table) == seq!['<'] + adapted(html, table),
{
    reveal_strlit("<");
    reveal_strlit("!--");
    let p = seq!['<'];
    let s = p + html;
    assert("<"@ =~= p);
    assert(s[0] == '<');
    text::find_at_is_first(s, '<', 0);
    if text::starts_with(s.skip(1), "!--"@) {
        assert(s.skip(1).subrange(0, 3)[0] == s[1]);
        assert(s[1] == html[0]);
    }
    if html.len() > 0 {
        assert(s[1] == html[0]);
    }
    assert(!opens_tag(s, 0));
    page_pieces_shift(p, html, 0);
    let none = Seq::<char>::empty();
    assert(s.subrange(0, 0) =~= none);
    let before = seq![PieceView::Text(none)];
    let own = seq![PieceView::Text("<"@)];
    let tail = page_pieces(html, 0);
    assert(page_pieces(s, 0) == before + own + tail);
    rendered_text(none, table);
    rendered_text("<"@, table);
    rendered_adds(before, own, table);
    rendered_adds(before + own, tail, table);
    assert(none + p =~= p);
}

/// Whether a text is one tag: it starts as one, and the first `>` outside quotes ends it.
pub open spec fn is_tag(tag: Seq<char>) -> bool {
    &&& tag.len() > 1
    &&& tag[0] == '<'
    &&& opens_tag(tag, 0)
    &&& !text::starts_with(tag.skip(1), "!--"@)
    &&& tag_end(tag, 1, None) == Some(tag.len() - 1)
}

/// A whole tag at the start of a page is found as it is.
proof fn tag_is_found(tag: Seq<char>, html: Seq<char>)
    requires
        is_tag(tag),
    ensures
        text::find_at(tag + html, '<', 0) == 0,
        tag_end(tag + html, 1, None) == Some(tag.len() - 1),
        opens_tag(tag + html, 0),
        !text::starts_with((tag + html).skip(1), "!--"@),
        opens_style(tag + html, 0) == opens_style(tag, 0),
{
    reveal_strlit("!--");
    reveal_strlit("style");
    let s = tag + html;
    let n = tag.len() as int;
    assert(s[0] == tag[0] && s[1] == tag[1]);
    text::find_at_is_first(s, '<', 0);
    tag_end_stays(tag, html, 1, None);
    tag_ends_with(tag, 1, None);
    assert(tag[n - 1] == '>');
    if text::starts_with(s.skip(1), "!--"@) {
        let head = s.skip(1).subrange(0, 3);
        assert(head[0] == s[1] && head[1] == s[2] && head[2] == s[3]);
        assert(s[n - 1] == '>');
        assert(n > 4);
        assert(tag.skip(1).subrange(0, 3) =~= "!--"@);
    }
    let low = text::ascii_lower(s.skip(1));
    let own = text::ascii_lower(tag.skip(1));
    if text::starts_with(low, "style"@) {
        let head = low.subrange(0, 5);
        assert forall|k: int| 0 <= k < 5 implies head[k] == text::lower_char(s[k + 1]) by {}
        assert("style"@[0] == 's' && "style"@[1] == 't' && "style"@[2] == 'y' && "style"@[3] == 'l'
            && "style"@[4] == 'e');
        assert(s[n - 1] == '>');
        assert(head[0] == 's' && head[1] == 't' && head[2] == 'y' && head[3] == 'l' && head[4]
            == 'e');
        assert(n - 1 >= 6) by {
            assert(text::lower_char('>') == '>');
            if n - 1 < 6 {
                assert(head[n - 2] == '>');
            }
        }
        assert(own.subrange(0, 5) =~= head);
        assert(s[6] == tag[6]);
    }
    if text::starts_with(own, "style"@) {
        assert(low.subrange(0, 5) =~= own.subrange(0, 5));
        let head = own.subrange(0, 5);
        assert(tag.len() >= 6);
        assert(head[4] == text::lower_char(tag[5]));
        assert("style"@[4] == 'e');
        assert(text::lower_char('>') == '>');
        assert(n > 6);
        assert(s[6] == tag[6]);
    }
}

proof fn tag_ends_with(s: Seq<char>, i: int, quote: Option<char>)
    requires
        0 <= i,
    ensures
        tag_end(s, i, quote) matches Some(e) ==> s[e] == '>',
    decreases s.len() - i,
{
    if i < s.len() {
        match quote {
            Some(q) => {
                tag_ends_with(
                    s,
                    i + 1,
                    if s[i] == q {
                        None
                    } else {
                        quote
                    },
                );
            },
            None => {
                tag_ends_with(s, i + 1, Some(s[i]));
                tag_ends_with(s, i + 1, None);
            },
        }
    }
}

/// Every tag of a page is rewritten, and what follows it reads as it would on its own. A tag that
/// starts a stylesheet is followed by its rules, up to where it is closed.
pub proof fn tags_are_rewritten_one_by_one(tag: Seq<char>, html: Seq<char>, table: Seq<Recolour>)
    requires
        is_tag(tag),
        !opens_style(tag, 0),
    ensures
        adapted(tag + html, table) == rendered(whole_tag_pieces(tag), table, 0) + adapted(
            html,
            table,
        ),
{
    let s = tag + html;
    let n = tag.len() as int;
    tag_is_found(tag, html);
    page_pieces_shift(tag, html, 0);
    let none = Seq::<char>::empty();
    assert(s.subrange(0, 0) =~= none);
    assert(s.subrange(0, n) =~= tag);
    let own = whole_tag_pieces(tag);
    let tail = page_pieces(html, 0);
    let before = seq![PieceView::Text(none)];
    assert(page_pieces(s, 0) == before + own + tail);
    rendered_text(none, table);
    rendered_adds(before, own, table);
    rendered_adds(before + own, tail, table);
    assert(none + rendered(own, table, 0) =~= rendered(own, table, 0));
}

/// Every stylesheet of a page is rewritten up to where it is closed, and what follows it reads as it
/// would on its own.
pub proof fn stylesheets_are_rewritten_one_by_one(
    tag: Seq<char>,
    css: Seq<char>,
    html: Seq<char>,
    table: Seq<Recolour>,
)
    requires
        is_tag(tag),
        opens_style(tag, 0),
        text::find_text_at(text::ascii_lower(css + html), "</style"@, 0) == Some(css.len() as int),
    ensures
        adapted(tag + (css + html), table) == rendered(whole_tag_pieces(tag), table, 0) + rendered(
            stylesheet_pieces(css),
            table,
            0,
        ) + adapted(html, table),
{
    let rest = css + html;
    let s = tag + rest;
    let n = tag.len() as int;
    let end = n + css.len();
    tag_is_found(tag, rest);
    let none = Seq::<char>::empty();
    assert(s.subrange(0, 0) =~= none);
    assert(s.subrange(0, n) =~= tag);
    assert(text::ascii_lower(s) =~= text::ascii_lower(tag) + text::ascii_lower(rest));
    text::find_text_at_shifts(text::ascii_lower(tag), text::ascii_lower(rest), "</style"@, 0);
    assert(style_end(s, n) == end);
    assert(s.subrange(n, end) =~= css);
    assert(s =~= (tag + css) + html);
    page_pieces_shift(tag + css, html, 0);
    let own = whole_tag_pieces(tag);
    let sheet = stylesheet_pieces(css);
    let tail = page_pieces(html, 0);
    let before = seq![PieceView::Text(none)];
    assert(page_pieces(s, 0) == before + own + sheet + tail);
    rendered_text(none, table);
    rendered_adds(before, own, table);
    rendered_adds(before + own, sheet, table);
    rendered_adds(before + own + sheet, tail, table);
    assert(none + rendered(own, table, 0) =~= rendered(own, table, 0));
}

// --- colours --------------------------------------------------------------

/// A colour as it is written.
#[derive(Debug, PartialEq, Eq)]
pub enum Colour {
    /// By its bytes.
    Bytes { r: u8, g: u8, b: u8, a: u8 },
    /// By the texts of its red, green and blue and, if it has one, of its opacity.
    Rgb { parts: Vec<String> },
    /// By the texts of its hue, saturation and lightness and, if it has one, of its opacity.
    Hsl { parts: Vec<String> },
}

/// What a colour says.
pub enum ColourView {
    Bytes { r: u8, g: u8, b: u8, a: u8 },
    Rgb { parts: Seq<Seq<char>> },
    Hsl { parts: Seq<Seq<char>> },
}

impl View for Colour {
    type V = ColourView;

    open spec fn view(&self) -> ColourView {
        match self {
            Colour::Bytes { r, g, b, a } => ColourView::Bytes { r: *r, g: *g, b: *b, a: *a },
            Colour::Rgb { parts } => ColourView::Rgb { parts: text::texts(parts@) },
            Colour::Hsl { parts } => ColourView::Hsl { parts: text::texts(parts@) },
        }
    }
}

/// The optional colour's view.
pub open spec fn colour_view(c: Option<Colour>) -> Option<ColourView> {
    match c {
        Some(colour) => Some(colour@),
        None => None,
    }
}

/// The value of a hexadecimal digit.
pub open spec fn digit_value(c: char) -> Option<u8> {
    if '0' <= c <= '9' {
        Some((c as int - '0' as int) as u8)
    } else if 'a' <= c <= 'f' {
        Some((c as int - 'a' as int + 10) as u8)
    } else if 'A' <= c <= 'F' {
        Some((c as int - 'A' as int + 10) as u8)
    } else {
        None
    }
}

/// Whether every character is a hexadecimal digit.
pub open spec fn all_hex(s: Seq<char>) -> bool {
    forall|i: int| 0 <= i < s.len() ==> digit_value(#[trigger] s[i]) is Some
}

/// The digit at a place.
pub open spec fn nibble(s: Seq<char>, i: int) -> int {
    digit_value(s[i]).unwrap() as int
}

/// The byte in a pair of digits.
pub open spec fn pair(s: Seq<char>, k: int) -> u8 {
    (nibble(s, 2 * k) * 16 + nibble(s, 2 * k + 1)) as u8
}

/// The byte that a single digit is short for.
pub open spec fn single(s: Seq<char>, k: int) -> u8 {
    (nibble(s, k) * 17) as u8
}

/// The colour that hexadecimal digits write.
pub open spec fn hex_colour(s: Seq<char>) -> Option<ColourView> {
    let n = s.len();
    if !all_hex(s) {
        None
    } else if n == 3 || n == 4 {
        Some(
            ColourView::Bytes {
                r: single(s, 0),
                g: single(s, 1),
                b: single(s, 2),
                a: if n == 4 {
                    single(s, 3)
                } else {
                    255
                },
            },
        )
    } else if n == 6 || n == 8 {
        Some(
            ColourView::Bytes {
                r: pair(s, 0),
                g: pair(s, 1),
                b: pair(s, 2),
                a: if n == 8 {
                    pair(s, 3)
                } else {
                    255
                },
            },
        )
    } else {
        None
    }
}

fn digit(c: char) -> (r: Option<u8>)
    ensures
        r == digit_value(c),
        r matches Some(d) ==> d < 16,
{
    if '0' <= c && c <= '9' {
        Some((c as u32 - '0' as u32) as u8)
    } else if 'a' <= c && c <= 'f' {
        Some((c as u32 - 'a' as u32 + 10) as u8)
    } else if 'A' <= c && c <= 'F' {
        Some((c as u32 - 'A' as u32 + 10) as u8)
    } else {
        None
    }
}

/// The colour that hexadecimal digits write: three or six of them, and one or two more for its
/// opacity.
pub fn parse_hex(hex: &str) -> (r: Option<Colour>)
    ensures
        colour_view(r) == hex_colour(hex@),
{
    let chars = text::chars_of(hex);
    let mut d: Vec<u8> = Vec::new();
    while d.len() < chars.len()
        invariant
            d.len() <= chars.len(),
            chars@ == hex@,
            forall|k: int|
                0 <= k < d.len() ==> digit_value(#[trigger] hex@[k]) == Some(d@[k]) && d@[k] < 16,
        decreases chars.len() - d.len(),
    {
        let i: usize = d.len();
        match digit(chars[i]) {
            Some(v) => {
                d.push(v);
            },
            None => {
                assert(digit_value(hex@[i as int]) is None);
                return None;
            },
        }
    }
    let n: usize = d.len();
    assert(all_hex(hex@));
    if n == 3 || n == 4 {
        assert(digit_value(hex@[0]) is Some && digit_value(hex@[1]) is Some && digit_value(
            hex@[2],
        ) is Some);
        let a: u8 = if n == 4 {
            assert(digit_value(hex@[3]) is Some);
            d[3] * 17
        } else {
            255
        };
        Some(Colour::Bytes { r: d[0] * 17, g: d[1] * 17, b: d[2] * 17, a })
    } else if n == 6 || n == 8 {
        assert(digit_value(hex@[0]) is Some && digit_value(hex@[1]) is Some && digit_value(
            hex@[2],
        ) is Some && digit_value(hex@[3]) is Some && digit_value(hex@[4]) is Some && digit_value(
            hex@[5],
        ) is Some);
        let a: u8 = if n == 8 {
            assert(digit_value(hex@[6]) is Some && digit_value(hex@[7]) is Some);
            d[6] * 16 + d[7]
        } else {
            255
        };
        Some(
            Colour::Bytes {
                r: d[0] * 16 + d[1],
                g: d[2] * 16 + d[3],
                b: d[4] * 16 + d[5],
                a,
            },
        )
    } else {
        None
    }
}

/// Whether a character stands between the arguments of a colour function.
pub open spec fn is_separator(c: char) -> bool {
    c == ',' || c == '/' || c == ' '
}

/// The arguments of a colour function, where the one that is read started at `start` and the text is
/// read up to `i`.
pub open spec fn arguments(s: Seq<char>, start: int, i: int) -> Seq<Seq<char>>
    decreases s.len() - i,
{
    if i < 0 || i >= s.len() {
        kept(s.skip(start))
    } else if is_separator(s[i]) {
        kept(s.subrange(start, i)) + arguments(s, i + 1, i + 1)
    } else {
        arguments(s, start, i + 1)
    }
}

/// A piece without the white space around it, if anything is left.
pub open spec fn kept(piece: Seq<char>) -> Seq<Seq<char>> {
    let t = text::trim(piece);
    if t.len() > 0 {
        seq![t]
    } else {
        Seq::empty()
    }
}

/// A text without the closing parentheses at its end.
pub open spec fn without_close(s: Seq<char>) -> Seq<char>
    decreases s.len(),
{
    if s.len() > 0 && s.last() == ')' {
        without_close(s.drop_last())
    } else {
        s
    }
}

fn push_kept(out: &mut Vec<String>, piece: &[char])
    ensures
        text::texts(final(out)@) == text::texts(old(out)@) + kept(piece@),
{
    let t = text::trimmed(piece);
    if t.len() > 0 {
        out.push(text::text_of(&t));
    }
    assert(text::texts(out@) =~= text::texts(old(out)@) + kept(piece@));
}

fn split_arguments(args: &[char]) -> (r: Vec<String>)
    ensures
        text::texts(r@) == arguments(args@, 0, 0),
{
    let mut out: Vec<String> = Vec::new();
    let mut start: usize = 0;
    let mut i: usize = 0;
    assert(text::texts(out@) =~= Seq::empty());
    while i < args.len()
        invariant
            start <= i <= args.len(),
            text::texts(out@) + arguments(args@, start as int, i as int) =~= arguments(args@, 0, 0),
        decreases args.len() - i,
    {
        let c = args[i];
        if c == ',' || c == '/' || c == ' ' {
            push_kept(&mut out, &text::slice_of(args, start, i));
            start = i + 1;
        }
        i = i + 1;
    }
    let last = text::slice_of(args, start, args.len());
    assert(last@ =~= args@.skip(start as int));
    push_kept(&mut out, &last);
    out
}

/// The arguments of a colour function whose name and open parenthesis take `n` characters, if there
/// are at least three.
pub open spec fn function_parts(lower: Seq<char>, n: int) -> Option<Seq<Seq<char>>> {
    let parts = arguments(without_close(lower.skip(n)), 0, 0);
    if parts.len() < 3 {
        None
    } else {
        Some(parts)
    }
}

fn parts_after(lower: &[char], n: usize) -> (r: Option<Vec<String>>)
    requires
        n <= lower.len(),
    ensures
        match r {
            Some(parts) => function_parts(lower@, n as int) == Some(text::texts(parts@)),
            None => function_parts(lower@, n as int) is None,
        },
{
    let mut args = text::slice_of(lower, n, lower.len());
    assert(args@ =~= lower@.skip(n as int));
    while args.len() > 0 && args[args.len() - 1] == ')'
        invariant
            without_close(args@) == without_close(lower@.skip(n as int)),
        decreases args.len(),
    {
        let ghost before = args@;
        args.pop();
        assert(args@ =~= before.drop_last());
    }
    let parts = split_arguments(&args);
    if parts.len() < 3 {
        None
    } else {
        Some(parts)
    }
}

/// The value of the first entry of a table of names, from the `i`th on, with a name.
pub open spec fn value_of(table: Seq<(Seq<char>, u32)>, name: Seq<char>, i: int) -> Option<u32>
    decreases table.len() - i,
{
    if i < 0 || i >= table.len() {
        None
    } else if table[i].0 == name {
        Some(table[i].1)
    } else {
        value_of(table, name, i + 1)
    }
}

/// The bytes in the number of a colour.
pub open spec fn number_colour(v: u32) -> ColourView {
    ColourView::Bytes {
        r: (v as int / 65536 % 256) as u8,
        g: (v as int / 256 % 256) as u8,
        b: (v as int % 256) as u8,
        a: 255,
    }
}

/// The colour that a token writes.
pub open spec fn colour_of(token: Seq<char>) -> Option<ColourView> {
    let t = text::trim(token);
    let lower = text::ascii_lower(t);
    if t.len() > 0 && t[0] == '#' {
        hex_colour(t.skip(1))
    } else if text::starts_with(lower, "rgba("@) {
        rgb_colour(function_parts(lower, 5))
    } else if text::starts_with(lower, "rgb("@) {
        rgb_colour(function_parts(lower, 4))
    } else if text::starts_with(lower, "hsla("@) {
        hsl_colour(function_parts(lower, 5))
    } else if text::starts_with(lower, "hsl("@) {
        hsl_colour(function_parts(lower, 4))
    } else if lower == "windowtext"@ {
        Some(number_colour(0))
    } else if lower == "window"@ {
        Some(number_colour(0xffffff))
    } else {
        match value_of(named_colours(), lower, 0) {
            Some(v) => Some(number_colour(v)),
            None => None,
        }
    }
}

/// The colour with these arguments.
pub open spec fn rgb_colour(parts: Option<Seq<Seq<char>>>) -> Option<ColourView> {
    match parts {
        Some(p) => Some(ColourView::Rgb { parts: p }),
        None => None,
    }
}

/// The colour with these arguments.
pub open spec fn hsl_colour(parts: Option<Seq<Seq<char>>>) -> Option<ColourView> {
    match parts {
        Some(p) => Some(ColourView::Hsl { parts: p }),
        None => None,
    }
}

fn from_number(v: u32) -> (r: Colour)
    ensures
        r@ == number_colour(v),
{
    Colour::Bytes {
        r: (v / 65536 % 256) as u8,
        g: (v / 256 % 256) as u8,
        b: (v % 256) as u8,
        a: 255,
    }
}

/// The number of the colour of a name.
pub fn named(name: &str) -> (r: Option<u32>)
    ensures
        r == value_of(named_colours(), name@, 0),
{
    let table = named_table();
    let ghost views = named_colours();
    let mut i: usize = 0;
    while i < table.len()
        invariant
            i <= table.len(),
            views == named_colours(),
            table_view(table@) == views,
            value_of(views, name@, 0) == value_of(views, name@, i as int),
        decreases table.len() - i,
    {
        assert(views[i as int] == table_view(table@)[i as int]);
        if text::same_str(table[i].0, name) {
            return Some(table[i].1);
        }
        i = i + 1;
    }
    None
}

/// The colour that a token writes. Of the function forms only the arguments are told apart: whether
/// they are numbers is for who computes with them.
pub fn parse(token: &str) -> (r: Option<Colour>)
    ensures
        colour_view(r) == colour_of(token@),
{
    let t = text::trimmed(&text::chars_of(token));
    if t.len() > 0 && t[0] == '#' {
        let hex = text::slice_of(&t, 1, t.len());
        assert(hex@ =~= t@.skip(1));
        return parse_hex(&text::text_of(&hex));
    }
    proof {
        reveal_strlit("rgba(");
        reveal_strlit("rgb(");
        reveal_strlit("hsla(");
        reveal_strlit("hsl(");
    }
    let lower = text::to_ascii_lower(&t);
    let word = text::text_of(&lower);
    if text::str_starts(&word, "rgba(") {
        return match parts_after(&lower, 5) {
            Some(parts) => Some(Colour::Rgb { parts }),
            None => None,
        };
    }
    if text::str_starts(&word, "rgb(") {
        return match parts_after(&lower, 4) {
            Some(parts) => Some(Colour::Rgb { parts }),
            None => None,
        };
    }
    if text::str_starts(&word, "hsla(") {
        return match parts_after(&lower, 5) {
            Some(parts) => Some(Colour::Hsl { parts }),
            None => None,
        };
    }
    if text::str_starts(&word, "hsl(") {
        return match parts_after(&lower, 4) {
            Some(parts) => Some(Colour::Hsl { parts }),
            None => None,
        };
    }
    // Legacy system colours Word and Outlook write into their markup.
    if text::same_str(&word, "windowtext") {
        return Some(from_number(0));
    }
    if text::same_str(&word, "window") {
        return Some(from_number(0xffffff));
    }
    match named(&word) {
        Some(v) => Some(from_number(v)),
        None => None,
    }
}

/// What a table of names says.
pub open spec fn table_view(table: Seq<(&'static str, u32)>) -> Seq<(Seq<char>, u32)> {
    Seq::new(table.len(), |i: int| (table[i].0@, table[i].1))
}

/// CSS named colours.
pub open spec fn named_colours() -> Seq<(Seq<char>, u32)> {
    seq![
        ("aliceblue"@, 0xf0f8ff),
        ("antiquewhite"@, 0xfaebd7),
        ("aqua"@, 0x00ffff),
        ("aquamarine"@, 0x7fffd4),
        ("azure"@, 0xf0ffff),
        ("beige"@, 0xf5f5dc),
        ("bisque"@, 0xffe4c4),
        ("black"@, 0x000000),
        ("blanchedalmond"@, 0xffebcd),
        ("blue"@, 0x0000ff),
        ("blueviolet"@, 0x8a2be2),
        ("brown"@, 0xa52a2a),
        ("burlywood"@, 0xdeb887),
        ("cadetblue"@, 0x5f9ea0),
        ("chartreuse"@, 0x7fff00),
        ("chocolate"@, 0xd2691e),
        ("coral"@, 0xff7f50),
        ("cornflowerblue"@, 0x6495ed),
        ("cornsilk"@, 0xfff8dc),
        ("crimson"@, 0xdc143c),
        ("cyan"@, 0x00ffff),
        ("darkblue"@, 0x00008b),
        ("darkcyan"@, 0x008b8b),
        ("darkgoldenrod"@, 0xb8860b),
        ("darkgray"@, 0xa9a9a9),
        ("darkgreen"@, 0x006400),
        ("darkgrey"@, 0xa9a9a9),
        ("darkkhaki"@, 0xbdb76b),
        ("darkmagenta"@, 0x8b008b),
        ("darkolivegreen"@, 0x556b2f),
        ("darkorange"@, 0xff8c00),
        ("darkorchid"@, 0x9932cc),
        ("darkred"@, 0x8b0000),
        ("darksalmon"@, 0xe9967a),
        ("darkseagreen"@, 0x8fbc8f),
        ("darkslateblue"@, 0x483d8b),
        ("darkslategray"@, 0x2f4f4f),
        ("darkslategrey"@, 0x2f4f4f),
        ("darkturquoise"@, 0x00ced1),
        ("darkviolet"@, 0x9400d3),
        ("deeppink"@, 0xff1493),
        ("deepskyblue"@, 0x00bfff),
        ("dimgray"@, 0x696969),
        ("dimgrey"@, 0x696969),
        ("dodgerblue"@, 0x1e90ff),
        ("firebrick"@, 0xb22222),
        ("floralwhite"@, 0xfffaf0),
        ("forestgreen"@, 0x228b22),
        ("fuchsia"@, 0xff00ff),
        ("gainsboro"@, 0xdcdcdc),
        ("ghostwhite"@, 0xf8f8ff),
        ("gold"@, 0xffd700),
        ("goldenrod"@, 0xdaa520),
        ("gray"@, 0x808080),
        ("green"@, 0x008000),
        ("greenyellow"@, 0xadff2f),
        ("grey"@, 0x808080),
        ("honeydew"@, 0xf0fff0),
        ("hotpink"@, 0xff69b4),
        ("indianred"@, 0xcd5c5c),
        ("indigo"@, 0x4b0082),
        ("ivory"@, 0xfffff0),
        ("khaki"@, 0xf0e68c),
        ("lavender"@, 0xe6e6fa),
        ("lavenderblush"@, 0xfff0f5),
        ("lawngreen"@, 0x7cfc00),
        ("lemonchiffon"@, 0xfffacd),
        ("lightblue"@, 0xadd8e6),
        ("lightcoral"@, 0xf08080),
        ("lightcyan"@, 0xe0ffff),
        ("lightgoldenrodyellow"@, 0xfafad2),
        ("lightgray"@, 0xd3d3d3),
        ("lightgreen"@, 0x90ee90),
        ("lightgrey"@, 0xd3d3d3),
        ("lightpink"@, 0xffb6c1),
        ("lightsalmon"@, 0xffa07a),
        ("lightseagreen"@, 0x20b2aa),
        ("lightskyblue"@, 0x87cefa),
        ("lightslategray"@, 0x778899),
        ("lightslategrey"@, 0x778899),
        ("lightsteelblue"@, 0xb0c4de),
        ("lightyellow"@, 0xffffe0),
        ("lime"@, 0x00ff00),
        ("limegreen"@, 0x32cd32),
        ("linen"@, 0xfaf0e6),
        ("magenta"@, 0xff00ff),
        ("maroon"@, 0x800000),
        ("mediumaquamarine"@, 0x66cdaa),
        ("mediumblue"@, 0x0000cd),
        ("mediumorchid"@, 0xba55d3),
        ("mediumpurple"@, 0x9370db),
        ("mediumseagreen"@, 0x3cb371),
        ("mediumslateblue"@, 0x7b68ee),
        ("mediumspringgreen"@, 0x00fa9a),
        ("mediumturquoise"@, 0x48d1cc),
        ("mediumvioletred"@, 0xc71585),
        ("midnightblue"@, 0x191970),
        ("mintcream"@, 0xf5fffa),
        ("mistyrose"@, 0xffe4e1),
        ("moccasin"@, 0xffe4b5),
        ("navajowhite"@, 0xffdead),
        ("navy"@, 0x000080),
        ("oldlace"@, 0xfdf5e6),
        ("olive"@, 0x808000),
        ("olivedrab"@, 0x6b8e23),
        ("orange"@, 0xffa500),
        ("orangered"@, 0xff4500),
        ("orchid"@, 0xda70d6),
        ("palegoldenrod"@, 0xeee8aa),
        ("palegreen"@, 0x98fb98),
        ("paleturquoise"@, 0xafeeee),
        ("palevioletred"@, 0xdb7093),
        ("papayawhip"@, 0xffefd5),
        ("peachpuff"@, 0xffdab9),
        ("peru"@, 0xcd853f),
        ("pink"@, 0xffc0cb),
        ("plum"@, 0xdda0dd),
        ("powderblue"@, 0xb0e0e6),
        ("purple"@, 0x800080),
        ("rebeccapurple"@, 0x663399),
        ("red"@, 0xff0000),
        ("rosybrown"@, 0xbc8f8f),
        ("royalblue"@, 0x4169e1),
        ("saddlebrown"@, 0x8b4513),
        ("salmon"@, 0xfa8072),
        ("sandybrown"@, 0xf4a460),
        ("seagreen"@, 0x2e8b57),
        ("seashell"@, 0xfff5ee),
        ("sienna"@, 0xa0522d),
        ("silver"@, 0xc0c0c0),
        ("skyblue"@, 0x87ceeb),
        ("slateblue"@, 0x6a5acd),
        ("slategray"@, 0x708090),
        ("slategrey"@, 0x708090),
        ("snow"@, 0xfffafa),
        ("springgreen"@, 0x00ff7f),
        ("steelblue"@, 0x4682b4),
        ("tan"@, 0xd2b48c),
        ("teal"@, 0x008080),
        ("thistle"@, 0xd8bfd8),
        ("tomato"@, 0xff6347),
        ("turquoise"@, 0x40e0d0),
        ("violet"@, 0xee82ee),
        ("wheat"@, 0xf5deb3),
        ("white"@, 0xffffff),
        ("whitesmoke"@, 0xf5f5f5),
        ("yellow"@, 0xffff00),
        ("yellowgreen"@, 0x9acd32),
    ]
}

/// CSS named colours, in the order of their names.
pub fn named_table() -> (r: Vec<(&'static str, u32)>)
    ensures
        table_view(r@) == named_colours(),
{
    let table: Vec<(&'static str, u32)> = vec![
        ("aliceblue", 0xf0f8ff),
        ("antiquewhite", 0xfaebd7),
        ("aqua", 0x00ffff),
        ("aquamarine", 0x7fffd4),
        ("azure", 0xf0ffff),
        ("beige", 0xf5f5dc),
        ("bisque", 0xffe4c4),
        ("black", 0x000000),
        ("blanchedalmond", 0xffebcd),
        ("blue", 0x0000ff),
        ("blueviolet", 0x8a2be2),
        ("brown", 0xa52a2a),
        ("burlywood", 0xdeb887),
        ("cadetblue", 0x5f9ea0),
        ("chartreuse", 0x7fff00),
        ("chocolate", 0xd2691e),
        ("coral", 0xff7f50),
        ("cornflowerblue", 0x6495ed),
        ("cornsilk", 0xfff8dc),
        ("crimson", 0xdc143c),
        ("cyan", 0x00ffff),
        ("darkblue", 0x00008b),
        ("darkcyan", 0x008b8b),
        ("darkgoldenrod", 0xb8860b),
        ("darkgray", 0xa9a9a9),
        ("darkgreen", 0x006400),
        ("darkgrey", 0xa9a9a9),
        ("darkkhaki", 0xbdb76b),
        ("darkmagenta", 0x8b008b),
        ("darkolivegreen", 0x556b2f),
        ("darkorange", 0xff8c00),
        ("darkorchid", 0x9932cc),
        ("darkred", 0x8b0000),
        ("darksalmon", 0xe9967a),
        ("darkseagreen", 0x8fbc8f),
        ("darkslateblue", 0x483d8b),
        ("darkslategray", 0x2f4f4f),
        ("darkslategrey", 0x2f4f4f),
        ("darkturquoise", 0x00ced1),
        ("darkviolet", 0x9400d3),
        ("deeppink", 0xff1493),
        ("deepskyblue", 0x00bfff),
        ("dimgray", 0x696969),
        ("dimgrey", 0x696969),
        ("dodgerblue", 0x1e90ff),
        ("firebrick", 0xb22222),
        ("floralwhite", 0xfffaf0),
        ("forestgreen", 0x228b22),
        ("fuchsia", 0xff00ff),
        ("gainsboro", 0xdcdcdc),
        ("ghostwhite", 0xf8f8ff),
        ("gold", 0xffd700),
        ("goldenrod", 0xdaa520),
        ("gray", 0x808080),
        ("green", 0x008000),
        ("greenyellow", 0xadff2f),
        ("grey", 0x808080),
        ("honeydew", 0xf0fff0),
        ("hotpink", 0xff69b4),
        ("indianred", 0xcd5c5c),
        ("indigo", 0x4b0082),
        ("ivory", 0xfffff0),
        ("khaki", 0xf0e68c),
        ("lavender", 0xe6e6fa),
        ("lavenderblush", 0xfff0f5),
        ("lawngreen", 0x7cfc00),
        ("lemonchiffon", 0xfffacd),
        ("lightblue", 0xadd8e6),
        ("lightcoral", 0xf08080),
        ("lightcyan", 0xe0ffff),
        ("lightgoldenrodyellow", 0xfafad2),
        ("lightgray", 0xd3d3d3),
        ("lightgreen", 0x90ee90),
        ("lightgrey", 0xd3d3d3),
        ("lightpink", 0xffb6c1),
        ("lightsalmon", 0xffa07a),
        ("lightseagreen", 0x20b2aa),
        ("lightskyblue", 0x87cefa),
        ("lightslategray", 0x778899),
        ("lightslategrey", 0x778899),
        ("lightsteelblue", 0xb0c4de),
        ("lightyellow", 0xffffe0),
        ("lime", 0x00ff00),
        ("limegreen", 0x32cd32),
        ("linen", 0xfaf0e6),
        ("magenta", 0xff00ff),
        ("maroon", 0x800000),
        ("mediumaquamarine", 0x66cdaa),
        ("mediumblue", 0x0000cd),
        ("mediumorchid", 0xba55d3),
        ("mediumpurple", 0x9370db),
        ("mediumseagreen", 0x3cb371),
        ("mediumslateblue", 0x7b68ee),
        ("mediumspringgreen", 0x00fa9a),
        ("mediumturquoise", 0x48d1cc),
        ("mediumvioletred", 0xc71585),
        ("midnightblue", 0x191970),
        ("mintcream", 0xf5fffa),
        ("mistyrose", 0xffe4e1),
        ("moccasin", 0xffe4b5),
        ("navajowhite", 0xffdead),
        ("navy", 0x000080),
        ("oldlace", 0xfdf5e6),
        ("olive", 0x808000),
        ("olivedrab", 0x6b8e23),
        ("orange", 0xffa500),
        ("orangered", 0xff4500),
        ("orchid", 0xda70d6),
        ("palegoldenrod", 0xeee8aa),
        ("palegreen", 0x98fb98),
        ("paleturquoise", 0xafeeee),
        ("palevioletred", 0xdb7093),
        ("papayawhip", 0xffefd5),
        ("peachpuff", 0xffdab9),
        ("peru", 0xcd853f),
        ("pink", 0xffc0cb),
        ("plum", 0xdda0dd),
        ("powderblue", 0xb0e0e6),
        ("purple", 0x800080),
        ("rebeccapurple", 0x663399),
        ("red", 0xff0000),
        ("rosybrown", 0xbc8f8f),
        ("royalblue", 0x4169e1),
        ("saddlebrown", 0x8b4513),
        ("salmon", 0xfa8072),
        ("sandybrown", 0xf4a460),
        ("seagreen", 0x2e8b57),
        ("seashell", 0xfff5ee),
        ("sienna", 0xa0522d),
        ("silver", 0xc0c0c0),
        ("skyblue", 0x87ceeb),
        ("slateblue", 0x6a5acd),
        ("slategray", 0x708090),
        ("slategrey", 0x708090),
        ("snow", 0xfffafa),
        ("springgreen", 0x00ff7f),
        ("steelblue", 0x4682b4),
        ("tan", 0xd2b48c),
        ("teal", 0x008080),
        ("thistle", 0xd8bfd8),
        ("tomato", 0xff6347),
        ("turquoise", 0x40e0d0),
        ("violet", 0xee82ee),
        ("wheat", 0xf5deb3),
        ("white", 0xffffff),
        ("whitesmoke", 0xf5f5f5),
        ("yellow", 0xffff00),
        ("yellowgreen", 0x9acd32),
    ];
    assert(table_view(table@) =~= named_colours());
    table
}

/// The hexadecimal digits of a byte.
pub open spec fn digits_of(b: u8, is_upper: bool) -> Seq<char> {
    seq![digit_for(b as int / 16, is_upper), digit_for(b as int % 16, is_upper)]
}

/// The hexadecimal digit for a number.
pub open spec fn digit_for(d: int, is_upper: bool) -> char {
    if d < 10 {
        (48 + d) as char
    } else if is_upper {
        (55 + d) as char
    } else {
        (87 + d) as char
    }
}

proof fn digit_is_read(d: int, is_upper: bool)
    requires
        0 <= d < 16,
    ensures
        digit_value(digit_for(d, is_upper)) == Some(d as u8),
{
}

/// A colour in two digits for each of its bytes reads back as these bytes, in either case, and is
/// opaque where it has no fourth.
pub proof fn colours_read_back(r: u8, g: u8, b: u8, a: u8, is_upper: bool)
    ensures
        hex_colour(
            digits_of(r, is_upper) + digits_of(g, is_upper) + digits_of(b, is_upper),
        ) == Some(ColourView::Bytes { r, g, b, a: 255 }),
        hex_colour(
            digits_of(r, is_upper) + digits_of(g, is_upper) + digits_of(b, is_upper) + digits_of(
                a,
                is_upper,
            ),
        ) == Some(ColourView::Bytes { r, g, b, a }),
{
    let x = digits_of(r, is_upper);
    let y = digits_of(g, is_upper);
    let z = digits_of(b, is_upper);
    let w = digits_of(a, is_upper);
    digit_is_read(r as int / 16, is_upper);
    digit_is_read(r as int % 16, is_upper);
    digit_is_read(g as int / 16, is_upper);
    digit_is_read(g as int % 16, is_upper);
    digit_is_read(b as int / 16, is_upper);
    digit_is_read(b as int % 16, is_upper);
    digit_is_read(a as int / 16, is_upper);
    digit_is_read(a as int % 16, is_upper);
    let s = x + y + z;
    let t = x + y + z + w;
    assert(s.len() == 6 && t.len() == 8);
    assert(s[0] == x[0] && s[1] == x[1] && s[2] == y[0] && s[3] == y[1] && s[4] == z[0] && s[5]
        == z[1]);
    assert(t[0] == x[0] && t[1] == x[1] && t[2] == y[0] && t[3] == y[1] && t[4] == z[0] && t[5]
        == z[1] && t[6] == w[0] && t[7] == w[1]);
    assert forall|i: int| 0 <= i < s.len() implies digit_value(#[trigger] s[i]) is Some by {
        assert(i == 0 || i == 1 || i == 2 || i == 3 || i == 4 || i == 5);
    }
    assert forall|i: int| 0 <= i < t.len() implies digit_value(#[trigger] t[i]) is Some by {
        assert(i == 0 || i == 1 || i == 2 || i == 3 || i == 4 || i == 5 || i == 6 || i == 7);
    }
}

/// A colour in single digits is the one in which each of them stands twice.
pub proof fn short_colours_double(r: char, g: char, b: char, a: char)
    ensures
        hex_colour(seq![r, g, b]) == hex_colour(seq![r, r, g, g, b, b]),
        hex_colour(seq![r, g, b, a]) == hex_colour(seq![r, r, g, g, b, b, a, a]),
{
    let s = seq![r, g, b];
    let d = seq![r, r, g, g, b, b];
    let t = seq![r, g, b, a];
    let e = seq![r, r, g, g, b, b, a, a];
    assert(s[0] == d[0] && s[0] == d[1] && s[1] == d[2] && s[1] == d[3] && s[2] == d[4] && s[2]
        == d[5]);
    assert(t[0] == e[0] && t[0] == e[1] && t[1] == e[2] && t[1] == e[3] && t[2] == e[4] && t[2]
        == e[5] && t[3] == e[6] && t[3] == e[7]);
    assert(all_hex(s) == all_hex(d)) by {
        if all_hex(s) {
            assert(digit_value(s[0]) is Some && digit_value(s[1]) is Some && digit_value(
                s[2],
            ) is Some);
        }
        if all_hex(d) {
            assert(digit_value(d[0]) is Some && digit_value(d[2]) is Some && digit_value(
                d[4],
            ) is Some);
        }
    }
    assert(all_hex(t) == all_hex(e)) by {
        if all_hex(t) {
            assert(digit_value(t[0]) is Some && digit_value(t[1]) is Some && digit_value(
                t[2],
            ) is Some && digit_value(t[3]) is Some);
        }
        if all_hex(e) {
            assert(digit_value(e[0]) is Some && digit_value(e[2]) is Some && digit_value(
                e[4],
            ) is Some && digit_value(e[6]) is Some);
        }
    }
}

/// The number of a colour holds its red, its green and its blue, and the colour is opaque.
pub proof fn numbers_hold_their_bytes(r: u8, g: u8, b: u8)
    ensures
        number_colour((r as int * 65536 + g as int * 256 + b as int) as u32) == (
        ColourView::Bytes { r, g, b, a: 255 }),
{
    let v = r as int * 65536 + g as int * 256 + b as int;
    assert(0 <= v <= 0xffffff);
    assert(v / 65536 == r as int);
    assert(v / 256 == r as int * 256 + g as int);
    assert((r as int * 256 + g as int) % 256 == g as int);
    assert(v % 256 == b as int);
}

/// The first entry of a table with a name gives the name's value, and a name that no entry has gives
/// none.
pub proof fn the_first_name_decides(table: Seq<(Seq<char>, u32)>, name: Seq<char>, i: int, k: int)
    requires
        0 <= i <= k <= table.len(),
        forall|m: int| i <= m < k ==> (#[trigger] table[m]).0 != name,
    ensures
        k < table.len() && table[k].0 == name ==> value_of(table, name, i) == Some(table[k].1),
        k == table.len() ==> value_of(table, name, i) is None,
    decreases k - i,
{
    if i < k {
        assert(table[i].0 != name);
        the_first_name_decides(table, name, i + 1, k);
    }
}

/// The arguments of a colour function are what stands between its separators: those before a
/// separator and those after it, and a text without one is a single argument, or none where it is
/// blank.
pub proof fn arguments_add_up(a: Seq<char>, c: char, b: Seq<char>)
    requires
        is_separator(c),
    ensures
        arguments(a + seq![c] + b, 0, 0) == arguments(a, 0, 0) + arguments(b, 0, 0),
        (forall|k: int| 0 <= k < a.len() ==> !is_separator(#[trigger] a[k])) ==> arguments(a, 0, 0)
            == kept(a),
{
    arguments_part(a, c, b, 0, 0);
    if forall|k: int| 0 <= k < a.len() ==> !is_separator(#[trigger] a[k]) {
        argument_goes_on(a, 0);
        assert(a.skip(0) =~= a);
    }
}

proof fn argument_goes_on(a: Seq<char>, i: int)
    requires
        0 <= i <= a.len(),
        forall|k: int| 0 <= k < a.len() ==> !is_separator(#[trigger] a[k]),
    ensures
        arguments(a, 0, i) == kept(a.skip(0)),
    decreases a.len() - i,
{
    if i < a.len() {
        assert(!is_separator(a[i]));
        argument_goes_on(a, i + 1);
    }
}

proof fn arguments_part(a: Seq<char>, c: char, b: Seq<char>, start: int, i: int)
    requires
        is_separator(c),
        0 <= start <= i <= a.len(),
    ensures
        arguments(a + seq![c] + b, start, i) == arguments(a, start, i) + arguments(b, 0, 0),
    decreases a.len() - i,
{
    let head = a + seq![c];
    let all = head + b;
    if i < a.len() {
        assert(all[i] == a[i]);
        if is_separator(a[i]) {
            arguments_part(a, c, b, i + 1, i + 1);
            assert(all.subrange(start, i) =~= a.subrange(start, i));
            let first = kept(a.subrange(start, i));
            let rest = arguments(a, i + 1, i + 1);
            let last = arguments(b, 0, 0);
            assert(first + (rest + last) =~= first + rest + last);
        } else {
            arguments_part(a, c, b, start, i + 1);
        }
    } else {
        assert(all[i] == c);
        assert(all.subrange(start, i) =~= a.skip(start));
        arguments_shift(head, b, 0, 0);
    }
}

proof fn arguments_shift(p: Seq<char>, s: Seq<char>, start: int, i: int)
    requires
        0 <= start <= i <= s.len(),
    ensures
        arguments(p + s, p.len() + start, p.len() + i) == arguments(s, start, i),
    decreases s.len() - i,
{
    let all = p + s;
    if i < s.len() {
        assert(all[p.len() + i] == s[i]);
        assert(p.len() + (i + 1) == p.len() + i + 1);
        if is_separator(s[i]) {
            arguments_shift(p, s, i + 1, i + 1);
            assert(all.subrange(p.len() + start, p.len() + i) =~= s.subrange(start, i));
        } else {
            arguments_shift(p, s, start, i + 1);
        }
    } else {
        assert(all.skip(p.len() + start) =~= s.skip(start));
    }
}

} // verus!
