//! The little HTML handling the composer and previews need: escaping text
//! into markup, and flattening markup back into readable text. Not a
//! renderer, just enough to make a preview line and a plain-text alternative.

use vstd::prelude::*;
use crate::text;

verus! {

// --- escaping -------------------------------------------------------------

/// What stands for a character in text and attribute values.
pub open spec fn escape_char(c: char) -> Seq<char> {
    if c == '&' {
        "&amp;"@
    } else if c == '<' {
        "&lt;"@
    } else if c == '>' {
        "&gt;"@
    } else if c == '"' {
        "&quot;"@
    } else {
        seq![c]
    }
}

/// The text from `i` on, escaped.
pub open spec fn escaped_from(s: Seq<char>, i: int) -> Seq<char>
    decreases s.len() - i,
{
    if i < 0 || i >= s.len() {
        Seq::empty()
    } else {
        escape_char(s[i]) + escaped_from(s, i + 1)
    }
}

/// A text, escaped.
pub open spec fn escaped(s: Seq<char>) -> Seq<char> {
    escaped_from(s, 0)
}

/// A text as HTML: escaped, with a `<br>` for each newline.
pub open spec fn as_html(s: Seq<char>) -> Seq<char> {
    text::replace_char(escaped(s), '\n', "<br>"@)
}

/// Calls `html_escape::encode_double_quoted_attribute`, which writes an entity for each `&`, `<`,
/// `>` and `"` and keeps every other character. Resolving the entities gives the text back: each of
/// the four has its name in the table of `html_escape::decode_html_entities`, and no other `&` is
/// left.
#[verifier::external_body]
fn encode(text: &str) -> (out: String)
    ensures
        out@ == escaped(text@),
        entities_decoded(out@) == text@,
{
    html_escape::encode_double_quoted_attribute(text).into_owned()
}

/// Escape the characters that matter in text and attribute values.
pub fn escape(text: &str) -> (r: String)
    ensures
        r@ == escaped(text@),
        entities_decoded(r@) == text@,
{
    encode(text)
}

/// Escape text for inclusion in HTML, turning newlines into `<br>`. Read as markup, it is the text
/// again, but for its blank lines and the white space around its lines.
pub fn to_html(text: &str) -> (r: String)
    ensures
        r@ == as_html(text@),
        as_text(r@) == tidied(text@),
{
    let escaped = text::chars_of(&escape(text));
    proof {
        flattening_undoes_to_html(text@);
    }
    text::text_of(&text::replaced_char(&escaped, '\n', &text::chars_of("<br>")))
}

// --- flattening -----------------------------------------------------------

/// Whether a character is an ASCII letter.
pub open spec fn is_alpha(c: char) -> bool {
    'a' <= c <= 'z' || 'A' <= c <= 'Z'
}

/// Whether a character is an ASCII letter or digit.
pub open spec fn is_alnum(c: char) -> bool {
    is_alpha(c) || '0' <= c <= '9'
}

/// Whether a character is an ASCII letter.
pub fn alpha(c: char) -> (r: bool)
    ensures
        r == is_alpha(c),
{
    ('a' <= c && c <= 'z') || ('A' <= c && c <= 'Z')
}

/// Whether a character is an ASCII letter or digit.
pub fn alnum(c: char) -> (r: bool)
    ensures
        r == is_alnum(c),
{
    alpha(c) || ('0' <= c && c <= '9')
}

/// Where the run of letters and digits that starts at `i` ends.
pub open spec fn alnum_end(s: Seq<char>, i: int) -> int
    decreases s.len() - i,
{
    if 0 <= i < s.len() && is_alnum(s[i]) {
        alnum_end(s, i + 1)
    } else {
        i
    }
}

/// Where the slashes that start at `i` end.
pub open spec fn slashes_end(s: Seq<char>, i: int) -> int
    decreases s.len() - i,
{
    if 0 <= i < s.len() && s[i] == '/' {
        slashes_end(s, i + 1)
    } else {
        i
    }
}

/// The name of a tag, in lower case.
pub open spec fn tag_name(tag: Seq<char>) -> Seq<char> {
    let start = slashes_end(tag, 0);
    text::ascii_lower(tag.subrange(start, alnum_end(tag, start)))
}

/// Whether a tag closes an element.
pub open spec fn is_closing(tag: Seq<char>) -> bool {
    tag.len() > 0 && tag[0] == '/'
}

/// Whether the element of this name holds nothing to read.
pub open spec fn is_hidden(name: Seq<char>) -> bool {
    name == "script"@ || name == "style"@
}

/// Whether an element of this name starts a new line.
pub open spec fn is_block(name: Seq<char>) -> bool {
    name == "p"@ || name == "div"@ || name == "br"@ || name == "li"@ || name == "tr"@ || name
        == "h1"@ || name == "h2"@ || name == "h3"@ || name == "h4"@ || name == "h5"@ || name
        == "h6"@
}

/// How deep in hidden elements the text after a tag is.
pub open spec fn depth_after(tag: Seq<char>, depth: nat) -> nat {
    if !is_hidden(tag_name(tag)) {
        depth
    } else if !is_closing(tag) {
        depth + 1
    } else if depth > 0 {
        (depth - 1) as nat
    } else {
        0
    }
}

/// The text that a tag leaves behind.
pub open spec fn tag_text(tag: Seq<char>) -> Seq<char> {
    let name = tag_name(tag);
    if is_hidden(name) {
        Seq::empty()
    } else if !is_closing(tag) {
        if name == "li"@ {
            "\n- "@
        } else if is_block(name) {
            "\n"@
        } else {
            Seq::empty()
        }
    } else if name == "p"@ || name == "blockquote"@ {
        "\n"@
    } else {
        Seq::empty()
    }
}

/// Whether the `<` at `open` starts a tag: a letter, a slash or a bang follows it, and somewhere
/// a `>`. Any other `<` is text.
pub open spec fn is_tag(s: Seq<char>, open: int) -> bool {
    &&& open + 1 < s.len()
    &&& is_alpha(s[open + 1]) || s[open + 1] == '/' || s[open + 1] == '!'
    &&& text::find_at(s, '>', open + 1) < s.len()
}

/// A piece of text, unless it is inside a hidden element.
pub open spec fn shown(piece: Seq<char>, depth: nat) -> Seq<char> {
    if depth == 0 {
        piece
    } else {
        Seq::empty()
    }
}

/// Where the tag or comment that starts at `open` ends. A comment may hold a `>`.
pub open spec fn tag_end(s: Seq<char>, open: int) -> int {
    let close = text::find_at(s, '>', open + 1);
    if text::starts_with(s.subrange(open + 1, close), "!--"@) {
        match text::find_text_at(s, "-->"@, open + 1) {
            Some(end) => end + 3,
            None => close + 1,
        }
    } else {
        close + 1
    }
}

/// The text of the markup from `i` on, its entities as they are, where `depth` hidden elements
/// are open.
pub open spec fn flattened(s: Seq<char>, i: int, depth: nat) -> Seq<char>
    decreases s.len() - i,
{
    let open = text::find_at(s, '<', i);
    if i < 0 || i >= s.len() {
        Seq::empty()
    } else if open >= s.len() || open < i {
        shown(s.skip(i), depth)
    } else if !is_tag(s, open) {
        shown(s.subrange(i, open), depth) + shown(seq!['<'], depth) + flattened(s, open + 1, depth)
    } else {
        let tag = s.subrange(open + 1, text::find_at(s, '>', open + 1));
        let next = tag_end(s, open);
        proof {
            text::find_at_is_first(s, '>', open + 1);
            text::find_text_at_is_first(s, "-->"@, open + 1);
            reveal_strlit("-->");
        }
        if text::starts_with(tag, "!--"@) {
            shown(s.subrange(i, open), depth) + flattened(s, next, depth)
        } else {
            shown(s.subrange(i, open), depth) + tag_text(tag) + flattened(
                s,
                next,
                depth_after(tag, depth),
            )
        }
    }
}

/// The lines of a text, trimmed, with no more than one blank line between two others.
pub open spec fn kept_lines(all: Seq<Seq<char>>) -> Seq<Seq<char>>
    decreases all.len(),
{
    if all.len() == 0 {
        Seq::empty()
    } else {
        let before = kept_lines(all.drop_last());
        let line = text::trim(all.last());
        if line.len() > 0 || (before.len() > 0 && before.last().len() > 0) {
            before.push(line)
        } else {
            before
        }
    }
}

/// A text with its lines trimmed and its blank lines collapsed.
pub open spec fn tidied(s: Seq<char>) -> Seq<char> {
    text::trim(text::join(kept_lines(text::lines(s)), "\n"@))
}

/// A text with its character references resolved.
pub uninterp spec fn entities_decoded(s: Seq<char>) -> Seq<char>;

/// Markup as readable text.
pub open spec fn as_text(html: Seq<char>) -> Seq<char> {
    tidied(entities_decoded(flattened(html, 0, 0)))
}

/// Calls `html_escape::decode_html_entities`: the text with its named and numeric character
/// references resolved. A text without `&` has none, and comes back as it is.
#[verifier::external_body]
fn decode_entities(text: &str) -> (out: String)
    ensures
        out@ == entities_decoded(text@),
        !text@.contains('&') ==> out@ == text@,
{
    html_escape::decode_html_entities(text).into_owned()
}

fn name_of_tag(tag: &[char]) -> (r: Vec<char>)
    ensures
        r@ == tag_name(tag@),
{
    let mut start: usize = 0;
    while start < tag.len() && tag[start] == '/'
        invariant
            start <= tag.len(),
            slashes_end(tag@, 0) == slashes_end(tag@, start as int),
        decreases tag.len() - start,
    {
        start = start + 1;
    }
    let mut end: usize = start;
    while end < tag.len() && alnum(tag[end])
        invariant
            start <= end <= tag.len(),
            alnum_end(tag@, start as int) == alnum_end(tag@, end as int),
        decreases tag.len() - end,
    {
        end = end + 1;
    }
    text::to_ascii_lower(&text::slice_of(tag, start, end))
}

fn is_word(name: &[char], word: &str) -> (r: bool)
    ensures
        r == (name@ == word@),
{
    text::same(name, &text::chars_of(word))
}

fn block(name: &[char]) -> (r: bool)
    ensures
        r == is_block(name@),
{
    is_word(name, "p") || is_word(name, "div") || is_word(name, "br") || is_word(name, "li")
        || is_word(name, "tr") || is_word(name, "h1") || is_word(name, "h2") || is_word(name, "h3")
        || is_word(name, "h4") || is_word(name, "h5") || is_word(name, "h6")
}

/// Strip tags, and drop scripts and styles. Character references stay as they are.
pub fn flatten(html: &str) -> (r: String)
    ensures
        r@ == flattened(html@, 0, 0),
{
    let s = text::chars_of(html);
    let comment = text::chars_of("!--");
    let comment_end = text::chars_of("-->");
    proof {
        reveal_strlit("-->");
    }
    let mut out: Vec<char> = Vec::new();
    let mut depth: usize = 0;
    let mut i: usize = 0;
    while i < s.len()
        invariant
            depth <= i <= s.len(),
            comment@ == "!--"@,
            comment_end@ == "-->"@,
            comment_end.len() == 3,
            out@ + flattened(s@, i as int, depth as nat) =~= flattened(s@, 0, 0),
        decreases s.len() - i,
    {
        let ghost i0 = i as int;
        let ghost out0 = out@;
        let open: usize = text::find_char(&s, '<', i);
        if depth == 0 {
            text::extend(&mut out, &text::slice_of(&s, i, open));
        }
        if open == s.len() {
            assert(s@.skip(i as int) =~= s@.subrange(i as int, open as int));
            i = open;
        } else {
            let after: usize = open + 1;
            let starts = after < s.len() && (alpha(s[after]) || s[after] == '/' || s[after] == '!');
            let close: usize = text::find_char(&s, '>', after);
            if !starts || close == s.len() {
                if depth == 0 {
                    out.push('<');
                }
                i = after;
            } else {
                let tag = text::slice_of(&s, after, close);
                if text::stands_at(&tag, &comment, 0) {
                    proof {
                        text::find_text_at_is_first(s@, comment_end@, after as int);
                    }
                    match text::find_text(&s, &comment_end, after) {
                        Some(end) => {
                            i = end + 3;
                        },
                        None => {
                            i = close + 1;
                        },
                    }
                } else {
                    let closing = tag.len() > 0 && tag[0] == '/';
                    let name = name_of_tag(&tag);
                    if is_word(&name, "script") || is_word(&name, "style") {
                        if !closing {
                            depth = depth + 1;
                        } else if depth > 0 {
                            depth = depth - 1;
                        }
                    } else if !closing {
                        if is_word(&name, "li") {
                            text::extend_str(&mut out, "\n- ");
                        } else if block(&name) {
                            text::extend_str(&mut out, "\n");
                        }
                    } else if is_word(&name, "p") || is_word(&name, "blockquote") {
                        text::extend_str(&mut out, "\n");
                    }
                    i = close + 1;
                }
            }
        }
    }
    text::text_of(&out)
}

/// Trim the lines of a text and collapse its blank lines.
pub fn tidy(text: &str) -> (r: String)
    ensures
        r@ == tidied(text@),
{
    let all = text::split_lines(&text::chars_of(text));
    let mut kept: Vec<Vec<char>> = Vec::new();
    let ghost views = text::char_texts(all@);
    let mut i: usize = 0;
    while i < all.len()
        invariant
            i <= all.len(),
            views == text::char_texts(all@),
            text::char_texts(kept@) == kept_lines(views.take(i as int)),
        decreases all.len() - i,
    {
        let line = text::trimmed(&all[i]);
        proof {
            assert(views.take(i + 1).drop_last() =~= views.take(i as int));
            assert(views.take(i + 1).last() == all@[i as int]@);
            if kept.len() > 0 {
                assert(text::char_texts(kept@).last() == kept@.last()@);
            }
            assert(text::char_texts(kept@).len() == kept.len());
        }
        if line.len() > 0 || (kept.len() > 0 && kept[kept.len() - 1].len() > 0) {
            let ghost before = kept@;
            let ghost view = line@;
            kept.push(line);
            assert(text::char_texts(kept@) =~= text::char_texts(before).push(view));
        }
        i = i + 1;
    }
    assert(views.take(i as int) =~= views);
    text::text_of(&text::trimmed(&text::joined(&kept, &text::chars_of("\n"))))
}

/// Strip tags, drop scripts and styles, and collapse blank lines.
pub fn html_to_text(html: &str) -> (r: String)
    ensures
        r@ == as_text(html@),
        !flattened(html@, 0, 0).contains('&') ==> r@ == tidied(flattened(html@, 0, 0)),
{
    tidy(&decode_entities(&flatten(html)))
}

// --- what flattening makes of escaped text --------------------------------

proof fn flattened_shifts(p: Seq<char>, s: Seq<char>, i: int, depth: nat)
    requires
        0 <= i <= s.len(),
    ensures
        flattened(p + s, p.len() + i, depth) == flattened(s, i, depth),
    decreases s.len() - i,
{
    if i < s.len() {
        let whole = p + s;
        let n = p.len() as int;
        let open = text::find_at(s, '<', i);
        text::find_at_is_first(s, '<', i);
        text::find_at_shifts(p, s, '<', i);
        if open >= s.len() {
            assert(whole.skip(n + i) =~= s.skip(i));
        } else {
            assert(whole.subrange(n + i, n + open) =~= s.subrange(i, open));
            text::find_at_is_first(s, '>', open + 1);
            text::find_at_shifts(p, s, '>', open + 1);
            assert(n + (open + 1) == n + open + 1);
            if open + 1 < s.len() {
                assert(whole[n + open + 1] == s[open + 1]);
            }
            assert(is_tag(whole, n + open) == is_tag(s, open));
            if !is_tag(s, open) {
                flattened_shifts(p, s, open + 1, depth);
            } else {
                let close = text::find_at(s, '>', open + 1);
                let tag = s.subrange(open + 1, close);
                assert(whole.subrange(n + open + 1, n + close) =~= tag);
                text::find_text_at_is_first(s, "-->"@, open + 1);
                text::find_text_at_shifts(p, s, "-->"@, open + 1);
                reveal_strlit("-->");
                let next = tag_end(s, open);
                assert(tag_end(whole, n + open) == n + next);
                if text::starts_with(tag, "!--"@) {
                    flattened_shifts(p, s, next, depth);
                } else {
                    flattened_shifts(p, s, next, depth_after(tag, depth));
                }
            }
        }
    }
}

/// Escaped text holds nothing that opens or closes a tag or ends a quoted attribute.
pub proof fn escaped_is_inert(s: Seq<char>)
    ensures
        forall|i: int|
            0 <= i < escaped(s).len() ==> escaped(s)[i] != '<' && escaped(s)[i] != '>' && escaped(
                s,
            )[i] != '"',
{
    escaped_from_is_inert(s, 0);
}

proof fn escaped_from_is_inert(s: Seq<char>, i: int)
    requires
        0 <= i <= s.len(),
    ensures
        forall|k: int|
            0 <= k < escaped_from(s, i).len() ==> escaped_from(s, i)[k] != '<' && escaped_from(
                s,
                i,
            )[k] != '>' && escaped_from(s, i)[k] != '"',
    decreases s.len() - i,
{
    reveal_strlit("&amp;");
    reveal_strlit("&lt;");
    reveal_strlit("&gt;");
    reveal_strlit("&quot;");
    if i < s.len() {
        escaped_from_is_inert(s, i + 1);
        let head = escape_char(s[i]);
        let rest = escaped_from(s, i + 1);
        assert forall|k: int| 0 <= k < escaped_from(s, i).len() implies escaped_from(s, i)[k] != '<'
            && escaped_from(s, i)[k] != '>' && escaped_from(s, i)[k] != '"' by {
            if k < head.len() {
                assert(escaped_from(s, i)[k] == head[k]);
            } else {
                assert(escaped_from(s, i)[k] == rest[k - head.len()]);
            }
        }
    }
}

proof fn flattened_skips_text(c: char, s: Seq<char>)
    requires
        c != '<',
    ensures
        flattened(seq![c] + s, 0, 0) == seq![c] + flattened(s, 0, 0),
{
    let whole = seq![c] + s;
    assert(whole[0] == c);
    text::find_at_shifts(seq![c], s, '<', 0);
    text::find_at_is_first(s, '<', 0);
    let open = text::find_at(s, '<', 0);
    assert(text::find_at(whole, '<', 0) == 1 + open);
    if s.len() == 0 {
        assert(whole.skip(0) =~= seq![c]);
    } else if open >= s.len() {
        assert(whole.skip(0) =~= seq![c] + s);
        assert(s.skip(0) =~= s);
    } else {
        flattened_shifts(seq![c], s, 0, 0);
        assert(whole.subrange(0, 1 + open) =~= seq![c] + whole.subrange(1, 1 + open));
        assert(flattened(whole, 1, 0) == flattened(s, 0, 0));
        let x = flattened(whole, 1, 0);
        assert(flattened(whole, 0, 0) =~= seq![c] + x);
    }
}

proof fn flattened_turns_breaks(s: Seq<char>)
    ensures
        flattened("<br>"@ + s, 0, 0) == seq!['\n'] + flattened(s, 0, 0),
{
    reveal_strlit("<br>");
    reveal_strlit("br");
    reveal_strlit("!--");
    reveal_strlit("\n");
    reveal_strlit("script");
    reveal_strlit("style");
    reveal_strlit("li");
    let b = "<br>"@;
    let whole = b + s;
    assert(whole[0] == '<' && whole[1] == 'b' && whole[2] == 'r' && whole[3] == '>');
    assert(text::find_at(whole, '<', 0) == 0);
    reveal_with_fuel(text::find_at, 4);
    assert(text::find_at(whole, '>', 1) == 3);
    assert(is_tag(whole, 0));
    let tag = whole.subrange(1, 3);
    assert(tag =~= seq!['b', 'r']);
    assert(!text::starts_with(tag, "!--"@));
    reveal_with_fuel(alnum_end, 3);
    assert(slashes_end(tag, 0) == 0);
    assert(alnum_end(tag, 0) == 2);
    assert(tag.subrange(0, 2) =~= tag);
    assert(text::ascii_lower(tag) =~= "br"@);
    assert("br"@.len() == 2 && "script"@.len() == 6 && "style"@.len() == 5);
    assert("br"@[0] != "li"@[0]);
    assert(tag_text(tag) == "\n"@);
    assert("\n"@ =~= seq!['\n']);
    assert(depth_after(tag, 0) == 0);
    assert(tag_end(whole, 0) == 4);
    flattened_shifts(b, s, 0, 0);
    assert(whole.subrange(0, 0) =~= Seq::<char>::empty());
    assert(flattened(whole, 0, 0) =~= seq!['\n'] + flattened(whole, 4, 0));
}

proof fn flattened_undoes_breaks(e: Seq<char>, i: int)
    requires
        0 <= i <= e.len(),
        forall|k: int| 0 <= k < e.len() ==> e[k] != '<',
    ensures
        flattened(text::replace_char_from(e, '\n', "<br>"@, i), 0, 0) == e.skip(i),
    decreases e.len() - i,
{
    if i < e.len() {
        flattened_undoes_breaks(e, i + 1);
        let rest = text::replace_char_from(e, '\n', "<br>"@, i + 1);
        assert(e.skip(i) =~= seq![e[i]] + e.skip(i + 1));
        if e[i] == '\n' {
            flattened_turns_breaks(rest);
        } else {
            flattened_skips_text(e[i], rest);
        }
    } else {
        assert(e.skip(i) =~= Seq::<char>::empty());
    }
}

/// Flattening the HTML made from a text loses nothing of it: before its character references are
/// resolved it is the escaped text.
pub proof fn flattening_undoes_to_html(s: Seq<char>)
    ensures
        flattened(as_html(s), 0, 0) == escaped(s),
{
    escaped_is_inert(s);
    flattened_undoes_breaks(escaped(s), 0);
    assert(escaped(s).skip(0) =~= escaped(s));
}

// --- what flattening keeps ------------------------------------------------

/// Text before markup is kept, and the markup reads as it would on its own.
pub proof fn text_is_kept(t: Seq<char>, s: Seq<char>)
    requires
        !t.contains('<'),
    ensures
        flattened(t + s, 0, 0) == t + flattened(s, 0, 0),
    decreases t.len(),
{
    if t.len() == 0 {
        assert(t + s =~= s);
        assert(t + flattened(s, 0, 0) =~= flattened(s, 0, 0));
    } else {
        let rest = t.skip(1);
        assert(t[0] != '<') by {
            assert(t.contains(t[0]));
        }
        assert(!rest.contains('<')) by {
            if rest.contains('<') {
                let k = choose|k: int| 0 <= k < rest.len() && rest[k] == '<';
                assert(t[k + 1] == '<');
                assert(t.contains('<'));
            }
        }
        text_is_kept(rest, s);
        flattened_skips_text(t[0], rest + s);
        assert(seq![t[0]] + (rest + s) =~= t + s);
        assert(seq![t[0]] + (rest + flattened(s, 0, 0)) =~= t + flattened(s, 0, 0));
    }
}

/// A tag leaves behind what its name says, and the markup after it reads as it would on its own, but
/// for the hidden elements that are open.
pub proof fn tags_are_stripped(tag: Seq<char>, s: Seq<char>, depth: nat)
    requires
        tag.len() > 0,
        is_alpha(tag[0]) || tag[0] == '/',
        !tag.contains('>'),
    ensures
        flattened(seq!['<'] + tag + seq!['>'] + s, 0, depth) == tag_text(tag) + flattened(
            s,
            0,
            depth_after(tag, depth),
        ),
{
    reveal_strlit("!--");
    let front = seq!['<'] + tag + seq!['>'];
    let w = front + s;
    let close = tag.len() as int + 1;
    assert(w[0] == '<' && w[1] == tag[0]);
    text::find_at_is_first(w, '<', 0);
    text::find_at_is_first(w, '>', 1);
    assert(w[close] == '>');
    assert forall|j: int| 1 <= j < close implies w[j] != '>' by {
        assert(w[j] == tag[j - 1]);
        assert(tag.contains(tag[j - 1]));
    }
    assert(text::find_at(w, '>', 1) == close);
    assert(w.subrange(1, close) =~= tag);
    assert(!text::starts_with(tag, "!--"@)) by {
        if text::starts_with(tag, "!--"@) {
            assert(tag.subrange(0, 3)[0] == tag[0]);
        }
    }
    assert(tag_end(w, 0) == close + 1);
    flattened_shifts(front, s, 0, depth_after(tag, depth));
    assert(front.len() == close + 1);
    assert(w.subrange(0, 0) =~= Seq::<char>::empty());
    assert(flattened(w, 0, depth) =~= tag_text(tag) + flattened(
        w,
        close + 1,
        depth_after(tag, depth),
    ));
}

/// What a tag leaves behind: a new line where a block starts, an item mark where an item does, a new
/// line where a paragraph or a quote ends, and nothing for any other.
pub proof fn tags_leave_lines(tag: Seq<char>)
    ensures
        tag_name(tag) == "li"@ && !is_closing(tag) ==> tag_text(tag) == "\n- "@,
        (tag_name(tag) == "p"@ || tag_name(tag) == "div"@ || tag_name(tag) == "br"@ || tag_name(tag)
            == "tr"@ || tag_name(tag) == "h1"@ || tag_name(tag) == "h2"@ || tag_name(tag) == "h3"@
            || tag_name(tag) == "h4"@ || tag_name(tag) == "h5"@ || tag_name(tag) == "h6"@)
            && !is_closing(tag) ==> tag_text(tag) == "\n"@,
        (tag_name(tag) == "p"@ || tag_name(tag) == "blockquote"@) && is_closing(tag) ==> tag_text(
            tag,
        ) == "\n"@,
        tag_text(tag).len() > 0 && is_closing(tag) ==> tag_name(tag) == "p"@ || tag_name(tag)
            == "blockquote"@,
        tag_text(tag).len() > 0 && !is_closing(tag) ==> is_block(tag_name(tag)),
        tag_name(tag) != "script"@ && tag_name(tag) != "style"@ ==> depth_after(tag, 0) == 0,
        (tag_name(tag) == "script"@ || tag_name(tag) == "style"@) && !is_closing(tag) ==> depth_after(
            tag,
            0,
        ) == 1,
        (tag_name(tag) == "script"@ || tag_name(tag) == "style"@) && is_closing(tag) ==> depth_after(
            tag,
            1,
        ) == 0,
{
    reveal_strlit("li");
    reveal_strlit("p");
    reveal_strlit("div");
    reveal_strlit("br");
    reveal_strlit("tr");
    reveal_strlit("h1");
    reveal_strlit("h2");
    reveal_strlit("h3");
    reveal_strlit("h4");
    reveal_strlit("h5");
    reveal_strlit("h6");
    reveal_strlit("script");
    reveal_strlit("style");
    reveal_strlit("blockquote");
    assert("li"@.len() == 2 && "p"@.len() == 1 && "div"@.len() == 3 && "br"@.len() == 2 && "tr"@.len()
        == 2 && "script"@.len() == 6 && "style"@.len() == 5 && "blockquote"@.len() == 10);
    assert("li"@[0] == 'l' && "br"@[0] == 'b' && "tr"@[0] == 't' && "h1"@[0] == 'h' && "h2"@[0]
        == 'h' && "h3"@[0] == 'h' && "h4"@[0] == 'h' && "h5"@[0] == 'h' && "h6"@[0] == 'h');
}

proof fn hidden_text_goes(t: Seq<char>, s: Seq<char>, depth: nat)
    requires
        !t.contains('<'),
        depth > 0,
        s.len() > 0,
        s[0] == '<',
    ensures
        flattened(t + s, 0, depth) == flattened(s, 0, depth),
{
    let w = t + s;
    let n = t.len() as int;
    text::find_at_is_first(w, '<', 0);
    text::find_at_is_first(s, '<', 0);
    assert(w[n] == '<');
    assert forall|j: int| 0 <= j < n implies w[j] != '<' by {
        assert(w[j] == t[j]);
        assert(t.contains(t[j]));
    }
    assert(text::find_at(w, '<', 0) == n);
    flattened_shifts(t, s, 0, depth);
    text::find_at_is_first(w, '<', n);
    assert(text::find_at(w, '<', n) == n);
    let none = Seq::<char>::empty();
    if !is_tag(w, n) {
        assert(flattened(w, 0, depth) =~= flattened(w, n, depth));
    } else {
        assert(flattened(w, 0, depth) =~= flattened(w, n, depth));
    }
}

/// What a stylesheet or a script holds is not read.
pub proof fn hidden_elements_are_dropped(
    open: Seq<char>,
    inside: Seq<char>,
    close: Seq<char>,
    s: Seq<char>,
)
    requires
        open.len() > 0,
        is_alpha(open[0]),
        !open.contains('>'),
        !inside.contains('<'),
        close.len() > 0,
        close[0] == '/',
        !close.contains('>'),
        tag_name(open) == "script"@ || tag_name(open) == "style"@,
        tag_name(close) == "script"@ || tag_name(close) == "style"@,
    ensures
        flattened(
            seq!['<'] + open + seq!['>'] + (inside + (seq!['<'] + close + seq!['>'] + s)),
            0,
            0,
        ) == flattened(s, 0, 0),
{
    let tail = seq!['<'] + close + seq!['>'] + s;
    tags_are_stripped(open, inside + tail, 0);
    assert(tail[0] == '<');
    hidden_text_goes(inside, tail, 1);
    tags_are_stripped(close, s, 1);
    assert(tag_text(open) =~= Seq::empty());
    assert(tag_text(close) =~= Seq::empty());
    assert(flattened(
        seq!['<'] + open + seq!['>'] + (inside + (seq!['<'] + close + seq!['>'] + s)),
        0,
        0,
    ) =~= flattened(s, 0, 0));
}

/// The lines that say something, trimmed.
pub open spec fn telling_lines(all: Seq<Seq<char>>) -> Seq<Seq<char>> {
    all.map_values(|l: Seq<char>| text::trim(l)).filter(|l: Seq<char>| l.len() > 0)
}

/// Tidying loses no line that says something, and leaves no blank line at the start nor two in a
/// row.
pub proof fn telling_lines_are_kept(all: Seq<Seq<char>>)
    ensures
        kept_lines(all).filter(|l: Seq<char>| l.len() > 0) == telling_lines(all),
        kept_lines(all).len() > 0 ==> kept_lines(all)[0].len() > 0,
        forall|i: int|
            0 < i < kept_lines(all).len() ==> (#[trigger] kept_lines(all)[i]).len() > 0
                || kept_lines(all)[i - 1].len() > 0,
    decreases all.len(),
{
    reveal(Seq::filter);
    let trimmed = all.map_values(|l: Seq<char>| text::trim(l));
    if all.len() > 0 {
        let short = all.drop_last();
        telling_lines_are_kept(short);
        let before = kept_lines(short);
        let kept = kept_lines(all);
        let line = text::trim(all.last());
        assert(trimmed.drop_last() =~= short.map_values(|l: Seq<char>| text::trim(l)));
        assert(trimmed.last() == line);
        if kept.len() > before.len() {
            assert(kept.drop_last() =~= before);
            assert(kept.last() == line);
        }
        assert forall|i: int| 0 < i < kept.len() implies (#[trigger] kept[i]).len() > 0 || kept[i
            - 1].len() > 0 by {
            if i < before.len() {
                assert(kept[i] == before[i] && kept[i - 1] == before[i - 1]);
            } else {
                assert(kept[i] == line && kept[i - 1] == before.last());
            }
        }
        assert(kept.filter(|l: Seq<char>| l.len() > 0) =~= telling_lines(all));
    } else {
        assert(trimmed =~= Seq::empty());
        assert(kept_lines(all).filter(|l: Seq<char>| l.len() > 0) =~= telling_lines(all));
    }
}

/// Escaping goes character by character, and what a browser reads as markup is written out.
pub proof fn escaping_adds_up(a: Seq<char>, c: char, b: Seq<char>)
    ensures
        escaped(a + seq![c] + b) == escaped(a) + escaped(seq![c]) + escaped(b),
        escaped(seq!['&']) == "&amp;"@,
        escaped(seq!['<']) == "&lt;"@,
        escaped(seq!['>']) == "&gt;"@,
        escaped(seq!['"']) == "&quot;"@,
        c != '&' && c != '<' && c != '>' && c != '"' ==> escaped(seq![c]) == seq![c],
{
    escaped_adds(a, seq![c], 0);
    escaped_adds(a + seq![c], b, 0);
    escaped_one('&');
    escaped_one('<');
    escaped_one('>');
    escaped_one('"');
    escaped_one(c);
}

proof fn escaped_one(c: char)
    ensures
        escaped(seq![c]) == escape_char(c),
{
    let one = seq![c];
    assert(escaped_from(one, 1) =~= Seq::empty());
    assert(escaped(one) =~= escape_char(c));
}

proof fn escaped_adds(a: Seq<char>, b: Seq<char>, i: int)
    requires
        0 <= i <= a.len(),
    ensures
        escaped_from(a + b, i) == escaped_from(a, i) + escaped_from(b, 0),
    decreases a.len() - i,
{
    if i < a.len() {
        assert((a + b)[i] == a[i]);
        escaped_adds(a, b, i + 1);
        assert(escaped_from(a + b, i) =~= escaped_from(a, i) + escaped_from(b, 0));
    } else {
        escaped_shifts(a, b, 0);
        assert(escaped_from(a + b, i) =~= escaped_from(a, i) + escaped_from(b, 0));
    }
}

proof fn escaped_shifts(p: Seq<char>, s: Seq<char>, i: int)
    requires
        0 <= i <= s.len(),
    ensures
        escaped_from(p + s, p.len() + i) == escaped_from(s, i),
    decreases s.len() - i,
{
    if i < s.len() {
        assert((p + s)[p.len() + i] == s[i]);
        escaped_shifts(p, s, i + 1);
        assert(p.len() + (i + 1) == p.len() + i + 1);
    }
}

/// Paragraphs stay apart: however many blank lines stand between two lines that say something, one is
/// left.
pub proof fn paragraphs_stay_apart(all: Seq<Seq<char>>, blank: Seq<Seq<char>>, line: Seq<char>)
    requires
        kept_lines(all).len() > 0,
        kept_lines(all).last().len() > 0,
        blank.len() > 0,
        forall|i: int| 0 <= i < blank.len() ==> text::trim(#[trigger] blank[i]).len() == 0,
        text::trim(line).len() > 0,
    ensures
        kept_lines((all + blank).push(line)) == kept_lines(all).push(Seq::empty()).push(
            text::trim(line),
        ),
{
    blank_lines_fold(all, blank);
    assert((all + blank).push(line).drop_last() =~= all + blank);
}

proof fn blank_lines_fold(all: Seq<Seq<char>>, blank: Seq<Seq<char>>)
    requires
        kept_lines(all).len() > 0,
        kept_lines(all).last().len() > 0,
        blank.len() > 0,
        forall|i: int| 0 <= i < blank.len() ==> text::trim(#[trigger] blank[i]).len() == 0,
    ensures
        kept_lines(all + blank) == kept_lines(all).push(Seq::empty()),
    decreases blank.len(),
{
    let front = blank.drop_last();
    let last = blank[blank.len() - 1];
    assert((all + blank).drop_last() =~= all + front);
    assert((all + blank).last() == last);
    assert(text::trim(last) =~= Seq::<char>::empty());
    if front.len() == 0 {
        assert(all + front =~= all);
    } else {
        assert forall|i: int| 0 <= i < front.len() implies text::trim(#[trigger] front[i]).len()
            == 0 by {
            assert(front[i] == blank[i]);
        }
        blank_lines_fold(all, front);
    }
}

} // verus!
