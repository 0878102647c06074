//! Texts as sequences of characters: the vocabulary the contracts of this
//! crate speak in, and the executable searches, splits and joins behind it.

use vstd::prelude::*;
use vstd::string::*;
use vstd::utf8::is_ascii_chars;

verus! {

broadcast use vstd::string::group_string_axioms;

// --- trusted: std's String ------------------------------------------------

/// `String::push` appends one character to the end of the string.
pub assume_specification[ String::push ](s: &mut String, c: char)
    ensures
        final(s)@ == old(s)@.push(c),
;

// --- conversions ----------------------------------------------------------

/// The characters of each string of a list.
pub open spec fn texts(list: Seq<String>) -> Seq<Seq<char>> {
    Seq::new(list.len(), |i: int| list[i]@)
}

/// The characters of each character vector of a list.
pub open spec fn char_texts(list: Seq<Vec<char>>) -> Seq<Seq<char>> {
    Seq::new(list.len(), |i: int| list[i]@)
}

/// The characters of a string, in order.
pub fn chars_of(s: &str) -> (out: Vec<char>)
    ensures
        out@ == s@,
{
    let mut out: Vec<char> = Vec::new();
    for c in it: s.chars()
        invariant
            out@ == it.seq().take(it.index() as int),
            it.seq() == s@,
    {
        out.push(c);
    }
    out
}

/// The string made of these characters.
pub fn text_of(chars: &[char]) -> (out: String)
    ensures
        out@ == chars@,
{
    let mut out: String = String::new();
    let mut i: usize = 0;
    while i < chars.len()
        invariant
            i <= chars.len(),
            out@ == chars@.take(i as int),
        decreases chars.len() - i,
    {
        out.push(chars[i]);
        i = i + 1;
        assert(chars@.take(i as int) =~= chars@.take(i - 1).push(chars@[i - 1]));
    }
    assert(chars@.take(i as int) =~= chars@);
    out
}

/// The characters from `start` up to `end`.
pub fn slice_of(chars: &[char], start: usize, end: usize) -> (out: Vec<char>)
    requires
        start <= end <= chars.len(),
    ensures
        out@ == chars@.subrange(start as int, end as int),
{
    let mut out: Vec<char> = Vec::new();
    let mut i: usize = start;
    while i < end
        invariant
            start <= i <= end <= chars.len(),
            out@ == chars@.subrange(start as int, i as int),
        decreases end - i,
    {
        out.push(chars[i]);
        i = i + 1;
        assert(chars@.subrange(start as int, i as int) =~= chars@.subrange(
            start as int,
            i - 1,
        ).push(chars@[i - 1]));
    }
    out
}

/// Appends the characters of `tail` to `out`.
pub fn extend(out: &mut Vec<char>, tail: &[char])
    ensures
        final(out)@ == old(out)@ + tail@,
{
    let mut i: usize = 0;
    while i < tail.len()
        invariant
            i <= tail.len(),
            out@ == old(out)@ + tail@.take(i as int),
        decreases tail.len() - i,
    {
        out.push(tail[i]);
        i = i + 1;
        assert(tail@.take(i as int) =~= tail@.take(i - 1).push(tail@[i - 1]));
    }
    assert(tail@.take(i as int) =~= tail@);
}

/// Appends the characters of `tail` to `out`.
pub fn extend_str(out: &mut Vec<char>, tail: &str)
    ensures
        final(out)@ == old(out)@ + tail@,
{
    let chars = chars_of(tail);
    extend(out, &chars);
}

/// Whether two texts hold the same characters.
pub fn same(left: &[char], right: &[char]) -> (r: bool)
    ensures
        r == (left@ == right@),
{
    if left.len() != right.len() {
        return false;
    }
    let mut i: usize = 0;
    while i < left.len()
        invariant
            i <= left.len(),
            left.len() == right.len(),
            forall|k: int| 0 <= k < i ==> left@[k] == right@[k],
        decreases left.len() - i,
    {
        if left[i] != right[i] {
            return false;
        }
        i = i + 1;
    }
    assert(left@ =~= right@);
    true
}

/// Whether two strings hold the same characters.
pub fn same_str(left: &str, right: &str) -> (r: bool)
    ensures
        r == (left@ == right@),
{
    left.to_owned() == right.to_owned()
}

/// Whether `list` holds `wanted`.
pub fn list_contains(list: &[String], wanted: &str) -> (r: bool)
    ensures
        r == texts(list@).contains(wanted@),
{
    let mut i: usize = 0;
    while i < list.len()
        invariant
            i <= list.len(),
            forall|k: int| 0 <= k < i ==> texts(list@)[k] != wanted@,
        decreases list.len() - i,
    {
        if same_str(list[i].as_str(), wanted) {
            assert(texts(list@)[i as int] == wanted@);
            return true;
        }
        i = i + 1;
    }
    false
}

// --- whitespace -----------------------------------------------------------

/// The characters with Unicode's White_Space property.
pub open spec fn is_white(c: char) -> bool {
    let u = c as u32;
    ||| 0x09 <= u <= 0x0d
    ||| u == 0x20
    ||| u == 0x85
    ||| u == 0xa0
    ||| u == 0x1680
    ||| 0x2000 <= u <= 0x200a
    ||| u == 0x2028
    ||| u == 0x2029
    ||| u == 0x202f
    ||| u == 0x205f
    ||| u == 0x3000
}

/// Whether a character is white space.
pub fn white(c: char) -> (r: bool)
    ensures
        r == is_white(c),
{
    let u: u32 = c as u32;
    (0x09 <= u && u <= 0x0d) || u == 0x20 || u == 0x85 || u == 0xa0 || u == 0x1680 || (0x2000 <= u
        && u <= 0x200a) || u == 0x2028 || u == 0x2029 || u == 0x202f || u == 0x205f || u == 0x3000
}

/// Where the white space that starts at `i` ends.
pub open spec fn lead_end(s: Seq<char>, i: int) -> int
    decreases s.len() - i,
{
    if 0 <= i < s.len() && is_white(s[i]) {
        lead_end(s, i + 1)
    } else {
        i
    }
}

/// Where the white space that ends at `j`, and does not reach below `low`, starts.
pub open spec fn tail_start(s: Seq<char>, low: int, j: int) -> int
    decreases j - low,
{
    if low < j <= s.len() && is_white(s[j - 1]) {
        tail_start(s, low, j - 1)
    } else {
        j
    }
}

/// A text without the white space at its two ends.
pub open spec fn trim(s: Seq<char>) -> Seq<char> {
    s.subrange(lead_end(s, 0), tail_start(s, lead_end(s, 0), s.len() as int))
}

/// A text without the white space at its start.
pub open spec fn trim_start(s: Seq<char>) -> Seq<char> {
    s.skip(lead_end(s, 0))
}

/// `lead_end` stays inside the text and stops at the first character that is not white space.
pub proof fn lead_end_bounds(s: Seq<char>, i: int)
    requires
        0 <= i <= s.len(),
    ensures
        i <= lead_end(s, i) <= s.len(),
        forall|k: int| i <= k < lead_end(s, i) ==> is_white(s[k]),
        lead_end(s, i) < s.len() ==> !is_white(s[lead_end(s, i)]),
    decreases s.len() - i,
{
    if i < s.len() && is_white(s[i]) {
        lead_end_bounds(s, i + 1);
    }
}

/// `tail_start` stays inside its range and stops after the last character that is not white space.
pub proof fn tail_start_bounds(s: Seq<char>, low: int, j: int)
    requires
        0 <= low <= j <= s.len(),
    ensures
        low <= tail_start(s, low, j) <= j,
        forall|k: int| tail_start(s, low, j) <= k < j ==> is_white(s[k]),
        tail_start(s, low, j) > low ==> !is_white(s[tail_start(s, low, j) - 1]),
    decreases j - low,
{
    if low < j && is_white(s[j - 1]) {
        tail_start_bounds(s, low, j - 1);
    }
}

/// Trimming keeps nothing white at either end, and trimming again changes nothing.
pub proof fn trim_is_stable(s: Seq<char>)
    ensures
        trim(trim(s)) == trim(s),
        trim(s).len() > 0 ==> !is_white(trim(s)[0]) && !is_white(trim(s).last()),
        trim(s).len() <= s.len(),
{
    lead_end_bounds(s, 0);
    let a = lead_end(s, 0);
    tail_start_bounds(s, a, s.len() as int);
    let t = trim(s);
    assert(lead_end(t, 0) == 0);
    assert(tail_start(t, 0, t.len() as int) == t.len());
    assert(t.subrange(0, t.len() as int) =~= t);
}

/// Where the white space at the start of a text ends.
pub fn skip_white(s: &[char], from: usize) -> (r: usize)
    requires
        from <= s.len(),
    ensures
        r == lead_end(s@, from as int),
        from <= r <= s.len(),
{
    let mut i: usize = from;
    while i < s.len() && white(s[i])
        invariant
            from <= i <= s.len(),
            lead_end(s@, from as int) == lead_end(s@, i as int),
        decreases s.len() - i,
    {
        i = i + 1;
    }
    i
}

/// A text without the white space at its two ends.
pub fn trimmed(s: &[char]) -> (out: Vec<char>)
    ensures
        out@ == trim(s@),
{
    let a: usize = skip_white(s, 0);
    let mut j: usize = s.len();
    while a < j && white(s[j - 1])
        invariant
            a <= j <= s.len(),
            tail_start(s@, a as int, s@.len() as int) == tail_start(s@, a as int, j as int),
        decreases j,
    {
        j = j - 1;
    }
    slice_of(s, a, j)
}

/// White space around a text is all that trimming takes away.
pub proof fn white_around_is_trimmed(before: Seq<char>, s: Seq<char>, after: Seq<char>)
    requires
        forall|i: int| 0 <= i < before.len() ==> is_white(#[trigger] before[i]),
        forall|i: int| 0 <= i < after.len() ==> is_white(#[trigger] after[i]),
    ensures
        trim(before + s + after) == trim(s),
{
    let w = before + s + after;
    let n = before.len() as int;
    lead_end_bounds(s, 0);
    let a = lead_end(s, 0);
    tail_start_bounds(s, a, s.len() as int);
    let e = tail_start(s, a, s.len() as int);
    lead_end_bounds(w, 0);
    let x = lead_end(w, 0);
    tail_start_bounds(w, x, w.len() as int);
    let y = tail_start(w, x, w.len() as int);
    if a < s.len() {
        assert(w[n + a] == s[a]);
        assert forall|j: int| 0 <= j < n + a implies is_white(#[trigger] w[j]) by {
            if j < n {
                assert(w[j] == before[j]);
            } else {
                assert(w[j] == s[j - n]);
            }
        }
        assert(x == n + a);
        assert(a < e) by {
            if a >= e {
                assert(is_white(s[a]));
            }
        }
        assert(w[n + e - 1] == s[e - 1]);
        assert forall|j: int| n + e <= j < w.len() implies is_white(#[trigger] w[j]) by {
            if j < n + s.len() {
                assert(w[j] == s[j - n]);
            } else {
                assert(w[j] == after[j - n - s.len()]);
            }
        }
        assert(y == n + e);
        assert(trim(w) =~= trim(s));
    } else {
        assert forall|j: int| 0 <= j < w.len() implies is_white(#[trigger] w[j]) by {
            if j < n {
                assert(w[j] == before[j]);
            } else if j < n + s.len() {
                assert(w[j] == s[j - n]);
            } else {
                assert(w[j] == after[j - n - s.len()]);
            }
        }
        assert(x == w.len());
        assert(trim(w) =~= trim(s));
    }
}

/// A string without the white space at its two ends.
pub fn trim_str(s: &str) -> (out: String)
    ensures
        out@ == trim(s@),
{
    text_of(&trimmed(&chars_of(s)))
}

/// The words of `s` from `i` on, where the word being read started at `start`.
pub open spec fn words_from(s: Seq<char>, start: int, i: int) -> Seq<Seq<char>>
    decreases s.len() - i,
{
    if i < 0 || i >= s.len() {
        if start < s.len() {
            seq![s.subrange(start, s.len() as int)]
        } else {
            Seq::empty()
        }
    } else if is_white(s[i]) {
        if start < i {
            seq![s.subrange(start, i)] + words_from(s, i + 1, i + 1)
        } else {
            words_from(s, i + 1, i + 1)
        }
    } else {
        words_from(s, start, i + 1)
    }
}

/// The runs of characters between white space.
pub open spec fn words(s: Seq<char>) -> Seq<Seq<char>> {
    words_from(s, 0, 0)
}

/// The runs of characters between white space.
pub fn split_words(s: &[char]) -> (out: Vec<Vec<char>>)
    ensures
        char_texts(out@) == words(s@),
{
    let mut out: Vec<Vec<char>> = Vec::new();
    let mut start: usize = 0;
    let mut i: usize = 0;
    while i < s.len()
        invariant
            start <= i <= s.len(),
            char_texts(out@) + words_from(s@, start as int, i as int) =~= words(s@),
        decreases s.len() - i,
    {
        if white(s[i]) {
            if start < i {
                let ghost before = out@;
                out.push(slice_of(s, start, i));
                assert(char_texts(out@) =~= char_texts(before).push(
                    s@.subrange(start as int, i as int),
                ));
            }
            start = i + 1;
        }
        i = i + 1;
    }
    if start < s.len() {
        let ghost before = out@;
        out.push(slice_of(s, start, s.len()));
        assert(char_texts(out@) =~= char_texts(before).push(
            s@.subrange(start as int, s@.len() as int),
        ));
    }
    out
}

proof fn words_shift(p: Seq<char>, s: Seq<char>, start: int, i: int)
    requires
        0 <= start <= i <= s.len(),
    ensures
        words_from(p + s, p.len() + start, p.len() + i) == words_from(s, start, i),
    decreases s.len() - i,
{
    let w = p + s;
    let n = p.len() as int;
    if i < s.len() {
        assert(w[n + i] == s[i]);
        assert(n + (i + 1) == n + i + 1);
        if is_white(s[i]) {
            assert(w.subrange(n + start, n + i) =~= s.subrange(start, i));
            words_shift(p, s, i + 1, i + 1);
        } else {
            words_shift(p, s, start, i + 1);
        }
    } else {
        assert(w.subrange(n + start, w.len() as int) =~= s.subrange(start, s.len() as int));
    }
}

proof fn words_add_from(a: Seq<char>, c: char, b: Seq<char>, start: int, i: int)
    requires
        is_white(c),
        0 <= start <= i <= a.len(),
    ensures
        words_from(a + seq![c] + b, start, i) == words_from(a, start, i) + words(b),
    decreases a.len() - i,
{
    let w = a + seq![c] + b;
    if i < a.len() {
        assert(w[i] == a[i]);
        if is_white(a[i]) {
            words_add_from(a, c, b, i + 1, i + 1);
            let rest = words_from(a, i + 1, i + 1);
            if start < i {
                assert(w.subrange(start, i) =~= a.subrange(start, i));
                assert(seq![a.subrange(start, i)] + (rest + words(b)) =~= seq![a.subrange(start, i)]
                    + rest + words(b));
            }
        } else {
            words_add_from(a, c, b, start, i + 1);
        }
    } else {
        let front = a + seq![c];
        assert(w[i] == c);
        assert(front.len() == i + 1);
        words_shift(front, b, 0, 0);
        assert(w.subrange(start, i) =~= a.subrange(start, a.len() as int));
        assert(Seq::<Seq<char>>::empty() + words(b) =~= words(b));
    }
}

/// The words of two texts with white space between them are those of the one and of the other.
pub proof fn words_add_up(a: Seq<char>, c: char, b: Seq<char>)
    requires
        is_white(c),
    ensures
        words(a + seq![c] + b) == words(a) + words(b),
{
    words_add_from(a, c, b, 0, 0);
}

proof fn word_goes_on(w: Seq<char>, i: int)
    requires
        0 <= i <= w.len(),
        w.len() > 0,
        forall|k: int| 0 <= k < w.len() ==> !is_white(#[trigger] w[k]),
    ensures
        words_from(w, 0, i) == seq![w],
    decreases w.len() - i,
{
    if i < w.len() {
        word_goes_on(w, i + 1);
    } else {
        assert(w.subrange(0, w.len() as int) =~= w);
    }
}

/// A text without white space is one word, and no text has no words.
pub proof fn a_word_is_one(w: Seq<char>)
    requires
        forall|k: int| 0 <= k < w.len() ==> !is_white(#[trigger] w[k]),
    ensures
        words(w) == (if w.len() > 0 {
            seq![w]
        } else {
            Seq::empty()
        }),
{
    if w.len() > 0 {
        word_goes_on(w, 0);
    }
}

/// Words with one blank between each two are read back.
pub proof fn joined_words_read_back(parts: Seq<Seq<char>>)
    requires
        forall|i: int, k: int|
            0 <= i < parts.len() && 0 <= k < parts[i].len() ==> !is_white(#[trigger] parts[i][k]),
        forall|i: int| 0 <= i < parts.len() ==> (#[trigger] parts[i]).len() > 0,
    ensures
        words(join(parts, " "@)) == parts,
    decreases parts.len(),
{
    reveal_strlit(" ");
    if parts.len() == 0 {
        a_word_is_one(Seq::empty());
        assert(words(join(parts, " "@)) =~= parts);
    } else {
        let last = parts.last();
        assert(last == parts[parts.len() - 1]);
        a_word_is_one(last);
        if parts.len() == 1 {
            assert(parts =~= seq![last]);
        } else {
            let short = parts.drop_last();
            assert forall|i: int, k: int|
                0 <= i < short.len() && 0 <= k < short[i].len() implies !is_white(
                #[trigger] short[i][k],
            ) by {
                assert(short[i] == parts[i]);
                assert(!is_white(parts[i][k]));
            }
            assert forall|i: int| 0 <= i < short.len() implies (#[trigger] short[i]).len() > 0 by {
                assert(short[i] == parts[i]);
            }
            joined_words_read_back(short);
            words_add_up(join(short, " "@), ' ', last);
            assert(" "@ =~= seq![' ']);
            assert(short + seq![last] =~= parts);
        }
    }
}

// --- searching ------------------------------------------------------------

/// The first place at or after `i` that holds `c`, or the length of `s`.
pub open spec fn find_at(s: Seq<char>, c: char, i: int) -> int
    decreases s.len() - i,
{
    if i < 0 || i >= s.len() {
        s.len() as int
    } else if s[i] == c {
        i
    } else {
        find_at(s, c, i + 1)
    }
}

/// The first place that holds `c`, or the length of `s`.
pub open spec fn find(s: Seq<char>, c: char) -> int {
    find_at(s, c, 0)
}

/// The last place before `j` that holds `c`, or -1.
pub open spec fn rfind_at(s: Seq<char>, c: char, j: int) -> int
    decreases j,
{
    if j <= 0 || j > s.len() {
        -1
    } else if s[j - 1] == c {
        j - 1
    } else {
        rfind_at(s, c, j - 1)
    }
}

/// The last place that holds `c`, or -1.
pub open spec fn rfind(s: Seq<char>, c: char) -> int {
    rfind_at(s, c, s.len() as int)
}

/// `find_at` is the first occurrence.
pub proof fn find_at_is_first(s: Seq<char>, c: char, i: int)
    requires
        0 <= i <= s.len(),
    ensures
        i <= find_at(s, c, i) <= s.len(),
        find_at(s, c, i) < s.len() ==> s[find_at(s, c, i)] == c,
        forall|k: int| i <= k < find_at(s, c, i) ==> s[k] != c,
    decreases s.len() - i,
{
    if i < s.len() && s[i] != c {
        find_at_is_first(s, c, i + 1);
    }
}

/// `rfind_at` is the last occurrence.
pub proof fn rfind_at_is_last(s: Seq<char>, c: char, j: int)
    requires
        0 <= j <= s.len(),
    ensures
        -1 <= rfind_at(s, c, j) < j || j == 0 && rfind_at(s, c, j) == -1,
        rfind_at(s, c, j) >= 0 ==> s[rfind_at(s, c, j)] == c,
        forall|k: int| rfind_at(s, c, j) < k < j ==> s[k] != c,
    decreases j,
{
    if j > 0 && s[j - 1] != c {
        rfind_at_is_last(s, c, j - 1);
    }
}

/// A search does not depend on what precedes the place it starts at.
pub proof fn find_at_shifts(p: Seq<char>, s: Seq<char>, c: char, i: int)
    requires
        0 <= i <= s.len(),
    ensures
        find_at(p + s, c, p.len() + i) == p.len() + find_at(s, c, i),
    decreases s.len() - i,
{
    if i < s.len() {
        assert((p + s)[p.len() + i] == s[i]);
        if s[i] != c {
            find_at_shifts(p, s, c, i + 1);
            assert(p.len() + (i + 1) == p.len() + i + 1);
        }
    }
}

/// The first place at or after `from` that holds `c`, or the length of `s`.
pub fn find_char(s: &[char], c: char, from: usize) -> (r: usize)
    requires
        from <= s.len(),
    ensures
        r == find_at(s@, c, from as int),
        from <= r <= s.len(),
        r < s.len() ==> s@[r as int] == c,
{
    let mut i: usize = from;
    while i < s.len()
        invariant
            from <= i <= s.len(),
            find_at(s@, c, from as int) == find_at(s@, c, i as int),
        decreases s.len() - i,
    {
        if s[i] == c {
            return i;
        }
        i = i + 1;
    }
    i
}

/// The last place that holds `c`.
pub fn rfind_char(s: &[char], c: char) -> (r: Option<usize>)
    ensures
        match r {
            Some(i) => i < s.len() && rfind(s@, c) == i,
            None => rfind(s@, c) == -1,
        },
{
    let mut j: usize = s.len();
    while j > 0
        invariant
            j <= s.len(),
            rfind(s@, c) == rfind_at(s@, c, j as int),
        decreases j,
    {
        if s[j - 1] == c {
            return Some(j - 1);
        }
        j = j - 1;
    }
    None
}

/// Whether `c` occurs in `s`.
pub fn has_char(s: &[char], c: char) -> (r: bool)
    ensures
        r == s@.contains(c),
{
    let i: usize = find_char(s, c, 0);
    proof {
        find_at_is_first(s@, c, 0);
    }
    if i < s.len() {
        assert(s@.contains(c));
        true
    } else {
        assert forall|k: int| 0 <= k < s@.len() implies s@[k] != c by {}
        false
    }
}

/// Whether `p` stands in `s` at `i`.
pub open spec fn matches_at(s: Seq<char>, p: Seq<char>, i: int) -> bool {
    0 <= i && i + p.len() <= s.len() && s.subrange(i, i + p.len()) == p
}

/// Whether `s` starts with `p`.
pub open spec fn starts_with(s: Seq<char>, p: Seq<char>) -> bool {
    matches_at(s, p, 0)
}

/// The first place at or after `i` where `p` stands in `s`.
pub open spec fn find_text_at(s: Seq<char>, p: Seq<char>, i: int) -> Option<int>
    decreases s.len() + 1 - i,
{
    if i < 0 || i > s.len() {
        None
    } else if matches_at(s, p, i) {
        Some(i)
    } else {
        find_text_at(s, p, i + 1)
    }
}

/// The last place at or before `i` where `p` stands in `s`.
pub open spec fn rfind_text_at(s: Seq<char>, p: Seq<char>, i: int) -> Option<int>
    decreases i + 1,
{
    if i < 0 {
        None
    } else if matches_at(s, p, i) {
        Some(i)
    } else {
        rfind_text_at(s, p, i - 1)
    }
}

/// Whether `p` stands anywhere in `s`.
pub open spec fn contains_text(s: Seq<char>, p: Seq<char>) -> bool {
    exists|i: int| matches_at(s, p, i)
}

/// `find_text_at` finds the first place, and a place whenever there is one.
pub proof fn find_text_at_is_first(s: Seq<char>, p: Seq<char>, i: int)
    requires
        0 <= i,
    ensures
        match find_text_at(s, p, i) {
            Some(k) => i <= k && matches_at(s, p, k) && forall|j: int|
                i <= j < k ==> !matches_at(s, p, j),
            None => forall|j: int| i <= j ==> !matches_at(s, p, j),
        },
    decreases s.len() + 1 - i,
{
    if i <= s.len() && !matches_at(s, p, i) {
        find_text_at_is_first(s, p, i + 1);
    }
}

/// A search does not depend on what precedes the place it starts at.
pub proof fn find_text_at_shifts(p: Seq<char>, s: Seq<char>, t: Seq<char>, i: int)
    requires
        0 <= i,
    ensures
        find_text_at(p + s, t, p.len() + i) == match find_text_at(s, t, i) {
            Some(k) => Some(p.len() + k),
            None => None,
        },
    decreases s.len() + 1 - i,
{
    if i <= s.len() {
        assert(matches_at(p + s, t, p.len() + i) == matches_at(s, t, i)) by {
            if i + t.len() <= s.len() {
                assert((p + s).subrange(p.len() + i, p.len() + i + t.len()) =~= s.subrange(
                    i,
                    i + t.len(),
                ));
            }
        }
        if !matches_at(s, t, i) {
            find_text_at_shifts(p, s, t, i + 1);
            assert(p.len() + (i + 1) == p.len() + i + 1);
        }
    }
}

/// `rfind_text_at` finds the last place, and a place whenever there is one.
pub proof fn rfind_text_at_is_last(s: Seq<char>, p: Seq<char>, i: int)
    ensures
        match rfind_text_at(s, p, i) {
            Some(k) => k <= i && matches_at(s, p, k) && forall|j: int|
                k < j <= i ==> !matches_at(s, p, j),
            None => forall|j: int| j <= i ==> !matches_at(s, p, j),
        },
    decreases i + 1,
{
    if i >= 0 && !matches_at(s, p, i) {
        rfind_text_at_is_last(s, p, i - 1);
    }
}

/// Whether `p` stands in `s` at `i`.
pub fn stands_at(s: &[char], p: &[char], i: usize) -> (r: bool)
    ensures
        r == matches_at(s@, p@, i as int),
{
    if i > s.len() || p.len() > s.len() - i {
        return false;
    }
    let mut k: usize = 0;
    while k < p.len()
        invariant
            i + p.len() <= s.len(),
            k <= p.len(),
            forall|j: int| 0 <= j < k ==> s@[i + j] == p@[j],
        decreases p.len() - k,
    {
        if s[i + k] != p[k] {
            assert(s@.subrange(i as int, i + p@.len())[k as int] != p@[k as int]);
            return false;
        }
        k = k + 1;
    }
    assert(s@.subrange(i as int, i + p@.len()) =~= p@);
    true
}

/// The first place at or after `from` where `p` stands in `s`.
pub fn find_text(s: &[char], p: &[char], from: usize) -> (r: Option<usize>)
    requires
        from <= s.len(),
    ensures
        match r {
            Some(i) => find_text_at(s@, p@, from as int) == Some(i as int) && from <= i && i
                + p.len() <= s.len(),
            None => find_text_at(s@, p@, from as int) is None,
        },
{
    let mut i: usize = from;
    while i < s.len()
        invariant
            from <= i <= s.len(),
            find_text_at(s@, p@, from as int) == find_text_at(s@, p@, i as int),
        decreases s.len() - i,
    {
        if stands_at(s, p, i) {
            return Some(i);
        }
        i = i + 1;
    }
    if stands_at(s, p, i) {
        Some(i)
    } else {
        assert(find_text_at(s@, p@, i + 1) is None);
        None
    }
}

/// Whether `p` stands anywhere in `s`.
pub fn has_text(s: &[char], p: &[char]) -> (r: bool)
    ensures
        r == contains_text(s@, p@),
{
    proof {
        find_text_at_is_first(s@, p@, 0);
    }
    match find_text(s, p, 0) {
        Some(i) => {
            assert(matches_at(s@, p@, i as int));
            true
        },
        None => {
            assert forall|j: int| !matches_at(s@, p@, j) by {}
            false
        },
    }
}

/// Whether `p` stands anywhere in `s`.
pub fn str_has(s: &str, p: &str) -> (r: bool)
    ensures
        r == contains_text(s@, p@),
{
    has_text(&chars_of(s), &chars_of(p))
}

/// Whether `s` starts with `p`.
pub fn str_starts(s: &str, p: &str) -> (r: bool)
    ensures
        r == starts_with(s@, p@),
{
    stands_at(&chars_of(s), &chars_of(p), 0)
}

/// The last place where `p` stands in `s`.
pub fn rfind_text(s: &[char], p: &[char]) -> (r: Option<usize>)
    ensures
        match r {
            Some(i) => rfind_text_at(s@, p@, s@.len() as int) == Some(i as int) && i + p.len()
                <= s.len(),
            None => rfind_text_at(s@, p@, s@.len() as int) is None,
        },
{
    let mut i: usize = s.len();
    loop
        invariant
            i <= s.len(),
            rfind_text_at(s@, p@, s@.len() as int) == rfind_text_at(s@, p@, i as int),
        decreases i,
    {
        if stands_at(s, p, i) {
            return Some(i);
        }
        if i == 0 {
            assert(rfind_text_at(s@, p@, -1) is None);
            return None;
        }
        i = i - 1;
    }
}

// --- splitting and joining ------------------------------------------------

/// The pieces of `s` from `start` on, cut at each `c`.
pub open spec fn split_from(s: Seq<char>, c: char, start: int) -> Seq<Seq<char>>
    decreases s.len() + 1 - start,
{
    let end = find_at(s, c, start);
    if start < 0 || end >= s.len() || end < start {
        seq![s.skip(start)]
    } else {
        seq![s.subrange(start, end)] + split_from(s, c, end + 1)
    }
}

/// The pieces of `s`, cut at each `c`: one more than there are cuts.
pub open spec fn split(s: Seq<char>, c: char) -> Seq<Seq<char>> {
    split_from(s, c, 0)
}

/// The pieces of `s`, cut at each `c`.
pub fn split_at_char(s: &[char], c: char) -> (out: Vec<Vec<char>>)
    ensures
        char_texts(out@) == split(s@, c),
        out.len() >= 1,
{
    let mut out: Vec<Vec<char>> = Vec::new();
    let mut start: usize = 0;
    loop
        invariant
            start <= s.len(),
            char_texts(out@) + split_from(s@, c, start as int) =~= split(s@, c),
        decreases s.len() + 1 - start,
    {
        let end: usize = find_char(s, c, start);
        let ghost before = out@;
        out.push(slice_of(s, start, end));
        assert(char_texts(out@) =~= char_texts(before).push(
            s@.subrange(start as int, end as int),
        ));
        if end == s.len() {
            assert(s@.skip(start as int) =~= s@.subrange(start as int, end as int));
            return out;
        }
        start = end + 1;
    }
}

/// The texts of `parts`, with `sep` between each two.
pub open spec fn join(parts: Seq<Seq<char>>, sep: Seq<char>) -> Seq<char>
    decreases parts.len(),
{
    if parts.len() == 0 {
        Seq::empty()
    } else if parts.len() == 1 {
        parts[0]
    } else {
        join(parts.drop_last(), sep) + sep + parts.last()
    }
}

/// A text stands wherever it was put between others.
pub proof fn holds_what_it_is_made_of(before: Seq<char>, p: Seq<char>, after: Seq<char>)
    ensures
        matches_at(before + p + after, p, before.len() as int),
        contains_text(before + p + after, p),
{
    let s = before + p + after;
    let n = before.len() as int;
    assert(s.subrange(n, n + p.len()) =~= p);
    assert(matches_at(s, p, n));
}

/// Each of the texts that are joined stands in what they are joined to, and nothing but they and
/// what goes between them does.
pub proof fn joining_keeps_each(parts: Seq<Seq<char>>, sep: Seq<char>, i: int)
    requires
        0 <= i < parts.len(),
    ensures
        join(parts, sep) == (if i > 0 {
            join(parts.take(i), sep) + sep
        } else {
            Seq::empty()
        }) + parts[i] + (if i + 1 < parts.len() {
            sep + join(parts.skip(i + 1), sep)
        } else {
            Seq::empty()
        }),
        contains_text(join(parts, sep), parts[i]),
    decreases parts.len(),
{
    let last = parts.len() - 1;
    let none = Seq::<char>::empty();
    let front = if i > 0 {
        join(parts.take(i), sep) + sep
    } else {
        none
    };
    if i == last {
        assert(parts.take(i) =~= parts.drop_last());
        assert(join(parts, sep) =~= front + parts[i] + none);
        holds_what_it_is_made_of(front, parts[i], none);
    } else {
        let short = parts.drop_last();
        joining_keeps_each(short, sep, i);
        assert(short.take(i) =~= parts.take(i));
        let tail = parts.skip(i + 1);
        let short_tail = short.skip(i + 1);
        assert(tail.drop_last() =~= short_tail);
        assert(tail.last() == parts.last());
        let back = if i + 1 < short.len() {
            sep + join(short_tail, sep)
        } else {
            none
        };
        assert(join(parts, sep) == front + parts[i] + back + sep + parts.last());
        if i + 1 < short.len() {
            assert(sep + join(tail, sep) =~= back + sep + parts.last());
        } else {
            assert(tail =~= seq![parts.last()]);
            assert(sep + join(tail, sep) =~= back + sep + parts.last());
        }
        assert(join(parts, sep) =~= front + parts[i] + (sep + join(tail, sep)));
        holds_what_it_is_made_of(front, parts[i], sep + join(tail, sep));
    }
}

/// Two lists in a row are joined to what each of them is joined to, with the separator between.
pub proof fn joins_add_up(x: Seq<Seq<char>>, y: Seq<Seq<char>>, sep: Seq<char>)
    requires
        x.len() > 0,
        y.len() > 0,
    ensures
        join(x + y, sep) == join(x, sep) + sep + join(y, sep),
    decreases y.len(),
{
    let all = x + y;
    assert(all.last() == y.last());
    if y.len() == 1 {
        assert(all.drop_last() =~= x);
    } else {
        let short = y.drop_last();
        assert(all.drop_last() =~= x + short);
        joins_add_up(x, short, sep);
        assert(join(x, sep) + sep + join(short, sep) + sep + y.last() =~= join(x, sep) + sep + (join(
            short,
            sep,
        ) + sep + y.last()));
    }
}

/// The texts of `parts`, with `sep` between each two.
pub fn joined(parts: &[Vec<char>], sep: &[char]) -> (out: Vec<char>)
    ensures
        out@ == join(char_texts(parts@), sep@),
{
    let mut out: Vec<char> = Vec::new();
    let mut i: usize = 0;
    while i < parts.len()
        invariant
            i <= parts.len(),
            out@ == join(char_texts(parts@.take(i as int)), sep@),
        decreases parts.len() - i,
    {
        if i > 0 {
            extend(&mut out, sep);
        }
        extend(&mut out, &parts[i]);
        proof {
            let t = char_texts(parts@.take(i + 1));
            assert(t.drop_last() =~= char_texts(parts@.take(i as int)));
            assert(t.last() == parts@[i as int]@);
        }
        i = i + 1;
    }
    assert(parts@.take(parts@.len() as int) =~= parts@);
    out
}

/// The texts of `parts`, with `sep` between each two.
pub fn join_strings(parts: &[String], sep: &str) -> (out: String)
    ensures
        out@ == join(texts(parts@), sep@),
{
    let mut pieces: Vec<Vec<char>> = Vec::new();
    let mut i: usize = 0;
    while i < parts.len()
        invariant
            i <= parts.len(),
            pieces.len() == i,
            forall|k: int| 0 <= k < i ==> pieces@[k]@ == parts@[k]@,
        decreases parts.len() - i,
    {
        pieces.push(chars_of(&parts[i]));
        i = i + 1;
    }
    assert(char_texts(pieces@) =~= texts(parts@));
    text_of(&joined(&pieces, &chars_of(sep)))
}

/// The lines of `s` from `start` on: a line ends at a line feed, which a carriage return may
/// precede, and the end of the text closes a line only where something stands on it.
pub open spec fn lines_from(s: Seq<char>, start: int) -> Seq<Seq<char>>
    decreases s.len() + 1 - start,
{
    let end = find_at(s, '\n', start);
    if start < 0 || start >= s.len() || end < start {
        Seq::empty()
    } else if end >= s.len() {
        seq![s.skip(start)]
    } else if end > start && s[end - 1] == '\r' {
        seq![s.subrange(start, end - 1)] + lines_from(s, end + 1)
    } else {
        seq![s.subrange(start, end)] + lines_from(s, end + 1)
    }
}

/// The lines of `s`, without their ends.
pub open spec fn lines(s: Seq<char>) -> Seq<Seq<char>> {
    lines_from(s, 0)
}

/// The lines of `s`, without their ends.
pub fn split_lines(s: &[char]) -> (out: Vec<Vec<char>>)
    ensures
        char_texts(out@) == lines(s@),
{
    let mut out: Vec<Vec<char>> = Vec::new();
    let mut start: usize = 0;
    while start < s.len()
        invariant
            start <= s.len(),
            char_texts(out@) + lines_from(s@, start as int) =~= lines(s@),
        decreases s.len() - start,
    {
        let end: usize = find_char(s, '\n', start);
        let stop: usize = if end < s.len() && end > start && s[end - 1] == '\r' {
            end - 1
        } else {
            end
        };
        let ghost before = out@;
        out.push(slice_of(s, start, stop));
        assert(char_texts(out@) =~= char_texts(before).push(
            s@.subrange(start as int, stop as int),
        ));
        if end == s.len() {
            assert(s@.skip(start as int) =~= s@.subrange(start as int, end as int));
            return out;
        }
        start = end + 1;
    }
    out
}

// --- replacing ------------------------------------------------------------

/// The text of `s` from `i` on, with each `c` replaced by `with`.
pub open spec fn replace_char_from(s: Seq<char>, c: char, with: Seq<char>, i: int) -> Seq<char>
    decreases s.len() - i,
{
    if i < 0 || i >= s.len() {
        Seq::empty()
    } else if s[i] == c {
        with + replace_char_from(s, c, with, i + 1)
    } else {
        seq![s[i]] + replace_char_from(s, c, with, i + 1)
    }
}

/// `s` with each `c` replaced by `with`.
pub open spec fn replace_char(s: Seq<char>, c: char, with: Seq<char>) -> Seq<char> {
    replace_char_from(s, c, with, 0)
}

proof fn replace_char_shifts(p: Seq<char>, s: Seq<char>, c: char, with: Seq<char>, i: int)
    requires
        0 <= i <= s.len(),
    ensures
        replace_char_from(p + s, c, with, p.len() + i) == replace_char_from(s, c, with, i),
    decreases s.len() - i,
{
    if i < s.len() {
        assert((p + s)[p.len() + i] == s[i]);
        replace_char_shifts(p, s, c, with, i + 1);
    }
}

proof fn replace_char_adds_from(a: Seq<char>, b: Seq<char>, c: char, with: Seq<char>, i: int)
    requires
        0 <= i <= a.len(),
    ensures
        replace_char_from(a + b, c, with, i) == replace_char_from(a, c, with, i) + replace_char(
            b,
            c,
            with,
        ),
    decreases a.len() - i,
{
    if i < a.len() {
        assert((a + b)[i] == a[i]);
        replace_char_adds_from(a, b, c, with, i + 1);
        let rest = replace_char_from(a, c, with, i + 1);
        let tail = replace_char(b, c, with);
        if a[i] == c {
            assert(with + (rest + tail) =~= (with + rest) + tail);
        } else {
            assert(seq![a[i]] + (rest + tail) =~= (seq![a[i]] + rest) + tail);
        }
    } else {
        replace_char_shifts(a, b, c, with, 0);
        assert(replace_char_from(a, c, with, i) + replace_char(b, c, with) =~= replace_char(
            b,
            c,
            with,
        ));
    }
}

/// Replacing in two texts, one behind the other, is replacing in each.
pub proof fn replace_char_adds(a: Seq<char>, b: Seq<char>, c: char, with: Seq<char>)
    ensures
        replace_char(a + b, c, with) == replace_char(a, c, with) + replace_char(b, c, with),
{
    replace_char_adds_from(a, b, c, with, 0);
}

/// `s` with each `c` replaced by `with`.
pub fn replaced_char(s: &[char], c: char, with: &[char]) -> (out: Vec<char>)
    ensures
        out@ == replace_char(s@, c, with@),
{
    let mut out: Vec<char> = Vec::new();
    let mut i: usize = 0;
    while i < s.len()
        invariant
            i <= s.len(),
            out@ + replace_char_from(s@, c, with@, i as int) =~= replace_char(s@, c, with@),
        decreases s.len() - i,
    {
        if s[i] == c {
            extend(&mut out, with);
        } else {
            out.push(s[i]);
        }
        i = i + 1;
    }
    out
}

/// The text of `s` from `i` on, with each occurrence of `p`, taken from the left, replaced.
pub open spec fn replace_text_from(s: Seq<char>, p: Seq<char>, with: Seq<char>, i: int) -> Seq<char>
    decreases s.len() - i,
{
    if i < 0 || i >= s.len() {
        Seq::empty()
    } else if p.len() > 0 && matches_at(s, p, i) {
        with + replace_text_from(s, p, with, i + p.len())
    } else {
        seq![s[i]] + replace_text_from(s, p, with, i + 1)
    }
}

/// `s` with each occurrence of `p`, taken from the left, replaced by `with`.
pub open spec fn replace_text(s: Seq<char>, p: Seq<char>, with: Seq<char>) -> Seq<char> {
    replace_text_from(s, p, with, 0)
}

/// `s` with each occurrence of a pattern that is not empty, taken from the left, replaced.
pub fn replaced_text(s: &[char], p: &[char], with: &[char]) -> (out: Vec<char>)
    requires
        p.len() > 0,
    ensures
        out@ == replace_text(s@, p@, with@),
{
    let mut out: Vec<char> = Vec::new();
    let mut i: usize = 0;
    while i < s.len()
        invariant
            i <= s.len(),
            p.len() > 0,
            out@ + replace_text_from(s@, p@, with@, i as int) =~= replace_text(s@, p@, with@),
        decreases s.len() - i,
    {
        if stands_at(s, p, i) {
            extend(&mut out, with);
            i = i + p.len();
        } else {
            out.push(s[i]);
            i = i + 1;
        }
    }
    out
}

// --- letter case ----------------------------------------------------------

/// The lower case of an ASCII letter; any other character as it is.
pub open spec fn lower_char(c: char) -> char {
    if 'A' <= c <= 'Z' {
        ((c as u32 + 32) as u32) as char
    } else {
        c
    }
}

/// The upper case of an ASCII letter; any other character as it is.
pub open spec fn upper_char(c: char) -> char {
    if 'a' <= c <= 'z' {
        ((c as u32 - 32) as u32) as char
    } else {
        c
    }
}

/// A text with its ASCII letters in lower case.
pub open spec fn ascii_lower(s: Seq<char>) -> Seq<char> {
    Seq::new(s.len(), |i: int| lower_char(s[i]))
}

/// A text with its ASCII letters in upper case.
pub open spec fn ascii_upper(s: Seq<char>) -> Seq<char> {
    Seq::new(s.len(), |i: int| upper_char(s[i]))
}

/// The lower case of an ASCII letter; any other character as it is.
pub fn to_lower_char(c: char) -> (r: char)
    ensures
        r == lower_char(c),
{
    if 'A' <= c && c <= 'Z' {
        let u: u8 = c as u8;
        (u + 32) as char
    } else {
        c
    }
}

/// A text with its ASCII letters in lower case.
pub fn to_ascii_lower(s: &[char]) -> (out: Vec<char>)
    ensures
        out@ == ascii_lower(s@),
{
    let mut out: Vec<char> = Vec::new();
    let mut i: usize = 0;
    while i < s.len()
        invariant
            i <= s.len(),
            out.len() == i,
            forall|k: int| 0 <= k < i ==> out@[k] == lower_char(s@[k]),
        decreases s.len() - i,
    {
        out.push(to_lower_char(s[i]));
        i = i + 1;
    }
    assert(out@ =~= ascii_lower(s@));
    out
}

/// The lower case that `str::to_lowercase` gives a text with letters beyond ASCII.
pub uninterp spec fn unicode_lowercase(s: Seq<char>) -> Seq<char>;

/// A text in lower case.
pub open spec fn lowercase(s: Seq<char>) -> Seq<char> {
    if is_ascii_chars(s) {
        ascii_lower(s)
    } else {
        unicode_lowercase(s)
    }
}

/// Calls `str::to_lowercase`: of a text in ASCII it gives the text with its letters in lower
/// case, of any other text a function of that text.
#[verifier::external_body]
pub(crate) fn to_lowercase(s: &str) -> (out: String)
    ensures
        out@ == (if is_ascii_chars(s@) {
            ascii_lower(s@)
        } else {
            unicode_lowercase(s@)
        }),
{
    s.to_lowercase()
}

/// The upper case that `str::to_uppercase` gives a text with letters beyond ASCII.
pub uninterp spec fn unicode_uppercase(s: Seq<char>) -> Seq<char>;

/// A text in upper case.
pub open spec fn uppercase(s: Seq<char>) -> Seq<char> {
    if is_ascii_chars(s) {
        ascii_upper(s)
    } else {
        unicode_uppercase(s)
    }
}

/// Calls `str::to_uppercase`: of a text in ASCII it gives the text with its letters in upper
/// case, of any other text a function of that text.
#[verifier::external_body]
pub(crate) fn to_uppercase(s: &str) -> (out: String)
    ensures
        out@ == (if is_ascii_chars(s@) {
            ascii_upper(s@)
        } else {
            unicode_uppercase(s@)
        }),
{
    s.to_uppercase()
}

/// Whether two texts are equal but for the case of their ASCII letters.
pub open spec fn eq_ignore_case(a: Seq<char>, b: Seq<char>) -> bool {
    ascii_lower(a) == ascii_lower(b)
}

/// Whether two texts are equal but for the case of their ASCII letters.
pub fn same_ignoring_case(a: &[char], b: &[char]) -> (r: bool)
    ensures
        r == eq_ignore_case(a@, b@),
{
    let x = to_ascii_lower(a);
    let y = to_ascii_lower(b);
    same(&x, &y)
}

/// Whether two strings are equal but for the case of their ASCII letters.
pub fn str_same_ignoring_case(a: &str, b: &str) -> (r: bool)
    ensures
        r == eq_ignore_case(a@, b@),
{
    same_ignoring_case(&chars_of(a), &chars_of(b))
}

/// Whether `s` starts with `p`, whatever the case of their ASCII letters.
pub open spec fn starts_with_ignoring_case(s: Seq<char>, p: Seq<char>) -> bool {
    starts_with(ascii_lower(s), ascii_lower(p))
}

/// A text in quotes, as Rust writes it for a programmer.
pub uninterp spec fn debug_quoted(s: Seq<char>) -> Seq<char>;

/// Calls the `Debug` formatting of `str`: the text in quotes, with what cannot be printed escaped.
#[verifier::external_body]
pub(crate) fn debug_quote(s: &str) -> (r: String)
    ensures
        r@ == debug_quoted(s@),
{
    format!("{s:?}")
}

// --- order ----------------------------------------------------------------

/// Whether a text does not come after another, by the numbers of their characters from `i` on.
pub open spec fn precedes_from(a: Seq<char>, b: Seq<char>, i: int) -> bool
    decreases a.len() - i,
{
    if i < 0 || i >= a.len() {
        true
    } else if i >= b.len() {
        false
    } else if a[i] == b[i] {
        precedes_from(a, b, i + 1)
    } else {
        a[i] < b[i]
    }
}

/// Whether a text does not come after another, by the numbers of their characters: the order of
/// their UTF-8 bytes.
pub open spec fn precedes(a: Seq<char>, b: Seq<char>) -> bool {
    precedes_from(a, b, 0)
}

proof fn precedes_is_total_from(a: Seq<char>, b: Seq<char>, i: int)
    requires
        0 <= i,
    ensures
        precedes_from(a, b, i) || precedes_from(b, a, i),
    decreases a.len() - i,
{
    if i < a.len() && i < b.len() && a[i] == b[i] {
        precedes_is_total_from(a, b, i + 1);
    }
}

proof fn precedes_is_transitive_from(a: Seq<char>, b: Seq<char>, c: Seq<char>, i: int)
    requires
        0 <= i,
        precedes_from(a, b, i),
        precedes_from(b, c, i),
    ensures
        precedes_from(a, c, i),
    decreases a.len() - i,
{
    if i < a.len() && i < b.len() && i < c.len() && a[i] == b[i] && b[i] == c[i] {
        precedes_is_transitive_from(a, b, c, i + 1);
    }
}

/// The order of texts is total and transitive.
pub proof fn precedes_is_order()
    ensures
        forall|a: Seq<char>, b: Seq<char>| #[trigger] precedes(a, b) || precedes(b, a),
        forall|a: Seq<char>, b: Seq<char>, c: Seq<char>| #[trigger]
            precedes(a, b) && #[trigger] precedes(b, c) ==> precedes(a, c),
{
    assert forall|a: Seq<char>, b: Seq<char>| #[trigger] precedes(a, b) || precedes(b, a) by {
        precedes_is_total_from(a, b, 0);
    }
    assert forall|a: Seq<char>, b: Seq<char>, c: Seq<char>| #[trigger]
        precedes(a, b) && #[trigger] precedes(b, c) implies precedes(a, c) by {
        precedes_is_transitive_from(a, b, c, 0);
    }
}

/// Whether a string does not come after another.
pub fn str_precedes(a: &str, b: &str) -> (r: bool)
    ensures
        r == precedes(a@, b@),
{
    let x = chars_of(a);
    let y = chars_of(b);
    let mut i: usize = 0;
    while i < x.len()
        invariant
            i <= x.len(),
            x@ == a@,
            y@ == b@,
            precedes(a@, b@) == precedes_from(a@, b@, i as int),
        decreases x.len() - i,
    {
        if i >= y.len() {
            return false;
        }
        if x[i] != y[i] {
            return x[i] < y[i];
        }
        i = i + 1;
    }
    true
}

// --- numbers --------------------------------------------------------------

/// The digit for a number below ten.
pub open spec fn digit_char(d: nat) -> char {
    ((48 + d) as u32) as char
}

/// A number in decimal digits, without leading zeros.
pub open spec fn decimal(n: nat) -> Seq<char>
    decreases n,
{
    if n < 10 {
        seq![digit_char(n)]
    } else {
        decimal(n / 10).push(digit_char(n % 10))
    }
}

/// A number in decimal digits, with a sign where it is negative.
pub open spec fn signed_decimal(n: int) -> Seq<char> {
    if n < 0 {
        seq!['-'] + decimal((-n) as nat)
    } else {
        decimal(n as nat)
    }
}

/// A number in decimal digits.
pub fn to_decimal(n: u64) -> (out: Vec<char>)
    ensures
        out@ == decimal(n as nat),
    decreases n,
{
    let d: u8 = (n % 10) as u8;
    let c: char = (48 + d) as char;
    if n < 10 {
        let mut out: Vec<char> = Vec::new();
        out.push(c);
        out
    } else {
        let mut out = to_decimal(n / 10);
        out.push(c);
        out
    }
}

/// A number in decimal digits, with a sign where it is negative.
pub fn to_signed_decimal(n: i64) -> (out: Vec<char>)
    ensures
        out@ == signed_decimal(n as int),
{
    if n >= 0 {
        return to_decimal(n as u64);
    }
    let magnitude: u64 = if n == i64::MIN {
        9223372036854775808
    } else {
        (-n) as u64
    };
    let mut out: Vec<char> = Vec::new();
    out.push('-');
    extend(&mut out, &to_decimal(magnitude));
    out
}

/// A number in decimal digits, as a string.
pub fn decimal_string(n: u64) -> (out: String)
    ensures
        out@ == decimal(n as nat),
{
    text_of(&to_decimal(n))
}

/// Whether a character is an ASCII digit.
pub open spec fn is_digit(c: char) -> bool {
    '0' <= c <= '9'
}

/// The value of a digit.
pub open spec fn digit_value(c: char) -> nat {
    (c as u32 - 48) as nat
}

/// Whether a text is made of digits alone.
pub open spec fn all_digits(s: Seq<char>) -> bool {
    forall|i: int| 0 <= i < s.len() ==> is_digit(s[i])
}

/// The value of a text of digits.
pub open spec fn digits_value(s: Seq<char>) -> nat
    decreases s.len(),
{
    if s.len() == 0 {
        0
    } else {
        digits_value(s.drop_last()) * 10 + digit_value(s.last())
    }
}

/// The digits of a written number, past the plus sign that it may start with.
pub open spec fn unsigned_part(s: Seq<char>) -> Seq<char> {
    if s.len() > 1 && s[0] == '+' {
        s.skip(1)
    } else {
        s
    }
}

/// The number that a text writes, if it is one of at most `max`: digits, at least one of them,
/// that a plus sign may precede.
pub open spec fn parse_unsigned(s: Seq<char>, max: nat) -> Option<nat> {
    let d = unsigned_part(s);
    if d.len() > 0 && all_digits(d) && digits_value(d) <= max {
        Some(digits_value(d))
    } else {
        None
    }
}

/// Fewer digits never write a larger number.
proof fn digits_value_grows(s: Seq<char>, i: int)
    requires
        0 <= i <= s.len(),
        all_digits(s),
    ensures
        digits_value(s.take(i)) <= digits_value(s),
    decreases s.len() - i,
{
    if i < s.len() {
        digits_value_grows(s, i + 1);
        assert(s.take(i + 1).drop_last() =~= s.take(i));
    } else {
        assert(s.take(i) =~= s);
    }
}

/// The number that a text writes, if it is one of at most `max`.
pub fn parse_number(s: &[char], max: u64) -> (r: Option<u64>)
    ensures
        match r {
            Some(n) => parse_unsigned(s@, max as nat) == Some(n as nat),
            None => parse_unsigned(s@, max as nat) is None,
        },
{
    let first: usize = if s.len() > 1 && s[0] == '+' {
        1
    } else {
        0
    };
    let ghost d = unsigned_part(s@);
    assert(d =~= s@.skip(first as int));
    if s.len() == 0 {
        return None;
    }
    let mut n: u64 = 0;
    let mut i: usize = first;
    while i < s.len()
        invariant
            first <= i <= s.len(),
            d == s@.skip(first as int),
            d == unsigned_part(s@),
            n == digits_value(d.take(i - first)),
            n <= max,
            forall|k: int| 0 <= k < i - first ==> is_digit(d[k]),
        decreases s.len() - i,
    {
        let c = s[i];
        assert(d[i - first] == c);
        if c < '0' || c > '9' {
            assert(!is_digit(d[i - first]));
            return None;
        }
        let v: u64 = (c as u32 - 48) as u64;
        assert(d.take(i + 1 - first).drop_last() =~= d.take(i - first));
        assert(digits_value(d.take(i + 1 - first)) == n * 10 + v);
        if n > max / 10 || n * 10 > max - v.min(max) || v > max {
            proof {
                if all_digits(d) {
                    digits_value_grows(d, i + 1 - first);
                }
                assert(n * 10 + v > max);
            }
            return None;
        }
        n = n * 10 + v;
        i = i + 1;
    }
    assert(d.take(i - first) =~= d);
    Some(n)
}

proof fn digits_of_a_number(n: nat)
    ensures
        decimal(n).len() > 0,
        all_digits(decimal(n)),
        digits_value(decimal(n)) == n,
    decreases n,
{
    let d = digit_char(n % 10);
    assert(is_digit(d) && digit_value(d) == n % 10);
    if n < 10 {
        let one = seq![digit_char(n)];
        assert(one.drop_last() =~= Seq::empty());
        assert(digits_value(one.drop_last()) == 0);
        assert(one.last() == digit_char(n));
    } else {
        digits_of_a_number(n / 10);
        let s = decimal(n);
        assert(s.drop_last() =~= decimal(n / 10));
        assert(s.last() == d);
    }
}

/// A number that is written is read back, if it is not too large, and two numbers are never written
/// alike, whatever their signs.
pub proof fn numbers_read_back(n: nat, max: nat, a: int, b: int)
    ensures
        n <= max ==> parse_unsigned(decimal(n), max) == Some(n),
        n > max ==> parse_unsigned(decimal(n), max) is None,
        signed_decimal(a) == signed_decimal(b) ==> a == b,
{
    digits_of_a_number(n);
    let s = decimal(n);
    assert(is_digit(s[0]));
    assert(unsigned_part(s) == s);
    let x = if a < 0 {
        (-a) as nat
    } else {
        a as nat
    };
    let y = if b < 0 {
        (-b) as nat
    } else {
        b as nat
    };
    digits_of_a_number(x);
    digits_of_a_number(y);
    assert(is_digit(decimal(x)[0]) && is_digit(decimal(y)[0]));
    if signed_decimal(a) == signed_decimal(b) {
        assert(signed_decimal(a)[0] == signed_decimal(b)[0]);
        if a < 0 {
            assert(signed_decimal(a)[0] == '-');
            assert(b < 0);
            assert(signed_decimal(a).skip(1) =~= decimal(x));
            assert(signed_decimal(b).skip(1) =~= decimal(y));
        } else if b < 0 {
            assert(signed_decimal(b)[0] == '-');
        }
    }
}

/// There is no white space in a number.
pub proof fn numbers_have_no_white(n: nat)
    ensures
        trim(decimal(n)) == decimal(n),
{
    digits_of_a_number(n);
    let s = decimal(n);
    let k = s.len() as int;
    assert(is_digit(s[0]) && is_digit(s[k - 1]));
    assert(lead_end(s, 0) == 0);
    assert(tail_start(s, 0, k) == k);
    assert(s.subrange(0, k) =~= s);
}

/// There is nothing but digits in a number.
pub proof fn digits_have_no(n: nat, c: char)
    requires
        !is_digit(c),
    ensures
        !decimal(n).contains(c),
{
    digits_of_a_number(n);
    let s = decimal(n);
    if s.contains(c) {
        let k = choose|k: int| 0 <= k < s.len() && s[k] == c;
        assert(is_digit(s[k]));
    }
}

/// The pieces of a text, put together again with what it was cut at, are the text, and none of them
/// holds what it was cut at.
pub proof fn pieces_join_back(s: Seq<char>, c: char)
    ensures
        join(split(s, c), seq![c]) == s,
        forall|i: int| 0 <= i < split(s, c).len() ==> !(#[trigger] split(s, c)[i]).contains(c),
{
    pieces_join_from(s, c, 0);
    assert(s.skip(0) =~= s);
}

proof fn pieces_join_from(s: Seq<char>, c: char, start: int)
    requires
        0 <= start <= s.len(),
    ensures
        split_from(s, c, start).len() > 0,
        join(split_from(s, c, start), seq![c]) == s.skip(start),
        forall|i: int|
            0 <= i < split_from(s, c, start).len() ==> !(#[trigger] split_from(
                s,
                c,
                start,
            )[i]).contains(c),
    decreases s.len() + 1 - start,
{
    let end = find_at(s, c, start);
    find_at_is_first(s, c, start);
    if end >= s.len() {
        assert(!s.skip(start).contains(c));
    } else {
        let first = s.subrange(start, end);
        let rest = split_from(s, c, end + 1);
        pieces_join_from(s, c, end + 1);
        joins_add_up(seq![first], rest, seq![c]);
        assert(first + seq![c] + s.skip(end + 1) =~= s.skip(start));
        assert(!first.contains(c));
        let all = split_from(s, c, start);
        assert forall|i: int| 0 <= i < all.len() implies !(#[trigger] all[i]).contains(c) by {
            if i > 0 {
                assert(all[i] == rest[i - 1]);
            }
        }
    }
}

/// A text is read line by line: what stands before its first line break is its first line, without
/// the carriage return that may end it, and the lines of what follows come next. A text without a
/// line break is one line, or none where it is empty.
pub proof fn lines_add_up(line: Seq<char>, rest: Seq<char>)
    requires
        !line.contains('\n'),
    ensures
        lines(line + seq!['\n'] + rest) == seq![
            if line.len() > 0 && line.last() == '\r' {
                line.drop_last()
            } else {
                line
            },
        ] + lines(rest),
        lines(line) == (if line.len() > 0 {
            seq![line]
        } else {
            Seq::empty()
        }),
{
    let head = line + seq!['\n'];
    let all = head + rest;
    find_at_is_first(all, '\n', 0);
    find_at_is_first(line, '\n', 0);
    assert(find_at(line, '\n', 0) == line.len()) by {
        if find_at(line, '\n', 0) < line.len() {
            assert(line.contains(line[find_at(line, '\n', 0)]));
        }
    }
    assert(find_at(all, '\n', 0) == line.len()) by {
        let f = find_at(all, '\n', 0);
        assert(all[line.len() as int] == '\n');
        if f < line.len() {
            assert(line[f] == all[f]);
            assert(line.contains(line[f]));
        }
    }
    lines_shift(head, rest, 0);
    assert(line.skip(0) =~= line);
    assert(all.subrange(0, line.len() as int) =~= line);
    if line.len() > 0 {
        assert(all[line.len() - 1] == line.last());
        assert(all.subrange(0, line.len() - 1) =~= line.drop_last());
    }
}

proof fn lines_shift(p: Seq<char>, s: Seq<char>, start: int)
    requires
        0 <= start <= s.len(),
    ensures
        lines_from(p + s, p.len() + start) == lines_from(s, start),
    decreases s.len() + 1 - start,
{
    let end = find_at(s, '\n', start);
    find_at_is_first(s, '\n', start);
    find_at_shifts(p, s, '\n', start);
    let all = p + s;
    if start < s.len() {
        if end >= s.len() {
            assert(all.skip(p.len() + start) =~= s.skip(start));
        } else {
            lines_shift(p, s, end + 1);
            assert(p.len() + (end + 1) == p.len() + end + 1);
            assert(all.subrange(p.len() + start, p.len() + end) =~= s.subrange(start, end));
            if end > start {
                assert(all[p.len() + end - 1] == s[end - 1]);
                assert(all.subrange(p.len() + start, p.len() + end - 1) =~= s.subrange(
                    start,
                    end - 1,
                ));
            }
        }
    }
}

/// A text that stands nowhere in another leaves it as it is when it is replaced. Where it stands, it
/// gives way to the replacement: what precedes it stays, and what follows goes on being replaced.
pub proof fn texts_are_replaced(before: Seq<char>, p: Seq<char>, after: Seq<char>, with: Seq<char>)
    requires
        p.len() > 0,
        forall|i: int| 0 <= i < before.len() ==> !#[trigger] matches_at(before + p + after, p, i),
    ensures
        replace_text(before + p + after, p, with) == before + with + replace_text(after, p, with),
        (forall|i: int| 0 <= i < after.len() ==> !#[trigger] matches_at(after, p, i))
            ==> replace_text(after, p, with) == after,
{
    let all = before + p + after;
    let k = before.len() as int;
    replacing_passes(all, p, with, 0, k);
    assert(all.subrange(k, k + p.len()) =~= p);
    assert(matches_at(all, p, k));
    replacing_shifts(before + p, after, p, with, 0);
    assert(all.subrange(0, k) =~= before);
    assert(before + (with + replace_text(after, p, with)) =~= before + with + replace_text(
        after,
        p,
        with,
    ));
    if forall|i: int| 0 <= i < after.len() ==> !#[trigger] matches_at(after, p, i) {
        replacing_passes(after, p, with, 0, after.len() as int);
        assert(after.subrange(0, after.len() as int) =~= after);
        assert(after + Seq::<char>::empty() =~= after);
    }
}

proof fn replacing_passes(s: Seq<char>, p: Seq<char>, with: Seq<char>, i: int, k: int)
    requires
        0 <= i <= k <= s.len(),
        forall|j: int| i <= j < k ==> !#[trigger] matches_at(s, p, j),
    ensures
        replace_text_from(s, p, with, i) == s.subrange(i, k) + replace_text_from(s, p, with, k),
    decreases k - i,
{
    if i < k {
        assert(!matches_at(s, p, i));
        replacing_passes(s, p, with, i + 1, k);
        let tail = replace_text_from(s, p, with, k);
        assert(seq![s[i]] + (s.subrange(i + 1, k) + tail) =~= s.subrange(i, k) + tail);
    } else {
        assert(s.subrange(i, k) =~= Seq::empty());
        assert(Seq::<char>::empty() + replace_text_from(s, p, with, k) =~= replace_text_from(
            s,
            p,
            with,
            k,
        ));
    }
}

proof fn replacing_shifts(q: Seq<char>, s: Seq<char>, p: Seq<char>, with: Seq<char>, i: int)
    requires
        0 <= i,
        p.len() > 0,
    ensures
        replace_text_from(q + s, p, with, q.len() + i) == replace_text_from(s, p, with, i),
    decreases s.len() - i,
{
    let all = q + s;
    if i < s.len() {
        assert(matches_at(all, p, q.len() + i) == matches_at(s, p, i)) by {
            if i + p.len() <= s.len() {
                assert(all.subrange(q.len() + i, q.len() + i + p.len()) =~= s.subrange(
                    i,
                    i + p.len(),
                ));
            }
        }
        assert(all[q.len() + i] == s[i]);
        if matches_at(s, p, i) {
            replacing_shifts(q, s, p, with, i + p.len());
            assert(q.len() + (i + p.len()) == q.len() + i + p.len());
        } else {
            replacing_shifts(q, s, p, with, i + 1);
            assert(q.len() + (i + 1) == q.len() + i + 1);
        }
    }
}

/// Pieces that hold nothing to cut at come apart again as they were put together.
pub proof fn joined_pieces_come_apart(parts: Seq<Seq<char>>, c: char)
    requires
        parts.len() > 0,
        forall|i: int| 0 <= i < parts.len() ==> !(#[trigger] parts[i]).contains(c),
    ensures
        split(join(parts, seq![c]), c) == parts,
    decreases parts.len(),
{
    let first = parts[0];
    assert(!first.contains(c));
    if parts.len() == 1 {
        find_at_is_first(first, c, 0);
        if find_at(first, c, 0) < first.len() {
            assert(first.contains(first[find_at(first, c, 0)]));
        }
        assert(first.skip(0) =~= first);
        assert(parts =~= seq![first]);
    } else {
        let rest = parts.skip(1);
        assert(parts =~= seq![first] + rest);
        assert forall|i: int| 0 <= i < rest.len() implies !(#[trigger] rest[i]).contains(c) by {
            assert(rest[i] == parts[i + 1]);
        }
        joins_add_up(seq![first], rest, seq![c]);
        joined_pieces_come_apart(rest, c);
        let head = first + seq![c];
        let tail = join(rest, seq![c]);
        let all = head + tail;
        find_at_is_first(all, c, 0);
        let f = find_at(all, c, 0);
        assert(all[first.len() as int] == c);
        if f < first.len() {
            assert(first[f] == all[f]);
            assert(first.contains(first[f]));
        }
        assert(all.subrange(0, f) =~= first);
        split_goes_on(head, tail, c, 0);
    }
}

proof fn split_goes_on(p: Seq<char>, s: Seq<char>, c: char, start: int)
    requires
        0 <= start <= s.len(),
    ensures
        split_from(p + s, c, p.len() + start) == split_from(s, c, start),
    decreases s.len() + 1 - start,
{
    let end = find_at(s, c, start);
    find_at_is_first(s, c, start);
    find_at_shifts(p, s, c, start);
    let all = p + s;
    if end >= s.len() {
        assert(all.skip(p.len() + start) =~= s.skip(start));
    } else {
        split_goes_on(p, s, c, end + 1);
        assert(p.len() + (end + 1) == p.len() + end + 1);
        assert(all.subrange(p.len() + start, p.len() + end) =~= s.subrange(start, end));
    }
}

/// A capital letter has the small letter at the same place of the alphabet as its lower case, and the
/// other way round. Anything but a letter is left as it is.
pub proof fn cases_go_together(c: char, d: int)
    requires
        0 <= d < 26,
    ensures
        lower_char((65 + d) as char) == (97 + d) as char,
        upper_char((97 + d) as char) == (65 + d) as char,
        lower_char((97 + d) as char) == (97 + d) as char,
        upper_char((65 + d) as char) == (65 + d) as char,
        lower_char(lower_char(c)) == lower_char(c),
        !('A' <= c <= 'Z') ==> lower_char(c) == c,
        !('a' <= c <= 'z') ==> upper_char(c) == c,
{
}

} // verus!
