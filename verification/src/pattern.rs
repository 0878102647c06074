//! Regular expressions, as the `regex` crate matches them.
//!
//! What a pattern matches is left to that crate: here it has a name for each kind of question,
//! and the few facts that hold of every pattern and text.

use vstd::prelude::*;
use crate::text;

verus! {

/// Whether a pattern matches anywhere in a text.
pub uninterp spec fn pattern_matches(pattern: Seq<char>, text: Seq<char>) -> bool;

/// The pieces of a text between the matches of a pattern.
pub uninterp spec fn pattern_gaps(pattern: Seq<char>, text: Seq<char>) -> Seq<Seq<char>>;

/// The groups of each match of a pattern in a text, the whole match first.
pub uninterp spec fn pattern_groups(
    pattern: Seq<char>,
    text: Seq<char>,
) -> Seq<Seq<Option<Seq<char>>>>;

/// The text of one group, if the group took part in the match.
pub open spec fn group_text(group: Option<String>) -> Option<Seq<char>> {
    match group {
        Some(t) => Some(t@),
        None => None,
    }
}

/// The groups of one match.
pub open spec fn match_view(groups: Seq<Option<String>>) -> Seq<Option<Seq<char>>> {
    Seq::new(groups.len(), |i: int| group_text(groups[i]))
}

/// The groups of each match.
pub open spec fn groups_view(found: Seq<Vec<Option<String>>>) -> Seq<Seq<Option<Seq<char>>>> {
    Seq::new(found.len(), |i: int| match_view(found[i]@))
}

/// The pieces and what stands between them, in turn, from the piece at `i` on.
pub open spec fn interleave(gaps: Seq<Seq<char>>, between: Seq<Seq<char>>, i: int) -> Seq<char>
    decreases gaps.len() - i,
{
    if i < 0 || i >= gaps.len() {
        Seq::empty()
    } else if i < between.len() {
        gaps[i] + between[i] + interleave(gaps, between, i + 1)
    } else {
        gaps[i] + interleave(gaps, between, i + 1)
    }
}

/// The whole text of each match.
pub open spec fn whole_matches(groups: Seq<Seq<Option<Seq<char>>>>) -> Seq<Seq<char>> {
    Seq::new(groups.len(), |i: int| groups[i][0].unwrap())
}

/// Calls `regex::Regex::is_match`; a pattern that `regex::Regex::new` rejects matches nothing.
#[verifier::external_body]
pub(crate) fn is_match(pattern: &str, text: &str) -> (r: bool)
    ensures
        r == pattern_matches(pattern@, text@),
{
    match regex::Regex::new(pattern) {
        Ok(regex) => regex.is_match(text),
        Err(_) => false,
    }
}

/// Calls `regex::Regex::split`: the pieces of the text that no match covers, in order, one more
/// than there are matches. A pattern that `regex::Regex::new` rejects matches nothing.
#[verifier::external_body]
pub(crate) fn gaps(pattern: &str, text: &str) -> (out: Vec<String>)
    ensures
        text::texts(out@) == pattern_gaps(pattern@, text@),
        out.len() == pattern_groups(pattern@, text@).len() + 1,
{
    match regex::Regex::new(pattern) {
        Ok(regex) => regex.split(text).map(|piece| piece.to_string()).collect(),
        Err(_) => vec![text.to_string()],
    }
}

/// Calls `regex::Regex::captures_iter`: the groups of each match, in order, the whole match
/// first. The matches and the pieces between them make up the text. A pattern that
/// `regex::Regex::new` rejects matches nothing.
#[verifier::external_body]
pub(crate) fn matches(pattern: &str, text: &str) -> (out: Vec<Vec<Option<String>>>)
    ensures
        groups_view(out@) == pattern_groups(pattern@, text@),
        forall|i: int|
            0 <= i < out.len() ==> (#[trigger] out@[i]@).len() >= 1 && out@[i]@[0] is Some,
        interleave(pattern_gaps(pattern@, text@), whole_matches(groups_view(out@)), 0) == text@,
{
    let regex = match regex::Regex::new(pattern) {
        Ok(regex) => regex,
        Err(_) => return Vec::new(),
    };
    regex
        .captures_iter(text)
        .map(|found| found.iter().map(|group| group.map(|g| g.as_str().to_string())).collect())
        .collect()
}

/// The whole text of each match.
pub fn first_groups(found: &[Vec<Option<String>>]) -> (out: Vec<String>)
    requires
        forall|i: int|
            0 <= i < found@.len() ==> (#[trigger] found@[i]@).len() >= 1 && found@[i]@[0] is Some,
    ensures
        out.len() == found.len(),
        forall|i: int|
            0 <= i < out.len() ==> group_text(found@[i]@[0]) == Some((#[trigger] out@[i])@),
{
    let mut out: Vec<String> = Vec::new();
    while out.len() < found.len()
        invariant
            out.len() <= found.len(),
            forall|i: int|
                0 <= i < found@.len() ==> (#[trigger] found@[i]@).len() >= 1
                    && found@[i]@[0] is Some,
            forall|i: int|
                0 <= i < out.len() ==> group_text(found@[i]@[0]) == Some((#[trigger] out@[i])@),
        decreases found.len() - out.len(),
    {
        let groups = &found[out.len()];
        assert(found@[out.len() as int]@.len() >= 1);
        match &groups[0] {
            Some(t) => {
                out.push(t.clone());
            },
            None => {
                out.push(String::new());
            },
        }
    }
    out
}

/// The pieces and what stands between them, in turn.
pub fn woven(gaps: &[String], between: &[String]) -> (out: Vec<char>)
    ensures
        out@ == interleave(text::texts(gaps@), text::texts(between@), 0),
{
    let mut out: Vec<char> = Vec::new();
    let ghost g = text::texts(gaps@);
    let ghost b = text::texts(between@);
    let mut i: usize = 0;
    while i < gaps.len()
        invariant
            i <= gaps.len(),
            g == text::texts(gaps@),
            b == text::texts(between@),
            out@ + interleave(g, b, i as int) =~= interleave(g, b, 0),
        decreases gaps.len() - i,
    {
        text::extend_str(&mut out, &gaps[i]);
        if i < between.len() {
            text::extend_str(&mut out, &between[i]);
        }
        i = i + 1;
    }
    out
}

} // verus!
