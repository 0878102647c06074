//! Conversation threading: union-find over Message-ID / In-Reply-To /
//! References, with a normalized-subject fallback.

use vstd::prelude::*;
use vstd::hash_map::StringHashMap;
use std::collections::HashMap;
use crate::compose;
use crate::forest;
use crate::forest::Forest;
use crate::models::Email;
use crate::text;

verus! {

broadcast use vstd::std_specs::hash::group_hash_axioms;

/// Stored, never translated. `normalize_subject` blanks it so that unrelated
/// subject-less messages don't all thread into one conversation: whatever
/// writes it has to use this exact string.
pub const NO_SUBJECT: &'static str = "(no subject)";

// --- subjects -------------------------------------------------------------

/// The length of the word at a place that marks an answer or what is passed on, whatever its case:
/// `re`, `fwd` or `fw`. Zero where there is none.
pub open spec fn mark_len(s: Seq<char>, i: int) -> int {
    let lower = text::ascii_lower(s);
    if text::matches_at(lower, "re"@, i) {
        2
    } else if text::matches_at(lower, "fwd"@, i) {
        3
    } else if text::matches_at(lower, "fw"@, i) {
        2
    } else {
        0
    }
}

/// Where the prefix ends that a mail client puts before the subject it answers or passes on: a mark
/// and a colon, with white space anywhere around them. Zero where there is none.
pub open spec fn prefix_end(s: Seq<char>) -> int {
    let start = text::lead_end(s, 0);
    let word = mark_len(s, start);
    let colon = text::lead_end(s, start + word);
    if word > 0 && colon < s.len() && s[colon] == ':' {
        text::lead_end(s, colon + 1)
    } else {
        0
    }
}

/// A subject without the reply prefixes it starts with.
pub open spec fn stripped(subject: Seq<char>) -> Seq<char>
    decreases subject.len(),
{
    let end = prefix_end(subject);
    if 0 < end <= subject.len() {
        stripped(subject.skip(end))
    } else {
        subject
    }
}

/// What messages of one thread share as a subject: nothing for the stand-in of a missing subject,
/// else the subject in lower case without reply prefixes.
pub open spec fn normalized(subject: Seq<char>) -> Seq<char> {
    let trimmed = text::trim(subject);
    if text::eq_ignore_case(trimmed, NO_SUBJECT@) {
        Seq::empty()
    } else {
        text::lowercase(text::trim(stripped(trimmed)))
    }
}

fn find_mark(s: &[char], i: usize) -> (r: usize)
    requires
        i <= s.len(),
    ensures
        r == mark_len(s@, i as int),
        i + r <= s.len(),
{
    proof {
        reveal_strlit("re");
        reveal_strlit("fwd");
        reveal_strlit("fw");
    }
    let lower = text::to_ascii_lower(s);
    if text::stands_at(&lower, &text::chars_of("re"), i) {
        2
    } else if text::stands_at(&lower, &text::chars_of("fwd"), i) {
        3
    } else if text::stands_at(&lower, &text::chars_of("fw"), i) {
        2
    } else {
        0
    }
}

fn find_prefix_end(s: &[char]) -> (r: usize)
    ensures
        r == prefix_end(s@),
        r <= s.len(),
{
    let start: usize = text::skip_white(s, 0);
    let word: usize = find_mark(s, start);
    if word == 0 {
        return 0;
    }
    let colon: usize = text::skip_white(s, start + word);
    if colon < s.len() && s[colon] == ':' {
        text::skip_white(s, colon + 1)
    } else {
        0
    }
}

/// What messages of one thread share as a subject.
pub fn normalize_subject(subject: &str) -> (r: String)
    ensures
        r@ == normalized(subject@),
{
    let mut chars = text::trimmed(&text::chars_of(subject));
    if text::same_ignoring_case(&chars, &text::chars_of(NO_SUBJECT)) {
        return String::new();
    }
    loop
        invariant
            stripped(chars@) == stripped(text::trim(subject@)),
        ensures
            chars@ == stripped(text::trim(subject@)),
        decreases chars@.len(),
    {
        let end: usize = find_prefix_end(&chars);
        if end == 0 {
            break;
        }
        let rest = text::slice_of(&chars, end, chars.len());
        assert(rest@ =~= chars@.skip(end as int));
        chars = rest;
    }
    text::to_lowercase(&text::text_of(&text::trimmed(&chars)))
}

/// Whether a subject is the stand-in of a missing one.
pub open spec fn is_stand_in(subject: Seq<char>) -> bool {
    text::eq_ignore_case(text::trim(subject), NO_SUBJECT@)
}

proof fn lead_end_is(s: Seq<char>, i: int, k: int)
    requires
        0 <= i <= k <= s.len(),
        forall|j: int| i <= j < k ==> text::is_white(s[j]),
        k < s.len() ==> !text::is_white(s[k]),
    ensures
        text::lead_end(s, i) == k,
{
    text::lead_end_bounds(s, i);
}

proof fn tail_start_is(s: Seq<char>, low: int, k: int)
    requires
        0 <= low <= k <= s.len(),
        forall|j: int| k <= j < s.len() ==> text::is_white(s[j]),
        k > low ==> !text::is_white(s[k - 1]),
    ensures
        text::tail_start(s, low, s.len() as int) == k,
{
    text::tail_start_bounds(s, low, s.len() as int);
}

/// A mark before a subject is all that is stripped first, and makes it no stand-in.
proof fn mark_is_stripped(mark: Seq<char>, s: Seq<char>)
    requires
        mark == "Re: "@ || mark == "Fwd: "@,
    ensures
        stripped(text::trim(mark + s)) == stripped(text::trim(s)),
        !is_stand_in(mark + s),
{
    reveal_strlit("Re: ");
    reveal_strlit("Fwd: ");
    reveal_strlit("re");
    reveal_strlit("fwd");
    reveal_strlit("(no subject)");
    let w = mark + s;
    let n = mark.len() as int;
    lead_end_is(w, 0, 0);
    text::lead_end_bounds(s, 0);
    let a = text::lead_end(s, 0);
    text::tail_start_bounds(s, a, s.len() as int);
    let e = text::tail_start(s, a, s.len() as int);
    let cut = if a < e {
        n + e
    } else {
        n - 1
    };
    assert forall|j: int| cut <= j < w.len() implies text::is_white(w[j]) by {
        if j >= n {
            assert(w[j] == s[j - n]);
        }
    }
    if a < e {
        assert(w[cut - 1] == s[e - 1]);
    }
    tail_start_is(w, 0, cut);
    let t = text::trim(w);
    assert(t =~= w.take(cut));
    let lower = text::ascii_lower(t);
    if mark == "Re: "@ {
        assert(lower.subrange(0, 2) =~= "re"@);
        assert(mark_len(t, 0) == 2);
    } else {
        assert(lower[0] == 'f');
        assert("re"@[0] == 'r');
        assert(lower.subrange(0, 2)[0] == 'f');
        assert(lower.subrange(0, 3) =~= "fwd"@);
        assert(mark_len(t, 0) == 3);
    }
    lead_end_is(t, 0, 0);
    assert(t[n - 2] == ':');
    lead_end_is(t, n - 2, n - 2);
    let rest = if a < e {
        n + a
    } else {
        n - 1
    };
    assert forall|j: int| n - 1 <= j < rest implies text::is_white(t[j]) by {
        if j >= n {
            assert(t[j] == s[j - n]);
        }
    }
    if a < e {
        assert(t[rest] == s[a]);
    }
    lead_end_is(t, n - 1, rest);
    assert(prefix_end(t) == rest);
    assert(t.skip(rest) =~= text::trim(s));
    assert(text::ascii_lower(t)[0] != text::ascii_lower(NO_SUBJECT@)[0]);
}

/// Answering or passing on a message keeps the subject that its thread is matched by. The stand-in
/// of a missing subject is left out: it matches nothing, but a subject that quotes it does.
pub proof fn marking_keeps_the_thread(subject: Seq<char>)
    requires
        !is_stand_in(subject),
    ensures
        normalized(compose::replied(subject)) == normalized(subject),
        normalized(compose::forwarded(subject)) == normalized(subject),
        !is_stand_in(compose::replied(subject)),
        !is_stand_in(compose::forwarded(subject)),
{
    mark_is_stripped("Re: "@, subject);
    mark_is_stripped("Fwd: "@, subject);
}

/// Whether a text is white space.
pub open spec fn is_blank(s: Seq<char>) -> bool {
    forall|i: int| 0 <= i < s.len() ==> text::is_white(#[trigger] s[i])
}

/// Whether a word marks an answer or what is passed on.
pub open spec fn is_mark(w: Seq<char>) -> bool {
    let lower = text::ascii_lower(w);
    lower == "re"@ || lower == "fwd"@ || lower == "fw"@
}

/// Whether a subject starts with a mark and a colon.
pub open spec fn starts_marked(s: Seq<char>) -> bool {
    exists|w: Seq<char>, gap: Seq<char>, rest: Seq<char>|
        is_mark(w) && is_blank(gap) && s == #[trigger] (w + gap + seq![':'] + rest)
}

proof fn unmarked_has_no_prefix(s: Seq<char>)
    requires
        text::trim(s) == s,
        !starts_marked(s),
    ensures
        prefix_end(s) == 0,
{
    reveal_strlit("re");
    reveal_strlit("fwd");
    reveal_strlit("fw");
    text::lead_end_bounds(s, 0);
    let start = text::lead_end(s, 0);
    text::tail_start_bounds(s, start, s.len() as int);
    assert(start == 0) by {
        if start > 0 {
            assert(text::trim(s).len() < s.len());
        }
    }
    let word = mark_len(s, 0);
    if word > 0 {
        text::lead_end_bounds(s, word);
        let colon = text::lead_end(s, word);
        if colon < s.len() && s[colon] == ':' {
            let w = s.subrange(0, word);
            let gap = s.subrange(word, colon);
            let rest = s.skip(colon + 1);
            assert(text::ascii_lower(w) =~= text::ascii_lower(s).subrange(0, word));
            assert(is_mark(w));
            assert forall|i: int| 0 <= i < gap.len() implies text::is_white(#[trigger] gap[i]) by {
                assert(gap[i] == s[word + i]);
            }
            assert(s =~= w + gap + seq![':'] + rest);
            assert(starts_marked(s));
        }
    }
}

/// A subject that no mark precedes is matched by the whole of it, in lower case.
pub proof fn unmarked_subjects_are_matched_whole(subject: Seq<char>)
    requires
        text::trim(subject) == subject,
        !is_stand_in(subject),
        !starts_marked(subject),
    ensures
        normalized(subject) == text::lowercase(subject),
{
    unmarked_has_no_prefix(subject);
}

/// White space around a subject matches nothing.
pub proof fn white_space_around_subjects_is_left_out(
    before: Seq<char>,
    subject: Seq<char>,
    after: Seq<char>,
)
    requires
        is_blank(before),
        is_blank(after),
    ensures
        normalized(before + subject + after) == normalized(subject),
{
    text::white_around_is_trimmed(before, subject, after);
}

/// The stand-in of a missing subject matches nothing.
pub proof fn missing_subjects_match_nothing(subject: Seq<char>)
    requires
        is_stand_in(subject),
    ensures
        normalized(subject).len() == 0,
{
}

/// Any mark before a subject leaves what it is matched by as it is, whatever its case and the white
/// space before its colon and behind it.
pub proof fn any_mark_is_stripped(w: Seq<char>, gap: Seq<char>, s: Seq<char>)
    requires
        is_mark(w),
        is_blank(gap),
        !is_stand_in(s),
    ensures
        normalized(w + gap + seq![':'] + s) == normalized(s),
        !is_stand_in(w + gap + seq![':'] + s),
{
    reveal_strlit("re");
    reveal_strlit("fwd");
    reveal_strlit("fw");
    reveal_strlit("(no subject)");
    let full = w + gap + seq![':'] + s;
    let m = w.len() as int;
    let n = (w + gap + seq![':']).len() as int;
    let lower_w = text::ascii_lower(w);
    assert(lower_w.len() == w.len());
    assert(lower_w[0] == text::lower_char(w[0]));
    assert(!text::is_white(w[0]));
    assert(full[0] == w[0]);
    lead_end_is(full, 0, 0);
    text::lead_end_bounds(s, 0);
    let a = text::lead_end(s, 0);
    text::tail_start_bounds(s, a, s.len() as int);
    let e = text::tail_start(s, a, s.len() as int);
    let cut = if a < e {
        n + e
    } else {
        n
    };
    assert forall|j: int| cut <= j < full.len() implies text::is_white(full[j]) by {
        assert(full[j] == s[j - n]);
    }
    if a < e {
        assert(full[cut - 1] == s[e - 1]);
    } else {
        assert(full[n - 1] == ':');
    }
    tail_start_is(full, 0, cut);
    let t = text::trim(full);
    assert(t =~= full.take(cut));
    let lower = text::ascii_lower(t);
    assert(lower.subrange(0, m) =~= lower_w);
    assert(lower[0] == lower_w[0]);
    let next = t[m];
    assert(next == ':' || text::is_white(next)) by {
        if gap.len() > 0 {
            assert(next == gap[0]);
        }
    }
    assert(lower[m] == text::lower_char(next));
    assert(lower[m] != 'd');
    if lower_w != "re"@ {
        assert(lower_w[0] == 'f');
        assert(lower.subrange(0, 2)[0] == 'f');
        assert("re"@[0] == 'r');
        assert(!text::matches_at(lower, "re"@, 0));
        if lower_w == "fw"@ {
            if text::matches_at(lower, "fwd"@, 0) {
                assert(lower.subrange(0, 3)[2] == lower[2]);
                assert("fwd"@[2] == 'd');
            }
        }
    }
    assert(mark_len(t, 0) == m);
    lead_end_is(t, 0, 0);
    assert forall|j: int| m <= j < n - 1 implies text::is_white(t[j]) by {
        assert(t[j] == gap[j - m]);
    }
    assert(t[n - 1] == ':');
    lead_end_is(t, m, n - 1);
    let rest = if a < e {
        n + a
    } else {
        n
    };
    assert forall|j: int| n <= j < rest implies text::is_white(t[j]) by {
        assert(t[j] == s[j - n]);
    }
    if a < e {
        assert(t[rest] == s[a]);
    }
    lead_end_is(t, n, rest);
    assert(prefix_end(t) == rest);
    assert(t.skip(rest) =~= text::trim(s));
    assert(stripped(t) == stripped(text::trim(s)));
    assert(text::ascii_lower(t)[0] != text::ascii_lower(NO_SUBJECT@)[0]);
}

/// A subject after a message was answered, where a mark is true, or passed on, again and again.
pub open spec fn marked(subject: Seq<char>, marks: Seq<bool>) -> Seq<char>
    decreases marks.len(),
{
    if marks.len() == 0 {
        subject
    } else if marks.last() {
        compose::replied(marked(subject, marks.drop_last()))
    } else {
        compose::forwarded(marked(subject, marks.drop_last()))
    }
}

/// However often a message is answered and passed on, the subject that its thread is matched by
/// stays the same.
pub proof fn threads_outlast_marks(subject: Seq<char>, marks: Seq<bool>)
    requires
        !is_stand_in(subject),
    ensures
        normalized(marked(subject, marks)) == normalized(subject),
        !is_stand_in(marked(subject, marks)),
    decreases marks.len(),
{
    if marks.len() > 0 {
        threads_outlast_marks(subject, marks.drop_last());
        marking_keeps_the_thread(marked(subject, marks.drop_last()));
    }
}

// --- what connects two messages -------------------------------------------

/// The token of a message: its Message-ID, or a synthetic one so a message
/// with no Message-ID still stands on its own.
pub open spec fn token(mail: Email) -> Seq<char> {
    let trimmed = text::trim(mail.message_id@);
    if trimmed.len() == 0 {
        "eid:"@ + text::signed_decimal(mail.id as int)
    } else {
        trimmed
    }
}

/// The token of the message with an id: of the last one, should several have it.
pub open spec fn token_of(emails: Seq<Email>, id: i64) -> Seq<char>
    decreases emails.len(),
{
    if emails.len() == 0 {
        Seq::empty()
    } else if emails.last().id == id {
        token(emails.last())
    } else {
        token_of(emails.drop_last(), id)
    }
}

/// The Message-IDs that a message answers: its parent, then its ancestors.
pub open spec fn answered(mail: Email) -> Seq<Seq<char>> {
    let parent = text::trim(mail.in_reply_to@);
    if parent.len() > 0 {
        seq![parent] + text::words(mail.references@)
    } else {
        text::words(mail.references@)
    }
}

/// Whether a relation is an equivalence.
pub open spec fn is_equivalence(rel: spec_fn(Seq<char>, Seq<char>) -> bool) -> bool {
    &&& forall|a: Seq<char>| #[trigger] rel(a, a)
    &&& forall|a: Seq<char>, b: Seq<char>| #[trigger] rel(a, b) ==> rel(b, a)
    &&& forall|a: Seq<char>, b: Seq<char>, c: Seq<char>| #[trigger]
        rel(a, b) && #[trigger] rel(b, c) ==> rel(a, c)
}

/// Whether a relation joins every message to what it answers.
pub open spec fn joins_replies(
    rel: spec_fn(Seq<char>, Seq<char>) -> bool,
    emails: Seq<Email>,
) -> bool {
    forall|i: int, k: int|
        0 <= i < emails.len() && 0 <= k < answered(emails[i]).len() ==> #[trigger] rel(
            token_of(emails, emails[i].id),
            answered(emails[i])[k],
        )
}

/// Whether a relation joins every two messages that share a subject.
pub open spec fn joins_subjects(
    rel: spec_fn(Seq<char>, Seq<char>) -> bool,
    emails: Seq<Email>,
    subjects: Seq<Seq<char>>,
) -> bool {
    forall|i: int, j: int|
        0 <= i < emails.len() && 0 <= j < emails.len() && subjects[i].len() > 0 && subjects[i]
            == subjects[j] ==> #[trigger] rel(
            token_of(emails, emails[i].id),
            token_of(emails, emails[j].id),
        )
}

/// Whether a relation is an equivalence that joins replies and shared subjects.
pub open spec fn threads(
    rel: spec_fn(Seq<char>, Seq<char>) -> bool,
    emails: Seq<Email>,
    subjects: Seq<Seq<char>>,
) -> bool {
    is_equivalence(rel) && joins_replies(rel, emails) && joins_subjects(rel, emails, subjects)
}

/// Whether two tokens are in one thread: the smallest equivalence that joins replies and shared
/// subjects relates them.
pub open spec fn connected(
    emails: Seq<Email>,
    subjects: Seq<Seq<char>>,
    a: Seq<char>,
    b: Seq<char>,
) -> bool {
    forall|rel: spec_fn(Seq<char>, Seq<char>) -> bool| #[trigger]
        threads(rel, emails, subjects) ==> rel(a, b)
}

/// Whether the messages with two ids are in one thread.
pub open spec fn same_thread(
    emails: Seq<Email>,
    subjects: Seq<Seq<char>>,
    a: i64,
    b: i64,
) -> bool {
    connected(emails, subjects, token_of(emails, a), token_of(emails, b))
}

/// Whether some message has an id.
pub open spec fn has_id(emails: Seq<Email>, id: i64) -> bool {
    exists|i: int| 0 <= i < emails.len() && #[trigger] emails[i].id == id
}

/// Whether `c` is the conversation id of the message with an id: the smallest id in its thread.
pub open spec fn is_conversation_id(
    emails: Seq<Email>,
    subjects: Seq<Seq<char>>,
    id: i64,
    c: i64,
) -> bool {
    &&& has_id(emails, c)
    &&& same_thread(emails, subjects, id, c)
    &&& forall|j: int|
        0 <= j < emails.len() && same_thread(emails, subjects, id, (#[trigger] emails[j]).id) ==> c
            <= emails[j].id
}

/// The normalized subjects of some messages.
pub open spec fn subjects_of(emails: Seq<Email>) -> Seq<Seq<char>> {
    Seq::new(emails.len(), |i: int| normalized(emails[i].subject@))
}

/// Whether `groups` maps the id of each message, and nothing else, to its conversation id.
pub open spec fn is_grouping(
    emails: Seq<Email>,
    subjects: Seq<Seq<char>>,
    groups: Map<i64, i64>,
) -> bool {
    &&& forall|id: i64| #[trigger] groups.contains_key(id) <==> has_id(emails, id)
    &&& forall|id: i64| #[trigger]
        groups.contains_key(id) ==> is_conversation_id(emails, subjects, id, groups[id])
}

/// To be connected is an equivalence.
pub proof fn connected_is_equivalence(emails: Seq<Email>, subjects: Seq<Seq<char>>)
    ensures
        forall|a: Seq<char>| #[trigger] connected(emails, subjects, a, a),
        forall|a: Seq<char>, b: Seq<char>| #[trigger]
            connected(emails, subjects, a, b) ==> connected(emails, subjects, b, a),
        forall|a: Seq<char>, b: Seq<char>, c: Seq<char>| #[trigger]
            connected(emails, subjects, a, b) && #[trigger] connected(emails, subjects, b, c)
                ==> connected(emails, subjects, a, c),
{
}

/// Two messages have one conversation id if and only if they are in one thread, and a
/// conversation is named after a message that belongs to it.
pub proof fn conversation_ids_tell_threads(
    emails: Seq<Email>,
    subjects: Seq<Seq<char>>,
    groups: Map<i64, i64>,
    a: i64,
    b: i64,
)
    requires
        is_grouping(emails, subjects, groups),
        has_id(emails, a),
        has_id(emails, b),
    ensures
        groups[a] == groups[b] <==> same_thread(emails, subjects, a, b),
        groups[a] <= a,
        groups.contains_key(groups[a]),
        groups[groups[a]] == groups[a],
{
    connected_is_equivalence(emails, subjects);
    assert(groups.contains_key(a) && groups.contains_key(b));
    let ca = groups[a];
    let cb = groups[b];
    assert(groups.contains_key(ca));
    let cca = groups[ca];
    let ia = choose|i: int| 0 <= i < emails.len() && #[trigger] emails[i].id == a;
    let ica = choose|i: int| 0 <= i < emails.len() && #[trigger] emails[i].id == ca;
    let icb = choose|i: int| 0 <= i < emails.len() && #[trigger] emails[i].id == cb;
    let icca = choose|i: int| 0 <= i < emails.len() && #[trigger] emails[i].id == cca;
    assert(emails[ia].id == a && emails[ica].id == ca && emails[icb].id == cb && emails[icca].id
        == cca);
    assert(connected(emails, subjects, token_of(emails, a), token_of(emails, ca)));
    assert(connected(emails, subjects, token_of(emails, b), token_of(emails, cb)));
    assert(connected(emails, subjects, token_of(emails, ca), token_of(emails, cca)));
    assert(connected(emails, subjects, token_of(emails, cb), token_of(emails, b)));
    if same_thread(emails, subjects, a, b) {
        assert(connected(emails, subjects, token_of(emails, b), token_of(emails, a)));
        assert(connected(emails, subjects, token_of(emails, b), token_of(emails, ca)));
        assert(connected(emails, subjects, token_of(emails, a), token_of(emails, cb)));
    }
}

/// A property that replies and shared subjects carry over is one that conversations carry over:
/// messages that nothing connects are in different ones.
pub proof fn unconnected_messages_stay_apart(
    emails: Seq<Email>,
    groups: Map<i64, i64>,
    class: spec_fn(Seq<char>) -> bool,
    a: i64,
    b: i64,
)
    requires
        is_grouping(emails, subjects_of(emails), groups),
        has_id(emails, a),
        has_id(emails, b),
        forall|i: int, k: int|
            0 <= i < emails.len() && 0 <= k < answered(emails[i]).len() ==> class(
                token_of(emails, emails[i].id),
            ) == class(#[trigger] answered(emails[i])[k]),
        forall|i: int, j: int|
            0 <= i < emails.len() && 0 <= j < emails.len() && normalized(
                (#[trigger] emails[i]).subject@,
            ).len() > 0 && normalized(emails[i].subject@) == normalized(
                (#[trigger] emails[j]).subject@,
            ) ==> class(token_of(emails, emails[i].id)) == class(token_of(emails, emails[j].id)),
        class(token_of(emails, a)) != class(token_of(emails, b)),
    ensures
        groups[a] != groups[b],
{
    let subjects = subjects_of(emails);
    conversation_ids_tell_threads(emails, subjects, groups, a, b);
    let rel = |x: Seq<char>, y: Seq<char>| class(x) == class(y);
    assert(is_equivalence(rel));
    assert(joins_replies(rel, emails)) by {
        assert forall|i: int, k: int|
            0 <= i < emails.len() && 0 <= k < answered(emails[i]).len() implies #[trigger] rel(
            token_of(emails, emails[i].id),
            answered(emails[i])[k],
        ) by {
            assert(class(token_of(emails, emails[i].id)) == class(answered(emails[i])[k]));
        }
    }
    assert(joins_subjects(rel, emails, subjects)) by {
        assert forall|i: int, j: int|
            0 <= i < emails.len() && 0 <= j < emails.len() && subjects[i].len() > 0 && subjects[i]
                == subjects[j] implies #[trigger] rel(
            token_of(emails, emails[i].id),
            token_of(emails, emails[j].id),
        ) by {
            assert(subjects[i] == normalized(emails[i].subject@));
            assert(subjects[j] == normalized(emails[j].subject@));
        }
    }
    assert(threads(rel, emails, subjects));
    assert(!rel(token_of(emails, a), token_of(emails, b)));
}

/// Whether no two messages have one id.
pub open spec fn ids_differ(emails: Seq<Email>) -> bool {
    forall|i: int, j: int|
        0 <= i < j < emails.len() ==> (#[trigger] emails[i]).id != (#[trigger] emails[j]).id
}

proof fn token_of_one(emails: Seq<Email>, i: int)
    requires
        ids_differ(emails),
        0 <= i < emails.len(),
    ensures
        token_of(emails, emails[i].id) == token(emails[i]),
        has_id(emails, emails[i].id),
    decreases emails.len(),
{
    let rest = emails.drop_last();
    if i < rest.len() {
        assert(emails[i].id != emails[emails.len() - 1].id);
        assert(rest[i] == emails[i]);
        assert forall|x: int, y: int| 0 <= x < y < rest.len() implies (#[trigger] rest[x]).id != (
        #[trigger] rest[y]).id by {
            assert(rest[x] == emails[x] && rest[y] == emails[y]);
        }
        token_of_one(rest, i);
    }
}

/// Messages without a Message-ID are never taken for one another.
pub proof fn messages_without_an_id_differ(a: Email, b: Email)
    requires
        text::trim(a.message_id@).len() == 0,
        text::trim(b.message_id@).len() == 0,
        a.id != b.id,
    ensures
        token(a) != token(b),
{
    let x = text::signed_decimal(a.id as int);
    let y = text::signed_decimal(b.id as int);
    text::numbers_read_back(0, 0, a.id as int, b.id as int);
    let p = "eid:"@;
    if p + x == p + y {
        assert((p + x).skip(p.len() as int) =~= x);
        assert((p + y).skip(p.len() as int) =~= y);
    }
}

/// Whether a subject is matched by the whole of it.
pub open spec fn is_unmarked(subject: Seq<char>) -> bool {
    text::trim(subject) == subject && !is_stand_in(subject) && !starts_marked(subject)
}

/// A message stands alone that answers nothing, that nothing answers, and whose subject, which no
/// mark precedes, is that of no other message in lower case.
pub proof fn lone_messages_stand_alone(emails: Seq<Email>, groups: Map<i64, i64>, a: int)
    requires
        is_grouping(emails, subjects_of(emails), groups),
        ids_differ(emails),
        0 <= a < emails.len(),
        text::trim(emails[a].in_reply_to@).len() == 0,
        text::words(emails[a].references@).len() == 0,
        is_unmarked(emails[a].subject@),
        forall|j: int|
            0 <= j < emails.len() && j != a ==> {
                &&& is_unmarked((#[trigger] emails[j]).subject@)
                &&& text::lowercase(emails[j].subject@) != text::lowercase(emails[a].subject@)
                &&& token(emails[j]) != token(emails[a])
                &&& text::trim(emails[j].in_reply_to@) != token(emails[a])
                &&& !text::words(emails[j].references@).contains(token(emails[a]))
            },
    ensures
        groups[emails[a].id] == emails[a].id,
        forall|b: int|
            0 <= b < emails.len() && b != a ==> groups[(#[trigger] emails[b]).id]
                != groups[emails[a].id],
{
    let own = token(emails[a]);
    let class = |t: Seq<char>| t == own;
    assert forall|i: int| 0 <= i < emails.len() implies token_of(emails, (#[trigger] emails[i]).id)
        == token(emails[i]) && has_id(emails, emails[i].id) by {
        token_of_one(emails, i);
    }
    assert forall|i: int, k: int|
        0 <= i < emails.len() && 0 <= k < answered(emails[i]).len() implies class(
        token_of(emails, emails[i].id),
    ) == class(#[trigger] answered(emails[i])[k]) by {
        assert(token_of(emails, emails[i].id) == token(emails[i]));
        let parent = text::trim(emails[i].in_reply_to@);
        let named = text::words(emails[i].references@);
        assert(i != a);
        if parent.len() > 0 {
            if k > 0 {
                assert(answered(emails[i])[k] == named[k - 1]);
                assert(named.contains(named[k - 1]));
            }
        } else {
            assert(named.contains(named[k]));
        }
    }
    assert forall|i: int, j: int|
        0 <= i < emails.len() && 0 <= j < emails.len() && normalized(
            (#[trigger] emails[i]).subject@,
        ).len() > 0 && normalized(emails[i].subject@) == normalized(
            (#[trigger] emails[j]).subject@,
        ) implies class(token_of(emails, emails[i].id)) == class(
        token_of(emails, emails[j].id),
    ) by {
        unmarked_subjects_are_matched_whole(emails[i].subject@);
        unmarked_subjects_are_matched_whole(emails[j].subject@);
        assert(token_of(emails, emails[i].id) == token(emails[i]));
        assert(token_of(emails, emails[j].id) == token(emails[j]));
    }
    assert forall|b: int| 0 <= b < emails.len() && b != a implies groups[(#[trigger] emails[b]).id]
        != groups[emails[a].id] by {
        assert(token_of(emails, emails[b].id) == token(emails[b]));
        assert(token_of(emails, emails[a].id) == token(emails[a]));
        unconnected_messages_stay_apart(emails, groups, class, emails[a].id, emails[b].id);
    }
    let id = emails[a].id;
    assert(has_id(emails, id));
    conversation_ids_tell_threads(emails, subjects_of(emails), groups, id, id);
    let c = groups[id];
    assert(has_id(emails, c));
    let k = choose|k: int| 0 <= k < emails.len() && #[trigger] emails[k].id == c;
    assert(groups[emails[k].id] == c);
}

/// Whether a message names the Message-ID of what it answers, as its parent or an ancestor.
pub open spec fn names(mail: Email, message_id: Seq<char>) -> bool {
    message_id.len() > 0 && (text::trim(mail.in_reply_to@) == message_id || text::words(
        mail.references@,
    ).contains(message_id))
}

proof fn named_is_answered(mail: Email, message_id: Seq<char>) -> (k: int)
    requires
        names(mail, message_id),
    ensures
        0 <= k < answered(mail).len(),
        answered(mail)[k] == message_id,
{
    let parent = text::trim(mail.in_reply_to@);
    let named = text::words(mail.references@);
    if parent == message_id {
        0
    } else {
        let i = choose|i: int| 0 <= i < named.len() && named[i] == message_id;
        if parent.len() > 0 {
            i + 1
        } else {
            i
        }
    }
}

/// An answer is in the conversation of what it answers, and all that answer one message are in one
/// conversation, whether or not that message is there.
pub proof fn answers_share_a_conversation(
    emails: Seq<Email>,
    groups: Map<i64, i64>,
    i: int,
    j: int,
    message_id: Seq<char>,
)
    requires
        is_grouping(emails, subjects_of(emails), groups),
        ids_differ(emails),
        0 <= i < emails.len(),
        0 <= j < emails.len(),
        names(emails[i], message_id),
        names(emails[j], message_id) || text::trim(emails[j].message_id@) == message_id,
    ensures
        groups[emails[i].id] == groups[emails[j].id],
{
    let subjects = subjects_of(emails);
    token_of_one(emails, i);
    token_of_one(emails, j);
    let x = token_of(emails, emails[i].id);
    let y = token_of(emails, emails[j].id);
    let ki = named_is_answered(emails[i], message_id);
    assert forall|rel: spec_fn(Seq<char>, Seq<char>) -> bool| #[trigger]
        threads(rel, emails, subjects) implies rel(x, y) by {
        assert(rel(x, answered(emails[i])[ki]));
        if names(emails[j], message_id) {
            let kj = named_is_answered(emails[j], message_id);
            assert(rel(y, answered(emails[j])[kj]));
            assert(rel(message_id, y));
        }
    }
    assert(connected(emails, subjects, x, y));
    conversation_ids_tell_threads(emails, subjects, groups, emails[i].id, emails[j].id);
}

/// Messages whose subjects match, if there is anything to match, are in one conversation.
pub proof fn subjects_share_a_conversation(
    emails: Seq<Email>,
    groups: Map<i64, i64>,
    i: int,
    j: int,
)
    requires
        is_grouping(emails, subjects_of(emails), groups),
        ids_differ(emails),
        0 <= i < emails.len(),
        0 <= j < emails.len(),
        is_unmarked(emails[i].subject@),
        is_unmarked(emails[j].subject@),
        text::lowercase(emails[i].subject@) == text::lowercase(emails[j].subject@),
        text::lowercase(emails[i].subject@).len() > 0,
    ensures
        groups[emails[i].id] == groups[emails[j].id],
{
    let subjects = subjects_of(emails);
    token_of_one(emails, i);
    token_of_one(emails, j);
    unmarked_subjects_are_matched_whole(emails[i].subject@);
    unmarked_subjects_are_matched_whole(emails[j].subject@);
    let x = token_of(emails, emails[i].id);
    let y = token_of(emails, emails[j].id);
    assert(subjects[i] == subjects[j]);
    assert forall|rel: spec_fn(Seq<char>, Seq<char>) -> bool| #[trigger]
        threads(rel, emails, subjects) implies rel(x, y) by {
        assert(rel(token_of(emails, emails[i].id), token_of(emails, emails[j].id)));
    }
    assert(connected(emails, subjects, x, y));
    conversation_ids_tell_threads(emails, subjects, groups, emails[i].id, emails[j].id);
}

// --- a partition of tokens ------------------------------------------------

/// A partition of texts: a text that it does not hold is in a block of its own.
pub struct Partition {
    index: StringHashMap<usize>,
    forest: Forest,
    names: Ghost<Seq<Seq<char>>>,
}

impl Partition {
    /// Whether texts and numbers correspond one to one.
    pub closed spec fn wf(&self) -> bool {
        &&& self.forest.wf()
        &&& self.names@.len() == self.forest.size()
        &&& forall|t: Seq<char>| #[trigger]
            self.index@.contains_key(t) ==> self.index@[t] < self.names@.len()
                && self.names@[self.index@[t] as int] == t
        &&& forall|i: int|
            0 <= i < self.names@.len() ==> self.index@.contains_key(#[trigger] self.names@[i])
                && self.index@[self.names@[i]] == i
    }

    /// Whether a text is held.
    pub closed spec fn holds(&self, t: Seq<char>) -> bool {
        self.index@.contains_key(t)
    }

    /// The number that stands for the block of a text that is held.
    pub closed spec fn block(&self, t: Seq<char>) -> int {
        forest::root_of(self.forest.parents@, self.index@[t] as int)
    }

    /// Whether two texts are in one block.
    pub open spec fn joined(&self, a: Seq<char>, b: Seq<char>) -> bool {
        a == b || (self.holds(a) && self.holds(b) && self.block(a) == self.block(b))
    }

    /// How many texts are held.
    pub closed spec fn size(&self) -> nat {
        self.forest.size()
    }

    /// The partition that holds no text.
    pub fn new() -> (r: Partition)
        ensures
            r.wf(),
            forall|t: Seq<char>| !r.holds(t),
    {
        Partition {
            index: StringHashMap::new(),
            forest: Forest::new(),
            names: Ghost(Seq::empty()),
        }
    }

    /// The number of a text, which is held from then on.
    fn intern(&mut self, t: &str) -> (i: usize)
        requires
            old(self).wf(),
        ensures
            final(self).wf(),
            final(self).index@.contains_key(t@),
            final(self).index@[t@] == i,
            forall|a: Seq<char>| #[trigger]
                old(self).index@.contains_key(a) ==> final(self).index@[a] == old(self).index@[a],
            forall|a: Seq<char>|
                final(self).holds(a) <==> (old(self).holds(a) || a == t@),
            forall|a: Seq<char>, b: Seq<char>|
                final(self).joined(a, b) == old(self).joined(a, b),
    {
        if let Some(i) = self.index.get(t) {
            return *i;
        }
        let ghost before = *self;
        let i: usize = self.forest.add_one();
        self.index.insert(t.to_owned(), i);
        proof {
            self.names@ = self.names@.push(t@);
            assert forall|a: Seq<char>, b: Seq<char>| self.joined(a, b) == before.joined(a, b) by {
                if before.holds(a) && before.holds(b) {
                    assert(self.forest.same(
                        before.index@[a] as int,
                        before.index@[b] as int,
                    ) == before.forest.same(before.index@[a] as int, before.index@[b] as int));
                } else if before.holds(a) && b == t@ {
                    assert(!self.forest.same(before.index@[a] as int, i as int));
                } else if before.holds(b) && a == t@ {
                    assert(!self.forest.same(before.index@[b] as int, i as int));
                }
            }
            assert forall|j: int| 0 <= j < self.names@.len() implies self.index@.contains_key(
                #[trigger] self.names@[j],
            ) && self.index@[self.names@[j]] == j by {
                if j < before.names@.len() {
                    assert(self.names@[j] == before.names@[j]);
                }
            }
        }
        i
    }

    /// Holds a text.
    pub fn hold(&mut self, t: &str)
        requires
            old(self).wf(),
        ensures
            final(self).wf(),
            forall|a: Seq<char>| final(self).holds(a) <==> (old(self).holds(a) || a == t@),
            forall|a: Seq<char>, b: Seq<char>|
                final(self).joined(a, b) == old(self).joined(a, b),
    {
        let _ = self.intern(t);
    }

    /// Merges the blocks of two texts.
    pub fn join(&mut self, left: &str, right: &str)
        requires
            old(self).wf(),
        ensures
            final(self).wf(),
            forall|a: Seq<char>|
                final(self).holds(a) <==> (old(self).holds(a) || a == left@ || a == right@),
            forall|a: Seq<char>, b: Seq<char>|
                final(self).joined(a, b) == (old(self).joined(a, b) || (old(self).joined(a, left@)
                    && old(self).joined(b, right@)) || (old(self).joined(a, right@) && old(
                    self,
                ).joined(b, left@))),
    {
        let l: usize = self.intern(left);
        let ghost first = *self;
        let r: usize = self.intern(right);
        let ghost mid = *self;
        assert(first.holds(left@) && mid.holds(left@));
        assert(mid.index@[left@] == l) by {
            assert(first.index@.contains_key(left@));
        }
        self.forest.union(l, r);
        proof {
            assert forall|a: Seq<char>, b: Seq<char>| self.joined(a, b) == (mid.joined(a, b) || (
            mid.joined(a, left@) && mid.joined(b, right@)) || (mid.joined(a, right@) && mid.joined(
                b,
                left@,
            ))) by {
                if mid.holds(a) && mid.holds(b) {
                    assert(self.forest.same(mid.index@[a] as int, mid.index@[b] as int) == (
                    mid.forest.same(mid.index@[a] as int, mid.index@[b] as int) || (mid.forest.same(
                        mid.index@[a] as int,
                        l as int,
                    ) && mid.forest.same(mid.index@[b] as int, r as int)) || (mid.forest.same(
                        mid.index@[a] as int,
                        r as int,
                    ) && mid.forest.same(mid.index@[b] as int, l as int))));
                }
            }
        }
    }

    /// The number that stands for the block of a text that is held.
    pub fn block_of(&mut self, t: &str) -> (r: usize)
        requires
            old(self).wf(),
            old(self).holds(t@),
        ensures
            final(self).wf(),
            r == old(self).block(t@),
            r < old(self).size(),
            final(self).size() == old(self).size(),
            forall|a: Seq<char>| final(self).holds(a) == old(self).holds(a),
            forall|a: Seq<char>| final(self).block(a) == old(self).block(a),
    {
        match self.index.get(t) {
            Some(i) => {
                let at: usize = *i;
                self.forest.find(at)
            },
            None => 0,
        }
    }

    /// How many texts are held.
    pub fn len(&self) -> (r: usize)
        ensures
            r == self.size(),
    {
        self.forest.parents.len()
    }
}

// --- grouping -------------------------------------------------------------

/// The token of a message.
fn token_text(mail: &Email) -> (r: String)
    ensures
        r@ == token(*mail),
{
    let trimmed = text::trim_str(&mail.message_id);
    if trimmed.as_str().is_empty() {
        let mut out: Vec<char> = Vec::new();
        text::extend_str(&mut out, "eid:");
        text::extend(&mut out, &text::to_signed_decimal(mail.id));
        text::text_of(&out)
    } else {
        trimmed
    }
}

/// The Message-IDs that a message answers.
fn answered_texts(mail: &Email) -> (r: Vec<String>)
    ensures
        text::texts(r@) == answered(*mail),
{
    let mut out: Vec<String> = Vec::new();
    let parent = text::trim_str(&mail.in_reply_to);
    if !parent.as_str().is_empty() {
        out.push(parent);
    }
    let words = text::split_words(&text::chars_of(&mail.references));
    let ghost head = text::texts(out@);
    let mut i: usize = 0;
    while i < words.len()
        invariant
            i <= words.len(),
            text::texts(out@) =~= head + text::char_texts(words@).take(i as int),
        decreases words.len() - i,
    {
        let ghost before = out@;
        out.push(text::text_of(&words[i]));
        proof {
            assert(text::texts(out@) =~= text::texts(before).push(words@[i as int]@));
            assert(text::char_texts(words@).take(i + 1) =~= text::char_texts(words@).take(
                i as int,
            ).push(words@[i as int]@));
        }
        i = i + 1;
    }
    assert(text::char_texts(words@).take(i as int) =~= text::char_texts(words@));
    out
}

/// The token that a message goes by: that of the last message with its id.
fn token_texts(emails: &[Email]) -> (r: Vec<String>)
    ensures
        r.len() == emails.len(),
        forall|i: int| 0 <= i < r.len() ==> (#[trigger] r@[i])@ == token_of(emails@, emails@[i].id),
{
    let mut last: HashMap<i64, usize> = HashMap::new();
    let mut i: usize = 0;
    while i < emails.len()
        invariant
            i <= emails.len(),
            forall|id: i64| #[trigger]
                last@.contains_key(id) ==> last@[id] < i && token(emails@[last@[id] as int])
                    == token_of(emails@.take(i as int), id),
            forall|k: int| 0 <= k < i ==> last@.contains_key((#[trigger] emails@[k]).id),
        decreases emails.len() - i,
    {
        proof {
            assert(emails@.take(i + 1).drop_last() =~= emails@.take(i as int));
            assert(emails@.take(i + 1).last() == emails@[i as int]);
        }
        last.insert(emails[i].id, i);
        i = i + 1;
    }
    assert(emails@.take(i as int) =~= emails@);
    let mut out: Vec<String> = Vec::new();
    let mut k: usize = 0;
    while k < emails.len()
        invariant
            k <= emails.len(),
            out.len() == k,
            forall|id: i64| #[trigger]
                last@.contains_key(id) ==> last@[id] < emails.len() && token(
                    emails@[last@[id] as int],
                ) == token_of(emails@, id),
            forall|j: int|
                0 <= j < emails.len() ==> last@.contains_key((#[trigger] emails@[j]).id),
            forall|j: int|
                0 <= j < k ==> (#[trigger] out@[j])@ == token_of(emails@, emails@[j].id),
        decreases emails.len() - k,
    {
        let id: i64 = emails[k].id;
        assert(last@.contains_key(emails@[k as int].id));
        match last.get(&id) {
            Some(at) => {
                out.push(token_text(&emails[*at]));
            },
            None => {
                out.push(String::new());
            },
        }
        k = k + 1;
    }
    out
}

/// What holds of a partition while links are added to it: it is no coarser than the threads.
spec fn within(part: Partition, emails: Seq<Email>, subjects: Seq<Seq<char>>) -> bool {
    forall|a: Seq<char>, b: Seq<char>| #[trigger]
        part.joined(a, b) ==> connected(emails, subjects, a, b)
}

/// Whether the partition joins the first `n` messages to what they answer.
spec fn replies_joined(part: Partition, emails: Seq<Email>, n: int) -> bool {
    forall|i: int, k: int|
        0 <= i < n && 0 <= k < answered(emails[i]).len() ==> #[trigger] part.joined(
            token_of(emails, emails[i].id),
            answered(emails[i])[k],
        )
}

/// Whether the partition holds the tokens of all messages.
spec fn tokens_held(part: Partition, emails: Seq<Email>) -> bool {
    forall|i: int| 0 <= i < emails.len() ==> part.holds(token_of(emails, (#[trigger] emails[i]).id))
}

/// Joining two connected tokens keeps a partition within the threads.
proof fn join_stays_within(
    before: Partition,
    after: Partition,
    emails: Seq<Email>,
    subjects: Seq<Seq<char>>,
    left: Seq<char>,
    right: Seq<char>,
)
    requires
        within(before, emails, subjects),
        connected(emails, subjects, left, right),
        forall|a: Seq<char>, b: Seq<char>|
            after.joined(a, b) == (before.joined(a, b) || (before.joined(a, left)
                && before.joined(b, right)) || (before.joined(a, right) && before.joined(b, left))),
    ensures
        within(after, emails, subjects),
{
    connected_is_equivalence(emails, subjects);
    assert forall|a: Seq<char>, b: Seq<char>| #[trigger] after.joined(a, b) implies connected(
        emails,
        subjects,
        a,
        b,
    ) by {
        if before.joined(a, left) && before.joined(b, right) {
            assert(connected(emails, subjects, a, left));
            assert(connected(emails, subjects, b, right));
            assert(connected(emails, subjects, right, b));
            assert(connected(emails, subjects, a, right));
        } else if before.joined(a, right) && before.joined(b, left) {
            assert(connected(emails, subjects, a, right));
            assert(connected(emails, subjects, b, left));
            assert(connected(emails, subjects, left, b));
            assert(connected(emails, subjects, right, left));
            assert(connected(emails, subjects, a, left));
        }
    }
}

/// Reference links: joins each message to its parent and ancestors.
fn join_replies(emails: &[Email], tokens: &[String], subjects: Ghost<Seq<Seq<char>>>) -> (part:
    Partition)
    requires
        tokens.len() == emails.len(),
        forall|i: int|
            0 <= i < tokens.len() ==> (#[trigger] tokens@[i])@ == token_of(
                emails@,
                emails@[i].id,
            ),
    ensures
        part.wf(),
        within(part, emails@, subjects@),
        replies_joined(part, emails@, emails@.len() as int),
        tokens_held(part, emails@),
{
    let mut part = Partition::new();
    proof {
        connected_is_equivalence(emails@, subjects@);
    }
    let mut i: usize = 0;
    while i < emails.len()
        invariant
            i <= emails.len(),
            tokens.len() == emails.len(),
            forall|j: int|
                0 <= j < tokens.len() ==> (#[trigger] tokens@[j])@ == token_of(
                    emails@,
                    emails@[j].id,
                ),
            part.wf(),
            within(part, emails@, subjects@),
            replies_joined(part, emails@, i as int),
            forall|j: int|
                0 <= j < i ==> part.holds(token_of(emails@, (#[trigger] emails@[j]).id)),
        decreases emails.len() - i,
    {
        let links = answered_texts(&emails[i]);
        part.hold(&tokens[i]);
        assert(tokens@[i as int]@ == token_of(emails@, emails@[i as int].id));
        let mut k: usize = 0;
        while k < links.len()
            invariant
                k <= links.len(),
                i < emails.len(),
                tokens.len() == emails.len(),
                tokens@[i as int]@ == token_of(emails@, emails@[i as int].id),
                text::texts(links@) == answered(emails@[i as int]),
                part.wf(),
                within(part, emails@, subjects@),
                replies_joined(part, emails@, i as int),
                forall|j: int|
                    0 <= j <= i ==> part.holds(token_of(emails@, (#[trigger] emails@[j]).id)),
                forall|j: int|
                    0 <= j < k ==> #[trigger] part.joined(
                        token_of(emails@, emails@[i as int].id),
                        answered(emails@[i as int])[j],
                    ),
            decreases links.len() - k,
        {
            let ghost before = part;
            let ghost left = tokens@[i as int]@;
            let ghost right = links@[k as int]@;
            part.join(&tokens[i], &links[k]);
            proof {
                assert(right == answered(emails@[i as int])[k as int]);
                assert(connected(emails@, subjects@, left, right));
                join_stays_within(before, part, emails@, subjects@, left, right);
            }
            k = k + 1;
        }
        i = i + 1;
    }
    part
}

/// Fallback: joins messages that share a normalized subject.
fn join_subjects(part: &mut Partition, emails: &[Email], tokens: &[String], subjects: &[String])
    requires
        old(part).wf(),
        within(*old(part), emails@, text::texts(subjects@)),
        replies_joined(*old(part), emails@, emails@.len() as int),
        tokens_held(*old(part), emails@),
        tokens.len() == emails.len(),
        subjects.len() == emails.len(),
        forall|i: int|
            0 <= i < tokens.len() ==> (#[trigger] tokens@[i])@ == token_of(
                emails@,
                emails@[i].id,
            ),
    ensures
        final(part).wf(),
        within(*final(part), emails@, text::texts(subjects@)),
        tokens_held(*final(part), emails@),
        replies_joined(*final(part), emails@, emails@.len() as int),
        forall|i: int, j: int|
            0 <= i < emails@.len() && 0 <= j < emails@.len() && subjects@[i]@.len() > 0
                && subjects@[i]@ == subjects@[j]@ ==> #[trigger] final(part).joined(
                token_of(emails@, emails@[i].id),
                token_of(emails@, emails@[j].id),
            ),
{
    let mut first: StringHashMap<usize> = StringHashMap::new();
    let ghost views = text::texts(subjects@);
    let mut i: usize = 0;
    while i < emails.len()
        invariant
            i <= emails.len(),
            tokens.len() == emails.len(),
            subjects.len() == emails.len(),
            views == text::texts(subjects@),
            forall|j: int|
                0 <= j < tokens.len() ==> (#[trigger] tokens@[j])@ == token_of(
                    emails@,
                    emails@[j].id,
                ),
            part.wf(),
            within(*part, emails@, views),
            tokens_held(*part, emails@),
            replies_joined(*part, emails@, emails@.len() as int),
            forall|s: Seq<char>| #[trigger]
                first@.contains_key(s) ==> first@[s] < i && views[first@[s] as int] == s
                    && s.len() > 0,
            forall|j: int|
                0 <= j < i && views[j].len() > 0 ==> first@.contains_key(#[trigger] views[j])
                    && part.joined(
                    token_of(emails@, emails@[first@[views[j]] as int].id),
                    token_of(emails@, emails@[j].id),
                ),
        decreases emails.len() - i,
    {
        let subject = &subjects[i];
        assert(views[i as int] == subject@);
        if !subject.as_str().is_empty() {
            let known: Option<usize> = match first.get(subject) {
                Some(at) => Some(*at),
                None => None,
            };
            match known {
                Some(at) => {
                    let ghost before = *part;
                    let ghost left = tokens@[i as int]@;
                    let ghost right = tokens@[at as int]@;
                    part.join(&tokens[i], &tokens[at]);
                    proof {
                        assert(views[at as int] == views[i as int]);
                        assert forall|rel: spec_fn(Seq<char>, Seq<char>) -> bool| #[trigger]
                            threads(rel, emails@, views) implies rel(left, right) by {
                            assert(rel(
                                token_of(emails@, emails@[i as int].id),
                                token_of(emails@, emails@[at as int].id),
                            ));
                        }
                        assert(connected(emails@, views, left, right));
                        join_stays_within(before, *part, emails@, views, left, right);
                    }
                },
                None => {
                    first.insert(subject.clone(), i);
                },
            }
        }
        i = i + 1;
    }
    proof {
        assert forall|a: int, b: int|
            0 <= a < emails@.len() && 0 <= b < emails@.len() && subjects@[a]@.len() > 0
                && subjects@[a]@ == subjects@[b]@ implies #[trigger] part.joined(
            token_of(emails@, emails@[a].id),
            token_of(emails@, emails@[b].id),
        ) by {
            assert(views[a] == subjects@[a]@ && views[b] == subjects@[b]@);
            assert(first@.contains_key(views[a]) && first@.contains_key(views[b]));
            let f = first@[views[a]] as int;
            assert(part.joined(token_of(emails@, emails@[f].id), token_of(emails@, emails@[a].id)));
            assert(part.joined(token_of(emails@, emails@[f].id), token_of(emails@, emails@[b].id)));
        }
    }
}

/// A partition that joins replies and subjects relates whatever is connected.
proof fn connected_is_joined(
    part: Partition,
    emails: Seq<Email>,
    subjects: Seq<Seq<char>>,
    a: Seq<char>,
    b: Seq<char>,
)
    requires
        replies_joined(part, emails, emails.len() as int),
        forall|i: int, j: int|
            0 <= i < emails.len() && 0 <= j < emails.len() && subjects[i].len() > 0 && subjects[i]
                == subjects[j] ==> #[trigger] part.joined(
                token_of(emails, emails[i].id),
                token_of(emails, emails[j].id),
            ),
        connected(emails, subjects, a, b),
    ensures
        part.joined(a, b),
{
    let rel = |x: Seq<char>, y: Seq<char>| part.joined(x, y);
    assert(is_equivalence(rel));
    assert(joins_replies(rel, emails)) by {
        assert forall|i: int, k: int|
            0 <= i < emails.len() && 0 <= k < answered(emails[i]).len() implies #[trigger] rel(
            token_of(emails, emails[i].id),
            answered(emails[i])[k],
        ) by {
            assert(part.joined(token_of(emails, emails[i].id), answered(emails[i])[k]));
        }
    }
    assert(joins_subjects(rel, emails, subjects)) by {
        assert forall|i: int, j: int|
            0 <= i < emails.len() && 0 <= j < emails.len() && subjects[i].len() > 0 && subjects[i]
                == subjects[j] implies #[trigger] rel(
            token_of(emails, emails[i].id),
            token_of(emails, emails[j].id),
        ) by {
            assert(part.joined(token_of(emails, emails[i].id), token_of(emails, emails[j].id)));
        }
    }
    assert(threads(rel, emails, subjects));
    assert(rel(a, b));
}

/// Maps the id of each message to its conversation id, given the normalized subjects.
pub fn group_by_subjects(emails: &[Email], subjects: &[String]) -> (groups: HashMap<i64, i64>)
    requires
        subjects.len() == emails.len(),
    ensures
        is_grouping(emails@, text::texts(subjects@), groups@),
{
    let ghost views = text::texts(subjects@);
    let tokens = token_texts(emails);
    let mut part = join_replies(emails, &tokens, Ghost(views));
    join_subjects(&mut part, emails, &tokens, subjects);
    let ghost settled = part;
    proof {
        assert forall|i: int, j: int|
            0 <= i < emails@.len() && 0 <= j < emails@.len() && views[i].len() > 0 && views[i]
                == views[j] implies #[trigger] settled.joined(
            token_of(emails@, emails@[i].id),
            token_of(emails@, emails@[j].id),
        ) by {
            assert(subjects@[i]@ == views[i] && subjects@[j]@ == views[j]);
        }
        assert forall|i: int, j: int|
            0 <= i < emails@.len() && 0 <= j < emails@.len() implies (settled.block(
            token_of(emails@, (#[trigger] emails@[i]).id),
        ) == settled.block(token_of(emails@, (#[trigger] emails@[j]).id))) == same_thread(
            emails@,
            views,
            emails@[i].id,
            emails@[j].id,
        ) by {
            let a = token_of(emails@, emails@[i].id);
            let b = token_of(emails@, emails@[j].id);
            assert(settled.holds(a) && settled.holds(b));
            if connected(emails@, views, a, b) {
                connected_is_joined(settled, emails@, views, a, b);
            }
            if settled.block(a) == settled.block(b) {
                assert(settled.joined(a, b));
            }
        }
    }
    let n: usize = part.len();
    let mut best: Vec<Option<i64>> = Vec::new();
    let mut blocks: Vec<usize> = Vec::new();
    while best.len() < n
        invariant
            best.len() <= n,
            forall|r: int| 0 <= r < best.len() ==> #[trigger] best@[r] is None,
        decreases n - best.len(),
    {
        best.push(None);
    }
    let mut i: usize = 0;
    while i < emails.len()
        invariant
            i <= emails.len(),
            tokens.len() == emails.len(),
            forall|j: int|
                0 <= j < tokens.len() ==> (#[trigger] tokens@[j])@ == token_of(
                    emails@,
                    emails@[j].id,
                ),
            part.wf(),
            part.size() == n,
            best.len() == n,
            blocks.len() == i,
            tokens_held(settled, emails@),
            forall|a: Seq<char>| part.holds(a) == settled.holds(a),
            forall|a: Seq<char>| part.block(a) == settled.block(a),
            forall|j: int|
                0 <= j < i ==> (#[trigger] blocks@[j]) < n && blocks@[j] == settled.block(
                    token_of(emails@, emails@[j].id),
                ) && best@[blocks@[j] as int] is Some && best@[blocks@[j] as int]->0
                    <= emails@[j].id,
            forall|r: int|
                0 <= r < n && (#[trigger] best@[r]) is Some ==> exists|j: int|
                    0 <= j < i && (#[trigger] blocks@[j]) == r && emails@[j].id == best@[r]->0,
        decreases emails.len() - i,
    {
        assert(emails@[i as int].id == emails@[i as int].id);
        assert(tokens@[i as int]@ == token_of(emails@, emails@[i as int].id));
        let b: usize = part.block_of(&tokens[i]);
        let id: i64 = emails[i].id;
        let ghost best_before = best@;
        let ghost blocks_before = blocks@;
        blocks.push(b);
        match best[b] {
            Some(least) => {
                if id < least {
                    best.set(b, Some(id));
                }
            },
            None => {
                best.set(b, Some(id));
            },
        }
        proof {
            assert forall|r: int| 0 <= r < n && (#[trigger] best@[r]) is Some implies exists|j: int|
                0 <= j < i + 1 && (#[trigger] blocks@[j]) == r && emails@[j].id == best@[r]->0 by {
                if r == b && best@[r] == Some(id) {
                    assert(blocks@[i as int] == r);
                } else {
                    assert(best@[r] == best_before[r]);
                    let j = choose|j: int|
                        0 <= j < i && (#[trigger] blocks_before[j]) == r && emails@[j].id
                            == best_before[r]->0;
                    assert(blocks@[j] == r);
                }
            }
            assert forall|j: int| 0 <= j < i + 1 implies (#[trigger] blocks@[j]) < n && blocks@[j]
                == settled.block(token_of(emails@, emails@[j].id)) && best@[blocks@[j] as int] is Some
                && best@[blocks@[j] as int]->0 <= emails@[j].id by {
                if j < i {
                    assert(blocks@[j] == blocks_before[j]);
                }
            }
        }
        i = i + 1;
    }
    let mut groups: HashMap<i64, i64> = HashMap::new();
    let mut k: usize = 0;
    while k < emails.len()
        invariant
            k <= emails.len(),
            best.len() == n,
            blocks.len() == emails.len(),
            forall|j: int|
                0 <= j < emails.len() ==> (#[trigger] blocks@[j]) < n
                    && best@[blocks@[j] as int] is Some,
            forall|a: int, b: int|
                0 <= a < emails@.len() && 0 <= b < emails@.len() && emails@[a].id == emails@[b].id
                    ==> #[trigger] blocks@[a] == #[trigger] blocks@[b],
            forall|id: i64| #[trigger]
                groups@.contains_key(id) ==> exists|j: int|
                    0 <= j < k && (#[trigger] emails@[j]).id == id,
            forall|j: int|
                0 <= j < k ==> groups@.contains_key((#[trigger] emails@[j]).id)
                    && groups@[emails@[j].id] == best@[blocks@[j] as int]->0,
        decreases emails.len() - k,
    {
        let id: i64 = emails[k].id;
        assert(blocks@[k as int] < n);
        let ghost before = groups@;
        match best[blocks[k]] {
            Some(least) => {
                groups.insert(id, least);
            },
            None => {},
        }
        proof {
            assert forall|x: i64| #[trigger] groups@.contains_key(x) implies exists|j: int|
                0 <= j < k + 1 && (#[trigger] emails@[j]).id == x by {
                if x == id {
                    assert(emails@[k as int].id == x);
                } else {
                    assert(before.contains_key(x));
                }
            }
            assert forall|j: int| 0 <= j < k + 1 implies groups@.contains_key(
                (#[trigger] emails@[j]).id,
            ) && groups@[emails@[j].id] == best@[blocks@[j] as int]->0 by {
                if emails@[j].id == id {
                    assert(blocks@[j] == blocks@[k as int]);
                } else {
                    assert(before.contains_key(emails@[j].id));
                }
            }
        }
        k = k + 1;
    }
    proof {
        assert forall|id: i64| #[trigger] groups@.contains_key(id) implies is_conversation_id(
            emails@,
            views,
            id,
            groups@[id],
        ) by {
            let j = choose|j: int| 0 <= j < emails@.len() && (#[trigger] emails@[j]).id == id;
            let c = groups@[id];
            assert(blocks@[j] < n);
            let r = blocks@[j] as int;
            assert(best@[r] == Some(c));
            let w = choose|w: int|
                0 <= w < emails@.len() && (#[trigger] blocks@[w]) == r && emails@[w].id == best@[r]->0;
            assert(emails@[w].id == c);
            assert(same_thread(emails@, views, emails@[j].id, emails@[w].id));
            assert forall|m: int|
                0 <= m < emails@.len() && same_thread(
                    emails@,
                    views,
                    id,
                    (#[trigger] emails@[m]).id,
                ) implies c <= emails@[m].id by {
                assert(blocks@[m] == settled.block(token_of(emails@, emails@[m].id)));
                assert(blocks@[m] == r);
            }
        }
    }
    groups
}

/// Map each email id to a stable conversation id (the smallest id in its group).
pub fn group(emails: &[Email]) -> (groups: HashMap<i64, i64>)
    ensures
        is_grouping(emails@, subjects_of(emails@), groups@),
{
    let mut subjects: Vec<String> = Vec::new();
    let mut i: usize = 0;
    while i < emails.len()
        invariant
            i <= emails.len(),
            subjects.len() == i,
            forall|k: int|
                0 <= k < i ==> (#[trigger] subjects@[k])@ == normalized(emails@[k].subject@),
        decreases emails.len() - i,
    {
        subjects.push(normalize_subject(&emails[i].subject));
        i = i + 1;
    }
    assert(text::texts(subjects@) =~= subjects_of(emails@));
    group_by_subjects(emails, &subjects)
}

} // verus!
