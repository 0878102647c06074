//! The operations a worker thread runs: each connects, signs in, does one
//! thing and tears the session down. What is asked of the server, in what order, and what is made
//! of its answers is decided here; nothing here touches the database.

use vstd::prelude::*;
use crate::address;
use crate::compose;
use crate::dates;
use crate::folders;
use crate::folders::FolderRole;
use crate::models::{Account, MessageHeader};
use crate::net::auth::Credential;
use crate::net::errors::NetError;
use crate::net::imap;
use crate::net::imap::{Command, FetchedHeader, ImapSession, MailboxInfo};
use crate::net::smtp;
use crate::net::smtp::{Envelope, SmtpSession};
use crate::sort;
use crate::text;
use crate::threader;

verus! {

broadcast use vstd::seq_lib::group_to_multiset_ensures;

/// How many recent messages to pull per sync.
pub const RECENT_LIMIT: u32 = 50;

/// How many missing headers one backfill batch pulls.
pub const BACKFILL_LIMIT: u32 = 200;

/// RFC 8058: the body is the whole request, and the server matches it verbatim.
pub const ONE_CLICK_BODY: &'static str = "List-Unsubscribe=One-Click";

/// Names the app rather than mimicking a browser: bot filters reject an
/// anonymous agent, not an honest one.
pub const UNSUBSCRIBE_USER_AGENT: &'static str = "Rustle";

/// What a sync of one mailbox brought.
#[derive(Clone, Debug)]
pub struct SyncResult {
    pub folders: Vec<MailboxInfo>,
    pub messages: Vec<MessageHeader>,
    pub folder: String,
    /// Total messages in the selected mailbox.
    pub exists: u32,
    /// How far back from the newest this fetch reached.
    pub offset: u32,
    /// Authoritative UID snapshot, only for the newest page.
    pub all_uids: Option<Vec<String>>,
    /// Server unread counts by mailbox name, for the folders not fetched.
    pub unread_counts: Vec<(String, u32)>,
}

/// One folder the backfill may fill: its mailbox name and the UIDs the
/// database already holds for it.
#[derive(Clone, Debug)]
pub struct BackfillFolder {
    pub name: String,
    pub local_uids: Vec<String>,
}

/// One batch of the whole-mailbox download.
#[derive(Clone, Debug)]
pub struct BackfillResult {
    /// The folder the batch came from; None when every folder was complete.
    pub folder: Option<String>,
    pub messages: Vec<MessageHeader>,
    /// How many messages that folder still lacks after this batch.
    pub remaining: u32,
    /// Total messages in that folder on the server.
    pub exists: u32,
    /// Folders found complete (or unopenable) on the way to this batch.
    pub completed: Vec<String>,
}

/// Results from the commands attempted by a mailbox move: a move that fails
/// part-way reports how many succeeded.
#[derive(Clone, Debug)]
pub struct MoveResult {
    pub destination_uids: Vec<Option<String>>,
    pub failed_index: Option<usize>,
    pub error: Option<String>,
}

// --- UIDs -----------------------------------------------------------------

/// The numbers that the server's UIDs write, of those that write one and that are not held
/// locally.
pub open spec fn lacking(server: Seq<Seq<char>>, local: Seq<Seq<char>>) -> Seq<u32>
    decreases server.len(),
{
    if server.len() == 0 {
        Seq::empty()
    } else {
        let before = lacking(server.drop_last(), local);
        if local.contains(server.last()) {
            before
        } else {
            match text::parse_unsigned(server.last(), u32::MAX as nat) {
                Some(n) => before.push(n as u32),
                None => before,
            }
        }
    }
}

/// Whether numbers fall, or stay, from each to the next.
pub open spec fn is_falling(s: Seq<u32>) -> bool {
    forall|i: int, j: int| 0 <= i < j < s.len() ==> s[i] >= s[j]
}

/// Whether numbers rise from each to the next.
pub open spec fn is_rising(s: Seq<u32>) -> bool {
    forall|i: int, j: int| 0 <= i < j < s.len() ==> s[i] < s[j]
}

/// The server's UIDs the database doesn't hold, newest (highest) first. Each UID of the server is
/// listed once.
pub fn missing_uids(server: &[String], local: &[String]) -> (r: Vec<u32>)
    ensures
        is_falling(r@),
        r@.to_multiset() == lacking(text::texts(server@), text::texts(local@)).to_multiset(),
        r@.len() == lacking(text::texts(server@), text::texts(local@)).len(),
{
    let ghost s = text::texts(server@);
    let ghost l = text::texts(local@);
    let mut held: vstd::hash_map::StringHashMap<bool> = vstd::hash_map::StringHashMap::new();
    let mut k: usize = 0;
    while k < local.len()
        invariant
            k <= local.len(),
            l == text::texts(local@),
            forall|t: Seq<char>| #[trigger] held@.contains_key(t) <==> l.take(k as int).contains(t),
        decreases local.len() - k,
    {
        held.insert(local[k].clone(), true);
        proof {
            let before = l.take(k as int);
            let after = l.take(k + 1);
            assert(after =~= before.push(local@[k as int]@));
            assert forall|t: Seq<char>| #[trigger] held@.contains_key(t) <==> after.contains(t) by {
                if after.contains(t) {
                    let i = choose|i: int| 0 <= i < after.len() && after[i] == t;
                    if i < before.len() {
                        assert(before[i] == t);
                        assert(before.contains(t));
                    }
                }
                if before.contains(t) {
                    let i = choose|i: int| 0 <= i < before.len() && before[i] == t;
                    assert(after[i] == t);
                }
                assert(after[k as int] == local@[k as int]@);
            }
        }
        k = k + 1;
    }
    assert(l.take(k as int) =~= l);
    let mut found: Vec<u32> = Vec::new();
    let mut i: usize = 0;
    while i < server.len()
        invariant
            i <= server.len(),
            s == text::texts(server@),
            forall|t: Seq<char>| #[trigger] held@.contains_key(t) <==> l.contains(t),
            found@ == lacking(s.take(i as int), l),
        decreases server.len() - i,
    {
        proof {
            assert(s.take(i + 1).drop_last() =~= s.take(i as int));
            assert(s.take(i + 1).last() == server@[i as int]@);
        }
        if !held.contains_key(&server[i]) {
            if let Some(n) = text::parse_number(&text::chars_of(&server[i]), u32::MAX as u64) {
                found.push(n as u32);
            }
        }
        i = i + 1;
    }
    assert(s.take(i as int) =~= s);
    let newer = |a: u32, b: u32| -> (r: bool)
        ensures
            r == (a >= b),
        { a >= b };
    let ghost le = |a: u32, b: u32| a >= b;
    let out = sort::sorted(&found, &newer, Ghost(le));
    assert(is_falling(out@)) by {
        assert forall|a: int, b: int| 0 <= a < b < out@.len() implies out@[a] >= out@[b] by {
            assert(le(out@[a], out@[b]));
        }
    }
    out
}

/// A range of UIDs, both ends in it.
pub open spec fn range_of(start: u32, end: u32) -> Seq<char> {
    if start == end {
        text::decimal(start as nat)
    } else {
        text::decimal(start as nat) + ":"@ + text::decimal(end as nat)
    }
}

/// Rising numbers folded into ranges: a number that follows the last one directly lengthens the
/// last range.
pub open spec fn runs_of(rising: Seq<u32>) -> Seq<(u32, u32)>
    decreases rising.len(),
{
    if rising.len() == 0 {
        Seq::empty()
    } else {
        let before = runs_of(rising.drop_last());
        let n = rising.last();
        if before.len() > 0 && before.last().1 + 1 == n {
            before.drop_last().push((before.last().0, n))
        } else {
            before.push((n, n))
        }
    }
}

/// The texts of some ranges.
pub open spec fn range_texts(runs: Seq<(u32, u32)>) -> Seq<Seq<char>> {
    Seq::new(runs.len(), |i: int| range_of(runs[i].0, runs[i].1))
}

/// Whether a number is in one of some ranges.
pub open spec fn covered(runs: Seq<(u32, u32)>, n: u32) -> bool {
    exists|i: int| 0 <= i < runs.len() && (#[trigger] runs[i]).0 <= n <= runs[i].1
}

/// The ranges that rising numbers fold into hold these numbers and no others.
pub proof fn runs_cover_exactly(rising: Seq<u32>)
    requires
        is_rising(rising),
    ensures
        forall|n: u32| #[trigger] covered(runs_of(rising), n) <==> rising.contains(n),
        rising.len() > 0 ==> runs_of(rising).len() > 0 && runs_of(rising).last().1 == rising.last(),
        forall|i: int|
            0 <= i < runs_of(rising).len() ==> (#[trigger] runs_of(rising)[i]).0 <= runs_of(
                rising,
            )[i].1,
    decreases rising.len(),
{
    if rising.len() > 0 {
        let rest = rising.drop_last();
        runs_cover_exactly(rest);
        let before = runs_of(rest);
        let after = runs_of(rising);
        let last = rising.last();
        assert forall|n: u32| #[trigger] covered(after, n) <==> rising.contains(n) by {
            if rising.contains(n) {
                let k = choose|k: int| 0 <= k < rising.len() && rising[k] == n;
                if k < rest.len() {
                    assert(rest[k] == n);
                    assert(covered(before, n));
                    let i = choose|i: int|
                        0 <= i < before.len() && (#[trigger] before[i]).0 <= n <= before[i].1;
                    if i < before.len() - 1 || after.len() > before.len() {
                        assert(after[i] == before[i]);
                    } else {
                        assert(after[i].0 == before[i].0 && after[i].1 == last);
                        assert(n < last);
                    }
                    assert(covered(after, n));
                } else {
                    assert(after[after.len() - 1].1 == n);
                    assert(covered(after, n));
                }
            }
            if covered(after, n) {
                let i = choose|i: int|
                    0 <= i < after.len() && (#[trigger] after[i]).0 <= n <= after[i].1;
                if n == last {
                    assert(rising[rising.len() - 1] == n);
                } else {
                    if i < before.len() {
                        if after[i] == before[i] {
                            assert(covered(before, n));
                        } else {
                            assert(i == before.len() - 1);
                            assert(before[i].0 <= n <= before[i].1);
                            assert(covered(before, n));
                        }
                    }
                    assert(covered(before, n));
                    let k = choose|k: int| 0 <= k < rest.len() && rest[k] == n;
                    assert(rising[k] == n);
                }
            }
        }
    } else {
        assert forall|n: u32| #[trigger] covered(runs_of(rising), n) <==> rising.contains(n) by {}
    }
}

fn range_text(start: u32, end: u32) -> (r: Vec<char>)
    ensures
        r@ == range_of(start, end),
{
    let mut out = text::to_decimal(start as u64);
    if start != end {
        text::extend_str(&mut out, ":");
        text::extend(&mut out, &text::to_decimal(end as u64));
    }
    out
}

/// Whether `text` is the sequence set of these UIDs: of the ranges that they fold into when put
/// in order, each once.
pub open spec fn is_uid_set(t: Seq<char>, uids: Seq<u32>) -> bool {
    exists|rising: Seq<u32>|
        is_rising(rising) && (forall|n: u32| rising.contains(n) <==> uids.contains(n)) && t
            == text::join(range_texts(#[trigger] runs_of(rising)), ","@)
}

proof fn same_members(a: Seq<u32>, b: Seq<u32>)
    requires
        a.to_multiset() == b.to_multiset(),
    ensures
        forall|n: u32| #[trigger] a.contains(n) <==> b.contains(n),
{
    assert forall|n: u32| #[trigger] a.contains(n) <==> b.contains(n) by {
        assert(a.contains(n) <==> a.to_multiset().count(n) > 0);
        assert(b.contains(n) <==> b.to_multiset().count(n) > 0);
    }
}

/// An IMAP sequence set for a run of UIDs, with consecutive values folded
/// into ranges so a 200-message batch stays a short command line.
pub fn uid_set(uids: &[u32]) -> (r: String)
    ensures
        is_uid_set(r@, uids@),
{
    let older = |a: u32, b: u32| -> (r: bool)
        ensures
            r == (a <= b),
        { a <= b };
    let ghost le = |a: u32, b: u32| a <= b;
    let in_order = sort::sorted(uids, &older, Ghost(le));
    proof {
        same_members(in_order@, uids@);
    }
    let mut rising: Vec<u32> = Vec::new();
    let mut i: usize = 0;
    while i < in_order.len()
        invariant
            i <= in_order.len(),
            le == (|a: u32, b: u32| a <= b),
            sort::is_sorted(in_order@, le),
            is_rising(rising@),
            rising.len() > 0 <==> i > 0,
            rising.len() > 0 ==> rising@.last() == in_order@[i - 1],
            forall|n: u32| #[trigger] rising@.contains(n) <==> in_order@.take(i as int).contains(n),
        decreases in_order.len() - i,
    {
        let n: u32 = in_order[i];
        let ghost before = rising@;
        if i > 0 {
            assert(le(in_order@[i - 1], in_order@[i as int]));
        }
        if rising.len() == 0 || rising[rising.len() - 1] != n {
            rising.push(n);
        }
        proof {
            let t0 = in_order@.take(i as int);
            let t1 = in_order@.take(i + 1);
            assert(t1 =~= t0.push(n));
            assert forall|x: u32| #[trigger] rising@.contains(x) <==> t1.contains(x) by {
                if t1.contains(x) {
                    let k = choose|k: int| 0 <= k < t1.len() && t1[k] == x;
                    if k < t0.len() {
                        assert(t0[k] == x);
                        assert(before.contains(x));
                        let j = choose|j: int| 0 <= j < before.len() && before[j] == x;
                        assert(rising@[j] == x);
                    } else {
                        assert(rising@[rising@.len() - 1] == n);
                    }
                }
                if rising@.contains(x) {
                    let k = choose|k: int| 0 <= k < rising@.len() && rising@[k] == x;
                    if k < before.len() {
                        assert(before[k] == x);
                        assert(before.contains(x));
                        let j = choose|j: int| 0 <= j < t0.len() && t0[j] == x;
                        assert(t1[j] == x);
                    } else {
                        assert(t1[i as int] == x);
                    }
                }
            }
        }
        i = i + 1;
    }
    assert(in_order@.take(i as int) =~= in_order@);
    let mut runs: Vec<(u32, u32)> = Vec::new();
    let mut k: usize = 0;
    while k < rising.len()
        invariant
            k <= rising.len(),
            is_rising(rising@),
            runs@ == runs_of(rising@.take(k as int)),
            k > 0 ==> runs.len() > 0 && runs@.last().1 == rising@[k - 1],
        decreases rising.len() - k,
    {
        let n: u32 = rising[k];
        proof {
            assert(rising@.take(k + 1).drop_last() =~= rising@.take(k as int));
            assert(rising@.take(k + 1).last() == n);
            if k == 0 {
                assert(rising@.take(0) =~= Seq::empty());
                assert(runs@ =~= Seq::empty());
            } else {
                assert(rising@[k - 1] < rising@[k as int]);
            }
        }
        if runs.len() > 0 && runs[runs.len() - 1].1 + 1 == n {
            let start: u32 = runs[runs.len() - 1].0;
            let last: usize = runs.len() - 1;
            let ghost before = runs@;
            runs.set(last, (start, n));
            assert(runs@ =~= before.drop_last().push((start, n)));
        } else {
            runs.push((n, n));
        }
        k = k + 1;
    }
    assert(rising@.take(k as int) =~= rising@);
    let mut parts: Vec<Vec<char>> = Vec::new();
    while parts.len() < runs.len()
        invariant
            parts.len() <= runs.len(),
            forall|j: int|
                0 <= j < parts.len() ==> (#[trigger] parts@[j])@ == range_of(
                    runs@[j].0,
                    runs@[j].1,
                ),
        decreases runs.len() - parts.len(),
    {
        let (start, end) = runs[parts.len()];
        parts.push(range_text(start, end));
    }
    assert(text::char_texts(parts@) =~= range_texts(runs@));
    assert(runs_of(rising@) == runs@);
    assert forall|n: u32| rising@.contains(n) <==> uids@.contains(n) by {
        assert(in_order@.contains(n) <==> uids@.contains(n));
    }
    text::text_of(&text::joined(&parts, &text::chars_of(",")))
}

// --- downloading the rest of a mailbox ------------------------------------

/// What the server said when a folder was to be filled.
pub enum FolderAnswer {
    /// It won't open (a bare container, a broken share): done as far as the backfill is concerned.
    Unopenable,
    /// It opened, with so many messages and these UIDs.
    Opened { exists: u32, uids: Vec<String> },
}

/// What the backfill does next.
pub enum BackfillStep {
    /// Open this folder and ask for its UIDs.
    Open(String),
    /// Fetch the headers of these UIDs and be done.
    Fetch { folder: String, uids: String, exists: u32, remaining: u32, completed: Vec<String> },
    /// Nothing is lacking.
    Done { completed: Vec<String> },
}

/// The UIDs that a folder lacks, if it opened.
pub open spec fn folder_lacks(folder: BackfillFolder, answer: FolderAnswer) -> Seq<u32> {
    match answer {
        FolderAnswer::Unopenable => Seq::empty(),
        FolderAnswer::Opened { exists, uids } => lacking(
            text::texts(uids@),
            text::texts(folder.local_uids@),
        ),
    }
}

/// Whether the first `n` folders lack nothing.
pub open spec fn complete_up_to(
    folders: Seq<BackfillFolder>,
    answers: Seq<FolderAnswer>,
    n: int,
) -> bool {
    forall|i: int| 0 <= i < n ==> folder_lacks(#[trigger] folders[i], answers[i]).len() == 0
}

/// The names of some folders.
pub open spec fn folder_names(folders: Seq<BackfillFolder>) -> Seq<Seq<char>> {
    Seq::new(folders.len(), |i: int| folders[i].name@)
}

/// How many of the missing headers one batch pulls: the limit, but at least one.
pub open spec fn batch_len(missing: int, limit: u32) -> int {
    let most = if limit >= 1 {
        limit as int
    } else {
        1
    };
    if missing <= most {
        missing
    } else {
        most
    }
}

/// Whether a fetch is the first batch of what a folder lacks, newest first.
pub open spec fn is_batch(
    folder: BackfillFolder,
    answer: FolderAnswer,
    limit: u32,
    uids: Seq<char>,
    remaining: u32,
) -> bool {
    let lacks = folder_lacks(folder, answer);
    exists|missing: Seq<u32>|
        is_falling(missing) && missing.to_multiset() == lacks.to_multiset() && missing.len()
            == lacks.len() && is_uid_set(
            uids,
            #[trigger] missing.take(batch_len(lacks.len() as int, limit)),
        ) && remaining == (lacks.len() - batch_len(lacks.len() as int, limit)) as u32
}

/// Fetch one batch of the headers the database lacks, from the
/// first of `folders` that lacks any. Newest first, so a folder fills from
/// the top the way the list shows it. Every UID is asked for by name, so
/// mail arriving or leaving between batches never shifts the window.
///
/// `answers` is what the server said of the folders opened so far.
pub fn backfill(folders: &[BackfillFolder], limit: u32, answers: &[FolderAnswer]) -> (r:
    BackfillStep)
    requires
        answers@.len() <= folders@.len(),
    ensures
        match r {
            BackfillStep::Open(name) => {
                &&& answers@.len() < folders@.len()
                &&& complete_up_to(folders@, answers@, answers@.len() as int)
                &&& name@ == folders@[answers@.len() as int].name@
            },
            BackfillStep::Fetch { folder, uids, exists, remaining, completed } => {
                let i = completed@.len() as int;
                &&& i < answers@.len()
                &&& complete_up_to(folders@, answers@, i)
                &&& folder_lacks(folders@[i], answers@[i]).len() > 0
                &&& folder@ == folders@[i].name@
                &&& answers@[i] matches FolderAnswer::Opened { exists: e, uids: _ } && e == exists
                &&& is_batch(folders@[i], answers@[i], limit, uids@, remaining)
                &&& text::texts(completed@) == folder_names(folders@).take(i)
            },
            BackfillStep::Done { completed } => {
                &&& answers@.len() == folders@.len()
                &&& complete_up_to(folders@, answers@, folders@.len() as int)
                &&& text::texts(completed@) == folder_names(folders@)
            },
        },
{
    let mut completed: Vec<String> = Vec::new();
    let mut i: usize = 0;
    while i < folders.len()
        invariant
            i <= folders.len(),
            i <= answers.len(),
            answers.len() <= folders.len(),
            complete_up_to(folders@, answers@, i as int),
            text::texts(completed@) =~= folder_names(folders@).take(i as int),
            completed.len() == i,
        decreases folders.len() - i,
    {
        if i >= answers.len() {
            return BackfillStep::Open(folders[i].name.clone());
        }
        if let FolderAnswer::Opened { exists, uids } = &answers[i] {
            let missing = missing_uids(uids, &folders[i].local_uids);
            if missing.len() > 0 {
                let most: usize = if limit >= 1 {
                    limit as usize
                } else {
                    1
                };
                let n: usize = if missing.len() <= most {
                    missing.len()
                } else {
                    most
                };
                let batch = vstd::slice::slice_subrange(&missing, 0, n);
                assert(batch@ =~= missing@.take(n as int));
                let set = uid_set(batch);
                let ghost lacks = folder_lacks(folders@[i as int], answers@[i as int]);
                assert(n == batch_len(lacks.len() as int, limit));
                let left: usize = missing.len() - n;
                #[verifier::truncate]
                let remaining: u32 = left as u32;
                assert(is_batch(
                    folders@[i as int],
                    answers@[i as int],
                    limit,
                    set@,
                    remaining,
                ));
                return BackfillStep::Fetch {
                    folder: folders[i].name.clone(),
                    uids: set,
                    exists: *exists,
                    remaining,
                    completed,
                };
            }
        }
        assert(folder_lacks(folders@[i as int], answers@[i as int]).len() == 0);
        let ghost before = completed@;
        completed.push(folders[i].name.clone());
        proof {
            assert(text::texts(completed@) =~= text::texts(before).push(folders@[i as int].name@));
            assert(folder_names(folders@).take(i + 1) =~= folder_names(folders@).take(
                i as int,
            ).push(folders@[i as int].name@));
        }
        i = i + 1;
    }
    assert(folder_names(folders@).take(i as int) =~= folder_names(folders@));
    BackfillStep::Done { completed }
}

// --- one mailbox ----------------------------------------------------------

/// The names of some mailboxes.
pub open spec fn mailbox_names(mailboxes: Seq<MailboxInfo>) -> Seq<Seq<char>> {
    Seq::new(mailboxes.len(), |i: int| mailboxes[i].name@)
}

/// The mailboxes whose unread count is asked for: those with a role that can be selected and are
/// not the one being fetched.
pub open spec fn counted(mailboxes: Seq<MailboxInfo>, target: Seq<char>) -> Seq<Seq<char>>
    decreases mailboxes.len(),
{
    if mailboxes.len() == 0 {
        Seq::empty()
    } else {
        let before = counted(mailboxes.drop_last(), target);
        let m = mailboxes.last();
        if m.name@ == target || !m.is_selectable || folders::role_of(m.name@) == FolderRole::Other {
            before
        } else {
            before.push(m.name@)
        }
    }
}

/// What a sync of one mailbox asks for.
pub struct FetchPlan {
    /// The mailbox to open.
    pub target: String,
    /// Whether every UID is asked for.
    pub wants_uids: bool,
    /// The mailboxes whose unread count is asked for. One that won't answer is skipped rather than
    /// failing the sync.
    pub counts: Vec<String>,
}

fn names_of<'a>(mailboxes: &'a [MailboxInfo]) -> (r: Vec<&'a str>)
    ensures
        folders::str_texts(r@) == mailbox_names(mailboxes@),
{
    let mut names: Vec<&'a str> = Vec::new();
    while names.len() < mailboxes.len()
        invariant
            names.len() <= mailboxes.len(),
            forall|i: int|
                0 <= i < names.len() ==> (#[trigger] names@[i])@ == mailboxes@[i].name@,
        decreases mailboxes.len() - names.len(),
    {
        names.push(mailboxes[names.len()].name.as_str());
    }
    assert(folders::str_texts(names@) =~= mailbox_names(mailboxes@));
    names
}

/// Fetch the recent headers of one mailbox (the inbox when `folder` is None), given
/// the folder list. `offset` pages backwards; the newest page brings the UIDs and the unread
/// counts of the other folders along.
pub fn fetch_mailbox(mailboxes: &[MailboxInfo], folder: Option<&str>, offset: u32) -> (r: FetchPlan)
    ensures
        r.target@ == (match folder {
            Some(name) => name@,
            None => folders::inbox_among(mailbox_names(mailboxes@)),
        }),
        r.wants_uids == (offset == 0),
        text::texts(r.counts@) == (if offset == 0 {
            counted(mailboxes@, r.target@)
        } else {
            Seq::empty()
        }),
{
    let target: String = match folder {
        Some(name) => name.to_owned(),
        None => folders::inbox_name(&names_of(mailboxes)),
    };
    let counts: Vec<String> = if offset == 0 {
        unread_counts(mailboxes, &target)
    } else {
        Vec::new()
    };
    if offset != 0 {
        assert(text::texts(counts@) =~= Seq::empty());
    }
    FetchPlan { target, wants_uids: offset == 0, counts }
}

/// The role folders this sync doesn't fetch, whose server unread counts are asked for.
pub fn unread_counts(mailboxes: &[MailboxInfo], target: &str) -> (r: Vec<String>)
    ensures
        text::texts(r@) == counted(mailboxes@, target@),
{
    let mut out: Vec<String> = Vec::new();
    assert(text::texts(out@) =~= Seq::empty());
    let mut i: usize = 0;
    while i < mailboxes.len()
        invariant
            i <= mailboxes.len(),
            text::texts(out@) == counted(mailboxes@.take(i as int), target@),
        decreases mailboxes.len() - i,
    {
        let m = &mailboxes[i];
        proof {
            assert(mailboxes@.take(i + 1).drop_last() =~= mailboxes@.take(i as int));
            assert(mailboxes@.take(i + 1).last() == *m);
        }
        if !text::same_str(&m.name, target) && m.is_selectable && folders::role_for_folder(&m.name)
            != FolderRole::Other {
            let ghost before = out@;
            out.push(m.name.clone());
            assert(text::texts(out@) =~= text::texts(before).push(m.name@));
        }
        i = i + 1;
    }
    assert(mailboxes@.take(i as int) =~= mailboxes@);
    out
}

/// The (name, address) pairs of some mailboxes.
pub open spec fn pairs_of(list: Seq<address::MailboxView>) -> Seq<(Seq<char>, Seq<char>)> {
    Seq::new(list.len(), |i: int| (list[i].name, list[i].address))
}

/// Whether a header is the display-ready form of a fetched one.
pub open spec fn is_display_of(r: MessageHeader, f: FetchedHeader) -> bool {
    &&& r.uid@ == f.uid@
    &&& r.sender@ == address::shown_name(f.from_header@)
    &&& r.sender_address@ == address::address_of(f.from_header@)
    &&& (r.recipient@, r.recipient_address@) == compose::first_recipient_of(f.to_header@)
    &&& r.subject@ == (if f.subject@.len() == 0 {
        threader::NO_SUBJECT@
    } else {
        f.subject@
    })
    &&& r.date@ == (match dates::rfc822_as_rfc3339(f.date@) {
        Some(iso) => iso,
        None => f.date@,
    })
    &&& r.is_unread == !f.is_seen
    &&& r.is_starred == f.is_flagged
    &&& r.is_pinned == f.is_pinned
    &&& r.preview@ == f.preview@
    &&& r.message_id@ == f.message_id@
    &&& r.in_reply_to@ == f.in_reply_to@
    &&& r.references@ == f.references@
    &&& compose::pair_texts(r.addresses@) == pairs_of(address::mailboxes(f.from_header@))
        + pairs_of(address::mailboxes(f.to_header@)) + pairs_of(
        address::mailboxes(f.cc_header@),
    )
}

fn push_pairs(out: &mut Vec<(String, String)>, header: &str)
    ensures
        compose::pair_texts(final(out)@) == compose::pair_texts(old(out)@) + pairs_of(
            address::mailboxes(header@),
        ),
{
    let list = address::parse_list(header);
    let ghost views = address::mailbox_views(list@);
    let ghost start = compose::pair_texts(out@);
    let mut i: usize = 0;
    while i < list.len()
        invariant
            i <= list.len(),
            views == address::mailbox_views(list@),
            compose::pair_texts(out@) =~= start + pairs_of(views.take(i as int)),
        decreases list.len() - i,
    {
        let ghost before = out@;
        let pair = (list[i].name.clone(), list[i].address.clone());
        out.push(pair);
        proof {
            let p = (list@[i as int].name@, list@[i as int].address@);
            assert(compose::pair_texts(out@) =~= compose::pair_texts(before).push(p));
            assert(pairs_of(views.take(i + 1)) =~= pairs_of(views.take(i as int)).push(p));
        }
        i = i + 1;
    }
    assert(views.take(i as int) =~= views);
}

/// Turn raw wire headers into the display-ready form: the sender becomes a
/// display name, the date a timestamp, and `\Seen` inverts into `is_unread`.
pub fn to_message_header(fetched: FetchedHeader) -> (r: MessageHeader)
    ensures
        is_display_of(r, fetched),
{
    let (recipient, recipient_address) = compose::first_recipient(&fetched.to_header);
    let mut addresses: Vec<(String, String)> = Vec::new();
    assert(compose::pair_texts(addresses@) =~= Seq::empty());
    push_pairs(&mut addresses, &fetched.from_header);
    push_pairs(&mut addresses, &fetched.to_header);
    push_pairs(&mut addresses, &fetched.cc_header);
    assert(compose::pair_texts(addresses@) =~= pairs_of(
        address::mailboxes(fetched.from_header@),
    ) + pairs_of(address::mailboxes(fetched.to_header@)) + pairs_of(
        address::mailboxes(fetched.cc_header@),
    ));
    let sender = address::display_name(&fetched.from_header);
    let sender_address = address::first_address(&fetched.from_header);
    let date = dates::to_iso(&fetched.date);
    let subject: String = if fetched.subject.as_str().is_empty() {
        threader::NO_SUBJECT.to_owned()
    } else {
        fetched.subject
    };
    MessageHeader {
        uid: fetched.uid,
        sender,
        sender_address,
        recipient,
        recipient_address,
        subject,
        date,
        is_unread: !fetched.is_seen,
        is_starred: fetched.is_flagged,
        is_pinned: fetched.is_pinned,
        preview: fetched.preview,
        message_id: fetched.message_id,
        in_reply_to: fetched.in_reply_to,
        references: fetched.references,
        addresses,
    }
}

/// Turn all the raw wire headers of a page into the display-ready form.
pub fn to_message_headers(fetched: Vec<FetchedHeader>) -> (r: Vec<MessageHeader>)
    ensures
        r.len() == fetched.len(),
        forall|i: int| 0 <= i < r.len() ==> is_display_of(#[trigger] r@[i], fetched@[i]),
{
    let mut rest = fetched;
    let mut backwards: Vec<MessageHeader> = Vec::new();
    let ghost n = fetched@.len() as int;
    while rest.len() > 0
        invariant
            rest.len() + backwards.len() == n,
            n == fetched@.len(),
            rest@ =~= fetched@.take(rest.len() as int),
            forall|i: int|
                0 <= i < backwards.len() ==> is_display_of(
                    #[trigger] backwards@[i],
                    fetched@[n - 1 - i],
                ),
        decreases rest.len(),
    {
        match rest.pop() {
            Some(h) => {
                backwards.push(to_message_header(h));
            },
            None => {},
        }
    }
    let mut out: Vec<MessageHeader> = Vec::new();
    while backwards.len() > 0
        invariant
            out.len() + backwards.len() == n,
            n == fetched@.len(),
            forall|i: int|
                0 <= i < backwards.len() ==> is_display_of(
                    #[trigger] backwards@[i],
                    fetched@[n - 1 - i],
                ),
            forall|i: int| 0 <= i < out.len() ==> is_display_of(#[trigger] out@[i], fetched@[i]),
        decreases backwards.len(),
    {
        match backwards.pop() {
            Some(h) => {
                out.push(h);
            },
            None => {},
        }
    }
    out
}

/// The batch that a backfill came to, given the headers that its fetch brought.
pub fn backfill_result(step: BackfillStep, fetched: Vec<FetchedHeader>) -> (r: BackfillResult)
    requires
        !(step is Open),
    ensures
        match step {
            BackfillStep::Fetch { folder, uids: _, exists, remaining, completed } => {
                &&& r.folder == Some(folder)
                &&& r.messages@.len() == fetched@.len()
                &&& forall|i: int|
                    0 <= i < r.messages@.len() ==> is_display_of(
                        #[trigger] r.messages@[i],
                        fetched@[i],
                    )
                &&& r.remaining == remaining
                &&& r.exists == exists
                &&& r.completed == completed
            },
            BackfillStep::Done { completed } => {
                &&& r.folder is None
                &&& r.messages@.len() == 0
                &&& r.remaining == 0
                &&& r.exists == 0
                &&& r.completed == completed
            },
            BackfillStep::Open(_) => true,
        },
{
    match step {
        BackfillStep::Fetch { folder, uids: _, exists, remaining, completed } => BackfillResult {
            folder: Some(folder),
            messages: to_message_headers(fetched),
            remaining,
            exists,
            completed,
        },
        BackfillStep::Done { completed } => BackfillResult {
            folder: None,
            messages: Vec::new(),
            remaining: 0,
            exists: 0,
            completed,
        },
        BackfillStep::Open(_) => BackfillResult {
            folder: None,
            messages: Vec::new(),
            remaining: 0,
            exists: 0,
            completed: Vec::new(),
        },
    }
}

// --- single commands ------------------------------------------------------

/// Download a single full message: what is said to the server, in order.
pub fn fetch_full_message(session: &ImapSession, folder_name: &str, uid: &str) -> (r: Result<
    (Command, Command),
    NetError,
>)
    ensures
        match r {
            Ok((open, fetch)) => {
                &&& session.is_signed_in
                &&& open matches Command::Examine(m) && m@ == folder_name@
                &&& fetch matches Command::UidFetchMessage(u) && u@ == uid@
            },
            Err(e) => !session.is_signed_in && session.is_not_signed_in(e),
        },
{
    match session.select(folder_name, false) {
        Ok(open) => match session.fetch_message(uid) {
            Ok(fetch) => Ok((open, fetch)),
            Err(e) => Err(e),
        },
        Err(e) => Err(e),
    }
}

/// A change of a flag on some messages of a mailbox.
#[derive(Debug, PartialEq, Eq)]
pub struct FlagChange {
    pub mailbox: String,
    /// The messages, as a UID set.
    pub uids: String,
    pub flag: String,
    pub should_add: bool,
}

/// Add or remove an IMAP flag on a set of messages, in one STORE. An empty
/// set is not an empty command but a malformed one, so it is skipped.
pub fn set_flag(folder_name: &str, uids: &[String], flag: &str, should_add: bool) -> (r: Option<
    FlagChange,
>)
    ensures
        match r {
            None => uids@.len() == 0,
            Some(change) => {
                &&& uids@.len() > 0
                &&& change.mailbox@ == folder_name@
                &&& change.uids@ == text::join(text::texts(uids@), ","@)
                &&& change.flag@ == flag@
                &&& change.should_add == should_add
            },
        },
{
    if uids.len() == 0 {
        return None;
    }
    Some(
        FlagChange {
            mailbox: folder_name.to_owned(),
            uids: text::join_strings(uids, ","),
            flag: flag.to_owned(),
            should_add,
        },
    )
}

impl FlagChange {
    /// What is said to the server, in order.
    pub fn commands(&self, session: &ImapSession) -> (r: Result<(Command, Command), NetError>)
        ensures
            match r {
                Ok((open, store)) => {
                    &&& session.is_signed_in
                    &&& open matches Command::Select(m) && m@ == self.mailbox@
                    &&& store matches Command::UidStore { uids: u, query } && u@ == self.uids@
                        && query@ == imap::flags_query(self.flag@, self.should_add)
                },
                Err(e) => !session.is_signed_in && session.is_not_signed_in(e),
            },
    {
        match session.select(&self.mailbox, true) {
            Ok(open) => match session.store_flags(&self.uids, &self.flag, self.should_add) {
                Ok(store) => Ok((open, store)),
                Err(e) => Err(e),
            },
            Err(e) => Err(e),
        }
    }
}

/// What came of each attempt to move a message, up to the first that failed.
pub open spec fn moved_until_failure(
    outcomes: Seq<Result<Option<String>, NetError>>,
    i: int,
) -> int
    decreases outcomes.len() - i,
{
    if 0 <= i < outcomes.len() && outcomes[i] is Ok {
        moved_until_failure(outcomes, i + 1)
    } else {
        i
    }
}

/// The place of the message to move next, of so many, given what came of the moves so far: they are
/// tried in order, and none after the first that failed.
pub open spec fn next_place(
    count: nat,
    outcomes: Seq<Result<Option<String>, NetError>>,
) -> Option<int> {
    if outcomes.len() < count && forall|k: int|
        0 <= k < outcomes.len() ==> (#[trigger] outcomes[k]) is Ok {
        Some(outcomes.len() as int)
    } else {
        None
    }
}

/// The place of the message to move next, given what came of the moves so far: they are tried in
/// order, and none after the first that failed.
pub fn next_move(uids: &[String], outcomes: &[Result<Option<String>, NetError>]) -> (r: Option<
    usize,
>)
    ensures
        match r {
            Some(i) => next_place(uids@.len(), outcomes@) == Some(i as int),
            None => next_place(uids@.len(), outcomes@) is None,
        },
        r matches Some(i) ==> i == outcomes@.len() && i < uids@.len(),
        r is Some <==> outcomes@.len() < uids@.len() && forall|k: int|
            0 <= k < outcomes@.len() ==> (#[trigger] outcomes@[k]) is Ok,
{
    if outcomes.len() >= uids.len() {
        return None;
    }
    let mut k: usize = 0;
    while k < outcomes.len()
        invariant
            k <= outcomes.len(),
            outcomes.len() < uids.len(),
            forall|j: int| 0 <= j < k ==> (#[trigger] outcomes@[j]) is Ok,
        decreases outcomes.len() - k,
    {
        if outcomes[k].is_err() {
            assert(!(outcomes@[k as int] is Ok));
            return None;
        }
        k = k + 1;
    }
    Some(outcomes.len())
}

/// Whether these are the outcomes of moving so many messages, each move made because it was the
/// next, until there was none.
pub open spec fn is_run(count: nat, outcomes: Seq<Result<Option<String>, NetError>>) -> bool {
    &&& forall|k: int|
        0 <= k < outcomes.len() ==> next_place(count, #[trigger] outcomes.take(k)) is Some
    &&& next_place(count, outcomes) is None
}

/// A run of moves reaches every message, or ends with the first that failed: it is the last that
/// was tried.
pub proof fn runs_end_at_the_first_failure(
    count: nat,
    outcomes: Seq<Result<Option<String>, NetError>>,
)
    requires
        is_run(count, outcomes),
    ensures
        ({
            let n = moved_until_failure(outcomes, 0);
            ||| n == count && outcomes.len() == count
            ||| n == outcomes.len() - 1 && n < count && outcomes[n] is Err
        }),
{
    if outcomes.len() > 0 {
        let tried = outcomes.take(outcomes.len() - 1);
        assert(next_place(count, tried) is Some);
        assert forall|k: int| 0 <= k < outcomes.len() - 1 implies (#[trigger] outcomes[k]) is Ok by {
            assert(tried[k] is Ok);
        }
        all_moved_before(outcomes, 0);
    }
}

proof fn all_moved_before(outcomes: Seq<Result<Option<String>, NetError>>, i: int)
    requires
        0 <= i < outcomes.len(),
        forall|k: int| 0 <= k < outcomes.len() - 1 ==> (#[trigger] outcomes[k]) is Ok,
    ensures
        moved_until_failure(outcomes, i) == (if outcomes.last() is Ok {
            outcomes.len() as int
        } else {
            outcomes.len() - 1
        }),
    decreases outcomes.len() - i,
{
    if i < outcomes.len() - 1 {
        assert(outcomes[i] is Ok);
        all_moved_before(outcomes, i + 1);
    } else {
        reveal_with_fuel(moved_until_failure, 2);
    }
}

/// What came of moving the selected messages to another mailbox: the first failure ends it.
pub fn move_messages(outcomes: Vec<Result<Option<String>, NetError>>) -> (r: MoveResult)
    ensures
        ({
            let n = moved_until_failure(outcomes@, 0);
            &&& r.destination_uids@.len() == n
            &&& n <= outcomes@.len()
            &&& forall|i: int|
                0 <= i < n ==> outcomes@[i] == Ok::<Option<String>, NetError>(
                    #[trigger] r.destination_uids@[i],
                )
            &&& match (r.failed_index, r.error) {
                (Some(at), Some(t)) => at == n && n < outcomes@.len() && (outcomes@[n] matches Err(
                    e,
                ) && t@ == crate::net::errors::error_text(e)),
                (None, None) => n == outcomes@.len(),
                _ => false,
            }
        }),
{
    let mut destination_uids: Vec<Option<String>> = Vec::new();
    let mut i: usize = 0;
    while i < outcomes.len()
        invariant
            i <= outcomes.len(),
            destination_uids.len() == i,
            moved_until_failure(outcomes@, 0) == moved_until_failure(outcomes@, i as int),
            forall|k: int|
                0 <= k < i ==> outcomes@[k] == Ok::<Option<String>, NetError>(
                    #[trigger] destination_uids@[k],
                ),
        decreases outcomes.len() - i,
    {
        match &outcomes[i] {
            Ok(uid) => {
                let copy: Option<String> = match uid {
                    Some(t) => Some(t.clone()),
                    None => None,
                };
                destination_uids.push(copy);
            },
            Err(e) => {
                return MoveResult {
                    destination_uids,
                    failed_index: Some(i),
                    error: Some(e.message()),
                };
            },
        }
        i = i + 1;
    }
    MoveResult { destination_uids, failed_index: None, error: None }
}

// --- sending --------------------------------------------------------------

/// What becomes of our own copy of a message that was sent.
pub enum SentCopy {
    /// The server files its own.
    FiledByServer,
    /// It goes into this mailbox.
    File(String),
    /// There is no mailbox for it.
    Nowhere,
}

/// Where our own copy of a sent message goes. Whatever comes of it is never fatal: the mail has
/// already gone out.
pub fn append_to_sent(session: &ImapSession, mailboxes: &[MailboxInfo]) -> (r: SentCopy)
    ensures
        ({
            let gmail = text::texts(session.capabilities@).contains(
                text::uppercase(imap::GMAIL_CAPABILITY@),
            );
            let sent = folders::first_with_role(
                mailbox_names(mailboxes@),
                FolderRole::Sent,
                0,
            );
            match r {
                SentCopy::FiledByServer => gmail,
                SentCopy::File(name) => !gmail && sent == Some(name@),
                SentCopy::Nowhere => !gmail && sent is None,
            }
        }),
{
    if session.has_capability(imap::GMAIL_CAPABILITY) {
        return SentCopy::FiledByServer;
    }
    match folders::mailbox_with_role(&names_of(mailboxes), FolderRole::Sent) {
        Some(name) => SentCopy::File(name.to_owned()),
        None => SentCopy::Nowhere,
    }
}

/// A session that may send, and who its message goes from and to.
pub struct SendPlan {
    pub session: SmtpSession,
    pub envelope: Envelope,
}

/// Connect, log in, and hand a fully-built message to the server: the session that does so, signed
/// in, and the envelope. The message goes to everyone or, where one address is none or there is
/// nobody to get it, to nobody.
pub fn send_message(
    account: &Account,
    credential: &Credential,
    from_addr: &str,
    recipients: &[String],
) -> (r: Result<SendPlan, NetError>)
    ensures
        match r {
            Ok(plan) => {
                &&& plan.session.host@ == account.smtp_host@
                &&& plan.session.port == account.smtp_port
                &&& plan.session.security == account.smtp_security
                &&& plan.session.is_configured
                &&& plan.session.credential == Some(*credential)
                &&& compose::is_address(from_addr@)
                &&& smtp::first_invalid(text::texts(recipients@), 0) is None
                &&& recipients@.len() > 0
                &&& plan.envelope.from@ == from_addr@
                &&& text::texts(plan.envelope.to@) == text::texts(recipients@)
            },
            Err(NetError::Protocol(t)) => if !compose::is_address(from_addr@) {
                t@ == "invalid sender address "@ + text::debug_quoted(from_addr@)
            } else if smtp::first_invalid(text::texts(recipients@), 0) is Some {
                t@ == "invalid recipient address "@ + text::debug_quoted(
                    smtp::first_invalid(text::texts(recipients@), 0).unwrap(),
                )
            } else {
                recipients@.len() == 0 && t@ == "could not address the message: "@
                    + smtp::NO_DESTINATION@
            },
            Err(_) => false,
        },
{
    let mut session = SmtpSession::new(
        &account.smtp_host,
        account.smtp_port,
        account.smtp_security,
    );
    session.connect();
    match session.sign_in(credential) {
        Ok(()) => {},
        Err(error) => {
            return Err(error);
        },
    }
    match session.send_raw(from_addr, recipients) {
        Ok(envelope) => Ok(SendPlan { session, envelope }),
        Err(error) => Err(error),
    }
}

/// What follows when a message was handed to the server, or could not be.
pub enum AfterSend {
    /// Nothing was sent and nothing is filed: this is the error.
    Fail(NetError),
    /// The mail has gone out: file a copy in Sent.
    FileCopy,
}

/// What follows when a message was handed to the server, or could not be: a copy is filed only of
/// what the server took.
pub fn after_send(sent: Result<(), NetError>) -> (r: AfterSend)
    ensures
        match sent {
            Ok(()) => r is FileCopy,
            Err(error) => r == AfterSend::Fail(error),
        },
{
    match sent {
        Ok(()) => AfterSend::FileCopy,
        Err(error) => AfterSend::Fail(error),
    }
}

/// What sending a message came to, given what handing it over and, where it was tried, filing a
/// copy in Sent came to. The copy is never fatal: the mail has already gone out.
pub fn send_outcome(sent: AfterSend, copy: Option<Result<(), NetError>>) -> (r: Result<
    (),
    NetError,
>)
    ensures
        match sent {
            AfterSend::Fail(error) => r == Err::<(), NetError>(error),
            AfterSend::FileCopy => r is Ok,
        },
{
    match sent {
        AfterSend::Fail(error) => Err(error),
        AfterSend::FileCopy => Ok(()),
    }
}

// --- unsubscribing --------------------------------------------------------

/// Whether a link may be asked to unsubscribe us.
pub open spec fn may_post(url: Seq<char>) -> bool {
    text::starts_with_ignoring_case(url, "https:"@)
}

/// Send an RFC 8058 one-click unsubscribe: what to post where. Nothing authenticates this beyond
/// the token already in the URL, so it goes over https alone, and redirects are refused entirely:
/// one off https would put that token on the wire in the clear.
pub fn post_unsubscribe(url: &str) -> (r: Result<String, String>)
    ensures
        match r {
            Ok(body) => may_post(url@) && body@ == ONE_CLICK_BODY@,
            Err(t) => !may_post(url@) && t@ == "refusing to unsubscribe over "@ + url@
                + ": not https"@,
        },
{
    let lower = text::to_ascii_lower(&text::chars_of(url));
    if !text::stands_at(&lower, &text::to_ascii_lower(&text::chars_of("https:")), 0) {
        let mut out = text::chars_of("refusing to unsubscribe over ");
        text::extend_str(&mut out, url);
        text::extend_str(&mut out, ": not https");
        return Err(text::text_of(&out));
    }
    Ok(ONE_CLICK_BODY.to_owned())
}

/// What the status of the answer means.
pub fn unsubscribe_answer(status: u16) -> (r: Result<(), String>)
    ensures
        match r {
            Ok(()) => 200 <= status < 300,
            Err(t) => !(200 <= status < 300) && t@ == "the list answered "@ + text::decimal(
                status as nat,
            ),
        },
{
    if 200 <= status && status < 300 {
        return Ok(());
    }
    let mut out = text::chars_of("the list answered ");
    text::extend(&mut out, &text::to_decimal(status as u64));
    Err(text::text_of(&out))
}

/// Exactly the messages are fetched that the server has and that are not held locally.
pub proof fn exactly_what_lacks_is_fetched(server: Seq<Seq<char>>, local: Seq<Seq<char>>, n: u32)
    ensures
        lacking(server, local).contains(n) <==> exists|i: int|
            0 <= i < server.len() && !local.contains(#[trigger] server[i]) && text::parse_unsigned(
                server[i],
                u32::MAX as nat,
            ) == Some(n as nat),
    decreases server.len(),
{
    if server.len() > 0 {
        let short = server.drop_last();
        exactly_what_lacks_is_fetched(short, local, n);
        let before = lacking(short, local);
        let all = lacking(server, local);
        let k = short.len() as int;
        assert(server.last() == server[k]);
        if lacking(server, local).contains(n) {
            let j = choose|j: int| 0 <= j < all.len() && all[j] == n;
            if j < before.len() {
                assert(before[j] == n);
                assert(before.contains(n));
                let i = choose|i: int|
                    0 <= i < short.len() && !local.contains(#[trigger] short[i])
                        && text::parse_unsigned(short[i], u32::MAX as nat) == Some(n as nat);
                assert(server[i] == short[i]);
            } else {
                assert(!local.contains(server[k]));
            }
        }
        if exists|i: int|
            0 <= i < server.len() && !local.contains(#[trigger] server[i]) && text::parse_unsigned(
                server[i],
                u32::MAX as nat,
            ) == Some(n as nat) {
            let i = choose|i: int|
                0 <= i < server.len() && !local.contains(#[trigger] server[i])
                    && text::parse_unsigned(server[i], u32::MAX as nat) == Some(n as nat);
            if i < k {
                assert(short[i] == server[i]);
                assert(before.contains(n));
                let j = choose|j: int| 0 <= j < before.len() && before[j] == n;
                assert(all[j] == n);
            } else {
                assert(all[before.len() as int] == n);
            }
        }
    }
}

/// Every mailbox with a role that can be opened is counted but for the one that is fetched, in the
/// order of the mailboxes.
pub proof fn every_mailbox_is_counted(
    a: Seq<MailboxInfo>,
    b: Seq<MailboxInfo>,
    m: MailboxInfo,
    target: Seq<char>,
)
    ensures
        counted(a + b, target) == counted(a, target) + counted(b, target),
        counted(seq![m], target) == (if m.is_selectable && m.name@ != target && folders::role_of(
            m.name@,
        ) != FolderRole::Other {
            seq![m.name@]
        } else {
            Seq::empty()
        }),
    decreases b.len(),
{
    let one = seq![m];
    assert(one.drop_last() =~= Seq::empty());
    assert(counted(one.drop_last(), target) =~= Seq::empty());
    assert(one.last() == m);
    assert(counted(one, target) =~= if m.is_selectable && m.name@ != target && folders::role_of(
        m.name@,
    ) != FolderRole::Other {
        seq![m.name@]
    } else {
        Seq::empty()
    });
    if b.len() == 0 {
        assert(a + b =~= a);
        assert(counted(a, target) + counted(b, target) =~= counted(a, target));
    } else {
        assert((a + b).drop_last() =~= a + b.drop_last());
        assert((a + b).last() == b.last());
        every_mailbox_is_counted(a, b.drop_last(), m, target);
        assert(counted(a + b, target) =~= counted(a, target) + counted(b, target));
    }
}

/// A row says what was fetched: who sent the message and to whom, when, whether it was read, what it
/// answers and everybody on it.
pub proof fn rows_say_what_was_fetched(r: MessageHeader, f: FetchedHeader)
    requires
        is_display_of(r, f),
    ensures
        r.uid@ == f.uid@,
        r.is_unread <==> !f.is_seen,
        r.is_starred == f.is_flagged && r.is_pinned == f.is_pinned,
        r.preview@ == f.preview@,
        r.message_id@ == f.message_id@ && r.in_reply_to@ == f.in_reply_to@ && r.references@
            == f.references@,
        f.subject@.len() > 0 ==> r.subject@ == f.subject@,
        f.subject@.len() == 0 ==> threader::normalized(r.subject@).len() == 0,
        ({
            let from = address::mailboxes(f.from_header@);
            let to = address::mailboxes(f.to_header@);
            let cc = address::mailboxes(f.cc_header@);
            &&& r.addresses@.len() == from.len() + to.len() + cc.len()
            &&& from.len() > 0 ==> r.sender_address@ == text::lowercase(from[0].address)
            &&& from.len() > 0 && from[0].name.len() > 0 ==> r.sender@ == from[0].name
            &&& to.len() > 0 && to[0].name.len() > 0 ==> r.recipient@ == to[0].name
            &&& forall|i: int|
                0 <= i < from.len() ==> (#[trigger] compose::pair_texts(r.addresses@)[i]) == (
                    from[i].name,
                    from[i].address,
                )
            &&& forall|i: int|
                0 <= i < to.len() ==> compose::pair_texts(r.addresses@)[from.len() + i] == (
                    (#[trigger] to[i]).name,
                    to[i].address,
                )
            &&& forall|i: int|
                0 <= i < cc.len() ==> compose::pair_texts(r.addresses@)[from.len() + to.len() + i]
                    == ((#[trigger] cc[i]).name, cc[i].address)
        }),
{
    let from = address::mailboxes(f.from_header@);
    let to = address::mailboxes(f.to_header@);
    let cc = address::mailboxes(f.cc_header@);
    assert(compose::pair_texts(r.addresses@).len() == r.addresses@.len());
    if f.subject@.len() == 0 {
        reveal_strlit("(no subject)");
        let s = threader::NO_SUBJECT@;
        assert(text::trim(s) == s) by {
            let k = s.len() as int;
            assert(s[0] == '(' && s[k - 1] == ')');
            assert(text::lead_end(s, 0) == 0);
            assert(text::tail_start(s, 0, k) == k);
            assert(s.subrange(0, k) =~= s);
        }
    }
}

/// A batch of a folder's headers is the newest that the folder lacks: as many as the limit asks for,
/// at least one, and all where there are no more. What it leaves is older, and is counted.
pub proof fn batches_take_the_newest(
    folder: BackfillFolder,
    answer: FolderAnswer,
    limit: u32,
    uids: Seq<char>,
    remaining: u32,
)
    requires
        is_batch(folder, answer, limit, uids, remaining),
        folder_lacks(folder, answer).len() <= u32::MAX,
    ensures
        exists|batch: Seq<u32>|
            {
                let lacks = folder_lacks(folder, answer);
                &&& #[trigger] is_uid_set(uids, batch)
                &&& batch.len() + remaining == lacks.len()
                &&& batch.len() <= limit || batch.len() == 1
                &&& remaining > 0 ==> batch.len() >= limit && batch.len() > 0
                &&& forall|n: u32| batch.contains(n) ==> lacks.contains(n)
                &&& forall|n: u32, m: u32|
                    #![auto]
                    lacks.contains(n) && !batch.contains(n) && batch.contains(m) ==> n <= m
            },
{
    broadcast use vstd::seq_lib::group_to_multiset_ensures;

    let lacks = folder_lacks(folder, answer);
    let k = batch_len(lacks.len() as int, limit);
    let missing = choose|missing: Seq<u32>|
        is_falling(missing) && missing.to_multiset() == lacks.to_multiset() && missing.len()
            == lacks.len() && is_uid_set(uids, #[trigger] missing.take(k)) && remaining == (
        lacks.len() - k) as u32;
    let batch = missing.take(k);
    assert forall|n: u32| missing.contains(n) == #[trigger] lacks.contains(n) by {
        assert(missing.contains(n) <==> missing.to_multiset().count(n) > 0);
        assert(lacks.contains(n) <==> lacks.to_multiset().count(n) > 0);
    }
    assert forall|n: u32| batch.contains(n) implies lacks.contains(n) by {
        let i = choose|i: int| 0 <= i < batch.len() && batch[i] == n;
        assert(missing[i] == n);
        assert(missing.contains(n));
    }
    assert forall|n: u32, m: u32|
        #![auto]
        lacks.contains(n) && !batch.contains(n) && batch.contains(m) implies n <= m by {
        assert(missing.contains(n));
        let i = choose|i: int| 0 <= i < missing.len() && missing[i] == n;
        let j = choose|j: int| 0 <= j < batch.len() && batch[j] == m;
        if i < k {
            assert(batch[i] == n);
        }
        assert(missing[j] == m);
        assert(missing[j] >= missing[i]);
    }
    assert(is_uid_set(uids, batch));
}

/// What a range asks for reads back as its two ends, which are one where it is of a single message.
pub proof fn ranges_read_back(start: u32, end: u32)
    ensures
        ({
            let ends = text::split(range_of(start, end), ':');
            &&& ends.len() == (if start == end {
                1int
            } else {
                2
            })
            &&& text::parse_unsigned(ends[0], u32::MAX as nat) == Some(start as nat)
            &&& text::parse_unsigned(ends.last(), u32::MAX as nat) == Some(end as nat)
        }),
{
    reveal_strlit(":");
    let a = text::decimal(start as nat);
    let b = text::decimal(end as nat);
    let ends = seq![a, b];
    text::digits_have_no(start as nat, ':');
    text::digits_have_no(end as nat, ':');
    text::numbers_read_back(start as nat, u32::MAX as nat, 0, 0);
    text::numbers_read_back(end as nat, u32::MAX as nat, 0, 0);
    assert forall|i: int| 0 <= i < ends.len() implies !(#[trigger] ends[i]).contains(':') by {
        assert(i == 0 || i == 1);
    }
    assert(":"@ =~= seq![':']);
    assert(ends.drop_last() =~= seq![a]);
    assert(text::join(seq![a], seq![':']) == a);
    assert(text::join(ends, seq![':']) == a + ":"@ + b);
    text::joined_pieces_come_apart(ends, ':');
    text::joined_pieces_come_apart(seq![a], ':');
}

} // verus!
