//! What the store keeps: what goes into its rows, which rows go and in what
//! order they come back. The statements themselves run where the connection
//! is.

use vstd::prelude::*;
use crate::dates;
use crate::folders;
use crate::folders::FolderRole;
use crate::mime;
use crate::models;
use crate::models::{Email, Folder, MessageHeader};
use crate::sort;
use crate::text;

verus! {

broadcast use vstd::seq_lib::group_to_multiset_ensures;

// --- searching ------------------------------------------------------------

/// A word as a quoted prefix for the full-text index.
pub open spec fn prefix_term(word: Seq<char>) -> Seq<char> {
    "\""@ + text::replace_char(word, '"', "\"\""@) + "\"*"@
}

/// The words of a text, each as a prefix for the full-text index.
pub open spec fn prefix_terms(words: Seq<Seq<char>>) -> Seq<Seq<char>> {
    Seq::new(words.len(), |i: int| prefix_term(words[i]))
}

/// Free text as a query for the full-text index.
pub open spec fn query_for(text: Seq<char>) -> Seq<char> {
    text::join(prefix_terms(text::words(text)), " "@)
}

/// Turn free text into a safe FTS5 query: each word matched as a prefix.
pub fn fts_query(text: &str) -> (r: String)
    ensures
        r@ == query_for(text@),
{
    let words = text::split_words(&text::chars_of(text));
    let ghost views = text::char_texts(words@);
    let mut terms: Vec<Vec<char>> = Vec::new();
    let mut i: usize = 0;
    while i < words.len()
        invariant
            i <= words.len(),
            terms.len() == i,
            views == text::char_texts(words@),
            forall|k: int| 0 <= k < i ==> (#[trigger] terms@[k])@ == prefix_term(views[k]),
        decreases words.len() - i,
    {
        let mut term = text::chars_of("\"");
        text::extend(&mut term, &text::replaced_char(&words[i], '"', &text::chars_of("\"\"")));
        text::extend_str(&mut term, "\"*");
        assert(term@ =~= prefix_term(views[i as int]));
        terms.push(term);
        i = i + 1;
    }
    assert(text::char_texts(terms@) =~= prefix_terms(views));
    text::text_of(&text::joined(&terms, &text::chars_of(" ")))
}

/// Every word of a search is looked for, as the start of a word: a search for one word asks for
/// that word in quotes, and one for two texts asks for what each of them asks for.
pub proof fn every_word_is_searched(a: Seq<char>, c: char, b: Seq<char>, word: Seq<char>)
    requires
        text::is_white(c),
        word.len() > 0,
        forall|k: int| 0 <= k < word.len() ==> !text::is_white(#[trigger] word[k]) && word[k] != '"',
    ensures
        query_for(word) == "\""@ + word + "\"*"@,
        text::words(a).len() > 0 && text::words(b).len() > 0 ==> query_for(a + seq![c] + b)
            == query_for(a) + " "@ + query_for(b),
        text::words(b).len() == 0 ==> query_for(a + seq![c] + b) == query_for(a),
        text::words(a).len() == 0 ==> query_for(a + seq![c] + b) == query_for(b),
        query_for(a).len() == 0 <==> text::words(a).len() == 0,
{
    text::a_word_is_one(word);
    no_quote_to_double(word, 0);
    let one = seq![word];
    assert(prefix_terms(one) =~= seq![prefix_term(word)]);
    text::words_add_up(a, c, b);
    let x = prefix_terms(text::words(a));
    let y = prefix_terms(text::words(b));
    assert(prefix_terms(text::words(a) + text::words(b)) =~= x + y);
    if x.len() > 0 && y.len() > 0 {
        text::joins_add_up(x, y, " "@);
    } else if x.len() > 0 {
        assert(x + y =~= x);
    } else {
        assert(x + y =~= y);
    }
    reveal_strlit("\"");
    if x.len() > 0 {
        text::joining_keeps_each(x, " "@, 0);
        assert(x[0] == prefix_term(text::words(a)[0]));
        assert(x[0].len() > 0);
    }
}

proof fn no_quote_to_double(word: Seq<char>, i: int)
    requires
        0 <= i <= word.len(),
        forall|k: int| 0 <= k < word.len() ==> #[trigger] word[k] != '"',
    ensures
        text::replace_char_from(word, '"', "\"\""@, i) == word.skip(i),
    decreases word.len() - i,
{
    if i < word.len() {
        no_quote_to_double(word, i + 1);
        assert(word.skip(i) =~= seq![word[i]] + word.skip(i + 1));
    } else {
        assert(word.skip(i) =~= Seq::empty());
    }
    assert(word.skip(0) =~= word);
}

/// How a search is answered.
#[derive(Debug, PartialEq, Eq)]
pub enum SearchPlan {
    /// With nothing: there is nowhere to look.
    Nothing,
    /// With everything: there is nothing to look for.
    Everything,
    /// With what matches this query.
    Matching(String),
}

/// Full-text search returns only the individual messages that match.
pub fn search_emails(folder_ids: &[i64], query: &str) -> (r: SearchPlan)
    ensures
        match r {
            SearchPlan::Nothing => folder_ids@.len() == 0,
            SearchPlan::Everything => folder_ids@.len() > 0 && query_for(query@).len() == 0,
            SearchPlan::Matching(q) => folder_ids@.len() > 0 && q@ == query_for(query@) && q@.len()
                > 0,
        },
{
    if folder_ids.len() == 0 {
        return SearchPlan::Nothing;
    }
    let matcher = fts_query(query);
    if matcher.as_str().is_empty() {
        SearchPlan::Everything
    } else {
        SearchPlan::Matching(matcher)
    }
}

// --- the order of emails --------------------------------------------------

/// What an email is ordered by.
#[derive(Clone, Copy)]
pub struct SortKey {
    pub pinned: bool,
    pub sent: i64,
    pub arrival: u32,
    pub id: i64,
    /// Where the email stands in the list.
    pub place: usize,
}

/// What an email is ordered by: its pin, when it was sent, when it arrived and its id.
pub open spec fn key_of(email: Email) -> (bool, int, int, int) {
    (
        email.is_pinned,
        dates::sort_key_of(dates::instant_of(email.date@)) as int,
        models::arrival_of(email.server_id) as int,
        email.id as int,
    )
}

/// Whether one key stands before another or is the same: greater ones come first.
pub open spec fn stands_before(a: (bool, int, int, int), b: (bool, int, int, int)) -> bool {
    if a.0 != b.0 {
        a.0
    } else if a.1 != b.1 {
        a.1 > b.1
    } else if a.2 != b.2 {
        a.2 > b.2
    } else {
        a.3 >= b.3
    }
}

/// Whether no email of a list has to stand before an earlier one.
pub open spec fn in_order(emails: Seq<Email>) -> bool {
    forall|i: int, j: int|
        0 <= i < j < emails.len() ==> stands_before(
            key_of(#[trigger] emails[i]),
            key_of(#[trigger] emails[j]),
        )
}

/// The key's parts.
pub open spec fn parts_of(k: SortKey) -> (bool, int, int, int) {
    (k.pinned, k.sent as int, k.arrival as int, k.id as int)
}

/// Emails pinned first and then newest first. Sent time is comparable across accounts and defines
/// the day sections. Arrival order breaks ties; the local ID makes the ordering stable.
pub fn sort_emails(emails: &[Email]) -> (r: Vec<Email>)
    ensures
        in_order(r@),
        r@.to_multiset() == emails@.to_multiset(),
{
    let mut keys: Vec<SortKey> = Vec::new();
    let mut i: usize = 0;
    while i < emails.len()
        invariant
            i <= emails.len(),
            keys.len() == i,
            forall|k: int|
                0 <= k < i ==> (#[trigger] keys@[k]).place == k && parts_of(keys@[k]) == key_of(
                    emails@[k],
                ),
        decreases emails.len() - i,
    {
        let email = &emails[i];
        keys.push(
            SortKey {
                pinned: email.is_pinned,
                sent: dates::sort_key(&email.date),
                arrival: email.arrival_key(),
                id: email.id,
                place: i,
            },
        );
        i = i + 1;
    }
    let before = |a: SortKey, b: SortKey| -> (r: bool)
        ensures
            r == stands_before(parts_of(a), parts_of(b)),
        {
            if a.pinned != b.pinned {
                a.pinned
            } else if a.sent != b.sent {
                a.sent > b.sent
            } else if a.arrival != b.arrival {
                a.arrival > b.arrival
            } else {
                a.id >= b.id
            }
        };
    let ghost le = |a: SortKey, b: SortKey| stands_before(parts_of(a), parts_of(b));
    let order = sort::sorted(&keys, &before, Ghost(le));
    proof {
        assert forall|k: int| 0 <= k < order.len() implies (#[trigger] order@[k]).place
            < emails.len() && parts_of(order@[k]) == key_of(emails@[order@[k].place as int]) by {
            assert(order@.contains(order@[k]));
            assert(order@.to_multiset().count(order@[k]) > 0);
            assert(keys@.to_multiset().count(order@[k]) > 0);
            assert(keys@.contains(order@[k]));
        }
    }
    let mut out: Vec<Email> = Vec::new();
    let mut n: usize = 0;
    while n < order.len()
        invariant
            n <= order.len(),
            out.len() == n,
            forall|k: int| 0 <= k < order.len() ==> (#[trigger] order@[k]).place < emails.len(),
            forall|k: int|
                0 <= k < n ==> #[trigger] out@[k] == emails@[order@[k].place as int],
        decreases order.len() - n,
    {
        out.push(emails[order[n].place].clone());
        n = n + 1;
    }
    proof {
        let f = |k: SortKey| emails@[k.place as int];
        assert(out@ =~= order@.map_values(f));
        assert(emails@ =~= keys@.map_values(f));
        sort::mapping_keeps_items(order@, keys@, f);
        assert forall|i: int, j: int| 0 <= i < j < out@.len() implies stands_before(
            key_of(#[trigger] out@[i]),
            key_of(#[trigger] out@[j]),
        ) by {
            assert(le(order@[i], order@[j]));
        }
    }
    out
}

/// A pinned email never stands behind one that is not pinned.
pub proof fn pinned_stand_first(emails: Seq<Email>, i: int, j: int)
    requires
        in_order(emails),
        0 <= i < emails.len(),
        0 <= j < emails.len(),
        emails[i].is_pinned,
        !emails[j].is_pinned,
    ensures
        i < j,
{
    if j < i {
        assert(stands_before(key_of(emails[j]), key_of(emails[i])));
    }
}

/// Of two emails with the same pin the one that stands first was sent later or, where both were sent
/// at one moment, arrived later. One whose date cannot be read stands behind all whose date can.
pub proof fn newest_stand_first(emails: Seq<Email>, i: int, j: int)
    requires
        in_order(emails),
        0 <= i < j < emails.len(),
        emails[i].is_pinned == emails[j].is_pinned,
    ensures
        dates::instant_of(emails[i].date@) is Some && dates::instant_of(emails[j].date@) is Some ==> {
            let s = dates::instant_of(emails[i].date@)->0;
            let t = dates::instant_of(emails[j].date@)->0;
            &&& s >= t
            &&& s == t ==> models::arrival_of(emails[i].server_id) >= models::arrival_of(
                emails[j].server_id,
            )
            &&& s == t && models::arrival_of(emails[i].server_id) == models::arrival_of(
                emails[j].server_id,
            ) ==> emails[i].id >= emails[j].id
        },
        dates::instant_of(emails[i].date@) is None && dates::instant_of(emails[j].date@) is Some
            ==> dates::instant_of(emails[j].date@) == Some(i64::MIN),
{
    assert(stands_before(key_of(emails[i]), key_of(emails[j])));
}

/// The order is the only one: two lists of the same emails in order are the same list, if no two
/// of their emails have the same id.
pub proof fn order_is_the_only_one(a: Seq<Email>, b: Seq<Email>)
    requires
        in_order(a),
        in_order(b),
        a.to_multiset() == b.to_multiset(),
        forall|i: int, j: int|
            0 <= i < j < a.len() ==> (#[trigger] a[i]).id != (#[trigger] a[j]).id,
    ensures
        a == b,
    decreases a.len(),
{
    assert(a.len() == a.to_multiset().len() && b.len() == b.to_multiset().len());
    if a.len() > 0 {
        assert(a.contains(a[0]) && b.contains(b[0]));
        assert(a.to_multiset().count(b[0]) > 0 && b.to_multiset().count(a[0]) > 0);
        assert(a.contains(b[0]) && b.contains(a[0]));
        let k = choose|k: int| 0 <= k < a.len() && a[k] == b[0];
        let m = choose|m: int| 0 <= m < b.len() && b[m] == a[0];
        if k > 0 {
            assert(stands_before(key_of(a[0]), key_of(a[k])));
            assert(stands_before(key_of(b[0]), key_of(b[m])));
            assert(a[0].id != a[k].id);
        }
        assert(a[0] == b[0]);
        let x = a.remove(0);
        let y = b.remove(0);
        vstd::seq_lib::to_multiset_remove(a, 0);
        vstd::seq_lib::to_multiset_remove(b, 0);
        assert(in_order(x)) by {
            assert forall|i: int, j: int| 0 <= i < j < x.len() implies stands_before(
                key_of(#[trigger] x[i]),
                key_of(#[trigger] x[j]),
            ) by {
                assert(x[i] == a[i + 1] && x[j] == a[j + 1]);
            }
        }
        assert(in_order(y)) by {
            assert forall|i: int, j: int| 0 <= i < j < y.len() implies stands_before(
                key_of(#[trigger] y[i]),
                key_of(#[trigger] y[j]),
            ) by {
                assert(y[i] == b[i + 1] && y[j] == b[j + 1]);
            }
        }
        assert forall|i: int, j: int| 0 <= i < j < x.len() implies (#[trigger] x[i]).id
            != (#[trigger] x[j]).id by {
            assert(x[i] == a[i + 1] && x[j] == a[j + 1]);
        }
        order_is_the_only_one(x, y);
        assert(a =~= seq![a[0]] + x);
        assert(b =~= seq![b[0]] + y);
    } else {
        assert(a =~= b);
    }
}

// --- folders --------------------------------------------------------------

/// The place of the folder with an id, from `i` on.
pub open spec fn row_of(rows: Seq<Folder>, id: i64, i: int) -> Option<int>
    decreases rows.len() - i,
{
    if i < 0 || i >= rows.len() {
        None
    } else if rows[i].id == id {
        Some(i)
    } else {
        row_of(rows, id, i + 1)
    }
}

/// The folder above the one with an id.
pub open spec fn parent_of(rows: Seq<Folder>, id: i64) -> Option<i64> {
    match row_of(rows, id, 0) {
        Some(k) => rows[k].parent_id,
        None => None,
    }
}

/// How many folders stand above the one with an id, counting at most `most`.
pub open spec fn depth(rows: Seq<Folder>, id: i64, most: nat) -> nat
    decreases most,
{
    match parent_of(rows, id) {
        Some(parent) => if most > 0 {
            1 + depth(rows, parent, (most - 1) as nat)
        } else {
            0
        },
        None => 0,
    }
}

/// Whether every folder has an end of folders above it.
pub open spec fn is_forest(rows: Seq<Folder>) -> bool {
    forall|id: i64| #[trigger] depth(rows, id, rows.len()) < rows.len() || rows.len() == 0
}

/// Whether the folder with an id, or one of the `most` above it, is none of those to keep.
pub open spec fn is_stale(rows: Seq<Folder>, keep: Seq<Seq<char>>, id: i64, most: nat) -> bool
    decreases most,
{
    match row_of(rows, id, 0) {
        Some(k) => !keep.contains(rows[k].name@) || (most > 0 && match rows[k].parent_id {
            Some(parent) => is_stale(rows, keep, parent, (most - 1) as nat),
            None => false,
        }),
        None => false,
    }
}

/// The ids of the first `n` folders that are to go.
pub open spec fn stale_ids(rows: Seq<Folder>, keep: Seq<Seq<char>>, n: int) -> Seq<i64>
    decreases n,
{
    if n <= 0 || n > rows.len() {
        Seq::empty()
    } else if is_stale(rows, keep, rows[n - 1].id, rows.len()) {
        stale_ids(rows, keep, n - 1).push(rows[n - 1].id)
    } else {
        stale_ids(rows, keep, n - 1)
    }
}

/// A folder that is to go, with the number of folders above it.
#[derive(Clone, Copy)]
pub struct Stale {
    pub id: i64,
    pub depth: usize,
}

proof fn row_of_is_in(rows: Seq<Folder>, id: i64, i: int)
    requires
        0 <= i,
    ensures
        row_of(rows, id, i) matches Some(k) ==> i <= k < rows.len() && rows[k].id == id,
    decreases rows.len() - i,
{
    if i < rows.len() && rows[i].id != id {
        row_of_is_in(rows, id, i + 1);
    }
}

fn find_row(rows: &[Folder], id: i64) -> (r: Option<usize>)
    ensures
        match r {
            Some(k) => k < rows.len() && row_of(rows@, id, 0) == Some(k as int),
            None => row_of(rows@, id, 0) is None,
        },
{
    let mut i: usize = 0;
    while i < rows.len()
        invariant
            i <= rows.len(),
            row_of(rows@, id, 0) == row_of(rows@, id, i as int),
        decreases rows.len() - i,
    {
        if rows[i].id == id {
            return Some(i);
        }
        i = i + 1;
    }
    None
}

fn depth_of(rows: &[Folder], id: i64) -> (r: usize)
    ensures
        r == depth(rows@, id, rows@.len()),
{
    let mut at: i64 = id;
    let mut count: usize = 0;
    while count < rows.len()
        invariant
            count <= rows.len(),
            depth(rows@, id, rows@.len()) == count + depth(
                rows@,
                at,
                (rows@.len() - count) as nat,
            ),
        decreases rows.len() - count,
    {
        match find_row(rows, at) {
            Some(k) => match rows[k].parent_id {
                Some(parent) => {
                    at = parent;
                },
                None => {
                    return count;
                },
            },
            None => {
                return count;
            },
        }
        count = count + 1;
    }
    count
}

fn goes(rows: &[Folder], keep: &[String], id: i64) -> (r: bool)
    ensures
        r == is_stale(rows@, text::texts(keep@), id, rows@.len()),
{
    let ghost names = text::texts(keep@);
    let mut at: i64 = id;
    let mut count: usize = 0;
    loop
        invariant
            count <= rows.len(),
            names == text::texts(keep@),
            is_stale(rows@, names, id, rows@.len()) == is_stale(
                rows@,
                names,
                at,
                (rows@.len() - count) as nat,
            ),
        decreases rows.len() - count,
    {
        match find_row(rows, at) {
            Some(k) => {
                if !text::list_contains(keep, &rows[k].name) {
                    return true;
                }
                if count == rows.len() {
                    return false;
                }
                match rows[k].parent_id {
                    Some(parent) => {
                        at = parent;
                    },
                    None => {
                        return false;
                    },
                }
            },
            None => {
                return false;
            },
        }
        count = count + 1;
    }
}

/// The folders of an account to delete, with their emails, in order: those whose names aren't in
/// `keep_names`, mirroring the server's folder list, and all below them. Deepest first: a parent
/// cannot go while a child still points at it.
pub fn prune_folders(folders: &[Folder], keep_names: &[String]) -> (r: Vec<i64>)
    ensures
        r@.to_multiset() == stale_ids(
            folders@,
            text::texts(keep_names@),
            folders@.len() as int,
        ).to_multiset(),
        forall|i: int, j: int|
            0 <= i < j < r@.len() ==> depth(folders@, #[trigger] r@[i], folders@.len()) >= depth(
                folders@,
                #[trigger] r@[j],
                folders@.len(),
            ),
{
    let ghost keep = text::texts(keep_names@);
    let ghost id_of = |s: Stale| s.id;
    let mut found: Vec<Stale> = Vec::new();
    let mut i: usize = 0;
    assert(found@.map_values(id_of) =~= Seq::empty());
    while i < folders.len()
        invariant
            i <= folders.len(),
            keep == text::texts(keep_names@),
            id_of == (|s: Stale| s.id),
            found@.map_values(id_of) == stale_ids(folders@, keep, i as int),
            forall|k: int|
                0 <= k < found.len() ==> (#[trigger] found@[k]).depth == depth(
                    folders@,
                    found@[k].id,
                    folders@.len(),
                ),
        decreases folders.len() - i,
    {
        let id: i64 = folders[i].id;
        if goes(folders, keep_names, id) {
            let ghost before = found@;
            found.push(Stale { id, depth: depth_of(folders, id) });
            assert(found@.map_values(id_of) =~= before.map_values(id_of).push(id));
        }
        i = i + 1;
    }
    let deeper = |a: Stale, b: Stale| -> (r: bool)
        ensures
            r == (a.depth >= b.depth),
        { a.depth >= b.depth };
    let ghost le = |a: Stale, b: Stale| a.depth >= b.depth;
    let order = sort::sorted(&found, &deeper, Ghost(le));
    proof {
        assert forall|k: int| 0 <= k < order.len() implies (#[trigger] order@[k]).depth == depth(
            folders@,
            order@[k].id,
            folders@.len(),
        ) by {
            assert(order@.contains(order@[k]));
            assert(order@.to_multiset().count(order@[k]) > 0);
            assert(found@.to_multiset().count(order@[k]) > 0);
            assert(found@.contains(order@[k]));
        }
        sort::mapping_keeps_items(order@, found@, id_of);
    }
    let mut out: Vec<i64> = Vec::new();
    let mut n: usize = 0;
    while n < order.len()
        invariant
            n <= order.len(),
            out.len() == n,
            forall|k: int| 0 <= k < n ==> #[trigger] out@[k] == order@[k].id,
        decreases order.len() - n,
    {
        out.push(order[n].id);
        n = n + 1;
    }
    proof {
        assert(out@ =~= order@.map_values(id_of));
        assert forall|i: int, j: int| 0 <= i < j < out@.len() implies depth(
            folders@,
            #[trigger] out@[i],
            folders@.len(),
        ) >= depth(folders@, #[trigger] out@[j], folders@.len()) by {
            assert(le(order@[i], order@[j]));
        }
    }
    out
}

proof fn depth_is_settled(rows: Seq<Folder>, id: i64, most: nat)
    requires
        depth(rows, id, most) < most,
    ensures
        depth(rows, id, most + 1) == depth(rows, id, most),
    decreases most,
{
    match parent_of(rows, id) {
        Some(parent) => {
            depth_is_settled(rows, parent, (most - 1) as nat);
        },
        None => {},
    }
}

/// In a list of ids with the deepest first, a folder stands before the one above it.
pub proof fn children_go_first(rows: Seq<Folder>, ids: Seq<i64>, child: int, parent: int)
    requires
        is_forest(rows),
        forall|i: int, j: int|
            0 <= i < j < ids.len() ==> depth(rows, #[trigger] ids[i], rows.len()) >= depth(
                rows,
                #[trigger] ids[j],
                rows.len(),
            ),
        0 <= child < ids.len(),
        0 <= parent < ids.len(),
        parent_of(rows, ids[child]) == Some(ids[parent]),
    ensures
        child < parent,
{
    let n = rows.len();
    row_of_is_in(rows, ids[child], 0);
    let above = ids[parent];
    assert(depth(rows, ids[child], n) == 1 + depth(rows, above, (n - 1) as nat));
    assert(depth(rows, ids[child], n) < n);
    depth_is_settled(rows, above, (n - 1) as nat);
    assert(depth(rows, above, n) == depth(rows, above, (n - 1) as nat));
    if parent < child {
        assert(depth(rows, ids[parent], n) >= depth(rows, ids[child], n));
    }
}

/// Where the folders above one come to an end, looking further up changes nothing.
proof fn staleness_is_settled(rows: Seq<Folder>, keep: Seq<Seq<char>>, id: i64, most: nat)
    requires
        most > 0,
        depth(rows, id, most) < most,
    ensures
        is_stale(rows, keep, id, most) == is_stale(rows, keep, id, (most - 1) as nat),
    decreases most,
{
    if let Some(parent) = parent_of(rows, id) {
        assert(depth(rows, id, most) == 1 + depth(rows, parent, (most - 1) as nat));
        staleness_is_settled(rows, keep, parent, (most - 1) as nat);
    }
}

/// Whatever stands below a folder that goes, goes with it.
pub proof fn descendants_go_too(rows: Seq<Folder>, keep: Seq<Seq<char>>, child: i64, parent: i64)
    requires
        is_forest(rows),
        parent_of(rows, child) == Some(parent),
        is_stale(rows, keep, parent, rows.len()),
    ensures
        is_stale(rows, keep, child, rows.len()),
{
    row_of_is_in(rows, child, 0);
    assert(depth(rows, parent, rows.len()) < rows.len());
    staleness_is_settled(rows, keep, parent, rows.len());
}

/// A folder goes whose name is none of those to keep, and one stays that has a name to keep and
/// stands below none that goes.
pub proof fn folders_to_keep_stay(rows: Seq<Folder>, keep: Seq<Seq<char>>, k: int)
    requires
        is_forest(rows),
        0 <= k < rows.len(),
        row_of(rows, rows[k].id, 0) == Some(k),
    ensures
        !keep.contains(rows[k].name@) ==> is_stale(rows, keep, rows[k].id, rows.len()),
        keep.contains(rows[k].name@) && rows[k].parent_id is None ==> !is_stale(
            rows,
            keep,
            rows[k].id,
            rows.len(),
        ),
        keep.contains(rows[k].name@) && rows[k].parent_id is Some && !is_stale(
            rows,
            keep,
            rows[k].parent_id->0,
            rows.len(),
        ) ==> !is_stale(rows, keep, rows[k].id, rows.len()),
{
    if let Some(parent) = rows[k].parent_id {
        assert(depth(rows, parent, rows.len()) < rows.len());
        staleness_is_settled(rows, keep, parent, rows.len());
    }
}

/// Exactly the folders that go are listed.
pub proof fn exactly_the_stale_are_listed(rows: Seq<Folder>, keep: Seq<Seq<char>>, n: int)
    requires
        0 <= n <= rows.len(),
    ensures
        forall|k: int|
            0 <= k < n && is_stale(rows, keep, (#[trigger] rows[k]).id, rows.len()) ==> stale_ids(
                rows,
                keep,
                n,
            ).contains(rows[k].id),
        forall|i: int|
            0 <= i < stale_ids(rows, keep, n).len() ==> exists|k: int|
                0 <= k < n && (#[trigger] rows[k]).id == #[trigger] stale_ids(rows, keep, n)[i]
                    && is_stale(rows, keep, rows[k].id, rows.len()),
    decreases n,
{
    if n > 0 {
        exactly_the_stale_are_listed(rows, keep, n - 1);
        let before = stale_ids(rows, keep, n - 1);
        let all = stale_ids(rows, keep, n);
        assert forall|k: int|
            0 <= k < n && is_stale(rows, keep, (#[trigger] rows[k]).id, rows.len()) implies all.contains(
            rows[k].id,
        ) by {
            if k < n - 1 {
                let i = choose|i: int| 0 <= i < before.len() && before[i] == rows[k].id;
                assert(all[i] == rows[k].id);
            } else {
                assert(all[before.len() as int] == rows[k].id);
            }
        }
        assert forall|i: int| 0 <= i < all.len() implies exists|k: int|
            0 <= k < n && (#[trigger] rows[k]).id == #[trigger] all[i] && is_stale(
                rows,
                keep,
                rows[k].id,
                rows.len(),
            ) by {
            if i < before.len() {
                assert(all[i] == before[i]);
                let k = choose|k: int|
                    0 <= k < n - 1 && (#[trigger] rows[k]).id == before[i] && is_stale(
                        rows,
                        keep,
                        rows[k].id,
                        rows.len(),
                    );
                assert(rows[k].id == all[i]);
            } else {
                assert(rows[n - 1].id == all[i]);
            }
        }
    }
}

/// The folder of an account as it is first made.
pub fn new_folder(id: i64, account_id: i64, name: &str, icon_name: &str) -> (r: Folder)
    ensures
        r.id == id,
        r.account_id == account_id,
        r.name@ == name@,
        r.icon_name@ == icon_name@,
        r.parent_id is None,
        r.delimiter@ == "/"@,
{
    Folder {
        id,
        account_id,
        name: name.to_owned(),
        icon_name: icon_name.to_owned(),
        parent_id: None,
        delimiter: "/".to_owned(),
    }
}

/// The name of the local folder that mirrors an account's sent mailbox on the server, and its icon.
/// Falls back to "Sent" for an account whose folder list hasn't synced yet.
pub fn sent_folder(names: &[&str]) -> (r: (String, &'static str))
    ensures
        r.0@ == (match folders::first_with_role(folders::str_texts(names@), FolderRole::Sent, 0) {
            Some(name) => name,
            None => folders::SENT_FOLDER@,
        }),
        r.1@ == folders::icon_of(folders::role_of(r.0@)),
{
    let name: String = match folders::mailbox_with_role(names, FolderRole::Sent) {
        Some(name) => name.to_owned(),
        None => folders::SENT_FOLDER.to_owned(),
    };
    let icon = folders::icon_for_folder(&name);
    (name, icon)
}

// --- emails ---------------------------------------------------------------

/// Whether an email of a folder is one that the server had and has no more.
pub open spec fn is_gone(email: Email, active: Seq<Seq<char>>) -> bool {
    match email.server_id {
        Some(uid) => uid@.len() > 0 && !active.contains(uid@),
        None => false,
    }
}

/// The ids of the first `n` emails that the server has no more.
pub open spec fn gone_ids(emails: Seq<Email>, active: Seq<Seq<char>>, n: int) -> Seq<i64>
    decreases n,
{
    if n <= 0 || n > emails.len() {
        Seq::empty()
    } else if is_gone(emails[n - 1], active) {
        gone_ids(emails, active, n - 1).push(emails[n - 1].id)
    } else {
        gone_ids(emails, active, n - 1)
    }
}

/// The server-backed emails of a folder that are no longer present in the authoritative set.
pub fn prune_stale_emails(emails: &[Email], active_uids: &[String]) -> (r: Vec<i64>)
    ensures
        r@ == gone_ids(emails@, text::texts(active_uids@), emails@.len() as int),
{
    let mut out: Vec<i64> = Vec::new();
    let mut i: usize = 0;
    while i < emails.len()
        invariant
            i <= emails.len(),
            out@ == gone_ids(emails@, text::texts(active_uids@), i as int),
        decreases emails.len() - i,
    {
        let gone = match &emails[i].server_id {
            Some(uid) => !uid.as_str().is_empty() && !text::list_contains(active_uids, uid),
            None => false,
        };
        if gone {
            out.push(emails[i].id);
        }
        i = i + 1;
    }
    out
}

/// Exactly the emails go that have an identity on the server which it no longer names: one that was
/// never on the server stays, and so does one that the server still has.
pub proof fn exactly_the_gone_go(emails: Seq<Email>, active: Seq<Seq<char>>, n: int)
    requires
        0 <= n <= emails.len(),
    ensures
        forall|k: int|
            0 <= k < n && (#[trigger] emails[k]).server_id is Some && emails[k].server_id->0@.len()
                > 0 && !active.contains(emails[k].server_id->0@) ==> gone_ids(
                emails,
                active,
                n,
            ).contains(emails[k].id),
        forall|id: i64| #[trigger]
            gone_ids(emails, active, n).contains(id) ==> exists|k: int|
                0 <= k < n && (#[trigger] emails[k]).id == id && is_gone(emails[k], active),
        forall|email: Email| #[trigger]
            is_gone(email, active) ==> email.server_id is Some && email.server_id->0@.len() > 0
                && !active.contains(email.server_id->0@),
    decreases n,
{
    if n > 0 {
        exactly_the_gone_go(emails, active, n - 1);
        let before = gone_ids(emails, active, n - 1);
        let all = gone_ids(emails, active, n);
        assert forall|k: int|
            0 <= k < n && (#[trigger] emails[k]).server_id is Some && emails[k].server_id->0@.len()
                > 0 && !active.contains(emails[k].server_id->0@) implies all.contains(
            emails[k].id,
        ) by {
            if k < n - 1 {
                let i = choose|i: int| 0 <= i < before.len() && before[i] == emails[k].id;
                assert(all[i] == emails[k].id);
            } else {
                assert(all[before.len() as int] == emails[k].id);
            }
        }
        assert forall|id: i64| #[trigger] all.contains(id) implies exists|k: int|
            0 <= k < n && (#[trigger] emails[k]).id == id && is_gone(emails[k], active) by {
            let i = choose|i: int| 0 <= i < all.len() && all[i] == id;
            if i < before.len() {
                assert(all[i] == before[i]);
                assert(before.contains(id));
                let k = choose|k: int|
                    0 <= k < n - 1 && (#[trigger] emails[k]).id == id && is_gone(
                        emails[k],
                        active,
                    );
                assert(emails[k].id == id);
            } else {
                assert(emails[n - 1].id == id);
            }
        }
    }
}

/// What becomes of a row whose email was moved on the server.
#[derive(Debug, PartialEq, Eq)]
pub enum Reconciled {
    /// The row is deleted.
    Remove,
    /// The row gets this UID in the destination folder.
    Place(String),
}

/// Place a moved email at a (folder, UID) the server gave.
/// A missing UID means the server accepted the move but did not say how
/// to identify the new row, so the placeholder is removed for the next
/// sync to fill in. So it is where the destination sync already has the authoritative row.
pub fn reconcile_moved_email(server_id: Option<String>, taken: bool) -> (r: Reconciled)
    ensures
        match r {
            Reconciled::Remove => server_id is None || taken,
            Reconciled::Place(uid) => !taken && server_id == Some(uid),
        },
{
    match server_id {
        Some(uid) => if taken {
            Reconciled::Remove
        } else {
            Reconciled::Place(uid)
        },
        None => Reconciled::Remove,
    }
}

/// The preview of a row whose message was downloaded: a row synced before previews existed gets it
/// filled in from the body.
pub fn filled_preview(current: &str, raw: &[u8]) -> (r: String)
    requires
        raw@.len() <= u32::MAX,
    ensures
        r@ == (if current@.len() == 0 {
            mime::preview_in(raw@)
        } else {
            current@
        }),
{
    if current.is_empty() {
        mime::preview(&mime::parse_message(raw))
    } else {
        current.to_owned()
    }
}

/// What is done with one fetched email.
#[derive(Clone, Copy, Debug, PartialEq, Eq, Structural)]
pub enum Incoming {
    /// Its UID is new: insert it.
    Insert,
    /// Another message stood at its UID (a mailbox that reset its
    /// UIDs). Replace the row, which also drops its cached body.
    Replace,
    /// The row is known: update it.
    Update,
}

impl Incoming {
    /// Whether the row is new, which is how a sync tells which messages to notify about.
    pub fn is_new(self) -> (r: bool)
        ensures
            r == (self != Incoming::Update),
    {
        match self {
            Incoming::Update => false,
            _ => true,
        }
    }
}

/// What is done with a fetched email, given the row at its UID, if there is one.
pub open spec fn incoming(existing: Option<Email>, header: MessageHeader) -> Incoming {
    match existing {
        Some(row) => if row.message_id@ == header.message_id@ {
            Incoming::Update
        } else {
            Incoming::Replace
        },
        None => Incoming::Insert,
    }
}

/// Insert one fetched email, or update the flags of one we already have.
pub fn save_incoming_email(existing: &Option<Email>, header: &MessageHeader) -> (r: Incoming)
    ensures
        r == incoming(*existing, *header),
{
    match existing {
        Some(row) => if text::same_str(&row.message_id, &header.message_id) {
            Incoming::Update
        } else {
            Incoming::Replace
        },
        None => Incoming::Insert,
    }
}

/// Whether a row holds what a fetched header says, and what only the row knows of it is kept.
pub open spec fn updates(before: Email, header: MessageHeader, after: Email) -> bool {
    &&& after.id == before.id
    &&& after.folder_id == before.folder_id
    &&& after.server_id == before.server_id
    &&& after.sender@ == before.sender@
    &&& after.sender_address@ == before.sender_address@
    &&& after.subject@ == before.subject@
    &&& after.date@ == before.date@
    &&& after.message_id@ == before.message_id@
    &&& after.in_reply_to@ == before.in_reply_to@
    &&& after.references@ == before.references@
    &&& after.conversation_id == before.conversation_id
    &&& after.recipient@ == header.recipient@
    &&& after.recipient_address@ == header.recipient_address@
    &&& after.is_unread == header.is_unread
    &&& after.is_starred == header.is_starred
    &&& after.is_pinned == header.is_pinned
    &&& after.preview@ == (if header.preview@.len() == 0 {
        before.preview@
    } else {
        header.preview@
    })
}

/// A known row with what a fetched header says of it.
pub fn updated_email(row: &Email, header: &MessageHeader) -> (r: Email)
    ensures
        updates(*row, *header, r),
{
    let mut out = row.clone();
    out.recipient = header.recipient.clone();
    out.recipient_address = header.recipient_address.clone();
    out.is_unread = header.is_unread;
    out.is_starred = header.is_starred;
    out.is_pinned = header.is_pinned;
    if !header.preview.as_str().is_empty() {
        out.preview = header.preview.clone();
    }
    out
}

/// Whether two rows hold the same.
pub open spec fn same_row(a: Email, b: Email) -> bool {
    &&& a.id == b.id
    &&& a.folder_id == b.folder_id
    &&& a.server_id == b.server_id
    &&& a.sender@ == b.sender@
    &&& a.sender_address@ == b.sender_address@
    &&& a.recipient@ == b.recipient@
    &&& a.recipient_address@ == b.recipient_address@
    &&& a.subject@ == b.subject@
    &&& a.preview@ == b.preview@
    &&& a.date@ == b.date@
    &&& a.is_unread == b.is_unread
    &&& a.is_starred == b.is_starred
    &&& a.is_pinned == b.is_pinned
    &&& a.message_id@ == b.message_id@
    &&& a.in_reply_to@ == b.in_reply_to@
    &&& a.references@ == b.references@
    &&& a.conversation_id == b.conversation_id
}

/// What the server says of an email is what its row says from then on, and what only the row knows
/// stays: where it is, what it was sent as and which conversation it belongs to.
pub proof fn rows_follow_the_server(before: Email, header: MessageHeader, after: Email)
    requires
        updates(before, header, after),
    ensures
        after.is_unread == header.is_unread,
        after.is_starred == header.is_starred,
        after.is_pinned == header.is_pinned,
        after.recipient@ == header.recipient@ && after.recipient_address@
            == header.recipient_address@,
        header.preview@.len() > 0 ==> after.preview@ == header.preview@,
        header.preview@.len() == 0 ==> after.preview@ == before.preview@,
        after.id == before.id && after.folder_id == before.folder_id && after.server_id
            == before.server_id && after.conversation_id == before.conversation_id,
        after.sender@ == before.sender@ && after.sender_address@ == before.sender_address@,
        after.subject@ == before.subject@ && after.date@ == before.date@,
        after.message_id@ == before.message_id@ && after.in_reply_to@ == before.in_reply_to@
            && after.references@ == before.references@,
{
}

/// A row is updated by the message it holds, and by no other: another message at its UID takes its
/// place.
pub proof fn rows_hold_one_message(existing: Option<Email>, header: MessageHeader)
    ensures
        incoming(existing, header) == Incoming::Insert <==> existing is None,
        incoming(existing, header) == Incoming::Update <==> existing is Some
            && existing->0.message_id@ == header.message_id@,
        incoming(existing, header) == Incoming::Replace <==> existing is Some
            && existing->0.message_id@ != header.message_id@,
{
}

/// Storing a known email again changes nothing: what a header said once, it says twice.
pub proof fn storing_twice_is_storing_once(
    before: Email,
    header: MessageHeader,
    once: Email,
    twice: Email,
)
    requires
        updates(before, header, once),
        updates(once, header, twice),
    ensures
        same_row(once, twice),
{
}

/// An email with a preview never loses it to a header without one.
pub proof fn previews_are_kept(before: Email, header: MessageHeader, after: Email)
    requires
        updates(before, header, after),
        before.preview@.len() > 0,
    ensures
        after.preview@.len() > 0,
{
}

// --- accounts -------------------------------------------------------------

/// The colour that marks an account's mail as it is stored; anything that isn't
/// `#rrggbb` clears it back to the palette default.
pub fn stored_color(color: &str) -> (r: String)
    ensures
        r@ == (if models::hex_color(color@) {
            color@
        } else {
            Seq::empty()
        }),
{
    if models::is_hex_color(color) {
        color.to_owned()
    } else {
        String::new()
    }
}

/// The label of an account, or its choice of sound, as it is stored.
pub fn stored_text(text: &str) -> (r: String)
    ensures
        r@ == text::trim(text@),
{
    text::trim_str(text)
}

/// The place of the first schema change that has not run on a database, given how many have.
pub fn first_migration(version: i64, count: usize) -> (r: usize)
    ensures
        r == (if version <= 0 {
            0
        } else if version >= count {
            count as int
        } else {
            version as int
        }),
{
    if version <= 0 {
        0
    } else if version as u64 >= count as u64 {
        count
    } else {
        version as usize
    }
}

// --- contacts -------------------------------------------------------------

/// The name of a contact after another sighting: one with a name tells it, an anonymous one never
/// wipes a name that is known.
pub open spec fn named_after(known: Seq<char>, seen: Seq<char>) -> Seq<char> {
    if seen.len() > 0 {
        seen
    } else {
        known
    }
}

/// The name of a contact after some more sightings.
pub open spec fn name_after(known: Seq<char>, sightings: Seq<Seq<char>>) -> Seq<char>
    decreases sightings.len(),
{
    if sightings.len() == 0 {
        known
    } else {
        named_after(name_after(known, sightings.drop_last()), sightings.last())
    }
}

/// A contact that has a name keeps having one, whatever is seen.
pub proof fn names_are_never_wiped(known: Seq<char>, sightings: Seq<Seq<char>>)
    ensures
        known.len() > 0 ==> name_after(known, sightings).len() > 0,
        (forall|i: int| 0 <= i < sightings.len() ==> (#[trigger] sightings[i]).len() == 0)
            ==> name_after(known, sightings) == known,
    decreases sightings.len(),
{
    if sightings.len() > 0 {
        let front = sightings.drop_last();
        names_are_never_wiped(known, front);
        if forall|i: int| 0 <= i < sightings.len() ==> (#[trigger] sightings[i]).len() == 0 {
            assert forall|i: int| 0 <= i < front.len() implies (#[trigger] front[i]).len() == 0 by {
                assert(front[i] == sightings[i]);
            }
            assert(sightings.last() == sightings[sightings.len() - 1]);
        }
    }
}

/// The name of a contact after another sighting.
pub fn contact_name(known: &str, seen: &str) -> (r: String)
    ensures
        r@ == named_after(known@, seen@),
{
    if !seen.is_empty() {
        seen.to_owned()
    } else {
        known.to_owned()
    }
}

/// The contacts that some pairs of a name and an address tell of: the address in lower case, and the
/// name.
pub open spec fn sightings_of(pairs: Seq<(String, String)>) -> Seq<(Seq<char>, Seq<char>)>
    decreases pairs.len(),
{
    if pairs.len() == 0 {
        Seq::empty()
    } else {
        let before = sightings_of(pairs.drop_last());
        let (name, address) = pairs.last();
        if address@.len() > 0 {
            before.push((text::lowercase(address@), name@))
        } else {
            before
        }
    }
}

/// Everybody with an address is remembered, under the address in lower case and with the name, and
/// nobody else is.
pub proof fn everybody_is_remembered(a: Seq<(String, String)>, b: Seq<(String, String)>)
    ensures
        sightings_of(a + b) == sightings_of(a) + sightings_of(b),
        forall|name: String, address: String| #[trigger]
            sightings_of(seq![(name, address)]) == (if address@.len() > 0 {
                seq![(text::lowercase(address@), name@)]
            } else {
                Seq::empty()
            }),
    decreases b.len(),
{
    assert forall|name: String, address: String| #[trigger]
        sightings_of(seq![(name, address)]) == (if address@.len() > 0 {
            seq![(text::lowercase(address@), name@)]
        } else {
            Seq::empty()
        }) by {
        let one = seq![(name, address)];
        assert(one.drop_last() =~= Seq::empty());
        assert(sightings_of(one.drop_last()) =~= Seq::empty());
        assert(one.last() == (name, address));
        if address@.len() > 0 {
            assert(sightings_of(one) =~= seq![(text::lowercase(address@), name@)]);
        }
    }
    if b.len() == 0 {
        assert(a + b =~= a);
        assert(sightings_of(a) + sightings_of(b) =~= sightings_of(a));
    } else {
        assert((a + b).drop_last() =~= a + b.drop_last());
        assert((a + b).last() == b.last());
        everybody_is_remembered(a, b.drop_last());
        assert(sightings_of(a + b) =~= sightings_of(a) + sightings_of(b));
    }
}

/// The texts of some pairs.
pub open spec fn pair_views(pairs: Seq<(String, String)>) -> Seq<(Seq<char>, Seq<char>)> {
    Seq::new(pairs.len(), |i: int| (pairs[i].0@, pairs[i].1@))
}

/// The (address, name) pairs to remember of (name, address) pairs. A later sighting fills in a
/// missing display name.
pub fn save_contacts(addresses: &[(String, String)]) -> (r: Vec<(String, String)>)
    ensures
        pair_views(r@) == sightings_of(addresses@),
{
    let mut out: Vec<(String, String)> = Vec::new();
    let mut i: usize = 0;
    assert(pair_views(out@) =~= Seq::empty());
    assert(addresses@.take(0) =~= Seq::empty());
    while i < addresses.len()
        invariant
            i <= addresses.len(),
            pair_views(out@) == sightings_of(addresses@.take(i as int)),
        decreases addresses.len() - i,
    {
        proof {
            assert(addresses@.take(i + 1).drop_last() =~= addresses@.take(i as int));
            assert(addresses@.take(i + 1).last() == addresses@[i as int]);
        }
        if !addresses[i].1.as_str().is_empty() {
            let ghost before = out@;
            let address = text::to_lowercase(&addresses[i].1);
            let ghost view = (address@, addresses@[i as int].0@);
            out.push((address, addresses[i].0.clone()));
            assert(pair_views(out@) =~= pair_views(before).push(view));
        }
        i = i + 1;
    }
    assert(addresses@.take(i as int) =~= addresses@);
    out
}

/// How a contact reads in a list of them.
pub fn contact_text(name: &str, address: &str) -> (r: String)
    ensures
        r@ == (if name@.len() == 0 {
            address@
        } else {
            name@ + " <"@ + address@ + ">"@
        }),
{
    if name.is_empty() {
        return address.to_owned();
    }
    let mut out = text::chars_of(name);
    text::extend_str(&mut out, " <");
    text::extend_str(&mut out, address);
    text::extend_str(&mut out, ">");
    text::text_of(&out)
}

/// The name that was seen last counts, of those that were seen at all.
pub proof fn the_last_name_counts(
    known: Seq<char>,
    before: Seq<Seq<char>>,
    after: Seq<Seq<char>>,
    name: Seq<char>,
)
    requires
        name.len() > 0,
        forall|i: int| 0 <= i < after.len() ==> (#[trigger] after[i]).len() == 0,
    ensures
        name_after(known, before.push(name) + after) == name,
    decreases after.len(),
{
    let all = before.push(name) + after;
    if after.len() == 0 {
        assert(all =~= before.push(name));
        assert(all.drop_last() =~= before);
    } else {
        let front = after.drop_last();
        assert forall|i: int| 0 <= i < front.len() implies (#[trigger] front[i]).len() == 0 by {
            assert(front[i] == after[i]);
        }
        the_last_name_counts(known, before, front, name);
        assert(all.drop_last() =~= before.push(name) + front);
        assert(all.last() == after[after.len() - 1]);
    }
}

} // verus!
