//! RFC 5322 address lists, read tolerantly of unquoted names, comments and
//! stray commas, because headers come from every mail client ever written.

use vstd::prelude::*;
use crate::text;

verus! {

/// One mailbox: a display name (possibly empty) and an address.
#[derive(Debug, PartialEq, Eq)]
pub struct Mailbox {
    pub name: String,
    pub address: String,
}

/// What a mailbox holds.
#[verifier::ext_equal]
pub struct MailboxView {
    pub name: Seq<char>,
    pub address: Seq<char>,
}

impl View for Mailbox {
    type V = MailboxView;

    open spec fn view(&self) -> MailboxView {
        MailboxView { name: self.name@, address: self.address@ }
    }
}

impl Clone for Mailbox {
    fn clone(&self) -> (r: Self)
        ensures
            r == *self,
    {
        Mailbox { name: self.name.clone(), address: self.address.clone() }
    }
}

impl Default for Mailbox {
    fn default() -> (r: Self)
        ensures
            r@.name.len() == 0,
            r@.address.len() == 0,
    {
        Mailbox { name: String::new(), address: String::new() }
    }
}

/// The views of some mailboxes.
pub open spec fn mailbox_views(list: Seq<Mailbox>) -> Seq<MailboxView> {
    Seq::new(list.len(), |i: int| list[i]@)
}

/// `Name <addr>`, or the one of the two that is there.
pub open spec fn displayed(mailbox: MailboxView) -> Seq<char> {
    if mailbox.name.len() == 0 {
        mailbox.address
    } else if mailbox.address.len() == 0 {
        mailbox.name
    } else {
        mailbox.name + " <"@ + mailbox.address + ">"@
    }
}

impl Mailbox {
    /// `Name <addr>`, or the bare address when there is no name.
    pub fn display(&self) -> (r: String)
        ensures
            r@ == displayed(self@),
    {
        if self.name.as_str().is_empty() {
            self.address.clone()
        } else if self.address.as_str().is_empty() {
            self.name.clone()
        } else {
            let mut out: Vec<char> = Vec::new();
            text::extend_str(&mut out, &self.name);
            text::extend_str(&mut out, " <");
            text::extend_str(&mut out, &self.address);
            text::extend_str(&mut out, ">");
            text::text_of(&out)
        }
    }
}

// --- the grammar ----------------------------------------------------------

/// The text inside quotes from `i` on: a backslash stands for the character after it.
pub open spec fn unescaped(s: Seq<char>, i: int) -> Seq<char>
    decreases s.len() - i,
{
    if i < 0 || i >= s.len() {
        Seq::empty()
    } else if s[i] == '\\' {
        if i + 1 < s.len() {
            seq![s[i + 1]] + unescaped(s, i + 2)
        } else {
            Seq::empty()
        }
    } else {
        seq![s[i]] + unescaped(s, i + 1)
    }
}

/// What stands before a text does not change how it reads.
pub proof fn unescaped_shifts(p: Seq<char>, s: Seq<char>, i: int)
    requires
        0 <= i,
    ensures
        unescaped(p + s, p.len() + i) == unescaped(s, i),
    decreases s.len() - i,
{
    if i < s.len() {
        assert((p + s)[p.len() + i] == s[i]);
        if s[i] == '\\' {
            if i + 1 < s.len() {
                assert((p + s)[p.len() + i + 1] == s[i + 1]);
                unescaped_shifts(p, s, i + 2);
            }
        } else {
            unescaped_shifts(p, s, i + 1);
        }
    }
}

/// A text without the white space around it and the quotes around that.
pub open spec fn unquoted(s: Seq<char>) -> Seq<char> {
    let t = text::trim(s);
    if t.len() >= 2 && t[0] == '"' && t.last() == '"' {
        unescaped(t.subrange(1, t.len() - 1), 0)
    } else {
        t
    }
}

/// The text from `i` on without the comments in it, which stand in round brackets and nest.
/// Brackets inside quotes are none, and a backslash takes the character after it out of the
/// grammar.
pub open spec fn uncommented(s: Seq<char>, i: int, depth: nat, quoted: bool, escaped: bool) -> Seq<
    char,
>
    decreases s.len() - i,
{
    if i < 0 || i >= s.len() {
        Seq::empty()
    } else {
        let kept: Seq<char> = if depth == 0 {
            seq![s[i]]
        } else {
            Seq::empty()
        };
        if escaped {
            kept + uncommented(s, i + 1, depth, quoted, false)
        } else if s[i] == '\\' {
            kept + uncommented(s, i + 1, depth, quoted, true)
        } else if s[i] == '"' && depth == 0 {
            kept + uncommented(s, i + 1, depth, !quoted, false)
        } else if s[i] == '(' && !quoted {
            uncommented(s, i + 1, depth + 1, quoted, false)
        } else if s[i] == ')' && !quoted && depth > 0 {
            uncommented(s, i + 1, (depth - 1) as nat, quoted, false)
        } else {
            kept + uncommented(s, i + 1, depth, quoted, false)
        }
    }
}

/// The pieces from `start` on, cut at each separator that stands outside quotes and angle
/// brackets, where the text up to `i` has been read.
pub open spec fn pieces(
    s: Seq<char>,
    separator: char,
    start: int,
    i: int,
    quoted: bool,
    bracketed: bool,
    escaped: bool,
) -> Seq<Seq<char>>
    decreases s.len() - i,
{
    if i < 0 || i >= s.len() {
        seq![s.skip(start)]
    } else if escaped {
        pieces(s, separator, start, i + 1, quoted, bracketed, false)
    } else if s[i] == '\\' {
        pieces(s, separator, start, i + 1, quoted, bracketed, true)
    } else if s[i] == '"' {
        pieces(s, separator, start, i + 1, !quoted, bracketed, false)
    } else if s[i] == '<' && !quoted {
        pieces(s, separator, start, i + 1, quoted, true, false)
    } else if s[i] == '>' && !quoted {
        pieces(s, separator, start, i + 1, quoted, false, false)
    } else if s[i] == separator && !quoted && !bracketed {
        seq![s.subrange(start, i)] + pieces(s, separator, i + 1, i + 1, quoted, bracketed, false)
    } else {
        pieces(s, separator, start, i + 1, quoted, bracketed, false)
    }
}

/// The mailbox that one piece of a list names: what stands in the last angle brackets is the
/// address and what precedes them the name; without brackets the whole is one or the other.
pub open spec fn mailbox_in(piece: Seq<char>) -> Option<MailboxView> {
    let t = text::trim(uncommented(piece, 0, 0, false, false));
    let open = text::rfind(t, '<');
    if open >= 0 {
        let close = text::find_at(t, '>', open);
        Some(
            MailboxView {
                name: unquoted(text::trim(t.take(open))),
                address: text::trim(t.subrange(open + 1, close)),
            },
        )
    } else {
        let bare = unquoted(t);
        if bare.len() == 0 {
            None
        } else if bare.contains('@') {
            Some(MailboxView { name: Seq::empty(), address: bare })
        } else {
            Some(MailboxView { name: bare, address: Seq::empty() })
        }
    }
}

/// The mailboxes that the pieces from `i` on name.
pub open spec fn mailboxes_from(parts: Seq<Seq<char>>, i: int) -> Seq<MailboxView>
    decreases parts.len() - i,
{
    if i < 0 || i >= parts.len() {
        Seq::empty()
    } else {
        let rest = mailboxes_from(parts, i + 1);
        let piece = text::trim(parts[i]);
        if piece.len() == 0 {
            rest
        } else {
            match mailbox_in(piece) {
                Some(mailbox) => seq![mailbox] + rest,
                None => rest,
            }
        }
    }
}

/// Every mailbox in a header value.
pub open spec fn mailboxes(header: Seq<char>) -> Seq<MailboxView> {
    mailboxes_from(pieces(header, ',', 0, 0, false, false, false), 0)
}

/// The first mailbox of a header.
pub open spec fn first_mailbox(header: Seq<char>) -> Option<MailboxView> {
    if mailboxes(header).len() > 0 {
        Some(mailboxes(header)[0])
    } else {
        None
    }
}

/// What a list row shows for a sender.
pub open spec fn shown_name(header: Seq<char>) -> Seq<char> {
    match first_mailbox(header) {
        Some(mailbox) => if mailbox.name.len() > 0 {
            mailbox.name
        } else if mailbox.address.len() > 0 {
            mailbox.address
        } else {
            text::trim(header)
        },
        None => text::trim(header),
    }
}

/// The address of the first mailbox in lower case, empty where there is none.
pub open spec fn address_of(header: Seq<char>) -> Seq<char> {
    match first_mailbox(header) {
        Some(mailbox) => text::lowercase(mailbox.address),
        None => Seq::empty(),
    }
}

// --- reading --------------------------------------------------------------

fn unquote(s: &[char]) -> (out: Vec<char>)
    ensures
        out@ == unquoted(s@),
{
    let t = text::trimmed(s);
    if !(t.len() >= 2 && t[0] == '"' && t[t.len() - 1] == '"') {
        return t;
    }
    let inner = text::slice_of(&t, 1, t.len() - 1);
    let mut out: Vec<char> = Vec::new();
    let mut i: usize = 0;
    while i < inner.len()
        invariant
            i <= inner.len(),
            out@ + unescaped(inner@, i as int) =~= unescaped(inner@, 0),
        decreases inner.len() - i,
    {
        if inner[i] == '\\' {
            if i + 1 < inner.len() {
                out.push(inner[i + 1]);
                i = i + 2;
            } else {
                i = i + 1;
            }
        } else {
            out.push(inner[i]);
            i = i + 1;
        }
    }
    out
}

fn strip_comments(s: &[char]) -> (out: Vec<char>)
    ensures
        out@ == uncommented(s@, 0, 0, false, false),
{
    let mut out: Vec<char> = Vec::new();
    let mut depth: usize = 0;
    let mut quoted = false;
    let mut escaped = false;
    let mut i: usize = 0;
    while i < s.len()
        invariant
            depth <= i <= s.len(),
            out@ + uncommented(s@, i as int, depth as nat, quoted, escaped) =~= uncommented(
                s@,
                0,
                0,
                false,
                false,
            ),
        decreases s.len() - i,
    {
        let c = s[i];
        if escaped {
            if depth == 0 {
                out.push(c);
            }
            escaped = false;
        } else if c == '\\' {
            escaped = true;
            if depth == 0 {
                out.push(c);
            }
        } else if c == '"' && depth == 0 {
            quoted = !quoted;
            out.push(c);
        } else if c == '(' && !quoted {
            depth = depth + 1;
        } else if c == ')' && !quoted && depth > 0 {
            depth = depth - 1;
        } else if depth == 0 {
            out.push(c);
        }
        i = i + 1;
    }
    out
}

/// Split on a separator that sits outside quotes and angle brackets.
fn split_top_level(s: &[char], separator: char) -> (out: Vec<Vec<char>>)
    ensures
        text::char_texts(out@) == pieces(s@, separator, 0, 0, false, false, false),
{
    let mut out: Vec<Vec<char>> = Vec::new();
    let mut start: usize = 0;
    let mut quoted = false;
    let mut bracketed = false;
    let mut escaped = false;
    let mut i: usize = 0;
    while i < s.len()
        invariant
            start <= i <= s.len(),
            text::char_texts(out@) + pieces(
                s@,
                separator,
                start as int,
                i as int,
                quoted,
                bracketed,
                escaped,
            ) =~= pieces(s@, separator, 0, 0, false, false, false),
        decreases s.len() - i,
    {
        let c = s[i];
        if escaped {
            escaped = false;
        } else if c == '\\' {
            escaped = true;
        } else if c == '"' {
            quoted = !quoted;
        } else if c == '<' && !quoted {
            bracketed = true;
        } else if c == '>' && !quoted {
            bracketed = false;
        } else if c == separator && !quoted && !bracketed {
            let ghost before = out@;
            out.push(text::slice_of(s, start, i));
            assert(text::char_texts(out@) =~= text::char_texts(before).push(
                s@.subrange(start as int, i as int),
            ));
            start = i + 1;
        }
        i = i + 1;
    }
    let ghost before = out@;
    out.push(text::slice_of(s, start, s.len()));
    assert(s@.skip(start as int) =~= s@.subrange(start as int, s@.len() as int));
    assert(text::char_texts(out@) =~= text::char_texts(before).push(s@.skip(start as int)));
    out
}

fn parse_one(piece: &[char]) -> (r: Option<Mailbox>)
    ensures
        match r {
            Some(mailbox) => mailbox_in(piece@) == Some(mailbox@),
            None => mailbox_in(piece@) is None,
        },
{
    let t = text::trimmed(&strip_comments(piece));
    match text::rfind_char(&t, '<') {
        Some(open) => {
            let close: usize = text::find_char(&t, '>', open);
            proof {
                text::rfind_at_is_last(t@, '<', t@.len() as int);
            }
            assert(open < close) by {
                text::find_at_is_first(t@, '>', open as int);
            }
            let address = text::trimmed(&text::slice_of(&t, open + 1, close));
            let head = text::slice_of(&t, 0, open);
            assert(head@ =~= t@.take(open as int));
            let name = unquote(&text::trimmed(&head));
            Some(Mailbox { name: text::text_of(&name), address: text::text_of(&address) })
        },
        None => {
            let bare = unquote(&t);
            if bare.len() == 0 {
                None
            } else if text::has_char(&bare, '@') {
                Some(Mailbox { name: String::new(), address: text::text_of(&bare) })
            } else {
                Some(Mailbox { name: text::text_of(&bare), address: String::new() })
            }
        },
    }
}

/// Every mailbox in a header value such as `"Ada" <ada@x>, bob@y`.
pub fn parse_list(header: &str) -> (r: Vec<Mailbox>)
    ensures
        mailbox_views(r@) == mailboxes(header@),
{
    let parts = split_top_level(&text::chars_of(header), ',');
    let ghost views = text::char_texts(parts@);
    let mut out: Vec<Mailbox> = Vec::new();
    let mut i: usize = 0;
    while i < parts.len()
        invariant
            i <= parts.len(),
            views == text::char_texts(parts@),
            mailbox_views(out@) + mailboxes_from(views, i as int) =~= mailboxes_from(views, 0),
        decreases parts.len() - i,
    {
        let piece = text::trimmed(&parts[i]);
        if piece.len() > 0 {
            if let Some(mailbox) = parse_one(&piece) {
                let ghost before = out@;
                let ghost view = mailbox@;
                out.push(mailbox);
                assert(mailbox_views(out@) =~= mailbox_views(before).push(view));
            }
        }
        i = i + 1;
    }
    out
}

/// The first mailbox of a header: a header naming several yields the first
/// rather than nothing.
pub fn parse_first(header: &str) -> (r: Option<Mailbox>)
    ensures
        match r {
            Some(mailbox) => first_mailbox(header@) == Some(mailbox@),
            None => first_mailbox(header@) is None,
        },
{
    let list = parse_list(header);
    assert(mailbox_views(list@).len() == list.len());
    if list.len() > 0 {
        assert(mailbox_views(list@)[0] == list@[0]@);
        Some(list[0].clone())
    } else {
        None
    }
}

/// The display name of the first mailbox, falling back to its address and
/// then to the raw text: what a list row shows for a sender.
pub fn display_name(header: &str) -> (r: String)
    ensures
        r@ == shown_name(header@),
{
    match parse_first(header) {
        Some(mailbox) => if !mailbox.name.as_str().is_empty() {
            mailbox.name
        } else if !mailbox.address.as_str().is_empty() {
            mailbox.address
        } else {
            text::trim_str(header)
        },
        None => text::trim_str(header),
    }
}

/// The lowercased address of the first mailbox, "" if unparseable.
pub fn first_address(header: &str) -> (r: String)
    ensures
        r@ == address_of(header@),
{
    match parse_first(header) {
        Some(mailbox) => text::to_lowercase(&mailbox.address),
        None => String::new(),
    }
}

// --- reading what was written ---------------------------------------------

/// Whether a text can stand in a list as it is: neither empty nor with white space at an end, a
/// quote at its start, or anything that cuts a list, opens a comment or bounds an address.
pub open spec fn is_plain(s: Seq<char>) -> bool {
    &&& s.len() > 0
    &&& !text::is_white(s[0])
    &&& !text::is_white(s.last())
    &&& s[0] != '"'
    &&& forall|i: int|
        0 <= i < s.len() ==> s[i] != ',' && s[i] != '(' && s[i] != '<' && s[i] != '>'
}

proof fn uncut(
    s: Seq<char>,
    separator: char,
    start: int,
    i: int,
    quoted: bool,
    bracketed: bool,
    escaped: bool,
)
    requires
        0 <= start <= i <= s.len(),
        forall|k: int| 0 <= k < s.len() ==> s[k] != separator,
    ensures
        pieces(s, separator, start, i, quoted, bracketed, escaped) == seq![s.skip(start)],
    decreases s.len() - i,
{
    if i < s.len() {
        if escaped {
            uncut(s, separator, start, i + 1, quoted, bracketed, false);
        } else if s[i] == '\\' {
            uncut(s, separator, start, i + 1, quoted, bracketed, true);
        } else if s[i] == '"' {
            uncut(s, separator, start, i + 1, !quoted, bracketed, false);
        } else if s[i] == '<' && !quoted {
            uncut(s, separator, start, i + 1, quoted, true, false);
        } else if s[i] == '>' && !quoted {
            uncut(s, separator, start, i + 1, quoted, false, false);
        } else {
            uncut(s, separator, start, i + 1, quoted, bracketed, false);
        }
    }
}

proof fn uncommented_keeps(s: Seq<char>, i: int, quoted: bool, escaped: bool)
    requires
        0 <= i <= s.len(),
        forall|k: int| 0 <= k < s.len() ==> s[k] != '(',
    ensures
        uncommented(s, i, 0, quoted, escaped) == s.skip(i),
    decreases s.len() - i,
{
    if i < s.len() {
        assert(s.skip(i) =~= seq![s[i]] + s.skip(i + 1));
        if escaped {
            uncommented_keeps(s, i + 1, quoted, false);
        } else if s[i] == '\\' {
            uncommented_keeps(s, i + 1, quoted, true);
        } else if s[i] == '"' {
            uncommented_keeps(s, i + 1, !quoted, false);
        } else {
            uncommented_keeps(s, i + 1, quoted, false);
        }
    } else {
        assert(s.skip(i) =~= Seq::<char>::empty());
    }
}

proof fn trim_keeps(s: Seq<char>)
    requires
        s.len() > 0,
        !text::is_white(s[0]),
        !text::is_white(s.last()),
    ensures
        text::trim(s) == s,
{
    assert(text::lead_end(s, 0) == 0);
    assert(text::tail_start(s, 0, s.len() as int) == s.len());
    assert(s.subrange(0, s.len() as int) =~= s);
}

proof fn list_of_one(s: Seq<char>)
    requires
        s.len() > 0,
        !text::is_white(s[0]),
        !text::is_white(s.last()),
        forall|k: int| 0 <= k < s.len() ==> s[k] != ',' && s[k] != '(',
    ensures
        text::trim(uncommented(s, 0, 0, false, false)) == s,
        mailboxes(s) == match mailbox_in(s) {
            Some(mailbox) => seq![mailbox],
            None => Seq::empty(),
        },
{
    uncut(s, ',', 0, 0, false, false, false);
    assert(s.skip(0) =~= s);
    trim_keeps(s);
    uncommented_keeps(s, 0, false, false);
    let parts = seq![s];
    assert(mailboxes_from(parts, 1) =~= Seq::<MailboxView>::empty());
    match mailbox_in(s) {
        Some(mailbox) => {
            assert(seq![mailbox] + Seq::<MailboxView>::empty() =~= seq![mailbox]);
        },
        None => {},
    }
}

/// What `display` writes for a mailbox of plain texts, a list that holds it alone reads back as
/// that mailbox.
pub proof fn display_reads_back(mailbox: MailboxView)
    requires
        mailbox.name.len() == 0 || is_plain(mailbox.name),
        is_plain(mailbox.address),
        mailbox.name.len() == 0 ==> mailbox.address.contains('@'),
    ensures
        mailboxes(displayed(mailbox)) == seq![mailbox],
{
    let name = mailbox.name;
    let address = mailbox.address;
    let s = displayed(mailbox);
    reveal_strlit(" <");
    reveal_strlit(">");
    if name.len() == 0 {
        list_of_one(s);
        text::rfind_at_is_last(s, '<', s.len() as int);
        assert(text::rfind(s, '<') == -1);
        trim_keeps(s);
        assert(unquoted(s) == s);
        assert(mailbox_in(s) == Some(MailboxView { name: Seq::empty(), address: s }));
        assert(name =~= Seq::empty());
    } else {
        let n = name.len() as int;
        assert(s.len() == n + 3 + address.len());
        assert forall|k: int| 0 <= k < s.len() implies s[k] != ',' && s[k] != '(' by {
            if k < n {
                assert(s[k] == name[k]);
            } else if k == n {
                assert(s[k] == ' ');
            } else if k == n + 1 {
                assert(s[k] == '<');
            } else if k < n + 2 + address.len() {
                assert(s[k] == address[k - n - 2]);
            } else {
                assert(s[k] == '>');
            }
        }
        assert(s[0] == name[0]);
        assert(s.last() == '>');
        list_of_one(s);
        assert(s[n + 1] == '<');
        text::rfind_at_is_last(s, '<', s.len() as int);
        let open = text::rfind(s, '<');
        assert(open == n + 1) by {
            if open > n + 1 {
                if open < n + 2 + address.len() {
                    assert(s[open] == address[open - n - 2]);
                }
            }
        }
        text::find_at_is_first(s, '>', open);
        let close = text::find_at(s, '>', open);
        assert(close == s.len() - 1) by {
            assert(s[s.len() - 1] == '>');
            if close < s.len() - 1 && close > open {
                assert(s[close] == address[close - n - 2]);
            }
        }
        assert(s.subrange(open + 1, close) =~= address);
        trim_keeps(address);
        let head = s.take(open);
        assert(head =~= name.push(' '));
        assert(text::trim(head) == name) by {
            assert(text::lead_end(head, 0) == 0);
            assert(head[n] == ' ');
            assert(text::tail_start(head, 0, n + 1) == text::tail_start(head, 0, n));
            assert(head[n - 1] == name.last());
            assert(text::tail_start(head, 0, n) == n);
            assert(head.subrange(0, n) =~= name);
        }
        trim_keeps(name);
        assert(unquoted(name) == name);
    }
}

// --- lists in a row -------------------------------------------------------

/// Whether a text has nothing in it that lets a comma stand inside a mailbox.
pub open spec fn is_unquoted(s: Seq<char>) -> bool {
    forall|i: int|
        0 <= i < s.len() ==> s[i] != '"' && s[i] != '\\' && s[i] != '<' && s[i] != '>'
}

/// What precedes the place where pieces start does not change them.
proof fn pieces_shift(
    p: Seq<char>,
    s: Seq<char>,
    start: int,
    i: int,
    quoted: bool,
    bracketed: bool,
    escaped: bool,
)
    requires
        0 <= start <= i <= s.len(),
    ensures
        pieces(p + s, ',', p.len() + start, p.len() + i, quoted, bracketed, escaped) == pieces(
            s,
            ',',
            start,
            i,
            quoted,
            bracketed,
            escaped,
        ),
    decreases s.len() - i,
{
    let w = p + s;
    let n = p.len() as int;
    if i < s.len() {
        assert(w[n + i] == s[i]);
        assert(n + (i + 1) == n + i + 1);
        if escaped {
            pieces_shift(p, s, start, i + 1, quoted, bracketed, false);
        } else if s[i] == '\\' {
            pieces_shift(p, s, start, i + 1, quoted, bracketed, true);
        } else if s[i] == '"' {
            pieces_shift(p, s, start, i + 1, !quoted, bracketed, false);
        } else if s[i] == '<' && !quoted {
            pieces_shift(p, s, start, i + 1, quoted, true, false);
        } else if s[i] == '>' && !quoted {
            pieces_shift(p, s, start, i + 1, quoted, false, false);
        } else if s[i] == ',' && !quoted && !bracketed {
            assert(w.subrange(n + start, n + i) =~= s.subrange(start, i));
            pieces_shift(p, s, i + 1, i + 1, quoted, bracketed, false);
        } else {
            pieces_shift(p, s, start, i + 1, quoted, bracketed, false);
        }
    } else {
        assert(w.skip(n + start) =~= s.skip(start));
    }
}

/// The pieces of two lists with a comma between them are those of the one and of the other.
proof fn pieces_add(a: Seq<char>, b: Seq<char>, start: int, i: int)
    requires
        is_unquoted(a),
        0 <= start <= i <= a.len(),
    ensures
        pieces(a + ","@ + b, ',', start, i, false, false, false) == pieces(
            a,
            ',',
            start,
            i,
            false,
            false,
            false,
        ) + pieces(b, ',', 0, 0, false, false, false),
    decreases a.len() - i,
{
    reveal_strlit(",");
    let w = a + ","@ + b;
    let rest = pieces(b, ',', 0, 0, false, false, false);
    if i < a.len() {
        assert(w[i] == a[i]);
        if a[i] == ',' {
            assert(w.subrange(start, i) =~= a.subrange(start, i));
            pieces_add(a, b, i + 1, i + 1);
            let tail = pieces(a, ',', i + 1, i + 1, false, false, false);
            assert(seq![a.subrange(start, i)] + (tail + rest) =~= seq![a.subrange(start, i)] + tail
                + rest);
        } else {
            pieces_add(a, b, start, i + 1);
        }
    } else {
        let front = a + ","@;
        assert(w =~= front + b);
        assert(w[i] == ',');
        assert(w.subrange(start, i) =~= a.skip(start));
        pieces_shift(front, b, 0, 0, false, false, false);
    }
}

/// The mailboxes of pieces in a row are those of the one and of the other.
proof fn mailboxes_add(a: Seq<Seq<char>>, b: Seq<Seq<char>>, i: int)
    requires
        0 <= i <= a.len(),
    ensures
        mailboxes_from(a + b, i) == mailboxes_from(a, i) + mailboxes_from(b, 0),
    decreases a.len() - i,
{
    let all = a + b;
    let tail = mailboxes_from(b, 0);
    if i < a.len() {
        assert(all[i] == a[i]);
        mailboxes_add(a, b, i + 1);
        let rest = mailboxes_from(a, i + 1);
        if let Some(mailbox) = mailbox_in(text::trim(a[i])) {
            assert(seq![mailbox] + (rest + tail) =~= seq![mailbox] + rest + tail);
        }
    } else {
        pieces_after(a, b, 0);
        assert(Seq::<MailboxView>::empty() + tail =~= tail);
    }
}

/// What precedes some pieces does not change their mailboxes.
proof fn pieces_after(a: Seq<Seq<char>>, b: Seq<Seq<char>>, i: int)
    requires
        0 <= i <= b.len(),
    ensures
        mailboxes_from(a + b, a.len() + i) == mailboxes_from(b, i),
    decreases b.len() - i,
{
    if i < b.len() {
        assert((a + b)[a.len() + i] == b[i]);
        assert(a.len() + (i + 1) == a.len() + i + 1);
        pieces_after(a, b, i + 1);
    }
}

/// Lists with a comma between them read as the one and then the other, where nothing in the first
/// lets a comma stand inside a mailbox.
pub proof fn lists_add_up(a: Seq<char>, b: Seq<char>)
    requires
        is_unquoted(a),
    ensures
        mailboxes(a + ","@ + b) == mailboxes(a) + mailboxes(b),
{
    pieces_add(a, b, 0, 0);
    mailboxes_add(
        pieces(a, ',', 0, 0, false, false, false),
        pieces(b, ',', 0, 0, false, false, false),
        0,
    );
}

/// Whether a text is white space and commas.
pub open spec fn is_stray(s: Seq<char>) -> bool {
    forall|i: int| 0 <= i < s.len() ==> s[i] == ',' || text::is_white(#[trigger] s[i])
}

/// White space alone is no mailbox, however many commas cut it.
proof fn stray_pieces_are_blank(s: Seq<char>, start: int, i: int)
    requires
        is_stray(s),
        0 <= start <= i <= s.len(),
        forall|k: int| start <= k < i ==> s[k] != ',',
    ensures
        mailboxes_from(pieces(s, ',', start, i, false, false, false), 0)
            == Seq::<MailboxView>::empty(),
    decreases s.len() - i,
{
    if i < s.len() {
        assert(s[i] == ',' || text::is_white(s[i]));
        if s[i] == ',' {
            let piece = s.subrange(start, i);
            assert forall|k: int| 0 <= k < piece.len() implies text::is_white(piece[k]) by {
                assert(piece[k] == s[start + k]);
            }
            blank_is_no_mailbox(piece);
            let rest = pieces(s, ',', i + 1, i + 1, false, false, false);
            stray_pieces_are_blank(s, i + 1, i + 1);
            mailboxes_add(seq![piece], rest, 0);
            assert(Seq::<MailboxView>::empty() + Seq::<MailboxView>::empty()
                =~= Seq::<MailboxView>::empty());
        } else {
            stray_pieces_are_blank(s, start, i + 1);
        }
    } else {
        let piece = s.skip(start);
        assert forall|k: int| 0 <= k < piece.len() implies text::is_white(piece[k]) by {
            assert(piece[k] == s[start + k]);
        }
        blank_is_no_mailbox(piece);
    }
}

proof fn blank_is_no_mailbox(piece: Seq<char>)
    requires
        forall|k: int| 0 <= k < piece.len() ==> text::is_white(piece[k]),
    ensures
        mailboxes_from(seq![piece], 0) == Seq::<MailboxView>::empty(),
{
    text::lead_end_bounds(piece, 0);
    assert(text::lead_end(piece, 0) == piece.len());
    text::tail_start_bounds(piece, piece.len() as int, piece.len() as int);
    assert(text::trim(piece).len() == 0);
    assert(mailboxes_from(seq![piece], 1) =~= Seq::<MailboxView>::empty());
}

/// Stray commas add nothing: alone they name nobody, and a list reads the same with them before it
/// or, where nothing in it lets a comma stand inside a mailbox, behind it.
pub proof fn stray_commas_add_nothing(stray: Seq<char>, list: Seq<char>)
    requires
        is_stray(stray),
    ensures
        mailboxes(stray) == Seq::<MailboxView>::empty(),
        mailboxes(stray + ","@ + list) == mailboxes(list),
        is_unquoted(list) ==> mailboxes(list + ","@ + stray) == mailboxes(list),
{
    stray_pieces_are_blank(stray, 0, 0);
    assert forall|i: int| 0 <= i < stray.len() implies stray[i] != '"' && stray[i] != '\\'
        && stray[i] != '<' && stray[i] != '>' by {
        assert(stray[i] == ',' || text::is_white(stray[i]));
    }
    lists_add_up(stray, list);
    assert(Seq::<MailboxView>::empty() + mailboxes(list) =~= mailboxes(list));
    if is_unquoted(list) {
        lists_add_up(list, stray);
        assert(mailboxes(list) + Seq::<MailboxView>::empty() =~= mailboxes(list));
    }
}

/// How a list is read after its first `n` characters: whether inside quotes, inside angle brackets
/// and behind a backslash.
pub open spec fn reading_after(s: Seq<char>, n: int) -> (bool, bool, bool)
    decreases n,
{
    if n <= 0 || n > s.len() {
        (false, false, false)
    } else {
        let (quoted, bracketed, escaped) = reading_after(s, n - 1);
        let c = s[n - 1];
        if escaped {
            (quoted, bracketed, false)
        } else if c == '\\' {
            (quoted, bracketed, true)
        } else if c == '"' {
            (!quoted, bracketed, false)
        } else if c == '<' && !quoted {
            (quoted, true, false)
        } else if c == '>' && !quoted {
            (quoted, false, false)
        } else {
            (quoted, bracketed, false)
        }
    }
}

/// Whether a list closes the quotes and brackets that it opens.
pub open spec fn is_closed(s: Seq<char>) -> bool {
    reading_after(s, s.len() as int) == (false, false, false)
}

proof fn closed_pieces_add(a: Seq<char>, b: Seq<char>, start: int, i: int)
    requires
        is_closed(a),
        0 <= start <= i <= a.len(),
    ensures
        ({
            let (quoted, bracketed, escaped) = reading_after(a, i);
            pieces(a + ","@ + b, ',', start, i, quoted, bracketed, escaped) == pieces(
                a,
                ',',
                start,
                i,
                quoted,
                bracketed,
                escaped,
            ) + pieces(b, ',', 0, 0, false, false, false)
        }),
    decreases a.len() - i,
{
    reveal_strlit(",");
    let w = a + ","@ + b;
    let rest = pieces(b, ',', 0, 0, false, false, false);
    let (quoted, bracketed, escaped) = reading_after(a, i);
    if i < a.len() {
        assert(w[i] == a[i]);
        if !escaped && a[i] == ',' && !quoted && !bracketed {
            assert(w.subrange(start, i) =~= a.subrange(start, i));
            closed_pieces_add(a, b, i + 1, i + 1);
            let tail = pieces(a, ',', i + 1, i + 1, false, false, false);
            assert(seq![a.subrange(start, i)] + (tail + rest) =~= seq![a.subrange(start, i)] + tail
                + rest);
        } else {
            closed_pieces_add(a, b, start, i + 1);
        }
    } else {
        let front = a + ","@;
        assert(w =~= front + b);
        assert(w[i] == ',');
        assert(w.subrange(start, i) =~= a.skip(start));
        pieces_shift(front, b, 0, 0, false, false, false);
    }
}

/// Lists with a comma between them read as the one and then the other, where the first closes the
/// quotes and brackets that it opens.
pub proof fn closed_lists_add_up(a: Seq<char>, b: Seq<char>)
    requires
        is_closed(a),
    ensures
        mailboxes(a + ","@ + b) == mailboxes(a) + mailboxes(b),
{
    closed_pieces_add(a, b, 0, 0);
    mailboxes_add(
        pieces(a, ',', 0, 0, false, false, false),
        pieces(b, ',', 0, 0, false, false, false),
        0,
    );
}

proof fn reading_goes_on(a: Seq<char>, b: Seq<char>, n: int)
    requires
        is_closed(a),
        0 <= n <= b.len(),
    ensures
        reading_after(a + b, a.len() + n) == reading_after(b, n),
    decreases n,
{
    if n > 0 {
        assert((a + b)[a.len() + n - 1] == b[n - 1]);
        reading_goes_on(a, b, n - 1);
    } else {
        reading_is_local(a, b, a.len() as int);
    }
}

proof fn reading_is_local(a: Seq<char>, b: Seq<char>, n: int)
    requires
        0 <= n <= a.len(),
    ensures
        reading_after(a + b, n) == reading_after(a, n),
    decreases n,
{
    if n > 0 {
        assert((a + b)[n - 1] == a[n - 1]);
        reading_is_local(a, b, n - 1);
    }
}

proof fn plain_reading(s: Seq<char>, n: int)
    requires
        0 <= n <= s.len(),
        is_unquoted(s),
    ensures
        reading_after(s, n) == (false, false, false),
    decreases n,
{
    if n > 0 {
        plain_reading(s, n - 1);
    }
}

/// What is displayed of a mailbox of plain texts closes what it opens, and has no white space around
/// it.
proof fn displayed_is_closed(mailbox: MailboxView)
    requires
        mailbox.name.len() == 0 || is_plain(mailbox.name),
        is_plain(mailbox.address),
        is_unquoted(mailbox.name),
        is_unquoted(mailbox.address),
    ensures
        is_closed(displayed(mailbox)),
        is_closed(" "@ + displayed(mailbox)),
{
    reveal_strlit(" <");
    reveal_strlit(">");
    reveal_strlit(" ");
    let name = mailbox.name;
    let address = mailbox.address;
    let s = displayed(mailbox);
    plain_reading(" "@, 1);
    if name.len() == 0 {
        plain_reading(s, s.len() as int);
    } else {
        let n = name.len() as int;
        let head = name.push(' ');
        assert forall|k: int| 0 <= k < head.len() implies head[k] != '"' && head[k] != '\\' && head[k]
            != '<' && head[k] != '>' by {
            if k < n {
                assert(head[k] == name[k]);
            }
        }
        plain_reading(head, n + 1);
        let inside = seq!['<'] + address;
        bracketed_reading(address, address.len() as int);
        let tail = inside + ">"@;
        reading_is_local(inside, ">"@, inside.len() as int);
        assert(tail[tail.len() - 1] == '>');
        assert(reading_after(tail, tail.len() as int) == (false, false, false));
        assert(s =~= head + tail);
        reading_goes_on(head, tail, tail.len() as int);
    }
    reading_goes_on(" "@, s, s.len() as int);
    assert((" "@ + s).len() == 1 + s.len());
}

proof fn bracketed_reading(address: Seq<char>, n: int)
    requires
        is_unquoted(address),
        0 <= n <= address.len(),
    ensures
        reading_after(seq!['<'] + address, n + 1) == (false, true, false),
    decreases n,
{
    let s = seq!['<'] + address;
    if n > 0 {
        bracketed_reading(address, n - 1);
        assert(s[n] == address[n - 1]);
    } else {
        assert(s[0] == '<');
        assert(reading_after(s, 0) == (false, false, false));
    }
}

/// A list of what is displayed of some mailboxes.
pub open spec fn displayed_list(list: Seq<MailboxView>) -> Seq<Seq<char>> {
    Seq::new(list.len(), |i: int| displayed(list[i]))
}

/// A blank before a list changes nothing of it.
proof fn blank_before_reads_alike(s: Seq<char>, mailbox: MailboxView)
    requires
        s == displayed(mailbox),
        mailbox.name.len() == 0 || is_plain(mailbox.name),
        is_plain(mailbox.address),
        mailbox.name.len() == 0 ==> mailbox.address.contains('@'),
    ensures
        mailboxes(" "@ + s) == mailboxes(s),
{
    reveal_strlit(" ");
    reveal_strlit(" <");
    reveal_strlit(">");
    let p = " "@;
    let w = p + s;
    assert forall|k: int| 0 <= k < s.len() implies s[k] != ',' by {
        let n = mailbox.name.len() as int;
        if n == 0 {
            assert(s[k] == mailbox.address[k]);
        } else if k < n {
            assert(s[k] == mailbox.name[k]);
        } else if k >= n + 2 && k < n + 2 + mailbox.address.len() {
            assert(s[k] == mailbox.address[k - n - 2]);
        }
    }
    assert forall|k: int| 0 <= k < w.len() implies w[k] != ',' by {
        if k > 0 {
            assert(w[k] == s[k - 1]);
        }
    }
    uncut(w, ',', 0, 0, false, false, false);
    uncut(s, ',', 0, 0, false, false, false);
    assert(w.skip(0) =~= w);
    assert(s.skip(0) =~= s);
    assert forall|i: int| 0 <= i < p.len() implies text::is_white(#[trigger] p[i]) by {}
    text::white_around_is_trimmed(p, s, Seq::empty());
    assert(p + s + Seq::<char>::empty() =~= w);
    assert(mailboxes_from(seq![w], 1) =~= mailboxes_from(seq![s], 1));
}

/// A list of mailboxes of plain texts reads back: nobody is left out of it, and everybody has their
/// own name and address.
pub proof fn displayed_lists_read_back(list: Seq<MailboxView>)
    requires
        forall|i: int|
            0 <= i < list.len() ==> {
                &&& (#[trigger] list[i]).name.len() == 0 || is_plain(list[i].name)
                &&& is_plain(list[i].address)
                &&& list[i].name.len() == 0 ==> list[i].address.contains('@')
                &&& is_unquoted(list[i].name)
                &&& is_unquoted(list[i].address)
            },
    ensures
        mailboxes(text::join(displayed_list(list), ", "@)) == list,
        is_closed(text::join(displayed_list(list), ", "@)),
    decreases list.len(),
{
    let texts = displayed_list(list);
    let none = Seq::<char>::empty();
    if list.len() == 0 {
        let parts = pieces(none, ',', 0, 0, false, false, false);
        assert(none.skip(0) =~= none);
        assert(text::trim(none).len() == 0) by {
            text::trim_is_stable(none);
        }
        assert(parts =~= seq![none]);
        assert(mailboxes_from(parts, 1) =~= Seq::empty());
        assert(mailboxes(text::join(texts, ", "@)) =~= list);
    } else {
        let last = list[list.len() - 1];
        displayed_is_closed(last);
        display_reads_back(last);
        assert(texts.last() == displayed(last));
        if list.len() == 1 {
            assert(list =~= seq![last]);
            assert(texts[0] == displayed(last));
        } else {
            reveal_strlit(", ");
            reveal_strlit(",");
            reveal_strlit(" ");
            let short = list.drop_last();
            assert forall|i: int| 0 <= i < short.len() implies {
                &&& (#[trigger] short[i]).name.len() == 0 || is_plain(short[i].name)
                &&& is_plain(short[i].address)
                &&& short[i].name.len() == 0 ==> short[i].address.contains('@')
                &&& is_unquoted(short[i].name)
                &&& is_unquoted(short[i].address)
            } by {
                assert(short[i] == list[i]);
            }
            displayed_lists_read_back(short);
            assert(texts.drop_last() =~= displayed_list(short));
            let front = text::join(displayed_list(short), ", "@);
            let back = " "@ + displayed(last);
            assert(text::join(texts, ", "@) =~= front + ","@ + back);
            closed_lists_add_up(front, back);
            blank_before_reads_alike(displayed(last), last);
            assert(short + seq![last] =~= list);
            plain_reading(","@, 1);
            reading_goes_on(","@, back, back.len() as int);
            reading_goes_on(front, ","@ + back, (","@ + back).len() as int);
            assert(front + ","@ + back =~= front + (","@ + back));
        }
    }
}

// --- quoted names ---------------------------------------------------------

/// A mailbox with its name in quotes, or its bare address where it has no name.
pub open spec fn written(mailbox: MailboxView) -> Seq<char> {
    if mailbox.name.len() == 0 {
        mailbox.address
    } else {
        seq!['"'] + mailbox.name + seq!['"', ' ', '<'] + mailbox.address + seq!['>']
    }
}

/// Whether a mailbox can be written with its name in quotes: nothing in the name ends them, and the
/// address is plain.
pub open spec fn can_be_written(mailbox: MailboxView) -> bool {
    &&& forall|i: int|
        0 <= i < mailbox.name.len() ==> #[trigger] mailbox.name[i] != '"' && mailbox.name[i] != '\\'
    &&& is_plain(mailbox.address)
    &&& is_unquoted(mailbox.address)
    &&& mailbox.name.len() == 0 ==> mailbox.address.contains('@')
}

/// Whether every comma and every opening round bracket of a list is inside quotes, and nothing is
/// behind a backslash.
spec fn holds_together(s: Seq<char>) -> bool {
    forall|i: int|
        0 <= i < s.len() ==> #[trigger] s[i] != '\\' && (s[i] == ',' || s[i] == '('
            ==> reading_after(s, i).0)
}

proof fn together_is_one_piece(s: Seq<char>, i: int)
    requires
        holds_together(s),
        0 <= i <= s.len(),
    ensures
        ({
            let (quoted, bracketed, escaped) = reading_after(s, i);
            !escaped && pieces(s, ',', 0, i, quoted, bracketed, escaped) == seq![s]
        }),
    decreases s.len() - i,
{
    unescaped_throughout(s, i);
    if i < s.len() {
        together_is_one_piece(s, i + 1);
        assert(s[i] != '\\' && (s[i] == ',' ==> reading_after(s, i).0));
    } else {
        assert(s.skip(0) =~= s);
    }
}

proof fn unescaped_throughout(s: Seq<char>, i: int)
    requires
        holds_together(s),
        0 <= i <= s.len(),
    ensures
        !reading_after(s, i).2,
    decreases i,
{
    if i > 0 {
        unescaped_throughout(s, i - 1);
        assert(s[i - 1] != '\\');
    }
}

proof fn together_has_no_comments(s: Seq<char>, i: int)
    requires
        holds_together(s),
        0 <= i <= s.len(),
    ensures
        uncommented(s, i, 0, reading_after(s, i).0, false) == s.skip(i),
    decreases s.len() - i,
{
    unescaped_throughout(s, i);
    if i < s.len() {
        together_has_no_comments(s, i + 1);
        assert(s[i] != '\\' && (s[i] == '(' ==> reading_after(s, i).0));
        assert(s.skip(i) =~= seq![s[i]] + s.skip(i + 1));
    } else {
        assert(s.skip(i) =~= Seq::empty());
    }
}

proof fn quoted_reading(name: Seq<char>, n: int)
    requires
        forall|i: int| 0 <= i < name.len() ==> #[trigger] name[i] != '"' && name[i] != '\\',
        0 <= n <= name.len(),
    ensures
        reading_after(seq!['"'] + name, n + 1) == (true, false, false),
    decreases n,
{
    let s = seq!['"'] + name;
    if n > 0 {
        quoted_reading(name, n - 1);
        assert(s[n] == name[n - 1]);
    } else {
        assert(s[0] == '"');
        assert(reading_after(s, 0) == (false, false, false));
    }
}

/// How what is written of a mailbox is read, place by place.
proof fn written_reading(mailbox: MailboxView)
    requires
        can_be_written(mailbox),
        mailbox.name.len() > 0,
    ensures
        is_closed(written(mailbox)),
        holds_together(written(mailbox)),
{
    let name = mailbox.name;
    let address = mailbox.address;
    let s = written(mailbox);
    let n = name.len() as int;
    let m = address.len() as int;
    let head = seq!['"'] + name;
    let closed = head + seq!['"'];
    let gap = closed + seq![' '];
    let inside = seq!['<'] + address;
    let tail = inside + seq!['>'];
    quoted_reading(name, n);
    reading_is_local(head, seq!['"'], n + 1);
    assert(closed[n + 1] == '"');
    assert(reading_after(closed, n + 2) == (false, false, false));
    reading_is_local(closed, seq![' '], n + 2);
    assert(gap[n + 2] == ' ');
    assert(reading_after(gap, n + 3) == (false, false, false));
    bracketed_reading(address, m);
    reading_is_local(inside, seq!['>'], m + 1);
    assert(tail[m + 1] == '>');
    assert(reading_after(tail, m + 2) == (false, false, false));
    assert(s =~= gap + tail);
    reading_goes_on(gap, tail, m + 2);
    assert forall|i: int| 0 <= i < s.len() implies #[trigger] s[i] != '\\' && (s[i] == ',' || s[i]
        == '(' ==> reading_after(s, i).0) by {
        if i == 0 {
            assert(s[i] == '"');
        } else if i <= n {
            assert(s[i] == name[i - 1]);
            quoted_reading(name, i - 1);
            let rest = seq!['"', ' ', '<'] + address + seq!['>'];
            assert(s =~= head + rest);
            reading_is_local(head, rest, i);
        } else if i == n + 1 {
            assert(s[i] == '"');
        } else if i == n + 2 {
            assert(s[i] == ' ');
        } else if i == n + 3 {
            assert(s[i] == '<');
        } else if i < n + 4 + m {
            assert(s[i] == address[i - n - 4]);
        } else {
            assert(s[i] == '>');
        }
    }
}

proof fn plain_is_unescaped(s: Seq<char>, i: int)
    requires
        0 <= i <= s.len(),
        forall|k: int| 0 <= k < s.len() ==> #[trigger] s[k] != '\\',
    ensures
        unescaped(s, i) == s.skip(i),
    decreases s.len() - i,
{
    if i < s.len() {
        plain_is_unescaped(s, i + 1);
        assert(s.skip(i) =~= seq![s[i]] + s.skip(i + 1));
    } else {
        assert(s.skip(i) =~= Seq::empty());
    }
}

/// What is written of a mailbox with a name names that mailbox.
proof fn written_is_one_mailbox(mailbox: MailboxView)
    requires
        can_be_written(mailbox),
        mailbox.name.len() > 0,
    ensures
        mailbox_in(written(mailbox)) == Some(mailbox),
{
    let name = mailbox.name;
    let address = mailbox.address;
    let s = written(mailbox);
    let none = Seq::<char>::empty();
    let n = name.len() as int;
    let m = address.len() as int;
    written_reading(mailbox);
    assert(s[0] == '"' && s.last() == '>');
    trim_keeps(s);
    together_has_no_comments(s, 0);
    assert(s.skip(0) =~= s);
    assert(s[n + 3] == '<');
    text::rfind_at_is_last(s, '<', s.len() as int);
    let open = text::rfind(s, '<');
    assert(open == n + 3) by {
        if open > n + 3 && open < n + 4 + m {
            assert(s[open] == address[open - n - 4]);
        }
    }
    text::find_at_is_first(s, '>', open);
    let close = text::find_at(s, '>', open);
    assert(close == s.len() - 1) by {
        assert(s[s.len() - 1] == '>');
        if close > open && close < s.len() - 1 {
            assert(s[close] == address[close - n - 4]);
        }
    }
    assert(s.subrange(open + 1, close) =~= address);
    trim_keeps(address);
    let head = s.take(open);
    let quoted = seq!['"'] + name + seq!['"'];
    assert(head =~= none + quoted + seq![' ']);
    text::white_around_is_trimmed(none, quoted, seq![' ']);
    assert(quoted[0] == '"' && quoted.last() == '"');
    trim_keeps(quoted);
    assert(quoted.subrange(1, quoted.len() - 1) =~= name);
    plain_is_unescaped(name, 0);
    assert(name.skip(0) =~= name);
    assert(unquoted(quoted) == name);
    assert(mailbox_in(s) == Some(mailbox));
}

/// What is written of a mailbox, alone or behind a blank, reads back as that mailbox.
proof fn one_written_reads_back(mailbox: MailboxView, p: Seq<char>)
    requires
        can_be_written(mailbox),
        p.len() == 0 || p == seq![' '],
    ensures
        mailboxes(p + written(mailbox)) == seq![mailbox],
        is_closed(p + written(mailbox)),
{
    let name = mailbox.name;
    let s = written(mailbox);
    let w = p + s;
    let none = Seq::<char>::empty();
    assert forall|i: int| 0 <= i < p.len() implies text::is_white(#[trigger] p[i]) by {}
    text::white_around_is_trimmed(p, s, none);
    assert(p + s + none =~= w);
    if name.len() == 0 {
        assert(displayed(mailbox) == s);
        displayed_is_closed(mailbox);
        display_reads_back(mailbox);
        if p.len() == 0 {
            assert(w =~= s);
        } else {
            reveal_strlit(" ");
            assert(" "@ =~= p);
            blank_before_reads_alike(s, mailbox);
        }
    } else {
        written_reading(mailbox);
        plain_reading(p, p.len() as int);
        assert(is_closed(p));
        reading_goes_on(p, s, s.len() as int);
        assert(holds_together(w)) by {
            assert forall|i: int| 0 <= i < w.len() implies #[trigger] w[i] != '\\' && (w[i] == ','
                || w[i] == '(' ==> reading_after(w, i).0) by {
                if i < p.len() {
                    assert(w[i] == ' ');
                } else {
                    let k = i - p.len();
                    assert(w[i] == s[k]);
                    reading_goes_on(p, s, k);
                }
            }
        }
        together_is_one_piece(w, 0);
        assert(pieces(w, ',', 0, 0, false, false, false) =~= seq![w]);
        written_is_one_mailbox(mailbox);
        assert(s[0] == '"' && s.last() == '>');
        trim_keeps(s);
        let parts = seq![w];
        assert(mailboxes_from(parts, 1) =~= Seq::empty());
        assert(mailboxes_from(parts, 0) =~= seq![mailbox]);
    }
}

proof fn closed_in_a_row(front: Seq<char>, back: Seq<char>)
    requires
        is_closed(front),
        is_closed(back),
    ensures
        is_closed(front + ","@ + back),
{
    reveal_strlit(",");
    plain_reading(","@, 1);
    reading_goes_on(","@, back, back.len() as int);
    reading_goes_on(front, ","@ + back, (","@ + back).len() as int);
    assert(front + ","@ + back =~= front + (","@ + back));
}

/// A text more at the end of a list with a comma and a blank between each two.
proof fn joined_with_one_more(texts: Seq<Seq<char>>)
    requires
        texts.len() > 1,
    ensures
        text::join(texts, ", "@) == text::join(texts.drop_last(), ", "@) + ","@ + (seq![' ']
            + texts.last()),
{
    reveal_strlit(", ");
    reveal_strlit(",");
    let front = text::join(texts.drop_last(), ", "@);
    assert(text::join(texts, ", "@) == front + ", "@ + texts.last());
    assert(front + ", "@ + texts.last() =~= front + ","@ + (seq![' '] + texts.last()));
}

/// What is written of some mailboxes.
pub open spec fn written_list(list: Seq<MailboxView>) -> Seq<Seq<char>> {
    Seq::new(list.len(), |i: int| written(list[i]))
}

/// A list with the names in quotes reads back, whatever commas, brackets and comments the names look
/// to hold: nobody is left out of it, and everybody has their own name and address.
pub proof fn written_lists_read_back(list: Seq<MailboxView>)
    requires
        forall|i: int| 0 <= i < list.len() ==> can_be_written(#[trigger] list[i]),
    ensures
        mailboxes(text::join(written_list(list), ", "@)) == list,
        is_closed(text::join(written_list(list), ", "@)),
    decreases list.len(),
{
    let texts = written_list(list);
    let none = Seq::<char>::empty();
    if list.len() == 0 {
        displayed_lists_read_back(list);
        assert(texts =~= displayed_list(list));
    } else {
        let last = list[list.len() - 1];
        assert(can_be_written(last));
        assert(texts.last() == written(last));
        if list.len() == 1 {
            one_written_reads_back(last, none);
            assert(none + written(last) =~= written(last));
            assert(list =~= seq![last]);
            assert(texts[0] == written(last));
        } else {
            let space = seq![' '];
            one_written_reads_back(last, space);
            let short = list.drop_last();
            assert forall|i: int| 0 <= i < short.len() implies can_be_written(
                #[trigger] short[i],
            ) by {
                assert(short[i] == list[i]);
            }
            written_lists_read_back(short);
            assert(texts.drop_last() =~= written_list(short));
            let front = text::join(written_list(short), ", "@);
            let back = space + written(last);
            joined_with_one_more(texts);
            closed_lists_add_up(front, back);
            closed_in_a_row(front, back);
            assert(short + seq![last] =~= list);
        }
    }
}

/// Whether a text holds nothing that quotes, escapes or comments.
pub open spec fn is_ordinary(s: Seq<char>) -> bool {
    !s.contains('"') && !s.contains('\\') && !s.contains('(') && !s.contains(')')
}

/// A comment is no part of the mailbox it stands beside: what stands around it is read as if it were
/// not there.
pub proof fn comments_are_left_out(before: Seq<char>, comment: Seq<char>, after: Seq<char>)
    requires
        is_ordinary(before),
        is_ordinary(comment),
        is_ordinary(after),
    ensures
        mailbox_in(before + seq!['('] + comment + seq![')'] + after) == mailbox_in(before + after),
        uncommented(before + seq!['('] + comment + seq![')'] + after, 0, 0, false, false) == before
            + after,
{
    let all = before + seq!['('] + comment + seq![')'] + after;
    let b = before.len() as int;
    let c = comment.len() as int;
    let both = before + after;
    ordinary_stays(all, 0, b, 0);
    ordinary_stays(all, b + 1, b + 1 + c, 1);
    ordinary_stays(all, b + c + 2, all.len() as int, 0);
    ordinary_stays(both, 0, both.len() as int, 0);
    assert(all[b] == '(');
    assert(all[b + 1 + c] == ')');
    assert(all.subrange(0, b) =~= before);
    assert(all.subrange(b + c + 2, all.len() as int) =~= after);
    assert(both.subrange(0, both.len() as int) =~= both);
    assert(before + (Seq::<char>::empty() + (after + Seq::<char>::empty())) =~= both);
    assert(uncommented(all, 0, 0, false, false) =~= both);
    assert(uncommented(both, 0, 0, false, false) =~= both);
}

proof fn ordinary_stays(s: Seq<char>, i: int, k: int, depth: nat)
    requires
        0 <= i <= k <= s.len(),
        forall|j: int|
            i <= j < k ==> (#[trigger] s[j]) != '"' && s[j] != '\\' && s[j] != '(' && s[j] != ')',
    ensures
        uncommented(s, i, depth, false, false) == (if depth == 0 {
            s.subrange(i, k)
        } else {
            Seq::empty()
        }) + uncommented(s, k, depth, false, false),
    decreases k - i,
{
    let rest = uncommented(s, k, depth, false, false);
    if i < k {
        assert(s[i] != '"' && s[i] != '\\' && s[i] != '(' && s[i] != ')');
        ordinary_stays(s, i + 1, k, depth);
        if depth == 0 {
            assert(seq![s[i]] + (s.subrange(i + 1, k) + rest) =~= s.subrange(i, k) + rest);
        } else {
            assert(Seq::<char>::empty() + (Seq::<char>::empty() + rest) =~= Seq::<char>::empty()
                + rest);
        }
    } else {
        assert(s.subrange(i, k) =~= Seq::empty());
        assert(Seq::<char>::empty() + rest =~= rest);
    }
}

/// A row shows a mailbox by its name, or by its address where it has none.
pub proof fn rows_show_the_name(mailbox: MailboxView)
    requires
        mailbox.name.len() == 0 || is_plain(mailbox.name),
        is_plain(mailbox.address),
        mailbox.name.len() == 0 ==> mailbox.address.contains('@'),
    ensures
        shown_name(displayed(mailbox)) == (if mailbox.name.len() > 0 {
            mailbox.name
        } else {
            mailbox.address
        }),
{
    display_reads_back(mailbox);
}

} // verus!
