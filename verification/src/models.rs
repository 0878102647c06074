//! The plain records the rest of the crate speaks in.

use vstd::prelude::*;
use crate::html;
use crate::text;

verus! {

/// TCP ports are 16-bit and 0 is not dialable.
pub const MIN_PORT: u32 = 1;

pub const MAX_PORT: u32 = 65535;

/// SMTP over implicit TLS (SMTPS). Any other port is assumed to use STARTTLS.
pub const IMPLICIT_TLS_PORT: u16 = 465;

/// How a connection is secured. Persisted as its lowercase name.
#[derive(Clone, Copy, Debug, PartialEq, Eq, Hash, Structural)]
pub enum Security {
    /// Implicit TLS from the first byte.
    Tls,
    /// Plaintext, upgraded with STARTTLS before any credential is sent.
    StartTls,
    /// Plaintext, for a bridge on localhost that fronts the real server itself.
    Plain,
}

impl Security {
    /// In the order the account dialog's combo rows list them.
    pub const ALL: [Security; 3] = [Security::Tls, Security::StartTls, Security::Plain];

    /// The stored form.
    pub open spec fn name(self) -> Seq<char> {
        match self {
            Security::Tls => "tls"@,
            Security::StartTls => "starttls"@,
            Security::Plain => "none"@,
        }
    }

    /// What a stored form reads as: anything unknown is TLS, the safe default.
    pub open spec fn named(text: Seq<char>) -> Security {
        if text == "starttls"@ {
            Security::StartTls
        } else if text == "none"@ {
            Security::Plain
        } else {
            Security::Tls
        }
    }

    /// The place in `ALL`.
    pub open spec fn place(self) -> int {
        match self {
            Security::Tls => 0,
            Security::StartTls => 1,
            Security::Plain => 2,
        }
    }

    /// What stands at a place in `ALL`, TLS beyond its end.
    pub open spec fn at(place: int) -> Security {
        if place == 1 {
            Security::StartTls
        } else if place == 2 {
            Security::Plain
        } else {
            Security::Tls
        }
    }

    /// The stored form.
    pub fn as_str(self) -> (r: &'static str)
        ensures
            r@ == self.name(),
    {
        match self {
            Security::Tls => "tls",
            Security::StartTls => "starttls",
            Security::Plain => "none",
        }
    }

    /// Parses the stored form; anything unknown reads as TLS, the safe default.
    pub fn parse(text: &str) -> (r: Security)
        ensures
            r == Security::named(text@),
    {
        if text::same_str(text, "starttls") {
            Security::StartTls
        } else if text::same_str(text, "none") {
            Security::Plain
        } else {
            Security::Tls
        }
    }

    /// The place in `ALL`.
    pub fn index(self) -> (r: u32)
        ensures
            r == self.place(),
    {
        match self {
            Security::Tls => 0,
            Security::StartTls => 1,
            Security::Plain => 2,
        }
    }

    /// What stands at a place in `ALL`, TLS beyond its end.
    pub fn from_index(index: u32) -> (r: Security)
        ensures
            r == Security::at(index as int),
    {
        if index == 1 {
            Security::StartTls
        } else if index == 2 {
            Security::Plain
        } else {
            Security::Tls
        }
    }

    /// The default SMTP security for a port: 465 is implicit TLS, everything
    /// else is assumed to negotiate up from plaintext.
    pub fn default_for_smtp_port(port: u16) -> (r: Security)
        ensures
            r == (if port == IMPLICIT_TLS_PORT {
                Security::Tls
            } else {
                Security::StartTls
            }),
    {
        if port == IMPLICIT_TLS_PORT {
            Security::Tls
        } else {
            Security::StartTls
        }
    }
}

/// The stored form reads back as the security it was written for, and a place as what stands at
/// it.
pub proof fn security_reads_back(security: Security)
    ensures
        Security::named(security.name()) == security,
        Security::at(security.place()) == security,
        Security::ALL@[security.place()] == security,
{
    reveal_strlit("tls");
    reveal_strlit("starttls");
    reveal_strlit("none");
    assert("tls"@.len() == 3);
    assert("starttls"@.len() == 8);
    assert("none"@.len() == 4);
}

/// The port that a text names, if it does.
pub open spec fn port_in(text: Seq<char>) -> Option<nat> {
    match text::parse_unsigned(text::trim(text), u32::MAX as nat) {
        Some(n) => if MIN_PORT <= n <= MAX_PORT {
            Some(n)
        } else {
            None
        },
        None => None,
    }
}

/// A port number from user input, or None when it isn't one. Returns None
/// rather than an error: the caller is validating a text entry, so "not a port
/// yet" is an expected state.
pub fn parse_port(text: &str) -> (r: Option<u16>)
    ensures
        match r {
            Some(port) => port_in(text@) == Some(port as nat),
            None => port_in(text@) is None,
        },
{
    let trimmed = text::trimmed(&text::chars_of(text));
    match text::parse_number(&trimmed, u32::MAX as u64) {
        Some(n) => if MIN_PORT as u64 <= n && n <= MAX_PORT as u64 {
            Some(n as u16)
        } else {
            None
        },
        None => None,
    }
}

/// Whether a character is a hexadecimal digit.
pub open spec fn is_hex_digit(c: char) -> bool {
    '0' <= c <= '9' || 'a' <= c <= 'f' || 'A' <= c <= 'F'
}

/// Whether a text is a colour of the form `#rrggbb`.
pub open spec fn hex_color(text: Seq<char>) -> bool {
    text.len() == 7 && text[0] == '#' && forall|i: int| 1 <= i < 7 ==> is_hex_digit(text[i])
}

/// Whether a text is a colour of the form `#rrggbb`.
pub fn is_hex_color(text: &str) -> (r: bool)
    ensures
        r == hex_color(text@),
{
    let chars = text::chars_of(text);
    if chars.len() != 7 || chars[0] != '#' {
        return false;
    }
    let mut i: usize = 1;
    while i < 7
        invariant
            1 <= i <= 7,
            chars.len() == 7,
            chars@ == text@,
            forall|k: int| 1 <= k < i ==> is_hex_digit(chars@[k]),
        decreases 7 - i,
    {
        let c = chars[i];
        if !(('0' <= c && c <= '9') || ('a' <= c && c <= 'f') || ('A' <= c && c <= 'F')) {
            assert(!is_hex_digit(text@[i as int]));
            return false;
        }
        i = i + 1;
    }
    true
}

/// An account, as it is stored.
#[derive(Clone, Debug, PartialEq, Eq)]
pub struct Account {
    pub id: i64,
    pub email: String,
    pub display_name: String,
    pub imap_host: String,
    pub imap_port: u16,
    pub imap_security: Security,
    pub smtp_host: String,
    pub smtp_port: u16,
    pub smtp_security: Security,
    /// Set when the account came from GNOME Online Accounts, which is then
    /// where its credentials live instead of the keyring.
    pub goa_id: String,
    /// `#rrggbb`, or empty for the default.
    pub color: String,
    pub signature: String,
    /// What the account is called in the interface; empty for its address.
    pub label: String,
    /// The new-mail sound choice in its setting form; empty inherits the default.
    pub notification_sound: String,
}

impl Account {
    /// Whether the account's credentials live in GNOME Online Accounts.
    pub fn is_online_account(&self) -> (r: bool)
        ensures
            r == (self.goa_id@.len() > 0),
    {
        !self.goa_id.as_str().is_empty()
    }

    /// What the account is called in the interface: its label, else its address.
    pub fn name(&self) -> (r: &str)
        ensures
            r@ == (if self.label@.len() > 0 {
                self.label@
            } else {
                self.email@
            }),
    {
        if self.label.as_str().is_empty() {
            self.email.as_str()
        } else {
            self.label.as_str()
        }
    }

    /// The colour that marks the account's mail, or the palette default.
    pub open spec fn shown_color(&self) -> Seq<char> {
        if hex_color(self.color@) {
            self.color@
        } else {
            "#3584e4"@
        }
    }

    /// The colour that marks the account's mail, or the palette default.
    pub fn color_hex(&self) -> (r: &str)
        ensures
            r@ == self.shown_color(),
    {
        if is_hex_color(&self.color) {
            self.color.as_str()
        } else {
            "#3584e4"
        }
    }

    /// The signature as an HTML fragment: markup as it is, plain text as markup.
    pub open spec fn signature_markup(&self) -> Seq<char> {
        if self.signature@.contains('<') {
            self.signature@
        } else {
            html::as_html(text::trim(self.signature@))
        }
    }

    /// The signature as an HTML fragment. One with markup in it is taken as it is; plain text, as
    /// signatures used to be stored, is turned into markup.
    pub fn signature_html(&self) -> (r: String)
        ensures
            r@ == self.signature_markup(),
    {
        if text::has_char(&text::chars_of(&self.signature), '<') {
            self.signature.clone()
        } else {
            html::to_html(&text::trim_str(&self.signature))
        }
    }
}

/// Everything that saving an account needs; the id is assigned by the database.
#[derive(Clone, Debug, PartialEq, Eq)]
pub struct NewAccount {
    pub email: String,
    pub display_name: String,
    pub imap_host: String,
    pub imap_port: u16,
    pub imap_security: Security,
    pub smtp_host: String,
    pub smtp_port: u16,
    pub smtp_security: Security,
    pub goa_id: String,
}

/// A mailbox folder, as it is stored.
#[derive(Clone, Debug, PartialEq, Eq)]
pub struct Folder {
    pub id: i64,
    pub account_id: i64,
    pub name: String,
    pub icon_name: String,
    pub parent_id: Option<i64>,
    pub delimiter: String,
}

impl Folder {
    /// Strip to the leaf name only when there is a parent row to indent under.
    pub fn display_delimiter(&self) -> (r: Option<&str>)
        ensures
            match r {
                Some(d) => self.parent_id is Some && d@ == self.delimiter@,
                None => self.parent_id is None,
            },
    {
        match self.parent_id {
            Some(_) => Some(self.delimiter.as_str()),
            None => None,
        }
    }
}

/// A message, as it is stored.
#[derive(Debug, PartialEq, Eq)]
pub struct Email {
    pub id: i64,
    pub folder_id: i64,
    /// None until a sync assigns a UID: a Sent copy saved locally right
    /// after sending has no server-side counterpart yet.
    pub server_id: Option<String>,
    pub sender: String,
    pub sender_address: String,
    /// Who the message went to. Only outgoing folders show it, where every
    /// message was sent by the account itself.
    pub recipient: String,
    pub recipient_address: String,
    pub subject: String,
    pub preview: String,
    /// ISO-8601 timestamp, or whatever the Date header held if unparseable.
    pub date: String,
    pub is_unread: bool,
    pub is_starred: bool,
    pub is_pinned: bool,
    pub message_id: String,
    pub in_reply_to: String,
    pub references: String,
    pub conversation_id: Option<i64>,
}

impl Clone for Email {
    fn clone(&self) -> (r: Self)
        ensures
            r == *self,
    {
        Email {
            id: self.id,
            folder_id: self.folder_id,
            server_id: match &self.server_id {
                Some(uid) => Some(uid.clone()),
                None => None,
            },
            sender: self.sender.clone(),
            sender_address: self.sender_address.clone(),
            recipient: self.recipient.clone(),
            recipient_address: self.recipient_address.clone(),
            subject: self.subject.clone(),
            preview: self.preview.clone(),
            date: self.date.clone(),
            is_unread: self.is_unread,
            is_starred: self.is_starred,
            is_pinned: self.is_pinned,
            message_id: self.message_id.clone(),
            in_reply_to: self.in_reply_to.clone(),
            references: self.references.clone(),
            conversation_id: self.conversation_id,
        }
    }
}

/// Where a message with this UID stands in arrival order. One without a UID, or with one that is
/// no 32-bit number, is the newest.
pub open spec fn arrival_of(server_id: Option<String>) -> nat {
    match server_id {
        Some(uid) => match text::parse_unsigned(uid@, u32::MAX as nat) {
            Some(n) => n,
            None => u32::MAX as nat,
        },
        None => u32::MAX as nat,
    }
}

impl Email {
    /// A proxy for when a message arrived, for ordering threads/messages.
    ///
    /// The IMAP UID is guaranteed by the protocol to increase with arrival
    /// order within a folder, unlike the local autoincrement id: once
    /// load-on-scroll backfills older mail in a later fetch, that older mail
    /// gets a *newer* local id. A message with no UID yet (a Sent copy saved
    /// right after sending) sorts as the newest.
    pub fn arrival_key(&self) -> (r: u32)
        ensures
            r == arrival_of(self.server_id),
    {
        match &self.server_id {
            Some(uid) => match text::parse_number(&text::chars_of(uid), u32::MAX as u64) {
                Some(n) => n as u32,
                None => u32::MAX,
            },
            None => u32::MAX,
        }
    }
}

/// A thread: emails sorted oldest first, so `latest()` is the last one.
#[derive(Debug, PartialEq, Eq)]
pub struct Conversation {
    pub emails: Vec<Email>,
}

/// The senders of some messages.
pub open spec fn senders(emails: Seq<Email>) -> Seq<Seq<char>> {
    Seq::new(emails.len(), |i: int| emails[i].sender@)
}

/// Each text once, where it first occurs.
pub open spec fn distinct(items: Seq<Seq<char>>) -> Seq<Seq<char>>
    decreases items.len(),
{
    if items.len() == 0 {
        Seq::empty()
    } else {
        let before = distinct(items.drop_last());
        if before.contains(items.last()) {
            before
        } else {
            before.push(items.last())
        }
    }
}

/// The UIDs of some messages, of those that have one.
pub open spec fn uids_of(emails: Seq<Email>) -> Seq<Seq<char>>
    decreases emails.len(),
{
    if emails.len() == 0 {
        Seq::empty()
    } else {
        let before = uids_of(emails.drop_last());
        match emails.last().server_id {
            Some(uid) => before.push(uid@),
            None => before,
        }
    }
}

/// The distinct items are the items, each once.
pub proof fn distinct_keeps_each_once(items: Seq<Seq<char>>)
    ensures
        forall|t: Seq<char>| #[trigger] distinct(items).contains(t) <==> items.contains(t),
        distinct(items).no_duplicates(),
    decreases items.len(),
{
    if items.len() > 0 {
        let rest = items.drop_last();
        distinct_keeps_each_once(rest);
        assert forall|t: Seq<char>| #[trigger] distinct(items).contains(t) <==> items.contains(
            t,
        ) by {
            let before = distinct(rest);
            if items.contains(t) {
                let k = choose|k: int| 0 <= k < items.len() && items[k] == t;
                if k < rest.len() {
                    assert(rest[k] == t);
                    assert(before.contains(t));
                    let j = choose|j: int| 0 <= j < before.len() && before[j] == t;
                    assert(distinct(items)[j] == t);
                } else if !before.contains(t) {
                    assert(distinct(items).last() == t);
                }
            }
            if distinct(items).contains(t) {
                let k = choose|k: int| 0 <= k < distinct(items).len() && distinct(items)[k] == t;
                if k < before.len() {
                    assert(before[k] == t);
                    assert(distinct(rest).contains(t));
                    let j = choose|j: int| 0 <= j < rest.len() && rest[j] == t;
                    assert(items[j] == t);
                } else {
                    assert(items.last() == t);
                }
            }
        }
    }
}

impl Conversation {
    /// The thread of some messages, sorted oldest first.
    pub fn new(emails: Vec<Email>) -> (r: Self)
        ensures
            r.emails == emails,
    {
        Self { emails }
    }

    /// The conversation id of the first message, or that message's own id.
    pub fn id(&self) -> (r: i64)
        requires
            self.emails.len() > 0,
        ensures
            r == match self.emails@[0].conversation_id {
                Some(id) => id,
                None => self.emails@[0].id,
            },
    {
        let first = &self.emails[0];
        match first.conversation_id {
            Some(id) => id,
            None => first.id,
        }
    }

    /// The newest message.
    pub fn latest(&self) -> (r: &Email)
        requires
            self.emails.len() > 0,
        ensures
            *r == self.emails@.last(),
    {
        &self.emails[self.emails.len() - 1]
    }

    /// The subject of the newest message.
    pub fn subject(&self) -> (r: &str)
        requires
            self.emails.len() > 0,
        ensures
            r@ == self.emails@.last().subject@,
    {
        self.latest().subject.as_str()
    }

    /// The date of the newest message.
    pub fn date(&self) -> (r: &str)
        requires
            self.emails.len() > 0,
        ensures
            r@ == self.emails@.last().date@,
    {
        self.latest().date.as_str()
    }

    /// The preview of the newest message.
    pub fn preview(&self) -> (r: &str)
        requires
            self.emails.len() > 0,
        ensures
            r@ == self.emails@.last().preview@,
    {
        self.latest().preview.as_str()
    }

    /// How many messages there are.
    pub fn count(&self) -> (r: usize)
        ensures
            r == self.emails@.len(),
    {
        self.emails.len()
    }

    /// The folder of the newest message.
    pub fn folder_id(&self) -> (r: i64)
        requires
            self.emails.len() > 0,
        ensures
            r == self.emails@.last().folder_id,
    {
        self.latest().folder_id
    }

    /// Whether any message is unread.
    pub fn is_unread(&self) -> (r: bool)
        ensures
            r == exists|i: int| 0 <= i < self.emails@.len() && self.emails@[i].is_unread,
    {
        let mut i: usize = 0;
        while i < self.emails.len()
            invariant
                i <= self.emails.len(),
                forall|k: int| 0 <= k < i ==> !self.emails@[k].is_unread,
            decreases self.emails.len() - i,
        {
            if self.emails[i].is_unread {
                return true;
            }
            i = i + 1;
        }
        false
    }

    /// Whether any message is starred.
    pub fn is_starred(&self) -> (r: bool)
        ensures
            r == exists|i: int| 0 <= i < self.emails@.len() && self.emails@[i].is_starred,
    {
        let mut i: usize = 0;
        while i < self.emails.len()
            invariant
                i <= self.emails.len(),
                forall|k: int| 0 <= k < i ==> !self.emails@[k].is_starred,
            decreases self.emails.len() - i,
        {
            if self.emails[i].is_starred {
                return true;
            }
            i = i + 1;
        }
        false
    }

    /// Every distinct sender, in first-seen order.
    pub fn participants(&self) -> (r: String)
        ensures
            r@ == text::join(distinct(senders(self.emails@)), ", "@),
    {
        let mut seen: Vec<String> = Vec::new();
        let mut i: usize = 0;
        while i < self.emails.len()
            invariant
                i <= self.emails.len(),
                text::texts(seen@) == distinct(senders(self.emails@.take(i as int))),
            decreases self.emails.len() - i,
        {
            proof {
                let t = senders(self.emails@.take(i + 1));
                assert(t.drop_last() =~= senders(self.emails@.take(i as int)));
                assert(t.last() == self.emails@[i as int].sender@);
            }
            if !text::list_contains(&seen, &self.emails[i].sender) {
                let ghost before = seen@;
                seen.push(self.emails[i].sender.clone());
                assert(text::texts(seen@) =~= text::texts(before).push(
                    self.emails@[i as int].sender@,
                ));
            }
            i = i + 1;
        }
        assert(self.emails@.take(i as int) =~= self.emails@);
        text::join_strings(&seen, ", ")
    }

    /// The IMAP UIDs of the messages, skipping any without one. A locally
    /// saved copy has nothing on the server to act on yet.
    pub fn server_uids(&self) -> (r: Vec<String>)
        ensures
            text::texts(r@) == uids_of(self.emails@),
    {
        let mut out: Vec<String> = Vec::new();
        let mut i: usize = 0;
        while i < self.emails.len()
            invariant
                i <= self.emails.len(),
                text::texts(out@) == uids_of(self.emails@.take(i as int)),
            decreases self.emails.len() - i,
        {
            proof {
                let t = self.emails@.take(i + 1);
                assert(t.drop_last() =~= self.emails@.take(i as int));
                assert(t.last() == self.emails@[i as int]);
            }
            if let Some(uid) = &self.emails[i].server_id {
                let ghost before = out@;
                out.push(uid.clone());
                assert(text::texts(out@) =~= text::texts(before).push(uid@));
            }
            i = i + 1;
        }
        assert(self.emails@.take(i as int) =~= self.emails@);
        out
    }
}

/// A file that comes with a message.
#[derive(Clone, Debug, PartialEq, Eq)]
pub struct Attachment {
    pub filename: String,
    pub mime_type: String,
    pub content: Vec<u8>,
}

impl Attachment {
    /// The size of the file in bytes.
    pub fn size(&self) -> (r: usize)
        ensures
            r == self.content@.len(),
    {
        self.content.len()
    }
}

/// A fetched message's headers, already cleaned up for display: the sender is
/// a display name, the date is an ISO timestamp, and `is_unread` is the
/// inverse of the server's `\Seen` flag.
#[derive(Clone, Debug, PartialEq, Eq)]
pub struct MessageHeader {
    pub uid: String,
    pub sender: String,
    pub sender_address: String,
    pub recipient: String,
    pub recipient_address: String,
    pub subject: String,
    pub date: String,
    pub is_unread: bool,
    pub is_starred: bool,
    pub is_pinned: bool,
    pub preview: String,
    pub message_id: String,
    pub in_reply_to: String,
    pub references: String,
    /// Every (name, address) pair on the message, for the contacts list.
    pub addresses: Vec<(String, String)>,
}

impl Default for MessageHeader {
    fn default() -> (r: Self)
        ensures
            r.uid@.len() == 0,
            r.sender@.len() == 0,
            r.sender_address@.len() == 0,
            r.recipient@.len() == 0,
            r.recipient_address@.len() == 0,
            r.subject@.len() == 0,
            r.date@.len() == 0,
            !r.is_unread,
            !r.is_starred,
            !r.is_pinned,
            r.preview@.len() == 0,
            r.message_id@.len() == 0,
            r.in_reply_to@.len() == 0,
            r.references@.len() == 0,
            r.addresses@.len() == 0,
    {
        MessageHeader {
            uid: String::new(),
            sender: String::new(),
            sender_address: String::new(),
            recipient: String::new(),
            recipient_address: String::new(),
            subject: String::new(),
            date: String::new(),
            is_unread: false,
            is_starred: false,
            is_pinned: false,
            preview: String::new(),
            message_id: String::new(),
            in_reply_to: String::new(),
            references: String::new(),
            addresses: Vec::new(),
        }
    }
}

/// Whoever is first in a list of distinct texts stays there whatever comes after.
pub proof fn first_seen_come_first(a: Seq<Seq<char>>, b: Seq<Seq<char>>)
    ensures
        distinct(a).is_prefix_of(distinct(a + b)),
    decreases b.len(),
{
    if b.len() == 0 {
        assert(a + b =~= a);
    } else {
        assert((a + b).drop_last() =~= a + b.drop_last());
        first_seen_come_first(a, b.drop_last());
        let before = distinct(a + b.drop_last());
        let n = distinct(a).len() as int;
        assert(distinct(a + b).subrange(0, n) =~= before.subrange(0, n));
    }
}

/// Every message that the server knows is acted on there, in the order of the messages, and no
/// other is.
pub proof fn every_uid_is_listed(a: Seq<Email>, b: Seq<Email>, email: Email)
    ensures
        uids_of(a + b) == uids_of(a) + uids_of(b),
        uids_of(seq![email]) == (match email.server_id {
            Some(uid) => seq![uid@],
            None => Seq::empty(),
        }),
    decreases b.len(),
{
    let one = seq![email];
    assert(one.drop_last() =~= Seq::empty());
    assert(uids_of(one.drop_last()) =~= Seq::empty());
    assert(one.last() == email);
    assert(uids_of(one) =~= match email.server_id {
        Some(uid) => seq![uid@],
        None => Seq::empty(),
    });
    if b.len() == 0 {
        assert(a + b =~= a);
        assert(uids_of(a) + uids_of(b) =~= uids_of(a));
    } else {
        assert((a + b).drop_last() =~= a + b.drop_last());
        assert((a + b).last() == b.last());
        every_uid_is_listed(a, b.drop_last(), email);
        assert(uids_of(a + b) =~= uids_of(a) + uids_of(b));
    }
}

/// Messages arrive in the order of their numbers on the server; one that has none yet is the newest.
pub proof fn arrivals_go_by_number(a: Option<String>, n: nat)
    requires
        n <= u32::MAX,
    ensures
        a is Some && a->0@ == text::decimal(n) ==> arrival_of(a) == n,
        a is None ==> arrival_of(a) == u32::MAX,
        arrival_of(a) <= u32::MAX,
{
    text::numbers_read_back(n, u32::MAX as nat, 0, 0);
}

/// A port that is typed is read as it is, and what cannot be dialled is none.
pub proof fn ports_read_back(n: nat)
    ensures
        1 <= n <= 65535 ==> port_in(text::decimal(n)) == Some(n),
        !(1 <= n <= 65535) ==> port_in(text::decimal(n)) is None,
{
    text::numbers_read_back(n, u32::MAX as nat, 0, 0);
    text::numbers_have_no_white(n);
}

/// A colour is told by its sharp and six hexadecimal digits after it, in whatever case, and nothing
/// else is one.
pub proof fn colours_are_told(digits: Seq<char>, other: Seq<char>)
    requires
        forall|i: int| 0 <= i < digits.len() ==> is_hex_digit(#[trigger] digits[i]),
    ensures
        hex_color(seq!['#'] + digits) <==> digits.len() == 6,
        other.len() > 0 && other[0] != '#' ==> !hex_color(other),
        hex_color(other) ==> other.len() == 7,
{
    let s = seq!['#'] + digits;
    if digits.len() == 6 {
        assert forall|i: int| 1 <= i < 7 implies is_hex_digit(s[i]) by {
            assert(s[i] == digits[i - 1]);
        }
    }
}

} // verus!
