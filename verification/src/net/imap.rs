//! One IMAP session: connect, sign in, run a few commands, log out.
//!
//! The session here knows what may be said to the server when, and in which words; the bytes are
//! carried by whoever holds the socket.

use vstd::prelude::*;
use crate::address;
use crate::mail;
use crate::mail::{Content, Named};
use crate::mime;
use crate::models::Security;
use crate::net::auth;
use crate::net::auth::{Credential, Mechanism};
use crate::net::errors::NetError;
use crate::pattern;
use crate::text;

verus! {

/// IMAP system flags (RFC 3501 2.3.2). The same spellings are parsed out of a
/// FETCH reply and sent back by `store_flags`.
pub const FLAG_SEEN: &'static str = "\\Seen";

/// The flag behind a star.
pub const FLAG_FLAGGED: &'static str = "\\Flagged";

/// Gmail files its own copy of everything sent through it. This capability is
/// how it identifies itself, so we don't append a second copy on top.
pub const GMAIL_CAPABILITY: &'static str = "X-GM-EXT-1";

/// What a page of headers asks for. BODY.PEEK looks at a message without marking it `\Seen`.
/// The first 4 KiB of the body ride along for the preview line; Content-Type and the transfer
/// encoding are what decode them.
pub const HEADER_QUERY: &'static str =
    "(UID FLAGS BODY.PEEK[HEADER.FIELDS (DATE FROM TO CC SUBJECT MESSAGE-ID IN-REPLY-TO REFERENCES CONTENT-TYPE CONTENT-TRANSFER-ENCODING)] BODY.PEEK[TEXT]<0.4096>)";

/// What a whole message is asked for with.
pub const MESSAGE_QUERY: &'static str = "(BODY.PEEK[])";

/// A mailbox as the server lists it.
#[derive(Debug, PartialEq, Eq)]
pub struct MailboxInfo {
    pub name: String,
    /// "" when the server reports NIL: a flat namespace.
    pub delimiter: String,
    /// A container that cannot hold mail (Gmail's "[Gmail]"): shown, never selected.
    pub is_selectable: bool,
}

impl Clone for MailboxInfo {
    fn clone(&self) -> (r: Self)
        ensures
            r == *self,
    {
        MailboxInfo {
            name: self.name.clone(),
            delimiter: self.delimiter.clone(),
            is_selectable: self.is_selectable,
        }
    }
}

/// One message's headers exactly as the server sent them. Raw on purpose:
/// addresses are unparsed header text and `date` is the original RFC 5322
/// string. `sync` turns this into a `MessageHeader`, the display-ready form.
#[derive(Clone, Debug, PartialEq, Eq)]
pub struct FetchedHeader {
    pub uid: String,
    pub from_header: String,
    pub to_header: String,
    pub cc_header: String,
    pub subject: String,
    pub date: String,
    pub message_id: String,
    pub in_reply_to: String,
    pub references: String,
    pub is_seen: bool,
    pub is_flagged: bool,
    pub is_pinned: bool,
    /// A snippet of the body, already decoded; empty when the server sent none.
    pub preview: String,
}

impl Default for FetchedHeader {
    fn default() -> (r: Self)
        ensures
            r.uid@.len() == 0,
            r.from_header@.len() == 0,
            r.to_header@.len() == 0,
            r.cc_header@.len() == 0,
            r.subject@.len() == 0,
            r.date@.len() == 0,
            r.message_id@.len() == 0,
            r.in_reply_to@.len() == 0,
            r.references@.len() == 0,
            !r.is_seen,
            !r.is_flagged,
            !r.is_pinned,
            r.preview@.len() == 0,
    {
        FetchedHeader {
            uid: String::new(),
            from_header: String::new(),
            to_header: String::new(),
            cc_header: String::new(),
            subject: String::new(),
            date: String::new(),
            message_id: String::new(),
            in_reply_to: String::new(),
            references: String::new(),
            is_seen: false,
            is_flagged: false,
            is_pinned: false,
            preview: String::new(),
        }
    }
}

// --- opening the connection -----------------------------------------------

/// What opening a connection takes.
#[derive(Clone, Copy, Debug, PartialEq, Eq, Structural)]
pub struct ConnectPlan {
    /// Whether STARTTLS is spoken on the plaintext socket first.
    pub starts_tls: bool,
    /// Whether a TLS handshake comes before the session.
    pub uses_tls: bool,
    /// Whether the session still has to read the greeting. After STARTTLS it has already arrived,
    /// on the plaintext half of the connection.
    pub reads_greeting: bool,
}

/// What opening a connection takes.
pub open spec fn plan_for(security: Security) -> ConnectPlan {
    match security {
        Security::Plain => ConnectPlan { starts_tls: false, uses_tls: false, reads_greeting: true },
        Security::Tls => ConnectPlan { starts_tls: false, uses_tls: true, reads_greeting: true },
        Security::StartTls => ConnectPlan {
            starts_tls: true,
            uses_tls: true,
            reads_greeting: false,
        },
    }
}

/// What opening a connection takes.
pub fn connect_plan(security: Security) -> (r: ConnectPlan)
    ensures
        r == plan_for(security),
{
    match security {
        Security::Plain => ConnectPlan { starts_tls: false, uses_tls: false, reads_greeting: true },
        Security::Tls => ConnectPlan { starts_tls: false, uses_tls: true, reads_greeting: true },
        Security::StartTls => ConnectPlan {
            starts_tls: true,
            uses_tls: true,
            reads_greeting: false,
        },
    }
}

/// Only a connection that was asked to be in plaintext is.
pub proof fn tls_unless_plain(security: Security)
    ensures
        plan_for(security).uses_tls <==> security != Security::Plain,
        plan_for(security).starts_tls ==> plan_for(security).uses_tls,
{
}

/// The command that asks for TLS on a plaintext connection.
pub const STARTTLS_COMMAND: &'static str = "P1 STARTTLS\r\n";

/// Whether a greeting opens a session.
pub open spec fn is_greeting(line: Seq<char>) -> bool {
    text::starts_with(line, "* OK"@) || text::starts_with(line, "* PREAUTH"@)
}

/// Whether the server greeted us.
pub fn check_greeting(line: &str) -> (r: Result<(), NetError>)
    ensures
        match r {
            Ok(()) => is_greeting(line@),
            Err(NetError::Protocol(t)) => !is_greeting(line@) && t@ == "unexpected IMAP greeting: "@
                + text::trim(line@),
            Err(_) => false,
        },
{
    if text::str_starts(line, "* OK") || text::str_starts(line, "* PREAUTH") {
        Ok(())
    } else {
        let mut out = text::chars_of("unexpected IMAP greeting: ");
        text::extend_str(&mut out, &text::trim_str(line));
        Err(NetError::Protocol(text::text_of(&out)))
    }
}

/// What a line that came back after STARTTLS means. An empty one is the end of the stream.
pub fn starttls_reply(line: &str) -> (r: Result<bool, NetError>)
    ensures
        match r {
            Ok(true) => text::starts_with(line@, "P1 "@) && text::starts_with(
                line@.skip(3),
                "OK"@,
            ),
            Ok(false) => line@.len() > 0 && !text::starts_with(line@, "P1 "@),
            Err(NetError::Protocol(t)) => {
                ||| line@.len() == 0 && t@ == "connection closed during STARTTLS"@
                ||| text::starts_with(line@, "P1 "@) && !text::starts_with(line@.skip(3), "OK"@)
                    && t@ == "STARTTLS refused: "@ + text::trim(line@.skip(3))
            },
            Err(_) => false,
        },
{
    proof {
        reveal_strlit("P1 ");
    }
    if line.is_empty() {
        return Err(NetError::Protocol("connection closed during STARTTLS".to_owned()));
    }
    let chars = text::chars_of(line);
    if !text::stands_at(&chars, &text::chars_of("P1 "), 0) {
        return Ok(false);
    }
    let reply = text::slice_of(&chars, 3, chars.len());
    assert(reply@ =~= line@.skip(3));
    if text::stands_at(&reply, &text::chars_of("OK"), 0) {
        Ok(true)
    } else {
        let mut out = text::chars_of("STARTTLS refused: ");
        text::extend(&mut out, &text::trimmed(&reply));
        Err(NetError::Protocol(text::text_of(&out)))
    }
}

// --- the session ----------------------------------------------------------

/// What a server says that it can do.
#[derive(Clone, Debug, PartialEq, Eq)]
pub enum CapabilityName {
    Imap4rev1,
    Auth(String),
    Atom(String),
}

/// How a capability is remembered.
pub open spec fn capability_text(c: CapabilityName) -> Seq<char> {
    match c {
        CapabilityName::Imap4rev1 => "IMAP4REV1"@,
        CapabilityName::Auth(name) => "AUTH="@ + text::uppercase(name@),
        CapabilityName::Atom(name) => text::uppercase(name@),
    }
}

/// How capabilities are remembered.
pub open spec fn capability_texts(list: Seq<CapabilityName>) -> Seq<Seq<char>> {
    Seq::new(list.len(), |i: int| capability_text(list[i]))
}

/// One IMAP session.
pub struct ImapSession {
    pub host: String,
    pub port: u16,
    pub security: Security,
    /// Whether there is a connection that nobody has signed in on.
    pub is_connected: bool,
    /// Whether there is a session that somebody has signed in to.
    pub is_signed_in: bool,
    pub capabilities: Vec<String>,
}

/// How a session signs in.
pub enum SignIn {
    /// AUTHENTICATE with a mechanism and its initial response.
    Authenticate { mechanism: String, response: String },
    /// LOGIN with a user and a password.
    Login { user: String, password: String },
}

/// What is said to the server.
pub enum Command {
    /// Every mailbox.
    List,
    /// Open a mailbox without the right to change it.
    Examine(String),
    /// Open a mailbox to change it.
    Select(String),
    /// Ask how many messages of a mailbox are unseen.
    StatusUnseen(String),
    /// Upload a message, stored `\Seen`.
    AppendSeen { mailbox: String, raw: Vec<u8> },
    /// Change flags of a UID set.
    UidStore { uids: String, query: String },
    /// Ask for every UID.
    UidSearchAll,
    /// Say these words.
    Raw(String),
    /// Fetch headers of a sequence set.
    Fetch(String),
    /// Fetch headers of a UID set.
    UidFetchHeaders(String),
    /// Fetch a whole message.
    UidFetchMessage(String),
}

/// A server's address after some words.
pub open spec fn server_text(words: Seq<char>, host: Seq<char>, port: u16) -> Seq<char> {
    words + host + ":"@ + text::decimal(port as nat)
}

/// A server's address after some words.
pub fn server_words(words: &str, host: &str, port: u16) -> (r: String)
    ensures
        r@ == server_text(words@, host@, port),
{
    let mut out = text::chars_of(words);
    text::extend_str(&mut out, host);
    text::extend_str(&mut out, ":");
    text::extend(&mut out, &text::to_decimal(port as u64));
    text::text_of(&out)
}

impl ImapSession {
    /// Whether a failure says that nobody has signed in to this session.
    pub open spec fn is_not_signed_in(&self, error: NetError) -> bool {
        error matches NetError::Protocol(t) && t@ == server_text(
            "not signed in to "@,
            self.host@,
            self.port,
        )
    }

    /// Whether a reply refuses a command if and only if nobody has signed in.
    pub open spec fn answers(&self, r: Result<Command, NetError>) -> bool {
        match r {
            Ok(_) => self.is_signed_in,
            Err(e) => !self.is_signed_in && self.is_not_signed_in(e),
        }
    }

    /// A session that is not connected.
    pub fn new(host: &str, port: u16, security: Security) -> (r: Self)
        ensures
            r.host@ == host@,
            r.port == port,
            r.security == security,
            !r.is_connected,
            !r.is_signed_in,
            r.capabilities@.len() == 0,
    {
        ImapSession {
            host: host.to_owned(),
            port,
            security,
            is_connected: false,
            is_signed_in: false,
            capabilities: Vec::new(),
        }
    }

    /// The connection is open, and the server said what it can do.
    pub fn connect(&mut self, capabilities: &[CapabilityName])
        ensures
            final(self).is_connected,
            text::texts(final(self).capabilities@) == capability_texts(capabilities@),
            final(self).is_signed_in == old(self).is_signed_in,
            final(self).host == old(self).host,
            final(self).port == old(self).port,
            final(self).security == old(self).security,
    {
        let mut texts: Vec<String> = Vec::new();
        while texts.len() < capabilities.len()
            invariant
                texts.len() <= capabilities.len(),
                forall|i: int|
                    0 <= i < texts.len() ==> (#[trigger] texts@[i])@ == capability_text(
                        capabilities@[i],
                    ),
            decreases capabilities.len() - texts.len(),
        {
            let t: String = match &capabilities[texts.len()] {
                CapabilityName::Imap4rev1 => "IMAP4REV1".to_owned(),
                CapabilityName::Auth(name) => {
                    let mut out = text::chars_of("AUTH=");
                    text::extend_str(&mut out, &text::to_uppercase(name));
                    text::text_of(&out)
                },
                CapabilityName::Atom(name) => text::to_uppercase(name),
            };
            texts.push(t);
        }
        assert(text::texts(texts@) =~= capability_texts(capabilities@));
        self.capabilities = texts;
        self.is_connected = true;
    }

    /// How to sign in. The connection is spent whatever the server says to it.
    pub fn sign_in(&mut self, credential: &Credential) -> (r: Result<SignIn, NetError>)
        ensures
            !final(self).is_connected,
            final(self).is_signed_in == old(self).is_signed_in,
            final(self).host == old(self).host,
            final(self).port == old(self).port,
            final(self).security == old(self).security,
            final(self).capabilities == old(self).capabilities,
            match r {
                Ok(SignIn::Authenticate { mechanism, response }) => {
                    &&& old(self).is_connected
                    &&& credential.mechanism == Mechanism::Xoauth2
                    &&& mechanism@ == "XOAUTH2"@
                    &&& response@ == auth::xoauth2_text(credential.user@, credential.secret@)
                },
                Ok(SignIn::Login { user, password }) => {
                    &&& old(self).is_connected
                    &&& credential.mechanism == Mechanism::Login
                    &&& user@ == credential.user@
                    &&& password@ == credential.secret@
                },
                Err(NetError::Protocol(t)) => !old(self).is_connected && t@ == server_text(
                    "not connected to "@,
                    old(self).host@,
                    old(self).port,
                ),
                Err(_) => false,
            },
    {
        if !self.is_connected {
            return Err(
                NetError::Protocol(server_words("not connected to ", &self.host, self.port)),
            );
        }
        self.is_connected = false;
        match credential.mechanism {
            Mechanism::Xoauth2 => Ok(
                SignIn::Authenticate {
                    mechanism: "XOAUTH2".to_owned(),
                    response: credential.xoauth2_response(),
                },
            ),
            Mechanism::Login => Ok(
                SignIn::Login {
                    user: credential.user.clone(),
                    password: credential.secret.clone(),
                },
            ),
        }
    }

    /// The server accepted the credential.
    pub fn accepted(&mut self)
        ensures
            final(self).is_signed_in,
            final(self).is_connected == old(self).is_connected,
            final(self).host == old(self).host,
            final(self).port == old(self).port,
            final(self).security == old(self).security,
            final(self).capabilities == old(self).capabilities,
    {
        self.is_signed_in = true;
    }

    /// Ends the session; whether LOGOUT has to be said. Runs at the end of every operation, so it
    /// never fails over the error already on its way out.
    pub fn logout(&mut self) -> (r: bool)
        ensures
            r == old(self).is_signed_in,
            !final(self).is_signed_in,
            !final(self).is_connected,
            final(self).host == old(self).host,
            final(self).port == old(self).port,
            final(self).security == old(self).security,
            final(self).capabilities == old(self).capabilities,
    {
        let was_signed_in = self.is_signed_in;
        self.is_signed_in = false;
        self.is_connected = false;
        was_signed_in
    }

    /// Never hands back nothing: a caller that skipped sign_in() has to
    /// fail loudly rather than quietly do nothing.
    fn require(&self) -> (r: Result<(), NetError>)
        ensures
            match r {
                Ok(()) => self.is_signed_in,
                Err(e) => !self.is_signed_in && self.is_not_signed_in(e),
            },
    {
        if self.is_signed_in {
            Ok(())
        } else {
            Err(NetError::Protocol(server_words("not signed in to ", &self.host, self.port)))
        }
    }

    /// Whether the server can do something, whatever the case of its name.
    pub fn has_capability(&self, name: &str) -> (r: bool)
        ensures
            r == text::texts(self.capabilities@).contains(text::uppercase(name@)),
    {
        text::list_contains(&self.capabilities, &text::to_uppercase(name))
    }

    /// Every listed mailbox, containers included so the caller can rebuild
    /// the hierarchy.
    pub fn list_folders(&self) -> (r: Result<Command, NetError>)
        ensures
            self.answers(r),
            r matches Ok(c) ==> c is List,
    {
        match self.require() {
            Ok(()) => Ok(Command::List),
            Err(e) => Err(e),
        }
    }

    /// Open a mailbox. Read-only by default
    /// keeps us non-destructive and never marks mail as read.
    pub fn select(&self, mailbox: &str, is_writable: bool) -> (r: Result<Command, NetError>)
        ensures
            self.answers(r),
            r matches Ok(c) ==> match c {
                Command::Select(m) => is_writable && m@ == mailbox@,
                Command::Examine(m) => !is_writable && m@ == mailbox@,
                _ => false,
            },
    {
        match self.require() {
            Ok(()) => if is_writable {
                Ok(Command::Select(mailbox.to_owned()))
            } else {
                Ok(Command::Examine(mailbox.to_owned()))
            },
            Err(e) => Err(e),
        }
    }

    /// How many unread messages a mailbox holds, without selecting it.
    pub fn unseen_count(&self, mailbox: &str) -> (r: Result<Command, NetError>)
        ensures
            self.answers(r),
            r matches Ok(c) ==> c matches Command::StatusUnseen(m) && m@ == mailbox@,
    {
        match self.require() {
            Ok(()) => Ok(Command::StatusUnseen(mailbox.to_owned())),
            Err(e) => Err(e),
        }
    }

    /// Upload a message into a mailbox, stored `\Seen`: this is our own copy
    /// of something we just sent, and arriving as unread would be wrong.
    pub fn append(&self, mailbox: &str, raw: &[u8]) -> (r: Result<Command, NetError>)
        ensures
            self.answers(r),
            r matches Ok(c) ==> c matches Command::AppendSeen { mailbox: m, raw: bytes } && m@
                == mailbox@ && bytes@ == raw@,
    {
        match self.require() {
            Ok(()) => {
                let mut bytes: Vec<u8> = Vec::new();
                let mut i: usize = 0;
                while i < raw.len()
                    invariant
                        i <= raw.len(),
                        bytes@ =~= raw@.take(i as int),
                    decreases raw.len() - i,
                {
                    bytes.push(raw[i]);
                    i = i + 1;
                }
                assert(raw@.take(i as int) =~= raw@);
                Ok(Command::AppendSeen { mailbox: mailbox.to_owned(), raw: bytes })
            },
            Err(e) => Err(e),
        }
    }

    /// Add or remove flags on a UID set: "7" or "7,9,20".
    pub fn store_flags(&self, uids: &str, flag: &str, should_add: bool) -> (r: Result<
        Command,
        NetError,
    >)
        ensures
            self.answers(r),
            r matches Ok(c) ==> c matches Command::UidStore { uids: u, query } && u@ == uids@
                && query@ == flags_query(flag@, should_add),
    {
        match self.require() {
            Ok(()) => {
                let mut query = if should_add {
                    text::chars_of("+FLAGS (")
                } else {
                    text::chars_of("-FLAGS (")
                };
                text::extend_str(&mut query, flag);
                text::extend_str(&mut query, ")");
                Ok(Command::UidStore { uids: uids.to_owned(), query: text::text_of(&query) })
            },
            Err(e) => Err(e),
        }
    }

    /// Every UID in the currently selected mailbox.
    pub fn search_all_uids(&self) -> (r: Result<Command, NetError>)
        ensures
            self.answers(r),
            r matches Ok(c) ==> c is UidSearchAll,
    {
        match self.require() {
            Ok(()) => Ok(Command::UidSearchAll),
            Err(e) => Err(e),
        }
    }

    /// Move one message. COPYUID is the response code used by most servers; MOVEUID by some
    /// implementing RFC 6851. Both arrive on the tagged OK line, so the command is said raw and
    /// `destination_uid` reads the answer.
    pub fn move_message(&self, uid: &str, destination: &str) -> (r: Result<Command, NetError>)
        ensures
            self.answers(r),
            r matches Ok(c) ==> c matches Command::Raw(words) && words@ == "UID MOVE "@ + uid@
                + " "@ + quoted(destination@),
    {
        match self.require() {
            Ok(()) => {
                let mut words = text::chars_of("UID MOVE ");
                text::extend_str(&mut words, uid);
                text::extend_str(&mut words, " ");
                text::extend_str(&mut words, &quote_mailbox(destination));
                Ok(Command::Raw(text::text_of(&words)))
            },
            Err(e) => Err(e),
        }
    }

    /// Fetch UID + flags + a few headers for a window of `limit` messages,
    /// `offset` messages back from the newest. offset=0 is the newest page. Where the window
    /// holds nothing there is nothing to say.
    pub fn fetch_recent_headers(&self, exists: u32, limit: u32, offset: u32) -> (r: Result<
        Option<Command>,
        NetError,
    >)
        requires
            limit >= 1,
        ensures
            match r {
                Ok(None) => offset >= exists,
                Ok(Some(Command::Fetch(window))) => self.is_signed_in && offset < exists && window@
                    == window_text(exists as int, limit as int, offset as int),
                Ok(Some(_)) => false,
                Err(e) => offset < exists && !self.is_signed_in && self.is_not_signed_in(e),
            },
    {
        if offset >= exists {
            return Ok(None);
        }
        let end: u32 = exists - offset;
        let start: u32 = if end >= limit {
            end - (limit - 1)
        } else {
            1
        };
        match self.require() {
            Ok(()) => {
                let mut window = text::to_decimal(start as u64);
                text::extend_str(&mut window, ":");
                text::extend(&mut window, &text::to_decimal(end as u64));
                Ok(Some(Command::Fetch(text::text_of(&window))))
            },
            Err(e) => Err(e),
        }
    }

    /// Fetch the headers of messages by UID.
    pub fn fetch_headers_by_uid(&self, uids: &str) -> (r: Result<Command, NetError>)
        ensures
            self.answers(r),
            r matches Ok(c) ==> c matches Command::UidFetchHeaders(u) && u@ == uids@,
    {
        match self.require() {
            Ok(()) => Ok(Command::UidFetchHeaders(uids.to_owned())),
            Err(e) => Err(e),
        }
    }

    /// Fetch one full message (headers + body) by its stable UID.
    pub fn fetch_message(&self, uid: &str) -> (r: Result<Command, NetError>)
        ensures
            self.answers(r),
            r matches Ok(c) ==> c matches Command::UidFetchMessage(u) && u@ == uid@,
    {
        match self.require() {
            Ok(()) => Ok(Command::UidFetchMessage(uid.to_owned())),
            Err(e) => Err(e),
        }
    }
}

/// The words that add or remove a flag.
pub open spec fn flags_query(flag: Seq<char>, should_add: bool) -> Seq<char> {
    (if should_add {
        "+FLAGS ("@
    } else {
        "-FLAGS ("@
    }) + flag + ")"@
}

/// The newest message of a page, by its place in the mailbox.
pub open spec fn page_end(exists: int, offset: int) -> int {
    exists - offset
}

/// The oldest message of a page, by its place in the mailbox: exists=1000, limit=50, offset=50
/// gives 901:950.
pub open spec fn page_start(exists: int, limit: int, offset: int) -> int {
    if page_end(exists, offset) - (limit - 1) >= 1 {
        page_end(exists, offset) - (limit - 1)
    } else {
        1
    }
}

/// A page as a sequence set.
pub open spec fn window_text(exists: int, limit: int, offset: int) -> Seq<char> {
    text::decimal(page_start(exists, limit, offset) as nat) + ":"@ + text::decimal(
        page_end(exists, offset) as nat,
    )
}

/// Pages hold no more than their limit, and paging back by the limit misses no message and
/// shows none twice: each page ends just before the newer one starts.
pub proof fn pages_tile(exists: int, limit: int, offset: int)
    requires
        limit >= 1,
        0 <= offset < exists,
    ensures
        1 <= page_start(exists, limit, offset) <= page_end(exists, offset) <= exists,
        page_end(exists, offset) - page_start(exists, limit, offset) + 1 <= limit,
        offset + limit < exists ==> page_end(exists, offset + limit) + 1 == page_start(
            exists,
            limit,
            offset,
        ),
        offset + limit >= exists ==> page_start(exists, limit, offset) == 1,
        page_end(exists, 0) == exists,
        offset + limit <= exists ==> page_end(exists, offset) - page_start(exists, limit, offset)
            + 1 == limit,
{
}

/// What asks for a page reads back as the places of its oldest and its newest message.
pub proof fn windows_read_back(exists: nat, limit: nat, offset: nat)
    requires
        limit >= 1,
        offset < exists,
    ensures
        ({
            let ends = text::split(
                window_text(exists as int, limit as int, offset as int),
                ':',
            );
            &&& ends.len() == 2
            &&& text::parse_unsigned(ends[0], exists) == Some(
                page_start(exists as int, limit as int, offset as int) as nat,
            )
            &&& text::parse_unsigned(ends[1], exists) == Some(
                page_end(exists as int, offset as int) as nat,
            )
        }),
{
    reveal_strlit(":");
    pages_tile(exists as int, limit as int, offset as int);
    let start = page_start(exists as int, limit as int, offset as int) as nat;
    let end = page_end(exists as int, offset as int) as nat;
    let ends = seq![text::decimal(start), text::decimal(end)];
    text::digits_have_no(start, ':');
    text::digits_have_no(end, ':');
    assert forall|i: int| 0 <= i < ends.len() implies !(#[trigger] ends[i]).contains(':') by {
        assert(i == 0 || i == 1);
    }
    assert(":"@ =~= seq![':']);
    assert(ends.drop_last() =~= seq![text::decimal(start)]);
    assert(text::join(ends.drop_last(), seq![':']) == text::decimal(start));
    assert(text::join(ends, seq![':']) == window_text(
        exists as int,
        limit as int,
        offset as int,
    ));
    text::joined_pieces_come_apart(ends, ':');
    text::numbers_read_back(start, exists, 0, 0);
    text::numbers_read_back(end, exists, 0, 0);
}

// --- what the server answers ----------------------------------------------

/// A mailbox as the server lists it.
pub fn mailbox_info(name: &str, delimiter: Option<&str>, is_no_select: bool) -> (r: MailboxInfo)
    ensures
        r.name@ == name@,
        r.delimiter@ == (match delimiter {
            Some(d) => d@,
            None => Seq::empty(),
        }),
        r.is_selectable == !is_no_select,
{
    MailboxInfo {
        name: name.to_owned(),
        delimiter: match delimiter {
            Some(d) => d.to_owned(),
            None => String::new(),
        },
        is_selectable: !is_no_select,
    }
}

/// How many messages are unseen, as the server says.
pub fn unseen_in(mailbox: &str, unseen: Option<u32>) -> (r: Result<u32, NetError>)
    ensures
        match r {
            Ok(n) => unseen == Some(n),
            Err(NetError::Protocol(t)) => unseen is None && t@ == "no UNSEEN in the status of "@
                + mailbox@,
            Err(_) => false,
        },
{
    match unseen {
        Some(n) => Ok(n),
        None => {
            let mut out = text::chars_of("no UNSEEN in the status of ");
            text::extend_str(&mut out, mailbox);
            Err(NetError::Protocol(text::text_of(&out)))
        },
    }
}

/// The first body from `i` on among some replies.
pub open spec fn first_body(bodies: Seq<Option<Vec<u8>>>, i: int) -> Option<Seq<u8>>
    decreases bodies.len() - i,
{
    if i < 0 || i >= bodies.len() {
        None
    } else {
        match bodies[i] {
            Some(b) => Some(b@),
            None => first_body(bodies, i + 1),
        }
    }
}

/// The message among the replies to a fetch.
pub fn message_in(bodies: &[Option<Vec<u8>>], uid: &str) -> (r: Result<Vec<u8>, NetError>)
    ensures
        match r {
            Ok(raw) => first_body(bodies@, 0) == Some(raw@),
            Err(NetError::Protocol(t)) => first_body(bodies@, 0) is None && t@
                == "no message body returned for uid "@ + uid@,
            Err(_) => false,
        },
{
    let mut i: usize = 0;
    while i < bodies.len()
        invariant
            i <= bodies.len(),
            first_body(bodies@, 0) == first_body(bodies@, i as int),
        decreases bodies.len() - i,
    {
        if let Some(b) = &bodies[i] {
            let copy = b.clone();
            assert(copy@ =~= b@);
            return Ok(copy);
        }
        i = i + 1;
    }
    let mut out = text::chars_of("no message body returned for uid ");
    text::extend_str(&mut out, uid);
    Err(NetError::Protocol(text::text_of(&out)))
}

/// A mailbox name as a quoted string.
pub open spec fn quoted(name: Seq<char>) -> Seq<char> {
    "\""@ + text::replace_char(text::replace_char(name, '\\', "\\\\"@), '"', "\\\""@) + "\""@
}

/// Quote a mailbox name (escaping \ and ") so a space stays inside one astring.
pub fn quote_mailbox(name: &str) -> (r: String)
    ensures
        r@ == quoted(name@),
{
    let slashed = text::replaced_char(&text::chars_of(name), '\\', &text::chars_of("\\\\"));
    let escaped = text::replaced_char(&slashed, '"', &text::chars_of("\\\""));
    let mut out = text::chars_of("\"");
    text::extend(&mut out, &escaped);
    text::extend_str(&mut out, "\"");
    text::text_of(&out)
}

/// The text from `i` on with each backslash and quote behind a backslash.
pub open spec fn slashed(s: Seq<char>, i: int) -> Seq<char>
    decreases s.len() - i,
{
    if i < 0 || i >= s.len() {
        Seq::empty()
    } else {
        slashed_char(s[i]) + slashed(s, i + 1)
    }
}

/// A character, behind a backslash if it is one or a quote.
pub open spec fn slashed_char(c: char) -> Seq<char> {
    if c == '\\' || c == '"' {
        seq!['\\', c]
    } else {
        seq![c]
    }
}

proof fn replacing_twice_slashes(s: Seq<char>, i: int)
    requires
        0 <= i <= s.len(),
    ensures
        text::replace_char(
            text::replace_char_from(s, '\\', "\\\\"@, i),
            '"',
            "\\\""@,
        ) == slashed(s, i),
    decreases s.len() - i,
{
    reveal_strlit("\\\\");
    reveal_strlit("\\\"");
    let once = "\\\\"@;
    let quote = "\\\""@;
    assert(once =~= seq!['\\', '\\']);
    assert(quote =~= seq!['\\', '"']);
    if i < s.len() {
        let rest = text::replace_char_from(s, '\\', once, i + 1);
        replacing_twice_slashes(s, i + 1);
        let piece = if s[i] == '\\' {
            once
        } else {
            seq![s[i]]
        };
        text::replace_char_adds(piece, rest, '"', quote);
        if s[i] == '\\' {
            assert(text::replace_char_from(piece, '"', quote, 2) =~= Seq::empty());
            assert(text::replace_char_from(piece, '"', quote, 1) =~= seq!['\\']);
            assert(text::replace_char(piece, '"', quote) =~= seq!['\\', '\\']);
        } else {
            assert(text::replace_char_from(piece, '"', quote, 1) =~= Seq::empty());
            assert(text::replace_char(piece, '"', quote) =~= slashed_char(s[i]));
        }
    } else {
        assert(text::replace_char(Seq::<char>::empty(), '"', quote) =~= Seq::empty());
    }
}

proof fn slashes_come_off(s: Seq<char>, i: int)
    requires
        0 <= i <= s.len(),
    ensures
        address::unescaped(slashed(s, i), 0) == s.skip(i),
    decreases s.len() - i,
{
    if i < s.len() {
        slashes_come_off(s, i + 1);
        let head = slashed_char(s[i]);
        let rest = slashed(s, i + 1);
        let whole = head + rest;
        address::unescaped_shifts(head, rest, 0);
        assert(whole[0] == head[0]);
        if head.len() == 2 {
            assert(whole[1] == s[i]);
        }
        assert(address::unescaped(whole, 0) =~= seq![s[i]] + address::unescaped(rest, 0));
        assert(s.skip(i) =~= seq![s[i]] + s.skip(i + 1));
    } else {
        assert(s.skip(i) =~= Seq::empty());
    }
}

/// A quoted name reads back: between its quotes stands the name, each backslash and quote of it
/// behind a backslash.
pub proof fn quoted_names_read_back(name: Seq<char>)
    ensures
        quoted(name).len() >= 2,
        quoted(name)[0] == '"',
        quoted(name).last() == '"',
        address::unescaped(quoted(name).subrange(1, quoted(name).len() - 1), 0) == name,
{
    reveal_strlit("\"");
    replacing_twice_slashes(name, 0);
    slashes_come_off(name, 0);
    let inside = slashed(name, 0);
    assert(quoted(name).subrange(1, quoted(name).len() - 1) =~= inside);
    assert(name.skip(0) =~= name);
}

/// A response code that tells where a message went.
pub const DESTINATION_PATTERN: &'static str =
    r"(?:COPYUID|MOVEUID)\s+\d+\s+\d+(?::\d+)?\s+(\d+)(?::\d+)?";

/// The first destination that a response tells.
pub open spec fn destination_in(found: Seq<Seq<Option<Seq<char>>>>) -> Option<Seq<char>> {
    if found.len() > 0 && found[0].len() > 1 {
        found[0][1]
    } else {
        None
    }
}

/// The first destination among the matches of a response.
pub fn first_destination(found: &[Vec<Option<String>>]) -> (r: Option<String>)
    ensures
        mail::opt(r) == destination_in(pattern::groups_view(found@)),
{
    proof {
        assert(pattern::groups_view(found@).len() == found.len());
    }
    if found.len() > 0 && found[0].len() > 1 {
        assert(pattern::groups_view(found@)[0][1] == pattern::group_text(found@[0]@[1]));
        match &found[0][1] {
            Some(t) => Some(t.clone()),
            None => None,
        }
    } else {
        None
    }
}

/// Extract a single destination UID from a COPYUID/MOVEUID response.
pub fn destination_uid(text: &str) -> (r: Option<String>)
    ensures
        mail::opt(r) == destination_in(pattern::pattern_groups(DESTINATION_PATTERN@, text@)),
{
    first_destination(&pattern::matches(DESTINATION_PATTERN, text))
}

// --- headers --------------------------------------------------------------

/// Texts in angle brackets, with a space between each two.
pub open spec fn bracketed(list: Seq<Seq<char>>) -> Seq<char> {
    text::join(Seq::new(list.len(), |i: int| "<"@ + list[i] + ">"@), " "@)
}

/// A mailbox as the address parser reads it back.
pub open spec fn rejoined(m: mail::NamedView) -> Seq<char> {
    let name = mime::trimmed_or_empty(m.name);
    let addr = mime::trimmed_or_empty(m.address);
    if name.len() == 0 {
        addr
    } else {
        "\""@ + text::replace_char(name, '"', Seq::empty()) + "\" <"@ + addr + ">"@
    }
}

/// A header as display text: addresses re-joined as `Name <addr>` so the
/// address parser sees decoded names, ids wrapped back in angle brackets,
/// everything else as its decoded text, or as it was sent.
pub open spec fn header_text(
    content: Option<mail::ContentView>,
    raw: Option<Seq<char>>,
    is_id: bool,
) -> Seq<char> {
    match content {
        None => Seq::empty(),
        Some(mail::ContentView::Text(t)) => if is_id {
            "<"@ + t + ">"@
        } else {
            t
        },
        Some(mail::ContentView::Addresses(list)) => text::join(
            Seq::new(list.len(), |i: int| rejoined(list[i])),
            ", "@,
        ),
        Some(mail::ContentView::TextList(list)) => bracketed(list),
        Some(mail::ContentView::Date(t)) => t,
        Some(mail::ContentView::Other) => mime::trimmed_or_empty(raw),
    }
}

/// A header of a header block as display text.
pub open spec fn decoded_header(block: Seq<u8>, name: Seq<char>, is_id: bool) -> Seq<char> {
    header_text(mail::block_header(block, name), mail::block_header_raw(block, name), is_id)
}

fn bracket(t: &str) -> (r: Vec<char>)
    ensures
        r@ == "<"@ + t@ + ">"@,
{
    let mut out = text::chars_of("<");
    text::extend_str(&mut out, t);
    text::extend_str(&mut out, ">");
    out
}

fn trim_or_empty(s: &Option<String>) -> (r: String)
    ensures
        r@ == mime::trimmed_or_empty(mail::opt(*s)),
{
    match s {
        Some(t) => text::trim_str(t),
        None => String::new(),
    }
}

fn rejoin(m: &Named) -> (r: Vec<char>)
    ensures
        r@ == rejoined(m@),
{
    let name = trim_or_empty(&m.name);
    let addr = trim_or_empty(&m.address);
    if name.as_str().is_empty() {
        return text::chars_of(&addr);
    }
    let none: Vec<char> = Vec::new();
    assert(none@ =~= Seq::empty());
    let mut out = text::chars_of("\"");
    text::extend(&mut out, &text::replaced_char(&text::chars_of(&name), '"', &none));
    text::extend_str(&mut out, "\" <");
    text::extend_str(&mut out, &addr);
    text::extend_str(&mut out, ">");
    out
}

/// A header as display text.
pub fn decode_header(content: &Option<Content>, raw: &Option<String>, is_id: bool) -> (r: String)
    ensures
        r@ == header_text(mail::opt_content(*content), mail::opt(*raw), is_id),
{
    match content {
        None => String::new(),
        Some(Content::Text(t)) => if is_id {
            text::text_of(&bracket(t))
        } else {
            t.clone()
        },
        Some(Content::Addresses(list)) => {
            let mut parts: Vec<Vec<char>> = Vec::new();
            while parts.len() < list.len()
                invariant
                    parts.len() <= list.len(),
                    forall|i: int|
                        0 <= i < parts.len() ==> (#[trigger] parts@[i])@ == rejoined(list@[i]@),
                decreases list.len() - parts.len(),
            {
                parts.push(rejoin(&list[parts.len()]));
            }
            proof {
                let views = mail::named_views(list@);
                assert(text::char_texts(parts@) =~= Seq::new(
                    views.len(),
                    |i: int| rejoined(views[i]),
                ));
            }
            text::text_of(&text::joined(&parts, &text::chars_of(", ")))
        },
        Some(Content::TextList(list)) => {
            let mut parts: Vec<Vec<char>> = Vec::new();
            while parts.len() < list.len()
                invariant
                    parts.len() <= list.len(),
                    forall|i: int|
                        0 <= i < parts.len() ==> (#[trigger] parts@[i])@ == "<"@ + list@[i]@
                            + ">"@,
                decreases list.len() - parts.len(),
            {
                parts.push(bracket(&list[parts.len()]));
            }
            proof {
                let views = text::texts(list@);
                assert(text::char_texts(parts@) =~= Seq::new(
                    views.len(),
                    |i: int| "<"@ + views[i] + ">"@,
                ));
            }
            text::text_of(&text::joined(&parts, &text::chars_of(" ")))
        },
        Some(Content::Date(t)) => t.clone(),
        Some(Content::Other) => trim_or_empty(raw),
    }
}

fn header_of(block: &[u8], name: &str, is_id: bool) -> (r: String)
    requires
        block@.len() <= u32::MAX,
    ensures
        r@ == decoded_header(block@, name@, is_id),
{
    decode_header(&mail::header(block, name), &mail::header_block_raw(block, name), is_id)
}

/// Let mail-parser decode the header block: it handles line folding and the
/// =?utf-8?...?= encoding you'd otherwise see as gibberish. It strips the angle brackets off
/// message ids; the threader matches tokens verbatim, so they are put back.
pub fn parse_header(uid: String, header_bytes: &[u8], is_seen: bool, is_flagged: bool) -> (r:
    FetchedHeader)
    requires
        header_bytes@.len() <= u32::MAX,
    ensures
        r.uid@ == uid@,
        r.from_header@ == decoded_header(header_bytes@, "From"@, false),
        r.to_header@ == decoded_header(header_bytes@, "To"@, false),
        r.cc_header@ == decoded_header(header_bytes@, "Cc"@, false),
        r.subject@ == decoded_header(header_bytes@, "Subject"@, false),
        r.date@ == decoded_header(header_bytes@, "Date"@, false),
        r.message_id@ == decoded_header(header_bytes@, "Message-ID"@, true),
        r.in_reply_to@ == decoded_header(header_bytes@, "In-Reply-To"@, true),
        r.references@ == decoded_header(header_bytes@, "References"@, true),
        r.is_seen == is_seen,
        r.is_flagged == is_flagged,
        !r.is_pinned,
        r.preview@.len() == 0,
{
    FetchedHeader {
        uid,
        from_header: header_of(header_bytes, "From", false),
        to_header: header_of(header_bytes, "To", false),
        cc_header: header_of(header_bytes, "Cc", false),
        subject: header_of(header_bytes, "Subject", false),
        date: header_of(header_bytes, "Date", false),
        message_id: header_of(header_bytes, "Message-ID", true),
        in_reply_to: header_of(header_bytes, "In-Reply-To", true),
        references: header_of(header_bytes, "References", true),
        is_seen,
        is_flagged,
        is_pinned: false,
        preview: String::new(),
    }
}

/// One reply to a fetch of headers, with the preview that the start of the body gives. A reply
/// without a UID is none.
pub fn fetched_header(
    uid: Option<u32>,
    header_bytes: &[u8],
    body_start: &[u8],
    is_seen: bool,
    is_flagged: bool,
) -> (r: Option<FetchedHeader>)
    requires
        header_bytes@.len() + body_start@.len() + 2 <= u32::MAX,
    ensures
        match r {
            Some(h) => {
                &&& uid is Some
                &&& h.uid@ == text::decimal(uid.unwrap() as nat)
                &&& h.preview@ == mime::preview_in(mime::glued(header_bytes@, body_start@))
                &&& h.from_header@ == decoded_header(header_bytes@, "From"@, false)
                &&& h.to_header@ == decoded_header(header_bytes@, "To"@, false)
                &&& h.cc_header@ == decoded_header(header_bytes@, "Cc"@, false)
                &&& h.subject@ == decoded_header(header_bytes@, "Subject"@, false)
                &&& h.date@ == decoded_header(header_bytes@, "Date"@, false)
                &&& h.message_id@ == decoded_header(header_bytes@, "Message-ID"@, true)
                &&& h.in_reply_to@ == decoded_header(header_bytes@, "In-Reply-To"@, true)
                &&& h.references@ == decoded_header(header_bytes@, "References"@, true)
                &&& h.is_seen == is_seen
                &&& h.is_flagged == is_flagged
                &&& !h.is_pinned
            },
            None => uid is None,
        },
{
    match uid {
        Some(n) => {
            let mut header = parse_header(
                text::decimal_string(n as u64),
                header_bytes,
                is_seen,
                is_flagged,
            );
            header.preview = mime::preview_from_slices(header_bytes, body_start);
            Some(header)
        },
        None => None,
    }
}

/// The mailbox that a fetched one is written as: its name without the quotes in it.
pub open spec fn unquoted_mailbox(m: mail::NamedView) -> address::MailboxView {
    address::MailboxView {
        name: text::replace_char(mime::trimmed_or_empty(m.name), '"', Seq::empty()),
        address: mime::trimmed_or_empty(m.address),
    }
}

/// Everybody whom an address header names is read back from its display text, with their name but for
/// the quotes in it and with their address.
pub proof fn fetched_addresses_read_back(
    list: Seq<mail::NamedView>,
    raw: Option<Seq<char>>,
    is_id: bool,
)
    requires
        forall|i: int|
            0 <= i < list.len() ==> address::can_be_written(unquoted_mailbox(#[trigger] list[i])) && (
            mime::trimmed_or_empty(list[i].name).len() > 0 ==> unquoted_mailbox(list[i]).name.len()
                > 0),
    ensures
        address::mailboxes(
            header_text(Some(mail::ContentView::Addresses(list)), raw, is_id),
        ) == Seq::new(list.len(), |i: int| unquoted_mailbox(list[i])),
{
    reveal_strlit("\"");
    reveal_strlit("\" <");
    reveal_strlit(">");
    let read = Seq::new(list.len(), |i: int| unquoted_mailbox(list[i]));
    let texts = Seq::new(list.len(), |i: int| rejoined(list[i]));
    assert forall|i: int| 0 <= i < list.len() implies #[trigger] texts[i] == address::written(
        read[i],
    ) by {
        assert(address::can_be_written(unquoted_mailbox(list[i])));
        let name = mime::trimmed_or_empty(list[i].name);
        if name.len() == 0 {
            assert(text::replace_char(name, '"', Seq::empty()) =~= Seq::empty());
        } else {
            assert(rejoined(list[i]) =~= address::written(read[i]));
        }
    }
    assert(texts =~= address::written_list(read));
    assert forall|i: int| 0 <= i < read.len() implies address::can_be_written(
        #[trigger] read[i],
    ) by {
        assert(address::can_be_written(unquoted_mailbox(list[i])));
    }
    address::written_lists_read_back(read);
}

/// Every id that a header names is a word of its display text, in angle brackets, as the
/// conversations are matched by.
pub proof fn fetched_ids_read_back(ids: Seq<Seq<char>>, raw: Option<Seq<char>>, id: Seq<char>)
    requires
        forall|i: int, k: int|
            0 <= i < ids.len() && 0 <= k < ids[i].len() ==> !text::is_white(#[trigger] ids[i][k]),
        forall|k: int| 0 <= k < id.len() ==> !text::is_white(#[trigger] id[k]),
    ensures
        text::words(header_text(Some(mail::ContentView::TextList(ids)), raw, true)) == Seq::new(
            ids.len(),
            |i: int| seq!['<'] + ids[i] + seq!['>'],
        ),
        text::words(header_text(Some(mail::ContentView::Text(id)), raw, true)) == seq![
            seq!['<'] + id + seq!['>'],
        ],
{
    reveal_strlit("<");
    reveal_strlit(">");
    let list = Seq::new(ids.len(), |i: int| "<"@ + ids[i] + ">"@);
    let shown = Seq::new(ids.len(), |i: int| seq!['<'] + ids[i] + seq!['>']);
    assert forall|i: int| 0 <= i < ids.len() implies #[trigger] list[i] == shown[i] by {
        assert("<"@ + ids[i] + ">"@ =~= seq!['<'] + ids[i] + seq!['>']);
    }
    assert(list =~= shown);
    assert forall|i: int, k: int|
        0 <= i < list.len() && 0 <= k < list[i].len() implies !text::is_white(
        #[trigger] list[i][k],
    ) by {
        assert(list[i] == shown[i]);
        if k == 0 {
            assert(list[i][k] == '<');
        } else if k <= ids[i].len() {
            assert(list[i][k] == ids[i][k - 1]);
        } else {
            assert(list[i][k] == '>');
        }
    }
    assert forall|i: int| 0 <= i < list.len() implies (#[trigger] list[i]).len() > 0 by {
        assert(list[i] == shown[i]);
    }
    text::joined_words_read_back(list);
    let one = "<"@ + id + ">"@;
    assert(one =~= seq!['<'] + id + seq!['>']);
    assert forall|k: int| 0 <= k < one.len() implies !text::is_white(#[trigger] one[k]) by {
        if k == 0 {
            assert(one[k] == '<');
        } else if k <= id.len() {
            assert(one[k] == id[k - 1]);
        } else {
            assert(one[k] == '>');
        }
    }
    text::a_word_is_one(one);
}

/// The message is the first body that came, whatever replies without one came before it.
pub proof fn the_first_body_is_taken(bodies: Seq<Option<Vec<u8>>>, i: int, k: int)
    requires
        0 <= i <= k <= bodies.len(),
        forall|j: int| i <= j < k ==> (#[trigger] bodies[j]) is None,
        k < bodies.len() ==> bodies[k] is Some,
    ensures
        first_body(bodies, i) == (if k < bodies.len() {
            Some(bodies[k]->0@)
        } else {
            None
        }),
    decreases k - i,
{
    if i < k {
        assert(bodies[i] is None);
        the_first_body_is_taken(bodies, i + 1, k);
    }
}

/// A header reads as it was sent: a text as it is, an id in its brackets, a date as it is, and one
/// that is missing as nothing.
pub proof fn fetched_texts_read_back(t: Seq<char>, raw: Option<Seq<char>>, is_id: bool)
    ensures
        header_text(Some(mail::ContentView::Text(t)), raw, false) == t,
        header_text(Some(mail::ContentView::Date(t)), raw, is_id) == t,
        header_text(None, raw, is_id).len() == 0,
        ({
            let id = header_text(Some(mail::ContentView::Text(t)), raw, true);
            id.len() == t.len() + 2 && id[0] == '<' && id.last() == '>' && id.subrange(
                1,
                id.len() - 1,
            ) == t
        }),
        raw is Some ==> header_text(Some(mail::ContentView::Other), raw, is_id) == text::trim(
            raw.unwrap(),
        ),
{
    reveal_strlit("<");
    reveal_strlit(">");
    let id = "<"@ + t + ">"@;
    assert(id.subrange(1, id.len() - 1) =~= t);
}

} // verus!
