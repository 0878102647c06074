//! The composer: recipients, what may be sent and saved, attachments,
//! and sending through the Outbox so a crash mid-send never loses a message.

use vstd::prelude::*;
use crate::address;
use crate::compose;
use crate::html;
use crate::mail;
use crate::models::{Account, MessageHeader};
use crate::text;
use crate::threader::NO_SUBJECT;

verus! {

/// The composer fields a new window starts with.
#[derive(Debug, PartialEq, Eq)]
pub struct Draft {
    pub to: String,
    pub cc: String,
    pub bcc: String,
    pub subject: String,
    pub body_html: String,
}

/// What the fields of the composer hold.
#[derive(Debug, PartialEq, Eq)]
pub struct Fields {
    pub to: String,
    pub cc: String,
    pub bcc: String,
    pub subject: String,
}

// --- starting -------------------------------------------------------------

/// The body that an editor starts with: an empty line where there is none.
pub fn starting_body(body_html: &str) -> (r: String)
    ensures
        r@ == (if body_html@.len() == 0 {
            "<div><br></div>"@
        } else {
            body_html@
        }),
{
    if body_html.is_empty() {
        "<div><br></div>".to_owned()
    } else {
        body_html.to_owned()
    }
}

/// The body of a new message: what the link gave, else the account's signature.
pub open spec fn body_for(linked: Seq<char>, signature: Seq<char>) -> Seq<char> {
    if linked.len() > 0 {
        linked
    } else if signature.len() > 0 {
        compose::signed(signature)
    } else {
        Seq::empty()
    }
}

/// The draft that a mailto: link asks for, from an account.
pub fn for_mailto(account: &Account, uri: &str) -> (r: Draft)
    ensures
        r.to@ == compose::mailto_draft(uri@).to,
        r.cc@ == compose::mailto_draft(uri@).cc,
        r.bcc@ == compose::mailto_draft(uri@).bcc,
        r.subject@ == compose::mailto_draft(uri@).subject,
        r.body_html@ == body_for(
            compose::mailto_draft(uri@).body_html,
            account.signature_markup(),
        ),
{
    let mailto = compose::parse_mailto(uri);
    let signature = account.signature_html();
    let body_html: String = if !mailto.body_html.as_str().is_empty() {
        mailto.body_html
    } else if !signature.as_str().is_empty() {
        compose::signature_block(&signature)
    } else {
        String::new()
    };
    Draft { to: mailto.to, cc: mailto.cc, bcc: mailto.bcc, subject: mailto.subject, body_html }
}

/// The signature block of an account, nothing where it has no signature.
pub fn block_for(account: &Account) -> (r: String)
    ensures
        r@ == (if account.signature_markup().len() == 0 {
            Seq::empty()
        } else {
            compose::signed(account.signature_markup())
        }),
{
    let signature = account.signature_html();
    if signature.as_str().is_empty() {
        String::new()
    } else {
        compose::signature_block(&signature)
    }
}

/// The place of the first account with an id, from `i` on.
pub open spec fn place_of(accounts: Seq<Account>, id: i64, i: int) -> Option<int>
    decreases accounts.len() - i,
{
    if i < 0 || i >= accounts.len() {
        None
    } else if accounts[i].id == id {
        Some(i)
    } else {
        place_of(accounts, id, i + 1)
    }
}

/// The account that a composer starts with, by its place: the first where it is not in the list.
pub fn account_index(accounts: &[Account], id: i64) -> (r: usize)
    ensures
        r as int == (match place_of(accounts@, id, 0) {
            Some(k) => k,
            None => 0,
        }),
{
    let mut i: usize = 0;
    while i < accounts.len()
        invariant
            i <= accounts.len(),
            place_of(accounts@, id, 0) == place_of(accounts@, id, i as int),
        decreases accounts.len() - i,
    {
        if accounts[i].id == id {
            return i;
        }
        i = i + 1;
    }
    0
}

// --- what the fields hold -------------------------------------------------

/// The addresses in a field.
pub open spec fn addresses_in(field: Seq<char>) -> Seq<Seq<char>> {
    compose::nonblank(text::split(field, ','))
}

/// Whether a text holds more than white space.
pub open spec fn is_filled(s: Seq<char>) -> bool {
    text::trim(s).len() > 0
}

fn filled(s: &str) -> (r: bool)
    ensures
        r == is_filled(s@),
{
    !text::trim_str(s).as_str().is_empty()
}

/// Whether a message may be sent: it goes to someone, and has a subject.
pub fn can_send(fields: &Fields) -> (r: bool)
    ensures
        r == ((addresses_in(fields.to@).len() > 0 || addresses_in(fields.cc@).len() > 0
            || addresses_in(fields.bcc@).len() > 0) && is_filled(fields.subject@)),
{
    let to = compose::split_addresses(&fields.to);
    let cc = compose::split_addresses(&fields.cc);
    let bcc = compose::split_addresses(&fields.bcc);
    proof {
        assert(to@.len() == text::texts(to@).len());
        assert(cc@.len() == text::texts(cc@).len());
        assert(bcc@.len() == text::texts(bcc@).len());
    }
    (to.len() > 0 || cc.len() > 0 || bcc.len() > 0) && filled(&fields.subject)
}

/// A human-readable stand-in for the "sender" column of the Outbox and Drafts
/// lists, which otherwise has no concept of outgoing recipients: the first field that holds anything.
pub fn recipients_display(fields: &Fields) -> (r: Option<String>)
    ensures
        mail::opt(r) == (if is_filled(fields.to@) {
            Some(text::trim(fields.to@))
        } else if is_filled(fields.cc@) {
            Some(text::trim(fields.cc@))
        } else if is_filled(fields.bcc@) {
            Some(text::trim(fields.bcc@))
        } else {
            None
        }),
{
    if filled(&fields.to) {
        Some(text::trim_str(&fields.to))
    } else if filled(&fields.cc) {
        Some(text::trim_str(&fields.cc))
    } else if filled(&fields.bcc) {
        Some(text::trim_str(&fields.bcc))
    } else {
        None
    }
}

/// Whether there is anything to save when the composer is dismissed.
pub fn has_content(fields: &Fields, body_html: &str) -> (r: bool)
    ensures
        r == (is_filled(fields.to@) || is_filled(fields.cc@) || is_filled(fields.bcc@) || is_filled(
            fields.subject@,
        ) || html::as_text(body_html@).len() > 0),
{
    filled(&fields.to) || filled(&fields.cc) || filled(&fields.bcc) || filled(&fields.subject)
        || !html::html_to_text(body_html).as_str().is_empty()
}

/// The subject that a draft is listed under.
pub fn draft_subject(subject: &str) -> (r: String)
    ensures
        r@ == (if is_filled(subject@) {
            text::trim(subject@)
        } else {
            NO_SUBJECT@
        }),
{
    let trimmed = text::trim_str(subject);
    if trimmed.as_str().is_empty() {
        NO_SUBJECT.to_owned()
    } else {
        trimmed
    }
}

/// The start of a text.
pub open spec fn head(s: Seq<char>, most: int) -> Seq<char> {
    if s.len() <= most {
        s
    } else {
        s.take(most)
    }
}

/// Whether a header is the one of a message that was composed here.
pub open spec fn is_local(
    header: MessageHeader,
    sender: Seq<char>,
    to: Seq<char>,
    subject: Seq<char>,
    now: Seq<char>,
) -> bool {
    &&& header.uid@.len() == 0
    &&& header.sender@ == sender
    &&& (header.recipient@, header.recipient_address@) == compose::first_recipient_of(to)
    &&& header.subject@ == subject
    &&& header.date@ == now
    &&& !header.is_unread
    &&& !header.is_starred
    &&& !header.is_pinned
    &&& header.message_id@.len() == 0
    &&& header.in_reply_to@.len() == 0
    &&& header.references@.len() == 0
    &&& header.addresses@.len() == 0
}

/// The row of a message that was composed here, as of `now`.
pub fn local_header(sender: &str, to: &str, subject: &str, body_html: &str, now: &str) -> (r:
    MessageHeader)
    ensures
        is_local(r, sender@, to@, subject@, now@),
        r.sender_address@.len() == 0,
        r.preview@ == head(html::as_text(body_html@), 100),
{
    let (recipient, recipient_address) = compose::first_recipient(to);
    let chars = text::chars_of(&html::html_to_text(body_html));
    let keep: usize = if chars.len() <= 100 {
        chars.len()
    } else {
        100
    };
    let preview = text::slice_of(&chars, 0, keep);
    assert(preview@ =~= head(html::as_text(body_html@), 100));
    let mut header = MessageHeader::default();
    header.sender = sender.to_owned();
    header.recipient = recipient;
    header.recipient_address = recipient_address;
    header.subject = subject.to_owned();
    header.preview = text::text_of(&preview);
    header.date = now.to_owned();
    header
}

/// The row of the copy of a message that was sent.
pub fn sent_header(email: &str, to: &str, subject: &str, body_html: &str, now: &str) -> (r:
    MessageHeader)
    ensures
        is_local(r, email@, to@, subject@, now@),
        r.sender_address@ == email@,
        r.preview@ == subject@,
{
    let mut header = local_header(email, to, subject, body_html, now);
    header.sender_address = email.to_owned();
    header.preview = subject.to_owned();
    header
}

// --- who a message goes to ------------------------------------------------

/// The names and addresses of some mailboxes.
pub open spec fn named_pairs(list: Seq<address::MailboxView>) -> Seq<(Seq<char>, Seq<char>)> {
    Seq::new(list.len(), |i: int| (list[i].name, list[i].address))
}

/// The names and addresses in some headers.
pub open spec fn people_in(headers: Seq<Seq<char>>) -> Seq<(Seq<char>, Seq<char>)>
    decreases headers.len(),
{
    if headers.len() == 0 {
        Seq::empty()
    } else {
        people_in(headers.drop_last()) + named_pairs(address::mailboxes(headers.last()))
    }
}

/// The (name, address) pairs that the recipients of a message tell of. Bcc is never written to a
/// received message, so this is the only place a Bcc'd address can be learned.
pub fn contacts(recipients: &[String]) -> (r: Vec<(String, String)>)
    ensures
        compose::pair_texts(r@) == people_in(text::texts(recipients@)),
{
    let ghost views = text::texts(recipients@);
    let mut out: Vec<(String, String)> = Vec::new();
    let mut i: usize = 0;
    assert(compose::pair_texts(out@) =~= Seq::empty());
    assert(views.take(0) =~= Seq::empty());
    while i < recipients.len()
        invariant
            i <= recipients.len(),
            views == text::texts(recipients@),
            compose::pair_texts(out@) == people_in(views.take(i as int)),
        decreases recipients.len() - i,
    {
        proof {
            assert(views.take(i + 1).drop_last() =~= views.take(i as int));
            assert(views.take(i + 1).last() == recipients@[i as int]@);
        }
        let found = address::parse_list(&recipients[i]);
        let ghost start = compose::pair_texts(out@);
        let ghost named = named_pairs(address::mailboxes(views[i as int]));
        let mut j: usize = 0;
        while j < found.len()
            invariant
                j <= found.len(),
                address::mailbox_views(found@) == address::mailboxes(views[i as int]),
                named == named_pairs(address::mailboxes(views[i as int])),
                compose::pair_texts(out@) =~= start + named.take(j as int),
            decreases found.len() - j,
        {
            assert(address::mailbox_views(found@)[j as int] == found@[j as int]@);
            let ghost before = out@;
            out.push((found[j].name.clone(), found[j].address.clone()));
            assert(compose::pair_texts(out@) =~= compose::pair_texts(before).push(named[j as int]));
            j = j + 1;
        }
        assert(named.take(j as int) =~= named);
        i = i + 1;
    }
    assert(views.take(i as int) =~= views);
    out
}

/// The addresses that the envelope of a message names.
pub open spec fn envelope_of(headers: Seq<Seq<char>>) -> Seq<Seq<char>>
    decreases headers.len(),
{
    if headers.len() == 0 {
        Seq::empty()
    } else {
        let before = envelope_of(headers.drop_last());
        let addr = address::address_of(headers.last());
        if addr.len() > 0 {
            before.push(addr)
        } else {
            before
        }
    }
}

/// The envelope recipients of a message, which, unlike the message's own To and Cc
/// headers, also carry Bcc addresses.
pub fn envelope_recipients(recipients: &[String]) -> (r: Vec<String>)
    ensures
        text::texts(r@) == envelope_of(text::texts(recipients@)),
{
    let ghost views = text::texts(recipients@);
    let mut out: Vec<String> = Vec::new();
    let mut i: usize = 0;
    assert(text::texts(out@) =~= Seq::empty());
    assert(views.take(0) =~= Seq::empty());
    while i < recipients.len()
        invariant
            i <= recipients.len(),
            views == text::texts(recipients@),
            text::texts(out@) == envelope_of(views.take(i as int)),
        decreases recipients.len() - i,
    {
        proof {
            assert(views.take(i + 1).drop_last() =~= views.take(i as int));
            assert(views.take(i + 1).last() == recipients@[i as int]@);
        }
        let addr = address::first_address(&recipients[i]);
        if !addr.as_str().is_empty() {
            let ghost before = out@;
            let ghost view = addr@;
            out.push(addr);
            assert(text::texts(out@) =~= text::texts(before).push(view));
        }
        i = i + 1;
    }
    assert(views.take(i as int) =~= views);
    out
}

/// Everyone a message goes to: To, Cc and Bcc, in this order.
pub fn all_recipients(fields: &Fields) -> (r: Vec<String>)
    ensures
        text::texts(r@) == addresses_in(fields.to@) + addresses_in(fields.cc@) + addresses_in(
            fields.bcc@,
        ),
{
    let mut out = compose::split_addresses(&fields.to);
    let mut cc = compose::split_addresses(&fields.cc);
    let mut bcc = compose::split_addresses(&fields.bcc);
    let ghost a = out@;
    let ghost b = cc@;
    let ghost c = bcc@;
    out.append(&mut cc);
    out.append(&mut bcc);
    assert(text::texts(out@) =~= text::texts(a) + text::texts(b) + text::texts(c));
    out
}

// --- sending --------------------------------------------------------------

/// How far the sending of a message is.
#[derive(Clone, Copy, Debug, PartialEq, Eq, Structural)]
pub enum SendState {
    /// The message is being written.
    Composing,
    /// The message is being saved to the Outbox.
    Queueing,
    /// The message is in the Outbox, in this row, and on its way to the server.
    Sending(i64),
    /// The composer is done.
    Closed,
}

/// What happened to a message.
#[derive(Clone, Copy, Debug, PartialEq, Eq, Structural)]
pub enum SendEvent {
    /// Send was pressed, and the message could be built, or not.
    Built(bool),
    /// The message was saved to the Outbox, in this row, or could not be.
    Saved(Option<i64>),
    /// The server took the message, or did not.
    Answered(bool),
}

/// What is to be done about it.
#[derive(Clone, Copy, Debug, PartialEq, Eq, Structural)]
pub enum SendAction {
    Nothing,
    /// Say why the message could not be built.
    Complain,
    /// Save the message to the Outbox.
    Queue,
    /// Hand the message to the server.
    HandOver,
    /// Take this row out of the Outbox, file the message in Sent and close.
    File(i64),
    /// Say that the message waits in the Outbox, and close.
    Keep,
}

/// What an event leads to.
pub open spec fn stepped(state: SendState, event: SendEvent) -> (SendState, SendAction) {
    match (state, event) {
        (SendState::Composing, SendEvent::Built(true)) => (SendState::Queueing, SendAction::Queue),
        (SendState::Composing, SendEvent::Built(false)) => (
            SendState::Composing,
            SendAction::Complain,
        ),
        (SendState::Queueing, SendEvent::Saved(Some(row))) => (
            SendState::Sending(row),
            SendAction::HandOver,
        ),
        (SendState::Queueing, SendEvent::Saved(None)) => (
            SendState::Composing,
            SendAction::Nothing,
        ),
        (SendState::Sending(row), SendEvent::Answered(true)) => (
            SendState::Closed,
            SendAction::File(row),
        ),
        (SendState::Sending(row), SendEvent::Answered(false)) => (
            SendState::Closed,
            SendAction::Keep,
        ),
        _ => (state, SendAction::Nothing),
    }
}

/// What an event leads to. The message goes to the Outbox before it goes to the server: a crash
/// mid-send can then never lose it.
pub fn step(state: SendState, event: SendEvent) -> (r: (SendState, SendAction))
    ensures
        r == stepped(state, event),
{
    match (state, event) {
        (SendState::Composing, SendEvent::Built(true)) => (SendState::Queueing, SendAction::Queue),
        (SendState::Composing, SendEvent::Built(false)) => (
            SendState::Composing,
            SendAction::Complain,
        ),
        (SendState::Queueing, SendEvent::Saved(Some(row))) => (
            SendState::Sending(row),
            SendAction::HandOver,
        ),
        (SendState::Queueing, SendEvent::Saved(None)) => (
            SendState::Composing,
            SendAction::Nothing,
        ),
        (SendState::Sending(row), SendEvent::Answered(true)) => (
            SendState::Closed,
            SendAction::File(row),
        ),
        (SendState::Sending(row), SendEvent::Answered(false)) => (
            SendState::Closed,
            SendAction::Keep,
        ),
        _ => (state, SendAction::Nothing),
    }
}

/// What became of a message after some events.
pub struct Sent {
    pub state: SendState,
    /// The row of the Outbox that holds the message.
    pub outbox: Option<i64>,
    /// Whether the server was given the message.
    pub is_handed_over: bool,
    /// Whether the server took the message.
    pub is_accepted: bool,
}

/// What became of a message after some events, each action done as it was asked for.
pub open spec fn after(events: Seq<SendEvent>) -> Sent
    decreases events.len(),
{
    if events.len() == 0 {
        Sent {
            state: SendState::Composing,
            outbox: None,
            is_handed_over: false,
            is_accepted: false,
        }
    } else {
        let before = after(events.drop_last());
        let (state, action) = stepped(before.state, events.last());
        Sent {
            state,
            outbox: match (before.state, events.last(), action) {
                (SendState::Queueing, SendEvent::Saved(row), _) => row,
                (_, _, SendAction::File(_)) => None,
                _ => before.outbox,
            },
            is_handed_over: before.is_handed_over || action == SendAction::HandOver,
            is_accepted: before.is_accepted || (before.state is Sending && events.last()
                == SendEvent::Answered(true)),
        }
    }
}

/// A message is never lost on the way: from the moment that the server was given it until the server
/// took it, the Outbox holds it, whatever happens.
pub proof fn nothing_is_lost(events: Seq<SendEvent>)
    ensures
        after(events).is_handed_over && !after(events).is_accepted ==> after(events).outbox is Some,
        after(events).state matches SendState::Sending(row) ==> after(events).outbox == Some(row)
            && after(events).is_handed_over && !after(events).is_accepted,
        (after(events).state is Composing || after(events).state is Queueing) ==> !after(
            events,
        ).is_handed_over && after(events).outbox is None,
        after(events).is_accepted ==> after(events).state is Closed && after(
            events,
        ).is_handed_over,
    decreases events.len(),
{
    if events.len() > 0 {
        nothing_is_lost(events.drop_last());
    }
}

// --- suggestions ----------------------------------------------------------

/// A key that the drop-down of addresses knows.
#[derive(Clone, Copy, Debug, PartialEq, Eq, Structural)]
pub enum Key {
    Escape,
    Enter,
    Tab,
    Down,
    Up,
    Other,
}

/// What a key does to the drop-down of addresses.
#[derive(Clone, Copy, Debug, PartialEq, Eq, Structural)]
pub struct KeyAction {
    pub closes: bool,
    pub picks: bool,
    /// How far the highlight moves.
    pub moves: i32,
    /// Whether the entry gets the key too.
    pub proceeds: bool,
}

/// What a key does to the drop-down of addresses. Enter takes the highlighted address and stays put,
/// ready for the next one. Tab is only ever a move to the next field: the highlight is a
/// suggestion, not a choice, so what was typed stays as typed.
pub fn key_pressed(is_open: bool, key: Key, has_highlight: bool) -> (r: KeyAction)
    ensures
        r.closes == (is_open && (key is Escape || key is Tab)),
        r.picks == (is_open && key is Enter && has_highlight),
        r.moves == (if is_open && key is Down {
            1int
        } else if is_open && key is Up {
            -1
        } else {
            0
        }),
        r.proceeds == (!is_open || key is Tab || key is Other || (key is Enter && !has_highlight)),
{
    let nothing = KeyAction { closes: false, picks: false, moves: 0, proceeds: true };
    if !is_open {
        return nothing;
    }
    match key {
        Key::Escape => KeyAction { closes: true, picks: false, moves: 0, proceeds: false },
        Key::Enter => if has_highlight {
            KeyAction { closes: false, picks: true, moves: 0, proceeds: false }
        } else {
            nothing
        },
        Key::Tab => KeyAction { closes: true, picks: false, moves: 0, proceeds: true },
        Key::Down => KeyAction { closes: false, picks: false, moves: 1, proceeds: false },
        Key::Up => KeyAction { closes: false, picks: false, moves: -1, proceeds: false },
        Key::Other => nothing,
    }
}

/// Where the highlight is after a move: where it was, at the ends of the list.
pub open spec fn moved(selected: Option<usize>, step: int, count: int) -> Option<int> {
    let from = match selected {
        Some(i) => i as int,
        None => 0,
    };
    if 0 <= from + step < count {
        Some(from + step)
    } else {
        match selected {
            Some(i) => Some(i as int),
            None => None,
        }
    }
}

/// Moves the highlight one row down or up.
pub fn move_selection(selected: Option<usize>, down: bool, count: usize) -> (r: Option<usize>)
    requires
        selected matches Some(i) ==> i < count,
    ensures
        match r {
            Some(i) => moved(
                selected,
                if down {
                    1
                } else {
                    -1
                },
                count as int,
            ) == Some(i as int),
            None => moved(
                selected,
                if down {
                    1
                } else {
                    -1
                },
                count as int,
            ) is None,
        },
{
    let from: usize = match selected {
        Some(i) => i,
        None => 0,
    };
    if down {
        if count > 0 && from < count - 1 {
            Some(from + 1)
        } else {
            selected
        }
    } else if from > 0 {
        Some(from - 1)
    } else {
        selected
    }
}

// --- attachments ----------------------------------------------------------

/// The type that a file's name suggests.
pub uninterp spec fn guessed_type(name: Seq<char>) -> Seq<char>;

/// Calls `mime_guess::from_path` and takes the first of its guesses, or a stream of bytes: a function
/// of the name.
#[verifier::external_body]
fn guess_type(name: &str) -> (r: String)
    ensures
        r@ == guessed_type(name@),
{
    mime_guess::from_path(name).first_or_octet_stream().to_string()
}

/// The name and the type of an attachment, from the name of its file if it has one.
pub fn attachment_label(basename: Option<&str>) -> (r: (String, String))
    ensures
        r.0@ == (match basename {
            Some(n) => n@,
            None => "attachment"@,
        }),
        r.1@ == guessed_type(r.0@),
{
    let name: String = match basename {
        Some(n) => n.to_owned(),
        None => "attachment".to_owned(),
    };
    let kind = guess_type(&name);
    (name, kind)
}

/// The envelopes of two lists of recipients add up, and a recipient with an address is named in the
/// envelope by that address.
pub proof fn envelopes_add_up(a: Seq<Seq<char>>, b: Seq<Seq<char>>)
    ensures
        envelope_of(a + b) == envelope_of(a) + envelope_of(b),
        a.len() == 1 ==> envelope_of(a) == (if address::address_of(a[0]).len() > 0 {
            seq![address::address_of(a[0])]
        } else {
            Seq::empty()
        }),
    decreases b.len(),
{
    if a.len() == 1 {
        assert(a.drop_last().len() == 0);
        assert(envelope_of(a.drop_last()) =~= Seq::empty());
        assert(Seq::<Seq<char>>::empty().push(address::address_of(a[0])) =~= seq![
            address::address_of(a[0]),
        ]);
    }
    if b.len() == 0 {
        assert(a + b =~= a);
        assert(envelope_of(a) + envelope_of(b) =~= envelope_of(a));
    } else {
        envelopes_add_up(a, b.drop_last());
        assert((a + b).drop_last() =~= a + b.drop_last());
        assert(envelope_of(a + b) =~= envelope_of(a) + envelope_of(b));
    }
}

/// Everyone a message goes to is named in its envelope, whichever of the fields they stand in, and
/// nobody else is.
pub proof fn everybody_gets_the_message(
    to: Seq<Seq<char>>,
    cc: Seq<Seq<char>>,
    bcc: Seq<Seq<char>>,
    someone: Seq<char>,
)
    ensures
        envelope_of(to + cc + bcc).contains(someone) <==> someone.len() > 0 && exists|r: Seq<char>|
            #![auto]
            (to.contains(r) || cc.contains(r) || bcc.contains(r)) && address::address_of(r)
                == someone,
{
    envelope_holds(to + cc + bcc, someone);
    let all = to + cc + bcc;
    assert forall|r: Seq<char>| #[trigger] all.contains(r) == (to.contains(r) || cc.contains(r)
        || bcc.contains(r)) by {
        if to.contains(r) {
            let k = choose|k: int| 0 <= k < to.len() && to[k] == r;
            assert(all[k] == r);
        }
        if cc.contains(r) {
            let k = choose|k: int| 0 <= k < cc.len() && cc[k] == r;
            assert(all[to.len() + k] == r);
        }
        if bcc.contains(r) {
            let k = choose|k: int| 0 <= k < bcc.len() && bcc[k] == r;
            assert(all[to.len() + cc.len() + k] == r);
        }
        if all.contains(r) {
            let k = choose|k: int| 0 <= k < all.len() && all[k] == r;
            if k < to.len() {
                assert(to[k] == r);
            } else if k < to.len() + cc.len() {
                assert(cc[k - to.len()] == r);
            } else {
                assert(bcc[k - to.len() - cc.len()] == r);
            }
        }
    }
    if envelope_of(all).contains(someone) {
        let r = choose|r: Seq<char>|
            #![auto]
            all.contains(r) && address::address_of(r) == someone;
        assert(all.contains(r));
    }
    if someone.len() > 0 && exists|r: Seq<char>|
        #![auto]
        (to.contains(r) || cc.contains(r) || bcc.contains(r)) && address::address_of(r)
            == someone {
        let r = choose|r: Seq<char>|
            #![auto]
            (to.contains(r) || cc.contains(r) || bcc.contains(r)) && address::address_of(r)
                == someone;
        assert(all.contains(r));
    }
}

proof fn envelope_holds(headers: Seq<Seq<char>>, someone: Seq<char>)
    ensures
        envelope_of(headers).contains(someone) <==> someone.len() > 0 && exists|r: Seq<char>|
            #![auto]
            headers.contains(r) && address::address_of(r) == someone,
    decreases headers.len(),
{
    if headers.len() > 0 {
        let before = headers.drop_last();
        let last = headers.last();
        envelope_holds(before, someone);
        assert(headers[headers.len() - 1] == last);
        if envelope_of(headers).contains(someone) {
            if envelope_of(before).contains(someone) {
                let r = choose|r: Seq<char>|
                    #![auto]
                    before.contains(r) && address::address_of(r) == someone;
                let k = choose|k: int| 0 <= k < before.len() && before[k] == r;
                assert(headers[k] == r);
                assert(headers.contains(r));
            } else {
                let e = envelope_of(headers);
                let k = choose|k: int| 0 <= k < e.len() && e[k] == someone;
                if k < envelope_of(before).len() {
                    assert(envelope_of(before)[k] == someone);
                }
                assert(headers.contains(last));
            }
        }
        if someone.len() > 0 && exists|r: Seq<char>|
            #![auto]
            headers.contains(r) && address::address_of(r) == someone {
            let r = choose|r: Seq<char>|
                #![auto]
                headers.contains(r) && address::address_of(r) == someone;
            let k = choose|k: int| 0 <= k < headers.len() && headers[k] == r;
            if k < before.len() {
                assert(before[k] == r);
                assert(before.contains(r));
                assert(envelope_of(before).contains(someone));
                let e = envelope_of(before);
                let m = choose|m: int| 0 <= m < e.len() && e[m] == someone;
                assert(envelope_of(headers)[m] == someone);
            } else {
                assert(envelope_of(headers).last() == someone);
            }
        }
    }
}

/// The people in two lists of headers add up, and each mailbox in a header is one of them, with its
/// name and its address.
pub proof fn people_add_up(a: Seq<Seq<char>>, b: Seq<Seq<char>>, i: int)
    ensures
        people_in(a + b) == people_in(a) + people_in(b),
        a.len() == 1 ==> people_in(a).len() == address::mailboxes(a[0]).len(),
        a.len() == 1 && 0 <= i < people_in(a).len() ==> people_in(a)[i] == (
            address::mailboxes(a[0])[i].name,
            address::mailboxes(a[0])[i].address,
        ),
    decreases b.len(),
{
    if a.len() == 1 {
        assert(a.drop_last().len() == 0);
        assert(people_in(a.drop_last()) =~= Seq::empty());
    }
    if b.len() == 0 {
        assert(a + b =~= a);
        assert(people_in(a) + people_in(b) =~= people_in(a));
    } else {
        people_add_up(a, b.drop_last(), i);
        assert((a + b).drop_last() =~= a + b.drop_last());
        assert(people_in(a + b) =~= people_in(a) + people_in(b));
    }
}

/// The account that is found for an id has that id, and none before it does. None is found where no
/// account has it.
pub proof fn the_first_account_of_an_id_is_found(accounts: Seq<Account>, id: i64, i: int)
    requires
        0 <= i <= accounts.len(),
    ensures
        match place_of(accounts, id, i) {
            Some(k) => i <= k < accounts.len() && accounts[k].id == id && forall|m: int|
                i <= m < k ==> (#[trigger] accounts[m]).id != id,
            None => forall|m: int| i <= m < accounts.len() ==> (#[trigger] accounts[m]).id != id,
        },
    decreases accounts.len() - i,
{
    if i < accounts.len() {
        the_first_account_of_an_id_is_found(accounts, id, i + 1);
    }
}

/// A message that was built and saved to the Outbox goes to the server. Where the server takes it, it
/// leaves the Outbox and is filed; where the server does not, it stays there. Either way the
/// composer closes.
pub proof fn messages_go_their_way(events: Seq<SendEvent>, row: i64)
    requires
        after(events).state is Composing,
    ensures
        ({
            let saved = events.push(SendEvent::Built(true)).push(SendEvent::Saved(Some(row)));
            let taken = saved.push(SendEvent::Answered(true));
            let refused = saved.push(SendEvent::Answered(false));
            &&& after(saved).outbox == Some(row) && after(saved).is_handed_over
            &&& !after(saved).is_accepted
            &&& stepped(after(saved).state, SendEvent::Answered(true)).1 == SendAction::File(row)
            &&& after(taken).outbox is None && after(taken).is_accepted
            &&& after(taken).state is Closed
            &&& after(refused).outbox == Some(row) && !after(refused).is_accepted
            &&& after(refused).state is Closed
        }),
{
    nothing_is_lost(events);
    let built = events.push(SendEvent::Built(true));
    let saved = built.push(SendEvent::Saved(Some(row)));
    let taken = saved.push(SendEvent::Answered(true));
    let refused = saved.push(SendEvent::Answered(false));
    assert(built.drop_last() =~= events);
    assert(saved.drop_last() =~= built);
    assert(taken.drop_last() =~= saved);
    assert(refused.drop_last() =~= saved);
    assert(after(built).state is Queueing);
    nothing_is_lost(built);
    assert(after(saved).state == SendState::Sending(row));
    nothing_is_lost(saved);
}

/// The highlight moves by one row and stays in the list: at its ends it stays where it is, and one that
/// is nowhere yet starts from the first row.
pub proof fn highlights_stay_in_the_list(selected: Option<usize>, count: usize)
    requires
        selected matches Some(i) ==> i < count,
    ensures
        moved(selected, 1, count as int) matches Some(i) ==> 0 <= i < count,
        moved(selected, -1, count as int) matches Some(i) ==> 0 <= i < count,
        selected matches Some(i) ==> {
            &&& i + 1 < count ==> moved(selected, 1, count as int) == Some(i + 1)
            &&& i + 1 == count ==> moved(selected, 1, count as int) == Some(i as int)
            &&& i > 0 ==> moved(selected, -1, count as int) == Some(i - 1)
            &&& i == 0 ==> moved(selected, -1, count as int) == Some(0int)
        },
        selected is None && count > 1 ==> moved(selected, 1, count as int) == Some(1int),
        count == 0 ==> moved(selected, 1, 0) is None,
{
}

} // verus!
