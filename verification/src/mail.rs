//! What the `mail-parser` crate reads in the bytes of a message, as plain values.
//!
//! The grammar of mail is left to that crate: each question asked of it has a name. Its offsets
//! are 32-bit numbers, so a message is shorter than 4 GiB.

use vstd::prelude::*;
use mail_parser::{Addr, HeaderValue, MessageParser, MimeHeaders, PartType};
use crate::text;

verus! {

/// A mailbox as a header names it.
#[derive(Clone, Debug, PartialEq, Eq)]
pub struct Named {
    pub name: Option<String>,
    pub address: Option<String>,
}

/// What a header says of a mailbox.
pub struct NamedView {
    pub name: Option<Seq<char>>,
    pub address: Option<Seq<char>>,
}

/// The text behind an optional string.
pub open spec fn opt(s: Option<String>) -> Option<Seq<char>> {
    match s {
        Some(t) => Some(t@),
        None => None,
    }
}

impl View for Named {
    type V = NamedView;

    open spec fn view(&self) -> NamedView {
        NamedView { name: opt(self.name), address: opt(self.address) }
    }
}

/// The mailboxes of a list.
pub open spec fn named_views(list: Seq<Named>) -> Seq<NamedView> {
    Seq::new(list.len(), |i: int| list[i]@)
}

/// The mailboxes of a header that may be missing.
pub open spec fn named_list(list: Option<Vec<Named>>) -> Option<Seq<NamedView>> {
    match list {
        Some(l) => Some(named_views(l@)),
        None => None,
    }
}

/// A decoded header.
#[derive(Clone, Debug, PartialEq, Eq)]
pub enum Content {
    Text(String),
    Addresses(Vec<Named>),
    TextList(Vec<String>),
    /// The date, in RFC 822 form.
    Date(String),
    Other,
}

/// What a decoded header says.
pub enum ContentView {
    Text(Seq<char>),
    Addresses(Seq<NamedView>),
    TextList(Seq<Seq<char>>),
    Date(Seq<char>),
    Other,
}

impl View for Content {
    type V = ContentView;

    open spec fn view(&self) -> ContentView {
        match self {
            Content::Text(t) => ContentView::Text(t@),
            Content::Addresses(list) => ContentView::Addresses(named_views(list@)),
            Content::TextList(list) => ContentView::TextList(text::texts(list@)),
            Content::Date(t) => ContentView::Date(t@),
            Content::Other => ContentView::Other,
        }
    }
}

/// A header of a stored message, as text or as mailboxes.
#[derive(Clone, Debug, PartialEq, Eq)]
pub struct Stored {
    pub text: Option<String>,
    pub mailboxes: Option<Vec<Named>>,
}

/// What a header of a stored message says.
pub struct StoredView {
    pub text: Option<Seq<char>>,
    pub mailboxes: Option<Seq<NamedView>>,
}

impl View for Stored {
    type V = StoredView;

    open spec fn view(&self) -> StoredView {
        StoredView { text: opt(self.text), mailboxes: named_list(self.mailboxes) }
    }
}

/// The headers of a list.
pub open spec fn stored_views(list: Seq<Stored>) -> Seq<StoredView> {
    Seq::new(list.len(), |i: int| list[i]@)
}

/// The content of a header that may be missing.
pub open spec fn opt_content(c: Option<Content>) -> Option<ContentView> {
    match c {
        Some(content) => Some(content@),
        None => None,
    }
}

/// What kind of body a part of a message has.
#[derive(Clone, Debug, PartialEq, Eq)]
pub enum PartKind {
    Text(String),
    Html(String),
    Multipart,
    Message,
    Other,
}

/// What a body is.
pub enum KindView {
    Text(Seq<char>),
    Html(Seq<char>),
    Multipart,
    Message,
    Other,
}

impl View for PartKind {
    type V = KindView;

    open spec fn view(&self) -> KindView {
        match self {
            PartKind::Text(t) => KindView::Text(t@),
            PartKind::Html(t) => KindView::Html(t@),
            PartKind::Multipart => KindView::Multipart,
            PartKind::Message => KindView::Message,
            PartKind::Other => KindView::Other,
        }
    }
}

/// The body of a part of a message.
#[derive(Debug)]
pub struct PartBody {
    pub kind: PartKind,
    pub contents: Vec<u8>,
}

/// What the body of a part holds.
pub struct BodyView {
    pub kind: KindView,
    pub contents: Seq<u8>,
}

impl View for PartBody {
    type V = BodyView;

    open spec fn view(&self) -> BodyView {
        BodyView { kind: self.kind@, contents: self.contents@ }
    }
}

/// The bodies of a list.
pub open spec fn body_views(list: Seq<PartBody>) -> Seq<BodyView> {
    Seq::new(list.len(), |i: int| list[i]@)
}

/// What the headers of a part say of it.
#[derive(Debug)]
pub struct PartLabel {
    pub disposition: Option<String>,
    pub media_type: Option<String>,
    pub media_subtype: Option<String>,
    pub name: Option<String>,
}

/// What the headers of a part say.
pub struct LabelView {
    pub disposition: Option<Seq<char>>,
    pub media_type: Option<Seq<char>>,
    pub media_subtype: Option<Seq<char>>,
    pub name: Option<Seq<char>>,
}

impl View for PartLabel {
    type V = LabelView;

    open spec fn view(&self) -> LabelView {
        LabelView {
            disposition: opt(self.disposition),
            media_type: opt(self.media_type),
            media_subtype: opt(self.media_subtype),
            name: opt(self.name),
        }
    }
}

/// What the headers of a list say.
pub open spec fn label_views(list: Seq<PartLabel>) -> Seq<LabelView> {
    Seq::new(list.len(), |i: int| list[i]@)
}

/// A part of a message.
#[derive(Clone, Debug, PartialEq, Eq)]
pub struct Part {
    pub kind: PartKind,
    pub disposition: Option<String>,
    pub media_type: Option<String>,
    pub media_subtype: Option<String>,
    pub name: Option<String>,
    pub contents: Vec<u8>,
}

/// What a part of a message holds.
pub struct PartView {
    pub kind: KindView,
    pub disposition: Option<Seq<char>>,
    pub media_type: Option<Seq<char>>,
    pub media_subtype: Option<Seq<char>>,
    pub name: Option<Seq<char>>,
    pub contents: Seq<u8>,
}

impl View for Part {
    type V = PartView;

    open spec fn view(&self) -> PartView {
        PartView {
            kind: self.kind@,
            disposition: opt(self.disposition),
            media_type: opt(self.media_type),
            media_subtype: opt(self.media_subtype),
            name: opt(self.name),
            contents: self.contents@,
        }
    }
}

/// The parts of a list.
pub open spec fn part_views(list: Seq<Part>) -> Seq<PartView> {
    Seq::new(list.len(), |i: int| list[i]@)
}

/// Whether some bytes are a message.
pub uninterp spec fn is_mail(raw: Seq<u8>) -> bool;

/// The subject of a message.
pub uninterp spec fn mail_subject(raw: Seq<u8>) -> Option<Seq<char>>;

/// A header of a message as it was sent.
pub uninterp spec fn mail_header_raw(raw: Seq<u8>, name: Seq<char>) -> Option<Seq<char>>;

/// Who a message is from.
pub uninterp spec fn mail_from(raw: Seq<u8>) -> Option<Seq<NamedView>>;

/// Who a message is to.
pub uninterp spec fn mail_to(raw: Seq<u8>) -> Option<Seq<NamedView>>;

/// Who gets a copy of a message.
pub uninterp spec fn mail_cc(raw: Seq<u8>) -> Option<Seq<NamedView>>;

/// Who gets a blind copy of a message.
pub uninterp spec fn mail_bcc(raw: Seq<u8>) -> Option<Seq<NamedView>>;

/// The bodies of a message's parts and their contents, in the order they are met.
pub uninterp spec fn mail_bodies(raw: Seq<u8>) -> Seq<BodyView>;

/// What the headers of a message's parts say of them, in the same order.
pub uninterp spec fn mail_labels(raw: Seq<u8>) -> Seq<LabelView>;

/// The parts of a message, in the order they are met.
pub open spec fn mail_parts(raw: Seq<u8>) -> Seq<PartView> {
    Seq::new(
        mail_bodies(raw).len(),
        |i: int|
            PartView {
                kind: mail_bodies(raw)[i].kind,
                disposition: mail_labels(raw)[i].disposition,
                media_type: mail_labels(raw)[i].media_type,
                media_subtype: mail_labels(raw)[i].media_subtype,
                name: mail_labels(raw)[i].name,
                contents: mail_bodies(raw)[i].contents,
            },
    )
}

/// The last header of a name in a header block, decoded.
pub uninterp spec fn block_header(raw: Seq<u8>, name: Seq<char>) -> Option<ContentView>;

/// The last header of a name in a header block, as it was sent.
pub uninterp spec fn block_header_raw(raw: Seq<u8>, name: Seq<char>) -> Option<Seq<char>>;

/// Every header of a name in a header block, as text or as mailboxes.
pub uninterp spec fn block_headers(raw: Seq<u8>, name: Seq<char>) -> Seq<StoredView>;

/// Calls `mail_parser::MessageParser::parse`: whether it finds a message.
#[verifier::external_body]
pub(crate) fn is_message(raw: &[u8]) -> (r: bool)
    requires
        raw@.len() <= u32::MAX,
    ensures
        r == is_mail(raw@),
{
    MessageParser::default().parse(raw).is_some()
}

/// Calls `mail_parser::Message::subject` on the parsed message.
#[verifier::external_body]
pub(crate) fn subject(raw: &[u8]) -> (r: Option<String>)
    requires
        raw@.len() <= u32::MAX,
    ensures
        opt(r) == mail_subject(raw@),
{
    let message = MessageParser::default().parse(raw)?;
    message.subject().map(|text| text.to_string())
}

/// Calls `mail_parser::Message::header_raw` on the parsed message.
#[verifier::external_body]
pub(crate) fn header_raw(raw: &[u8], name: &str) -> (r: Option<String>)
    requires
        raw@.len() <= u32::MAX,
    ensures
        opt(r) == mail_header_raw(raw@, name@),
{
    let message = MessageParser::default().parse(raw)?;
    message.header_raw(name).map(|text| text.to_string())
}

/// Calls `mail_parser::Message::from` on the parsed message.
#[verifier::external_body]
pub(crate) fn from(raw: &[u8]) -> (r: Option<Vec<Named>>)
    requires
        raw@.len() <= u32::MAX,
    ensures
        named_list(r) == mail_from(raw@),
{
    let message = MessageParser::default().parse(raw)?;
    let list = message.from()?;
    let text = |part: Option<&str>| part.map(|t| t.to_string());
    Some(list.iter().map(|m| Named { name: text(m.name()), address: text(m.address()) }).collect())
}

/// Calls `mail_parser::Message::to` on the parsed message.
#[verifier::external_body]
pub(crate) fn to(raw: &[u8]) -> (r: Option<Vec<Named>>)
    requires
        raw@.len() <= u32::MAX,
    ensures
        named_list(r) == mail_to(raw@),
{
    let message = MessageParser::default().parse(raw)?;
    let list = message.to()?;
    let text = |part: Option<&str>| part.map(|t| t.to_string());
    Some(list.iter().map(|m| Named { name: text(m.name()), address: text(m.address()) }).collect())
}

/// Calls `mail_parser::Message::cc` on the parsed message.
#[verifier::external_body]
pub(crate) fn cc(raw: &[u8]) -> (r: Option<Vec<Named>>)
    requires
        raw@.len() <= u32::MAX,
    ensures
        named_list(r) == mail_cc(raw@),
{
    let message = MessageParser::default().parse(raw)?;
    let list = message.cc()?;
    let text = |part: Option<&str>| part.map(|t| t.to_string());
    Some(list.iter().map(|m| Named { name: text(m.name()), address: text(m.address()) }).collect())
}

/// Calls `mail_parser::Message::bcc` on the parsed message.
#[verifier::external_body]
pub(crate) fn bcc(raw: &[u8]) -> (r: Option<Vec<Named>>)
    requires
        raw@.len() <= u32::MAX,
    ensures
        named_list(r) == mail_bcc(raw@),
{
    let message = MessageParser::default().parse(raw)?;
    let list = message.bcc()?;
    let text = |part: Option<&str>| part.map(|t| t.to_string());
    Some(list.iter().map(|m| Named { name: text(m.name()), address: text(m.address()) }).collect())
}

/// Reads `mail_parser::Message::parts` of the parsed message: of each part its `body` and what
/// `contents` gives; none where there is no message.
#[verifier::external_body]
fn bodies(raw: &[u8]) -> (r: Vec<PartBody>)
    requires
        raw@.len() <= u32::MAX,
    ensures
        body_views(r@) == mail_bodies(raw@),
{
    let Some(message) = MessageParser::default().parse(raw) else { return Vec::new() };
    let own = |part: &mail_parser::MessagePart| PartBody { kind: match &part.body {
            PartType::Text(text) => PartKind::Text(text.to_string()),
            PartType::Html(html) => PartKind::Html(html.to_string()),
            PartType::Multipart(_) => PartKind::Multipart,
            PartType::Message(_) => PartKind::Message,
            _ => PartKind::Other,
        }, contents: part.contents().to_vec() };
    message.parts.iter().map(own).collect()
}

/// Reads `mail_parser::Message::parts` of the parsed message: of each part its
/// `content_disposition`, `content_type` and `attachment_name`; none where there is no message.
#[verifier::external_body]
fn labels(raw: &[u8]) -> (r: Vec<PartLabel>)
    requires
        raw@.len() <= u32::MAX,
    ensures
        label_views(r@) == mail_labels(raw@),
        r@.len() == mail_bodies(raw@).len(),
{
    let Some(message) = MessageParser::default().parse(raw) else { return Vec::new() };
    let own = |part: &mail_parser::MessagePart| PartLabel {
        disposition: part.content_disposition().map(|d| d.ctype().to_string()),
        media_type: part.content_type().map(|t| t.ctype().to_string()),
        media_subtype: part.content_type().and_then(|t| t.subtype()).map(str::to_string),
        name: part.attachment_name().map(str::to_string),
    };
    message.parts.iter().map(own).collect()
}

fn copied(text: &Option<String>) -> (r: Option<String>)
    ensures
        opt(r) == opt(*text),
{
    match text {
        Some(t) => Some(t.clone()),
        None => None,
    }
}

fn copied_kind(kind: &PartKind) -> (r: PartKind)
    ensures
        r@ == kind@,
{
    match kind {
        PartKind::Text(t) => PartKind::Text(t.clone()),
        PartKind::Html(t) => PartKind::Html(t.clone()),
        PartKind::Multipart => PartKind::Multipart,
        PartKind::Message => PartKind::Message,
        PartKind::Other => PartKind::Other,
    }
}

/// The parts of a message.
pub(crate) fn parts(raw: &[u8]) -> (r: Vec<Part>)
    requires
        raw@.len() <= u32::MAX,
    ensures
        part_views(r@) == mail_parts(raw@),
{
    let bodies = bodies(raw);
    let labels = labels(raw);
    let ghost all = mail_bodies(raw@);
    let ghost said = mail_labels(raw@);
    let mut out: Vec<Part> = Vec::new();
    assert(all.len() == bodies.len());
    while out.len() < bodies.len()
        invariant
            out.len() <= bodies.len(),
            bodies.len() == labels.len(),
            all == body_views(bodies@),
            said == label_views(labels@),
            all == mail_bodies(raw@),
            said == mail_labels(raw@),
            forall|k: int| 0 <= k < out.len() ==> (#[trigger] out@[k])@ == mail_parts(raw@)[k],
        decreases bodies.len() - out.len(),
    {
        let i: usize = out.len();
        assert(all[i as int] == bodies@[i as int]@);
        assert(said[i as int] == labels@[i as int]@);
        let contents = bodies[i].contents.clone();
        assert(contents@ =~= bodies@[i as int].contents@);
        out.push(
            Part {
                kind: copied_kind(&bodies[i].kind),
                disposition: copied(&labels[i].disposition),
                media_type: copied(&labels[i].media_type),
                media_subtype: copied(&labels[i].media_subtype),
                name: copied(&labels[i].name),
                contents,
            },
        );
    }
    assert(part_views(out@) =~= mail_parts(raw@));
    out
}

/// Calls `mail_parser::Message::header` on the parsed header block: the last header of that name.
#[verifier::external_body]
pub(crate) fn header(raw: &[u8], name: &str) -> (r: Option<Content>)
    requires
        raw@.len() <= u32::MAX,
    ensures
        opt_content(r) == block_header(raw@, name@),
{
    let message = MessageParser::default().parse_headers(raw)?;
    let own = |text: Option<&str>| text.map(str::to_string);
    let named = |m: &Addr| Named { name: own(m.name()), address: own(m.address()) };
    Some(match message.header(name.to_string())? {
        HeaderValue::Text(t) => Content::Text(t.to_string()),
        HeaderValue::Address(a) => Content::Addresses(a.iter().map(named).collect()),
        HeaderValue::TextList(l) => Content::TextList(l.iter().map(ToString::to_string).collect()),
        HeaderValue::DateTime(d) => Content::Date(d.to_rfc822()),
        _ => Content::Other,
    })
}

/// Calls `mail_parser::Message::header_raw` on the parsed header block.
#[verifier::external_body]
pub(crate) fn header_block_raw(raw: &[u8], name: &str) -> (r: Option<String>)
    requires
        raw@.len() <= u32::MAX,
    ensures
        opt(r) == block_header_raw(raw@, name@),
{
    let message = MessageParser::default().parse_headers(raw)?;
    message.header_raw(name).map(|text| text.to_string())
}

/// Calls `mail_parser::Message::header_values` on the parsed header block: of every header of that
/// name, in order, what `as_text` and `as_address` give; none where there is no header block.
#[verifier::external_body]
pub(crate) fn header_values(raw: &[u8], name: &str) -> (r: Vec<Stored>)
    requires
        raw@.len() <= u32::MAX,
    ensures
        stored_views(r@) == block_headers(raw@, name@),
{
    let parser = MessageParser::default();
    let Some(message) = parser.parse_headers(raw) else { return Vec::new() };
    let own = |text: Option<&str>| text.map(str::to_string);
    let named = |m: &Addr| Named { name: own(m.name()), address: own(m.address()) };
    let values = message.header_values(name.to_string()).map(|value| Stored {
        text: own(value.as_text()),
        mailboxes: value.as_address().map(|a| a.iter().map(named).collect()),
    });
    values.collect()
}

} // verus!
