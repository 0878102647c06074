//! Reading a stored message: bodies, attachments, the headers the reader
//! shows, and the sandbox the HTML body is rendered in.

use vstd::prelude::*;
use vstd::utf8;
use crate::codec;
use crate::dates;
use crate::html;
use crate::mail;
use crate::mail::{Named, Part, PartKind};
use crate::models::Attachment;
use crate::text;

verus! {

/// Where a mailing list says it will accept an unsubscribe request.
#[derive(Clone, Debug, PartialEq, Eq)]
pub struct Unsubscribe {
    pub url: String,
    pub mailto: String,
    pub is_one_click: bool,
}

/// What an unsubscribe offer says.
#[verifier::ext_equal]
pub struct UnsubscribeView {
    pub url: Seq<char>,
    pub mailto: Seq<char>,
    pub is_one_click: bool,
}

impl View for Unsubscribe {
    type V = UnsubscribeView;

    open spec fn view(&self) -> UnsubscribeView {
        UnsubscribeView { url: self.url@, mailto: self.mailto@, is_one_click: self.is_one_click }
    }
}

/// A message as the reader shows it.
#[derive(Clone, Debug, PartialEq, Eq)]
pub struct ParsedMessage {
    pub text_body: Option<String>,
    pub html_body: Option<String>,
    pub attachments: Vec<Attachment>,
    pub subject: String,
    pub from_header: String,
    pub reply_to_header: String,
    pub from_display: String,
    pub to: Vec<String>,
    pub cc: Vec<String>,
    pub bcc: Vec<String>,
    /// The raw Date header, for quoting in a reply.
    pub date_header: String,
    /// The Date header formatted for the Details section.
    pub date: String,
    pub unsubscribe: Option<Unsubscribe>,
}

/// What an attachment holds.
#[verifier::ext_equal]
pub struct AttachmentView {
    pub filename: Seq<char>,
    pub mime_type: Seq<char>,
    pub content: Seq<u8>,
}

impl View for Attachment {
    type V = AttachmentView;

    open spec fn view(&self) -> AttachmentView {
        AttachmentView {
            filename: self.filename@,
            mime_type: self.mime_type@,
            content: self.content@,
        }
    }
}

/// The attachments of a list.
pub open spec fn attachment_views(list: Seq<Attachment>) -> Seq<AttachmentView> {
    Seq::new(list.len(), |i: int| list[i]@)
}

impl Default for ParsedMessage {
    fn default() -> (r: Self)
        ensures
            r.text_body is None,
            r.html_body is None,
            r.attachments@.len() == 0,
            r.subject@.len() == 0,
            r.from_header@.len() == 0,
            r.reply_to_header@.len() == 0,
            r.from_display@.len() == 0,
            r.to@.len() == 0,
            r.cc@.len() == 0,
            r.bcc@.len() == 0,
            r.date_header@.len() == 0,
            r.date@.len() == 0,
            r.unsubscribe is None,
    {
        ParsedMessage {
            text_body: None,
            html_body: None,
            attachments: Vec::new(),
            subject: String::new(),
            from_header: String::new(),
            reply_to_header: String::new(),
            from_display: String::new(),
            to: Vec::new(),
            cc: Vec::new(),
            bcc: Vec::new(),
            date_header: String::new(),
            date: String::new(),
            unsubscribe: None,
        }
    }
}

// --- previews -------------------------------------------------------------

/// The most characters a conversation-list preview keeps. Two lines of a
/// narrow sidebar never show more; the rest would only bloat the database.
pub const PREVIEW_CHARS: usize = 240;

/// A text with every run of white space collapsed to one space.
pub open spec fn collapsed(s: Seq<char>) -> Seq<char> {
    text::join(text::words(s), " "@)
}

/// The text a preview is made of: the plain-text part when there is one to read, otherwise the
/// HTML flattened.
pub open spec fn preview_source(plain: Option<Seq<char>>, markup: Option<Seq<char>>) -> Seq<char> {
    if plain is Some && text::trim(plain.unwrap()).len() > 0 {
        plain.unwrap()
    } else {
        match markup {
            Some(m) => html::as_text(m),
            None => match plain {
                Some(p) => p,
                None => Seq::empty(),
            },
        }
    }
}

/// A text without its white space.
pub open spec fn without_white(s: Seq<char>, i: int) -> Seq<char>
    decreases s.len() - i,
{
    if i < 0 || i >= s.len() {
        Seq::empty()
    } else if text::is_white(s[i]) {
        without_white(s, i + 1)
    } else {
        seq![s[i]] + without_white(s, i + 1)
    }
}

/// Whether a character occurs in base64.
pub open spec fn is_base64_char(c: char) -> bool {
    html::is_alnum(c) || c == '+' || c == '/' || c == '='
}

/// Whether all characters of a text occur in base64.
pub open spec fn is_base64_text(s: Seq<char>) -> bool {
    forall|i: int| 0 <= i < s.len() ==> is_base64_char(#[trigger] s[i])
}

/// Whether a text reads as base64 on some lines: 32 characters or more, all of them its, and no
/// white space but around the lines. Words with blanks between them are none, whatever their
/// letters.
pub open spec fn reads_as_base64(source: Seq<char>) -> bool {
    &&& without_white(source, 0).len() >= 32
    &&& forall|i: int|
        0 <= i < text::lines(source).len() ==> is_base64_text(
            text::trim(#[trigger] text::lines(source)[i]),
        )
}

/// Where the equals signs that a text ends with start.
pub open spec fn padding_start(s: Seq<char>, j: int) -> int
    decreases j,
{
    if 0 < j <= s.len() && s[j - 1] == '=' {
        padding_start(s, j - 1)
    } else {
        j
    }
}

/// The part of base64 that can be decoded: without padding, in whole groups of four.
pub open spec fn whole_groups(compact: Seq<char>) -> Seq<char> {
    let end = padding_start(compact, compact.len() as int);
    compact.take(end - end % 4)
}

/// A decoded text on one line, flattened where it is markup.
pub open spec fn on_one_line(decoded: Seq<char>) -> Seq<char> {
    let start = text::trim_start(decoded);
    if start.len() > 0 && start[0] == '<' {
        collapsed(html::as_text(decoded))
    } else {
        collapsed(decoded)
    }
}

/// The text of decoded bytes on one line, or the text they were decoded from.
pub open spec fn undone(bytes: Option<Seq<u8>>, encoded: Seq<char>) -> Seq<char> {
    match bytes {
        Some(b) => on_one_line(codec::utf8_lossy(b)),
        None => encoded,
    }
}

/// A text on one line, decoded where it reads as base64.
pub open spec fn base64_undone(source: Seq<char>) -> Seq<char> {
    if reads_as_base64(source) {
        undone(
            codec::base64_unpadded(whole_groups(without_white(source, 0))),
            collapsed(source),
        )
    } else {
        collapsed(source)
    }
}

/// The first characters of a text, at most as many as a preview keeps.
pub open spec fn cut(s: Seq<char>) -> Seq<char> {
    if s.len() <= PREVIEW_CHARS {
        s
    } else {
        s.take(PREVIEW_CHARS as int)
    }
}

/// The preview of a message with these bodies.
pub open spec fn preview_text(plain: Option<Seq<char>>, markup: Option<Seq<char>>) -> Seq<char> {
    cut(base64_undone(preview_source(plain, markup)))
}

fn collapse(s: &str) -> (r: String)
    ensures
        r@ == collapsed(s@),
{
    let words = text::split_words(&text::chars_of(s));
    text::text_of(&text::joined(&words, &text::chars_of(" ")))
}

fn base64_char(c: char) -> (r: bool)
    ensures
        r == is_base64_char(c),
{
    html::alnum(c) || c == '+' || c == '/' || c == '='
}

/// The text of decoded bytes on one line, or the text they were decoded from.
pub fn undo_decoded(bytes: Option<Vec<u8>>, encoded: &str) -> (r: String)
    ensures
        r@ == undone(codec::bytes_in(bytes), encoded@),
        bytes matches Some(b) ==> utf8::valid_utf8(b@) ==> r@ == on_one_line(
            utf8::decode_utf8(b@),
        ),
{
    match bytes {
        Some(b) => {
            let decoded = codec::text_lossy(&b);
            let chars = text::chars_of(&decoded);
            let first: usize = text::skip_white(&chars, 0);
            assert(text::trim_start(chars@) =~= chars@.skip(first as int));
            if first < chars.len() && chars[first] == '<' {
                collapse(&html::html_to_text(&decoded))
            } else {
                collapse(&decoded)
            }
        },
        None => encoded.to_owned(),
    }
}

fn all_base64(s: &[char]) -> (r: bool)
    ensures
        r == is_base64_text(s@),
{
    let mut k: usize = 0;
    while k < s.len()
        invariant
            k <= s.len(),
            forall|j: int| 0 <= j < k ==> is_base64_char(#[trigger] s@[j]),
        decreases s.len() - k,
    {
        if !base64_char(s[k]) {
            assert(!is_base64_char(s@[k as int]));
            return false;
        }
        k = k + 1;
    }
    true
}

fn lines_are_base64(source: &[char]) -> (r: bool)
    ensures
        r == forall|i: int|
            0 <= i < text::lines(source@).len() ==> is_base64_text(
                text::trim(#[trigger] text::lines(source@)[i]),
            ),
{
    let lines = text::split_lines(source);
    let ghost views = text::lines(source@);
    let mut k: usize = 0;
    while k < lines.len()
        invariant
            k <= lines.len(),
            views == text::lines(source@),
            text::char_texts(lines@) == views,
            forall|i: int|
                0 <= i < k ==> is_base64_text(text::trim(#[trigger] views[i])),
        decreases lines.len() - k,
    {
        assert(views[k as int] == lines@[k as int]@);
        if !all_base64(&text::trimmed(&lines[k])) {
            return false;
        }
        k = k + 1;
    }
    true
}

/// A base64 part cut off by a partial fetch fails to decode, and mail-parser
/// then hands back the raw encoding. Decode what is there ourselves. Anything else is put on one
/// line.
pub fn undo_truncated_base64(source: &str) -> (r: String)
    ensures
        r@ == base64_undone(source@),
{
    let chars = text::chars_of(source);
    let mut compact: Vec<char> = Vec::new();
    let mut i: usize = 0;
    while i < chars.len()
        invariant
            i <= chars.len(),
            compact@ + without_white(chars@, i as int) =~= without_white(chars@, 0),
        decreases chars.len() - i,
    {
        if !text::white(chars[i]) {
            compact.push(chars[i]);
        }
        i = i + 1;
    }
    assert(compact@ =~= without_white(source@, 0));
    if compact.len() < 32 || !lines_are_base64(&chars) {
        return collapse(source);
    }
    let mut end: usize = compact.len();
    while end > 0 && compact[end - 1] == '='
        invariant
            end <= compact.len(),
            padding_start(compact@, compact@.len() as int) == padding_start(compact@, end as int),
        decreases end,
    {
        end = end - 1;
    }
    let usable = text::slice_of(&compact, 0, end - end % 4);
    assert(usable@ =~= whole_groups(compact@));
    undo_decoded(codec::decode_unpadded(&text::text_of(&usable)), &collapse(source))
}

/// The preview of a message with these bodies.
pub fn preview_of(plain: &Option<String>, markup: &Option<String>) -> (r: String)
    ensures
        r@ == preview_text(mail::opt(*plain), mail::opt(*markup)),
        !reads_as_base64(preview_source(mail::opt(*plain), mail::opt(*markup))) ==> r@ == cut(
            collapsed(preview_source(mail::opt(*plain), mail::opt(*markup))),
        ),
{
    let source: String = match plain {
        Some(p) => {
            if !text::trim_str(p).as_str().is_empty() {
                p.clone()
            } else {
                match markup {
                    Some(m) => html::html_to_text(m),
                    None => p.clone(),
                }
            }
        },
        None => match markup {
            Some(m) => html::html_to_text(m),
            None => String::new(),
        },
    };
    assert(source@ =~= preview_source(mail::opt(*plain), mail::opt(*markup)));
    let line = text::chars_of(&undo_truncated_base64(&source));
    if line.len() <= PREVIEW_CHARS {
        text::text_of(&line)
    } else {
        let short = text::slice_of(&line, 0, PREVIEW_CHARS);
        assert(short@ =~= line@.take(PREVIEW_CHARS as int));
        text::text_of(&short)
    }
}

/// A one-paragraph snippet of a message body for the conversation list: the
/// plain-text part when there is one, otherwise the HTML flattened, with all
/// whitespace collapsed to single spaces. A part that reads as base64 is decoded first.
pub fn preview(parsed: &ParsedMessage) -> (r: String)
    ensures
        r@ == preview_text(mail::opt(parsed.text_body), mail::opt(parsed.html_body)),
        !reads_as_base64(
            preview_source(mail::opt(parsed.text_body), mail::opt(parsed.html_body)),
        ) ==> r@ == cut(
            collapsed(preview_source(mail::opt(parsed.text_body), mail::opt(parsed.html_body))),
        ),
        r@.len() <= PREVIEW_CHARS,
{
    preview_of(&parsed.text_body, &parsed.html_body)
}

/// A preview is of the text where there is one to read, whatever the HTML says, and of the HTML
/// where there is none. Plain words, however much white space stands between them, are shown with
/// one blank between each two, as far as a preview goes.
pub proof fn previews_show_the_text(
    parts: Seq<Seq<char>>,
    plain: Seq<char>,
    markup: Option<Seq<char>>,
    other: Option<Seq<char>>,
)
    requires
        text::words(plain) == parts,
        !reads_as_base64(plain),
    ensures
        text::trim(plain).len() > 0 ==> preview_text(Some(plain), markup) == preview_text(
            Some(plain),
            other,
        ),
        text::trim(plain).len() > 0 && text::join(parts, " "@).len() <= 240 ==> preview_text(
            Some(plain),
            markup,
        ) == text::join(parts, " "@),
        text::trim(plain).len() > 0 && text::join(parts, " "@).len() > 240 ==> preview_text(
            Some(plain),
            markup,
        ) == text::join(parts, " "@).take(240),
        text::trim(plain).len() == 0 && markup is Some ==> preview_text(Some(plain), markup)
            == preview_text(None, markup),
{
}

// --- bodies and attachments -----------------------------------------------

/// Whether a part says that it is an attachment.
pub open spec fn is_attachment(part: mail::PartView) -> bool {
    part.disposition is Some && text::eq_ignore_case(part.disposition.unwrap(), "attachment"@)
}

/// A part as an attachment.
pub open spec fn as_attachment_view(part: mail::PartView) -> AttachmentView {
    AttachmentView {
        filename: match part.name {
            Some(name) => name,
            None => "attachment"@,
        },
        mime_type: match part.media_type {
            Some(kind) => match part.media_subtype {
                Some(sub) => kind + "/"@ + sub,
                None => kind,
            },
            None => "application/octet-stream"@,
        },
        content: part.contents,
    }
}

/// The bodies and attachments among some parts.
pub struct Bodies {
    pub plain: Option<Seq<char>>,
    pub markup: Option<Seq<char>>,
    pub attachments: Seq<AttachmentView>,
}

/// The bodies and attachments among some parts: the first text and the first HTML that is no
/// attachment are the bodies; anything else that holds something of its own is an attachment
/// rather than silently dropped.
pub open spec fn bodies_of(parts: Seq<mail::PartView>) -> Bodies
    decreases parts.len(),
{
    if parts.len() == 0 {
        Bodies { plain: None, markup: None, attachments: Seq::empty() }
    } else {
        let before = bodies_of(parts.drop_last());
        let part = parts.last();
        match part.kind {
            mail::KindView::Multipart => before,
            mail::KindView::Message => before,
            mail::KindView::Text(t) => if !is_attachment(part) && before.plain is None {
                Bodies { plain: Some(t), ..before }
            } else {
                Bodies { attachments: before.attachments.push(as_attachment_view(part)), ..before }
            },
            mail::KindView::Html(t) => if !is_attachment(part) && before.markup is None {
                Bodies { markup: Some(t), ..before }
            } else {
                Bodies { attachments: before.attachments.push(as_attachment_view(part)), ..before }
            },
            mail::KindView::Other => Bodies {
                attachments: before.attachments.push(as_attachment_view(part)),
                ..before
            },
        }
    }
}

fn as_attachment(part: &Part) -> (r: Attachment)
    ensures
        r@ == as_attachment_view(part@),
{
    let mime_type: String = match &part.media_type {
        Some(kind) => match &part.media_subtype {
            Some(sub) => {
                let mut out = text::chars_of(kind);
                text::extend_str(&mut out, "/");
                text::extend_str(&mut out, sub);
                text::text_of(&out)
            },
            None => kind.clone(),
        },
        None => "application/octet-stream".to_owned(),
    };
    let filename: String = match &part.name {
        Some(name) => name.clone(),
        None => "attachment".to_owned(),
    };
    let content = part.contents.clone();
    assert(content@ =~= part.contents@);
    Attachment { filename, mime_type, content }
}

fn attached(part: &Part) -> (r: bool)
    ensures
        r == is_attachment(part@),
{
    match &part.disposition {
        Some(d) => text::str_same_ignoring_case(d, "attachment"),
        None => false,
    }
}

/// The bodies and attachments among some parts.
pub fn bodies_in(parts: &[Part]) -> (r: (Option<String>, Option<String>, Vec<Attachment>))
    ensures
        mail::opt(r.0) == bodies_of(mail::part_views(parts@)).plain,
        mail::opt(r.1) == bodies_of(mail::part_views(parts@)).markup,
        attachment_views(r.2@) == bodies_of(mail::part_views(parts@)).attachments,
{
    let mut plain: Option<String> = None;
    let mut markup: Option<String> = None;
    let mut attachments: Vec<Attachment> = Vec::new();
    let ghost views = mail::part_views(parts@);
    assert(attachment_views(attachments@) =~= Seq::empty());
    let mut i: usize = 0;
    while i < parts.len()
        invariant
            i <= parts.len(),
            views == mail::part_views(parts@),
            mail::opt(plain) == bodies_of(views.take(i as int)).plain,
            mail::opt(markup) == bodies_of(views.take(i as int)).markup,
            attachment_views(attachments@) == bodies_of(views.take(i as int)).attachments,
        decreases parts.len() - i,
    {
        let part = &parts[i];
        proof {
            assert(views.take(i + 1).drop_last() =~= views.take(i as int));
            assert(views.take(i + 1).last() == part@);
        }
        let taken: bool = match &part.kind {
            PartKind::Multipart => true,
            PartKind::Message => true,
            PartKind::Text(t) => {
                if !attached(part) && plain.is_none() {
                    plain = Some(t.clone());
                    true
                } else {
                    false
                }
            },
            PartKind::Html(t) => {
                if !attached(part) && markup.is_none() {
                    markup = Some(t.clone());
                    true
                } else {
                    false
                }
            },
            PartKind::Other => false,
        };
        if !taken {
            let ghost before = attachments@;
            attachments.push(as_attachment(part));
            assert(attachment_views(attachments@) =~= attachment_views(before).push(
                as_attachment_view(part@),
            ));
        }
        i = i + 1;
    }
    assert(views.take(i as int) =~= views);
    (plain, markup, attachments)
}

/// Whether a part holds something of its own, and does not just hold other parts.
pub open spec fn holds_something(part: mail::PartView) -> bool {
    !(part.kind is Multipart) && !(part.kind is Message)
}

/// Whether the part at a place is the first text that is no attachment.
pub open spec fn is_first_text(parts: Seq<mail::PartView>, i: int) -> bool {
    &&& 0 <= i < parts.len()
    &&& parts[i].kind is Text && !is_attachment(parts[i])
    &&& forall|j: int| 0 <= j < i ==> !((#[trigger] parts[j]).kind is Text) || is_attachment(parts[j])
}

/// Whether the part at a place is the first HTML that is no attachment.
pub open spec fn is_first_html(parts: Seq<mail::PartView>, i: int) -> bool {
    &&& 0 <= i < parts.len()
    &&& parts[i].kind is Html && !is_attachment(parts[i])
    &&& forall|j: int| 0 <= j < i ==> !((#[trigger] parts[j]).kind is Html) || is_attachment(parts[j])
}

/// Whether the part at a place has to be offered: it holds something and is no body.
pub open spec fn is_offered(parts: Seq<mail::PartView>, i: int) -> bool {
    holds_something(parts[i]) && !is_first_text(parts, i) && !is_first_html(parts, i)
}

/// The places of some parts.
pub open spec fn places(n: nat) -> Seq<int> {
    Seq::new(n, |i: int| i)
}

proof fn filters_agree(s: Seq<int>, p: spec_fn(int) -> bool, q: spec_fn(int) -> bool)
    requires
        forall|i: int| 0 <= i < s.len() ==> p(#[trigger] s[i]) == q(s[i]),
    ensures
        s.filter(p) == s.filter(q),
    decreases s.len(),
{
    reveal(Seq::filter);
    if s.len() > 0 {
        let short = s.drop_last();
        assert forall|i: int| 0 <= i < short.len() implies p(#[trigger] short[i]) == q(short[i]) by {
            assert(short[i] == s[i]);
        }
        filters_agree(short, p, q);
        assert(p(s[s.len() - 1]) == q(s[s.len() - 1]));
    }
}

/// The first text and the first HTML that are no attachments are the bodies, and everything else
/// that holds something is an attachment, in the order of the parts.
pub proof fn every_part_has_its_place(parts: Seq<mail::PartView>)
    ensures
        forall|i: int| #[trigger]
            is_first_text(parts, i) ==> bodies_of(parts).plain == Some(parts[i].kind->Text_0),
        forall|i: int| #[trigger]
            is_first_html(parts, i) ==> bodies_of(parts).markup == Some(parts[i].kind->Html_0),
        bodies_of(parts).plain is Some <==> exists|i: int| is_first_text(parts, i),
        bodies_of(parts).markup is Some <==> exists|i: int| is_first_html(parts, i),
        bodies_of(parts).attachments == places(parts.len()).filter(
            |i: int| is_offered(parts, i),
        ).map_values(|i: int| as_attachment_view(parts[i])),
    decreases parts.len(),
{
    reveal(Seq::filter);
    let all = bodies_of(parts);
    let pred = |i: int| is_offered(parts, i);
    let view = |i: int| as_attachment_view(parts[i]);
    if parts.len() > 0 {
        let short = parts.drop_last();
        let n = short.len() as int;
        every_part_has_its_place(short);
        assert forall|i: int| 0 <= i < n implies is_first_text(short, i) == is_first_text(parts, i)
            && is_first_html(short, i) == is_first_html(parts, i) by {
            assert forall|j: int| 0 <= j <= i implies #[trigger] short[j] == parts[j] by {}
            if is_first_text(short, i) {
                assert forall|j: int| 0 <= j < i implies !((#[trigger] parts[j]).kind is Text)
                    || is_attachment(parts[j]) by {
                    assert(short[j] == parts[j]);
                }
            }
            if is_first_html(short, i) {
                assert forall|j: int| 0 <= j < i implies !((#[trigger] parts[j]).kind is Html)
                    || is_attachment(parts[j]) by {
                    assert(short[j] == parts[j]);
                }
            }
            if is_first_text(parts, i) {
                assert forall|j: int| 0 <= j < i implies !((#[trigger] short[j]).kind is Text)
                    || is_attachment(short[j]) by {
                    assert(short[j] == parts[j]);
                }
            }
            if is_first_html(parts, i) {
                assert forall|j: int| 0 <= j < i implies !((#[trigger] short[j]).kind is Html)
                    || is_attachment(short[j]) by {
                    assert(short[j] == parts[j]);
                }
            }
        }
        let before = bodies_of(short);
        let part = parts.last();
        assert(part == parts[n]);
        firsts_are_found(short);
        if before.plain is None && part.kind is Text && !is_attachment(part) {
            assert forall|j: int| 0 <= j < n implies !((#[trigger] parts[j]).kind is Text)
                || is_attachment(parts[j]) by {
                assert(short[j] == parts[j]);
            }
            assert(is_first_text(parts, n));
        }
        if before.markup is None && part.kind is Html && !is_attachment(part) {
            assert forall|j: int| 0 <= j < n implies !((#[trigger] parts[j]).kind is Html)
                || is_attachment(parts[j]) by {
                assert(short[j] == parts[j]);
            }
            assert(is_first_html(parts, n));
        }
        if before.plain is Some {
            let i = choose|i: int| is_first_text(short, i);
            assert(is_first_text(parts, i));
            assert(!is_first_text(parts, n)) by {
                assert(parts[i].kind is Text);
            }
        }
        if before.markup is Some {
            let i = choose|i: int| is_first_html(short, i);
            assert(is_first_html(parts, i));
            assert(!is_first_html(parts, n)) by {
                assert(parts[i].kind is Html);
            }
        }
        let short_pred = |i: int| is_offered(short, i);
        let short_view = |i: int| as_attachment_view(short[i]);
        assert(places(parts.len()).drop_last() =~= places(short.len()));
        assert forall|k: int| 0 <= k < places(short.len()).len() implies short_pred(
            #[trigger] places(short.len())[k],
        ) == pred(places(short.len())[k]) by {
            assert(short[k] == parts[k]);
        }
        filters_agree(places(short.len()), short_pred, pred);
        let kept = places(short.len()).filter(pred);
        kept_are_places(short.len(), pred);
        assert(kept.map_values(short_view) =~= kept.map_values(view)) by {
            assert forall|k: int| 0 <= k < kept.len() implies short_view(#[trigger] kept[k]) == view(
                kept[k],
            ) by {
                assert(short[kept[k]] == parts[kept[k]]);
            }
        }
        assert(places(parts.len()).last() == n);
        if pred(n) {
            assert(places(parts.len()).filter(pred) =~= kept.push(n));
            assert(kept.push(n).map_values(view) =~= kept.map_values(view).push(view(n)));
        } else {
            assert(places(parts.len()).filter(pred) =~= kept);
        }
        assert(all.attachments =~= places(parts.len()).filter(pred).map_values(view));
    } else {
        assert(places(0).filter(pred).map_values(view) =~= Seq::empty());
    }
}

/// Where there is a text that is no attachment, there is a first one, and so for HTML.
proof fn firsts_are_found(parts: Seq<mail::PartView>)
    ensures
        (exists|i: int| is_first_text(parts, i)) || forall|j: int|
            0 <= j < parts.len() ==> !((#[trigger] parts[j]).kind is Text) || is_attachment(
                parts[j],
            ),
        (exists|i: int| is_first_html(parts, i)) || forall|j: int|
            0 <= j < parts.len() ==> !((#[trigger] parts[j]).kind is Html) || is_attachment(
                parts[j],
            ),
    decreases parts.len(),
{
    if parts.len() > 0 {
        let short = parts.drop_last();
        let n = short.len() as int;
        firsts_are_found(short);
        assert forall|j: int| 0 <= j < n implies #[trigger] short[j] == parts[j] by {}
        if exists|i: int| is_first_text(short, i) {
            let i = choose|i: int| is_first_text(short, i);
            assert forall|j: int| 0 <= j < i implies !((#[trigger] parts[j]).kind is Text)
                || is_attachment(parts[j]) by {
                assert(short[j] == parts[j]);
            }
            assert(is_first_text(parts, i));
        } else {
            assert forall|j: int| 0 <= j < n implies !((#[trigger] parts[j]).kind is Text)
                || is_attachment(parts[j]) by {
                assert(short[j] == parts[j]);
            }
            assert(parts[n].kind is Text && !is_attachment(parts[n]) ==> is_first_text(parts, n));
        }
        if exists|i: int| is_first_html(short, i) {
            let i = choose|i: int| is_first_html(short, i);
            assert forall|j: int| 0 <= j < i implies !((#[trigger] parts[j]).kind is Html)
                || is_attachment(parts[j]) by {
                assert(short[j] == parts[j]);
            }
            assert(is_first_html(parts, i));
        } else {
            assert forall|j: int| 0 <= j < n implies !((#[trigger] parts[j]).kind is Html)
                || is_attachment(parts[j]) by {
                assert(short[j] == parts[j]);
            }
            assert(parts[n].kind is Html && !is_attachment(parts[n]) ==> is_first_html(parts, n));
        }
    }
}

proof fn kept_are_places(n: nat, pred: spec_fn(int) -> bool)
    ensures
        forall|k: int|
            0 <= k < places(n).filter(pred).len() ==> 0 <= #[trigger] places(n).filter(pred)[k] < n,
    decreases n,
{
    reveal(Seq::filter);
    if n > 0 {
        let m = (n - 1) as nat;
        assert(places(n).drop_last() =~= places(m));
        kept_are_places(m, pred);
        let kept = places(m).filter(pred);
        let all = places(n).filter(pred);
        assert forall|k: int| 0 <= k < all.len() implies 0 <= #[trigger] all[k] < n by {
            if k < kept.len() {
                assert(all[k] == kept[k]);
            }
        }
    }
}

/// No part is lost: those that hold something are as many as the attachments and the bodies
/// together, and one that is neither text nor HTML is an attachment with its name, its type and
/// every byte of it.
pub proof fn no_part_is_lost(parts: Seq<mail::PartView>)
    ensures
        parts.filter(|p: mail::PartView| holds_something(p)).len() == bodies_of(
            parts,
        ).attachments.len() + (if bodies_of(parts).plain is Some {
            1int
        } else {
            0
        }) + (if bodies_of(parts).markup is Some {
            1int
        } else {
            0
        }),
        forall|i: int|
            0 <= i < parts.len() && (#[trigger] parts[i]).kind is Other ==> exists|k: int|
                0 <= k < bodies_of(parts).attachments.len() && is_offer_of(
                    #[trigger] bodies_of(parts).attachments[k],
                    parts[i],
                ),
    decreases parts.len(),
{
    reveal(Seq::filter);
    if parts.len() > 0 {
        let short = parts.drop_last();
        no_part_is_lost(short);
        let before = bodies_of(short).attachments;
        let all = bodies_of(parts).attachments;
        assert forall|i: int| 0 <= i < parts.len() && (#[trigger] parts[i]).kind is Other implies exists|
            k: int,
        |
            0 <= k < all.len() && is_offer_of(#[trigger] all[k], parts[i]) by {
            if i < short.len() {
                assert(short[i] == parts[i]);
                let k = choose|k: int|
                    0 <= k < before.len() && is_offer_of(#[trigger] before[k], short[i]);
                assert(all[k] == before[k]);
            } else {
                assert(is_offer_of(all[before.len() as int], parts[i]));
            }
        }
    }
}

/// Whether an attachment offers a part: its bytes under its name and type, where it has them.
pub open spec fn is_offer_of(a: AttachmentView, part: mail::PartView) -> bool {
    &&& a.content == part.contents
    &&& part.name is Some ==> a.filename == part.name->0
    &&& part.media_type is Some && part.media_subtype is Some ==> a.mime_type == part.media_type->0
        + "/"@ + part.media_subtype->0
}

// --- addresses ------------------------------------------------------------

/// The text of an optional name or address, trimmed.
pub open spec fn trimmed_or_empty(s: Option<Seq<char>>) -> Seq<char> {
    match s {
        Some(t) => text::trim(t),
        None => Seq::empty(),
    }
}

/// A mailbox as the reader shows it, if there is anything to show.
pub open spec fn shown_mailbox(m: mail::NamedView) -> Option<Seq<char>> {
    let name = trimmed_or_empty(m.name);
    let email = trimmed_or_empty(m.address);
    if name.len() > 0 && email.len() > 0 {
        Some(name + " <"@ + email + ">"@)
    } else if email.len() > 0 {
        Some(email)
    } else if name.len() > 0 {
        Some(name)
    } else {
        None
    }
}

/// The mailboxes of a list as the reader shows them.
pub open spec fn shown_mailboxes(list: Seq<mail::NamedView>) -> Seq<Seq<char>>
    decreases list.len(),
{
    if list.len() == 0 {
        Seq::empty()
    } else {
        let before = shown_mailboxes(list.drop_last());
        match shown_mailbox(list.last()) {
            Some(t) => before.push(t),
            None => before,
        }
    }
}

/// The mailboxes of a header as the reader shows them.
pub open spec fn shown_addresses(list: Option<Seq<mail::NamedView>>) -> Seq<Seq<char>> {
    match list {
        Some(l) => shown_mailboxes(l),
        None => Seq::empty(),
    }
}

fn trim_or_empty(s: &Option<String>) -> (r: String)
    ensures
        r@ == trimmed_or_empty(mail::opt(*s)),
{
    match s {
        Some(t) => text::trim_str(t),
        None => String::new(),
    }
}

/// The mailboxes of a header as the reader shows them.
pub fn addresses(list: &Option<Vec<Named>>) -> (r: Vec<String>)
    ensures
        text::texts(r@) == shown_addresses(mail::named_list(*list)),
{
    let mut out: Vec<String> = Vec::new();
    assert(text::texts(out@) =~= Seq::empty());
    let l = match list {
        Some(l) => l,
        None => {
            return out;
        },
    };
    let ghost views = mail::named_views(l@);
    let mut i: usize = 0;
    while i < l.len()
        invariant
            i <= l.len(),
            views == mail::named_views(l@),
            text::texts(out@) == shown_mailboxes(views.take(i as int)),
        decreases l.len() - i,
    {
        proof {
            assert(views.take(i + 1).drop_last() =~= views.take(i as int));
            assert(views.take(i + 1).last() == l@[i as int]@);
        }
        let name = trim_or_empty(&l[i].name);
        let email = trim_or_empty(&l[i].address);
        let ghost before = out@;
        if !email.as_str().is_empty() {
            if !name.as_str().is_empty() {
                let mut both = text::chars_of(&name);
                text::extend_str(&mut both, " <");
                text::extend_str(&mut both, &email);
                text::extend_str(&mut both, ">");
                out.push(text::text_of(&both));
                assert(text::texts(out@) =~= text::texts(before).push(both@));
            } else {
                out.push(email);
                assert(text::texts(out@) =~= text::texts(before).push(email@));
            }
        } else if !name.as_str().is_empty() {
            out.push(name);
            assert(text::texts(out@) =~= text::texts(before).push(name@));
        }
        i = i + 1;
    }
    assert(views.take(i as int) =~= views);
    out
}

/// Everybody that a header names is shown, one after the other: by name and address, or by the one
/// of them that there is.
pub proof fn everybody_is_shown(a: Seq<mail::NamedView>, m: mail::NamedView, b: Seq<mail::NamedView>)
    ensures
        shown_mailboxes(a + seq![m] + b) == shown_mailboxes(a) + shown_mailboxes(seq![m])
            + shown_mailboxes(b),
        ({
            let name = text::trim(or_empty(m.name));
            let email = text::trim(or_empty(m.address));
            shown_mailboxes(seq![m]) == (if name.len() > 0 && email.len() > 0 {
                seq![name + " <"@ + email + ">"@]
            } else if name.len() + email.len() > 0 {
                seq![name + email]
            } else {
                Seq::empty()
            })
        }),
{
    shown_add_up(a, seq![m]);
    shown_add_up(a + seq![m], b);
    let none = Seq::<char>::empty();
    text::trim_is_stable(none);
    assert(text::trim(none) =~= none);
    let one = seq![m];
    assert(one.drop_last() =~= Seq::<mail::NamedView>::empty());
    let name = text::trim(or_empty(m.name));
    let email = text::trim(or_empty(m.address));
    assert(name =~= trimmed_or_empty(m.name));
    assert(email =~= trimmed_or_empty(m.address));
    if name.len() == 0 {
        assert(name + email =~= email);
    } else if email.len() == 0 {
        assert(name + email =~= name);
    }
    assert(shown_mailboxes(one.drop_last()) =~= Seq::empty());
    assert(one.last() == m);
    match shown_mailbox(m) {
        Some(t) => {
            assert(shown_mailboxes(one) =~= seq![t]);
        },
        None => {
            assert(shown_mailboxes(one) =~= Seq::empty());
        },
    }
}

proof fn shown_add_up(a: Seq<mail::NamedView>, b: Seq<mail::NamedView>)
    ensures
        shown_mailboxes(a + b) == shown_mailboxes(a) + shown_mailboxes(b),
    decreases b.len(),
{
    if b.len() == 0 {
        assert(a + b =~= a);
        assert(shown_mailboxes(a) + shown_mailboxes(b) =~= shown_mailboxes(a));
    } else {
        assert((a + b).drop_last() =~= a + b.drop_last());
        assert((a + b).last() == b.last());
        shown_add_up(a, b.drop_last());
        assert(shown_mailboxes(a + b) =~= shown_mailboxes(a) + shown_mailboxes(b));
    }
}

// --- unsubscribing --------------------------------------------------------

/// The targets from `i` on: RFC 2369 wraps each in angle brackets and separates them with commas,
/// which may also appear inside a target, so the brackets are matched. Senders fold the header,
/// and unfolding keeps the white space inside a target, so all of it is left out.
pub open spec fn targets(s: Seq<char>, i: int) -> Seq<Seq<char>>
    decreases s.len() - i,
{
    let open = text::find_at(s, '<', i);
    let close = text::find_at(s, '>', open);
    if i < 0 || i > s.len() || open >= s.len() || close >= s.len() {
        Seq::empty()
    } else {
        proof {
            text::find_at_is_first(s, '<', i);
            text::find_at_is_first(s, '>', open);
        }
        seq![text::join(text::words(s.subrange(open + 1, close)), Seq::empty())] + targets(
            s,
            close + 1,
        )
    }
}

/// Whether a target has a scheme, whatever its case.
pub open spec fn has_scheme(target: Seq<char>, scheme: Seq<char>) -> bool {
    text::eq_ignore_case(target.take(text::find(target, ':')), scheme)
}

/// Whether a text is an https link.
pub open spec fn is_https(url: Seq<char>) -> bool {
    text::starts_with_ignoring_case(url, "https:"@)
}

/// The link among the first targets: http is honoured only as a link, so an https target wins
/// even when an http one was published first.
pub open spec fn chosen_url(all: Seq<Seq<char>>) -> Seq<char>
    decreases all.len(),
{
    if all.len() == 0 {
        Seq::empty()
    } else {
        let before = chosen_url(all.drop_last());
        if takes_url(before, all.last()) {
            all.last()
        } else {
            before
        }
    }
}

/// Whether a target replaces the link chosen before it.
pub open spec fn takes_url(before: Seq<char>, target: Seq<char>) -> bool {
    (has_scheme(target, "https"@) || has_scheme(target, "http"@)) && !is_https(before)
}

/// The mail address among the first targets.
pub open spec fn chosen_mailto(all: Seq<Seq<char>>) -> Seq<char>
    decreases all.len(),
{
    if all.len() == 0 {
        Seq::empty()
    } else {
        let before = chosen_mailto(all.drop_last());
        if !takes_url(chosen_url(all.drop_last()), all.last()) && has_scheme(
            all.last(),
            "mailto"@,
        ) && before.len() == 0 {
            all.last()
        } else {
            before
        }
    }
}

/// The text of a header, empty where it is missing.
pub open spec fn or_empty(s: Option<Seq<char>>) -> Seq<char> {
    match s {
        Some(t) => t,
        None => Seq::empty(),
    }
}

/// What a message offers, given its List-Unsubscribe and List-Unsubscribe-Post headers.
pub open spec fn offer(header: Option<Seq<char>>, post: Option<Seq<char>>) -> Option<
    UnsubscribeView,
> {
    let all = targets(or_empty(header), 0);
    let url = chosen_url(all);
    let mailto = chosen_mailto(all);
    if url.len() == 0 && mailto.len() == 0 {
        None
    } else {
        Some(
            UnsubscribeView {
                url,
                mailto,
                is_one_click: is_https(url) && text::contains_text(
                    text::lowercase(or_empty(post)),
                    "one-click"@,
                ),
            },
        )
    }
}

/// The offer behind an optional value.
pub open spec fn offer_view(u: Option<Unsubscribe>) -> Option<UnsubscribeView> {
    match u {
        Some(o) => Some(o@),
        None => None,
    }
}

/// Where an https target is published with its colon, the link is an https one.
pub proof fn https_wins(all: Seq<Seq<char>>, i: int)
    requires
        0 <= i < all.len(),
        has_scheme(all[i], "https"@),
        is_https(all[i]),
    ensures
        is_https(chosen_url(all)),
    decreases all.len(),
{
    let rest = all.drop_last();
    if i < rest.len() {
        assert(rest[i] == all[i]);
        https_wins(rest, i);
    } else {
        assert(all.last() == all[i]);
    }
}

proof fn targets_shift(p: Seq<char>, s: Seq<char>, i: int)
    requires
        0 <= i <= s.len(),
    ensures
        targets(p + s, p.len() + i) == targets(s, i),
    decreases s.len() - i,
{
    let w = p + s;
    let n = p.len() as int;
    text::find_at_shifts(p, s, '<', i);
    text::find_at_is_first(s, '<', i);
    let open = text::find_at(s, '<', i);
    if open < s.len() {
        text::find_at_shifts(p, s, '>', open);
        text::find_at_is_first(s, '>', open);
        let close = text::find_at(s, '>', open);
        if close < s.len() {
            assert(s[open] == '<' && s[close] == '>');
            assert(w.subrange(n + open + 1, n + close) =~= s.subrange(open + 1, close));
            targets_shift(p, s, close + 1);
            assert(n + (close + 1) == n + close + 1);
        }
    }
}

/// Every target that is published in angle brackets is read, without the white space in it,
/// whatever stands between the brackets of two.
pub proof fn every_target_is_read(before: Seq<char>, target: Seq<char>, rest: Seq<char>)
    requires
        !before.contains('<'),
        !target.contains('>'),
    ensures
        targets(before + seq!['<'] + target + seq!['>'] + rest, 0) == seq![
            text::join(text::words(target), Seq::empty()),
        ] + targets(rest, 0),
{
    let front = before + seq!['<'] + target + seq!['>'];
    let s = front + rest;
    let open = before.len() as int;
    let close = open + 1 + target.len();
    text::find_at_is_first(s, '<', 0);
    assert(s[open] == '<');
    assert forall|j: int| 0 <= j < open implies s[j] != '<' by {
        assert(s[j] == before[j]);
        assert(before.contains(before[j]));
    }
    assert(text::find_at(s, '<', 0) == open);
    text::find_at_is_first(s, '>', open);
    assert(s[close] == '>');
    assert forall|j: int| open <= j < close implies s[j] != '>' by {
        if j > open {
            assert(s[j] == target[j - open - 1]);
            assert(target.contains(target[j - open - 1]));
        }
    }
    assert(text::find_at(s, '>', open) == close);
    assert(s.subrange(open + 1, close) =~= target);
    targets_shift(front, rest, 0);
    assert(front.len() == close + 1);
}

/// The link that is offered is the first https one, where one is published with its colon, and the
/// address is the first mail target. Nothing is offered that was not published.
pub proof fn offers_are_published(all: Seq<Seq<char>>)
    ensures
        forall|i: int|
            0 <= i < all.len() && has_scheme(#[trigger] all[i], "https"@) && is_https(all[i]) && (
            forall|j: int| 0 <= j < i ==> !is_https(#[trigger] all[j])) ==> chosen_url(all)
                == all[i],
        forall|i: int|
            0 <= i < all.len() && has_scheme(#[trigger] all[i], "mailto"@) && (forall|j: int|
                0 <= j < i ==> !has_scheme(#[trigger] all[j], "mailto"@)) ==> chosen_mailto(all)
                == all[i],
        chosen_url(all).len() > 0 ==> all.contains(chosen_url(all)) && (has_scheme(
            chosen_url(all),
            "https"@,
        ) || has_scheme(chosen_url(all), "http"@)),
        chosen_mailto(all).len() > 0 ==> all.contains(chosen_mailto(all)) && has_scheme(
            chosen_mailto(all),
            "mailto"@,
        ),
    decreases all.len(),
{
    reveal_strlit("https");
    reveal_strlit("http");
    reveal_strlit("mailto");
    reveal_strlit("https:");
    if all.len() > 0 {
        let rest = all.drop_last();
        let last = all.last();
        let n = rest.len() as int;
        offers_are_published(rest);
        assert(all[n] == last);
        let none = Seq::<char>::empty();
        assert(!has_scheme(none, "mailto"@) && !is_https(none)) by {
            text::find_at_is_first(none, ':', 0);
            assert(text::ascii_lower(none.take(text::find(none, ':'))).len() == 0);
            assert(text::ascii_lower("mailto"@).len() == 6);
            assert(text::ascii_lower(none).len() == 0);
        }
        assert(has_scheme(last, "mailto"@) ==> !has_scheme(last, "https"@) && !has_scheme(
            last,
            "http"@,
        )) by {
            assert(text::ascii_lower("mailto"@).len() == 6);
            assert(text::ascii_lower("https"@).len() == 5);
            assert(text::ascii_lower("http"@).len() == 4);
        }
        if chosen_url(rest).len() > 0 {
            let k = choose|k: int| 0 <= k < rest.len() && rest[k] == chosen_url(rest);
            assert(all[k] == chosen_url(rest));
        }
        if chosen_mailto(rest).len() > 0 {
            let k = choose|k: int| 0 <= k < rest.len() && rest[k] == chosen_mailto(rest);
            assert(all[k] == chosen_mailto(rest));
        }
        assert forall|i: int|
            0 <= i < all.len() && has_scheme(#[trigger] all[i], "https"@) && is_https(all[i]) && (
            forall|j: int| 0 <= j < i ==> !is_https(#[trigger] all[j])) implies chosen_url(all)
            == all[i] by {
            if i < n {
                assert(rest[i] == all[i]);
                assert forall|j: int| 0 <= j < i implies !is_https(#[trigger] rest[j]) by {
                    assert(rest[j] == all[j]);
                }
            } else if chosen_url(rest).len() > 0 {
                let k = choose|k: int| 0 <= k < rest.len() && rest[k] == chosen_url(rest);
                assert(!is_https(all[k]));
            } else {
                assert(chosen_url(rest) =~= none);
            }
        }
        assert forall|i: int|
            0 <= i < all.len() && has_scheme(#[trigger] all[i], "mailto"@) && (forall|j: int|
                0 <= j < i ==> !has_scheme(#[trigger] all[j], "mailto"@)) implies chosen_mailto(all)
            == all[i] by {
            if i < n {
                assert(rest[i] == all[i]);
                assert forall|j: int| 0 <= j < i implies !has_scheme(
                    #[trigger] rest[j],
                    "mailto"@,
                ) by {
                    assert(rest[j] == all[j]);
                }
                assert(all[i] != none);
                assert(all[i].len() > 0) by {
                    if all[i].len() == 0 {
                        assert(all[i] =~= none);
                    }
                }
            } else if chosen_mailto(rest).len() > 0 {
                let k = choose|k: int| 0 <= k < rest.len() && rest[k] == chosen_mailto(rest);
                assert(has_scheme(all[k], "mailto"@));
            }
        }
    }
}

fn scheme_is(target: &[char], scheme: &str) -> (r: bool)
    ensures
        r == has_scheme(target@, scheme@),
{
    let end: usize = text::find_char(target, ':', 0);
    let head = text::slice_of(target, 0, end);
    assert(head@ =~= target@.take(text::find(target@, ':')));
    text::same_ignoring_case(&head, &text::chars_of(scheme))
}

fn https(url: &[char]) -> (r: bool)
    ensures
        r == is_https(url@),
{
    text::stands_at(&text::to_ascii_lower(url), &text::to_ascii_lower(&text::chars_of("https:")), 0)
}

fn targets_in(s: &[char]) -> (r: Vec<Vec<char>>)
    ensures
        text::char_texts(r@) == targets(s@, 0),
{
    let mut out: Vec<Vec<char>> = Vec::new();
    let none: Vec<char> = Vec::new();
    let mut i: usize = 0;
    loop
        invariant
            i <= s.len(),
            none@ == Seq::<char>::empty(),
            text::char_texts(out@) + targets(s@, i as int) =~= targets(s@, 0),
        decreases s.len() + 1 - i,
    {
        let open: usize = text::find_char(s, '<', i);
        if open == s.len() {
            return out;
        }
        let close: usize = text::find_char(s, '>', open);
        if close == s.len() {
            return out;
        }
        let words = text::split_words(&text::slice_of(s, open + 1, close));
        let target = text::joined(&words, &none);
        let ghost before = out@;
        let ghost view = target@;
        out.push(target);
        assert(text::char_texts(out@) =~= text::char_texts(before).push(view));
        i = close + 1;
    }
}

/// What a message offers, given its List-Unsubscribe and List-Unsubscribe-Post headers.
pub fn unsubscribe(header: &Option<String>, post: &Option<String>) -> (r: Option<Unsubscribe>)
    ensures
        offer_view(r) == offer(mail::opt(*header), mail::opt(*post)),
{
    let chars: Vec<char> = match header {
        Some(h) => text::chars_of(h),
        None => Vec::new(),
    };
    let all = targets_in(&chars);
    let ghost views = text::char_texts(all@);
    assert(chars@ =~= or_empty(mail::opt(*header)));
    let mut url: Vec<char> = Vec::new();
    let mut mailto: Vec<char> = Vec::new();
    let mut i: usize = 0;
    while i < all.len()
        invariant
            i <= all.len(),
            views == text::char_texts(all@),
            url@ == chosen_url(views.take(i as int)),
            mailto@ == chosen_mailto(views.take(i as int)),
        decreases all.len() - i,
    {
        let target = &all[i];
        proof {
            assert(views.take(i + 1).drop_last() =~= views.take(i as int));
            assert(views.take(i + 1).last() == target@);
        }
        if (scheme_is(target, "https") || scheme_is(target, "http")) && !https(&url) {
            url = text::slice_of(target, 0, target.len());
            assert(url@ =~= target@);
        } else if scheme_is(target, "mailto") && mailto.len() == 0 {
            mailto = text::slice_of(target, 0, target.len());
            assert(mailto@ =~= target@);
        }
        i = i + 1;
    }
    assert(views.take(i as int) =~= views);
    if url.len() == 0 && mailto.len() == 0 {
        return None;
    }
    let one_click: bool = match post {
        Some(p) => text::str_has(&text::to_lowercase(p), "one-click"),
        None => text::str_has(&text::to_lowercase(""), "one-click"),
    };
    proof {
        reveal_strlit("");
        assert(""@ =~= Seq::empty());
    }
    let is_one_click = https(&url) && one_click;
    Some(Unsubscribe { url: text::text_of(&url), mailto: text::text_of(&mailto), is_one_click })
}

// --- the whole message ----------------------------------------------------

/// What is asked of the parser about a message.
pub struct Fields {
    pub subject: Option<String>,
    pub from_raw: Option<String>,
    pub reply_to_raw: Option<String>,
    pub date_raw: Option<String>,
    pub unsubscribe_raw: Option<String>,
    pub unsubscribe_post_raw: Option<String>,
    pub from: Option<Vec<Named>>,
    pub to: Option<Vec<Named>>,
    pub cc: Option<Vec<Named>>,
    pub bcc: Option<Vec<Named>>,
    pub parts: Vec<Part>,
}

/// What the parser says of a message.
pub struct FieldsView {
    pub subject: Option<Seq<char>>,
    pub from_raw: Option<Seq<char>>,
    pub reply_to_raw: Option<Seq<char>>,
    pub date_raw: Option<Seq<char>>,
    pub unsubscribe_raw: Option<Seq<char>>,
    pub unsubscribe_post_raw: Option<Seq<char>>,
    pub from: Option<Seq<mail::NamedView>>,
    pub to: Option<Seq<mail::NamedView>>,
    pub cc: Option<Seq<mail::NamedView>>,
    pub bcc: Option<Seq<mail::NamedView>>,
    pub parts: Seq<mail::PartView>,
}

impl View for Fields {
    type V = FieldsView;

    open spec fn view(&self) -> FieldsView {
        FieldsView {
            subject: mail::opt(self.subject),
            from_raw: mail::opt(self.from_raw),
            reply_to_raw: mail::opt(self.reply_to_raw),
            date_raw: mail::opt(self.date_raw),
            unsubscribe_raw: mail::opt(self.unsubscribe_raw),
            unsubscribe_post_raw: mail::opt(self.unsubscribe_post_raw),
            from: mail::named_list(self.from),
            to: mail::named_list(self.to),
            cc: mail::named_list(self.cc),
            bcc: mail::named_list(self.bcc),
            parts: mail::part_views(self.parts@),
        }
    }
}

/// What the parser says of the message in some bytes.
pub open spec fn fields_in(raw: Seq<u8>) -> FieldsView {
    FieldsView {
        subject: mail::mail_subject(raw),
        from_raw: mail::mail_header_raw(raw, "From"@),
        reply_to_raw: mail::mail_header_raw(raw, "Reply-To"@),
        date_raw: mail::mail_header_raw(raw, "Date"@),
        unsubscribe_raw: mail::mail_header_raw(raw, "List-Unsubscribe"@),
        unsubscribe_post_raw: mail::mail_header_raw(raw, "List-Unsubscribe-Post"@),
        from: mail::mail_from(raw),
        to: mail::mail_to(raw),
        cc: mail::mail_cc(raw),
        bcc: mail::mail_bcc(raw),
        parts: mail::mail_parts(raw),
    }
}

/// Whether a message is what the parser's answers make of it, but for the formatted date.
pub open spec fn assembled(r: ParsedMessage, f: FieldsView) -> bool {
    let bodies = bodies_of(f.parts);
    &&& mail::opt(r.text_body) == bodies.plain
    &&& mail::opt(r.html_body) == bodies.markup
    &&& attachment_views(r.attachments@) == bodies.attachments
    &&& r.subject@ == or_empty(f.subject)
    &&& r.from_header@ == trimmed_or_empty(f.from_raw)
    &&& r.reply_to_header@ == trimmed_or_empty(f.reply_to_raw)
    &&& r.from_display@ == text::join(shown_addresses(f.from), ", "@)
    &&& text::texts(r.to@) == shown_addresses(f.to)
    &&& text::texts(r.cc@) == shown_addresses(f.cc)
    &&& text::texts(r.bcc@) == shown_addresses(f.bcc)
    &&& r.date_header@ == trimmed_or_empty(f.date_raw)
    &&& offer_view(r.unsubscribe) == offer(f.unsubscribe_raw, f.unsubscribe_post_raw)
}

/// Whether `date` is how the date in a header may read on some machine.
pub open spec fn dated(date: Seq<char>, header: Seq<char>) -> bool {
    if header.len() == 0 {
        date.len() == 0
    } else {
        exists|m: Option<dates::Moment>|
            dates::local_reading(header, m) && date == #[trigger] dates::long_label_text(m, header)
    }
}

/// Whether a message is empty in every respect.
pub open spec fn is_blank(r: ParsedMessage) -> bool {
    &&& r.text_body is None
    &&& r.html_body is None
    &&& r.attachments@.len() == 0
    &&& r.subject@.len() == 0
    &&& r.from_header@.len() == 0
    &&& r.reply_to_header@.len() == 0
    &&& r.from_display@.len() == 0
    &&& r.to@.len() == 0
    &&& r.cc@.len() == 0
    &&& r.bcc@.len() == 0
    &&& r.date_header@.len() == 0
    &&& r.date@.len() == 0
    &&& r.unsubscribe is None
}

/// The message that the parser's answers make.
pub fn assemble(f: Fields) -> (r: ParsedMessage)
    ensures
        assembled(r, f@),
        dated(r.date@, r.date_header@),
{
    let ghost view = f@;
    let (text_body, html_body, attachments) = bodies_in(&f.parts);
    let date_header = trim_or_empty(&f.date_raw);
    let date: String = if date_header.as_str().is_empty() {
        String::new()
    } else {
        dates::long_label(&date_header)
    };
    let from_display = text::join_strings(&addresses(&f.from), ", ");
    let offered = unsubscribe(&f.unsubscribe_raw, &f.unsubscribe_post_raw);
    let subject: String = match f.subject {
        Some(s) => s,
        None => String::new(),
    };
    assert(subject@ =~= or_empty(view.subject));
    ParsedMessage {
        text_body,
        html_body,
        attachments,
        subject,
        from_header: trim_or_empty(&f.from_raw),
        reply_to_header: trim_or_empty(&f.reply_to_raw),
        from_display,
        to: addresses(&f.to),
        cc: addresses(&f.cc),
        bcc: addresses(&f.bcc),
        date_header,
        date,
        unsubscribe: offered,
    }
}

/// Reads a message.
pub fn parse_message(raw: &[u8]) -> (r: ParsedMessage)
    requires
        raw@.len() <= u32::MAX,
    ensures
        if mail::is_mail(raw@) {
            assembled(r, fields_in(raw@)) && dated(r.date@, r.date_header@)
        } else {
            is_blank(r)
        },
{
    if !mail::is_message(raw) {
        return ParsedMessage::default();
    }
    let f = Fields {
        subject: mail::subject(raw),
        from_raw: mail::header_raw(raw, "From"),
        reply_to_raw: mail::header_raw(raw, "Reply-To"),
        date_raw: mail::header_raw(raw, "Date"),
        unsubscribe_raw: mail::header_raw(raw, "List-Unsubscribe"),
        unsubscribe_post_raw: mail::header_raw(raw, "List-Unsubscribe-Post"),
        from: mail::from(raw),
        to: mail::to(raw),
        cc: mail::cc(raw),
        bcc: mail::bcc(raw),
        parts: mail::parts(raw),
    };
    assemble(f)
}

/// Whether bytes end with the blank line that closes a header block.
pub open spec fn ends_header(headers: Seq<u8>) -> bool {
    let n = headers.len() as int;
    ||| n >= 4 && headers.subrange(n - 4, n) == seq![13u8, 10, 13, 10]
    ||| n >= 2 && headers.subrange(n - 2, n) == seq![10u8, 10]
}

/// A header block and the start of the body as one message.
pub open spec fn glued(headers: Seq<u8>, body: Seq<u8>) -> Seq<u8> {
    if ends_header(headers) {
        headers + body
    } else {
        headers + seq![13u8, 10] + body
    }
}

/// The preview of the message in some bytes.
pub open spec fn preview_in(raw: Seq<u8>) -> Seq<char> {
    if mail::is_mail(raw) {
        preview_text(bodies_of(mail::mail_parts(raw)).plain, bodies_of(mail::mail_parts(raw)).markup)
    } else {
        preview_text(None, None)
    }
}

fn push_bytes(out: &mut Vec<u8>, more: &[u8])
    ensures
        final(out)@ == old(out)@ + more@,
{
    let mut i: usize = 0;
    while i < more.len()
        invariant
            i <= more.len(),
            out@ =~= old(out)@ + more@.take(i as int),
        decreases more.len() - i,
    {
        out.push(more[i]);
        i = i + 1;
    }
    assert(more@.take(i as int) =~= more@);
}

/// A header block and the start of the body as one message.
pub fn glue(headers: &[u8], body: &[u8]) -> (raw: Vec<u8>)
    ensures
        raw@ == glued(headers@, body@),
{
    let mut raw: Vec<u8> = Vec::new();
    push_bytes(&mut raw, headers);
    let n: usize = headers.len();
    let crlf = n >= 4 && headers[n - 4] == 13 && headers[n - 3] == 10 && headers[n - 2] == 13
        && headers[n - 1] == 10;
    let lf = n >= 2 && headers[n - 2] == 10 && headers[n - 1] == 10;
    proof {
        if n >= 4 {
            let end = headers@.subrange(n - 4, n as int);
            assert(end[0] == headers@[n - 4] && end[1] == headers@[n - 3] && end[2] == headers@[n
                - 2] && end[3] == headers@[n - 1]);
            if crlf {
                assert(end =~= seq![13u8, 10, 13, 10]);
            } else {
                assert(end != seq![13u8, 10, 13, 10]);
            }
        }
        if n >= 2 {
            let end = headers@.subrange(n - 2, n as int);
            assert(end[0] == headers@[n - 2] && end[1] == headers@[n - 1]);
            if lf {
                assert(end =~= seq![10u8, 10]);
            } else {
                assert(end != seq![10u8, 10]);
            }
        }
    }
    if !crlf && !lf {
        raw.push(13);
        raw.push(10);
    }
    push_bytes(&mut raw, body);
    assert(raw@ =~= glued(headers@, body@));
    raw
}

/// Build a preview from a header block and the first bytes of the body, as
/// fetched in one IMAP round trip. `text` may stop mid-part: mail-parser is
/// lenient about a missing closing boundary or a truncated encoding, and a
/// snippet cut short is still a snippet.
pub fn preview_from_slices(headers: &[u8], text: &[u8]) -> (r: String)
    requires
        headers@.len() + text@.len() + 2 <= u32::MAX,
    ensures
        r@ == preview_in(glued(headers@, text@)),
        r@.len() <= PREVIEW_CHARS,
{
    preview(&parse_message(&glue(headers, text)))
}

// --- the sandbox ----------------------------------------------------------

/// WebKit's auto-load-images setting only gates `<img>`; a remote stylesheet,
/// `@import`, `@font-face` or `<iframe>` loads regardless and leaks the read just the
/// same. Only img-src is toggled: remote CSS is never needed to read mail.
pub const CSP: &'static str =
    "default-src 'none'; style-src 'unsafe-inline'; font-src data:; img-src data:";

/// The policy with remote images allowed.
pub const CSP_WITH_IMAGES: &'static str =
    "default-src 'none'; style-src 'unsafe-inline'; font-src data:; img-src data: https: http:";

/// The start of a document up to the text of its policy.
pub const SANDBOX_OPENING: &'static str =
    "<!DOCTYPE html><html><head><meta charset=\"utf-8\"><meta http-equiv=\"Content-Security-Policy\" content=\"";

/// The policy of a message body.
pub open spec fn policy_for(are_remote_images_allowed: bool) -> Seq<char> {
    if are_remote_images_allowed {
        CSP_WITH_IMAGES@
    } else {
        CSP@
    }
}

/// The start of a document up to its stylesheet: the policy stands in it.
pub open spec fn sandbox_head(policy: Seq<char>) -> Seq<char> {
    SANDBOX_OPENING@ + policy + "\"><style>"@
}

/// A message body in a document with a policy and a stylesheet.
pub open spec fn sandboxed(html: Seq<char>, policy: Seq<char>, style: Seq<char>) -> Seq<char> {
    sandbox_head(policy) + style + "</style></head><body>"@ + html + "</body></html>"@
}

/// Wrap a message body in a document whose CSP blocks remote subresources.
/// `style` is injected as the document's own stylesheet, so the reader can
/// hand the accent colour to links without touching the message's markup.
pub fn sandbox_html(html: &str, are_remote_images_allowed: bool, style: &str) -> (r: String)
    ensures
        r@ == sandboxed(html@, policy_for(are_remote_images_allowed), style@),
{
    let policy: &str = if are_remote_images_allowed {
        CSP_WITH_IMAGES
    } else {
        CSP
    };
    let mut out: Vec<char> = Vec::new();
    text::extend_str(&mut out, SANDBOX_OPENING);
    text::extend_str(&mut out, policy);
    text::extend_str(&mut out, "\"><style>");
    text::extend_str(&mut out, style);
    text::extend_str(&mut out, "</style></head><body>");
    text::extend_str(&mut out, html);
    text::extend_str(&mut out, "</body></html>");
    text::text_of(&out)
}

/// Whether nothing from `i` on looks like the start of a stylesheet.
spec fn no_style_from(s: Seq<char>, i: int) -> bool
    decreases s.len() - i,
{
    if i < 0 || i >= s.len() {
        true
    } else {
        !(s[i] == '<' && (i + 1 >= s.len() || s[i + 1] == 's')) && no_style_from(s, i + 1)
    }
}

proof fn no_style_at(s: Seq<char>, i: int, k: int)
    requires
        0 <= i <= k < s.len(),
        no_style_from(s, i),
    ensures
        s[k] == '<' ==> k + 1 < s.len() && s[k + 1] != 's',
    decreases k - i,
{
    if i < k {
        no_style_at(s, i + 1, k);
    }
}

proof fn opening_has_no_style()
    ensures
        no_style_from(SANDBOX_OPENING@, 0),
{
    let opening = SANDBOX_OPENING@;
    reveal_strlit(
        "<!DOCTYPE html><html><head><meta charset=\"utf-8\"><meta http-equiv=\"Content-Security-Policy\" content=\"",
    );
    reveal_with_fuel(no_style_from, 54);
    assert(no_style_from(opening, 50));
    assert(no_style_from(opening, 0));
}

proof fn policies_have_no_style(are_remote_images_allowed: bool)
    ensures
        no_style_from(policy_for(are_remote_images_allowed), 0),
{
    reveal_strlit("default-src 'none'; style-src 'unsafe-inline'; font-src data:; img-src data:");
    reveal_strlit(
        "default-src 'none'; style-src 'unsafe-inline'; font-src data:; img-src data: https: http:",
    );
    reveal_with_fuel(no_style_from, 100);
}

/// A message can neither precede the policy nor change it: up to and including the first
/// `<style>`, where the whole policy stands, documents with the same answer about remote images are
/// the same, whatever the message and the stylesheet.
pub proof fn policy_comes_first(
    html: Seq<char>,
    are_remote_images_allowed: bool,
    style: Seq<char>,
)
    ensures
        ({
            let head = sandbox_head(policy_for(are_remote_images_allowed));
            let page = sandboxed(html, policy_for(are_remote_images_allowed), style);
            &&& page.len() >= head.len()
            &&& page.take(head.len() as int) == head
            &&& text::find_text_at(page, "<style>"@, 0) == Some(head.len() - 7)
        }),
{
    let opening = SANDBOX_OPENING@;
    let policy = policy_for(are_remote_images_allowed);
    let head = sandbox_head(policy);
    let page = sandboxed(html, policy, style);
    let m = opening.len() as int;
    let n = head.len() as int;
    opening_has_no_style();
    policies_have_no_style(are_remote_images_allowed);
    reveal_strlit("\"><style>");
    reveal_strlit("<style>");
    assert(page.take(n) =~= head);
    text::find_text_at_is_first(page, "<style>"@, 0);
    assert(page.subrange(n - 7, n) =~= "<style>"@);
    assert(text::matches_at(page, "<style>"@, n - 7));
    assert forall|j: int| 0 <= j < n - 7 implies !text::matches_at(page, "<style>"@, j) by {
        if text::matches_at(page, "<style>"@, j) {
            let found = page.subrange(j, j + 7);
            assert(found[0] == page[j] && found[1] == page[j + 1]);
            assert(page[j] == head[j] && page[j + 1] == head[j + 1]);
            if j < m {
                assert(head[j] == opening[j]);
                no_style_at(opening, 0, j);
                assert(head[j + 1] == opening[j + 1]);
            } else if j < m + policy.len() {
                assert(head[j] == policy[j - m]);
                no_style_at(policy, 0, j - m);
                assert(head[j + 1] == policy[j - m + 1]);
            }
        }
    }
}

/// Messages share their policy: with the same answer about remote images, two documents agree up to
/// and including the first `<style>` of either.
pub proof fn messages_share_their_policy(
    html: Seq<char>,
    style: Seq<char>,
    other_html: Seq<char>,
    other_style: Seq<char>,
    are_remote_images_allowed: bool,
)
    ensures
        ({
            let policy = policy_for(are_remote_images_allowed);
            let page = sandboxed(html, policy, style);
            let other = sandboxed(other_html, policy, other_style);
            &&& text::find_text_at(page, "<style>"@, 0) matches Some(at)
            &&& text::find_text_at(other, "<style>"@, 0) == Some(at)
            &&& page.take(at + 7) == other.take(at + 7)
            &&& page.take(at + 7) == sandbox_head(policy)
        }),
{
    policy_comes_first(html, are_remote_images_allowed, style);
    policy_comes_first(other_html, are_remote_images_allowed, other_style);
}

/// A link that is published is offered, and a single click unsubscribes only where the link is
/// secure and the header that allows it stands beside it.
pub proof fn offers_follow_the_headers(
    header: Option<Seq<char>>,
    post: Option<Seq<char>>,
    i: int,
)
    ensures
        ({
            let all = targets(or_empty(header), 0);
            0 <= i < all.len() && has_scheme(all[i], "mailto"@) ==> {
                &&& offer(header, post) is Some
                &&& has_scheme(offer(header, post)->0.mailto, "mailto"@)
                &&& all.contains(offer(header, post)->0.mailto)
            }
        }),
        offer(header, None) is Some ==> !offer(header, None)->0.is_one_click,
        offer(header, post) is Some && offer(header, post)->0.is_one_click ==> is_https(
            offer(header, post)->0.url,
        ) && targets(or_empty(header), 0).contains(offer(header, post)->0.url),
        offer(header, post) is Some ==> {
            let allowed = offer(header, Some("List-Unsubscribe=One-Click"@));
            &&& allowed is Some
            &&& allowed->0.url == offer(header, post)->0.url
            &&& allowed->0.mailto == offer(header, post)->0.mailto
            &&& allowed->0.is_one_click == is_https(allowed->0.url)
        },
        header is None ==> offer(header, post) is None,
{
    let all = targets(or_empty(header), 0);
    offers_are_published(all);
    reveal_strlit("one-click");
    reveal_strlit("List-Unsubscribe=One-Click");
    reveal_strlit("https:");
    let none = Seq::<char>::empty();
    one_click_is_found();
    assert(!text::contains_text(text::lowercase(none), "one-click"@)) by {
        assert(text::lowercase(none).len() == 0);
        text::find_text_at_is_first(text::lowercase(none), "one-click"@, 0);
    }
    if 0 <= i < all.len() && has_scheme(all[i], "mailto"@) {
        first_mailto_is_chosen(all, i);
    }
    if is_https(chosen_url(all)) {
        assert(chosen_url(all).len() > 0);
    }
    if header is None {
        text::find_at_is_first(none, '<', 0);
        assert(all =~= Seq::empty());
    }
}

proof fn one_click_is_found()
    ensures
        text::contains_text(text::lowercase("List-Unsubscribe=One-Click"@), "one-click"@),
{
    reveal_strlit("one-click");
    reveal_strlit("List-Unsubscribe=One-Click");
    let s = "List-Unsubscribe=One-Click"@;
    let lower = text::ascii_lower(s);
    assert(lower.subrange(17, 26) =~= "one-click"@);
    assert(text::matches_at(lower, "one-click"@, 17));
    text::find_text_at_is_first(lower, "one-click"@, 0);
}

proof fn first_mailto_is_chosen(all: Seq<Seq<char>>, i: int)
    requires
        0 <= i < all.len(),
        has_scheme(all[i], "mailto"@),
    ensures
        chosen_mailto(all).len() > 0,
    decreases i,
{
    reveal_strlit("mailto");
    if exists|j: int| 0 <= j < i && has_scheme(#[trigger] all[j], "mailto"@) {
        let j = choose|j: int| 0 <= j < i && has_scheme(#[trigger] all[j], "mailto"@);
        first_mailto_is_chosen(all, j);
    } else {
        offers_are_published(all);
        assert(chosen_mailto(all) == all[i]);
        if all[i].len() == 0 {
            text::find_at_is_first(all[i], ':', 0);
            assert(text::ascii_lower(all[i].take(text::find(all[i], ':'))).len() == 0);
            assert(text::ascii_lower("mailto"@).len() == 6);
        }
    }
}

/// Everybody that the headers of a message name in To, Cc and Bcc stands in the list of that header
/// of what was read, and the subject and every attachment are there as they were sent.
pub proof fn messages_are_read_whole(r: ParsedMessage, f: FieldsView, m: mail::NamedView, i: int)
    requires
        assembled(r, f),
        text::trim(or_empty(m.name)).len() == 0,
        text::trim(or_empty(m.address)).len() > 0,
    ensures
        f.to is Some && f.to->0.contains(m) ==> text::texts(r.to@).contains(
            text::trim(or_empty(m.address)),
        ),
        f.cc is Some && f.cc->0.contains(m) ==> text::texts(r.cc@).contains(
            text::trim(or_empty(m.address)),
        ),
        f.bcc is Some && f.bcc->0.contains(m) ==> text::texts(r.bcc@).contains(
            text::trim(or_empty(m.address)),
        ),
        f.to is None ==> r.to@.len() == 0,
        f.cc is None ==> r.cc@.len() == 0,
        f.bcc is None ==> r.bcc@.len() == 0,
        f.subject is Some ==> r.subject@ == f.subject->0,
        0 <= i < f.parts.len() && f.parts[i].kind is Other ==> exists|k: int|
            0 <= k < attachment_views(r.attachments@).len() && is_offer_of(
                #[trigger] attachment_views(r.attachments@)[k],
                f.parts[i],
            ),
{
    if f.to is Some && f.to->0.contains(m) {
        one_is_shown(f.to->0, m);
    }
    if f.cc is Some && f.cc->0.contains(m) {
        one_is_shown(f.cc->0, m);
    }
    if f.bcc is Some && f.bcc->0.contains(m) {
        one_is_shown(f.bcc->0, m);
    }
    no_part_is_lost(f.parts);
    assert(text::texts(r.to@).len() == r.to@.len());
    assert(text::texts(r.cc@).len() == r.cc@.len());
    assert(text::texts(r.bcc@).len() == r.bcc@.len());
    assert(attachment_views(r.attachments@).len() == r.attachments@.len());
}

proof fn one_is_shown(list: Seq<mail::NamedView>, m: mail::NamedView)
    requires
        list.contains(m),
        text::trim(or_empty(m.name)).len() == 0,
        text::trim(or_empty(m.address)).len() > 0,
    ensures
        shown_mailboxes(list).contains(text::trim(or_empty(m.address))),
{
    let k = choose|k: int| 0 <= k < list.len() && list[k] == m;
    let a = list.take(k);
    let b = list.skip(k + 1);
    let email = text::trim(or_empty(m.address));
    assert(list =~= a + seq![m] + b);
    everybody_is_shown(a, m, b);
    let name = text::trim(or_empty(m.name));
    assert(name + email =~= email);
    assert(shown_mailboxes(seq![m])[0] == email);
    assert(shown_mailboxes(list)[shown_mailboxes(a).len() as int] == email);
}

/// Of base64 that was cut off, all but the last characters that make no whole group are decoded, and
/// never the padding.
pub proof fn whole_groups_are_kept(compact: Seq<char>, padding: nat)
    requires
        compact.len() == 0 || compact.last() != '=',
    ensures
        ({
            let kept = whole_groups(compact + Seq::new(padding, |i: int| '='));
            &&& kept.is_prefix_of(compact)
            &&& kept.len() % 4 == 0
            &&& compact.len() - kept.len() < 4
        }),
{
    let all = compact + Seq::new(padding, |i: int| '=');
    padding_is_passed(compact, all, all.len() as int);
    let n = compact.len() as int;
    assert(all.take(n - n % 4) =~= compact.subrange(0, n - n % 4));
}

proof fn padding_is_passed(compact: Seq<char>, all: Seq<char>, j: int)
    requires
        compact.len() == 0 || compact.last() != '=',
        compact.len() <= j <= all.len(),
        compact.is_prefix_of(all),
        forall|i: int| compact.len() <= i < all.len() ==> #[trigger] all[i] == '=',
    ensures
        padding_start(all, j) == compact.len(),
    decreases j,
{
    if j > compact.len() {
        assert(all[j - 1] == '=');
        padding_is_passed(compact, all, j - 1);
    } else if j > 0 {
        assert(all[j - 1] == compact.last());
    }
}

/// A line of base64 is told by its length and its characters: nothing shorter is read as base64, and
/// nothing with any other character in it.
pub proof fn base64_is_told(line: Seq<char>)
    requires
        forall|i: int| 0 <= i < line.len() ==> !text::is_white(#[trigger] line[i]),
    ensures
        reads_as_base64(line) <==> line.len() >= 32 && is_base64_text(line),
{
    nothing_white(line, 0);
    assert(line.skip(0) =~= line);
    if line.contains('\n') {
        let k = choose|k: int| 0 <= k < line.len() && line[k] == '\n';
        assert(!text::is_white(line[k]));
    }
    text::lines_add_up(line, Seq::empty());
    if line.len() > 0 {
        assert(!text::is_white(line[0]) && !text::is_white(line[line.len() - 1]));
        assert(text::lead_end(line, 0) == 0);
        assert(text::tail_start(line, 0, line.len() as int) == line.len());
        assert(text::trim(line) =~= line);
        assert(text::lines(line)[0] == line);
    }
}

proof fn nothing_white(s: Seq<char>, i: int)
    requires
        0 <= i <= s.len(),
        forall|k: int| 0 <= k < s.len() ==> !text::is_white(#[trigger] s[k]),
    ensures
        without_white(s, i) == s.skip(i),
    decreases s.len() - i,
{
    if i < s.len() {
        assert(!text::is_white(s[i]));
        nothing_white(s, i + 1);
        assert(seq![s[i]] + s.skip(i + 1) =~= s.skip(i));
    } else {
        assert(s.skip(i) =~= Seq::empty());
    }
}

} // verus!
