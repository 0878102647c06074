//! The lists and the reading pane: what a row says, and what a message body may do.

use vstd::prelude::*;
use crate::darkmode;
use crate::mime::ParsedMessage;
use crate::models::{Conversation, Email};
use crate::text;

verus! {

// --- rows -----------------------------------------------------------------

/// Who a row names, and their address.
pub open spec fn party_of(email: Email, is_outgoing: bool) -> (Seq<char>, Seq<char>) {
    if is_outgoing && email.recipient@.len() > 0 {
        (email.recipient@, email.recipient_address@)
    } else {
        (email.sender@, email.sender_address@)
    }
}

/// Who a row names, and their address. In an outgoing folder the sender of
/// every message is the account itself, so the row names the recipient instead.
pub fn party(email: &Email, is_outgoing: bool) -> (r: (&str, &str))
    ensures
        (r.0@, r.1@) == party_of(*email, is_outgoing),
{
    if is_outgoing && !email.recipient.as_str().is_empty() {
        (email.recipient.as_str(), email.recipient_address.as_str())
    } else {
        (email.sender.as_str(), email.sender_address.as_str())
    }
}

/// The subject of a row for a conversation, with the number of its messages where it has several.
pub fn conversation_subject(conversation: &Conversation) -> (r: String)
    requires
        conversation.emails.len() > 0,
    ensures
        r@ == (if conversation.emails@.len() > 1 {
            conversation.emails@.last().subject@ + "  ("@ + text::decimal(
                conversation.emails@.len(),
            ) + ")"@
        } else {
            conversation.emails@.last().subject@
        }),
{
    let mut out = text::chars_of(conversation.subject());
    let count: usize = conversation.count();
    if count > 1 {
        text::extend_str(&mut out, "  (");
        text::extend(&mut out, &text::to_decimal(count as u64));
        text::extend_str(&mut out, ")");
    }
    text::text_of(&out)
}

/// The unread badge of a folder, which is shown only where anything is unread.
pub fn badge(unread_count: i64) -> (r: (String, bool))
    ensures
        r.0@ == text::signed_decimal(unread_count as int),
        r.1 == (unread_count > 0),
{
    (text::text_of(&text::to_signed_decimal(unread_count)), unread_count > 0)
}

// --- navigation -----------------------------------------------------------

/// What a message body may do where it asks to go somewhere.
#[derive(Clone, Copy, Debug, PartialEq, Eq, Structural)]
pub enum Policy {
    /// Go there: it is the body itself.
    Allow,
    /// Stay.
    Block,
    /// Stay, and open the link in the browser or the mail client.
    OpenOutside,
}

/// The scheme of a URI: what stands before its first colon, in lower case.
pub open spec fn scheme_of(uri: Seq<char>) -> Seq<char> {
    text::lowercase(uri.take(text::find(uri, ':')))
}

/// Where a message body may go. It only ever renders itself: its own document arrives as about:blank
/// or with no URI at all. A mail body may name any scheme, and a registered handler will happily
/// take file:, smb: or tel: from a stranger, so a click opens only those worth honouring.
pub open spec fn policy_for(uri: Seq<char>, is_click: bool) -> Policy {
    let scheme = scheme_of(uri);
    if !is_click {
        if scheme == "about"@ || scheme.len() == 0 {
            Policy::Allow
        } else {
            Policy::Block
        }
    } else if scheme == "http"@ || scheme == "https"@ || scheme == "mailto"@ {
        Policy::OpenOutside
    } else {
        Policy::Block
    }
}

fn scheme(uri: &str) -> (r: String)
    ensures
        r@ == scheme_of(uri@),
{
    let chars = text::chars_of(uri);
    let colon: usize = text::find_char(&chars, ':', 0);
    let head = text::slice_of(&chars, 0, colon);
    assert(head@ =~= uri@.take(colon as int));
    text::to_lowercase(&text::text_of(&head))
}

/// Where a message body may go. A click goes to the browser, and
/// anything else the body asks for is refused outright.
pub fn decide_policy(uri: &str, is_click: bool) -> (r: Policy)
    ensures
        r == policy_for(uri@, is_click),
{
    let name = scheme(uri);
    if !is_click {
        if text::same_str(&name, "about") || name.as_str().is_empty() {
            Policy::Allow
        } else {
            Policy::Block
        }
    } else if text::same_str(&name, "http") || text::same_str(&name, "https") || text::same_str(
        &name,
        "mailto",
    ) {
        Policy::OpenOutside
    } else {
        Policy::Block
    }
}

/// A click never leads anywhere inside the body, and nothing but a click leads outside it.
pub proof fn bodies_stay_put(uri: Seq<char>)
    ensures
        policy_for(uri, true) != Policy::Allow,
        policy_for(uri, false) != Policy::OpenOutside,
{
}

/// Whether a URI is a mailto: link.
pub fn is_mailto(uri: &str) -> (r: bool)
    ensures
        r == text::starts_with(text::lowercase(uri@), "mailto:"@),
{
    text::str_starts(&text::to_lowercase(uri), "mailto:")
}

// --- the body -------------------------------------------------------------

/// The style of a message body, before the accent colour.
pub const STYLE_BEFORE: &'static str = "html { margin: 0; padding: 0; } body { margin: 0 !important; padding: 12px 24px 24px !important; box-sizing: border-box; min-height: 100vh; } a:not([style]) { color: ";

/// The style of a message body, after the accent colour.
pub const STYLE_AFTER: &'static str = "; }";

/// The style of a message body: links inherit the system accent unless they carry their own.
/// In dark mode the defaults an unstyled message inherits follow suit.
pub open spec fn body_style(accent: Seq<char>, is_dark: bool) -> Seq<char> {
    let light = STYLE_BEFORE@ + accent + STYLE_AFTER@;
    if is_dark {
        light + " :root { color-scheme: dark; } body { background-color: "@ + darkmode::CANVAS@
            + "; color: "@ + darkmode::TEXT@ + "; }"@
    } else {
        light
    }
}

/// The style of a message body.
pub fn style(accent: &str, is_dark: bool) -> (r: String)
    ensures
        r@ == body_style(accent@, is_dark),
{
    let mut out = text::chars_of(STYLE_BEFORE);
    text::extend_str(&mut out, accent);
    text::extend_str(&mut out, STYLE_AFTER);
    if is_dark {
        text::extend_str(&mut out, " :root { color-scheme: dark; } body { background-color: ");
        text::extend_str(&mut out, darkmode::CANVAS);
        text::extend_str(&mut out, "; color: ");
        text::extend_str(&mut out, darkmode::TEXT);
        text::extend_str(&mut out, "; }");
    }
    text::text_of(&out)
}

/// The rows of recipients that a message has.
pub open spec fn rows_for(
    to: Seq<Seq<char>>,
    cc: Seq<Seq<char>>,
    bcc: Seq<Seq<char>>,
) -> Seq<(Seq<char>, Seq<char>)> {
    row_if("To"@, text::join(to, ", "@)) + row_if("Cc"@, text::join(cc, ", "@)) + row_if(
        "Bcc"@,
        text::join(bcc, ", "@),
    )
}

/// A row, unless it says nothing.
pub open spec fn row_if(label: Seq<char>, value: Seq<char>) -> Seq<(Seq<char>, Seq<char>)> {
    if value.len() > 0 {
        seq![(label, value)]
    } else {
        Seq::empty()
    }
}

/// What some rows say.
pub open spec fn row_views(rows: Seq<(&'static str, String)>) -> Seq<(Seq<char>, Seq<char>)> {
    Seq::new(rows.len(), |i: int| (rows[i].0@, rows[i].1@))
}

fn push_row(rows: &mut Vec<(&'static str, String)>, label: &'static str, value: String)
    ensures
        row_views(final(rows)@) == row_views(old(rows)@) + row_if(label@, value@),
{
    if !value.as_str().is_empty() {
        rows.push((label, value));
    }
    assert(row_views(rows@) =~= row_views(old(rows)@) + row_if(label@, value@));
}

/// The rows of recipients beside the sender: To, Cc and Bcc, each where it names anyone.
pub fn recipient_rows(parsed: &ParsedMessage) -> (r: Vec<(&'static str, String)>)
    ensures
        row_views(r@) == rows_for(
            text::texts(parsed.to@),
            text::texts(parsed.cc@),
            text::texts(parsed.bcc@),
        ),
{
    let mut rows: Vec<(&'static str, String)> = Vec::new();
    assert(row_views(rows@) =~= Seq::empty());
    push_row(&mut rows, "To", text::join_strings(&parsed.to, ", "));
    push_row(&mut rows, "Cc", text::join_strings(&parsed.cc, ", "));
    push_row(&mut rows, "Bcc", text::join_strings(&parsed.bcc, ", "));
    assert(row_views(rows@) =~= rows_for(
        text::texts(parsed.to@),
        text::texts(parsed.cc@),
        text::texts(parsed.bcc@),
    ));
    rows
}

/// What the reader shows of a message.
#[derive(Debug, PartialEq, Eq)]
pub enum Body<'a> {
    Html(&'a str),
    Text(&'a str),
}

/// What the reader shows of a message: its markup where it has any, else its text.
pub fn body_of(parsed: &ParsedMessage) -> (r: Body<'_>)
    ensures
        match r {
            Body::Html(h) => parsed.html_body matches Some(t) && t@ == h@,
            Body::Text(t) => parsed.html_body is None && t@ == (match parsed.text_body {
                Some(s) => s@,
                None => Seq::empty(),
            }),
        },
{
    match &parsed.html_body {
        Some(h) => Body::Html(h.as_str()),
        None => match &parsed.text_body {
            Some(t) => Body::Text(t.as_str()),
            None => {
                proof {
                    reveal_strlit("");
                    assert(""@ =~= Seq::<char>::empty());
                }
                Body::Text("")
            },
        },
    }
}

/// Each row of recipients shows everyone it stands for, and stands where there is anyone to show.
pub proof fn every_recipient_is_shown(
    to: Seq<Seq<char>>,
    cc: Seq<Seq<char>>,
    bcc: Seq<Seq<char>>,
    i: int,
)
    ensures
        0 <= i < to.len() && to[i].len() > 0 ==> exists|k: int|
            0 <= k < rows_for(to, cc, bcc).len() && (#[trigger] rows_for(to, cc, bcc)[k]).0 == "To"@
                && text::contains_text(rows_for(to, cc, bcc)[k].1, to[i]),
        0 <= i < cc.len() && cc[i].len() > 0 ==> exists|k: int|
            0 <= k < rows_for(to, cc, bcc).len() && (#[trigger] rows_for(to, cc, bcc)[k]).0 == "Cc"@
                && text::contains_text(rows_for(to, cc, bcc)[k].1, cc[i]),
        0 <= i < bcc.len() && bcc[i].len() > 0 ==> exists|k: int|
            0 <= k < rows_for(to, cc, bcc).len() && (#[trigger] rows_for(to, cc, bcc)[k]).0
                == "Bcc"@ && text::contains_text(rows_for(to, cc, bcc)[k].1, bcc[i]),
{
    let rows = rows_for(to, cc, bcc);
    let a = row_if("To"@, text::join(to, ", "@));
    let b = row_if("Cc"@, text::join(cc, ", "@));
    if 0 <= i < to.len() && to[i].len() > 0 {
        text::joining_keeps_each(to, ", "@, i);
        held_texts_fit(text::join(to, ", "@), to[i]);
        assert(rows[0] == ("To"@, text::join(to, ", "@)));
    }
    if 0 <= i < cc.len() && cc[i].len() > 0 {
        text::joining_keeps_each(cc, ", "@, i);
        held_texts_fit(text::join(cc, ", "@), cc[i]);
        assert(rows[a.len() as int] == ("Cc"@, text::join(cc, ", "@)));
    }
    if 0 <= i < bcc.len() && bcc[i].len() > 0 {
        text::joining_keeps_each(bcc, ", "@, i);
        held_texts_fit(text::join(bcc, ", "@), bcc[i]);
        assert(rows[(a.len() + b.len()) as int] == ("Bcc"@, text::join(bcc, ", "@)));
    }
}

proof fn held_texts_fit(s: Seq<char>, p: Seq<char>)
    requires
        text::contains_text(s, p),
        p.len() > 0,
    ensures
        s.len() > 0,
{
    text::find_text_at_is_first(s, p, 0);
}

/// A row of a folder that receives names who sent the message, whoever it went to, and one of a folder
/// that sends names who it went to, where that is known.
pub proof fn rows_name_the_other_side(email: Email)
    ensures
        party_of(email, false) == (email.sender@, email.sender_address@),
        email.recipient@.len() > 0 ==> party_of(email, true) == (
            email.recipient@,
            email.recipient_address@,
        ),
        email.recipient@.len() == 0 ==> party_of(email, true) == party_of(email, false),
{
}

} // verus!
