//! Building outgoing mail: reply and forward bodies, the MIME message that
//! goes on the wire, and the composer's address helpers.

use vstd::prelude::*;
use crate::address;
use crate::address::Mailbox;
use crate::codec;
use crate::html;
use crate::mail;
use crate::mail::{Named, Stored};
use crate::mime;
use crate::models::Attachment;
use crate::text;

verus! {

// --- subjects -------------------------------------------------------------

/// The subject of a reply: marked as one unless it already is.
pub open spec fn replied(subject: Seq<char>) -> Seq<char> {
    if text::starts_with_ignoring_case(subject, "re:"@) {
        subject
    } else {
        "Re: "@ + subject
    }
}

/// The subject of a forwarded message: marked as one unless it already is.
pub open spec fn forwarded(subject: Seq<char>) -> Seq<char> {
    if text::starts_with_ignoring_case(subject, "fwd:"@) || text::starts_with_ignoring_case(
        subject,
        "fw:"@,
    ) {
        subject
    } else {
        "Fwd: "@ + subject
    }
}

fn starts_ignoring_case(s: &[char], p: &str) -> (r: bool)
    ensures
        r == text::starts_with_ignoring_case(s@, p@),
{
    text::stands_at(&text::to_ascii_lower(s), &text::to_ascii_lower(&text::chars_of(p)), 0)
}

fn prefixed(prefix: &str, rest: &str) -> (r: String)
    ensures
        r@ == prefix@ + rest@,
{
    let mut out = text::chars_of(prefix);
    text::extend_str(&mut out, rest);
    text::text_of(&out)
}

/// The subject of a reply.
pub fn reply_subject(subject: &str) -> (r: String)
    ensures
        r@ == replied(subject@),
{
    if starts_ignoring_case(&text::chars_of(subject), "re:") {
        subject.to_owned()
    } else {
        prefixed("Re: ", subject)
    }
}

/// The subject of a forwarded message.
pub fn forward_subject(subject: &str) -> (r: String)
    ensures
        r@ == forwarded(subject@),
{
    let chars = text::chars_of(subject);
    if starts_ignoring_case(&chars, "fwd:") || starts_ignoring_case(&chars, "fw:") {
        subject.to_owned()
    } else {
        prefixed("Fwd: ", subject)
    }
}

/// A subject is marked as a reply, or as forwarded, once: marking it again changes nothing.
pub proof fn subjects_are_marked_once(subject: Seq<char>)
    ensures
        replied(replied(subject)) == replied(subject),
        forwarded(forwarded(subject)) == forwarded(subject),
        text::starts_with_ignoring_case(replied(subject), "re:"@),
{
    reveal_strlit("re:");
    reveal_strlit("Re: ");
    reveal_strlit("fwd:");
    reveal_strlit("Fwd: ");
    let re = text::ascii_lower("Re: "@ + subject);
    assert(re.subrange(0, 3) =~= text::ascii_lower("re:"@));
    let fwd = text::ascii_lower("Fwd: "@ + subject);
    assert(fwd.subrange(0, 4) =~= text::ascii_lower("fwd:"@));
}

// --- reply all ------------------------------------------------------------

/// The addresses of some mailboxes.
pub open spec fn addresses_in(list: Seq<address::MailboxView>) -> Seq<Seq<char>> {
    Seq::new(list.len(), |i: int| list[i].address)
}

/// Whether one of some addresses is the same as another but for its case.
pub open spec fn has_address(list: Seq<Seq<char>>, addr: Seq<char>) -> bool {
    exists|i: int| 0 <= i < list.len() && text::eq_ignore_case(#[trigger] list[i], addr)
}

/// Whether an address is ours or that of whoever the reply goes to.
pub open spec fn is_excluded(addr: Seq<char>, own: Seq<char>, target: Seq<char>) -> bool {
    text::lowercase(addr) == text::lowercase(own) || text::lowercase(addr) == text::lowercase(
        target,
    )
}

/// The addresses that stay in the loop, each once.
pub open spec fn kept_in_loop(list: Seq<Seq<char>>, own: Seq<char>, target: Seq<char>) -> Seq<
    Seq<char>,
>
    decreases list.len(),
{
    if list.len() == 0 {
        Seq::empty()
    } else {
        let before = kept_in_loop(list.drop_last(), own, target);
        let addr = list.last();
        if addr.len() == 0 || is_excluded(addr, own, target) || has_address(before, addr) {
            before
        } else {
            before.push(addr)
        }
    }
}

/// The addresses of the original To and Cc.
pub open spec fn everyone(to_header: Seq<char>, cc_header: Seq<char>) -> Seq<Seq<char>> {
    addresses_in(address::mailboxes(to_header)) + addresses_in(address::mailboxes(cc_header))
}

/// Nobody in the loop is ourselves or whoever the reply is already addressed to, nobody is in it
/// twice, and everybody else who was named is in it.
pub proof fn loop_is_everyone_else(list: Seq<Seq<char>>, own: Seq<char>, target: Seq<char>)
    ensures
        forall|i: int|
            0 <= i < kept_in_loop(list, own, target).len() ==> {
                let addr = #[trigger] kept_in_loop(list, own, target)[i];
                addr.len() > 0 && !is_excluded(addr, own, target) && list.contains(addr)
            },
        forall|i: int, j: int|
            0 <= i < j < kept_in_loop(list, own, target).len() ==> !text::eq_ignore_case(
                #[trigger] kept_in_loop(list, own, target)[i],
                #[trigger] kept_in_loop(list, own, target)[j],
            ),
        forall|k: int|
            0 <= k < list.len() && (#[trigger] list[k]).len() > 0 && !is_excluded(
                list[k],
                own,
                target,
            ) ==> has_address(kept_in_loop(list, own, target), list[k]),
    decreases list.len(),
{
    if list.len() > 0 {
        let rest = list.drop_last();
        loop_is_everyone_else(rest, own, target);
        let before = kept_in_loop(rest, own, target);
        let kept = kept_in_loop(list, own, target);
        assert forall|i: int| 0 <= i < kept.len() implies {
            let addr = #[trigger] kept[i];
            addr.len() > 0 && !is_excluded(addr, own, target) && list.contains(addr)
        } by {
            if i < before.len() {
                assert(kept[i] == before[i]);
                let k = choose|k: int| 0 <= k < rest.len() && rest[k] == before[i];
                assert(list[k] == before[i]);
            } else {
                assert(list[list.len() - 1] == kept[i]);
            }
        }
        assert forall|i: int, j: int| 0 <= i < j < kept.len() implies !text::eq_ignore_case(
            #[trigger] kept[i],
            #[trigger] kept[j],
        ) by {
            assert(kept[i] == before[i]);
            if j < before.len() {
                assert(kept[j] == before[j]);
            }
        }
        assert forall|k: int|
            0 <= k < list.len() && (#[trigger] list[k]).len() > 0 && !is_excluded(
                list[k],
                own,
                target,
            ) implies has_address(kept, list[k]) by {
            if k < rest.len() {
                assert(rest[k] == list[k]);
                let i = choose|i: int|
                    0 <= i < before.len() && text::eq_ignore_case(#[trigger] before[i], list[k]);
                assert(kept[i] == before[i]);
            } else if has_address(before, list[k]) {
                assert(kept == before);
            } else {
                assert(kept.last() == list[k]);
                assert(text::eq_ignore_case(kept[kept.len() - 1], list[k]));
            }
        }
    }
}

/// Whoever comes first in the loop stays there whoever comes after.
proof fn loop_only_grows(a: Seq<Seq<char>>, b: Seq<Seq<char>>, own: Seq<char>, target: Seq<char>)
    ensures
        kept_in_loop(a, own, target).is_prefix_of(kept_in_loop(a + b, own, target)),
    decreases b.len(),
{
    if b.len() == 0 {
        assert(a + b =~= a);
    } else {
        assert((a + b).drop_last() =~= a + b.drop_last());
        loop_only_grows(a, b.drop_last(), own, target);
        let first = kept_in_loop(a, own, target);
        let before = kept_in_loop(a + b.drop_last(), own, target);
        let kept = kept_in_loop(a + b, own, target);
        assert(kept.subrange(0, first.len() as int) =~= before.subrange(0, first.len() as int));
    }
}

/// Reply All leaves nobody out: whoever the To or the Cc of the original names is among the
/// addresses of the reply, whatever the case they are written in, but for ourselves and whoever the
/// reply goes to. Nobody is among them who is named in neither, and those of the To come first.
pub proof fn nobody_is_left_out(
    to_header: Seq<char>,
    cc_header: Seq<char>,
    own: Seq<char>,
    target: Seq<char>,
)
    ensures
        ({
            let to = address::mailboxes(to_header);
            let cc = address::mailboxes(cc_header);
            let kept = kept_in_loop(everyone(to_header, cc_header), own, target);
            &&& forall|i: int|
                0 <= i < to.len() && (#[trigger] to[i]).address.len() > 0 && text::lowercase(
                    to[i].address,
                ) != text::lowercase(own) && text::lowercase(to[i].address) != text::lowercase(
                    target,
                ) ==> exists|k: int|
                    0 <= k < kept.len() && text::ascii_lower(#[trigger] kept[k])
                        == text::ascii_lower(to[i].address)
            &&& forall|i: int|
                0 <= i < cc.len() && (#[trigger] cc[i]).address.len() > 0 && text::lowercase(
                    cc[i].address,
                ) != text::lowercase(own) && text::lowercase(cc[i].address) != text::lowercase(
                    target,
                ) ==> exists|k: int|
                    0 <= k < kept.len() && text::ascii_lower(#[trigger] kept[k])
                        == text::ascii_lower(cc[i].address)
            &&& forall|k: int|
                0 <= k < kept.len() ==> {
                    &&& (#[trigger] kept[k]).len() > 0
                    &&& text::lowercase(kept[k]) != text::lowercase(own)
                    &&& text::lowercase(kept[k]) != text::lowercase(target)
                    &&& (exists|i: int| 0 <= i < to.len() && (#[trigger] to[i]).address == kept[k])
                        || (exists|i: int|
                        0 <= i < cc.len() && (#[trigger] cc[i]).address == kept[k])
                    &&& text::contains_text(text::join(kept, ", "@), kept[k])
                }
            &&& kept_in_loop(addresses_in(to), own, target).is_prefix_of(kept)
        }),
{
    let to = address::mailboxes(to_header);
    let cc = address::mailboxes(cc_header);
    let all = everyone(to_header, cc_header);
    let kept = kept_in_loop(all, own, target);
    loop_is_everyone_else(all, own, target);
    assert forall|i: int|
        0 <= i < to.len() && (#[trigger] to[i]).address.len() > 0 && !is_excluded(
            to[i].address,
            own,
            target,
        ) implies has_address(kept, to[i].address) by {
        assert(all[i] == to[i].address);
    }
    assert forall|i: int|
        0 <= i < cc.len() && (#[trigger] cc[i]).address.len() > 0 && !is_excluded(
            cc[i].address,
            own,
            target,
        ) implies has_address(kept, cc[i].address) by {
        assert(all[to.len() + i] == cc[i].address);
    }
    assert forall|k: int| 0 <= k < kept.len() implies ((exists|i: int|
        0 <= i < to.len() && (#[trigger] to[i]).address == kept[k]) || (exists|i: int|
        0 <= i < cc.len() && (#[trigger] cc[i]).address == kept[k])) && text::contains_text(
        text::join(kept, ", "@),
        #[trigger] kept[k],
    ) by {
        text::joining_keeps_each(kept, ", "@, k);
        assert(all.contains(kept[k]));
        let i = choose|i: int| 0 <= i < all.len() && all[i] == kept[k];
        if i < to.len() {
            assert(to[i].address == kept[k]);
        } else {
            assert(cc[i - to.len()].address == kept[k]);
        }
    }
    loop_only_grows(addresses_in(to), addresses_in(cc), own, target);
}

fn push_kept(kept: &mut Vec<String>, addr: &str, own_lower: &str, target_lower: &str)
    ensures
        text::texts(final(kept)@) == (if addr@.len() == 0 || text::lowercase(addr@) == own_lower@
            || text::lowercase(addr@) == target_lower@ || has_address(
            text::texts(old(kept)@),
            addr@,
        ) {
            text::texts(old(kept)@)
        } else {
            text::texts(old(kept)@).push(addr@)
        }),
{
    if addr.is_empty() {
        return;
    }
    let lower = text::to_lowercase(addr);
    if text::same_str(&lower, own_lower) || text::same_str(&lower, target_lower) {
        return;
    }
    let ghost views = text::texts(kept@);
    let mut i: usize = 0;
    while i < kept.len()
        invariant
            i <= kept.len(),
            kept@ == old(kept)@,
            views == text::texts(kept@),
            forall|k: int| 0 <= k < i ==> !text::eq_ignore_case(#[trigger] views[k], addr@),
        decreases kept.len() - i,
    {
        if text::str_same_ignoring_case(&kept[i], addr) {
            assert(text::eq_ignore_case(views[i as int], addr@));
            return;
        }
        i = i + 1;
    }
    assert(!has_address(views, addr@));
    kept.push(addr.to_owned());
    assert(text::texts(kept@) =~= views.push(addr@));
}

/// Reply All keeps the rest of the thread in the loop: the original To and
/// Cc, minus ourselves and minus whoever the reply is already addressed to.
pub fn reply_all_cc(to_header: &str, cc_header: &str, own_email: &str, to_addr: &str) -> (r: String)
    ensures
        r@ == text::join(
            kept_in_loop(everyone(to_header@, cc_header@), own_email@, to_addr@),
            ", "@,
        ),
{
    let own_lower = text::to_lowercase(own_email);
    let target_lower = text::to_lowercase(to_addr);
    let to_list = address::parse_list(to_header);
    let cc_list = address::parse_list(cc_header);
    let ghost all = everyone(to_header@, cc_header@);
    let n: usize = to_list.len();
    let mut kept: Vec<String> = Vec::new();
    assert(text::texts(kept@) =~= Seq::empty());
    let mut i: usize = 0;
    while i < n
        invariant
            i <= n,
            n == to_list.len(),
            address::mailbox_views(to_list@) == address::mailboxes(to_header@),
            own_lower@ == text::lowercase(own_email@),
            target_lower@ == text::lowercase(to_addr@),
            all == everyone(to_header@, cc_header@),
            text::texts(kept@) == kept_in_loop(all.take(i as int), own_email@, to_addr@),
        decreases n - i,
    {
        proof {
            assert(address::mailbox_views(to_list@)[i as int] == to_list@[i as int]@);
            assert(all.take(i + 1).drop_last() =~= all.take(i as int));
            assert(all.take(i + 1).last() == to_list@[i as int].address@);
        }
        push_kept(&mut kept, &to_list[i].address, &own_lower, &target_lower);
        i = i + 1;
    }
    let mut k: usize = 0;
    assert(address::mailbox_views(to_list@).len() == n);
    while k < cc_list.len()
        invariant
            k <= cc_list.len(),
            n == address::mailboxes(to_header@).len(),
            address::mailbox_views(cc_list@) == address::mailboxes(cc_header@),
            own_lower@ == text::lowercase(own_email@),
            target_lower@ == text::lowercase(to_addr@),
            all == everyone(to_header@, cc_header@),
            text::texts(kept@) == kept_in_loop(all.take(n + k), own_email@, to_addr@),
        decreases cc_list.len() - k,
    {
        proof {
            assert(address::mailbox_views(cc_list@)[k as int] == cc_list@[k as int]@);
            assert(all.take(n + k + 1).drop_last() =~= all.take(n + k));
            assert(all.take(n + k + 1).last() == cc_list@[k as int].address@);
        }
        push_kept(&mut kept, &cc_list[k].address, &own_lower, &target_lower);
        k = k + 1;
    }
    proof {
        assert(address::mailbox_views(cc_list@).len() == cc_list.len());
        assert(all.take(n + k) =~= all);
    }
    text::join_strings(&kept, ", ")
}

// --- bodies ---------------------------------------------------------------

/// A signature in the block the composer swaps per account.
pub open spec fn signed(html: Seq<char>) -> Seq<char> {
    "<div class=\"signature\">-- <br>"@ + html + "</div>"@
}

/// The block of a signature, nothing where there is none.
pub open spec fn signed_or_empty(signature: Seq<char>) -> Seq<char> {
    if signature.len() == 0 {
        Seq::empty()
    } else {
        signed(signature)
    }
}

/// Wraps a signature (an HTML fragment) in the block the composer swaps per
/// account. The "-- " delimiter is the RFC 3676 convention for a signature.
pub fn signature_block(html: &str) -> (r: String)
    ensures
        r@ == signed(html@),
{
    let mut out = text::chars_of("<div class=\"signature\">-- <br>");
    text::extend_str(&mut out, html);
    text::extend_str(&mut out, "</div>");
    text::text_of(&out)
}

fn signature_or_empty(signature: &str) -> (r: String)
    ensures
        r@ == signed_or_empty(signature@),
{
    if signature.is_empty() {
        String::new()
    } else {
        signature_block(signature)
    }
}

/// The body of a reply: room to write, the signature, and the original quoted.
pub open spec fn reply_body(
    from: Seq<char>,
    date: Seq<char>,
    body: Seq<char>,
    signature: Seq<char>,
) -> Seq<char> {
    "<div><br></div>"@ + signed_or_empty(signature) + "<div>On "@ + html::escaped(date) + ", "@
        + html::escaped(from) + " wrote:</div><blockquote>"@ + html::as_html(body)
        + "</blockquote>"@
}

/// The body of a reply: room to write, the signature, and the original quoted.
pub fn quote_reply_body(
    original_from: &str,
    original_date: &str,
    original_text: &str,
    signature: &str,
) -> (r: String)
    ensures
        r@ == reply_body(original_from@, original_date@, original_text@, signature@),
{
    let mut out = text::chars_of("<div><br></div>");
    text::extend_str(&mut out, &signature_or_empty(signature));
    text::extend_str(&mut out, "<div>On ");
    text::extend_str(&mut out, &html::escape(original_date));
    text::extend_str(&mut out, ", ");
    text::extend_str(&mut out, &html::escape(original_from));
    text::extend_str(&mut out, " wrote:</div><blockquote>");
    text::extend_str(&mut out, &html::to_html(original_text));
    text::extend_str(&mut out, "</blockquote>");
    text::text_of(&out)
}

/// The body of a forwarded message: room to write, the signature, and the original with the
/// headers a reader needs.
pub open spec fn passed_on(
    from: Seq<char>,
    date: Seq<char>,
    subject: Seq<char>,
    body: Seq<char>,
    signature: Seq<char>,
) -> Seq<char> {
    "<div><br></div>"@ + signed_or_empty(signature)
        + "<div>---------- Forwarded message ----------<br>From: "@ + html::escaped(from)
        + "<br>Date: "@ + html::escaped(date) + "<br>Subject: "@ + html::escaped(subject)
        + "</div><blockquote>"@ + html::as_html(body) + "</blockquote>"@
}

/// The body of a forwarded message: room to write, the signature, and the original with the
/// headers a reader needs.
pub fn forward_body(
    original_from: &str,
    original_date: &str,
    original_subject: &str,
    original_text: &str,
    signature: &str,
) -> (r: String)
    ensures
        r@ == passed_on(
            original_from@,
            original_date@,
            original_subject@,
            original_text@,
            signature@,
        ),
{
    let mut out = text::chars_of("<div><br></div>");
    text::extend_str(&mut out, &signature_or_empty(signature));
    text::extend_str(&mut out, "<div>---------- Forwarded message ----------<br>From: ");
    text::extend_str(&mut out, &html::escape(original_from));
    text::extend_str(&mut out, "<br>Date: ");
    text::extend_str(&mut out, &html::escape(original_date));
    text::extend_str(&mut out, "<br>Subject: ");
    text::extend_str(&mut out, &html::escape(original_subject));
    text::extend_str(&mut out, "</div><blockquote>");
    text::extend_str(&mut out, &html::to_html(original_text));
    text::extend_str(&mut out, "</blockquote>");
    text::text_of(&out)
}

/// What is answered or passed on stands whole in the new message, behind everything else, and so do
/// who wrote it, when and, where it is passed on, its subject. A signature stands in it once there
/// is one.
pub proof fn originals_are_quoted_whole(
    from: Seq<char>,
    date: Seq<char>,
    subject: Seq<char>,
    body: Seq<char>,
    signature: Seq<char>,
)
    ensures
        ({
            let quote = "<blockquote>"@ + html::as_html(body) + "</blockquote>"@;
            let reply = reply_body(from, date, body, signature);
            let forward = passed_on(from, date, subject, body, signature);
            &&& quote.is_suffix_of(reply)
            &&& quote.is_suffix_of(forward)
            &&& text::contains_text(reply, html::escaped(from))
            &&& text::contains_text(reply, html::escaped(date))
            &&& text::contains_text(forward, html::escaped(from))
            &&& text::contains_text(forward, html::escaped(date))
            &&& text::contains_text(forward, html::escaped(subject))
            &&& signature.len() > 0 ==> text::contains_text(
                reply,
                "<div class=\"signature\">-- <br>"@ + signature + "</div>"@,
            )
            &&& signature.len() > 0 ==> text::contains_text(
                forward,
                "<div class=\"signature\">-- <br>"@ + signature + "</div>"@,
            )
        }),
{
    reveal_strlit(" wrote:</div><blockquote>");
    reveal_strlit("</div><blockquote>");
    reveal_strlit("<blockquote>");
    let reply = reply_body(from, date, body, signature);
    let forward = passed_on(from, date, subject, body, signature);
    let end = html::as_html(body) + "</blockquote>"@;
    let quote = "<blockquote>"@ + html::as_html(body) + "</blockquote>"@;
    assert(reply.subrange(reply.len() - quote.len(), reply.len() as int) =~= quote);
    assert(forward.subrange(forward.len() - quote.len(), forward.len() as int) =~= quote);
    let top = "<div><br></div>"@;
    let sign = signed_or_empty(signature);
    let d = html::escaped(date);
    let f = html::escaped(from);
    let s = html::escaped(subject);
    let on = "<div>On "@;
    let wrote = " wrote:</div><blockquote>"@;
    text::holds_what_it_is_made_of(top + sign + on, d, ", "@ + f + wrote + end);
    assert(reply =~= top + sign + on + d + (", "@ + f + wrote + end));
    text::holds_what_it_is_made_of(top + sign + on + d + ", "@, f, wrote + end);
    assert(reply =~= top + sign + on + d + ", "@ + f + (wrote + end));
    text::holds_what_it_is_made_of(top, sign, on + d + ", "@ + f + wrote + end);
    assert(reply =~= top + sign + (on + d + ", "@ + f + wrote + end));
    let head = "<div>---------- Forwarded message ----------<br>From: "@;
    let a = "<br>Date: "@;
    let b = "<br>Subject: "@;
    let c = "</div><blockquote>"@;
    text::holds_what_it_is_made_of(top, sign, head + f + a + d + b + s + c + end);
    assert(forward =~= top + sign + (head + f + a + d + b + s + c + end));
    text::holds_what_it_is_made_of(top + sign + head, f, a + d + b + s + c + end);
    assert(forward =~= top + sign + head + f + (a + d + b + s + c + end));
    text::holds_what_it_is_made_of(top + sign + head + f + a, d, b + s + c + end);
    assert(forward =~= top + sign + head + f + a + d + (b + s + c + end));
    text::holds_what_it_is_made_of(top + sign + head + f + a + d + b, s, c + end);
    assert(forward =~= top + sign + head + f + a + d + b + s + (c + end));
}

// --- the message on the wire ----------------------------------------------

/// Why a message could not be built.
#[derive(Debug, PartialEq, Eq)]
pub enum ComposeError {
    /// A text that names no address mail can go to.
    Address(String),
    /// What the message builder said.
    Build(String),
}

/// How a failure reads.
pub open spec fn error_text(error: ComposeError) -> Seq<char> {
    match error {
        ComposeError::Address(t) => "invalid address "@ + text::debug_quoted(t@),
        ComposeError::Build(said) => "could not build the message: "@ + said@,
    }
}

impl ComposeError {
    /// How the failure reads.
    pub fn message(&self) -> (r: String)
        ensures
            r@ == error_text(*self),
    {
        match self {
            ComposeError::Address(t) => prefixed("invalid address ", &text::debug_quote(t)),
            ComposeError::Build(said) => prefixed("could not build the message: ", said),
        }
    }
}

/// A mailbox on the wire: its address has been checked.
#[derive(Debug)]
pub struct Recipient {
    pub name: Option<String>,
    pub address: String,
}

/// What a mailbox on the wire says.
pub struct RecipientView {
    pub name: Option<Seq<char>>,
    pub address: Seq<char>,
}

impl View for Recipient {
    type V = RecipientView;

    open spec fn view(&self) -> RecipientView {
        RecipientView { name: mail::opt(self.name), address: self.address@ }
    }
}

/// The mailboxes of a list.
pub open spec fn recipient_views(list: Seq<Recipient>) -> Seq<RecipientView> {
    Seq::new(list.len(), |i: int| list[i]@)
}

/// Whether a text is an address that mail can go to.
pub uninterp spec fn is_address(text: Seq<char>) -> bool;

/// Whether a text is a content type.
pub uninterp spec fn is_content_type(text: Seq<char>) -> bool;

/// What the headers of an outgoing message say.
pub struct HeadView {
    pub from: RecipientView,
    pub to: Seq<RecipientView>,
    pub cc: Seq<RecipientView>,
    pub subject: Seq<char>,
}

/// A part of an outgoing message.
pub enum WirePart {
    Plain(Seq<char>),
    Markup(Seq<char>),
    File(mime::AttachmentView),
    /// Parts that stand together as one.
    Nested(Seq<WirePart>),
}

/// The builder of an outgoing message.
#[verifier::external_type_specification]
#[verifier::external_body]
pub struct ExMessageBuilder(lettre::message::MessageBuilder);

/// The body of an outgoing message.
#[verifier::external_type_specification]
#[verifier::external_body]
pub struct ExMultiPart(lettre::message::MultiPart);

/// Whether a builder is one that was given these headers and some moment.
pub uninterp spec fn was_given(builder: lettre::message::MessageBuilder, head: HeadView) -> bool;

/// Whether a body is one that was given these parts, with some boundary between them.
pub uninterp spec fn was_made_of(body: lettre::message::MultiPart, parts: Seq<WirePart>) -> bool;

/// Why no message is built from these headers, if none is.
pub uninterp spec fn refusal(head: HeadView) -> Option<Seq<char>>;

/// Whether some bytes are what is written of these headers and parts, at some moment and with some
/// boundaries.
pub uninterp spec fn may_render(head: HeadView, parts: Seq<WirePart>, raw: Seq<u8>) -> bool;

/// Whether a name can stand in a header: no line breaks in it.
pub open spec fn is_one_line(name: Option<Seq<char>>) -> bool {
    match name {
        Some(n) => !text::trim(n).contains('\n') && !text::trim(n).contains('\r'),
        None => true,
    }
}

/// Calls the `parse` of `lettre::Address`: whether it accepts the text.
#[verifier::external_body]
pub(crate) fn address_parses(text: &str) -> (r: bool)
    ensures
        r == is_address(text@),
{
    text.parse::<lettre::Address>().is_ok()
}

/// Calls `lettre::message::header::ContentType::parse`: whether it accepts the text. It accepts
/// the type of bytes that nothing is known of.
#[verifier::external_body]
fn content_type_parses(text: &str) -> (r: bool)
    ensures
        r == is_content_type(text@),
        text@ == "application/octet-stream"@ ==> r,
{
    lettre::message::header::ContentType::parse(text).is_ok()
}

/// Calls `lettre::Message::builder` and its `from`, `subject` and `date_now`: the builder has been
/// given the sender, the subject and the present moment, and nobody the message goes to. A name
/// with a line break in it is a panic there.
#[verifier::external_body]
fn start_message(from: &Recipient, subject: &str) -> (r: lettre::message::MessageBuilder)
    requires
        is_address(from@.address),
        is_one_line(from@.name),
    ensures
        was_given(
            r,
            HeadView { from: from@, to: Seq::empty(), cc: Seq::empty(), subject: subject@ },
        ),
{
    let address = from.address.parse().expect("an address");
    let sender = lettre::message::Mailbox::new(from.name.clone(), address);
    lettre::Message::builder().from(sender).subject(subject).date_now()
}

/// Calls `lettre::message::MessageBuilder::to`: the mailbox has been given after those before it.
/// A name with a line break in it is a panic there.
#[verifier::external_body]
fn add_to(
    builder: lettre::message::MessageBuilder,
    m: &Recipient,
) -> (r: lettre::message::MessageBuilder)
    requires
        is_address(m@.address),
        is_one_line(m@.name),
    ensures
        forall|head: HeadView| #[trigger]
            was_given(builder, head) ==> was_given(
                r,
                (HeadView { to: head.to.push(m@), ..head }),
            ),
{
    let address = m.address.parse().expect("an address");
    builder.to(lettre::message::Mailbox::new(m.name.clone(), address))
}

/// Calls `lettre::message::MessageBuilder::cc`: the mailbox has been given after those before it.
/// A name with a line break in it is a panic there.
#[verifier::external_body]
fn add_cc(
    builder: lettre::message::MessageBuilder,
    m: &Recipient,
) -> (r: lettre::message::MessageBuilder)
    requires
        is_address(m@.address),
        is_one_line(m@.name),
    ensures
        forall|head: HeadView| #[trigger]
            was_given(builder, head) ==> was_given(
                r,
                (HeadView { cc: head.cc.push(m@), ..head }),
            ),
{
    let address = m.address.parse().expect("an address");
    builder.cc(lettre::message::Mailbox::new(m.name.clone(), address))
}

/// Calls `lettre::message::MultiPart::alternative_plain_html`: a body that was given two parts, the
/// plain text and the markup.
#[verifier::external_body]
fn alternatives(plain: String, markup: String) -> (r: lettre::message::MultiPart)
    ensures
        was_made_of(r, seq![WirePart::Plain(plain@), WirePart::Markup(markup@)]),
{
    lettre::message::MultiPart::alternative_plain_html(plain, markup)
}

/// Calls `lettre::message::MultiPart::mixed` and `multipart`: a body that was given another as its
/// only part.
#[verifier::external_body]
fn mixed(body: lettre::message::MultiPart) -> (r: lettre::message::MultiPart)
    ensures
        forall|parts: Seq<WirePart>| #[trigger]
            was_made_of(body, parts) ==> was_made_of(r, seq![WirePart::Nested(parts)]),
{
    lettre::message::MultiPart::mixed().multipart(body)
}

/// Calls `lettre::message::MultiPart::singlepart` with a `lettre::message::Attachment`: the file
/// was given as the last part.
#[verifier::external_body]
fn attach(body: lettre::message::MultiPart, file: &Attachment) -> (r: lettre::message::MultiPart)
    requires
        is_content_type(file@.mime_type),
    ensures
        forall|parts: Seq<WirePart>| #[trigger]
            was_made_of(body, parts) ==> was_made_of(r, parts.push(WirePart::File(file@))),
{
    let kind = lettre::message::header::ContentType::parse(&file.mime_type).expect("a type");
    let part = lettre::message::Attachment::new(file.filename.clone());
    body.singlepart(part.body(file.content.clone(), kind))
}

/// Calls `lettre::message::MessageBuilder::multipart` and `formatted` of the message it gives. The
/// headers alone decide whether it refuses, and it does where nobody is to get the message. The
/// bytes hold the moment and random boundaries, so they are only said to be some rendering.
#[verifier::external_body]
fn write_message(
    builder: lettre::message::MessageBuilder,
    body: lettre::message::MultiPart,
) -> (r: Result<Vec<u8>, String>)
    ensures
        forall|head: HeadView|
            #![trigger was_given(builder, head)]
            was_given(builder, head) ==> {
                &&& refusal(head) == refused(r)
                &&& head.to.len() + head.cc.len() == 0 ==> r is Err
            },
        forall|head: HeadView, parts: Seq<WirePart>|
            #![trigger was_given(builder, head), was_made_of(body, parts)]
            was_given(builder, head) && was_made_of(body, parts) && r is Ok ==> may_render(
                head,
                parts,
                r->Ok_0@,
            ),
{
    builder.multipart(body).map(|message| message.formatted()).map_err(|error| error.to_string())
}

/// What was said against a message that was not built.
pub open spec fn refused(built: Result<Vec<u8>, String>) -> Option<Seq<char>> {
    match built {
        Ok(_) => None,
        Err(said) => Some(said@),
    }
}

/// The files of a message as its parts.
pub open spec fn file_parts(files: Seq<mime::AttachmentView>) -> Seq<WirePart> {
    Seq::new(files.len(), |i: int| WirePart::File(files[i]))
}

/// The parts of a message: its two alternatives, in a part of their own where files follow them.
pub open spec fn parts_of(
    plain: Seq<char>,
    markup: Seq<char>,
    files: Seq<mime::AttachmentView>,
) -> Seq<WirePart> {
    let both = seq![WirePart::Plain(plain), WirePart::Markup(markup)];
    if files.len() == 0 {
        both
    } else {
        seq![WirePart::Nested(both)] + file_parts(files)
    }
}

/// Whether mailboxes can stand in a header.
pub open spec fn all_sendable(list: Seq<Recipient>) -> bool {
    forall|i: int|
        0 <= i < list.len() ==> is_address((#[trigger] list[i])@.address) && is_one_line(
            list[i]@.name,
        )
}

fn addressed(from: &Recipient, to: &[Recipient], cc: &[Recipient], subject: &str) -> (r:
    lettre::message::MessageBuilder)
    requires
        is_address(from@.address),
        is_one_line(from@.name),
        all_sendable(to@),
        all_sendable(cc@),
    ensures
        was_given(
            r,
            HeadView {
                from: from@,
                to: recipient_views(to@),
                cc: recipient_views(cc@),
                subject: subject@,
            },
        ),
{
    let ghost tos = recipient_views(to@);
    let ghost ccs = recipient_views(cc@);
    let ghost none: Seq<RecipientView> = Seq::empty();
    let mut builder = start_message(from, subject);
    let mut i: usize = 0;
    assert(tos.take(0) =~= none);
    while i < to.len()
        invariant
            i <= to.len(),
            tos == recipient_views(to@),
            all_sendable(to@),
            was_given(
                builder,
                HeadView { from: from@, to: tos.take(i as int), cc: none, subject: subject@ },
            ),
        decreases to.len() - i,
    {
        builder = add_to(builder, &to[i]);
        assert(tos.take(i + 1) =~= tos.take(i as int).push(to@[i as int]@));
        i = i + 1;
    }
    assert(tos.take(i as int) =~= tos);
    let mut j: usize = 0;
    assert(ccs.take(0) =~= none);
    while j < cc.len()
        invariant
            j <= cc.len(),
            ccs == recipient_views(cc@),
            all_sendable(cc@),
            was_given(
                builder,
                HeadView { from: from@, to: tos, cc: ccs.take(j as int), subject: subject@ },
            ),
        decreases cc.len() - j,
    {
        builder = add_cc(builder, &cc[j]);
        assert(ccs.take(j + 1) =~= ccs.take(j as int).push(cc@[j as int]@));
        j = j + 1;
    }
    assert(ccs.take(j as int) =~= ccs);
    builder
}

fn body_with(plain: String, markup: String, files: &[Attachment]) -> (r:
    lettre::message::MultiPart)
    requires
        forall|i: int| 0 <= i < files@.len() ==> is_content_type((#[trigger] files@[i])@.mime_type),
    ensures
        was_made_of(r, parts_of(plain@, markup@, mime::attachment_views(files@))),
{
    let ghost views = mime::attachment_views(files@);
    let ghost both = seq![WirePart::Plain(plain@), WirePart::Markup(markup@)];
    let mut body = alternatives(plain, markup);
    if files.len() == 0 {
        return body;
    }
    body = mixed(body);
    let mut i: usize = 0;
    assert(seq![WirePart::Nested(both)] + file_parts(views.take(0)) =~= seq![
        WirePart::Nested(both),
    ]);
    while i < files.len()
        invariant
            i <= files.len(),
            views == mime::attachment_views(files@),
            forall|k: int|
                0 <= k < files@.len() ==> is_content_type((#[trigger] files@[k])@.mime_type),
            was_made_of(
                body,
                seq![WirePart::Nested(both)] + file_parts(views.take(i as int)),
            ),
        decreases files.len() - i,
    {
        body = attach(body, &files[i]);
        assert((seq![WirePart::Nested(both)] + file_parts(views.take(i as int))).push(
            WirePart::File(files@[i as int]@),
        ) =~= seq![WirePart::Nested(both)] + file_parts(views.take(i + 1)));
        i = i + 1;
    }
    assert(views.take(i as int) =~= views);
    body
}

/// The mailbox on the wire that a text names, if it names one that mail can go to.
pub open spec fn wire_mailbox(text: Seq<char>) -> Option<RecipientView> {
    match address::first_mailbox(text) {
        Some(m) => if is_address(m.address) {
            Some(
                RecipientView {
                    name: if m.name.len() == 0 {
                        None
                    } else {
                        Some(m.name)
                    },
                    address: m.address,
                },
            )
        } else {
            None
        },
        None => None,
    }
}

/// Whether every text names a mailbox that mail can go to.
pub open spec fn all_reachable(texts: Seq<Seq<char>>) -> bool {
    forall|i: int| 0 <= i < texts.len() ==> wire_mailbox(#[trigger] texts[i]) is Some
}

/// The mailboxes on the wire that some texts name.
pub open spec fn wire_mailboxes(texts: Seq<Seq<char>>) -> Seq<RecipientView> {
    Seq::new(texts.len(), |i: int| wire_mailbox(texts[i]).unwrap())
}

/// The first text from `i` on that names nobody mail can go to.
pub open spec fn first_unreachable(texts: Seq<Seq<char>>, i: int) -> Seq<char>
    decreases texts.len() - i,
{
    if i < 0 || i >= texts.len() {
        Seq::empty()
    } else if wire_mailbox(texts[i]) is None {
        texts[i]
    } else {
        first_unreachable(texts, i + 1)
    }
}

/// An attachment with a content type that can stand in a header.
pub open spec fn sendable(file: mime::AttachmentView) -> mime::AttachmentView {
    mime::AttachmentView {
        mime_type: if is_content_type(file.mime_type) {
            file.mime_type
        } else {
            "application/octet-stream"@
        },
        ..file
    }
}

/// The files of a message, with content types that can stand in a header.
pub open spec fn sendable_files(files: Seq<mime::AttachmentView>) -> Seq<mime::AttachmentView> {
    Seq::new(files.len(), |i: int| sendable(files[i]))
}

fn to_wire(text: &str) -> (r: Result<Recipient, ComposeError>)
    ensures
        match r {
            Ok(m) => wire_mailbox(text@) == Some(m@),
            Err(ComposeError::Address(t)) => wire_mailbox(text@) is None && t@ == text@,
            Err(ComposeError::Build(_)) => false,
        },
{
    match address::parse_first(text) {
        Some(m) => if address_parses(&m.address) {
            let name = if m.name.as_str().is_empty() {
                None
            } else {
                Some(m.name)
            };
            Ok(Recipient { name, address: m.address })
        } else {
            Err(ComposeError::Address(text.to_owned()))
        },
        None => Err(ComposeError::Address(text.to_owned())),
    }
}

fn all_to_wire(list: &[String]) -> (r: Result<Vec<Recipient>, ComposeError>)
    ensures
        match r {
            Ok(found) => all_reachable(text::texts(list@)) && recipient_views(found@)
                == wire_mailboxes(text::texts(list@)),
            Err(ComposeError::Address(t)) => !all_reachable(text::texts(list@)) && t@
                == first_unreachable(text::texts(list@), 0),
            Err(ComposeError::Build(_)) => false,
        },
{
    let ghost views = text::texts(list@);
    let mut out: Vec<Recipient> = Vec::new();
    let mut i: usize = 0;
    while i < list.len()
        invariant
            i <= list.len(),
            views == text::texts(list@),
            out.len() == i,
            first_unreachable(views, 0) == first_unreachable(views, i as int),
            forall|k: int|
                0 <= k < i ==> wire_mailbox(#[trigger] views[k]) == Some(out@[k]@),
        decreases list.len() - i,
    {
        assert(views[i as int] == list@[i as int]@);
        match to_wire(&list[i]) {
            Ok(m) => {
                out.push(m);
            },
            Err(e) => {
                assert(wire_mailbox(views[i as int]) is None);
                return Err(e);
            },
        }
        i = i + 1;
    }
    assert(recipient_views(out@) =~= wire_mailboxes(views));
    Ok(out)
}

fn to_sendable(files: &[Attachment]) -> (r: Vec<Attachment>)
    ensures
        mime::attachment_views(r@) == sendable_files(mime::attachment_views(files@)),
        forall|i: int| 0 <= i < r@.len() ==> is_content_type((#[trigger] r@[i])@.mime_type),
{
    let mut out: Vec<Attachment> = Vec::new();
    while out.len() < files.len()
        invariant
            out.len() <= files.len(),
            forall|k: int|
                0 <= k < out.len() ==> (#[trigger] out@[k])@ == sendable(files@[k]@)
                    && is_content_type(out@[k]@.mime_type),
        decreases files.len() - out.len(),
    {
        let file = &files[out.len()];
        let known = content_type_parses(&file.mime_type);
        let octets = content_type_parses("application/octet-stream");
        let mime_type: String = if known {
            file.mime_type.clone()
        } else {
            "application/octet-stream".to_owned()
        };
        let content = file.content.clone();
        assert(content@ =~= file.content@);
        assert(octets);
        out.push(Attachment { filename: file.filename.clone(), mime_type, content });
    }
    assert(mime::attachment_views(out@) =~= sendable_files(mime::attachment_views(files@)));
    out
}

/// Whether the name of the mailbox that a text names, if mail can go to it, can stand in a header.
pub open spec fn fits_a_line(text: Seq<char>) -> bool {
    match wire_mailbox(text) {
        Some(m) => is_one_line(m.name),
        None => true,
    }
}

/// The texts that name who a message is from and to, in the order they are looked at.
pub open spec fn parties(from: Seq<char>, to: Seq<Seq<char>>, cc: Seq<Seq<char>>) -> Seq<Seq<char>> {
    seq![from] + to + cc
}

/// Whether names can stand in a header: those up to the first text that names nobody mail can go
/// to. Nothing is written of what follows it.
pub open spec fn headers_fit(texts: Seq<Seq<char>>) -> bool {
    forall|i: int|
        0 <= i < texts.len() && all_reachable(texts.take(i + 1)) ==> fits_a_line(
            #[trigger] texts[i],
        )
}

/// Whether a name has no line break in it, but for white space around it.
fn one_line(name: &Option<String>) -> (r: bool)
    ensures
        r == is_one_line(mail::opt(*name)),
{
    match name {
        Some(n) => {
            let trimmed = text::trimmed(&text::chars_of(n));
            !text::has_char(&trimmed, '\n') && !text::has_char(&trimmed, '\r')
        },
        None => true,
    }
}

/// What is known of some texts, looked at in order.
enum Looked {
    /// All of them name a mailbox, and the names fit.
    Fitting,
    /// One names nobody mail can go to, and the names before it fit.
    Unreachable,
    /// A name does not fit.
    Broken,
}

/// Looks at texts that come after others, which all name a mailbox with a name that fits.
fn look_at(before: Ghost<Seq<Seq<char>>>, list: &[String], after: Ghost<Seq<Seq<char>>>) -> (r:
    Looked)
    requires
        all_reachable(before@),
        forall|i: int| 0 <= i < before@.len() ==> fits_a_line(#[trigger] before@[i]),
    ensures
        match r {
            Looked::Fitting => {
                &&& all_reachable(before@ + text::texts(list@))
                &&& forall|i: int|
                    0 <= i < list@.len() ==> fits_a_line(#[trigger] text::texts(list@)[i])
            },
            Looked::Unreachable => headers_fit(before@ + text::texts(list@) + after@),
            Looked::Broken => !headers_fit(before@ + text::texts(list@) + after@),
        },
{
    let ghost views = text::texts(list@);
    let ghost all = before@ + views + after@;
    let ghost n = before@.len() as int;
    let mut i: usize = 0;
    while i < list.len()
        invariant
            i <= list.len(),
            views == text::texts(list@),
            all == before@ + views + after@,
            n == before@.len(),
            all_reachable(before@),
            forall|k: int| 0 <= k < before@.len() ==> fits_a_line(#[trigger] before@[k]),
            forall|k: int|
                0 <= k < i ==> wire_mailbox(#[trigger] views[k]) is Some && fits_a_line(views[k]),
        decreases list.len() - i,
    {
        assert(views[i as int] == list@[i as int]@);
        match to_wire(&list[i]) {
            Ok(m) => {
                if !one_line(&m.name) {
                    proof {
                        assert(all[n + i] == views[i as int]);
                        let taken = all.take(n + i + 1);
                        assert forall|k: int| 0 <= k < taken.len() implies wire_mailbox(
                            #[trigger] taken[k],
                        ) is Some by {
                            if k < n {
                                assert(taken[k] == before@[k]);
                            } else {
                                assert(taken[k] == views[k - n]);
                            }
                        }
                        assert(!fits_a_line(all[n + i]));
                    }
                    return Looked::Broken;
                }
            },
            Err(_) => {
                proof {
                    assert forall|k: int|
                        0 <= k < all.len() && all_reachable(all.take(k + 1)) implies fits_a_line(
                        #[trigger] all[k],
                    ) by {
                        if k < n {
                            assert(all[k] == before@[k]);
                        } else if k < n + i {
                            assert(all[k] == views[k - n]);
                        } else {
                            let taken = all.take(k + 1);
                            assert(taken[n + i] == views[i as int]);
                            assert(wire_mailbox(taken[n + i]) is Some);
                        }
                    }
                }
                return Looked::Unreachable;
            },
        }
        i = i + 1;
    }
    proof {
        let both = before@ + views;
        assert forall|k: int| 0 <= k < both.len() implies wire_mailbox(
            #[trigger] both[k],
        ) is Some by {
            if k < n {
                assert(both[k] == before@[k]);
            } else {
                assert(both[k] == views[k - n]);
            }
        }
    }
    Looked::Fitting
}

/// Whether the names of who a message is from and to can stand in its headers.
pub fn fits_headers(from: &str, to: &[String], cc: &[String]) -> (r: bool)
    ensures
        r == headers_fit(parties(from@, text::texts(to@), text::texts(cc@))),
{
    let ghost t = text::texts(to@);
    let ghost c = text::texts(cc@);
    let ghost all = parties(from@, t, c);
    let sender: Vec<String> = vec![from.to_owned()];
    let ghost none = Seq::<Seq<char>>::empty();
    let ghost first = seq![from@];
    proof {
        assert(text::texts(sender@) =~= first);
        assert(none + first + (t + c) =~= all);
        assert(none + first =~= first);
        assert(first + t + c =~= all);
        assert(first + t + c + none =~= all);
    }
    match look_at(Ghost(none), &sender, Ghost(t + c)) {
        Looked::Fitting => {},
        Looked::Unreachable => {
            return true;
        },
        Looked::Broken => {
            return false;
        },
    }
    proof {
        assert(fits_a_line(text::texts(sender@)[0]));
        assert forall|k: int| 0 <= k < first.len() implies fits_a_line(#[trigger] first[k]) by {}
    }
    match look_at(Ghost(first), to, Ghost(c)) {
        Looked::Fitting => {},
        Looked::Unreachable => {
            return true;
        },
        Looked::Broken => {
            return false;
        },
    }
    let ghost both = first + t;
    proof {
        assert forall|k: int| 0 <= k < both.len() implies fits_a_line(#[trigger] both[k]) by {
            if k > 0 {
                assert(both[k] == t[k - 1]);
            }
        }
    }
    match look_at(Ghost(both), cc, Ghost(none)) {
        Looked::Fitting => {
            proof {
                assert forall|k: int| 0 <= k < all.len() implies fits_a_line(#[trigger] all[k]) by {
                    if k < both.len() {
                        assert(all[k] == both[k]);
                    } else {
                        assert(all[k] == c[k - both.len()]);
                    }
                }
            }
            true
        },
        Looked::Unreachable => true,
        Looked::Broken => false,
    }
}

/// The headers of the message between these addresses.
pub open spec fn head_of(
    from: Seq<char>,
    to: Seq<Seq<char>>,
    cc: Seq<Seq<char>>,
    subject: Seq<char>,
) -> HeadView {
    HeadView {
        from: wire_mailbox(from).unwrap(),
        to: wire_mailboxes(to),
        cc: wire_mailboxes(cc),
        subject,
    }
}

/// Whether this is what building a message gives. The first of the sender, the To and the Cc that
/// names nobody mail can go to is the error. Where all of them do, the headers decide whether a
/// message is built: it needs a recipient.
pub open spec fn is_built(
    r: Result<Vec<u8>, ComposeError>,
    from: Seq<char>,
    to: Seq<Seq<char>>,
    cc: Seq<Seq<char>>,
    subject: Seq<char>,
    body_html: Seq<char>,
    files: Seq<mime::AttachmentView>,
) -> bool {
    let head = head_of(from, to, cc, subject);
    if wire_mailbox(from) is None {
        &&& r matches Err(ComposeError::Address(t))
        &&& t@ == from
    } else if !all_reachable(to) {
        &&& r matches Err(ComposeError::Address(t))
        &&& t@ == first_unreachable(to, 0)
    } else if !all_reachable(cc) {
        &&& r matches Err(ComposeError::Address(t))
        &&& t@ == first_unreachable(cc, 0)
    } else if refusal(head) is Some {
        &&& r matches Err(ComposeError::Build(said))
        &&& Some(said@) == refusal(head)
    } else {
        &&& to.len() + cc.len() > 0
        &&& r matches Ok(raw)
        &&& may_render(
            head,
            parts_of(html::as_text(body_html), body_html, sendable_files(files)),
            raw@,
        )
    }
}

/// The raw message bytes for the wire: text and HTML alternatives, plus any
/// attachments. Bcc is never written into it: that goes on the envelope.
///
/// A line break in a name that gets into a header is left out.
pub fn build_mime_message(
    from_addr: &str,
    to_addrs: &[String],
    cc_addrs: &[String],
    subject: &str,
    body_html: &str,
    attachments: &[Attachment],
) -> (r: Result<Vec<u8>, ComposeError>)
    requires
        headers_fit(parties(from_addr@, text::texts(to_addrs@), text::texts(cc_addrs@))),
    ensures
        is_built(
            r,
            from_addr@,
            text::texts(to_addrs@),
            text::texts(cc_addrs@),
            subject@,
            body_html@,
            mime::attachment_views(attachments@),
        ),
{
    let from = match to_wire(from_addr) {
        Ok(m) => m,
        Err(e) => {
            return Err(e);
        },
    };
    let to = match all_to_wire(to_addrs) {
        Ok(list) => list,
        Err(e) => {
            return Err(e);
        },
    };
    let cc = match all_to_wire(cc_addrs) {
        Ok(list) => list,
        Err(e) => {
            return Err(e);
        },
    };
    let plain = html::html_to_text(body_html);
    proof {
        let t = text::texts(to_addrs@);
        let c = text::texts(cc_addrs@);
        let all = parties(from_addr@, t, c);
        assert forall|i: int| 0 <= i < all.len() implies fits_a_line(#[trigger] all[i]) by {
            let taken = all.take(i + 1);
            assert forall|k: int| 0 <= k < taken.len() implies wire_mailbox(
                #[trigger] taken[k],
            ) is Some by {
                if k > t.len() {
                    assert(taken[k] == c[k - 1 - t.len()]);
                } else if k > 0 {
                    assert(taken[k] == t[k - 1]);
                }
            }
        }
        assert(all[0] == from_addr@);
        assert(recipient_views(to@).len() == to_addrs@.len());
        assert(recipient_views(cc@).len() == cc_addrs@.len());
        assert forall|i: int| 0 <= i < to@.len() implies is_address(
            (#[trigger] to@[i])@.address,
        ) && is_one_line(to@[i]@.name) by {
            assert(recipient_views(to@)[i] == to@[i]@);
            assert(wire_mailbox(text::texts(to_addrs@)[i]) is Some);
            assert(all[i + 1] == t[i]);
        }
        assert forall|i: int| 0 <= i < cc@.len() implies is_address(
            (#[trigger] cc@[i])@.address,
        ) && is_one_line(cc@[i]@.name) by {
            assert(recipient_views(cc@)[i] == cc@[i]@);
            assert(wire_mailbox(text::texts(cc_addrs@)[i]) is Some);
            assert(all[i + 1 + t.len()] == c[i]);
        }
    }
    let files = to_sendable(attachments);
    let builder = addressed(&from, &to, &cc, subject);
    let body = body_with(plain, body_html.to_owned(), &files);
    match write_message(builder, body) {
        Ok(raw) => Ok(raw),
        Err(said) => Err(ComposeError::Build(said)),
    }
}

/// The raw message bytes for the wire, or nothing where a name has a line break in it that would
/// get into a header.
pub fn try_build_mime_message(
    from_addr: &str,
    to_addrs: &[String],
    cc_addrs: &[String],
    subject: &str,
    body_html: &str,
    attachments: &[Attachment],
) -> (r: Option<Result<Vec<u8>, ComposeError>>)
    ensures
        match r {
            Some(built) => {
                &&& headers_fit(
                    parties(from_addr@, text::texts(to_addrs@), text::texts(cc_addrs@)),
                )
                &&& is_built(
                    built,
                    from_addr@,
                    text::texts(to_addrs@),
                    text::texts(cc_addrs@),
                    subject@,
                    body_html@,
                    mime::attachment_views(attachments@),
                )
            },
            None => !headers_fit(
                parties(from_addr@, text::texts(to_addrs@), text::texts(cc_addrs@)),
            ),
        },
{
    if !fits_headers(from_addr, to_addrs, cc_addrs) {
        return None;
    }
    Some(build_mime_message(from_addr, to_addrs, cc_addrs, subject, body_html, attachments))
}

// --- reading recipients back ----------------------------------------------

/// The addresses of a list that has some, as a list header writes them.
pub open spec fn listed_addresses(list: Seq<mail::NamedView>) -> Seq<Seq<char>>
    decreases list.len(),
{
    if list.len() == 0 {
        Seq::empty()
    } else {
        let before = listed_addresses(list.drop_last());
        match list.last().address {
            Some(a) => before.push(a),
            None => before,
        }
    }
}

/// The text of a recipient header: its own, or the addresses of its mailboxes.
pub open spec fn header_text(header: mail::StoredView) -> Seq<char> {
    match (header.text, header.mailboxes) {
        (Some(t), _) => t,
        (None, Some(list)) => text::join(listed_addresses(list), ", "@),
        (None, None) => Seq::empty(),
    }
}

/// The addresses of some mailboxes, of those that have one.
pub open spec fn nonempty_addresses(list: Seq<address::MailboxView>) -> Seq<Seq<char>>
    decreases list.len(),
{
    if list.len() == 0 {
        Seq::empty()
    } else {
        let before = nonempty_addresses(list.drop_last());
        if list.last().address.len() > 0 {
            before.push(list.last().address)
        } else {
            before
        }
    }
}

/// The addresses that some recipient headers name.
pub open spec fn recipients_in(headers: Seq<mail::StoredView>) -> Seq<Seq<char>>
    decreases headers.len(),
{
    if headers.len() == 0 {
        Seq::empty()
    } else {
        recipients_in(headers.drop_last()) + nonempty_addresses(
            address::mailboxes(header_text(headers.last())),
        )
    }
}

/// The addresses of a stored message's To and Cc.
pub open spec fn stored_recipients(raw: Seq<u8>) -> Seq<Seq<char>> {
    recipients_in(mail::block_headers(raw, "To"@)) + recipients_in(
        mail::block_headers(raw, "Cc"@),
    )
}

fn addresses_of(list: &[Named]) -> (r: String)
    ensures
        r@ == text::join(listed_addresses(mail::named_views(list@)), ", "@),
{
    let ghost views = mail::named_views(list@);
    let mut out: Vec<String> = Vec::new();
    assert(text::texts(out@) =~= Seq::empty());
    let mut i: usize = 0;
    while i < list.len()
        invariant
            i <= list.len(),
            views == mail::named_views(list@),
            text::texts(out@) == listed_addresses(views.take(i as int)),
        decreases list.len() - i,
    {
        proof {
            assert(views.take(i + 1).drop_last() =~= views.take(i as int));
            assert(views.take(i + 1).last() == list@[i as int]@);
        }
        if let Some(a) = &list[i].address {
            let ghost before = out@;
            out.push(a.clone());
            assert(text::texts(out@) =~= text::texts(before).push(a@));
        }
        i = i + 1;
    }
    assert(views.take(i as int) =~= views);
    text::join_strings(&out, ", ")
}

fn text_of_header(header: &Stored) -> (r: String)
    ensures
        r@ == header_text(header@),
{
    match &header.text {
        Some(t) => t.clone(),
        None => match &header.mailboxes {
            Some(list) => addresses_of(list),
            None => String::new(),
        },
    }
}

fn push_recipients(out: &mut Vec<String>, header: &str)
    ensures
        text::texts(final(out)@) == text::texts(old(out)@) + nonempty_addresses(
            address::mailboxes(header@),
        ),
{
    let list = address::parse_list(header);
    let ghost views = address::mailbox_views(list@);
    let ghost start = text::texts(out@);
    let mut i: usize = 0;
    while i < list.len()
        invariant
            i <= list.len(),
            views == address::mailbox_views(list@),
            text::texts(out@) =~= start + nonempty_addresses(views.take(i as int)),
        decreases list.len() - i,
    {
        proof {
            assert(views.take(i + 1).drop_last() =~= views.take(i as int));
            assert(views.take(i + 1).last() == list@[i as int]@);
        }
        if !list[i].address.as_str().is_empty() {
            let ghost before = out@;
            out.push(list[i].address.clone());
            assert(text::texts(out@) =~= text::texts(before).push(list@[i as int].address@));
        }
        i = i + 1;
    }
    assert(views.take(i as int) =~= views);
}

/// The addresses that some recipient headers name.
pub fn recipients_of(headers: &[Stored]) -> (r: Vec<String>)
    ensures
        text::texts(r@) == recipients_in(mail::stored_views(headers@)),
{
    let ghost views = mail::stored_views(headers@);
    let mut out: Vec<String> = Vec::new();
    assert(text::texts(out@) =~= Seq::empty());
    let mut i: usize = 0;
    while i < headers.len()
        invariant
            i <= headers.len(),
            views == mail::stored_views(headers@),
            text::texts(out@) == recipients_in(views.take(i as int)),
        decreases headers.len() - i,
    {
        proof {
            assert(views.take(i + 1).drop_last() =~= views.take(i as int));
            assert(views.take(i + 1).last() == headers@[i as int]@);
        }
        push_recipients(&mut out, &text_of_header(&headers[i]));
        i = i + 1;
    }
    assert(views.take(i as int) =~= views);
    out
}

/// Read the To/Cc headers back out of a stored message, for retrying from the
/// Outbox. Bcc addresses are never written to the stored message, so a Bcc'd
/// recipient is lost if the original send failed and is retried later.
pub fn extract_recipients(raw: &[u8]) -> (r: Vec<String>)
    requires
        raw@.len() <= u32::MAX,
    ensures
        text::texts(r@) == stored_recipients(raw@),
{
    let mut out = recipients_of(&mail::header_values(raw, "To"));
    let more = recipients_of(&mail::header_values(raw, "Cc"));
    let ghost start = text::texts(out@);
    let mut i: usize = 0;
    while i < more.len()
        invariant
            i <= more.len(),
            text::texts(out@) =~= start + text::texts(more@).take(i as int),
        decreases more.len() - i,
    {
        let ghost before = out@;
        out.push(more[i].clone());
        assert(text::texts(out@) =~= text::texts(before).push(more@[i as int]@));
        i = i + 1;
    }
    assert(text::texts(more@).take(i as int) =~= text::texts(more@));
    out
}

// --- mailto links ---------------------------------------------------------

/// The composer fields a mailto: link asks for.
#[derive(Clone, Debug, PartialEq, Eq)]
pub struct MailtoDraft {
    pub to: String,
    pub cc: String,
    pub bcc: String,
    pub subject: String,
    pub body_html: String,
}

/// What a link asks for.
#[verifier::ext_equal]
pub struct DraftView {
    pub to: Seq<char>,
    pub cc: Seq<char>,
    pub bcc: Seq<char>,
    pub subject: Seq<char>,
    pub body_html: Seq<char>,
}

impl View for MailtoDraft {
    type V = DraftView;

    open spec fn view(&self) -> DraftView {
        DraftView {
            to: self.to@,
            cc: self.cc@,
            bcc: self.bcc@,
            subject: self.subject@,
            body_html: self.body_html@,
        }
    }
}

impl Default for MailtoDraft {
    fn default() -> (r: Self)
        ensures
            r@ == (DraftView {
                to: Seq::empty(),
                cc: Seq::empty(),
                bcc: Seq::empty(),
                subject: Seq::empty(),
                body_html: Seq::empty(),
            }),
    {
        MailtoDraft {
            to: String::new(),
            cc: String::new(),
            bcc: String::new(),
            subject: String::new(),
            body_html: String::new(),
        }
    }
}

/// What stands before the first `c` of a text: all of it where there is none.
pub open spec fn before_char(s: Seq<char>, c: char) -> Seq<char> {
    s.take(text::find(s, c))
}

/// What stands after the first `c` of a text: nothing where there is none.
pub open spec fn after_char(s: Seq<char>, c: char) -> Seq<char> {
    if text::find(s, c) < s.len() {
        s.skip(text::find(s, c) + 1)
    } else {
        Seq::empty()
    }
}

/// Whether a header of a name has been seen.
pub open spec fn has_key(headers: Seq<(Seq<char>, Seq<char>)>, key: Seq<char>) -> bool {
    exists|i: int| 0 <= i < headers.len() && (#[trigger] headers[i]).0 == key
}

/// The headers of a link: each name once, with its first value.
pub open spec fn link_headers(parts: Seq<Seq<char>>) -> Seq<(Seq<char>, Seq<char>)>
    decreases parts.len(),
{
    if parts.len() == 0 {
        Seq::empty()
    } else {
        let before = link_headers(parts.drop_last());
        let name = before_char(parts.last(), '=');
        let key = text::lowercase(codec::percent_decoded(name));
        if name.len() == 0 || has_key(before, key) {
            before
        } else {
            before.push((key, codec::percent_decoded(after_char(parts.last(), '='))))
        }
    }
}

/// The value of the first header of a name from `i` on, empty where there is none.
pub open spec fn header_value(
    headers: Seq<(Seq<char>, Seq<char>)>,
    name: Seq<char>,
    i: int,
) -> Seq<char>
    decreases headers.len() - i,
{
    if i < 0 || i >= headers.len() {
        Seq::empty()
    } else if headers[i].0 == name {
        headers[i].1
    } else {
        header_value(headers, name, i + 1)
    }
}

/// Two texts with a comma between them where neither is empty.
pub open spec fn both_recipients(a: Seq<char>, b: Seq<char>) -> Seq<char> {
    if a.len() > 0 && b.len() > 0 {
        a + ", "@ + b
    } else {
        a + b
    }
}

/// The fields that a mailto: URI asks for.
pub open spec fn mailto_draft(uri: Seq<char>) -> DraftView {
    let headers = link_headers(text::split(after_char(uri, '?'), '&'));
    let addressed = codec::percent_decoded(after_char(before_char(uri, '?'), ':'));
    let body = header_value(headers, "body"@, 0);
    DraftView {
        to: both_recipients(addressed, header_value(headers, "to"@, 0)),
        cc: header_value(headers, "cc"@, 0),
        bcc: header_value(headers, "bcc"@, 0),
        subject: header_value(headers, "subject"@, 0),
        body_html: if body.len() == 0 {
            Seq::empty()
        } else {
            html::as_html(body)
        },
    }
}

/// The texts of some pairs.
pub open spec fn pair_texts(pairs: Seq<(String, String)>) -> Seq<(Seq<char>, Seq<char>)> {
    Seq::new(pairs.len(), |i: int| (pairs[i].0@, pairs[i].1@))
}

fn before(s: &[char], c: char) -> (r: Vec<char>)
    ensures
        r@ == before_char(s@, c),
{
    let at: usize = text::find_char(s, c, 0);
    let out = text::slice_of(s, 0, at);
    assert(out@ =~= s@.take(at as int));
    out
}

fn after(s: &[char], c: char) -> (r: Vec<char>)
    ensures
        r@ == after_char(s@, c),
{
    let at: usize = text::find_char(s, c, 0);
    if at < s.len() {
        let out = text::slice_of(s, at + 1, s.len());
        assert(out@ =~= s@.skip(at + 1));
        out
    } else {
        Vec::new()
    }
}

fn value_of(headers: &[(String, String)], name: &str) -> (r: String)
    ensures
        r@ == header_value(pair_texts(headers@), name@, 0),
{
    let ghost views = pair_texts(headers@);
    let mut i: usize = 0;
    while i < headers.len()
        invariant
            i <= headers.len(),
            views == pair_texts(headers@),
            header_value(views, name@, 0) == header_value(views, name@, i as int),
        decreases headers.len() - i,
    {
        if text::same_str(&headers[i].0, name) {
            return headers[i].1.clone();
        }
        i = i + 1;
    }
    String::new()
}

fn seen(headers: &[(String, String)], key: &str) -> (r: bool)
    ensures
        r == has_key(pair_texts(headers@), key@),
{
    let ghost views = pair_texts(headers@);
    let mut i: usize = 0;
    while i < headers.len()
        invariant
            i <= headers.len(),
            views == pair_texts(headers@),
            forall|k: int| 0 <= k < i ==> (#[trigger] views[k]).0 != key@,
        decreases headers.len() - i,
    {
        assert(views[i as int].0 == headers@[i as int].0@);
        if text::same_str(&headers[i].0, key) {
            return true;
        }
        i = i + 1;
    }
    false
}

fn headers_in(query: &[char]) -> (r: Vec<(String, String)>)
    ensures
        pair_texts(r@) == link_headers(text::split(query@, '&')),
{
    let parts = text::split_at_char(query, '&');
    let ghost views = text::char_texts(parts@);
    let mut headers: Vec<(String, String)> = Vec::new();
    assert(pair_texts(headers@) =~= Seq::empty());
    let mut i: usize = 0;
    while i < parts.len()
        invariant
            i <= parts.len(),
            views == text::char_texts(parts@),
            pair_texts(headers@) == link_headers(views.take(i as int)),
        decreases parts.len() - i,
    {
        proof {
            assert(views.take(i + 1).drop_last() =~= views.take(i as int));
            assert(views.take(i + 1).last() == parts@[i as int]@);
        }
        let name = before(&parts[i], '=');
        if name.len() > 0 {
            let key = text::to_lowercase(&codec::percent_decoded_text(&text::text_of(&name)));
            if !seen(&headers, &key) {
                let value = codec::percent_decoded_text(&text::text_of(&after(&parts[i], '=')));
                let ghost prior = headers@;
                let ghost pair = (key@, value@);
                headers.push((key, value));
                assert(pair_texts(headers@) =~= pair_texts(prior).push(pair));
            }
        }
        i = i + 1;
    }
    assert(views.take(i as int) =~= views);
    headers
}

/// Split an RFC 6068 mailto: URI into composer fields. The body is escaped
/// into HTML here: it arrives from outside the app, and the composer renders
/// its body as HTML. "+" is kept as-is: RFC 6068 encodes spaces as %20 only,
/// and plus-addressed recipients must survive.
pub fn parse_mailto(uri: &str) -> (r: MailtoDraft)
    ensures
        r@ == mailto_draft(uri@),
{
    let chars = text::chars_of(uri);
    let headers = headers_in(&after(&chars, '?'));
    let path = before(&chars, '?');
    let addressed = codec::percent_decoded_text(&text::text_of(&after(&path, ':')));
    let to_header = value_of(&headers, "to");
    let mut to = text::chars_of(&addressed);
    if !addressed.as_str().is_empty() && !to_header.as_str().is_empty() {
        text::extend_str(&mut to, ", ");
    }
    text::extend_str(&mut to, &to_header);
    let body = value_of(&headers, "body");
    let body_html = if body.as_str().is_empty() {
        String::new()
    } else {
        html::to_html(&body)
    };
    let draft = MailtoDraft {
        to: text::text_of(&to),
        cc: value_of(&headers, "cc"),
        bcc: value_of(&headers, "bcc"),
        subject: value_of(&headers, "subject"),
        body_html,
    };
    assert(draft@ =~= mailto_draft(uri@));
    draft
}

// --- the address entry ----------------------------------------------------

/// What stands after the last comma of an entry, in lower case.
pub open spec fn being_typed(entry: Seq<char>) -> Seq<char> {
    text::lowercase(text::trim(entry.skip(text::rfind(entry, ',') + 1)))
}

/// The first of some addresses that hold what is being typed, whatever its case.
pub open spec fn suggestions(
    typed: Seq<char>,
    addresses: Seq<Seq<char>>,
    limit: nat,
) -> Seq<Seq<char>>
    decreases addresses.len(),
{
    if addresses.len() == 0 || typed.len() == 0 {
        Seq::empty()
    } else {
        let before = suggestions(typed, addresses.drop_last(), limit);
        if before.len() < limit && text::contains_text(text::lowercase(addresses.last()), typed) {
            before.push(addresses.last())
        } else {
            before
        }
    }
}

/// The texts behind some references.
pub open spec fn ref_texts(list: Seq<&String>) -> Seq<Seq<char>> {
    Seq::new(list.len(), |i: int| list[i]@)
}

/// Known addresses matching the one being typed after the last comma.
pub fn suggest_addresses<'a>(text: &str, addresses: &'a [String], limit: usize) -> (r: Vec<
    &'a String,
>)
    ensures
        ref_texts(r@) == suggestions(being_typed(text@), text::texts(addresses@), limit as nat),
        r@.len() <= limit,
{
    let chars = text::chars_of(text);
    let start: usize = match text::rfind_char(&chars, ',') {
        Some(at) => at + 1,
        None => 0,
    };
    let tail = text::slice_of(&chars, start, chars.len());
    assert(tail@ =~= chars@.skip(text::rfind(chars@, ',') + 1));
    let typed = text::to_lowercase(&text::text_of(&text::trimmed(&tail)));
    let mut out: Vec<&'a String> = Vec::new();
    let ghost views = text::texts(addresses@);
    assert(ref_texts(out@) =~= Seq::empty());
    if typed.as_str().is_empty() {
        return out;
    }
    let mut i: usize = 0;
    while i < addresses.len()
        invariant
            i <= addresses.len(),
            views == text::texts(addresses@),
            typed@ == being_typed(text@),
            typed@.len() > 0,
            out.len() <= limit,
            ref_texts(out@) == suggestions(typed@, views.take(i as int), limit as nat),
        decreases addresses.len() - i,
    {
        proof {
            assert(views.take(i + 1).drop_last() =~= views.take(i as int));
            assert(views.take(i + 1).last() == addresses@[i as int]@);
            assert(ref_texts(out@).len() == out.len());
        }
        if out.len() < limit && text::str_has(&text::to_lowercase(&addresses[i]), &typed) {
            let ghost prior = out@;
            out.push(&addresses[i]);
            assert(ref_texts(out@) =~= ref_texts(prior).push(addresses@[i as int]@));
        }
        i = i + 1;
    }
    assert(views.take(i as int) =~= views);
    out
}

/// An entry with the address being typed replaced by a picked one, ready for the next.
pub open spec fn picked(entry: Seq<char>, address: Seq<char>) -> Seq<char> {
    let comma = text::rfind(entry, ',');
    if comma >= 0 {
        entry.take(comma) + ", "@ + address + ", "@
    } else {
        address + ", "@
    }
}

/// Swap the address being typed for a picked one, ready for the next.
pub fn replace_last_address(text: &str, address: &str) -> (r: String)
    ensures
        r@ == picked(text@, address@),
{
    let chars = text::chars_of(text);
    let mut out: Vec<char> = match text::rfind_char(&chars, ',') {
        Some(at) => {
            let mut head = text::slice_of(&chars, 0, at);
            assert(head@ =~= text@.take(at as int));
            text::extend_str(&mut head, ", ");
            head
        },
        None => Vec::new(),
    };
    text::extend_str(&mut out, address);
    text::extend_str(&mut out, ", ");
    assert(out@ =~= picked(text@, address@));
    text::text_of(&out)
}

/// The pieces of some texts, trimmed, of those that are not blank.
pub open spec fn nonblank(pieces: Seq<Seq<char>>) -> Seq<Seq<char>>
    decreases pieces.len(),
{
    if pieces.len() == 0 {
        Seq::empty()
    } else {
        let before = nonblank(pieces.drop_last());
        let piece = text::trim(pieces.last());
        if piece.len() > 0 {
            before.push(piece)
        } else {
            before
        }
    }
}

/// Split a comma-separated entry into its non-empty pieces.
pub fn split_addresses(text: &str) -> (r: Vec<String>)
    ensures
        text::texts(r@) == nonblank(text::split(text@, ',')),
{
    let pieces = text::split_at_char(&text::chars_of(text), ',');
    let ghost views = text::char_texts(pieces@);
    let mut out: Vec<String> = Vec::new();
    assert(text::texts(out@) =~= Seq::empty());
    let mut i: usize = 0;
    while i < pieces.len()
        invariant
            i <= pieces.len(),
            views == text::char_texts(pieces@),
            text::texts(out@) == nonblank(views.take(i as int)),
        decreases pieces.len() - i,
    {
        proof {
            assert(views.take(i + 1).drop_last() =~= views.take(i as int));
            assert(views.take(i + 1).last() == pieces@[i as int]@);
        }
        let piece = text::trimmed(&pieces[i]);
        if piece.len() > 0 {
            let ghost prior = out@;
            out.push(text::text_of(&piece));
            assert(text::texts(out@) =~= text::texts(prior).push(piece@));
        }
        i = i + 1;
    }
    assert(views.take(i as int) =~= views);
    out
}

/// The first recipient of a header as a name to show and an address in lower case.
pub open spec fn first_recipient_of(header: Seq<char>) -> (Seq<char>, Seq<char>) {
    match address::first_mailbox(header) {
        Some(m) => {
            let addr = text::lowercase(text::trim(m.address));
            (
                if m.name.len() == 0 {
                    addr
                } else {
                    m.name
                },
                addr,
            )
        },
        None => (Seq::empty(), Seq::empty()),
    }
}

/// A To header as (display name, address), both empty if it names nobody.
pub fn first_recipient(to_header: &str) -> (r: (String, String))
    ensures
        (r.0@, r.1@) == first_recipient_of(to_header@),
{
    match address::parse_first(to_header) {
        Some(m) => {
            let addr = text::to_lowercase(&text::trim_str(&m.address));
            let name = if m.name.as_str().is_empty() {
                addr.clone()
            } else {
                m.name
            };
            (name, addr)
        },
        None => (String::new(), String::new()),
    }
}

// --- what the entry holds after a pick ------------------------------------

proof fn nonblank_concat(a: Seq<Seq<char>>, b: Seq<Seq<char>>)
    ensures
        nonblank(a + b) == nonblank(a) + nonblank(b),
    decreases b.len(),
{
    if b.len() == 0 {
        assert(a + b =~= a);
        assert(nonblank(b) =~= Seq::empty());
        assert(nonblank(a) + nonblank(b) =~= nonblank(a));
    } else {
        nonblank_concat(a, b.drop_last());
        assert((a + b).drop_last() =~= a + b.drop_last());
        assert((a + b).last() == b.last());
        let piece = text::trim(b.last());
        if piece.len() > 0 {
            assert(nonblank(a) + nonblank(b.drop_last()).push(piece) =~= (nonblank(a) + nonblank(
                b.drop_last(),
            )).push(piece));
        }
    }
}

proof fn split_at_comma(head: Seq<char>, tail: Seq<char>, start: int)
    requires
        0 <= start <= head.len(),
    ensures
        text::split_from(head + seq![','] + tail, ',', start) == text::split_from(
            head,
            ',',
            start,
        ) + text::split_from(tail, ',', 0),
    decreases head.len() - start,
{
    let whole = head + seq![','] + tail;
    let n = head.len() as int;
    text::find_at_is_first(whole, ',', start);
    text::find_at_is_first(head, ',', start);
    let end = text::find_at(whole, ',', start);
    let inner = text::find_at(head, ',', start);
    assert(whole[n] == ',');
    if inner < n {
        assert(end == inner) by {
            assert(whole[inner] == head[inner]);
            if end < inner {
                assert(whole[end] == head[end]);
            }
        }
        assert(whole.subrange(start, end) =~= head.subrange(start, inner));
        split_at_comma(head, tail, inner + 1);
        let rest = text::split_from(head, ',', inner + 1);
        let last = text::split_from(tail, ',', 0);
        let one = seq![head.subrange(start, inner)];
        assert(one + (rest + last) =~= (one + rest) + last);
    } else {
        assert(end == n) by {
            if end < n {
                assert(whole[end] == head[end]);
            }
        }
        assert(whole.subrange(start, n) =~= head.skip(start));
        split_shifts(head + seq![','], tail, 0);
        assert(whole =~= (head + seq![',']) + tail);
        assert(seq![head.skip(start)] + text::split_from(whole, ',', n + 1) =~= text::split_from(
            head,
            ',',
            start,
        ) + text::split_from(tail, ',', 0));
    }
}

proof fn split_shifts(p: Seq<char>, s: Seq<char>, start: int)
    requires
        0 <= start <= s.len(),
    ensures
        text::split_from(p + s, ',', p.len() + start) == text::split_from(s, ',', start),
    decreases s.len() - start,
{
    text::find_at_shifts(p, s, ',', start);
    text::find_at_is_first(s, ',', start);
    let end = text::find_at(s, ',', start);
    if end < s.len() {
        assert((p + s).subrange(p.len() + start, p.len() + end) =~= s.subrange(start, end));
        split_shifts(p, s, end + 1);
        assert(p.len() + (end + 1) == p.len() + end + 1);
    } else {
        assert((p + s).skip(p.len() + start) =~= s.skip(start));
    }
}

proof fn split_of_one(s: Seq<char>)
    requires
        !s.contains(','),
    ensures
        text::split(s, ',') == seq![s],
{
    text::find_at_is_first(s, ',', 0);
    let end = text::find_at(s, ',', 0);
    if end < s.len() {
        assert(s.contains(s[end]));
    }
    assert(s.skip(0) =~= s);
}

/// Picking an address leaves the ones before it as they were, and puts the picked one after
/// them: the entry then splits into those and the picked one.
pub proof fn picking_keeps_the_rest(entry: Seq<char>, address: Seq<char>)
    requires
        address.len() > 0,
        text::trim(address) == address,
        !address.contains(','),
    ensures
        nonblank(text::split(picked(entry, address), ',')) == (if text::rfind(entry, ',') >= 0 {
            nonblank(text::split(entry.take(text::rfind(entry, ',')), ',')).push(address)
        } else {
            seq![address]
        }),
{
    reveal_strlit(", ");
    let comma = text::rfind(entry, ',');
    let sep = ", "@;
    assert(sep =~= seq![',', ' ']);
    let space = seq![' '];
    let blank = seq![space];
    assert(text::trim(space).len() == 0) by {
        assert(text::lead_end(space, 0) == text::lead_end(space, 1));
        assert(text::lead_end(space, 1) == 1);
    }
    assert(!space.contains(','));
    split_of_one(space);
    assert(blank.drop_last() =~= Seq::empty());
    assert(blank.last() == space);
    assert(nonblank(blank.drop_last()) =~= Seq::empty());
    assert(nonblank(blank) =~= Seq::empty());
    // The picked address, with what follows it.
    let spaced = space + address;
    assert(text::trim(spaced) == address) by {
        text::trim_is_stable(address);
        assert(spaced[0] == ' ');
        assert(spaced[1] == address[0]);
        assert(text::lead_end(spaced, 0) == text::lead_end(spaced, 1));
        assert(text::lead_end(spaced, 1) == 1);
        assert(spaced.last() == address.last());
        assert(text::tail_start(spaced, 1, spaced.len() as int) == spaced.len());
        assert(spaced.subrange(1, spaced.len() as int) =~= address);
    }
    if comma >= 0 {
        text::rfind_at_is_last(entry, ',', entry.len() as int);
        let head = entry.take(comma);
        let rest = spaced + sep;
        assert(picked(entry, address) =~= head + seq![','] + rest);
        split_at_comma(head, rest, 0);
        assert(rest =~= spaced + seq![','] + space);
        split_at_comma(spaced, space, 0);
        assert(!spaced.contains(',')) by {
            if spaced.contains(',') {
                let k = choose|k: int| 0 <= k < spaced.len() && spaced[k] == ',';
                if k > 0 {
                    assert(address[k - 1] == ',');
                }
            }
        }
        split_of_one(spaced);
        nonblank_concat(text::split(head, ','), text::split(rest, ','));
        nonblank_concat(seq![spaced], blank);
        assert(seq![spaced].drop_last() =~= Seq::empty());
        assert(nonblank(seq![spaced]) =~= seq![address]);
        assert(nonblank(text::split(rest, ',')) =~= seq![address]);
        assert(nonblank(text::split(head, ',')) + seq![address] =~= nonblank(
            text::split(head, ','),
        ).push(address));
    } else {
        assert(picked(entry, address) =~= address + seq![','] + space);
        split_at_comma(address, space, 0);
        split_of_one(address);
        nonblank_concat(seq![address], blank);
        assert(seq![address].drop_last() =~= Seq::empty());
        assert(nonblank(seq![address]) =~= seq![address]);
    }
}

/// Every piece of an entry is read: two entries with a comma between them hold what the one and the
/// other hold, and a piece without a comma is held without the white space around it.
pub proof fn entries_add_up(a: Seq<char>, b: Seq<char>, piece: Seq<char>)
    requires
        !piece.contains(','),
    ensures
        nonblank(text::split(a + seq![','] + b, ',')) == nonblank(text::split(a, ',')) + nonblank(
            text::split(b, ','),
        ),
        nonblank(text::split(piece, ',')) == (if text::trim(piece).len() > 0 {
            seq![text::trim(piece)]
        } else {
            Seq::empty()
        }),
{
    split_at_comma(a, b, 0);
    nonblank_concat(text::split(a, ','), text::split(b, ','));
    split_of_one(piece);
    let one = seq![piece];
    assert(one.drop_last() =~= Seq::empty());
    assert(nonblank(one.drop_last()) =~= Seq::empty());
    assert(one.last() == piece);
    assert(nonblank(one) =~= if text::trim(piece).len() > 0 {
        seq![text::trim(piece)]
    } else {
        Seq::empty()
    });
}

/// Whether an address is among those that what is typed may be the start of.
pub open spec fn is_match(typed: Seq<char>, address: Seq<char>) -> bool {
    text::contains_text(text::lowercase(address), typed)
}

/// The suggestions are the first known addresses that hold what is typed, none of them left out
/// until the limit is reached. Where nothing is typed there are none.
pub proof fn suggestions_are_the_first_matches(
    typed: Seq<char>,
    addresses: Seq<Seq<char>>,
    limit: nat,
)
    ensures
        typed.len() == 0 ==> suggestions(typed, addresses, limit).len() == 0,
        typed.len() > 0 && addresses.filter(|a: Seq<char>| is_match(typed, a)).len() <= limit
            ==> suggestions(typed, addresses, limit) == addresses.filter(
            |a: Seq<char>| is_match(typed, a),
        ),
        typed.len() > 0 && addresses.filter(|a: Seq<char>| is_match(typed, a)).len() > limit
            ==> suggestions(typed, addresses, limit) == addresses.filter(
            |a: Seq<char>| is_match(typed, a),
        ).take(limit as int),
    decreases addresses.len(),
{
    reveal(Seq::filter);
    let pred = |a: Seq<char>| is_match(typed, a);
    if addresses.len() > 0 && typed.len() > 0 {
        let short = addresses.drop_last();
        suggestions_are_the_first_matches(typed, short, limit);
        let before = short.filter(pred);
        let all = addresses.filter(pred);
        if all.len() > limit {
            if before.len() > limit {
                assert(all.take(limit as int) =~= before.take(limit as int));
            } else {
                assert(before.len() == limit);
                assert(all.take(limit as int) =~= before);
            }
        }
    }
}

/// What is typed is what stands behind the last comma, in lower case and without the white space
/// around it.
pub proof fn the_last_piece_is_being_typed(before: Seq<char>, typed: Seq<char>)
    requires
        !typed.contains(','),
    ensures
        being_typed(before + seq![','] + typed) == text::lowercase(text::trim(typed)),
        being_typed(typed) == text::lowercase(text::trim(typed)),
{
    let w = before + seq![','] + typed;
    let n = before.len() as int;
    text::rfind_at_is_last(w, ',', w.len() as int);
    text::rfind_at_is_last(typed, ',', typed.len() as int);
    assert(w[n] == ',');
    assert forall|j: int| n < j < w.len() implies w[j] != ',' by {
        assert(w[j] == typed[j - n - 1]);
        assert(typed.contains(typed[j - n - 1]));
    }
    assert(text::rfind(w, ',') == n);
    assert(w.skip(n + 1) =~= typed);
    assert(text::rfind(typed, ',') == -1) by {
        let k = text::rfind(typed, ',');
        if k >= 0 {
            assert(typed.contains(typed[k]));
        }
    }
    assert(typed.skip(0) =~= typed);
}

proof fn nonempty_addresses_hold_each(list: Seq<address::MailboxView>, k: int)
    requires
        0 <= k < list.len(),
        list[k].address.len() > 0,
    ensures
        nonempty_addresses(list).contains(list[k].address),
    decreases list.len(),
{
    let short = list.drop_last();
    let before = nonempty_addresses(short);
    let all = nonempty_addresses(list);
    if k < short.len() {
        assert(short[k] == list[k]);
        nonempty_addresses_hold_each(short, k);
        let i = choose|i: int| 0 <= i < before.len() && before[i] == list[k].address;
        assert(all[i] == list[k].address);
    } else {
        assert(all[before.len() as int] == list[k].address);
    }
}

proof fn recipients_hold_each(headers: Seq<mail::StoredView>, i: int, a: Seq<char>)
    requires
        0 <= i < headers.len(),
        nonempty_addresses(address::mailboxes(header_text(headers[i]))).contains(a),
    ensures
        recipients_in(headers).contains(a),
    decreases headers.len(),
{
    let short = headers.drop_last();
    let before = recipients_in(short);
    let last = nonempty_addresses(address::mailboxes(header_text(headers.last())));
    let all = recipients_in(headers);
    if i < short.len() {
        assert(short[i] == headers[i]);
        recipients_hold_each(short, i, a);
        let k = choose|k: int| 0 <= k < before.len() && before[k] == a;
        assert(all[k] == a);
    } else {
        let k = choose|k: int| 0 <= k < last.len() && last[k] == a;
        assert(all[before.len() + k] == a);
    }
}

/// Everybody whom a stored message names in a To or a Cc, in whichever of several such headers, is
/// among its recipients.
pub proof fn every_stored_recipient_is_found(raw: Seq<u8>, i: int, k: int)
    ensures
        ({
            let to = mail::block_headers(raw, "To"@);
            0 <= i < to.len() && 0 <= k < address::mailboxes(header_text(to[i])).len()
                && address::mailboxes(header_text(to[i]))[k].address.len() > 0 ==> stored_recipients(
                raw,
            ).contains(address::mailboxes(header_text(to[i]))[k].address)
        }),
        ({
            let cc = mail::block_headers(raw, "Cc"@);
            0 <= i < cc.len() && 0 <= k < address::mailboxes(header_text(cc[i])).len()
                && address::mailboxes(header_text(cc[i]))[k].address.len() > 0 ==> stored_recipients(
                raw,
            ).contains(address::mailboxes(header_text(cc[i]))[k].address)
        }),
{
    let to = mail::block_headers(raw, "To"@);
    let cc = mail::block_headers(raw, "Cc"@);
    let x = recipients_in(to);
    let y = recipients_in(cc);
    let all = stored_recipients(raw);
    if 0 <= i < to.len() {
        let list = address::mailboxes(header_text(to[i]));
        if 0 <= k < list.len() && list[k].address.len() > 0 {
            nonempty_addresses_hold_each(list, k);
            recipients_hold_each(to, i, list[k].address);
            let n = choose|n: int| 0 <= n < x.len() && x[n] == list[k].address;
            assert(all[n] == list[k].address);
        }
    }
    if 0 <= i < cc.len() {
        let list = address::mailboxes(header_text(cc[i]));
        if 0 <= k < list.len() && list[k].address.len() > 0 {
            nonempty_addresses_hold_each(list, k);
            recipients_hold_each(cc, i, list[k].address);
            let n = choose|n: int| 0 <= n < y.len() && y[n] == list[k].address;
            assert(all[x.len() + n] == list[k].address);
        }
    }
}

/// The name of a header in a part of a link, in lower case.
pub open spec fn link_key(part: Seq<char>) -> Seq<char> {
    text::lowercase(codec::percent_decoded(before_char(part, '=')))
}

/// Whether the part at a place is the first of a link that has a name and whose name is this.
pub open spec fn is_first_of(parts: Seq<Seq<char>>, key: Seq<char>, i: int) -> bool {
    &&& 0 <= i < parts.len()
    &&& before_char(parts[i], '=').len() > 0
    &&& link_key(parts[i]) == key
    &&& forall|j: int|
        0 <= j < i ==> before_char(#[trigger] parts[j], '=').len() == 0 || link_key(parts[j]) != key
}

/// A header of a link has the value that its first part gives it, and one that no part names is
/// empty.
pub proof fn first_values_count(parts: Seq<Seq<char>>, key: Seq<char>)
    ensures
        forall|i: int| #[trigger]
            is_first_of(parts, key, i) ==> header_value(link_headers(parts), key, 0)
                == codec::percent_decoded(after_char(parts[i], '=')) && has_key(
                link_headers(parts),
                key,
            ),
        (forall|i: int|
            0 <= i < parts.len() ==> before_char(#[trigger] parts[i], '=').len() == 0 || link_key(
                parts[i],
            ) != key) ==> header_value(link_headers(parts), key, 0).len() == 0 && !has_key(
            link_headers(parts),
            key,
        ),
    decreases parts.len(),
{
    if parts.len() > 0 {
        let short = parts.drop_last();
        first_values_count(short, key);
        let before = link_headers(short);
        let all = link_headers(parts);
        let n = short.len() as int;
        let pushed = (link_key(parts[n]), codec::percent_decoded(after_char(parts[n], '=')));
        assert(parts.last() == parts[n]);
        if all.len() > before.len() {
            assert(all == before.push(pushed));
            value_after_push(before, pushed, key, 0);
        }
        assert forall|i: int| #[trigger] is_first_of(parts, key, i) implies header_value(all, key, 0)
            == codec::percent_decoded(after_char(parts[i], '=')) && has_key(all, key) by {
            if i < n {
                assert(is_first_of(short, key, i)) by {
                    assert(short[i] == parts[i]);
                    assert forall|j: int| 0 <= j < i implies before_char(
                        #[trigger] short[j],
                        '=',
                    ).len() == 0 || link_key(short[j]) != key by {
                        assert(short[j] == parts[j]);
                    }
                }
                let k = choose|k: int| 0 <= k < before.len() && (#[trigger] before[k]).0 == key;
                assert(all[k].0 == key);
            } else {
                assert forall|j: int| 0 <= j < short.len() implies before_char(
                    #[trigger] short[j],
                    '=',
                ).len() == 0 || link_key(short[j]) != key by {
                    assert(short[j] == parts[j]);
                }
                assert(!has_key(before, key));
                assert(all == before.push(pushed));
                assert(all[before.len() as int].0 == key);
            }
        }
        if forall|i: int|
            0 <= i < parts.len() ==> before_char(#[trigger] parts[i], '=').len() == 0 || link_key(
                parts[i],
            ) != key {
            assert forall|j: int| 0 <= j < short.len() implies before_char(
                #[trigger] short[j],
                '=',
            ).len() == 0 || link_key(short[j]) != key by {
                assert(short[j] == parts[j]);
            }
            assert(before_char(parts[n], '=').len() == 0 || link_key(parts[n]) != key);
            assert(!has_key(all, key)) by {
                if has_key(all, key) {
                    let k = choose|k: int| 0 <= k < all.len() && (#[trigger] all[k]).0 == key;
                    if k < before.len() {
                        assert(before[k].0 == key);
                    }
                }
            }
        }
    }
}

proof fn value_after_push(
    headers: Seq<(Seq<char>, Seq<char>)>,
    pushed: (Seq<char>, Seq<char>),
    key: Seq<char>,
    i: int,
)
    requires
        0 <= i <= headers.len(),
    ensures
        (exists|k: int| i <= k < headers.len() && (#[trigger] headers[k]).0 == key) ==> header_value(
            headers.push(pushed),
            key,
            i,
        ) == header_value(headers, key, i),
        !(exists|k: int| i <= k < headers.len() && (#[trigger] headers[k]).0 == key)
            ==> header_value(headers.push(pushed), key, i) == (if pushed.0 == key {
            pushed.1
        } else {
            Seq::empty()
        }),
    decreases headers.len() - i,
{
    let all = headers.push(pushed);
    if i < headers.len() {
        assert(all[i] == headers[i]);
        value_after_push(headers, pushed, key, i + 1);
    } else {
        assert(all[i] == pushed);
        assert(header_value(all, key, i + 1) =~= Seq::empty());
    }
}

/// A link fills each field with what its first part of that name says, decoded; whoever the link
/// itself is addressed to comes before those that a part adds.
pub proof fn links_fill_their_fields(uri: Seq<char>, i: int)
    ensures
        ({
            let parts = text::split(after_char(uri, '?'), '&');
            let value = codec::percent_decoded(after_char(parts[i], '='));
            let addressed = codec::percent_decoded(after_char(before_char(uri, '?'), ':'));
            &&& is_first_of(parts, "cc"@, i) ==> mailto_draft(uri).cc == value
            &&& is_first_of(parts, "bcc"@, i) ==> mailto_draft(uri).bcc == value
            &&& is_first_of(parts, "subject"@, i) ==> mailto_draft(uri).subject == value
            &&& is_first_of(parts, "body"@, i) && value.len() > 0 ==> mailto_draft(uri).body_html
                == html::as_html(value)
            &&& is_first_of(parts, "to"@, i) && value.len() > 0 && addressed.len() > 0
                ==> mailto_draft(uri).to == addressed + ", "@ + value
            &&& is_first_of(parts, "to"@, i) && addressed.len() == 0 ==> mailto_draft(uri).to
                == value
            &&& (forall|j: int|
                0 <= j < parts.len() ==> before_char(#[trigger] parts[j], '=').len() == 0
                    || link_key(parts[j]) != "to"@) ==> mailto_draft(uri).to == addressed
        }),
{
    let parts = text::split(after_char(uri, '?'), '&');
    first_values_count(parts, "cc"@);
    first_values_count(parts, "bcc"@);
    first_values_count(parts, "subject"@);
    first_values_count(parts, "body"@);
    first_values_count(parts, "to"@);
    let value = codec::percent_decoded(after_char(parts[i], '='));
    let addressed = codec::percent_decoded(after_char(before_char(uri, '?'), ':'));
    let named = header_value(link_headers(parts), "to"@, 0);
    if addressed.len() == 0 {
        assert(addressed + named =~= named);
    }
    if named.len() == 0 {
        assert(addressed + named =~= addressed);
    }
}

/// Nothing is left out of a message: its text, its markup and every file, each under its own name
/// and with every byte of it, and everybody it goes to, in the order they were given.
pub proof fn messages_hold_everything(
    from: Seq<char>,
    to: Seq<Seq<char>>,
    cc: Seq<Seq<char>>,
    subject: Seq<char>,
    plain: Seq<char>,
    markup: Seq<char>,
    files: Seq<mime::AttachmentView>,
)
    requires
        all_reachable(to),
        all_reachable(cc),
        wire_mailbox(from) is Some,
    ensures
        ({
            let parts = parts_of(plain, markup, sendable_files(files));
            let both = seq![WirePart::Plain(plain), WirePart::Markup(markup)];
            &&& files.len() == 0 ==> parts == both
            &&& files.len() > 0 ==> parts.len() == files.len() + 1 && parts[0] == WirePart::Nested(
                both,
            )
            &&& forall|i: int|
                0 <= i < files.len() ==> {
                    &&& (#[trigger] parts[i + 1]) is File
                    &&& parts[i + 1]->File_0.filename == files[i].filename
                    &&& parts[i + 1]->File_0.content == files[i].content
                    &&& is_content_type(files[i].mime_type) ==> parts[i + 1]->File_0.mime_type
                        == files[i].mime_type
                }
        }),
        ({
            let head = head_of(from, to, cc, subject);
            &&& head.subject == subject
            &&& Some(head.from.address) == Some(address::mailboxes(from)[0].address)
            &&& head.to.len() == to.len()
            &&& head.cc.len() == cc.len()
            &&& forall|i: int|
                0 <= i < to.len() ==> (#[trigger] head.to[i]).address == address::mailboxes(
                    to[i],
                )[0].address
            &&& forall|i: int|
                0 <= i < cc.len() ==> (#[trigger] head.cc[i]).address == address::mailboxes(
                    cc[i],
                )[0].address
        }),
{
    let head = head_of(from, to, cc, subject);
    assert forall|i: int| 0 <= i < to.len() implies (#[trigger] head.to[i]).address
        == address::mailboxes(to[i])[0].address by {
        assert(wire_mailbox(to[i]) is Some);
    }
    assert forall|i: int| 0 <= i < cc.len() implies (#[trigger] head.cc[i]).address
        == address::mailboxes(cc[i])[0].address by {
        assert(wire_mailbox(cc[i]) is Some);
    }
    let parts = parts_of(plain, markup, sendable_files(files));
    assert forall|i: int| 0 <= i < files.len() implies (#[trigger] parts[i + 1]) == WirePart::File(
        sendable(files[i]),
    ) by {
        assert(file_parts(sendable_files(files))[i] == WirePart::File(sendable(files[i])));
    }
}

/// The recipient that a refusal names is the first that mail cannot go to.
pub proof fn the_first_unreachable_is_named(texts: Seq<Seq<char>>, i: int, k: int)
    requires
        0 <= i <= k < texts.len(),
        wire_mailbox(texts[k]) is None,
        forall|m: int| i <= m < k ==> wire_mailbox(#[trigger] texts[m]) is Some,
    ensures
        first_unreachable(texts, i) == texts[k],
    decreases k - i,
{
    if i < k {
        assert(wire_mailbox(texts[i]) is Some);
        the_first_unreachable_is_named(texts, i + 1, k);
    }
}

/// The addresses in two lists add up, and a mailbox with an address is listed by it.
pub proof fn listed_addresses_add_up(a: Seq<mail::NamedView>, b: Seq<mail::NamedView>)
    ensures
        listed_addresses(a + b) == listed_addresses(a) + listed_addresses(b),
        a.len() == 1 ==> listed_addresses(a) == (match a[0].address {
            Some(address) => seq![address],
            None => Seq::empty(),
        }),
    decreases b.len(),
{
    if a.len() == 1 {
        assert(a.drop_last().len() == 0);
        assert(listed_addresses(a.drop_last()) =~= Seq::empty());
        if a[0].address is Some {
            assert(Seq::<Seq<char>>::empty().push(a[0].address.unwrap()) =~= seq![
                a[0].address.unwrap(),
            ]);
        }
    }
    if b.len() == 0 {
        assert(a + b =~= a);
        assert(listed_addresses(a) + listed_addresses(b) =~= listed_addresses(a));
    } else {
        listed_addresses_add_up(a, b.drop_last());
        assert((a + b).drop_last() =~= a + b.drop_last());
        assert(listed_addresses(a + b) =~= listed_addresses(a) + listed_addresses(b));
    }
}

/// A message that was built holds its markup as it was written, the text that it reads as, and every
/// file, and goes out under the headers of its sender, its recipients and its subject.
pub proof fn built_messages_hold_everything(
    r: Result<Vec<u8>, ComposeError>,
    from: Seq<char>,
    to: Seq<Seq<char>>,
    cc: Seq<Seq<char>>,
    subject: Seq<char>,
    body_html: Seq<char>,
    files: Seq<mime::AttachmentView>,
)
    requires
        is_built(r, from, to, cc, subject, body_html, files),
        r is Ok,
    ensures
        exists|head: HeadView, parts: Seq<WirePart>|
            {
                let both = seq![
                    WirePart::Plain(html::as_text(body_html)),
                    WirePart::Markup(body_html),
                ];
                &&& #[trigger] may_render(head, parts, r->Ok_0@)
                &&& head.subject == subject
                &&& head.to.len() == to.len()
                &&& head.cc.len() == cc.len()
                &&& files.len() == 0 ==> parts == both
                &&& files.len() > 0 ==> parts.len() == files.len() + 1 && parts[0]
                    == WirePart::Nested(both)
                &&& forall|i: int|
                    0 <= i < files.len() ==> (#[trigger] parts[i + 1]) is File && parts[i
                        + 1]->File_0.content == files[i].content && parts[i + 1]->File_0.filename
                        == files[i].filename
            },
        to.len() + cc.len() > 0,
{
    messages_hold_everything(
        from,
        to,
        cc,
        subject,
        html::as_text(body_html),
        body_html,
        files,
    );
    let head = head_of(from, to, cc, subject);
    let parts = parts_of(html::as_text(body_html), body_html, sendable_files(files));
    assert(may_render(head, parts, r->Ok_0@));
}

/// The recipient that a row names is the first of a list, by name, or by address where there is no
/// name.
pub proof fn the_first_recipient_is_named(list: Seq<address::MailboxView>)
    requires
        list.len() > 0,
        forall|i: int|
            0 <= i < list.len() ==> {
                &&& (#[trigger] list[i]).name.len() == 0 || address::is_plain(list[i].name)
                &&& address::is_plain(list[i].address)
                &&& list[i].name.len() == 0 ==> list[i].address.contains('@')
                &&& address::is_unquoted(list[i].name)
                &&& address::is_unquoted(list[i].address)
            },
    ensures
        ({
            let shown = first_recipient_of(text::join(address::displayed_list(list), ", "@));
            &&& shown.1 == text::lowercase(text::trim(list[0].address))
            &&& shown.0 == (if list[0].name.len() > 0 {
                list[0].name
            } else {
                shown.1
            })
        }),
{
    address::displayed_lists_read_back(list);
}

/// A subject stands whole at the end of the subject of its reply and of what passes it on, and one
/// that is not marked yet has the mark before it.
pub proof fn subjects_are_kept_whole(subject: Seq<char>)
    ensures
        subject.is_suffix_of(replied(subject)),
        subject.is_suffix_of(forwarded(subject)),
        text::starts_with_ignoring_case(subject, "re:"@) ==> replied(subject) == subject,
        !text::starts_with_ignoring_case(subject, "re:"@) ==> replied(subject).len()
            == subject.len() + 4 && replied(subject).take(4) == "Re: "@,
        !text::starts_with_ignoring_case(subject, "fwd:"@) && !text::starts_with_ignoring_case(
            subject,
            "fw:"@,
        ) ==> forwarded(subject).len() == subject.len() + 5 && forwarded(subject).take(5)
            == "Fwd: "@,
{
    reveal_strlit("Re: ");
    reveal_strlit("Fwd: ");
    let r = replied(subject);
    let f = forwarded(subject);
    assert(r.subrange(r.len() - subject.len(), r.len() as int) =~= subject);
    assert(f.subrange(f.len() - subject.len(), f.len() as int) =~= subject);
    assert(("Re: "@ + subject).take(4) =~= "Re: "@);
    assert(("Fwd: "@ + subject).take(5) =~= "Fwd: "@);
}

} // verus!
