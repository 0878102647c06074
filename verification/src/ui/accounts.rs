//! The dialogs for accounts: adding one by hand with its servers filled in,
//! importing one, and what the list of them says.

use vstd::prelude::*;
use crate::goa::OnlineAccount;
use crate::html;
use crate::mail;
use crate::models;
use crate::models::{Account, NewAccount, Security};
use crate::providers;
use crate::text;
use crate::ui::i18n;
use crate::ui::i18n::Sentence;

verus! {

// --- adding by hand -------------------------------------------------------

/// The server fields of the form for an account.
#[derive(Debug, PartialEq, Eq)]
pub struct ServerFields {
    pub imap_host: String,
    pub imap_port: String,
    pub smtp_host: String,
    pub smtp_port: String,
    pub imap_security: u32,
    pub smtp_security: u32,
}

/// What the server fields hold.
#[verifier::ext_equal]
pub struct ServerView {
    pub imap_host: Seq<char>,
    pub imap_port: Seq<char>,
    pub smtp_host: Seq<char>,
    pub smtp_port: Seq<char>,
    pub imap_security: u32,
    pub smtp_security: u32,
}

impl View for ServerFields {
    type V = ServerView;

    open spec fn view(&self) -> ServerView {
        ServerView {
            imap_host: self.imap_host@,
            imap_port: self.imap_port@,
            smtp_host: self.smtp_host@,
            smtp_port: self.smtp_port@,
            imap_security: self.imap_security,
            smtp_security: self.smtp_security,
        }
    }
}

/// The fields as a provider's settings fill them in.
pub open spec fn filled_by(s: providers::SettingsView) -> ServerView {
    ServerView {
        imap_host: s.imap_host,
        imap_port: text::decimal(s.imap_port as nat),
        smtp_host: s.smtp_host,
        smtp_port: text::decimal(s.smtp_port as nat),
        imap_security: s.imap_security.place() as u32,
        smtp_security: s.smtp_security.place() as u32,
    }
}

/// A text field after an autofill: the new value where the field still holds what was filled in
/// before, else what the user typed.
pub open spec fn refilled(shown: Seq<char>, own: Seq<char>, value: Seq<char>) -> Seq<char> {
    if shown == own {
        value
    } else {
        shown
    }
}

/// The fields after an autofill, and what was filled in.
pub open spec fn autofilled(shown: ServerView, own: ServerView, new: ServerView) -> (
    ServerView,
    ServerView,
) {
    (
        ServerView {
            imap_host: refilled(shown.imap_host, own.imap_host, new.imap_host),
            imap_port: refilled(shown.imap_port, own.imap_port, new.imap_port),
            smtp_host: refilled(shown.smtp_host, own.smtp_host, new.smtp_host),
            smtp_port: refilled(shown.smtp_port, own.smtp_port, new.smtp_port),
            imap_security: if shown.imap_security == own.imap_security {
                new.imap_security
            } else {
                shown.imap_security
            },
            smtp_security: if shown.smtp_security == own.smtp_security {
                new.smtp_security
            } else {
                shown.smtp_security
            },
        },
        ServerView {
            imap_host: if shown.imap_host == own.imap_host {
                new.imap_host
            } else {
                own.imap_host
            },
            imap_port: if shown.imap_port == own.imap_port {
                new.imap_port
            } else {
                own.imap_port
            },
            smtp_host: if shown.smtp_host == own.smtp_host {
                new.smtp_host
            } else {
                own.smtp_host
            },
            smtp_port: if shown.smtp_port == own.smtp_port {
                new.smtp_port
            } else {
                own.smtp_port
            },
            imap_security: if shown.imap_security == own.imap_security {
                new.imap_security
            } else {
                own.imap_security
            },
            smtp_security: if shown.smtp_security == own.smtp_security {
                new.smtp_security
            } else {
                own.smtp_security
            },
        },
    )
}

/// An autofill never touches what the user typed: a field that differs from what was filled in stays
/// as it is.
pub proof fn typing_is_kept(shown: ServerView, own: ServerView, new: ServerView)
    ensures
        shown.imap_host != own.imap_host ==> autofilled(shown, own, new).0.imap_host
            == shown.imap_host,
        shown.imap_port != own.imap_port ==> autofilled(shown, own, new).0.imap_port
            == shown.imap_port,
        shown.smtp_host != own.smtp_host ==> autofilled(shown, own, new).0.smtp_host
            == shown.smtp_host,
        shown.smtp_port != own.smtp_port ==> autofilled(shown, own, new).0.smtp_port
            == shown.smtp_port,
        shown.imap_security != own.imap_security ==> autofilled(shown, own, new).0.imap_security
            == shown.imap_security,
        shown.smtp_security != own.smtp_security ==> autofilled(shown, own, new).0.smtp_security
            == shown.smtp_security,
{
}

/// Fields that nobody touched are all filled in, and count as filled in.
pub proof fn untouched_fields_follow(own: ServerView, new: ServerView)
    ensures
        autofilled(own, own, new) == (new, new),
{
}

fn refill(shown: &mut String, own: &mut String, value: &str)
    ensures
        final(shown)@ == refilled(old(shown)@, old(own)@, value@),
        final(own)@ == (if old(shown)@ == old(own)@ {
            value@
        } else {
            old(own)@
        }),
{
    if text::same_str(shown, own) {
        *shown = value.to_owned();
        *own = value.to_owned();
    }
}

fn refill_choice(shown: &mut u32, own: &mut u32, value: u32)
    ensures
        *final(shown) == (if *old(shown) == *old(own) {
            value
        } else {
            *old(shown)
        }),
        *final(own) == (if *old(shown) == *old(own) {
            value
        } else {
            *old(own)
        }),
{
    if *shown == *own {
        *shown = value;
        *own = value;
    }
}

/// Fills the server fields in from the address, for the providers we know: each field only where it
/// still holds what was filled in before.
pub fn autofill_servers(email: &str, shown: &mut ServerFields, own: &mut ServerFields)
    ensures
        match providers::settings_of(email@) {
            Some(s) => (final(shown)@, final(own)@) == autofilled(
                old(shown)@,
                old(own)@,
                filled_by(s),
            ),
            None => *final(shown) == *old(shown) && *final(own) == *old(own),
        },
{
    let settings = match providers::settings_for_email(email) {
        Some(s) => s,
        None => {
            return;
        },
    };
    let imap_port = text::decimal_string(settings.imap_port as u64);
    let smtp_port = text::decimal_string(settings.smtp_port as u64);
    let imap_security: u32 = settings.imap_security.index();
    let smtp_security: u32 = settings.smtp_security.index();
    refill(&mut shown.imap_host, &mut own.imap_host, settings.imap_host);
    refill(&mut shown.imap_port, &mut own.imap_port, &imap_port);
    refill(&mut shown.smtp_host, &mut own.smtp_host, settings.smtp_host);
    refill(&mut shown.smtp_port, &mut own.smtp_port, &smtp_port);
    refill_choice(&mut shown.imap_security, &mut own.imap_security, imap_security);
    refill_choice(&mut shown.smtp_security, &mut own.smtp_security, smtp_security);
}

/// The form for an account.
#[derive(Debug, PartialEq, Eq)]
pub struct AccountForm {
    pub display_name: String,
    pub email: String,
    pub password: String,
    pub servers: ServerFields,
}

/// Whether a text holds more than white space.
pub open spec fn is_filled(s: Seq<char>) -> bool {
    text::trim(s).len() > 0
}

/// Whether a form may be added: the ports are valid, and nothing that is needed is missing.
pub open spec fn is_complete(form: AccountForm) -> bool {
    &&& models::port_in(form.servers.imap_port@) is Some
    &&& models::port_in(form.servers.smtp_port@) is Some
    &&& is_filled(form.display_name@)
    &&& is_filled(form.email@)
    &&& is_filled(form.password@)
    &&& is_filled(form.servers.imap_host@)
    &&& is_filled(form.servers.smtp_host@)
}

fn filled(s: &str) -> (r: bool)
    ensures
        r == is_filled(s@),
{
    !text::trim_str(s).as_str().is_empty()
}

/// Whether a form may be added.
pub fn can_add(form: &AccountForm) -> (r: bool)
    ensures
        r == is_complete(*form),
{
    models::parse_port(&form.servers.imap_port).is_some() && models::parse_port(
        &form.servers.smtp_port,
    ).is_some() && filled(&form.display_name) && filled(&form.email) && filled(&form.password)
        && filled(&form.servers.imap_host) && filled(&form.servers.smtp_host)
}

/// The account that a form describes, if its ports are valid.
pub fn new_account(form: &AccountForm) -> (r: Option<NewAccount>)
    ensures
        match r {
            Some(a) => {
                &&& models::port_in(form.servers.imap_port@) == Some(a.imap_port as nat)
                &&& models::port_in(form.servers.smtp_port@) == Some(a.smtp_port as nat)
                &&& a.email@ == text::trim(form.email@)
                &&& a.display_name@ == text::trim(form.display_name@)
                &&& a.imap_host@ == text::trim(form.servers.imap_host@)
                &&& a.smtp_host@ == text::trim(form.servers.smtp_host@)
                &&& a.imap_security == Security::at(form.servers.imap_security as int)
                &&& a.smtp_security == Security::at(form.servers.smtp_security as int)
                &&& a.goa_id@.len() == 0
            },
            None => models::port_in(form.servers.imap_port@) is None || models::port_in(
                form.servers.smtp_port@,
            ) is None,
        },
{
    match (
        models::parse_port(&form.servers.imap_port),
        models::parse_port(&form.servers.smtp_port),
    ) {
        (Some(imap_port), Some(smtp_port)) => Some(
            NewAccount {
                email: text::trim_str(&form.email),
                display_name: text::trim_str(&form.display_name),
                imap_host: text::trim_str(&form.servers.imap_host),
                imap_port,
                imap_security: Security::from_index(form.servers.imap_security),
                smtp_host: text::trim_str(&form.servers.smtp_host),
                smtp_port,
                smtp_security: Security::from_index(form.servers.smtp_security),
                goa_id: String::new(),
            },
        ),
        _ => None,
    }
}

// --- importing ------------------------------------------------------------

/// What the list of online accounts says of one.
#[derive(Debug, PartialEq, Eq)]
pub enum OnlineRow {
    /// It cannot be added, for this reason.
    Unusable(Sentence),
    /// It is added.
    Added,
    /// It may be added.
    Offered,
}

/// What the list of online accounts says of one. By address, not by its id there: that also catches
/// the same mailbox already added by hand, which would otherwise sync into a second folder tree.
pub fn online_row(online: &OnlineAccount, in_use: &[String]) -> (r: OnlineRow)
    ensures
        match r {
            OnlineRow::Unusable(s) => if !online.is_mail_enabled {
                s@ == i18n::SentenceView::Plain("Mail is turned off for this account in Settings"@)
            } else if !online.is_mail_supported {
                s@ == (i18n::SentenceView::With {
                    template: "{provider} accounts don't allow IMAP mail access"@,
                    key: "provider"@,
                    value: online.provider_name@,
                })
            } else {
                !online.is_oauth2 && s@ == i18n::SentenceView::Plain(
                    "Use Add Account to set this one up"@,
                )
            },
            OnlineRow::Added => {
                &&& online.is_mail_enabled && online.is_mail_supported && online.is_oauth2
                &&& text::texts(in_use@).contains(online.email@)
            },
            OnlineRow::Offered => {
                &&& online.is_mail_enabled && online.is_mail_supported && online.is_oauth2
                &&& !text::texts(in_use@).contains(online.email@)
            },
        },
{
    if !online.is_mail_enabled {
        OnlineRow::Unusable(Sentence::Plain("Mail is turned off for this account in Settings"))
    } else if !online.is_mail_supported {
        OnlineRow::Unusable(
            Sentence::With {
                template: "{provider} accounts don't allow IMAP mail access",
                key: "provider",
                value: online.provider_name.clone(),
            },
        )
    } else if !online.is_oauth2 {
        OnlineRow::Unusable(Sentence::Plain("Use Add Account to set this one up"))
    } else if text::list_contains(in_use, &online.email) {
        OnlineRow::Added
    } else {
        OnlineRow::Offered
    }
}

/// The account that an online account is added as.
pub fn imported(online: &OnlineAccount) -> (r: NewAccount)
    ensures
        r.email@ == online.email@,
        r.display_name@ == online.display_name@,
        r.imap_host@ == online.imap_host@,
        r.imap_port == online.imap_port,
        r.imap_security == online.imap_security,
        r.smtp_host@ == online.smtp_host@,
        r.smtp_port == online.smtp_port,
        r.smtp_security == online.smtp_security,
        r.goa_id@ == online.goa_id@,
{
    NewAccount {
        email: online.email.clone(),
        display_name: online.display_name.clone(),
        imap_host: online.imap_host.clone(),
        imap_port: online.imap_port,
        imap_security: online.imap_security,
        smtp_host: online.smtp_host.clone(),
        smtp_port: online.smtp_port,
        smtp_security: online.smtp_security,
        goa_id: online.goa_id.clone(),
    }
}

// --- the list -------------------------------------------------------------

/// What is said of an account below its name: the name that it signs with, or its address where it
/// goes by a label.
pub fn subtitle(account: &Account) -> (r: &str)
    ensures
        r@ == (if is_filled(account.label@) {
            account.email@
        } else {
            account.display_name@
        }),
{
    if filled(&account.label) {
        account.email.as_str()
    } else {
        account.display_name.as_str()
    }
}

/// The first of some lines, from `i` on, that holds more than white space.
pub open spec fn first_filled(all: Seq<Seq<char>>, i: int) -> Option<Seq<char>>
    decreases all.len() - i,
{
    if i < 0 || i >= all.len() {
        None
    } else if is_filled(all[i]) {
        Some(all[i])
    } else {
        first_filled(all, i + 1)
    }
}

/// One line of an account's signature, if it has any.
pub fn signature_line(account: &Account) -> (r: Option<String>)
    ensures
        mail::opt(r) == first_filled(text::lines(html::as_text(account.signature_markup())), 0),
{
    let preview = html::html_to_text(&account.signature_html());
    let all = text::split_lines(&text::chars_of(&preview));
    let ghost views = text::char_texts(all@);
    let mut i: usize = 0;
    while i < all.len()
        invariant
            i <= all.len(),
            views == text::char_texts(all@),
            views == text::lines(html::as_text(account.signature_markup())),
            first_filled(views, 0) == first_filled(views, i as int),
        decreases all.len() - i,
    {
        assert(views[i as int] == all@[i as int]@);
        if text::trimmed(&all[i]).len() > 0 {
            return Some(text::text_of(&all[i]));
        }
        i = i + 1;
    }
    None
}

/// The signature to store after an edit. An "empty" editor still holds a `<br>` or an empty block.
pub fn saved_signature(html: &str) -> (r: String)
    ensures
        r@ == (if is_filled(html::as_text(html@)) {
            html@
        } else {
            Seq::empty()
        }),
{
    if filled(&html::html_to_text(html)) {
        html.to_owned()
    } else {
        String::new()
    }
}

/// The signature to append where there is one for all accounts, or nothing where it is disabled.
pub fn shared_signature(is_enabled: bool, text: &str) -> (r: String)
    ensures
        r@ == (if is_enabled {
            text::trim(text@)
        } else {
            Seq::empty()
        }),
{
    if is_enabled {
        text::trim_str(text)
    } else {
        String::new()
    }
}

/// The line that stands for a signature is its first line with more than white space. There is none
/// where every line is blank.
pub proof fn the_first_filled_line_is_shown(all: Seq<Seq<char>>, k: int)
    ensures
        0 <= k < all.len() && is_filled(all[k]) && (forall|m: int|
            0 <= m < k ==> !is_filled(#[trigger] all[m])) ==> first_filled(all, 0) == Some(all[k]),
        (forall|m: int| 0 <= m < all.len() ==> !is_filled(#[trigger] all[m])) ==> first_filled(
            all,
            0,
        ) is None,
{
    if 0 <= k < all.len() && is_filled(all[k]) && forall|m: int|
        0 <= m < k ==> !is_filled(#[trigger] all[m]) {
        blank_lines_are_passed(all, 0, k);
    }
    if forall|m: int| 0 <= m < all.len() ==> !is_filled(#[trigger] all[m]) {
        blank_lines_are_passed(all, 0, all.len() as int);
    }
}

proof fn blank_lines_are_passed(all: Seq<Seq<char>>, i: int, k: int)
    requires
        0 <= i <= k <= all.len(),
        forall|m: int| i <= m < k ==> !is_filled(#[trigger] all[m]),
    ensures
        first_filled(all, i) == first_filled(all, k),
    decreases k - i,
{
    if i < k {
        assert(!is_filled(all[i]));
        blank_lines_are_passed(all, i + 1, k);
    }
}

} // verus!
