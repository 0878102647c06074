//! Known server settings for the big mail providers, so the Add Account
//! dialog can fill the server fields in from the address alone.

use vstd::prelude::*;
use crate::models::Security;
use crate::text;

verus! {

/// The servers of a mail provider.
#[derive(Clone, Copy, Debug, PartialEq, Eq)]
pub struct ProviderSettings {
    pub imap_host: &'static str,
    pub imap_port: u16,
    pub imap_security: Security,
    pub smtp_host: &'static str,
    pub smtp_port: u16,
    pub smtp_security: Security,
}

/// What is known of the servers of a mail provider.
#[verifier::ext_equal]
pub struct SettingsView {
    pub imap_host: Seq<char>,
    pub imap_port: u16,
    pub imap_security: Security,
    pub smtp_host: Seq<char>,
    pub smtp_port: u16,
    pub smtp_security: Security,
}

impl View for ProviderSettings {
    type V = SettingsView;

    open spec fn view(&self) -> SettingsView {
        SettingsView {
            imap_host: self.imap_host@,
            imap_port: self.imap_port,
            imap_security: self.imap_security,
            smtp_host: self.smtp_host@,
            smtp_port: self.smtp_port,
            smtp_security: self.smtp_security,
        }
    }
}

/// IMAP over implicit TLS, and SMTP that upgrades with STARTTLS.
pub open spec fn upgrading(imap_host: Seq<char>, smtp_host: Seq<char>) -> SettingsView {
    SettingsView {
        imap_host,
        imap_port: 993,
        imap_security: Security::Tls,
        smtp_host,
        smtp_port: 587,
        smtp_security: Security::StartTls,
    }
}

/// IMAP and SMTP over implicit TLS.
pub open spec fn implicit(imap_host: Seq<char>, smtp_host: Seq<char>) -> SettingsView {
    SettingsView {
        imap_host,
        imap_port: 993,
        imap_security: Security::Tls,
        smtp_host,
        smtp_port: 465,
        smtp_security: Security::Tls,
    }
}

/// What is known of the provider behind a domain.
pub open spec fn known_settings(domain: Seq<char>) -> Option<SettingsView> {
    if domain == "gmail.com"@ || domain == "googlemail.com"@ {
        Some(upgrading("imap.gmail.com"@, "smtp.gmail.com"@))
    } else if domain == "outlook.com"@ || domain == "hotmail.com"@ || domain == "live.com"@
        || domain == "msn.com"@ {
        Some(upgrading("outlook.office365.com"@, "smtp-mail.outlook.com"@))
    } else if domain == "yahoo.com"@ || domain == "yahoo.co.uk"@ || domain == "yahoo.in"@ || domain
        == "ymail.com"@ {
        Some(implicit("imap.mail.yahoo.com"@, "smtp.mail.yahoo.com"@))
    } else if domain == "aol.com"@ {
        Some(implicit("imap.aol.com"@, "smtp.aol.com"@))
    } else if domain == "icloud.com"@ || domain == "me.com"@ || domain == "mac.com"@ {
        Some(upgrading("imap.mail.me.com"@, "smtp.mail.me.com"@))
    } else if domain == "fastmail.com"@ {
        Some(implicit("imap.fastmail.com"@, "smtp.fastmail.com"@))
    } else if domain == "zoho.com"@ {
        Some(implicit("imap.zoho.com"@, "smtp.zoho.com"@))
    } else if domain == "yandex.com"@ {
        Some(implicit("imap.yandex.com"@, "smtp.yandex.com"@))
    } else {
        None
    }
}

/// What is known of the provider behind an address.
pub open spec fn settings_of(address: Seq<char>) -> Option<SettingsView> {
    let t = text::trim(address);
    let at = text::rfind(t, '@');
    if at >= 0 {
        known_settings(text::lowercase(t.skip(at + 1)))
    } else {
        None
    }
}

fn upgrading_settings(imap_host: &'static str, smtp_host: &'static str) -> (r: ProviderSettings)
    ensures
        r@ == upgrading(imap_host@, smtp_host@),
{
    ProviderSettings {
        imap_host,
        imap_port: 993,
        imap_security: Security::Tls,
        smtp_host,
        smtp_port: 587,
        smtp_security: Security::StartTls,
    }
}

fn implicit_settings(imap_host: &'static str, smtp_host: &'static str) -> (r: ProviderSettings)
    ensures
        r@ == implicit(imap_host@, smtp_host@),
{
    ProviderSettings {
        imap_host,
        imap_port: 993,
        imap_security: Security::Tls,
        smtp_host,
        smtp_port: 465,
        smtp_security: Security::Tls,
    }
}

/// The settings behind an optional value.
pub open spec fn settings_view(s: Option<ProviderSettings>) -> Option<SettingsView> {
    match s {
        Some(p) => Some(p@),
        None => None,
    }
}

/// The known server settings for a domain in lower case, or None if unknown.
pub fn settings_for_domain(domain: &str) -> (r: Option<ProviderSettings>)
    ensures
        settings_view(r) == known_settings(domain@),
{
    if text::same_str(domain, "gmail.com") || text::same_str(domain, "googlemail.com") {
        Some(upgrading_settings("imap.gmail.com", "smtp.gmail.com"))
    } else if text::same_str(domain, "outlook.com") || text::same_str(domain, "hotmail.com")
        || text::same_str(domain, "live.com") || text::same_str(domain, "msn.com") {
        Some(upgrading_settings("outlook.office365.com", "smtp-mail.outlook.com"))
    } else if text::same_str(domain, "yahoo.com") || text::same_str(domain, "yahoo.co.uk")
        || text::same_str(domain, "yahoo.in") || text::same_str(domain, "ymail.com") {
        Some(implicit_settings("imap.mail.yahoo.com", "smtp.mail.yahoo.com"))
    } else if text::same_str(domain, "aol.com") {
        Some(implicit_settings("imap.aol.com", "smtp.aol.com"))
    } else if text::same_str(domain, "icloud.com") || text::same_str(domain, "me.com")
        || text::same_str(domain, "mac.com") {
        Some(upgrading_settings("imap.mail.me.com", "smtp.mail.me.com"))
    } else if text::same_str(domain, "fastmail.com") {
        Some(implicit_settings("imap.fastmail.com", "smtp.fastmail.com"))
    } else if text::same_str(domain, "zoho.com") {
        Some(implicit_settings("imap.zoho.com", "smtp.zoho.com"))
    } else if text::same_str(domain, "yandex.com") {
        Some(implicit_settings("imap.yandex.com", "smtp.yandex.com"))
    } else {
        None
    }
}

/// The known server settings for an address' domain, or None if unknown.
pub fn settings_for_email(address: &str) -> (r: Option<ProviderSettings>)
    ensures
        settings_view(r) == settings_of(address@),
{
    let t = text::trimmed(&text::chars_of(address));
    match text::rfind_char(&t, '@') {
        Some(at) => {
            let domain = text::slice_of(&t, at + 1, t.len());
            assert(domain@ =~= t@.skip(at + 1));
            settings_for_domain(&text::to_lowercase(&text::text_of(&domain)))
        },
        None => None,
    }
}

/// Nobody's mail is sent or read in plaintext by what is known of a provider.
pub proof fn known_servers_use_tls(domain: Seq<char>)
    ensures
        known_settings(domain) matches Some(s) ==> s.imap_security == Security::Tls
            && s.smtp_security != Security::Plain && s.smtp_security
            == (if s.smtp_port == crate::models::IMPLICIT_TLS_PORT {
            Security::Tls
        } else {
            Security::StartTls
        }),
{
}

/// What is known of an address is what is known of its domain, in whatever case and with white space
/// around it.
pub proof fn addresses_have_their_domain(user: Seq<char>, domain: Seq<char>)
    requires
        !domain.contains('@'),
        text::trim(user + seq!['@'] + domain) == user + seq!['@'] + domain,
    ensures
        settings_of(user + seq!['@'] + domain) == known_settings(text::lowercase(domain)),
{
    let w = user + seq!['@'] + domain;
    let n = user.len() as int;
    text::rfind_at_is_last(w, '@', w.len() as int);
    assert(w[n] == '@');
    assert forall|j: int| n < j < w.len() implies w[j] != '@' by {
        assert(w[j] == domain[j - n - 1]);
        assert(domain.contains(domain[j - n - 1]));
    }
    assert(text::rfind(w, '@') == n);
    assert(w.skip(n + 1) =~= domain);
}

} // verus!
