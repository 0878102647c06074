//! Known mail providers.

use rustle::models::Security;
use rustle::providers::{settings_for_email, ProviderSettings};

#[test]
fn looks_up_by_domain() {
    assert_eq!(
        settings_for_email("ada@GMAIL.com"),
        Some(ProviderSettings {
            imap_host: "imap.gmail.com",
            imap_port: 993,
            imap_security: Security::Tls,
            smtp_host: "smtp.gmail.com",
            smtp_port: 587,
            smtp_security: Security::StartTls,
        })
    );
    assert_eq!(settings_for_email("ada@example.org"), None);
    assert_eq!(settings_for_email("no-at-sign"), None);
}

#[test]
fn known_servers_are_never_plain() {
    for domain in ["gmail.com", "outlook.com", "yahoo.com", "icloud.com"] {
        let settings = settings_for_email(&format!("a@{domain}")).unwrap();
        assert_eq!(settings.imap_security, Security::Tls);
        assert_ne!(settings.smtp_security, Security::Plain);
    }
}
