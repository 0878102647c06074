//! Accounts of the desktop.

use rustle::goa::{
    account_from_interfaces, credential, imap_server, mail_accounts, smtp_server, split_host_port,
    token_request, Interface, Object, Property, Value, ACCOUNT, MAIL, OAUTH2,
};
use rustle::models::Security;

fn text(key: &str, value: &str) -> Property {
    Property {
        key: key.into(),
        value: Value::Text(value.into()),
    }
}

fn flag(key: &str, value: bool) -> Property {
    Property {
        key: key.into(),
        value: Value::Flag(value),
    }
}

#[test]
fn splits_host_and_port() {
    assert_eq!(
        split_host_port("mail.example.com:1143", 143),
        ("mail.example.com".into(), 1143)
    );
    assert_eq!(
        split_host_port("mail.example.com", 143),
        ("mail.example.com".into(), 143)
    );
    assert_eq!(
        split_host_port("mail.example.com:x", 143),
        ("mail.example.com:x".into(), 143)
    );
}

#[test]
fn works_out_servers_and_security() {
    let mail = [
        text("ImapHost", "imap.gmail.com"),
        flag("ImapUseSsl", true),
        text("SmtpHost", "smtp.gmail.com"),
        flag("SmtpUseTls", true),
    ];
    assert_eq!(
        imap_server(&mail),
        ("imap.gmail.com".into(), 993, Security::Tls)
    );
    assert_eq!(
        smtp_server(&mail),
        ("smtp.gmail.com".into(), 587, Security::StartTls)
    );
    let plain = [text("SmtpHost", "localhost")];
    assert_eq!(
        smtp_server(&plain),
        ("localhost".into(), 25, Security::Plain)
    );
}

fn interfaces(id: &str, email: &str) -> Vec<Interface> {
    vec![
        Interface {
            name: ACCOUNT.into(),
            properties: vec![
                text("Id", id),
                text("ProviderName", "Google"),
                text("PresentationIdentity", email),
            ],
        },
        Interface {
            name: MAIL.into(),
            properties: vec![
                text("ImapHost", "imap.gmail.com"),
                flag("ImapUseSsl", true),
                text("SmtpHost", "smtp.gmail.com"),
                flag("SmtpUseTls", true),
            ],
        },
        Interface {
            name: OAUTH2.into(),
            properties: vec![],
        },
    ]
}

#[test]
fn builds_accounts() {
    let mut found = interfaces("account_1", "ada@gmail.com");
    let account = account_from_interfaces(&found).unwrap();
    assert_eq!(account.email, "ada@gmail.com");
    assert_eq!(account.display_name, "ada");
    assert!(account.is_mail_supported && account.is_mail_enabled && account.is_oauth2);

    found[0].properties.push(flag("IsTemporary", true));
    assert!(account_from_interfaces(&found).is_none());
}

#[test]
fn accounts_come_by_address() {
    let objects = vec![
        Object {
            path: "/1".into(),
            interfaces: interfaces("one", "zoe@gmail.com"),
        },
        Object {
            path: "/2".into(),
            interfaces: interfaces("two", "ada@gmail.com"),
        },
        Object {
            path: "/3".into(),
            interfaces: vec![],
        },
    ];
    let accounts = mail_accounts(&objects);
    let emails: Vec<&str> = accounts.iter().map(|a| a.email.as_str()).collect();
    assert_eq!(emails, vec!["ada@gmail.com", "zoe@gmail.com"]);
    let request = token_request(&objects, "one").unwrap();
    assert_eq!(request.path, "/1");
    assert!(token_request(&objects, "three").is_none());
    let signed = credential(&request, "token");
    assert_eq!(signed.secret, "token");
}
