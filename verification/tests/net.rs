//! Sessions, failures and headers from servers.

use rustle::models::Security;
use rustle::net::auth::{Credential, Mechanism};
use rustle::net::errors::{
    classify, is_auth_text, linkify, markup_escape, Failure, ImapKind, NetError, SocketFailure,
    SocketKind,
};
use rustle::net::imap::{
    check_greeting, connect_plan, destination_uid, fetched_header, parse_header, quote_mailbox,
    starttls_reply, CapabilityName, Command, ImapSession, SignIn,
};
use rustle::net::is_loopback;
use rustle::net::smtp::{envelope_error, mechanisms, tls_mode, SmtpMechanism, SmtpSession, TlsMode};

#[test]
fn debug_hides_the_secret() {
    let credential = Credential::password("ada", "hunter2");
    assert!(!credential.debug_text().contains("hunter2"));
    assert_eq!(
        Credential::token("ada", "t").xoauth2_response(),
        "user=ada\x01auth=Bearer t\x01\x01"
    );
}

#[test]
fn debug_quotes_the_user() {
    assert_eq!(
        Credential::password("a\"b", "x").debug_text(),
        "Credential { user: \"a\\\"b\", secret: \"...\", mechanism: Login }"
    );
    assert_eq!(
        Credential::token("ada", "x").debug_text(),
        "Credential { user: \"ada\", secret: \"...\", mechanism: Xoauth2 }"
    );
}

fn io(kind: SocketKind, text: &str) -> NetError {
    NetError::Io(SocketFailure {
        kind,
        message: text.into(),
    })
}

#[test]
fn classifies_socket_errors() {
    let refused = io(SocketKind::Refused, "x");
    assert_eq!(
        classify(&refused, "h"),
        Failure::Refused { host: "h".into() }
    );
    let lookup = io(SocketKind::Other, "failed to lookup address information");
    assert_eq!(
        classify(&lookup, "h"),
        Failure::NotFound { host: "h".into() }
    );
    let timeout = io(SocketKind::TimedOut, "x");
    assert_eq!(
        classify(&timeout, "h"),
        Failure::Timeout { host: "h".into() }
    );
    assert_eq!(
        classify(&NetError::Protocol("nope".into()), "h"),
        Failure::Server("nope".into())
    );
}

#[test]
fn spots_auth_failures() {
    assert!(is_auth_text(
        "NO [AUTHENTICATIONFAILED] Invalid credentials"
    ));
    assert!(is_auth_text("535 5.7.8 Username and Password not accepted"));
    assert!(!is_auth_text("NO Mailbox does not exist"));
}

#[test]
fn linkifies_urls() {
    assert_eq!(
        linkify("see https://x.y/z. <b>"),
        "see <a href=\"https://x.y/z\">https://x.y/z</a>. &lt;b&gt;"
    );
}

#[test]
fn quotes_and_response_codes() {
    assert_eq!(
        quote_mailbox("[Gmail]/Sent \"Mail\""),
        "\"[Gmail]/Sent \\\"Mail\\\"\""
    );
    assert_eq!(
        destination_uid("A3 OK [COPYUID 1511554416 142 41] Moved."),
        Some("41".into())
    );
    assert_eq!(
        destination_uid("A3 OK [MOVEUID 1 142:143 41:42] Moved."),
        Some("41".into())
    );
    assert_eq!(destination_uid("A3 OK Done."), None);
}

#[test]
fn parses_fetched_headers() {
    let raw = b"From: =?utf-8?q?Ada_Lovelace?= <ada@example.com>\r\nTo: Bob <bob@x.y>, c@x.y\r\nSubject: =?utf-8?q?Gr=C3=BC=C3=9Fe?=\r\nDate: Wed, 16 Jul 2026 10:00:00 +0000\r\nMessage-ID: <m1@x>\r\nReferences: <a@x>\r\n <b@x>\r\n\r\n";
    let header = parse_header("9".into(), raw, true, false);
    assert_eq!(header.from_header, "\"Ada Lovelace\" <ada@example.com>");
    assert_eq!(header.to_header, "\"Bob\" <bob@x.y>, c@x.y");
    assert_eq!(header.subject, "Grüße");
    assert_eq!(header.message_id, "<m1@x>");
    assert_eq!(header.references, "<a@x> <b@x>");
    assert!(header.date.contains("2026"));
    assert!(header.is_seen);
}

#[test]
fn loopback_detection() {
    assert!(is_loopback("localhost"));
    assert!(is_loopback("127.0.0.1"));
    assert!(is_loopback("[::1]"));
    assert!(!is_loopback("imap.example.com"));
    assert!(!is_loopback("10.0.0.1"));
}

#[test]
fn loopback_in_every_notation() {
    for host in ["127.255.0.3", "::1", "LOCALHOST", "[::1", "0:0:0:0:0:0:0:1"] {
        assert!(is_loopback(host), "{host}");
    }
    for host in [
        "127.0.0.256",
        "127.0.0",
        "127.0.0.01",
        "::2",
        "1::",
        "",
        "fe80::1",
    ] {
        assert!(!is_loopback(host), "{host}");
    }
}

#[test]
fn refuses_to_send_before_sign_in() {
    let mut session = SmtpSession::new("localhost", 2525, Security::Plain);
    assert!(session.send_raw("a@b.c", &["d@e.f".into()]).is_err());
    session.connect();
    assert!(session.send_raw("a@b.c", &["d@e.f".into()]).is_err());
}

#[test]
fn a_signed_in_session_addresses_a_message() {
    let mut session = SmtpSession::new("mail.x.y", 25, Security::StartTls);
    let credential = Credential::password("ada", "pw");
    assert!(session.sign_in(&credential).is_err());
    session.connect();
    assert!(session.sign_in(&credential).is_ok());
    let envelope = session
        .send_raw("a@b.c", &["d@e.f".into(), "g@h.i".into()])
        .unwrap_or_else(|_| panic!("refused"));
    assert_eq!(envelope.from, "a@b.c");
    assert_eq!(envelope.to, vec!["d@e.f", "g@h.i"]);
    let bad = session.send_raw("a@b.c", &["no one".into()]);
    assert!(matches!(
        bad,
        Err(NetError::Protocol(text)) if text == "invalid recipient address \"no one\""
    ));
    let bad = session.send_raw("\"", &[]);
    assert!(matches!(
        bad,
        Err(NetError::Protocol(text)) if text == "invalid sender address \"\\\"\""
    ));
    let nobody = session.send_raw("a@b.c", &[]);
    assert!(matches!(
        nobody,
        Err(NetError::Protocol(text)) if text
            == "could not address the message: missing destination address, invalid envelope"
    ));
    session.quit();
    assert!(session.send_raw("a@b.c", &["d@e.f".into()]).is_err());
    assert!(!session.skips_verification());
    assert_eq!(tls_mode(Security::Tls), TlsMode::Wrapper);
    assert_eq!(
        mechanisms(Mechanism::Xoauth2),
        vec![SmtpMechanism::Xoauth2]
    );
    assert_eq!(
        envelope_error("why").message(),
        NetError::Protocol("could not address the message: why".into()).message()
    );
}

#[test]
fn every_failure_has_its_cause() {
    let imap = |kind: ImapKind| NetError::Imap {
        text: "t".into(),
        kind,
    };
    assert_eq!(
        classify(&imap(ImapKind::Tls), "h"),
        Failure::Tls { host: "h".into() }
    );
    assert_eq!(
        classify(
            &NetError::Imap {
                text: "No Response: [AUTHENTICATIONFAILED] no".into(),
                kind: ImapKind::No {
                    information: "no".into()
                }
            },
            "h"
        ),
        Failure::Auth
    );
    assert_eq!(
        classify(
            &imap(ImapKind::Bad {
                information: "what".into()
            }),
            "h"
        ),
        Failure::Server("what".into())
    );
    assert_eq!(
        classify(&imap(ImapKind::Other), "h"),
        Failure::Server("t".into())
    );
    assert_eq!(
        classify(&imap(ImapKind::ConnectionLost), "h"),
        Failure::Unreachable
    );
    assert_eq!(
        classify(&NetError::NoCredential("x".into()), "h"),
        Failure::NoCredential
    );
    assert_eq!(
        classify(&NetError::Tls("x".into()), "h"),
        Failure::Tls { host: "h".into() }
    );
    let smtp = NetError::Smtp {
        text: "t".into(),
        status: Some("535".into()),
        is_tls: false,
        is_timeout: false,
        source: None,
    };
    assert!(classify(&smtp, "h").is_auth());
}

#[test]
fn markup_is_inert() {
    assert_eq!(
        markup_escape("<a href='x'>\"&\u{1}"),
        "&lt;a href=&#39;x&#39;&gt;&quot;&amp;&#x1;"
    );
}

#[test]
fn a_session_is_opened_in_steps() {
    let mut session = ImapSession::new("h", 143, Security::StartTls);
    assert!(session.list_folders().is_err());
    assert!(session.sign_in(&Credential::password("u", "p")).is_err());
    session.connect(&[
        CapabilityName::Imap4rev1,
        CapabilityName::Atom("idle".into()),
    ]);
    assert!(session.has_capability("IDLE"));
    let step = session.sign_in(&Credential::password("u", "p"));
    assert!(matches!(
        step,
        Ok(SignIn::Login { user, password }) if user == "u" && password == "p"
    ));
    session.accepted();
    assert!(matches!(session.list_folders(), Ok(Command::List)));
    assert!(matches!(
        session.select("a b", false),
        Ok(Command::Examine(name)) if name == "a b"
    ));
    assert!(matches!(session.search_all_uids(), Ok(Command::UidSearchAll)));
    assert!(session.logout());
    assert!(session.list_folders().is_err());
}

#[test]
fn tls_is_used_unless_it_is_off() {
    assert!(connect_plan(Security::Tls).uses_tls);
    assert!(connect_plan(Security::StartTls).starts_tls);
    assert!(!connect_plan(Security::Plain).uses_tls);
    assert!(check_greeting("* OK hello\r\n").is_ok());
    assert!(check_greeting("* BYE\r\n").is_err());
    assert!(matches!(starttls_reply("P1 OK go\r\n"), Ok(true)));
    assert!(matches!(starttls_reply("* OK busy\r\n"), Ok(false)));
    assert!(starttls_reply("P1 NO\r\n").is_err());
}

#[test]
fn a_header_carries_its_preview() {
    let header = fetched_header(
        Some(7),
        b"Subject: Hi\r\n\r\n",
        b"The body",
        true,
        false,
    )
    .unwrap();
    assert_eq!(header.subject, "Hi");
    assert_eq!(header.uid, "7");
    assert_eq!(header.preview, "The body");
    assert!(header.is_seen && !header.is_flagged);
    assert!(fetched_header(None, b"", b"", false, false).is_none());
}
