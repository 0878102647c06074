//! Plain records.

use rustle::models::{
    is_hex_color, parse_port, Account, Attachment, Conversation, Email, Folder, Security,
};

#[test]
fn ports_are_validated() {
    assert_eq!(parse_port(" 993 "), Some(993));
    assert_eq!(parse_port("0"), None);
    assert_eq!(parse_port("65536"), None);
    assert_eq!(parse_port("abc"), None);
}

#[test]
fn security_round_trips() {
    for security in Security::ALL {
        assert_eq!(Security::parse(security.as_str()), security);
        assert_eq!(Security::from_index(security.index()), security);
    }
    assert_eq!(Security::parse("garbage"), Security::Tls);
    assert_eq!(Security::default_for_smtp_port(465), Security::Tls);
    assert_eq!(Security::default_for_smtp_port(587), Security::StartTls);
}

fn email(id: i64, uid: Option<&str>) -> Email {
    Email {
        id,
        folder_id: 1,
        server_id: uid.map(String::from),
        sender: format!("s{id}"),
        sender_address: String::new(),
        recipient: String::new(),
        recipient_address: String::new(),
        subject: "s".into(),
        preview: String::new(),
        date: String::new(),
        is_unread: id % 2 == 0,
        is_starred: false,
        is_pinned: false,
        message_id: String::new(),
        in_reply_to: String::new(),
        references: String::new(),
        conversation_id: Some(1),
    }
}

#[test]
fn conversation_aggregates() {
    let conversation = Conversation::new(vec![email(1, Some("5")), email(2, None)]);
    assert_eq!(conversation.id(), 1);
    assert!(conversation.is_unread());
    assert_eq!(conversation.participants(), "s1, s2");
    assert_eq!(conversation.server_uids(), vec!["5".to_string()]);
    assert_eq!(email(2, None).arrival_key(), u32::MAX);
}

#[test]
fn a_participant_is_named_once() {
    let conversation = Conversation::new(vec![email(1, None), email(2, None), email(1, None)]);
    assert_eq!(conversation.participants(), "s1, s2");
    assert_eq!(conversation.count(), 3);
    assert_eq!(conversation.latest().id, 1);
    assert!(!conversation.is_starred());
}

fn account() -> Account {
    Account {
        id: 1,
        email: "me@example.com".into(),
        display_name: "Me".into(),
        imap_host: "imap.example.com".into(),
        imap_port: 993,
        imap_security: Security::Tls,
        smtp_host: "smtp.example.com".into(),
        smtp_port: 587,
        smtp_security: Security::StartTls,
        goa_id: String::new(),
        color: String::new(),
        signature: String::new(),
        label: String::new(),
        notification_sound: String::new(),
    }
}

#[test]
fn accounts_describe_themselves() {
    let mut saved = account();
    assert!(!saved.is_online_account());
    assert_eq!(saved.color_hex(), "#3584e4");
    saved.color = "#e62d42".into();
    assert_eq!(saved.color_hex(), "#e62d42");
    assert_eq!(saved.signature_html(), "");
    saved.signature = "Cheers,\nMe\n".into();
    assert_eq!(saved.signature_html(), "Cheers,<br>Me");
    saved.signature = "<div><b>Me</b></div>".into();
    assert_eq!(saved.signature_html(), "<div><b>Me</b></div>");
    assert_eq!(saved.name(), saved.email);
    saved.label = "Work".into();
    assert_eq!(saved.name(), "Work");
    assert!(is_hex_color("#00ffAA"));
    assert!(!is_hex_color("red"));
}

#[test]
fn folders_and_attachments() {
    let folder = Folder {
        id: 1,
        account_id: 1,
        name: "a".into(),
        icon_name: "i".into(),
        parent_id: None,
        delimiter: "/".into(),
    };
    let child = Folder {
        parent_id: Some(1),
        ..folder.clone()
    };
    assert_ne!(folder.display_delimiter(), child.display_delimiter());
    let attachment = Attachment {
        filename: "f".into(),
        mime_type: "t".into(),
        content: vec![0; 7],
    };
    assert_eq!(attachment.size(), 7);
}
