//! Threads.

use rustle::compose::{forward_subject, reply_subject};
use rustle::models::Email;
use rustle::threader::{group, normalize_subject};

fn email(
    id: i64,
    subject: &str,
    message_id: &str,
    in_reply_to: &str,
    references: &str,
) -> Email {
    Email {
        id,
        folder_id: 1,
        server_id: Some(id.to_string()),
        sender: String::new(),
        sender_address: String::new(),
        recipient: String::new(),
        recipient_address: String::new(),
        subject: subject.into(),
        preview: String::new(),
        date: String::new(),
        is_unread: false,
        is_starred: false,
        is_pinned: false,
        message_id: message_id.into(),
        in_reply_to: in_reply_to.into(),
        references: references.into(),
        conversation_id: None,
    }
}

#[test]
fn links_by_reference_and_subject() {
    let emails = vec![
        email(1, "Hello", "<a>", "", ""),
        email(2, "Re: Hello", "<b>", "<a>", "<a>"),
        email(3, "Other", "<c>", "", ""),
        email(4, "RE: re: other", "<d>", "", ""),
        email(5, "(no subject)", "", "", ""),
        email(6, "(no subject)", "", "", ""),
    ];
    let groups = group(&emails);
    assert_eq!(groups[&1], 1);
    assert_eq!(groups[&2], 1);
    assert_eq!(groups[&3], 3);
    assert_eq!(groups[&4], 3);
    assert_eq!(groups[&5], 5);
    assert_eq!(groups[&6], 6);
}

#[test]
fn links_are_transitive() {
    let emails = vec![
        email(9, "One", "<a>", "", ""),
        email(4, "Two", "<b>", "<c>", ""),
        email(7, "Three", "<d>", "", "<a> <c>"),
    ];
    let groups = group(&emails);
    assert_eq!(groups[&4], groups[&7]);
    assert_eq!(groups[&9], groups[&7]);
    assert_eq!(normalize_subject("Fwd: RE: x "), "x");
}

#[test]
fn marks_never_change_the_thread() {
    for subject in ["Hello", " Lunch? ", "fw : RE:Hi", "", "Größe: re", "(no subject) x"] {
        let shared = normalize_subject(subject);
        let mut marked = subject.to_string();
        for _ in 0..2 {
            marked = forward_subject(&reply_subject(&marked));
            assert_eq!(normalize_subject(&marked), shared, "{marked}");
            marked = reply_subject(&marked);
            assert_eq!(normalize_subject(&marked), shared, "{marked}");
        }
    }
    assert_eq!(normalize_subject("\u{a0}FWD \t:\u{2003}re:  Hi There "), "hi there");
    assert_eq!(normalize_subject("Fwdx: a"), "fwdx: a");
    assert_eq!(normalize_subject("reply: a"), "reply: a");
}
