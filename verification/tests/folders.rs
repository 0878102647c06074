//! Mailbox names and their roles.

use rustle::folders::{
    decode_mailbox_name, display_name_for_folder, icon_for_folder, inbox_name, is_outgoing_folder,
    mailbox_with_role, notifies_on_arrival, parent_mailbox_name, role_for_folder, FolderRole,
};

#[test]
fn notification_folder_filter() {
    for name in [
        "Junk",
        "Spam",
        "Junk Mail",
        "[Gmail]/Spam",
        "Trash",
        "Deleted Items",
        "Sent",
        "Drafts",
        "All Mail",
        "[Gmail]/All Mail",
        "[Google Mail]/All Mail",
        "[Gmail]/all mail",
    ] {
        assert!(!notifies_on_arrival(name), "{name}");
    }
    for name in ["INBOX", "Work", "Archive", "Newsletters"] {
        assert!(notifies_on_arrival(name), "{name}");
    }
}

#[test]
fn classifies_by_name() {
    assert_eq!(role_for_folder("INBOX"), FolderRole::Inbox);
    assert_eq!(role_for_folder("Inbox"), FolderRole::Inbox);
    assert_eq!(role_for_folder("[Gmail]/Sent Mail"), FolderRole::Sent);
    assert_eq!(role_for_folder("Sent/Drafts"), FolderRole::Sent);
    assert_eq!(role_for_folder("Consent forms"), FolderRole::Other);
    assert_eq!(role_for_folder("Deleted Items"), FolderRole::Trash);
    assert_eq!(role_for_folder("[Gmail]/All Mail"), FolderRole::Archive);
    assert_eq!(role_for_folder("Projects"), FolderRole::Other);
    assert!(is_outgoing_folder("Outbox"));
    assert!(!is_outgoing_folder("INBOX"));
}

#[test]
fn finds_role_mailboxes() {
    let names = ["Inbox", "Sent Items", "Junk"];
    assert_eq!(
        mailbox_with_role(&names, FolderRole::Sent),
        Some("Sent Items")
    );
    assert_eq!(inbox_name(&names), "Inbox");
    assert_eq!(inbox_name(&["Sent"]), "INBOX");
}

#[test]
fn hierarchy_helpers() {
    assert_eq!(parent_mailbox_name("[Gmail]/Sent Mail", "/"), "");
    assert_eq!(parent_mailbox_name("Work/2026", "/"), "Work");
    assert_eq!(parent_mailbox_name("Work", "/"), "");
    assert_eq!(parent_mailbox_name("Work.Sub", ""), "");
    assert_eq!(
        display_name_for_folder("[Gmail]/Sent Mail", None),
        "Sent Mail"
    );
    assert_eq!(display_name_for_folder("Work/2026", Some("/")), "2026");
    assert_eq!(display_name_for_folder("Entw&APw-rfe", None), "Entwürfe");
    assert_eq!(decode_mailbox_name("Tom &- Jerry"), "Tom & Jerry");
}

#[test]
fn parent_and_leaf_make_up_a_name() {
    for name in ["Work/2026", "a/b/c", "Plain"] {
        let parent = parent_mailbox_name(name, "/");
        let leaf = display_name_for_folder(name, Some("/"));
        let whole = if parent.is_empty() {
            leaf
        } else {
            format!("{parent}/{leaf}")
        };
        assert_eq!(whole, name);
    }
}

#[test]
fn encoded_names_and_icons() {
    // A character beyond the basic plane takes two units.
    assert_eq!(decode_mailbox_name("&2D3eAA-"), "\u{1f600}");
    // What is no UTF-16 stays as it is written.
    assert_ne!(decode_mailbox_name("&AAA-x"), "");
    assert_eq!(icon_for_folder("INBOX"), icon_for_folder("inbox"));
    assert_ne!(icon_for_folder("Trash"), icon_for_folder("Projects"));
}

#[test]
fn runs_are_decoded_where_they_stand() {
    assert_eq!(decode_mailbox_name("Entw&APw-rfe"), "Entw\u{fc}rfe");
    assert_eq!(decode_mailbox_name("A &- B"), "A & B");
    assert_eq!(decode_mailbox_name("R&D"), "R&D");
    assert_eq!(decode_mailbox_name("&&-x&?-"), "&&x&?-");
    assert_eq!(decode_mailbox_name("&2D3eAA-"), "\u{1f600}");
    assert_eq!(decode_mailbox_name("&A-"), "\u{fffd}");
    assert_eq!(role_for_folder("InBoX"), FolderRole::Inbox);
    assert_eq!(role_for_folder("inbox "), FolderRole::Other);
}
