//! What the store keeps.

use rustle::db::{
    contact_name, contact_text, filled_preview, first_migration, fts_query, new_folder,
    prune_folders, prune_stale_emails, reconcile_moved_email, save_contacts, save_incoming_email,
    search_emails, sent_folder, sort_emails, stored_color, stored_text, updated_email, Incoming,
    Reconciled, SearchPlan,
};
use rustle::models::{Email, Folder, MessageHeader};

fn email(id: i64, uid: Option<&str>, date: &str) -> Email {
    Email {
        id,
        folder_id: 1,
        server_id: uid.map(String::from),
        sender: "Ada".into(),
        sender_address: "ada@x.y".into(),
        recipient: String::new(),
        recipient_address: String::new(),
        subject: "S".into(),
        preview: String::new(),
        date: date.into(),
        is_unread: true,
        is_starred: false,
        is_pinned: false,
        message_id: "<1@x>".into(),
        in_reply_to: String::new(),
        references: String::new(),
        conversation_id: None,
    }
}

fn ids(emails: &[Email]) -> Vec<i64> {
    emails.iter().map(|e| e.id).collect()
}

#[test]
fn words_are_quoted_prefixes() {
    assert_eq!(fts_query("  ada \"love "), "\"ada\"* \"\"\"love\"*");
    assert_eq!(fts_query(" "), "");
    assert_eq!(search_emails(&[], "x"), SearchPlan::Nothing);
    assert_eq!(search_emails(&[1], "  "), SearchPlan::Everything);
    assert_eq!(
        search_emails(&[1], "bet"),
        SearchPlan::Matching("\"bet\"*".into())
    );
}

#[test]
fn newest_first_after_the_pinned_ones() {
    let mut old = email(1, Some("1"), "2026-01-01T00:00:00Z");
    let list = [
        email(2, Some("2"), "2026-01-02T00:00:00Z"),
        email(3, Some("3"), "2026-01-03T00:00:00Z"),
        old.clone(),
    ];
    assert_eq!(ids(&sort_emails(&list)), vec![3, 2, 1]);
    old.is_pinned = true;
    let pinned = [list[0].clone(), list[1].clone(), old];
    assert_eq!(ids(&sort_emails(&pinned)), vec![1, 3, 2]);
    // Zones don't matter, arrival breaks ties, then the id; no date is oldest.
    let ties = [
        email(1, Some("5"), "2026-01-01T00:00:00Z"),
        email(2, Some("7"), "2026-01-01T01:00:00+01:00"),
        email(4, Some("7"), "2026-01-01T00:00:00Z"),
        email(5, None, "2026-01-01T00:00:00Z"),
        email(6, Some("9"), "garbage"),
    ];
    assert_eq!(ids(&sort_emails(&ties)), vec![5, 4, 2, 1, 6]);
}

fn folder(id: i64, name: &str, parent_id: Option<i64>) -> Folder {
    Folder {
        parent_id,
        ..new_folder(id, 1, name, "i")
    }
}

#[test]
fn stale_folders_go_with_all_below_them() {
    let folders = [
        folder(1, "INBOX", None),
        folder(2, "INBOX/Sub", Some(1)),
        folder(3, "Outbox", None),
        folder(4, "INBOX/Sub/Deep", Some(2)),
    ];
    assert_eq!(
        prune_folders(&folders, &["Outbox".to_string()]),
        vec![4, 2, 1]
    );
    // A kept name goes too where its parent goes.
    let keep = ["INBOX/Sub/Deep".to_string(), "INBOX".to_string()];
    assert_eq!(prune_folders(&folders, &keep), vec![4, 2, 3]);
    assert_eq!(folders[0].delimiter, "/");
}

#[test]
fn emails_that_the_server_lost_go() {
    let emails = [
        email(1, Some("1"), ""),
        email(2, Some("2"), ""),
        email(3, None, ""),
        email(4, Some(""), ""),
    ];
    assert_eq!(prune_stale_emails(&emails, &["2".to_string()]), vec![1]);
}

#[test]
fn moved_emails_are_placed_or_removed() {
    assert_eq!(
        reconcile_moved_email(Some("3".into()), false),
        Reconciled::Place("3".into())
    );
    assert_eq!(
        reconcile_moved_email(Some("3".into()), true),
        Reconciled::Remove
    );
    assert_eq!(reconcile_moved_email(None, false), Reconciled::Remove);
}

#[test]
fn a_known_row_is_updated_and_another_replaced() {
    let header = MessageHeader {
        uid: "1".into(),
        message_id: "<1@x>".into(),
        recipient: "Bob".into(),
        is_starred: true,
        ..MessageHeader::default()
    };
    let mut row = email(1, Some("1"), "d");
    row.preview = "old".into();
    assert_eq!(save_incoming_email(&None, &header), Incoming::Insert);
    let known = Some(row.clone());
    assert_eq!(save_incoming_email(&known, &header), Incoming::Update);
    assert!(!save_incoming_email(&known, &header).is_new());
    let after = updated_email(&row, &header);
    assert_eq!(after.preview, "old");
    assert_eq!(after.recipient, "Bob");
    assert!(after.is_starred && !after.is_unread);
    assert_eq!(after.sender, "Ada");
    assert_eq!(updated_email(&after, &header), after);
    let other = MessageHeader {
        message_id: "<2@x>".into(),
        preview: "new".into(),
        ..MessageHeader::default()
    };
    assert_eq!(save_incoming_email(&known, &other), Incoming::Replace);
    assert!(Incoming::Replace.is_new());
    assert_eq!(updated_email(&row, &other).preview, "new");
}

#[test]
fn previews_are_filled_in_once() {
    let raw = b"Subject: x\r\n\r\nHello there";
    assert_eq!(filled_preview("", raw), "Hello there");
    assert_eq!(filled_preview("kept", raw), "kept");
}

#[test]
fn a_name_is_never_wiped() {
    let rows = save_contacts(&[
        ("Ada".into(), "ADA@x.y".into()),
        (String::new(), "ada@x.y".into()),
        ("Nobody".into(), String::new()),
    ]);
    assert_eq!(
        rows,
        vec![
            ("ada@x.y".to_string(), "Ada".to_string()),
            ("ada@x.y".to_string(), String::new())
        ]
    );
    let mut name = String::new();
    for (_, seen) in &rows {
        name = contact_name(&name, seen);
    }
    assert_eq!(contact_text(&name, "ada@x.y"), "Ada <ada@x.y>");
    assert_eq!(contact_text("", "bob@x.y"), "bob@x.y");
}

#[test]
fn what_is_stored_is_clean() {
    assert_eq!(stored_color("#e62d42"), "#e62d42");
    assert_eq!(stored_color("red"), "");
    assert_eq!(stored_text("  Work "), "Work");
    assert_eq!(first_migration(-3, 12), 0);
    assert_eq!(first_migration(5, 12), 5);
    assert_eq!(first_migration(40, 12), 12);
    assert_eq!(sent_folder(&["INBOX"]).0, "Sent");
    assert_eq!(sent_folder(&["INBOX", "Gesendet", "Sent Items"]).0, "Sent Items");
}

fn header(uid: &str, subject: &str, date: &str, sender: &str) -> MessageHeader {
    MessageHeader {
        uid: uid.into(),
        sender: sender.into(),
        sender_address: format!("{}@x.y", sender.to_lowercase()),
        subject: subject.into(),
        date: date.into(),
        is_unread: true,
        message_id: format!("<{uid}@x>"),
        ..MessageHeader::default()
    }
}

/// The rows of a table, changed as the library says.
struct Rows {
    emails: Vec<Email>,
    last_id: i64,
}

impl Rows {
    fn save_incoming_email(&mut self, folder_id: i64, header: &MessageHeader) -> bool {
        let place = self.emails.iter().position(|row| {
            row.folder_id == folder_id && row.server_id.as_deref() == Some(header.uid.as_str())
        });
        let existing = place.map(|at| self.emails[at].clone());
        let incoming = save_incoming_email(&existing, header);
        if let (Some(at), false) = (place, incoming.is_new()) {
            self.emails[at] = updated_email(&self.emails[at], header);
            return false;
        }
        if let Some(at) = place {
            self.emails.remove(at);
        }
        self.last_id += 1;
        let mut row = email(self.last_id, Some(&header.uid), &header.date);
        row.folder_id = folder_id;
        row.sender = header.sender.clone();
        row.subject = header.subject.clone();
        row.message_id = header.message_id.clone();
        row.is_pinned = header.is_pinned;
        self.emails.push(row);
        true
    }

    fn subjects(&self) -> Vec<String> {
        let sorted = sort_emails(&self.emails);
        sorted.iter().map(|row| row.subject.clone()).collect()
    }

    fn in_folder(&self, folder_id: i64) -> Vec<Email> {
        let rows = self.emails.iter();
        rows.filter(|row| row.folder_id == folder_id)
            .cloned()
            .collect()
    }

    fn reconcile(&mut self, id: i64, folder_id: i64, uid: Option<String>) {
        let taken = self
            .emails
            .iter()
            .any(|row| row.folder_id == folder_id && row.server_id == uid && row.id != id);
        match reconcile_moved_email(uid, taken) {
            Reconciled::Remove => self.emails.retain(|row| row.id != id),
            Reconciled::Place(uid) => {
                for row in self.emails.iter_mut().filter(|row| row.id == id) {
                    row.folder_id = folder_id;
                    row.server_id = Some(uid.clone());
                }
            }
        }
    }
}

#[test]
fn pinned_emails_sort_first() {
    let inbox = 1;
    let mut rows = Rows {
        emails: Vec::new(),
        last_id: 0,
    };
    let mut old = header("1", "Old", "2026-01-01T00:00:00Z", "Ada");
    old.is_pinned = true;
    rows.save_incoming_email(inbox, &old);
    rows.save_incoming_email(inbox, &header("2", "New", "2026-02-01T00:00:00Z", "Bob"));
    assert_eq!(rows.subjects(), vec!["Old", "New"]);
    // Outlook unpinned it: the next sync's header carries no keyword.
    old.is_pinned = false;
    rows.save_incoming_email(inbox, &old);
    assert_eq!(rows.subjects(), vec!["New", "Old"]);
    let id = sort_emails(&rows.emails)[1].id;
    for row in rows.emails.iter_mut().filter(|row| row.id == id) {
        row.is_pinned = true;
    }
    assert_eq!(rows.subjects(), vec!["Old", "New"]);
}

#[test]
fn moves_and_contacts() {
    let (inbox, archive) = (1, 2);
    let mut rows = Rows {
        emails: Vec::new(),
        last_id: 0,
    };
    rows.save_incoming_email(inbox, &header("7", "S", "2026-01-01T00:00:00Z", "Ada"));
    let mail = rows.in_folder(inbox)[0].id;
    rows.emails[0].folder_id = archive;
    rows.emails[0].server_id = None;
    assert!(rows.in_folder(inbox).is_empty());
    rows.reconcile(mail, archive, Some("3".into()));
    assert_eq!(rows.in_folder(archive)[0].server_id.as_deref(), Some("3"));
    rows.reconcile(mail, archive, None);
    assert!(rows.in_folder(archive).is_empty());

    let mut contacts: Vec<(String, String)> = Vec::new();
    for (address, seen) in save_contacts(&[
        ("Ada".into(), "ADA@x.y".into()),
        (String::new(), "ada@x.y".into()),
    ]) {
        match contacts.iter().position(|(known, _)| *known == address) {
            Some(at) => contacts[at].1 = contact_name(&contacts[at].1, &seen),
            None => contacts.push((address, contact_name("", &seen))),
        }
    }
    let texts: Vec<String> = contacts
        .iter()
        .map(|(address, name)| contact_text(name, address))
        .collect();
    assert_eq!(texts, vec!["Ada <ada@x.y>"]);
    assert_eq!(sent_folder(&["INBOX", "Archive"]).0, "Sent");
}
