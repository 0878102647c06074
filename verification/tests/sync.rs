//! What a worker asks of the server and makes of its answers.

use rustle::models::{Account, Security};
use rustle::net::auth::Credential;
use rustle::net::errors::NetError;
use rustle::net::imap::{CapabilityName, Command, FetchedHeader, ImapSession, MailboxInfo};
use rustle::sync::{
    after_send, append_to_sent, backfill, backfill_result, fetch_mailbox, missing_uids,
    move_messages, next_move, post_unsubscribe, send_message, send_outcome, set_flag,
    to_message_header, uid_set, unsubscribe_answer, AfterSend, BackfillFolder, BackfillStep,
    FolderAnswer, SentCopy,
};
use rustle::threader::NO_SUBJECT;
use rustle::watch::{end_wait, start_wait, Waited, WatchEnd, WatchStep};

fn uids(values: &[&str]) -> Vec<String> {
    values.iter().map(|v| v.to_string()).collect()
}

#[test]
fn missing_uids_are_newest_first_and_skip_junk() {
    let server = uids(&["1", "2", "3", "10", "7", "x"]);
    let local = uids(&["2", "10"]);
    assert_eq!(missing_uids(&server, &local), vec![7, 3, 1]);
    assert!(missing_uids(&local, &server).is_empty());
}

#[test]
fn uid_set_folds_runs_into_ranges() {
    assert_eq!(uid_set(&[]), "");
    assert_eq!(uid_set(&[5]), "5");
    assert_eq!(uid_set(&[9, 8, 7, 3, 1, 2, 7]), "1:3,7:9");
    assert_eq!(uid_set(&[4, 2]), "2,4");
}

#[test]
fn converts_fetched_headers() {
    let header = to_message_header(FetchedHeader {
        uid: "3".into(),
        from_header: "Ada Lovelace <ADA@example.com>".into(),
        to_header: "Bob <bob@x.y>, c@x.y".into(),
        cc_header: "d@x.y".into(),
        subject: String::new(),
        date: "Wed, 16 Jul 2026 10:00:00 +0000".into(),
        is_seen: false,
        ..FetchedHeader::default()
    });
    assert_eq!(header.sender, "Ada Lovelace");
    assert_eq!(header.sender_address, "ada@example.com");
    assert_eq!(header.recipient, "Bob");
    assert_eq!(header.subject, NO_SUBJECT);
    assert_eq!(header.date, "2026-07-16T10:00:00Z");
    assert!(header.is_unread);
    assert_eq!(header.addresses.len(), 4);
}

#[test]
fn unsubscribe_requires_https() {
    assert!(post_unsubscribe("http://list.example/u").is_err());
}

#[test]
fn unsubscribing_posts_one_click() {
    assert_eq!(
        post_unsubscribe("HTTPS://list.example/u"),
        Ok("List-Unsubscribe=One-Click".to_string())
    );
    assert_eq!(unsubscribe_answer(204), Ok(()));
    assert_eq!(
        unsubscribe_answer(404),
        Err("the list answered 404".to_string())
    );
}

fn account() -> Account {
    Account {
        id: 1,
        email: "me@example.com".into(),
        display_name: "Me".into(),
        imap_host: "imap.example.com".into(),
        imap_port: 993,
        imap_security: Security::Tls,
        smtp_host: "smtp.example.com".into(),
        smtp_port: 587,
        smtp_security: Security::StartTls,
        goa_id: String::new(),
        color: String::new(),
        signature: String::new(),
        label: String::new(),
        notification_sound: String::new(),
    }
}

#[test]
fn a_message_goes_to_everyone_or_nobody() {
    let credential = Credential::password("me@example.com", "pw");
    let plan = send_message(&account(), &credential, "me@example.com", &uids(&["a@b.c"]));
    let plan = match plan {
        Ok(plan) => plan,
        Err(_) => panic!("refused"),
    };
    assert_eq!(plan.session.host, "smtp.example.com");
    assert_eq!(plan.session.port, 587);
    assert_eq!(plan.envelope.to, vec!["a@b.c"]);
    assert!(send_message(
        &account(),
        &credential,
        "me@example.com",
        &uids(&["a@b.c", "nobody"])
    )
    .is_err());
    // The copy in Sent is never fatal.
    let lost: Result<(), NetError> = Err(NetError::Protocol("no Sent".into()));
    let sent = after_send(Ok(()));
    assert!(matches!(sent, AfterSend::FileCopy));
    assert_eq!(send_outcome(sent, Some(lost)), Ok(()));
    // Nothing is filed of what the server refused.
    let refused = NetError::Protocol("too long".into());
    let sent = after_send(Err(refused.clone()));
    assert!(matches!(&sent, AfterSend::Fail(error) if *error == refused));
    assert_eq!(send_outcome(sent, None), Err(refused));
}

#[test]
fn a_message_to_nobody_is_refused() {
    let credential = Credential::password("me@example.com", "pw");
    let refused = send_message(&account(), &credential, "me@example.com", &[]);
    assert!(matches!(
        refused,
        Err(NetError::Protocol(text)) if text
            == "could not address the message: missing destination address, invalid envelope"
    ));
}

#[test]
fn flags_change_in_one_store() {
    assert_eq!(set_flag("INBOX", &[], "\\Seen", true), None);
    let change = match set_flag("INBOX", &uids(&["7", "9"]), "\\Seen", false) {
        Some(change) => change,
        None => panic!("nothing to change"),
    };
    assert_eq!(change.uids, "7,9");
    let mut session = ImapSession::new("h", 993, Security::Tls);
    assert!(change.commands(&session).is_err());
    session.accepted();
    match change.commands(&session) {
        Ok((Command::Select(mailbox), Command::UidStore { uids, query })) => {
            assert_eq!(mailbox, "INBOX");
            assert_eq!(uids, "7,9");
            assert_eq!(query, "-FLAGS (\\Seen)");
        }
        _ => panic!("other commands"),
    }
}

#[test]
fn no_move_follows_a_failure() {
    let list = uids(&["1", "2", "3"]);
    let moved: Result<Option<String>, NetError> = Ok(None);
    let failed: Result<Option<String>, NetError> = Err(NetError::Protocol("gone".into()));
    assert_eq!(next_move(&list, &[]), Some(0));
    assert_eq!(next_move(&list, &[moved.clone()]), Some(1));
    assert_eq!(next_move(&list, &[moved.clone(), failed]), None);
    assert_eq!(
        next_move(&list, &[moved.clone(), moved.clone(), moved]),
        None
    );
    assert_eq!(next_move(&[], &[]), None);
}

fn mailbox(name: &str) -> MailboxInfo {
    MailboxInfo {
        name: name.into(),
        delimiter: "/".into(),
        is_selectable: true,
    }
}

#[test]
fn a_copy_is_filed_unless_the_server_does() {
    let mut session = ImapSession::new("h", 993, Security::Tls);
    session.connect(&[CapabilityName::Imap4rev1]);
    assert!(matches!(
        append_to_sent(&session, &[mailbox("INBOX"), mailbox("Sent Items")]),
        SentCopy::File(name) if name == "Sent Items"
    ));
    assert!(matches!(
        append_to_sent(&session, &[mailbox("INBOX")]),
        SentCopy::Nowhere
    ));
    let mut gmail = ImapSession::new("h", 993, Security::Tls);
    gmail.connect(&[CapabilityName::Atom("X-GM-EXT-1".into())]);
    assert!(matches!(
        append_to_sent(&gmail, &[mailbox("Sent")]),
        SentCopy::FiledByServer
    ));
}

#[test]
fn the_inbox_is_fetched_unless_told_otherwise() {
    let mailboxes = [mailbox("Inbox"), mailbox("Work"), mailbox("Trash")];
    let plan = fetch_mailbox(&mailboxes, None, 0);
    assert_eq!(plan.target, "Inbox");
    assert!(plan.wants_uids);
    assert_eq!(plan.counts, vec!["Trash"]);
    let page = fetch_mailbox(&mailboxes, Some("Work"), 50);
    assert_eq!(page.target, "Work");
    assert!(!page.wants_uids);
}

#[test]
fn backfill_asks_folder_by_folder() {
    let folders = [
        BackfillFolder {
            name: "A".into(),
            local_uids: uids(&["1"]),
        },
        BackfillFolder {
            name: "B".into(),
            local_uids: vec![],
        },
    ];
    let step = backfill(&folders, 2, &[]);
    assert!(matches!(step, BackfillStep::Open(name) if name == "A"));
    let opened = |exists: u32, list: &[&str]| FolderAnswer::Opened {
        exists,
        uids: uids(list),
    };
    let step = backfill(&folders, 2, &[opened(1, &["1"])]);
    assert!(matches!(step, BackfillStep::Open(name) if name == "B"));
    let step = backfill(&folders, 2, &[opened(1, &["1"]), opened(3, &["4", "5", "9"])]);
    match step {
        BackfillStep::Fetch {
            folder,
            uids,
            exists,
            remaining,
            completed,
        } => {
            assert_eq!(folder, "B");
            assert_eq!(uids, "5,9");
            assert_eq!(exists, 3);
            assert_eq!(remaining, 1);
            assert_eq!(completed, vec!["A"]);
        }
        _ => panic!("nothing to fetch"),
    }
    let step = backfill(&folders, 2, &[FolderAnswer::Unopenable, opened(0, &[])]);
    assert!(matches!(
        step,
        BackfillStep::Done { completed } if completed == vec!["A", "B"]
    ));
}

#[test]
fn moves_stop_at_the_first_failure() {
    let result = move_messages(vec![
        Ok(Some("4".into())),
        Ok(None),
        Err(NetError::Protocol("gone".into())),
    ]);
    assert_eq!(result.destination_uids, vec![Some("4".to_string()), None]);
    assert_eq!(result.failed_index, Some(2));
    assert!(result.error.is_some());
}

#[test]
fn a_watch_ends_when_it_is_cancelled() {
    assert_eq!(start_wait(true), WatchStep::End(WatchEnd::Cancelled));
    assert_eq!(start_wait(false), WatchStep::Wait);
    assert_eq!(end_wait(Waited::Changed, false), WatchStep::Report);
    assert_eq!(end_wait(Waited::TimedOut, false), WatchStep::Wait);
    assert_eq!(end_wait(Waited::Failed, false), WatchStep::Fail);
    assert_eq!(
        end_wait(Waited::Failed, true),
        WatchStep::End(WatchEnd::Cancelled)
    );
    // What was seen before it is still reported.
    assert_eq!(end_wait(Waited::Changed, true), WatchStep::Report);
}

#[test]
fn a_batch_holds_what_its_fetch_brought() {
    let step = BackfillStep::Fetch {
        folder: "B".into(),
        uids: "5,9".into(),
        exists: 3,
        remaining: 1,
        completed: vec!["A".into()],
    };
    let fetched = vec![FetchedHeader {
        uid: "9".into(),
        from_header: "Ada <ada@x.y>".into(),
        ..FetchedHeader::default()
    }];
    let batch = backfill_result(step, fetched);
    assert_eq!(batch.folder.as_deref(), Some("B"));
    assert_eq!(batch.messages.len(), 1);
    assert_eq!(batch.messages[0].uid, "9");
    assert_eq!(batch.messages[0].sender, "Ada");
    assert_eq!(batch.remaining, 1);
    assert_eq!(batch.exists, 3);
    assert_eq!(batch.completed, vec!["A"]);
    let batch = backfill_result(
        BackfillStep::Done {
            completed: vec!["A".into(), "B".into()],
        },
        vec![],
    );
    assert!(batch.folder.is_none());
    assert!(batch.messages.is_empty());
    assert_eq!(batch.remaining, 0);
    assert_eq!(batch.exists, 0);
    assert_eq!(batch.completed, vec!["A", "B"]);
}
