//! What the windows decide.

use rustle::goa::OnlineAccount;
use rustle::models::{Account, Conversation, Email, Security};
use rustle::net::errors::Failure;
use rustle::sounds::NotificationSound;
use rustle::ui::accounts::{
    autofill_servers, can_add, imported, new_account, online_row, saved_signature,
    shared_signature, signature_line, subtitle, AccountForm, OnlineRow, ServerFields,
};
use rustle::ui::actions::{accels, activate, log_level, open, OpenAction};
use rustle::ui::colors::{
    account_rule, channels, css_class, highlight_palette, is_account_tag, is_checked, stale_tags,
    swatch_cell, text_palette,
};
use rustle::ui::composer::{
    account_index, all_recipients, attachment_label, block_for, can_send, contacts, draft_subject,
    envelope_recipients, for_mailto, has_content, key_pressed, local_header, move_selection,
    recipients_display, sent_header, starting_body, step, Fields, Key, SendAction, SendEvent,
    SendState,
};
use rustle::ui::editor::{
    command_for, commands, confirmed, elide, exec, font_size, insert_link, is_default_text_color,
    link_form, may_confirm, page, remove_image, remove_link, resize_image, set_color, size_label,
    split_font, swap_signature, update_link, ColorKind, Link, COMMANDS_JSON,
};
use rustle::ui::i18n::{failure_message, format as fill, label_for, plural, Sentence};
use rustle::ui::media::{is_player, owner_changed, playback_status, MediaActivity};
use rustle::ui::playback::{
    is_playable, notification_volume, path_for, sound_theme, starts_playing, supported_mime_types,
    DesktopSound, Volume,
};
use rustle::ui::preferences::{
    asks_portal, autostart_response, interval_index, interval_minutes, request_path, request_token,
    sync_intervals,
};
use rustle::ui::reader::{
    badge, body_of, conversation_subject, decide_policy, party, recipient_rows, style, Body, Policy,
};
use rustle::ui::sound_row::{index_of, labels, on_selected, preview, subtitle as sound_subtitle, Picked};

fn account(id: i64) -> Account {
    Account {
        id,
        email: format!("{id}@example.com"),
        display_name: "Me".into(),
        imap_host: "imap.example.com".into(),
        imap_port: 993,
        imap_security: Security::Tls,
        smtp_host: "smtp.example.com".into(),
        smtp_port: 587,
        smtp_security: Security::StartTls,
        goa_id: String::new(),
        color: String::new(),
        signature: String::new(),
        label: String::new(),
        notification_sound: String::new(),
    }
}

#[test]
fn placeholders_are_substituted() {
    assert_eq!(
        fill("Hello {name}, {name}: {x}", &[("name", "Ada"), ("x", "1")]),
        "Hello Ada, Ada: 1"
    );
    assert_eq!(fill("nothing here", &[("name", "Ada")]), "nothing here");
    assert_eq!(plural("{n} of {all}", 3, &[("all", "7")]), "3 of 7");
    assert_eq!(
        failure_message(&Failure::Refused { host: "h".into() }),
        Sentence::With {
            template: "{host} refused the connection. Check the port.",
            key: "host",
            value: "h".into()
        }
    );
    assert_eq!(
        failure_message(&Failure::Server("no".into())),
        Sentence::Verbatim("no".into())
    );
    assert_eq!(
        label_for(rustle::dates::RelativeLabel::Yesterday),
        Sentence::Plain("Yesterday")
    );
}

#[test]
fn tags_are_told_from_styles() {
    assert_eq!(css_class(12), "account-12");
    assert!(is_account_tag("account-12"));
    assert!(!is_account_tag("account-dot"));
    assert_eq!(
        stale_tags(&["a".into(), "account-3".into(), "account-name".into()]),
        vec!["account-3"]
    );
    assert_eq!(
        account_rule(&account(2), "white"),
        ".account-2 { --account-color: #3584e4; --account-fg-color: white; }\n"
    );
    assert_eq!(channels("#3584e4"), (0x35, 0x84, 0xe4));
    assert_eq!(channels("garbage"), (0, 0xba, 0));
    assert_eq!(channels("#+f"), (15, 0, 0));
    assert_eq!(text_palette().len(), 16);
    assert_eq!(highlight_palette()[0], ("#f9f06b", "Yellow"));
    assert_eq!(swatch_cell(11), (3, 1));
    assert!(is_checked("#fff", Some("#fff")));
    assert!(!is_checked("#fff", None));
}

#[test]
fn intervals_fall_back_to_the_default() {
    for (row, (minutes, _)) in sync_intervals().iter().enumerate() {
        assert_eq!(interval_index(*minutes) as usize, row);
        assert_eq!(interval_minutes(row as u32), Some(*minutes));
    }
    assert_eq!(interval_minutes(interval_index(7)), Some(15));
    assert_eq!(interval_minutes(5), None);
}

#[test]
fn the_portal_decides() {
    assert_eq!(request_token("ab-cd"), "rustle_ab_cd");
    assert_eq!(
        request_path(Some(":1.42"), "t"),
        "/org/freedesktop/portal/desktop/request/1_42/t"
    );
    assert_eq!(
        request_path(None, "t"),
        "/org/freedesktop/portal/desktop/request//t"
    );
    assert!(asks_portal(true, false, false));
    assert!(!asks_portal(true, true, false));
    assert!(!asks_portal(true, false, true));
    let granted = autostart_response(Some(0), Some(true), true, false);
    assert!(granted.is_enabled && !granted.has_failed);
    let refused = autostart_response(Some(1), Some(true), true, false);
    assert!(!refused.is_enabled && refused.has_failed);
    let silent = autostart_response(Some(0), None, false, true);
    assert!(!silent.is_enabled && !silent.has_failed);
}

#[test]
fn a_sound_row_picks_what_it_shows() {
    for can_inherit in [false, true] {
        assert_eq!(labels(can_inherit).len(), if can_inherit { 4 } else { 3 });
        for sound in [NotificationSound::System, NotificationSound::Silent] {
            let entry = index_of(&sound, can_inherit);
            assert_eq!(on_selected(entry, can_inherit), Picked::Choice(sound));
        }
        let file = NotificationSound::File("/a/b.ogg".into());
        assert_eq!(
            on_selected(index_of(&file, can_inherit), can_inherit),
            Picked::AskForFile
        );
    }
    assert_eq!(
        on_selected(0, true),
        Picked::Choice(NotificationSound::Inherit)
    );
    let file = NotificationSound::File("/a/b.ogg".into());
    assert_eq!(
        sound_subtitle(&file, true, true),
        Sentence::Verbatim("b.ogg".into())
    );
    assert!(matches!(
        sound_subtitle(&file, true, false),
        Sentence::Plain(_)
    ));
    assert_eq!(
        preview(&NotificationSound::Inherit, Some(&file)),
        NotificationSound::File("/a/b.ogg".into())
    );
    assert_eq!(
        preview(&NotificationSound::Inherit, None),
        NotificationSound::System
    );
}

#[test]
fn mp3_is_refused_and_ogg_wav_are_accepted() {
    let mut id3 = b"ID3\x04\x00\x00\x00\x00\x00\x00".to_vec();
    id3.extend([0xff, 0xfb, 0x90, 0x00]);
    assert!(!is_playable(&id3, "audio/mpeg"));
    // Even one hiding behind a friendlier name.
    assert!(!is_playable(&id3, "audio/ogg"));
    let ogg = b"OggS\x00\x02\x00\x00\x00\x00\x00\x00\x00\x00";
    assert!(is_playable(ogg, "audio/ogg"));
    let mut wav = b"RIFF\x24\x00\x00\x00WAVEfmt ".to_vec();
    wav.resize(64, 0);
    assert!(is_playable(&wav, "audio/x-wav"));
}

#[test]
fn a_bare_mpeg_frame_is_refused_too() {
    assert!(!is_playable(&[0xff, 0xfb, 0x90], "audio/ogg"));
    assert!(is_playable(&[0xff, 0xff, 0x90], "audio/ogg"));
    assert!(is_playable(&[0xff], "audio/ogg"));
    assert!(!is_playable(b"", "text/plain"));
    assert!(supported_mime_types().contains(&"audio/flac"));
}

/// The luminance of a colour decides, in floating point.
fn contrast_for(hex: &str) -> &'static str {
    let linear = |byte: u8| {
        let value = f64::from(byte) / 255.0;
        if value <= 0.04045 {
            value / 12.92
        } else {
            ((value + 0.055) / 1.055).powf(2.4)
        }
    };
    let (r, g, b) = channels(hex);
    let luminance = 0.2126 * linear(r) + 0.7152 * linear(g) + 0.0722 * linear(b);
    if luminance > 0.4 {
        "black"
    } else {
        "white"
    }
}

#[test]
fn contrast_picks_readable_text() {
    assert_eq!(contrast_for("#3584e4"), "white"); // palette blue
    assert_eq!(contrast_for("#3a944a"), "white"); // palette green
    assert_eq!(contrast_for("#c88800"), "white"); // palette yellow
    assert_eq!(contrast_for("#f6d32d"), "black"); // bright yellow
    assert_eq!(contrast_for("#ffffff"), "black");
    assert_eq!(contrast_for("#000000"), "white");
    assert_eq!(contrast_for("garbage"), "white");
}

#[test]
fn what_plays_and_how_loud() {
    let desktop = |on: bool, theme: &str| {
        Some(DesktopSound {
            event_sounds: on,
            theme_name: theme.into(),
        })
    };
    assert_eq!(sound_theme(&None).as_deref(), Some("freedesktop"));
    assert_eq!(sound_theme(&desktop(true, "")).as_deref(), Some("freedesktop"));
    assert_eq!(sound_theme(&desktop(true, "mine")).as_deref(), Some("mine"));
    assert_eq!(sound_theme(&desktop(false, "mine")), None);
    let system = Some("/s.oga".to_string());
    assert_eq!(path_for(&NotificationSound::System, system.clone()), system);
    assert_eq!(path_for(&NotificationSound::Silent, system), None);
    assert_eq!(notification_volume(true, true), None);
    assert_eq!(notification_volume(false, true), Some(Volume::Quiet));
    assert_eq!(notification_volume(false, false), Some(Volume::Full));
    assert!(!starts_playing("a", true, &["a".into()]));
    assert!(starts_playing("a", true, &["b".into()]));
    assert!(!starts_playing("a", false, &[]));
}

#[test]
fn players_come_and_go() {
    let name = "org.mpris.MediaPlayer2.vlc";
    assert!(is_player(name));
    assert!(!is_player("org.freedesktop.DBus"));
    let change = owner_changed(name, "", ":1.2");
    assert!(change.adds && !change.removes);
    assert!(playback_status(Some("Playing")));
    assert!(!playback_status(Some("Paused")));
    assert!(!playback_status(None));
    let mut media = MediaActivity::new();
    assert!(!media.is_playing());
    assert!(media.add_player(name));
    assert!(!media.add_player(name));
    media.player_answered(name, true, true);
    assert!(media.is_playing());
    assert!(!media.add_player(name));
    media.status_changed(name, false);
    assert!(!media.is_playing());
    media.status_changed("org.mpris.MediaPlayer2.other", true);
    assert!(!media.is_playing());
    media.status_changed(name, true);
    media.remove_player(name);
    assert!(!media.is_playing());
    // One that vanished while it was asked is not kept.
    assert!(media.add_player(name));
    media.player_answered(name, false, true);
    assert!(!media.is_playing());
}

#[test]
fn scripts_quote_their_arguments() {
    assert_eq!(
        exec("fontSize", Some("a\"b\\\n\u{1}\u{8}\u{7f}")),
        "document.execCommand(\"fontSize\", false, \"a\\\"b\\\\\\n\\u0001\\b\u{7f}\")"
    );
    assert_eq!(
        exec("bold", None),
        "document.execCommand(\"bold\", false, null)"
    );
    assert_eq!(
        resize_image(3, "small"),
        "window.rustleResizeImage(3, \"small\")"
    );
    assert_eq!(remove_image(3), "window.rustleRemoveImage(3)");
    assert_eq!(
        set_color(ColorKind::Highlight, None),
        "window.rustleSetColor(\"highlight\", null)"
    );
    assert_eq!(
        insert_link("h", "t"),
        "window.rustleInsertLink(\"h\", \"t\")"
    );
    assert_eq!(
        update_link(1, "h", "t"),
        "window.rustleUpdateLink(1, \"h\", \"t\")"
    );
    assert_eq!(remove_link(1), "window.rustleRemoveLink(1)");
    assert!(swap_signature("<b>").contains("var block = \"<b>\";"));
    let list: Vec<&str> = commands().iter().map(|(_, command)| *command).collect();
    assert_eq!(serde_json::to_string(&list).unwrap(), COMMANDS_JSON);
    assert_eq!(command_for("strike"), "strikeThrough");
    assert_eq!(command_for("other"), "other");
}

#[test]
fn the_page_is_filled_in() {
    assert_eq!(
        page("__FAMILY__|__SIZE__|__ACCENT__|__BODY__|__COMMANDS__", "f", "9", "#fff", "<p>"),
        format!("f|9|#fff|<p>|{COMMANDS_JSON}")
    );
    assert_eq!(
        split_font(Some("Cantarell 11")),
        ("Cantarell".into(), "11".into())
    );
    assert_eq!(
        split_font(Some("Sans Bold")),
        ("Sans Bold".into(), "11".into())
    );
    assert_eq!(split_font(None), ("Sans".into(), "11".into()));
    assert_eq!(elide("hello", 5), "hello");
    assert_eq!(elide("hello!", 5), "hell…");
    assert_eq!(elide("hello", 0), "…");
    assert!(is_default_text_color("#241f31"));
    assert!(!is_default_text_color("#000000"));
    assert_eq!(size_label("medium"), "Medium");
    assert_eq!(size_label("x"), "Original");
    assert_eq!(font_size(9), "6");
}

#[test]
fn a_link_needs_an_address() {
    assert!(!may_confirm("  "));
    assert!(may_confirm("x"));
    assert_eq!(confirmed("text", ""), None);
    assert_eq!(confirmed("text", "  "), None);
    assert_eq!(confirmed("", " h ").map(|link| link.href), Some("h".into()));
    assert_eq!(
        confirmed("  ", "https://x.y"),
        Some(Link {
            text: "https://x.y".into(),
            href: "https://x.y".into()
        })
    );
    let form = link_form(&None, "word");
    assert!(form.starts_at_address);
    assert_eq!(form.heading, "Insert Link");
    let form = link_form(&confirmed("t", "h"), "");
    assert_eq!((form.confirm, form.href.as_str()), ("Save", "h"));
}

fn fields(to: &str, cc: &str, bcc: &str, subject: &str) -> Fields {
    Fields {
        to: to.into(),
        cc: cc.into(),
        bcc: bcc.into(),
        subject: subject.into(),
    }
}

#[test]
fn a_message_needs_someone_and_a_subject() {
    assert!(can_send(&fields("", "", "a@b.c", "s")));
    assert!(!can_send(&fields("a@b.c", "", "", " ")));
    assert!(!can_send(&fields(" , ", "", "", "s")));
    assert_eq!(
        recipients_display(&fields(" ", "c@d ", "", "")).as_deref(),
        Some("c@d")
    );
    assert_eq!(recipients_display(&fields("", "", "", "s")), None);
    assert!(has_content(&fields("", "", "", ""), "<p>x</p>"));
    assert!(!has_content(&fields(" ", "", "", ""), "<div><br></div>"));
    assert_eq!(draft_subject(" "), "(no subject)");
    assert_eq!(draft_subject(" a "), "a");
    assert_eq!(starting_body(""), "<div><br></div>");
}

#[test]
fn recipients_are_learned_and_addressed() {
    let all = all_recipients(&fields("Ada <ADA@x.y>", "junk", "b@x.y", ""));
    assert_eq!(all, vec!["Ada <ADA@x.y>", "junk", "b@x.y"]);
    assert_eq!(envelope_recipients(&all), vec!["ada@x.y", "b@x.y"]);
    assert_eq!(
        contacts(&all),
        vec![
            ("Ada".to_string(), "ADA@x.y".to_string()),
            ("junk".to_string(), String::new()),
            (String::new(), "b@x.y".to_string())
        ]
    );
}

#[test]
fn local_rows_describe_what_was_written() {
    let long = "x".repeat(150);
    let header = local_header("Someone", "Bob <B@x.y>", "S", &long, "now");
    assert_eq!(header.sender, "Someone");
    assert_eq!(header.recipient_address, "b@x.y");
    assert_eq!(header.preview.len(), 100);
    assert_eq!(header.date, "now");
    assert!(!header.is_unread);
    let sent = sent_header("me@x.y", "Bob <B@x.y>", "S", &long, "now");
    assert_eq!(sent.sender_address, "me@x.y");
    assert_eq!(sent.preview, "S");
}

#[test]
fn mailto_links_start_a_draft() {
    let mut from = account(1);
    from.signature = "Me".into();
    let draft = for_mailto(&from, "mailto:a@b.c?subject=Hi");
    assert_eq!(draft.to, "a@b.c");
    assert_eq!(
        draft.body_html,
        "<div class=\"signature\">-- <br>Me</div>"
    );
    let draft = for_mailto(&from, "mailto:a@b.c?body=x");
    assert_eq!(draft.body_html, "x");
    assert_eq!(block_for(&account(1)), "");
    let accounts = [account(4), account(9)];
    assert_eq!(account_index(&accounts, 9), 1);
    assert_eq!(account_index(&accounts, 5), 0);
}

#[test]
fn the_outbox_holds_a_message_until_it_is_taken() {
    let (state, action) = step(SendState::Composing, SendEvent::Built(true));
    assert_eq!(action, SendAction::Queue);
    let (sending, action) = step(state, SendEvent::Saved(Some(7)));
    assert_eq!(action, SendAction::HandOver);
    assert_eq!(
        step(sending, SendEvent::Answered(true)),
        (SendState::Closed, SendAction::File(7))
    );
    assert_eq!(
        step(sending, SendEvent::Answered(false)),
        (SendState::Closed, SendAction::Keep)
    );
    assert_eq!(
        step(state, SendEvent::Saved(None)),
        (SendState::Composing, SendAction::Nothing)
    );
    assert_eq!(
        step(SendState::Composing, SendEvent::Built(false)).1,
        SendAction::Complain
    );
    assert_eq!(
        step(SendState::Composing, SendEvent::Answered(true)).1,
        SendAction::Nothing
    );
}

#[test]
fn enter_picks_and_tab_moves_on() {
    assert!(key_pressed(true, Key::Enter, true).picks);
    assert!(key_pressed(true, Key::Enter, false).proceeds);
    let tab = key_pressed(true, Key::Tab, true);
    assert!(tab.closes && tab.proceeds && !tab.picks);
    assert_eq!(key_pressed(true, Key::Up, true).moves, -1);
    assert!(key_pressed(false, Key::Escape, true).proceeds);
    assert_eq!(move_selection(Some(0), true, 2), Some(1));
    assert_eq!(move_selection(Some(1), true, 2), Some(1));
    assert_eq!(move_selection(Some(0), false, 2), Some(0));
    assert_eq!(move_selection(None, true, 0), None);
}

#[test]
fn attachments_are_typed_by_name() {
    assert_eq!(
        attachment_label(Some("a.pdf")),
        ("a.pdf".into(), "application/pdf".into())
    );
    assert_eq!(
        attachment_label(None),
        ("attachment".into(), "application/octet-stream".into())
    );
}

fn email(sender: &str, recipient: &str) -> Email {
    Email {
        id: 1,
        folder_id: 1,
        server_id: None,
        sender: sender.into(),
        sender_address: format!("{sender}@x.y"),
        recipient: recipient.into(),
        recipient_address: format!("{recipient}@x.y"),
        subject: "S".into(),
        preview: String::new(),
        date: String::new(),
        is_unread: false,
        is_starred: false,
        is_pinned: false,
        message_id: String::new(),
        in_reply_to: String::new(),
        references: String::new(),
        conversation_id: None,
    }
}

#[test]
fn rows_name_the_other_side() {
    assert_eq!(party(&email("a", "b"), false), ("a", "a@x.y"));
    assert_eq!(party(&email("a", "b"), true), ("b", "b@x.y"));
    assert_eq!(party(&email("a", ""), true), ("a", "a@x.y"));
    let one = Conversation::new(vec![email("a", "b")]);
    assert_eq!(conversation_subject(&one), "S");
    let two = Conversation::new(vec![email("a", "b"), email("c", "d")]);
    assert_eq!(conversation_subject(&two), "S  (2)");
    assert_eq!(badge(0), ("0".into(), false));
    assert_eq!(badge(3), ("3".into(), true));
}

#[test]
fn bodies_go_nowhere() {
    assert_eq!(decide_policy("about:blank", false), Policy::Allow);
    assert_eq!(decide_policy("", false), Policy::Allow);
    assert_eq!(decide_policy("https://x.y", false), Policy::Block);
    assert_eq!(decide_policy("HTTPS://x.y", true), Policy::OpenOutside);
    assert_eq!(decide_policy("mailto:a@b", true), Policy::OpenOutside);
    assert_eq!(decide_policy("file:///etc/passwd", true), Policy::Block);
    assert_eq!(decide_policy("about:blank", true), Policy::Block);
    let light = style("#123456", false);
    assert!(light.ends_with("a:not([style]) { color: #123456; }"));
    assert!(style("#123456", true).contains("background-color: #1a1a1a; color: #f0f0f0;"));
}

#[test]
fn the_reader_prefers_markup() {
    let parsed = rustle::mime::parse_message(
        b"To: a@b.c\r\nBcc: d@e.f, g@h.i\r\nContent-Type: text/html\r\n\r\n<p>x</p>",
    );
    assert_eq!(body_of(&parsed), Body::Html("<p>x</p>"));
    assert_eq!(
        recipient_rows(&parsed),
        vec![("To", "a@b.c".to_string()), ("Bcc", "d@e.f, g@h.i".to_string())]
    );
    let plain = rustle::mime::parse_message(b"Subject: x\r\n\r\nwords");
    assert_eq!(body_of(&plain), Body::Text("words"));
}

fn servers(host: &str, port: &str) -> ServerFields {
    ServerFields {
        imap_host: host.into(),
        imap_port: port.into(),
        smtp_host: String::new(),
        smtp_port: "587".into(),
        imap_security: 0,
        smtp_security: 1,
    }
}

#[test]
fn typed_servers_are_kept() {
    let mut shown = servers("mine.example", "993");
    let mut own = servers("", "993");
    autofill_servers("a@gmail.com", &mut shown, &mut own);
    assert_eq!(shown.imap_host, "mine.example");
    assert_eq!(shown.smtp_host, "smtp.gmail.com");
    assert_eq!(own.smtp_host, "smtp.gmail.com");
    assert_eq!(own.imap_host, "");
    autofill_servers("a@nowhere.example", &mut shown, &mut own);
    assert_eq!(shown.smtp_host, "smtp.gmail.com");
}

#[test]
fn forms_make_accounts() {
    let mut form = AccountForm {
        display_name: " Me ".into(),
        email: " a@b.c ".into(),
        password: "pw".into(),
        servers: ServerFields {
            smtp_host: "s".into(),
            ..servers("i", " 993 ")
        },
    };
    assert!(can_add(&form));
    let added = new_account(&form).unwrap();
    assert_eq!(added.email, "a@b.c");
    assert_eq!(added.imap_port, 993);
    assert_eq!(added.smtp_security, Security::StartTls);
    form.password = " ".into();
    assert!(!can_add(&form));
    form.servers.smtp_port = "0".into();
    assert_eq!(new_account(&form), None);
}

fn online() -> OnlineAccount {
    OnlineAccount {
        goa_id: "g".into(),
        email: "a@b.c".into(),
        display_name: "a".into(),
        provider_name: "P".into(),
        imap_host: "i".into(),
        imap_port: 993,
        imap_security: Security::Tls,
        smtp_host: "s".into(),
        smtp_port: 465,
        smtp_security: Security::Tls,
        is_mail_supported: true,
        is_mail_enabled: true,
        is_oauth2: true,
    }
}

#[test]
fn online_accounts_are_offered_once() {
    assert_eq!(online_row(&online(), &[]), OnlineRow::Offered);
    assert_eq!(online_row(&online(), &["a@b.c".into()]), OnlineRow::Added);
    let unsupported = OnlineAccount {
        is_mail_supported: false,
        ..online()
    };
    assert!(matches!(
        online_row(&unsupported, &[]),
        OnlineRow::Unusable(Sentence::With { .. })
    ));
    let disabled = OnlineAccount {
        is_mail_enabled: false,
        ..online()
    };
    assert!(matches!(
        online_row(&disabled, &[]),
        OnlineRow::Unusable(Sentence::Plain(_))
    ));
    assert_eq!(imported(&online()).goa_id, "g");
}

#[test]
fn signatures_are_shown_and_saved() {
    let mut one = account(1);
    assert_eq!(subtitle(&one), "Me");
    assert_eq!(signature_line(&one), None);
    one.signature = "<div><br></div><p>Regards</p><p>Me</p>".into();
    one.label = "Work".into();
    assert_eq!(subtitle(&one), "1@example.com");
    assert_eq!(signature_line(&one).as_deref(), Some("Regards"));
    assert_eq!(saved_signature("<div><br></div>"), "");
    assert_eq!(saved_signature("<b>x</b>"), "<b>x</b>");
    assert_eq!(shared_signature(true, " x "), "x");
    assert_eq!(shared_signature(false, "x"), "");
}

#[test]
fn launching_and_opening() {
    let mut hidden = true;
    assert!(!activate(&mut hidden));
    assert!(activate(&mut hidden));
    assert_eq!(open("MAILTO:a@b", false, true), OpenAction::Compose);
    assert_eq!(open("mailto:a@b", true, true), OpenAction::InWindow);
    assert_eq!(open("mailto:a@b", false, false), OpenAction::ShowWindow);
    assert_eq!(open("https://x.y", true, true), OpenAction::Ignore);
    assert!(accels().contains(&("win.refresh", "F5")));
    assert_eq!(log_level(None), "warn");
}
