//! Notification sounds.

use rustle::sounds::{
    file_name_in, parse_index, theme_probes, theme_search_dirs, theme_sound_path, themes_named,
    NotificationSound, SearchDir, ThemeDir, NEW_MAIL_EVENT,
};

#[test]
fn choices_round_trip_through_their_stored_form() {
    for choice in [
        NotificationSound::Inherit,
        NotificationSound::System,
        NotificationSound::Silent,
        NotificationSound::File("/tmp/mail.wav".into()),
    ] {
        assert_eq!(NotificationSound::parse(&choice.as_setting()), choice);
    }
    assert_eq!(
        NotificationSound::parse("  none "),
        NotificationSound::Silent
    );
}

#[test]
fn an_account_inherits_the_default_and_the_default_never_inherits() {
    let file = NotificationSound::File("/a.ogg".into());
    assert_eq!(
        NotificationSound::resolve(&NotificationSound::Inherit, &file),
        file
    );
    assert_eq!(
        NotificationSound::resolve(&NotificationSound::Silent, &file),
        NotificationSound::Silent
    );
    assert_eq!(
        NotificationSound::resolve(&NotificationSound::Inherit, &NotificationSound::Inherit),
        NotificationSound::System
    );
    assert_eq!(file.file_name().as_deref(), Some("a.ogg"));
}

fn theme(name: &str, index: &str) -> ThemeDir {
    ThemeDir {
        theme: name.into(),
        index: index.into(),
    }
}

#[test]
fn the_event_name_walks_down_and_themes_fall_back_to_freedesktop() {
    let mut dirs = vec![SearchDir {
        path: "sounds".into(),
        themes: vec![
            theme(
                "freedesktop",
                "[Sound Theme]\nName=Default\nDirectories=stereo\n",
            ),
            theme(
                "mine",
                "[Sound Theme]\nName=Mine\nInherits=parent\nDirectories=stereo\n",
            ),
        ],
    }];
    let mut files = vec!["sounds/freedesktop/stereo/message.oga".to_string()];
    let path = |theme: &str, event: &str, dirs: &[SearchDir], files: &[String]| {
        theme_sound_path(event, theme, dirs, files)
    };

    // Nothing of its own: down the name in freedesktop.
    assert_eq!(
        path("mine", NEW_MAIL_EVENT, &dirs, &files).as_deref(),
        Some("sounds/freedesktop/stereo/message.oga")
    );
    // A parent's more specific sound wins over freedesktop's generic one.
    dirs[0].themes.push(theme("parent", ""));
    files.push("sounds/parent/stereo/message-new.ogg".into());
    assert_eq!(
        path("mine", NEW_MAIL_EVENT, &dirs, &files).as_deref(),
        Some("sounds/parent/stereo/message-new.ogg")
    );
    // The theme's own exact match wins over everything.
    files.push("sounds/mine/stereo/message-new-email.wav".into());
    assert_eq!(
        path("mine", NEW_MAIL_EVENT, &dirs, &files).as_deref(),
        Some("sounds/mine/stereo/message-new-email.wav")
    );
    // A theme that isn't installed still finds freedesktop.
    assert!(path("missing", NEW_MAIL_EVENT, &dirs, &files).is_some());
    assert_eq!(path("mine", "nothing-like-this", &dirs, &files), None);
}

#[test]
fn a_disabled_marker_silences_the_event() {
    let dirs = vec![SearchDir {
        path: "sounds".into(),
        themes: vec![theme("freedesktop", ""), theme("quiet", "")],
    }];
    let files = vec![
        "sounds/freedesktop/stereo/message.oga".to_string(),
        "sounds/quiet/stereo/message-new-email.disabled".to_string(),
    ];
    assert_eq!(
        theme_sound_path(NEW_MAIL_EVENT, "quiet", &dirs, &files),
        None
    );
}

#[test]
fn themes_that_name_each_other_end() {
    let dirs = vec![SearchDir {
        path: "s".into(),
        themes: vec![
            theme("a", "[Sound Theme]\nInherits=b\n"),
            theme("b", "[Sound Theme]\nInherits=a\n"),
        ],
    }];
    assert_eq!(theme_sound_path("message", "a", &dirs, &[]), None);
    assert_eq!(themes_named("a", &dirs), vec!["a", "freedesktop", "b", "a"]);
}

#[test]
fn the_search_order_and_what_is_asked_for() {
    assert_eq!(
        theme_search_dirs(Some("/home/a"), None, None),
        vec![
            "/home/a/.local/share/sounds",
            "/usr/local/share/sounds",
            "/usr/share/sounds"
        ]
    );
    assert_eq!(
        theme_search_dirs(Some("/home/a"), Some("/d"), Some("/x/::/y")),
        vec!["/d/sounds", "/x/sounds", "/y/sounds"]
    );
    assert!(theme_search_dirs(None, None, Some("")).is_empty());
    let probes = theme_probes("/t", "[Sound Theme]\nDirectories = hd , \n[Other]\nInherits=x", "a-b");
    let paths: Vec<&str> = probes.iter().map(|p| p.path.as_str()).collect();
    assert_eq!(paths.len(), 16);
    assert_eq!(paths[0], "/t/hd/a-b.disabled");
    assert_eq!(paths[1], "/t/hd/a-b.oga");
    assert_eq!(paths[4], "/t/stereo/a-b.disabled");
    assert_eq!(paths[8], "/t/hd/a.disabled");
    assert!(probes[0].silences && !probes[1].silences);
    let (subdirs, inherits) = parse_index("Inherits=x\n[Sound Theme]\nInherits=y, z\n");
    assert!(subdirs.is_empty());
    assert_eq!(inherits, vec!["y", "z"]);
}

#[test]
fn file_names_are_last_components() {
    for path in ["/a.ogg", "x/y/z.wav", "dir/", "a/.", "..", "/", ".", "", "a//b//"] {
        let expected = std::path::Path::new(path)
            .file_name()
            .map(|name| name.to_string_lossy().into_owned());
        assert_eq!(file_name_in(path), expected, "{path}");
    }
}
