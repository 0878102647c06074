//! The application: its keyboard shortcuts, and what it does when it is
//! launched, raised or handed a link.

use vstd::prelude::*;
use crate::text;
use crate::ui::reader;

verus! {

/// The actions with a shortcut, and their keys.
pub open spec fn shortcuts() -> Seq<(Seq<char>, Seq<char>)> {
    seq![
        ("app.preferences"@, "<control>comma"@),
        ("app.new-window"@, "<control><shift>n"@),
        ("app.shortcuts"@, "<control>question"@),
        ("app.quit"@, "<control>q"@),
        ("win.toggle-read"@, "<control>i"@),
        ("win.toggle-star"@, "<control>s"@),
        ("win.toggle-pin"@, "<control>p"@),
        ("win.archive"@, "<control>e"@),
        ("win.trash"@, "<control>Delete"@),
        ("win.compose"@, "<control>n"@),
        ("win.reply"@, "<control>r"@),
        ("win.reply-all"@, "<control><shift>r"@),
        ("win.forward"@, "<control><shift>f"@),
        ("win.refresh"@, "F5"@),
        ("win.search"@, "<control>f"@),
    ]
}

/// What a list of shortcuts says.
pub open spec fn shortcut_views(list: Seq<(&'static str, &'static str)>) -> Seq<
    (Seq<char>, Seq<char>),
> {
    Seq::new(list.len(), |i: int| (list[i].0@, list[i].1@))
}

/// The actions with a shortcut, and their keys. Flag actions are Ctrl-modified so they don't fire
/// while typing in search.
pub fn accels() -> (r: Vec<(&'static str, &'static str)>)
    ensures
        shortcut_views(r@) == shortcuts(),
{
    let list: Vec<(&'static str, &'static str)> = vec![
        ("app.preferences", "<control>comma"),
        ("app.new-window", "<control><shift>n"),
        ("app.shortcuts", "<control>question"),
        ("app.quit", "<control>q"),
        ("win.toggle-read", "<control>i"),
        ("win.toggle-star", "<control>s"),
        ("win.toggle-pin", "<control>p"),
        ("win.archive", "<control>e"),
        ("win.trash", "<control>Delete"),
        ("win.compose", "<control>n"),
        ("win.reply", "<control>r"),
        ("win.reply-all", "<control><shift>r"),
        ("win.forward", "<control><shift>f"),
        ("win.refresh", "F5"),
        ("win.search", "<control>f"),
    ];
    assert(shortcut_views(list@) =~= shortcuts());
    list
}

/// Whether an activation shows the window. Only the launch activation of a hidden start stays hidden;
/// later ones raise it.
pub fn activate(starts_hidden: &mut bool) -> (r: bool)
    ensures
        r == !*old(starts_hidden),
        !*final(starts_hidden),
{
    let shows = !*starts_hidden;
    *starts_hidden = false;
    shows
}

/// What is done with a link that the desktop hands over.
#[derive(Clone, Copy, Debug, PartialEq, Eq, Structural)]
pub enum OpenAction {
    /// Nothing: it is none that we know.
    Ignore,
    /// The main window composes from it.
    InWindow,
    /// A composer opens and nothing else.
    Compose,
    /// There is no account to compose from: the window is shown instead.
    ShowWindow,
}

/// What is done with a link that the desktop hands over. A mailto: link opens the composer and
/// nothing else; the main window is only presented when there is no account to compose from.
pub fn open(uri: &str, has_window: bool, has_account: bool) -> (r: OpenAction)
    ensures
        r == (if !text::starts_with(text::lowercase(uri@), "mailto:"@) {
            OpenAction::Ignore
        } else if has_window {
            OpenAction::InWindow
        } else if has_account {
            OpenAction::Compose
        } else {
            OpenAction::ShowWindow
        }),
{
    if !reader::is_mailto(uri) {
        OpenAction::Ignore
    } else if has_window {
        OpenAction::InWindow
    } else if has_account {
        OpenAction::Compose
    } else {
        OpenAction::ShowWindow
    }
}

/// The log level: quiet unless it is turned up.
pub fn log_level(setting: Option<&str>) -> (r: String)
    ensures
        r@ == (match setting {
            Some(s) => s@,
            None => "warn"@,
        }),
{
    match setting {
        Some(s) => s.to_owned(),
        None => "warn".to_owned(),
    }
}

} // verus!
