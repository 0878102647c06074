//! A row that picks a new-mail sound: the system sound, silence or a
//! file of the user's own. Used for the app-wide default and per account,
//! where it also offers "App Default".

use vstd::prelude::*;
use crate::sounds;
use crate::sounds::NotificationSound;
use crate::ui::i18n;
use crate::ui::i18n::Sentence;

verus! {

/// What picking an entry leads to.
#[derive(Debug, PartialEq, Eq)]
pub enum Picked {
    /// This choice.
    Choice(NotificationSound),
    /// A file has to be asked for.
    AskForFile,
}

/// The entries of the row, in order: the first only where there is something to inherit.
pub fn labels(can_inherit: bool) -> (r: Vec<&'static str>)
    ensures
        r.len() == (if can_inherit {
            4int
        } else {
            3
        }),
        can_inherit ==> r@[0]@ == "App Default"@,
        r@[r.len() - 3]@ == "System Sound"@,
        r@[r.len() - 2]@ == "None"@,
        r@[r.len() - 1]@ == "Choose a File\u{2026}"@,
{
    let mut out: Vec<&'static str> = Vec::new();
    if can_inherit {
        out.push("App Default");
    }
    out.push("System Sound");
    out.push("None");
    out.push("Choose a File\u{2026}");
    out
}

/// The entry of a choice. A choice to inherit where there is nothing to inherit is shown as the
/// system sound, which is what an inherited empty default means.
pub open spec fn entry_of(sound: sounds::SoundView, can_inherit: bool) -> u32 {
    let offset: u32 = if can_inherit {
        1
    } else {
        0
    };
    match sound {
        sounds::SoundView::Inherit => 0,
        sounds::SoundView::System => offset,
        sounds::SoundView::Silent => (offset + 1) as u32,
        sounds::SoundView::File(_) => (offset + 2) as u32,
    }
}

/// The entry of a choice.
pub fn index_of(sound: &NotificationSound, can_inherit: bool) -> (r: u32)
    ensures
        r == entry_of(sound@, can_inherit),
{
    let offset: u32 = if can_inherit {
        1
    } else {
        0
    };
    match sound {
        NotificationSound::Inherit => 0,
        NotificationSound::System => offset,
        NotificationSound::Silent => offset + 1,
        NotificationSound::File(_) => offset + 2,
    }
}

/// What picking an entry leads to.
pub open spec fn picked(index: u32, can_inherit: bool) -> Option<sounds::SoundView> {
    if can_inherit && index == 0 {
        Some(sounds::SoundView::Inherit)
    } else if index == entry_of(sounds::SoundView::System, can_inherit) {
        Some(sounds::SoundView::System)
    } else if index == entry_of(sounds::SoundView::Silent, can_inherit) {
        Some(sounds::SoundView::Silent)
    } else {
        None
    }
}

/// What picking an entry leads to: all but the fixed choices ask for a file.
pub fn on_selected(index: u32, can_inherit: bool) -> (r: Picked)
    ensures
        match r {
            Picked::Choice(sound) => picked(index, can_inherit) == Some(sound@),
            Picked::AskForFile => picked(index, can_inherit) is None,
        },
{
    let offset: u32 = if can_inherit {
        1
    } else {
        0
    };
    if can_inherit && index == 0 {
        Picked::Choice(NotificationSound::Inherit)
    } else if index == offset {
        Picked::Choice(NotificationSound::System)
    } else if index == offset + 1 {
        Picked::Choice(NotificationSound::Silent)
    } else {
        Picked::AskForFile
    }
}

/// The entry that shows a choice, when picked again, makes that choice; that of a file asks for one.
pub proof fn entries_pick_what_they_show(sound: sounds::SoundView, can_inherit: bool)
    requires
        sound is Inherit ==> can_inherit,
    ensures
        picked(entry_of(sound, can_inherit), can_inherit) == (match sound {
            sounds::SoundView::File(_) => None,
            other => Some(other),
        }),
{
}

/// What is said of a choice below its row.
pub open spec fn subtitle_of(
    sound: sounds::SoundView,
    can_inherit: bool,
    is_playable: bool,
) -> i18n::SentenceView {
    match sound {
        sounds::SoundView::File(path) => if !is_playable {
            i18n::SentenceView::Plain(
                "Won't play: unsupported format. Use OGG, WAV, FLAC or Opus."@,
            )
        } else {
            i18n::SentenceView::Verbatim(
                match sounds::file_name_of(path) {
                    Some(name) => name,
                    None => Seq::empty(),
                },
            )
        },
        sounds::SoundView::Inherit => if can_inherit {
            i18n::SentenceView::Plain("Whatever Preferences says"@)
        } else {
            i18n::SentenceView::Plain("The desktop's new-mail sound"@)
        },
        sounds::SoundView::System => i18n::SentenceView::Plain("The desktop's new-mail sound"@),
        sounds::SoundView::Silent => i18n::SentenceView::Plain("Just the notification"@),
    }
}

/// What is said of a choice below its row, given whether a chosen file can be played.
pub fn subtitle(sound: &NotificationSound, can_inherit: bool, is_playable: bool) -> (r: Sentence)
    ensures
        r@ == subtitle_of(sound@, can_inherit, is_playable),
{
    match sound {
        NotificationSound::File(_) => if !is_playable {
            Sentence::Plain("Won't play: unsupported format. Use OGG, WAV, FLAC or Opus.")
        } else {
            match sound.file_name() {
                Some(name) => Sentence::Verbatim(name),
                None => Sentence::Verbatim(String::new()),
            }
        },
        NotificationSound::Inherit => if can_inherit {
            Sentence::Plain("Whatever Preferences says")
        } else {
            Sentence::Plain("The desktop's new-mail sound")
        },
        NotificationSound::System => Sentence::Plain("The desktop's new-mail sound"),
        NotificationSound::Silent => Sentence::Plain("Just the notification"),
    }
}

/// What a preview of a choice plays, resolved against the app default for an account's row.
pub fn preview(current: &NotificationSound, app_default: Option<&NotificationSound>) -> (r:
    NotificationSound)
    ensures
        r@ == sounds::resolved(
            current@,
            match app_default {
                Some(d) => d@,
                None => sounds::SoundView::System,
            },
        ),
{
    match app_default {
        Some(d) => NotificationSound::resolve(current, d),
        None => NotificationSound::resolve(current, &NotificationSound::System),
    }
}

} // verus!
