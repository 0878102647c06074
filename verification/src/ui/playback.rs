//! What plays when mail arrives, and whether it may: which file it is comes
//! from `sounds`; the desktop's own sound settings are given here.

use vstd::prelude::*;
use crate::folders;
use crate::mail;
use crate::sounds;
use crate::sounds::NotificationSound;
use crate::text;

verus! {

/// The volume of a sound.
#[derive(Clone, Copy, Debug, PartialEq, Eq, Structural)]
pub enum Volume {
    Full,
    /// Kept low, while something else is playing.
    Quiet,
}

/// MIME types the media backend is known to play safely. MP3 is left out
/// on purpose: the backend aborts on it, and an abort can't be caught, so it's refused
/// up front.
pub open spec fn supported() -> Seq<Seq<char>> {
    seq![
        "audio/ogg"@,
        "audio/x-vorbis+ogg"@,
        "audio/x-opus+ogg"@,
        "audio/opus"@,
        "audio/flac"@,
        "audio/x-flac"@,
        "audio/x-wav"@,
        "audio/wav"@,
        "audio/vnd.wave"@,
        "audio/mp4"@,
        "audio/aac"@,
    ]
}

/// The types that may be played.
pub fn supported_mime_types() -> (r: Vec<&'static str>)
    ensures
        folders::str_texts(r@) == supported(),
{
    let types: Vec<&'static str> = vec![
        "audio/ogg",
        "audio/x-vorbis+ogg",
        "audio/x-opus+ogg",
        "audio/opus",
        "audio/flac",
        "audio/x-flac",
        "audio/x-wav",
        "audio/wav",
        "audio/vnd.wave",
        "audio/mp4",
        "audio/aac",
    ];
    assert(folders::str_texts(types@) =~= supported());
    types
}

/// Whether a file starts as an MP3 does: with an ID3 tag or an MPEG audio frame sync.
pub open spec fn starts_as_mp3(header: Seq<u8>) -> bool {
    ||| header.len() >= 3 && header[0] == 73 && header[1] == 68 && header[2] == 51
    ||| header.len() >= 2 && header[0] == 0xff && header[1] & 0xe6 == 0xe2
}

/// Whether a file may be handed to the media backend at all, judged by
/// its first bytes and the type that was guessed. The extension outranks content in the guess, so a
/// renamed MP3 is caught by hand.
pub fn is_playable(header: &[u8], mime: &str) -> (r: bool)
    ensures
        r == (!starts_as_mp3(header@) && supported().contains(mime@)),
{
    if header.len() >= 3 && header[0] == 73 && header[1] == 68 && header[2] == 51 {
        return false;
    }
    if header.len() >= 2 && header[0] == 0xff && header[1] & 0xe6 == 0xe2 {
        return false;
    }
    let types = supported_mime_types();
    let mut i: usize = 0;
    while i < types.len()
        invariant
            i <= types.len(),
            folders::str_texts(types@) == supported(),
            forall|k: int| 0 <= k < i ==> #[trigger] supported()[k] != mime@,
            !starts_as_mp3(header@),
        decreases types.len() - i,
    {
        assert(supported()[i as int] == folders::str_texts(types@)[i as int]);
        if text::same_str(types[i], mime) {
            return true;
        }
        i = i + 1;
    }
    false
}

/// The desktop's sound settings, where it has them.
#[derive(Clone, Debug)]
pub struct DesktopSound {
    pub event_sounds: bool,
    pub theme_name: String,
}

/// The sound theme to look in, unless the desktop has event sounds switched off.
pub open spec fn theme_for(settings: Option<DesktopSound>) -> Option<Seq<char>> {
    match settings {
        Some(s) => if !s.event_sounds {
            None
        } else if s.theme_name@.len() == 0 {
            Some(sounds::FALLBACK_THEME@)
        } else {
            Some(s.theme_name@)
        },
        None => Some(sounds::FALLBACK_THEME@),
    }
}

/// The sound theme to look in, unless the desktop has event sounds switched off.
pub fn sound_theme(settings: &Option<DesktopSound>) -> (r: Option<String>)
    ensures
        mail::opt(r) == theme_for(*settings),
{
    match settings {
        Some(s) => if !s.event_sounds {
            None
        } else if s.theme_name.as_str().is_empty() {
            Some(sounds::FALLBACK_THEME.to_owned())
        } else {
            Some(s.theme_name.clone())
        },
        None => Some(sounds::FALLBACK_THEME.to_owned()),
    }
}

/// The file that a choice plays, given the one that the desktop plays for new mail.
pub open spec fn file_for(sound: sounds::SoundView, system: Option<Seq<char>>) -> Option<Seq<char>> {
    match sound {
        sounds::SoundView::Inherit => system,
        sounds::SoundView::System => system,
        sounds::SoundView::Silent => None,
        sounds::SoundView::File(path) => Some(path),
    }
}

/// The file a resolved choice plays, or None for silence.
pub fn path_for(sound: &NotificationSound, system: Option<String>) -> (r: Option<String>)
    ensures
        mail::opt(r) == file_for(sound@, mail::opt(system)),
{
    match sound {
        NotificationSound::Inherit => system,
        NotificationSound::System => system,
        NotificationSound::Silent => None,
        NotificationSound::File(path) => Some(path.clone()),
    }
}

/// The volume of an arriving-mail sound: none under Do Not Disturb, and reduced while a media player
/// is active.
pub fn notification_volume(do_not_disturb: bool, media_is_playing: bool) -> (r: Option<Volume>)
    ensures
        r == (if do_not_disturb {
            None
        } else if media_is_playing {
            Some(Volume::Quiet)
        } else {
            Some(Volume::Full)
        }),
{
    if do_not_disturb {
        None
    } else if media_is_playing {
        Some(Volume::Quiet)
    } else {
        Some(Volume::Full)
    }
}

/// Whether to start a file: not one that cannot be played, and not one that still plays, so two
/// accounts arriving on the same tick make one sound.
pub fn starts_playing(path: &str, is_playable: bool, playing: &[String]) -> (r: bool)
    ensures
        r == (is_playable && !text::texts(playing@).contains(path@)),
{
    is_playable && !text::list_contains(playing, path)
}

/// MP3 is refused by its type as by its first bytes: it is none of the types that are played, and a
/// file that starts with the tag of one, or with the sync of an MPEG audio frame, is not played
/// whatever its type.
pub proof fn mp3_is_refused(header: Seq<u8>)
    ensures
        !supported().contains("audio/mpeg"@),
        !supported().contains("audio/mp3"@),
        header.len() >= 3 && header[0] == 'I' as u8 && header[1] == 'D' as u8 && header[2]
            == '3' as u8 ==> starts_as_mp3(header),
        header.len() >= 2 && header[0] == 0xff && (header[1] == 0xfb || header[1] == 0xfa
            || header[1] == 0xf3 || header[1] == 0xf2 || header[1] == 0xe3 || header[1] == 0xe2)
            ==> starts_as_mp3(header),
        header.len() > 0 && header[0] == 'O' as u8 ==> !starts_as_mp3(header),
{
    reveal_strlit("audio/mpeg");
    reveal_strlit("audio/mp3");
    reveal_strlit("audio/ogg");
    reveal_strlit("audio/x-vorbis+ogg");
    reveal_strlit("audio/x-opus+ogg");
    reveal_strlit("audio/opus");
    reveal_strlit("audio/flac");
    reveal_strlit("audio/x-flac");
    reveal_strlit("audio/x-wav");
    reveal_strlit("audio/wav");
    reveal_strlit("audio/vnd.wave");
    reveal_strlit("audio/mp4");
    reveal_strlit("audio/aac");
    assert(0xfbu8 & 0xe6 == 0xe2) by (bit_vector);
    assert(0xfau8 & 0xe6 == 0xe2) by (bit_vector);
    assert(0xf3u8 & 0xe6 == 0xe2) by (bit_vector);
    assert(0xf2u8 & 0xe6 == 0xe2) by (bit_vector);
    assert(0xe3u8 & 0xe6 == 0xe2) by (bit_vector);
    assert(0xe2u8 & 0xe6 == 0xe2) by (bit_vector);
    let types = supported();
    assert forall|i: int| 0 <= i < types.len() implies (#[trigger] types[i]) != "audio/mpeg"@
        && types[i] != "audio/mp3"@ by {
        assert("audio/mpeg"@[7] == 'p');
        assert("audio/mpeg"@.len() == 10);
        assert("audio/mp3"@[8] == '3');
        assert("audio/mp3"@.len() == 9);
        assert("audio/ogg"@[6] == 'o');
        assert("audio/wav"@[6] == 'w');
        assert("audio/aac"@[6] == 'a');
        assert("audio/mp4"@[8] == '4');
        assert("audio/mp3"@[6] == 'm');
        assert("audio/mpeg"@[6] == 'm');
        assert("audio/opus"@[6] == 'o');
        assert("audio/flac"@[6] == 'f');
        assert(i == 0 || i == 1 || i == 2 || i == 3 || i == 4 || i == 5 || i == 6 || i == 7 || i
            == 8 || i == 9 || i == 10);
    }
}

/// A silent choice plays nothing, a file plays itself, and any other plays what the desktop does.
/// Where the desktop has its event sounds off, no theme is looked in.
pub proof fn choices_play_what_they_say(
    path: Seq<char>,
    system: Option<Seq<char>>,
    settings: DesktopSound,
)
    ensures
        file_for(sounds::SoundView::Silent, system) is None,
        file_for(sounds::SoundView::File(path), system) == Some(path),
        file_for(sounds::SoundView::System, system) == system,
        file_for(sounds::SoundView::Inherit, system) == file_for(sounds::SoundView::System, system),
        !settings.event_sounds ==> theme_for(Some(settings)) is None,
        settings.event_sounds && settings.theme_name@.len() > 0 ==> theme_for(Some(settings)) == Some(
            settings.theme_name@,
        ),
        settings.event_sounds && settings.theme_name@.len() == 0 ==> theme_for(Some(settings))
            == theme_for(None),
        theme_for(None) == Some("freedesktop"@),
{
}

} // verus!
