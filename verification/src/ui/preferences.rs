//! Preferences: which interval a row of the list stands for, and what becomes
//! of the switch for starting at login, which the desktop portal decides.

use vstd::prelude::*;
use crate::text;

verus! {

/// The interval where none of those offered is stored.
pub const DEFAULT_SYNC_INTERVAL_MINUTES: i32 = 15;

/// The minutes between syncs, in row order. Zero: manual only.
pub open spec fn intervals() -> Seq<i32> {
    seq![0i32, 5, 15, 30, 60]
}

/// The minutes between syncs and their labels, in row order. Zero: manual only.
pub fn sync_intervals() -> (r: Vec<(i32, &'static str)>)
    ensures
        r.len() == intervals().len(),
        forall|i: int| 0 <= i < r.len() ==> (#[trigger] r@[i]).0 == intervals()[i],
        r@[0].1@ == "Manually"@,
        r@[1].1@ == "Every 5 minutes"@,
        r@[2].1@ == "Every 15 minutes"@,
        r@[3].1@ == "Every 30 minutes"@,
        r@[4].1@ == "Every hour"@,
{
    vec![
        (0, "Manually"),
        (5, "Every 5 minutes"),
        (15, "Every 15 minutes"),
        (30, "Every 30 minutes"),
        (60, "Every hour"),
    ]
}

/// The row for a stored interval, falling back to the default.
pub open spec fn row_of(minutes: i32) -> u32 {
    if minutes == 0 {
        0
    } else if minutes == 5 {
        1
    } else if minutes == 30 {
        3
    } else if minutes == 60 {
        4
    } else {
        2
    }
}

/// The combo row for a stored interval, falling back to the default.
pub fn interval_index(minutes: i32) -> (r: u32)
    ensures
        r == row_of(minutes),
{
    if minutes == 0 {
        0
    } else if minutes == 5 {
        1
    } else if minutes == 30 {
        3
    } else if minutes == 60 {
        4
    } else {
        2
    }
}

/// A row stands for what is stored if it is offered, and for the default if it is not.
pub proof fn rows_stand_for_what_is_stored(minutes: i32)
    ensures
        row_of(minutes) < intervals().len(),
        intervals()[row_of(minutes) as int] == (if intervals().contains(minutes) {
            minutes
        } else {
            DEFAULT_SYNC_INTERVAL_MINUTES
        }),
{
    let all = intervals();
    assert(all[0] == 0 && all[1] == 5 && all[2] == 15 && all[3] == 30 && all[4] == 60);
}

/// The minutes that a row stands for, if it is one of the list.
pub fn interval_minutes(row: u32) -> (r: Option<i32>)
    ensures
        r == (if row < intervals().len() {
            Some(intervals()[row as int])
        } else {
            None
        }),
{
    if row == 0 {
        Some(0)
    } else if row == 1 {
        Some(5)
    } else if row == 2 {
        Some(15)
    } else if row == 3 {
        Some(30)
    } else if row == 4 {
        Some(60)
    } else {
        None
    }
}

// --- starting at login ----------------------------------------------------

/// A bus name without the colons that it starts with.
pub open spec fn without_colons(name: Seq<char>) -> Seq<char>
    decreases name.len(),
{
    if name.len() > 0 && name[0] == ':' {
        without_colons(name.skip(1))
    } else {
        name
    }
}

/// The part of a request's path that names who asks.
pub open spec fn sender_part(name: Option<Seq<char>>) -> Seq<char> {
    match name {
        Some(n) => text::replace_char(without_colons(n), '.', "_"@),
        None => Seq::empty(),
    }
}

/// The token of a request, from a random identifier.
pub fn request_token(uuid: &str) -> (r: String)
    ensures
        r@ == "rustle_"@ + text::replace_char(uuid@, '-', "_"@),
{
    let mut out = text::chars_of("rustle_");
    text::extend(
        &mut out,
        &text::replaced_char(&text::chars_of(uuid), '-', &text::chars_of("_")),
    );
    text::text_of(&out)
}

/// The path that the portal's answer comes from, given our name on the bus.
pub fn request_path(unique_name: Option<&str>, token: &str) -> (r: String)
    ensures
        r@ == "/org/freedesktop/portal/desktop/request/"@ + sender_part(
            match unique_name {
                Some(n) => Some(n@),
                None => None,
            },
        ) + "/"@ + token@,
{
    let mut out = text::chars_of("/org/freedesktop/portal/desktop/request/");
    if let Some(name) = unique_name {
        let chars = text::chars_of(name);
        let mut i: usize = 0;
        assert(chars@.skip(0) =~= chars@);
        while i < chars.len() && chars[i] == ':'
            invariant
                i <= chars.len(),
                without_colons(chars@.skip(i as int)) == without_colons(chars@),
            decreases chars.len() - i,
        {
            assert(chars@.skip(i as int)[0] == chars@[i as int]);
            assert(chars@.skip(i as int).skip(1) =~= chars@.skip(i + 1));
            i = i + 1;
        }
        let rest = text::slice_of(&chars, i, chars.len());
        proof {
            assert(rest@ =~= chars@.skip(i as int));
            if i < chars.len() {
                assert(rest@[0] == chars@[i as int]);
            }
        }
        text::extend(&mut out, &text::replaced_char(&rest, '.', &text::chars_of("_")));
    } else {
        assert(out@ =~= out@ + Seq::<char>::empty());
    }
    text::extend_str(&mut out, "/");
    text::extend_str(&mut out, token);
    text::text_of(&out)
}

/// Whether a click on the switch asks the portal: not while the row is put back, and not for what
/// is the case.
pub fn asks_portal(is_wanted: bool, is_stored: bool, is_settling: bool) -> (r: bool)
    ensures
        r == (!is_settling && is_wanted != is_stored),
{
    !is_settling && is_wanted != is_stored
}

/// What the portal's answer comes to.
#[derive(Clone, Copy, Debug, PartialEq, Eq, Structural)]
pub struct Settled {
    /// What is stored and shown.
    pub is_enabled: bool,
    /// Whether to say that it could not be changed.
    pub has_failed: bool,
}

/// What the portal's answer comes to. One other than zero is a cancel or a failure: nothing was
/// changed.
pub open spec fn settled(
    response: Option<u32>,
    autostart: Option<bool>,
    is_wanted: bool,
    is_stored: bool,
) -> Settled {
    let is_enabled = if response == Some(0u32) {
        autostart == Some(true)
    } else {
        is_stored
    };
    Settled { is_enabled, has_failed: is_enabled != is_wanted }
}

/// What the portal's answer comes to, as far as it could be read.
pub fn autostart_response(
    response: Option<u32>,
    autostart: Option<bool>,
    is_wanted: bool,
    is_stored: bool,
) -> (r: Settled)
    ensures
        r == settled(response, autostart, is_wanted, is_stored),
{
    let granted = match response {
        Some(code) => code == 0,
        None => false,
    };
    let is_enabled = if granted {
        match autostart {
            Some(on) => on,
            None => false,
        }
    } else {
        is_stored
    };
    Settled { is_enabled, has_failed: is_enabled != is_wanted }
}

/// A refused or unread request leaves what is stored as it was.
pub proof fn refusals_change_nothing(
    response: Option<u32>,
    autostart: Option<bool>,
    is_wanted: bool,
    is_stored: bool,
)
    requires
        response != Some(0u32),
    ensures
        settled(response, autostart, is_wanted, is_stored).is_enabled == is_stored,
{
}

} // verus!
