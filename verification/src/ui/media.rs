//! Tracks whether an MPRIS media player is actively playing.
//!
//! MPRIS players each own a session-bus name below
//! `org.mpris.MediaPlayer2`. What the bus says of them is kept here.

use vstd::prelude::*;
use crate::text;

verus! {

/// What the names of all players start with.
pub const MPRIS_PREFIX: &'static str = "org.mpris.MediaPlayer2.";

/// A player, and whether it is playing.
pub struct Player {
    pub name: String,
    pub is_playing: bool,
}

/// What is known of the players on the bus.
pub struct MediaActivity {
    pub players: Vec<Player>,
    /// Names whose players are being asked.
    pub pending: Vec<String>,
}

/// The names of some players.
pub open spec fn names(players: Seq<Player>) -> Seq<Seq<char>> {
    Seq::new(players.len(), |i: int| players[i].name@)
}

/// Whether a status says that a player is playing.
pub open spec fn says_playing(status: Option<Seq<char>>) -> bool {
    status == Some("Playing"@)
}

/// What the end of a name's owner and the start of another ask for.
#[derive(Clone, Copy, Debug, PartialEq, Eq, Structural)]
pub struct OwnerChange {
    /// The player is gone.
    pub removes: bool,
    /// A player is there.
    pub adds: bool,
}

impl MediaActivity {
    /// Whether no name stands twice, neither among the players nor among those that are asked.
    pub open spec fn wf(&self) -> bool {
        names(self.players@).no_duplicates() && text::texts(self.pending@).no_duplicates()
    }

    /// Whether a player of a name is known.
    pub open spec fn knows(&self, name: Seq<char>) -> bool {
        names(self.players@).contains(name)
    }

    /// Whether a player of a name is being asked.
    pub open spec fn awaits(&self, name: Seq<char>) -> bool {
        text::texts(self.pending@).contains(name)
    }

    /// Whether a player of a name is known to be playing.
    pub open spec fn plays(&self, name: Seq<char>) -> bool {
        exists|i: int|
            0 <= i < self.players@.len() && (#[trigger] self.players@[i]).name@ == name
                && self.players@[i].is_playing
    }

    /// Before the bus has answered nothing is playing.
    pub fn new() -> (r: Self)
        ensures
            r.wf(),
            forall|name: Seq<char>| !r.knows(name) && !r.awaits(name) && !#[trigger] r.plays(name),
    {
        MediaActivity { players: Vec::new(), pending: Vec::new() }
    }

    /// Whether any player is playing.
    pub fn is_playing(&self) -> (r: bool)
        ensures
            r == (exists|name: Seq<char>| #[trigger] self.plays(name)),
    {
        let mut i: usize = 0;
        while i < self.players.len()
            invariant
                i <= self.players.len(),
                forall|k: int| 0 <= k < i ==> !(#[trigger] self.players@[k]).is_playing,
            decreases self.players.len() - i,
        {
            if self.players[i].is_playing {
                assert(self.plays(self.players@[i as int].name@));
                return true;
            }
            i = i + 1;
        }
        false
    }

    fn find(&self, name: &str) -> (r: Option<usize>)
        ensures
            match r {
                Some(i) => i < self.players.len() && self.players@[i as int].name@ == name@,
                None => !self.knows(name@),
            },
    {
        let mut i: usize = 0;
        while i < self.players.len()
            invariant
                i <= self.players.len(),
                forall|k: int| 0 <= k < i ==> (#[trigger] self.players@[k]).name@ != name@,
            decreases self.players.len() - i,
        {
            if text::same_str(&self.players[i].name, name) {
                return Some(i);
            }
            i = i + 1;
        }
        proof {
            if self.knows(name@) {
                let k = choose|k: int|
                    0 <= k < names(self.players@).len() && names(self.players@)[k] == name@;
                assert(self.players@[k].name@ == name@);
            }
        }
        None
    }

    fn find_pending(&self, name: &str) -> (r: Option<usize>)
        ensures
            match r {
                Some(i) => i < self.pending.len() && self.pending@[i as int]@ == name@,
                None => !self.awaits(name@),
            },
    {
        let mut i: usize = 0;
        while i < self.pending.len()
            invariant
                i <= self.pending.len(),
                forall|k: int| 0 <= k < i ==> (#[trigger] self.pending@[k])@ != name@,
            decreases self.pending.len() - i,
        {
            if text::same_str(&self.pending[i], name) {
                return Some(i);
            }
            i = i + 1;
        }
        proof {
            if self.awaits(name@) {
                let t = text::texts(self.pending@);
                let k = choose|k: int| 0 <= k < t.len() && t[k] == name@;
                assert(self.pending@[k]@ == name@);
            }
        }
        None
    }

    /// A player's name appeared: whether it has to be asked, which is so for one that is neither
    /// known nor being asked.
    pub fn add_player(&mut self, name: &str) -> (r: bool)
        requires
            old(self).wf(),
        ensures
            final(self).wf(),
            final(self).players == old(self).players,
            r == (!old(self).knows(name@) && !old(self).awaits(name@)),
            text::texts(final(self).pending@) == (if r {
                text::texts(old(self).pending@).push(name@)
            } else {
                text::texts(old(self).pending@)
            }),
    {
        if self.find(name).is_some() {
            proof {
                let k = choose|k: int|
                    0 <= k < self.players@.len() && self.players@[k].name@ == name@;
                assert(names(self.players@)[k] == name@);
            }
            return false;
        }
        if self.find_pending(name).is_some() {
            proof {
                let k = choose|k: int| 0 <= k < self.pending@.len() && self.pending@[k]@ == name@;
                assert(text::texts(self.pending@)[k] == name@);
            }
            return false;
        }
        let ghost before = text::texts(self.pending@);
        self.pending.push(name.to_owned());
        proof {
            let after = text::texts(self.pending@);
            assert(after =~= before.push(name@));
            assert(after.no_duplicates()) by {
                assert forall|i: int, j: int|
                    0 <= i < after.len() && 0 <= j < after.len() && i != j implies after[i]
                    != after[j] by {
                    if i < before.len() {
                        assert(before.contains(before[i]));
                    }
                    if j < before.len() {
                        assert(before.contains(before[j]));
                    }
                }
            }
        }
        true
    }

    fn forget_pending(&mut self, name: &str)
        requires
            old(self).wf(),
        ensures
            final(self).wf(),
            final(self).players == old(self).players,
            forall|other: Seq<char>|
                #[trigger] final(self).awaits(other) == (old(self).awaits(other) && other != name@),
    {
        match self.find_pending(name) {
            Some(i) => {
                let ghost before = text::texts(self.pending@);
                self.pending.remove(i);
                proof {
                    removing_leaves_the_others(before, i as int);
                    assert(text::texts(self.pending@) =~= before.remove(i as int));
                }
            },
            None => {},
        }
    }

    /// A player answered: with its status, if it was still there. A player that vanished while it was
    /// being asked is not kept.
    pub fn player_answered(&mut self, name: &str, is_there: bool, is_playing: bool)
        requires
            old(self).wf(),
        ensures
            final(self).wf(),
            forall|other: Seq<char>|
                #[trigger] final(self).awaits(other) == (old(self).awaits(other) && other != name@),
            forall|other: Seq<char>|
                other != name@ ==> #[trigger] final(self).plays(other) == old(self).plays(other),
            forall|other: Seq<char>|
                #[trigger] final(self).knows(other) == (old(self).knows(other) || (is_there && other
                    == name@)),
            is_there ==> final(self).plays(name@) == is_playing,
            !is_there ==> final(self).plays(name@) == old(self).plays(name@),
    {
        self.forget_pending(name);
        let ghost mid = *self;
        if !is_there {
            return;
        }
        match self.find(name) {
            Some(i) => {
                assert(names(self.players@)[i as int] == name@);
                assert(mid.knows(name@));
                self.set_status(i, is_playing);
            },
            None => {
                let ghost before = self.players@;
                self.players.push(Player { name: name.to_owned(), is_playing });
                proof {
                    let after = self.players@;
                    assert(names(after) =~= names(before).push(name@));
                    assert(names(after).no_duplicates()) by {
                        assert forall|i: int, j: int|
                            0 <= i < after.len() && 0 <= j < after.len() && i != j implies names(
                            after,
                        )[i] != names(after)[j] by {
                            if i < before.len() {
                                assert(names(before).contains(names(before)[i]));
                            }
                            if j < before.len() {
                                assert(names(before).contains(names(before)[j]));
                            }
                        }
                    }
                    pushing_keeps_the_others(mid, *self, before, name@, is_playing);
                }
            },
        }
        proof {
            assert forall|other: Seq<char>| #[trigger] self.awaits(other) == (old(self).awaits(other)
                && other != name@) by {
                assert(mid.awaits(other) == self.awaits(other));
            }
            assert forall|other: Seq<char>| #[trigger] self.knows(other) == (old(self).knows(other)
                || other == name@) by {
                assert(mid.knows(other) == old(self).knows(other));
            }
        }
    }

    fn set_status(&mut self, i: usize, is_playing: bool)
        requires
            old(self).wf(),
            i < old(self).players.len(),
        ensures
            final(self).wf(),
            final(self).pending == old(self).pending,
            forall|other: Seq<char>| #[trigger] final(self).knows(other) == old(self).knows(other),
            forall|other: Seq<char>|
                other != old(self).players@[i as int].name@ ==> #[trigger] final(self).plays(other)
                    == old(self).plays(other),
            final(self).plays(old(self).players@[i as int].name@) == is_playing,
    {
        let ghost before = self.players@;
        let name = self.players[i].name.clone();
        self.players.set(i, Player { name, is_playing });
        proof {
            let after = self.players@;
            assert(names(after) =~= names(before));
            assert forall|other: Seq<char>| other != before[i as int].name@ implies #[trigger] self.plays(
                other,
            ) == old(self).plays(other) by {
                if self.plays(other) {
                    let k = choose|k: int|
                        0 <= k < after.len() && (#[trigger] after[k]).name@ == other
                            && after[k].is_playing;
                    assert(before[k] == after[k]);
                }
                if old(self).plays(other) {
                    let k = choose|k: int|
                        0 <= k < before.len() && (#[trigger] before[k]).name@ == other
                            && before[k].is_playing;
                    assert(after[k] == before[k]);
                }
            }
            let own = before[i as int].name@;
            if self.plays(own) {
                let k = choose|k: int|
                    0 <= k < after.len() && (#[trigger] after[k]).name@ == own
                        && after[k].is_playing;
                assert(names(after)[k] == names(after)[i as int]);
            }
            if is_playing {
                assert(after[i as int].is_playing);
            }
        }
    }

    /// A player's status changed: kept for the players that are known.
    pub fn status_changed(&mut self, name: &str, is_playing: bool)
        requires
            old(self).wf(),
        ensures
            final(self).wf(),
            final(self).pending == old(self).pending,
            forall|other: Seq<char>| #[trigger] final(self).knows(other) == old(self).knows(other),
            forall|other: Seq<char>|
                other != name@ ==> #[trigger] final(self).plays(other) == old(self).plays(other),
            final(self).plays(name@) == (old(self).knows(name@) && is_playing),
    {
        match self.find(name) {
            Some(i) => {
                assert(names(self.players@)[i as int] == name@);
                self.set_status(i, is_playing);
            },
            None => {
                proof {
                    if self.plays(name@) {
                        let k = choose|k: int|
                            0 <= k < self.players@.len() && (#[trigger] self.players@[k]).name@
                                == name@ && self.players@[k].is_playing;
                        assert(names(self.players@)[k] == name@);
                    }
                }
            },
        }
    }

    /// A player's name went: nothing of it is kept.
    pub fn remove_player(&mut self, name: &str)
        requires
            old(self).wf(),
        ensures
            final(self).wf(),
            !final(self).knows(name@),
            !final(self).awaits(name@),
            !final(self).plays(name@),
            forall|other: Seq<char>|
                other != name@ ==> #[trigger] final(self).plays(other) == old(self).plays(other),
            forall|other: Seq<char>|
                other != name@ ==> #[trigger] final(self).knows(other) == old(self).knows(other),
            forall|other: Seq<char>|
                other != name@ ==> #[trigger] final(self).awaits(other) == old(self).awaits(other),
    {
        self.forget_pending(name);
        let ghost mid = *self;
        let ghost before = self.players@;
        match self.find(name) {
            Some(i) => {
                self.players.remove(i);
                proof {
                    removing_leaves_the_others(names(before), i as int);
                    let after = self.players@;
                    assert(names(after) =~= names(before).remove(i as int));
                    assert(!names(after).contains(name@));
                    assert forall|other: Seq<char>| other != name@ implies #[trigger] self.plays(other)
                        == old(self).plays(other) by {
                        if self.plays(other) {
                            let k = choose|k: int|
                                0 <= k < after.len() && (#[trigger] after[k]).name@ == other
                                    && after[k].is_playing;
                            let m = if k < i {
                                k
                            } else {
                                k + 1
                            };
                            assert(before[m] == after[k]);
                        }
                        if old(self).plays(other) {
                            let k = choose|k: int|
                                0 <= k < before.len() && (#[trigger] before[k]).name@ == other
                                    && before[k].is_playing;
                            let m = if k < i {
                                k
                            } else {
                                k - 1
                            };
                            assert(after[m] == before[k]);
                        }
                    }
                    if self.plays(name@) {
                        let k = choose|k: int|
                            0 <= k < after.len() && (#[trigger] after[k]).name@ == name@
                                && after[k].is_playing;
                        assert(names(after)[k] == name@);
                    }
                }
            },
            None => {
                proof {
                    if self.plays(name@) {
                        let k = choose|k: int|
                            0 <= k < self.players@.len() && (#[trigger] self.players@[k]).name@
                                == name@ && self.players@[k].is_playing;
                        assert(names(self.players@)[k] == name@);
                    }
                }
            },
        }
        proof {
            assert forall|other: Seq<char>| #[trigger] self.awaits(other) == (old(self).awaits(other)
                && other != name@) by {
                assert(mid.awaits(other) == self.awaits(other));
            }
        }
    }
}

proof fn removing_leaves_the_others(s: Seq<Seq<char>>, i: int)
    requires
        s.no_duplicates(),
        0 <= i < s.len(),
    ensures
        s.remove(i).no_duplicates(),
        forall|x: Seq<char>| #[trigger]
            s.remove(i).contains(x) == (s.contains(x) && x != s[i]),
{
    let t = s.remove(i);
    assert forall|x: Seq<char>| #[trigger] t.contains(x) == (s.contains(x) && x != s[i]) by {
        if t.contains(x) {
            let k = choose|k: int| 0 <= k < t.len() && t[k] == x;
            let m = if k < i {
                k
            } else {
                k + 1
            };
            assert(s[m] == x);
        }
        if s.contains(x) && x != s[i] {
            let k = choose|k: int| 0 <= k < s.len() && s[k] == x;
            let m = if k < i {
                k
            } else {
                k - 1
            };
            assert(t[m] == x);
        }
    }
}

proof fn pushing_keeps_the_others(
    old_state: MediaActivity,
    state: MediaActivity,
    before: Seq<Player>,
    name: Seq<char>,
    is_playing: bool,
)
    requires
        old_state.players@ == before,
        !names(before).contains(name),
        state.players@.len() == before.len() + 1,
        forall|k: int| 0 <= k < before.len() ==> state.players@[k] == #[trigger] before[k],
        state.players@[before.len() as int].name@ == name,
        state.players@[before.len() as int].is_playing == is_playing,
    ensures
        forall|other: Seq<char>|
            #[trigger] state.knows(other) == (old_state.knows(other) || other == name),
        forall|other: Seq<char>|
            other != name ==> #[trigger] state.plays(other) == old_state.plays(other),
        state.plays(name) == is_playing,
{
    let after = state.players@;
    let n = before.len() as int;
    assert forall|other: Seq<char>| #[trigger] state.knows(other) == (old_state.knows(other) || other
        == name) by {
        if state.knows(other) {
            let k = choose|k: int| 0 <= k < names(after).len() && names(after)[k] == other;
            if k < n {
                assert(names(before)[k] == before[k].name@);
                assert(names(before)[k] == other);
            }
        }
        if old_state.knows(other) {
            let k = choose|k: int| 0 <= k < names(before).len() && names(before)[k] == other;
            assert(after[k] == before[k]);
            assert(names(after)[k] == other);
        }
        if other == name {
            assert(names(after)[n] == other);
        }
    }
    assert forall|other: Seq<char>| other != name implies #[trigger] state.plays(other)
        == old_state.plays(other) by {
        if state.plays(other) {
            let k = choose|k: int|
                0 <= k < after.len() && (#[trigger] after[k]).name@ == other && after[k].is_playing;
            assert(before[k] == after[k]);
        }
        if old_state.plays(other) {
            let k = choose|k: int|
                0 <= k < before.len() && (#[trigger] before[k]).name@ == other
                    && before[k].is_playing;
            assert(after[k] == before[k]);
        }
    }
    if state.plays(name) {
        let k = choose|k: int|
            0 <= k < after.len() && (#[trigger] after[k]).name@ == name && after[k].is_playing;
        if k < n {
            assert(before[k] == after[k]);
            assert(names(before)[k] == name);
        }
    }
    if is_playing {
        assert(after[n].is_playing);
    }
}

/// Whether a name on the bus is a player's.
pub fn is_player(name: &str) -> (r: bool)
    ensures
        r == text::starts_with(name@, MPRIS_PREFIX@),
{
    text::str_starts(name, MPRIS_PREFIX)
}

/// What a change of a name's owner asks for: nothing unless the name is a player's.
pub fn owner_changed(name: &str, old_owner: &str, new_owner: &str) -> (r: OwnerChange)
    ensures
        r.removes == (text::starts_with(name@, MPRIS_PREFIX@) && old_owner@.len() > 0),
        r.adds == (text::starts_with(name@, MPRIS_PREFIX@) && new_owner@.len() > 0),
{
    let ours = is_player(name);
    OwnerChange { removes: ours && !old_owner.is_empty(), adds: ours && !new_owner.is_empty() }
}

/// Whether a player's status, if it gave one, says that it is playing.
pub fn playback_status(status: Option<&str>) -> (r: bool)
    ensures
        r == says_playing(
            match status {
                Some(s) => Some(s@),
                None => None,
            },
        ),
{
    match status {
        Some(s) => text::same_str(s, "Playing"),
        None => false,
    }
}

} // verus!
