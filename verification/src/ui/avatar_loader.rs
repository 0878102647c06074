//! Which pictures have to be fetched: address to picture, fetched in the background and cached in
//! memory. A cached "none" means nobody had a picture, so a sender without one costs a
//! single request per session.

use vstd::hash_map::StringHashMap;
use vstd::prelude::*;
use crate::avatars;
use crate::text;

verus! {

/// How many answers are kept: then they are all forgotten at once.
pub const MAX_CACHED: usize = 500;

/// What a wish for a picture leads to.
#[derive(Clone, Copy, Debug, PartialEq, Eq, Structural)]
pub enum LoadAction {
    /// There is nothing to show.
    Nothing,
    /// The picture is here: show it.
    Show,
    /// The picture is on its way: show it then.
    Wait,
    /// Fetch the picture, and show it then.
    Fetch,
}

/// What is known of pictures.
pub struct AvatarCache {
    /// Whether an address has a picture, for those that were asked about.
    pub answers: StringHashMap<bool>,
    /// The addresses that are being asked about.
    pub waiting: StringHashMap<bool>,
}

/// What a wish for a picture leads to.
pub open spec fn action_for(
    answers: Map<Seq<char>, bool>,
    waiting: Map<Seq<char>, bool>,
    address: Seq<char>,
    is_enabled: bool,
) -> LoadAction {
    let key = avatars::normal_form(address);
    if key.len() == 0 || !is_enabled {
        LoadAction::Nothing
    } else if answers.contains_key(key) {
        if answers[key] {
            LoadAction::Show
        } else {
            LoadAction::Nothing
        }
    } else if waiting.contains_key(key) {
        LoadAction::Wait
    } else {
        LoadAction::Fetch
    }
}

impl AvatarCache {
    /// Nothing is known yet.
    pub fn new() -> (r: Self)
        ensures
            r.answers@ == Map::<Seq<char>, bool>::empty(),
            r.waiting@ == Map::<Seq<char>, bool>::empty(),
    {
        AvatarCache { answers: StringHashMap::new(), waiting: StringHashMap::new() }
    }

    /// What a wish for the picture of an address leads to, where pictures are wanted at all.
    pub fn load(&mut self, address: &str, is_enabled: bool) -> (r: LoadAction)
        ensures
            r == action_for(old(self).answers@, old(self).waiting@, address@, is_enabled),
            final(self).answers@ == old(self).answers@,
            final(self).waiting@ == (if r == LoadAction::Fetch {
                old(self).waiting@.insert(avatars::normal_form(address@), true)
            } else {
                old(self).waiting@
            }),
    {
        let key = avatars::normalized(address);
        if key.as_str().is_empty() || !is_enabled {
            return LoadAction::Nothing;
        }
        if self.answers.contains_key(&key) {
            let found = match self.answers.get(&key) {
                Some(has) => *has,
                None => false,
            };
            return if found {
                LoadAction::Show
            } else {
                LoadAction::Nothing
            };
        }
        if self.waiting.contains_key(&key) {
            return LoadAction::Wait;
        }
        self.waiting.insert(key, true);
        LoadAction::Fetch
    }

    /// The answer for an address is here.
    pub fn deliver(&mut self, address: &str, has_picture: bool)
        ensures
            final(self).answers@ == (if old(self).answers@.len() >= MAX_CACHED {
                Map::<Seq<char>, bool>::empty()
            } else {
                old(self).answers@
            }).insert(address@, has_picture),
            final(self).waiting@ == old(self).waiting@.remove(address@),
    {
        if self.answers.len() >= MAX_CACHED {
            self.answers.clear();
        }
        self.answers.insert(address.to_owned(), has_picture);
        self.waiting.remove(address);
    }
}

/// While an address is being asked about, and once its answer is known, nobody asks about it again.
pub proof fn nobody_is_asked_twice(
    answers: Map<Seq<char>, bool>,
    waiting: Map<Seq<char>, bool>,
    address: Seq<char>,
    is_enabled: bool,
)
    requires
        answers.contains_key(avatars::normal_form(address)) || waiting.contains_key(
            avatars::normal_form(address),
        ),
    ensures
        action_for(answers, waiting, address, is_enabled) != LoadAction::Fetch,
{
}

/// Whether a picture that arrives is still wanted by a row that may show another sender by now.
pub fn is_wanted(shown: &str, arrived: &str) -> (r: bool)
    ensures
        r == (shown@ == arrived@),
{
    text::same_str(shown, arrived)
}

} // verus!
