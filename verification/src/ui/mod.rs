//! What the windows decide: the words they show, what a key or a click leads
//! to, and what a form holds. Drawing them is not done here.

pub mod accounts;
pub mod actions;
pub mod avatar_loader;
pub mod colors;
pub mod composer;
pub mod editor;
pub mod i18n;
pub mod media;
pub mod playback;
pub mod preferences;
pub mod reader;
pub mod sound_row;
