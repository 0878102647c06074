//! The logic of a mail client.

pub mod address;
pub mod avatars;
pub mod codec;
pub mod compose;
pub mod darkmode;
pub mod dates;
pub mod db;
pub mod folders;
pub mod forest;
pub mod goa;
pub mod html;
pub mod mail;
pub mod mime;
pub mod models;
pub mod net;
pub mod pattern;
pub mod providers;
pub mod secrets;
pub mod sort;
pub mod sounds;
pub mod sync;
pub mod text;
pub mod threader;
pub mod ui;
pub mod watch;
