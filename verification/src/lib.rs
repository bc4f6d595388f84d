//! Core logic of a launcher for Bevy game folders: where its files live,
//! how a folder is recognised and started, how GitHub search results become
//! store entries, what the project list shows, and how the launcher state
//! reacts to each button and background event.

pub mod paths;
pub mod readme;
pub mod project;
pub mod store;
pub mod tables;
pub mod ui;
pub mod state;
pub mod download;

