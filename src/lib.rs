//! Verified core of a local-file music player: track metadata shaping,
//! artwork cache naming, library indexing and ranked search, the playback
//! session state machine, and the listening history.
pub mod history;
pub mod library;
pub mod metadata;
pub mod models;
pub mod playback;
pub mod scanner;
pub mod text;
