//! Scrobble resolution engine: classifies playback events, resolves loosely
//! identified show titles against a remote watch list (by explicit override or
//! by confidence-scored fuzzy matching), and decides whether a progress update
//! is due.

pub mod anilist;
pub mod api;
pub mod data;
pub mod db;
pub mod levenshtein;
pub mod massage;
pub mod plex;
pub mod score;
pub mod scrobble;
pub mod utils;
