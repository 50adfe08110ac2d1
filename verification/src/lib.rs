//! Scrobble a portable media player's playback history.
//!
//! The library decodes the player's on-disk tag-cache database, parses its
//! plain-text playback log, filters the samples that qualify as scrobbles,
//! joins them with track metadata, and prepares and interprets the signed
//! requests of the remote scrobbling API.  File and network transfers are
//! left to the caller: every function here works on plain values.

pub mod bytes;
pub mod config;
pub mod jsonval;
pub mod rockbox;
pub mod scrobble;
pub mod service;
pub mod text;
