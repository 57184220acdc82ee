//! Yunyin: the engine of a music player.
//!
//! Everything the player decides or computes lives here and is proved: tag and
//! cover parsing, the byte window behind network playback, the provider's
//! request encryption and login dialogue, and the playback state machines.
//! Reading files, sockets, threads and the audio device stay outside.

pub mod bgm;
pub mod deck;
pub mod deck_laws;
pub mod decoder;
pub mod host;
pub mod json;
pub mod source;
pub mod tags;
pub mod pump;
pub mod text;
pub mod text_laws;
pub mod ui;
pub mod net;
pub mod platform;
pub mod provider;
