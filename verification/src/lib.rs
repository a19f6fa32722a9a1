//! A reader for Pro Tools session files.
//!
//! A session file is a short clear header and an obfuscated body. The body, once
//! decrypted, is a tree of tagged blocks, and the session is spread over these blocks:
//! its sample rate, the audio files it refers to, the regions cut from them, the tracks
//! with the regions placed on them, and the markers.
//!
//! The reader works on bytes in memory. [`PtSession::from_bytes`] reads a whole session;
//! [`parser::PtSessionParser`] gives the steps one by one. What each step returns is
//! stated as a function of the bytes, and proved.

pub mod error;
pub mod layout;
pub mod collect;
pub mod read_traits;
pub mod reader;
pub mod decrypt;
pub mod content_description;
pub mod session;
pub mod blocks;
pub mod parser;
pub mod audio;
pub mod regions;
pub mod tracks;
pub mod placements;
pub mod timeline;
pub mod markers;
pub mod decode;
pub mod render;

pub use session::PtSession;
