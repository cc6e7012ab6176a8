//! Verified core of IIDX on Ear: the music database decoder, the audio-container extractor, the song planner and the
//! naming rules that turn a song record into a tagged file in a per-version folder.

pub mod bytes;
pub mod common;
pub mod jacket;
pub mod music_db;
pub mod packer;
pub mod scan;
pub mod text;
pub mod tool;
pub mod unpack;
