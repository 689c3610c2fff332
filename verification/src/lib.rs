//! Songbook ("SHB") text format: data model, chord and music-block lexers,
//! a character-driven song parser, and the small pieces of HTML rendering
//! logic that decide what is shown for a chord.

pub mod base;
pub mod deep_copy;
pub mod grammar;
pub mod keyed;
pub mod grammar_music;
pub mod grammar_sections;
pub mod grammar_song;
pub mod loading;
pub mod parser;
pub mod prototype;
pub mod render;
pub mod shb_parser;
pub mod song_parse;
pub mod text;
pub mod toneutil;
pub mod util;
