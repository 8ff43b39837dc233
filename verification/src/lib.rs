//! A log highlighter: finders locate byte spans in a line, a merge step
//! resolves overlaps by priority, and a render pass emits ANSI-styled text.

pub mod style;
pub mod config;
pub mod text;
pub mod matching;
pub mod automaton;
pub mod palette;
pub mod span;
pub mod merge;
pub mod render;
pub mod finders;
pub mod pipeline;
pub mod highlighter;
pub mod cli;
pub mod colors;
pub mod laws;
pub mod finder_laws;
pub mod io_config;
pub mod config_parser;
pub mod config_util;
pub mod consolidator;
pub mod cli_highlighter;
pub mod controller;

pub use highlighter::{Highlighter, HighlighterBuilder, HighlighterError};
