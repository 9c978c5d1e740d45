//! Episode parsing, subtitle matching and library bookkeeping for an anime
//! subtitle organizer, with the rules stated and proved in Verus.

pub mod text;
pub mod path;
pub mod domain;
pub mod tokens;
pub mod slots;
pub mod sort;
pub mod parser;
pub mod rules;
pub mod template;
pub mod natural;
pub mod matcher;
pub mod scanner;
pub mod organizer;
pub mod library;
pub mod settings;
pub mod crf;
pub mod mpv;
pub mod laws;
