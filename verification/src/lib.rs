//! Bounded code spans: finds the block of source text (function, type, impl,
//! Markdown fence or a line window) that contains a given line.
pub mod text;
pub mod symbol;
pub mod span;
pub mod cli;
pub mod backend;
pub mod render;
pub mod search;
pub mod run;
pub mod laws;
