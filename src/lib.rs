//! Picks a random proverb out of `%`-separated proverb files.
//!
//! The library holds the logic: where proverb files are looked for, which
//! listed entries count as proverb files, how a file's text splits into
//! proverbs, how one item is drawn at random, and how the chosen proverb is
//! laid out for the terminal.

pub mod parser;
pub mod selector;
pub mod collector;
pub mod paths;
pub mod install;
pub mod output;
pub mod report;
