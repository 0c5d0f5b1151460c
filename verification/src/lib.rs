//! A small line-oriented text search: given a query and a text, find the
//! lines of the text that contain the query, exactly or ignoring case.
//!
//! The crate is verified with Verus. Contracts are stated over the character
//! sequences that strings denote; see [`text`] for the model.

pub mod config;
pub mod encoding;
pub mod folding;
pub mod laws;
pub mod matcher;
pub mod text;

pub use config::{run, Config, ConfigError, ConfigView, CASE_INSENSITIVE_VARIABLE};
pub use matcher::{contains, search, search_case_insensitive, split_first_line};
