//! A loader for a strict dialect of YAML: text in, trees of strings out.
//!
//! The text is scanned into tokens, the tokens are parsed into events, and the
//! events are folded into documents.  Every scalar stays the string that was
//! written: nothing is read as a number, a truth value or null.

pub mod chars;
pub mod directives;
pub mod event;
pub mod laws;
pub mod lexeme;
pub mod loader;
pub mod machine;
pub mod marker;
pub mod parser;
pub mod reader;
pub mod scalars;
pub mod scanner;
pub mod strict_yaml;
pub mod token;
pub mod tree;

pub use crate::event::Event;
pub use crate::marker::ScanError;
pub use crate::strict_yaml::{StrictYaml, StrictYamlLoader};
