//! A tokenizer for markdown: it turns a text into a flat sequence of events.

pub mod configuration;
pub mod construct;
pub mod event;
pub mod names;
pub mod parser;
pub mod state;
pub mod tokenizer;

pub use configuration::{Constructs, ParseOptions};
