//! The data that the YAML tokenizer hands over: marks, errors, tags, events.

pub mod cstr;
pub mod error;
pub mod parser;
pub mod tag;
