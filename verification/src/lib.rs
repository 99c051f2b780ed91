//! YAML event loading and cursor-based decoding, with machine-checked contracts.
//!
//! A tokenizer's events are buffered one document at a time by the
//! [`loader`], and decoded on demand by the cursor in [`de`], which follows
//! aliases under a bounded budget. Plain scalars are typed by the YAML 1.2
//! core schema in [`scalar`]. Errors carry their place in the input where it
//! is known; see [`modules::error`].

pub mod de;
pub mod libyml;
pub mod loader;
pub mod modules;
pub mod number;
pub mod private;
pub mod scalar;
pub mod text;

pub use crate::de::Deserializer;
pub use crate::modules::error::{Error, Location};
