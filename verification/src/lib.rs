//! A streaming, non-validating XML tokenizer over an in-memory buffer.
//!
//! The scanner turns a borrowed string into a lazy sequence of lexical
//! events; attribute pairs and entity-escaped text are decoded lazily by
//! their own cursors. Every value handed out is a borrowed view into the
//! original buffer, and every lazy sequence stops for good after its first
//! error.

pub mod attrs;
pub mod error;
pub mod scanner;
pub mod strscan;
pub mod text;

pub use crate::attrs::Attrs;
pub use crate::error::Error;
pub use crate::scanner::Event;
pub use crate::scanner::Parser;
pub use crate::text::Text;

