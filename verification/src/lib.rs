//! The engine behind an interactive form that generates spell cards: a gate
//! that tells from the credential whether generation is enabled, and a
//! parser that turns the text of a card into a title and a list of entries.
//!
//! - [`credential`] decides whether a credential is usable.
//! - [`document`] holds the document model and the parser.
//! - [`session`] holds the state of the form and takes its events.
//! - [`text`] holds the text operations that the parser is made of.
//! - [`chars`] and [`scan`] hold what these need to walk a string slice.

pub mod chars;
pub mod credential;
pub mod document;
pub mod scan;
pub mod session;
pub mod text;
