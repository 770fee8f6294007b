//! The text operations that reading a spell card is made of: trimming white
//! space, cutting a text into lines, and splitting a line at the separator
//! between a label and its value. Each is stated over sequences of
//! characters and carried out on string slices, without copying.

pub mod field;
pub mod lines;
pub mod trim;
