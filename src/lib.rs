//! A line-oriented text editor driven by a terse command language.
//!
//! The command grammar (addresses, ranges and verbs) and the editing state
//! machine are verified; reading input, printing and file access happen
//! around the library.

pub mod command;
pub mod editor;
pub mod text;
