//! Interactive editor for ordered lists of filesystem paths, as found in
//! PATH-like environment variables.
//!
//! The crate is organised as a pure list model (`list`), command parsing
//! (`parse`), the separator codec that turns the variable's value into a
//! list and back (`codec`), and the interactive controller state machine
//! (`editor`). All list mutations and command dispatch are verified; the
//! surrounding terminal I/O lives outside this crate.

pub mod codec;
pub mod editor;
pub mod list;
pub mod parse;
