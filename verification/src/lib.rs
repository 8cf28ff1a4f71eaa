//! An execution engine for an eight-instruction tape language.
//!
//! The engine owns a fixed-size tape of byte cells, a data pointer into it
//! and a stack of open loops. Program text is interpreted directly; every
//! character that is not one of `> < + - . , [ ]` is skipped. Input and
//! output go through the two one-method capabilities in [`io`].

pub mod brackets;
pub mod engine;
pub mod io;
pub mod laws;
pub mod model;
pub mod text;

pub use crate::brackets::find_loop_end;
pub use crate::engine::{Completion, Interpreter, ARRAY_MAX_SIZE};
pub use crate::io::{CharReader, CharWriter, Script, Transcript};
pub use crate::model::ProgramError;
pub use crate::text::characters;
