//! Lexical machines that find candidates in source text, and the string
//! machine, which finds quoted strings.
//!
//! A [`Cursor`] walks a byte buffer; a [`Machine`] is offered the cursor and
//! either reports a [`Span`] or nothing. [`extract_all`] drives one machine
//! over a whole buffer.

pub mod class;
pub mod cursor;
pub mod extractor;
pub mod scanner;
pub mod span;

pub use crate::class::{class_of, classify, Class};
pub use crate::cursor::{byte_at, Cursor, CursorView};
pub use crate::extractor::machine::{extract_all, Machine, MachineState};
pub use crate::extractor::string_machine::StringMachine;
pub use crate::scanner::{ChangedContent, DetectSources, GlobEntry, ScannerOptions};
pub use crate::span::Span;
