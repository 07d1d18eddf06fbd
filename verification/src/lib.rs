//! A hand-written, zero-copy recursive-descent HTML parser.
//!
//! The parser works directly on a raw byte buffer and produces a typed
//! abstract syntax tree.  A cursor is an immutable `&[u8]` view of the
//! remaining input; every parsing function consumes a cursor and returns a
//! new cursor positioned after what it consumed, paired with its result.
pub mod ast;
pub mod config;
pub mod escape;
pub mod grammar;
pub mod laws;
pub mod parse_utils;
pub mod parser;
pub mod replace;
