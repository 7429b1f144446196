//! Safe creation of nul-terminated byte strings (C strings) with zero-byte
//! checking and support for concatenating several literal values.
//!
//! `builder` holds the bytes of a string while it is made and refuses zero
//! bytes; `literal` says what one literal token contributes; `tokens` decides
//! what a whole list of comma-separated literals spells.

pub mod builder;
pub mod byte_search;
pub mod literal;
pub mod tokens;

pub use builder::{ErrDetectedNullByte, NonZeroByte, SafeCStrBuilder};
pub use literal::{append_literal, parse_i8_decimal, parse_u8_decimal, LiteralError};
pub use tokens::{cstr, ArgState, CStrBytes, MacroError, MacroErrorKind, Token};
