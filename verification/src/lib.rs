//! A symbolication cache: a compact binary format that maps instruction
//! addresses to functions, source files and lines, the converter that builds
//! it, and the reader that looks addresses up in it.
//!
//! A [`Converter`] takes in debug information piece by piece and writes it
//! out as the bytes of a cache. A [`SymCache`] reads such bytes where they
//! lie and answers, for the address of an instruction, with the function,
//! the file and the line it belongs to, and with those of the calls that it
//! was inlined into.

pub mod converter;
pub mod dwarf_converter;
pub mod error;
pub mod format;
pub mod hist;
pub mod lookups;
pub mod usym;

pub use converter::Converter;
pub use error::ErrorSink;
pub use format::bytes::ByteOrder;
pub use format::cache::{Format, SymCache};
pub use format::error::Error;
