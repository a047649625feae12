//! The binary layout of a cache and the reader on top of it.

pub mod bytes;
pub mod cache;
pub mod encode;
pub mod error;
pub mod layout;
pub mod lookup;
pub mod raw;
pub mod round_trip;
