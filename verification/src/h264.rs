//! H.264 headers: the fields a hardware decoder must be told.

pub mod bits;
pub mod parser;
pub mod slice;
pub mod syntax;
pub mod written_slice;
pub mod written_sets;
