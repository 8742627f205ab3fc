//! CBOR values: numbers, text, bytes, lists, rows of numbered fields, and
//! what a newer peer may add to them.

pub mod item;
pub mod list;
pub mod row;
pub mod wire;

pub use item::{DecodeError, F32, F64};
pub use list::{known, none, optional};
pub use wire::{decode, to_vec};
