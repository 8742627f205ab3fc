//! The error of the video header parsers.

use vstd::prelude::*;

verus! {

#[derive(Debug, Clone, Copy, PartialEq, Eq)]
pub enum Error {
    /// A coded header is cut short, out of range or not supported.
    Bitstream(&'static str),
}

} // verus!
