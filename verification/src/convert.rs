//! Fused BGRA <-> I420 conversion for the CPU pipeline: BT.709 limited range
//! in 13-bit fixed point. The result may differ from the exact formula by one
//! code value where a sample rounds at .5.

pub mod frame;
pub mod pixel;
pub mod plane;
pub mod split;
pub mod unpack;
