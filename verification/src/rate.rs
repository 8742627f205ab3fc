//! Rate control for a frame-paced stream.
//!
//! The controller follows the shape of Google Congestion Control
//! (draft-ietf-rmcat-gcc): multiplicative start-up, ~8%/s growth when quiet,
//! a cut to 0.85x the delivered rate on sustained delay growth. It works per
//! frame, not per packet, because TCP gives one ack per frame after decode.
//!
//! Everything here is pure logic on what a link estimator measured: methods
//! take `now`, in nanoseconds of a clock that does not go back.

pub mod bitrate;
pub mod control;
pub mod flight;
pub mod ladder;
pub mod window;

pub use control::{Bounds, RateController, Reason, Startup, Step, Window};
pub use ladder::{Affordable, Ladder, Level};
