//! Which graphics device and queues carry the video, by what the driver
//! reports of them.

pub mod device;
pub mod driver;
