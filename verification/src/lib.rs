//! The verified core of a remote desktop: wire formats, the video path over
//! datagrams, clipboard transfer, rate control and colour conversion.

pub mod cbor;
pub mod client;
pub mod clipboard;
pub mod codec;
pub mod convert;
pub mod error;
pub mod frame;
pub mod gpu;
pub mod h264;
pub mod msg;
pub mod probe;
pub mod rate;
pub mod server;
pub mod text;
pub mod udp;
pub mod video;
