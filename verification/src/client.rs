//! The platform-neutral half of a client: run the protocol, pace the server
//! with acks, and hand video payloads to a platform decoder.

pub mod cursor;
pub mod endpoint;
pub mod held;
pub mod keymap;
pub mod session;
pub mod ui;
