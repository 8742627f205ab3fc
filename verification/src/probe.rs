//! Checks that a machine can run the server and the client.

pub mod checks;
pub mod picture;
pub mod roundtrip;
pub mod serve;
