//! The serving side: what it queues for the socket, what it tells the user
//! of, and what it decides in a session.

pub mod bridge;
pub mod input;
pub mod notify;
pub mod queue;
pub mod session;
pub mod setup;
