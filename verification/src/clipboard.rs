//! Clipboard transfer rules shared by both peers.
//!
//! A selection is never pushed. The side whose clipboard changed sends an
//! offer naming the mime types (and files) it can serve; the other side
//! advertises the same to its own compositor and only when an application
//! there pastes does it send a request. The data then flows as chunks of at
//! most [`flow::CHUNK`] bytes, with at most [`flow::WINDOW`] chunks in flight
//! before an ack, so a large payload neither stalls the video stream nor
//! buffers without bound on either peer. Either side may abort a transfer.
//!
//! Files (`text/uri-list` on the source clipboard) are not forwarded as URIs,
//! which would be meaningless on the other machine. The offer lists them by
//! relative path and size; the pasting side streams each one into a spool
//! directory and hands its applications a URI list pointing there.

pub mod mime;
pub mod uri;
pub mod files;
pub mod flow;
pub mod msg;
pub mod jobs;
pub mod progress;
pub mod sink;
pub mod spool;
pub mod transfer;
