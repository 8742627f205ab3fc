//! Client and server messages, encoded as CBOR; see [`crate::frame`] for how
//! they travel. Every variant and field is numbered, and a message goes on
//! the wire as `[variant, [field 0, field 1, ...]]`, so the numbers are
//! positions and names never appear.
//!
//! Peers from different builds stay compatible when changes follow these
//! rules:
//! - Never renumber or reuse a variant or field number.
//! - A new field takes the next number and is an `Option`, so an older peer
//!   ignores it and a peer that lacks it decodes `None`. An optional enum
//!   field is read with [`crate::cbor::optional`].
//! - A required field that has shipped must be sent forever: removing it, or
//!   making it optional and sending `None`, breaks older peers.
//! - A new message, or a new value of an existing enum, goes only to a peer
//!   that listed the feature introducing it in the handshake (see
//!   [`protocol::FEATURES`]). A peer skips a message it does not know, but an
//!   unknown enum value inside a known message fails that message.
//! - `Hello` arrives before any feature is agreed, so its enum lists drop
//!   values this build does not know.
//! - The frame header, the head of `Hello` (`[0, [version, ...]]`) and the
//!   first two fields of `ServerMsg::Error` never change, so a version
//!   mismatch can always be reported; see [`Greeting`]. `Error` may gain
//!   more optional fields.
//!
//! A breaking change that these rules cannot express bumps
//! [`PROTOCOL_VERSION`].

pub mod bridge;
pub mod client;
pub mod greeting;
pub mod layout;
pub mod protocol;
pub mod server;
pub mod types;

pub use client::ClientMsg;
pub use greeting::Greeting;
pub use protocol::{
    features, is_incompatible, version_mismatch, ERROR_NO_CHROMA, ERROR_NO_CODEC, ERROR_VERSION, PROTOCOL_VERSION,
};
pub use server::ServerMsg;
pub use types::{Axis, ChromaMode, ClientCaps, Codec, OutputInfo, Rect, SessionInfo, VideoPipeline};
