//! The protocol's version, features and error codes.

use vstd::prelude::*;
use crate::msg::server::ServerMsg;

verus! {

pub const PROTOCOL_VERSION: u16 = 1;

/// Optional behaviours this build supports, exchanged in the handshake. A
/// behaviour is used only when both ends list it.
pub const FEATURES: [&'static str; 0] = [];

/// The names in [`FEATURES`], as a peer sends them.
pub fn features() -> (names: Vec<String>)
    ensures
        names@.len() == FEATURES@.len(),
        forall|i: int| 0 <= i < names@.len() ==> names@[i]@ == FEATURES@[i]@,
{
    let mut names: Vec<String> = Vec::new();
    for i in 0..FEATURES.len()
        invariant
            names@.len() == i,
            forall|k: int| 0 <= k < i ==> names@[k]@ == FEATURES@[k]@,
    {
        names.push(FEATURES[i].to_string());
    }
    names
}

/// `ServerMsg::Error` codes. Codes 1 to 255 mean the two ends cannot work
/// together, so reconnecting would fail the same way; a new code in that
/// range is fatal even to clients that predate it.
pub const ERROR_VERSION: u16 = 1;

pub const ERROR_NO_CHROMA: u16 = 2;

pub const ERROR_NO_CODEC: u16 = 3;

pub fn is_incompatible(code: u16) -> (yes: bool)
    ensures
        yes == (1 <= code < 256),
{
    1 <= code && code < 256
}

/// Which end of a protocol version mismatch needs updating.
pub fn version_mismatch(client: u16, server: u16) -> (which: &'static str)
    ensures
        which == (if client < server {
            "Client version is too old"
        } else {
            "Server version is too old"
        }),
{
    if client < server {
        "Client version is too old"
    } else {
        "Server version is too old"
    }
}

impl ServerMsg {
    /// An error to a client, with this build's protocol version.
    pub fn error(code: u16, message: &str) -> (msg: Self)
        ensures
            msg matches ServerMsg::Error { code: c, message: m, version: v } && c == code && m@ == message@ && v
                == Some(PROTOCOL_VERSION),
    {
        ServerMsg::Error { code, message: message.to_string(), version: Some(PROTOCOL_VERSION) }
    }
}

} // verus!
