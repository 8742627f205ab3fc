//! The video path over UDP: sealed datagrams, a frame split into parts, and
//! the receiver that puts frames back together, asks for the parts it
//! misses, and gives a frame up when they do not come.
//!
//! Every datagram is `seq (u64 LE) || ChaCha20-Poly1305(plaintext)` with the
//! sequence as nonce (together with the direction) and as associated data.
//! The key is a per-session secret the server hands over inside the SSH
//! session, so a datagram that does not authenticate is dropped without
//! further work. The plaintext is a postcard `Packet`, followed by the
//! part's bytes for a `Part`.

pub mod assemble;
pub mod cache;
pub mod delivery;
pub mod packet;
pub mod probe;
pub mod replay;
pub mod seal;
pub mod serve;
pub mod split;
pub mod varint;
