//! Wire framing: a header, a CBOR message, then raw payload bytes whose
//! lengths the message declares.
//!
//! Layout on the wire, little-endian:
//! ```text
//! u32 body_len | u32 payload_len | body_len bytes of CBOR message | payload_len bytes
//! ```
//! The payload bytes are the video `data`/`aux`, cursor `argb`, or clipboard
//! `data` chunk. They are kept out of the CBOR body so the encoder's output
//! goes straight to the socket in one vectored write. The header carries the
//! payload length too, so a reader can skip a message it does not know.
//!
//! This layout never changes, whatever the protocol version.

pub mod buffer;
pub mod header;
pub mod incoming;
pub mod reader;
pub mod stream;
pub mod writer;

pub use header::{Error, Header, HEADER_LEN, MAX_FRAME_BODY, MAX_FRAME_PAYLOAD, MAX_PAYLOAD};
pub use incoming::{payloads_of, Payloads};
pub use reader::Framed;
pub use writer::{remainder, write_msg, write_msg_with_payloads};
