//! What the two peers say to each other about the clipboard.

use vstd::prelude::*;

verus! {

#[derive(Debug, Clone, PartialEq, Eq)]
pub struct ClipboardFile {
    /// Path relative to the copied item, `/`-separated; a top-level item is
    /// its own name.
    pub path: String,
    pub size: u64,
    pub dir: bool,
}

#[derive(Debug, Clone, PartialEq, Eq)]
pub enum ClipboardItem {
    Mime(String),
    /// Index into the offer's `files`.
    File(u32),
}

#[derive(Debug, Clone, PartialEq, Eq)]
pub enum ClipboardMsg {
    /// The sender's selection changed to something it can serve. Empty lists
    /// mean the selection was cleared or holds nothing forwardable.
    Offer { serial: u32, mime_types: Vec<String>, files: Vec<ClipboardFile> },
    /// Stream `item` from the offer with this serial. `id` is chosen by the
    /// requester.
    Request { id: u32, serial: u32, item: ClipboardItem },
    /// One chunk; the payload of `data_len` bytes follows on the wire.
    Data { id: u32, offset: u64, data_len: u32, done: bool },
    /// The requester has consumed `received` bytes so far.
    Ack { id: u32, received: u64 },
    /// Either side gives up on the transfer.
    Abort { id: u32 },
}

} // verus!
