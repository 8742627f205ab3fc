//! The head of a frame, and what is refused.

use vstd::prelude::*;
use crate::cbor::item::{list_at, DecodeError};

verus! {

pub const HEADER_LEN: usize = 8;

/// Largest CBOR body either end sends or accepts.
pub const MAX_FRAME_BODY: usize = 0x10_0000;

/// Largest single payload a message may declare (a keyframe).
pub const MAX_PAYLOAD: u32 = 64 * 1024 * 1024;

/// Largest total payload of one frame: a keyframe's main and aux streams.
pub const MAX_FRAME_PAYLOAD: u32 = 2 * MAX_PAYLOAD;

#[derive(Debug, Clone, Copy, PartialEq, Eq, Structural)]
pub enum Error {
    Decode(DecodeError),
    /// A frame body of this many bytes exceeds the limit.
    BodyTooLarge(u32),
    /// A payload of this many bytes exceeds the limit.
    PayloadTooLarge(u32),
    /// More payload was asked for than the frame has left.
    PayloadOverrun { asked: u32, left: u32 },
}

#[derive(Debug, Clone, Copy, PartialEq, Eq, Structural)]
pub struct Header {
    pub body_len: u32,
    pub payload_len: u32,
}

/// The number in the four bytes at `p`, lowest first.
pub open spec fn le_value(s: Seq<u8>, p: int) -> int {
    s[p] + 0x100 * s[p + 1] + 0x1_0000 * s[p + 2] + 0x100_0000 * s[p + 3]
}

/// A number in four bytes, lowest first.
pub open spec fn le_bytes(v: u32) -> Seq<u8> {
    seq![
        (v % 0x100) as u8,
        (v / 0x100 % 0x100) as u8,
        (v / 0x1_0000 % 0x100) as u8,
        (v / 0x100_0000) as u8,
    ]
}

impl Header {
    pub open spec fn bytes(self) -> Seq<u8> {
        le_bytes(self.body_len) + le_bytes(self.payload_len)
    }

    /// The header at the front of bytes.
    pub open spec fn of(s: Seq<u8>) -> Header {
        Header { body_len: le_value(s, 0) as u32, payload_len: le_value(s, 4) as u32 }
    }

    /// What a reader says to it.
    pub open spec fn refused(self) -> Option<Error> {
        if self.body_len > MAX_FRAME_BODY {
            Some(Error::BodyTooLarge(self.body_len))
        } else if self.payload_len > MAX_FRAME_PAYLOAD {
            Some(Error::PayloadTooLarge(self.payload_len))
        } else {
            None
        }
    }

    pub(crate) fn write(self, out: &mut Vec<u8>)
        ensures
            final(out)@ == old(out)@ + self.bytes(),
    {
        put_le(out, self.body_len);
        put_le(out, self.payload_len);
        assert(out@ =~= old(out)@ + self.bytes());
    }

    pub(crate) fn read(s: &[u8]) -> (h: Header)
        requires
            s@.len() == HEADER_LEN,
        ensures
            h == Header::of(s@),
    {
        Header { body_len: get_le(s, 0), payload_len: get_le(s, 4) }
    }

    pub(crate) fn check(self) -> (e: Option<Error>)
        ensures
            e == self.refused(),
    {
        if self.body_len as usize > MAX_FRAME_BODY {
            Some(Error::BodyTooLarge(self.body_len))
        } else if self.payload_len > MAX_FRAME_PAYLOAD {
            Some(Error::PayloadTooLarge(self.payload_len))
        } else {
            None
        }
    }
}

fn put_le(out: &mut Vec<u8>, v: u32)
    ensures
        final(out)@ == old(out)@ + le_bytes(v),
{
    out.push((v % 0x100) as u8);
    out.push((v / 0x100 % 0x100) as u8);
    out.push((v / 0x1_0000 % 0x100) as u8);
    out.push((v / 0x100_0000) as u8);
    assert(out@ =~= old(out)@ + le_bytes(v));
}

fn get_le(s: &[u8], p: usize) -> (v: u32)
    requires
        p + 4 <= s@.len() <= HEADER_LEN,
    ensures
        v == le_value(s@, p as int),
{
    s[p] as u32 + 0x100 * s[p + 1] as u32 + 0x1_0000 * s[p + 2] as u32 + 0x100_0000 * s[p + 3] as u32
}

/// A header is read back.
pub proof fn law_header_round_trip(h: Header, rest: Seq<u8>)
    ensures
        h.bytes().len() == HEADER_LEN,
        Header::of(h.bytes() + rest) == h,
{
    let s = h.bytes() + rest;
    assert(s[0] == le_bytes(h.body_len)[0] && s[1] == le_bytes(h.body_len)[1]);
    assert(s[2] == le_bytes(h.body_len)[2] && s[3] == le_bytes(h.body_len)[3]);
    assert(s[4] == le_bytes(h.payload_len)[0] && s[5] == le_bytes(h.payload_len)[1]);
    assert(s[6] == le_bytes(h.payload_len)[2] && s[7] == le_bytes(h.payload_len)[3]);
}

/// Whether an error is the message's own variant being unknown, as opposed
/// to an unknown value inside a message this build does know. Messages are
/// `[variant, fields]`, so the variant stands right behind the list's head.
pub open spec fn unknown_message(body: Seq<u8>, e: DecodeError) -> bool {
    match (e, list_at(body, 0)) {
        (DecodeError::UnknownVariant { at }, Ok((_, p))) => at == p,
        _ => false,
    }
}

/// A header is eight bytes: the length of the body, then that of what follows
/// it, each with its lowest byte first.
pub proof fn law_headers_on_the_wire(h: Header)
    ensures
        h.bytes().len() == 8,
        ({
            let b = h.bytes();
            &&& h.body_len == b[0] + 256 * (b[1] + 256 * (b[2] + 256 * b[3]))
            &&& h.payload_len == b[4] + 256 * (b[5] + 256 * (b[6] + 256 * b[7]))
        }),
{
}

/// A body of more than a mebibyte is refused, and so is more than 128 of them
/// behind it; nothing else is.
pub proof fn law_what_headers_are_refused(h: Header)
    ensures
        h.body_len > 1_048_576 <==> h.refused() == Some(Error::BodyTooLarge(h.body_len)),
        h.body_len <= 1_048_576 && h.payload_len > 134_217_728 <==> h.refused() == Some(
            Error::PayloadTooLarge(h.payload_len),
        ),
        h.refused() is None <==> h.body_len <= 1_048_576 && h.payload_len <= 134_217_728,
{
}

} // verus!
