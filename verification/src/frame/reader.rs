//! Frames out of a byte stream, however it is cut.

use bytes::BytesMut;
use vstd::prelude::*;
use crate::cbor::item::{get_list, DecodeError};
use crate::cbor::wire::{decode, decoded, Get, Wire};
use crate::frame::buffer::{append, buffered, drop_front, empty_buffer, held, take_front};
use crate::frame::header::{
    unknown_message, Error, Header, HEADER_LEN, MAX_FRAME_PAYLOAD, MAX_PAYLOAD,
};

verus! {

/// Reads messages and their payloads from bytes as they arrive.
pub struct Framed {
    read_buf: BytesMut,
    /// Header of a frame whose body has not arrived, so a read that ran out
    /// of bytes resumes where it stopped.
    pending: Option<Header>,
    /// Payload bytes of the last message the caller has not read yet.
    payload_left: u32,
    /// Bytes to discard before the next header: a skipped message's payload,
    /// or payload the caller left unread.
    skip_left: u64,
}

/// The state of a reader.
#[verifier::ext_equal]
pub struct FramedView {
    pub buf: Seq<u8>,
    pub pending: Option<Header>,
    pub payload_left: nat,
    pub skip_left: nat,
}

/// What reading a message came to.
pub enum Outcome<M> {
    /// More bytes are needed.
    More,
    Message(M),
    Failed(Error),
}

impl FramedView {
    /// No bytes are to be discarded while a header or a payload is pending.
    pub open spec fn wf(self) -> bool {
        &&& self.payload_left <= MAX_FRAME_PAYLOAD
        &&& self.skip_left <= MAX_FRAME_PAYLOAD
        &&& self.payload_left > 0 ==> self.skip_left == 0 && self.pending is None
        &&& self.pending matches Some(h) ==> self.skip_left == 0 && h.refused() is None
    }

    /// With more bytes behind those that have arrived.
    pub open spec fn with(self, more: Seq<u8>) -> FramedView {
        FramedView { buf: self.buf + more, ..self }
    }

    /// Payload that was left unread, and what is to be skipped, is discarded
    /// as far as it has arrived.
    pub open spec fn discarded(self) -> FramedView {
        let skip = self.skip_left + self.payload_left;
        let n = if skip <= self.buf.len() {
            skip
        } else {
            self.buf.len()
        };
        FramedView {
            buf: self.buf.skip(n as int),
            payload_left: 0,
            skip_left: (skip - n) as nat,
            ..self
        }
    }

    /// The next header, if it has arrived.
    pub open spec fn headed(self) -> (FramedView, Result<Option<Header>, Error>) {
        let a = self.discarded();
        if a.skip_left > 0 {
            (a, Ok(None))
        } else if a.pending is Some {
            (a, Ok(a.pending))
        } else if a.buf.len() < HEADER_LEN {
            (a, Ok(None))
        } else {
            let h = Header::of(a.buf);
            let b = FramedView { buf: a.buf.skip(HEADER_LEN as int), ..a };
            match h.refused() {
                Some(e) => (b, Err(e)),
                None => (FramedView { pending: Some(h), ..b }, Ok(Some(h))),
            }
        }
    }

    /// The next message this build knows.
    pub open spec fn next<M: Wire>(self) -> (FramedView, Outcome<M::Model>)
        decreases self.buf.len(),
    {
        match self.headed() {
            (a, Err(e)) => (a, Outcome::Failed(e)),
            (a, Ok(None)) => (a, Outcome::More),
            (a, Ok(Some(h))) => if a.buf.len() < h.body_len {
                (a, Outcome::More)
            } else {
                let body = a.buf.take(h.body_len as int);
                let b = FramedView { buf: a.buf.skip(h.body_len as int), pending: None, ..a };
                match decoded::<M>(body) {
                    Ok(m) => (FramedView { payload_left: h.payload_len as nat, ..b }, Outcome::Message(m)),
                    Err(e) => if unknown_message(body, e) {
                        FramedView { skip_left: h.payload_len as nat, ..b }.next::<M>()
                    } else {
                        (b, Outcome::Failed(Error::Decode(e)))
                    },
                }
            },
        }
    }

    /// Why `len` payload bytes cannot be read.
    pub open spec fn payload_refused(self, len: u32) -> Option<Error> {
        if len > MAX_PAYLOAD {
            Some(Error::PayloadTooLarge(len))
        } else if len > self.payload_left {
            Some(Error::PayloadOverrun { asked: len, left: self.payload_left as u32 })
        } else {
            None
        }
    }
}

impl View for Framed {
    type V = FramedView;

    closed spec fn view(&self) -> FramedView {
        FramedView {
            buf: held(self.read_buf),
            pending: self.pending,
            payload_left: self.payload_left as nat,
            skip_left: self.skip_left as nat,
        }
    }
}

/// What a reader returned, held against what it comes to.
pub open spec fn told<M: Wire>(res: Result<Option<M>, Error>, want: Outcome<M::Model>) -> bool {
    match (res, want) {
        (Ok(None), Outcome::More) => true,
        (Ok(Some(v)), Outcome::Message(m)) => v.model() == m,
        (Err(a), Outcome::Failed(b)) => a == b,
        _ => false,
    }
}

fn is_unknown_message(body: &[u8], e: &DecodeError) -> (yes: bool)
    ensures
        yes == unknown_message(body@, *e),
{
    match (e, get_list(body, 0)) {
        (DecodeError::UnknownVariant { at }, Ok((_, p))) => *at == p,
        _ => false,
    }
}

impl Framed {
    pub fn new() -> (r: Framed)
        ensures
            r@ == (FramedView { buf: Seq::empty(), pending: None, payload_left: 0, skip_left: 0 }),
            r@.wf(),
    {
        Framed { read_buf: empty_buffer(64 * 1024), pending: None, payload_left: 0, skip_left: 0 }
    }

    /// How many bytes wait to be read.
    pub fn buffered(&self) -> (n: usize)
        ensures
            n == self@.buf.len(),
    {
        buffered(&self.read_buf)
    }

    /// Payload bytes of the last message that are still to be read.
    pub fn payload_left(&self) -> (n: u32)
        ensures
            n == self@.payload_left,
    {
        self.payload_left
    }

    /// Bytes that have arrived.
    pub fn feed(&mut self, data: &[u8])
        requires
            old(self)@.buf.len() + data@.len() <= isize::MAX,
        ensures
            final(self)@ == old(self)@.with(data@),
    {
        append(&mut self.read_buf, data);
    }

    fn discard(&mut self)
        requires
            old(self)@.wf(),
        ensures
            final(self)@ == old(self)@.discarded(),
            final(self)@.wf(),
    {
        self.skip_left = self.skip_left + self.payload_left as u64;
        self.payload_left = 0;
        let arrived: usize = buffered(&self.read_buf);
        if self.skip_left <= arrived as u64 {
            let n: usize = self.skip_left as usize;
            drop_front(&mut self.read_buf, n);
            self.skip_left = 0;
        } else {
            drop_front(&mut self.read_buf, arrived);
            self.skip_left = self.skip_left - arrived as u64;
        }
    }

    fn header(&mut self) -> (res: Result<Option<Header>, Error>)
        requires
            old(self)@.wf(),
        ensures
            (final(self)@, res) == old(self)@.headed(),
            final(self)@.wf(),
            res matches Ok(Some(h)) ==> final(self)@.pending == Some(h) && final(self)@.skip_left == 0
                && final(self)@.payload_left == 0 && h.refused() is None,
            final(self)@.buf.len() <= old(self)@.buf.len(),
    {
        self.discard();
        if self.skip_left > 0 {
            return Ok(None);
        }
        if self.pending.is_some() {
            return Ok(self.pending);
        }
        if buffered(&self.read_buf) < HEADER_LEN {
            return Ok(None);
        }
        let ghost before = held(self.read_buf);
        let front: Vec<u8> = take_front(&mut self.read_buf, HEADER_LEN);
        let h: Header = Header::read(front.as_slice());
        proof {
            assert(Header::of(front@) == Header::of(before));
        }
        match h.check() {
            Some(e) => Err(e),
            None => {
                self.pending = Some(h);
                Ok(Some(h))
            },
        }
    }

    /// Reads one message, or says that more bytes are needed. Its payload (if
    /// any) is then read with `read_payload` according to the message's
    /// declared lengths; payload left unread is discarded before the next
    /// message. A message this build does not know is skipped, payload and
    /// all.
    pub fn read_msg<M: Get>(&mut self) -> (res: Result<Option<M>, Error>)
        requires
            old(self)@.wf(),
        ensures
            final(self)@ == old(self)@.next::<M>().0,
            told(res, old(self)@.next::<M>().1),
            final(self)@.wf(),
    {
        loop
            invariant
                self@.wf(),
                self@.next::<M>() == old(self)@.next::<M>(),
            decreases self@.buf.len(),
        {
            let ghost start = self@;
            let h: Header = match self.header() {
                Err(e) => return Err(e),
                Ok(None) => return Ok(None),
                Ok(Some(h)) => h,
            };
            let ghost a = self@;
            let len: usize = h.body_len as usize;
            if buffered(&self.read_buf) < len {
                return Ok(None);
            }
            let body: Vec<u8> = take_front(&mut self.read_buf, len);
            self.pending = None;
            match decode::<M>(body.as_slice()) {
                Ok(msg) => {
                    self.payload_left = h.payload_len;
                    return Ok(Some(msg));
                },
                Err(e) => {
                    if !is_unknown_message(body.as_slice(), &e) {
                        return Err(Error::Decode(e));
                    }
                    self.skip_left = h.payload_len as u64;
                    proof {
                        assert(self@ =~= (FramedView {
                            buf: a.buf.skip(len as int),
                            pending: None,
                            skip_left: h.payload_len as nat,
                            ..a
                        }));
                    }
                },
            }
        }
    }

    /// Reads exactly `len` payload bytes that follow a message, or says that
    /// more bytes are needed.
    pub fn read_payload(&mut self, len: u32) -> (res: Result<Option<Vec<u8>>, Error>)
        requires
            old(self)@.wf(),
        ensures
            final(self)@.wf(),
            match old(self)@.payload_refused(len) {
                Some(e) => res == Err::<Option<Vec<u8>>, Error>(e) && final(self)@ == old(self)@,
                None => if old(self)@.buf.len() < len {
                    res == Ok::<Option<Vec<u8>>, Error>(None) && final(self)@ == old(self)@
                } else {
                    &&& res matches Ok(Some(bytes)) && bytes@ == old(self)@.buf.take(len as int)
                    &&& final(self)@ == (FramedView {
                        buf: old(self)@.buf.skip(len as int),
                        payload_left: (old(self)@.payload_left - len) as nat,
                        ..old(self)@
                    })
                },
            },
    {
        if len > MAX_PAYLOAD {
            return Err(Error::PayloadTooLarge(len));
        }
        if len > self.payload_left {
            return Err(Error::PayloadOverrun { asked: len, left: self.payload_left });
        }
        let n: usize = len as usize;
        if buffered(&self.read_buf) < n {
            return Ok(None);
        }
        let bytes: Vec<u8> = take_front(&mut self.read_buf, n);
        self.payload_left = self.payload_left - len;
        Ok(Some(bytes))
    }
}

/// A payload of more than 64 mebibytes cannot be read, nor more of it than is
/// left; any other can.
pub proof fn law_what_payloads_are_refused(v: FramedView, len: u32)
    requires
        v.wf(),
    ensures
        len > 67_108_864 <==> v.payload_refused(len) == Some(Error::PayloadTooLarge(len)),
        len <= 67_108_864 && len > v.payload_left <==> v.payload_refused(len) is Some && !(v.payload_refused(
            len,
        )->0 is PayloadTooLarge),
        v.payload_refused(len) matches Some(Error::PayloadOverrun { asked, left }) ==> asked == len && left
            == v.payload_left,
        v.payload_refused(len) is None <==> len <= 67_108_864 && len <= v.payload_left,
{
}

} // verus!
