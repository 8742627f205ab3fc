//! What holds of a stream of frames as a whole.

use vstd::prelude::*;
use crate::cbor::item::DecodeError;
use crate::cbor::wire::{decoded, law_decode_inverts_to_vec, Wire};
use crate::frame::header::{
    law_header_round_trip, unknown_message, Error, Header, HEADER_LEN, MAX_FRAME_BODY, MAX_FRAME_PAYLOAD,
};
use crate::frame::reader::{FramedView, Outcome};
use crate::frame::writer::{frame_refused, head_bytes, joined};

verus! {

proof fn lemma_skip_with(a: Seq<u8>, b: Seq<u8>, n: int)
    requires
        0 <= n <= a.len(),
    ensures
        (a + b).skip(n) == a.skip(n) + b,
        (a + b).take(n) == a.take(n),
{
    assert((a + b).skip(n) =~= a.skip(n) + b);
    assert((a + b).take(n) =~= a.take(n));
}

proof fn lemma_headed_with(v: FramedView, more: Seq<u8>)
    ensures
        ({
            let (a, res) = v.headed();
            match res {
                Ok(None) => a.with(more).headed() == v.with(more).headed(),
                _ => v.with(more).headed() == (a.with(more), res),
            }
        }),
{
    let d = v.discarded();
    let (a, res) = v.headed();
    let skip = v.skip_left + v.payload_left;
    if skip <= v.buf.len() {
        lemma_skip_with(v.buf, more, skip as int);
        assert(v.with(more).discarded() =~= d.with(more));
        if d.pending is None && d.buf.len() >= HEADER_LEN {
            lemma_skip_with(d.buf, more, HEADER_LEN as int);
            assert(Header::of(d.buf + more) == Header::of(d.buf));
        } else if d.pending is None {
            assert(d.with(more).discarded() =~= d.with(more)) by {
                assert((d.buf + more).skip(0) =~= d.buf + more);
            }
        }
    } else {
        assert(d.buf =~= Seq::empty());
        assert(d.buf + more =~= more);
        let n = v.buf.len();
        let m = if skip <= n + more.len() {
            skip as int
        } else {
            (n + more.len()) as int
        };
        assert((v.buf + more).skip(m) =~= (d.buf + more).skip(m - n));
        assert(d.with(more).discarded() =~= v.with(more).discarded());
    }
}

/// A read comes to the same however the stream is cut into pieces: what is
/// read from the bytes that have arrived is read with more bytes behind them,
/// and a read that ran out of bytes resumes where it stopped.
pub proof fn law_cuts_do_not_matter<M: Wire>(v: FramedView, more: Seq<u8>)
    ensures
        ({
            let (a, out) = v.next::<M>();
            match out {
                Outcome::More => a.with(more).next::<M>() == v.with(more).next::<M>(),
                _ => v.with(more).next::<M>() == (a.with(more), out),
            }
        }),
    decreases v.buf.len(),
{
    lemma_headed_with(v, more);
    match v.headed() {
        (a, Ok(Some(h))) => {
            if a.buf.len() < h.body_len {
                assert(a.with(more).discarded() =~= a.with(more)) by {
                    assert((a.buf + more).skip(0) =~= a.buf + more);
                }
                assert(a.with(more).headed() == (a.with(more), Ok::<Option<Header>, Error>(Some(h))));
            } else {
                lemma_skip_with(a.buf, more, h.body_len as int);
                let body = a.buf.take(h.body_len as int);
                let b = FramedView { buf: a.buf.skip(h.body_len as int), pending: None, ..a };
                match decoded::<M>(body) {
                    Ok(_) => {},
                    Err(e) => {
                        if unknown_message(body, e) {
                            let c = FramedView { skip_left: h.payload_len as nat, ..b };
                            law_cuts_do_not_matter::<M>(c, more);
                        }
                    },
                }
            }
        },
        _ => {},
    }
}

/// A reader that has everything before a frame behind it.
pub open spec fn fresh(buf: Seq<u8>) -> FramedView {
    FramedView { buf, pending: None, payload_left: 0, skip_left: 0 }
}

/// A reader whose last message has payload to be read.
pub open spec fn owing(payload_left: nat, buf: Seq<u8>) -> FramedView {
    FramedView { buf, pending: None, payload_left, skip_left: 0 }
}

proof fn lemma_frame_arrives(body: Seq<u8>, payload_len: nat, rest: Seq<u8>)
    requires
        ({
            let h = Header { body_len: body.len() as u32, payload_len: payload_len as u32 };
            h.refused() is None && body.len() <= u32::MAX && payload_len <= u32::MAX
        }),
    ensures
        ({
            let h = Header { body_len: body.len() as u32, payload_len: payload_len as u32 };
            fresh(head_bytes(body, payload_len) + rest).headed() == (
                FramedView { pending: Some(h), ..fresh(body + rest) },
                Ok::<Option<Header>, Error>(Some(h)),
            )
        }),
        (body + rest).take(body.len() as int) == body,
        (body + rest).skip(body.len() as int) == rest,
{
    let h = Header { body_len: body.len() as u32, payload_len: payload_len as u32 };
    let s = head_bytes(body, payload_len) + rest;
    assert(s =~= h.bytes() + (body + rest));
    law_header_round_trip(h, body + rest);
    assert(s.skip(0) =~= s);
    assert(s.skip(HEADER_LEN as int) =~= body + rest);
    assert((body + rest).take(body.len() as int) =~= body);
    assert((body + rest).skip(body.len() as int) =~= rest);
}

/// A frame that is sent is read: the message comes out, then its payload
/// stands at the front, and what follows the frame follows it.
pub proof fn law_written_frame_is_read<M: Wire>(m: M::Model, payloads: Seq<&[u8]>, rest: Seq<u8>)
    requires
        M::fits(m),
        frame_refused(M::bytes_of(m), payloads) is None,
    ensures
        fresh(head_bytes(M::bytes_of(m), joined(payloads).len()) + joined(payloads) + rest).next::<M>() == (
            owing(joined(payloads).len(), joined(payloads) + rest),
            Outcome::Message(m),
        ),
{
    let body = M::bytes_of(m);
    let n = joined(payloads).len();
    let head = head_bytes(body, n);
    assert(head + joined(payloads) + rest =~= head + (joined(payloads) + rest));
    lemma_frame_arrives(body, n, joined(payloads) + rest);
    law_decode_inverts_to_vec::<M>(m, Seq::empty());
    assert(body + Seq::<u8>::empty() =~= body);
}

/// A reader with payload bytes to skip.
pub open spec fn skipping(skip_left: nat, buf: Seq<u8>) -> FramedView {
    FramedView { buf, pending: None, payload_left: 0, skip_left }
}

proof fn lemma_skips<M: Wire>(payload: Seq<u8>, rest: Seq<u8>)
    ensures
        skipping(payload.len(), payload + rest).next::<M>() == fresh(rest).next::<M>(),
        owing(payload.len(), payload + rest).next::<M>() == fresh(rest).next::<M>(),
{
    let c = skipping(payload.len(), payload + rest);
    let d = owing(payload.len(), payload + rest);
    assert((payload + rest).skip(payload.len() as int) =~= rest);
    assert(rest.skip(0) =~= rest);
    assert(c.discarded() =~= fresh(rest));
    assert(d.discarded() =~= fresh(rest));
    assert(fresh(rest).discarded() =~= fresh(rest));
    assert(c.headed() == fresh(rest).headed());
    assert(d.headed() == fresh(rest).headed());
}

/// A message this build does not know is skipped with its payload: reading
/// goes on with what follows.
pub proof fn law_unknown_message_is_skipped<M: Wire>(body: Seq<u8>, payload: Seq<u8>, e: DecodeError, rest: Seq<u8>)
    requires
        decoded::<M>(body) == Err::<M::Model, DecodeError>(e),
        unknown_message(body, e),
        body.len() <= MAX_FRAME_BODY,
        payload.len() <= MAX_FRAME_PAYLOAD,
    ensures
        fresh(head_bytes(body, payload.len()) + payload + rest).next::<M>() == fresh(rest).next::<M>(),
{
    let head = head_bytes(body, payload.len());
    assert(head + payload + rest =~= head + (payload + rest));
    lemma_frame_arrives(body, payload.len(), payload + rest);
    lemma_skips::<M>(payload, rest);
    let v = fresh(head + (payload + rest));
    let c = skipping(payload.len(), payload + rest);
    assert(v.next::<M>() == c.next::<M>()) by {
        let (a, res) = v.headed();
        assert(res matches Ok(Some(h)) && a.buf.take(h.body_len as int) == body);
    }
}

/// Payload the caller leaves unread is discarded before the next message.
pub proof fn law_unread_payload_is_discarded<M: Wire>(payload: Seq<u8>, rest: Seq<u8>)
    ensures
        owing(payload.len(), payload + rest).next::<M>() == fresh(rest).next::<M>(),
{
    lemma_skips::<M>(payload, rest);
}

} // verus!
