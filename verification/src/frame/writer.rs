//! Frames into a byte stream.

use vstd::prelude::*;
use vstd::slice::slice_subrange;
use crate::cbor::wire::{to_vec, Put, Wire};
use crate::frame::header::{Error, Header, MAX_FRAME_BODY, MAX_FRAME_PAYLOAD, MAX_PAYLOAD};

verus! {

/// Slices one behind the other.
pub open spec fn joined(parts: Seq<&[u8]>) -> Seq<u8>
    decreases parts.len(),
{
    if parts.len() == 0 {
        Seq::empty()
    } else {
        joined(parts.drop_last()) + parts.last()@
    }
}

pub open spec fn saturated(n: nat) -> u32 {
    if n <= u32::MAX {
        n as u32
    } else {
        u32::MAX
    }
}

/// The first payload from `i` on that no message may declare.
pub open spec fn first_too_large(payloads: Seq<&[u8]>, i: int) -> Option<nat>
    decreases payloads.len() - i,
{
    if !(0 <= i < payloads.len()) {
        None
    } else if payloads[i]@.len() > MAX_PAYLOAD {
        Some(payloads[i]@.len())
    } else {
        first_too_large(payloads, i + 1)
    }
}

/// Why a frame is not sent: a reader would refuse it.
pub open spec fn frame_refused(body: Seq<u8>, payloads: Seq<&[u8]>) -> Option<Error> {
    if body.len() > MAX_FRAME_BODY {
        Some(Error::BodyTooLarge(saturated(body.len())))
    } else {
        match first_too_large(payloads, 0) {
            Some(n) => Some(Error::PayloadTooLarge(saturated(n))),
            None => if joined(payloads).len() > MAX_FRAME_PAYLOAD {
                Some(Error::PayloadTooLarge(saturated(joined(payloads).len())))
            } else {
                None
            },
        }
    }
}

/// Header and body of a frame with this much payload.
pub open spec fn head_bytes(body: Seq<u8>, payload_len: nat) -> Seq<u8> {
    Header { body_len: body.len() as u32, payload_len: payload_len as u32 }.bytes() + body
}

fn saturating_u32(n: usize) -> (v: u32)
    ensures
        v == saturated(n as nat),
{
    if n > 0xffff_ffff {
        0xffff_ffff
    } else {
        n as u32
    }
}

proof fn lemma_joined_push(parts: Seq<&[u8]>, i: int)
    requires
        0 <= i < parts.len(),
    ensures
        joined(parts.take(i + 1)) == joined(parts.take(i)) + parts[i]@,
{
    assert(parts.take(i + 1).drop_last() =~= parts.take(i));
}

/// Header and body of a frame whose payloads are these slices, for a
/// vectored write of it and them.
pub fn frame_head<M: Put>(msg: &M, payloads: &[&[u8]]) -> (res: Result<Vec<u8>, Error>)
    ensures
        match frame_refused(M::bytes_of(msg.model()), payloads@) {
            Some(e) => res == Err::<Vec<u8>, Error>(e),
            None => res matches Ok(head) && head@ == head_bytes(
                M::bytes_of(msg.model()),
                joined(payloads@).len(),
            ),
        },
{
    let body: Vec<u8> = to_vec(msg);
    if body.len() > MAX_FRAME_BODY {
        return Err(Error::BodyTooLarge(saturating_u32(body.len())));
    }
    let count: usize = payloads.len();
    for i in 0..count
        invariant
            count == payloads@.len(),
            first_too_large(payloads@, 0) == first_too_large(payloads@, i as int),
            body@ == M::bytes_of(msg.model()),
            body@.len() <= MAX_FRAME_BODY,
    {
        let n: usize = payloads[i].len();
        if n > MAX_PAYLOAD as usize {
            return Err(Error::PayloadTooLarge(saturating_u32(n)));
        }
    }
    let mut total: usize = 0;
    proof {
        assert(joined(payloads@.take(0)).len() == 0);
    }
    for i in 0..count
        invariant
            count == payloads@.len(),
            total == if joined(payloads@.take(i as int)).len() <= usize::MAX {
                joined(payloads@.take(i as int)).len() as int
            } else {
                usize::MAX as int
            },
    {
        let n: usize = payloads[i].len();
        proof {
            lemma_joined_push(payloads@, i as int);
        }
        total = if n <= usize::MAX - total {
            total + n
        } else {
            usize::MAX
        };
    }
    proof {
        assert(payloads@.take(count as int) =~= payloads@);
    }
    if total > MAX_FRAME_PAYLOAD as usize {
        return Err(Error::PayloadTooLarge(saturating_u32(total)));
    }
    let mut out: Vec<u8> = Vec::new();
    Header { body_len: body.len() as u32, payload_len: total as u32 }.write(&mut out);
    out.extend_from_slice(body.as_slice());
    assert(out@ =~= head_bytes(M::bytes_of(msg.model()), joined(payloads@).len()));
    Ok(out)
}

/// Writes a message then the given payload slices, all in order.
pub fn write_msg_with_payloads<M: Put>(out: &mut Vec<u8>, msg: &M, payloads: &[&[u8]]) -> (res: Result<(), Error>)
    ensures
        match frame_refused(M::bytes_of(msg.model()), payloads@) {
            Some(e) => res == Err::<(), Error>(e) && final(out)@ == old(out)@,
            None => res == Ok::<(), Error>(()) && final(out)@ == old(out)@ + head_bytes(
                M::bytes_of(msg.model()),
                joined(payloads@).len(),
            ) + joined(payloads@),
        },
{
    let head: Vec<u8> = match frame_head(msg, payloads) {
        Ok(head) => head,
        Err(e) => return Err(e),
    };
    out.extend_from_slice(head.as_slice());
    let ghost before = out@;
    proof {
        assert(before =~= old(out)@ + head@);
        assert(before + joined(payloads@.take(0)) =~= before);
    }
    let count: usize = payloads.len();
    for i in 0..count
        invariant
            count == payloads@.len(),
            out@ == before + joined(payloads@.take(i as int)),
    {
        out.extend_from_slice(payloads[i]);
        proof {
            lemma_joined_push(payloads@, i as int);
            assert(out@ =~= before + joined(payloads@.take(i + 1)));
        }
    }
    proof {
        assert(payloads@.take(count as int) =~= payloads@);
    }
    Ok(())
}

/// Writes a message with no trailing payload.
pub fn write_msg<M: Put>(out: &mut Vec<u8>, msg: &M) -> (res: Result<(), Error>)
    ensures
        if M::bytes_of(msg.model()).len() > MAX_FRAME_BODY {
            res == Err::<(), Error>(Error::BodyTooLarge(saturated(M::bytes_of(msg.model()).len()))) && final(out)@
                == old(out)@
        } else {
            res == Ok::<(), Error>(()) && final(out)@ == old(out)@ + head_bytes(M::bytes_of(msg.model()), 0)
        },
{
    let none: [&[u8]; 0] = [];
    let res: Result<(), Error> = write_msg_with_payloads(out, msg, &none);
    proof {
        assert(joined(none@) =~= Seq::<u8>::empty());
        assert(first_too_large(none@, 0) is None);
        assert(out@ + Seq::<u8>::empty() =~= out@);
    }
    res
}

/// What a vectored write still has to send of `parts` once `done` bytes are
/// out: the unwritten slices, none of them empty.
pub fn remainder<'a>(parts: &[&'a [u8]], done: usize) -> (rest: Vec<&'a [u8]>)
    requires
        done <= joined(parts@).len(),
    ensures
        joined(rest@) == joined(parts@).skip(done as int),
        forall|i: int| 0 <= i < rest@.len() ==> (#[trigger] rest@[i])@.len() > 0,
{
    let mut rest: Vec<&'a [u8]> = Vec::new();
    let mut skip: usize = done;
    let count: usize = parts.len();
    proof {
        assert(parts@.take(0).len() == 0);
        assert(joined(rest@) =~= Seq::<u8>::empty());
    }
    for i in 0..count
        invariant
            count == parts@.len(),
            ({
                let seen = joined(parts@.take(i as int));
                if done <= seen.len() {
                    skip == 0 && joined(rest@) == seen.skip(done as int)
                } else {
                    skip == done - seen.len() && rest@.len() == 0
                }
            }),
            skip == 0 || rest@.len() == 0,
            forall|k: int| 0 <= k < rest@.len() ==> (#[trigger] rest@[k])@.len() > 0,
    {
        let p: &'a [u8] = parts[i];
        let len: usize = p.len();
        let ghost seen = joined(parts@.take(i as int));
        let ghost before = rest@;
        proof {
            lemma_joined_push(parts@, i as int);
        }
        if skip >= len {
            skip = skip - len;
            proof {
                if done <= seen.len() {
                    assert((seen + p@).skip(done as int) =~= seen.skip(done as int));
                } else if done == seen.len() + len {
                    assert((seen + p@).skip(done as int) =~= Seq::<u8>::empty());
                }
            }
        } else {
            let part: &'a [u8] = slice_subrange(p, skip, len);
            rest.push(part);
            proof {
                assert(rest@.drop_last() =~= before);
                assert((seen + p@).skip(done as int) =~= joined(before) + part@);
            }
            skip = 0;
        }
    }
    proof {
        assert(parts@.take(count as int) =~= parts@);
    }
    rest
}

} // verus!
