//! Flow control of one transfer.

use crate::text::{decimal, push_decimal};
use vstd::prelude::*;
use vstd::string::StringExecFns;

verus! {

/// Largest `data_len` of one `Data` message.
pub const CHUNK: usize = 262144;

/// Chunks a sender may have outstanding before it waits for an `Ack`.
pub const WINDOW: u32 = 4;

/// Cap on a single in-memory item (anything that is not a file).
pub const MAX_ITEM: u64 = 33554432;

#[derive(Debug, Clone, Copy, PartialEq, Eq)]
pub enum ChunkError {
    BadOffset { expected: u64, got: u64 },
    ChunkTooLarge(u32),
    OverCap(u64),
    AfterDone,
    BadAck { received: u64 },
    WindowExceeded,
}

impl ChunkError {
    /// What a user is told.
    pub open spec fn says(self) -> Seq<char> {
        match self {
            ChunkError::BadOffset { expected, got } => "chunk at offset "@ + decimal(got as nat) + ", expected "@
                + decimal(expected as nat),
            ChunkError::ChunkTooLarge(n) => "chunk of "@ + decimal(n as nat) + " bytes exceeds "@ + decimal(
                CHUNK as nat,
            ),
            ChunkError::OverCap(cap) => "transfer exceeds the "@ + decimal(cap as nat) + " byte limit"@,
            ChunkError::AfterDone => "chunk after the final one"@,
            ChunkError::BadAck { received } => "ack for "@ + decimal(received as nat)
                + " bytes that were not sent"@,
            ChunkError::WindowExceeded => "more than "@ + decimal(WINDOW as nat) + " chunks in flight"@,
        }
    }

    /// What a user is told.
    pub fn text(&self) -> (s: String)
        ensures
            s@ == self.says(),
    {
        let mut s: String = String::new();
        let (before, number, after): (&str, Option<u64>, &str) = match self {
            ChunkError::BadOffset { expected: _, got } => ("chunk at offset ", Some(*got), ", expected "),
            ChunkError::ChunkTooLarge(n) => ("chunk of ", Some(*n as u64), " bytes exceeds "),
            ChunkError::OverCap(cap) => ("transfer exceeds the ", Some(*cap), " byte limit"),
            ChunkError::AfterDone => ("chunk after the final one", None, ""),
            ChunkError::BadAck { received } => ("ack for ", Some(*received), " bytes that were not sent"),
            ChunkError::WindowExceeded => ("more than ", Some(WINDOW as u64), " chunks in flight"),
        };
        s.append(before);
        assert(s@ =~= before@);
        if let Some(n) = number {
            push_decimal(&mut s, n);
            s.append(after);
        }
        match self {
            ChunkError::BadOffset { expected, got: _ } => push_decimal(&mut s, *expected),
            ChunkError::ChunkTooLarge(_) => push_decimal(&mut s, CHUNK as u64),
            _ => {},
        }
        s
    }
}

/// Sender-side flow control: bytes sent but not yet acked must stay under
/// [`WINDOW`] chunks' worth.
#[derive(Debug, Clone, Copy)]
pub struct SendWindow {
    pub offset: u64,
    pub acked: u64,
}

impl Default for SendWindow {
    fn default() -> (w: Self)
        ensures
            w.wf(),
            w.offset == 0,
            w.acked == 0,
    {
        Self { offset: 0, acked: 0 }
    }
}

impl SendWindow {
    /// No more is acked than was sent.
    pub open spec fn wf(&self) -> bool {
        self.acked <= self.offset
    }

    /// Bytes sent and not acked.
    pub open spec fn in_flight(&self) -> int {
        self.offset - self.acked
    }

    /// With what the receiver has taken so far.
    pub open spec fn credited(self, received: u64) -> SendWindow {
        SendWindow {
            acked: if received > self.acked {
                received
            } else {
                self.acked
            },
            ..self
        }
    }

    pub fn may_send(&self) -> (yes: bool)
        requires
            self.wf(),
        ensures
            yes == (self.in_flight() < WINDOW * CHUNK),
    {
        self.offset - self.acked < WINDOW as u64 * CHUNK as u64
    }

    pub fn on_sent(&mut self, len: usize)
        requires
            old(self).wf(),
            old(self).offset + len <= u64::MAX,
        ensures
            final(self).wf(),
            final(self).offset == old(self).offset + len,
            final(self).acked == old(self).acked,
    {
        self.offset = self.offset + len as u64;
    }

    pub fn on_ack(&mut self, received: u64) -> (res: Result<(), ChunkError>)
        requires
            old(self).wf(),
        ensures
            final(self).wf(),
            final(self).offset == old(self).offset,
            received > old(self).offset ==> res == Err::<(), ChunkError>(ChunkError::BadAck { received })
                && *final(self) == *old(self),
            received <= old(self).offset ==> res == Ok::<(), ChunkError>(()) && *final(self) == old(self).credited(
                received,
            ),
    {
        if received > self.offset {
            return Err(ChunkError::BadAck { received });
        }
        if received > self.acked {
            self.acked = received;
        }
        Ok(())
    }
}

/// A sender that sends at most one chunk whenever it may never has more than
/// the window in flight.
pub proof fn law_window_is_kept(before: SendWindow, after: SendWindow, len: nat)
    requires
        before.wf(),
        before.in_flight() < WINDOW * CHUNK,
        len <= CHUNK,
        after.offset == before.offset + len,
        after.acked == before.acked,
    ensures
        after.in_flight() < (WINDOW + 1) * CHUNK,
        before.in_flight() % CHUNK as int == 0 ==> after.in_flight() <= WINDOW * CHUNK,
{
    assert(before.in_flight() % CHUNK as int == 0 ==> before.in_flight() <= (WINDOW - 1) * CHUNK);
}

/// Receiver-side check of chunk order and size, with an optional total cap.
#[derive(Debug, Clone, Copy)]
pub struct Assembler {
    pub received: u64,
    pub chunks: u32,
    pub cap: Option<u64>,
    pub done: bool,
}

impl Assembler {
    /// What has come keeps the cap.
    pub open spec fn wf(&self) -> bool {
        self.cap matches Some(cap) ==> self.received <= cap
    }

    /// The verdict on a chunk: the first of these that applies.
    pub open spec fn verdict(&self, offset: u64, data_len: u32) -> Result<(), ChunkError> {
        if self.done {
            Err(ChunkError::AfterDone)
        } else if offset != self.received {
            Err(ChunkError::BadOffset { expected: self.received, got: offset })
        } else if data_len > CHUNK {
            Err(ChunkError::ChunkTooLarge(data_len))
        } else if self.cap matches Some(cap) && self.received + data_len > cap {
            Err(ChunkError::OverCap(self.cap->0))
        } else {
            Ok(())
        }
    }

    /// After a chunk was offered: one that is accepted counts, any other
    /// changes nothing.
    pub open spec fn taken(self, offset: u64, data_len: u32, done: bool) -> Assembler {
        if self.verdict(offset, data_len) is Ok {
            Assembler {
                received: (self.received + data_len) as u64,
                chunks: (self.chunks + 1) as u32,
                cap: self.cap,
                done,
            }
        } else {
            self
        }
    }

    /// After chunks were offered one by one, each with its offset, its length
    /// and whether it is the last.
    pub open spec fn offered(self, all: Seq<(u64, u32, bool)>) -> Assembler
        decreases all.len(),
    {
        if all.len() == 0 {
            self
        } else {
            self.offered(all.drop_last()).taken(all.last().0, all.last().1, all.last().2)
        }
    }

    /// Those of them that were accepted.
    pub open spec fn accepted(self, all: Seq<(u64, u32, bool)>) -> Seq<(u64, u32, bool)>
        decreases all.len(),
    {
        if all.len() == 0 {
            all
        } else if self.offered(all.drop_last()).verdict(all.last().0, all.last().1) is Ok {
            self.accepted(all.drop_last()).push(all.last())
        } else {
            self.accepted(all.drop_last())
        }
    }

    pub fn new(cap: Option<u64>) -> (a: Self)
        ensures
            a.wf(),
            a == (Assembler { received: 0, chunks: 0, cap, done: false }),
    {
        Self { received: 0, chunks: 0, cap, done: false }
    }

    /// Validate a `Data` header before its payload is used.
    pub fn accept(&mut self, offset: u64, data_len: u32, done: bool) -> (res: Result<(), ChunkError>)
        requires
            old(self).wf(),
            old(self).chunks < u32::MAX,
            old(self).received + data_len <= u64::MAX,
        ensures
            final(self).wf(),
            res == old(self).verdict(offset, data_len),
            *final(self) == old(self).taken(offset, data_len, done),
    {
        if self.done {
            return Err(ChunkError::AfterDone);
        }
        if offset != self.received {
            return Err(ChunkError::BadOffset { expected: self.received, got: offset });
        }
        if data_len as usize > CHUNK {
            return Err(ChunkError::ChunkTooLarge(data_len));
        }
        let next: u64 = self.received + data_len as u64;
        if let Some(cap) = self.cap {
            if next > cap {
                return Err(ChunkError::OverCap(cap));
            }
        }
        self.received = next;
        self.chunks = self.chunks + 1;
        self.done = done;
        Ok(())
    }
}

/// A receiver takes chunks in order, each once, and nothing behind the last.
pub proof fn law_chunks_are_taken_once_in_order(a: Assembler, offset: u64, data_len: u32, done: bool)
    requires
        a.verdict(offset, data_len) is Ok,
        a.received + data_len <= u64::MAX,
    ensures
        offset == a.received,
        ({
            let b = a.taken(offset, data_len, done);
            &&& done ==> forall|o: u64, n: u32| #[trigger]
                b.verdict(o, n) == Err::<(), ChunkError>(ChunkError::AfterDone)
            &&& data_len > 0 ==> b.verdict(offset, data_len) is Err
        }),
{
}

/// The bytes of chunks together.
pub open spec fn chunks_len(chunks: Seq<(u64, u32, bool)>) -> nat
    decreases chunks.len(),
{
    if chunks.len() == 0 {
        0
    } else {
        chunks_len(chunks.drop_last()) + chunks.last().1 as nat
    }
}

/// Whatever chunks a new receiver is offered, those that it accepts tile what
/// it has received: each starts where the ones before it end, none is larger
/// than a chunk may be, together they are all that was received, and that
/// keeps the cap.
pub proof fn law_accepted_chunks_tile_what_was_received(cap: Option<u64>, all: Seq<(u64, u32, bool)>)
    requires
        all.len() <= u32::MAX,
    ensures
        ({
            let new = Assembler { received: 0, chunks: 0, cap, done: false };
            let (a, kept) = (new.offered(all), new.accepted(all));
            &&& a.received == chunks_len(kept)
            &&& a.chunks == kept.len()
            &&& a.cap == cap
            &&& cap matches Some(c) ==> a.received <= c
            &&& kept.len() <= all.len()
            &&& a.received <= kept.len() * CHUNK
            &&& a.done == (kept.len() > 0 && kept.last().2)
            &&& forall|i: int| 0 <= i < kept.len() ==> (#[trigger] kept[i]).0 == chunks_len(kept.take(i))
            &&& forall|i: int| 0 <= i < kept.len() ==> (#[trigger] kept[i]).1 <= CHUNK
        }),
    decreases all.len(),
{
    let new = Assembler { received: 0, chunks: 0, cap, done: false };
    if all.len() > 0 {
        let front = all.drop_last();
        law_accepted_chunks_tile_what_was_received(cap, front);
        let (a, before) = (new.offered(front), new.accepted(front));
        let kept = new.accepted(all);
        if a.verdict(all.last().0, all.last().1) is Ok {
            assert(kept.drop_last() =~= before);
            assert(a.received + all.last().1 <= kept.len() * CHUNK);
            assert forall|i: int| 0 <= i < kept.len() implies (#[trigger] kept[i]).0 == chunks_len(kept.take(i)) by {
                if i < before.len() {
                    assert(kept[i] == before[i]);
                    assert(kept.take(i) =~= before.take(i));
                } else {
                    assert(kept.take(i) =~= before);
                }
            }
            assert forall|i: int| 0 <= i < kept.len() implies (#[trigger] kept[i]).1 <= CHUNK by {
                if i < before.len() {
                    assert(kept[i] == before[i]);
                }
            }
        }
    }
}

/// What a user is told of a bad chunk names the place it came for and ends with
/// the place it should have; what exceeds a limit is told with its number.
pub proof fn law_chunk_errors_tell_their_numbers(a: u64, b: u64, n: usize)
    ensures
        ({
            let t = (ChunkError::BadOffset { expected: a, got: b }).says();
            &&& ("chunk at offset "@ + decimal(b as nat)).is_prefix_of(t)
            &&& t.skip(t.len() - decimal(a as nat).len()) == decimal(a as nat)
        }),
        ("transfer exceeds the "@ + decimal(a as nat)).is_prefix_of(ChunkError::OverCap(a).says()),
        ("ack for "@ + decimal(a as nat)).is_prefix_of((ChunkError::BadAck { received: a }).says()),
{
    let t = (ChunkError::BadOffset { expected: a, got: b }).says();
    let d = decimal(a as nat);
    assert(t.skip(t.len() - d.len()) =~= d);
    assert("chunk at offset "@ + decimal(b as nat) =~= t.take(("chunk at offset "@ + decimal(b as nat)).len() as int));
    let o = ChunkError::OverCap(a).says();
    assert("transfer exceeds the "@ + d =~= o.take(("transfer exceeds the "@ + d).len() as int));
    let r = (ChunkError::BadAck { received: a }).says();
    assert("ack for "@ + d =~= r.take(("ack for "@ + d).len() as int));
}

/// Credit never shrinks, and is what the receiver has taken.
pub proof fn law_credit_never_shrinks(w: SendWindow, received: u64)
    ensures
        w.credited(received).offset == w.offset,
        w.credited(received).acked >= w.acked,
        w.credited(received).acked >= received,
        w.credited(received).acked == w.acked || w.credited(received).acked == received,
{
}

} // verus!
