//! Where fetched items go, and where served ones come from.

use super::flow::CHUNK;
use super::progress::Meter;
use super::transfer::TransferError;
use vstd::prelude::*;

verus! {

/// Destination of a fetched item.
pub trait ChunkSink: Sized {
    /// What was written so far.
    spec fn taken(&self) -> Seq<u8>;

    /// Whether a chunk of this many bytes can be written or refused.
    spec fn room(&self, n: nat) -> bool;

    /// Whether writing a chunk may lead from here to `after`, with this result.
    spec fn wrote(self, chunk: Seq<u8>, after: Self, res: Result<(), TransferError>) -> bool;

    /// Whether finishing may lead from here to `after`, with this result.
    spec fn finished(self, after: Self, res: Result<(), TransferError>) -> bool;

    fn write(&mut self, chunk: &[u8]) -> (res: Result<(), TransferError>)
        requires
            old(self).room(chunk@.len()),
        ensures
            old(self).wrote(chunk@, *final(self), res),
            res is Ok ==> final(self).taken() == old(self).taken() + chunk@,
    ;

    fn finish(&mut self) -> (res: Result<(), TransferError>)
        ensures
            old(self).finished(*final(self), res),
            final(self).taken() == old(self).taken(),
    ;
}

/// A fetch whose bytes are wanted in memory, bounded by the cap given to the
/// fetch.
#[derive(Debug, Clone)]
pub struct MemorySink {
    pub bytes: Vec<u8>,
}

impl Default for MemorySink {
    fn default() -> (s: MemorySink)
        ensures
            s.bytes@.len() == 0,
    {
        MemorySink { bytes: Vec::new() }
    }
}

impl ChunkSink for MemorySink {
    open spec fn taken(&self) -> Seq<u8> {
        self.bytes@
    }

    open spec fn room(&self, n: nat) -> bool {
        true
    }

    /// Memory takes every chunk.
    open spec fn wrote(self, chunk: Seq<u8>, after: Self, res: Result<(), TransferError>) -> bool {
        res is Ok && after.bytes@ == self.bytes@ + chunk
    }

    open spec fn finished(self, after: Self, res: Result<(), TransferError>) -> bool {
        res is Ok && after == self
    }

    fn write(&mut self, chunk: &[u8]) -> (res: Result<(), TransferError>)
        ensures
            res is Ok,
            final(self).bytes@ == old(self).bytes@ + chunk@,
    {
        self.bytes.extend_from_slice(chunk);
        proof {
            assert(self.bytes@ =~= old(self).bytes@ + chunk@);
        }
        Ok(())
    }

    fn finish(&mut self) -> (res: Result<(), TransferError>)
        ensures
            res is Ok,
            *final(self) == *old(self),
    {
        Ok(())
    }
}

/// A sink whose bytes are counted.
#[derive(Debug, Clone)]
pub struct Metered<S> {
    pub sink: S,
    pub meter: Meter,
}

impl<S: ChunkSink> ChunkSink for Metered<S> {
    open spec fn taken(&self) -> Seq<u8> {
        self.sink.taken()
    }

    open spec fn room(&self, n: nat) -> bool {
        self.sink.room(n) && self.meter.done + n <= u64::MAX
    }

    /// The sink is written the chunk, its result is handed on, and the chunk
    /// counts where the sink took it.
    open spec fn wrote(self, chunk: Seq<u8>, after: Self, res: Result<(), TransferError>) -> bool {
        &&& self.sink.wrote(chunk, after.sink, res)
        &&& after.meter.done == if res is Ok {
            self.meter.done + chunk.len()
        } else {
            self.meter.done as int
        }
    }

    /// The sink is finished, and its result is handed on.
    open spec fn finished(self, after: Self, res: Result<(), TransferError>) -> bool {
        self.sink.finished(after.sink, res) && after.meter == self.meter
    }

    fn write(&mut self, chunk: &[u8]) -> (res: Result<(), TransferError>)
        ensures
            final(self).meter.done == if res is Ok {
                old(self).meter.done + chunk@.len()
            } else {
                old(self).meter.done as int
            },
    {
        let n: usize = chunk.len();
        let res: Result<(), TransferError> = self.sink.write(chunk);
        if res.is_ok() {
            self.meter.add(n as u64);
        }
        res
    }

    fn finish(&mut self) -> (res: Result<(), TransferError>)
        ensures
            final(self).meter == old(self).meter,
    {
        self.sink.finish()
    }
}

impl Meter {
    /// Count every chunk written through `sink`, on top of what was counted.
    pub fn wrap<S: ChunkSink>(&self, sink: S) -> (m: Metered<S>)
        ensures
            m.sink == sink,
            m.meter == *self,
    {
        Metered { sink, meter: *self }
    }
}

/// Anything that is read (a source pipe, a file), in full chunks.
#[derive(Debug, Clone)]
pub struct ReadSource {
    /// What was read of the chunk that is being filled.
    pub filled: Vec<u8>,
}

/// What a read led to.
#[derive(Debug, Clone, PartialEq, Eq)]
pub enum Filled {
    /// The chunk is not full: read on.
    More,
    Chunk(Vec<u8>),
    /// Nothing is left.
    End,
}

impl ReadSource {
    /// The chunk that is being filled has room.
    pub open spec fn wf(&self) -> bool {
        self.filled@.len() < CHUNK
    }

    pub fn new() -> (s: ReadSource)
        ensures
            s.wf(),
            s.filled@.len() == 0,
    {
        ReadSource { filled: Vec::new() }
    }

    /// The most to read next.
    pub fn want(&self) -> (n: usize)
        requires
            self.wf(),
        ensures
            n == CHUNK - self.filled@.len(),
            n > 0,
    {
        CHUNK - self.filled.len()
    }

    /// These bytes were read; none at the end.
    pub fn on_read(&mut self, bytes: &[u8]) -> (f: Filled)
        requires
            old(self).wf(),
            old(self).filled@.len() + bytes@.len() <= CHUNK,
        ensures
            final(self).wf(),
            ({
                let all = old(self).filled@ + bytes@;
                match f {
                    Filled::More => bytes@.len() > 0 && all.len() < CHUNK && final(self).filled@ == all,
                    Filled::Chunk(c) => {
                        &&& c@ == all
                        &&& c@.len() > 0
                        &&& c@.len() == CHUNK || bytes@.len() == 0
                        &&& final(self).filled@.len() == 0
                    },
                    Filled::End => all.len() == 0 && final(self).filled@.len() == 0,
                }
            }),
    {
        let n: usize = bytes.len();
        self.filled.extend_from_slice(bytes);
        proof {
            assert(self.filled@ =~= old(self).filled@ + bytes@);
        }
        if n > 0 && self.filled.len() < CHUNK {
            return Filled::More;
        }
        let mut chunk: Vec<u8> = Vec::new();
        std::mem::swap(&mut chunk, &mut self.filled);
        if chunk.len() == 0 {
            Filled::End
        } else {
            Filled::Chunk(chunk)
        }
    }
}

} // verus!
