//! The clipboard transfer engine both peers run: it turns messages from the
//! peer into local reads and writes and back, keeping the chunk size and the
//! ack window.
//!
//! The owner feeds every clipboard message it reads to
//! [`Transfers::on_msg`] and acts on the [`Reply`]. To paste something the
//! peer offered, it calls [`Transfers::fetch`], sends the request, and hands
//! what [`Transfers::take`] gives to a sink. To answer a request, it calls
//! [`Transfers::serve`] and sends what [`Transfers::send_chunk`] makes while
//! [`Transfers::may_send`] allows.

use super::flow::{Assembler, ChunkError, SendWindow, CHUNK, WINDOW};
use super::msg::{ClipboardFile, ClipboardItem, ClipboardMsg};
use crate::text::{decimal, push_decimal};
use std::collections::HashMap;
use vstd::prelude::*;
use vstd::string::StringExecFns;

verus! {

broadcast use vstd::std_specs::hash::group_hash_axioms;

/// A transfer that makes no progress for this long, in nanoseconds, is
/// abandoned, so a paste target or a source application that hangs cannot
/// pin a transfer forever.
pub const IDLE_TIMEOUT: u64 = 30_000_000_000;

/// Chunks that may wait for a sink: a full window plus one more chunk and a
/// failure notice.
pub const QUEUE: usize = 6;

/// What the owner must act on.
#[derive(Debug, Clone, PartialEq, Eq)]
pub enum Event {
    Offer { serial: u32, mime_types: Vec<String>, files: Vec<ClipboardFile> },
    Request { id: u32, serial: u32, item: ClipboardItem },
}

/// Why a transfer ended early.
#[derive(Debug, Clone, Copy, PartialEq, Eq)]
pub enum TransferError {
    /// The peer aborted the transfer.
    Aborted,
    /// The peer went away.
    PeerGone,
    /// No progress for [`IDLE_TIMEOUT`].
    Timeout,
    Chunk(ChunkError),
    /// The item could not be read or written here.
    Io,
}

impl TransferError {
    /// What a user is told; `io` says what went wrong here, where something
    /// did.
    pub open spec fn says(self, io: Seq<char>) -> Seq<char> {
        match self {
            TransferError::Aborted => "the peer aborted the transfer"@,
            TransferError::PeerGone => "the peer went away"@,
            TransferError::Timeout => "no progress for "@ + decimal((IDLE_TIMEOUT / 1_000_000_000) as nat) + " s"@,
            TransferError::Chunk(e) => e.says(),
            TransferError::Io => "io: "@ + io,
        }
    }

    /// What a user is told; `io` says what went wrong here, where something
    /// did.
    pub fn text(&self, io: &str) -> (s: String)
        ensures
            s@ == self.says(io@),
    {
        let mut s: String = String::new();
        match self {
            TransferError::Aborted => s.append("the peer aborted the transfer"),
            TransferError::PeerGone => s.append("the peer went away"),
            TransferError::Timeout => {
                s.append("no progress for ");
                push_decimal(&mut s, IDLE_TIMEOUT / 1_000_000_000);
                s.append(" s");
            },
            TransferError::Chunk(e) => s = e.text(),
            TransferError::Io => {
                s.append("io: ");
                s.append(io);
            },
        }
        assert(s@ =~= self.says(io@));
        s
    }
}

/// What waits for a sink.
#[derive(Debug, Clone)]
pub enum Chunk {
    Data { bytes: Vec<u8>, done: bool },
    Fail(TransferError),
}

/// The contents of a [`Chunk`].
#[verifier::ext_equal]
pub enum ChunkView {
    Data { bytes: Seq<u8>, done: bool },
    Fail(TransferError),
}

impl View for Chunk {
    type V = ChunkView;

    open spec fn view(&self) -> ChunkView {
        match self {
            Chunk::Data { bytes, done } => ChunkView::Data { bytes: bytes@, done: *done },
            Chunk::Fail(e) => ChunkView::Fail(*e),
        }
    }
}

/// One item on its way here.
#[derive(Debug, Clone)]
pub struct Incoming {
    pub assembler: Assembler,
    pub chunks: Vec<Chunk>,
    /// The peer's chunks still count.
    pub open: bool,
    /// Bytes the sink has taken.
    pub received: u64,
}

/// The state of an [`Incoming`].
#[verifier::ext_equal]
pub struct IncomingView {
    pub assembler: Assembler,
    pub chunks: Seq<ChunkView>,
    pub open: bool,
    pub received: u64,
}

impl View for Incoming {
    type V = IncomingView;

    open spec fn view(&self) -> IncomingView {
        IncomingView {
            assembler: self.assembler,
            chunks: self.chunks@.map_values(|c: Chunk| c@),
            open: self.open,
            received: self.received,
        }
    }
}

impl IncomingView {
    /// What has come keeps the cap and the chunk size.
    pub open spec fn wf(self) -> bool {
        self.assembler.wf() && self.assembler.received <= self.assembler.chunks * CHUNK
    }

    /// No more chunks than can be counted.
    pub open spec fn room(self) -> bool {
        self.assembler.chunks < u32::MAX
    }

    /// With one more thing waiting, if there is room for it.
    pub open spec fn queued(self, c: ChunkView) -> IncomingView {
        if self.chunks.len() < QUEUE {
            IncomingView { chunks: self.chunks.push(c), ..self }
        } else {
            self
        }
    }

    /// Ended for a reason.
    pub open spec fn failed(self, e: TransferError) -> IncomingView {
        IncomingView { open: false, ..self.queued(ChunkView::Fail(e)) }
    }

    /// Why a chunk is not taken.
    pub open spec fn refused(self, offset: u64, data_len: u32, payload: Seq<u8>) -> Option<ChunkError> {
        if payload.len() != data_len {
            Some(
                ChunkError::BadOffset {
                    expected: wrapped(offset, data_len as nat),
                    got: wrapped(offset, payload.len()),
                },
            )
        } else {
            match self.assembler.verdict(offset, data_len) {
                Err(e) => Some(e),
                Ok(_) => if self.chunks.len() < QUEUE {
                    None
                } else {
                    Some(ChunkError::WindowExceeded)
                },
            }
        }
    }

    /// What the assembler has after a chunk it takes.
    pub open spec fn counted(self, data_len: u32, done: bool) -> IncomingView {
        IncomingView {
            assembler: Assembler {
                received: (self.assembler.received + data_len) as u64,
                chunks: (self.assembler.chunks + 1) as u32,
                cap: self.assembler.cap,
                done,
            },
            ..self
        }
    }

    /// After a chunk from the peer.
    pub open spec fn after_data(self, offset: u64, data_len: u32, done: bool, payload: Seq<u8>) -> IncomingView {
        match self.refused(offset, data_len, payload) {
            None => self.counted(data_len, done).queued(ChunkView::Data { bytes: payload, done }),
            Some(e) => if payload.len() == data_len && self.assembler.verdict(offset, data_len) is Ok {
                self.counted(data_len, done).failed(TransferError::Chunk(e))
            } else {
                self.failed(TransferError::Chunk(e))
            },
        }
    }
}

/// `a + b`, modulo 64 bits.
pub open spec fn wrapped(a: u64, b: nat) -> u64 {
    ((a + b) % 0x1_0000_0000_0000_0000) as u64
}

/// What a message from the peer asks of the owner.
#[derive(Debug, Clone)]
pub struct Reply {
    pub event: Option<Event>,
    /// To be sent to the peer.
    pub send: Option<ClipboardMsg>,
    /// A fetch that has something to take.
    pub wake: Option<u32>,
    /// A served transfer that may have got credit to send.
    pub credit: Option<u32>,
    /// A served transfer that is to stop.
    pub stop: Option<u32>,
}

/// What waits for a fetch's sink.
#[derive(Debug, Clone)]
pub enum Taken {
    /// Nothing has come yet.
    Wait,
    Chunk { bytes: Vec<u8>, done: bool },
    /// The fetch is over.
    Failed(TransferError),
}

/// What follows a chunk that the sink has taken.
#[derive(Debug, Clone)]
pub enum Next {
    /// To be sent to the peer.
    Ack(ClipboardMsg),
    /// The item is complete: the sink is to be closed.
    Finish,
}

/// The state of the transfers with one peer.
#[verifier::ext_equal]
pub struct TransfersView {
    pub next_id: u32,
    pub incoming: Map<u32, IncomingView>,
    pub outgoing: Map<u32, SendWindow>,
}

impl TransfersView {
    pub open spec fn wf(self) -> bool {
        &&& self.next_id > 0
        &&& forall|id: u32| #[trigger] self.incoming.dom().contains(id) ==> self.incoming[id].wf()
        &&& forall|id: u32| #[trigger] self.outgoing.dom().contains(id) ==> self.outgoing[id].wf()
    }

    /// The transfer with this id takes chunks.
    pub open spec fn is_open(self, id: u32) -> bool {
        self.incoming.dom().contains(id) && self.incoming[id].open
    }

    pub open spec fn with_incoming(self, id: u32, i: IncomingView) -> TransfersView {
        TransfersView { incoming: self.incoming.insert(id, i), ..self }
    }

    pub open spec fn with_outgoing(self, id: u32, w: SendWindow) -> TransfersView {
        TransfersView { outgoing: self.outgoing.insert(id, w), ..self }
    }

    pub open spec fn without_outgoing(self, id: u32) -> TransfersView {
        TransfersView { outgoing: self.outgoing.remove(id), ..self }
    }

    pub open spec fn without_incoming(self, id: u32) -> TransfersView {
        TransfersView { incoming: self.incoming.remove(id), ..self }
    }

    /// After a message from the peer.
    pub open spec fn after(self, msg: ClipboardMsg, payload: Seq<u8>) -> TransfersView {
        match msg {
            ClipboardMsg::Data { id, offset, data_len, done } => if self.is_open(id) {
                self.with_incoming(id, self.incoming[id].after_data(offset, data_len, done, payload))
            } else {
                self
            },
            ClipboardMsg::Ack { id, received } => if !self.outgoing.dom().contains(id) {
                self
            } else if received > self.outgoing[id].offset {
                self.without_outgoing(id)
            } else {
                self.with_outgoing(id, self.outgoing[id].credited(received))
            },
            ClipboardMsg::Abort { id } => {
                let a = self.without_outgoing(id);
                if self.is_open(id) {
                    a.with_incoming(id, self.incoming[id].failed(TransferError::Aborted))
                } else {
                    a
                }
            },
            _ => self,
        }
    }

    /// What is sent to the peer in answer to its message: a transfer that
    /// breaks the rules is aborted.
    pub open spec fn answer(self, msg: ClipboardMsg, payload: Seq<u8>) -> Option<ClipboardMsg> {
        match msg {
            ClipboardMsg::Data { id, offset, data_len, .. } => if self.is_open(id)
                && self.incoming[id].refused(offset, data_len, payload) is Some {
                Some(ClipboardMsg::Abort { id })
            } else {
                None
            },
            ClipboardMsg::Ack { id, received } => if self.outgoing.dom().contains(id) && received
                > self.outgoing[id].offset {
                Some(ClipboardMsg::Abort { id })
            } else {
                None
            },
            _ => None,
        }
    }

    /// The served transfer that a message ends.
    pub open spec fn stopped(self, msg: ClipboardMsg) -> Option<u32> {
        match msg {
            ClipboardMsg::Ack { id, received } => if self.outgoing.dom().contains(id) && received
                > self.outgoing[id].offset {
                Some(id)
            } else {
                None
            },
            ClipboardMsg::Abort { id } => if self.outgoing.dom().contains(id) {
                Some(id)
            } else {
                None
            },
            _ => None,
        }
    }

    /// The served transfer that a message gives credit.
    pub open spec fn credited(self, msg: ClipboardMsg) -> Option<u32> {
        match msg {
            ClipboardMsg::Ack { id, received } => if self.outgoing.dom().contains(id) && received
                <= self.outgoing[id].offset {
                Some(id)
            } else {
                None
            },
            _ => None,
        }
    }

    /// The fetch that a message concerns.
    pub open spec fn woken(self, msg: ClipboardMsg) -> Option<u32> {
        match msg {
            ClipboardMsg::Data { id, .. } => if self.is_open(id) {
                Some(id)
            } else {
                None
            },
            ClipboardMsg::Abort { id } => if self.is_open(id) {
                Some(id)
            } else {
                None
            },
            _ => None,
        }
    }
}

proof fn lemma_wf_changes(v: TransfersView, id: u32)
    requires
        v.wf(),
    ensures
        forall|i: IncomingView| i.wf() ==> (#[trigger] v.with_incoming(id, i)).wf(),
        forall|w: SendWindow| w.wf() ==> (#[trigger] v.with_outgoing(id, w)).wf(),
        v.without_incoming(id).wf(),
        v.without_outgoing(id).wf(),
        v.incoming.dom().contains(id) ==> v.incoming[id].wf(),
        v.outgoing.dom().contains(id) ==> v.outgoing[id].wf(),
{
    assert forall|i: IncomingView| i.wf() implies (#[trigger] v.with_incoming(id, i)).wf() by {
        let m = v.with_incoming(id, i);
        assert forall|k: u32| #[trigger] m.incoming.dom().contains(k) implies m.incoming[k].wf() by {
            assert(k != id ==> v.incoming.dom().contains(k));
        }
    }
    assert forall|w: SendWindow| w.wf() implies (#[trigger] v.with_outgoing(id, w)).wf() by {
        let m = v.with_outgoing(id, w);
        assert forall|k: u32| #[trigger] m.outgoing.dom().contains(k) implies m.outgoing[k].wf() by {
            assert(k != id ==> v.outgoing.dom().contains(k));
        }
    }
    let m = v.without_incoming(id);
    assert forall|k: u32| #[trigger] m.incoming.dom().contains(k) implies m.incoming[k].wf() by {
        assert(v.incoming.dom().contains(k));
    }
    let m = v.without_outgoing(id);
    assert forall|k: u32| #[trigger] m.outgoing.dom().contains(k) implies m.outgoing[k].wf() by {
        assert(v.outgoing.dom().contains(k));
    }
}

/// What the owner is told of a message.
pub open spec fn event_of(msg: ClipboardMsg) -> Option<Event> {
    match msg {
        ClipboardMsg::Offer { serial, mime_types, files } => Some(Event::Offer { serial, mime_types, files }),
        ClipboardMsg::Request { id, serial, item } => Some(Event::Request { id, serial, item }),
        _ => None,
    }
}

/// The id behind this one; zero is none.
pub open spec fn id_after(id: u32) -> u32 {
    if id == u32::MAX {
        1
    } else {
        (id + 1) as u32
    }
}

/// The transfers with one peer.
#[derive(Debug)]
pub struct Transfers {
    next_id: u32,
    incoming: HashMap<u32, Incoming>,
    outgoing: HashMap<u32, SendWindow>,
}

impl View for Transfers {
    type V = TransfersView;

    closed spec fn view(&self) -> TransfersView {
        TransfersView {
            next_id: self.next_id,
            incoming: self.incoming@.map_values(|i: Incoming| i@),
            outgoing: self.outgoing@,
        }
    }
}

fn wrapping_sum(a: u64, b: u64) -> (s: u64)
    ensures
        s == wrapped(a, b as nat),
{
    a.wrapping_add(b)
}

impl Incoming {
    fn queue(&mut self, c: Chunk)
        ensures
            final(self)@ == old(self)@.queued(c@),
    {
        let ghost before = self.chunks@;
        if self.chunks.len() < QUEUE {
            self.chunks.push(c);
            assert(self@.chunks =~= before.map_values(|c: Chunk| c@).push(c@));
        }
    }

    fn fail(&mut self, e: TransferError)
        ensures
            final(self)@ == old(self)@.failed(e),
    {
        self.queue(Chunk::Fail(e));
        self.open = false;
        assert(self@ =~= old(self)@.failed(e));
    }

    /// Takes a chunk or says why not.
    fn on_data(&mut self, offset: u64, data_len: u32, done: bool, payload: Vec<u8>) -> (res: Option<ChunkError>)
        requires
            old(self)@.wf(),
            old(self)@.room(),
        ensures
            res == old(self)@.refused(offset, data_len, payload@),
            final(self)@ == old(self)@.after_data(offset, data_len, done, payload@),
            final(self)@.wf(),
    {
        let got: usize = payload.len();
        if got != data_len as usize {
            let e: ChunkError = ChunkError::BadOffset {
                expected: wrapping_sum(offset, data_len as u64),
                got: wrapping_sum(offset, got as u64),
            };
            self.fail(TransferError::Chunk(e));
            return Some(e);
        }
        proof {
            assert(self.assembler.chunks * CHUNK + CHUNK <= u64::MAX);
        }
        match self.assembler.accept(offset, data_len, done) {
            Err(e) => {
                self.fail(TransferError::Chunk(e));
                Some(e)
            },
            Ok(()) => {
                proof {
                    assert(self@ =~= old(self)@.counted(data_len, done));
                }
                if self.chunks.len() < QUEUE {
                    self.queue(Chunk::Data { bytes: payload, done });
                    None
                } else {
                    self.fail(TransferError::Chunk(ChunkError::WindowExceeded));
                    Some(ChunkError::WindowExceeded)
                }
            },
        }
    }
}

impl Transfers {
    pub fn new() -> (t: Transfers)
        ensures
            t@ == (TransfersView { next_id: 1, incoming: Map::empty(), outgoing: Map::empty() }),
            t@.wf(),
    {
        let t: Transfers = Transfers { next_id: 1, incoming: HashMap::new(), outgoing: HashMap::new() };
        assert(t@.incoming =~= Map::empty());
        assert(t@.outgoing =~= Map::empty());
        t
    }

    proof fn lemma_insert(m: Map<u32, Incoming>, id: u32, i: Incoming)
        ensures
            m.insert(id, i).map_values(|i: Incoming| i@) == m.map_values(|i: Incoming| i@).insert(id, i@),
            m.remove(id).map_values(|i: Incoming| i@) == m.map_values(|i: Incoming| i@).remove(id),
            m.remove(id).insert(id, i).map_values(|i: Incoming| i@) == m.map_values(|i: Incoming| i@).insert(id, i@),
    {
        let f = |i: Incoming| i@;
        assert(m.insert(id, i).map_values(f) =~= m.map_values(f).insert(id, i@));
        assert(m.remove(id).map_values(f) =~= m.map_values(f).remove(id));
        assert(m.remove(id).insert(id, i).map_values(f) =~= m.map_values(f).insert(id, i@));
    }

    /// Whether another chunk of a fetch can be counted, where there is one.
    pub fn has_room(&self, id: u32) -> (yes: bool)
        ensures
            yes == (self@.incoming.dom().contains(id) ==> self@.incoming[id].room()),
    {
        match self.incoming.get(&id) {
            Some(i) => i.assembler.chunks < u32::MAX,
            None => true,
        }
    }

    /// Handle one message from the peer. `payload` is the `Data` chunk that
    /// followed the header (empty for other messages).
    pub fn on_msg(&mut self, msg: ClipboardMsg, payload: Vec<u8>) -> (r: Reply)
        requires
            old(self)@.wf(),
            msg matches ClipboardMsg::Data { id, .. } ==> old(self)@.incoming.dom().contains(id) ==> old(
                self,
            )@.incoming[id].room(),
        ensures
            final(self)@ == old(self)@.after(msg, payload@),
            final(self)@.wf(),
            r.event == event_of(msg),
            r.send == old(self)@.answer(msg, payload@),
            r.stop == old(self)@.stopped(msg),
            r.credit == old(self)@.credited(msg),
            r.wake == old(self)@.woken(msg),
    {
        let mut r: Reply = Reply { event: None, send: None, wake: None, credit: None, stop: None };
        let ghost before = self.incoming@;
        match msg {
            ClipboardMsg::Offer { serial, mime_types, files } => {
                r.event = Some(Event::Offer { serial, mime_types, files });
            },
            ClipboardMsg::Request { id, serial, item } => {
                r.event = Some(Event::Request { id, serial, item });
            },
            ClipboardMsg::Data { id, offset, data_len, done } => {
                if let Some(mut i) = self.incoming.remove(&id) {
                    let ghost was = i;
                    if i.open {
                        r.wake = Some(id);
                        let e: Option<ChunkError> = i.on_data(offset, data_len, done, payload);
                        if e.is_some() {
                            r.send = Some(ClipboardMsg::Abort { id });
                        }
                    }
                    self.incoming.insert(id, i);
                    proof {
                        Self::lemma_insert(before, id, i);
                        assert(self@.incoming =~= old(self)@.incoming.insert(id, i@));
                        if !was.open {
                            assert(self@.incoming =~= old(self)@.incoming);
                        }
                    }
                } else {
                    proof {
                        assert(self.incoming@ =~= before);
                    }
                }
            },
            ClipboardMsg::Ack { id, received } => {
                let ghost windows = self.outgoing@;
                if let Some(mut w) = self.outgoing.remove(&id) {
                    match w.on_ack(received) {
                        Ok(()) => {
                            self.outgoing.insert(id, w);
                            r.credit = Some(id);
                            proof {
                                assert(self.outgoing@ =~= windows.insert(id, w));
                            }
                        },
                        Err(_) => {
                            r.stop = Some(id);
                            r.send = Some(ClipboardMsg::Abort { id });
                        },
                    }
                } else {
                    proof {
                        assert(self.outgoing@ =~= windows);
                    }
                }
            },
            ClipboardMsg::Abort { id } => {
                if self.outgoing.remove(&id).is_some() {
                    r.stop = Some(id);
                }
                if let Some(mut i) = self.incoming.remove(&id) {
                    let ghost was = i;
                    if i.open {
                        r.wake = Some(id);
                        i.fail(TransferError::Aborted);
                    }
                    self.incoming.insert(id, i);
                    proof {
                        Self::lemma_insert(before, id, i);
                        assert(self@.incoming =~= old(self)@.incoming.insert(id, i@));
                        if !was.open {
                            assert(self@.incoming =~= old(self)@.incoming);
                        }
                    }
                } else {
                    proof {
                        assert(self.incoming@ =~= before);
                    }
                }
            },
        }
        r
    }

    /// Ask the peer for an item: its id, and the request to send. `cap`
    /// bounds the size; anything over it aborts the transfer.
    pub fn fetch(&mut self, item: ClipboardItem, serial: u32, cap: Option<u64>) -> (res: (u32, ClipboardMsg))
        requires
            old(self)@.wf(),
        ensures
            res.0 == old(self)@.next_id,
            res.1 == (ClipboardMsg::Request { id: res.0, serial, item }),
            final(self)@.wf(),
            final(self)@ == (TransfersView {
                next_id: id_after(res.0),
                incoming: old(self)@.incoming.insert(
                    res.0,
                    IncomingView {
                        assembler: Assembler { received: 0, chunks: 0, cap, done: false },
                        chunks: Seq::empty(),
                        open: true,
                        received: 0,
                    },
                ),
                outgoing: old(self)@.outgoing,
            }),
    {
        let id: u32 = self.next_id;
        self.next_id = if id == u32::MAX {
            1
        } else {
            id + 1
        };
        let i: Incoming = Incoming { assembler: Assembler::new(cap), chunks: Vec::new(), open: true, received: 0 };
        let ghost before = self.incoming@;
        self.incoming.insert(id, i);
        proof {
            Self::lemma_insert(before, id, i);
            assert(i@.chunks =~= Seq::empty());
            assert(self@.incoming =~= old(self)@.incoming.insert(id, i@));
            assert(i@.wf());
        }
        (id, ClipboardMsg::Request { id, serial, item })
    }

    /// What waits for the sink of a fetch. A failure ends it.
    pub fn take(&mut self, id: u32) -> (t: Taken)
        requires
            old(self)@.wf(),
            old(self)@.incoming.dom().contains(id),
        ensures
            final(self)@.wf(),
            ({
                let i = old(self)@.incoming[id];
                if i.chunks.len() > 0 {
                    match i.chunks[0] {
                        ChunkView::Data { bytes, done } => {
                            &&& t matches Taken::Chunk { bytes: b, done: d } && b@ == bytes && d == done
                            &&& final(self)@ == old(self)@.with_incoming(
                                id,
                                IncomingView { chunks: i.chunks.skip(1), ..i },
                            )
                        },
                        ChunkView::Fail(e) => t == Taken::Failed(e) && final(self)@ == old(self)@.without_incoming(id),
                    }
                } else if i.open {
                    t == Taken::Wait && final(self)@ == old(self)@
                } else {
                    t == Taken::Failed(TransferError::PeerGone) && final(self)@ == old(self)@.without_incoming(id)
                }
            }),
    {
        proof {
            lemma_wf_changes(old(self)@, id);
        }
        let ghost before = self.incoming@;
        let mut i: Incoming = match self.incoming.remove(&id) {
            Some(i) => i,
            None => return Taken::Wait,
        };
        let ghost was = i;
        proof {
            Self::lemma_insert(before, id, i);
        }
        if i.chunks.len() == 0 {
            if i.open {
                self.incoming.insert(id, i);
                proof {
                    assert(self@.incoming =~= old(self)@.incoming);
                }
                return Taken::Wait;
            }
            return Taken::Failed(TransferError::PeerGone);
        }
        let c: Chunk = i.chunks.remove(0);
        proof {
            assert(c@ == was@.chunks[0]);
            assert(i@.chunks =~= was@.chunks.skip(1));
        }
        match c {
            Chunk::Data { bytes, done } => {
                self.incoming.insert(id, i);
                proof {
                    Self::lemma_insert(before, id, i);
                    assert(self@.incoming =~= old(self)@.incoming.insert(id, i@));
                    assert(i@ =~= (IncomingView { chunks: was@.chunks.skip(1), ..was@ }));
                }
                Taken::Chunk { bytes, done }
            },
            Chunk::Fail(e) => Taken::Failed(e),
        }
    }

    /// The sink has taken `len` bytes: acknowledge them, or close the sink.
    pub fn written(&mut self, id: u32, len: u64, done: bool) -> (n: Next)
        requires
            old(self)@.wf(),
            old(self)@.incoming.dom().contains(id),
            old(self)@.incoming[id].received + len <= u64::MAX,
        ensures
            final(self)@.wf(),
            ({
                let i = old(self)@.incoming[id];
                let received = (i.received + len) as u64;
                &&& final(self)@ == old(self)@.with_incoming(id, IncomingView { received, ..i })
                &&& n == if done {
                    Next::Finish
                } else {
                    Next::Ack(ClipboardMsg::Ack { id, received })
                }
            }),
    {
        proof {
            lemma_wf_changes(old(self)@, id);
        }
        let ghost before = self.incoming@;
        let mut i: Incoming = match self.incoming.remove(&id) {
            Some(i) => i,
            None => return Next::Finish,
        };
        let ghost was = i;
        i.received = i.received + len;
        let received: u64 = i.received;
        self.incoming.insert(id, i);
        proof {
            Self::lemma_insert(before, id, i);
            assert(self@.incoming =~= old(self)@.incoming.insert(id, i@));
            assert(i@ =~= (IncomingView { received, ..was@ }));
        }
        if done {
            Next::Finish
        } else {
            Next::Ack(ClipboardMsg::Ack { id, received })
        }
    }

    /// The sink is closed: the fetch is over, with this many bytes.
    pub fn finish(&mut self, id: u32) -> (received: u64)
        requires
            old(self)@.wf(),
            old(self)@.incoming.dom().contains(id),
        ensures
            final(self)@.wf(),
            final(self)@ == old(self)@.without_incoming(id),
            received == old(self)@.incoming[id].received,
    {
        proof {
            lemma_wf_changes(old(self)@, id);
        }
        let ghost before = self.incoming@;
        match self.incoming.remove(&id) {
            Some(i) => {
                proof {
                    Self::lemma_insert(before, id, i);
                }
                i.received
            },
            None => 0,
        }
    }

    /// Give up a fetch, for want of progress or of a sink; where the peer is
    /// still sending it is told to stop.
    pub fn abandon(&mut self, id: u32) -> (msg: Option<ClipboardMsg>)
        requires
            old(self)@.wf(),
        ensures
            final(self)@.wf(),
            final(self)@ == old(self)@.without_incoming(id),
            msg == if old(self)@.is_open(id) {
                Some(ClipboardMsg::Abort { id })
            } else {
                None
            },
    {
        proof {
            lemma_wf_changes(old(self)@, id);
        }
        let ghost before = self.incoming@;
        match self.incoming.remove(&id) {
            Some(i) => {
                proof {
                    Self::lemma_insert(before, id, i);
                }
                if i.open {
                    Some(ClipboardMsg::Abort { id })
                } else {
                    None
                }
            },
            None => {
                proof {
                    assert(self@.incoming =~= old(self)@.incoming.remove(id));
                }
                None
            },
        }
    }

    /// Begin to answer the peer's request `id`.
    pub fn serve(&mut self, id: u32)
        requires
            old(self)@.wf(),
        ensures
            final(self)@.wf(),
            final(self)@ == old(self)@.with_outgoing(id, SendWindow { offset: 0, acked: 0 }),
    {
        proof {
            lemma_wf_changes(old(self)@, id);
        }
        self.outgoing.insert(id, SendWindow::default());
    }

    /// Whether an item is being fetched.
    pub fn fetching(&self, id: u32) -> (yes: bool)
        ensures
            yes == self@.incoming.dom().contains(id),
    {
        self.incoming.contains_key(&id)
    }

    /// Whether a transfer is being served.
    pub fn serving(&self, id: u32) -> (yes: bool)
        ensures
            yes == self@.outgoing.dom().contains(id),
    {
        self.outgoing.contains_key(&id)
    }

    /// Whether another chunk of a served item may be sent now.
    pub fn may_send(&self, id: u32) -> (yes: bool)
        requires
            self@.wf(),
        ensures
            yes == (self@.outgoing.dom().contains(id) && self@.outgoing[id].in_flight() < WINDOW * CHUNK),
    {
        proof {
            lemma_wf_changes(self@, id);
        }
        match self.outgoing.get(&id) {
            Some(w) => w.may_send(),
            None => false,
        }
    }

    /// The message before the next `len` bytes of a served item; `done` says
    /// that there are no more.
    pub fn send_chunk(&mut self, id: u32, len: u32, done: bool) -> (msg: Option<ClipboardMsg>)
        requires
            old(self)@.wf(),
            old(self)@.outgoing.dom().contains(id) ==> old(self)@.outgoing[id].offset + len <= u64::MAX,
        ensures
            final(self)@.wf(),
            ({
                let w = old(self)@.outgoing[id];
                if old(self)@.outgoing.dom().contains(id) {
                    &&& msg == Some(ClipboardMsg::Data { id, offset: w.offset, data_len: len, done })
                    &&& final(self)@ == old(self)@.with_outgoing(
                        id,
                        SendWindow { offset: (w.offset + len) as u64, ..w },
                    )
                } else {
                    msg is None && final(self)@ == old(self)@
                }
            }),
    {
        proof {
            lemma_wf_changes(old(self)@, id);
        }
        let ghost windows = self.outgoing@;
        match self.outgoing.remove(&id) {
            Some(mut w) => {
                let ghost was = w;
                let offset: u64 = w.offset;
                w.on_sent(len as usize);
                self.outgoing.insert(id, w);
                proof {
                    assert(self.outgoing@ =~= windows.insert(id, w));
                    assert(w == (SendWindow { offset: (was.offset + len) as u64, ..was }));
                }
                Some(ClipboardMsg::Data { id, offset, data_len: len, done })
            },
            None => {
                proof {
                    assert(self.outgoing@ =~= windows);
                }
                None
            },
        }
    }

    /// A served item is over. Where its source failed and the peer does not
    /// know yet, it is told.
    pub fn end_serve(&mut self, id: u32, failed: bool) -> (msg: Option<ClipboardMsg>)
        requires
            old(self)@.wf(),
        ensures
            final(self)@.wf(),
            final(self)@ == old(self)@.without_outgoing(id),
            msg == if failed && old(self)@.outgoing.dom().contains(id) {
                Some(ClipboardMsg::Abort { id })
            } else {
                None
            },
    {
        proof {
            lemma_wf_changes(old(self)@, id);
        }
        let ours: bool = self.outgoing.remove(&id).is_some();
        if failed && ours {
            Some(ClipboardMsg::Abort { id })
        } else {
            None
        }
    }

    /// Decline the peer's request `id`.
    pub fn refuse(id: u32) -> (msg: ClipboardMsg)
        ensures
            msg == (ClipboardMsg::Abort { id }),
    {
        ClipboardMsg::Abort { id }
    }
}

/// Splits what a source hands over: at most [`CHUNK`] bytes to send, and the
/// rest, if there is one.
pub fn split_chunk(mut bytes: Vec<u8>) -> (parts: (Vec<u8>, Option<Vec<u8>>))
    ensures
        parts.0@.len() <= CHUNK,
        bytes@.len() <= CHUNK ==> parts.0@ == bytes@ && parts.1 is None,
        bytes@.len() > CHUNK ==> parts.0@ == bytes@.take(CHUNK as int) && (parts.1 matches Some(rest) && rest@
            == bytes@.skip(CHUNK as int)),
{
    if bytes.len() > CHUNK {
        let ghost all = bytes@;
        let rest: Vec<u8> = bytes.split_off(CHUNK);
        assert(bytes@ =~= all.take(CHUNK as int));
        assert(rest@ =~= all.skip(CHUNK as int));
        (bytes, Some(rest))
    } else {
        (bytes, None)
    }
}

/// Where the next of these chunks stands once `k` of them are sent.
pub open spec fn offset_after(cs: Seq<Seq<u8>>, k: int) -> nat
    decreases k,
{
    if k <= 0 {
        0
    } else {
        offset_after(cs, k - 1) + cs[k - 1].len()
    }
}

/// A fetch that has just begun.
pub open spec fn begun(cap: Option<u64>) -> IncomingView {
    IncomingView {
        assembler: Assembler { received: 0, chunks: 0, cap, done: false },
        chunks: Seq::empty(),
        open: true,
        received: 0,
    }
}

/// A fetch whose sink has taken the first `k` of these chunks, each sent at
/// its offset.
pub open spec fn received_first(cap: Option<u64>, cs: Seq<Seq<u8>>, k: int) -> IncomingView
    decreases k,
{
    if k <= 0 {
        begun(cap)
    } else {
        let i = received_first(cap, cs, k - 1).after_data(
            offset_after(cs, k - 1) as u64,
            cs[k - 1].len() as u32,
            false,
            cs[k - 1],
        );
        IncomingView { chunks: i.chunks.skip(1), ..i }
    }
}

proof fn lemma_offset_bound(cs: Seq<Seq<u8>>, k: int)
    requires
        0 <= k <= cs.len(),
        forall|n: int| 0 <= n < cs.len() ==> (#[trigger] cs[n]).len() <= CHUNK,
    ensures
        offset_after(cs, k) <= k * CHUNK,
        offset_after(cs, k) <= offset_after(cs, cs.len() as int),
    decreases cs.len() - k, k,
{
    lemma_offset_low(cs, k);
    if k < cs.len() {
        lemma_offset_bound(cs, k + 1);
    }
}

proof fn lemma_offset_low(cs: Seq<Seq<u8>>, k: int)
    requires
        0 <= k <= cs.len(),
        forall|n: int| 0 <= n < cs.len() ==> (#[trigger] cs[n]).len() <= CHUNK,
    ensures
        offset_after(cs, k) <= k * CHUNK,
    decreases k,
{
    if k > 0 {
        lemma_offset_low(cs, k - 1);
    }
}

/// An item that is served in chunks, within the cap, arrives whole: each
/// chunk is taken, and waits for the sink as it was sent, in order; then the
/// last message is taken as the end.
pub proof fn law_served_item_arrives(cap: Option<u64>, cs: Seq<Seq<u8>>, k: int)
    requires
        0 <= k <= cs.len() < u32::MAX,
        forall|n: int| 0 <= n < cs.len() ==> (#[trigger] cs[n]).len() <= CHUNK,
        cap matches Some(c) ==> offset_after(cs, cs.len() as int) <= c,
    ensures
        ({
            let i = received_first(cap, cs, k);
            let at = offset_after(cs, k);
            &&& i.open && i.chunks.len() == 0 && i.wf()
            &&& i.assembler == (Assembler { received: at as u64, chunks: k as u32, cap, done: false })
            &&& at <= u64::MAX
            &&& k < cs.len() ==> {
                &&& i.refused(at as u64, cs[k].len() as u32, cs[k]) is None
                &&& i.after_data(at as u64, cs[k].len() as u32, false, cs[k]).chunks == seq![
                    ChunkView::Data { bytes: cs[k], done: false },
                ]
            }
            &&& k == cs.len() ==> {
                &&& i.refused(at as u64, 0, Seq::empty()) is None
                &&& i.after_data(at as u64, 0, true, Seq::empty()).chunks == seq![
                    ChunkView::Data { bytes: Seq::empty(), done: true },
                ]
            }
        }),
    decreases k,
{
    lemma_offset_bound(cs, k);
    assert(k * CHUNK <= u64::MAX);
    if k > 0 {
        law_served_item_arrives(cap, cs, k - 1);
        let i = received_first(cap, cs, k);
        assert(cs[k - 1].len() <= CHUNK);
        assert(i.chunks =~= Seq::empty());
    }
    if k < cs.len() {
        lemma_offset_bound(cs, k + 1);
        assert(cs[k].len() <= CHUNK);
    }
}

/// An item over the cap is aborted: its next chunk is not taken, the fetch
/// is over, and the peer is told.
pub proof fn law_over_the_cap_is_aborted(
    v: TransfersView,
    id: u32,
    data_len: u32,
    done: bool,
    payload: Seq<u8>,
    cap: u64,
)
    requires
        v.is_open(id),
        v.incoming[id].chunks.len() < QUEUE,
        v.incoming[id].assembler.cap == Some(cap),
        !v.incoming[id].assembler.done,
        payload.len() == data_len <= CHUNK,
        v.incoming[id].assembler.received + data_len > cap,
    ensures
        ({
            let i = v.incoming[id];
            let msg = ClipboardMsg::Data { id, offset: i.assembler.received, data_len, done };
            &&& v.answer(msg, payload) == Some(ClipboardMsg::Abort { id })
            &&& !v.after(msg, payload).is_open(id)
            &&& v.after(msg, payload).incoming[id].chunks == i.chunks.push(
                ChunkView::Fail(TransferError::Chunk(ChunkError::OverCap(cap))),
            )
        }),
{
}

/// A refused request ends the fetch it was for.
pub proof fn law_refusal_ends_the_fetch(v: TransfersView, id: u32)
    requires
        v.is_open(id),
        v.incoming[id].chunks.len() == 0,
    ensures
        ({
            let after = v.after(ClipboardMsg::Abort { id }, Seq::empty());
            &&& !after.is_open(id)
            &&& after.incoming[id].chunks == seq![ChunkView::Fail(TransferError::Aborted)]
        }),
{
    assert(v.incoming[id].failed(TransferError::Aborted).chunks =~= seq![ChunkView::Fail(TransferError::Aborted)]);
}

/// A chunk in its place is taken and waits for the sink behind what waits
/// already; the peer is told nothing, and no other transfer is touched.
pub proof fn law_chunks_in_place_are_taken(v: TransfersView, id: u32, data_len: u32, done: bool, payload: Seq<u8>)
    requires
        v.is_open(id),
        v.incoming[id].chunks.len() < QUEUE,
        v.incoming[id].assembler.chunks < u32::MAX,
        !v.incoming[id].assembler.done,
        payload.len() == data_len <= CHUNK,
        v.incoming[id].assembler.received + data_len <= u64::MAX,
        v.incoming[id].assembler.cap matches Some(c) ==> v.incoming[id].assembler.received + data_len <= c,
    ensures
        ({
            let i = v.incoming[id];
            let msg = ClipboardMsg::Data { id, offset: i.assembler.received, data_len, done };
            let after = v.after(msg, payload);
            &&& v.answer(msg, payload) is None
            &&& v.woken(msg) == Some(id)
            &&& v.stopped(msg) is None && v.credited(msg) is None
            &&& after.is_open(id)
            &&& after.incoming[id].chunks == i.chunks.push(ChunkView::Data { bytes: payload, done })
            &&& after.incoming[id].assembler.received == i.assembler.received + data_len
            &&& after.incoming[id].assembler.done == done
            &&& after.incoming[id].received == i.received
            &&& after.outgoing == v.outgoing && after.next_id == v.next_id
            &&& forall|o: u32| o != id ==> (#[trigger] after.incoming.dom().contains(o) <==>
                v.incoming.dom().contains(o))
            &&& forall|o: u32| o != id && v.incoming.dom().contains(o) ==> #[trigger] after.incoming[o] == v.incoming[o]
        }),
{
}

/// A chunk out of place, too large, of another length than it says, behind the
/// last, or one too many is not taken: the fetch fails and the peer is told to
/// stop. One for a fetch that is over changes nothing.
pub proof fn law_bad_chunks_end_the_fetch(
    v: TransfersView,
    id: u32,
    offset: u64,
    data_len: u32,
    done: bool,
    payload: Seq<u8>,
)
    ensures
        ({
            let msg = ClipboardMsg::Data { id, offset, data_len, done };
            let after = v.after(msg, payload);
            let i = v.incoming[id];
            &&& !v.is_open(id) ==> after == v && v.answer(msg, payload) is None && v.woken(msg) is None
            &&& v.is_open(id) && (payload.len() != data_len || offset != i.assembler.received || data_len > CHUNK
                || i.assembler.done || i.chunks.len() >= QUEUE || (i.assembler.cap matches Some(c)
                && i.assembler.received + data_len > c)) ==> {
                &&& v.answer(msg, payload) == Some(ClipboardMsg::Abort { id })
                &&& !after.is_open(id)
                &&& v.woken(msg) == Some(id)
                &&& i.chunks.len() < QUEUE ==> after.incoming[id].chunks.len() == i.chunks.len() + 1
                    && after.incoming[id].chunks.last() is Fail && after.incoming[id].chunks.drop_last() == i.chunks
                &&& after.outgoing == v.outgoing
            }
        }),
{
    let i = v.incoming[id];
    if v.is_open(id) && i.chunks.len() < QUEUE {
        let after = v.after(ClipboardMsg::Data { id, offset, data_len, done }, payload);
        if after.incoming[id].chunks.len() == i.chunks.len() + 1 {
            assert(after.incoming[id].chunks.drop_last() =~= i.chunks);
        }
    }
}

/// An ack of what was sent gives the sender credit, which never shrinks; one
/// of more than was sent ends the transfer and tells the peer. Acks of what is
/// not being served do nothing.
pub proof fn law_acks_give_credit(v: TransfersView, id: u32, received: u64)
    ensures
        ({
            let msg = ClipboardMsg::Ack { id, received };
            let after = v.after(msg, Seq::empty());
            let w = v.outgoing[id];
            let serving = v.outgoing.dom().contains(id);
            &&& after.incoming == v.incoming && after.next_id == v.next_id
            &&& !serving ==> after == v && v.answer(msg, Seq::empty()) is None && v.credited(msg) is None
            &&& serving && received <= w.offset ==> {
                &&& after.outgoing.dom().contains(id)
                &&& after.outgoing[id].offset == w.offset
                &&& after.outgoing[id].acked >= w.acked && after.outgoing[id].acked >= received && (
                after.outgoing[id].acked == received || after.outgoing[id].acked == w.acked)
                &&& v.credited(msg) == Some(id) && v.stopped(msg) is None && v.answer(msg, Seq::empty()) is None
            }
            &&& serving && received > w.offset ==> {
                &&& !after.outgoing.dom().contains(id)
                &&& v.stopped(msg) == Some(id)
                &&& v.answer(msg, Seq::empty()) == Some(ClipboardMsg::Abort { id })
                &&& v.credited(msg) is None
            }
            &&& forall|o: u32| o != id && v.outgoing.dom().contains(o) ==> after.outgoing.dom().contains(o)
                && #[trigger] after.outgoing[o] == v.outgoing[o]
        }),
{
}

/// An abort ends what is served and what is fetched under its number, and is
/// not answered.
pub proof fn law_aborts_end_both_ways(v: TransfersView, id: u32)
    ensures
        ({
            let msg = ClipboardMsg::Abort { id };
            let after = v.after(msg, Seq::empty());
            &&& !after.outgoing.dom().contains(id)
            &&& !after.is_open(id)
            &&& v.outgoing.dom().contains(id) <==> v.stopped(msg) == Some(id)
            &&& v.is_open(id) <==> v.woken(msg) == Some(id)
            &&& v.answer(msg, Seq::empty()) is None
            &&& forall|o: u32| o != id && v.outgoing.dom().contains(o) ==> after.outgoing.dom().contains(o)
                && #[trigger] after.outgoing[o] == v.outgoing[o]
            &&& forall|o: u32| o != id && v.incoming.dom().contains(o) ==> after.incoming.dom().contains(o)
                && #[trigger] after.incoming[o] == v.incoming[o]
        }),
{
}

/// Offers and requests are handed on as they came, and nothing else is; they
/// change no transfer.
pub proof fn law_offers_and_requests_are_handed_on(v: TransfersView, msg: ClipboardMsg)
    ensures
        msg matches ClipboardMsg::Offer { serial, mime_types, files } ==> event_of(msg) == Some(
            Event::Offer { serial, mime_types, files },
        ),
        msg matches ClipboardMsg::Request { id, serial, item } ==> event_of(msg) == Some(
            Event::Request { id, serial, item },
        ),
        event_of(msg) is Some ==> v.after(msg, Seq::empty()) == v && v.answer(msg, Seq::empty()) is None,
        msg is Data || msg is Ack || msg is Abort ==> event_of(msg) is None,
{
}

/// A fetch's number is never zero, and is not used again before all others
/// were.
pub proof fn law_fetches_are_numbered_in_turn(id: u32)
    requires
        id > 0,
    ensures
        id_after(id) > 0,
        id < u32::MAX ==> id_after(id) == id + 1,
        id == u32::MAX ==> id_after(id) == 1,
{
}

} // verus!
