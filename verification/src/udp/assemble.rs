//! The receiver: parts back into frames, in order.

use super::packet::{Packet, PacketView};
use super::split::FrameInfo;
use vstd::prelude::*;

verus! {

/// A frame put back together.
#[derive(Debug, Clone, PartialEq, Eq)]
pub struct AssembledFrame {
    pub info: FrameInfo,
    pub main: Vec<u8>,
    pub aux: Vec<u8>,
}

/// What the assembler hands up.
#[derive(Debug, Clone, PartialEq, Eq)]
pub enum Event {
    /// A complete frame, in frame order.
    Frame(AssembledFrame),
    /// A frame given up on: its parts did not come. It has been acked.
    Lost(u64),
}

#[verifier::ext_equal]
pub enum EventView {
    Frame { info: FrameInfo, main: Seq<u8>, aux: Seq<u8> },
    Lost(u64),
}

impl View for Event {
    type V = EventView;

    open spec fn view(&self) -> EventView {
        match *self {
            Event::Frame(f) => EventView::Frame { info: f.info, main: f.main@, aux: f.aux@ },
            Event::Lost(id) => EventView::Lost(id),
        }
    }
}

impl EventView {
    /// The frame the event is about.
    pub open spec fn id(self) -> u64 {
        match self {
            EventView::Frame { info, .. } => info.frame_id,
            EventView::Lost(id) => id,
        }
    }
}

#[derive(Debug, Default, Clone, Copy, PartialEq, Eq)]
pub struct Stats {
    pub frames: u64,
    pub lost: u64,
    pub nacks: u64,
    /// Frames completed only after a NACK.
    pub repaired: u64,
}

/// A frame some of whose parts have come. Times are in nanoseconds.
struct Pending {
    info: FrameInfo,
    count: u16,
    main_len: usize,
    total_len: usize,
    parts: Vec<Option<Vec<u8>>>,
    have: u16,
    first_seen: u64,
    last_nack: Option<u64>,
    nacks: u32,
}

#[verifier::ext_equal]
pub struct PendingView {
    pub info: FrameInfo,
    pub main_len: int,
    pub total_len: int,
    pub parts: Seq<Option<Seq<u8>>>,
    pub first_seen: u64,
    pub last_nack: Option<u64>,
    pub nacks: u32,
}

pub open spec fn part_view(p: Option<Vec<u8>>) -> Option<Seq<u8>> {
    match p {
        Some(v) => Some(v@),
        None => None,
    }
}

/// How many parts have come.
pub open spec fn received(parts: Seq<Option<Seq<u8>>>) -> nat
    decreases parts.len(),
{
    if parts.len() == 0 {
        0
    } else {
        received(parts.drop_last()) + (if parts.last() is Some { 1nat } else { 0nat })
    }
}

/// Whether every part has come.
pub open spec fn complete(parts: Seq<Option<Seq<u8>>>) -> bool {
    forall|i: int| 0 <= i < parts.len() ==> (#[trigger] parts[i]) is Some
}

/// The parts that have come, put together in order.
pub open spec fn flat(parts: Seq<Option<Seq<u8>>>) -> Seq<u8>
    decreases parts.len(),
{
    if parts.len() == 0 {
        Seq::empty()
    } else {
        flat(parts.drop_last()) + (match parts.last() {
            Some(bytes) => bytes,
            None => Seq::empty(),
        })
    }
}

/// The indices of the parts that have not come, in order.
pub open spec fn missing_of(parts: Seq<Option<Seq<u8>>>) -> Seq<u16>
    decreases parts.len(),
{
    if parts.len() == 0 {
        Seq::empty()
    } else if parts.last() is None {
        missing_of(parts.drop_last()).push((parts.len() - 1) as u16)
    } else {
        missing_of(parts.drop_last())
    }
}

/// Whether a part is missing before one that has come.
pub open spec fn hole_shown(parts: Seq<Option<Seq<u8>>>) -> bool {
    exists|i: int, j: int| 0 <= i < j < parts.len() && (#[trigger] parts[i]) is None && (#[trigger] parts[j]) is Some
}

/// The receiver's state.
#[verifier::ext_equal]
pub struct AssemblerView {
    pub frames: Seq<PendingView>,
    pub next: u64,
    pub rtt: u64,
    pub outgoing: Seq<PacketView>,
    pub stats: Stats,
}

/// How long to wait for a retransmit before asking again: a round trip and a
/// quarter, at least 8 and at most 250 milliseconds.
pub open spec fn nack_interval_of(rtt: u64) -> int {
    let wait = rtt + rtt / 4;
    if wait < Assembler::MIN_NACK_INTERVAL {
        Assembler::MIN_NACK_INTERVAL as int
    } else if wait > Assembler::MAX_NACK_INTERVAL {
        Assembler::MAX_NACK_INTERVAL as int
    } else {
        wait
    }
}

/// The time from `t` to `now`, zero when `t` is later.
pub open spec fn since(now: u64, t: u64) -> int {
    if now >= t {
        now - t
    } else {
        0
    }
}

/// Whether it is time to ask for the parts of the oldest frame: at first when
/// a gap shows or half an interval has passed, then every interval.
pub open spec fn nack_due(st: AssemblerView, now: u64) -> bool {
    let p = st.frames[0];
    let interval = nack_interval_of(st.rtt);
    match p.last_nack {
        None => st.frames.len() > 1 || hole_shown(p.parts) || since(now, p.first_seen) >= interval / 2,
        Some(t) => since(now, t) >= interval,
    }
}

/// Whether the oldest frame is given up instead of asked for again.
pub open spec fn gives_up(st: AssemblerView) -> bool {
    st.frames[0].nacks >= Assembler::MAX_NACKS || st.frames.len() - 1 > Assembler::MAX_AHEAD
}

/// What comes of a complete frame: the frame, or its loss where the parts
/// disagree with the header.
pub open spec fn delivered(p: PendingView) -> EventView {
    let body = flat(p.parts);
    if body.len() != p.total_len || p.main_len > body.len() {
        EventView::Lost(p.info.frame_id)
    } else {
        EventView::Frame { info: p.info, main: body.take(p.main_len), aux: body.skip(p.main_len) }
    }
}

/// The state after the oldest frame, complete, is delivered. One that is lost
/// is acked.
pub open spec fn after_delivery(st: AssemblerView) -> AssemblerView {
    let p = st.frames[0];
    AssemblerView {
        frames: st.frames.drop_first(),
        next: (p.info.frame_id + 1) as u64,
        stats: (Stats {
            frames: (st.stats.frames + 1) as u64,
            repaired: (st.stats.repaired + (if p.nacks > 0 { 1int } else { 0int })) as u64,
            lost: (st.stats.lost + (if delivered(p) is Lost { 1int } else { 0int })) as u64,
            ..st.stats
        }),
        outgoing: if delivered(p) is Lost {
            st.outgoing.push((PacketView::Ack { frame_id: p.info.frame_id, decoded_at_ms: 0 }))
        } else {
            st.outgoing
        },
        ..st
    }
}

/// The state after the oldest frame is given up.
pub open spec fn after_loss(st: AssemblerView) -> AssemblerView {
    let id = st.frames[0].info.frame_id;
    AssemblerView {
        frames: st.frames.drop_first(),
        next: (id + 1) as u64,
        stats: (Stats { lost: (st.stats.lost + 1) as u64, ..st.stats }),
        outgoing: st.outgoing.push((PacketView::Ack { frame_id: id, decoded_at_ms: 0 })),
        ..st
    }
}

/// The state after the missing parts of the oldest frame are asked for.
pub open spec fn after_nack(st: AssemblerView, now: u64) -> AssemblerView {
    let p = st.frames[0];
    AssemblerView {
        frames: st.frames.update(0, (PendingView { last_nack: Some(now), nacks: (p.nacks + 1) as u32, ..p })),
        stats: (Stats { nacks: (st.stats.nacks + 1) as u64, ..st.stats }),
        outgoing: st.outgoing.push(
            (PacketView::Nack { frame_id: p.info.frame_id, missing: missing_of(p.parts) }),
        ),
        ..st
    }
}

/// Deliver what is complete at the front, oldest first, and ask for the parts
/// of the first frame that is not, or give it up.
pub open spec fn advanced(st: AssemblerView, now: u64, events: Seq<EventView>) -> (AssemblerView, Seq<EventView>)
    decreases st.frames.len(),
{
    if st.frames.len() == 0 {
        (st, events)
    } else if complete(st.frames[0].parts) {
        advanced(after_delivery(st), now, events.push(delivered(st.frames[0])))
    } else if !nack_due(st, now) {
        (st, events)
    } else if gives_up(st) {
        advanced(after_loss(st), now, events.push(EventView::Lost(st.frames[0].info.frame_id)))
    } else {
        (after_nack(st, now), events)
    }
}

/// How many frames stand before frame `id`.
pub open spec fn before_id(frames: Seq<PendingView>, id: u64) -> int
    decreases frames.len(),
{
    if frames.len() == 0 || frames[0].info.frame_id >= id {
        0
    } else {
        1 + before_id(frames.drop_first(), id)
    }
}

/// Whether frame `id` is waited for.
pub open spec fn has_id(frames: Seq<PendingView>, id: u64) -> bool {
    let k = before_id(frames, id);
    k < frames.len() && frames[k].info.frame_id == id
}

/// `p` with part `index`, unless it has come already.
pub open spec fn with_part(p: PendingView, index: int, bytes: Seq<u8>) -> PendingView {
    if p.parts[index] is None {
        PendingView { parts: p.parts.update(index, Some(bytes)), ..p }
    } else {
        p
    }
}

/// A frame of which nothing has come yet.
pub open spec fn nothing_of(info: FrameInfo, count: u16, main_len: u32, total_len: u32, now: u64) -> PendingView {
    PendingView {
        info,
        main_len: main_len as int,
        total_len: total_len as int,
        parts: Seq::new(count as nat, |i: int| None),
        first_seen: now,
        last_nack: None,
        nacks: 0,
    }
}

/// The frames waited for after a part has come.
pub open spec fn stored(frames: Seq<PendingView>, fresh: PendingView, index: int, bytes: Seq<u8>) -> Seq<PendingView> {
    let k = before_id(frames, fresh.info.frame_id);
    if has_id(frames, fresh.info.frame_id) {
        frames.update(k, with_part(frames[k], index, bytes))
    } else {
        frames.insert(k, with_part(fresh, index, bytes))
    }
}

/// What a packet does to the receiver. Only a part of a frame not yet
/// delivered or dropped, that agrees with the parts before it, does anything.
pub open spec fn on_packet_step(st: AssemblerView, packet: PacketView, bytes: Seq<u8>, now: u64) -> (
    AssemblerView,
    Seq<EventView>,
) {
    match packet {
        PacketView::Part { frame_id, index, count, keyframe, reference, pts_us, main_len, total_len } => {
            let info = FrameInfo { frame_id, keyframe, reference, pts_us };
            let k = before_id(st.frames, frame_id);
            if frame_id < st.next || count == 0 || index >= count {
                (st, Seq::empty())
            } else if has_id(st.frames, frame_id) && st.frames[k].parts.len() != count {
                (st, Seq::empty())
            } else {
                advanced(
                    (AssemblerView {
                        frames: stored(
                            st.frames,
                            nothing_of(info, count, main_len, total_len, now),
                            index as int,
                            bytes,
                        ),
                        ..st
                    }),
                    now,
                    Seq::empty(),
                )
            }
        },
        _ => (st, Seq::empty()),
    }
}

proof fn lemma_received_bound(parts: Seq<Option<Seq<u8>>>)
    ensures
        received(parts) <= parts.len(),
        received(parts) == parts.len() <==> complete(parts),
    decreases parts.len(),
{
    if parts.len() > 0 {
        lemma_received_bound(parts.drop_last());
        let rest = parts.drop_last();
        if complete(parts) {
            assert forall|i: int| 0 <= i < rest.len() implies (#[trigger] rest[i]) is Some by {
                assert(rest[i] == parts[i]);
            }
        }
        if complete(rest) && parts.last() is Some {
            assert forall|i: int| 0 <= i < parts.len() implies (#[trigger] parts[i]) is Some by {
                if i < rest.len() {
                    assert(rest[i] == parts[i]);
                }
            }
        }
    }
}

proof fn lemma_received_update(parts: Seq<Option<Seq<u8>>>, i: int, bytes: Seq<u8>)
    requires
        0 <= i < parts.len(),
        parts[i] is None,
    ensures
        received(parts.update(i, Some(bytes))) == received(parts) + 1,
    decreases parts.len(),
{
    let after = parts.update(i, Some(bytes));
    if i == parts.len() - 1 {
        assert(after.drop_last() =~= parts.drop_last());
    } else {
        lemma_received_update(parts.drop_last(), i, bytes);
        assert(after.drop_last() =~= parts.drop_last().update(i, Some(bytes)));
    }
}

proof fn lemma_received_none(n: nat)
    ensures
        received(Seq::new(n, |i: int| None::<Seq<u8>>)) == 0,
    decreases n,
{
    let parts = Seq::new(n, |i: int| None::<Seq<u8>>);
    if n > 0 {
        lemma_received_none((n - 1) as nat);
        assert(parts.drop_last() =~= Seq::new((n - 1) as nat, |i: int| None::<Seq<u8>>));
    }
}

/// The first `n` parts are all that have come exactly when their number is
/// the number of parts that have come.
proof fn lemma_received_prefix(parts: Seq<Option<Seq<u8>>>, n: int)
    requires
        0 <= n <= parts.len(),
        forall|i: int| n <= i < parts.len() ==> (#[trigger] parts[i]) is None,
    ensures
        received(parts) == received(parts.take(n)),
    decreases parts.len() - n,
{
    if n < parts.len() {
        let rest = parts.drop_last();
        assert forall|i: int| n <= i < rest.len() implies (#[trigger] rest[i]) is None by {
            assert(rest[i] == parts[i]);
        }
        assert(parts[parts.len() - 1] is None);
        lemma_received_prefix(rest, n);
        assert(rest.take(n) =~= parts.take(n));
    } else {
        assert(parts.take(n) =~= parts);
    }
}

impl Pending {
    closed spec fn pview(&self) -> PendingView {
        PendingView {
            info: self.info,
            main_len: self.main_len as int,
            total_len: self.total_len as int,
            parts: self.parts@.map_values(|p: Option<Vec<u8>>| part_view(p)),
            first_seen: self.first_seen,
            last_nack: self.last_nack,
            nacks: self.nacks,
        }
    }

    closed spec fn wf(&self) -> bool {
        &&& self.count > 0
        &&& self.parts@.len() == self.count
        &&& self.have == received(self.pview().parts)
        &&& self.have > 0
        &&& self.info.frame_id < u64::MAX
        &&& self.nacks <= 2
    }

    fn complete(&self) -> (done: bool)
        requires
            self.wf(),
        ensures
            done == complete(self.pview().parts),
    {
        proof {
            lemma_received_bound(self.pview().parts);
        }
        self.have == self.count
    }

    fn missing(&self) -> (list: Vec<u16>)
        requires
            self.wf(),
        ensures
            list@ == missing_of(self.pview().parts),
    {
        let mut list: Vec<u16> = Vec::new();
        let ghost all = self.pview().parts;
        for i in 0..self.parts.len()
            invariant
                self.wf(),
                all == self.pview().parts,
                all.len() == self.parts@.len(),
                list@ == missing_of(all.take(i as int)),
        {
            proof {
                assert(all.take(i + 1).drop_last() =~= all.take(i as int));
                assert(all[i as int] == part_view(self.parts@[i as int]));
            }
            if self.parts[i].is_none() {
                list.push(i as u16);
            }
        }
        assert(all.take(all.len() as int) =~= all);
        list
    }

    /// Whether a part is missing before the last one that has come.
    fn hole_shown(&self) -> (shown: bool)
        requires
            self.wf(),
        ensures
            shown == hole_shown(self.pview().parts),
    {
        let ghost all = self.pview().parts;
        let mut last: usize = self.parts.len();
        while last > 0
            invariant
                self.wf(),
                all == self.pview().parts,
                all.len() == self.parts@.len(),
                last <= all.len(),
                forall|i: int| last <= i < all.len() ==> (#[trigger] all[i]) is None,
            decreases last,
        {
            assert(all[last - 1] == part_view(self.parts@[last - 1]));
            if self.parts[last - 1].is_some() {
                proof {
                    let first = all.take(last as int);
                    lemma_received_prefix(all, last as int);
                    lemma_received_bound(first);
                    if complete(first) {
                        assert forall|i: int, j: int|
                            0 <= i < j < all.len() && (#[trigger] all[i]) is None implies (#[trigger] all[j]) is None by {
                            if i < last {
                                assert(first[i] is Some);
                            }
                        }
                    } else {
                        let i = choose|i: int| 0 <= i < first.len() && (#[trigger] first[i]) is None;
                        assert(all[i] is None && all[last - 1] is Some);
                    }
                }
                return last > self.have as usize;
            }
            last = last - 1;
        }
        proof {
            lemma_received_prefix(all, 0);
            assert(all.take(0) =~= Seq::empty());
        }
        false
    }

    /// The frame that the parts make, or its loss.
    fn deliver(self) -> (event: Event)
        requires
            self.wf(),
        ensures
            event@ == delivered(self.pview()),
    {
        let ghost all = self.pview().parts;
        let mut body: Vec<u8> = Vec::new();
        for i in 0..self.parts.len()
            invariant
                all == self.pview().parts,
                all.len() == self.parts@.len(),
                body@ == flat(all.take(i as int)),
        {
            proof {
                assert(all.take(i + 1).drop_last() =~= all.take(i as int));
                assert(all[i as int] == part_view(self.parts@[i as int]));
            }
            match &self.parts[i] {
                Some(bytes) => {
                    body.extend_from_slice(bytes.as_slice());
                },
                None => {},
            }
            assert(body@ =~= flat(all.take(i + 1)));
        }
        assert(all.take(all.len() as int) =~= all);
        if body.len() != self.total_len || self.main_len > body.len() {
            // Parts disagree with the header: treat as lost.
            return Event::Lost(self.info.frame_id);
        }
        let ghost whole = body@;
        let aux: Vec<u8> = body.split_off(self.main_len);
        proof {
            assert(body@ =~= whole.take(self.main_len as int));
            assert(aux@ =~= whole.skip(self.main_len as int));
        }
        Event::Frame(AssembledFrame { info: self.info, main: body, aux })
    }
}

/// Puts parts back into frames and delivers them in order. A frame with
/// parts missing is asked for again after a gap shows (a later part or
/// frame arrived) or after a wait; after `MAX_NACKS` unanswered requests
/// it is dropped and the stream goes on from the next frame.
pub struct Assembler {
    /// Frames waited for, oldest first.
    frames: Vec<Pending>,
    /// Every frame below this is delivered or dropped.
    pub next: u64,
    rtt: u64,
    /// Packets to send to the server (NACKs, acks for dropped frames).
    pub outgoing: Vec<Packet>,
    pub stats: Stats,
}

impl Assembler {
    pub const MAX_NACKS: u32 = 2;

    pub const MIN_NACK_INTERVAL: u64 = 8_000_000;

    pub const MAX_NACK_INTERVAL: u64 = 250_000_000;

    /// Frames kept ahead of the one being waited for; beyond this the
    /// oldest is given up so a lost frame cannot stall the stream for long.
    pub const MAX_AHEAD: usize = 6;

    pub closed spec fn state(&self) -> AssemblerView {
        AssemblerView {
            frames: self.frames@.map_values(|p: Pending| p.pview()),
            next: self.next,
            rtt: self.rtt,
            outgoing: self.outgoing@.map_values(|p: Packet| p@),
            stats: self.stats,
        }
    }

    /// The frames waited for are in order, none below the next to deliver.
    pub closed spec fn wf(&self) -> bool {
        &&& forall|i: int| 0 <= i < self.frames@.len() ==> (#[trigger] self.frames@[i]).wf()
        &&& in_order(self.state())
    }

    /// The counters can each rise by `n`.
    pub open spec fn can_count(&self, n: nat) -> bool {
        let stats = self.state().stats;
        &&& stats.frames + n <= u64::MAX
        &&& stats.lost + n <= u64::MAX
        &&& stats.nacks + n <= u64::MAX
        &&& stats.repaired + n <= u64::MAX
    }

    /// The counters have room for every frame waited for and one more.
    pub open spec fn room(&self) -> bool {
        self.can_count(self.state().frames.len() + 1)
    }

    /// Whether the counters have room for every frame waited for and one more.
    pub fn has_room(&self) -> (yes: bool)
        ensures
            yes == self.room(),
    {
        let n: usize = self.frames.len();
        if n as u64 == u64::MAX {
            return false;
        }
        let most: u64 = u64::MAX - (n as u64 + 1);
        self.stats.frames <= most && self.stats.lost <= most && self.stats.nacks <= most && self.stats.repaired <= most
    }

    pub fn new() -> (a: Self)
        ensures
            a.wf(),
            a.state().frames.len() == 0,
            a.state().next == 0,
            a.state().rtt == 30_000_000,
            a.state().outgoing.len() == 0,
            a.state().stats == (Stats { frames: 0, lost: 0, nacks: 0, repaired: 0 }),
    {
        Self {
            frames: Vec::new(),
            next: 0,
            rtt: 30_000_000,
            outgoing: Vec::new(),
            stats: Stats { frames: 0, lost: 0, nacks: 0, repaired: 0 },
        }
    }

    /// The round trip time, in nanoseconds.
    pub fn set_rtt(&mut self, rtt: u64)
        requires
            old(self).wf(),
        ensures
            final(self).wf(),
            final(self).state() == (AssemblerView { rtt, ..old(self).state() }),
    {
        self.rtt = rtt;
    }

    /// How long to wait for a retransmit before asking again: a round trip
    /// and a little, bounded.
    fn nack_interval(&self) -> (wait: u64)
        ensures
            wait == nack_interval_of(self.state().rtt),
    {
        if self.rtt > Self::MAX_NACK_INTERVAL {
            return Self::MAX_NACK_INTERVAL;
        }
        let wait: u64 = self.rtt + self.rtt / 4;
        if wait < Self::MIN_NACK_INTERVAL {
            Self::MIN_NACK_INTERVAL
        } else if wait > Self::MAX_NACK_INTERVAL {
            Self::MAX_NACK_INTERVAL
        } else {
            wait
        }
    }

    fn advance(&mut self, now: u64) -> (events: Vec<Event>)
        requires
            old(self).wf(),
            old(self).can_count(old(self).state().frames.len()),
        ensures
            final(self).wf(),
            (final(self).state(), events@.map_values(|e: Event| e@)) == advanced(
                old(self).state(),
                now,
                Seq::empty(),
            ),
    {
        let mut events: Vec<Event> = Vec::new();
        let interval: u64 = self.nack_interval();
        proof {
            assert(events@.map_values(|e: Event| e@) =~= Seq::empty());
        }
        loop
            invariant
                self.wf(),
                self.can_count(self.state().frames.len()),
                self.state().rtt == old(self).state().rtt,
                interval == nack_interval_of(old(self).state().rtt),
                advanced(old(self).state(), now, Seq::empty()) == advanced(
                    self.state(),
                    now,
                    events@.map_values(|e: Event| e@),
                ),
            decreases self.state().frames.len(),
        {
            let ghost st = self.state();
            let ghost seen = events@.map_values(|e: Event| e@);
            if self.frames.len() == 0 {
                return events;
            }
            assert(st.frames[0] == self.frames@[0].pview());
            if self.frames[0].complete() {
                let p = self.frames.remove(0);
                if p.nacks > 0 {
                    self.stats.repaired = self.stats.repaired + 1;
                }
                self.stats.frames = self.stats.frames + 1;
                self.next = p.info.frame_id + 1;
                let event = p.deliver();
                if let Event::Lost(id) = &event {
                    self.stats.lost = self.stats.lost + 1;
                    self.outgoing.push(Packet::Ack { frame_id: *id, decoded_at_ms: 0 });
                }
                events.push(event);
                proof {
                    lemma_in_order_tail(st);
                    assert(self.state().frames =~= after_delivery(st).frames);
                    assert(self.state().outgoing =~= after_delivery(st).outgoing);
                    assert(self.state() =~= after_delivery(st));
                    assert(events@.map_values(|e: Event| e@) =~= seen.push(delivered(st.frames[0])));
                }
                continue;
            }
            // The oldest frame is incomplete: ask for its parts, or give up.
            let ahead: usize = self.frames.len() - 1;
            let due: bool = match self.frames[0].last_nack {
                None => ahead > 0 || self.frames[0].hole_shown() || elapsed(now, self.frames[0].first_seen) >= interval
                    / 2,
                Some(t) => elapsed(now, t) >= interval,
            };
            if !due {
                return events;
            }
            let give_up: bool = self.frames[0].nacks >= Self::MAX_NACKS || ahead > Self::MAX_AHEAD;
            let id: u64 = self.frames[0].info.frame_id;
            if give_up {
                let _gone = self.frames.remove(0);
                self.next = id + 1;
                self.stats.lost = self.stats.lost + 1;
                self.outgoing.push(Packet::Ack { frame_id: id, decoded_at_ms: 0 });
                events.push(Event::Lost(id));
                proof {
                    lemma_in_order_tail(st);
                    assert(self.state().frames =~= after_loss(st).frames);
                    assert(self.state().outgoing =~= after_loss(st).outgoing);
                    assert(self.state() =~= after_loss(st));
                    assert(events@.map_values(|e: Event| e@) =~= seen.push(EventView::Lost(id)));
                }
                continue;
            }
            let missing: Vec<u16> = self.frames[0].missing();
            let mut p = self.frames.remove(0);
            p.last_nack = Some(now);
            p.nacks = p.nacks + 1;
            self.frames.insert(0, p);
            self.stats.nacks = self.stats.nacks + 1;
            self.outgoing.push(Packet::Nack { frame_id: id, missing });
            proof {
                assert(self.state().frames =~= after_nack(st, now).frames);
                assert(self.state().outgoing =~= after_nack(st, now).outgoing);
                assert(self.state() =~= after_nack(st, now));
            }
            return events;
        }
    }

    /// Run the timers: call every few milliseconds while frames are pending.
    pub fn tick(&mut self, now: u64) -> (events: Vec<Event>)
        requires
            old(self).wf(),
            old(self).room(),
        ensures
            final(self).wf(),
            (final(self).state(), events@.map_values(|e: Event| e@)) == advanced(
                old(self).state(),
                now,
                Seq::empty(),
            ),
    {
        self.advance(now)
    }

    /// How many frames stand before frame `id`.
    fn position(&self, id: u64) -> (k: usize)
        requires
            self.wf(),
        ensures
            k == before_id(self.state().frames, id),
            k <= self.frames@.len(),
            forall|i: int| 0 <= i < k ==> (#[trigger] self.frames@[i]).info.frame_id < id,
            k < self.frames@.len() ==> self.frames@[k as int].info.frame_id >= id,
    {
        let mut k: usize = 0;
        while k < self.frames.len() && self.frames[k].info.frame_id < id
            invariant
                k <= self.frames@.len(),
                forall|i: int| 0 <= i < k ==> (#[trigger] self.frames@[i]).info.frame_id < id,
            decreases self.frames@.len() - k,
        {
            k = k + 1;
        }
        proof {
            let frames = self.state().frames;
            assert forall|i: int| 0 <= i < k implies (#[trigger] frames[i]).info.frame_id < id by {
                assert(frames[i] == self.frames@[i].pview());
            }
            if k < self.frames@.len() {
                assert(frames[k as int] == self.frames@[k as int].pview());
            }
            lemma_before_id(frames, id, k as int);
        }
        k
    }

    /// Feed one opened packet. Only `Part`s matter here.
    pub fn on_packet(&mut self, packet: Packet, bytes: Vec<u8>, now: u64) -> (events: Vec<Event>)
        requires
            old(self).wf(),
            old(self).room(),
            packet@ matches PacketView::Part { frame_id, .. } ==> frame_id < u64::MAX,
        ensures
            final(self).wf(),
            (final(self).state(), events@.map_values(|e: Event| e@)) == on_packet_step(
                old(self).state(),
                packet@,
                bytes@,
                now,
            ),
    {
        let none: Vec<Event> = Vec::new();
        proof {
            assert(none@.map_values(|e: Event| e@) =~= Seq::empty());
        }
        match packet {
            Packet::Part { frame_id, index, count, keyframe, reference, pts_us, main_len, total_len } => {
                if frame_id < self.next || count == 0 || index >= count {
                    return none;
                }
                let ghost st = self.state();
                let ghost got = bytes@;
                let info = FrameInfo { frame_id, keyframe, reference, pts_us };
                let ghost fresh = nothing_of(info, count, main_len, total_len, now);
                let k: usize = self.position(frame_id);
                let known: bool = k < self.frames.len() && self.frames[k].info.frame_id == frame_id;
                assert(known == has_id(st.frames, frame_id)) by {
                    if k < self.frames.len() {
                        assert(st.frames[k as int] == self.frames@[k as int].pview());
                    }
                }
                if known && self.frames[k].count != count {
                    return none;
                }
                let p = if known {
                    self.frames.remove(k)
                } else {
                    Self::unheard(info, count, main_len, total_len, now)
                };
                let ghost base = p.pview();
                let p = Self::take_part(p, index, bytes);
                self.frames.insert(k, p);
                proof {
                    assert(base == (if known {
                        st.frames[k as int]
                    } else {
                        fresh
                    }));
                    assert(self.state().frames =~= stored(st.frames, fresh, index as int, got));
                    lemma_stored_in_order(st, fresh, index as int, got);
                }
                self.advance(now)
            },
            _ => none,
        }
    }

    /// A frame of which nothing has come yet.
    fn unheard(info: FrameInfo, count: u16, main_len: u32, total_len: u32, now: u64) -> (p: Pending)
        requires
            count > 0,
            info.frame_id < u64::MAX,
        ensures
            p.pview() == nothing_of(info, count, main_len, total_len, now),
            p.count == count,
            p.parts@.len() == count,
            p.have == 0,
            p.nacks == 0,
            p.info == info,
            forall|i: int| 0 <= i < p.parts@.len() ==> (#[trigger] p.parts@[i]) is None,
    {
        let mut parts: Vec<Option<Vec<u8>>> = Vec::new();
        for i in 0..count
            invariant
                parts@.len() == i,
                forall|k: int| 0 <= k < i ==> parts@[k] is None,
        {
            parts.push(None);
        }
        let p = Pending {
            info,
            count,
            main_len: main_len as usize,
            total_len: total_len as usize,
            parts,
            have: 0,
            first_seen: now,
            last_nack: None,
            nacks: 0,
        };
        assert(p.pview().parts =~= nothing_of(info, count, main_len, total_len, now).parts);
        p
    }

    /// Keep a part, unless it has come already.
    fn take_part(p: Pending, index: u16, bytes: Vec<u8>) -> (q: Pending)
        requires
            p.wf() || (p.count > 0 && p.parts@.len() == p.count && p.have == 0 && p.info.frame_id < u64::MAX
                && p.nacks == 0 && forall|i: int| 0 <= i < p.parts@.len() ==> (#[trigger] p.parts@[i]) is None),
            index < p.count,
        ensures
            q.wf(),
            q.pview() == with_part(p.pview(), index as int, bytes@),
            q.count == p.count,
            q.info == p.info,
    {
        let mut p = p;
        let ghost before = p.pview().parts;
        let i: usize = index as usize;
        proof {
            assert(before[i as int] == part_view(p.parts@[i as int]));
            lemma_received_bound(before);
            if p.have == 0 {
                assert(before =~= Seq::new(before.len(), |k: int| None::<Seq<u8>>));
                lemma_received_none(before.len());
            }
        }
        if p.parts[i].is_none() {
            proof {
                lemma_received_update(before, i as int, bytes@);
                lemma_received_bound(before.update(i as int, Some(bytes@)));
            }
            p.parts[i] = Some(bytes);
            p.have = p.have + 1;
            assert(p.pview().parts =~= before.update(i as int, Some(bytes@)));
        }
        p
    }

    pub fn pending(&self) -> (n: usize)
        ensures
            n == self.state().frames.len(),
    {
        self.frames.len()
    }
}

/// The time from `t` to `now`, zero when `t` is later.
fn elapsed(now: u64, t: u64) -> (d: u64)
    ensures
        d == since(now, t),
{
    now.saturating_sub(t)
}

pub proof fn lemma_in_order_tail(st: AssemblerView)
    requires
        in_order(st),
        st.frames.len() > 0,
    ensures
        in_order(after_delivery(st)),
        in_order(after_loss(st)),
{
    let tail = st.frames.drop_first();
    assert forall|i: int| 0 <= i < tail.len() implies st.frames[0].info.frame_id < (
    #[trigger] tail[i]).info.frame_id by {
        assert(tail[i] == st.frames[i + 1]);
    }
    assert forall|i: int, j: int| 0 <= i < j < tail.len() implies (#[trigger] tail[i]).info.frame_id < (
    #[trigger] tail[j]).info.frame_id by {
        assert(tail[i] == st.frames[i + 1]);
        assert(tail[j] == st.frames[j + 1]);
    }
}

/// The position of `id` among frames of which exactly the first `k` come
/// before it.
proof fn lemma_before_id(frames: Seq<PendingView>, id: u64, k: int)
    requires
        0 <= k <= frames.len(),
        forall|i: int| 0 <= i < k ==> (#[trigger] frames[i]).info.frame_id < id,
        k < frames.len() ==> frames[k].info.frame_id >= id,
    ensures
        before_id(frames, id) == k,
    decreases k,
{
    if k > 0 {
        let tail = frames.drop_first();
        assert forall|i: int| 0 <= i < k - 1 implies (#[trigger] tail[i]).info.frame_id < id by {
            assert(tail[i] == frames[i + 1]);
        }
        assert(frames[0].info.frame_id < id);
        lemma_before_id(tail, id, k - 1);
    }
}

/// Where frame `id` belongs, the frames before are older and those behind
/// are not.
proof fn lemma_before_id_bounds(st: AssemblerView, id: u64)
    requires
        in_order(st),
    ensures
        0 <= before_id(st.frames, id) <= st.frames.len(),
        forall|i: int| 0 <= i < before_id(st.frames, id) ==> (#[trigger] st.frames[i]).info.frame_id < id,
        forall|i: int|
            before_id(st.frames, id) <= i < st.frames.len() ==> (#[trigger] st.frames[i]).info.frame_id >= id,
    decreases st.frames.len(),
{
    if st.frames.len() > 0 && st.frames[0].info.frame_id < id {
        let tail = AssemblerView { frames: st.frames.drop_first(), ..st };
        assert forall|i: int, j: int| 0 <= i < j < tail.frames.len() implies (
        #[trigger] tail.frames[i]).info.frame_id < (#[trigger] tail.frames[j]).info.frame_id by {
            assert(tail.frames[i] == st.frames[i + 1]);
            assert(tail.frames[j] == st.frames[j + 1]);
        }
        assert forall|i: int| 0 <= i < tail.frames.len() implies st.next <= (
        #[trigger] tail.frames[i]).info.frame_id < u64::MAX by {
            assert(tail.frames[i] == st.frames[i + 1]);
        }
        lemma_before_id_bounds(tail, id);
        assert forall|i: int| 0 <= i < before_id(st.frames, id) implies (
        #[trigger] st.frames[i]).info.frame_id < id by {
            if i > 0 {
                assert(tail.frames[i - 1] == st.frames[i]);
            }
        }
        assert forall|i: int| before_id(st.frames, id) <= i < st.frames.len() implies (
        #[trigger] st.frames[i]).info.frame_id >= id by {
            assert(tail.frames[i - 1] == st.frames[i]);
        }
    } else if st.frames.len() > 0 {
        assert forall|i: int| 0 <= i < st.frames.len() implies (#[trigger] st.frames[i]).info.frame_id >= id by {
            if i > 0 {
                assert(st.frames[0].info.frame_id < st.frames[i].info.frame_id);
            }
        }
    }
}

/// Storing a part keeps the frames in order.
pub proof fn lemma_stored_in_order(st: AssemblerView, fresh: PendingView, index: int, bytes: Seq<u8>)
    requires
        in_order(st),
        st.next <= fresh.info.frame_id < u64::MAX,
    ensures
        in_order((AssemblerView { frames: stored(st.frames, fresh, index, bytes), ..st })),
{
    let id = fresh.info.frame_id;
    let k = before_id(st.frames, id);
    lemma_before_id_bounds(st, id);
    let after = stored(st.frames, fresh, index, bytes);
    assert forall|i: int, j: int| 0 <= i < j < after.len() implies (#[trigger] after[i]).info.frame_id < (
    #[trigger] after[j]).info.frame_id by {
        if has_id(st.frames, id) {
            assert(after[i].info == st.frames[i].info);
            assert(after[j].info == st.frames[j].info);
        } else {
            let i0 = if i < k { i } else { i - 1 };
            let j0 = if j < k { j } else { j - 1 };
            if i != k && j != k {
                assert(after[i] == st.frames[i0] && after[j] == st.frames[j0]);
            } else if i == k {
                assert(after[j] == st.frames[j0]);
                assert(st.frames[j0].info.frame_id != id) by {
                    if st.frames[j0].info.frame_id == id && j0 > k {
                        assert(st.frames[k].info.frame_id < st.frames[j0].info.frame_id);
                    }
                }
            } else {
                assert(after[i] == st.frames[i0]);
            }
        }
    }
    assert forall|i: int| 0 <= i < after.len() implies st.next <= (#[trigger] after[i]).info.frame_id < u64::MAX by {
        if has_id(st.frames, id) {
            assert(after[i].info == st.frames[i].info);
        } else if i != k {
            let i0 = if i < k { i } else { i - 1 };
            assert(after[i] == st.frames[i0]);
        }
    }
}

/// Frames in rising order, none below `next`.
pub open spec fn in_order(st: AssemblerView) -> bool {
    &&& forall|i: int, j: int|
        0 <= i < j < st.frames.len() ==> (#[trigger] st.frames[i]).info.frame_id < (
        #[trigger] st.frames[j]).info.frame_id
    &&& forall|i: int|
        0 <= i < st.frames.len() ==> st.next <= (#[trigger] st.frames[i]).info.frame_id < u64::MAX
}

/// The parts that came are counted, each once.
pub proof fn law_parts_are_counted_once(parts: Seq<Option<Seq<u8>>>)
    ensures
        received(parts) == parts.filter(|p: Option<Seq<u8>>| p is Some).len(),
    decreases parts.len(),
{
    reveal(Seq::filter);
    if parts.len() > 0 {
        law_parts_are_counted_once(parts.drop_last());
    } else {
        assert(parts.filter(|p: Option<Seq<u8>>| p is Some) =~= Seq::empty());
    }
}

/// A frame is given up after two requests for its parts, or when more than
/// six frames wait behind it; then it is told lost and acked, and the next
/// one is waited for.
pub proof fn law_frames_are_given_up(st: AssemblerView)
    requires
        st.frames.len() > 0,
        st.frames[0].info.frame_id < u64::MAX,
        st.stats.lost < u64::MAX,
    ensures
        gives_up(st) <==> st.frames[0].nacks >= 2 || st.frames.len() > 7,
        ({
            let id = st.frames[0].info.frame_id;
            let after = after_loss(st);
            &&& after.frames == st.frames.skip(1)
            &&& after.next == id + 1
            &&& after.outgoing.len() == st.outgoing.len() + 1
            &&& after.outgoing.last() == (PacketView::Ack { frame_id: id, decoded_at_ms: 0 })
            &&& after.stats.lost == st.stats.lost + 1
            &&& after.stats.frames == st.stats.frames && after.stats.nacks == st.stats.nacks && after.stats.repaired
                == st.stats.repaired
        }),
{
    assert(st.frames.drop_first() =~= st.frames.skip(1));
}

/// A frame that comes out whole is counted, as repaired where its parts had
/// to be asked for; only one whose lengths do not add up is told lost.
pub proof fn law_whole_frames_are_counted(st: AssemblerView)
    requires
        st.frames.len() > 0,
        st.frames[0].info.frame_id < u64::MAX,
        st.frames[0].main_len >= 0,
        st.stats.frames < u64::MAX,
        st.stats.repaired < u64::MAX,
        st.stats.lost < u64::MAX,
    ensures
        ({
            let p = st.frames[0];
            let after = after_delivery(st);
            let whole = flat(p.parts).len() == p.total_len && p.main_len <= p.total_len;
            &&& after.frames == st.frames.skip(1)
            &&& after.next == p.info.frame_id + 1
            &&& after.stats.frames == st.stats.frames + 1
            &&& after.stats.repaired - st.stats.repaired == (if p.nacks > 0 {
                1int
            } else {
                0
            })
            &&& after.stats.lost - st.stats.lost == (if whole {
                0int
            } else {
                1
            })
            &&& after.stats.nacks == st.stats.nacks
            &&& whole ==> after.outgoing == st.outgoing
            &&& !whole ==> after.outgoing == st.outgoing.push(
                PacketView::Ack { frame_id: p.info.frame_id, decoded_at_ms: 0 },
            )
            &&& match delivered(p) {
                EventView::Frame { info, main, aux } => whole && info == p.info && main + aux == flat(p.parts)
                    && main.len() == p.main_len,
                EventView::Lost(id) => !whole && id == p.info.frame_id,
            }
        }),
{
    let p = st.frames[0];
    let body = flat(p.parts);
    assert(st.frames.drop_first() =~= st.frames.skip(1));
    if 0 <= p.main_len <= body.len() {
        assert(body.take(p.main_len) + body.skip(p.main_len) =~= body);
    }
}

/// A request asks for what the oldest frame still lacks, and is counted.
pub proof fn law_requests_are_counted(st: AssemblerView, now: u64)
    requires
        st.frames.len() > 0,
        st.frames[0].nacks < u32::MAX,
        st.stats.nacks < u64::MAX,
    ensures
        ({
            let p = st.frames[0];
            let after = after_nack(st, now);
            &&& after.frames.len() == st.frames.len()
            &&& after.frames[0].nacks == p.nacks + 1 && after.frames[0].last_nack == Some(now)
            &&& after.frames[0].parts == p.parts && after.frames[0].info == p.info && after.frames[0].first_seen
                == p.first_seen
            &&& after.frames.skip(1) == st.frames.skip(1)
            &&& after.stats.nacks == st.stats.nacks + 1 && after.stats.frames == st.stats.frames && after.stats.lost
                == st.stats.lost && after.stats.repaired == st.stats.repaired
            &&& after.next == st.next && after.rtt == st.rtt
            &&& after.outgoing.drop_last() == st.outgoing
            &&& after.outgoing.last() matches PacketView::Nack { frame_id, missing } && frame_id == p.info.frame_id
                && missing == missing_of(p.parts)
        }),
{
    let after = after_nack(st, now);
    assert(after.frames.skip(1) =~= st.frames.skip(1));
    assert(after.outgoing.drop_last() =~= st.outgoing);
}

/// A part is kept the first time that it comes, in its own place, and the
/// other parts stay as they are.
pub proof fn law_parts_are_kept_in_place(p: PendingView, index: int, bytes: Seq<u8>, other: int)
    requires
        0 <= index < p.parts.len(),
        0 <= other < p.parts.len(),
        other != index,
    ensures
        ({
            let after = with_part(p, index, bytes);
            &&& after.parts.len() == p.parts.len()
            &&& after.parts[index] == if p.parts[index] is Some {
                p.parts[index]
            } else {
                Some(bytes)
            }
            &&& after.parts[other] == p.parts[other]
            &&& after.info == p.info && after.main_len == p.main_len && after.total_len == p.total_len
                && after.first_seen == p.first_seen && after.last_nack == p.last_nack && after.nacks == p.nacks
        }),
{
}

/// Frames wait in the order of their numbers: a new one is put in its place
/// and none is dropped.
pub proof fn law_frames_wait_in_order(frames: Seq<PendingView>, id: u64)
    requires
        forall|i: int, j: int|
            0 <= i < j < frames.len() ==> (#[trigger] frames[i]).info.frame_id < (#[trigger] frames[j]).info.frame_id,
    ensures
        0 <= before_id(frames, id) <= frames.len(),
        forall|i: int| 0 <= i < before_id(frames, id) ==> (#[trigger] frames[i]).info.frame_id < id,
        forall|i: int| before_id(frames, id) <= i < frames.len() ==> (#[trigger] frames[i]).info.frame_id >= id,
        has_id(frames, id) <==> exists|i: int| 0 <= i < frames.len() && (#[trigger] frames[i]).info.frame_id == id,
    decreases frames.len(),
{
    if frames.len() > 0 && frames[0].info.frame_id < id {
        let rest = frames.drop_first();
        assert forall|i: int, j: int| 0 <= i < j < rest.len() implies (#[trigger] rest[i]).info.frame_id < (
        #[trigger] rest[j]).info.frame_id by {
            assert(rest[i] == frames[i + 1] && rest[j] == frames[j + 1]);
        }
        law_frames_wait_in_order(rest, id);
        assert forall|i: int| 0 <= i < before_id(frames, id) implies (#[trigger] frames[i]).info.frame_id < id by {
            if i > 0 {
                assert(frames[i] == rest[i - 1]);
            }
        }
        assert forall|i: int| before_id(frames, id) <= i < frames.len() implies (#[trigger] frames[i]).info.frame_id
            >= id by {
            assert(frames[i] == rest[i - 1]);
        }
    }
    let k = before_id(frames, id);
    if exists|i: int| 0 <= i < frames.len() && (#[trigger] frames[i]).info.frame_id == id {
        let i = choose|i: int| 0 <= i < frames.len() && (#[trigger] frames[i]).info.frame_id == id;
        assert(k <= i);
        if k < i {
            assert(frames[k].info.frame_id < frames[i].info.frame_id);
        }
    }
}

} // verus!
