//! The server's end of the path: who the peer is, what waits for the wire,
//! and what is sent again.

use super::cache::{part_of, PartCache};
use super::packet::{Packet, PacketView};
use super::seal::MAX_DATAGRAM;
use super::split::{
    law_parts_fit_the_datagram, lemma_part_payload, part_count, part_payload, part_plaintext, split_frame, FrameInfo,
};
use vstd::prelude::*;

verus! {

/// Parts sent per timer wake-up while pacing.
pub const PACE_BATCH: usize = 4;

/// No stream is paced slower than this, in bits per second.
pub const MIN_PACE: u64 = 1_000_000;

/// Bytes of a datagram beside a part: addresses, sequence and tag.
pub const OVERHEAD: u64 = 44;

/// Where a datagram comes from or goes to.
#[derive(Debug, Clone, Copy, PartialEq, Eq, Structural)]
pub struct Addr {
    pub ip: u128,
    pub v6: bool,
    pub port: u16,
    pub flow: u32,
    pub scope: u32,
}

/// The addresses of a family.
pub open spec fn of_family(addrs: Seq<Addr>, v6: bool) -> Seq<Addr> {
    addrs.filter(|a: Addr| a.v6 == v6)
}

/// The addresses to probe from a socket of a family.
pub fn probe_targets(addrs: &[Addr], v6: bool) -> (targets: Vec<Addr>)
    ensures
        targets@ == of_family(addrs@, v6),
{
    let mut targets: Vec<Addr> = Vec::new();
    let n: usize = addrs.len();
    let ghost test = |a: Addr| a.v6 == v6;
    proof {
        reveal(Seq::filter);
        assert(addrs@.take(0).filter(test) =~= Seq::empty());
    }
    for i in 0..n
        invariant
            n == addrs@.len(),
            test == (|a: Addr| a.v6 == v6),
            targets@ == addrs@.take(i as int).filter(test),
    {
        proof {
            reveal(Seq::filter);
            assert(addrs@.take(i + 1).drop_last() =~= addrs@.take(i as int));
        }
        if addrs[i].v6 == v6 {
            targets.push(addrs[i]);
        }
    }
    proof {
        assert(addrs@.take(n as int) =~= addrs@);
    }
    targets
}

/// A part that waits for the wire.
#[derive(Debug, Clone)]
pub struct Waiting {
    pub frame_id: u64,
    pub part: Vec<u8>,
    /// Bits per second its frame goes out at. A whole frame in one burst
    /// overruns a receive buffer or a router queue; spread over a few times
    /// the stream's bitrate it does not.
    pub pace: u64,
}

/// A frame to send.
#[derive(Debug, Clone)]
pub struct OutFrame {
    pub info: FrameInfo,
    pub main: Vec<u8>,
    pub aux: Vec<u8>,
    /// Bits per second the parts go out at; a keyframe still leaves within a
    /// frame interval or two.
    pub pace_bps: u64,
}

/// Parts to send now.
#[derive(Debug, Clone)]
pub struct Batch {
    pub parts: Vec<Vec<u8>>,
    /// Frames whose last part is among them.
    pub done: u32,
    /// Nanoseconds until the next batch.
    pub delay: u64,
}

/// What a client's packet asks for.
#[derive(Debug)]
pub enum Reply {
    Nothing,
    /// Answer a probe.
    Answer(Packet),
    /// Send these parts again.
    Resend(Vec<Vec<u8>>),
    /// Hand the packet to the session.
    Forward(Packet),
}

pub struct ServerPath {
    pub peer: Option<Addr>,
    pub last_probe: u64,
    pub cache: PartCache,
    pub waiting: Vec<Waiting>,
}

/// The texts of parts.
pub open spec fn contents(parts: Seq<Vec<u8>>) -> Seq<Seq<u8>> {
    parts.map_values(|p: Vec<u8>| p@)
}

/// How many of the waiting parts go in one batch.
pub open spec fn batch_len(n: nat) -> int {
    if n < PACE_BATCH {
        n as int
    } else {
        PACE_BATCH as int
    }
}

/// Bits of the first `k` waiting parts on the wire.
pub open spec fn bits_of(w: Seq<Waiting>, k: int) -> nat
    decreases k,
{
    if k <= 0 {
        0
    } else {
        bits_of(w, k - 1) + (w[k - 1].part@.len() + OVERHEAD as nat) * 8
    }
}

/// Whether the part at `k` is the last of its frame that waits.
pub open spec fn last_of_frame(w: Seq<Waiting>, k: int) -> bool {
    k + 1 >= w.len() || w[k + 1].frame_id != w[k].frame_id
}

/// Frames whose last part is among the first `k`.
pub open spec fn frames_done(w: Seq<Waiting>, k: int) -> nat
    decreases k,
{
    if k <= 0 {
        0
    } else if last_of_frame(w, k - 1) {
        frames_done(w, k - 1) + 1
    } else {
        frames_done(w, k - 1)
    }
}

/// The parts of a frame that are there to be sent again, of those asked for.
pub open spec fn to_resend(cache: Seq<(u64, Vec<Vec<u8>>)>, frame_id: u64, missing: Seq<u16>) -> Seq<Seq<u8>>
    decreases missing.len(),
{
    if missing.len() == 0 {
        Seq::empty()
    } else {
        let before = to_resend(cache, frame_id, missing.drop_last());
        match part_of(cache, frame_id, missing.last(), 0) {
            Some(p) => before.push(p),
            None => before,
        }
    }
}

/// The part copied.
fn copy_of(s: &[u8]) -> (v: Vec<u8>)
    ensures
        v@ == s@,
{
    let mut v: Vec<u8> = Vec::new();
    v.extend_from_slice(s);
    assert(v@ =~= s@);
    v
}

impl ServerPath {
    /// Every part that waits fits in a datagram, at a pace that is not too
    /// slow.
    pub open spec fn wf(&self) -> bool {
        &&& self.cache.wf()
        &&& forall|i: int|
            0 <= i < self.waiting@.len() ==> (
                #[trigger] self.waiting@[i]
            ).part@.len() <= 0xffff && self.waiting@[i].pace
                >= MIN_PACE
    }

    pub fn new() -> (s: ServerPath)
        ensures
            s.wf(),
            s.peer is None,
            s.last_probe == 0,
            s.waiting@.len() == 0,
            s.cache.frames() == Seq::<(u64, Vec<Vec<u8>>)>::empty(),
    {
        ServerPath { peer: None, last_probe: 0, cache: PartCache::new(), waiting: Vec::new() }
    }

    /// A frame is to be sent. Without a peer it is dropped. Its parts wait
    /// for the wire, and are kept to be sent again.
    pub fn on_frame(&mut self, info: &FrameInfo, parts: Vec<Vec<u8>>, pace_bps: u64) -> (taken: bool)
        requires
            old(self).wf(),
            forall|i: int| 0 <= i < parts@.len() ==> (#[trigger] parts@[i])@.len() <= 0xffff,
        ensures
            final(self).wf(),
            taken == (old(self).peer is Some),
            final(self).peer == old(self).peer,
            final(self).last_probe == old(self).last_probe,
            !taken ==> *final(self) == *old(self),
            taken ==> {
                &&& final(self).cache.frames() == super::cache::trimmed(
                    old(self).cache.frames().push((info.frame_id, parts)),
                )
                &&& final(self).waiting@.len() == old(self).waiting@.len() + parts@.len()
                &&& forall|i: int|
                    0 <= i < old(self).waiting@.len() ==> #[trigger] final(self).waiting@[i] == old(self).waiting@[i]
                &&& forall|i: int|
                    old(self).waiting@.len() <= i < final(self).waiting@.len() ==> {
                        let w = #[trigger] final(self).waiting@[i];
                        &&& w.frame_id == info.frame_id
                        &&& w.part@ == parts@[i - old(self).waiting@.len()]@
                        &&& w.pace == if pace_bps < MIN_PACE {
                            MIN_PACE
                        } else {
                            pace_bps
                        }
                    }
            },
    {
        if self.peer.is_none() {
            return false;
        }
        let pace: u64 = if pace_bps < MIN_PACE {
            MIN_PACE
        } else {
            pace_bps
        };
        let n: usize = parts.len();
        let ghost before = self.waiting@;
        for i in 0..n
            invariant
                n == parts@.len(),
                self.peer == old(self).peer,
                self.last_probe == old(self).last_probe,
                self.cache == old(self).cache,
                self.cache.wf(),
                before == old(self).waiting@,
                pace >= MIN_PACE,
                self.waiting@.len() == before.len() + i,
                forall|k: int| 0 <= k < before.len() ==> #[trigger] self.waiting@[k] == before[k],
                forall|k: int|
                    before.len() <= k < before.len() + i ==> {
                        let w = #[trigger] self.waiting@[k];
                        w.frame_id == info.frame_id && w.part@ == parts@[k - before.len()]@ && w.pace == pace
                    },
                forall|k: int| 0 <= k < parts@.len() ==> (#[trigger] parts@[k])@.len() <= 0xffff,
                forall|k: int|
                    0 <= k < before.len() ==> (#[trigger] before[k]).part@.len() <= 0xffff && before[k].pace >= MIN_PACE,
        {
            self.waiting.push(Waiting { frame_id: info.frame_id, part: copy_of(parts[i].as_slice()), pace });
        }
        self.cache.insert(info.frame_id, parts);
        true
    }

    /// Splits a frame and takes its parts; without a peer it is dropped.
    pub fn send_frame(&mut self, f: &OutFrame) -> (taken: bool)
        requires
            old(self).wf(),
            f.main@.len() + f.aux@.len() <= u16::MAX * part_payload(),
        ensures
            final(self).wf(),
            taken == (old(self).peer is Some),
            final(self).peer == old(self).peer,
            final(self).last_probe == old(self).last_probe,
            !taken ==> *final(self) == *old(self),
            taken ==> {
                let before = old(self).waiting@.len() as int;
                let n = part_count((f.main@ + f.aux@).len() as int);
                &&& final(self).waiting@.len() == before + n
                &&& final(self).waiting@.take(before) == old(self).waiting@
                &&& forall|i: int|
                    before <= i < before + n ==> {
                        let w = #[trigger] final(self).waiting@[i];
                        &&& w.frame_id == f.info.frame_id
                        &&& w.part@ == part_plaintext(f.info, f.main@, f.aux@, i - before)
                        &&& w.pace == if f.pace_bps < MIN_PACE {
                            MIN_PACE
                        } else {
                            f.pace_bps
                        }
                    }
                &&& exists|parts: Vec<Vec<u8>>|
                    {
                        &&& parts@.len() == n
                        &&& forall|i: int|
                            0 <= i < n ==> (#[trigger] parts@[i])@ == part_plaintext(f.info, f.main@, f.aux@, i)
                        &&& #[trigger] super::cache::trimmed(
                            old(self).cache.frames().push((f.info.frame_id, parts)),
                        ) == final(self).cache.frames()
                    }
            },
    {
        if self.peer.is_none() {
            return false;
        }
        let parts: Vec<Vec<u8>> = split_frame(&f.info, f.main.as_slice(), f.aux.as_slice());
        let ghost all = parts;
        proof {
            assert forall|i: int| 0 <= i < parts@.len() implies (#[trigger] parts@[i])@.len() <= MAX_DATAGRAM by {
                law_parts_fit_the_datagram(f.info, f.main@, f.aux@, i);
            }
            lemma_part_payload();
            assert(parts@.len() <= u16::MAX);
        }
        let taken: bool = self.on_frame(&f.info, parts, f.pace_bps);
        proof {
            let before = old(self).waiting@.len() as int;
            assert(self.waiting@.take(before) =~= old(self).waiting@);
            assert(super::cache::trimmed(old(self).cache.frames().push((f.info.frame_id, all))) == self.cache.frames());
        }
        taken
    }

    /// The parts that go out now, and how long to wait then, so that they
    /// leave at the pace of the last of them.
    pub fn next_batch(&mut self) -> (b: Batch)
        requires
            old(self).wf(),
        ensures
            final(self).wf(),
            final(self).cache == old(self).cache,
            final(self).peer == old(self).peer,
            final(self).last_probe == old(self).last_probe,
            old(self).peer is None ==> b.parts@.len() == 0 && b.done == 0 && b.delay == 0 && final(self).waiting@.len()
                == 0,
            old(self).peer is Some ==> {
                let w = old(self).waiting@;
                let k = batch_len(w.len());
                &&& contents(b.parts@) == Seq::new(k as nat, |i: int| w[i].part@)
                &&& final(self).waiting@ == w.skip(k)
                &&& b.done == frames_done(w, k)
                &&& b.delay == if k == 0 {
                    0
                } else {
                    bits_of(w, k) as int * 1_000_000_000 / w[k - 1].pace as int
                }
            },
    {
        let mut parts: Vec<Vec<u8>> = Vec::new();
        let mut done: u32 = 0;
        if self.peer.is_none() {
            self.waiting = Vec::new();
            return Batch { parts, done, delay: 0 };
        }
        let ghost w = self.waiting@;
        let total: usize = self.waiting.len();
        let k: usize = if total < PACE_BATCH {
            total
        } else {
            PACE_BATCH
        };
        let mut bits: u64 = 0;
        let mut pace: u64 = MIN_PACE;
        proof {
            assert(contents(parts@) =~= Seq::new(0, |i: int| w[i].part@));
            assert(w.skip(0) =~= w);
        }
        for i in 0..k
            invariant
                k <= PACE_BATCH,
                k <= w.len(),
                self.cache == old(self).cache,
                self.cache.wf(),
                self.peer == old(self).peer,
                self.last_probe == old(self).last_probe,
                self.waiting@ == w.skip(i as int),
                contents(parts@) == Seq::new(i as nat, |i: int| w[i].part@),
                done == frames_done(w, i as int),
                done <= i,
                bits == bits_of(w, i as int),
                bits <= i * 0x8_1000,
                pace >= MIN_PACE,
                i > 0 ==> pace == w[i - 1].pace,
                forall|x: int| 0 <= x < w.len() ==> (#[trigger] w[x]).part@.len() <= 0xffff && w[x].pace >= MIN_PACE,
        {
            let next: Waiting = self.waiting.remove(0);
            proof {
                assert(next == w[i as int]);
                assert(self.waiting@ =~= w.skip(i + 1));
            }
            bits = bits + (next.part.len() as u64 + OVERHEAD) * 8;
            pace = next.pace;
            let last: bool = self.waiting.len() == 0 || self.waiting[0].frame_id != next.frame_id;
            proof {
                assert(last == last_of_frame(w, i as int));
            }
            if last {
                done = done + 1;
            }
            let ghost before = parts@;
            let ghost part = next.part@;
            parts.push(next.part);
            proof {
                assert(contents(parts@) =~= contents(before).push(part));
                assert(contents(parts@) =~= Seq::new((i + 1) as nat, |i: int| w[i].part@)) by {
                    assert forall|x: int| 0 <= x < i implies contents(before)[x] == w[x].part@ by {
                        assert(contents(before)[x] == Seq::new(i as nat, |i: int| w[i].part@)[x]);
                    }
                }
            }
        }
        if k == 0 {
            return Batch { parts, done, delay: 0 };
        }
        let delay: u64 = bits * 1_000_000_000 / pace;
        Batch { parts, done, delay }
    }

    /// After a packet from `from`: only a newer probe may move the peer, so
    /// a replayed one cannot redirect the stream.
    pub open spec fn peer_after(&self, p: PacketView, from: Addr) -> Option<Addr> {
        match p {
            PacketView::Probe { t } => if t > self.last_probe {
                Some(from)
            } else {
                self.peer
            },
            _ => self.peer,
        }
    }

    /// A packet that came from `from` and authenticated.
    pub fn on_packet(&mut self, packet: Packet, from: Addr) -> (r: Reply)
        requires
            old(self).wf(),
        ensures
            final(self).wf(),
            final(self).cache == old(self).cache,
            final(self).waiting == old(self).waiting,
            final(self).peer == old(self).peer_after(packet@, from),
            final(self).last_probe == match packet@ {
                PacketView::Probe { t } => if t > old(self).last_probe {
                    t
                } else {
                    old(self).last_probe
                },
                _ => old(self).last_probe,
            },
            match packet@ {
                PacketView::Probe { t } => if final(self).peer == Some(from) {
                    r matches Reply::Answer(p) && p@ == (PacketView::ProbeAck { t })
                } else {
                    r is Nothing
                },
                PacketView::Nack { frame_id, missing } => if old(self).peer == Some(from) {
                    r matches Reply::Resend(parts) && contents(parts@) == to_resend(
                        old(self).cache.frames(),
                        frame_id,
                        missing,
                    )
                } else {
                    r is Nothing
                },
                PacketView::Ack { .. } => if old(self).peer == Some(from) {
                    r == Reply::Forward(packet)
                } else {
                    r is Nothing
                },
                PacketView::Recover { .. } => if old(self).peer == Some(from) {
                    r == Reply::Forward(packet)
                } else {
                    r is Nothing
                },
                _ => r is Nothing,
            },
    {
        let known: bool = match self.peer {
            Some(p) => p == from,
            None => false,
        };
        match packet {
            Packet::Probe { t } => {
                if t > self.last_probe {
                    self.last_probe = t;
                    self.peer = Some(from);
                    return Reply::Answer(Packet::ProbeAck { t });
                }
                if known {
                    Reply::Answer(Packet::ProbeAck { t })
                } else {
                    Reply::Nothing
                }
            },
            Packet::Nack { frame_id, missing } => {
                if !known {
                    return Reply::Nothing;
                }
                let mut parts: Vec<Vec<u8>> = Vec::new();
                let n: usize = missing.len();
                proof {
                    assert(contents(parts@) =~= Seq::empty());
                    assert(missing@.take(0).len() == 0);
                }
                for i in 0..n
                    invariant
                        n == missing@.len(),
                        *self == *old(self),
                        contents(parts@) == to_resend(self.cache.frames(), frame_id, missing@.take(i as int)),
                {
                    proof {
                        assert(missing@.take(i + 1).drop_last() =~= missing@.take(i as int));
                    }
                    if let Some(p) = self.cache.part(frame_id, missing[i]) {
                        let ghost before = parts@;
                        parts.push(copy_of(p));
                        proof {
                            assert(contents(parts@) =~= contents(before).push(p@));
                        }
                    }
                }
                proof {
                    assert(missing@.take(n as int) =~= missing@);
                }
                Reply::Resend(parts)
            },
            Packet::Ack { frame_id, decoded_at_ms } => if known {
                Reply::Forward(Packet::Ack { frame_id, decoded_at_ms })
            } else {
                Reply::Nothing
            },
            Packet::Recover { last_good } => if known {
                Reply::Forward(Packet::Recover { last_good })
            } else {
                Reply::Nothing
            },
            _ => Reply::Nothing,
        }
    }
}

/// A replayed probe, one no newer than the last, neither moves the peer nor
/// is answered to anyone else.
pub proof fn law_replayed_probes_do_not_redirect(s: &ServerPath, t: u64, from: Addr)
    requires
        t <= s.last_probe,
    ensures
        s.peer_after(PacketView::Probe { t }, from) == s.peer,
{
}

/// A server without a peer, or whose peer is another, sends a stranger
/// nothing: only its own newer probe makes it the peer.
pub proof fn law_only_probes_move_the_peer(s: &ServerPath, p: PacketView, from: Addr)
    requires
        s.peer_after(p, from) != s.peer,
    ensures
        p matches PacketView::Probe { t } && t > s.last_probe,
{
}

/// Every part asked for is answered: of the indices in the peer's request,
/// those whose part is there, in the order asked for, each with that part's
/// bytes, and nothing else.
pub proof fn law_every_part_asked_for_is_answered(
    cache: Seq<(u64, Vec<Vec<u8>>)>,
    frame_id: u64,
    missing: Seq<u16>,
)
    ensures
        ({
            let there = |i: u16| part_of(cache, frame_id, i, 0) is Some;
            let asked = missing.filter(there);
            let sent = to_resend(cache, frame_id, missing);
            &&& sent.len() == asked.len()
            &&& forall|k: int| 0 <= k < asked.len() ==> Some(#[trigger] sent[k]) == part_of(cache, frame_id,
                asked[k], 0)
        }),
    decreases missing.len(),
{
    reveal(Seq::filter);
    let there = |i: u16| part_of(cache, frame_id, i, 0) is Some;
    if missing.len() > 0 {
        let front = missing.drop_last();
        law_every_part_asked_for_is_answered(cache, frame_id, front);
        let (sent, asked) = (to_resend(cache, frame_id, missing), missing.filter(there));
        let (before, of) = (to_resend(cache, frame_id, front), front.filter(there));
        assert forall|k: int| 0 <= k < asked.len() implies Some(#[trigger] sent[k]) == part_of(
            cache,
            frame_id,
            asked[k],
            0,
        ) by {
            if k < of.len() {
                assert(sent[k] == before[k] && asked[k] == of[k]);
            }
        }
    }
}

/// A resend holds no part that was not asked for, and a part that was asked
/// for and is there is never left out.
pub proof fn law_resends_hold_what_was_asked_for(
    cache: Seq<(u64, Vec<Vec<u8>>)>,
    frame_id: u64,
    missing: Seq<u16>,
    i: int,
)
    requires
        0 <= i < missing.len(),
    ensures
        part_of(cache, frame_id, missing[i], 0) matches Some(p) ==> to_resend(cache, frame_id, missing).contains(p),
        to_resend(cache, frame_id, missing).len() <= missing.len(),
        (forall|k: int| 0 <= k < missing.len() ==> part_of(cache, frame_id, #[trigger] missing[k], 0) is Some)
            ==> to_resend(cache, frame_id, missing).len() == missing.len() && Some(
            to_resend(cache, frame_id, missing)[i],
        ) == part_of(cache, frame_id, missing[i], 0),
    decreases missing.len(),
{
    let front = missing.drop_last();
    let all = to_resend(cache, frame_id, missing);
    let before = to_resend(cache, frame_id, front);
    if i < front.len() {
        assert(missing[i] == front[i]);
        law_resends_hold_what_was_asked_for(cache, frame_id, front, i);
        if let Some(p) = part_of(cache, frame_id, missing[i], 0) {
            let k = choose|k: int| 0 <= k < before.len() && before[k] == p;
            assert(all[k] == p);
        }
        if forall|k: int| 0 <= k < missing.len() ==> part_of(cache, frame_id, #[trigger] missing[k], 0) is Some {
            assert forall|k: int| 0 <= k < front.len() implies part_of(
                cache,
                frame_id,
                #[trigger] front[k],
                0,
            ) is Some by {
                assert(front[k] == missing[k]);
            }
        }
    } else {
        if front.len() > 0 {
            law_resends_hold_what_was_asked_for(cache, frame_id, front, 0);
            if forall|k: int| 0 <= k < missing.len() ==> part_of(cache, frame_id, #[trigger] missing[k], 0) is Some {
                assert forall|k: int| 0 <= k < front.len() implies part_of(
                    cache,
                    frame_id,
                    #[trigger] front[k],
                    0,
                ) is Some by {
                    assert(front[k] == missing[k]);
                }
            }
        }
        if let Some(p) = part_of(cache, frame_id, missing[i], 0) {
            assert(all.last() == p);
            assert(all[all.len() - 1] == p);
        }
    }
}

/// The bits on the wire are eight for each byte of the parts and for the 44
/// that each datagram has beside its part.
pub proof fn law_pacing_counts_every_byte(w: Seq<Waiting>, k: int)
    requires
        0 <= k <= w.len(),
    ensures
        bits_of(w, k) == 8 * w.take(k).map_values(|p: Waiting| p.part@.len() as int).fold_left(
            0int,
            |s: int, x: int| s + x,
        ) + 352 * k,
    decreases k,
{
    let size = |p: Waiting| p.part@.len() as int;
    if k > 0 {
        law_pacing_counts_every_byte(w, k - 1);
        assert(w.take(k).map_values(size).drop_last() =~= w.take(k - 1).map_values(size));
        assert(w.take(k).map_values(size).last() == w[k - 1].part@.len());
    } else {
        assert(w.take(0).map_values(size) =~= Seq::empty());
    }
}

/// A batch takes the oldest parts, four or all there are, and counts each
/// frame of which no part is left to wait behind it.
pub proof fn law_batches_end_frames_once(w: Seq<Waiting>, k: int)
    requires
        0 <= k <= w.len(),
    ensures
        batch_len(w.len()) <= 4,
        batch_len(w.len()) == w.len() || batch_len(w.len()) == 4,
        frames_done(w, k) == Seq::new(k as nat, |i: int| i).filter(
            |i: int| i + 1 >= w.len() || w[i + 1].frame_id != w[i].frame_id,
        ).len(),
    decreases k,
{
    reveal(Seq::filter);
    let test = |i: int| i + 1 >= w.len() || w[i + 1].frame_id != w[i].frame_id;
    let all = Seq::new(k as nat, |i: int| i);
    if k > 0 {
        law_batches_end_frames_once(w, k - 1);
        assert(all.drop_last() =~= Seq::new((k - 1) as nat, |i: int| i));
        assert(all.last() == k - 1);
    } else {
        assert(all.filter(test) =~= Seq::empty());
    }
}

/// The addresses of a family are those of it, and all of them.
pub proof fn law_families_are_told_apart(addrs: Seq<Addr>, v6: bool, a: Addr)
    ensures
        of_family(addrs, v6).contains(a) <==> addrs.contains(a) && a.v6 == v6,
{
    let test = |a: Addr| a.v6 == v6;
    let some = addrs.filter(test);
    if addrs.contains(a) && a.v6 == v6 {
        let i = choose|i: int| 0 <= i < addrs.len() && addrs[i] == a;
        addrs.lemma_filter_contains(test, i);
    }
    if some.contains(a) {
        addrs.lemma_filter_contains_rev(test, a);
        let i = choose|i: int| 0 <= i < some.len() && some[i] == a;
        addrs.lemma_filter_pred(test, i);
    }
}

} // verus!
