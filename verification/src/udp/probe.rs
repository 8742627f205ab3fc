//! Is the path open, and what is its round trip: the client's probes.

use super::assemble::{advanced, on_packet_step, AssembledFrame, Assembler, Event, Stats};
use super::packet::{Packet, PacketView};
use super::serve::Addr;
use crate::rate::ladder::{ago, since};
use vstd::prelude::*;

verus! {

/// Times are in nanoseconds.
pub const PROBE_EVERY: u64 = 500_000_000;

/// Probes without an answer before the path counts as down: five seconds,
/// so a round trip of a second or two with spikes does not flap the path.
pub const PROBES_LOST: usize = 10;

pub const TICK: u64 = 4_000_000;

/// Wait for an answer before every address is probed again.
pub const PROBE_WAIT: u64 = 150_000_000;

/// The round trip taken where the probe an answer is to is not known.
pub const DEFAULT_RTT: u64 = 50_000_000;

/// Datagrams read in one go: a burst must not sit in the kernel's small
/// receive buffer while one packet at a time is handled.
pub const DRAIN: usize = 64;

/// Probes that were sent and not answered: what each said, and when.
#[derive(Debug, Clone)]
pub struct Probes {
    pub sent: Vec<(u64, u64)>,
}

/// When the first probe from `i` on that said `t` was sent.
pub open spec fn sent_at(sent: Seq<(u64, u64)>, t: u64, i: int) -> Option<u64>
    decreases sent.len() - i,
{
    if !(0 <= i < sent.len()) {
        None
    } else if sent[i].0 == t {
        Some(sent[i].1)
    } else {
        sent_at(sent, t, i + 1)
    }
}

impl Probes {
    pub fn new() -> (p: Probes)
        ensures
            p.sent@.len() == 0,
    {
        Probes { sent: Vec::new() }
    }

    /// Another probe. What it says only rises with the clock, and is never
    /// zero.
    pub fn probe(&mut self, now_us: u64, now: u64) -> (p: Packet)
        ensures
            p == (Packet::Probe {
                t: if now_us < 1 {
                    1
                } else {
                    now_us
                },
            }),
            final(self).sent@ == old(self).sent@.push(
                (
                    if now_us < 1 {
                        1
                    } else {
                        now_us
                    },
                    now,
                ),
            ),
    {
        let t: u64 = if now_us < 1 {
            1
        } else {
            now_us
        };
        self.sent.push((t, now));
        Packet::Probe { t }
    }

    fn find(&self, t: u64) -> (at: Option<u64>)
        ensures
            at == sent_at(self.sent@, t, 0),
    {
        let n: usize = self.sent.len();
        for i in 0..n
            invariant
                n == self.sent@.len(),
                sent_at(self.sent@, t, 0) == sent_at(self.sent@, t, i as int),
        {
            if self.sent[i].0 == t {
                return Some(self.sent[i].1);
            }
        }
        None
    }

    /// The first answer of all, while the path is looked for: its round trip.
    pub fn first_rtt(&self, t: u64, now: u64) -> (rtt: u64)
        ensures
            rtt == match sent_at(self.sent@, t, 0) {
                Some(at) => ago(now, at),
                None => DEFAULT_RTT,
            },
    {
        match self.find(t) {
            Some(at) => since(now, at),
            None => DEFAULT_RTT,
        }
    }

    /// An answer: the round trip of the probe it is to, if it was waited
    /// for. One answer settles all probes before it.
    pub fn on_answer(&mut self, t: u64, now: u64) -> (rtt: Option<u64>)
        ensures
            match sent_at(old(self).sent@, t, 0) {
                Some(at) => rtt == Some(ago(now, at)) && final(self).sent@.len() == 0,
                None => rtt is None && final(self).sent@ == old(self).sent@,
            },
    {
        match self.find(t) {
            Some(at) => {
                self.sent = Vec::new();
                Some(since(now, at))
            },
            None => None,
        }
    }

    /// Whether the path counts as down.
    pub fn is_lost(&self) -> (yes: bool)
        ensures
            yes == (self.sent@.len() >= PROBES_LOST),
    {
        self.sent.len() >= PROBES_LOST
    }
}

/// Whether a datagram that was opened while the path is looked for opens it:
/// an answer to a probe, from an address that was probed. Its round trip.
pub fn path_found(probes: &Probes, targets: &[Addr], from: Addr, packet: &Packet, now: u64) -> (rtt: Option<u64>)
    ensures
        rtt == match packet@ {
            PacketView::ProbeAck { t } => if targets@.contains(from) {
                Some(
                    match sent_at(probes.sent@, t, 0) {
                        Some(at) => ago(now, at),
                        None => DEFAULT_RTT,
                    },
                )
            } else {
                None
            },
            _ => None,
        },
{
    let t: u64 = match packet {
        Packet::ProbeAck { t } => *t,
        _ => return None,
    };
    let n: usize = targets.len();
    for i in 0..n
        invariant
            n == targets@.len(),
            packet@ == (PacketView::ProbeAck { t }),
            forall|k: int| 0 <= k < i ==> targets@[k] != from,
    {
        if targets[i] == from {
            assert(targets@.contains(targets@[i as int]));
            return Some(probes.first_rtt(t, now));
        }
    }
    None
}

/// What a packet from the server led to.
#[derive(Debug)]
pub struct Heard {
    pub events: Vec<Event>,
    /// A fresh round trip to be smoothed.
    pub rtt: Option<u64>,
}

/// A packet that came from the server: an answer to a probe, or a part of a
/// frame; anything else is not for a client.
pub fn on_server_packet(frames: &mut Assembler, probes: &mut Probes, packet: Packet, bytes: Vec<u8>, now: u64) -> (h:
    Heard)
    requires
        old(frames).wf(),
        old(frames).room(),
        packet@ matches PacketView::Part { frame_id, .. } ==> frame_id < u64::MAX,
    ensures
        final(frames).wf(),
        match packet@ {
            PacketView::ProbeAck { t } => {
                &&& h.events@.len() == 0
                &&& final(frames).state() == old(frames).state()
                &&& match sent_at(old(probes).sent@, t, 0) {
                    Some(at) => h.rtt == Some(ago(now, at)) && final(probes).sent@.len() == 0,
                    None => h.rtt is None && final(probes).sent@ == old(probes).sent@,
                }
            },
            PacketView::Part { .. } => {
                &&& h.rtt is None
                &&& final(probes).sent@ == old(probes).sent@
                &&& (final(frames).state(), h.events@.map_values(|e: Event| e@)) == on_packet_step(
                    old(frames).state(),
                    packet@,
                    bytes@,
                    now,
                )
            },
            _ => {
                &&& h.rtt is None
                &&& h.events@.len() == 0
                &&& final(frames).state() == old(frames).state()
                &&& final(probes).sent@ == old(probes).sent@
            },
        },
{
    match packet {
        Packet::ProbeAck { t } => Heard { events: Vec::new(), rtt: probes.on_answer(t, now) },
        Packet::Part { frame_id, index, count, keyframe, reference, pts_us, main_len, total_len } => {
            let part: Packet = Packet::Part {
                frame_id,
                index,
                count,
                keyframe,
                reference,
                pts_us,
                main_len,
                total_len,
            };
            Heard { events: frames.on_packet(part, bytes, now), rtt: None }
        },
        _ => Heard { events: Vec::new(), rtt: None },
    }
}

/// What the client's end of the path reports.
#[derive(Debug)]
pub enum ClientEvent {
    /// The server answered a probe, with this round trip; video may move to
    /// UDP.
    Up { rtt: u64 },
    Frame(AssembledFrame),
    Lost(u64),
    /// Probes go unanswered, or the probe never got an answer: use TCP.
    Down,
    /// Periodic counters, for the display.
    Stats(Stats),
}

/// Whether an event is reported as this.
pub open spec fn reported_as(e: Event, c: ClientEvent) -> bool {
    match e {
        Event::Frame(f) => c == ClientEvent::Frame(f),
        Event::Lost(id) => c == ClientEvent::Lost(id),
    }
}

/// What became of frames, in order, as it is reported.
pub fn client_events(events: Vec<Event>) -> (out: Vec<ClientEvent>)
    ensures
        out@.len() == events@.len(),
        forall|i: int| 0 <= i < events@.len() ==> reported_as(events@[i], #[trigger] out@[i]),
{
    let ghost all = events@;
    let mut rest: Vec<Event> = events;
    let mut out: Vec<ClientEvent> = Vec::new();
    while rest.len() > 0
        invariant
            out@.len() + rest@.len() == all.len(),
            rest@ == all.skip(out@.len() as int),
            forall|i: int| 0 <= i < out@.len() ==> reported_as(all[i], #[trigger] out@[i]),
        decreases rest@.len(),
    {
        let e: Event = rest.remove(0);
        out.push(
            match e {
                Event::Frame(f) => ClientEvent::Frame(f),
                Event::Lost(id) => ClientEvent::Lost(id),
            },
        );
    }
    out
}

/// How often counters are reported.
pub const STATS_EVERY: u64 = 1_000_000_000;

/// What happens when a probe is due.
#[derive(Debug)]
pub enum Probing {
    /// Too many went unanswered: report the path as down, and end.
    Down,
    /// Send this probe, and report the counters where they are due.
    Send { packet: Packet, stats: bool },
}

/// A probe is due.
pub fn on_probe_due(probes: &mut Probes, last_stats: &mut u64, now_us: u64, now: u64) -> (p: Probing)
    ensures
        ({
            let lost = old(probes).sent@.len() >= PROBES_LOST;
            let t = if now_us < 1 {
                1
            } else {
                now_us
            };
            let stats = ago(now, *old(last_stats)) >= STATS_EVERY;
            if lost {
                &&& p is Down
                &&& final(probes).sent@ == old(probes).sent@
                &&& *final(last_stats) == *old(last_stats)
            } else {
                &&& p == (Probing::Send { packet: Packet::Probe { t }, stats })
                &&& final(probes).sent@ == old(probes).sent@.push((t, now))
                &&& *final(last_stats) == if stats {
                    now
                } else {
                    *old(last_stats)
                }
            }
        }),
{
    if probes.is_lost() {
        return Probing::Down;
    }
    let packet: Packet = probes.probe(now_us, now);
    let stats: bool = since(now, *last_stats) >= STATS_EVERY;
    if stats {
        *last_stats = now;
    }
    Probing::Send { packet, stats }
}

/// A tick of the clock: frames that are waited for are looked at, if there
/// are any.
pub fn on_tick(frames: &mut Assembler, now: u64) -> (events: Vec<Event>)
    requires
        old(frames).wf(),
        old(frames).room(),
    ensures
        final(frames).wf(),
        old(frames).state().frames.len() == 0 ==> events@.len() == 0 && final(frames).state() == old(frames).state(),
        old(frames).state().frames.len() > 0 ==> (final(frames).state(), events@.map_values(|e: Event| e@)) == advanced(
            old(frames).state(),
            now,
            Seq::empty(),
        ),
{
    if frames.pending() > 0 {
        frames.tick(now)
    } else {
        Vec::new()
    }
}

/// The client's ack for a frame it is done with.
pub fn ack(frame_id: u64, now_ms: u64) -> (p: Packet)
    ensures
        p == (Packet::Ack { frame_id, decoded_at_ms: now_ms }),
{
    Packet::Ack { frame_id, decoded_at_ms: now_ms }
}

/// An answer is matched with the first probe of its number, if one is out.
pub proof fn law_answers_find_their_probe(sent: Seq<(u64, u64)>, t: u64, i: int)
    requires
        0 <= i <= sent.len(),
    ensures
        match sent_at(sent, t, i) {
            Some(at) => exists|k: int|
                {
                    &&& i <= k < sent.len()
                    &&& #[trigger] sent[k] == (t, at)
                    &&& forall|j: int| i <= j < k ==> (#[trigger] sent[j]).0 != t
                },
            None => forall|k: int| i <= k < sent.len() ==> (#[trigger] sent[k]).0 != t,
        },
    decreases sent.len() - i,
{
    if i < sent.len() {
        if sent[i].0 == t {
            assert(sent[i] == (t, sent[i].1));
        } else {
            law_answers_find_their_probe(sent, t, i + 1);
            if let Some(at) = sent_at(sent, t, i) {
                let k = choose|k: int|
                    {
                        &&& i + 1 <= k < sent.len()
                        &&& #[trigger] sent[k] == (t, at)
                        &&& forall|j: int| i + 1 <= j < k ==> (#[trigger] sent[j]).0 != t
                    };
                assert(sent[k] == (t, at));
            }
        }
    }
}

} // verus!
