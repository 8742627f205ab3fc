//! Pacing by frames that are not acked yet, and one bitrate for the link.

use crate::rate::bitrate::Queueing;
use crate::rate::ladder::{ago, since};
use vstd::prelude::*;

verus! {

/// Frames sent but not acked, and frames that wait for the wire.
#[derive(Debug, Clone, Copy, PartialEq, Eq, Structural)]
pub struct FrameWindow {
    pub in_flight: u32,
    /// How many may be unacked.
    pub limit: u32,
    /// Handed to the writer and not yet on the wire.
    pub queued: u32,
}

impl FrameWindow {
    pub fn new() -> (w: FrameWindow)
        ensures
            w == (FrameWindow { in_flight: 0, limit: 2, queued: 0 }),
    {
        FrameWindow { in_flight: 0, limit: 2, queued: 0 }
    }

    /// The client has ack capacity and the previous frame has left for the
    /// wire.
    pub open spec fn room(self) -> bool {
        self.in_flight < self.limit && self.queued == 0
    }

    /// With one more frame handed to the writer.
    pub open spec fn sent(self) -> FrameWindow {
        FrameWindow { in_flight: (self.in_flight + 1) as u32, queued: (self.queued + 1) as u32, ..self }
    }

    /// There is room, so encoding another frame now will not build a queue.
    pub fn has_room(&self) -> (yes: bool)
        ensures
            yes == self.room(),
    {
        self.in_flight < self.limit && self.queued == 0
    }

    pub fn on_sent(&mut self)
        requires
            old(self).in_flight < u32::MAX,
            old(self).queued < u32::MAX,
        ensures
            *final(self) == old(self).sent(),
    {
        self.in_flight = self.in_flight + 1;
        self.queued = self.queued + 1;
    }

    pub fn on_written(&mut self)
        requires
            old(self).queued > 0,
        ensures
            *final(self) == (FrameWindow { queued: (old(self).queued - 1) as u32, ..*old(self) }),
    {
        self.queued = self.queued - 1;
    }

    /// A frame was acked; the round trip now allows `limit` frames.
    pub fn on_ack(&mut self, limit: u32)
        ensures
            *final(self) == (FrameWindow {
                in_flight: if old(self).in_flight == 0 {
                    0
                } else {
                    (old(self).in_flight - 1) as u32
                },
                limit,
                ..*old(self)
            }),
    {
        if self.in_flight > 0 {
            self.in_flight = self.in_flight - 1;
        }
        self.limit = limit;
    }
}

/// Frames that are sent only where there is room stay within the limit, and at
/// most one of them waits for the wire.
pub proof fn law_frames_stay_within_the_window(w: FrameWindow)
    requires
        w.room(),
    ensures
        w.sent().in_flight <= w.limit,
        w.sent().queued == 1,
        !w.sent().room(),
{
}

pub const EVAL_EVERY: u64 = 500_000_000;

pub const GROW_AFTER: u64 = 2_000_000_000;

/// Adapts the CBR target to the path. The ack round trip is the signal: its
/// minimum is the base delay, growth over the base is queueing; a queue or
/// a starved send window cuts the rate, a quiet path grows it back slowly.
#[derive(Debug, Clone, Copy, PartialEq, Eq, Structural)]
pub struct LinkBitrate {
    pub min: u32,
    pub max: u32,
    pub current: u32,
    pub last_eval: u64,
    pub last_change: u64,
    pub sent: u32,
    pub blocked: u32,
}

impl LinkBitrate {
    pub open spec fn wf(self) -> bool {
        self.min <= self.max && self.current <= self.max
    }

    pub fn new(max: u32, now: u64) -> (c: LinkBitrate)
        ensures
            c.wf(),
            c == (LinkBitrate {
                min: if max < 1_000_000 {
                    max
                } else if max / 8 < 1_000_000 {
                    1_000_000
                } else {
                    max / 8
                },
                max,
                current: max,
                last_eval: now,
                last_change: now,
                sent: 0,
                blocked: 0,
            }),
    {
        LinkBitrate {
            min: if max < 1_000_000 {
                max
            } else if max / 8 < 1_000_000 {
                1_000_000
            } else {
                max / 8
            },
            max,
            current: max,
            last_eval: now,
            last_change: now,
            sent: 0,
            blocked: 0,
        }
    }

    pub fn note_sent(&mut self)
        requires
            old(self).sent < u32::MAX,
        ensures
            *final(self) == (LinkBitrate { sent: (old(self).sent + 1) as u32, ..*old(self) }),
    {
        self.sent = self.sent + 1;
    }

    /// A frame is waiting because every allowed frame is still unacked.
    pub fn note_blocked(&mut self)
        requires
            old(self).blocked < u32::MAX,
        ensures
            *final(self) == (LinkBitrate { blocked: (old(self).blocked + 1) as u32, ..*old(self) }),
    {
        self.blocked = self.blocked + 1;
    }

    /// The next target.
    pub open spec fn next(self, now: u64, queueing: Queueing) -> int {
        if queueing == Queueing::High || (self.sent > 0 && self.blocked > self.sent) {
            if self.current / 4 * 3 < self.min {
                self.min as int
            } else {
                self.current / 4 * 3
            }
        } else if queueing == Queueing::Low && ago(now, self.last_change) >= GROW_AFTER {
            if self.current / 10 * 11 > self.max {
                self.max as int
            } else {
                self.current / 10 * 11
            }
        } else {
            self.current as int
        }
    }

    /// Whether an ack at `now` ends a window.
    pub fn is_due(&self, now: u64) -> (yes: bool)
        ensures
            yes == (ago(now, self.last_eval) >= EVAL_EVERY),
    {
        since(now, self.last_eval) >= EVAL_EVERY
    }

    /// Evaluate a window; returns a new target when it changes.
    pub fn evaluate(&mut self, now: u64, queueing: Queueing) -> (bitrate: Option<u32>)
        requires
            old(self).wf(),
        ensures
            final(self).current == old(self).next(now, queueing),
            bitrate == if final(self).current == old(self).current {
                None
            } else {
                Some(final(self).current)
            },
            *final(self) == (LinkBitrate {
                current: final(self).current,
                last_eval: now,
                last_change: if bitrate is Some {
                    now
                } else {
                    old(self).last_change
                },
                sent: 0,
                blocked: 0,
                ..*old(self)
            }),
            final(self).wf(),
    {
        self.last_eval = now;
        let starved: bool = self.sent > 0 && self.blocked > self.sent;
        self.sent = 0;
        self.blocked = 0;
        let c: u32 = self.current;
        let next: u32 = if queueing == Queueing::High || starved {
            let cut: u32 = c / 4 * 3;
            if cut < self.min {
                self.min
            } else {
                cut
            }
        } else if queueing == Queueing::Low && since(now, self.last_change) >= GROW_AFTER {
            let grown: u64 = c as u64 / 10 * 11;
            if grown > self.max as u64 {
                self.max
            } else {
                grown as u32
            }
        } else {
            c
        };
        if next == c {
            return None;
        }
        self.current = next;
        self.last_change = now;
        Some(next)
    }
}

/// The rate of a link falls by a quarter on a queue or a blocked writer, down
/// to its floor, and grows back by a tenth after two quiet seconds, up to what
/// it began with.
pub proof fn law_link_rates_fall_fast_and_grow_slowly(c: LinkBitrate, now: u64, q: Queueing)
    requires
        c.wf(),
    ensures
        ({
            let next = c.next(now, q);
            let bad = q == Queueing::High || (c.sent > 0 && c.blocked > c.sent);
            let quiet = q == Queueing::Low && c.last_change <= now && now - c.last_change >= 2_000_000_000;
            &&& next <= c.max
            &&& bad && c.current / 4 * 3 >= c.min ==> next == c.current / 4 * 3
            &&& bad && c.current / 4 * 3 < c.min ==> next == c.min
            &&& !bad && quiet && c.current / 10 * 11 <= c.max ==> next == c.current / 10 * 11
            &&& !bad && quiet && c.current / 10 * 11 > c.max ==> next == c.max
            &&& !bad && !quiet ==> next == c.current
        }),
{
}

/// A frame may be sent while fewer are in flight than the window holds and
/// none waits to be written.
pub proof fn law_room_is_what_the_window_leaves(w: FrameWindow)
    ensures
        w.room() <==> w.queued == 0 && w.in_flight < w.limit,
        w.in_flight < u32::MAX && w.queued < u32::MAX ==> w.sent().in_flight == w.in_flight + 1 && w.sent().queued
            == w.queued + 1 && w.sent().limit == w.limit,
{
}

} // verus!
