//! The bit budget of a frame, for a sender that counts frames.

use vstd::prelude::*;
use crate::rate::ladder::{ago, since};

verus! {

pub const EVAL_EVERY: u64 = 250_000_000;

pub const GROW_AFTER: u64 = 1_500_000_000;

/// The hold between growth steps before the first cut.
pub const SLOW_START_AFTER: u64 = 500_000_000;

/// Acks closer together than this say nothing of the link's rate.
pub const MIN_SPAN: u64 = 50_000_000;

/// How much has queued up in front of the client.
#[derive(Debug, Clone, Copy, PartialEq, Eq, Structural)]
pub enum Queueing {
    /// Under 10 ms.
    Low,
    Between,
    /// Over 50 ms.
    High,
}

/// Bytes that acks covered, and the nanoseconds they took to arrive.
#[derive(Debug, Clone, Copy, PartialEq, Eq, Structural)]
pub struct Arrivals {
    pub bytes: u64,
    pub span: u64,
}

/// Adapts the per-frame bit budget to the path. The encoder is CBR at
/// `budget x pace`, so the budget is what each frame may cost and the pace
/// converts it to a bandwidth. Growth of the ack RTT over its base is
/// queueing; the rate the acks then arrive at is what the link delivers, so
/// the budget drops to a fraction of that in one step. A quiet path grows
/// the budget back: quickly at first (slow start), then gently.
#[derive(Debug, Clone)]
pub struct BitrateController {
    /// Bits per frame per stream, bounded by the quality ceiling and floor.
    pub min: u32,
    pub max: u32,
    pub current: u32,
    /// Optional cap on total bits per second across the streams.
    pub cap: Option<u32>,
    pub streams: u32,
    pub last_eval: u64,
    pub last_change: u64,
    pub sent: u32,
    pub blocked: u32,
    /// Acks in the current evaluation window: arrival time and the bytes
    /// of the frame each covers.
    pub acks: Vec<(u64, u32)>,
    /// Growth steps are large until the first cut.
    pub slow_start: bool,
}

/// The bytes of acks from the second on.
pub open spec fn acked_bytes(acks: Seq<(u64, u32)>) -> nat
    decreases acks.len(),
{
    if acks.len() <= 1 {
        0
    } else {
        acked_bytes(acks.drop_last()) + acks.last().1 as nat
    }
}

/// What acks say of the rate: with fewer than three, or all at once, nothing.
pub open spec fn arrivals(acks: Seq<(u64, u32)>) -> Option<Arrivals> {
    if acks.len() < 3 {
        None
    } else if ago(acks.last().0, acks[0].0) < MIN_SPAN {
        None
    } else {
        Some(Arrivals { bytes: acked_bytes(acks) as u64, span: ago(acks.last().0, acks[0].0) })
    }
}

impl BitrateController {
    pub open spec fn wf(self) -> bool {
        200 <= self.min <= self.current <= self.max && self.streams >= 1
    }

    pub fn new(min: u32, max: u32, streams: u32, cap: Option<u32>, now: u64) -> (c: BitrateController)
        requires
            200 <= min <= max,
        ensures
            c.wf(),
            c.min == min,
            c.max == max,
            c.cap == cap,
            c.current == if max / 4 < min {
                min
            } else {
                max / 4
            },
            c.streams == if streams < 1 {
                1
            } else {
                streams
            },
            c.last_eval == now,
            c.last_change == now,
            c.sent == 0,
            c.blocked == 0,
            c.acks@.len() == 0,
            c.slow_start,
    {
        BitrateController {
            min,
            max,
            current: if max / 4 < min {
                min
            } else {
                max / 4
            },
            cap,
            streams: if streams < 1 {
                1
            } else {
                streams
            },
            last_eval: now,
            last_change: now,
            sent: 0,
            blocked: 0,
            acks: Vec::new(),
            slow_start: true,
        }
    }

    /// The CBR bitrate for one stream at `pace` frames per second: the budget
    /// at that pace, or this stream's share of the cap where that is lower.
    pub open spec fn rate_at(self, pace: u32) -> int {
        let by_budget = self.current * pace;
        let rate = match self.cap {
            Some(c) => if c / self.streams < by_budget {
                (c / self.streams) as int
            } else {
                by_budget
            },
            None => by_budget,
        };
        if rate < 1 {
            1
        } else {
            rate
        }
    }

    /// The low 32 bits of [`BitrateController::rate_at`]; any real rate fits.
    pub fn bitrate(&self, pace: u32) -> (bps: u32)
        requires
            self.wf(),
        ensures
            bps == self.rate_at(pace) as u32,
    {
        let current: u64 = self.current as u64;
        let pace: u64 = pace as u64;
        proof {
            assert(current * pace <= u32::MAX * u32::MAX) by (nonlinear_arith)
                requires
                    current <= u32::MAX,
                    pace <= u32::MAX,
            ;
        }
        let by_budget: u64 = current * pace;
        let rate: u64 = match self.cap {
            Some(c) => {
                let share: u64 = (c / self.streams) as u64;
                if share < by_budget {
                    share
                } else {
                    by_budget
                }
            },
            None => by_budget,
        };
        if rate < 1 {
            1
        } else {
            rate as u32
        }
    }

    pub fn note_sent(&mut self)
        requires
            old(self).sent < u32::MAX,
        ensures
            *final(self) == (BitrateController { sent: (old(self).sent + 1) as u32, ..*old(self) }),
    {
        self.sent = self.sent + 1;
    }

    /// A frame is waiting because every allowed frame is still unacked.
    pub fn note_blocked(&mut self)
        requires
            old(self).blocked < u32::MAX,
        ensures
            *final(self) == (BitrateController { blocked: (old(self).blocked + 1) as u32, ..*old(self) }),
    {
        self.blocked = self.blocked + 1;
    }

    /// When the link is saturated the acks are clocked by its transmission
    /// rate, so this is close to the link capacity.
    pub fn arrived(&self) -> (a: Option<Arrivals>)
        requires
            self.acks@.len() <= u32::MAX,
        ensures
            a == arrivals(self.acks@),
    {
        let n: usize = self.acks.len();
        if n < 3 {
            return None;
        }
        let span: u64 = since(self.acks[n - 1].0, self.acks[0].0);
        if span < MIN_SPAN {
            return None;
        }
        let mut bytes: u64 = 0;
        proof {
            assert(self.acks@.take(1).len() == 1);
        }
        for i in 1..n
            invariant
                n == self.acks@.len() <= u32::MAX,
                bytes == acked_bytes(self.acks@.take(i as int)),
                bytes <= (i - 1) * u32::MAX,
        {
            proof {
                assert(self.acks@.take(i + 1).drop_last() =~= self.acks@.take(i as int));
                assert((i - 1) * u32::MAX + u32::MAX <= u64::MAX) by (nonlinear_arith)
                    requires
                        1 <= i <= u32::MAX,
                ;
                assert(i * u32::MAX == (i - 1) * u32::MAX + u32::MAX) by (nonlinear_arith);
            }
            bytes = bytes + self.acks[i].1 as u64;
        }
        proof {
            assert(self.acks@.take(n as int) =~= self.acks@);
        }
        Some(Arrivals { bytes, span })
    }

    /// Feed an ack: when it came and the bytes it covers. Says whether a
    /// window is over and is to be evaluated.
    pub fn on_ack(&mut self, now: u64, bytes: u32) -> (due: bool)
        ensures
            due == (ago(now, old(self).last_eval) >= EVAL_EVERY),
            final(self).acks@ == old(self).acks@.push((now, bytes)),
            *final(self) == (BitrateController { acks: final(self).acks, ..*old(self) }),
    {
        self.acks.push((now, bytes));
        since(now, self.last_eval) >= EVAL_EVERY
    }

    /// The link was the bottleneck: more waits than frames.
    pub open spec fn starved(self) -> bool {
        self.sent > 0 && self.blocked > self.sent
    }

    /// The next budget. `delivered` is 0.85x what the acks say one frame of
    /// one stream may cost.
    pub open spec fn next(self, now: u64, queueing: Queueing, delivered: Option<u32>) -> int {
        let c = self.current;
        if queueing == Queueing::High || self.starved() {
            let want = match delivered {
                Some(bits) => bits as int,
                None => c / 4 * 3,
            };
            let cut = if want < c / 2 {
                (c / 2) as int
            } else if want > c / 100 * 90 {
                c / 100 * 90
            } else {
                want
            };
            if cut < self.min {
                self.min as int
            } else {
                cut
            }
        } else if queueing == Queueing::Low {
            let step = if self.slow_start {
                125int
            } else {
                105
            };
            let after = if self.slow_start {
                SLOW_START_AFTER
            } else {
                GROW_AFTER
            };
            if ago(now, self.last_change) < after {
                c as int
            } else if c * step / 100 > self.max {
                self.max as int
            } else {
                c * step / 100
            }
        } else {
            c as int
        }
    }

    /// Evaluate a window. Returns true when the budget changed.
    pub fn evaluate(&mut self, now: u64, queueing: Queueing, delivered: Option<u32>) -> (changed: bool)
        requires
            old(self).wf(),
        ensures
            final(self).wf(),
            final(self).current == old(self).next(now, queueing, delivered),
            changed == (final(self).current != old(self).current),
            final(self).acks@.len() == 0,
            *final(self) == (BitrateController {
                current: final(self).current,
                last_eval: now,
                last_change: if changed {
                    now
                } else {
                    old(self).last_change
                },
                sent: 0,
                blocked: 0,
                acks: final(self).acks,
                slow_start: old(self).slow_start && queueing != Queueing::High && !old(self).starved(),
                ..*old(self)
            }),
    {
        self.last_eval = now;
        let starved: bool = self.sent > 0 && self.blocked > self.sent;
        self.sent = 0;
        self.blocked = 0;
        self.acks = Vec::new();
        let c: u32 = self.current;
        let next: u32 = if queueing == Queueing::High || starved {
            self.slow_start = false;
            let want: u32 = match delivered {
                Some(bits) => bits,
                None => c / 4 * 3,
            };
            let cut: u32 = if want < c / 2 {
                c / 2
            } else if want > c / 100 * 90 {
                c / 100 * 90
            } else {
                want
            };
            if cut < self.min {
                self.min
            } else {
                cut
            }
        } else if queueing == Queueing::Low {
            let step: u64 = if self.slow_start {
                125
            } else {
                105
            };
            let after: u64 = if self.slow_start {
                SLOW_START_AFTER
            } else {
                GROW_AFTER
            };
            if since(now, self.last_change) >= after {
                let grown: u64 = c as u64 * step / 100;
                if grown > self.max as u64 {
                    self.max
                } else {
                    grown as u32
                }
            } else {
                c
            }
        } else {
            c
        };
        if next == c {
            return false;
        }
        self.current = next;
        self.last_change = now;
        true
    }
}

/// How many frames may be unacked: enough to keep the path busy across its
/// base round trip, which takes `intervals` frame intervals, and one more;
/// never under two nor over eight. Queueing delay does not widen the window.
pub fn ack_window(intervals: i64) -> (n: u32)
    requires
        intervals < i64::MAX,
    ensures
        n == if intervals + 1 < 2 {
            2
        } else if intervals + 1 > 8 {
            8
        } else {
            intervals + 1
        },
        2 <= n <= 8,
{
    let n: i64 = intervals + 1;
    if n < 2 {
        2
    } else if n > 8 {
        8
    } else {
        n as u32
    }
}

/// A queue, or more frames held back than sent, cuts a frame's budget to what
/// arrives, within half and nine tenths of what it was, or by a quarter where
/// that is unknown; it never falls under the floor. A quiet link gets more
/// after its wait: a quarter in slow start, a twentieth later, up to the
/// ceiling. Anything else leaves it.
pub proof fn law_frame_budgets_follow_the_link(c: BitrateController, now: u64, q: Queueing, delivered: Option<u32>)
    requires
        c.wf(),
    ensures
        ({
            let next = c.next(now, q, delivered);
            let bad = q == Queueing::High || (c.sent > 0 && c.blocked > c.sent);
            let waited = c.last_change <= now && now - c.last_change >= (if c.slow_start {
                500_000_000
            } else {
                1_500_000_000int
            });
            let (half, most) = (c.current / 2, c.current / 100 * 90);
            &&& c.min <= next <= c.max
            &&& bad ==> next <= c.current
            &&& bad ==> (delivered matches Some(d) ==> {
                &&& half <= d <= most && d >= c.min ==> next == d
                &&& d < half && half >= c.min ==> next == half
                &&& d > most && most >= half && most >= c.min ==> next == most
            })
            &&& bad && delivered is None && c.current / 4 * 3 >= c.min && half <= c.current / 4 * 3 <= most ==> next
                == c.current / 4 * 3
            &&& !bad && q == Queueing::Low && waited ==> next == c.max || next == c.current * (if c.slow_start {
                125int
            } else {
                105
            }) / 100
            &&& !bad && q == Queueing::Low && waited ==> next >= c.current
            &&& !bad && !(q == Queueing::Low && waited) ==> next == c.current
        }),
{
    assert(c.current * 125 / 100 >= c.current && c.current * 105 / 100 >= c.current);
}

/// The encoder's rate is the budget at the pace, and never over the share of
/// a cap that each stream has.
pub proof fn law_stream_rates_keep_the_cap(c: BitrateController, pace: u32)
    requires
        c.wf(),
    ensures
        c.rate_at(pace) >= 1,
        c.cap is None && pace > 0 ==> c.rate_at(pace) == c.current * pace,
        c.cap matches Some(cap) ==> c.rate_at(pace) == 1 || c.rate_at(pace) * c.streams <= cap,
        c.cap matches Some(cap) ==> c.rate_at(pace) == 1 || c.rate_at(pace) == c.current * pace || (c.rate_at(pace) + 1)
            * c.streams > cap,
        c.rate_at(pace) == 1 || c.rate_at(pace) <= c.current * pace,
        c.cap matches Some(cap) ==> c.current * pace * c.streams <= cap && pace > 0 ==> c.rate_at(pace) ==
            c.current * pace,
{
    if pace > 0 {
        assert(c.current * pace >= 1) by (nonlinear_arith)
            requires
                c.current >= 1,
                pace >= 1,
        ;
    }
    if let Some(cap) = c.cap {
        let (n, k) = (c.streams as int, cap as int);
        assert(k / n * n <= k < (k / n + 1) * n) by (nonlinear_arith)
            requires
                n >= 1,
        ;
        let r = c.rate_at(pace);
        let by = c.current * pace;
        if by <= k / n {
            assert(by * n <= k / n * n) by (nonlinear_arith)
                requires
                    by <= k / n,
                    n >= 1,
            ;
        } else {
            assert((k / n + 1) * n <= by * n) by (nonlinear_arith)
                requires
                    by >= k / n + 1,
                    n >= 1,
            ;
        }
        assert(c.current * pace * c.streams == by * n);
    }
}

/// What arrived between the first and the last ack: the bytes of all acks but
/// the first, over the time between the two; nothing for fewer than three acks
/// or less than 50 ms.
pub proof fn law_arrivals_count_all_but_the_first(acks: Seq<(u64, u32)>)
    ensures
        acks.len() > 0 ==> acked_bytes(acks) == acks.skip(1).map_values(|a: (u64, u32)| a.1 as int).fold_left(
            0int,
            |s: int, x: int| s + x,
        ),
        arrivals(acks) is Some <==> acks.len() >= 3 && acks.last().0 >= acks[0].0 + 50_000_000,
        arrivals(acks) matches Some(a) ==> a.span == acks.last().0 - acks[0].0,
    decreases acks.len(),
{
    if acks.len() > 1 {
        law_arrivals_count_all_but_the_first(acks.drop_last());
        let size = |a: (u64, u32)| a.1 as int;
        let all = acks.skip(1).map_values(size);
        assert(all.drop_last() =~= acks.drop_last().skip(1).map_values(size));
        assert(all.last() == acks.last().1);
    }
}

} // verus!
