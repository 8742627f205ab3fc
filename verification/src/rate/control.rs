//! The bitrate target.

use vstd::prelude::*;
use crate::rate::ladder::{ago, since};

verus! {

/// Why the controller changed the target.
#[derive(Debug, Clone, Copy, PartialEq, Eq, Structural)]
pub enum Reason {
    SlowStart,
    Grow,
    Track,
    Rtt,
    Rate,
}

/// The target before anything is measured, in bits per second.
pub const INITIAL_BPS: u32 = 3_000_000;

pub const STARTUP_TIMEOUT: u64 = 5_000_000_000;

pub const CONGESTION_RECENCY: u64 = 2_000_000_000;

/// No stream gets more than this, in bits per second.
pub const MAX_BPS: u64 = 80_000_000;

/// A stream's size in bits: what it may take at most and at least per
/// second, by its bits per pixel, and the bits per frame under which the
/// ladder should give something up.
#[derive(Debug, Clone, Copy, PartialEq, Eq, Structural)]
pub struct Bounds {
    pub max: u64,
    pub min: u64,
    pub floor_bpf: u32,
}

/// What the estimator knows when an ack arrives.
#[derive(Debug, Clone, Copy, PartialEq, Eq, Structural)]
pub struct Startup {
    /// Twice the best delivered rate, where there is one.
    pub doubled: Option<u32>,
    /// Bytes acked so far, and bytes under way.
    pub delivered: u64,
    pub inflight: u64,
}

/// What the estimator measured over an evaluation window.
#[derive(Debug, Clone, Copy, PartialEq, Eq, Structural)]
pub struct Window {
    /// The queueing every packet saw is more than jitter.
    pub queueing: bool,
    /// The recent rate is under 0.7x the best.
    pub rate_fell: bool,
    /// 0.85x what the link delivered recently, or at best.
    pub cut: Option<u32>,
    /// 0.85x the best delivered rate.
    pub track: Option<u32>,
    /// The target after one window's growth.
    pub grown: u32,
    /// How long to hold still after a change.
    pub grow_after: u64,
}

/// What an ack leads to.
#[derive(Debug, Clone, Copy, PartialEq, Eq, Structural)]
pub enum Step {
    Done(Option<Reason>),
    /// A window is over: [`RateController::evaluate`] it.
    Evaluate,
}

pub open spec fn clamped(v: u32, low: u32, high: u32) -> u32 {
    if v < low {
        low
    } else if v > high {
        high
    } else {
        v
    }
}

fn clamp_to(v: u32, low: u32, high: u32) -> (r: u32)
    requires
        low <= high,
    ensures
        r == clamped(v, low, high),
{
    if v < low {
        low
    } else if v > high {
        high
    } else {
        v
    }
}

/// Adapts the CBR target (bits per second, all streams together) to what
/// the estimator measured.
#[derive(Debug, Clone, Copy, PartialEq, Eq, Structural)]
pub struct RateController {
    pub min: u32,
    pub max: u32,
    /// Per-stream bits per frame under which the ladder should give
    /// something up, and the VBV window tightens.
    pub floor_bpf: u32,
    pub target: u32,
    /// An upper cap the target never exceeds, where one was asked for.
    pub fixed_cap: Option<u32>,
    pub slow_start: bool,
    pub started: Option<u64>,
    pub startup_idle_since: Option<u64>,
    pub last_congestion: Option<u64>,
    pub last_eval: Option<u64>,
    pub last_change: Option<u64>,
    /// Cumulative delivered bytes at the last slow-start raise: the next
    /// raise needs a full flight of new evidence.
    pub raised_at_delivered: u64,
    /// Consecutive evaluations that looked like overuse.
    pub overuse_evals: u32,
    /// A frame waited on the byte cap since the last evaluation.
    pub blocked_at_cap: bool,
    /// A frame write took longer than a frame interval since the last
    /// evaluation (the writer, not the byte cap, was the bottleneck).
    pub writer_blocked: bool,
    pub got_ack: bool,
    pub streams: u32,
}

impl RateController {
    /// The highest target: the stream's, or the cap's where that is lower.
    pub open spec fn ceiling(self) -> u32 {
        let m = match self.fixed_cap {
            Some(c) => if c < self.max {
                c
            } else {
                self.max
            },
            None => self.max,
        };
        if m < 1 {
            1
        } else {
            m
        }
    }

    /// The target lies between the floor and the ceiling.
    pub open spec fn wf(self) -> bool {
        &&& 1 <= self.min <= self.target <= self.ceiling()
        &&& self.streams >= 1
        &&& self.overuse_evals < 2
    }

    /// With the bounds of another stream. The floor never exceeds the
    /// ceiling.
    pub open spec fn bounded(self, b: Bounds, streams: u32) -> RateController {
        let max = if b.max < MAX_BPS {
            b.max as u32
        } else {
            MAX_BPS as u32
        };
        let c = RateController {
            max,
            floor_bpf: b.floor_bpf,
            streams: if streams < 1 {
                1
            } else {
                streams
            },
            ..self
        };
        let low = if b.min > 100_000 {
            b.min
        } else {
            100_000
        };
        RateController {
            min: if low > c.ceiling() {
                c.ceiling()
            } else {
                low as u32
            },
            ..c
        }
    }

    /// A controller that has seen nothing.
    pub open spec fn fresh(fixed_cap: Option<u32>) -> RateController {
        RateController {
            min: 0,
            max: 0,
            floor_bpf: 0,
            target: 0,
            fixed_cap,
            slow_start: true,
            started: None,
            startup_idle_since: None,
            last_congestion: None,
            last_eval: None,
            last_change: None,
            raised_at_delivered: 0,
            overuse_evals: 0,
            blocked_at_cap: false,
            writer_blocked: false,
            got_ack: false,
            streams: 1,
        }
    }

    /// With another target.
    pub open spec fn aimed(self, target: u32) -> RateController {
        RateController { target, ..self }
    }

    /// With another target, for a reason. Growth does not reset the hold: it
    /// runs once per evaluation while quiet.
    pub open spec fn applied(self, now: u64, target: u32, reason: Reason) -> RateController {
        RateController {
            target,
            last_change: if reason == Reason::Grow {
                self.last_change
            } else {
                Some(now)
            },
            ..self
        }
    }

    pub fn new(b: Bounds, streams: u32, fixed_cap: Option<u32>) -> (c: RateController)
        ensures
            c.wf(),
            ({
                let bare = RateController::fresh(fixed_cap).bounded(b, streams);
                c == bare.aimed(clamped(INITIAL_BPS, bare.min, bare.ceiling()))
            }),
    {
        let mut c: RateController = RateController {
            min: 0,
            max: 0,
            floor_bpf: 0,
            target: 0,
            fixed_cap,
            slow_start: true,
            started: None,
            startup_idle_since: None,
            last_congestion: None,
            last_eval: None,
            last_change: None,
            raised_at_delivered: 0,
            overuse_evals: 0,
            blocked_at_cap: false,
            writer_blocked: false,
            got_ack: false,
            streams: 1,
        };
        c.set_bounds(b, streams);
        c.target = clamp_to(INITIAL_BPS, c.min, c.effective_max());
        c
    }

    fn set_bounds(&mut self, b: Bounds, streams: u32)
        ensures
            *final(self) == old(self).bounded(b, streams),
            1 <= final(self).min <= final(self).ceiling(),
    {
        self.max = if b.max < MAX_BPS {
            b.max as u32
        } else {
            MAX_BPS as u32
        };
        self.floor_bpf = b.floor_bpf;
        self.streams = if streams < 1 {
            1
        } else {
            streams
        };
        let low: u64 = if b.min > 100_000 {
            b.min
        } else {
            100_000
        };
        let high: u32 = self.effective_max();
        self.min = if low > high as u64 {
            high
        } else {
            low as u32
        };
    }

    /// The highest target.
    pub fn effective_max(&self) -> (m: u32)
        ensures
            m == self.ceiling(),
    {
        let m: u32 = match self.fixed_cap {
            Some(c) => if c < self.max {
                c
            } else {
                self.max
            },
            None => self.max,
        };
        if m < 1 {
            1
        } else {
            m
        }
    }

    /// The stream geometry, stream count or fps ceiling changed: recompute
    /// the bounds and keep the same bits per second where possible.
    pub fn reconfigure(&mut self, b: Bounds, streams: u32)
        requires
            old(self).wf(),
        ensures
            final(self).wf(),
            ({
                let bare = old(self).bounded(b, streams);
                *final(self) == bare.aimed(clamped(old(self).target, bare.min, bare.ceiling()))
            }),
    {
        self.set_bounds(b, streams);
        self.target = clamp_to(self.target, self.min, self.effective_max());
    }

    pub fn target(&self) -> (t: u32)
        ensures
            t == self.target,
    {
        self.target
    }

    /// The CBR bitrate handed to one encoder stream.
    pub fn stream_bitrate(&self) -> (bps: u32)
        requires
            self.wf(),
        ensures
            bps == if self.target / self.streams < 1 {
                1
            } else {
                self.target / self.streams
            },
    {
        let bps: u32 = self.target / self.streams;
        if bps < 1 {
            1
        } else {
            bps
        }
    }

    pub fn is_slow_start(&self) -> (yes: bool)
        ensures
            yes == self.slow_start,
    {
        self.slow_start
    }

    pub fn congested_recently(&self, now: u64) -> (yes: bool)
        ensures
            yes == (self.last_congestion matches Some(t) && ago(now, t) <= CONGESTION_RECENCY),
    {
        match self.last_congestion {
            Some(t) => since(now, t) <= CONGESTION_RECENCY,
            None => false,
        }
    }

    /// Nothing is under way: time spent idle does not count as start-up.
    pub fn note_idle(&mut self, now: u64)
        ensures
            *final(self) == (RateController {
                startup_idle_since: if old(self).slow_start && old(self).startup_idle_since is None {
                    Some(now)
                } else {
                    old(self).startup_idle_since
                },
                ..*old(self)
            }),
    {
        if self.slow_start && self.startup_idle_since.is_none() {
            self.startup_idle_since = Some(now);
        }
    }

    /// A frame is under way: start-up is put off by the time spent idle.
    pub fn note_frame_sent(&mut self, now: u64)
        requires
            match (old(self).started, old(self).startup_idle_since) {
                (Some(t), Some(i)) => t + ago(now, i) <= u64::MAX,
                _ => true,
            },
        ensures
            *final(self) == (RateController {
                started: match (old(self).started, old(self).startup_idle_since) {
                    (Some(t), Some(i)) => Some((t + ago(now, i)) as u64),
                    _ => old(self).started,
                },
                startup_idle_since: None,
                ..*old(self)
            }),
    {
        let idle: Option<u64> = self.startup_idle_since;
        self.startup_idle_since = None;
        if let (Some(t), Some(i)) = (self.started, idle) {
            self.started = Some(t + since(now, i));
        }
    }

    /// Per-stream bits available for one frame at this pace.
    pub open spec fn frame_budget(self, fps: u32) -> int {
        self.target as int / (self.streams * if fps < 1 {
            1
        } else {
            fps as int
        })
    }

    pub fn budget_per_frame(&self, fps_cmd: u32) -> (bits: u32)
        requires
            self.wf(),
        ensures
            bits == self.frame_budget(fps_cmd),
    {
        let fps: u64 = if fps_cmd < 1 {
            1
        } else {
            fps_cmd as u64
        };
        let streams: u64 = self.streams as u64;
        proof {
            assert(1 <= streams * fps <= u32::MAX * u32::MAX) by (nonlinear_arith)
                requires
                    1 <= streams <= u32::MAX,
                    1 <= fps <= u32::MAX,
            ;
        }
        let slots: u64 = streams * fps;
        let bits: u64 = self.target as u64 / slots;
        proof {
            assert(bits <= self.target as u64) by (nonlinear_arith)
                requires
                    slots >= 1,
                    bits == self.target as u64 / slots,
            ;
        }
        bits as u32
    }

    /// The rate-control buffer window: small when the budget is tight or
    /// nothing is known yet, so one keyframe cannot stall a slow link.
    pub fn vbv_ms(&self, fps_cmd: u32) -> (ms: u32)
        requires
            self.wf(),
        ensures
            ms == if !self.got_ack {
                250u32
            } else if self.frame_budget(fps_cmd) < 2 * self.floor_bpf {
                100
            } else {
                500
            },
    {
        if !self.got_ack {
            250
        } else if (self.budget_per_frame(fps_cmd) as u64) < 2 * self.floor_bpf as u64 {
            100
        } else {
            500
        }
    }

    pub fn note_blocked_at_cap(&mut self)
        ensures
            *final(self) == (RateController { blocked_at_cap: true, ..*old(self) }),
    {
        self.blocked_at_cap = true;
    }

    pub fn note_writer_blocked(&mut self)
        ensures
            *final(self) == (RateController { writer_blocked: true, ..*old(self) }),
    {
        self.writer_blocked = true;
    }

    /// Start-up: the target follows twice the delivered rate, once per
    /// completed flight of new evidence.
    pub open spec fn ramped(self, now: u64, s: Startup) -> (RateController, Option<Reason>) {
        let started = match self.started {
            Some(t) => t,
            None => now,
        };
        let c = RateController { got_ack: true, started: Some(started), ..self };
        if !c.slow_start {
            (c, None)
        } else if ago(now, started) > STARTUP_TIMEOUT {
            (RateController { slow_start: false, ..c }, None)
        } else {
            match s.doubled {
                None => (c, None),
                Some(rate) => if s.delivered <= c.raised_at_delivered {
                    (c, None)
                } else {
                    let next = clamped(rate, c.target, c.ceiling());
                    let d = RateController { raised_at_delivered: (s.delivered + s.inflight) as u64, ..c };
                    if next > c.target {
                        (d.applied(now, next, Reason::SlowStart), Some(Reason::SlowStart))
                    } else if next >= c.ceiling() {
                        (RateController { slow_start: false, ..d }, None)
                    } else {
                        (d, None)
                    }
                },
            }
        }
    }

    /// What an ack comes to.
    pub open spec fn acked(self, now: u64, s: Startup, eval_every: u64) -> (RateController, Step) {
        match self.ramped(now, s) {
            (c, Some(r)) => (c, Step::Done(Some(r))),
            (c, None) => {
                let last = match c.last_eval {
                    Some(t) => t,
                    None => now,
                };
                if ago(now, last) < eval_every {
                    (RateController { last_eval: Some(last), ..c }, Step::Done(None))
                } else {
                    (RateController { last_eval: Some(now), ..c }, Step::Evaluate)
                }
            },
        }
    }

    /// Feed one ack. Says why the target changed, or that a window is over.
    pub fn on_ack(&mut self, now: u64, s: Startup, eval_every: u64) -> (step: Step)
        requires
            old(self).wf(),
            s.delivered + s.inflight <= u64::MAX,
        ensures
            (*final(self), step) == old(self).acked(now, s, eval_every),
            final(self).wf(),
            match step {
                Step::Done(Some(reason)) => reason == Reason::SlowStart && final(self).target > old(self).target,
                _ => final(self).target == old(self).target,
            },
    {
        self.got_ack = true;
        let started: u64 = match self.started {
            Some(t) => t,
            None => now,
        };
        self.started = Some(started);
        if self.slow_start {
            if since(now, started) > STARTUP_TIMEOUT {
                self.slow_start = false;
            } else if let Some(rate) = s.doubled {
                // Raise once per completed flight of new evidence: acks for
                // frames sent at the previous target.
                if s.delivered > self.raised_at_delivered {
                    let next: u32 = clamp_to(rate, self.target, self.effective_max());
                    self.raised_at_delivered = s.delivered + s.inflight;
                    if next > self.target {
                        self.apply(now, next, Reason::SlowStart);
                        return Step::Done(Some(Reason::SlowStart));
                    }
                    if next >= self.effective_max() {
                        self.slow_start = false;
                    }
                }
            }
        }
        let last: u64 = match self.last_eval {
            Some(t) => t,
            None => now,
        };
        if since(now, last) < eval_every {
            self.last_eval = Some(last);
            return Step::Done(None);
        }
        self.last_eval = Some(now);
        Step::Evaluate
    }

    /// Whether a window looked like overuse.
    pub open spec fn overused(self, w: Window) -> bool {
        w.queueing || (!self.slow_start && w.rate_fell)
    }

    /// The target after a cut: 0.85x what the link really delivered (or the
    /// target, where nothing is known), at most 0.95x the target. There is no
    /// other clamp relative to the old target: after a bandwidth collapse the
    /// target must follow in one or two cuts.
    pub open spec fn cut_to(self, w: Window) -> u32 {
        let basis = match w.cut {
            Some(c) => c,
            None => (self.target * 85 / 100) as u32,
        };
        let high = (self.target * 95 / 100) as u32;
        clamped(
            basis,
            self.min,
            if high < self.min {
                self.min
            } else {
                high
            },
        )
    }

    /// The target while the link is quiet: up to the tracked rate, or one
    /// window's growth.
    pub open spec fn quiet(self, now: u64, w: Window) -> (RateController, Option<Reason>) {
        let last = match (self.last_change, self.started) {
            (Some(t), _) => t,
            (None, Some(t)) => t,
            (None, None) => now,
        };
        let top = self.ceiling();
        let followed = match w.track {
            Some(t) => if t < top {
                t
            } else {
                top
            },
            None => 0,
        };
        if ago(now, last) < w.grow_after {
            (self, None)
        } else if followed > self.target {
            (self.applied(now, followed, Reason::Track), Some(Reason::Track))
        } else {
            let next = if w.grown < top {
                w.grown
            } else {
                top
            };
            if next > self.target {
                (self.applied(now, next, Reason::Grow), Some(Reason::Grow))
            } else {
                (self, None)
            }
        }
    }

    /// What a window comes to. A cut needs two windows of overuse in a row;
    /// after one the target holds, so it is never raised into a queue that
    /// the next window may confirm.
    pub open spec fn evaluated(self, now: u64, window: Option<Window>) -> (RateController, Option<Reason>) {
        let blocked = self.blocked_at_cap || self.writer_blocked;
        let c = RateController { blocked_at_cap: false, writer_blocked: false, ..self };
        match window {
            None => (c, None),
            Some(w) => if blocked && self.overused(w) {
                if self.overuse_evals == 0 {
                    (RateController { overuse_evals: 1, ..c }, None)
                } else {
                    let d = RateController {
                        overuse_evals: 0,
                        slow_start: false,
                        last_congestion: Some(now),
                        ..c
                    };
                    let reason = if w.queueing {
                        Reason::Rtt
                    } else {
                        Reason::Rate
                    };
                    if c.cut_to(w) < c.target {
                        (d.applied(now, c.cut_to(w), reason), Some(reason))
                    } else {
                        (d, None)
                    }
                }
            } else {
                let d = RateController { overuse_evals: 0, ..c };
                if d.slow_start {
                    (d, None)
                } else {
                    d.quiet(now, w)
                }
            },
        }
    }

    /// Evaluate a window; with no ack in it there is no evidence either way.
    /// Returns the reason when the target changed.
    pub fn evaluate(&mut self, now: u64, window: Option<Window>) -> (changed: Option<Reason>)
        requires
            old(self).wf(),
        ensures
            (*final(self), changed) == old(self).evaluated(now, window),
            final(self).wf(),
            match changed {
                Some(Reason::Grow) | Some(Reason::Track) => final(self).target > old(self).target,
                Some(Reason::Rtt) | Some(Reason::Rate) => final(self).target < old(self).target,
                Some(Reason::SlowStart) => false,
                None => final(self).target == old(self).target,
            },
    {
        let blocked: bool = self.blocked_at_cap || self.writer_blocked;
        self.blocked_at_cap = false;
        self.writer_blocked = false;
        let w: Window = match window {
            Some(w) => w,
            None => return None,
        };
        let overuse: bool = w.queueing || (!self.slow_start && w.rate_fell);
        if blocked && overuse {
            self.overuse_evals = self.overuse_evals + 1;
        } else {
            self.overuse_evals = 0;
        }
        if self.overuse_evals >= 2 {
            self.overuse_evals = 0;
            self.slow_start = false;
            self.last_congestion = Some(now);
            let basis: u32 = match w.cut {
                Some(c) => c,
                None => (self.target as u64 * 85 / 100) as u32,
            };
            let high: u32 = (self.target as u64 * 95 / 100) as u32;
            let high: u32 = if high < self.min {
                self.min
            } else {
                high
            };
            let next: u32 = clamp_to(basis, self.min, high);
            if next < self.target {
                let reason: Reason = if w.queueing {
                    Reason::Rtt
                } else {
                    Reason::Rate
                };
                self.apply(now, next, reason);
                return Some(reason);
            }
            return None;
        }
        // One overuse window already seen: hold, never raise into a queue
        // the next window may confirm (a track jump here would undo the cut
        // that is about to happen).
        if self.overuse_evals > 0 || self.slow_start {
            return None;
        }
        // Quiet for a full hold after the last cut or jump: raise the
        // target. This is not gated on being blocked, or a target once cut
        // on a quiet link could never recover (the target is a ceiling;
        // unused headroom costs nothing).
        let last: u64 = match (self.last_change, self.started) {
            (Some(t), _) => t,
            (None, Some(t)) => t,
            (None, None) => now,
        };
        if since(now, last) < w.grow_after {
            return None;
        }
        let top: u32 = self.effective_max();
        if let Some(track) = w.track {
            let next: u32 = if track < top {
                track
            } else {
                top
            };
            if next > self.target {
                self.apply(now, next, Reason::Track);
                return Some(Reason::Track);
            }
        }
        let next: u32 = if w.grown < top {
            w.grown
        } else {
            top
        };
        if next > self.target {
            self.apply(now, next, Reason::Grow);
            return Some(Reason::Grow);
        }
        None
    }

    fn apply(&mut self, now: u64, next: u32, reason: Reason)
        ensures
            *final(self) == old(self).applied(now, next, reason),
    {
        self.target = next;
        if reason != Reason::Grow {
            self.last_change = Some(now);
        }
    }
}

/// One bad window never cuts: the target falls only where the window before
/// was overused too, and frames were held back in this one.
pub proof fn law_one_stalled_window_does_not_cut(c: RateController, now: u64, window: Option<Window>)
    requires
        c.wf(),
    ensures
        c.evaluated(now, window).0.target < c.target ==> {
            &&& c.overuse_evals == 1
            &&& c.blocked_at_cap || c.writer_blocked
            &&& window matches Some(w) && c.overused(w)
        },
{
}

/// Sustained overuse cuts in the second window, by a twentieth at least,
/// wherever the target is above its floor.
pub proof fn law_sustained_overuse_cuts(c: RateController, now: u64, w: Window, later: u64, v: Window)
    requires
        c.wf(),
        c.blocked_at_cap || c.writer_blocked,
        c.overused(w),
        v.queueing,
        c.target > c.min,
    ensures
        ({
            let once = c.evaluated(now, Some(w)).0;
            let again = RateController { blocked_at_cap: true, ..once }.evaluated(later, Some(v)).0;
            c.overuse_evals == 0 ==> {
                &&& once.target == c.target
                &&& again.target < c.target
                &&& again.target <= c.target * 95 / 100 || again.target == c.min
            }
        }),
{
}

/// While overuse is being confirmed the target is not raised.
pub proof fn law_no_raise_during_overuse(c: RateController, now: u64, w: Window)
    requires
        c.wf(),
        c.blocked_at_cap || c.writer_blocked,
        c.overused(w),
    ensures
        c.evaluated(now, Some(w)).0.target <= c.target,
{
}

/// Outside start-up a raise waits out the hold since the last cut or jump.
pub proof fn law_raises_are_held(c: RateController, now: u64, w: Window, t: u64)
    requires
        c.wf(),
        c.last_change == Some(t),
        ago(now, t) < w.grow_after,
    ensures
        c.evaluated(now, Some(w)).0.target <= c.target,
{
}

/// The target is at least one, and never above a cap that was asked for.
pub proof fn law_target_keeps_the_cap(c: RateController)
    requires
        c.wf(),
    ensures
        c.target >= 1,
        c.fixed_cap matches Some(cap) ==> cap >= 1 ==> c.target <= cap,
{
}

/// A confirmed cut follows what the link delivered: the new target is the
/// measured rate wherever that lies between the floor and 0.95x the old
/// target, 0.85x the old target where nothing was measured, never under the
/// smaller of that rate and 0.95x the old target, and never over 0.95x the
/// old target but for the floor. Slow start is over, the congestion is noted,
/// and a queue is told from a rate that fell.
pub proof fn law_cuts_follow_the_delivery(c: RateController, now: u64, w: Window)
    requires
        c.wf(),
        c.blocked_at_cap || c.writer_blocked,
        c.overuse_evals == 1,
        w.queueing || (w.rate_fell && !c.slow_start),
    ensures
        ({
            let (after, reason) = c.evaluated(now, Some(w));
            let most = c.target * 95 / 100;
            let rate = match w.cut {
                Some(r) => r as int,
                None => c.target * 85 / 100,
            };
            &&& c.min <= rate <= most ==> after.target == rate
            &&& rate > most && c.min <= most ==> after.target == most
            &&& rate < c.min || most < c.min ==> after.target == c.min
            &&& after.target >= rate || after.target >= most
            &&& !after.slow_start
            &&& after.last_congestion == Some(now)
            &&& after.overuse_evals == 0
            &&& reason is None <==> after.target == c.target
            &&& reason is Some ==> after.last_change == Some(now) && reason == Some(
                if w.queueing {
                    Reason::Rtt
                } else {
                    Reason::Rate
                },
            )
        }),
{
}

/// The first overused window only counts, and one that is not overused, or in
/// which nothing was held back, starts the count anew; a window without an
/// ack leaves it. Each of them ends the notes of what was held back.
pub proof fn law_overuse_is_counted(c: RateController, now: u64, window: Option<Window>)
    requires
        c.wf(),
    ensures
        ({
            let after = c.evaluated(now, window).0;
            let blocked = c.blocked_at_cap || c.writer_blocked;
            &&& !after.blocked_at_cap && !after.writer_blocked
            &&& after.min == c.min && after.max == c.max && after.fixed_cap == c.fixed_cap
            &&& after.streams == c.streams && after.floor_bpf == c.floor_bpf
            &&& match window {
                None => after.overuse_evals == c.overuse_evals && after.target == c.target,
                Some(w) => if blocked && (w.queueing || (w.rate_fell && !c.slow_start)) {
                    c.overuse_evals == 0 ==> after.overuse_evals == 1 && after.target == c.target && after.slow_start
                        == c.slow_start
                } else {
                    after.overuse_evals == 0
                },
            }
        }),
{
}

/// On a link without overuse, past slow start and the hold, the target jumps
/// to the tracked rate where that is higher, and otherwise grows by one
/// window's growth; neither goes past the ceiling, and neither lowers it.
pub proof fn law_quiet_links_are_followed_up(c: RateController, now: u64, w: Window)
    requires
        c.wf(),
        !c.slow_start,
        !w.queueing,
        !w.rate_fell,
        c.last_change matches Some(t) && t <= now && now - t >= w.grow_after,
    ensures
        ({
            let (after, reason) = c.evaluated(now, Some(w));
            let top = c.ceiling();
            let tracked_up = w.track matches Some(t) && t > c.target && top > c.target;
            &&& after.target >= c.target
            &&& w.track matches Some(t) ==> tracked_up ==> {
                &&& reason == Some(Reason::Track)
                &&& t <= top ==> after.target == t
                &&& t > top ==> after.target == top
                &&& after.last_change == Some(now)
            }
            &&& !tracked_up ==> {
                &&& after.last_change == c.last_change
                &&& c.target < w.grown <= top ==> after.target == w.grown && reason == Some(Reason::Grow)
                &&& w.grown > top && top > c.target ==> after.target == top && reason == Some(Reason::Grow)
                &&& w.grown <= c.target || top == c.target ==> after.target == c.target && reason is None
            }
        }),
{
}

/// In slow start an ack raises the target to twice the delivered rate, up to
/// the ceiling, once per flight: only where more was delivered than when it
/// was last raised, counting what was under way then. Start-up ends when its
/// time is over or the ceiling is reached, and nothing is raised then.
pub proof fn law_slow_start_doubles_what_arrives(c: RateController, now: u64, s: Startup, eval_every: u64)
    requires
        c.wf(),
        s.delivered + s.inflight <= u64::MAX,
    ensures
        ({
            let (after, step) = c.acked(now, s, eval_every);
            let begun = match c.started {
                Some(t) => t,
                None => now,
            };
            let late = now > begun && now - begun > STARTUP_TIMEOUT;
            let raise = c.slow_start && !late && s.delivered > c.raised_at_delivered;
            &&& after.got_ack
            &&& after.started == Some(begun)
            &&& after.target >= c.target
            &&& !raise ==> after.target == c.target && after.raised_at_delivered == c.raised_at_delivered
            &&& c.slow_start && late ==> !after.slow_start
            &&& s.doubled is None ==> after.target == c.target
            &&& s.doubled matches Some(rate) ==> raise ==> {
                &&& after.raised_at_delivered == s.delivered + s.inflight
                &&& c.target < rate <= c.ceiling() ==> after.target == rate && step ==
                    Step::Done(Some(Reason::SlowStart))
                &&& rate > c.ceiling() > c.target ==> after.target == c.ceiling()
                &&& rate <= c.target ==> after.target == c.target
                &&& c.target == c.ceiling() ==> !after.slow_start && after.target == c.target
            }
        }),
{
}

/// A window is evaluated when the time between evaluations has passed since
/// the last one, and not before; a raise goes before it.
pub proof fn law_windows_end_on_time(c: RateController, now: u64, s: Startup, eval_every: u64)
    requires
        c.wf(),
        !c.slow_start,
    ensures
        ({
            let (after, step) = c.acked(now, s, eval_every);
            match c.last_eval {
                Some(t) => if t <= now && now - t >= eval_every {
                    step == Step::Evaluate && after.last_eval == Some(now)
                } else {
                    eval_every > 0 ==> step == Step::Done(None) && after.last_eval == Some(t)
                },
                None => after.last_eval == Some(now) && (eval_every > 0 ==> step == Step::Done(None)),
            }
        }),
{
}

/// The ceiling is the lower of the stream's highest rate and the cap, where
/// there is one, and at least one.
pub proof fn law_the_ceiling_is_the_lower_limit(c: RateController)
    ensures
        c.ceiling() >= 1,
        c.max >= 1 ==> c.ceiling() <= c.max,
        c.fixed_cap matches Some(cap) ==> cap >= 1 ==> c.ceiling() <= cap,
        c.ceiling() == c.max || c.ceiling() == 1 || c.fixed_cap == Some(c.ceiling()),
        c.ceiling() == 1 ==> c.max <= 1 || (c.fixed_cap matches Some(cap) && cap <= 1),
{
}

/// New bounds move the target no more than they must: it stays where the new
/// floor and ceiling allow it, else it is the nearer of the two. The floor is
/// the one asked for, at least 100 kbit/s, where the ceiling allows that.
pub proof fn law_new_bounds_keep_the_rate(c: RateController, b: Bounds, streams: u32)
    requires
        c.wf(),
    ensures
        ({
            let bare = c.bounded(b, streams);
            let target = clamped(c.target, bare.min, bare.ceiling());
            &&& bare.min <= c.target <= bare.ceiling() ==> target == c.target
            &&& c.target < bare.min ==> target == bare.min
            &&& c.target > bare.ceiling() ==> target == bare.ceiling()
            &&& bare.min == b.min || bare.min == 100_000 || bare.min == bare.ceiling()
            &&& bare.min >= b.min || bare.min == bare.ceiling()
            &&& bare.min >= 100_000 || bare.min == bare.ceiling()
            &&& bare.min <= bare.ceiling()
            &&& b.min >= 100_000 || bare.min <= 100_000
            &&& b.min <= 100_000 || bare.min <= b.min
            &&& bare.max <= b.max && bare.max <= MAX_BPS
            &&& bare.max == b.max || bare.max == MAX_BPS
            &&& bare.floor_bpf == b.floor_bpf
            &&& bare.streams >= 1 && (streams >= 1 ==> bare.streams == streams)
            &&& bare.fixed_cap == c.fixed_cap && bare.slow_start == c.slow_start && bare.last_change == c.last_change
        }),
{
}

/// A frame's budget is the target shared by the streams and the frames of a
/// second: as many whole bits as fit.
pub proof fn law_budgets_share_the_target(c: RateController, fps: u32)
    requires
        c.wf(),
        fps >= 1,
    ensures
        c.frame_budget(fps) * (c.streams * fps) <= c.target < (c.frame_budget(fps) + 1) * (c.streams * fps),
{
    let slots = c.streams * fps;
    let t = c.target as int;
    assert(slots >= 1) by (nonlinear_arith)
        requires
            slots == c.streams * fps,
            c.streams >= 1,
            fps >= 1,
    ;
    assert(t / slots * slots <= t < (t / slots + 1) * slots) by (nonlinear_arith)
        requires
            slots >= 1,
    ;
}

} // verus!
