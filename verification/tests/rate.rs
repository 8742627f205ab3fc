use std::collections::VecDeque;

use gliff::rate::bitrate::{ack_window, BitrateController, Queueing};
use gliff::rate::control::{Bounds, RateController, Reason, Startup, Step, Window, INITIAL_BPS};
use gliff::rate::flight::{Flight, FPS_WINDOW};
use gliff::rate::ladder::{
    fps_at, level_at, streams_at, Affordable, Ladder, HOLD_DOWN, HOLD_UP, LAST_LEVEL, MAX_HOLD_UP,
};
use gliff::rate::window::{FrameWindow, LinkBitrate};

const MS: u64 = 1_000_000;
const MAX_BPP: f64 = 0.1;
const MIN_BPP: f64 = 0.005;
const FLOOR_BPP: f64 = 0.03;

fn ms(ns: u64) -> f64 {
    ns as f64 / 1e6
}

fn ns(secs: f64) -> u64 {
    (secs * 1e9).round() as u64
}

/// Smooths and filters what a flight shows, in floating point.
struct LinkEstimator {
    flight: Flight,
    srtt_ms: Option<f64>,
    mdev_ms: f64,
    rate_samples: VecDeque<(u64, f64, bool)>,
    largest_frame: usize,
    avg_frame_bytes: f64,
}

impl LinkEstimator {
    fn new() -> Self {
        Self {
            flight: Flight::new(),
            srtt_ms: None,
            mdev_ms: 0.0,
            rate_samples: VecDeque::new(),
            largest_frame: 0,
            avg_frame_bytes: 0.0,
        }
    }

    fn on_sent(&mut self, now: u64, frame_id: u64, bytes: usize, app_limited: bool) {
        let window = self.rate_window();
        self.flight.on_sent(now, frame_id, bytes as u64, app_limited, window);
        self.largest_frame = self.largest_frame.max(bytes);
        self.avg_frame_bytes = if self.avg_frame_bytes == 0.0 {
            bytes as f64
        } else {
            0.8 * self.avg_frame_bytes + 0.2 * bytes as f64
        };
    }

    fn on_ack(&mut self, now: u64, frame_id: u64) {
        let Some(a) = self.flight.on_ack(now, frame_id) else { return };
        self.smooth(ms(a.rtt));
        if let Some(d) = a.delivery {
            let bps = d.bytes as f64 * 8.0 / (d.elapsed as f64 / 1e9);
            self.record_rate(now, bps, d.app_limited);
        }
    }

    fn seed_rtt(&mut self, now: u64, rtt_ms: f64) {
        if self.flight.seed_rtt(now, ns(rtt_ms / 1000.0)) {
            self.smooth(rtt_ms);
        }
    }

    fn smooth(&mut self, rtt_ms: f64) {
        match self.srtt_ms {
            None => {
                self.srtt_ms = Some(rtt_ms);
                self.mdev_ms = rtt_ms / 2.0;
            }
            Some(srtt) => {
                self.mdev_ms = 0.75 * self.mdev_ms + 0.25 * (rtt_ms - srtt).abs();
                self.srtt_ms = Some(0.875 * srtt + 0.125 * rtt_ms);
            }
        }
    }

    fn record_rate(&mut self, now: u64, bps: f64, app_limited: bool) {
        if app_limited && bps <= self.rate_max_bps().unwrap_or(0.0) {
            return;
        }
        self.rate_samples.push_back((now, bps, app_limited));
        let window = self.rate_window();
        while self.rate_samples.front().is_some_and(|s| now - s.0 > window) {
            self.rate_samples.pop_front();
        }
        self.largest_frame = self.avg_frame_bytes as usize;
    }

    fn rate_window(&self) -> u64 {
        let base = self.base_rtt_ms().unwrap_or(100.0);
        ns((10.0 * base / 1000.0).clamp(1.0, 15.0))
    }

    fn base_rtt_ms(&self) -> Option<f64> {
        self.flight.base_rtt().map(ms)
    }

    fn queue_threshold_ms(&self) -> f64 {
        let base = self.base_rtt_ms().unwrap_or(50.0);
        (4.0 * self.mdev_ms).clamp(50.0, (2.0 * base).max(50.0))
    }

    fn rate_max_bps(&self) -> Option<f64> {
        self.rate_samples.iter().map(|s| s.1).max_by(|a, b| a.total_cmp(b))
    }

    fn rate_recent_bps(&self, now: u64) -> Option<f64> {
        let window = ns((self.base_rtt_ms().unwrap_or(500.0) / 1000.0).max(0.5));
        let recent: Vec<f64> =
            self.rate_samples.iter().filter(|s| !s.2 && now - s.0 <= window).map(|s| s.1).collect();
        if recent.is_empty() {
            return None;
        }
        Some(recent.iter().sum::<f64>() / recent.len() as f64)
    }

    fn est_frame_bytes(&self) -> u64 {
        self.avg_frame_bytes.max(1.0) as u64
    }

    fn cap_bytes(&self, slow_start: bool) -> u64 {
        let floor = (2 * self.largest_frame.max(self.avg_frame_bytes as usize)).max(96 * 1024);
        let (Some(rate), Some(base)) = (self.rate_max_bps(), self.base_rtt_ms()) else {
            return floor as u64;
        };
        let gain = if slow_start { 2.0 } else { 1.5 };
        let bdp_bytes = rate / 8.0 * base / 1000.0;
        (gain * bdp_bytes).max(floor as f64) as u64
    }
}

fn bounds(pixels: u64, streams: u32, max_fps: u32) -> Bounds {
    Bounds {
        max: (pixels as f64 * streams.max(1) as f64 * max_fps as f64 * MAX_BPP) as u64,
        min: (pixels as f64 * MIN_BPP * 5.0) as u64,
        floor_bpf: (pixels as f64 * FLOOR_BPP) as u32,
    }
}

fn eval_every(link: &LinkEstimator) -> u64 {
    (250 * MS).max(ns(link.base_rtt_ms().unwrap_or(0.0) / 1000.0))
}

/// Feed one ack to the controller.
fn feed_ack(ctl: &mut RateController, now: u64, link: &mut LinkEstimator) -> Option<Reason> {
    let s = Startup {
        doubled: link.rate_max_bps().map(|r| (2.0 * r) as u32),
        delivered: link.flight.delivered,
        inflight: link.flight.inflight,
    };
    let every = eval_every(link);
    match ctl.on_ack(now, s, every) {
        Step::Done(r) => r,
        Step::Evaluate => {
            let queueing = link.flight.take_window_queueing().map(ms);
            let (max, recent) = (link.rate_max_bps(), link.rate_recent_bps(now));
            let window = queueing.map(|q| Window {
                queueing: q > link.queue_threshold_ms(),
                rate_fell: matches!((recent, max), (Some(r), Some(m)) if r < 0.7 * m),
                cut: recent.or(max).map(|b| (0.85 * b) as u32),
                track: max.map(|m| (0.85 * m) as u32),
                grown: (ctl.target() as f64 * (1.0 + 0.08 * (every as f64 / 1e9))) as u32,
                grow_after: (1500 * MS).max(ns(2.0 * link.base_rtt_ms().unwrap_or(0.0) / 1000.0)),
            });
            ctl.evaluate(now, window)
        }
    }
}

fn payable(rate_bps: f64, pixels: u64, dual: bool, can_drop_aux: bool, max_fps: u32, mult: f64) -> [bool; 7] {
    let mut can = [false; 7];
    for (i, c) in can.iter_mut().enumerate() {
        let l = level_at(i);
        let scale = l.scale_percent as f64 / 100.0;
        let px = (pixels as f64 * scale * scale).max(1.0);
        let slots = streams_at(dual, can_drop_aux, &l) as f64 * fps_at(max_fps, &l) as f64 * px;
        *c = 0.85 * rate_bps / slots >= mult * FLOOR_BPP;
    }
    can
}

fn affordable(link: &LinkEstimator, now: u64, pixels: u64, dual: bool, max_fps: u32) -> Option<Affordable> {
    let rate = link.rate_max_bps()?;
    Some(Affordable {
        level: payable(rate, pixels, dual, true, max_fps, 1.0),
        down: payable(rate, pixels, dual, true, max_fps, 0.9),
        up: payable(rate, pixels, dual, true, max_fps, 1.25),
        real: link.rate_recent_bps(now).is_some(),
    })
}

/// Drive a link at a fixed round trip and capacity: send when the cap allows,
/// ack after one round trip.
struct Sim {
    link: LinkEstimator,
    ctl: RateController,
    ladder: Ladder,
    pixels: u64,
    streams: u32,
    max_fps: u32,
    level_changes: Vec<(u64, usize)>,
    now: u64,
    frame_id: u64,
    pending_acks: VecDeque<(u64, u64)>,
}

impl Sim {
    fn new(pixels: u64, streams: u32, max_fps: u32) -> Self {
        Self {
            link: LinkEstimator::new(),
            ctl: RateController::new(bounds(pixels, streams, max_fps), streams, None),
            ladder: Ladder::new(1),
            pixels,
            streams,
            max_fps,
            level_changes: Vec::new(),
            now: 1_000_000 * MS,
            frame_id: 0,
            pending_acks: VecDeque::new(),
        }
    }

    /// Run at 1 ms steps: pace `fps`, frame size from the target, ack after
    /// `rtt_ms` if capacity `cap_bps` allows the pace, else at the capacity's
    /// pace (a saturated link queues, modelled as added delay).
    fn run(&mut self, secs: f64, fps: u32, rtt_ms: f64, cap_bps: f64) -> f64 {
        let mut next_send = self.now;
        let interval = ns(1.0 / fps.max(1) as f64);
        let mut acked = 0u64;
        let started = self.now;
        let mut link_free = self.now;
        while self.now < started + ns(secs) {
            self.now += MS;
            while self.pending_acks.front().is_some_and(|(t, _)| *t <= self.now) {
                let (_, id) = self.pending_acks.pop_front().unwrap();
                self.link.on_ack(self.now, id);
                feed_ack(&mut self.ctl, self.now, &mut self.link);
                let can = affordable(&self.link, self.now, self.pixels, self.streams == 2, self.max_fps);
                let congested = self.ctl.congested_recently(self.now);
                if let Some(level) = self.ladder.consider(self.now, can, self.ctl.is_slow_start(), congested) {
                    self.level_changes.push((self.now, level));
                }
                if fps == 0 && self.link.flight.inflight == 0 {
                    self.ctl.note_idle(self.now);
                }
                acked += 1;
            }
            if fps == 0 || self.now < next_send {
                continue;
            }
            // One simulated frame carries every stream's share.
            let bytes = (self.ctl.target() / (fps * 8)).max(500) as usize;
            let room = self.link.flight.inflight + self.link.est_frame_bytes()
                <= self.link.cap_bytes(self.ctl.is_slow_start());
            if !room {
                self.ctl.note_blocked_at_cap();
                continue;
            }
            // Serialization on the capacity plus the propagation delay.
            link_free = link_free.max(self.now) + ns(bytes as f64 * 8.0 / cap_bps);
            let ack_at = link_free + ns(rtt_ms / 1000.0);
            self.ctl.note_frame_sent(self.now);
            self.link.on_sent(self.now, self.frame_id, bytes, false);
            self.pending_acks.push_back((ack_at, self.frame_id));
            self.frame_id += 1;
            next_send = self.now + interval;
        }
        acked as f64 / secs
    }
}

#[test]
fn fps_is_not_bound_by_ack_count_at_high_rtt() {
    let mut sim = Sim::new(1920 * 1080, 1, 30);
    sim.run(10.0, 15, 1100.0, 20e6);
    let fps = sim.run(10.0, 15, 1100.0, 20e6);
    assert!(fps > 13.0, "delivered only {fps:.1} fps after the ramp");
}

#[test]
fn cap_never_falls_below_a_frame_on_a_lan() {
    let mut link = LinkEstimator::new();
    let mut now = 0;
    for id in 0..50 {
        link.on_sent(now, id, 20_000, false);
        now += MS;
        link.on_ack(now, id);
        now += MS;
    }
    let cap = link.cap_bytes(false);
    assert!(cap >= 2 * 20_000, "cap {cap} smaller than two frames at rtt ~1 ms");
}

#[test]
fn app_limited_samples_never_lower_the_rate() {
    let mut link = LinkEstimator::new();
    let mut now = 0;
    // Establish ~8 Mbit/s with real traffic.
    for id in 0..20 {
        link.on_sent(now, id, 100_000, false);
        now += 100 * MS;
        link.on_ack(now, id);
    }
    let before = link.rate_max_bps().unwrap();
    assert!(before > 6e6, "setup rate {before}");
    // Then a trickle of tiny app-limited refinements.
    for id in 20..30 {
        link.on_sent(now, id, 1_000, true);
        now += 100 * MS;
        link.on_ack(now, id);
    }
    let after = link.rate_max_bps().unwrap();
    assert!(after >= before * 0.99, "rate fell from {before} to {after} on app-limited samples");
}

#[test]
fn one_stalled_window_does_not_cut() {
    let mut sim = Sim::new(1920 * 1080, 1, 30);
    sim.run(6.0, 15, 100.0, 10e6);
    let before = sim.ctl.target();
    // One loss-recovery stall: a single 2.5 s rtt sample while blocked.
    sim.ctl.note_blocked_at_cap();
    sim.link.on_sent(sim.now, 999_000, 20_000, false);
    sim.now += 2500 * MS;
    sim.link.on_ack(sim.now, 999_000);
    feed_ack(&mut sim.ctl, sim.now, &mut sim.link);
    assert!(
        sim.ctl.target() >= before,
        "one stall cut the target from {before} to {}",
        sim.ctl.target()
    );
}

#[test]
fn sustained_queueing_cuts_within_two_windows() {
    let mut sim = Sim::new(1920 * 1080, 1, 30);
    sim.run(6.0, 15, 100.0, 10e6);
    let before = sim.ctl.target();
    // Every ack now takes 100 ms base + 600 ms queue, over several evaluation
    // windows, while frames wait on the cap.
    for id in (999_000..).take(20) {
        sim.ctl.note_blocked_at_cap();
        sim.link.on_sent(sim.now, id, 20_000, false);
        sim.now += 700 * MS;
        sim.link.on_ack(sim.now, id);
        feed_ack(&mut sim.ctl, sim.now, &mut sim.link);
    }
    assert!(sim.ctl.target() < before, "sustained queueing did not cut ({before})");
}

#[test]
fn slow_start_reaches_a_lan_ceiling_quickly() {
    let mut sim = Sim::new(1920 * 1080, 2, 60);
    sim.run(1.0, 30, 5.0, 100e6);
    let target = sim.ctl.target();
    assert!(target >= sim.ctl.effective_max() / 2, "after 1 s on a lan the target is only {target}");
}

#[test]
fn an_idle_start_preserves_slow_start_until_capacity_is_known() {
    let pixels = 2560 * 1440;
    let mut active = Sim::new(pixels, 2, 60);
    active.run(1.0, 30, 70.0, 40e6);
    let rate = active.link.rate_max_bps().unwrap();
    assert_eq!(Ladder::select(&payable(rate, pixels, true, true, 60, 1.0)), 0);

    let mut sim = Sim::new(pixels, 2, 60);
    sim.run(0.001, 30, 70.0, 40e6);
    sim.run(12.0, 0, 70.0, 40e6);
    assert_eq!(sim.ctl.target(), INITIAL_BPS);
    assert!(sim.ctl.is_slow_start());

    sim.run(2.0, 30, 70.0, 40e6);
    assert!(sim.ctl.target() >= 15_000_000, "target {}", sim.ctl.target());
    assert_eq!(sim.ladder.index(), 0);
    assert!(sim.level_changes.iter().all(|(_, level)| *level < 2));
}

#[test]
fn a_slow_link_still_moves_down_during_startup() {
    let mut sim = Sim::new(2560 * 1440, 2, 60);
    sim.run(8.0, 30, 70.0, 2.5e6);
    assert!(sim.ladder.index() >= 2, "level {}", sim.ladder.index());
    assert!(sim.ctl.target() < 4_000_000, "target {}", sim.ctl.target());
}

#[test]
fn a_capacity_drop_moves_the_ladder_down() {
    let mut sim = Sim::new(2560 * 1440, 2, 60);
    sim.run(6.0, 30, 70.0, 40e6);
    assert_eq!(sim.ladder.index(), 0);
    sim.run(8.0, 30, 70.0, 2.5e6);
    assert!(sim.ladder.index() >= 2, "level {}", sim.ladder.index());
    assert!(sim.ctl.target() < 4_000_000, "target {}", sim.ctl.target());
}

#[test]
fn budget_tracks_a_slow_link() {
    let mut sim = Sim::new(2560 * 1440, 1, 15);
    sim.run(30.0, 15, 1100.0, 2.5e6);
    let target = sim.ctl.target() as f64;
    assert!(
        target > 0.6 * 2.5e6 && target < 1.1 * 2.5e6,
        "target {target} does not track a 2.5 Mbit/s link"
    );
}

#[test]
fn a_collapse_recovers_in_a_few_cuts() {
    let mut sim = Sim::new(1920 * 1080, 2, 60);
    sim.run(4.0, 30, 20.0, 50e6);
    assert!(sim.ctl.target() > 10_000_000);
    // The link falls to 2 Mbit/s.
    sim.run(8.0, 30, 20.0, 2e6);
    let target = sim.ctl.target() as f64;
    assert!(target < 2.0 * 2e6, "target {target} still far above a collapsed 2 Mbit/s link");
}

#[test]
fn queue_threshold_stays_crossable() {
    let mut link = LinkEstimator::new();
    link.seed_rtt(0, 1100.0);
    // First sample sets mdev to rtt/2; the threshold must stay below the
    // point where no queueing can ever cross it.
    let t = link.queue_threshold_ms();
    assert!(t <= 2200.0, "threshold {t} uncrossable at 1.1 s rtt");
    assert!(t >= 50.0);
}

/// A link with steady real traffic at `bps`, for ladder tests.
fn link_at(bps: f64) -> (LinkEstimator, u64) {
    let mut link = LinkEstimator::new();
    let mut now = 0;
    let bytes = (bps / 8.0 / 20.0) as usize;
    for id in 0..20 {
        link.on_sent(now, id, bytes, false);
        now += 50 * MS;
        link.on_ack(now, id);
    }
    (link, now)
}

#[test]
fn ladder_selects_by_rate() {
    let cases = [
        // (rate, pixels, dual, expected level)
        (50e6, 1920 * 1080, true, 0),  // lan: full quality
        (20e6, 1920 * 1080, true, 0),  // dsl still affords 60 fps dual
        (2.5e6, 2560 * 1440, true, 3), // satellite: 15 fps single, full res
        (0.3e6, 2560 * 1440, true, 6), // worse than the ladder: last level
    ];
    for (rate, pixels, dual, expected) in cases {
        let got = Ladder::select(&payable(rate, pixels, dual, true, 60, 1.0));
        assert_eq!(got, expected, "rate {rate} pixels {pixels}");
    }
}

#[test]
fn a_dual_only_client_pays_for_two_streams_on_every_rung() {
    let sel = Ladder::select(&payable(2.5e6, 2560 * 1440, true, false, 60, 1.0));
    assert_eq!(sel, 5, "expected the half-resolution rung, got {sel}");
}

#[test]
fn startup_downshift_waits_for_congestion() {
    let (link, now) = link_at(2.5e6);
    let mut ladder = Ladder::new(1);
    let can = affordable(&link, now, 2560 * 1440, true, 60);
    assert_eq!(ladder.consider(now, can, true, false), None);
    assert_eq!(ladder.consider(now, can, true, true), Some(3));
    let (link, now) = link_at(50e6);
    let mut ladder = Ladder::new(1);
    let can = affordable(&link, now, 1920 * 1080, true, 60);
    assert_eq!(ladder.consider(now, can, true, false), Some(0));
}

#[test]
fn a_flap_doubles_the_up_hold() {
    let pixels = 2560 * 1440;
    let (link, mut now) = link_at(2.5e6);
    let mut ladder = Ladder::new(3);
    // Probe up succeeds after the hold on a briefly-better link...
    let (good, good_now) = link_at(8e6);
    now = now.max(good_now) + HOLD_UP;
    let can = affordable(&good, now, pixels, true, 60);
    let up = ladder.consider(now, can, false, false);
    assert!(up.is_some_and(|i| i < 3), "no step up: {up:?}");
    // ...then the link is what it was; after HOLD_DOWN it steps back.
    now += HOLD_DOWN;
    let can = affordable(&link, now, pixels, true, 60);
    ladder.consider(now, can, false, false);
    // The estimator window still holds the 8 Mbit max, so the down-step may
    // need the max filter to age out; drive fresh slow samples.
    let mut link2 = LinkEstimator::new();
    let mut t = now;
    let bytes = (2.5e6 / 8.0 / 20.0) as usize;
    for id in 100..140 {
        link2.on_sent(t, id, bytes, false);
        t += 400 * MS;
        link2.on_ack(t, id);
        if ladder.index() >= 3 {
            break;
        }
        let can = affordable(&link2, t, pixels, true, 60);
        ladder.consider(t, can, false, false);
    }
    assert!(ladder.index() >= 3, "did not step back down");
    assert!(ladder.hold_up > HOLD_UP, "hold_up did not double on a flap");
}

#[test]
fn a_tiny_fixed_cap_never_panics() {
    // A cap below the computed floor, at construction and across a
    // reconfigure to a large stream (where the floor rises).
    let mut ctl = RateController::new(bounds(640 * 360, 1, 30), 1, Some(50_000));
    assert!(ctl.target() > 0);
    ctl.reconfigure(bounds(3840 * 2160, 2, 60), 2);
    assert!(ctl.target() <= 50_000.max(ctl.min));
    let mut link = LinkEstimator::new();
    feed_ack(&mut ctl, 0, &mut link);
}

#[test]
fn no_track_jump_between_overuse_windows() {
    // Establish a high max, then collapse the link: while overuse windows
    // accumulate, the target must never jump back up toward the stale max
    // between the cuts.
    let mut sim = Sim::new(1920 * 1080, 2, 60);
    sim.run(4.0, 30, 20.0, 50e6);
    let high = sim.ctl.target();
    assert!(high > 10_000_000);
    let mut peak_after_first_cut = 0u32;
    let mut cut_seen = false;
    for id in (500_000..).take(40) {
        sim.ctl.note_blocked_at_cap();
        sim.link.on_sent(sim.now, id, 30_000, false);
        sim.now += 700 * MS;
        sim.link.on_ack(sim.now, id);
        let changed = feed_ack(&mut sim.ctl, sim.now, &mut sim.link);
        if matches!(changed, Some(Reason::Rtt | Reason::Rate)) {
            cut_seen = true;
        }
        if cut_seen {
            peak_after_first_cut = peak_after_first_cut.max(sim.ctl.target());
        }
    }
    assert!(cut_seen);
    assert!(
        peak_after_first_cut < high / 2,
        "target climbed back to {peak_after_first_cut} against a collapsed link"
    );
}

#[test]
fn growth_compounds_per_evaluation() {
    // After a cut on a link with headroom, the target must recover at roughly
    // 8%/s, not one step per hold.
    let mut sim = Sim::new(1920 * 1080, 2, 60);
    sim.run(8.0, 30, 20.0, 3e6);
    let low = sim.ctl.target() as f64;
    assert!(low < 6e6, "collapse phase left target at {low}");
    // The link opens up: 10 s of quiet must recover a large share of it.
    sim.run(10.0, 30, 20.0, 100e6);
    let recovered = sim.ctl.target() as f64;
    assert!(recovered > low * 1.5, "recovered only {low} -> {recovered} in 10 s of quiet");
}

#[test]
fn reconfigure_keeps_the_rate() {
    let mut ctl = RateController::new(bounds(1920 * 1080, 2, 60), 2, None);
    let before = ctl.target();
    ctl.reconfigure(bounds(1280 * 720, 1, 15), 1);
    assert_eq!(ctl.target(), before.clamp(ctl.min, ctl.effective_max()));
}

/// Frame intervals in a round trip.
fn intervals(rtt_ms: f64, fps: u32) -> i64 {
    (rtt_ms / (1000.0 / fps.max(1) as f64)).ceil() as i64
}

#[test]
fn queueing_does_not_widen_the_window() {
    // A base of 20 ms under a smoothed round trip of 400 ms.
    assert_eq!(ack_window(intervals(20.0, 60)), 3);
}

#[test]
fn session_ack_window_stays_in_bounds() {
    // With the default smoothed round trip the window is at least 2 and never
    // exceeds 8, for any frame rate.
    for fps in [1u32, 30, 60, 240] {
        let n = ack_window(intervals(30.0, fps));
        assert!((2..=8).contains(&n), "window {n} out of bounds at {fps} fps");
    }
}

#[test]
fn acks_count_every_frame_before_them() {
    let mut f = Flight::new();
    f.on_sent(0, 1, 1000, false, 1000 * MS);
    f.on_sent(MS, 2, 500, true, 1000 * MS);
    f.on_sent(2 * MS, 3, 200, false, 1000 * MS);
    assert_eq!(f.inflight, 1700);
    assert_eq!(f.on_ack(10 * MS, 77), None);
    let a = f.on_ack(11 * MS, 2).unwrap();
    assert_eq!((a.rtt, a.delivery), (10 * MS, None));
    assert_eq!((f.inflight, f.delivered), (200, 1500));
    f.on_sent(20 * MS, 4, 300, true, 1000 * MS);
    let a = f.on_ack(51 * MS, 4).unwrap();
    let d = a.delivery.unwrap();
    // Frames 3 and 4, over the time since the last ack before 4 left.
    assert_eq!((d.bytes, d.elapsed, d.app_limited), (500, 40 * MS, true));
    assert_eq!(f.base_rtt(), Some(10 * MS));
    assert_eq!(f.take_window_queueing(), Some(0));
    assert_eq!(f.take_window_queueing(), None);
    assert_eq!(f.delivered_frames(51 * MS), 2);
    assert_eq!(f.delivered_frames(12 * MS + FPS_WINDOW), 1);
}

#[test]
fn old_round_trips_leave_the_base() {
    let mut f = Flight::new();
    assert!(f.seed_rtt(0, 5 * MS));
    assert!(!f.seed_rtt(0, MS));
    f.on_sent(10_000 * MS, 1, 1, false, 0);
    f.on_ack(10_020 * MS, 1);
    assert_eq!(f.base_rtt(), Some(20 * MS));
}

#[test]
fn an_up_step_waits_for_the_hold() {
    let all = Affordable { level: [true; 7], down: [true; 7], up: [true; 7], real: true };
    let none = Affordable { level: [false; 7], down: [false; 7], up: [false; 7], real: true };
    let mut l = Ladder::new(0);
    assert_eq!(l.consider(0, Some(none), false, true), Some(LAST_LEVEL));
    assert_eq!(l.consider(HOLD_UP - 1, Some(all), false, false), None);
    assert_eq!(l.consider(HOLD_UP, Some(all), false, false), Some(0));
    // Without real evidence nothing steps down.
    let guess = Affordable { real: false, ..none };
    assert_eq!(l.consider(2 * HOLD_UP, Some(guess), false, true), None);
    assert_eq!(l.consider(2 * HOLD_UP, None, false, true), None);
    assert!(l.hold_up <= MAX_HOLD_UP);
    assert_eq!(Ladder::new(99).index(), LAST_LEVEL);
    assert_eq!((l.level().fps_cap, l.level().aux), (u32::MAX, true));
}

#[test]
fn the_buffer_window_follows_the_budget() {
    let mut ctl = RateController::new(bounds(1920 * 1080, 2, 60), 2, None);
    assert_eq!(ctl.target(), INITIAL_BPS);
    assert_eq!(ctl.stream_bitrate(), INITIAL_BPS / 2);
    assert_eq!(ctl.budget_per_frame(60), INITIAL_BPS / 120);
    assert_eq!(ctl.vbv_ms(60), 250);
    ctl.on_ack(0, Startup { doubled: None, delivered: 0, inflight: 0 }, MS);
    assert_eq!(ctl.vbv_ms(60), 100);
    assert_eq!(ctl.vbv_ms(1), 500);
}

#[test]
fn a_queue_cuts_the_frame_budget_to_what_arrives() {
    let mut c = BitrateController::new(1000, 40_000, 2, Some(1_000_000), 0);
    assert_eq!(c.current, 10_000);
    assert!(c.on_ack(300 * MS, 5000));
    let before = c.current;
    assert!(c.evaluate(300 * MS, Queueing::High, Some(6_000)));
    assert!(c.current < before);
    assert!(c.bitrate(60) <= 500_000);
}

#[test]
fn a_link_grows_back_slowly() {
    let mut c = LinkBitrate::new(8_000_000, 0);
    assert_eq!((c.min, c.current), (1_000_000, 8_000_000));
    assert!(c.is_due(600 * MS));
    let cut = c.evaluate(600 * MS, Queueing::High).unwrap();
    assert_eq!(cut, 6_000_000);
    assert_eq!(c.evaluate(1200 * MS, Queueing::Low), None);
    let grown = c.evaluate(3000 * MS, Queueing::Low).unwrap();
    assert_eq!(grown, 6_600_000);
}

#[test]
fn frames_wait_for_acks() {
    let mut w = FrameWindow::new();
    while w.has_room() {
        w.on_sent();
        w.on_written();
    }
    assert_eq!(w.in_flight, w.limit);
    w.on_ack(5);
    assert_eq!(w.limit, 5);
    assert!(w.has_room());
}

#[test]
fn a_target_at_its_ceiling_does_not_change() {
    let mut ctl = RateController::new(bounds(640 * 360, 1, 30), 1, Some(50_000));
    ctl.slow_start = false;
    ctl.started = Some(0);
    let top = ctl.effective_max();
    assert_eq!(ctl.target(), top);
    let window = |track: u32, grown: u32| {
        Some(Window { queueing: false, rate_fell: false, cut: None, track: Some(track), grown, grow_after: 0 })
    };
    assert_eq!(ctl.evaluate(MS, window(10 * top, 2 * top)), None);
    assert_eq!((ctl.target(), ctl.last_change), (top, None));
    ctl.target = top - 10;
    assert_eq!(ctl.evaluate(MS, window(10 * top, 0)), Some(Reason::Track));
    assert_eq!((ctl.target(), ctl.last_change), (top, Some(MS)));
    ctl.target = top - 10;
    assert_eq!(ctl.evaluate(2 * MS, window(0, top)), Some(Reason::Grow));
    assert_eq!(ctl.last_change, Some(MS));
}

#[test]
fn sound_estimates_order_their_multiples() {
    let all = [true; 7];
    let none = [false; 7];
    assert!(Affordable { level: all, down: all, up: none, real: true }.is_sound());
    assert!(!Affordable { level: none, down: none, up: all, real: true }.is_sound());
    assert!(!Affordable { level: all, down: none, up: none, real: true }.is_sound());
}

#[test]
fn later_frames_stay_in_flight() {
    let mut f = Flight::new();
    for id in 0..4 {
        f.on_sent(0, id, 10 + id, false, 0);
    }
    assert_eq!(f.on_ack(MS, 9), None);
    assert_eq!(f.inflight, 46);
    assert!(f.on_ack(MS, 1).is_some());
    assert_eq!((f.inflight, f.delivered), (25, 21));
    assert!(f.on_ack(MS, 1).is_none());
}
