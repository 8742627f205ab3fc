//! The quality levels, and moves between them.

use vstd::prelude::*;

verus! {

/// How long ago `t` is; nothing where it lies ahead.
pub open spec fn ago(now: u64, t: u64) -> u64 {
    if now >= t {
        (now - t) as u64
    } else {
        0
    }
}

pub(crate) fn since(now: u64, t: u64) -> (d: u64)
    ensures
        d == ago(now, t),
{
    if now >= t {
        now - t
    } else {
        0
    }
}

/// One quality level: what the stream gives up when the link cannot pay
/// for full quality.
#[derive(Debug, Clone, Copy, PartialEq, Eq, Structural)]
pub struct Level {
    /// Frame-rate ceiling; `u32::MAX` means the session maximum.
    pub fps_cap: u32,
    /// Keep the auxiliary chroma stream (Dual420) when the client has it.
    pub aux: bool,
    /// Stream resolution as a share of the full-quality fit size, in percent.
    pub scale_percent: u32,
}

/// The frame-rate ceilings of the levels, best level first.
pub const FPS_CAPS: [u32; 7] = [0xffff_ffff, 30, 15, 15, 10, 10, 5];

/// Whether a level keeps the auxiliary stream.
pub const KEEPS_AUX: [bool; 7] = [true, true, true, false, false, false, false];

/// The resolution of each level, in percent.
pub const SCALES: [u32; 7] = [100, 100, 100, 100, 100, 50, 50];

/// The levels. Frame rate degrades first, because the pointer is local and a
/// sharp still picture matters more on a desktop than motion; then the chroma
/// detail (Dual420 -> Single420 costs only coloured fringes); resolution
/// last, because it is the most visible loss on text. The fps floors are
/// policy: never below 15 before chroma is given up, never below 10 before
/// resolution, 5 is the absolute floor.
pub open spec fn level_of(index: int) -> Level {
    Level { fps_cap: FPS_CAPS@[index], aux: KEEPS_AUX@[index], scale_percent: SCALES@[index] }
}

/// The level with this index.
pub fn level_at(index: usize) -> (l: Level)
    requires
        index <= LAST_LEVEL,
    ensures
        l == level_of(index as int),
{
    Level { fps_cap: FPS_CAPS[index], aux: KEEPS_AUX[index], scale_percent: SCALES[index] }
}

/// No level gives up chroma at less than 15 frames a second, nor resolution
/// at less than 10, and none runs below 5.
pub proof fn law_levels_keep_the_floors(index: int)
    requires
        0 <= index <= LAST_LEVEL,
    ensures
        level_of(index).fps_cap >= 5,
        level_of(index).aux ==> level_of(index).fps_cap >= 15,
        level_of(index).scale_percent == 100 ==> level_of(index).fps_cap >= 10,
        index < LAST_LEVEL ==> level_of(index + 1).fps_cap <= level_of(index).fps_cap,
{
}

/// Index of the last level.
pub const LAST_LEVEL: usize = 6;

/// Time a lower level is called for before it is taken.
pub const HOLD_DOWN: u64 = 2_000_000_000;

/// Time a level is kept before a higher one is tried.
pub const HOLD_UP: u64 = 4_000_000_000;

pub const MAX_HOLD_UP: u64 = 300_000_000_000;

/// Which levels the measured rate can pay for, at three floors: the floor
/// itself, 0.9 times it for moves down and 1.25 times it for moves up.
#[derive(Debug, Clone, Copy)]
pub struct Affordable {
    pub level: [bool; 7],
    pub down: [bool; 7],
    pub up: [bool; 7],
    /// The rate rests on samples the sender was not app-limited on: a static
    /// screen's refinement trickle must not read as a slow link.
    pub real: bool,
}

impl Affordable {
    /// A level that pays for a floor pays for a lower one.
    pub open spec fn wf(self) -> bool {
        &&& forall|k: int| 0 <= k < 7 && #[trigger] self.up@[k] ==> self.level@[k]
        &&& forall|k: int| 0 <= k < 7 && #[trigger] self.level@[k] ==> self.down@[k]
    }

    /// Whether the three tables go together: see [`Affordable::wf`].
    pub fn is_sound(&self) -> (yes: bool)
        ensures
            yes == self.wf(),
    {
        let (up, level, down) = (&self.up, &self.level, &self.down);
        for k in 0..7usize
            invariant
                up@ == self.up@,
                level@ == self.level@,
                down@ == self.down@,
                forall|i: int| 0 <= i < k && #[trigger] self.up@[i] ==> self.level@[i],
                forall|i: int| 0 <= i < k && #[trigger] self.level@[i] ==> self.down@[i],
        {
            if (up[k] && !level[k]) || (level[k] && !down[k]) {
                return false;
            }
        }
        true
    }
}

/// Whether what is known of the link is sound, where anything is.
pub open spec fn link_wf(link: Option<Affordable>) -> bool {
    link matches Some(a) ==> a.wf()
}

/// The best level from `i` on that is affordable; the last one when none is.
pub open spec fn best_from(can: Seq<bool>, i: int) -> int
    decreases can.len() - i,
{
    if !(0 <= i < can.len()) {
        LAST_LEVEL as int
    } else if can[i] {
        i
    } else {
        best_from(can, i + 1)
    }
}

pub open spec fn best(can: Seq<bool>) -> int {
    best_from(can, 0)
}

/// The level of one stream: how many streams there are, and at which frame
/// rate. A level that would drop the auxiliary stream still pays for two
/// when the client cannot decode a single one.
pub fn streams_at(dual: bool, can_drop_aux: bool, level: &Level) -> (n: u32)
    ensures
        n == if dual && (level.aux || !can_drop_aux) {
            2u32
        } else {
            1u32
        },
{
    if dual && (level.aux || !can_drop_aux) {
        2
    } else {
        1
    }
}

/// The frame rate a level runs at: its ceiling, the session's, at least one.
pub fn fps_at(max_fps: u32, level: &Level) -> (fps: u32)
    ensures
        fps == if level.fps_cap <= max_fps {
            if level.fps_cap >= 1 {
                level.fps_cap
            } else {
                1
            }
        } else if max_fps >= 1 {
            max_fps
        } else {
            1
        },
{
    let fps: u32 = if level.fps_cap <= max_fps {
        level.fps_cap
    } else {
        max_fps
    };
    if fps >= 1 {
        fps
    } else {
        1
    }
}

/// Picks the quality level the measured rate can pay for, with hysteresis:
/// step down after a short hold, step up only after `hold_up`, which
/// doubles when an up-step flaps back down. During slow start, upward
/// moves use the first measured capacity while downward moves wait for
/// confirmed congestion.
#[derive(Debug, Clone, Copy, PartialEq, Eq, Structural)]
pub struct Ladder {
    pub index: usize,
    pub hold_up: u64,
    pub below_since: Option<u64>,
    pub last_change: Option<u64>,
    pub last_step_up: Option<u64>,
}

impl Ladder {
    pub open spec fn wf(self) -> bool {
        self.index <= LAST_LEVEL && HOLD_UP <= self.hold_up <= MAX_HOLD_UP
    }

    pub open spec fn moved(self, now: u64, index: int) -> Ladder {
        Ladder { index: index as usize, last_change: Some(now), below_since: None, ..self }
    }

    /// A level below is called for.
    pub open spec fn lowered(self, now: u64, congested: bool, index: int) -> (Ladder, Option<usize>) {
        let since = match self.below_since {
            Some(t) => t,
            None => now,
        };
        if congested || ago(now, since) >= HOLD_DOWN {
            let flapped = self.last_step_up matches Some(t) && ago(now, t) <= 2 * self.hold_up;
            let hold = if !flapped {
                self.hold_up
            } else if 2 * self.hold_up <= MAX_HOLD_UP {
                (2 * self.hold_up) as u64
            } else {
                MAX_HOLD_UP
            };
            (Ladder { hold_up: hold, ..self }.moved(now, index), Some(index as usize))
        } else {
            (Ladder { below_since: Some(since), ..self }, None)
        }
    }

    /// A level above is affordable: it takes headroom and a full hold.
    pub open spec fn raised(self, now: u64, index: int) -> (Ladder, Option<usize>) {
        let held = self.last_change matches Some(t) ==> ago(now, t) >= self.hold_up;
        if index < self.index && held {
            (Ladder { last_step_up: Some(now), ..self }.moved(now, index), Some(index as usize))
        } else {
            (Ladder { below_since: None, ..self }, None)
        }
    }

    /// What considering a move comes to.
    pub open spec fn considered(
        self,
        now: u64,
        link: Option<Affordable>,
        slow_start: bool,
        congested: bool,
    ) -> (Ladder, Option<usize>) {
        match link {
            None => (self, None),
            Some(a) => {
                let sel = best(a.level@);
                let down = best(a.down@);
                if slow_start {
                    if sel < self.index || (down > self.index && a.real && congested) {
                        (self.moved(now, sel), Some(sel as usize))
                    } else {
                        (self, None)
                    }
                } else if sel < self.index {
                    self.raised(now, best(a.up@))
                } else if down > self.index && a.real {
                    self.lowered(now, congested, sel)
                } else {
                    (Ladder { below_since: None, ..self }, None)
                }
            },
        }
    }

    pub fn new(start: usize) -> (l: Ladder)
        ensures
            l == (Ladder {
                index: if start <= LAST_LEVEL {
                    start
                } else {
                    LAST_LEVEL
                },
                hold_up: HOLD_UP,
                below_since: None,
                last_change: None,
                last_step_up: None,
            }),
            l.wf(),
    {
        Ladder {
            index: if start <= LAST_LEVEL {
                start
            } else {
                LAST_LEVEL
            },
            hold_up: HOLD_UP,
            below_since: None,
            last_change: None,
            last_step_up: None,
        }
    }

    pub fn level(&self) -> (l: Level)
        requires
            self.wf(),
        ensures
            l == level_of(self.index as int),
    {
        level_at(self.index)
    }

    pub fn index(&self) -> (i: usize)
        ensures
            i == self.index,
    {
        self.index
    }

    /// The best level that is affordable; the last one when none is.
    pub fn select(can: &[bool; 7]) -> (i: usize)
        ensures
            i == best(can@),
            i <= LAST_LEVEL,
            forall|k: int| 0 <= k < i ==> !can@[k],
            can@[i as int] || i == LAST_LEVEL,
    {
        let mut i: usize = 0;
        while i < LAST_LEVEL && !can[i]
            invariant
                i <= LAST_LEVEL,
                can@.len() == 7,
                best(can@) == best_from(can@, i as int),
                forall|k: int| 0 <= k < i ==> !can@[k],
            decreases LAST_LEVEL - i,
        {
            i = i + 1;
        }
        proof {
            reveal_with_fuel(best_from, 2);
        }
        i
    }

    /// Consider a move. Returns the new index when the level changed; with
    /// no rate measured there is none.
    pub fn consider(&mut self, now: u64, link: Option<Affordable>, slow_start: bool, congested: bool) -> (moved:
        Option<usize>)
        requires
            old(self).wf(),
            link_wf(link),
        ensures
            (*final(self), moved) == old(self).considered(now, link, slow_start, congested),
            final(self).wf(),
            moved is Some <==> final(self).index != old(self).index,
            moved matches Some(i) ==> i == final(self).index,
    {
        proof {
            law_moves_change_the_level(*self, now, link, slow_start, congested);
        }
        let a: Affordable = match link {
            Some(a) => a,
            None => return None,
        };
        let sel: usize = Self::select(&a.level);
        let down: usize = Self::select(&a.down);
        if slow_start {
            if sel < self.index || (down > self.index && a.real && congested) {
                self.move_to(now, sel);
                return Some(sel);
            }
            return None;
        }
        if sel < self.index {
            self.below_since = None;
            // Step up needs headroom (1.25x the floor) and a full hold.
            let up: usize = Self::select(&a.up);
            let held: bool = match self.last_change {
                Some(t) => since(now, t) >= self.hold_up,
                None => true,
            };
            if up < self.index && held {
                self.last_step_up = Some(now);
                self.move_to(now, up);
                return Some(up);
            }
        } else if down > self.index && a.real {
            let from: u64 = match self.below_since {
                Some(t) => t,
                None => now,
            };
            self.below_since = Some(from);
            if congested || since(now, from) >= HOLD_DOWN {
                // An up-step that flaps straight back down halves how often
                // the link gets probed upward again.
                let flapped: bool = match self.last_step_up {
                    Some(t) => since(now, t) <= 2 * self.hold_up,
                    None => false,
                };
                if flapped {
                    self.hold_up = if 2 * self.hold_up <= MAX_HOLD_UP {
                        2 * self.hold_up
                    } else {
                        MAX_HOLD_UP
                    };
                }
                self.move_to(now, sel);
                return Some(sel);
            }
        } else {
            self.below_since = None;
        }
        None
    }

    fn move_to(&mut self, now: u64, index: usize)
        ensures
            *final(self) == old(self).moved(now, index as int),
    {
        self.index = index;
        self.last_change = Some(now);
        self.below_since = None;
    }
}

/// Outside slow start a step up comes no sooner than a full hold after the
/// last change, and only into a level with headroom.
pub proof fn law_steps_up_are_held(l: Ladder, now: u64, link: Option<Affordable>, congested: bool)
    requires
        l.wf(),
    ensures
        l.considered(now, link, false, congested).1 matches Some(i) ==> i < l.index ==> {
            &&& l.last_change matches Some(t) ==> ago(now, t) >= l.hold_up
            &&& link matches Some(a) && i == best(a.up@)
        },
{
    if let Some(a) = link {
        lemma_best_bound(a.level@, 0);
        lemma_best_bound(a.up@, 0);
    }
}

proof fn lemma_best_bound(can: Seq<bool>, i: int)
    requires
        can.len() == 7,
        0 <= i,
    ensures
        0 <= best_from(can, i) <= LAST_LEVEL,
    decreases 7 - i,
{
    if i < 7 && !can[i] {
        lemma_best_bound(can, i + 1);
    }
}

proof fn lemma_best_order(more: Seq<bool>, less: Seq<bool>, i: int)
    requires
        more.len() == 7,
        less.len() == 7,
        0 <= i,
        forall|k: int| 0 <= k < 7 && #[trigger] less[k] ==> more[k],
    ensures
        best_from(more, i) <= best_from(less, i),
    decreases 7 - i,
{
    if i < 7 {
        lemma_best_order(more, less, i + 1);
        lemma_best_bound(less, i);
        if more[i] && !less[i] {
            lemma_best_from(less, i);
        }
    }
}

proof fn lemma_best_from(can: Seq<bool>, i: int)
    requires
        can.len() == 7,
        0 <= i < 7,
    ensures
        i <= best_from(can, i),
    decreases 7 - i,
{
    reveal_with_fuel(best_from, 2);
    if !can[i] && i < 6 {
        lemma_best_from(can, i + 1);
    }
}

/// A move is reported exactly where the level changes, and tells the new one.
/// Without a measured rate there is none, and in slow start none down unless
/// congestion was seen.
pub proof fn law_moves_change_the_level(
    l: Ladder,
    now: u64,
    link: Option<Affordable>,
    slow_start: bool,
    congested: bool,
)
    requires
        l.wf(),
        link_wf(link),
    ensures
        ({
            let (after, moved) = l.considered(now, link, slow_start, congested);
            &&& after.wf()
            &&& moved is Some <==> after.index != l.index
            &&& moved matches Some(i) ==> i == after.index
            &&& link is None ==> moved is None
            &&& slow_start && !congested ==> after.index <= l.index
        }),
{
    if let Some(a) = link {
        lemma_best_bound(a.level@, 0);
        lemma_best_bound(a.down@, 0);
        lemma_best_bound(a.up@, 0);
        lemma_best_order(a.down@, a.level@, 0);
        lemma_best_order(a.level@, a.up@, 0);
    }
}

/// A step down never rests on app-limited samples alone.
pub proof fn law_steps_down_need_real_evidence(
    l: Ladder,
    now: u64,
    link: Option<Affordable>,
    slow_start: bool,
    congested: bool,
)
    requires
        l.wf(),
    ensures
        l.considered(now, link, slow_start, congested).1 matches Some(i) ==> i > l.index ==> (link matches Some(a)
            && a.real),
{
    if let Some(a) = link {
        lemma_best_bound(a.level@, 0);
        lemma_best_bound(a.up@, 0);
    }
}

/// A step up that flaps straight back down doubles the hold for the next,
/// up to its limit.
pub proof fn law_flaps_double_the_hold(l: Ladder, now: u64, t: u64, link: Option<Affordable>, congested: bool)
    requires
        l.wf(),
        l.last_step_up == Some(t),
        ago(now, t) <= 2 * l.hold_up,
        l.considered(now, link, false, congested).1 matches Some(i) && i > l.index,
    ensures
        l.considered(now, link, false, congested).0.hold_up == if 2 * l.hold_up <= MAX_HOLD_UP {
            2 * l.hold_up
        } else {
            MAX_HOLD_UP as int
        },
{
    if let Some(a) = link {
        lemma_best_bound(a.level@, 0);
        lemma_best_bound(a.up@, 0);
    }
}

/// Time since a moment, and none for one that is still to come.
pub proof fn law_time_since(now: u64, t: u64)
    ensures
        t <= now ==> t + ago(now, t) == now,
        t > now ==> ago(now, t) == 0,
{
}

/// The levels, best first: frames per second are given up first, then the
/// second stream, then the size.
pub proof fn law_levels_give_up_in_order(i: int)
    requires
        0 <= i < 7,
    ensures
        level_of(i).fps_cap == seq![u32::MAX, 30u32, 15, 15, 10, 10, 5][i],
        level_of(i).aux == (i < 3),
        level_of(i).scale_percent == (if i < 5 {
            100
        } else {
            50int
        }),
{
    assert(i == 0 || i == 1 || i == 2 || i == 3 || i == 4 || i == 5 || i == 6);
}

/// Whether `i` is the first level that is affordable, or the last one where
/// none is.
pub open spec fn is_first(can: Seq<bool>, i: int) -> bool {
    &&& 0 <= i < 7
    &&& can[i] || i == 6
    &&& forall|k: int| 0 <= k < i ==> !#[trigger] can[k]
}

proof fn lemma_best_is(can: Seq<bool>, i: int, k: int)
    requires
        can.len() == 7,
        0 <= k <= i,
        is_first(can, i),
    ensures
        best_from(can, k) == i,
    decreases i - k,
{
    if k < i {
        assert(!can[k]);
        lemma_best_is(can, i, k + 1);
    } else if i == 6 && !can[6] {
        assert(best_from(can, 7) == 6);
    }
}

/// In slow start the ladder goes straight to the best level that the link
/// pays for, upwards at once, and downwards where the link was congested and
/// its rate is real; otherwise it stays.
pub proof fn law_slow_start_picks_the_level(
    l: Ladder,
    now: u64,
    a: Affordable,
    congested: bool,
    level: int,
    down: int,
)
    requires
        l.wf(),
        is_first(a.level@, level),
        is_first(a.down@, down),
    ensures
        ({
            let (after, moved) = l.considered(now, Some(a), true, congested);
            &&& level < l.index ==> after.index == level && moved == Some(level as usize)
            &&& down > l.index && a.real && congested ==> after.index == level && moved == Some(level as usize)
            &&& level >= l.index && !(down > l.index && a.real && congested) ==> after == l && moved is None
            &&& moved is Some ==> after.last_change == Some(now)
            &&& after.hold_up == l.hold_up
        }),
{
    lemma_best_is(a.level@, level, 0);
    lemma_best_is(a.down@, down, 0);
}

/// Past slow start the ladder climbs to the best level that has headroom,
/// once its hold is over, and descends to the level that the link pays for
/// when congestion was seen or the link has been short of the present one for
/// two seconds, on real evidence only. In between it stays where it is, and
/// remembers since when the link has been short.
pub proof fn law_the_ladder_follows_the_link(
    l: Ladder,
    now: u64,
    a: Affordable,
    congested: bool,
    level: int,
    down: int,
    up: int,
)
    requires
        l.wf(),
        is_first(a.level@, level),
        is_first(a.down@, down),
        is_first(a.up@, up),
    ensures
        ({
            let (after, moved) = l.considered(now, Some(a), false, congested);
            let held = l.last_change matches Some(t) ==> t <= now && now - t >= l.hold_up;
            let began = match l.below_since {
                Some(t) => t,
                None => now,
            };
            let long = began <= now && now - began >= 2_000_000_000;
            let climbs = level < l.index;
            let drops = level >= l.index && down > l.index && a.real;
            &&& climbs && up < l.index && held ==> after.index == up && after.last_step_up == Some(now)
                && after.last_change == Some(now) && moved == Some(up as usize)
            &&& climbs && !(up < l.index && held) ==> after.index == l.index && after.below_since is None
                && after.last_change == l.last_change
            &&& drops && (congested || long) ==> after.index == level && after.last_change == Some(now)
                && after.below_since is None && moved == Some(level as usize)
            &&& drops && !congested && !long ==> after.index == l.index && after.below_since == Some(began)
            &&& !climbs && !drops ==> after.index == l.index && after.below_since is None && moved is None
            &&& !drops ==> after.hold_up == l.hold_up
        }),
{
    lemma_best_is(a.level@, level, 0);
    lemma_best_is(a.down@, down, 0);
    lemma_best_is(a.up@, up, 0);
}

} // verus!
