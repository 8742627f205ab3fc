//! What is under way, and what came back: frames in flight, and the round
//! trips and deliveries that their acks show. Times are in nanoseconds.

use crate::rate::ladder::{ago, since};
use vstd::prelude::*;

verus! {

/// A frame in flight, with the delivery snapshot taken when it was sent
/// (BBR-style delivery-rate sampling).
#[derive(Debug, Clone, Copy, PartialEq, Eq, Structural)]
pub struct SentFrame {
    pub frame_id: u64,
    pub bytes: u64,
    pub sent_at: u64,
    /// The sender was not using all the capacity it had (pace-bound, a
    /// static screen, or a refinement pass): the sample may only raise the
    /// rate estimate, never lower it.
    pub app_limited: bool,
    pub delivered_at_send: u64,
    pub delivered_time_at_send: Option<u64>,
}

/// Bytes that were delivered over a time.
#[derive(Debug, Clone, Copy, PartialEq, Eq, Structural)]
pub struct Delivery {
    pub bytes: u64,
    pub elapsed: u64,
    pub app_limited: bool,
}

/// What an ack shows.
#[derive(Debug, Clone, Copy, PartialEq, Eq, Structural)]
pub struct Acked {
    pub rtt: u64,
    pub delivery: Option<Delivery>,
}

/// A round trip, and when it was measured.
#[derive(Debug, Clone, Copy, PartialEq, Eq, Structural)]
pub struct Trip {
    pub at: u64,
    pub rtt: u64,
}

/// The base round trip window: long enough to ride out loss-recovery stalls,
/// short enough to relearn a changed path.
pub const BASE_WINDOW: u64 = 10_000_000_000;

/// Delivered-fps window.
pub const FPS_WINDOW: u64 = 2_000_000_000;

/// Measures what the link delivers: round trips, bytes in flight, and bytes
/// delivered.
#[derive(Debug, Clone)]
pub struct Flight {
    pub sent: Vec<SentFrame>,
    /// Cumulative acked bytes and the time of the last ack.
    pub delivered: u64,
    pub delivered_time: Option<u64>,
    pub inflight: u64,
    /// Round trips for the sliding base window.
    pub trips: Vec<Trip>,
    /// A round trip was measured or seeded.
    pub measured: bool,
    /// Smallest round trip since the last look.
    pub window_min: Option<u64>,
    /// Ack times for the delivered-fps estimate.
    pub acks: Vec<u64>,
}

/// The contents of a [`Flight`].
#[verifier::ext_equal]
pub struct FlightView {
    pub sent: Seq<SentFrame>,
    pub delivered: u64,
    pub delivered_time: Option<u64>,
    pub inflight: u64,
    pub trips: Seq<Trip>,
    pub measured: bool,
    pub window_min: Option<u64>,
    pub acks: Seq<u64>,
}

/// The bytes of frames together.
pub open spec fn bytes_of(frames: Seq<SentFrame>) -> nat
    decreases frames.len(),
{
    if frames.len() == 0 {
        0
    } else {
        bytes_of(frames.drop_last()) + frames.last().bytes as nat
    }
}

/// The place of a frame from `i` on; their number where it is not there.
pub open spec fn place_of(frames: Seq<SentFrame>, id: u64, i: int) -> int
    decreases frames.len() - i,
{
    if !(0 <= i < frames.len()) {
        frames.len() as int
    } else if frames[i].frame_id == id {
        i
    } else {
        place_of(frames, id, i + 1)
    }
}

/// The trips of the window that ends now.
pub open spec fn recent_trips(trips: Seq<Trip>, now: u64) -> Seq<Trip>
    decreases trips.len(),
{
    if trips.len() > 0 && ago(now, trips[0].at) > BASE_WINDOW {
        recent_trips(trips.skip(1), now)
    } else {
        trips
    }
}

/// The ack times of the window that ends now.
pub open spec fn recent_acks(acks: Seq<u64>, now: u64) -> Seq<u64>
    decreases acks.len(),
{
    if acks.len() > 0 && ago(now, acks[0]) > FPS_WINDOW {
        recent_acks(acks.skip(1), now)
    } else {
        acks
    }
}

/// The shortest of trips.
pub open spec fn shortest(trips: Seq<Trip>) -> Option<u64>
    decreases trips.len(),
{
    if trips.len() == 0 {
        None
    } else {
        match shortest(trips.drop_last()) {
            Some(m) => if m <= trips.last().rtt {
                Some(m)
            } else {
                Some(trips.last().rtt)
            },
            None => Some(trips.last().rtt),
        }
    }
}

/// The smaller of a number and one that may be there.
pub open spec fn smaller(m: Option<u64>, v: u64) -> u64 {
    match m {
        Some(x) => if x <= v {
            x
        } else {
            v
        },
        None => v,
    }
}

impl FlightView {
    /// What is in flight is counted, and no more was delivered when a frame
    /// was sent than is now.
    pub open spec fn wf(self) -> bool {
        &&& self.inflight == bytes_of(self.sent)
        &&& self.delivered + self.inflight <= u64::MAX
        &&& forall|i: int|
            0 <= i < self.sent.len() ==> (#[trigger] self.sent[i]).delivered_at_send <= self.delivered
    }

    /// After a round trip was measured.
    pub open spec fn with_trip(self, now: u64, rtt: u64) -> FlightView {
        FlightView {
            trips: recent_trips(self.trips.push(Trip { at: now, rtt }), now),
            measured: true,
            window_min: Some(smaller(self.window_min, rtt)),
            ..self
        }
    }

    /// After a frame was sent. A delivery that is too long ago is no start
    /// for a sample.
    pub open spec fn with_sent(
        self,
        now: u64,
        frame_id: u64,
        bytes: u64,
        app_limited: bool,
        rate_window: u64,
    ) -> FlightView {
        FlightView {
            sent: self.sent.push(
                SentFrame {
                    frame_id,
                    bytes,
                    sent_at: now,
                    app_limited,
                    delivered_at_send: self.delivered,
                    delivered_time_at_send: match self.delivered_time {
                        Some(t) => if ago(now, t) <= rate_window {
                            Some(t)
                        } else {
                            None
                        },
                        None => None,
                    },
                },
            ),
            inflight: (self.inflight + bytes) as u64,
            ..self
        }
    }

    /// What the ack of the frame at `k` shows: bytes newly delivered since
    /// this frame left, over the larger of the send and ack intervals, so
    /// neither a burst of acks after a stall nor a long-idle first frame
    /// overstates it.
    pub open spec fn shown(self, now: u64, k: int) -> Acked {
        let f = self.sent[k];
        let rtt = ago(now, f.sent_at);
        let delivered = self.delivered + bytes_of(self.sent.take(k + 1));
        Acked {
            rtt,
            delivery: match f.delivered_time_at_send {
                Some(t) => {
                    let elapsed = if ago(now, t) >= rtt {
                        ago(now, t)
                    } else {
                        rtt
                    };
                    if elapsed > 0 {
                        Some(
                            Delivery {
                                bytes: (delivered - f.delivered_at_send) as u64,
                                elapsed,
                                app_limited: f.app_limited,
                            },
                        )
                    } else {
                        None
                    }
                },
                None => None,
            },
        }
    }

    /// After the ack of the frame at `k`: earlier unacked frames count as
    /// delivered too.
    pub open spec fn with_ack(self, now: u64, k: int) -> FlightView {
        let gone = bytes_of(self.sent.take(k + 1));
        let v = FlightView {
            sent: self.sent.skip(k + 1),
            delivered: (self.delivered + gone) as u64,
            delivered_time: Some(now),
            inflight: (self.inflight - gone) as u64,
            ..self
        };
        let w = v.with_trip(now, ago(now, self.sent[k].sent_at));
        FlightView { acks: recent_acks(w.acks.push(now), now), ..w }
    }
}

proof fn lemma_place_of(frames: Seq<SentFrame>, id: u64, i: int)
    requires
        0 <= i <= frames.len(),
    ensures
        i <= place_of(frames, id, i) <= frames.len(),
        place_of(frames, id, i) < frames.len() ==> frames[place_of(frames, id, i)].frame_id == id,
        forall|j: int| i <= j < place_of(frames, id, i) ==> (#[trigger] frames[j]).frame_id != id,
    decreases frames.len() - i,
{
    if i < frames.len() && frames[i].frame_id != id {
        lemma_place_of(frames, id, i + 1);
    }
}

proof fn lemma_bytes_split(frames: Seq<SentFrame>, k: int)
    requires
        0 <= k <= frames.len(),
    ensures
        bytes_of(frames) == bytes_of(frames.take(k)) + bytes_of(frames.skip(k)),
    decreases frames.len() - k,
{
    if k == frames.len() {
        assert(frames.take(k) =~= frames);
        assert(frames.skip(k) =~= Seq::empty());
    } else {
        lemma_bytes_split(frames.drop_last(), k);
        assert(frames.drop_last().take(k) =~= frames.take(k));
        assert(frames.drop_last().skip(k) =~= frames.skip(k).drop_last());
        assert(frames.skip(k).last() == frames.last());
    }
}

impl View for Flight {
    type V = FlightView;

    open spec fn view(&self) -> FlightView {
        FlightView {
            sent: self.sent@,
            delivered: self.delivered,
            delivered_time: self.delivered_time,
            inflight: self.inflight,
            trips: self.trips@,
            measured: self.measured,
            window_min: self.window_min,
            acks: self.acks@,
        }
    }
}

impl Flight {
    pub fn new() -> (f: Flight)
        ensures
            f@.wf(),
            f@ == (FlightView {
                sent: Seq::empty(),
                delivered: 0,
                delivered_time: None,
                inflight: 0,
                trips: Seq::empty(),
                measured: false,
                window_min: None,
                acks: Seq::empty(),
            }),
    {
        Flight {
            sent: Vec::new(),
            delivered: 0,
            delivered_time: None,
            inflight: 0,
            trips: Vec::new(),
            measured: false,
            window_min: None,
            acks: Vec::new(),
        }
    }

    /// A frame was sent.
    pub fn on_sent(&mut self, now: u64, frame_id: u64, bytes: u64, app_limited: bool, rate_window: u64)
        requires
            old(self)@.wf(),
            old(self)@.delivered + old(self)@.inflight + bytes <= u64::MAX,
        ensures
            final(self)@.wf(),
            final(self)@ == old(self)@.with_sent(now, frame_id, bytes, app_limited, rate_window),
    {
        let delivered_time_at_send: Option<u64> = match self.delivered_time {
            Some(t) => if since(now, t) <= rate_window {
                Some(t)
            } else {
                None
            },
            None => None,
        };
        let frame: SentFrame = SentFrame {
            frame_id,
            bytes,
            sent_at: now,
            app_limited,
            delivered_at_send: self.delivered,
            delivered_time_at_send,
        };
        self.sent.push(frame);
        self.inflight = self.inflight + bytes;
        proof {
            assert(self.sent@.drop_last() =~= old(self).sent@);
        }
    }

    fn find(&self, id: u64) -> (k: usize)
        ensures
            k == place_of(self.sent@, id, 0),
            k <= self.sent@.len(),
    {
        let n: usize = self.sent.len();
        for i in 0..n
            invariant
                n == self.sent@.len(),
                place_of(self.sent@, id, 0) == place_of(self.sent@, id, i as int),
        {
            if self.sent[i].frame_id == id {
                return i;
            }
        }
        n
    }

    fn record_trip(&mut self, now: u64, rtt: u64)
        ensures
            final(self)@ == old(self)@.with_trip(now, rtt),
    {
        self.trips.push(Trip { at: now, rtt });
        let ghost all = self.trips@;
        while self.trips.len() > 0 && since(now, self.trips[0].at) > BASE_WINDOW
            invariant
                recent_trips(self.trips@, now) == recent_trips(all, now),
                all == old(self).trips@.push(Trip { at: now, rtt }),
                self@ == (FlightView { trips: self.trips@, ..old(self)@ }),
            decreases self.trips@.len(),
        {
            let ghost before = self.trips@;
            self.trips.remove(0);
            proof {
                assert(self.trips@ =~= before.skip(1));
            }
        }
        self.measured = true;
        self.window_min = match self.window_min {
            Some(m) => if m <= rtt {
                Some(m)
            } else {
                Some(rtt)
            },
            None => Some(rtt),
        };
    }

    /// Record one ack. Pairs by frame id; earlier unacked frames count as
    /// delivered too — cumulative semantics that hold only on an ordered
    /// transport. An ack for an unknown frame shows nothing.
    pub fn on_ack(&mut self, now: u64, frame_id: u64) -> (a: Option<Acked>)
        requires
            old(self)@.wf(),
        ensures
            final(self)@.wf(),
            ({
                let k = place_of(old(self)@.sent, frame_id, 0);
                if k < old(self)@.sent.len() {
                    &&& a == Some(old(self)@.shown(now, k))
                    &&& final(self)@ == old(self)@.with_ack(now, k)
                } else {
                    &&& a is None
                    &&& final(self)@ == old(self)@
                }
            }),
    {
        let k: usize = self.find(frame_id);
        if k >= self.sent.len() {
            return None;
        }
        let frame: SentFrame = self.sent[k];
        let ghost all = self.sent@;
        proof {
            lemma_bytes_split(all, k + 1);
            assert(all.take(0) =~= Seq::empty());
        }
        let mut gone: u64 = 0;
        for i in 0..k + 1
            invariant
                k < all.len(),
                all == self.sent@,
                *self == *old(self),
                gone == bytes_of(all.take(i as int)),
                bytes_of(all.take(k + 1)) <= self.inflight,
        {
            proof {
                lemma_bytes_split(all.take(k + 1), i + 1);
                assert(all.take(k + 1).take(i + 1) =~= all.take(i + 1));
                assert(all.take(i + 1).drop_last() =~= all.take(i as int));
                assert(all.take(i + 1).last() == all[i as int]);
            }
            gone = gone + self.sent[i].bytes;
        }
        let rest: Vec<SentFrame> = self.sent.split_off(k + 1);
        self.sent = rest;
        proof {
            assert(self.sent@ =~= all.skip(k + 1));
            assert forall|i: int| 0 <= i < self.sent@.len() implies (#[trigger] self.sent@[i]).delivered_at_send
                <= old(self).delivered by {
                assert(self.sent@[i] == all[i + k + 1]);
            }
            assert(all[k as int].delivered_at_send <= old(self).delivered);
        }
        self.inflight = self.inflight - gone;
        self.delivered = self.delivered + gone;
        self.delivered_time = Some(now);
        let rtt: u64 = since(now, frame.sent_at);
        self.record_trip(now, rtt);
        let delivery: Option<Delivery> = match frame.delivered_time_at_send {
            Some(t) => {
                let span: u64 = since(now, t);
                let elapsed: u64 = if span >= rtt {
                    span
                } else {
                    rtt
                };
                if elapsed > 0 {
                    Some(
                        Delivery {
                            bytes: self.delivered - frame.delivered_at_send,
                            elapsed,
                            app_limited: frame.app_limited,
                        },
                    )
                } else {
                    None
                }
            },
            None => None,
        };
        self.record_ack(now);
        Some(Acked { rtt, delivery })
    }

    fn record_ack(&mut self, now: u64)
        ensures
            final(self)@ == (FlightView { acks: recent_acks(old(self)@.acks.push(now), now), ..old(self)@ }),
    {
        self.acks.push(now);
        let ghost all = self.acks@;
        while self.acks.len() > 0 && since(now, self.acks[0]) > FPS_WINDOW
            invariant
                recent_acks(self.acks@, now) == recent_acks(all, now),
                all == old(self).acks@.push(now),
                self@ == (FlightView { acks: self.acks@, ..old(self)@ }),
            decreases self.acks@.len(),
        {
            let ghost before = self.acks@;
            self.acks.remove(0);
            proof {
                assert(self.acks@ =~= before.skip(1));
            }
        }
    }

    /// Seed the round trip before any frame is acked (the handshake ping);
    /// whether it was taken.
    pub fn seed_rtt(&mut self, now: u64, rtt: u64) -> (taken: bool)
        requires
            old(self)@.wf(),
        ensures
            final(self)@.wf(),
            taken == !old(self)@.measured,
            final(self)@ == if taken {
                old(self)@.with_trip(now, rtt)
            } else {
                old(self)@
            },
    {
        if self.measured {
            return false;
        }
        self.record_trip(now, rtt);
        true
    }

    /// Minimum round trip over the base window.
    pub fn base_rtt(&self) -> (rtt: Option<u64>)
        ensures
            rtt == shortest(self@.trips),
    {
        let mut least: Option<u64> = None;
        let n: usize = self.trips.len();
        proof {
            assert(self.trips@.take(0) =~= Seq::empty());
        }
        for i in 0..n
            invariant
                n == self.trips@.len(),
                least == shortest(self.trips@.take(i as int)),
        {
            let rtt: u64 = self.trips[i].rtt;
            proof {
                assert(self.trips@.take(i + 1).drop_last() =~= self.trips@.take(i as int));
                assert(self.trips@.take(i + 1).last() == self.trips@[i as int]);
            }
            least = match least {
                Some(m) => if m <= rtt {
                    Some(m)
                } else {
                    Some(rtt)
                },
                None => Some(rtt),
            };
        }
        proof {
            assert(self.trips@.take(n as int) =~= self.trips@);
        }
        least
    }

    /// Smallest round trip since the last call, minus the base: the queueing
    /// every packet saw. `None` when no ack arrived in the window. Using the
    /// window minimum means one loss-recovery stall cannot register.
    pub fn take_window_queueing(&mut self) -> (q: Option<u64>)
        requires
            old(self)@.wf(),
        ensures
            final(self)@.wf(),
            final(self)@ == (FlightView { window_min: None, ..old(self)@ }),
            q == match (old(self)@.window_min, shortest(old(self)@.trips)) {
                (Some(m), Some(b)) => Some(ago(m, b)),
                _ => None,
            },
    {
        let min: Option<u64> = self.window_min;
        self.window_min = None;
        match (min, self.base_rtt()) {
            (Some(m), Some(b)) => Some(since(m, b)),
            _ => None,
        }
    }

    /// Frames delivered over the fps window that ends now.
    pub fn delivered_frames(&self, now: u64) -> (n: usize)
        ensures
            n == self@.acks.filter(|t: u64| ago(now, t) <= FPS_WINDOW).len(),
    {
        let mut n: usize = 0;
        let m: usize = self.acks.len();
        let ghost test = |t: u64| ago(now, t) <= FPS_WINDOW;
        proof {
            reveal(Seq::filter);
            assert(self.acks@.take(0).filter(test) =~= Seq::empty());
        }
        for i in 0..m
            invariant
                m == self.acks@.len(),
                n <= i,
                test == |t: u64| ago(now, t) <= FPS_WINDOW,
                n == self.acks@.take(i as int).filter(test).len(),
        {
            proof {
                reveal(Seq::filter);
                assert(self.acks@.take(i + 1).drop_last() =~= self.acks@.take(i as int));
                assert(self.acks@.take(i + 1).last() == self.acks@[i as int]);
            }
            if since(now, self.acks[i]) <= FPS_WINDOW {
                n = n + 1;
            }
        }
        proof {
            assert(self.acks@.take(m as int) =~= self.acks@);
        }
        n
    }
}

/// Bytes are in flight from when they are sent until their frame, or a later
/// one, is acked, and are then delivered: none is lost or counted twice.
pub proof fn law_bytes_are_in_flight_or_delivered(
    v: FlightView,
    now: u64,
    frame_id: u64,
    bytes: u64,
    app_limited: bool,
    rate_window: u64,
    k: int,
)
    requires
        v.wf(),
        v.delivered + v.inflight + bytes <= u64::MAX,
        0 <= k < v.sent.len(),
    ensures
        ({
            let sent = v.with_sent(now, frame_id, bytes, app_limited, rate_window);
            let acked = v.with_ack(now, k);
            &&& sent.delivered + sent.inflight == v.delivered + v.inflight + bytes
            &&& acked.delivered + acked.inflight == v.delivered + v.inflight
            &&& acked.delivered >= v.delivered + v.sent[k].bytes
            &&& acked.sent.len() == v.sent.len() - k - 1
        }),
{
    lemma_bytes_split(v.sent, k + 1);
    assert(v.sent.take(k + 1).drop_last() =~= v.sent.take(k));
}

/// After an ack the frames sent later are in flight, and none else, and their
/// bytes are what is counted there.
pub proof fn law_later_frames_stay_in_flight(v: FlightView, now: u64, frame_id: u64)
    requires
        v.wf(),
        place_of(v.sent, frame_id, 0) < v.sent.len(),
    ensures
        ({
            let k = place_of(v.sent, frame_id, 0);
            let acked = v.with_ack(now, k);
            &&& 0 <= k
            &&& v.sent[k].frame_id == frame_id
            &&& acked.sent == v.sent.skip(k + 1)
            &&& acked.inflight == bytes_of(v.sent.skip(k + 1))
        }),
{
    lemma_place_of(v.sent, frame_id, 0);
    lemma_bytes_split(v.sent, place_of(v.sent, frame_id, 0) + 1);
}

/// Only the ack of a frame in flight shows anything: the place of a frame is
/// within them if and only if one of them has its id.
pub proof fn law_unknown_frames_have_no_place(v: FlightView, frame_id: u64)
    ensures
        place_of(v.sent, frame_id, 0) < v.sent.len() <==> exists|i: int|
            0 <= i < v.sent.len() && (#[trigger] v.sent[i]).frame_id == frame_id,
{
    lemma_place_of(v.sent, frame_id, 0);
}

/// The base round trip is no longer than any in the window, and is one of
/// them, so queueing is never negative.
pub proof fn law_base_is_the_shortest(trips: Seq<Trip>, i: int)
    requires
        0 <= i < trips.len(),
    ensures
        shortest(trips) matches Some(m) && m <= trips[i].rtt && exists|j: int|
            0 <= j < trips.len() && (#[trigger] trips[j]).rtt == m,
    decreases trips.len(),
{
    let front = trips.drop_last();
    let last = trips.len() - 1;
    if front.len() == 0 {
        assert(trips[last].rtt == trips.last().rtt);
    } else {
        law_base_is_the_shortest(front, if i < last {
            i
        } else {
            0
        });
        let m = shortest(front)->0;
        let j = choose|j: int| 0 <= j < front.len() && (#[trigger] front[j]).rtt == m;
        assert(trips[j].rtt == m);
        assert(trips[last].rtt == trips.last().rtt);
    }
}

proof fn lemma_recent_trips(trips: Seq<Trip>, now: u64)
    ensures
        ({
            let kept = recent_trips(trips, now);
            &&& kept.len() <= trips.len()
            &&& kept == trips.skip(trips.len() - kept.len())
            &&& kept.len() > 0 ==> ago(now, kept[0].at) <= BASE_WINDOW
            &&& forall|i: int| 0 <= i < trips.len() - kept.len() ==> ago(now, (#[trigger] trips[i]).at) > BASE_WINDOW
        }),
    decreases trips.len(),
{
    if trips.len() > 0 && ago(now, trips[0].at) > BASE_WINDOW {
        let rest = trips.skip(1);
        lemma_recent_trips(rest, now);
        let kept = recent_trips(rest, now);
        assert(rest.skip(rest.len() - kept.len()) =~= trips.skip(trips.len() - kept.len()));
        assert forall|i: int| 0 <= i < trips.len() - kept.len() implies ago(now, (#[trigger] trips[i]).at)
            > BASE_WINDOW by {
            if i > 0 {
                assert(rest[i - 1] == trips[i]);
            }
        }
    } else {
        assert(trips.skip(0) =~= trips);
    }
}

/// A round trip is remembered for ten seconds: measuring one drops only older
/// ones, oldest first, and never the new one. The shortest since the last look
/// is kept too.
pub proof fn law_round_trips_are_remembered(v: FlightView, now: u64, rtt: u64)
    ensures
        ({
            let after = v.with_trip(now, rtt);
            let all = v.trips.push(Trip { at: now, rtt });
            let gone = all.len() - after.trips.len();
            &&& after.trips.len() > 0
            &&& after.trips.last() == (Trip { at: now, rtt })
            &&& after.trips == all.skip(gone)
            &&& forall|i: int| 0 <= i < gone ==> now > (#[trigger] all[i]).at && now - all[i].at > 10_000_000_000
            &&& now >= after.trips[0].at ==> now - after.trips[0].at <= 10_000_000_000
            &&& after.measured
            &&& after.window_min matches Some(m) && m <= rtt && (v.window_min matches Some(old) ==> m <= old && (m
                == rtt || m == old)) && (v.window_min is None ==> m == rtt)
            &&& after.sent == v.sent && after.inflight == v.inflight && after.delivered == v.delivered && after.acks
                == v.acks
        }),
{
    let all = v.trips.push(Trip { at: now, rtt });
    lemma_recent_trips(all, now);
    let kept = recent_trips(all, now);
    if kept.len() == 0 {
        assert(ago(now, all[all.len() - 1].at) > BASE_WINDOW);
    }
    assert(kept.last() == all.last());
}

/// What an ack shows of the frame at `k`: the round trip since it was sent,
/// and, where an earlier delivery started the sample, all that was delivered
/// since then over the longer of the two intervals.
pub proof fn law_acks_measure_the_delivery(v: FlightView, now: u64, k: int)
    requires
        v.wf(),
        0 <= k < v.sent.len(),
        v.sent[k].sent_at <= now,
    ensures
        ({
            let f = v.sent[k];
            let a = v.shown(now, k);
            &&& a.rtt == now - f.sent_at
            &&& f.delivered_time_at_send is None ==> a.delivery is None
            &&& f.delivered_time_at_send matches Some(t) ==> t <= now ==> match a.delivery {
                Some(d) => {
                    &&& d.bytes == v.delivered + bytes_of(v.sent.take(k + 1)) - f.delivered_at_send
                    &&& d.elapsed >= a.rtt && d.elapsed >= now - t && (d.elapsed == a.rtt || d.elapsed == now - t)
                    &&& d.elapsed > 0
                    &&& d.app_limited == f.app_limited
                },
                None => a.rtt == 0 && now == t,
            }
        }),
{
    lemma_bytes_split(v.sent, k + 1);
    assert(v.sent[k].delivered_at_send <= v.delivered);
}

/// A frame that is sent is the last in flight, with its own number, size and
/// time, what was delivered by then, and the last delivery where that is recent
/// enough to start a sample.
pub proof fn law_sent_frames_are_noted(
    v: FlightView,
    now: u64,
    frame_id: u64,
    bytes: u64,
    app_limited: bool,
    rate_window: u64,
)
    requires
        v.inflight + bytes <= u64::MAX,
    ensures
        ({
            let after = v.with_sent(now, frame_id, bytes, app_limited, rate_window);
            let f = after.sent.last();
            &&& after.sent.len() == v.sent.len() + 1
            &&& after.sent.drop_last() == v.sent
            &&& f.frame_id == frame_id && f.bytes == bytes && f.sent_at == now && f.app_limited == app_limited
            &&& f.delivered_at_send == v.delivered
            &&& f.delivered_time_at_send matches Some(t) ==> v.delivered_time == Some(t) && (t <= now ==> now - t
                <= rate_window)
            &&& v.delivered_time matches Some(t) ==> t <= now && now - t <= rate_window ==> f.delivered_time_at_send
                == Some(t)
            &&& after.inflight == v.inflight + bytes
            &&& after.delivered == v.delivered && after.trips == v.trips && after.acks == v.acks
        }),
{
    assert(v.with_sent(now, frame_id, bytes, app_limited, rate_window).sent.drop_last() =~= v.sent);
}

proof fn lemma_bytes_are_a_sum(frames: Seq<SentFrame>)
    ensures
        bytes_of(frames) == frames.map_values(|f: SentFrame| f.bytes as int).fold_left(0int, |s: int, x: int| s + x),
    decreases frames.len(),
{
    if frames.len() > 0 {
        lemma_bytes_are_a_sum(frames.drop_last());
        let size = |f: SentFrame| f.bytes as int;
        assert(frames.map_values(size).drop_last() =~= frames.drop_last().map_values(size));
        assert(frames.map_values(size).last() == frames.last().bytes);
    }
}

/// What is in flight is the sum of the frames' sizes.
pub proof fn law_bytes_in_flight_are_a_sum(v: FlightView)
    requires
        v.wf(),
    ensures
        v.inflight == v.sent.map_values(|f: SentFrame| f.bytes as int).fold_left(0int, |s: int, x: int| s + x),
{
    lemma_bytes_are_a_sum(v.sent);
}

} // verus!
