//! Messages waiting for the writer, so the session never waits on the
//! network and keeps handling input while a write is blocked.

use crate::msg::server::ServerMsg;
use vstd::prelude::*;
use vstd::set_lib::{lemma_int_range, lemma_len_subset, set_int_range};

verus! {

/// The kinds of message that are queued.
#[derive(Debug, Clone, Copy, PartialEq, Eq, Structural)]
pub enum Kind {
    Video,
    Config,
    Shape,
    Position,
    Data,
    Pong,
}

pub open spec fn kind_of(msg: ServerMsg) -> Option<Kind> {
    match msg {
        ServerMsg::VideoFrame { .. } => Some(Kind::Video),
        ServerMsg::StreamConfig { .. } => Some(Kind::Config),
        ServerMsg::CursorShape { .. } => Some(Kind::Shape),
        ServerMsg::CursorPos { .. } => Some(Kind::Position),
        ServerMsg::ClipboardData { .. } => Some(Kind::Data),
        ServerMsg::Pong { .. } => Some(Kind::Pong),
        _ => None,
    }
}

fn kind(msg: &ServerMsg) -> (k: Option<Kind>)
    ensures
        k == kind_of(*msg),
{
    match msg {
        ServerMsg::VideoFrame { .. } => Some(Kind::Video),
        ServerMsg::StreamConfig { .. } => Some(Kind::Config),
        ServerMsg::CursorShape { .. } => Some(Kind::Shape),
        ServerMsg::CursorPos { .. } => Some(Kind::Position),
        ServerMsg::ClipboardData { .. } => Some(Kind::Data),
        ServerMsg::Pong { .. } => Some(Kind::Pong),
        _ => None,
    }
}

/// A message and the payloads that follow it.
#[derive(Debug, Clone, PartialEq)]
pub struct Packet {
    pub message: ServerMsg,
    pub payloads: Vec<Vec<u8>>,
}

impl Packet {
    pub open spec fn is(self, k: Kind) -> bool {
        kind_of(self.message) == Some(k)
    }
}

/// Whether a video frame stands before `i`.
pub open spec fn video_before(q: Seq<Packet>, i: int) -> bool {
    exists|v: int| 0 <= v < i && v < q.len() && (#[trigger] q[v]).is(Kind::Video)
}

/// Whether a video frame stands behind `i`.
pub open spec fn video_behind(q: Seq<Packet>, i: int) -> bool {
    exists|v: int| i < v < q.len() && (#[trigger] q[v]).is(Kind::Video)
}

/// Whether the packet at `i` is superseded by a new one of a kind: a
/// configuration by the next, unless a frame between them needs it; a cursor
/// image and position by a new image; a position, clipboard data and a pong
/// by their like.
pub open spec fn superseded(q: Seq<Packet>, i: int, k: Kind) -> bool {
    match k {
        Kind::Video => false,
        Kind::Config => q[i].is(Kind::Config) && !video_behind(q, i),
        Kind::Shape => q[i].is(Kind::Shape) || q[i].is(Kind::Position),
        Kind::Position => q[i].is(Kind::Position),
        Kind::Data => q[i].is(Kind::Data),
        Kind::Pong => q[i].is(Kind::Pong),
    }
}

/// The places among the first `n` whose packets stay.
pub open spec fn staying(q: Seq<Packet>, k: Kind, n: int) -> Seq<int>
    decreases n,
{
    if n <= 0 {
        Seq::empty()
    } else if superseded(q, n - 1, k) {
        staying(q, k, n - 1)
    } else {
        staying(q, k, n - 1).push(n - 1)
    }
}

/// The packets at these places.
pub open spec fn picked(q: Seq<Packet>, places: Seq<int>) -> Seq<Packet> {
    Seq::new(places.len(), |j: int| q[places[j]])
}

/// The queue with one more packet: what it supersedes is gone.
pub open spec fn pushed(q: Seq<Packet>, p: Packet) -> Seq<Packet> {
    picked(q, staying(q, kind_of(p.message)->0, q.len() as int)).push(p)
}

/// Each packet has a slot of its own: one for each kind, and one more for a
/// configuration behind the frame.
pub open spec fn slot(q: Seq<Packet>, i: int) -> int {
    match kind_of(q[i].message) {
        Some(Kind::Video) => 1,
        Some(Kind::Shape) => 2,
        Some(Kind::Position) => 3,
        Some(Kind::Data) => 4,
        Some(Kind::Pong) => 5,
        _ => if video_before(q, i) {
            6
        } else {
            0
        },
    }
}

/// Only kinds that are queued, each in its slot.
pub open spec fn tidy(q: Seq<Packet>) -> bool {
    &&& forall|i: int| 0 <= i < q.len() ==> kind_of((#[trigger] q[i]).message) is Some
    &&& forall|i: int, j: int| 0 <= i < j < q.len() ==> slot(q, i) != slot(q, j)
}

/// A queue never holds more than seven packets.
pub proof fn law_queue_is_bounded(q: Seq<Packet>)
    requires
        tidy(q),
    ensures
        q.len() <= 7,
{
    let slots = Seq::new(q.len(), |i: int| slot(q, i));
    assert(slots.no_duplicates()) by {
        assert forall|i: int, j: int| 0 <= i < slots.len() && 0 <= j < slots.len() && i != j implies slots[i]
            != slots[j] by {
            if i < j {
                assert(slot(q, i) != slot(q, j));
            } else {
                assert(slot(q, j) != slot(q, i));
            }
        }
    }
    slots.unique_seq_to_set();
    lemma_int_range(0, 7);
    assert(slots.to_set().subset_of(set_int_range(0, 7)));
    lemma_len_subset(slots.to_set(), set_int_range(0, 7));
}

proof fn lemma_staying(q: Seq<Packet>, k: Kind, n: int)
    requires
        0 <= n <= q.len(),
    ensures
        staying(q, k, n).len() <= n,
        forall|j: int| 0 <= j < staying(q, k, n).len() ==> 0 <= #[trigger] staying(q, k, n)[j] < n && !superseded(
            q,
            staying(q, k, n)[j],
            k,
        ),
        forall|i: int, j: int|
            0 <= i < j < staying(q, k, n).len() ==> staying(q, k, n)[i] < staying(q, k, n)[j],
        forall|i: int| 0 <= i < n && !#[trigger] superseded(q, i, k) ==> staying(q, k, n).contains(i),
    decreases n,
{
    if n > 0 {
        lemma_staying(q, k, n - 1);
        let a = staying(q, k, n - 1);
        let b = staying(q, k, n);
        assert forall|i: int| 0 <= i < n && !#[trigger] superseded(q, i, k) implies b.contains(i) by {
            if i < n - 1 {
                assert(a.contains(i));
                let j = choose|j: int| 0 <= j < a.len() && a[j] == i;
                assert(b[j] == i);
            } else {
                assert(b[b.len() - 1] == i);
            }
        }
    }
}

/// What stays keeps its slot: no frame is superseded.
proof fn lemma_slots_stay(q: Seq<Packet>, k: Kind, j: int)
    requires
        0 <= j < staying(q, k, q.len() as int).len(),
    ensures
        ({
            let places = staying(q, k, q.len() as int);
            slot(picked(q, places), j) == slot(q, places[j])
        }),
{
    let n = q.len() as int;
    lemma_staying(q, k, n);
    let places = staying(q, k, n);
    let r = picked(q, places);
    if video_before(q, places[j]) {
        let v = choose|v: int| 0 <= v < places[j] && v < q.len() && (#[trigger] q[v]).is(Kind::Video);
        assert(!superseded(q, v, k));
        let w = choose|w: int| 0 <= w < places.len() && places[w] == v;
        assert(r[w].is(Kind::Video));
        if w >= j {
            assert(w == j || places[j] < places[w]);
        }
        assert(video_before(r, j));
    }
    if video_before(r, j) {
        let w = choose|w: int| 0 <= w < j && w < r.len() && (#[trigger] r[w]).is(Kind::Video);
        assert(places[w] < places[j]);
        assert(q[places[w]].is(Kind::Video));
    }
}

proof fn lemma_pushed_is_tidy(q: Seq<Packet>, p: Packet)
    requires
        tidy(q),
        kind_of(p.message) is Some,
        p.is(Kind::Video) ==> !video_before(q, q.len() as int),
    ensures
        tidy(pushed(q, p)),
{
    let k = kind_of(p.message)->0;
    let n = q.len() as int;
    lemma_staying(q, k, n);
    let places = staying(q, k, n);
    let r = picked(q, places);
    let s = pushed(q, p);
    let m = r.len() as int;
    assert forall|i: int| 0 <= i < m implies slot(s, i) == slot(r, i) && slot(s, i) == slot(q, places[i]) by {
        lemma_slots_stay(q, k, i);
        if video_before(s, i) {
            let v = choose|v: int| 0 <= v < i && v < s.len() && (#[trigger] s[v]).is(Kind::Video);
            assert(r[v].is(Kind::Video));
        }
        if video_before(r, i) {
            let v = choose|v: int| 0 <= v < i && v < r.len() && (#[trigger] r[v]).is(Kind::Video);
            assert(s[v].is(Kind::Video));
        }
    }
    assert forall|i: int| 0 <= i < s.len() implies kind_of((#[trigger] s[i]).message) is Some by {
        if i < m {
            assert(s[i] == q[places[i]]);
        }
    }
    assert forall|i: int, j: int| 0 <= i < j < s.len() implies slot(s, i) != slot(s, j) by {
        if j < m {
            assert(slot(q, places[i]) != slot(q, places[j]));
        } else {
            assert(s[i] == q[places[i]]);
            assert(!superseded(q, places[i], k));
            if k == Kind::Video {
                assert(!q[places[i]].is(Kind::Video));
            }
            if k == Kind::Config && s[i].is(Kind::Config) {
                assert(video_behind(q, places[i]));
                let v = choose|v: int| places[i] < v < q.len() && (#[trigger] q[v]).is(Kind::Video);
                assert(!superseded(q, v, k));
                let w = choose|w: int| 0 <= w < places.len() && places[w] == v;
                assert(s[w].is(Kind::Video));
                assert(video_before(s, m));
                if video_before(q, places[i]) {
                    let u = choose|u: int| 0 <= u < places[i] && u < q.len() && (#[trigger] q[u]).is(Kind::Video);
                    assert(slot(q, u) != slot(q, v));
                }
            }
        }
    }
}

proof fn lemma_popped_is_tidy(q: Seq<Packet>)
    requires
        tidy(q),
        q.len() > 0,
    ensures
        tidy(q.skip(1)),
{
    let s = q.skip(1);
    assert forall|i: int, j: int| 0 <= i < j < s.len() implies slot(s, i) != slot(s, j) by {
        assert(s[i] == q[i + 1] && s[j] == q[j + 1]);
        assert(slot(q, i + 1) != slot(q, j + 1));
        assert forall|x: int| 0 <= x < s.len() implies (#[trigger] video_before(s, x) ==> video_before(q, x + 1)) by {
            if video_before(s, x) {
                let v = choose|v: int| 0 <= v < x && v < s.len() && (#[trigger] s[v]).is(Kind::Video);
                assert(q[v + 1].is(Kind::Video));
            }
        }
        assert forall|x: int| 0 <= x < s.len() && video_before(q, x + 1) && !q[0].is(Kind::Video) implies (
        #[trigger] video_before(s, x)) by {
            let v = choose|v: int| 0 <= v < x + 1 && v < q.len() && (#[trigger] q[v]).is(Kind::Video);
            assert(s[v - 1].is(Kind::Video));
        }
        if q[0].is(Kind::Video) {
            assert(video_before(q, i + 1));
            assert(video_before(q, j + 1));
        }
    }
    assert forall|i: int| 0 <= i < s.len() implies kind_of((#[trigger] s[i]).message) is Some by {
        assert(s[i] == q[i + 1]);
    }
}

/// Messages waiting for the writer. Bounded by coalescing: stale entries a
/// newer one supersedes are dropped rather than queued behind it.
#[derive(Debug)]
pub struct Queue {
    pub packets: Vec<Packet>,
}

impl Default for Queue {
    fn default() -> (q: Queue)
        ensures
            q.packets@.len() == 0,
            q.wf(),
    {
        Queue { packets: Vec::new() }
    }
}

impl Queue {
    pub open spec fn wf(&self) -> bool {
        tidy(self.packets@)
    }

    /// True when no video frame is queued. The session encodes at most one
    /// frame ahead of the writer, so this gates the encoder.
    pub fn video_ready(&self) -> (yes: bool)
        ensures
            yes == !video_before(self.packets@, self.packets@.len() as int),
    {
        let n: usize = self.packets.len();
        for i in 0..n
            invariant
                n == self.packets@.len(),
                forall|k: int| 0 <= k < i ==> !(#[trigger] self.packets@[k]).is(Kind::Video),
        {
            if let Some(Kind::Video) = kind(&self.packets[i].message) {
                assert(self.packets@[i as int].is(Kind::Video));
                return false;
            }
        }
        true
    }

    /// Queue a message of a kind that is queued; a frame only when none is.
    pub fn push(&mut self, p: Packet)
        requires
            old(self).wf(),
            kind_of(p.message) is Some,
            p.is(Kind::Video) ==> !video_before(old(self).packets@, old(self).packets@.len() as int),
        ensures
            final(self).wf(),
            final(self).packets@ == pushed(old(self).packets@, p),
    {
        let k: Kind = match kind(&p.message) {
            Some(k) => k,
            None => return,
        };
        proof {
            lemma_pushed_is_tidy(self.packets@, p);
        }
        let n: usize = self.packets.len();
        let ghost q = self.packets@;
        // The place behind the last frame: configurations before it stay.
        let mut after_video: usize = 0;
        for i in 0..n
            invariant
                n == q.len(),
                self.packets@ == q,
                after_video <= i,
                after_video > 0 ==> q[after_video - 1].is(Kind::Video),
                forall|v: int| after_video <= v < i ==> !(#[trigger] q[v]).is(Kind::Video),
        {
            if let Some(Kind::Video) = kind(&self.packets[i].message) {
                after_video = i + 1;
            }
        }
        let mut rest: Vec<Packet> = Vec::new();
        let mut i: usize = 0;
        while i < n
            invariant
                i <= n == q.len(),
                self.packets@.len() == n - i,
                forall|x: int| 0 <= x < n - i ==> #[trigger] self.packets@[x] == q[x + i],
                rest@ == picked(q, staying(q, k, i as int)),
                after_video <= n,
                after_video > 0 ==> q[after_video - 1].is(Kind::Video),
                forall|v: int| after_video <= v < n ==> !(#[trigger] q[v]).is(Kind::Video),
                forall|x: int| 0 <= x < n ==> kind_of((#[trigger] q[x]).message) is Some,
            decreases n - i,
        {
            let packet: Packet = self.packets.remove(0);
            let drop: bool = match (k, kind(&packet.message)) {
                (Kind::Config, Some(Kind::Config)) => i >= after_video,
                (Kind::Shape, Some(Kind::Shape)) => true,
                (Kind::Shape, Some(Kind::Position)) => true,
                (Kind::Position, Some(Kind::Position)) => true,
                (Kind::Data, Some(Kind::Data)) => true,
                (Kind::Pong, Some(Kind::Pong)) => true,
                _ => false,
            };
            proof {
                assert(packet == q[i as int]);
                if i < after_video {
                    if i == after_video - 1 {
                        assert(packet.is(Kind::Video));
                    } else {
                        assert(video_behind(q, i as int));
                    }
                } else {
                    assert(!video_behind(q, i as int));
                }
                assert(drop == superseded(q, i as int, k));
                lemma_staying(q, k, i as int);
            }
            let ghost before = rest@;
            if !drop {
                rest.push(packet);
                assert(rest@ =~= picked(q, staying(q, k, i + 1)));
            }
            i = i + 1;
        }
        rest.push(p);
        self.packets = rest;
    }

    /// The next packet for the writer.
    pub fn pop(&mut self) -> (p: Option<Packet>)
        requires
            old(self).wf(),
        ensures
            final(self).wf(),
            old(self).packets@.len() == 0 ==> p is None && final(self).packets@ == old(self).packets@,
            old(self).packets@.len() > 0 ==> p == Some(old(self).packets@[0]) && final(self).packets@
                == old(self).packets@.skip(1),
    {
        if self.packets.len() == 0 {
            return None;
        }
        proof {
            lemma_popped_is_tidy(self.packets@);
        }
        let p: Packet = self.packets.remove(0);
        assert(self.packets@ =~= old(self).packets@.skip(1));
        Some(p)
    }
}

/// A frame keeps the configuration it was encoded under: pushing another
/// packet never drops one that stands before a frame, nor a frame.
pub proof fn law_frames_keep_their_configuration(q: Seq<Packet>, p: Packet, i: int)
    requires
        tidy(q),
        kind_of(p.message) is Some,
        0 <= i < q.len(),
        q[i].is(Kind::Video) || (q[i].is(Kind::Config) && video_behind(q, i)),
    ensures
        pushed(q, p).contains(q[i]),
{
    let k = kind_of(p.message)->0;
    lemma_staying(q, k, q.len() as int);
    let places = staying(q, k, q.len() as int);
    assert(!superseded(q, i, k));
    let j = choose|j: int| 0 <= j < places.len() && places[j] == i;
    assert(pushed(q, p)[j] == q[i]);
}

/// What a message waits in line as.
pub proof fn law_kinds_of_messages(m: ServerMsg)
    ensures
        kind_of(m) == Some(Kind::Video) <==> m is VideoFrame,
        kind_of(m) == Some(Kind::Config) <==> m is StreamConfig,
        kind_of(m) == Some(Kind::Shape) <==> m is CursorShape,
        kind_of(m) == Some(Kind::Position) <==> m is CursorPos,
        kind_of(m) == Some(Kind::Data) <==> m is ClipboardData,
        kind_of(m) == Some(Kind::Pong) <==> m is Pong,
{
}

/// Whether what waits at `i` is made obsolete by a message that is pushed: an
/// older message of the same kind, a cursor's position also by its shape; a
/// frame by nothing, and a configuration only where no frame waits behind it.
pub open spec fn obsolete(q: Seq<Packet>, i: int, m: ServerMsg) -> bool {
    let old = q[i].message;
    ||| m is CursorShape && (old is CursorShape || old is CursorPos)
    ||| m is CursorPos && old is CursorPos
    ||| m is ClipboardData && old is ClipboardData
    ||| m is Pong && old is Pong
    ||| m is StreamConfig && old is StreamConfig && forall|v: int|
        i < v < q.len() ==> !((#[trigger] q[v]).message is VideoFrame)
}

proof fn lemma_superseded_is(q: Seq<Packet>, i: int, m: ServerMsg)
    requires
        0 <= i < q.len(),
        kind_of(m) is Some,
    ensures
        superseded(q, i, kind_of(m)->0) == obsolete(q, i, m),
{
    law_kinds_of_messages(m);
    law_kinds_of_messages(q[i].message);
    if m is StreamConfig {
        if video_behind(q, i) {
            let v = choose|v: int| i < v < q.len() && (#[trigger] q[v]).is(Kind::Video);
            assert(q[v].message is VideoFrame);
        } else {
            assert forall|v: int| i < v < q.len() implies !((#[trigger] q[v]).message is VideoFrame) by {
                assert(!q[v].is(Kind::Video));
            }
        }
    }
}

proof fn lemma_staying_filters(q: Seq<Packet>, m: ServerMsg, n: int)
    requires
        0 <= n <= q.len(),
        kind_of(m) is Some,
    ensures
        staying(q, kind_of(m)->0, n) == Seq::new(n as nat, |i: int| i).filter(|i: int| !obsolete(q, i, m)),
    decreases n,
{
    reveal(Seq::filter);
    let test = |i: int| !obsolete(q, i, m);
    let all = Seq::new(n as nat, |i: int| i);
    if n > 0 {
        lemma_staying_filters(q, m, n - 1);
        lemma_superseded_is(q, n - 1, m);
        assert(all.drop_last() =~= Seq::new((n - 1) as nat, |i: int| i));
        assert(all.last() == n - 1);
    } else {
        assert(all.filter(test) =~= Seq::empty());
    }
}

/// A message that is pushed goes behind all that waits; of what waits only
/// what it makes obsolete is dropped, and the rest keeps its order.
pub proof fn law_pushing_drops_only_the_obsolete(q: Seq<Packet>, p: Packet)
    requires
        kind_of(p.message) is Some,
    ensures
        ({
            let places = Seq::new(q.len(), |i: int| i).filter(|i: int| !obsolete(q, i, p.message));
            let after = pushed(q, p);
            &&& after.len() == places.len() + 1
            &&& after.last() == p
            &&& forall|j: int| 0 <= j < places.len() ==> #[trigger] after[j] == q[places[j]]
            &&& p.message is VideoFrame ==> after == q.push(p)
        }),
{
    lemma_staying_filters(q, p.message, q.len() as int);
    if p.message is VideoFrame {
        lemma_all_stay(q, p.message, q.len() as int);
        assert(pushed(q, p) =~= q.push(p));
    }
}

proof fn lemma_all_stay(q: Seq<Packet>, m: ServerMsg, n: int)
    requires
        0 <= n <= q.len(),
        m is VideoFrame,
    ensures
        staying(q, kind_of(m)->0, n) == Seq::new(n as nat, |i: int| i),
    decreases n,
{
    if n > 0 {
        lemma_all_stay(q, m, n - 1);
        lemma_superseded_is(q, n - 1, m);
        assert(Seq::new(n as nat, |i: int| i) =~= Seq::new((n - 1) as nat, |i: int| i).push(n - 1));
    } else {
        assert(Seq::new(0, |i: int| i) =~= Seq::<int>::empty());
    }
}

} // verus!
