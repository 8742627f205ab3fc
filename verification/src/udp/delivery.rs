//! What the receiver promises of the stream as a whole: frames come out once,
//! in order, and as they were split.

use super::assemble::{
    advanced, after_delivery, after_loss, after_nack, complete, delivered, flat, gives_up, has_id, hole_shown, in_order,
    lemma_in_order_tail, lemma_stored_in_order, missing_of, nack_due, nack_interval_of, nothing_of, on_packet_step,
    since, stored, with_part, Assembler, AssemblerView, EventView, PendingView,
};
use super::packet::PacketView;
use super::split::{
    joined, law_parts_join_to_the_frame, lemma_part_payload, part_body, part_count, part_header, part_payload,
    FrameInfo,
};
use vstd::prelude::*;

verus! {

/// Events in rising order of their frames.
pub open spec fn rising(events: Seq<EventView>) -> bool {
    forall|i: int, j: int|
        0 <= i < j < events.len() ==> (#[trigger] events[i]).id() < (#[trigger] events[j]).id()
}

/// Every event is about a frame from `low` up to, not including, `high`.
pub open spec fn between(events: Seq<EventView>, low: u64, high: u64) -> bool {
    forall|i: int| 0 <= i < events.len() ==> low <= (#[trigger] events[i]).id() < high
}

proof fn lemma_advanced(st: AssemblerView, now: u64, events: Seq<EventView>, low: u64)
    requires
        in_order(st),
        rising(events),
        between(events, low, st.next),
        low <= st.next,
    ensures
        ({
            let (after, all) = advanced(st, now, events);
            &&& in_order(after)
            &&& rising(all)
            &&& between(all, low, after.next)
            &&& st.next <= after.next
            &&& all.len() >= events.len()
            &&& all.len() == events.len() ==> after.next == st.next
        }),
    decreases st.frames.len(),
{
    if st.frames.len() > 0 {
        let front = st.frames[0];
        if complete(front.parts) {
            lemma_in_order_tail(st);
            let more = events.push(delivered(front));
            assert(rising(more));
            assert(between(more, low, after_delivery(st).next));
            lemma_advanced(after_delivery(st), now, more, low);
        } else if nack_due(st, now) {
            if super::assemble::gives_up(st) {
                lemma_in_order_tail(st);
                let more = events.push(EventView::Lost(front.info.frame_id));
                assert(rising(more));
                assert(between(more, low, after_loss(st).next));
                lemma_advanced(after_loss(st), now, more, low);
            } else {
                let after = after_nack(st, now);
                assert forall|i: int| 0 <= i < after.frames.len() implies (#[trigger] after.frames[i]).info
                    == st.frames[i].info by {}
                assert(in_order(after));
            }
        }
    }
}

/// Running the timers reports frames in rising order, each at least the next
/// one waited for, and moves past every frame it reports.
pub proof fn law_tick_reports_in_order(st: AssemblerView, now: u64)
    requires
        in_order(st),
    ensures
        ({
            let (after, events) = advanced(st, now, Seq::empty());
            &&& in_order(after)
            &&& rising(events)
            &&& between(events, st.next, after.next)
            &&& st.next <= after.next
            &&& events.len() == 0 ==> after.next == st.next
        }),
{
    lemma_advanced(st, now, Seq::empty(), st.next);
}

/// Feeding a packet reports frames in rising order, each at least the next
/// one waited for, and moves past every frame it reports. So over a whole
/// stream no frame is reported twice, none after a later one, and none below
/// the next one waited for.
pub proof fn law_packets_report_in_order(st: AssemblerView, packet: PacketView, bytes: Seq<u8>, now: u64)
    requires
        in_order(st),
        packet matches PacketView::Part { frame_id, .. } ==> frame_id < u64::MAX,
    ensures
        ({
            let (after, events) = on_packet_step(st, packet, bytes, now);
            &&& in_order(after)
            &&& rising(events)
            &&& between(events, st.next, after.next)
            &&& st.next <= after.next
            &&& events.len() == 0 ==> after.next == st.next
        }),
{
    if let PacketView::Part { frame_id, index, count, keyframe, reference, pts_us, main_len, total_len } = packet {
        let info = FrameInfo { frame_id, keyframe, reference, pts_us };
        let fresh = nothing_of(info, count, main_len, total_len, now);
        if frame_id >= st.next && count != 0 && index < count {
            lemma_stored_in_order(st, fresh, index as int, bytes);
            law_tick_reports_in_order(
                (AssemblerView { frames: stored(st.frames, fresh, index as int, bytes), ..st }),
                now,
            );
        }
    }
}

/// A part of a frame already reported does nothing.
pub proof fn law_late_parts_are_ignored(st: AssemblerView, packet: PacketView, bytes: Seq<u8>, now: u64)
    requires
        packet matches PacketView::Part { frame_id, .. } && frame_id < st.next,
    ensures
        on_packet_step(st, packet, bytes, now) == (st, Seq::<EventView>::empty()),
{
}

/// The state and the events after the first `n` parts of a frame have come,
/// in order, at one time.
pub open spec fn fed(st: AssemblerView, info: FrameInfo, main: Seq<u8>, aux: Seq<u8>, n: int, now: u64) -> (
    AssemblerView,
    Seq<EventView>,
)
    decreases n,
{
    if n <= 0 {
        (st, Seq::empty())
    } else {
        let (before, events) = fed(st, info, main, aux, n - 1, now);
        let body = main + aux;
        let header = part_header(info, n - 1, part_count(body.len() as int), main.len() as int, body.len() as int);
        let (after, more) = on_packet_step(before, header, part_body(body, n - 1), now);
        (after, events + more)
    }
}

/// A frame of which the first `n` parts have come.
spec fn first_parts(info: FrameInfo, main: Seq<u8>, aux: Seq<u8>, n: int, now: u64) -> PendingView {
    let body = main + aux;
    PendingView {
        info,
        main_len: main.len() as int,
        total_len: body.len() as int,
        parts: Seq::new(
            part_count(body.len() as int) as nat,
            |i: int| if i < n { Some(part_body(body, i)) } else { None },
        ),
        first_seen: now,
        last_nack: None,
        nacks: 0,
    }
}

proof fn lemma_flat_is_joined(info: FrameInfo, main: Seq<u8>, aux: Seq<u8>, n: int, k: int, now: u64)
    requires
        0 <= k <= n <= part_count((main + aux).len() as int),
    ensures
        flat(first_parts(info, main, aux, n, now).parts.take(k)) == joined(main + aux, k),
    decreases k,
{
    let parts = first_parts(info, main, aux, n, now).parts;
    if k > 0 {
        lemma_flat_is_joined(info, main, aux, n, k - 1, now);
        assert(parts.take(k).drop_last() =~= parts.take(k - 1));
        assert(parts.take(k).last() == Some(part_body(main + aux, k - 1)));
    } else {
        assert(parts.take(0) =~= Seq::empty());
    }
}

/// One more part of a frame, in order: it is kept, and the frame comes out
/// with the last one.
proof fn lemma_one_more_part(st: AssemblerView, info: FrameInfo, main: Seq<u8>, aux: Seq<u8>, n: int, now: u64)
    requires
        0 <= n < part_count((main + aux).len() as int),
        (main + aux).len() <= u16::MAX * part_payload(),
        st.next <= info.frame_id < u64::MAX,
        st.frames == (if n == 0 {
            Seq::<PendingView>::empty()
        } else {
            seq![first_parts(info, main, aux, n, now)]
        }),
    ensures
        ({
            let body = main + aux;
            let count = part_count(body.len() as int);
            let header = part_header(info, n, count, main.len() as int, body.len() as int);
            let (after, events) = on_packet_step(st, header, part_body(body, n), now);
            if n + 1 < count {
                &&& events == Seq::<EventView>::empty()
                &&& after == (AssemblerView { frames: seq![first_parts(info, main, aux, n + 1, now)], ..st })
            } else {
                &&& events == seq![EventView::Frame { info, main, aux }]
                &&& after.frames.len() == 0
                &&& after.next == info.frame_id + 1
                &&& after.outgoing == st.outgoing
            }
        }),
{
    lemma_part_payload();
    let body = main + aux;
    let count = part_count(body.len() as int);
    assert(count <= u16::MAX);
    let fresh = nothing_of(info, count as u16, main.len() as u32, body.len() as u32, now);
    let now_stored = stored(st.frames, fresh, n, part_body(body, n));
    let next_parts = first_parts(info, main, aux, n + 1, now);
    reveal_with_fuel(super::assemble::before_id, 2);
    if n == 0 {
        assert(!has_id(st.frames, info.frame_id));
        assert(with_part(fresh, n, part_body(body, n)).parts =~= next_parts.parts);
        assert(now_stored =~= seq![next_parts]);
    } else {
        assert(has_id(st.frames, info.frame_id));
        assert(with_part(st.frames[0], n, part_body(body, n)).parts =~= next_parts.parts);
        assert(now_stored =~= seq![next_parts]);
    }
    let mid = AssemblerView { frames: now_stored, ..st };
    assert(mid.frames[0] == next_parts);
    if n + 1 < count {
        assert(next_parts.parts[n + 1] is None);
        assert(!complete(next_parts.parts));
        assert(!hole_shown(next_parts.parts));
        assert(!nack_due(mid, now));
    } else {
        assert(complete(next_parts.parts));
        lemma_flat_is_joined(info, main, aux, n + 1, count, now);
        assert(next_parts.parts.take(count) =~= next_parts.parts);
        law_parts_join_to_the_frame(body);
        assert(flat(next_parts.parts) == body);
        assert(body.take(main.len() as int) =~= main);
        assert(body.skip(main.len() as int) =~= aux);
        let after = after_delivery(mid);
        assert(after.frames.len() == 0);
        let events = Seq::<EventView>::empty().push(delivered(next_parts));
        assert(advanced(mid, now, Seq::empty()) == advanced(after, now, events));
        assert(events =~= seq![EventView::Frame { info, main, aux }]);
    }
}

proof fn lemma_fed(st: AssemblerView, info: FrameInfo, main: Seq<u8>, aux: Seq<u8>, n: int, now: u64)
    requires
        0 <= n < part_count((main + aux).len() as int),
        (main + aux).len() <= u16::MAX * part_payload(),
        st.frames.len() == 0,
        st.next <= info.frame_id < u64::MAX,
    ensures
        fed(st, info, main, aux, n, now) == (
            (AssemblerView {
                frames: (if n == 0 {
                    Seq::<PendingView>::empty()
                } else {
                    seq![first_parts(info, main, aux, n, now)]
                }),
                ..st
            }),
            Seq::<EventView>::empty(),
        ),
    decreases n,
{
    if n == 0 {
        assert(st.frames =~= Seq::empty());
    } else {
        lemma_fed(st, info, main, aux, n - 1, now);
        let (before, events) = fed(st, info, main, aux, n - 1, now);
        lemma_one_more_part(before, info, main, aux, n - 1, now);
        assert(events + Seq::<EventView>::empty() =~= Seq::empty());
    }
}

/// A frame that is split and whose parts all come, in order, comes out as it
/// was: one event, the same header, main and auxiliary bytes, nothing asked
/// for again, and the stream goes on with the next frame.
pub proof fn law_split_frame_comes_out_whole(
    st: AssemblerView,
    info: FrameInfo,
    main: Seq<u8>,
    aux: Seq<u8>,
    now: u64,
)
    requires
        (main + aux).len() <= u16::MAX * part_payload(),
        st.frames.len() == 0,
        st.next <= info.frame_id < u64::MAX,
    ensures
        ({
            let (after, events) = fed(st, info, main, aux, part_count((main + aux).len() as int), now);
            &&& events == seq![EventView::Frame { info, main, aux }]
            &&& after.frames.len() == 0
            &&& after.next == info.frame_id + 1
            &&& after.outgoing == st.outgoing
        }),
{
    lemma_part_payload();
    let count = part_count((main + aux).len() as int);
    lemma_fed(st, info, main, aux, count - 1, now);
    let (before, events) = fed(st, info, main, aux, count - 1, now);
    lemma_one_more_part(before, info, main, aux, count - 1, now);
    assert(events + seq![EventView::Frame { info, main, aux }] =~= seq![EventView::Frame { info, main, aux }]);
}

/// A part of a frame that comes: which one, and when.
pub struct Arrival {
    pub part: int,
    pub at: u64,
}

/// The state and the events after the first `n` arrivals.
pub open spec fn fed_in(
    st: AssemblerView,
    info: FrameInfo,
    main: Seq<u8>,
    aux: Seq<u8>,
    order: Seq<Arrival>,
    n: int,
) -> (AssemblerView, Seq<EventView>)
    decreases n,
{
    if n <= 0 {
        (st, Seq::empty())
    } else {
        let (before, events) = fed_in(st, info, main, aux, order, n - 1);
        let a = order[n - 1];
        let body = main + aux;
        let header = part_header(info, a.part, part_count(body.len() as int), main.len() as int, body.len() as int);
        let (after, more) = on_packet_step(before, header, part_body(body, a.part), a.at);
        (after, events + more)
    }
}

/// Whether part `i` is among the first `n` arrivals.
pub open spec fn has_come(order: Seq<Arrival>, n: int, i: int) -> bool {
    exists|k: int| 0 <= k < n && (#[trigger] order[k]).part == i
}

/// Whether every part is among the first `n` arrivals.
pub open spec fn all_come(order: Seq<Arrival>, n: int, count: int) -> bool {
    forall|i: int| 0 <= i < count ==> #[trigger] has_come(order, n, i)
}

/// Arrivals of a frame's parts, close enough together that none of them is
/// asked for twice.
pub open spec fn are_arrivals(order: Seq<Arrival>, count: int, first: u64) -> bool {
    forall|k: int|
        0 <= k < order.len() ==> 0 <= (#[trigger] order[k]).part < count && first <= order[k].at < first
            + Assembler::MIN_NACK_INTERVAL
}

/// A frame of which the parts among the first `n` arrivals have come.
spec fn some_parts(
    info: FrameInfo,
    main: Seq<u8>,
    aux: Seq<u8>,
    order: Seq<Arrival>,
    n: int,
    nack: Option<u64>,
) -> PendingView {
    let body = main + aux;
    PendingView {
        info,
        main_len: main.len() as int,
        total_len: body.len() as int,
        parts: Seq::new(
            part_count(body.len() as int) as nat,
            |i: int| if has_come(order, n, i) { Some(part_body(body, i)) } else { None },
        ),
        first_seen: order[0].at,
        last_nack: nack,
        nacks: if nack is Some { 1 } else { 0 },
    }
}

/// Where the frame stands after `n` arrivals: it came out, once, or it is
/// waited for with what has come of it.
spec fn stands_at(
    was: AssemblerView,
    st: AssemblerView,
    events: Seq<EventView>,
    info: FrameInfo,
    main: Seq<u8>,
    aux: Seq<u8>,
    order: Seq<Arrival>,
    n: int,
    first: u64,
) -> bool {
    if all_come(order, n, part_count((main + aux).len() as int)) {
        events == seq![EventView::Frame { info, main, aux }] && st.frames.len() == 0 && st.next == info.frame_id + 1
    } else {
        &&& events.len() == 0
        &&& st.next == was.next
        &&& st.rtt == was.rtt
        &&& n == 0 ==> st.frames.len() == 0
        &&& n > 0 ==> {
            let p = st.frames[0];
            &&& st.frames.len() == 1
            &&& p == some_parts(info, main, aux, order, n, p.last_nack)
            &&& p.last_nack matches Some(t) ==> first <= t < first + Assembler::MIN_NACK_INTERVAL
        }
    }
}

proof fn lemma_come_next(order: Seq<Arrival>, n: int, i: int)
    requires
        0 <= n < order.len(),
    ensures
        has_come(order, n + 1, i) == (has_come(order, n, i) || order[n].part == i),
{
    if has_come(order, n, i) {
        let k = choose|k: int| 0 <= k < n && (#[trigger] order[k]).part == i;
        assert(0 <= k < n + 1 && order[k].part == i);
    }
    if order[n].part == i {
        assert(0 <= n < n + 1 && order[n].part == i);
    }
    if has_come(order, n + 1, i) {
        let k = choose|k: int| 0 <= k < n + 1 && (#[trigger] order[k]).part == i;
        if k < n {
            assert(0 <= k < n && order[k].part == i);
        }
    }
}

proof fn lemma_all_parts_join(body: Seq<u8>, parts: Seq<Option<Seq<u8>>>, k: int)
    requires
        0 <= k <= parts.len(),
        forall|i: int| 0 <= i < parts.len() ==> (#[trigger] parts[i]) == Some(part_body(body, i)),
    ensures
        flat(parts.take(k)) == joined(body, k),
    decreases k,
{
    if k > 0 {
        lemma_all_parts_join(body, parts, k - 1);
        assert(parts.take(k).drop_last() =~= parts.take(k - 1));
        assert(parts.take(k).last() == Some(part_body(body, k - 1)));
    } else {
        assert(parts.take(0) =~= Seq::empty());
    }
}

/// One more arrival of a frame that has not come out.
proof fn lemma_one_more_arrival(
    was: AssemblerView,
    st: AssemblerView,
    info: FrameInfo,
    main: Seq<u8>,
    aux: Seq<u8>,
    order: Seq<Arrival>,
    n: int,
    first: u64,
)
    requires
        0 <= n < order.len(),
        (main + aux).len() <= u16::MAX * part_payload(),
        was.next <= info.frame_id < u64::MAX,
        are_arrivals(order, part_count((main + aux).len() as int), first),
        !all_come(order, n, part_count((main + aux).len() as int)),
        stands_at(was, st, Seq::empty(), info, main, aux, order, n, first),
    ensures
        ({
            let body = main + aux;
            let a = order[n];
            let header = part_header(info, a.part, part_count(body.len() as int), main.len() as int, body.len() as int);
            let (after, events) = on_packet_step(st, header, part_body(body, a.part), a.at);
            stands_at(was, after, events, info, main, aux, order, n + 1, first)
        }),
{
    lemma_part_payload();
    let body = main + aux;
    let count = part_count(body.len() as int);
    let a = order[n];
    assert(0 <= a.part < count <= u16::MAX);
    let fresh = nothing_of(info, count as u16, main.len() as u32, body.len() as u32, a.at);
    let now_stored = stored(st.frames, fresh, a.part, part_body(body, a.part));
    let nack = if n == 0 {
        None
    } else {
        st.frames[0].last_nack
    };
    let p = some_parts(info, main, aux, order, n + 1, nack);
    reveal_with_fuel(super::assemble::before_id, 2);
    assert forall|i: int| 0 <= i < count implies has_come(order, n + 1, i) == (has_come(order, n, i) || a.part == i) by {
        lemma_come_next(order, n, i);
    }
    if n == 0 {
        assert(st.frames =~= Seq::empty());
        assert(!has_id(st.frames, info.frame_id));
        assert forall|i: int| 0 <= i < count implies !has_come(order, 0, i) by {}
        assert(with_part(fresh, a.part, part_body(body, a.part)).parts =~= p.parts);
        assert(now_stored =~= seq![p]);
    } else {
        assert(has_id(st.frames, info.frame_id));
        assert(with_part(st.frames[0], a.part, part_body(body, a.part)).parts =~= p.parts);
        assert(now_stored =~= seq![p]);
    }
    let mid = AssemblerView { frames: now_stored, ..st };
    assert(mid.frames[0] == p);
    if all_come(order, n + 1, count) {
        assert forall|i: int| 0 <= i < p.parts.len() implies (#[trigger] p.parts[i]) == Some(part_body(body, i)) by {
            assert(has_come(order, n + 1, i));
        }
        assert(complete(p.parts));
        lemma_all_parts_join(body, p.parts, count);
        assert(p.parts.take(count) =~= p.parts);
        law_parts_join_to_the_frame(body);
        assert(flat(p.parts) == body);
        assert(body.take(main.len() as int) =~= main);
        assert(body.skip(main.len() as int) =~= aux);
        let after = after_delivery(mid);
        assert(after.frames.len() == 0);
        let events = Seq::<EventView>::empty().push(delivered(p));
        assert(advanced(mid, a.at, Seq::empty()) == advanced(after, a.at, events));
        assert(events =~= seq![EventView::Frame { info, main, aux }]);
    } else {
        let i = choose|i: int| 0 <= i < count && !#[trigger] has_come(order, n + 1, i);
        assert(p.parts[i] is None);
        assert(!complete(p.parts));
        if nack is Some {
            assert(!nack_due(mid, a.at));
        } else if nack_due(mid, a.at) {
            assert(!gives_up(mid));
            let after = after_nack(mid, a.at);
            assert(after.frames[0] == some_parts(info, main, aux, order, n + 1, Some(a.at)));
        }
    }
}

proof fn lemma_fed_in(
    st: AssemblerView,
    info: FrameInfo,
    main: Seq<u8>,
    aux: Seq<u8>,
    order: Seq<Arrival>,
    n: int,
    first: u64,
)
    requires
        0 <= n <= order.len(),
        (main + aux).len() <= u16::MAX * part_payload(),
        st.frames.len() == 0,
        st.next <= info.frame_id < u64::MAX,
        are_arrivals(order, part_count((main + aux).len() as int), first),
    ensures
        ({
            let (after, events) = fed_in(st, info, main, aux, order, n);
            stands_at(st, after, events, info, main, aux, order, n, first)
        }),
    decreases n,
{
    lemma_part_payload();
    let body = main + aux;
    let count = part_count(body.len() as int);
    if n == 0 {
        assert(!has_come(order, 0, 0));
    } else {
        lemma_fed_in(st, info, main, aux, order, n - 1, first);
        let (before, events) = fed_in(st, info, main, aux, order, n - 1);
        let a = order[n - 1];
        let header = part_header(info, a.part, count, main.len() as int, body.len() as int);
        let (after, more) = on_packet_step(before, header, part_body(body, a.part), a.at);
        if all_come(order, n - 1, count) {
            law_late_parts_are_ignored(before, header, part_body(body, a.part), a.at);
            assert(events + more =~= events);
            assert forall|i: int| 0 <= i < count implies #[trigger] has_come(order, n, i) by {
                assert(has_come(order, n - 1, i));
                lemma_come_next(order, n - 1, i);
            }
        } else {
            assert(events =~= Seq::empty());
            lemma_one_more_arrival(st, before, info, main, aux, order, n - 1, first);
            assert(events + more =~= more);
        }
    }
}

/// A frame whose parts all come comes out as it was, once, in whatever order
/// they come and however often, as long as they come close together: within
/// the shortest wait for a part that was asked for.
pub proof fn law_order_and_repeats_do_not_matter(
    st: AssemblerView,
    info: FrameInfo,
    main: Seq<u8>,
    aux: Seq<u8>,
    order: Seq<Arrival>,
    first: u64,
)
    requires
        (main + aux).len() <= u16::MAX * part_payload(),
        st.frames.len() == 0,
        st.next <= info.frame_id < u64::MAX,
        are_arrivals(order, part_count((main + aux).len() as int), first),
        all_come(order, order.len() as int, part_count((main + aux).len() as int)),
    ensures
        ({
            let (after, events) = fed_in(st, info, main, aux, order, order.len() as int);
            &&& events == seq![EventView::Frame { info, main, aux }]
            &&& after.frames.len() == 0
            &&& after.next == info.frame_id + 1
        }),
{
    lemma_fed_in(st, info, main, aux, order, order.len() as int, first);
}

/// Whether a frame is waited for, with some of its parts, as it was split.
pub open spec fn is_part_of(p: PendingView, info: FrameInfo, main: Seq<u8>, aux: Seq<u8>) -> bool {
    let body = main + aux;
    &&& p.info == info
    &&& p.main_len == main.len()
    &&& p.total_len == body.len()
    &&& p.parts.len() == part_count(body.len() as int)
    &&& forall|i: int|
        0 <= i < p.parts.len() ==> (#[trigger] p.parts[i]) is None || p.parts[i] == Some(part_body(body, i))
}

/// `p` with what is among the first `n` arrivals.
spec fn filled(p: PendingView, body: Seq<u8>, order: Seq<Arrival>, n: int) -> PendingView {
    PendingView {
        parts: Seq::new(
            p.parts.len(),
            |i: int| if has_come(order, n, i) { Some(part_body(body, i)) } else { p.parts[i] },
        ),
        ..p
    }
}

proof fn lemma_resent(
    st: AssemblerView,
    info: FrameInfo,
    main: Seq<u8>,
    aux: Seq<u8>,
    order: Seq<Arrival>,
    n: int,
    asked_at: u64,
)
    requires
        0 <= n <= order.len(),
        (main + aux).len() <= u16::MAX * part_payload(),
        st.frames.len() == 1,
        is_part_of(st.frames[0], info, main, aux),
        !complete(st.frames[0].parts),
        st.frames[0].last_nack == Some(asked_at),
        st.next <= info.frame_id < u64::MAX,
        forall|k: int|
            0 <= k < order.len() ==> 0 <= (#[trigger] order[k]).part < part_count((main + aux).len() as int) && since(
                order[k].at,
                asked_at,
            ) < nack_interval_of(st.rtt),
    ensures
        ({
            let (after, events) = fed_in(st, info, main, aux, order, n);
            let p = filled(st.frames[0], main + aux, order, n);
            if complete(p.parts) {
                &&& events == seq![EventView::Frame { info, main, aux }]
                &&& after.frames.len() == 0
                &&& after.next == info.frame_id + 1
                &&& after.outgoing == st.outgoing
            } else {
                &&& events.len() == 0
                &&& after == (AssemblerView { frames: seq![p], ..st })
            }
        }),
    decreases n,
{
    lemma_part_payload();
    let body = main + aux;
    let count = part_count(body.len() as int);
    let p0 = st.frames[0];
    if n == 0 {
        assert(filled(p0, body, order, 0).parts =~= p0.parts);
        assert(st.frames =~= seq![p0]);
    } else {
        lemma_resent(st, info, main, aux, order, n - 1, asked_at);
        let (before, events) = fed_in(st, info, main, aux, order, n - 1);
        let was = filled(p0, body, order, n - 1);
        let p = filled(p0, body, order, n);
        let a = order[n - 1];
        let header = part_header(info, a.part, count, main.len() as int, body.len() as int);
        let (after, more) = on_packet_step(before, header, part_body(body, a.part), a.at);
        assert forall|i: int| 0 <= i < count implies has_come(order, n, i) == (has_come(order, n - 1, i) || a.part
            == i) by {
            lemma_come_next(order, n - 1, i);
        }
        if complete(was.parts) {
            law_late_parts_are_ignored(before, header, part_body(body, a.part), a.at);
            assert(events + more =~= events);
            assert forall|i: int| 0 <= i < p.parts.len() implies (#[trigger] p.parts[i]) is Some by {
                assert(was.parts[i] is Some);
            }
        } else {
            assert(events =~= Seq::empty());
            assert(events + more =~= more);
            reveal_with_fuel(super::assemble::before_id, 2);
            assert(has_id(before.frames, info.frame_id));
            let fresh = nothing_of(info, count as u16, main.len() as u32, body.len() as u32, a.at);
            assert(with_part(was, a.part, part_body(body, a.part)).parts =~= p.parts);
            assert(stored(before.frames, fresh, a.part, part_body(body, a.part)) =~= seq![p]);
            let mid = AssemblerView { frames: seq![p], ..st };
            if complete(p.parts) {
                assert forall|i: int| 0 <= i < p.parts.len() implies (#[trigger] p.parts[i]) == Some(
                    part_body(body, i),
                ) by {
                    assert(p.parts[i] is Some);
                    assert(p0.parts[i] is None || p0.parts[i] == Some(part_body(body, i)));
                }
                lemma_all_parts_join(body, p.parts, count);
                assert(p.parts.take(count) =~= p.parts);
                law_parts_join_to_the_frame(body);
                assert(flat(p.parts) == body);
                assert(body.take(main.len() as int) =~= main);
                assert(body.skip(main.len() as int) =~= aux);
                let done = after_delivery(mid);
                assert(done.frames.len() == 0);
                let out = Seq::<EventView>::empty().push(delivered(p));
                assert(advanced(mid, a.at, Seq::empty()) == advanced(done, a.at, out));
                assert(out =~= seq![EventView::Frame { info, main, aux }]);
            } else {
                assert(!nack_due(mid, a.at));
            }
        }
    }
}

/// A frame that misses parts is repaired: when those that were asked for come
/// within the wait for them, in whatever order, with or without others, the
/// frame comes out as it was, and nothing more is asked for.
pub proof fn law_resent_parts_complete_the_frame(
    st: AssemblerView,
    info: FrameInfo,
    main: Seq<u8>,
    aux: Seq<u8>,
    order: Seq<Arrival>,
    asked_at: u64,
)
    requires
        (main + aux).len() <= u16::MAX * part_payload(),
        st.frames.len() == 1,
        is_part_of(st.frames[0], info, main, aux),
        !complete(st.frames[0].parts),
        st.frames[0].last_nack == Some(asked_at),
        st.next <= info.frame_id < u64::MAX,
        forall|k: int|
            0 <= k < order.len() ==> 0 <= (#[trigger] order[k]).part < part_count((main + aux).len() as int) && since(
                order[k].at,
                asked_at,
            ) < nack_interval_of(st.rtt),
        forall|i: int|
            0 <= i < st.frames[0].parts.len() && (#[trigger] st.frames[0].parts[i]) is None ==> has_come(
                order,
                order.len() as int,
                i,
            ),
    ensures
        ({
            let (after, events) = fed_in(st, info, main, aux, order, order.len() as int);
            &&& events == seq![EventView::Frame { info, main, aux }]
            &&& after.frames.len() == 0
            &&& after.next == info.frame_id + 1
            &&& after.outgoing == st.outgoing
        }),
{
    let n = order.len() as int;
    let p0 = st.frames[0];
    lemma_resent(st, info, main, aux, order, n, asked_at);
    let p = filled(p0, main + aux, order, n);
    assert forall|i: int| 0 <= i < p.parts.len() implies (#[trigger] p.parts[i]) is Some by {
        assert(p0.parts[i] is None ==> has_come(order, n, i));
    }
    assert(complete(p.parts));
}

proof fn lemma_missing(parts: Seq<Option<Seq<u8>>>, m: u16)
    requires
        parts.len() <= u16::MAX,
    ensures
        missing_of(parts).contains(m) <==> m < parts.len() && parts[m as int] is None,
    decreases parts.len(),
{
    if parts.len() > 0 {
        let rest = parts.drop_last();
        let last = (parts.len() - 1) as u16;
        lemma_missing(rest, m);
        if parts.last() is None {
            let all = missing_of(rest).push(last);
            assert(missing_of(parts) =~= all);
            if missing_of(rest).contains(m) {
                let k = choose|k: int| 0 <= k < missing_of(rest).len() && missing_of(rest)[k] == m;
                assert(all[k] == m);
            }
            if m == last {
                assert(all[missing_of(rest).len() as int] == m);
            }
            if all.contains(m) && m != last {
                let k = choose|k: int| 0 <= k < all.len() && all[k] == m;
                assert(missing_of(rest)[k] == m);
            }
        }
    }
}

/// What a frame's NACK asks for is what has not come of it, and nothing else.
pub proof fn law_nacks_ask_for_what_is_missing(st: AssemblerView, now: u64, m: u16)
    requires
        st.frames.len() > 0,
        st.frames[0].parts.len() <= u16::MAX,
        !complete(st.frames[0].parts),
        nack_due(st, now),
        !gives_up(st),
    ensures
        ({
            let (after, events) = advanced(st, now, Seq::empty());
            let p = st.frames[0];
            &&& events == Seq::<EventView>::empty()
            &&& after.outgoing.len() == st.outgoing.len() + 1
            &&& after.outgoing.last() matches PacketView::Nack { frame_id, missing } && frame_id == p.info.frame_id && (
            missing.contains(m) <==> m < p.parts.len() && p.parts[m as int] is None)
        }),
{
    lemma_missing(st.frames[0].parts, m);
}

/// Whether a frame is acked in what came to `outgoing` from `from` on.
pub open spec fn is_acked(outgoing: Seq<PacketView>, from: int, id: u64) -> bool {
    exists|k: int|
        from <= k < outgoing.len() && #[trigger] outgoing[k] == (PacketView::Ack { frame_id: id, decoded_at_ms: 0 })
}

/// Whether every frame reported lost is acked in what came to `outgoing` from
/// `from` on.
pub open spec fn losses_acked(events: Seq<EventView>, outgoing: Seq<PacketView>, from: int) -> bool {
    forall|i: int|
        0 <= i < events.len() ==> ((#[trigger] events[i]) matches EventView::Lost(id) ==> is_acked(outgoing, from, id))
}

proof fn lemma_losses_acked(st: AssemblerView, now: u64, events: Seq<EventView>, before: Seq<PacketView>)
    requires
        before.len() <= st.outgoing.len(),
        st.outgoing.take(before.len() as int) == before,
        losses_acked(events, st.outgoing, before.len() as int),
    ensures
        ({
            let (after, all) = advanced(st, now, events);
            &&& before.len() <= after.outgoing.len()
            &&& after.outgoing.take(before.len() as int) == before
            &&& losses_acked(all, after.outgoing, before.len() as int)
        }),
    decreases st.frames.len(),
{
    let from = before.len() as int;
    if st.frames.len() > 0 {
        let p = st.frames[0];
        let (next, more) = if complete(p.parts) {
            (after_delivery(st), events.push(delivered(p)))
        } else if !nack_due(st, now) {
            (st, events)
        } else if gives_up(st) {
            (after_loss(st), events.push(EventView::Lost(p.info.frame_id)))
        } else {
            (after_nack(st, now), events)
        };
        let n = st.outgoing.len() as int;
        assert(next.outgoing.take(n) =~= st.outgoing);
        assert(next.outgoing.take(from) =~= st.outgoing.take(from));
        assert forall|i: int| 0 <= i < more.len() implies ((#[trigger] more[i]) matches EventView::Lost(id) ==> is_acked(
            next.outgoing,
            from,
            id,
        )) by {
            if let EventView::Lost(id) = more[i] {
                if i < events.len() {
                    assert(events[i] == more[i]);
                    let k = choose|k: int|
                        from <= k < st.outgoing.len() && #[trigger] st.outgoing[k] == (PacketView::Ack {
                            frame_id: id,
                            decoded_at_ms: 0,
                        });
                    assert(next.outgoing[k] == next.outgoing.take(n)[k]);
                } else {
                    assert(next.outgoing[n] == (PacketView::Ack { frame_id: id, decoded_at_ms: 0 }));
                }
            }
        }
        if complete(p.parts) || (nack_due(st, now) && gives_up(st)) {
            lemma_losses_acked(next, now, more, before);
        }
    }
}

/// A frame that the timers report lost has been acked: its ack is among the
/// packets that they queued, behind those that waited.
pub proof fn law_tick_acks_what_is_lost(st: AssemblerView, now: u64)
    ensures
        ({
            let (after, events) = advanced(st, now, Seq::empty());
            &&& st.outgoing.len() <= after.outgoing.len()
            &&& after.outgoing.take(st.outgoing.len() as int) == st.outgoing
            &&& losses_acked(events, after.outgoing, st.outgoing.len() as int)
        }),
{
    assert(st.outgoing.take(st.outgoing.len() as int) =~= st.outgoing);
    lemma_losses_acked(st, now, Seq::empty(), st.outgoing);
}

/// A frame that is reported lost when a packet comes has been acked: its ack
/// is among the packets that were queued, behind those that waited.
pub proof fn law_packets_ack_what_is_lost(st: AssemblerView, packet: PacketView, bytes: Seq<u8>, now: u64)
    ensures
        ({
            let (after, events) = on_packet_step(st, packet, bytes, now);
            &&& st.outgoing.len() <= after.outgoing.len()
            &&& after.outgoing.take(st.outgoing.len() as int) == st.outgoing
            &&& losses_acked(events, after.outgoing, st.outgoing.len() as int)
        }),
{
    assert(st.outgoing.take(st.outgoing.len() as int) =~= st.outgoing);
    if let PacketView::Part { frame_id, index, count, keyframe, reference, pts_us, main_len, total_len } = packet {
        let fresh = nothing_of(FrameInfo { frame_id, keyframe, reference, pts_us }, count, main_len, total_len, now);
        law_tick_acks_what_is_lost(
            (AssemblerView { frames: stored(st.frames, fresh, index as int, bytes), ..st }),
            now,
        );
    }
}

/// Parts are asked for again after one and a quarter round trips, but not
/// sooner than 8 ms nor later than 250 ms.
pub proof fn law_the_wait_between_requests(rtt: u64)
    ensures
        ({
            let (wait, want) = (nack_interval_of(rtt), rtt + rtt / 4);
            &&& 8_000_000 <= wait <= 250_000_000
            &&& 8_000_000 <= want <= 250_000_000 ==> wait == want
            &&& want < 8_000_000 ==> wait == 8_000_000
            &&& want > 250_000_000 ==> wait == 250_000_000
        }),
{
}

/// Nothing is asked for and nothing is given up before its time: the first
/// request waits until a later part or frame shows the gap, or half the wait
/// is over; the next ones wait it out.
pub proof fn law_requests_wait_for_their_time(st: AssemblerView, now: u64)
    requires
        in_order(st),
        st.frames.len() > 0,
        !complete(st.frames[0].parts),
        st.frames[0].nacks < u32::MAX,
        st.frames[0].first_seen <= now,
        st.frames[0].last_nack matches Some(t) ==> t <= now,
    ensures
        ({
            let p = st.frames[0];
            let wait = nack_interval_of(st.rtt);
            let gap = exists|i: int, j: int|
                0 <= i < j < p.parts.len() && (#[trigger] p.parts[i]) is None && (#[trigger] p.parts[j]) is Some;
            let due = match p.last_nack {
                None => st.frames.len() > 1 || gap || now - p.first_seen >= wait / 2,
                Some(t) => now - t >= wait,
            };
            let (after, events) = advanced(st, now, Seq::empty());
            &&& !due ==> after == st && events == Seq::<EventView>::empty()
            &&& due && p.nacks < 2 && st.frames.len() <= 7 ==> events == Seq::<EventView>::empty() && after.frames.len()
                == st.frames.len() && after.frames[0].last_nack == Some(now) && after.frames[0].nacks == p.nacks + 1
                && after.stats.nacks == (st.stats.nacks + 1) as u64 && after.frames[0].parts == p.parts
                && after.frames.drop_first() == st.frames.drop_first() && after.next == st.next
            &&& due && (p.nacks >= 2 || st.frames.len() > 7) ==> events.len() > 0 && events[0] == EventView::Lost(
                p.info.frame_id,
            ) && after.next > p.info.frame_id
        }),
{
    let p = st.frames[0];
    let (after, events) = advanced(st, now, Seq::empty());
    if nack_due(st, now) {
        if gives_up(st) {
            let e = Seq::<EventView>::empty().push(EventView::Lost(p.info.frame_id));
            lemma_in_order_tail(st);
            lemma_events_stay(after_loss(st), now, e);
            lemma_next_rises(after_loss(st), now, e);
            assert(events.take(1)[0] == e[0]);
        } else {
            assert(after.frames.drop_first() =~= st.frames.drop_first());
        }
    }
}

proof fn lemma_events_stay(st: AssemblerView, now: u64, events: Seq<EventView>)
    ensures
        advanced(st, now, events).1.len() >= events.len(),
        advanced(st, now, events).1.take(events.len() as int) == events,
    decreases st.frames.len(),
{
    if st.frames.len() == 0 {
        assert(events.take(events.len() as int) =~= events);
    } else if complete(st.frames[0].parts) {
        let more = events.push(delivered(st.frames[0]));
        lemma_events_stay(after_delivery(st), now, more);
        let all = advanced(st, now, events).1;
        assert(all.take(events.len() as int) =~= all.take(more.len() as int).take(events.len() as int));
        assert(more.take(events.len() as int) =~= events);
    } else if nack_due(st, now) && gives_up(st) {
        let more = events.push(EventView::Lost(st.frames[0].info.frame_id));
        lemma_events_stay(after_loss(st), now, more);
        let all = advanced(st, now, events).1;
        assert(all.take(events.len() as int) =~= all.take(more.len() as int).take(events.len() as int));
        assert(more.take(events.len() as int) =~= events);
    } else {
        assert(events.take(events.len() as int) =~= events);
    }
}

proof fn lemma_next_rises(st: AssemblerView, now: u64, events: Seq<EventView>)
    requires
        in_order(st),
    ensures
        advanced(st, now, events).0.next >= st.next,
    decreases st.frames.len(),
{
    if st.frames.len() > 0 {
        if complete(st.frames[0].parts) {
            lemma_in_order_tail(st);
            lemma_next_rises(after_delivery(st), now, events.push(delivered(st.frames[0])));
        } else if nack_due(st, now) && gives_up(st) {
            lemma_in_order_tail(st);
            lemma_next_rises(after_loss(st), now, events.push(EventView::Lost(st.frames[0].info.frame_id)));
        }
    }
}

proof fn lemma_flat(parts: Seq<Option<Seq<u8>>>)
    requires
        complete(parts),
    ensures
        flat(parts) == parts.map_values(|p: Option<Seq<u8>>| p->0).flatten_alt(),
    decreases parts.len(),
{
    let open = |p: Option<Seq<u8>>| p->0;
    if parts.len() > 0 {
        let front = parts.drop_last();
        assert forall|i: int| 0 <= i < front.len() implies (#[trigger] front[i]) is Some by {
            assert(front[i] == parts[i]);
        }
        lemma_flat(front);
        assert(parts.map_values(open).drop_last() =~= front.map_values(open));
        assert(parts[parts.len() - 1] is Some);
    }
}

/// A complete frame comes out as its parts, one behind the other, cut where
/// its header says the second stream begins; only one whose parts do not add
/// up to its header is lost. It is counted, and as repaired where parts of it
/// had to be asked for.
pub proof fn law_complete_frames_come_out_in_one_piece(st: AssemblerView, now: u64)
    requires
        st.frames.len() > 0,
        complete(st.frames[0].parts),
        st.frames[0].main_len >= 0,
    ensures
        ({
            let p = st.frames[0];
            let body = p.parts.map_values(|x: Option<Seq<u8>>| x->0).flatten_alt();
            let first = advanced(st, now, Seq::empty()).1[0];
            let after = after_delivery(st);
            &&& advanced(st, now, Seq::empty()).1.len() > 0
            &&& body.len() == p.total_len && p.main_len <= p.total_len ==> first == (EventView::Frame {
                info: p.info,
                main: body.take(p.main_len),
                aux: body.skip(p.main_len),
            }) && after.outgoing == st.outgoing && after.stats.lost == st.stats.lost as u64
            &&& body.len() != p.total_len || p.main_len > p.total_len ==> first == EventView::Lost(p.info.frame_id)
            &&& st.stats.frames < u64::MAX ==> after.stats.frames == st.stats.frames + 1
            &&& st.stats.repaired < u64::MAX ==> after.stats.repaired == st.stats.repaired + (if p.nacks > 0 {
                1int
            } else {
                0
            })
            &&& after.stats.nacks == st.stats.nacks
            &&& after.next == (p.info.frame_id + 1) as u64
            &&& after.frames == st.frames.drop_first()
        }),
{
    let p = st.frames[0];
    lemma_flat(p.parts);
    let e = Seq::<EventView>::empty().push(delivered(p));
    lemma_events_stay(after_delivery(st), now, e);
    let all = advanced(st, now, Seq::empty()).1;
    assert(all.take(1)[0] == e[0]);
}

proof fn lemma_missing_in_order(parts: Seq<Option<Seq<u8>>>)
    requires
        parts.len() <= u16::MAX,
    ensures
        forall|i: int, j: int|
            0 <= i < j < missing_of(parts).len() ==> #[trigger] missing_of(parts)[i] < #[trigger] missing_of(parts)[j],
        forall|i: int| 0 <= i < missing_of(parts).len() ==> #[trigger] missing_of(parts)[i] < parts.len(),
    decreases parts.len(),
{
    if parts.len() > 0 {
        lemma_missing_in_order(parts.drop_last());
        let (all, front) = (missing_of(parts), missing_of(parts.drop_last()));
        assert forall|i: int| 0 <= i < all.len() implies #[trigger] all[i] < parts.len() by {
            if i < front.len() {
                assert(all[i] == front[i]);
            }
        }
        assert forall|i: int, j: int| 0 <= i < j < all.len() implies #[trigger] all[i] < #[trigger] all[j] by {
            assert(all[i] == front[i]);
            if j < front.len() {
                assert(all[j] == front[j]);
            }
        }
    }
}

/// A request names each part that is missing once, lowest first.
pub proof fn law_requests_name_parts_once(parts: Seq<Option<Seq<u8>>>, m: u16)
    requires
        parts.len() <= u16::MAX,
    ensures
        missing_of(parts).contains(m) <==> m < parts.len() && parts[m as int] is None,
        forall|i: int, j: int|
            0 <= i < j < missing_of(parts).len() ==> #[trigger] missing_of(parts)[i] < #[trigger] missing_of(parts)[j],
{
    lemma_missing(parts, m);
    lemma_missing_in_order(parts);
}

} // verus!
