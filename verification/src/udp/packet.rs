//! What one datagram carries, and its bytes.

use super::varint::{
    law_varint_round_trip, read_bool, read_len, read_u16, read_u16s, read_u16s_rest, read_u32,
    read_u64, take_bool, take_u16, take_u16s, take_u32, take_u64, varint, write_u64,
};
use vstd::prelude::*;
use vstd::slice::slice_subrange;

verus! {

/// What one datagram carries.
#[derive(Debug, Clone, PartialEq, Eq)]
pub enum Packet {
    /// Client to server: is the path open, and what is its RTT. Also the
    /// keepalive that holds a NAT mapping. `t` only rises.
    Probe { t: u64 },
    ProbeAck { t: u64 },
    /// One part of a frame; the part's bytes follow. The header repeats
    /// in every part so no single loss can hide the frame.
    Part {
        frame_id: u64,
        index: u16,
        count: u16,
        keyframe: bool,
        reference: Option<u64>,
        pts_us: u64,
        main_len: u32,
        total_len: u32,
    },
    /// Client to server: send these parts of this frame again.
    Nack { frame_id: u64, missing: Vec<u16> },
    /// Client to server: every frame up to this one is decoded or dropped.
    Ack { frame_id: u64, decoded_at_ms: u64 },
    /// Client to server: the picture is broken behind this frame.
    Recover { last_good: Option<u64> },
}

#[verifier::ext_equal]
pub enum PacketView {
    Probe { t: u64 },
    ProbeAck { t: u64 },
    Part {
        frame_id: u64,
        index: u16,
        count: u16,
        keyframe: bool,
        reference: Option<u64>,
        pts_us: u64,
        main_len: u32,
        total_len: u32,
    },
    Nack { frame_id: u64, missing: Seq<u16> },
    Ack { frame_id: u64, decoded_at_ms: u64 },
    Recover { last_good: Option<u64> },
}

impl View for Packet {
    type V = PacketView;

    open spec fn view(&self) -> PacketView {
        match *self {
            Packet::Probe { t } => PacketView::Probe { t },
            Packet::ProbeAck { t } => PacketView::ProbeAck { t },
            Packet::Part { frame_id, index, count, keyframe, reference, pts_us, main_len, total_len } =>
                PacketView::Part { frame_id, index, count, keyframe, reference, pts_us, main_len, total_len },
            Packet::Nack { frame_id, missing } => PacketView::Nack { frame_id, missing: missing@ },
            Packet::Ack { frame_id, decoded_at_ms } => PacketView::Ack { frame_id, decoded_at_ms },
            Packet::Recover { last_good } => PacketView::Recover { last_good },
        }
    }
}

/// A truth value as a number.
pub open spec fn bit_of(b: bool) -> nat {
    if b {
        1
    } else {
        0
    }
}

/// The bytes of an optional number: a mark, then the number if there is one.
pub open spec fn option_bytes(v: Option<u64>) -> Seq<u8> {
    match v {
        None => varint(0),
        Some(n) => varint(1) + varint(n as nat),
    }
}

/// The bytes of numbers in a row.
pub open spec fn items_bytes(list: Seq<u16>) -> Seq<u8>
    decreases list.len(),
{
    if list.len() == 0 {
        Seq::empty()
    } else {
        items_bytes(list.drop_last()) + varint(list.last() as nat)
    }
}

/// The bytes of a packet: the number of its kind, then its fields.
pub open spec fn packet_bytes(p: PacketView) -> Seq<u8> {
    match p {
        PacketView::Probe { t } => varint(0) + varint(t as nat),
        PacketView::ProbeAck { t } => varint(1) + varint(t as nat),
        PacketView::Part { frame_id, index, count, keyframe, reference, pts_us, main_len, total_len } => varint(2)
            + varint(frame_id as nat) + varint(index as nat) + varint(count as nat) + varint(bit_of(keyframe))
            + option_bytes(reference) + varint(pts_us as nat) + varint(main_len as nat) + varint(total_len as nat),
        PacketView::Nack { frame_id, missing } => varint(3) + varint(frame_id as nat) + varint(missing.len())
            + items_bytes(missing),
        PacketView::Ack { frame_id, decoded_at_ms } => varint(4) + varint(frame_id as nat) + varint(
            decoded_at_ms as nat,
        ),
        PacketView::Recover { last_good } => varint(5) + option_bytes(last_good),
    }
}

/// The 64-bit number at `at` in `s`, and where it ends.
pub open spec fn u64_at(s: Seq<u8>, at: int) -> Option<(u64, int)> {
    match read_u64(s.skip(at)) {
        None => None,
        Some((v, n)) => Some((v as u64, at + n)),
    }
}

/// The 32-bit number at `at` in `s`, and where it ends.
pub open spec fn u32_at(s: Seq<u8>, at: int) -> Option<(u32, int)> {
    match read_u32(s.skip(at)) {
        None => None,
        Some((v, n)) => Some((v as u32, at + n)),
    }
}

/// The 16-bit number at `at` in `s`, and where it ends.
pub open spec fn u16_at(s: Seq<u8>, at: int) -> Option<(u16, int)> {
    match read_u16(s.skip(at)) {
        None => None,
        Some((v, n)) => Some((v as u16, at + n)),
    }
}

/// The truth value at `at` in `s`, and where it ends.
pub open spec fn bool_at(s: Seq<u8>, at: int) -> Option<(bool, int)> {
    match read_bool(s.skip(at)) {
        None => None,
        Some((v, n)) => Some((v, at + n)),
    }
}

/// The optional number at `at` in `s`, and where it ends.
pub open spec fn option_at(s: Seq<u8>, at: int) -> Option<(Option<u64>, int)> {
    match bool_at(s, at) {
        None => None,
        Some((false, end)) => Some((None, end)),
        Some((true, end)) => match u64_at(s, end) {
            None => None,
            Some((v, end2)) => Some((Some(v), end2)),
        },
    }
}

/// The list of numbers at `at` in `s`, and where it ends.
pub open spec fn list_at(s: Seq<u8>, at: int) -> Option<(Seq<u16>, int)> {
    match read_u16s(s.skip(at)) {
        None => None,
        Some((v, n)) => Some((v, at + n)),
    }
}

/// The fields of a `Part` at `at` in `s`.
pub open spec fn part_at(s: Seq<u8>, at: int) -> Option<(PacketView, int)> {
    match u64_at(s, at) {
        None => None,
        Some((frame_id, p1)) => match u16_at(s, p1) {
            None => None,
            Some((index, p2)) => match u16_at(s, p2) {
                None => None,
                Some((count, p3)) => match bool_at(s, p3) {
                    None => None,
                    Some((keyframe, p4)) => match option_at(s, p4) {
                        None => None,
                        Some((reference, p5)) => match u64_at(s, p5) {
                            None => None,
                            Some((pts_us, p6)) => match u32_at(s, p6) {
                                None => None,
                                Some((main_len, p7)) => match u32_at(s, p7) {
                                    None => None,
                                    Some((total_len, p8)) => Some(
                                        (
                                            (PacketView::Part {
                                                frame_id,
                                                index,
                                                count,
                                                keyframe,
                                                reference,
                                                pts_us,
                                                main_len,
                                                total_len,
                                            }),
                                            p8,
                                        ),
                                    ),
                                },
                            },
                        },
                    },
                },
            },
        },
    }
}

/// The packet at the start of `s`, and where it ends.
pub open spec fn packet_at_start(s: Seq<u8>) -> Option<(PacketView, int)> {
    match u32_at(s, 0) {
        None => None,
        Some((kind, p)) => if kind == 0 {
            match u64_at(s, p) {
                None => None,
                Some((t, end)) => Some(((PacketView::Probe { t }), end)),
            }
        } else if kind == 1 {
            match u64_at(s, p) {
                None => None,
                Some((t, end)) => Some(((PacketView::ProbeAck { t }), end)),
            }
        } else if kind == 2 {
            part_at(s, p)
        } else if kind == 3 {
            match u64_at(s, p) {
                None => None,
                Some((frame_id, p1)) => match list_at(s, p1) {
                    None => None,
                    Some((missing, end)) => Some(((PacketView::Nack { frame_id, missing }), end)),
                },
            }
        } else if kind == 4 {
            match u64_at(s, p) {
                None => None,
                Some((frame_id, p1)) => match u64_at(s, p1) {
                    None => None,
                    Some((decoded_at_ms, end)) => Some(((PacketView::Ack { frame_id, decoded_at_ms }), end)),
                },
            }
        } else if kind == 5 {
            match option_at(s, p) {
                None => None,
                Some((last_good, end)) => Some(((PacketView::Recover { last_good }), end)),
            }
        } else {
            None
        },
    }
}

/// Append a number.
fn put(out: &mut Vec<u8>, v: u64)
    ensures
        final(out)@ == old(out)@ + varint(v as nat),
{
    let mut bytes: Vec<u8> = write_u64(v);
    out.append(&mut bytes);
}

fn put_option(out: &mut Vec<u8>, v: Option<u64>)
    ensures
        final(out)@ == old(out)@ + option_bytes(v),
{
    match v {
        None => {
            put(out, 0);
        },
        Some(n) => {
            put(out, 1);
            put(out, n);
            assert(out@ =~= old(out)@ + option_bytes(v));
        },
    }
}

fn put_list(out: &mut Vec<u8>, list: &Vec<u16>)
    ensures
        final(out)@ == old(out)@ + varint(list@.len()) + items_bytes(list@),
{
    put(out, list.len() as u64);
    let ghost start = out@;
    for i in 0..list.len()
        invariant
            out@ == start + items_bytes(list@.take(i as int)),
    {
        let ghost before = out@;
        put(out, list[i] as u64);
        proof {
            assert(list@.take(i + 1).drop_last() =~= list@.take(i as int));
            assert(out@ =~= start + items_bytes(list@.take(i + 1)));
        }
    }
    assert(list@.take(list@.len() as int) =~= list@);
}

/// The bytes of a packet.
pub fn packet_to_vec(p: &Packet) -> (out: Vec<u8>)
    ensures
        out@ == packet_bytes(p@),
{
    let mut out: Vec<u8> = Vec::new();
    match p {
        Packet::Probe { t } => {
            put(&mut out, 0);
            put(&mut out, *t);
        },
        Packet::ProbeAck { t } => {
            put(&mut out, 1);
            put(&mut out, *t);
        },
        Packet::Part { frame_id, index, count, keyframe, reference, pts_us, main_len, total_len } => {
            put(&mut out, 2);
            put(&mut out, *frame_id);
            put(&mut out, *index as u64);
            put(&mut out, *count as u64);
            put(&mut out, if *keyframe { 1 } else { 0 });
            put_option(&mut out, *reference);
            put(&mut out, *pts_us);
            put(&mut out, *main_len as u64);
            put(&mut out, *total_len as u64);
        },
        Packet::Nack { frame_id, missing } => {
            put(&mut out, 3);
            put(&mut out, *frame_id);
            put_list(&mut out, missing);
        },
        Packet::Ack { frame_id, decoded_at_ms } => {
            put(&mut out, 4);
            put(&mut out, *frame_id);
            put(&mut out, *decoded_at_ms);
        },
        Packet::Recover { last_good } => {
            put(&mut out, 5);
            put_option(&mut out, *last_good);
        },
    }
    assert(out@ =~= packet_bytes(p@));
    out
}

/// Whether a reading step gave what stands there, within the bytes.
pub open spec fn took<T>(res: Option<(T, usize)>, len: nat, want: Option<(T, int)>) -> bool {
    match (res, want) {
        (Some((v, n)), Some((w, m))) => v == w && n == m && n <= len,
        (None, None) => true,
        _ => false,
    }
}

fn next_u64(s: &[u8], at: usize) -> (res: Option<(u64, usize)>)
    requires
        at <= s@.len(),
    ensures
        took(res, s@.len(), u64_at(s@, at as int)),
{
    let tail = slice_subrange(s, at, s.len());
    assert(tail@ =~= s@.skip(at as int));
    match take_u64(tail) {
        Some((v, n)) => Some((v, at + n)),
        None => None,
    }
}

fn next_u32(s: &[u8], at: usize) -> (res: Option<(u32, usize)>)
    requires
        at <= s@.len(),
    ensures
        took(res, s@.len(), u32_at(s@, at as int)),
{
    let tail = slice_subrange(s, at, s.len());
    assert(tail@ =~= s@.skip(at as int));
    match take_u32(tail) {
        Some((v, n)) => Some((v, at + n)),
        None => None,
    }
}

fn next_u16(s: &[u8], at: usize) -> (res: Option<(u16, usize)>)
    requires
        at <= s@.len(),
    ensures
        took(res, s@.len(), u16_at(s@, at as int)),
{
    let tail = slice_subrange(s, at, s.len());
    assert(tail@ =~= s@.skip(at as int));
    match take_u16(tail) {
        Some((v, n)) => Some((v, at + n)),
        None => None,
    }
}

fn next_bool(s: &[u8], at: usize) -> (res: Option<(bool, usize)>)
    requires
        at <= s@.len(),
    ensures
        took(res, s@.len(), bool_at(s@, at as int)),
{
    let tail = slice_subrange(s, at, s.len());
    assert(tail@ =~= s@.skip(at as int));
    match take_bool(tail) {
        Some((v, n)) => Some((v, at + n)),
        None => None,
    }
}

fn next_option(s: &[u8], at: usize) -> (res: Option<(Option<u64>, usize)>)
    requires
        at <= s@.len(),
    ensures
        took(res, s@.len(), option_at(s@, at as int)),
{
    match next_bool(s, at) {
        None => None,
        Some((false, end)) => Some((None, end)),
        Some((true, end)) => match next_u64(s, end) {
            None => None,
            Some((v, end2)) => Some((Some(v), end2)),
        },
    }
}

fn next_part(s: &[u8], at: usize) -> (res: Option<(Packet, usize)>)
    requires
        at <= s@.len(),
    ensures
        match (res, part_at(s@, at as int)) {
            (Some((p, n)), Some((q, m))) => p@ == q && n == m && n <= s@.len(),
            (None, None) => true,
            _ => false,
        },
{
    let (frame_id, at): (u64, usize) = match next_u64(s, at) {
        Some(v) => v,
        None => return None,
    };
    let (index, at): (u16, usize) = match next_u16(s, at) {
        Some(v) => v,
        None => return None,
    };
    let (count, at): (u16, usize) = match next_u16(s, at) {
        Some(v) => v,
        None => return None,
    };
    let (keyframe, at): (bool, usize) = match next_bool(s, at) {
        Some(v) => v,
        None => return None,
    };
    let (reference, at): (Option<u64>, usize) = match next_option(s, at) {
        Some(v) => v,
        None => return None,
    };
    let (pts_us, at): (u64, usize) = match next_u64(s, at) {
        Some(v) => v,
        None => return None,
    };
    let (main_len, at): (u32, usize) = match next_u32(s, at) {
        Some(v) => v,
        None => return None,
    };
    let (total_len, at): (u32, usize) = match next_u32(s, at) {
        Some(v) => v,
        None => return None,
    };
    Some((Packet::Part { frame_id, index, count, keyframe, reference, pts_us, main_len, total_len }, at))
}

/// The packet at the start of `s` and the bytes it takes; `None` when there
/// is none.
pub fn take_packet(s: &[u8]) -> (res: Option<(Packet, usize)>)
    ensures
        match (res, packet_at_start(s@)) {
            (Some((p, n)), Some((q, m))) => p@ == q && n == m && n <= s@.len(),
            (None, None) => true,
            _ => false,
        },
{
    let (kind, at): (u32, usize) = match next_u32(s, 0) {
        Some(v) => v,
        None => return None,
    };
    match kind {
        0 => match next_u64(s, at) {
            Some((t, end)) => Some((Packet::Probe { t }, end)),
            None => None,
        },
        1 => match next_u64(s, at) {
            Some((t, end)) => Some((Packet::ProbeAck { t }, end)),
            None => None,
        },
        2 => next_part(s, at),
        3 => match next_u64(s, at) {
            Some((frame_id, at2)) => {
                let tail = slice_subrange(s, at2, s.len());
                assert(tail@ =~= s@.skip(at2 as int));
                match take_u16s(tail) {
                    Some((missing, n)) => Some((Packet::Nack { frame_id, missing }, at2 + n)),
                    None => None,
                }
            },
            None => None,
        },
        4 => match next_u64(s, at) {
            Some((frame_id, at2)) => match next_u64(s, at2) {
                Some((decoded_at_ms, end)) => Some((Packet::Ack { frame_id, decoded_at_ms }, end)),
                None => None,
            },
            None => None,
        },
        5 => match next_option(s, at) {
            Some((last_good, end)) => Some((Packet::Recover { last_good }, end)),
            None => None,
        },
        _ => None,
    }
}

proof fn lemma_assoc(a: Seq<u8>, b: Seq<u8>, c: Seq<u8>)
    ensures
        (a + b) + c == a + (b + c),
{
    assert((a + b) + c =~= a + (b + c));
}

/// A number that stands at `at` in `s` is read back.
proof fn lemma_at(s: Seq<u8>, at: int, v: u64, tail: Seq<u8>)
    requires
        0 <= at <= s.len(),
        s.skip(at) == varint(v as nat) + tail,
    ensures
        u64_at(s, at) == Some((v, at + varint(v as nat).len())),
        v <= u32::MAX ==> u32_at(s, at) == Some((v as u32, at + varint(v as nat).len())),
        v <= u16::MAX ==> u16_at(s, at) == Some((v as u16, at + varint(v as nat).len())),
        v <= 1 ==> bool_at(s, at) == Some((v == 1, at + varint(v as nat).len())),
        at + varint(v as nat).len() <= s.len(),
        s.skip(at + varint(v as nat).len()) == tail,
{
    law_varint_round_trip(v, tail);
    assert(s.skip(at).len() == s.len() - at);
    assert(s.skip(at).skip(varint(v as nat).len() as int) =~= s.skip(at + varint(v as nat).len()));
    assert((varint(v as nat) + tail).skip(varint(v as nat).len() as int) =~= tail);
}

/// An optional number that stands at `at` in `s` is read back.
proof fn lemma_option_at(s: Seq<u8>, at: int, v: Option<u64>, tail: Seq<u8>)
    requires
        0 <= at <= s.len(),
        s.skip(at) == option_bytes(v) + tail,
    ensures
        option_at(s, at) == Some((v, at + option_bytes(v).len())),
        at + option_bytes(v).len() <= s.len(),
        s.skip(at + option_bytes(v).len()) == tail,
{
    match v {
        None => {
            lemma_at(s, at, 0, tail);
        },
        Some(n) => {
            lemma_assoc(varint(1), varint(n as nat), tail);
            lemma_at(s, at, 1, varint(n as nat) + tail);
            lemma_at(s, at + varint(1).len(), n, tail);
        },
    }
}

/// The bytes of a list are those of its first number and of the rest.
proof fn lemma_items_first(list: Seq<u16>)
    requires
        list.len() > 0,
    ensures
        items_bytes(list) == varint(list[0] as nat) + items_bytes(list.skip(1)),
    decreases list.len(),
{
    if list.len() == 1 {
        assert(list.drop_last() =~= Seq::empty());
        assert(list.skip(1) =~= Seq::empty());
        assert(items_bytes(Seq::<u16>::empty()) =~= Seq::empty());
        assert(items_bytes(list) =~= varint(list[0] as nat));
    } else {
        lemma_items_first(list.drop_last());
        assert(list.drop_last().skip(1) =~= list.skip(1).drop_last());
        assert(list.skip(1).last() == list.last());
        assert(items_bytes(list) =~= varint(list[0] as nat) + items_bytes(list.skip(1)));
    }
}

/// The numbers of a list that stands at `at` are read back.
proof fn lemma_items_read_back(s: Seq<u8>, at: nat, done: Seq<u16>, list: Seq<u16>, post: Seq<u8>)
    requires
        at <= s.len(),
        s.skip(at as int) == items_bytes(list) + post,
    ensures
        read_u16s_rest(s, at, list.len(), done) == Some((done + list, at + items_bytes(list).len())),
    decreases list.len(),
{
    if list.len() == 0 {
        assert(done + list =~= done);
    } else {
        lemma_items_first(list);
        let head = varint(list[0] as nat);
        let tail = items_bytes(list.skip(1)) + post;
        assert(s.skip(at as int) =~= head + tail);
        law_varint_round_trip(list[0] as u64, tail);
        assert(s.skip((at + head.len()) as int) =~= tail) by {
            assert(s.skip(at as int).skip(head.len() as int) =~= s.skip((at + head.len()) as int));
        }
        lemma_items_read_back(s, at + head.len(), done.push(list[0]), list.skip(1), post);
        assert(done.push(list[0]) + list.skip(1) =~= done + list);
    }
}

/// Every packet is read back from its bytes, whatever follows them.
pub proof fn law_packet_round_trip(p: PacketView, rest: Seq<u8>)
    requires
        p matches PacketView::Nack { missing, .. } ==> missing.len() <= usize::MAX,
    ensures
        packet_at_start(packet_bytes(p) + rest) == Some((p, packet_bytes(p).len() as int)),
{
    let s = packet_bytes(p) + rest;
    assert(s.skip(0) =~= s);
    match p {
        PacketView::Probe { t } => {
            lemma_assoc(varint(0), varint(t as nat), rest);
            lemma_at(s, 0, 0, varint(t as nat) + rest);
            lemma_at(s, varint(0).len() as int, t, rest);
        },
        PacketView::ProbeAck { t } => {
            lemma_assoc(varint(1), varint(t as nat), rest);
            lemma_at(s, 0, 1, varint(t as nat) + rest);
            lemma_at(s, varint(1).len() as int, t, rest);
        },
        PacketView::Part { .. } => {
            lemma_part_round_trip(p, rest);
        },
        PacketView::Nack { frame_id, missing } => {
            lemma_nack_round_trip(frame_id, missing, rest);
        },
        PacketView::Ack { frame_id, decoded_at_ms } => {
            let t2 = varint(decoded_at_ms as nat) + rest;
            lemma_assoc(varint(4) + varint(frame_id as nat), varint(decoded_at_ms as nat), rest);
            lemma_assoc(varint(4), varint(frame_id as nat), t2);
            lemma_at(s, 0, 4, varint(frame_id as nat) + t2);
            lemma_at(s, varint(4).len() as int, frame_id, t2);
            lemma_at(s, (varint(4).len() + varint(frame_id as nat).len()) as int, decoded_at_ms, rest);
        },
        PacketView::Recover { last_good } => {
            lemma_assoc(varint(5), option_bytes(last_good), rest);
            lemma_at(s, 0, 5, option_bytes(last_good) + rest);
            lemma_option_at(s, varint(5).len() as int, last_good, rest);
        },
    }
}

/// A list that stands at `at` is read back.
proof fn lemma_list_at(s: Seq<u8>, at: int, list: Seq<u16>, rest: Seq<u8>)
    requires
        list.len() <= usize::MAX,
        0 <= at <= s.len(),
        s.skip(at) == varint(list.len()) + (items_bytes(list) + rest),
    ensures
        list_at(s, at) == Some((list, (at + varint(list.len()).len() + items_bytes(list).len()) as int)),
{
    let tail = s.skip(at);
    let head = varint(list.len());
    law_varint_round_trip(list.len() as u64, items_bytes(list) + rest);
    assert(read_len(tail) == Some((list.len(), head.len())));
    assert(tail.skip(head.len() as int) =~= items_bytes(list) + rest);
    lemma_items_read_back(tail, head.len(), Seq::empty(), list, rest);
    assert(Seq::<u16>::empty() + list =~= list);
}

#[verifier::rlimit(40)]
proof fn lemma_nack_round_trip(frame_id: u64, missing: Seq<u16>, rest: Seq<u8>)
    requires
        missing.len() <= usize::MAX,
    ensures
        ({
            let p = PacketView::Nack { frame_id, missing };
            packet_at_start(packet_bytes(p) + rest) == Some((p, packet_bytes(p).len() as int))
        }),
{
    let s = packet_bytes(PacketView::Nack { frame_id, missing }) + rest;
    assert(s.skip(0) =~= s);
    let f1 = varint(frame_id as nat);
    let f2 = varint(missing.len());
    let f3 = items_bytes(missing);
    let t2 = f3 + rest;
    let t1 = f2 + t2;
    lemma_assoc(varint(3) + f1 + f2, f3, rest);
    lemma_assoc(varint(3) + f1, f2, t2);
    lemma_assoc(varint(3), f1, t1);
    lemma_at(s, 0, 3, f1 + t1);
    lemma_at(s, varint(3).len() as int, frame_id, t1);
    lemma_list_at(s, (varint(3).len() + f1.len()) as int, missing, rest);
}

/// The fields of a `Part` and what follows them, as they are read.
spec fn part_fields(p: PacketView, rest: Seq<u8>) -> Seq<u8> {
    match p {
        PacketView::Part { frame_id, index, count, keyframe, reference, pts_us, main_len, total_len } => varint(
            frame_id as nat,
        ) + (varint(index as nat) + (varint(count as nat) + (varint(bit_of(keyframe)) + (option_bytes(reference) + (
        varint(pts_us as nat) + (varint(main_len as nat) + (varint(total_len as nat) + rest))))))),
        _ => rest,
    }
}

proof fn lemma_part_fields(p: PacketView, rest: Seq<u8>)
    requires
        p is Part,
    ensures
        packet_bytes(p) + rest == varint(2) + part_fields(p, rest),
{
    if let PacketView::Part { frame_id, index, count, keyframe, reference, pts_us, main_len, total_len } = p {
        let h0 = varint(2);
        let h1 = h0 + varint(frame_id as nat);
        let h2 = h1 + varint(index as nat);
        let h3 = h2 + varint(count as nat);
        let h4 = h3 + varint(bit_of(keyframe));
        let h5 = h4 + option_bytes(reference);
        let h6 = h5 + varint(pts_us as nat);
        let h7 = h6 + varint(main_len as nat);
        let t7 = varint(total_len as nat) + rest;
        let t6 = varint(main_len as nat) + t7;
        let t5 = varint(pts_us as nat) + t6;
        let t4 = option_bytes(reference) + t5;
        let t3 = varint(bit_of(keyframe)) + t4;
        let t2 = varint(count as nat) + t3;
        let t1 = varint(index as nat) + t2;
        lemma_assoc(h7, varint(total_len as nat), rest);
        lemma_assoc(h6, varint(main_len as nat), t7);
        lemma_assoc(h5, varint(pts_us as nat), t6);
        lemma_assoc(h4, option_bytes(reference), t5);
        lemma_assoc(h3, varint(bit_of(keyframe)), t4);
        lemma_assoc(h2, varint(count as nat), t3);
        lemma_assoc(h1, varint(index as nat), t2);
        lemma_assoc(h0, varint(frame_id as nat), t1);
    }
}

proof fn lemma_part_at(s: Seq<u8>, at: int, p: PacketView, rest: Seq<u8>)
    requires
        p is Part,
        0 <= at <= s.len(),
        s.skip(at) == part_fields(p, rest),
    ensures
        part_at(s, at) matches Some((q, end)) && q == p && at <= end <= s.len() && s.skip(end) == rest,
{
    if let PacketView::Part { frame_id, index, count, keyframe, reference, pts_us, main_len, total_len } = p {
        let t7 = varint(total_len as nat) + rest;
        let t6 = varint(main_len as nat) + t7;
        let t5 = varint(pts_us as nat) + t6;
        let t4 = option_bytes(reference) + t5;
        let t3 = varint(bit_of(keyframe)) + t4;
        let t2 = varint(count as nat) + t3;
        let t1 = varint(index as nat) + t2;
        lemma_at(s, at, frame_id, t1);
        let p2 = at + varint(frame_id as nat).len();
        lemma_at(s, p2, index as u64, t2);
        let p3 = p2 + varint(index as nat).len();
        lemma_at(s, p3, count as u64, t3);
        let p4 = p3 + varint(count as nat).len();
        lemma_at(s, p4, bit_of(keyframe) as u64, t4);
        let p5 = p4 + varint(bit_of(keyframe)).len();
        lemma_option_at(s, p5, reference, t5);
        let p6 = p5 + option_bytes(reference).len();
        lemma_at(s, p6, pts_us, t6);
        let p7 = p6 + varint(pts_us as nat).len();
        lemma_at(s, p7, main_len as u64, t7);
        let p8 = p7 + varint(main_len as nat).len();
        lemma_at(s, p8, total_len as u64, rest);
    }
}

proof fn lemma_part_round_trip(p: PacketView, rest: Seq<u8>)
    requires
        p is Part,
    ensures
        packet_at_start(packet_bytes(p) + rest) == Some((p, packet_bytes(p).len() as int)),
{
    let s = packet_bytes(p) + rest;
    assert(s.skip(0) =~= s);
    lemma_part_fields(p, rest);
    lemma_at(s, 0, 2, part_fields(p, rest));
    lemma_part_at(s, varint(2).len() as int, p, rest);
    let end = match part_at(s, varint(2).len() as int) {
        Some((_, e)) => e,
        None => 0,
    };
    assert(s.skip(end).len() == s.len() - end);
}

/// Numbers, one after another.
pub open spec fn numbers(list: Seq<nat>) -> Seq<u8>
    decreases list.len(),
{
    if list.len() == 0 {
        Seq::empty()
    } else {
        varint(list[0]) + numbers(list.skip(1))
    }
}

proof fn lemma_numbers(a: Seq<nat>, b: Seq<nat>)
    ensures
        numbers(a + b) == numbers(a) + numbers(b),
        numbers(seq![]) == Seq::<u8>::empty(),
    decreases a.len(),
{
    if a.len() == 0 {
        assert(a + b =~= b);
        assert(numbers(a) + numbers(b) =~= numbers(b));
    } else {
        lemma_numbers(a.skip(1), b);
        assert((a + b).skip(1) =~= a.skip(1) + b);
        assert(varint(a[0]) + (numbers(a.skip(1)) + numbers(b)) =~= varint(a[0]) + numbers(a.skip(1)) + numbers(b));
    }
}

proof fn lemma_number(v: nat)
    ensures
        numbers(seq![v]) == varint(v),
{
    reveal_with_fuel(numbers, 2);
    assert(seq![v].skip(1).len() == 0);
    assert(varint(v) + Seq::<u8>::empty() =~= varint(v));
}

proof fn lemma_items(list: Seq<u16>)
    ensures
        items_bytes(list) == numbers(list.map_values(|i: u16| i as nat)),
    decreases list.len(),
{
    let all = list.map_values(|i: u16| i as nat);
    if list.len() > 0 {
        lemma_items(list.drop_last());
        let before = list.drop_last().map_values(|i: u16| i as nat);
        assert(all =~= before + seq![list.last() as nat]);
        lemma_numbers(before, seq![list.last() as nat]);
        lemma_number(list.last() as nat);
    }
}

/// Every packet is a run of numbers: the first tells its kind, and its fields
/// follow in their order. A truth value is 0 or 1; a number that may be
/// missing has a truth value before it; a list begins with its length.
pub proof fn law_packets_on_the_wire(p: PacketView)
    ensures
        packet_bytes(p) == numbers(
            match p {
                PacketView::Probe { t } => seq![0nat, t as nat],
                PacketView::ProbeAck { t } => seq![1nat, t as nat],
                PacketView::Part { frame_id, index, count, keyframe, reference, pts_us, main_len, total_len } => {
                    let key: nat = if keyframe {
                        1
                    } else {
                        0
                    };
                    let base = match reference {
                        Some(n) => seq![1nat, n as nat],
                        None => seq![0nat],
                    };
                    seq![2nat, frame_id as nat, index as nat, count as nat, key] + base + seq![
                        pts_us as nat,
                        main_len as nat,
                        total_len as nat,
                    ]
                },
                PacketView::Nack { frame_id, missing } => seq![3nat, frame_id as nat, missing.len()]
                    + missing.map_values(|i: u16| i as nat),
                PacketView::Ack { frame_id, decoded_at_ms } => seq![4nat, frame_id as nat, decoded_at_ms as nat],
                PacketView::Recover { last_good } => match last_good {
                    Some(n) => seq![5nat, 1, n as nat],
                    None => seq![5nat, 0],
                },
            },
        ),
{
    match p {
        PacketView::Probe { t } => {
            lemma_two(0, t as nat);
        },
        PacketView::ProbeAck { t } => {
            lemma_two(1, t as nat);
        },
        PacketView::Part { frame_id, index, count, keyframe, reference, pts_us, main_len, total_len } => {
            let key: nat = if keyframe {
                1
            } else {
                0
            };
            let head = seq![2nat, frame_id as nat, index as nat, count as nat, key];
            let base = match reference {
                Some(n) => seq![1nat, n as nat],
                None => seq![0nat],
            };
            let end = seq![pts_us as nat, main_len as nat, total_len as nat];
            lemma_numbers(head + base, end);
            lemma_numbers(head, base);
            lemma_three(2, frame_id as nat, index as nat);
            lemma_two(count as nat, key);
            assert(head =~= seq![2nat, frame_id as nat, index as nat] + seq![count as nat, key]);
            lemma_numbers(seq![2nat, frame_id as nat, index as nat], seq![count as nat, key]);
            lemma_three(pts_us as nat, main_len as nat, total_len as nat);
            lemma_number(0);
            if let Some(n) = reference {
                lemma_two(1, n as nat);
            }
            assert(option_bytes(reference) == numbers(base));
            assert(packet_bytes(p) =~= numbers(head) + numbers(base) + numbers(end));
        },
        PacketView::Nack { frame_id, missing } => {
            lemma_items(missing);
            lemma_three(3, frame_id as nat, missing.len());
            lemma_numbers(seq![3nat, frame_id as nat, missing.len()], missing.map_values(|i: u16| i as nat));
        },
        PacketView::Ack { frame_id, decoded_at_ms } => {
            lemma_three(4, frame_id as nat, decoded_at_ms as nat);
        },
        PacketView::Recover { last_good } => {
            lemma_two(5, 0);
            if let Some(n) = last_good {
                lemma_three(5, 1, n as nat);
                assert(packet_bytes(p) =~= varint(5) + varint(1) + varint(n as nat));
            }
        },
    }
}

proof fn lemma_two(a: nat, b: nat)
    ensures
        numbers(seq![a, b]) == varint(a) + varint(b),
{
    lemma_number(a);
    lemma_number(b);
    assert(seq![a, b] =~= seq![a] + seq![b]);
    lemma_numbers(seq![a], seq![b]);
}

proof fn lemma_three(a: nat, b: nat, c: nat)
    ensures
        numbers(seq![a, b, c]) == varint(a) + varint(b) + varint(c),
{
    lemma_two(a, b);
    lemma_number(c);
    assert(seq![a, b, c] =~= seq![a, b] + seq![c]);
    lemma_numbers(seq![a, b], seq![c]);
}

} // verus!
