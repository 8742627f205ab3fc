//! Splitting a frame into parts.

use super::packet::{bit_of, packet_bytes, packet_to_vec, Packet, PacketView};
use super::seal::{MAX_DATAGRAM, SEQ_LEN, TAG_LEN};
use super::varint::{law_varint_round_trip, varint};
use vstd::prelude::*;

verus! {

/// The header every part of a frame repeats.
#[derive(Debug, Clone, Copy, PartialEq, Eq)]
pub struct FrameInfo {
    pub frame_id: u64,
    pub keyframe: bool,
    pub reference: Option<u64>,
    pub pts_us: u64,
}

/// The longest header a part can have.
pub open spec fn widest_part() -> PacketView {
    PacketView::Part {
        frame_id: u64::MAX,
        index: u16::MAX,
        count: u16::MAX,
        keyframe: true,
        reference: Some(u64::MAX),
        pts_us: u64::MAX,
        main_len: u32::MAX,
        total_len: u32::MAX,
    }
}

/// The header of part `index` of a frame.
pub open spec fn part_header(info: FrameInfo, index: int, count: int, main_len: int, total_len: int) -> PacketView {
    PacketView::Part {
        frame_id: info.frame_id,
        index: index as u16,
        count: count as u16,
        keyframe: info.keyframe,
        reference: info.reference,
        pts_us: info.pts_us,
        main_len: main_len as u32,
        total_len: total_len as u32,
    }
}

/// Bytes of frame payload per part.
pub open spec fn part_payload() -> int {
    MAX_DATAGRAM - SEQ_LEN - TAG_LEN - packet_bytes(widest_part()).len()
}

/// How many parts a frame of `total` bytes has: as many as its bytes fill,
/// at least one.
pub open spec fn part_count(total: int) -> int {
    if total == 0 {
        1
    } else {
        (total + part_payload() - 1) / part_payload()
    }
}

/// The bytes of the frame that part `index` carries.
pub open spec fn part_body(body: Seq<u8>, index: int) -> Seq<u8> {
    let start = index * part_payload();
    let end = if start + part_payload() < body.len() {
        start + part_payload()
    } else {
        body.len() as int
    };
    body.subrange(start, end)
}

/// The plaintext of part `index` of a frame.
pub open spec fn part_plaintext(info: FrameInfo, main: Seq<u8>, aux: Seq<u8>, index: int) -> Seq<u8> {
    let body = main + aux;
    packet_bytes(
        part_header(info, index, part_count(body.len() as int), main.len() as int, body.len() as int),
    ) + part_body(body, index)
}

proof fn lemma_varint_top(v: nat, n: nat)
    requires
        n >= 1,
        v >= 128,
        varint(v / 128).len() == n,
    ensures
        varint(v).len() == n + 1,
{
}

/// The widest numbers take 3, 5 and 10 bytes.
proof fn lemma_widest_numbers()
    ensures
        varint(u16::MAX as nat).len() == 3,
        varint(u32::MAX as nat).len() == 5,
        varint(u64::MAX as nat).len() == 10,
{
    assert(varint(3).len() == 1);
    lemma_varint_top(511, 1);
    lemma_varint_top(0xffff, 2);
    assert(varint(15).len() == 1);
    lemma_varint_top(0x7ff, 1);
    lemma_varint_top(0x3_ffff, 2);
    lemma_varint_top(0x1ff_ffff, 3);
    lemma_varint_top(0xffff_ffff, 4);
    assert(varint(1).len() == 1);
    lemma_varint_top(0xff, 1);
    lemma_varint_top(0x7fff, 2);
    lemma_varint_top(0x3f_ffff, 3);
    lemma_varint_top(0x1fff_ffff, 4);
    lemma_varint_top(0xf_ffff_ffff, 5);
    lemma_varint_top(0x7ff_ffff_ffff, 6);
    lemma_varint_top(0x3_ffff_ffff_ffff, 7);
    lemma_varint_top(0x1ff_ffff_ffff_ffff, 8);
    lemma_varint_top(0xffff_ffff_ffff_ffff, 9);
}

/// A part's payload is 1127 bytes.
pub proof fn lemma_part_payload()
    ensures
        packet_bytes(widest_part()).len() == 49,
        part_payload() == 1127,
{
    lemma_widest_numbers();
    law_varint_round_trip(2, Seq::empty());
    law_varint_round_trip(1, Seq::empty());
}

/// No part's header is longer than the widest.
pub proof fn law_part_headers_fit(p: PacketView)
    requires
        p is Part,
    ensures
        packet_bytes(p).len() <= packet_bytes(widest_part()).len(),
{
    lemma_part_payload();
    if let PacketView::Part { frame_id, index, count, keyframe, reference, pts_us, main_len, total_len } = p {
        law_varint_round_trip(2, Seq::empty());
        law_varint_round_trip(1, Seq::empty());
        law_varint_round_trip(0, Seq::empty());
        law_varint_round_trip(frame_id, Seq::empty());
        law_varint_round_trip(index as u64, Seq::empty());
        law_varint_round_trip(count as u64, Seq::empty());
        law_varint_round_trip(bit_of(keyframe) as u64, Seq::empty());
        law_varint_round_trip(pts_us, Seq::empty());
        law_varint_round_trip(main_len as u64, Seq::empty());
        law_varint_round_trip(total_len as u64, Seq::empty());
        if let Some(r) = reference {
            law_varint_round_trip(r, Seq::empty());
        }
    }
}

/// Bytes of frame payload per part: the datagram less the sequence, the
/// tag and the largest possible `Part` header.
pub fn part_payload_len() -> (n: usize)
    ensures
        n == part_payload(),
        n == 1127,
{
    let widest = Packet::Part {
        frame_id: u64::MAX,
        index: u16::MAX,
        count: u16::MAX,
        keyframe: true,
        reference: Some(u64::MAX),
        pts_us: u64::MAX,
        main_len: u32::MAX,
        total_len: u32::MAX,
    };
    let header: usize = packet_to_vec(&widest).len();
    proof {
        assert(widest@ == widest_part());
        lemma_part_payload();
    }
    MAX_DATAGRAM - SEQ_LEN - TAG_LEN - header
}

/// Split a frame into part plaintexts (header then bytes), ready to seal.
pub fn split_frame(info: &FrameInfo, main: &[u8], aux: &[u8]) -> (parts: Vec<Vec<u8>>)
    requires
        main@.len() + aux@.len() <= u16::MAX * part_payload(),
    ensures
        parts@.len() == part_count((main@ + aux@).len() as int),
        forall|i: int|
            0 <= i < parts@.len() ==> (#[trigger] parts@[i])@ == part_plaintext(*info, main@, aux@, i),
{
    let chunk: usize = part_payload_len();
    let total: usize = main.len() + aux.len();
    let filled: usize = total / chunk + if total % chunk == 0 { 0 } else { 1 };
    let count: usize = if filled == 0 { 1 } else { filled };
    let mut body: Vec<u8> = Vec::with_capacity(total);
    body.extend_from_slice(main);
    body.extend_from_slice(aux);
    let ghost whole = main@ + aux@;
    proof {
        assert(body@ =~= whole);
        assert(count == part_count(total as int));
        assert(count <= u16::MAX);
    }
    let mut parts: Vec<Vec<u8>> = Vec::new();
    for i in 0..count
        invariant
            chunk == 1127,
            chunk == part_payload(),
            total == whole.len(),
            whole == main@ + aux@,
            total <= 65535 * 1127,
            body@ == whole,
            count == part_count(total as int),
            count <= u16::MAX,
            (count - 1) * 1127 <= total,
            parts@.len() == i,
            forall|k: int|
                0 <= k < i ==> (#[trigger] parts@[k])@ == part_plaintext(*info, main@, aux@, k),
    {
        let start: usize = i * chunk;
        let end: usize = if start + chunk < total { start + chunk } else { total };
        let header = Packet::Part {
            frame_id: info.frame_id,
            index: i as u16,
            count: count as u16,
            keyframe: info.keyframe,
            reference: info.reference,
            pts_us: info.pts_us,
            main_len: main.len() as u32,
            total_len: total as u32,
        };
        let mut out: Vec<u8> = packet_to_vec(&header);
        out.extend_from_slice(vstd::slice::slice_subrange(body.as_slice(), start, end));
        proof {
            assert(header@ == part_header(*info, i as int, count as int, main@.len() as int, total as int));
            assert(out@ =~= part_plaintext(*info, main@, aux@, i as int));
        }
        parts.push(out);
    }
    parts
}

/// Every part, sealed, fits a datagram.
pub proof fn law_parts_fit_the_datagram(info: FrameInfo, main: Seq<u8>, aux: Seq<u8>, i: int)
    requires
        0 <= i < part_count((main + aux).len() as int),
    ensures
        SEQ_LEN + part_plaintext(info, main, aux, i).len() + TAG_LEN <= MAX_DATAGRAM,
{
    lemma_part_payload();
    let body = main + aux;
    law_part_headers_fit(
        part_header(info, i, part_count(body.len() as int), main.len() as int, body.len() as int),
    );
}

/// The bytes of the first `n` parts, in order.
pub open spec fn joined(body: Seq<u8>, n: int) -> Seq<u8>
    decreases n,
{
    if n <= 0 {
        Seq::empty()
    } else {
        joined(body, n - 1) + part_body(body, n - 1)
    }
}

/// The first parts carry the first bytes.
proof fn lemma_joined_prefix(body: Seq<u8>, n: int)
    requires
        0 <= n < part_count(body.len() as int),
    ensures
        joined(body, n) == body.take(n * part_payload()),
        n * part_payload() <= body.len(),
    decreases n,
{
    lemma_part_payload();
    if n > 0 {
        lemma_joined_prefix(body, n - 1);
        assert(joined(body, n) =~= body.take(n * part_payload()));
    } else {
        assert(joined(body, n) =~= body.take(0));
    }
}

/// The parts of a frame, put together in order, are the frame.
pub proof fn law_parts_join_to_the_frame(body: Seq<u8>)
    ensures
        joined(body, part_count(body.len() as int)) == body,
{
    lemma_part_payload();
    let n = part_count(body.len() as int);
    lemma_joined_prefix(body, n - 1);
    assert(joined(body, n) =~= body);
}

} // verus!
