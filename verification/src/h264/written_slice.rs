//! Slice headers as they are written, and that they are read back.

use super::bits::unescaped;
use super::parser::{PpsView, SpsView};
use super::slice::{
    bit_if, bits_if, read_mmco, read_mmcos, refs_if, se_if, skip_modification_if, skip_modifications, skip_pairs,
    skip_weight_if, skip_weight_table, skip_weights, slice_body, slice_head, slice_marking, slice_order, slice_refs,
    ue_if, Mmco, SliceHeaderView, SliceType,
};
use super::syntax::{
    fixed, flag, law_fixed_fields_read_back, law_flags_read_back, law_signed_codes_read_back,
    law_unsigned_codes_read_back, lemma_cat, only_if, signed, stands, unsigned,
};
use crate::error::Error;
use vstd::arithmetic::power2::pow2;
use vstd::prelude::*;

verus! {

/// The start of a slice header.
pub open spec fn head_bits(first_mb: u32, code: u32, pps_id: u8) -> Seq<bool> {
    unsigned(first_mb as nat) + (unsigned(code as nat) + unsigned(pps_id as nat))
}

/// The start of a slice header is read back: where the slice begins, its
/// type, which codes count modulo 5, and its parameter set. The unit's first
/// byte gives the unit's type in its low five bits and the reference level in
/// the two above.
pub proof fn law_slice_heads_read_back(nal: Seq<u8>, first_mb: u32, code: u32, pps_id: u8)
    requires
        nal.len() > 0,
        first_mb < u32::MAX,
        code < u32::MAX,
        stands(unescaped(nal.skip(1)), 0, head_bits(first_mb, code, pps_id)),
    ensures
        code % 5 == 3 || code % 5 == 4 ==> slice_head(nal) is Err,
        code % 5 < 3 ==> {
            &&& slice_head(nal) matches Ok((sh, end))
            &&& end == head_bits(first_mb, code, pps_id).len()
            &&& sh.first_mb_in_slice == first_mb
            &&& sh.pps_id == pps_id
            &&& code % 5 == 0 ==> sh.slice_type == Some(SliceType::P)
            &&& code % 5 == 1 ==> sh.slice_type == Some(SliceType::B)
            &&& code % 5 == 2 ==> sh.slice_type == Some(SliceType::I)
            &&& sh.nal_type == nal[0] % 32
            &&& sh.ref_idc == nal[0] / 32 % 4
            &&& sh.frame_num == 0 && sh.mmcos is None
        },
{
    let data = unescaped(nal.skip(1));
    let (a, b, c) = (unsigned(first_mb as nat), unsigned(code as nat), unsigned(pps_id as nat));
    lemma_cat(data, 0, a, b + c);
    lemma_cat(data, a.len() as int, b, c);
    law_unsigned_codes_read_back(data, 0, first_mb);
    law_unsigned_codes_read_back(data, a.len() as int, code);
    law_unsigned_codes_read_back(data, (a.len() + b.len()) as int, pps_id as u32);
    let x = nal[0];
    assert(x & 0x1f == x % 32) by (bit_vector);
    assert((x >> 5) & 3 == x / 32 % 4) by (bit_vector);
}

/// What a slice header codes between its start and its references.
pub struct Order {
    pub plane: u32,
    pub frame_num: u32,
    pub idr_pic_id: u32,
    pub lsb: u32,
    pub bottom: i32,
    pub delta: (i32, i32),
}

/// Whether the values fit their fields.
pub open spec fn order_fits(o: Order, sps: SpsView) -> bool {
    &&& o.plane < 4
    &&& sps.log2_max_frame_num_minus4 <= 28
    &&& o.frame_num < pow2((sps.log2_max_frame_num_minus4 + 4) as nat)
    &&& sps.log2_max_pic_order_cnt_lsb_minus4 <= 28
    &&& o.lsb < pow2((sps.log2_max_pic_order_cnt_lsb_minus4 + 4) as nat)
    &&& o.idr_pic_id < u32::MAX
    &&& o.bottom > i32::MIN
    &&& o.delta.0 > i32::MIN
    &&& o.delta.1 > i32::MIN
}

/// The picture order count of a slice, by the type its SPS names.
pub open spec fn count_bits(o: Order, pps: PpsView, sps: SpsView) -> Seq<bool> {
    let both = pps.bottom_field_pic_order_in_frame_present;
    only_if(
        sps.pic_order_cnt_type == 0,
        fixed(o.lsb as nat, (sps.log2_max_pic_order_cnt_lsb_minus4 + 4) as nat) + only_if(both, signed(o.bottom as
            int)),
    ) + only_if(
        sps.pic_order_cnt_type == 1 && !sps.delta_pic_order_always_zero,
        signed(o.delta.0 as int) + only_if(both, signed(o.delta.1 as int)),
    )
}

/// The bits from the colour plane to the picture order counts, of a frame.
pub open spec fn order_bits(o: Order, nal_type: u8, pps: PpsView, sps: SpsView) -> Seq<bool> {
    only_if(sps.separate_colour_plane, fixed(o.plane as nat, 2)) + (fixed(
        o.frame_num as nat,
        (sps.log2_max_frame_num_minus4 + 4) as nat,
    ) + (only_if(!sps.frame_mbs_only, flag(false)) + (only_if(nal_type == 5, unsigned(o.idr_pic_id as nat))
        + count_bits(o, pps, sps))))
}

proof fn lemma_bit_if(data: Seq<u8>, pos: int, cond: bool, b: bool)
    requires
        stands(data, pos, only_if(cond, flag(b))),
    ensures
        bit_if(data, pos, cond) == Ok::<(bool, int), Error>((cond && b, pos + only_if(cond, flag(b)).len())),
{
    if cond {
        law_flags_read_back(data, pos, b);
    }
}

proof fn lemma_bits_if(data: Seq<u8>, pos: int, n: u32, cond: bool, v: u32)
    requires
        n <= 32,
        v < pow2(n as nat),
        stands(data, pos, only_if(cond, fixed(v as nat, n as nat))),
    ensures
        bits_if(data, pos, n, cond) == Ok::<(u32, int), Error>(
            (
                if cond {
                    v
                } else {
                    0
                },
                pos + only_if(cond, fixed(v as nat, n as nat)).len(),
            ),
        ),
{
    if cond {
        law_fixed_fields_read_back(data, pos, v, n);
    }
}

proof fn lemma_ue_if(data: Seq<u8>, pos: int, cond: bool, v: u32, other: u32)
    requires
        v < u32::MAX,
        stands(data, pos, only_if(cond, unsigned(v as nat))),
    ensures
        ue_if(data, pos, cond, other) == Ok::<(u32, int), Error>(
            (
                if cond {
                    v
                } else {
                    other
                },
                pos + only_if(cond, unsigned(v as nat)).len(),
            ),
        ),
{
    if cond {
        law_unsigned_codes_read_back(data, pos, v);
    }
}

proof fn lemma_refs_if(data: Seq<u8>, pos: int, cond: bool, v: u8, other: u8)
    requires
        stands(data, pos, only_if(cond, unsigned(v as nat))),
    ensures
        refs_if(data, pos, cond, other) == Ok::<(u8, int), Error>(
            (
                if cond {
                    v
                } else {
                    other
                },
                pos + only_if(cond, unsigned(v as nat)).len(),
            ),
        ),
{
    if cond {
        law_unsigned_codes_read_back(data, pos, v as u32);
    }
}

proof fn lemma_se_if(data: Seq<u8>, pos: int, cond: bool, v: i32)
    requires
        v > i32::MIN,
        stands(data, pos, only_if(cond, signed(v as int))),
    ensures
        se_if(data, pos, cond) == Ok::<(i32, int), Error>(
            (
                if cond {
                    v
                } else {
                    0
                },
                pos + only_if(cond, signed(v as int)).len(),
            ),
        ),
{
    if cond {
        law_signed_codes_read_back(data, pos, v);
    }
}

/// The frame number, the IDR id and the picture order counts are read back as
/// they were written, whatever the widths that the SPS gives them; what is not
/// coded is zero, and the reader stands behind the last of them. A field
/// picture is an error.
pub proof fn law_slice_order_reads_back(
    data: Seq<u8>,
    pos: int,
    o: Order,
    sh: SliceHeaderView,
    pps: PpsView,
    sps: SpsView,
)
    requires
        order_fits(o, sps),
        stands(data, pos, order_bits(o, sh.nal_type, pps, sps)),
    ensures
        ({
            &&& slice_order(data, pos, sh, pps, sps) matches Ok((got, end))
            &&& end == pos + order_bits(o, sh.nal_type, pps, sps).len()
            &&& got == (SliceHeaderView {
                frame_num: o.frame_num,
                idr_pic_id: if sh.nal_type == 5 {
                    o.idr_pic_id
                } else {
                    0
                },
                pic_order_cnt_lsb: if sps.pic_order_cnt_type == 0 {
                    o.lsb
                } else {
                    0
                },
                delta_pic_order_cnt_bottom: if sps.pic_order_cnt_type == 0
                    && pps.bottom_field_pic_order_in_frame_present {
                    o.bottom
                } else {
                    0
                },
                delta_pic_order_cnt: if sps.pic_order_cnt_type == 1 && !sps.delta_pic_order_always_zero {
                    (
                        o.delta.0,
                        if pps.bottom_field_pic_order_in_frame_present {
                            o.delta.1
                        } else {
                            0
                        },
                    )
                } else {
                    (0, 0)
                },
                ..sh
            })
        }),
{
    let both = pps.bottom_field_pic_order_in_frame_present;
    let lsb = sps.pic_order_cnt_type == 0;
    let delta = sps.pic_order_cnt_type == 1 && !sps.delta_pic_order_always_zero;
    let n = (sps.log2_max_frame_num_minus4 + 4) as u32;
    let m = (sps.log2_max_pic_order_cnt_lsb_minus4 + 4) as u32;
    let a = only_if(sps.separate_colour_plane, fixed(o.plane as nat, 2));
    let b = fixed(o.frame_num as nat, n as nat);
    let c = only_if(!sps.frame_mbs_only, flag(false));
    let d = only_if(sh.nal_type == 5, unsigned(o.idr_pic_id as nat));
    let e = count_bits(o, pps, sps);
    vstd::arithmetic::power2::lemma2_to64();
    lemma_cat(data, pos, a, b + (c + (d + e)));
    let p1 = pos + a.len();
    lemma_cat(data, p1, b, c + (d + e));
    let p2 = p1 + b.len();
    lemma_cat(data, p2, c, d + e);
    let p3 = p2 + c.len();
    lemma_cat(data, p3, d, e);
    let p4 = p3 + d.len();
    lemma_bits_if(data, pos, 2, sps.separate_colour_plane, o.plane);
    law_fixed_fields_read_back(data, p1, o.frame_num, n);
    lemma_bit_if(data, p2, !sps.frame_mbs_only, false);
    lemma_ue_if(data, p3, sh.nal_type == 5, o.idr_pic_id, 0);
    let f = fixed(o.lsb as nat, m as nat);
    let g = only_if(both, signed(o.bottom as int));
    let h = signed(o.delta.0 as int);
    let i = only_if(both, signed(o.delta.1 as int));
    lemma_cat(data, p4, only_if(lsb, f + g), only_if(delta, h + i));
    if lsb {
        lemma_cat(data, p4, f, g);
        lemma_bits_if(data, p4, m, true, o.lsb);
        lemma_se_if(data, p4 + f.len(), both, o.bottom);
    } else if delta {
        lemma_cat(data, p4, h, i);
        lemma_se_if(data, p4, true, o.delta.0);
        lemma_se_if(data, p4 + h.len(), both, o.delta.1);
    }
}

/// The weights of one reference: an optional luma pair and two optional
/// chroma pairs.
pub struct Weight {
    pub luma: Option<(i32, i32)>,
    pub chroma: Option<((i32, i32), (i32, i32))>,
}

pub open spec fn codable(p: (i32, i32)) -> bool {
    p.0 > i32::MIN && p.1 > i32::MIN
}

pub open spec fn pair_bits(p: (i32, i32)) -> Seq<bool> {
    signed(p.0 as int) + signed(p.1 as int)
}

pub open spec fn luma_bits(w: Weight) -> Seq<bool> {
    match w.luma {
        Some(p) => flag(true) + pair_bits(p),
        None => flag(false),
    }
}

pub open spec fn chroma_bits(w: Weight) -> Seq<bool> {
    match w.chroma {
        Some((p, q)) => flag(true) + (pair_bits(p) + pair_bits(q)),
        None => flag(false),
    }
}

pub open spec fn weights_fit(ws: Seq<Weight>) -> bool {
    forall|i: int|
        0 <= i < ws.len() ==> {
            let w = #[trigger] ws[i];
            &&& w.luma matches Some(p) ==> codable(p)
            &&& w.chroma matches Some((p, q)) ==> codable(p) && codable(q)
        }
}

/// The weights of several references, in order.
pub open spec fn weights_bits(ws: Seq<Weight>, chroma: bool) -> Seq<bool>
    decreases ws.len(),
{
    if ws.len() == 0 {
        Seq::empty()
    } else {
        luma_bits(ws[0]) + (only_if(chroma, chroma_bits(ws[0])) + weights_bits(ws.drop_first(), chroma))
    }
}

proof fn lemma_pair(data: Seq<u8>, pos: int, p: (i32, i32), more: nat)
    requires
        codable(p),
        stands(data, pos, pair_bits(p)),
    ensures
        skip_pairs(data, pos, more + 1) == skip_pairs(data, pos + pair_bits(p).len(), more),
{
    lemma_cat(data, pos, signed(p.0 as int), signed(p.1 as int));
    law_signed_codes_read_back(data, pos, p.0);
    law_signed_codes_read_back(data, pos + signed(p.0 as int).len(), p.1);
}

proof fn lemma_weights(data: Seq<u8>, pos: int, ws: Seq<Weight>, chroma: bool)
    requires
        weights_fit(ws),
        stands(data, pos, weights_bits(ws, chroma)),
    ensures
        skip_weights(data, pos, ws.len(), chroma) == Ok::<((), int), Error>(
            ((), pos + weights_bits(ws, chroma).len()),
        ),
    decreases ws.len(),
{
    if ws.len() > 0 {
        let w = ws[0];
        let rest = ws.drop_first();
        let (a, b, c) = (luma_bits(w), only_if(chroma, chroma_bits(w)), weights_bits(rest, chroma));
        lemma_cat(data, pos, a, b + c);
        let p1 = pos + a.len();
        lemma_cat(data, p1, b, c);
        let p2 = p1 + b.len();
        match w.luma {
            Some(p) => {
                lemma_cat(data, pos, flag(true), pair_bits(p));
                law_flags_read_back(data, pos, true);
                lemma_pair(data, pos + 1, p, 0);
            },
            None => law_flags_read_back(data, pos, false),
        }
        assert(skip_weight_if(data, pos, 1, true) == Ok::<((), int), Error>(((), p1)));
        if chroma {
            match w.chroma {
                Some((p, q)) => {
                    lemma_cat(data, p1, flag(true), pair_bits(p) + pair_bits(q));
                    law_flags_read_back(data, p1, true);
                    lemma_cat(data, p1 + 1, pair_bits(p), pair_bits(q));
                    lemma_pair(data, p1 + 1, p, 1);
                    lemma_pair(data, p1 + 1 + pair_bits(p).len(), q, 0);
                },
                None => law_flags_read_back(data, p1, false),
            }
        }
        assert(skip_weight_if(data, p1, 2, chroma) == Ok::<((), int), Error>(((), p2)));
        assert forall|i: int| 0 <= i < rest.len() implies {
            let w = #[trigger] rest[i];
            &&& w.luma matches Some(p) ==> codable(p)
            &&& w.chroma matches Some((p, q)) ==> codable(p) && codable(q)
        } by {
            assert(rest[i] == ws[i + 1]);
        }
        lemma_weights(data, p2, rest, chroma);
    }
}

/// The changes to a reference list: a code other than 3, and its value.
pub open spec fn changes_fit(list: Seq<(u32, u32)>) -> bool {
    forall|i: int| 0 <= i < list.len() ==> (#[trigger] list[i]).0 <= 5 && list[i].0 != 3 && list[i].1 < u32::MAX
}

pub open spec fn changes_bits(list: Seq<(u32, u32)>) -> Seq<bool>
    decreases list.len(),
{
    if list.len() == 0 {
        unsigned(3)
    } else {
        unsigned(list[0].0 as nat) + (unsigned(list[0].1 as nat) + changes_bits(list.drop_first()))
    }
}

/// A list of changes behind its presence bit.
pub open spec fn modification_bits(list: Option<Seq<(u32, u32)>>) -> Seq<bool> {
    match list {
        Some(l) => flag(true) + changes_bits(l),
        None => flag(false),
    }
}

proof fn lemma_changes(data: Seq<u8>, pos: int, list: Seq<(u32, u32)>)
    requires
        changes_fit(list),
        stands(data, pos, changes_bits(list)),
    ensures
        skip_modifications(data, pos) == Ok::<((), int), Error>(((), pos + changes_bits(list).len())),
    decreases list.len(),
{
    if list.len() == 0 {
        law_unsigned_codes_read_back(data, pos, 3);
    } else {
        let rest = list.drop_first();
        let (a, b, c) = (unsigned(list[0].0 as nat), unsigned(list[0].1 as nat), changes_bits(rest));
        lemma_cat(data, pos, a, b + c);
        lemma_cat(data, pos + a.len(), b, c);
        law_unsigned_codes_read_back(data, pos, list[0].0);
        law_unsigned_codes_read_back(data, pos + a.len(), list[0].1);
        assert forall|i: int| 0 <= i < rest.len() implies (#[trigger] rest[i]).0 <= 5 && rest[i].0 != 3 && rest[i].1
            < u32::MAX by {
            assert(rest[i] == list[i + 1]);
        }
        lemma_changes(data, pos + a.len() + b.len(), rest);
    }
}

proof fn lemma_modification(data: Seq<u8>, pos: int, cond: bool, list: Option<Seq<(u32, u32)>>)
    requires
        list matches Some(l) ==> changes_fit(l),
        stands(data, pos, only_if(cond, modification_bits(list))),
    ensures
        skip_modification_if(data, pos, cond) == Ok::<((), int), Error>(
            ((), pos + only_if(cond, modification_bits(list)).len()),
        ),
{
    if cond {
        match list {
            Some(l) => {
                lemma_cat(data, pos, flag(true), changes_bits(l));
                law_flags_read_back(data, pos, true);
                lemma_changes(data, pos + 1, l);
            },
            None => law_flags_read_back(data, pos, false),
        }
    }
}

/// What a slice header says of its references.
pub struct Refs {
    pub redundant: u32,
    pub direct: bool,
    /// The numbers of references less one, where they are not the usual ones.
    pub counts: Option<(u8, u8)>,
    pub first: Option<Seq<(u32, u32)>>,
    pub second: Option<Seq<(u32, u32)>>,
    pub scales: (u32, u32),
    pub weights: Seq<Weight>,
    pub more_weights: Seq<Weight>,
}

/// The number of references less one in the first list.
pub open spec fn first_count(r: Refs, inter: bool, pps: PpsView) -> u8 {
    match r.counts {
        Some((l0, _)) => if inter {
            l0
        } else {
            pps.num_ref_idx_l0_default_active_minus1
        },
        None => pps.num_ref_idx_l0_default_active_minus1,
    }
}

/// The number of references less one in the second list, of a B slice.
pub open spec fn second_count(r: Refs, pps: PpsView) -> u8 {
    match r.counts {
        Some((_, l1)) => l1,
        None => pps.num_ref_idx_l1_default_active_minus1,
    }
}

pub open spec fn refs_fit(r: Refs, kind: SliceType, pps: PpsView) -> bool {
    &&& r.redundant < u32::MAX
    &&& r.scales.0 < u32::MAX
    &&& r.scales.1 < u32::MAX
    &&& r.first matches Some(l) ==> changes_fit(l)
    &&& r.second matches Some(l) ==> changes_fit(l)
    &&& weights_fit(r.weights)
    &&& weights_fit(r.more_weights)
    &&& r.weights.len() == first_count(r, true, pps) + 1
    &&& r.more_weights.len() == second_count(r, pps) + 1
}

/// The numbers of references behind their presence bit.
pub open spec fn counts_bits(r: Refs, b: bool) -> Seq<bool> {
    match r.counts {
        Some((l0, l1)) => flag(true) + (unsigned(l0 as nat) + only_if(b, unsigned(l1 as nat))),
        None => flag(false),
    }
}

/// The table of weights: two scales, then the weights of each list.
pub open spec fn table_bits(r: Refs, chroma: bool, b: bool) -> Seq<bool> {
    unsigned(r.scales.0 as nat) + (only_if(chroma, unsigned(r.scales.1 as nat)) + (weights_bits(r.weights, chroma)
        + only_if(b, weights_bits(r.more_weights, chroma))))
}

/// The bits from the redundant picture count to the weights.
pub open spec fn refs_bits(r: Refs, kind: SliceType, pps: PpsView, sps: SpsView) -> Seq<bool> {
    let b = kind == SliceType::B;
    let inter = kind != SliceType::I;
    let table = (pps.weighted_pred && kind == SliceType::P) || (pps.weighted_bipred_idc == 1 && b);
    only_if(pps.redundant_pic_cnt_present, unsigned(r.redundant as nat)) + (only_if(b, flag(r.direct)) + (only_if(
        inter,
        counts_bits(r, b),
    ) + (only_if(inter, modification_bits(r.first)) + (only_if(b, modification_bits(r.second)) + only_if(
        table,
        table_bits(r, sps.chroma_format_idc != 0, b),
    )))))
}

/// What the numbers of references come to: the two numbers and the place
/// behind them.
spec fn counts_read(data: Seq<u8>, pos: int, inter: bool, b: bool, pps: PpsView) -> Result<((u8, u8), int), Error> {
    match bit_if(data, pos, inter) {
        Err(e) => Err(e),
        Ok((over, p3)) => match refs_if(data, p3, over, pps.num_ref_idx_l0_default_active_minus1) {
            Err(e) => Err(e),
            Ok((l0, p4)) => match refs_if(data, p4, over && b, pps.num_ref_idx_l1_default_active_minus1) {
                Err(e) => Err(e),
                Ok((l1, p5)) => Ok(((l0, l1), p5)),
            },
        },
    }
}

proof fn lemma_counts(data: Seq<u8>, pos: int, r: Refs, inter: bool, b: bool, pps: PpsView)
    requires
        b ==> inter,
        stands(data, pos, only_if(inter, counts_bits(r, b))),
    ensures
        counts_read(data, pos, inter, b, pps) == Ok::<((u8, u8), int), Error>(
            (
                (
                    first_count(r, inter, pps),
                    if b {
                        second_count(r, pps)
                    } else {
                        pps.num_ref_idx_l1_default_active_minus1
                    },
                ),
                pos + only_if(inter, counts_bits(r, b)).len(),
            ),
        ),
{
    if inter {
        match r.counts {
            Some((l0, l1)) => {
                let c1 = unsigned(l0 as nat);
                let c2 = only_if(b, unsigned(l1 as nat));
                lemma_cat(data, pos, flag(true), c1 + c2);
                lemma_cat(data, pos + 1, c1, c2);
                law_flags_read_back(data, pos, true);
                lemma_refs_if(data, pos + 1, true, l0, pps.num_ref_idx_l0_default_active_minus1);
                lemma_refs_if(data, pos + 1 + c1.len(), b, l1, pps.num_ref_idx_l1_default_active_minus1);
            },
            None => {
                law_flags_read_back(data, pos, false);
            },
        }
    }
}

proof fn lemma_table(data: Seq<u8>, pos: int, r: Refs, chroma: bool, b: bool, l0: u8, l1: u8)
    requires
        r.scales.0 < u32::MAX,
        r.scales.1 < u32::MAX,
        weights_fit(r.weights),
        weights_fit(r.more_weights),
        r.weights.len() == l0 + 1,
        b ==> r.more_weights.len() == l1 + 1,
        stands(data, pos, table_bits(r, chroma, b)),
    ensures
        skip_weight_table(data, pos, chroma, l0, l1, b) == Ok::<((), int), Error>(
            ((), pos + table_bits(r, chroma, b).len()),
        ),
{
    let t1 = unsigned(r.scales.0 as nat);
    let t2 = only_if(chroma, unsigned(r.scales.1 as nat));
    let t3 = weights_bits(r.weights, chroma);
    let t4 = only_if(b, weights_bits(r.more_weights, chroma));
    lemma_cat(data, pos, t1, t2 + (t3 + t4));
    let q1 = pos + t1.len();
    lemma_cat(data, q1, t2, t3 + t4);
    let q2 = q1 + t2.len();
    lemma_cat(data, q2, t3, t4);
    let q3 = q2 + t3.len();
    law_unsigned_codes_read_back(data, pos, r.scales.0);
    lemma_ue_if(data, q1, chroma, r.scales.1, 0);
    lemma_weights(data, q2, r.weights, chroma);
    if b {
        lemma_weights(data, q3, r.more_weights, chroma);
    }
}

/// The number of references is the one that the slice codes, else the usual
/// one of its parameter set, and the reader stands behind all that is said of
/// the references, whatever changes and weights there are.
pub proof fn law_slice_references_read_back(
    data: Seq<u8>,
    pos: int,
    r: Refs,
    kind: SliceType,
    sh: SliceHeaderView,
    pps: PpsView,
    sps: SpsView,
)
    requires
        sh.slice_type == Some(kind),
        refs_fit(r, kind, pps),
        stands(data, pos, refs_bits(r, kind, pps, sps)),
    ensures
        slice_refs(data, pos, sh, pps, sps) == Ok::<(SliceHeaderView, int), Error>(
            (
                SliceHeaderView {
                    num_ref_idx_l0_active_minus1: first_count(r, kind != SliceType::I, pps),
                    ..sh
                },
                pos + refs_bits(r, kind, pps, sps).len(),
            ),
        ),
{
    let b = kind == SliceType::B;
    let inter = kind != SliceType::I;
    let chroma = sps.chroma_format_idc != 0;
    let table = (pps.weighted_pred && kind == SliceType::P) || (pps.weighted_bipred_idc == 1 && b);
    let a1 = only_if(pps.redundant_pic_cnt_present, unsigned(r.redundant as nat));
    let a2 = only_if(b, flag(r.direct));
    let a3 = only_if(inter, counts_bits(r, b));
    let a4 = only_if(inter, modification_bits(r.first));
    let a5 = only_if(b, modification_bits(r.second));
    let a6 = only_if(table, table_bits(r, chroma, b));
    let p1 = pos + a1.len();
    let p2 = p1 + a2.len();
    let p3 = p2 + a3.len();
    let p4 = p3 + a4.len();
    let p5 = p4 + a5.len();
    let p6 = p5 + a6.len();
    let l0 = first_count(r, inter, pps);
    let l1 = if b {
        second_count(r, pps)
    } else {
        pps.num_ref_idx_l1_default_active_minus1
    };
    lemma_six(data, pos, a1, a2, a3, a4, a5, a6);
    assert(ue_if(data, pos, pps.redundant_pic_cnt_present, 0) matches Ok((_, p)) && p == p1) by {
        lemma_ue_if(data, pos, pps.redundant_pic_cnt_present, r.redundant, 0);
    }
    assert(bit_if(data, p1, b) matches Ok((_, p)) && p == p2) by {
        lemma_bit_if(data, p1, b, r.direct);
    }
    lemma_counts(data, p2, r, inter, b, pps);
    lemma_modification(data, p3, inter, r.first);
    lemma_modification(data, p4, b, r.second);
    assert(table ==> skip_weight_table(data, p5, chroma, l0, l1, b) == Ok::<((), int), Error>(((), p6))) by {
        if table {
            lemma_table(data, p5, r, chroma, b, l0, l1);
        }
    }
    lemma_refs_steps(data, pos, p1, p2, p3, p4, p5, p6, (l0, l1), table, sh, pps, sps);
}

/// The steps of the references, put together.
proof fn lemma_refs_steps(
    data: Seq<u8>,
    pos: int,
    p1: int,
    p2: int,
    p3: int,
    p4: int,
    p5: int,
    p6: int,
    counts: (u8, u8),
    table: bool,
    sh: SliceHeaderView,
    pps: PpsView,
    sps: SpsView,
)
    requires
        ({
            let b = sh.slice_type == Some(SliceType::B);
            let p = sh.slice_type == Some(SliceType::P);
            &&& table == ((pps.weighted_pred && p) || (pps.weighted_bipred_idc == 1 && b))
            &&& ue_if(data, pos, pps.redundant_pic_cnt_present, 0) matches Ok((_, q)) && q == p1
            &&& bit_if(data, p1, b) matches Ok((_, q)) && q == p2
            &&& counts_read(data, p2, b || p, b, pps) == Ok::<((u8, u8), int), Error>((counts, p3))
            &&& skip_modification_if(data, p3, b || p) == Ok::<((), int), Error>(((), p4))
            &&& skip_modification_if(data, p4, b) == Ok::<((), int), Error>(((), p5))
            &&& table ==> skip_weight_table(data, p5, sps.chroma_format_idc != 0, counts.0, counts.1, b) == Ok::<
                ((), int),
                Error,
            >(((), p6))
            &&& !table ==> p6 == p5
        }),
    ensures
        slice_refs(data, pos, sh, pps, sps) == Ok::<(SliceHeaderView, int), Error>(
            (SliceHeaderView { num_ref_idx_l0_active_minus1: counts.0, ..sh }, p6),
        ),
{
}

proof fn lemma_six(
    data: Seq<u8>,
    pos: int,
    a1: Seq<bool>,
    a2: Seq<bool>,
    a3: Seq<bool>,
    a4: Seq<bool>,
    a5: Seq<bool>,
    a6: Seq<bool>,
)
    requires
        stands(data, pos, a1 + (a2 + (a3 + (a4 + (a5 + a6))))),
    ensures
        stands(data, pos, a1),
        stands(data, pos + a1.len(), a2),
        stands(data, pos + a1.len() + a2.len(), a3),
        stands(data, pos + a1.len() + a2.len() + a3.len(), a4),
        stands(data, pos + a1.len() + a2.len() + a3.len() + a4.len(), a5),
        stands(data, pos + a1.len() + a2.len() + a3.len() + a4.len() + a5.len(), a6),
        (a1 + (a2 + (a3 + (a4 + (a5 + a6))))).len() == a1.len() + a2.len() + a3.len() + a4.len() + a5.len() + a6.len(),
{
    lemma_cat(data, pos, a1, a2 + (a3 + (a4 + (a5 + a6))));
    lemma_cat(data, pos + a1.len(), a2, a3 + (a4 + (a5 + a6)));
    lemma_cat(data, pos + a1.len() + a2.len(), a3, a4 + (a5 + a6));
    lemma_cat(data, pos + a1.len() + a2.len() + a3.len(), a4, a5 + a6);
    lemma_cat(data, pos + a1.len() + a2.len() + a3.len() + a4.len(), a5, a6);
}

/// An operation on the references: its code, and the values that it has.
pub open spec fn operation_bits(m: Mmco) -> Seq<bool> {
    only_if(m.op == 1 || m.op == 3, unsigned(m.difference_of_pic_nums_minus1 as nat)) + (only_if(
        m.op == 2,
        unsigned(m.long_term_pic_num as nat),
    ) + (only_if(m.op == 3 || m.op == 6, unsigned(m.long_term_frame_idx as nat)) + only_if(
        m.op == 4,
        unsigned(m.max_long_term_frame_idx_plus1 as nat),
    )))
}

/// Whether an operation has the values of its code, and no others.
pub open spec fn operation_fits(m: Mmco) -> bool {
    &&& 1 <= m.op <= 6
    &&& m.difference_of_pic_nums_minus1 < u32::MAX && (m.op == 1 || m.op == 3 || m.difference_of_pic_nums_minus1 == 0)
    &&& m.long_term_pic_num < u32::MAX && (m.op == 2 || m.long_term_pic_num == 0)
    &&& m.long_term_frame_idx < u32::MAX && (m.op == 3 || m.op == 6 || m.long_term_frame_idx == 0)
    &&& m.max_long_term_frame_idx_plus1 < u32::MAX && (m.op == 4 || m.max_long_term_frame_idx_plus1 == 0)
}

pub open spec fn operations_bits(ops: Seq<Mmco>) -> Seq<bool>
    decreases ops.len(),
{
    if ops.len() == 0 {
        unsigned(0)
    } else {
        unsigned(ops[0].op as nat) + (operation_bits(ops[0]) + operations_bits(ops.drop_first()))
    }
}

proof fn lemma_operation(data: Seq<u8>, pos: int, m: Mmco)
    requires
        operation_fits(m),
        stands(data, pos, operation_bits(m)),
    ensures
        read_mmco(data, pos, m.op) == Ok::<(Mmco, int), Error>((m, pos + operation_bits(m).len())),
{
    let a = only_if(m.op == 1 || m.op == 3, unsigned(m.difference_of_pic_nums_minus1 as nat));
    let b = only_if(m.op == 2, unsigned(m.long_term_pic_num as nat));
    let c = only_if(m.op == 3 || m.op == 6, unsigned(m.long_term_frame_idx as nat));
    let d = only_if(m.op == 4, unsigned(m.max_long_term_frame_idx_plus1 as nat));
    lemma_cat(data, pos, a, b + (c + d));
    lemma_cat(data, pos + a.len(), b, c + d);
    lemma_cat(data, pos + a.len() + b.len(), c, d);
    lemma_ue_if(data, pos, m.op == 1 || m.op == 3, m.difference_of_pic_nums_minus1, 0);
    lemma_ue_if(data, pos + a.len(), m.op == 2, m.long_term_pic_num, 0);
    lemma_ue_if(data, pos + a.len() + b.len(), m.op == 3 || m.op == 6, m.long_term_frame_idx, 0);
    lemma_ue_if(data, pos + a.len() + b.len() + c.len(), m.op == 4, m.max_long_term_frame_idx_plus1, 0);
}

proof fn lemma_operations(data: Seq<u8>, pos: int, before: Seq<Mmco>, ops: Seq<Mmco>)
    requires
        before.len() + ops.len() <= 32,
        forall|i: int| 0 <= i < ops.len() ==> operation_fits(#[trigger] ops[i]),
        stands(data, pos, operations_bits(ops)),
    ensures
        read_mmcos(data, pos, before) == Ok::<(Seq<Mmco>, int), Error>(
            (before + ops, pos + operations_bits(ops).len()),
        ),
    decreases ops.len(),
{
    if ops.len() == 0 {
        law_unsigned_codes_read_back(data, pos, 0);
        assert(before + ops =~= before);
    } else {
        let rest = ops.drop_first();
        let (a, b, c) = (unsigned(ops[0].op as nat), operation_bits(ops[0]), operations_bits(rest));
        assert(operation_fits(ops[0]));
        lemma_cat(data, pos, a, b + c);
        lemma_cat(data, pos + a.len(), b, c);
        law_unsigned_codes_read_back(data, pos, ops[0].op);
        lemma_operation(data, pos + a.len(), ops[0]);
        assert forall|i: int| 0 <= i < rest.len() implies operation_fits(#[trigger] rest[i]) by {
            assert(rest[i] == ops[i + 1]);
        }
        lemma_operations(data, pos + a.len() + b.len(), before.push(ops[0]), rest);
        assert(before.push(ops[0]) + rest =~= before + ops);
    }
}

/// How a slice's picture is marked: two bits of an IDR picture, a list of
/// operations or none of another, nothing of one that is not referred to.
pub struct Marking {
    pub no_output: bool,
    pub long_term: bool,
    pub ops: Option<Seq<Mmco>>,
}

pub open spec fn marking_bits(m: Marking, nal_type: u8, ref_idc: u8) -> Seq<bool> {
    only_if(
        ref_idc != 0,
        if nal_type == 5 {
            flag(m.no_output) + flag(m.long_term)
        } else {
            match m.ops {
                Some(ops) => flag(true) + operations_bits(ops),
                None => flag(false),
            }
        },
    )
}

pub open spec fn marking_fits(m: Marking) -> bool {
    m.ops matches Some(ops) ==> ops.len() <= 32 && forall|i: int|
        0 <= i < ops.len() ==> operation_fits(#[trigger] ops[i])
}

/// The marking is read back as it was written, operation by operation.
pub proof fn law_slice_marking_reads_back(data: Seq<u8>, pos: int, m: Marking, sh: SliceHeaderView)
    requires
        marking_fits(m),
        sh.mmcos is None,
        !sh.no_output_of_prior_pics,
        !sh.long_term_reference,
        stands(data, pos, marking_bits(m, sh.nal_type, sh.ref_idc)),
    ensures
        ({
            let idr = sh.ref_idc != 0 && sh.nal_type == 5;
            slice_marking(data, pos, sh) == Ok::<(SliceHeaderView, int), Error>(
                (
                    SliceHeaderView {
                        no_output_of_prior_pics: idr && m.no_output,
                        long_term_reference: idr && m.long_term,
                        mmcos: if sh.ref_idc != 0 && sh.nal_type != 5 {
                            m.ops
                        } else {
                            None
                        },
                        ..sh
                    },
                    pos + marking_bits(m, sh.nal_type, sh.ref_idc).len(),
                ),
            )
        }),
{
    if sh.ref_idc != 0 {
        if sh.nal_type == 5 {
            lemma_cat(data, pos, flag(m.no_output), flag(m.long_term));
            law_flags_read_back(data, pos, m.no_output);
            law_flags_read_back(data, pos + 1, m.long_term);
        } else {
            match m.ops {
                Some(ops) => {
                    lemma_cat(data, pos, flag(true), operations_bits(ops));
                    law_flags_read_back(data, pos, true);
                    lemma_operations(data, pos + 1, Seq::empty(), ops);
                    assert(Seq::<Mmco>::empty() + ops =~= ops);
                },
                None => law_flags_read_back(data, pos, false),
            }
        }
    }
}

/// A slice header behind its start, written by the syntax, is read back field
/// by field, and the reader stands behind it.
pub proof fn law_slice_headers_read_back(
    data: Seq<u8>,
    pos: int,
    o: Order,
    r: Refs,
    m: Marking,
    kind: SliceType,
    sh: SliceHeaderView,
    pps: PpsView,
    sps: SpsView,
)
    requires
        order_fits(o, sps),
        refs_fit(r, kind, pps),
        marking_fits(m),
        sh.slice_type == Some(kind),
        sh.mmcos is None,
        !sh.no_output_of_prior_pics,
        !sh.long_term_reference,
        stands(
            data,
            pos,
            order_bits(o, sh.nal_type, pps, sps) + (refs_bits(r, kind, pps, sps) + marking_bits(
                m,
                sh.nal_type,
                sh.ref_idc,
            )),
        ),
    ensures
        slice_body(data, pos, sh, pps, sps) matches Ok((got, end)) && {
            &&& end == pos + (order_bits(o, sh.nal_type, pps, sps) + (refs_bits(r, kind, pps, sps) + marking_bits(
                m,
                sh.nal_type,
                sh.ref_idc,
            ))).len()
            &&& got.frame_num == o.frame_num
            &&& sh.nal_type == 5 ==> got.idr_pic_id == o.idr_pic_id
            &&& sps.pic_order_cnt_type == 0 ==> got.pic_order_cnt_lsb == o.lsb
            &&& got.num_ref_idx_l0_active_minus1 == first_count(r, kind != SliceType::I, pps)
            &&& sh.ref_idc != 0 && sh.nal_type == 5 ==> got.no_output_of_prior_pics == m.no_output
                && got.long_term_reference == m.long_term
            &&& sh.ref_idc != 0 && sh.nal_type != 5 ==> got.mmcos == m.ops
            &&& got.first_mb_in_slice == sh.first_mb_in_slice && got.slice_type == sh.slice_type && got.pps_id
                == sh.pps_id && got.nal_type == sh.nal_type && got.ref_idc == sh.ref_idc
        },
{
    let (a, b, c) = (
        order_bits(o, sh.nal_type, pps, sps),
        refs_bits(r, kind, pps, sps),
        marking_bits(m, sh.nal_type, sh.ref_idc),
    );
    lemma_cat(data, pos, a, b + c);
    lemma_cat(data, pos + a.len(), b, c);
    law_slice_order_reads_back(data, pos, o, sh, pps, sps);
    let s1 = slice_order(data, pos, sh, pps, sps)->Ok_0.0;
    law_slice_references_read_back(data, pos + a.len(), r, kind, s1, pps, sps);
    let s2 = slice_refs(data, pos + a.len(), s1, pps, sps)->Ok_0.0;
    law_slice_marking_reads_back(data, pos + a.len() + b.len(), m, s2);
}

} // verus!
