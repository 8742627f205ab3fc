//! Parameter sets as they are written, and that they are read back.

use super::bits::{bit_at, unescaped};
use super::parser::{
    no_scaling_lists, optional_lists, pps_head, pps_main, pps_of, pps_quant, pps_tail, read_offsets, read_scaling_list,
    scaling_list_rest, scaling_lists_rest, sps_chroma, sps_crop, sps_head, sps_of, sps_order, sps_size, with_list,
    PpsView, ScalingListsView, Sps, SpsView,
};
use super::syntax::{
    fixed, flag, law_fixed_fields_read_back, law_flags_read_back, law_signed_codes_read_back,
    law_unsigned_codes_read_back, lemma_cat, lemma_fixed_len, only_if, signed, stands, unsigned,
};
use crate::error::Error;
use vstd::arithmetic::power2::lemma2_to64;
use vstd::prelude::*;

verus! {

/// The entries of a scaling list from `j` on, of which the first `n` are
/// coded: each as its distance from the one before, then the distance to zero
/// where the last one repeats to the end.
pub open spec fn list_bits(list: Seq<u8>, n: int, j: int, last: int) -> Seq<bool>
    decreases n - j,
{
    if j < n {
        signed(list[j] - last) + list_bits(list, n, j + 1, list[j] as int)
    } else if n < list.len() {
        signed(-last)
    } else {
        Seq::empty()
    }
}

/// Whether a list can be coded by its first `n` entries: none of them is
/// zero, and the rest repeat the last of them, or 8 where there is none.
pub open spec fn list_fits(list: Seq<u8>, n: int) -> bool {
    &&& 0 <= n <= list.len()
    &&& forall|i: int| 0 <= i < n ==> #[trigger] list[i] != 0
    &&& forall|i: int|
        n <= i < list.len() ==> #[trigger] list[i] == if n > 0 {
            list[n - 1]
        } else {
            8
        }
}

proof fn lemma_list_repeats(data: Seq<u8>, pos: int, list: Seq<u8>, j: int, last: int, ud: bool)
    requires
        0 <= j <= list.len(),
        0 <= last < 256,
        forall|i: int| j <= i < list.len() ==> #[trigger] list[i] == last,
    ensures
        scaling_list_rest(data, pos, list.len() as int, j, last, 0, ud, list.take(j)) == Ok::<
            ((Seq<u8>, bool), int),
            Error,
        >(((list, ud), pos)),
    decreases list.len() - j,
{
    if j < list.len() {
        lemma_list_repeats(data, pos, list, j + 1, last, ud);
        assert(list[j] == last);
        assert(list.take(j + 1) =~= list.take(j).push(last as u8));
    } else {
        assert(list.take(j) =~= list);
    }
}

proof fn lemma_list(data: Seq<u8>, pos: int, list: Seq<u8>, n: int, j: int, last: int)
    requires
        list_fits(list, n),
        list.len() > 0,
        0 <= j <= n,
        last == if j > 0 {
            list[j - 1] as int
        } else {
            8
        },
        stands(data, pos, list_bits(list, n, j, last)),
    ensures
        scaling_list_rest(data, pos, list.len() as int, j, last, last, false, list.take(j)) == Ok::<
            ((Seq<u8>, bool), int),
            Error,
        >(((list, n == 0), pos + list_bits(list, n, j, last).len())),
    decreases n - j,
{
    if j < n {
        let d = (list[j] - last) as i32;
        lemma_cat(data, pos, signed(d as int), list_bits(list, n, j + 1, list[j] as int));
        law_signed_codes_read_back(data, pos, d);
        lemma_list(data, pos + signed(d as int).len(), list, n, j + 1, list[j] as int);
        assert(list.take(j + 1) =~= list.take(j).push(list[j]));
        assert((last + d + 256) % 256 == list[j]);
        assert(list[j] != 0);
    } else if n < list.len() {
        law_signed_codes_read_back(data, pos, (-last) as i32);
        assert((last + -last + 256) % 256 == 0);
        assert(list[j] == last);
        assert(list.take(j + 1) =~= list.take(j).push(last as u8));
        assert forall|i: int| j + 1 <= i < list.len() implies #[trigger] list[i] == last by {}
        lemma_list_repeats(data, pos + signed(-last).len(), list, j + 1, last, j == 0);
    } else {
        assert(list.take(j) =~= list);
    }
}

/// A scaling list is read back, and is told from one that asks for the
/// default matrix: that one codes no entry at all.
pub proof fn law_scaling_lists_read_back(data: Seq<u8>, pos: int, list: Seq<u8>, n: int)
    requires
        list_fits(list, n),
        list.len() > 0,
        stands(data, pos, list_bits(list, n, 0, 8)),
    ensures
        read_scaling_list(data, pos, list.len() as int) == Ok::<((Seq<u8>, bool), int), Error>(
            ((list, n == 0), pos + list_bits(list, n, 0, 8).len()),
        ),
{
    lemma_list(data, pos, list, n, 0, 8);
    assert(list.take(0) =~= Seq::empty());
}

/// A list that is there, and how many of its entries are coded.
pub struct ListText {
    pub list: Seq<u8>,
    pub coded: int,
}

/// How many entries list `i` has.
pub open spec fn list_size(i: int) -> int {
    if i < 6 {
        16
    } else {
        64
    }
}

pub open spec fn lists_fit(lists: Seq<Option<ListText>>) -> bool {
    &&& lists.len() <= 12
    &&& forall|i: int|
        0 <= i < lists.len() ==> ((#[trigger] lists[i]) matches Some(t) ==> t.list.len() == list_size(i) && list_fits(
            t.list,
            t.coded,
        ))
}

/// The lists from `i` on, each behind its presence bit.
pub open spec fn lists_bits(lists: Seq<Option<ListText>>, i: int) -> Seq<bool>
    decreases lists.len() - i,
{
    if i >= lists.len() {
        Seq::empty()
    } else {
        match lists[i] {
            Some(t) => flag(true) + (list_bits(t.list, t.coded, 0, 8) + lists_bits(lists, i + 1)),
            None => flag(false) + lists_bits(lists, i + 1),
        }
    }
}

/// Bit `k` of a mask.
pub open spec fn in_mask(mask: u16, k: int) -> bool {
    (mask >> (k as u16)) & 1u16 == 1u16
}

/// Whether the lists up to `n` are held as they were written: the masks tell
/// which are there and which ask for the default, and the entries are those
/// of the ones that do not; no other list is there.
pub open spec fn lists_held(lists: Seq<Option<ListText>>, n: int, got: ScalingListsView) -> bool {
    &&& got.list_4x4.len() == 6 && got.list_8x8.len() == 6
    &&& forall|k: int|
        0 <= k < 16 ==> #[trigger] in_mask(got.present_mask, k) == (k < n && lists[k] is Some)
    &&& forall|k: int|
        0 <= k < 16 ==> #[trigger] in_mask(got.use_default_mask, k) == (k < n && (lists[k] matches Some(t) && t.coded
            == 0))
    &&& forall|k: int|
        0 <= k < 6 ==> #[trigger] got.list_4x4[k] == if k < n && (lists[k] matches Some(t) && t.coded > 0) {
            lists[k]->0.list
        } else {
            Seq::new(16, |j: int| 0u8)
        }
    &&& forall|k: int|
        0 <= k < 6 ==> #[trigger] got.list_8x8[k] == if k + 6 < n && (lists[k + 6] matches Some(t) && t.coded > 0) {
            lists[k + 6]->0.list
        } else {
            Seq::new(64, |j: int| 0u8)
        }
}

proof fn lemma_mask(m: u16, i: u16, k: u16)
    requires
        i < 16,
        k < 16,
    ensures
        in_mask(m | (1u16 << i), k as int) == (k == i || in_mask(m, k as int)),
        !in_mask(0, k as int),
{
    assert(((m | (1u16 << i)) >> k) & 1u16 == 1u16 <==> (k == i || (m >> k) & 1u16 == 1u16)) by (bit_vector)
        requires
            i < 16,
            k < 16,
    ;
    assert((0u16 >> k) & 1u16 == 0u16) by (bit_vector);
}

proof fn lemma_with_list(lists: Seq<Option<ListText>>, n: int, got: ScalingListsView)
    requires
        0 <= n < lists.len() <= 12,
        lists_held(lists, n, got),
    ensures
        lists[n] is None ==> lists_held(lists, n + 1, got),
        lists[n] matches Some(t) ==> t.coded >= 0 ==> lists_held(
            lists,
            n + 1,
            with_list(got, n, t.list, t.coded == 0),
        ),
{
    if let Some(t) = lists[n] {
        let next = with_list(got, n, t.list, t.coded == 0);
        assert forall|k: int| 0 <= k < 16 implies #[trigger] in_mask(next.present_mask, k) == (k < n + 1
            && lists[k] is Some) by {
            lemma_mask(got.present_mask, n as u16, k as u16);
            assert(in_mask(got.present_mask, k) == (k < n && lists[k] is Some));
        }
        assert forall|k: int| 0 <= k < 16 implies #[trigger] in_mask(next.use_default_mask, k) == (k < n + 1 && (
        lists[k] matches Some(t) && t.coded == 0)) by {
            lemma_mask(got.use_default_mask, n as u16, k as u16);
            assert(in_mask(got.use_default_mask, k) == (k < n && (lists[k] matches Some(t) && t.coded == 0)));
        }
        if t.coded >= 0 {
            assert forall|k: int| 0 <= k < 6 implies #[trigger] next.list_4x4[k] == if k < n + 1 && (
            lists[k] matches Some(t) && t.coded > 0) {
                lists[k]->0.list
            } else {
                Seq::new(16, |j: int| 0u8)
            } by {
                assert(got.list_4x4[k] == got.list_4x4[k]);
            }
            assert forall|k: int| 0 <= k < 6 implies #[trigger] next.list_8x8[k] == if k + 6 < n + 1 && (
            lists[k + 6] matches Some(t) && t.coded > 0) {
                lists[k + 6]->0.list
            } else {
                Seq::new(64, |j: int| 0u8)
            } by {
                assert(got.list_8x8[k] == got.list_8x8[k]);
            }
        }
    }
}

proof fn lemma_lists(data: Seq<u8>, pos: int, lists: Seq<Option<ListText>>, i: int, got: ScalingListsView)
    requires
        lists_fit(lists),
        0 <= i <= lists.len(),
        lists_held(lists, i, got),
        stands(data, pos, lists_bits(lists, i)),
    ensures
        scaling_lists_rest(data, pos, lists.len() as int, i, got) matches Ok((all, end)) && lists_held(
            lists,
            lists.len() as int,
            all,
        ) && end == pos + lists_bits(lists, i).len(),
    decreases lists.len() - i,
{
    if i < lists.len() {
        lemma_with_list(lists, i, got);
        match lists[i] {
            Some(t) => {
                let (a, b) = (list_bits(t.list, t.coded, 0, 8), lists_bits(lists, i + 1));
                lemma_cat(data, pos, flag(true), a + b);
                lemma_cat(data, pos + 1, a, b);
                law_flags_read_back(data, pos, true);
                law_scaling_lists_read_back(data, pos + 1, t.list, t.coded);
                lemma_lists(data, pos + 1 + a.len(), lists, i + 1, with_list(got, i, t.list, t.coded == 0));
            },
            None => {
                lemma_cat(data, pos, flag(false), lists_bits(lists, i + 1));
                law_flags_read_back(data, pos, false);
                lemma_lists(data, pos + 1, lists, i + 1, got);
            },
        }
    }
}

/// The lists behind the bit that says whether there are any.
pub open spec fn optional_bits(lists: Option<Seq<Option<ListText>>>) -> Seq<bool> {
    match lists {
        Some(l) => flag(true) + lists_bits(l, 0),
        None => flag(false),
    }
}

/// Whether these are the lists that were written.
pub open spec fn optional_held(lists: Option<Seq<Option<ListText>>>, got: Option<ScalingListsView>) -> bool {
    match (lists, got) {
        (Some(l), Some(g)) => lists_held(l, l.len() as int, g),
        (None, None) => true,
        _ => false,
    }
}

/// All the scaling lists of a parameter set are read back, each in its place.
pub proof fn law_all_scaling_lists_read_back(data: Seq<u8>, pos: int, lists: Option<Seq<Option<ListText>>>, count: int)
    requires
        lists matches Some(l) ==> lists_fit(l) && l.len() == count,
        stands(data, pos, optional_bits(lists)),
    ensures
        optional_lists(data, pos, count) matches Ok((got, end)) && optional_held(lists, got) && end == pos
            + optional_bits(lists).len(),
{
    match lists {
        Some(l) => {
            lemma_cat(data, pos, flag(true), lists_bits(l, 0));
            law_flags_read_back(data, pos, true);
            assert(lists_held(l, 0, no_scaling_lists())) by {
                assert forall|k: int| 0 <= k < 16 implies !#[trigger] in_mask(0, k) by {
                    lemma_mask(0, 0, k as u16);
                }
            }
            lemma_lists(data, pos + 1, l, 0, no_scaling_lists());
        },
        None => law_flags_read_back(data, pos, false),
    }
}

/// Profile, constraints, level and id.
pub open spec fn sps_head_bits(s: SpsView) -> Seq<bool> {
    fixed(s.profile_idc as nat, 8) + (fixed(s.constraint_flags as nat, 8) + (fixed(s.level_idc as nat, 8) + unsigned(
        s.sps_id as nat,
    )))
}

proof fn lemma_sps_head(data: Seq<u8>, s: SpsView)
    requires
        stands(data, 0, sps_head_bits(s)),
    ensures
        sps_head(data) matches Ok((got, end)) && {
            &&& end == sps_head_bits(s).len()
            &&& got.profile_idc == s.profile_idc
            &&& got.constraint_flags == s.constraint_flags
            &&& got.level_idc == s.level_idc
            &&& got.sps_id == s.sps_id
            &&& got.chroma_format_idc == 1
            &&& !got.separate_colour_plane && got.bit_depth_luma_minus8 == 0 && got.bit_depth_chroma_minus8 == 0
            &&& !got.qpprime_y_zero_transform_bypass && got.scaling_lists is None
            &&& got.log2_max_pic_order_cnt_lsb_minus4 == 0 && !got.delta_pic_order_always_zero
            &&& got.offset_for_non_ref_pic == 0 && got.offset_for_top_to_bottom_field == 0
            &&& got.offset_for_ref_frame == Seq::<i32>::empty()
        },
{
    let (a, b, c, d) = (
        fixed(s.profile_idc as nat, 8),
        fixed(s.constraint_flags as nat, 8),
        fixed(s.level_idc as nat, 8),
        unsigned(s.sps_id as nat),
    );
    lemma2_to64();
    lemma_cat(data, 0, a, b + (c + d));
    lemma_fixed_len(s.profile_idc as nat, 8);
    lemma_cat(data, 8, b, c + d);
    lemma_fixed_len(s.constraint_flags as nat, 8);
    lemma_cat(data, 16, c, d);
    lemma_fixed_len(s.level_idc as nat, 8);
    law_fixed_fields_read_back(data, 0, s.profile_idc as u32, 8);
    law_fixed_fields_read_back(data, 8, s.constraint_flags as u32, 8);
    law_fixed_fields_read_back(data, 16, s.level_idc as u32, 8);
    law_unsigned_codes_read_back(data, 24, s.sps_id as u32);
}

/// The profiles that code their chroma format.
pub open spec fn codes_chroma(profile: u8) -> bool {
    seq![100u8, 110, 122, 244, 44, 83, 86, 118, 128, 138, 139, 134, 135].contains(profile)
}

/// Chroma format, bit depths and lists, of the profiles that code them.
pub open spec fn sps_chroma_bits(s: SpsView, lists: Option<Seq<Option<ListText>>>) -> Seq<bool> {
    only_if(
        codes_chroma(s.profile_idc),
        unsigned(s.chroma_format_idc as nat) + (only_if(s.chroma_format_idc == 3, flag(s.separate_colour_plane)) + (
        unsigned(s.bit_depth_luma_minus8 as nat) + (unsigned(s.bit_depth_chroma_minus8 as nat) + (flag(
            s.qpprime_y_zero_transform_bypass,
        ) + optional_bits(lists))))),
    )
}

/// The chroma format, the bit depths and the lists are read back where the
/// profile codes them; every other profile has 8-bit 4:2:0 and no lists.
pub proof fn law_chroma_formats_read_back(
    data: Seq<u8>,
    pos: int,
    s: SpsView,
    lists: Option<Seq<Option<ListText>>>,
    start: SpsView,
)
    requires
        start.profile_idc == s.profile_idc,
        lists matches Some(l) ==> lists_fit(l) && l.len() == if s.chroma_format_idc == 3 {
            12int
        } else {
            8
        },
        stands(data, pos, sps_chroma_bits(s, lists)),
    ensures
        sps_chroma(data, pos, start) matches Ok((got, end)) && {
            &&& end == pos + sps_chroma_bits(s, lists).len()
            &&& !codes_chroma(s.profile_idc) ==> got == start
            &&& codes_chroma(s.profile_idc) ==> optional_held(lists, got.scaling_lists) && got == (SpsView {
                chroma_format_idc: s.chroma_format_idc,
                separate_colour_plane: s.chroma_format_idc == 3 && s.separate_colour_plane,
                bit_depth_luma_minus8: s.bit_depth_luma_minus8,
                bit_depth_chroma_minus8: s.bit_depth_chroma_minus8,
                qpprime_y_zero_transform_bypass: s.qpprime_y_zero_transform_bypass,
                scaling_lists: got.scaling_lists,
                ..start
            })
        },
{
    let profiles = seq![100u8, 110, 122, 244, 44, 83, 86, 118, 128, 138, 139, 134, 135];
    assert(profiles[0] == 100 && profiles[1] == 110 && profiles[2] == 122 && profiles[3] == 244 && profiles[4] == 44
        && profiles[5] == 83 && profiles[6] == 86 && profiles[7] == 118 && profiles[8] == 128 && profiles[9] == 138
        && profiles[10] == 139 && profiles[11] == 134 && profiles[12] == 135);
    if codes_chroma(s.profile_idc) {
        let a = unsigned(s.chroma_format_idc as nat);
        let b = only_if(s.chroma_format_idc == 3, flag(s.separate_colour_plane));
        let c = unsigned(s.bit_depth_luma_minus8 as nat);
        let d = unsigned(s.bit_depth_chroma_minus8 as nat);
        let e = flag(s.qpprime_y_zero_transform_bypass);
        let f = optional_bits(lists);
        lemma_cat(data, pos, a, b + (c + (d + (e + f))));
        let p1 = pos + a.len();
        lemma_cat(data, p1, b, c + (d + (e + f)));
        let p2 = p1 + b.len();
        lemma_cat(data, p2, c, d + (e + f));
        let p3 = p2 + c.len();
        lemma_cat(data, p3, d, e + f);
        let p4 = p3 + d.len();
        lemma_cat(data, p4, e, f);
        law_unsigned_codes_read_back(data, pos, s.chroma_format_idc as u32);
        if s.chroma_format_idc == 3 {
            law_flags_read_back(data, p1, s.separate_colour_plane);
        }
        law_unsigned_codes_read_back(data, p2, s.bit_depth_luma_minus8 as u32);
        law_unsigned_codes_read_back(data, p3, s.bit_depth_chroma_minus8 as u32);
        law_flags_read_back(data, p4, s.qpprime_y_zero_transform_bypass);
        law_all_scaling_lists_read_back(
            data,
            p4 + 1,
            lists,
            if s.chroma_format_idc == 3 {
                12
            } else {
                8
            },
        );
    }
}

/// Offsets, one behind the other.
pub open spec fn offsets_bits(offsets: Seq<i32>) -> Seq<bool>
    decreases offsets.len(),
{
    if offsets.len() == 0 {
        Seq::empty()
    } else {
        signed(offsets[0] as int) + offsets_bits(offsets.drop_first())
    }
}

proof fn lemma_offsets(data: Seq<u8>, pos: int, before: Seq<i32>, offsets: Seq<i32>)
    requires
        forall|i: int| 0 <= i < offsets.len() ==> #[trigger] offsets[i] > i32::MIN,
        stands(data, pos, offsets_bits(offsets)),
    ensures
        read_offsets(data, pos, offsets.len(), before) == Ok::<(Seq<i32>, int), Error>(
            (before + offsets, pos + offsets_bits(offsets).len()),
        ),
    decreases offsets.len(),
{
    if offsets.len() == 0 {
        assert(before + offsets =~= before);
    } else {
        let rest = offsets.drop_first();
        let a = signed(offsets[0] as int);
        lemma_cat(data, pos, a, offsets_bits(rest));
        law_signed_codes_read_back(data, pos, offsets[0]);
        assert forall|i: int| 0 <= i < rest.len() implies #[trigger] rest[i] > i32::MIN by {
            assert(rest[i] == offsets[i + 1]);
        }
        lemma_offsets(data, pos + a.len(), before.push(offsets[0]), rest);
        assert(before.push(offsets[0]) + rest =~= before + offsets);
    }
}

/// The fields of picture order count type 1.
pub open spec fn cycle_bits(s: SpsView) -> Seq<bool> {
    flag(s.delta_pic_order_always_zero) + (signed(s.offset_for_non_ref_pic as int) + (signed(
        s.offset_for_top_to_bottom_field as int,
    ) + (unsigned(s.offset_for_ref_frame.len()) + offsets_bits(s.offset_for_ref_frame))))
}

/// The frame number's width and the picture order count fields.
pub open spec fn sps_order_bits(s: SpsView) -> Seq<bool> {
    unsigned(s.log2_max_frame_num_minus4 as nat) + (unsigned(s.pic_order_cnt_type as nat) + (if s.pic_order_cnt_type
        == 0 {
        unsigned(s.log2_max_pic_order_cnt_lsb_minus4 as nat)
    } else if s.pic_order_cnt_type == 1 {
        cycle_bits(s)
    } else {
        Seq::empty()
    }))
}

pub open spec fn sps_order_fits(s: SpsView) -> bool {
    &&& s.log2_max_frame_num_minus4 <= 12
    &&& s.pic_order_cnt_type <= 2
    &&& s.log2_max_pic_order_cnt_lsb_minus4 <= 12
    &&& s.offset_for_non_ref_pic > i32::MIN
    &&& s.offset_for_top_to_bottom_field > i32::MIN
    &&& s.offset_for_ref_frame.len() <= 255
    &&& forall|i: int| 0 <= i < s.offset_for_ref_frame.len() ==> #[trigger] s.offset_for_ref_frame[i] > i32::MIN
}

/// The width of frame numbers and the picture order count are read back, by
/// the count's type; the fields of the other types stay as they were.
pub proof fn law_picture_orders_read_back(data: Seq<u8>, pos: int, s: SpsView, start: SpsView)
    requires
        sps_order_fits(s),
        stands(data, pos, sps_order_bits(s)),
    ensures
        sps_order(data, pos, start) == Ok::<(SpsView, int), Error>(
            (
                if s.pic_order_cnt_type == 0 {
                    SpsView {
                        log2_max_frame_num_minus4: s.log2_max_frame_num_minus4,
                        pic_order_cnt_type: s.pic_order_cnt_type,
                        log2_max_pic_order_cnt_lsb_minus4: s.log2_max_pic_order_cnt_lsb_minus4,
                        ..start
                    }
                } else if s.pic_order_cnt_type == 1 {
                    SpsView {
                        log2_max_frame_num_minus4: s.log2_max_frame_num_minus4,
                        pic_order_cnt_type: s.pic_order_cnt_type,
                        delta_pic_order_always_zero: s.delta_pic_order_always_zero,
                        offset_for_non_ref_pic: s.offset_for_non_ref_pic,
                        offset_for_top_to_bottom_field: s.offset_for_top_to_bottom_field,
                        offset_for_ref_frame: s.offset_for_ref_frame,
                        ..start
                    }
                } else {
                    SpsView {
                        log2_max_frame_num_minus4: s.log2_max_frame_num_minus4,
                        pic_order_cnt_type: s.pic_order_cnt_type,
                        ..start
                    }
                },
                pos + sps_order_bits(s).len(),
            ),
        ),
{
    let a = unsigned(s.log2_max_frame_num_minus4 as nat);
    let b = unsigned(s.pic_order_cnt_type as nat);
    let c = if s.pic_order_cnt_type == 0 {
        unsigned(s.log2_max_pic_order_cnt_lsb_minus4 as nat)
    } else if s.pic_order_cnt_type == 1 {
        cycle_bits(s)
    } else {
        Seq::empty()
    };
    lemma_cat(data, pos, a, b + c);
    let p1 = pos + a.len();
    lemma_cat(data, p1, b, c);
    let p2 = p1 + b.len();
    law_unsigned_codes_read_back(data, pos, s.log2_max_frame_num_minus4 as u32);
    law_unsigned_codes_read_back(data, p1, s.pic_order_cnt_type as u32);
    if s.pic_order_cnt_type == 0 {
        law_unsigned_codes_read_back(data, p2, s.log2_max_pic_order_cnt_lsb_minus4 as u32);
    } else if s.pic_order_cnt_type == 1 {
        let d = flag(s.delta_pic_order_always_zero);
        let e = signed(s.offset_for_non_ref_pic as int);
        let f = signed(s.offset_for_top_to_bottom_field as int);
        let g = unsigned(s.offset_for_ref_frame.len());
        let h = offsets_bits(s.offset_for_ref_frame);
        lemma_cat(data, p2, d, e + (f + (g + h)));
        let p3 = p2 + 1;
        lemma_cat(data, p3, e, f + (g + h));
        let p4 = p3 + e.len();
        lemma_cat(data, p4, f, g + h);
        let p5 = p4 + f.len();
        lemma_cat(data, p5, g, h);
        law_flags_read_back(data, p2, s.delta_pic_order_always_zero);
        law_signed_codes_read_back(data, p3, s.offset_for_non_ref_pic);
        law_signed_codes_read_back(data, p4, s.offset_for_top_to_bottom_field);
        law_unsigned_codes_read_back(data, p5, s.offset_for_ref_frame.len() as u32);
        lemma_offsets(data, p5 + g.len(), Seq::empty(), s.offset_for_ref_frame);
        assert(Seq::<i32>::empty() + s.offset_for_ref_frame =~= s.offset_for_ref_frame);
    }
}

/// The cropping behind its presence bit: left, right, top, bottom.
pub open spec fn crop_bits(crop: Option<Seq<u32>>) -> Seq<bool> {
    match crop {
        Some(c) => flag(true) + (unsigned(c[0] as nat) + (unsigned(c[1] as nat) + (unsigned(c[2] as nat) + unsigned(
            c[3] as nat,
        )))),
        None => flag(false),
    }
}

pub open spec fn crop_fits(crop: Option<Seq<u32>>) -> bool {
    crop matches Some(c) ==> c.len() == 4 && c[0] <= 8192 && c[1] <= 8192 && c[2] <= 8192 && c[3] <= 8192
}

proof fn lemma_crop(data: Seq<u8>, pos: int, crop: Option<Seq<u32>>)
    requires
        crop_fits(crop),
        stands(data, pos, crop_bits(crop)),
    ensures
        sps_crop(data, pos) == Ok::<(Option<Seq<u32>>, int), Error>((crop, pos + crop_bits(crop).len())),
{
    match crop {
        Some(c) => {
            let (a, b, d, e) = (
                unsigned(c[0] as nat),
                unsigned(c[1] as nat),
                unsigned(c[2] as nat),
                unsigned(c[3] as nat),
            );
            lemma_cat(data, pos, flag(true), a + (b + (d + e)));
            let p1 = pos + 1;
            lemma_cat(data, p1, a, b + (d + e));
            let p2 = p1 + a.len();
            lemma_cat(data, p2, b, d + e);
            let p3 = p2 + b.len();
            lemma_cat(data, p3, d, e);
            law_flags_read_back(data, pos, true);
            law_unsigned_codes_read_back(data, p1, c[0]);
            law_unsigned_codes_read_back(data, p2, c[1]);
            law_unsigned_codes_read_back(data, p3, c[2]);
            law_unsigned_codes_read_back(data, p3 + d.len(), c[3]);
            assert(c =~= seq![c[0], c[1], c[2], c[3]]);
        },
        None => law_flags_read_back(data, pos, false),
    }
}

/// Reference count, size, cropping and the VUI bit.
pub open spec fn sps_size_bits(s: SpsView) -> Seq<bool> {
    unsigned(s.max_num_ref_frames as nat) + (flag(s.gaps_in_frame_num_allowed) + (unsigned(
        s.pic_width_in_mbs_minus1 as nat,
    ) + (unsigned(s.pic_height_in_map_units_minus1 as nat) + (flag(s.frame_mbs_only) + (only_if(
        !s.frame_mbs_only,
        flag(s.mb_adaptive_frame_field),
    ) + (flag(s.direct_8x8_inference) + (crop_bits(s.frame_cropping) + flag(s.vui_present))))))))
}

pub open spec fn sps_size_fits(s: SpsView) -> bool {
    &&& s.max_num_ref_frames <= 16
    &&& s.pic_width_in_mbs_minus1 <= 1023
    &&& s.pic_height_in_map_units_minus1 <= 1023
    &&& crop_fits(s.frame_cropping)
    &&& s.frame_mbs_only ==> !s.mb_adaptive_frame_field
}

/// The picture's size, its cropping and the bits around them are read back.
pub proof fn law_picture_sizes_read_back(data: Seq<u8>, pos: int, s: SpsView, start: SpsView)
    requires
        sps_size_fits(s),
        stands(data, pos, sps_size_bits(s)),
    ensures
        sps_size(data, pos, start) == Ok::<(SpsView, int), Error>(
            (
                SpsView {
                    max_num_ref_frames: s.max_num_ref_frames,
                    gaps_in_frame_num_allowed: s.gaps_in_frame_num_allowed,
                    pic_width_in_mbs_minus1: s.pic_width_in_mbs_minus1,
                    pic_height_in_map_units_minus1: s.pic_height_in_map_units_minus1,
                    frame_mbs_only: s.frame_mbs_only,
                    mb_adaptive_frame_field: s.mb_adaptive_frame_field,
                    direct_8x8_inference: s.direct_8x8_inference,
                    frame_cropping: s.frame_cropping,
                    vui_present: s.vui_present,
                    ..start
                },
                pos + sps_size_bits(s).len(),
            ),
        ),
{
    let a = unsigned(s.max_num_ref_frames as nat);
    let b = flag(s.gaps_in_frame_num_allowed);
    let c = unsigned(s.pic_width_in_mbs_minus1 as nat);
    let d = unsigned(s.pic_height_in_map_units_minus1 as nat);
    let e = flag(s.frame_mbs_only);
    let f = only_if(!s.frame_mbs_only, flag(s.mb_adaptive_frame_field));
    let g = flag(s.direct_8x8_inference);
    let h = crop_bits(s.frame_cropping);
    let i = flag(s.vui_present);
    lemma_cat(data, pos, a, b + (c + (d + (e + (f + (g + (h + i)))))));
    let p1 = pos + a.len();
    lemma_cat(data, p1, b, c + (d + (e + (f + (g + (h + i))))));
    let p2 = p1 + 1;
    lemma_cat(data, p2, c, d + (e + (f + (g + (h + i)))));
    let p3 = p2 + c.len();
    lemma_cat(data, p3, d, e + (f + (g + (h + i))));
    let p4 = p3 + d.len();
    lemma_cat(data, p4, e, f + (g + (h + i)));
    let p5 = p4 + 1;
    lemma_cat(data, p5, f, g + (h + i));
    let p6 = p5 + f.len();
    lemma_cat(data, p6, g, h + i);
    let p7 = p6 + 1;
    lemma_cat(data, p7, h, i);
    law_unsigned_codes_read_back(data, pos, s.max_num_ref_frames as u32);
    law_flags_read_back(data, p1, s.gaps_in_frame_num_allowed);
    law_unsigned_codes_read_back(data, p2, s.pic_width_in_mbs_minus1);
    law_unsigned_codes_read_back(data, p3, s.pic_height_in_map_units_minus1);
    law_flags_read_back(data, p4, s.frame_mbs_only);
    if !s.frame_mbs_only {
        law_flags_read_back(data, p5, s.mb_adaptive_frame_field);
    }
    law_flags_read_back(data, p6, s.direct_8x8_inference);
    lemma_crop(data, p7, s.frame_cropping);
    law_flags_read_back(data, p7 + h.len(), s.vui_present);
}

/// A whole SPS, up to the VUI.
pub open spec fn sps_bits(s: SpsView, lists: Option<Seq<Option<ListText>>>) -> Seq<bool> {
    sps_head_bits(s) + (sps_chroma_bits(s, lists) + (sps_order_bits(s) + sps_size_bits(s)))
}

/// A progressive 8-bit 4:2:0 SPS, in which fields that are not coded have
/// their usual values.
pub open spec fn sps_writable(s: SpsView) -> bool {
    &&& sps_order_fits(s)
    &&& sps_size_fits(s)
    &&& s.frame_mbs_only
    &&& s.chroma_format_idc == 1
    &&& s.bit_depth_luma_minus8 == 0
    &&& s.bit_depth_chroma_minus8 == 0
    &&& !s.separate_colour_plane
    &&& !codes_chroma(s.profile_idc) ==> !s.qpprime_y_zero_transform_bypass
    &&& s.pic_order_cnt_type != 0 ==> s.log2_max_pic_order_cnt_lsb_minus4 == 0
    &&& s.pic_order_cnt_type != 1 ==> !s.delta_pic_order_always_zero && s.offset_for_non_ref_pic == 0
        && s.offset_for_top_to_bottom_field == 0 && s.offset_for_ref_frame == Seq::<i32>::empty()
}

/// An SPS that is written by the syntax is read back field by field.
pub proof fn law_sequence_sets_read_back(nal: Seq<u8>, s: SpsView, lists: Option<Seq<Option<ListText>>>)
    requires
        nal.len() > 0,
        sps_writable(s),
        lists matches Some(l) ==> codes_chroma(s.profile_idc) && lists_fit(l) && l.len() == 8,
        stands(unescaped(nal.skip(1)), 0, sps_bits(s, lists)),
    ensures
        sps_of(nal) matches Ok(got) && optional_held(lists, got.scaling_lists) && got == (SpsView {
            scaling_lists: got.scaling_lists,
            ..s
        }),
{
    let data = unescaped(nal.skip(1));
    let (a, b, c, d) = (sps_head_bits(s), sps_chroma_bits(s, lists), sps_order_bits(s), sps_size_bits(s));
    lemma_cat(data, 0, a, b + (c + d));
    lemma_cat(data, a.len() as int, b, c + d);
    lemma_cat(data, (a.len() + b.len()) as int, c, d);
    lemma_sps_head(data, s);
    let s1 = sps_head(data)->Ok_0.0;
    law_chroma_formats_read_back(data, a.len() as int, s, lists, s1);
    let s2 = sps_chroma(data, a.len() as int, s1)->Ok_0.0;
    law_picture_orders_read_back(data, (a.len() + b.len()) as int, s, s2);
    let s3 = sps_order(data, (a.len() + b.len()) as int, s2)->Ok_0.0;
    law_picture_sizes_read_back(data, (a.len() + b.len() + c.len()) as int, s, s3);
    assert(sps_of(nal)->Ok_0 =~= SpsView { scaling_lists: sps_of(nal)->Ok_0.scaling_lists, ..s });
}

/// The fields of a PPS from the entropy coding to the weights.
pub open spec fn pps_main_bits(p: PpsView) -> Seq<bool> {
    flag(p.entropy_coding_mode) + (flag(p.bottom_field_pic_order_in_frame_present) + (unsigned(0) + (unsigned(
        p.num_ref_idx_l0_default_active_minus1 as nat,
    ) + (unsigned(p.num_ref_idx_l1_default_active_minus1 as nat) + (flag(p.weighted_pred) + (fixed(
        p.weighted_bipred_idc as nat,
        2,
    ) + pps_quant_bits(p)))))))
}

/// The quantiser fields and the three bits behind them.
pub open spec fn pps_quant_bits(p: PpsView) -> Seq<bool> {
    signed(p.pic_init_qp_minus26 as int) + (signed(p.pic_init_qs_minus26 as int) + (signed(
        p.chroma_qp_index_offset as int,
    ) + (flag(p.deblocking_filter_control_present) + (flag(p.constrained_intra_pred) + flag(
        p.redundant_pic_cnt_present,
    )))))
}

/// The tail of a PPS.
pub open spec fn pps_tail_bits(p: PpsView, lists: Option<Seq<Option<ListText>>>) -> Seq<bool> {
    flag(p.transform_8x8_mode) + (optional_bits(lists) + signed(p.second_chroma_qp_index_offset as int))
}

proof fn lemma_pps_quant(data: Seq<u8>, pos: int, p: PpsView, start: PpsView)
    requires
        stands(data, pos, pps_quant_bits(p)),
    ensures
        pps_quant(data, pos, start) == Ok::<(PpsView, int), Error>(
            (
                PpsView {
                    pic_init_qp_minus26: p.pic_init_qp_minus26,
                    pic_init_qs_minus26: p.pic_init_qs_minus26,
                    chroma_qp_index_offset: p.chroma_qp_index_offset,
                    deblocking_filter_control_present: p.deblocking_filter_control_present,
                    constrained_intra_pred: p.constrained_intra_pred,
                    redundant_pic_cnt_present: p.redundant_pic_cnt_present,
                    second_chroma_qp_index_offset: p.chroma_qp_index_offset,
                    ..start
                },
                pos + pps_quant_bits(p).len(),
            ),
        ),
{
    let a = signed(p.pic_init_qp_minus26 as int);
    let b = signed(p.pic_init_qs_minus26 as int);
    let c = signed(p.chroma_qp_index_offset as int);
    let d = flag(p.deblocking_filter_control_present);
    let e = flag(p.constrained_intra_pred);
    let f = flag(p.redundant_pic_cnt_present);
    lemma_cat(data, pos, a, b + (c + (d + (e + f))));
    let p1 = pos + a.len();
    lemma_cat(data, p1, b, c + (d + (e + f)));
    let p2 = p1 + b.len();
    lemma_cat(data, p2, c, d + (e + f));
    let p3 = p2 + c.len();
    lemma_cat(data, p3, d, e + f);
    lemma_cat(data, p3 + 1, e, f);
    law_signed_codes_read_back(data, pos, p.pic_init_qp_minus26 as i32);
    law_signed_codes_read_back(data, p1, p.pic_init_qs_minus26 as i32);
    law_signed_codes_read_back(data, p2, p.chroma_qp_index_offset as i32);
    law_flags_read_back(data, p3, p.deblocking_filter_control_present);
    law_flags_read_back(data, p3 + 1, p.constrained_intra_pred);
    law_flags_read_back(data, p3 + 2, p.redundant_pic_cnt_present);
}

proof fn lemma_pps_main(data: Seq<u8>, pos: int, p: PpsView, start: PpsView)
    requires
        p.weighted_bipred_idc < 4,
        stands(data, pos, pps_main_bits(p)),
    ensures
        pps_main(data, pos, start) matches Ok((got, end)) && end == pos + pps_main_bits(p).len() && got == (PpsView {
            pps_id: start.pps_id,
            sps_id: start.sps_id,
            transform_8x8_mode: start.transform_8x8_mode,
            scaling_lists: start.scaling_lists,
            second_chroma_qp_index_offset: p.chroma_qp_index_offset,
            ..p
        }),
{
    let a = flag(p.entropy_coding_mode);
    let b = flag(p.bottom_field_pic_order_in_frame_present);
    let c = unsigned(0);
    let d = unsigned(p.num_ref_idx_l0_default_active_minus1 as nat);
    let e = unsigned(p.num_ref_idx_l1_default_active_minus1 as nat);
    let f = flag(p.weighted_pred);
    let g = fixed(p.weighted_bipred_idc as nat, 2);
    let h = pps_quant_bits(p);
    lemma2_to64();
    lemma_cat(data, pos, a, b + (c + (d + (e + (f + (g + h))))));
    let p1 = pos + 1;
    lemma_cat(data, p1, b, c + (d + (e + (f + (g + h)))));
    let p2 = p1 + 1;
    lemma_cat(data, p2, c, d + (e + (f + (g + h))));
    let p3 = p2 + c.len();
    lemma_cat(data, p3, d, e + (f + (g + h)));
    let p4 = p3 + d.len();
    lemma_cat(data, p4, e, f + (g + h));
    let p5 = p4 + e.len();
    lemma_cat(data, p5, f, g + h);
    let p6 = p5 + 1;
    lemma_cat(data, p6, g, h);
    law_flags_read_back(data, pos, p.entropy_coding_mode);
    law_flags_read_back(data, p1, p.bottom_field_pic_order_in_frame_present);
    law_unsigned_codes_read_back(data, p2, 0);
    law_unsigned_codes_read_back(data, p3, p.num_ref_idx_l0_default_active_minus1 as u32);
    law_unsigned_codes_read_back(data, p4, p.num_ref_idx_l1_default_active_minus1 as u32);
    law_flags_read_back(data, p5, p.weighted_pred);
    law_fixed_fields_read_back(data, p6, p.weighted_bipred_idc as u32, 2);
    lemma_pps_quant(
        data,
        p6 + g.len(),
        p,
        PpsView {
            entropy_coding_mode: p.entropy_coding_mode,
            bottom_field_pic_order_in_frame_present: p.bottom_field_pic_order_in_frame_present,
            num_ref_idx_l0_default_active_minus1: p.num_ref_idx_l0_default_active_minus1,
            num_ref_idx_l1_default_active_minus1: p.num_ref_idx_l1_default_active_minus1,
            weighted_pred: p.weighted_pred,
            weighted_bipred_idc: p.weighted_bipred_idc,
            ..start
        },
    );
}

/// A whole PPS: its ids, its main fields, and its tail where it has one.
pub open spec fn pps_bits(p: PpsView, lists: Option<Seq<Option<ListText>>>, tail: bool) -> Seq<bool> {
    unsigned(p.pps_id as nat) + (unsigned(p.sps_id as nat) + (pps_main_bits(p) + only_if(tail, pps_tail_bits(p,
        lists))))
}

/// Whether a payload ends at `end`: a one, and only zeros behind it.
pub open spec fn ends_at(data: Seq<u8>, end: int) -> bool {
    &&& 0 <= end < 8 * data.len()
    &&& bit_at(data, end)
    &&& forall|i: int| end < i < 8 * data.len() ==> !#[trigger] bit_at(data, i)
}

/// How many scaling lists a PPS has: six, and with the 8x8 transform two more
/// or, in 4:4:4, six more.
pub open spec fn pps_list_count(p: PpsView, chroma_format_idc: u8) -> int {
    if !p.transform_8x8_mode {
        6
    } else if chroma_format_idc == 3 {
        12
    } else {
        8
    }
}

/// A PPS that is written by the syntax, with its tail or without it, is read
/// back field by field; without the tail the second chroma offset is the
/// first.
pub proof fn law_picture_sets_read_back(
    nal: Seq<u8>,
    sps: Sps,
    p: PpsView,
    lists: Option<Seq<Option<ListText>>>,
    tail: bool,
)
    requires
        nal.len() > 0,
        p.weighted_bipred_idc < 4,
        lists matches Some(l) ==> lists_fit(l) && l.len() == pps_list_count(p, sps.chroma_format_idc),
        stands(unescaped(nal.skip(1)), 0, pps_bits(p, lists, tail)),
        ends_at(unescaped(nal.skip(1)), pps_bits(p, lists, tail).len() as int),
    ensures
        pps_head(unescaped(nal.skip(1))) matches Ok((ids, _)) && ids == (p.pps_id, p.sps_id),
        pps_of(nal, Some(sps)) matches Ok(got) && {
            &&& tail ==> optional_held(lists, got.scaling_lists) && got == (PpsView {
                scaling_lists: got.scaling_lists,
                ..p
            })
            &&& !tail ==> got == (PpsView {
                transform_8x8_mode: false,
                scaling_lists: None,
                second_chroma_qp_index_offset: p.chroma_qp_index_offset,
                ..p
            })
        },
        pps_of(nal, None) is Err,
{
    let data = unescaped(nal.skip(1));
    let (a, b, c) = (unsigned(p.pps_id as nat), unsigned(p.sps_id as nat), pps_main_bits(p));
    let d = only_if(tail, pps_tail_bits(p, lists));
    lemma_cat(data, 0, a, b + (c + d));
    lemma_cat(data, a.len() as int, b, c + d);
    let p2 = (a.len() + b.len()) as int;
    lemma_cat(data, p2, c, d);
    let p3 = p2 + c.len();
    law_unsigned_codes_read_back(data, 0, p.pps_id as u32);
    law_unsigned_codes_read_back(data, a.len() as int, p.sps_id as u32);
    let start = PpsView { pps_id: p.pps_id, sps_id: p.sps_id, ..super::parser::blank_pps() };
    lemma_pps_main(data, p2, p, start);
    let main = pps_main(data, p2, start)->Ok_0.0;
    if tail {
        let (e, f, g) = (
            flag(p.transform_8x8_mode),
            optional_bits(lists),
            signed(p.second_chroma_qp_index_offset as int),
        );
        lemma_cat(data, p3, e, f + g);
        lemma_cat(data, p3 + 1, f, g);
        law_flags_read_back(data, p3, p.transform_8x8_mode);
        law_all_scaling_lists_read_back(data, p3 + 1, lists, pps_list_count(p, sps.chroma_format_idc));
        law_signed_codes_read_back(data, p3 + 1 + f.len(), p.second_chroma_qp_index_offset as i32);
        let end = pps_bits(p, lists, tail).len() as int;
        assert(p3 < end < 8 * data.len() && bit_at(data, end));
        assert(super::parser::more_data(data, p3));
    } else {
        assert(!super::parser::more_data(data, p3));
    }
    let got = pps_of(nal, Some(sps))->Ok_0;
    assert(pps_tail(data, p3, sps.chroma_format_idc, main) is Ok);
    assert(tail ==> got =~= PpsView { scaling_lists: got.scaling_lists, ..p });
    assert(!tail ==> got =~= PpsView {
        transform_8x8_mode: false,
        scaling_lists: None,
        second_chroma_qp_index_offset: p.chroma_qp_index_offset,
        ..p
    });
}

} // verus!
