//! Minimal H.264 header parser: the SPS, PPS and slice-header fields a Vulkan
//! decoder must supply. Slice *data* is never parsed; the hardware does that.
//!
//! The parser covers the syntax our own encoder can emit plus the common
//! optional parts (scaling lists, VUI presence), and rejects what it cannot
//! represent (interlace, slice groups, multiple views) with an error rather
//! than guessing.

pub use super::slice::{parse_slice_header, Mmco, SliceHeader, SliceType};

use super::bits::{bit_at, read_bit, read_bits, read_se, read_ue, unescape_rbsp, unescaped, BitReader};
use crate::error::Error;
use vstd::arithmetic::power2::{lemma2_to64, lemma_pow2_strictly_increases, pow2};
use vstd::bits::lemma_u32_shl_is_mul;
use vstd::prelude::*;
use vstd::slice::slice_subrange;

verus! {

#[derive(Debug, Clone, PartialEq, Eq)]
pub struct ScalingLists {
    /// Bit i set: list i is present in the stream (0..6 are 4x4, 6.. are 8x8).
    pub present_mask: u16,
    /// Bit i set: list i uses the default matrix (`useDefaultScalingMatrixFlag`).
    pub use_default_mask: u16,
    pub list_4x4: [[u8; 16]; 6],
    pub list_8x8: [[u8; 64]; 6],
}

#[verifier::ext_equal]
pub struct ScalingListsView {
    pub present_mask: u16,
    pub use_default_mask: u16,
    pub list_4x4: Seq<Seq<u8>>,
    pub list_8x8: Seq<Seq<u8>>,
}

impl View for ScalingLists {
    type V = ScalingListsView;

    open spec fn view(&self) -> ScalingListsView {
        ScalingListsView {
            present_mask: self.present_mask,
            use_default_mask: self.use_default_mask,
            list_4x4: Seq::new(6, |i: int| self.list_4x4@[i]@),
            list_8x8: Seq::new(6, |i: int| self.list_8x8@[i]@),
        }
    }
}

/// No list present, every entry zero.
pub open spec fn no_scaling_lists() -> ScalingListsView {
    ScalingListsView {
        present_mask: 0,
        use_default_mask: 0,
        list_4x4: Seq::new(6, |i: int| Seq::new(16, |j: int| 0u8)),
        list_8x8: Seq::new(6, |i: int| Seq::new(64, |j: int| 0u8)),
    }
}

impl Default for ScalingLists {
    fn default() -> (lists: Self)
        ensures
            lists@ == no_scaling_lists(),
    {
        let lists = Self {
            present_mask: 0,
            use_default_mask: 0,
            list_4x4: [[0u8; 16]; 6],
            list_8x8: [[0u8; 64]; 6],
        };
        proof {
            assert(lists@.list_4x4 =~~= no_scaling_lists().list_4x4);
            assert(lists@.list_8x8 =~~= no_scaling_lists().list_8x8);
        }
        lists
    }
}

/// The entries of a scaling list from entry `j` on: each coded difference
/// moves the running value modulo 256, and once the value reaches zero the
/// last one repeats to the end without further bits.
pub open spec fn scaling_list_rest(
    data: Seq<u8>,
    pos: int,
    size: int,
    j: int,
    last: int,
    next: int,
    use_default: bool,
    list: Seq<u8>,
) -> Result<((Seq<u8>, bool), int), Error>
    decreases size - j,
{
    if j >= size {
        Ok(((list, use_default), pos))
    } else if next != 0 {
        match read_se(data, pos) {
            (Err(e), _) => Err(e),
            (Ok(delta), end) => {
                let value = (last + delta + 256) % 256;
                let entry = if value == 0 { last } else { value };
                scaling_list_rest(
                    data,
                    end,
                    size,
                    j + 1,
                    entry,
                    value,
                    j == 0 && value == 0,
                    list.push(entry as u8),
                )
            },
        }
    } else {
        scaling_list_rest(data, pos, size, j + 1, last, next, use_default, list.push(last as u8))
    }
}

/// A scaling list of `size` entries at `pos`, and whether it asks for the
/// default matrix instead.
pub open spec fn read_scaling_list(data: Seq<u8>, pos: int, size: int) -> Result<
    ((Seq<u8>, bool), int),
    Error,
> {
    scaling_list_rest(data, pos, size, 0, 8, 8, false, Seq::empty())
}

/// `lists` with list `i` present: its entries, or the default flag.
pub open spec fn with_list(lists: ScalingListsView, i: int, list: Seq<u8>, use_default: bool) -> ScalingListsView {
    let bit = 1u16 << (i as u16);
    if use_default {
        ScalingListsView {
            present_mask: lists.present_mask | bit,
            use_default_mask: lists.use_default_mask | bit,
            ..lists
        }
    } else if i < 6 {
        ScalingListsView {
            present_mask: lists.present_mask | bit,
            list_4x4: lists.list_4x4.update(i, list),
            ..lists
        }
    } else {
        ScalingListsView {
            present_mask: lists.present_mask | bit,
            list_8x8: lists.list_8x8.update(i - 6, list),
            ..lists
        }
    }
}

/// The scaling lists from list `i` on: a presence bit each, and the list.
pub open spec fn scaling_lists_rest(
    data: Seq<u8>,
    pos: int,
    count: int,
    i: int,
    lists: ScalingListsView,
) -> Result<(ScalingListsView, int), Error>
    decreases count - i,
{
    if i >= count {
        Ok((lists, pos))
    } else {
        match read_bit(data, pos) {
            (Err(e), _) => Err(e),
            (Ok(false), end) => scaling_lists_rest(data, end, count, i + 1, lists),
            (Ok(true), end) => match read_scaling_list(data, end, if i < 6 { 16 } else { 64 }) {
                Err(e) => Err(e),
                Ok(((list, use_default), end2)) => scaling_lists_rest(
                    data,
                    end2,
                    count,
                    i + 1,
                    with_list(lists, i, list, use_default),
                ),
            },
        }
    }
}

pub open spec fn read_scaling_lists(data: Seq<u8>, pos: int, count: int) -> Result<
    (ScalingListsView, int),
    Error,
> {
    scaling_lists_rest(data, pos, count, 0, no_scaling_lists())
}

/// The value `delta` away from `last`, modulo 256.
fn moved(last: i64, delta: i32) -> (next: i64)
    requires
        0 <= last <= 255,
    ensures
        next == (last + delta + 256) % 256,
        0 <= next <= 255,
{
    // 2^32 is a multiple of 256 and keeps the sum positive.
    (last + delta as i64 + 256 + 0x1_0000_0000) % 256
}

fn scaling_list(r: &mut BitReader, size: usize) -> (res: Result<(Vec<u8>, bool), Error>)
    requires
        old(r).wf(),
    ensures
        final(r).wf(),
        final(r).data() == old(r).data(),
        match (res, read_scaling_list(old(r).data(), old(r).pos(), size as int)) {
            (Ok(got), Ok((want, end))) => {
                &&& got.0@ == want.0
                &&& got.1 == want.1
                &&& got.0@.len() == size
                &&& final(r).pos() == end
            },
            (Err(e), Err(f)) => e == f,
            _ => false,
        },
{
    let ghost data = r.data();
    let ghost start = r.pos();
    let mut list: Vec<u8> = Vec::new();
    let mut last: i64 = 8;
    let mut next: i64 = 8;
    let mut use_default: bool = false;
    for j in 0..size
        invariant
            r.wf(),
            r.data() == data,
            data == old(r).data(),
            start == old(r).pos(),
            0 <= last <= 255,
            list@.len() == j,
            read_scaling_list(data, start, size as int) == scaling_list_rest(
                data,
                r.pos(),
                size as int,
                j as int,
                last as int,
                next as int,
                use_default,
                list@,
            ),
    {
        if next != 0 {
            match r.se() {
                Ok(delta) => {
                    next = moved(last, delta);
                    use_default = j == 0 && next == 0;
                    if next != 0 {
                        last = next;
                    }
                },
                Err(e) => {
                    return Err(e);
                },
            }
        }
        list.push(last as u8);
    }
    Ok((list, use_default))
}

/// A 4x4 list as an array.
fn array_16(list: &Vec<u8>) -> (out: [u8; 16])
    requires
        list@.len() == 16,
    ensures
        out@ == list@,
{
    let mut out: [u8; 16] = [0u8; 16];
    for i in 0..16usize
        invariant
            list@.len() == 16,
            forall|k: int| 0 <= k < i ==> out@[k] == list@[k],
    {
        out[i] = list[i];
    }
    assert(out@ =~= list@);
    out
}

/// An 8x8 list as an array.
fn array_64(list: &Vec<u8>) -> (out: [u8; 64])
    requires
        list@.len() == 64,
    ensures
        out@ == list@,
{
    let mut out: [u8; 64] = [0u8; 64];
    for i in 0..64usize
        invariant
            list@.len() == 64,
            forall|k: int| 0 <= k < i ==> out@[k] == list@[k],
    {
        out[i] = list[i];
    }
    assert(out@ =~= list@);
    out
}

fn scaling_lists(r: &mut BitReader, count: usize) -> (res: Result<ScalingLists, Error>)
    requires
        old(r).wf(),
        count <= 12,
    ensures
        final(r).wf(),
        final(r).data() == old(r).data(),
        match (res, read_scaling_lists(old(r).data(), old(r).pos(), count as int)) {
            (Ok(got), Ok((want, end))) => got@ == want && final(r).pos() == end,
            (Err(e), Err(f)) => e == f,
            _ => false,
        },
{
    let ghost data = r.data();
    let ghost start = r.pos();
    let mut out = ScalingLists::default();
    for i in 0..count
        invariant
            count <= 12,
            r.wf(),
            r.data() == data,
            data == old(r).data(),
            start == old(r).pos(),
            read_scaling_lists(data, start, count as int) == scaling_lists_rest(
                data,
                r.pos(),
                count as int,
                i as int,
                out@,
            ),
    {
        let ghost before = out@;
        match r.bit() {
            Ok(true) => {
                let bit: u16 = 1u16 << (i as u16);
                let size: usize = if i < 6 { 16 } else { 64 };
                match scaling_list(r, size) {
                    Ok((list, use_default)) => {
                        out.present_mask = out.present_mask | bit;
                        if use_default {
                            out.use_default_mask = out.use_default_mask | bit;
                        } else if i < 6 {
                            out.list_4x4[i] = array_16(&list);
                        } else {
                            out.list_8x8[i - 6] = array_64(&list);
                        }
                        proof {
                            let after = with_list(before, i as int, list@, use_default);
                            assert(out@.list_4x4 =~= after.list_4x4);
                            assert(out@.list_8x8 =~= after.list_8x8);
                            assert(out@ =~= after);
                        }
                    },
                    Err(e) => {
                        return Err(e);
                    },
                }
            },
            Ok(false) => {},
            Err(e) => {
                return Err(e);
            },
        }
    }
    Ok(out)
}

pub open spec fn option_lists(lists: Option<ScalingLists>) -> Option<ScalingListsView> {
    match lists {
        Some(l) => Some(l@),
        None => None,
    }
}

#[derive(Debug, Clone, PartialEq, Eq)]
pub struct Sps {
    pub profile_idc: u8,
    pub constraint_flags: u8,
    pub level_idc: u8,
    pub sps_id: u8,
    pub chroma_format_idc: u8,
    pub separate_colour_plane: bool,
    pub bit_depth_luma_minus8: u8,
    pub bit_depth_chroma_minus8: u8,
    pub qpprime_y_zero_transform_bypass: bool,
    pub scaling_lists: Option<ScalingLists>,
    pub log2_max_frame_num_minus4: u8,
    pub pic_order_cnt_type: u8,
    pub log2_max_pic_order_cnt_lsb_minus4: u8,
    pub delta_pic_order_always_zero: bool,
    pub offset_for_non_ref_pic: i32,
    pub offset_for_top_to_bottom_field: i32,
    pub offset_for_ref_frame: Vec<i32>,
    pub max_num_ref_frames: u8,
    pub gaps_in_frame_num_allowed: bool,
    pub pic_width_in_mbs_minus1: u32,
    pub pic_height_in_map_units_minus1: u32,
    pub frame_mbs_only: bool,
    pub mb_adaptive_frame_field: bool,
    pub direct_8x8_inference: bool,
    pub frame_cropping: Option<[u32; 4]>,
    pub vui_present: bool,
}

#[verifier::ext_equal]
pub struct SpsView {
    pub profile_idc: u8,
    pub constraint_flags: u8,
    pub level_idc: u8,
    pub sps_id: u8,
    pub chroma_format_idc: u8,
    pub separate_colour_plane: bool,
    pub bit_depth_luma_minus8: u8,
    pub bit_depth_chroma_minus8: u8,
    pub qpprime_y_zero_transform_bypass: bool,
    pub scaling_lists: Option<ScalingListsView>,
    pub log2_max_frame_num_minus4: u8,
    pub pic_order_cnt_type: u8,
    pub log2_max_pic_order_cnt_lsb_minus4: u8,
    pub delta_pic_order_always_zero: bool,
    pub offset_for_non_ref_pic: i32,
    pub offset_for_top_to_bottom_field: i32,
    pub offset_for_ref_frame: Seq<i32>,
    pub max_num_ref_frames: u8,
    pub gaps_in_frame_num_allowed: bool,
    pub pic_width_in_mbs_minus1: u32,
    pub pic_height_in_map_units_minus1: u32,
    pub frame_mbs_only: bool,
    pub mb_adaptive_frame_field: bool,
    pub direct_8x8_inference: bool,
    pub frame_cropping: Option<Seq<u32>>,
    pub vui_present: bool,
}

impl View for Sps {
    type V = SpsView;

    open spec fn view(&self) -> SpsView {
        SpsView {
            profile_idc: self.profile_idc,
            constraint_flags: self.constraint_flags,
            level_idc: self.level_idc,
            sps_id: self.sps_id,
            chroma_format_idc: self.chroma_format_idc,
            separate_colour_plane: self.separate_colour_plane,
            bit_depth_luma_minus8: self.bit_depth_luma_minus8,
            bit_depth_chroma_minus8: self.bit_depth_chroma_minus8,
            qpprime_y_zero_transform_bypass: self.qpprime_y_zero_transform_bypass,
            scaling_lists: option_lists(self.scaling_lists),
            log2_max_frame_num_minus4: self.log2_max_frame_num_minus4,
            pic_order_cnt_type: self.pic_order_cnt_type,
            log2_max_pic_order_cnt_lsb_minus4: self.log2_max_pic_order_cnt_lsb_minus4,
            delta_pic_order_always_zero: self.delta_pic_order_always_zero,
            offset_for_non_ref_pic: self.offset_for_non_ref_pic,
            offset_for_top_to_bottom_field: self.offset_for_top_to_bottom_field,
            offset_for_ref_frame: self.offset_for_ref_frame@,
            max_num_ref_frames: self.max_num_ref_frames,
            gaps_in_frame_num_allowed: self.gaps_in_frame_num_allowed,
            pic_width_in_mbs_minus1: self.pic_width_in_mbs_minus1,
            pic_height_in_map_units_minus1: self.pic_height_in_map_units_minus1,
            frame_mbs_only: self.frame_mbs_only,
            mb_adaptive_frame_field: self.mb_adaptive_frame_field,
            direct_8x8_inference: self.direct_8x8_inference,
            frame_cropping: (match self.frame_cropping {
                Some(crop) => Some(crop@),
                None => None,
            }),
            vui_present: self.vui_present,
        }
    }
}

/// A sequence parameter set with every field zero, absent or false.
pub open spec fn blank_sps() -> SpsView {
    SpsView {
        profile_idc: 0,
        constraint_flags: 0,
        level_idc: 0,
        sps_id: 0,
        chroma_format_idc: 0,
        separate_colour_plane: false,
        bit_depth_luma_minus8: 0,
        bit_depth_chroma_minus8: 0,
        qpprime_y_zero_transform_bypass: false,
        scaling_lists: None,
        log2_max_frame_num_minus4: 0,
        pic_order_cnt_type: 0,
        log2_max_pic_order_cnt_lsb_minus4: 0,
        delta_pic_order_always_zero: false,
        offset_for_non_ref_pic: 0,
        offset_for_top_to_bottom_field: 0,
        offset_for_ref_frame: Seq::empty(),
        max_num_ref_frames: 0,
        gaps_in_frame_num_allowed: false,
        pic_width_in_mbs_minus1: 0,
        pic_height_in_map_units_minus1: 0,
        frame_mbs_only: false,
        mb_adaptive_frame_field: false,
        direct_8x8_inference: false,
        frame_cropping: None,
        vui_present: false,
    }
}

impl Default for Sps {
    fn default() -> (blank: Self)
        ensures
            blank@ == blank_sps(),
    {
        Self {
            profile_idc: 0,
            constraint_flags: 0,
            level_idc: 0,
            sps_id: 0,
            chroma_format_idc: 0,
            separate_colour_plane: false,
            bit_depth_luma_minus8: 0,
            bit_depth_chroma_minus8: 0,
            qpprime_y_zero_transform_bypass: false,
            scaling_lists: None,
            log2_max_frame_num_minus4: 0,
            pic_order_cnt_type: 0,
            log2_max_pic_order_cnt_lsb_minus4: 0,
            delta_pic_order_always_zero: false,
            offset_for_non_ref_pic: 0,
            offset_for_top_to_bottom_field: 0,
            offset_for_ref_frame: Vec::new(),
            max_num_ref_frames: 0,
            gaps_in_frame_num_allowed: false,
            pic_width_in_mbs_minus1: 0,
            pic_height_in_map_units_minus1: 0,
            frame_mbs_only: false,
            mb_adaptive_frame_field: false,
            direct_8x8_inference: false,
            frame_cropping: None,
            vui_present: false,
        }
    }
}

/// `v` limited to 32 bits.
pub open spec fn sat(v: int) -> int {
    if v < 0 {
        0
    } else if v > u32::MAX {
        u32::MAX as int
    } else {
        v
    }
}

/// The product of `a` and `b`, limited to 32 bits.
fn times(a: u32, b: u32) -> (c: u32)
    ensures
        c == sat(a * b),
{
    match a.checked_mul(b) {
        Some(c) => c,
        None => u32::MAX,
    }
}

/// Coded size of a picture, in pixels.
pub open spec fn coded_size_of(sps: SpsView) -> (int, int) {
    let mult: int = if sps.frame_mbs_only { 1 } else { 2 };
    (sat(sat(sps.pic_width_in_mbs_minus1 + 1) * 16), sat(sat(sps.pic_height_in_map_units_minus1 + 1) * (16 * mult)))
}

/// Displayed size of a picture: the coded size less the cropping.
pub open spec fn display_size_of(sps: SpsView) -> (int, int) {
    let (w, h) = coded_size_of(sps);
    match sps.frame_cropping {
        Some(crop) => (
            sat(w - sat(sat(crop[0] + crop[1]) * 2)),
            sat(h - sat(sat(crop[2] + crop[3]) * 2)),
        ),
        None => (w, h),
    }
}

impl Sps {
    pub fn max_frame_num(&self) -> (n: u32)
        requires
            self.log2_max_frame_num_minus4 <= 27,
        ensures
            n == pow2((self.log2_max_frame_num_minus4 + 4) as nat),
    {
        proof {
            lemma_power_fits(self.log2_max_frame_num_minus4);
        }
        1u32 << ((self.log2_max_frame_num_minus4 + 4) as u32)
    }

    pub fn max_poc_lsb(&self) -> (n: u32)
        requires
            self.log2_max_pic_order_cnt_lsb_minus4 <= 27,
        ensures
            n == pow2((self.log2_max_pic_order_cnt_lsb_minus4 + 4) as nat),
    {
        proof {
            lemma_power_fits(self.log2_max_pic_order_cnt_lsb_minus4);
        }
        1u32 << ((self.log2_max_pic_order_cnt_lsb_minus4 + 4) as u32)
    }

    /// Coded (macroblock-aligned) size.
    pub fn coded_size(&self) -> (size: (u32, u32))
        ensures
            (size.0 as int, size.1 as int) == coded_size_of(self@),
    {
        let mult: u32 = if self.frame_mbs_only { 1 } else { 2 };
        (
            times(self.pic_width_in_mbs_minus1.saturating_add(1), 16),
            times(self.pic_height_in_map_units_minus1.saturating_add(1), 16 * mult),
        )
    }

    /// Displayed size after cropping (4:2:0, frame pictures).
    pub fn display_size(&self) -> (size: (u32, u32))
        ensures
            (size.0 as int, size.1 as int) == display_size_of(self@),
    {
        let (w, h) = self.coded_size();
        match self.frame_cropping {
            Some(crop) => (
                w.saturating_sub(times(crop[0].saturating_add(crop[1]), 2)),
                h.saturating_sub(times(crop[2].saturating_add(crop[3]), 2)),
            ),
            None => (w, h),
        }
    }
}

proof fn lemma_power_fits(minus4: u8)
    requires
        minus4 <= 27,
    ensures
        1u32 << ((minus4 + 4) as u32) == pow2((minus4 + 4) as nat),
{
    lemma2_to64();
    if minus4 < 27 {
        lemma_pow2_strictly_increases((minus4 + 4) as nat, 31);
    }
    lemma_u32_shl_is_mul(1, (minus4 + 4) as u32);
}

#[derive(Debug, Clone, PartialEq, Eq)]
pub struct Pps {
    pub pps_id: u8,
    pub sps_id: u8,
    pub entropy_coding_mode: bool,
    pub bottom_field_pic_order_in_frame_present: bool,
    pub num_ref_idx_l0_default_active_minus1: u8,
    pub num_ref_idx_l1_default_active_minus1: u8,
    pub weighted_pred: bool,
    pub weighted_bipred_idc: u8,
    pub pic_init_qp_minus26: i8,
    pub pic_init_qs_minus26: i8,
    pub chroma_qp_index_offset: i8,
    pub deblocking_filter_control_present: bool,
    pub constrained_intra_pred: bool,
    pub redundant_pic_cnt_present: bool,
    pub transform_8x8_mode: bool,
    pub scaling_lists: Option<ScalingLists>,
    pub second_chroma_qp_index_offset: i8,
}

#[verifier::ext_equal]
pub struct PpsView {
    pub pps_id: u8,
    pub sps_id: u8,
    pub entropy_coding_mode: bool,
    pub bottom_field_pic_order_in_frame_present: bool,
    pub num_ref_idx_l0_default_active_minus1: u8,
    pub num_ref_idx_l1_default_active_minus1: u8,
    pub weighted_pred: bool,
    pub weighted_bipred_idc: u8,
    pub pic_init_qp_minus26: i8,
    pub pic_init_qs_minus26: i8,
    pub chroma_qp_index_offset: i8,
    pub deblocking_filter_control_present: bool,
    pub constrained_intra_pred: bool,
    pub redundant_pic_cnt_present: bool,
    pub transform_8x8_mode: bool,
    pub scaling_lists: Option<ScalingListsView>,
    pub second_chroma_qp_index_offset: i8,
}

impl View for Pps {
    type V = PpsView;

    open spec fn view(&self) -> PpsView {
        PpsView {
            pps_id: self.pps_id,
            sps_id: self.sps_id,
            entropy_coding_mode: self.entropy_coding_mode,
            bottom_field_pic_order_in_frame_present: self.bottom_field_pic_order_in_frame_present,
            num_ref_idx_l0_default_active_minus1: self.num_ref_idx_l0_default_active_minus1,
            num_ref_idx_l1_default_active_minus1: self.num_ref_idx_l1_default_active_minus1,
            weighted_pred: self.weighted_pred,
            weighted_bipred_idc: self.weighted_bipred_idc,
            pic_init_qp_minus26: self.pic_init_qp_minus26,
            pic_init_qs_minus26: self.pic_init_qs_minus26,
            chroma_qp_index_offset: self.chroma_qp_index_offset,
            deblocking_filter_control_present: self.deblocking_filter_control_present,
            constrained_intra_pred: self.constrained_intra_pred,
            redundant_pic_cnt_present: self.redundant_pic_cnt_present,
            transform_8x8_mode: self.transform_8x8_mode,
            scaling_lists: option_lists(self.scaling_lists),
            second_chroma_qp_index_offset: self.second_chroma_qp_index_offset,
        }
    }
}

/// A picture parameter set with every field zero, absent or false.
pub open spec fn blank_pps() -> PpsView {
    PpsView {
        pps_id: 0,
        sps_id: 0,
        entropy_coding_mode: false,
        bottom_field_pic_order_in_frame_present: false,
        num_ref_idx_l0_default_active_minus1: 0,
        num_ref_idx_l1_default_active_minus1: 0,
        weighted_pred: false,
        weighted_bipred_idc: 0,
        pic_init_qp_minus26: 0,
        pic_init_qs_minus26: 0,
        chroma_qp_index_offset: 0,
        deblocking_filter_control_present: false,
        constrained_intra_pred: false,
        redundant_pic_cnt_present: false,
        transform_8x8_mode: false,
        scaling_lists: None,
        second_chroma_qp_index_offset: 0,
    }
}

impl Default for Pps {
    fn default() -> (blank: Self)
        ensures
            blank@ == blank_pps(),
    {
        Self {
            pps_id: 0,
            sps_id: 0,
            entropy_coding_mode: false,
            bottom_field_pic_order_in_frame_present: false,
            num_ref_idx_l0_default_active_minus1: 0,
            num_ref_idx_l1_default_active_minus1: 0,
            weighted_pred: false,
            weighted_bipred_idc: 0,
            pic_init_qp_minus26: 0,
            pic_init_qs_minus26: 0,
            chroma_qp_index_offset: 0,
            deblocking_filter_control_present: false,
            constrained_intra_pred: false,
            redundant_pic_cnt_present: false,
            transform_8x8_mode: false,
            scaling_lists: None,
            second_chroma_qp_index_offset: 0,
        }
    }
}

/// Reading an `ue(v)` field with an upper bound.
pub open spec fn read_ue_max(data: Seq<u8>, pos: int, max: u32) -> Result<(u32, int), Error> {
    match read_ue(data, pos) {
        (Err(e), _) => Err(e),
        (Ok(v), end) => if v > max {
            Err(Error::Bitstream("header field out of range"))
        } else {
            Ok((v, end))
        },
    }
}

/// An `ue(v)` field with a syntax-defined upper bound; larger values are a
/// malformed (or hostile) stream.
pub(crate) fn ue_max(r: &mut BitReader, max: u32) -> (res: Result<u32, Error>)
    requires
        old(r).wf(),
    ensures
        final(r).wf(),
        final(r).data() == old(r).data(),
        match (res, read_ue_max(old(r).data(), old(r).pos(), max)) {
            (Ok(got), Ok((want, end))) => got == want && final(r).pos() == end,
            (Err(e), Err(f)) => e == f,
            _ => false,
        },
{
    match r.ue() {
        Ok(v) => if v > max {
            Err(Error::Bitstream("header field out of range"))
        } else {
            Ok(v)
        },
        Err(e) => Err(e),
    }
}

/// Reading an `se(v)` field that is kept in a signed byte.
pub open spec fn read_se_byte(data: Seq<u8>, pos: int) -> Result<(i32, int), Error> {
    match read_se(data, pos) {
        (Err(e), _) => Err(e),
        (Ok(v), end) => if v < i8::MIN || v > i8::MAX {
            Err(Error::Bitstream("header field out of range"))
        } else {
            Ok((v, end))
        },
    }
}

/// An `se(v)` field that is kept in a signed byte; a value beyond it is a
/// malformed stream.
fn se_byte(r: &mut BitReader) -> (res: Result<i32, Error>)
    requires
        old(r).wf(),
    ensures
        final(r).wf(),
        final(r).data() == old(r).data(),
        match (res, read_se_byte(old(r).data(), old(r).pos())) {
            (Ok(got), Ok((want, end))) => got == want && final(r).pos() == end,
            (Err(e), Err(f)) => e == f,
            _ => false,
        },
{
    match r.se() {
        Ok(v) => if v < -128 || v > 127 {
            Err(Error::Bitstream("header field out of range"))
        } else {
            Ok(v)
        },
        Err(e) => Err(e),
    }
}

/// The largest code of a field that is kept in a byte; a larger one is a
/// malformed stream.
pub const BYTE_MAX: u32 = 255;

/// What a parsing step gave, held against what the syntax says: the same
/// value with the reader behind it, or the same error.
pub open spec fn step_ok<T: View>(res: Result<T, Error>, end: int, want: Result<(T::V, int), Error>) -> bool {
    match (res, want) {
        (Ok(got), Ok((v, p))) => got@ == v && end == p,
        (Err(e), Err(f)) => e == f,
        _ => false,
    }
}

/// Profiles whose parameter sets code the chroma format and bit depths.
pub open spec fn is_high_profile(profile_idc: u8) -> bool {
    profile_idc == 100 || profile_idc == 110 || profile_idc == 122 || profile_idc == 244 || profile_idc == 44
        || profile_idc == 83 || profile_idc == 86 || profile_idc == 118 || profile_idc == 128 || profile_idc
        == 138 || profile_idc == 139 || profile_idc == 134 || profile_idc == 135
}

fn high_profile(profile_idc: u8) -> (high: bool)
    ensures
        high == is_high_profile(profile_idc),
{
    matches!(profile_idc, 100 | 110 | 122 | 244 | 44 | 83 | 86 | 118 | 128 | 138 | 139 | 134 | 135)
}

/// Profile, constraints, level and id at the head of an SPS.
pub open spec fn sps_head(data: Seq<u8>) -> Result<(SpsView, int), Error> {
    match read_bits(data, 0, 8) {
        (Err(e), _) => Err(e),
        (Ok(profile), p1) => match read_bits(data, p1, 8) {
            (Err(e), _) => Err(e),
            (Ok(constraints), p2) => match read_bits(data, p2, 8) {
                (Err(e), _) => Err(e),
                (Ok(level), p3) => match read_ue_max(data, p3, BYTE_MAX) {
                    Err(e) => Err(e),
                    Ok((id, p4)) => Ok(
                        (
                            (SpsView {
                                profile_idc: profile as u8,
                                constraint_flags: constraints as u8,
                                level_idc: level as u8,
                                sps_id: id as u8,
                                chroma_format_idc: 1,
                                ..blank_sps()
                            }),
                            p4,
                        ),
                    ),
                },
            },
        },
    }
}

fn parse_sps_head(r: &mut BitReader) -> (res: Result<Sps, Error>)
    requires
        old(r).wf(),
        old(r).pos() == 0,
    ensures
        final(r).wf(),
        final(r).data() == old(r).data(),
        step_ok(res, final(r).pos(), sps_head(old(r).data())),
{
    let profile: u32 = match r.bits(8) {
        Ok(v) => v,
        Err(e) => return Err(e),
    };
    let constraints: u32 = match r.bits(8) {
        Ok(v) => v,
        Err(e) => return Err(e),
    };
    let level: u32 = match r.bits(8) {
        Ok(v) => v,
        Err(e) => return Err(e),
    };
    let id: u32 = match ue_max(r, BYTE_MAX) {
        Ok(v) => v,
        Err(e) => return Err(e),
    };
    let mut sps = Sps::default();
    sps.profile_idc = profile as u8;
    sps.constraint_flags = constraints as u8;
    sps.level_idc = level as u8;
    sps.sps_id = id as u8;
    sps.chroma_format_idc = 1;
    Ok(sps)
}

/// The separate-planes bit, coded for 4:4:4 only.
pub open spec fn sps_planes(data: Seq<u8>, pos: int, chroma: u8) -> Result<(bool, int), Error> {
    if chroma == 3 {
        match read_bit(data, pos) {
            (Err(e), _) => Err(e),
            (Ok(b), end) => Ok((b, end)),
        }
    } else {
        Ok((false, pos))
    }
}

/// The scaling lists behind their presence bit.
pub open spec fn optional_lists(data: Seq<u8>, pos: int, count: int) -> Result<
    (Option<ScalingListsView>, int),
    Error,
> {
    match read_bit(data, pos) {
        (Err(e), _) => Err(e),
        (Ok(false), end) => Ok((None, end)),
        (Ok(true), end) => match read_scaling_lists(data, end, count) {
            Err(e) => Err(e),
            Ok((lists, end2)) => Ok((Some(lists), end2)),
        },
    }
}

/// Chroma format, bit depths and scaling lists, coded for high profiles.
pub open spec fn sps_chroma(data: Seq<u8>, pos: int, sps: SpsView) -> Result<(SpsView, int), Error> {
    if !is_high_profile(sps.profile_idc) {
        Ok((sps, pos))
    } else {
        match read_ue_max(data, pos, BYTE_MAX) {
            Err(e) => Err(e),
            Ok((chroma, p1)) => match sps_planes(data, p1, chroma as u8) {
                Err(e) => Err(e),
                Ok((separate, p2)) => match read_ue_max(data, p2, BYTE_MAX) {
                    Err(e) => Err(e),
                    Ok((luma, p3)) => match read_ue_max(data, p3, BYTE_MAX) {
                        Err(e) => Err(e),
                        Ok((chroma_depth, p4)) => match read_bit(data, p4) {
                            (Err(e), _) => Err(e),
                            (Ok(bypass), p5) => match optional_lists(
                                data,
                                p5,
                                if chroma as u8 != 3 { 8 } else { 12 },
                            ) {
                                Err(e) => Err(e),
                                Ok((lists, p6)) => Ok(
                                    (
                                        (SpsView {
                                            chroma_format_idc: chroma as u8,
                                            separate_colour_plane: separate,
                                            bit_depth_luma_minus8: luma as u8,
                                            bit_depth_chroma_minus8: chroma_depth as u8,
                                            qpprime_y_zero_transform_bypass: bypass,
                                            scaling_lists: lists,
                                            ..sps
                                        }),
                                        p6,
                                    ),
                                ),
                            },
                        },
                    },
                },
            },
        }
    }
}

fn parse_optional_lists(r: &mut BitReader, count: usize) -> (res: Result<Option<ScalingLists>, Error>)
    requires
        old(r).wf(),
        count <= 12,
    ensures
        final(r).wf(),
        final(r).data() == old(r).data(),
        match (res, optional_lists(old(r).data(), old(r).pos(), count as int)) {
            (Ok(got), Ok((want, end))) => option_lists(got) == want && final(r).pos() == end,
            (Err(e), Err(f)) => e == f,
            _ => false,
        },
{
    match r.bit() {
        Ok(true) => match scaling_lists(r, count) {
            Ok(lists) => Ok(Some(lists)),
            Err(e) => Err(e),
        },
        Ok(false) => Ok(None),
        Err(e) => Err(e),
    }
}

fn parse_sps_chroma(r: &mut BitReader, sps: Sps) -> (res: Result<Sps, Error>)
    requires
        old(r).wf(),
        sps@.separate_colour_plane == false,
        sps@.scaling_lists is None,
    ensures
        final(r).wf(),
        final(r).data() == old(r).data(),
        step_ok(res, final(r).pos(), sps_chroma(old(r).data(), old(r).pos(), sps@)),
{
    let mut sps = sps;
    if !high_profile(sps.profile_idc) {
        return Ok(sps);
    }
    sps.chroma_format_idc = match ue_max(r, BYTE_MAX) {
        Ok(v) => v as u8,
        Err(e) => return Err(e),
    };
    if sps.chroma_format_idc == 3 {
        sps.separate_colour_plane = match r.bit() {
            Ok(v) => v,
            Err(e) => return Err(e),
        };
    }
    sps.bit_depth_luma_minus8 = match ue_max(r, BYTE_MAX) {
        Ok(v) => v as u8,
        Err(e) => return Err(e),
    };
    sps.bit_depth_chroma_minus8 = match ue_max(r, BYTE_MAX) {
        Ok(v) => v as u8,
        Err(e) => return Err(e),
    };
    sps.qpprime_y_zero_transform_bypass = match r.bit() {
        Ok(v) => v,
        Err(e) => return Err(e),
    };
    let count: usize = if sps.chroma_format_idc != 3 { 8 } else { 12 };
    sps.scaling_lists = match parse_optional_lists(r, count) {
        Ok(v) => v,
        Err(e) => return Err(e),
    };
    Ok(sps)
}

/// `n` signed codes in a row, behind `offsets`.
pub open spec fn read_offsets(data: Seq<u8>, pos: int, n: nat, offsets: Seq<i32>) -> Result<
    (Seq<i32>, int),
    Error,
>
    decreases n,
{
    if n == 0 {
        Ok((offsets, pos))
    } else {
        match read_se(data, pos) {
            (Err(e), _) => Err(e),
            (Ok(v), end) => read_offsets(data, end, (n - 1) as nat, offsets.push(v)),
        }
    }
}

fn parse_offsets(r: &mut BitReader, n: u32) -> (res: Result<Vec<i32>, Error>)
    requires
        old(r).wf(),
    ensures
        final(r).wf(),
        final(r).data() == old(r).data(),
        step_ok(res, final(r).pos(), read_offsets(old(r).data(), old(r).pos(), n as nat, Seq::empty())),
{
    let ghost data = r.data();
    let ghost start = r.pos();
    let mut offsets: Vec<i32> = Vec::new();
    for i in 0..n
        invariant
            r.wf(),
            r.data() == data,
            data == old(r).data(),
            start == old(r).pos(),
            read_offsets(data, start, n as nat, Seq::empty()) == read_offsets(
                data,
                r.pos(),
                (n - i) as nat,
                offsets@,
            ),
    {
        match r.se() {
            Ok(v) => {
                offsets.push(v);
            },
            Err(e) => {
                return Err(e);
            },
        }
    }
    Ok(offsets)
}

/// Frame number width and the picture order count fields.
pub open spec fn sps_order(data: Seq<u8>, pos: int, sps: SpsView) -> Result<(SpsView, int), Error> {
    match read_ue_max(data, pos, 12) {
        Err(e) => Err(e),
        Ok((frame_num, p1)) => match read_ue(data, p1) {
            (Err(e), _) => Err(e),
            (Ok(kind), p2) => {
                let sps = SpsView {
                    log2_max_frame_num_minus4: frame_num as u8,
                    pic_order_cnt_type: kind as u8,
                    ..sps
                };
                if kind == 0 {
                    match read_ue_max(data, p2, 12) {
                        Err(e) => Err(e),
                        Ok((lsb, p3)) => Ok(
                            ((SpsView { log2_max_pic_order_cnt_lsb_minus4: lsb as u8, ..sps }), p3),
                        ),
                    }
                } else if kind == 1 {
                    sps_order_cycle(data, p2, sps)
                } else if kind == 2 {
                    Ok((sps, p2))
                } else {
                    Err(Error::Bitstream("bad pic_order_cnt_type"))
                }
            },
        },
    }
}

/// The offsets of picture order count type 1.
pub open spec fn sps_order_cycle(data: Seq<u8>, pos: int, sps: SpsView) -> Result<(SpsView, int), Error> {
    match read_bit(data, pos) {
        (Err(e), _) => Err(e),
        (Ok(always_zero), p1) => match read_se(data, p1) {
            (Err(e), _) => Err(e),
            (Ok(non_ref), p2) => match read_se(data, p2) {
                (Err(e), _) => Err(e),
                (Ok(bottom), p3) => match read_ue_max(data, p3, 255) {
                    Err(e) => Err(e),
                    Ok((n, p4)) => match read_offsets(data, p4, n as nat, Seq::empty()) {
                        Err(e) => Err(e),
                        Ok((offsets, p5)) => Ok(
                            (
                                (SpsView {
                                    delta_pic_order_always_zero: always_zero,
                                    offset_for_non_ref_pic: non_ref,
                                    offset_for_top_to_bottom_field: bottom,
                                    offset_for_ref_frame: offsets,
                                    ..sps
                                }),
                                p5,
                            ),
                        ),
                    },
                },
            },
        },
    }
}

fn parse_sps_order_cycle(r: &mut BitReader, sps: Sps) -> (res: Result<Sps, Error>)
    requires
        old(r).wf(),
    ensures
        final(r).wf(),
        final(r).data() == old(r).data(),
        step_ok(res, final(r).pos(), sps_order_cycle(old(r).data(), old(r).pos(), sps@)),
{
    let mut sps = sps;
    sps.delta_pic_order_always_zero = match r.bit() {
        Ok(v) => v,
        Err(e) => return Err(e),
    };
    sps.offset_for_non_ref_pic = match r.se() {
        Ok(v) => v,
        Err(e) => return Err(e),
    };
    sps.offset_for_top_to_bottom_field = match r.se() {
        Ok(v) => v,
        Err(e) => return Err(e),
    };
    let n: u32 = match ue_max(r, 255) {
        Ok(v) => v,
        Err(e) => return Err(e),
    };
    sps.offset_for_ref_frame = match parse_offsets(r, n) {
        Ok(v) => v,
        Err(e) => return Err(e),
    };
    Ok(sps)
}

fn parse_sps_order(r: &mut BitReader, sps: Sps) -> (res: Result<Sps, Error>)
    requires
        old(r).wf(),
    ensures
        final(r).wf(),
        final(r).data() == old(r).data(),
        step_ok(res, final(r).pos(), sps_order(old(r).data(), old(r).pos(), sps@)),
{
    let mut sps = sps;
    sps.log2_max_frame_num_minus4 = match ue_max(r, 12) {
        Ok(v) => v as u8,
        Err(e) => return Err(e),
    };
    let kind: u32 = match r.ue() {
        Ok(v) => v,
        Err(e) => return Err(e),
    };
    if kind > 2 {
        return Err(Error::Bitstream("bad pic_order_cnt_type"));
    }
    sps.pic_order_cnt_type = kind as u8;
    match kind {
        0 => {
            sps.log2_max_pic_order_cnt_lsb_minus4 = match ue_max(r, 12) {
                Ok(v) => v as u8,
                Err(e) => return Err(e),
            };
            Ok(sps)
        },
        1 => parse_sps_order_cycle(r, sps),
        _ => Ok(sps),
    }
}

/// The four cropping offsets behind their presence bit.
pub open spec fn sps_crop(data: Seq<u8>, pos: int) -> Result<(Option<Seq<u32>>, int), Error> {
    match read_bit(data, pos) {
        (Err(e), _) => Err(e),
        (Ok(false), end) => Ok((None, end)),
        (Ok(true), end) => match read_ue_max(data, end, 8192) {
            Err(e) => Err(e),
            Ok((left, p1)) => match read_ue_max(data, p1, 8192) {
                Err(e) => Err(e),
                Ok((right, p2)) => match read_ue_max(data, p2, 8192) {
                    Err(e) => Err(e),
                    Ok((top, p3)) => match read_ue_max(data, p3, 8192) {
                        Err(e) => Err(e),
                        Ok((bottom, p4)) => Ok((Some(seq![left, right, top, bottom]), p4)),
                    },
                },
            },
        },
    }
}

fn parse_sps_crop(r: &mut BitReader) -> (res: Result<Option<[u32; 4]>, Error>)
    requires
        old(r).wf(),
    ensures
        final(r).wf(),
        final(r).data() == old(r).data(),
        match (res, sps_crop(old(r).data(), old(r).pos())) {
            (Ok(Some(got)), Ok((Some(want), end))) => got@ == want && final(r).pos() == end,
            (Ok(None), Ok((None, end))) => final(r).pos() == end,
            (Err(e), Err(f)) => e == f,
            _ => false,
        },
{
    match r.bit() {
        Ok(true) => {},
        Ok(false) => return Ok(None),
        Err(e) => return Err(e),
    }
    let left: u32 = match ue_max(r, 8192) {
        Ok(v) => v,
        Err(e) => return Err(e),
    };
    let right: u32 = match ue_max(r, 8192) {
        Ok(v) => v,
        Err(e) => return Err(e),
    };
    let top: u32 = match ue_max(r, 8192) {
        Ok(v) => v,
        Err(e) => return Err(e),
    };
    let bottom: u32 = match ue_max(r, 8192) {
        Ok(v) => v,
        Err(e) => return Err(e),
    };
    let crop: [u32; 4] = [left, right, top, bottom];
    assert(crop@ =~= seq![left, right, top, bottom]);
    Ok(Some(crop))
}

/// The field-coding bit, absent when every picture is a frame.
pub open spec fn sps_adaptive(data: Seq<u8>, pos: int, frame_mbs_only: bool) -> Result<(bool, int), Error> {
    if frame_mbs_only {
        Ok((false, pos))
    } else {
        match read_bit(data, pos) {
            (Err(e), _) => Err(e),
            (Ok(b), end) => Ok((b, end)),
        }
    }
}

/// Reference count, picture size, cropping and the VUI bit.
pub open spec fn sps_size(data: Seq<u8>, pos: int, sps: SpsView) -> Result<(SpsView, int), Error> {
    match read_ue_max(data, pos, 16) {
        Err(e) => Err(e),
        Ok((refs, p1)) => match read_bit(data, p1) {
            (Err(e), _) => Err(e),
            (Ok(gaps), p2) => match read_ue_max(data, p2, 1023) {
                Err(e) => Err(e),
                Ok((width, p3)) => match read_ue_max(data, p3, 1023) {
                    Err(e) => Err(e),
                    Ok((height, p4)) => match read_bit(data, p4) {
                        (Err(e), _) => Err(e),
                        (Ok(frames), p5) => match sps_adaptive(data, p5, frames) {
                            Err(e) => Err(e),
                            Ok((adaptive, p6)) => match read_bit(data, p6) {
                                (Err(e), _) => Err(e),
                                (Ok(direct), p7) => match sps_crop(data, p7) {
                                    Err(e) => Err(e),
                                    Ok((crop, p8)) => match read_bit(data, p8) {
                                        (Err(e), _) => Err(e),
                                        (Ok(vui), p9) => Ok(
                                            (
                                                (SpsView {
                                                    max_num_ref_frames: refs as u8,
                                                    gaps_in_frame_num_allowed: gaps,
                                                    pic_width_in_mbs_minus1: width,
                                                    pic_height_in_map_units_minus1: height,
                                                    frame_mbs_only: frames,
                                                    mb_adaptive_frame_field: adaptive,
                                                    direct_8x8_inference: direct,
                                                    frame_cropping: crop,
                                                    vui_present: vui,
                                                    ..sps
                                                }),
                                                p9,
                                            ),
                                        ),
                                    },
                                },
                            },
                        },
                    },
                },
            },
        },
    }
}

fn parse_sps_size(r: &mut BitReader, sps: Sps) -> (res: Result<Sps, Error>)
    requires
        old(r).wf(),
        !sps.mb_adaptive_frame_field,
    ensures
        final(r).wf(),
        final(r).data() == old(r).data(),
        step_ok(res, final(r).pos(), sps_size(old(r).data(), old(r).pos(), sps@)),
{
    let mut sps = sps;
    sps.max_num_ref_frames = match ue_max(r, 16) {
        Ok(v) => v as u8,
        Err(e) => return Err(e),
    };
    sps.gaps_in_frame_num_allowed = match r.bit() {
        Ok(v) => v,
        Err(e) => return Err(e),
    };
    // 16384 pixels each way is beyond any level; the decoder checks the
    // device limit, this only keeps the arithmetic sane.
    sps.pic_width_in_mbs_minus1 = match ue_max(r, 1023) {
        Ok(v) => v,
        Err(e) => return Err(e),
    };
    sps.pic_height_in_map_units_minus1 = match ue_max(r, 1023) {
        Ok(v) => v,
        Err(e) => return Err(e),
    };
    sps.frame_mbs_only = match r.bit() {
        Ok(v) => v,
        Err(e) => return Err(e),
    };
    if !sps.frame_mbs_only {
        sps.mb_adaptive_frame_field = match r.bit() {
            Ok(v) => v,
            Err(e) => return Err(e),
        };
    }
    sps.direct_8x8_inference = match r.bit() {
        Ok(v) => v,
        Err(e) => return Err(e),
    };
    sps.frame_cropping = match parse_sps_crop(r) {
        Ok(v) => v,
        Err(e) => return Err(e),
    };
    sps.vui_present = match r.bit() {
        Ok(v) => v,
        Err(e) => return Err(e),
    };
    Ok(sps)
}

/// The SPS that the payload `data` codes, up to the VUI.
pub open spec fn sps_syntax(data: Seq<u8>) -> Result<(SpsView, int), Error> {
    match sps_head(data) {
        Err(e) => Err(e),
        Ok((s1, p1)) => match sps_chroma(data, p1, s1) {
            Err(e) => Err(e),
            Ok((s2, p2)) => match sps_order(data, p2, s2) {
                Err(e) => Err(e),
                Ok((s3, p3)) => sps_size(data, p3, s3),
            },
        },
    }
}

/// What parsing an SPS NAL unit gives: its fields, unless it is cut short,
/// out of range, interlaced, or not 8-bit 4:2:0.
pub open spec fn sps_of(nal: Seq<u8>) -> Result<SpsView, Error> {
    if nal.len() == 0 {
        Err(Error::Bitstream("empty SPS"))
    } else {
        match sps_syntax(unescaped(nal.skip(1))) {
            Err(e) => Err(e),
            Ok((sps, _)) => if !sps.frame_mbs_only {
                Err(Error::Bitstream("interlaced streams are not supported"))
            } else if sps.chroma_format_idc != 1 || sps.bit_depth_luma_minus8 != 0
                || sps.bit_depth_chroma_minus8 != 0 {
                Err(Error::Bitstream("only 8-bit 4:2:0 is supported"))
            } else {
                Ok(sps)
            },
        }
    }
}

/// Parse a sequence parameter set NAL unit (bytes from the header byte).
pub fn parse_sps(nal: &[u8]) -> (res: Result<Sps, Error>)
    requires
        8 * nal@.len() <= usize::MAX,
    ensures
        match (res, sps_of(nal@)) {
            (Ok(got), Ok(want)) => got@ == want,
            (Err(e), Err(f)) => e == f,
            _ => false,
        },
{
    if nal.len() == 0 {
        return Err(Error::Bitstream("empty SPS"));
    }
    let body = slice_subrange(nal, 1, nal.len());
    assert(body@ =~= nal@.skip(1));
    let rbsp: Vec<u8> = unescape_rbsp(body);
    let mut r = BitReader::new(rbsp.as_slice());
    let sps = match parse_sps_head(&mut r) {
        Ok(v) => v,
        Err(e) => return Err(e),
    };
    let sps = match parse_sps_chroma(&mut r, sps) {
        Ok(v) => v,
        Err(e) => return Err(e),
    };
    let sps = match parse_sps_order(&mut r, sps) {
        Ok(v) => v,
        Err(e) => return Err(e),
    };
    let sps = match parse_sps_size(&mut r, sps) {
        Ok(v) => v,
        Err(e) => return Err(e),
    };
    if !sps.frame_mbs_only {
        return Err(Error::Bitstream("interlaced streams are not supported"));
    }
    if sps.chroma_format_idc != 1 || sps.bit_depth_luma_minus8 != 0 || sps.bit_depth_chroma_minus8 != 0 {
        return Err(Error::Bitstream("only 8-bit 4:2:0 is supported"));
    }
    Ok(sps)
}

/// `n` offsets at most make the list grow by `n`.
proof fn lemma_offsets_len(data: Seq<u8>, pos: int, n: nat, offsets: Seq<i32>)
    ensures
        read_offsets(data, pos, n, offsets) matches Ok((list, _)) ==> list.len() == offsets.len() + n,
    decreases n,
{
    if n > 0 {
        if let (Ok(v), end) = read_se(data, pos) {
            lemma_offsets_len(data, end, (n - 1) as nat, offsets.push(v));
        }
    }
}

/// Every parameter set that parses keeps the limits of the syntax, so what
/// is computed from it stays small: numbers of at most 16 bits count frames,
/// at most 255 offsets are stored, no picture exceeds 16384 pixels each way,
/// and cropping only shrinks it.
pub proof fn law_parsed_sps_is_bounded(nal: Seq<u8>)
    requires
        sps_of(nal) is Ok,
    ensures
        ({
            let sps = sps_of(nal)->Ok_0;
            &&& sps.log2_max_frame_num_minus4 <= 12
            &&& sps.log2_max_pic_order_cnt_lsb_minus4 <= 12
            &&& sps.pic_order_cnt_type <= 2
            &&& sps.offset_for_ref_frame.len() <= 255
            &&& sps.max_num_ref_frames <= 16
            &&& sps.chroma_format_idc == 1
            &&& sps.frame_mbs_only
            &&& 16 <= coded_size_of(sps).0 <= 16384
            &&& 16 <= coded_size_of(sps).1 <= 16384
            &&& 0 <= display_size_of(sps).0 <= coded_size_of(sps).0
            &&& 0 <= display_size_of(sps).1 <= coded_size_of(sps).1
        }),
{
    reveal(read_ue);
    let data = unescaped(nal.skip(1));
    let (s1, p1) = sps_head(data)->Ok_0;
    let (s2, p2) = sps_chroma(data, p1, s1)->Ok_0;
    let kind = read_ue_max(data, p2, 12)->Ok_0;
    match read_ue(data, kind.1) {
        (Ok(k), q) => {
            if k == 1 {
                if let (Ok(_), q1) = read_bit(data, q) {
                    if let (Ok(_), q2) = read_se(data, q1) {
                        if let (Ok(_), q3) = read_se(data, q2) {
                            if let Ok((n, q4)) = read_ue_max(data, q3, 255) {
                                lemma_offsets_len(data, q4, n as nat, Seq::empty());
                            }
                        }
                    }
                }
            }
        },
        _ => {},
    }
}

/// The two ids at the head of a PPS.
pub open spec fn pps_head(data: Seq<u8>) -> Result<((u8, u8), int), Error> {
    match read_ue_max(data, 0, BYTE_MAX) {
        Err(e) => Err(e),
        Ok((pps_id, p1)) => match read_ue_max(data, p1, BYTE_MAX) {
            Err(e) => Err(e),
            Ok((sps_id, p2)) => Ok(((pps_id as u8, sps_id as u8), p2)),
        },
    }
}

/// The fields of a PPS from the entropy coding mode to the redundant picture
/// count bit.
pub open spec fn pps_main(data: Seq<u8>, pos: int, pps: PpsView) -> Result<(PpsView, int), Error> {
    match read_bit(data, pos) {
        (Err(e), _) => Err(e),
        (Ok(entropy), p1) => match read_bit(data, p1) {
            (Err(e), _) => Err(e),
            (Ok(bottom), p2) => match read_ue(data, p2) {
                (Err(e), _) => Err(e),
                (Ok(groups), p3) => if groups != 0 {
                    Err(Error::Bitstream("slice groups are not supported"))
                } else {
                    match read_ue_max(data, p3, BYTE_MAX) {
                        Err(e) => Err(e),
                        Ok((l0, p4)) => match read_ue_max(data, p4, BYTE_MAX) {
                            Err(e) => Err(e),
                            Ok((l1, p5)) => match read_bit(data, p5) {
                                (Err(e), _) => Err(e),
                                (Ok(weighted), p6) => match read_bits(data, p6, 2) {
                                    (Err(e), _) => Err(e),
                                    (Ok(bipred), p7) => pps_quant(
                                        data,
                                        p7,
                                        (PpsView {
                                            entropy_coding_mode: entropy,
                                            bottom_field_pic_order_in_frame_present: bottom,
                                            num_ref_idx_l0_default_active_minus1: l0 as u8,
                                            num_ref_idx_l1_default_active_minus1: l1 as u8,
                                            weighted_pred: weighted,
                                            weighted_bipred_idc: bipred as u8,
                                            ..pps
                                        }),
                                    ),
                                },
                            },
                        },
                    }
                },
            },
        },
    }
}

/// The quantiser fields of a PPS and the three bits behind them.
pub open spec fn pps_quant(data: Seq<u8>, pos: int, pps: PpsView) -> Result<(PpsView, int), Error> {
    match read_se_byte(data, pos) {
        Err(e) => Err(e),
        Ok((qp, p1)) => match read_se_byte(data, p1) {
            Err(e) => Err(e),
            Ok((qs, p2)) => match read_se_byte(data, p2) {
                Err(e) => Err(e),
                Ok((chroma, p3)) => match read_bit(data, p3) {
                    (Err(e), _) => Err(e),
                    (Ok(deblock), p4) => match read_bit(data, p4) {
                        (Err(e), _) => Err(e),
                        (Ok(intra), p5) => match read_bit(data, p5) {
                            (Err(e), _) => Err(e),
                            (Ok(redundant), p6) => Ok(
                                (
                                    (PpsView {
                                        pic_init_qp_minus26: qp as i8,
                                        pic_init_qs_minus26: qs as i8,
                                        chroma_qp_index_offset: chroma as i8,
                                        deblocking_filter_control_present: deblock,
                                        constrained_intra_pred: intra,
                                        redundant_pic_cnt_present: redundant,
                                        second_chroma_qp_index_offset: chroma as i8,
                                        ..pps
                                    }),
                                    p6,
                                ),
                            ),
                        },
                    },
                },
            },
        },
    }
}

/// Whether a payload has bits before its trailing stop bit from `pos` on.
pub open spec fn more_data(data: Seq<u8>, pos: int) -> bool {
    exists|i: int| pos < i < 8 * data.len() && bit_at(data, i)
}

/// The optional tail of a PPS: the transform size, scaling lists and the
/// second chroma offset.
pub open spec fn pps_tail(data: Seq<u8>, pos: int, chroma_format_idc: u8, pps: PpsView) -> Result<
    (PpsView, int),
    Error,
> {
    if !more_data(data, pos) {
        Ok((pps, pos))
    } else {
        match read_bit(data, pos) {
            (Err(e), _) => Err(e),
            (Ok(transform), p1) => match optional_lists(
                data,
                p1,
                6 + (if !transform {
                    0int
                } else if chroma_format_idc != 3 {
                    2int
                } else {
                    6int
                }),
            ) {
                Err(e) => Err(e),
                Ok((lists, p2)) => match read_se_byte(data, p2) {
                    Err(e) => Err(e),
                    Ok((second, p3)) => Ok(
                        (
                            (PpsView {
                                transform_8x8_mode: transform,
                                scaling_lists: lists,
                                second_chroma_qp_index_offset: second as i8,
                                ..pps
                            }),
                            p3,
                        ),
                    ),
                },
            },
        }
    }
}

/// The PPS that the payload `data` codes behind its two ids, given the
/// chroma format of its SPS.
pub open spec fn pps_body(data: Seq<u8>, pos: int, ids: (u8, u8), chroma_format_idc: u8) -> Result<
    (PpsView, int),
    Error,
> {
    match pps_main(data, pos, (PpsView { pps_id: ids.0, sps_id: ids.1, ..blank_pps() })) {
        Err(e) => Err(e),
        Ok((pps, end)) => pps_tail(data, end, chroma_format_idc, pps),
    }
}

/// What parsing a PPS NAL unit gives, where `found` is the SPS it refers to.
pub open spec fn pps_of(nal: Seq<u8>, found: Option<Sps>) -> Result<PpsView, Error> {
    let data = unescaped(nal.skip(1));
    match pps_head(data) {
        Err(e) => Err(e),
        Ok((ids, pos)) => match found {
            None => Err(Error::Bitstream("PPS refers to an unknown SPS")),
            Some(sps) => match pps_body(data, pos, ids, sps.chroma_format_idc) {
                Err(e) => Err(e),
                Ok((pps, _)) => Ok(pps),
            },
        },
    }
}

fn parse_pps_main(r: &mut BitReader, pps: Pps) -> (res: Result<Pps, Error>)
    requires
        old(r).wf(),
    ensures
        final(r).wf(),
        final(r).data() == old(r).data(),
        step_ok(res, final(r).pos(), pps_main(old(r).data(), old(r).pos(), pps@)),
{
    let mut pps = pps;
    pps.entropy_coding_mode = match r.bit() {
        Ok(v) => v,
        Err(e) => return Err(e),
    };
    pps.bottom_field_pic_order_in_frame_present = match r.bit() {
        Ok(v) => v,
        Err(e) => return Err(e),
    };
    let groups: u32 = match r.ue() {
        Ok(v) => v,
        Err(e) => return Err(e),
    };
    if groups != 0 {
        return Err(Error::Bitstream("slice groups are not supported"));
    }
    pps.num_ref_idx_l0_default_active_minus1 = match ue_max(r, BYTE_MAX) {
        Ok(v) => v as u8,
        Err(e) => return Err(e),
    };
    pps.num_ref_idx_l1_default_active_minus1 = match ue_max(r, BYTE_MAX) {
        Ok(v) => v as u8,
        Err(e) => return Err(e),
    };
    pps.weighted_pred = match r.bit() {
        Ok(v) => v,
        Err(e) => return Err(e),
    };
    pps.weighted_bipred_idc = match r.bits(2) {
        Ok(v) => v as u8,
        Err(e) => return Err(e),
    };
    pps.pic_init_qp_minus26 = match se_byte(r) {
        Ok(v) => v as i8,
        Err(e) => return Err(e),
    };
    pps.pic_init_qs_minus26 = match se_byte(r) {
        Ok(v) => v as i8,
        Err(e) => return Err(e),
    };
    pps.chroma_qp_index_offset = match se_byte(r) {
        Ok(v) => v as i8,
        Err(e) => return Err(e),
    };
    pps.deblocking_filter_control_present = match r.bit() {
        Ok(v) => v,
        Err(e) => return Err(e),
    };
    pps.constrained_intra_pred = match r.bit() {
        Ok(v) => v,
        Err(e) => return Err(e),
    };
    pps.redundant_pic_cnt_present = match r.bit() {
        Ok(v) => v,
        Err(e) => return Err(e),
    };
    pps.second_chroma_qp_index_offset = pps.chroma_qp_index_offset;
    Ok(pps)
}

fn parse_pps_tail(r: &mut BitReader, chroma_format_idc: u8, pps: Pps) -> (res: Result<Pps, Error>)
    requires
        old(r).wf(),
    ensures
        final(r).wf(),
        final(r).data() == old(r).data(),
        step_ok(res, final(r).pos(), pps_tail(old(r).data(), old(r).pos(), chroma_format_idc, pps@)),
{
    let mut pps = pps;
    if !r.more_rbsp_data() {
        return Ok(pps);
    }
    pps.transform_8x8_mode = match r.bit() {
        Ok(v) => v,
        Err(e) => return Err(e),
    };
    let count: usize = if !pps.transform_8x8_mode {
        6
    } else if chroma_format_idc != 3 {
        8
    } else {
        12
    };
    pps.scaling_lists = match parse_optional_lists(r, count) {
        Ok(v) => v,
        Err(e) => return Err(e),
    };
    pps.second_chroma_qp_index_offset = match se_byte(r) {
        Ok(v) => v as i8,
        Err(e) => return Err(e),
    };
    Ok(pps)
}

fn parse_pps_head(r: &mut BitReader) -> (res: Result<(u8, u8), Error>)
    requires
        old(r).wf(),
        old(r).pos() == 0,
    ensures
        final(r).wf(),
        final(r).data() == old(r).data(),
        match (res, pps_head(old(r).data())) {
            (Ok(got), Ok((want, end))) => got == want && final(r).pos() == end,
            (Err(e), Err(f)) => e == f,
            _ => false,
        },
{
    let pps_id: u8 = match ue_max(r, BYTE_MAX) {
        Ok(v) => v as u8,
        Err(e) => return Err(e),
    };
    let sps_id: u8 = match ue_max(r, BYTE_MAX) {
        Ok(v) => v as u8,
        Err(e) => return Err(e),
    };
    Ok((pps_id, sps_id))
}

fn parse_pps_body(r: &mut BitReader, ids: (u8, u8), chroma_format_idc: u8) -> (res: Result<Pps, Error>)
    requires
        old(r).wf(),
    ensures
        final(r).wf(),
        final(r).data() == old(r).data(),
        step_ok(res, final(r).pos(), pps_body(old(r).data(), old(r).pos(), ids, chroma_format_idc)),
{
    let mut pps = Pps::default();
    pps.pps_id = ids.0;
    pps.sps_id = ids.1;
    let pps = match parse_pps_main(r, pps) {
        Ok(v) => v,
        Err(e) => return Err(e),
    };
    parse_pps_tail(r, chroma_format_idc, pps)
}

/// Parse a picture parameter set NAL unit. Needs its SPS for the chroma
/// format (scaling list count) and the transform-8x8 tail.
pub fn parse_pps(nal: &[u8], sps_for: impl Fn(u8) -> Option<Sps>) -> (res: Result<Pps, Error>)
    requires
        8 * nal@.len() <= usize::MAX,
        forall|id: u8| sps_for.requires((id,)),
    ensures
        nal@.len() == 0 ==> res == Err::<Pps, Error>(Error::Bitstream("empty PPS")),
        nal@.len() > 0 ==> match pps_head(unescaped(nal@.skip(1))) {
            Err(e) => res == Err::<Pps, Error>(e),
            Ok((ids, _)) => exists|found: Option<Sps>| #[trigger]
                sps_for.ensures((ids.1,), found) && match (res, pps_of(nal@, found)) {
                    (Ok(got), Ok(want)) => got@ == want,
                    (Err(e), Err(f)) => e == f,
                    _ => false,
                },
        },
{
    if nal.len() == 0 {
        return Err(Error::Bitstream("empty PPS"));
    }
    let body = slice_subrange(nal, 1, nal.len());
    assert(body@ =~= nal@.skip(1));
    let rbsp: Vec<u8> = unescape_rbsp(body);
    let mut r = BitReader::new(rbsp.as_slice());
    let ids: (u8, u8) = match parse_pps_head(&mut r) {
        Ok(v) => v,
        Err(e) => return Err(e),
    };
    let found = sps_for(ids.1);
    let ghost lookup = found;
    assert(sps_for.ensures((ids.1,), lookup));
    let res = match found {
        Some(sps) => parse_pps_body(&mut r, ids, sps.chroma_format_idc),
        None => Err(Error::Bitstream("PPS refers to an unknown SPS")),
    };
    res
}

/// Only progressive 8-bit 4:2:0 streams are taken; a set that codes anything
/// else is refused, and one that codes that is taken as it is.
pub proof fn law_only_plain_pictures_are_taken(nal: Seq<u8>)
    ensures
        sps_of(nal) matches Ok(s) ==> s.frame_mbs_only && s.chroma_format_idc == 1 && s.bit_depth_luma_minus8 == 0
            && s.bit_depth_chroma_minus8 == 0 && nal.len() > 0,
        nal.len() > 0 ==> match sps_syntax(unescaped(nal.skip(1))) {
            Ok((s, _)) => sps_of(nal) is Ok <==> s.frame_mbs_only && s.chroma_format_idc == 1 && s.bit_depth_luma_minus8
                == 0 && s.bit_depth_chroma_minus8 == 0,
            Err(e) => sps_of(nal) == Err::<SpsView, Error>(e),
        },
        sps_of(nal) is Ok ==> (sps_syntax(unescaped(nal.skip(1))) matches Ok((s, _)) && sps_of(nal) ==
            Ok::<SpsView, Error>(
            s,
        )),
{
}

/// A picture is coded in whole macroblocks of sixteen by sixteen, twice as high
/// where its fields are coded apart, and shown without what is cropped at
/// either side, two samples at a time.
pub proof fn law_sizes_of_a_picture(s: SpsView)
    requires
        s.pic_width_in_mbs_minus1 < 65_536,
        s.pic_height_in_map_units_minus1 < 65_536,
        s.frame_cropping matches Some(c) ==> c.len() == 4 && c[0] <= 8192 && c[1] <= 8192 && c[2] <= 8192 && c[3]
            <= 8192,
    ensures
        ({
            let (w, h) = coded_size_of(s);
            let (dw, dh) = display_size_of(s);
            &&& w == 16 * s.pic_width_in_mbs_minus1 + 16
            &&& h == (if s.frame_mbs_only {
                16 * s.pic_height_in_map_units_minus1 + 16
            } else {
                32 * s.pic_height_in_map_units_minus1 + 32
            })
            &&& s.frame_cropping is None ==> dw == w && dh == h
            &&& s.frame_cropping matches Some(c) ==> {
                &&& 2 * (c[0] + c[1]) <= w ==> dw + 2 * c[0] + 2 * c[1] == w
                &&& 2 * (c[0] + c[1]) > w ==> dw == 0
                &&& 2 * (c[2] + c[3]) <= h ==> dh + 2 * c[2] + 2 * c[3] == h
                &&& 2 * (c[2] + c[3]) > h ==> dh == 0
            }
        }),
{
    let n = s.pic_height_in_map_units_minus1 + 1;
    let mult: int = if s.frame_mbs_only {
        1
    } else {
        2
    };
    assert(n * (16 * mult) == if mult == 1 {
        16 * n
    } else {
        32 * n
    }) by (nonlinear_arith)
        requires
            mult == 1 || mult == 2,
    ;
}

} // verus!
