//! H.264 slice headers, up to and including `dec_ref_pic_marking`.

use super::bits::{read_bit, read_bits, read_se, read_ue, unescape_rbsp, unescaped, BitReader};
use super::parser::{read_ue_max, step_ok, ue_max, Pps, PpsView, Sps, SpsView, BYTE_MAX};
use crate::error::Error;
use vstd::prelude::*;
use vstd::slice::slice_subrange;

verus! {

/// NAL unit type of a slice of an IDR picture.
pub const NAL_IDR: u8 = 5;

#[derive(Debug, Clone, Copy, PartialEq, Eq, Structural)]
pub enum SliceType {
    P,
    B,
    I,
}

/// Memory-management control operation from `dec_ref_pic_marking`.
#[derive(Debug, Clone, Copy, PartialEq, Eq)]
pub struct Mmco {
    pub op: u32,
    pub difference_of_pic_nums_minus1: u32,
    pub long_term_pic_num: u32,
    pub long_term_frame_idx: u32,
    pub max_long_term_frame_idx_plus1: u32,
}

#[derive(Debug, Clone, PartialEq, Eq)]
pub struct SliceHeader {
    pub nal_type: u8,
    pub ref_idc: u8,
    pub first_mb_in_slice: u32,
    pub slice_type: Option<SliceType>,
    pub pps_id: u8,
    pub frame_num: u32,
    pub idr_pic_id: u32,
    pub pic_order_cnt_lsb: u32,
    pub delta_pic_order_cnt_bottom: i32,
    pub delta_pic_order_cnt: [i32; 2],
    pub num_ref_idx_l0_active_minus1: u8,
    pub no_output_of_prior_pics: bool,
    pub long_term_reference: bool,
    /// `None` = sliding window; `Some` = adaptive marking with these ops.
    pub mmcos: Option<Vec<Mmco>>,
}

#[verifier::ext_equal]
pub struct SliceHeaderView {
    pub nal_type: u8,
    pub ref_idc: u8,
    pub first_mb_in_slice: u32,
    pub slice_type: Option<SliceType>,
    pub pps_id: u8,
    pub frame_num: u32,
    pub idr_pic_id: u32,
    pub pic_order_cnt_lsb: u32,
    pub delta_pic_order_cnt_bottom: i32,
    pub delta_pic_order_cnt: (i32, i32),
    pub num_ref_idx_l0_active_minus1: u8,
    pub no_output_of_prior_pics: bool,
    pub long_term_reference: bool,
    pub mmcos: Option<Seq<Mmco>>,
}

impl View for SliceHeader {
    type V = SliceHeaderView;

    open spec fn view(&self) -> SliceHeaderView {
        SliceHeaderView {
            nal_type: self.nal_type,
            ref_idc: self.ref_idc,
            first_mb_in_slice: self.first_mb_in_slice,
            slice_type: self.slice_type,
            pps_id: self.pps_id,
            frame_num: self.frame_num,
            idr_pic_id: self.idr_pic_id,
            pic_order_cnt_lsb: self.pic_order_cnt_lsb,
            delta_pic_order_cnt_bottom: self.delta_pic_order_cnt_bottom,
            delta_pic_order_cnt: (self.delta_pic_order_cnt@[0], self.delta_pic_order_cnt@[1]),
            num_ref_idx_l0_active_minus1: self.num_ref_idx_l0_active_minus1,
            no_output_of_prior_pics: self.no_output_of_prior_pics,
            long_term_reference: self.long_term_reference,
            mmcos: (match self.mmcos {
                Some(ops) => Some(ops@),
                None => None,
            }),
        }
    }
}

/// A slice header with every field zero, absent or false.
pub open spec fn blank_slice() -> SliceHeaderView {
    SliceHeaderView {
        nal_type: 0,
        ref_idc: 0,
        first_mb_in_slice: 0,
        slice_type: None,
        pps_id: 0,
        frame_num: 0,
        idr_pic_id: 0,
        pic_order_cnt_lsb: 0,
        delta_pic_order_cnt_bottom: 0,
        delta_pic_order_cnt: (0, 0),
        num_ref_idx_l0_active_minus1: 0,
        no_output_of_prior_pics: false,
        long_term_reference: false,
        mmcos: None,
    }
}

impl Default for SliceHeader {
    fn default() -> (blank: Self)
        ensures
            blank@ == blank_slice(),
    {
        Self {
            nal_type: 0,
            ref_idc: 0,
            first_mb_in_slice: 0,
            slice_type: None,
            pps_id: 0,
            frame_num: 0,
            idr_pic_id: 0,
            pic_order_cnt_lsb: 0,
            delta_pic_order_cnt_bottom: 0,
            delta_pic_order_cnt: [0, 0],
            num_ref_idx_l0_active_minus1: 0,
            no_output_of_prior_pics: false,
            long_term_reference: false,
            mmcos: None,
        }
    }
}

impl SliceHeader {
    pub fn is_idr(&self) -> (idr: bool)
        ensures
            idr == (self.nal_type == NAL_IDR),
    {
        self.nal_type == NAL_IDR
    }

    pub fn is_reference(&self) -> (reference: bool)
        ensures
            reference == (self.ref_idc != 0),
    {
        self.ref_idc != 0
    }
}

/// Reading a bit that is there only under `cond`, false otherwise.
pub open spec fn bit_if(data: Seq<u8>, pos: int, cond: bool) -> Result<(bool, int), Error> {
    if !cond {
        Ok((false, pos))
    } else {
        match read_bit(data, pos) {
            (Err(e), _) => Err(e),
            (Ok(v), end) => Ok((v, end)),
        }
    }
}

/// Reading an `n`-bit field that is there only under `cond`, 0 otherwise.
pub open spec fn bits_if(data: Seq<u8>, pos: int, n: u32, cond: bool) -> Result<(u32, int), Error> {
    if !cond {
        Ok((0, pos))
    } else {
        match read_bits(data, pos, n) {
            (Err(e), _) => Err(e),
            (Ok(v), end) => Ok((v, end)),
        }
    }
}

/// Reading an `ue(v)` field that is there only under `cond`, `other`
/// otherwise.
pub open spec fn ue_if(data: Seq<u8>, pos: int, cond: bool, other: u32) -> Result<(u32, int), Error> {
    if !cond {
        Ok((other, pos))
    } else {
        match read_ue(data, pos) {
            (Err(e), _) => Err(e),
            (Ok(v), end) => Ok((v, end)),
        }
    }
}

/// Reading a number of references that is there only under `cond`, `other`
/// otherwise.
pub open spec fn refs_if(data: Seq<u8>, pos: int, cond: bool, other: u8) -> Result<(u8, int), Error> {
    if !cond {
        Ok((other, pos))
    } else {
        match read_ue_max(data, pos, BYTE_MAX) {
            Err(e) => Err(e),
            Ok((v, end)) => Ok((v as u8, end)),
        }
    }
}

/// Reading an `se(v)` field that is there only under `cond`, 0 otherwise.
pub open spec fn se_if(data: Seq<u8>, pos: int, cond: bool) -> Result<(i32, int), Error> {
    if !cond {
        Ok((0, pos))
    } else {
        match read_se(data, pos) {
            (Err(e), _) => Err(e),
            (Ok(v), end) => Ok((v, end)),
        }
    }
}

/// Whether a reading step gave what the syntax says.
pub open spec fn read_ok<T>(res: Result<T, Error>, end: int, want: Result<(T, int), Error>) -> bool {
    match (res, want) {
        (Ok(got), Ok((v, p))) => got == v && end == p,
        (Err(e), Err(f)) => e == f,
        _ => false,
    }
}

fn optional_bit(r: &mut BitReader, cond: bool) -> (res: Result<bool, Error>)
    requires
        old(r).wf(),
    ensures
        final(r).wf(),
        final(r).data() == old(r).data(),
        read_ok(res, final(r).pos(), bit_if(old(r).data(), old(r).pos(), cond)),
{
    if cond {
        r.bit()
    } else {
        Ok(false)
    }
}

fn optional_bits(r: &mut BitReader, n: u32, cond: bool) -> (res: Result<u32, Error>)
    requires
        old(r).wf(),
    ensures
        final(r).wf(),
        final(r).data() == old(r).data(),
        read_ok(res, final(r).pos(), bits_if(old(r).data(), old(r).pos(), n, cond)),
{
    if cond {
        r.bits(n)
    } else {
        Ok(0)
    }
}

fn optional_ue(r: &mut BitReader, cond: bool, other: u32) -> (res: Result<u32, Error>)
    requires
        old(r).wf(),
    ensures
        final(r).wf(),
        final(r).data() == old(r).data(),
        read_ok(res, final(r).pos(), ue_if(old(r).data(), old(r).pos(), cond, other)),
{
    if cond {
        r.ue()
    } else {
        Ok(other)
    }
}

fn optional_refs(r: &mut BitReader, cond: bool, other: u8) -> (res: Result<u8, Error>)
    requires
        old(r).wf(),
    ensures
        final(r).wf(),
        final(r).data() == old(r).data(),
        read_ok(res, final(r).pos(), refs_if(old(r).data(), old(r).pos(), cond, other)),
{
    if !cond {
        return Ok(other);
    }
    match ue_max(r, BYTE_MAX) {
        Ok(v) => Ok(v as u8),
        Err(e) => Err(e),
    }
}

fn optional_se(r: &mut BitReader, cond: bool) -> (res: Result<i32, Error>)
    requires
        old(r).wf(),
    ensures
        final(r).wf(),
        final(r).data() == old(r).data(),
        read_ok(res, final(r).pos(), se_if(old(r).data(), old(r).pos(), cond)),
{
    if cond {
        r.se()
    } else {
        Ok(0)
    }
}

/// The entries of a `ref_pic_list_modification`, up to its end mark.
pub open spec fn skip_modifications(data: Seq<u8>, pos: int) -> Result<((), int), Error>
    decreases 8 * data.len() - pos,
{
    proof {
        reveal(read_ue);
    }
    match read_ue(data, pos) {
        (Err(e), _) => Err(e),
        (Ok(idc), p1) => if idc == 3 {
            Ok(((), p1))
        } else if idc > 5 {
            Err(Error::Bitstream("bad modification_of_pic_nums_idc"))
        } else {
            match read_ue(data, p1) {
                (Err(e), _) => Err(e),
                (Ok(_), p2) => skip_modifications(data, p2),
            }
        },
    }
}

/// A `ref_pic_list_modification` behind its presence bit, there only under
/// `cond`.
pub open spec fn skip_modification_if(data: Seq<u8>, pos: int, cond: bool) -> Result<((), int), Error> {
    match bit_if(data, pos, cond) {
        Err(e) => Err(e),
        Ok((false, end)) => Ok(((), end)),
        Ok((true, end)) => skip_modifications(data, end),
    }
}

fn skip_ref_pic_list_modification(r: &mut BitReader, cond: bool) -> (res: Result<(), Error>)
    requires
        old(r).wf(),
    ensures
        final(r).wf(),
        final(r).data() == old(r).data(),
        read_ok(res, final(r).pos(), skip_modification_if(old(r).data(), old(r).pos(), cond)),
{
    match optional_bit(r, cond) {
        Ok(true) => {},
        Ok(false) => return Ok(()),
        Err(e) => return Err(e),
    }
    let ghost data = r.data();
    let ghost start = r.pos();
    loop
        invariant
            r.wf(),
            r.data() == data,
            data == old(r).data(),
            r.pos() <= 8 * data.len(),
            skip_modification_if(old(r).data(), old(r).pos(), cond) == skip_modifications(data, r.pos()),
        decreases 8 * data.len() - r.pos(),
    {
        proof {
            reveal(read_ue);
        }
        let idc: u32 = match r.ue() {
            Ok(v) => v,
            Err(e) => return Err(e),
        };
        if idc == 3 {
            return Ok(());
        }
        if idc > 5 {
            return Err(Error::Bitstream("bad modification_of_pic_nums_idc"));
        }
        if let Err(e) = r.ue() {
            return Err(e);
        }
    }
}

/// Two signed codes behind a presence bit, `pairs` times over, there only
/// under `cond`.
pub open spec fn skip_weight_if(data: Seq<u8>, pos: int, pairs: nat, cond: bool) -> Result<((), int), Error> {
    match bit_if(data, pos, cond) {
        Err(e) => Err(e),
        Ok((false, end)) => Ok(((), end)),
        Ok((true, end)) => skip_pairs(data, end, pairs),
    }
}

/// `pairs` pairs of signed codes.
pub open spec fn skip_pairs(data: Seq<u8>, pos: int, pairs: nat) -> Result<((), int), Error>
    decreases pairs,
{
    if pairs == 0 {
        Ok(((), pos))
    } else {
        match read_se(data, pos) {
            (Err(e), _) => Err(e),
            (Ok(_), p1) => match read_se(data, p1) {
                (Err(e), _) => Err(e),
                (Ok(_), p2) => skip_pairs(data, p2, (pairs - 1) as nat),
            },
        }
    }
}

/// The weights of `n` references: one luma pair and two chroma pairs each.
pub open spec fn skip_weights(data: Seq<u8>, pos: int, n: nat, chroma: bool) -> Result<((), int), Error>
    decreases n,
{
    if n == 0 {
        Ok(((), pos))
    } else {
        match skip_weight_if(data, pos, 1, true) {
            Err(e) => Err(e),
            Ok((_, p1)) => match skip_weight_if(data, p1, 2, chroma) {
                Err(e) => Err(e),
                Ok((_, p2)) => skip_weights(data, p2, (n - 1) as nat, chroma),
            },
        }
    }
}

/// A prediction weight table for `num_l0 + 1` references in the first list
/// and, in a B slice, `num_l1 + 1` in the second.
pub open spec fn skip_weight_table(
    data: Seq<u8>,
    pos: int,
    chroma: bool,
    num_l0: u8,
    num_l1: u8,
    b: bool,
) -> Result<((), int), Error> {
    match read_ue(data, pos) {
        (Err(e), _) => Err(e),
        (Ok(_), p1) => match ue_if(data, p1, chroma, 0) {
            Err(e) => Err(e),
            Ok((_, p2)) => match skip_weights(data, p2, (num_l0 + 1) as nat, chroma) {
                Err(e) => Err(e),
                Ok((_, p3)) => if b {
                    skip_weights(data, p3, (num_l1 + 1) as nat, chroma)
                } else {
                    Ok(((), p3))
                },
            },
        },
    }
}

fn skip_weight(r: &mut BitReader, pairs: usize, cond: bool) -> (res: Result<(), Error>)
    requires
        old(r).wf(),
    ensures
        final(r).wf(),
        final(r).data() == old(r).data(),
        read_ok(res, final(r).pos(), skip_weight_if(old(r).data(), old(r).pos(), pairs as nat, cond)),
{
    match optional_bit(r, cond) {
        Ok(true) => {},
        Ok(false) => return Ok(()),
        Err(e) => return Err(e),
    }
    for i in 0..pairs
        invariant
            r.wf(),
            r.data() == old(r).data(),
            skip_weight_if(old(r).data(), old(r).pos(), pairs as nat, cond) == skip_pairs(
                r.data(),
                r.pos(),
                (pairs - i) as nat,
            ),
    {
        if let Err(e) = r.se() {
            return Err(e);
        }
        if let Err(e) = r.se() {
            return Err(e);
        }
    }
    Ok(())
}

fn skip_weight_list(r: &mut BitReader, n: u32, chroma: bool) -> (res: Result<(), Error>)
    requires
        old(r).wf(),
    ensures
        final(r).wf(),
        final(r).data() == old(r).data(),
        read_ok(res, final(r).pos(), skip_weights(old(r).data(), old(r).pos(), n as nat, chroma)),
{
    for i in 0..n
        invariant
            r.wf(),
            r.data() == old(r).data(),
            skip_weights(old(r).data(), old(r).pos(), n as nat, chroma) == skip_weights(
                r.data(),
                r.pos(),
                (n - i) as nat,
                chroma,
            ),
    {
        if let Err(e) = skip_weight(r, 1, true) {
            return Err(e);
        }
        if let Err(e) = skip_weight(r, 2, chroma) {
            return Err(e);
        }
    }
    Ok(())
}

fn skip_pred_weight_table(r: &mut BitReader, chroma: bool, num_l0: u8, num_l1: u8, b: bool) -> (res: Result<
    (),
    Error,
>)
    requires
        old(r).wf(),
    ensures
        final(r).wf(),
        final(r).data() == old(r).data(),
        read_ok(
            res,
            final(r).pos(),
            skip_weight_table(old(r).data(), old(r).pos(), chroma, num_l0, num_l1, b),
        ),
{
    if let Err(e) = r.ue() {
        return Err(e);
    }
    if let Err(e) = optional_ue(r, chroma, 0) {
        return Err(e);
    }
    if let Err(e) = skip_weight_list(r, num_l0 as u32 + 1, chroma) {
        return Err(e);
    }
    if b {
        skip_weight_list(r, num_l1 as u32 + 1, chroma)
    } else {
        Ok(())
    }
}

/// One memory-management operation behind its code `op`.
pub open spec fn read_mmco(data: Seq<u8>, pos: int, op: u32) -> Result<(Mmco, int), Error> {
    match ue_if(data, pos, op == 1 || op == 3, 0) {
        Err(e) => Err(e),
        Ok((difference, p1)) => match ue_if(data, p1, op == 2, 0) {
            Err(e) => Err(e),
            Ok((pic_num, p2)) => match ue_if(data, p2, op == 3 || op == 6, 0) {
                Err(e) => Err(e),
                Ok((frame_idx, p3)) => match ue_if(data, p3, op == 4, 0) {
                    Err(e) => Err(e),
                    Ok((max_idx, p4)) => Ok(
                        (
                            (Mmco {
                                op,
                                difference_of_pic_nums_minus1: difference,
                                long_term_pic_num: pic_num,
                                long_term_frame_idx: frame_idx,
                                max_long_term_frame_idx_plus1: max_idx,
                            }),
                            p4,
                        ),
                    ),
                },
            },
        },
    }
}

/// The memory-management operations from `pos` on, behind `ops`: codes 1 to
/// 6 with their operands, at most 32 of them, up to a zero.
pub open spec fn read_mmcos(data: Seq<u8>, pos: int, ops: Seq<Mmco>) -> Result<(Seq<Mmco>, int), Error>
    decreases 33 - ops.len(),
{
    match read_ue(data, pos) {
        (Err(e), _) => Err(e),
        (Ok(op), p1) => if op == 0 {
            Ok((ops, p1))
        } else if ops.len() >= 32 || op > 6 {
            Err(Error::Bitstream("bad memory_management_control_operation list"))
        } else {
            match read_mmco(data, p1, op) {
                Err(e) => Err(e),
                Ok((m, p2)) => read_mmcos(data, p2, ops.push(m)),
            }
        },
    }
}

fn parse_mmco(r: &mut BitReader, op: u32) -> (res: Result<Mmco, Error>)
    requires
        old(r).wf(),
    ensures
        final(r).wf(),
        final(r).data() == old(r).data(),
        read_ok(res, final(r).pos(), read_mmco(old(r).data(), old(r).pos(), op)),
{
    let mut m = Mmco {
        op,
        difference_of_pic_nums_minus1: 0,
        long_term_pic_num: 0,
        long_term_frame_idx: 0,
        max_long_term_frame_idx_plus1: 0,
    };
    m.difference_of_pic_nums_minus1 = match optional_ue(r, op == 1 || op == 3, 0) {
        Ok(v) => v,
        Err(e) => return Err(e),
    };
    m.long_term_pic_num = match optional_ue(r, op == 2, 0) {
        Ok(v) => v,
        Err(e) => return Err(e),
    };
    m.long_term_frame_idx = match optional_ue(r, op == 3 || op == 6, 0) {
        Ok(v) => v,
        Err(e) => return Err(e),
    };
    m.max_long_term_frame_idx_plus1 = match optional_ue(r, op == 4, 0) {
        Ok(v) => v,
        Err(e) => return Err(e),
    };
    Ok(m)
}

fn parse_mmcos(r: &mut BitReader) -> (res: Result<Vec<Mmco>, Error>)
    requires
        old(r).wf(),
    ensures
        final(r).wf(),
        final(r).data() == old(r).data(),
        step_ok(res, final(r).pos(), read_mmcos(old(r).data(), old(r).pos(), Seq::empty())),
{
    let mut ops: Vec<Mmco> = Vec::new();
    loop
        invariant
            r.wf(),
            r.data() == old(r).data(),
            ops@.len() <= 32,
            read_mmcos(old(r).data(), old(r).pos(), Seq::empty()) == read_mmcos(r.data(), r.pos(), ops@),
        decreases 33 - ops@.len(),
    {
        let op: u32 = match r.ue() {
            Ok(v) => v,
            Err(e) => return Err(e),
        };
        if op == 0 {
            return Ok(ops);
        }
        // A conformant stream needs at most a few operations; a long run is
        // slice data misread as a header, or hostile input.
        if ops.len() >= 32 || op > 6 {
            return Err(Error::Bitstream("bad memory_management_control_operation list"));
        }
        let m = match parse_mmco(r, op) {
            Ok(v) => v,
            Err(e) => return Err(e),
        };
        ops.push(m);
    }
}

/// The slice type a code stands for; `None` for SP and SI slices.
pub open spec fn slice_type_of(code: u32) -> Option<SliceType> {
    if code % 5 == 0 {
        Some(SliceType::P)
    } else if code % 5 == 1 {
        Some(SliceType::B)
    } else if code % 5 == 2 {
        Some(SliceType::I)
    } else {
        None
    }
}

/// The start of a slice header: first macroblock, slice type and PPS id.
pub open spec fn slice_head(nal: Seq<u8>) -> Result<(SliceHeaderView, int), Error> {
    let data = unescaped(nal.skip(1));
    match read_ue(data, 0) {
        (Err(e), _) => Err(e),
        (Ok(first_mb), p1) => match read_ue(data, p1) {
            (Err(e), _) => Err(e),
            (Ok(code), p2) => match slice_type_of(code) {
                None => Err(Error::Bitstream("SP/SI slices are not supported")),
                Some(t) => match read_ue_max(data, p2, BYTE_MAX) {
                    Err(e) => Err(e),
                    Ok((id, p3)) => Ok(
                        (
                            (SliceHeaderView {
                                nal_type: nal[0] & 0x1f,
                                ref_idc: (nal[0] >> 5) & 3,
                                first_mb_in_slice: first_mb,
                                slice_type: Some(t),
                                pps_id: id as u8,
                                ..blank_slice()
                            }),
                            p3,
                        ),
                    ),
                },
            },
        },
    }
}

/// Frame number, IDR id and picture order counts.
pub open spec fn slice_order(data: Seq<u8>, pos: int, sh: SliceHeaderView, pps: PpsView, sps: SpsView) -> Result<
    (SliceHeaderView, int),
    Error,
> {
    let lsb = sps.pic_order_cnt_type == 0;
    let delta = sps.pic_order_cnt_type == 1 && !sps.delta_pic_order_always_zero;
    let bottom = pps.bottom_field_pic_order_in_frame_present;
    match bits_if(data, pos, 2, sps.separate_colour_plane) {
        Err(e) => Err(e),
        Ok((_, p1)) => match read_bits(data, p1, (sps.log2_max_frame_num_minus4 + 4) as u32) {
            (Err(e), _) => Err(e),
            (Ok(frame_num), p2) => match bit_if(data, p2, !sps.frame_mbs_only) {
                Err(e) => Err(e),
                Ok((true, _)) => Err(Error::Bitstream("field pictures are not supported")),
                Ok((false, p3)) => match ue_if(data, p3, sh.nal_type == NAL_IDR, 0) {
                    Err(e) => Err(e),
                    Ok((idr, p4)) => match bits_if(
                        data,
                        p4,
                        (sps.log2_max_pic_order_cnt_lsb_minus4 + 4) as u32,
                        lsb,
                    ) {
                        Err(e) => Err(e),
                        Ok((poc, p5)) => match se_if(data, p5, lsb && bottom) {
                            Err(e) => Err(e),
                            Ok((poc_bottom, p6)) => match se_if(data, p6, delta) {
                                Err(e) => Err(e),
                                Ok((d0, p7)) => match se_if(data, p7, delta && bottom) {
                                    Err(e) => Err(e),
                                    Ok((d1, p8)) => Ok(
                                        (
                                            (SliceHeaderView {
                                                frame_num,
                                                idr_pic_id: idr,
                                                pic_order_cnt_lsb: poc,
                                                delta_pic_order_cnt_bottom: poc_bottom,
                                                delta_pic_order_cnt: (d0, d1),
                                                ..sh
                                            }),
                                            p8,
                                        ),
                                    ),
                                },
                            },
                        },
                    },
                },
            },
        },
    }
}

/// Reference counts, list modifications and the weight table. Only the
/// number of references in the first list is kept.
pub open spec fn slice_refs(data: Seq<u8>, pos: int, sh: SliceHeaderView, pps: PpsView, sps: SpsView) -> Result<
    (SliceHeaderView, int),
    Error,
> {
    let b = sh.slice_type == Some(SliceType::B);
    let p = sh.slice_type == Some(SliceType::P);
    let inter = b || p;
    match ue_if(data, pos, pps.redundant_pic_cnt_present, 0) {
        Err(e) => Err(e),
        Ok((_, p1)) => match bit_if(data, p1, b) {
            Err(e) => Err(e),
            Ok((_, p2)) => match bit_if(data, p2, inter) {
                Err(e) => Err(e),
                Ok((over, p3)) => match refs_if(data, p3, over, pps.num_ref_idx_l0_default_active_minus1) {
                    Err(e) => Err(e),
                    Ok((l0, p4)) => match refs_if(
                        data,
                        p4,
                        over && b,
                        pps.num_ref_idx_l1_default_active_minus1,
                    ) {
                        Err(e) => Err(e),
                        Ok((l1, p5)) => match skip_modification_if(data, p5, inter) {
                            Err(e) => Err(e),
                            Ok((_, p6)) => match skip_modification_if(data, p6, b) {
                                Err(e) => Err(e),
                                Ok((_, p7)) => {
                                    let sh = SliceHeaderView {
                                        num_ref_idx_l0_active_minus1: l0,
                                        ..sh
                                    };
                                    if (pps.weighted_pred && p) || (pps.weighted_bipred_idc == 1 && b) {
                                        match skip_weight_table(
                                            data,
                                            p7,
                                            sps.chroma_format_idc != 0,
                                            l0,
                                            l1,
                                            b,
                                        ) {
                                            Err(e) => Err(e),
                                            Ok((_, p8)) => Ok((sh, p8)),
                                        }
                                    } else {
                                        Ok((sh, p7))
                                    }
                                },
                            },
                        },
                    },
                },
            },
        },
    }
}

/// `dec_ref_pic_marking`, coded for reference pictures only.
pub open spec fn slice_marking(data: Seq<u8>, pos: int, sh: SliceHeaderView) -> Result<
    (SliceHeaderView, int),
    Error,
> {
    if sh.ref_idc == 0 {
        Ok((sh, pos))
    } else {
        match read_bit(data, pos) {
            (Err(e), _) => Err(e),
            (Ok(first), p1) => if sh.nal_type == NAL_IDR {
                match read_bit(data, p1) {
                    (Err(e), _) => Err(e),
                    (Ok(second), p2) => Ok(
                        (
                            (SliceHeaderView {
                                no_output_of_prior_pics: first,
                                long_term_reference: second,
                                ..sh
                            }),
                            p2,
                        ),
                    ),
                }
            } else if first {
                match read_mmcos(data, p1, Seq::empty()) {
                    Err(e) => Err(e),
                    Ok((ops, p2)) => Ok(((SliceHeaderView { mmcos: Some(ops), ..sh }), p2)),
                }
            } else {
                Ok((sh, p1))
            },
        }
    }
}

/// The slice header behind its start, given the parameter sets it refers to.
pub open spec fn slice_body(data: Seq<u8>, pos: int, sh: SliceHeaderView, pps: PpsView, sps: SpsView) -> Result<
    (SliceHeaderView, int),
    Error,
> {
    match slice_order(data, pos, sh, pps, sps) {
        Err(e) => Err(e),
        Ok((s1, p1)) => match slice_refs(data, p1, s1, pps, sps) {
            Err(e) => Err(e),
            Ok((s2, p2)) => slice_marking(data, p2, s2),
        },
    }
}

/// What parsing a slice NAL unit gives, where `found` are the parameter sets
/// it refers to.
pub open spec fn slice_of(nal: Seq<u8>, found: Option<(Pps, Sps)>) -> Result<SliceHeaderView, Error> {
    match slice_head(nal) {
        Err(e) => Err(e),
        Ok((sh, pos)) => match found {
            None => Err(Error::Bitstream("slice refers to an unknown PPS")),
            Some((pps, sps)) => match slice_body(unescaped(nal.skip(1)), pos, sh, pps@, sps@) {
                Err(e) => Err(e),
                Ok((header, _)) => Ok(header),
            },
        },
    }
}

fn parse_slice_head(header: u8, r: &mut BitReader, Ghost(nal): Ghost<Seq<u8>>) -> (res: Result<SliceHeader, Error>)
    requires
        old(r).wf(),
        old(r).pos() == 0,
        nal.len() > 0,
        nal[0] == header,
        old(r).data() == unescaped(nal.skip(1)),
    ensures
        final(r).wf(),
        final(r).data() == old(r).data(),
        step_ok(res, final(r).pos(), slice_head(nal)),
{
    let mut sh = SliceHeader::default();
    sh.nal_type = header & 0x1f;
    sh.ref_idc = (header >> 5) & 3;
    sh.first_mb_in_slice = match r.ue() {
        Ok(v) => v,
        Err(e) => return Err(e),
    };
    let code: u32 = match r.ue() {
        Ok(v) => v,
        Err(e) => return Err(e),
    };
    sh.slice_type = match code % 5 {
        0 => Some(SliceType::P),
        1 => Some(SliceType::B),
        2 => Some(SliceType::I),
        _ => return Err(Error::Bitstream("SP/SI slices are not supported")),
    };
    sh.pps_id = match ue_max(r, BYTE_MAX) {
        Ok(v) => v as u8,
        Err(e) => return Err(e),
    };
    Ok(sh)
}

fn parse_slice_order(r: &mut BitReader, sh: SliceHeader, pps: &Pps, sps: &Sps) -> (res: Result<
    SliceHeader,
    Error,
>)
    requires
        old(r).wf(),
    ensures
        final(r).wf(),
        final(r).data() == old(r).data(),
        step_ok(res, final(r).pos(), slice_order(old(r).data(), old(r).pos(), sh@, pps@, sps@)),
        res matches Ok(got) ==> got.slice_type == sh.slice_type,
{
    let mut sh = sh;
    let lsb: bool = sps.pic_order_cnt_type == 0;
    let delta: bool = sps.pic_order_cnt_type == 1 && !sps.delta_pic_order_always_zero;
    let bottom: bool = pps.bottom_field_pic_order_in_frame_present;
    if let Err(e) = optional_bits(r, 2, sps.separate_colour_plane) {
        return Err(e);
    }
    sh.frame_num = match r.bits(sps.log2_max_frame_num_minus4 as u32 + 4) {
        Ok(v) => v,
        Err(e) => return Err(e),
    };
    match optional_bit(r, !sps.frame_mbs_only) {
        Ok(true) => return Err(Error::Bitstream("field pictures are not supported")),
        Ok(false) => {},
        Err(e) => return Err(e),
    }
    let idr: bool = sh.is_idr();
    sh.idr_pic_id = match optional_ue(r, idr, 0) {
        Ok(v) => v,
        Err(e) => return Err(e),
    };
    sh.pic_order_cnt_lsb = match optional_bits(r, sps.log2_max_pic_order_cnt_lsb_minus4 as u32 + 4, lsb) {
        Ok(v) => v,
        Err(e) => return Err(e),
    };
    sh.delta_pic_order_cnt_bottom = match optional_se(r, lsb && bottom) {
        Ok(v) => v,
        Err(e) => return Err(e),
    };
    let d0: i32 = match optional_se(r, delta) {
        Ok(v) => v,
        Err(e) => return Err(e),
    };
    let d1: i32 = match optional_se(r, delta && bottom) {
        Ok(v) => v,
        Err(e) => return Err(e),
    };
    sh.delta_pic_order_cnt = [d0, d1];
    Ok(sh)
}

fn parse_slice_refs(r: &mut BitReader, sh: SliceHeader, pps: &Pps, sps: &Sps) -> (res: Result<
    SliceHeader,
    Error,
>)
    requires
        old(r).wf(),
        sh.slice_type is Some,
    ensures
        final(r).wf(),
        final(r).data() == old(r).data(),
        step_ok(res, final(r).pos(), slice_refs(old(r).data(), old(r).pos(), sh@, pps@, sps@)),
{
    let mut sh = sh;
    let b: bool = matches!(sh.slice_type, Some(SliceType::B));
    let p: bool = matches!(sh.slice_type, Some(SliceType::P));
    let inter: bool = b || p;
    if let Err(e) = optional_ue(r, pps.redundant_pic_cnt_present, 0) {
        return Err(e);
    }
    // direct_spatial_mv_pred_flag
    if let Err(e) = optional_bit(r, b) {
        return Err(e);
    }
    let over: bool = match optional_bit(r, inter) {
        Ok(v) => v,
        Err(e) => return Err(e),
    };
    let l0: u8 = match optional_refs(r, over, pps.num_ref_idx_l0_default_active_minus1) {
        Ok(v) => v,
        Err(e) => return Err(e),
    };
    let l1: u8 = match optional_refs(r, over && b, pps.num_ref_idx_l1_default_active_minus1) {
        Ok(v) => v,
        Err(e) => return Err(e),
    };
    if let Err(e) = skip_ref_pic_list_modification(r, inter) {
        return Err(e);
    }
    if let Err(e) = skip_ref_pic_list_modification(r, b) {
        return Err(e);
    }
    sh.num_ref_idx_l0_active_minus1 = l0;
    if (pps.weighted_pred && p) || (pps.weighted_bipred_idc == 1 && b) {
        if let Err(e) = skip_pred_weight_table(r, sps.chroma_format_idc != 0, l0, l1, b) {
            return Err(e);
        }
    }
    Ok(sh)
}

fn parse_slice_marking(r: &mut BitReader, sh: SliceHeader) -> (res: Result<SliceHeader, Error>)
    requires
        old(r).wf(),
    ensures
        final(r).wf(),
        final(r).data() == old(r).data(),
        step_ok(res, final(r).pos(), slice_marking(old(r).data(), old(r).pos(), sh@)),
{
    let mut sh = sh;
    if !sh.is_reference() {
        return Ok(sh);
    }
    let first: bool = match r.bit() {
        Ok(v) => v,
        Err(e) => return Err(e),
    };
    if sh.is_idr() {
        sh.no_output_of_prior_pics = first;
        sh.long_term_reference = match r.bit() {
            Ok(v) => v,
            Err(e) => return Err(e),
        };
    } else if first {
        let ops = match parse_mmcos(r) {
            Ok(v) => v,
            Err(e) => return Err(e),
        };
        sh.mmcos = Some(ops);
    }
    Ok(sh)
}

fn parse_slice_body(r: &mut BitReader, sh: SliceHeader, pps: &Pps, sps: &Sps) -> (res: Result<
    SliceHeader,
    Error,
>)
    requires
        old(r).wf(),
        sh.slice_type is Some,
    ensures
        final(r).wf(),
        final(r).data() == old(r).data(),
        step_ok(res, final(r).pos(), slice_body(old(r).data(), old(r).pos(), sh@, pps@, sps@)),
{
    let sh = match parse_slice_order(r, sh, pps, sps) {
        Ok(v) => v,
        Err(e) => return Err(e),
    };
    let sh = match parse_slice_refs(r, sh, pps, sps) {
        Ok(v) => v,
        Err(e) => return Err(e),
    };
    parse_slice_marking(r, sh)
}

/// Parse a slice header up to and including `dec_ref_pic_marking`.
pub fn parse_slice_header(nal: &[u8], pps_for: impl Fn(u8) -> Option<(Pps, Sps)>) -> (res: Result<
    SliceHeader,
    Error,
>)
    requires
        8 * nal@.len() <= usize::MAX,
        forall|id: u8| pps_for.requires((id,)),
    ensures
        nal@.len() == 0 ==> res == Err::<SliceHeader, Error>(Error::Bitstream("empty slice")),
        nal@.len() > 0 ==> match slice_head(nal@) {
            Err(e) => res == Err::<SliceHeader, Error>(e),
            Ok((head, _)) => exists|found: Option<(Pps, Sps)>| #[trigger]
                pps_for.ensures((head.pps_id,), found) && match (res, slice_of(nal@, found)) {
                    (Ok(got), Ok(want)) => got@ == want,
                    (Err(e), Err(f)) => e == f,
                    _ => false,
                },
        },
{
    if nal.len() == 0 {
        return Err(Error::Bitstream("empty slice"));
    }
    let header: u8 = nal[0];
    let body = slice_subrange(nal, 1, nal.len());
    assert(body@ =~= nal@.skip(1));
    let rbsp: Vec<u8> = unescape_rbsp(body);
    let mut r = BitReader::new(rbsp.as_slice());
    let sh = match parse_slice_head(header, &mut r, Ghost(nal@)) {
        Ok(v) => v,
        Err(e) => return Err(e),
    };
    let found = pps_for(sh.pps_id);
    let ghost lookup = found;
    assert(pps_for.ensures((sh.pps_id,), lookup));
    let res = match found {
        Some((pps, sps)) => parse_slice_body(&mut r, sh, &pps, &sps),
        None => Err(Error::Bitstream("slice refers to an unknown PPS")),
    };
    res
}

} // verus!
