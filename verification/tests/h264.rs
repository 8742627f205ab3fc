use gliff::error::Error;
use gliff::h264::bits::{unescape_rbsp, BitReader};
use gliff::h264::parser::{parse_pps, parse_sps, Pps, Sps};
use gliff::h264::slice::{parse_slice_header, SliceType};

fn ue(v: u32) -> String {
    let n = (v + 1).ilog2();
    format!("{}{:b}", "0".repeat(n as usize), v + 1)
}

/// A NAL unit: its header, then these bits, a stop bit and padding.
fn nal(head: &[u8], bits: &str) -> Vec<u8> {
    let mut bits = bits.to_string() + "1";
    while bits.len() % 8 != 0 {
        bits += "0";
    }
    let mut out = head.to_vec();
    for chunk in bits.as_bytes().chunks(8) {
        out.push(u8::from_str_radix(std::str::from_utf8(chunk).unwrap(), 2).unwrap());
    }
    out
}

/// High profile, 64x64, CABAC, 8x8 transform, as x264 writes it.
fn sps_unit() -> Vec<u8> {
    let mut bits = String::new();
    for v in [0, 1, 0, 0] {
        bits += &ue(v);
    }
    bits += "00"; // transform bypass, scaling matrix
    bits += &ue(0); // frame_num in four bits
    bits += &ue(2); // POC type 2
    bits += &ue(1); // one reference frame
    bits += "0";
    bits += &ue(3);
    bits += &ue(3);
    bits += "1"; // frame_mbs_only
    bits += "1"; // direct_8x8
    bits += "0"; // cropping
    bits += "1"; // vui, all of it absent
    bits += "000000000";
    nal(&[0x67, 100, 0, 10], &bits)
}

fn pps_unit() -> Vec<u8> {
    let mut bits = ue(0) + &ue(0);
    bits += "10"; // CABAC
    bits += &ue(0);
    bits += &ue(0);
    bits += &ue(0);
    bits += "000"; // weighted prediction
    bits += &ue(5);
    bits += &ue(0);
    bits += &ue(4);
    bits += "100"; // deblocking control
    bits += "1"; // 8x8 transform
    bits += "0"; // scaling matrix
    bits += &ue(4);
    nal(&[0x68], &bits)
}

fn idr_unit() -> Vec<u8> {
    let bits = ue(0) + &ue(7) + &ue(0) + "0000" + &ue(0) + "00" + &ue(0) + &ue(3);
    nal(&[0x65], &bits)
}

fn p_unit() -> Vec<u8> {
    let bits = ue(0) + &ue(5) + &ue(0) + "0001" + "0" + "0" + "0" + &ue(0) + &ue(3);
    nal(&[0x41], &bits)
}

#[test]
fn exp_golomb() {
    // 1 -> 0, 010 -> 1, 011 -> 2, 00100 -> 3, 00111 -> 6
    let data = [0b1010_0110, 0b0100_0011, 0b1000_0000];
    let mut r = BitReader::new(&data);
    assert_eq!(r.ue().unwrap(), 0);
    assert_eq!(r.ue().unwrap(), 1);
    assert_eq!(r.ue().unwrap(), 2);
    assert_eq!(r.ue().unwrap(), 3);
    assert_eq!(r.ue().unwrap(), 6);
    let data = [0b0100_1100];
    let mut r = BitReader::new(&data);
    assert_eq!(r.se().unwrap(), 1);
    assert_eq!(r.se().unwrap(), -1);
}

#[test]
fn unescapes() {
    assert_eq!(unescape_rbsp(&[0, 0, 3, 1, 0, 0, 3, 0, 0, 3]), vec![0, 0, 1, 0, 0, 0, 0]);
    assert_eq!(unescape_rbsp(&[0, 0, 3, 3]), vec![0, 0, 3]);
}

#[test]
fn parses_x264_sps_pps() {
    let sps = parse_sps(&sps_unit()).unwrap();
    assert_eq!(sps.profile_idc, 100);
    assert_eq!(sps.level_idc, 10);
    assert_eq!(sps.chroma_format_idc, 1);
    assert_eq!(sps.coded_size(), (64, 64));
    assert_eq!(sps.display_size(), (64, 64));
    assert_eq!(sps.max_num_ref_frames, 1);
    assert!(sps.frame_mbs_only);
    assert!(sps.vui_present);
    let pps = parse_pps(&pps_unit(), |_| Some(sps.clone())).unwrap();
    assert!(pps.entropy_coding_mode);
    assert!(pps.transform_8x8_mode);
    assert!(pps.deblocking_filter_control_present);
    assert!(pps.scaling_lists.is_none());
}

#[test]
fn parses_slice_headers() {
    let sps = parse_sps(&sps_unit()).unwrap();
    let pps = parse_pps(&pps_unit(), |_| Some(sps.clone())).unwrap();
    let lookup = |_| Some((pps.clone(), sps.clone()));
    let idr = parse_slice_header(&idr_unit(), lookup).unwrap();
    assert!(idr.is_idr());
    assert_eq!(idr.slice_type, Some(SliceType::I));
    assert_eq!(idr.frame_num, 0);
    assert_eq!(idr.pic_order_cnt_lsb, 0);
    assert!(idr.mmcos.is_none());
    let p = parse_slice_header(&p_unit(), lookup).unwrap();
    assert_eq!(p.slice_type, Some(SliceType::P));
    assert!(p.is_reference());
    assert_eq!(p.frame_num, 1);
    // No B frames: POC type 2, so no lsb is coded.
    assert_eq!(sps.pic_order_cnt_type, 2);
    assert!(p.mmcos.is_none());
}

#[test]
fn rejects_truncated() {
    assert!(parse_sps(&sps_unit()[..4]).is_err());
}

#[test]
fn rejects_out_of_range_fields() {
    // profile 100, constraints 0, level 40, then ue fields:
    // sps_id=0 chroma=1 bd_luma=0 bd_chroma=0 bypass=0 scaling=0
    // log2_max_frame_num_minus4=<n> poc_type=0 log2_max_poc_lsb_minus4=0
    // max_num_ref_frames=1 gaps=0 width_mbs_minus1=<w> ...
    fn sps_with(log2_fn: u32, width_mbs: u32) -> Vec<u8> {
        let mut bits = String::new();
        for v in [0, 1, 0, 0] {
            bits += &ue(v);
        }
        bits += "00"; // transform bypass, scaling matrix
        bits += &ue(log2_fn);
        bits += &ue(0); // poc type 0
        bits += &ue(0);
        bits += &ue(1);
        bits += "0";
        bits += &ue(width_mbs);
        bits += &ue(10);
        bits += "1"; // frame_mbs_only
        bits += "1"; // direct_8x8
        bits += "0"; // cropping
        bits += "0"; // vui
        nal(&[0x67, 100, 0, 40], &bits)
    }
    assert!(parse_sps(&sps_with(4, 10)).is_ok());
    assert!(parse_sps(&sps_with(250, 10)).is_err());
    assert!(parse_sps(&sps_with(4, 100_000)).is_err());
}

#[test]
fn signed_codes_are_distinct() {
    let mut seen = std::collections::HashSet::new();
    for k in 0..1000u32 {
        let bytes = nal(&[], &ue(k));
        let v = BitReader::new(&bytes).se().unwrap();
        let want = if k % 2 == 1 { (k as i32 + 1) / 2 } else { -(k as i32 / 2) };
        assert_eq!(v, want);
        assert!(seen.insert(v));
    }
}

#[test]
fn every_code_is_read_back() {
    for v in [0, 1, 2, 3, 6, 7, 8, 255, 65_534, 1_000_000, u32::MAX - 2] {
        let bytes = nal(&[], &ue(v));
        assert_eq!(BitReader::new(&bytes).ue().unwrap(), v);
    }
}

#[test]
fn bits_end_with_an_error() {
    let mut r = BitReader::new(&[0b1011_0000]);
    assert_eq!(r.bits(3).unwrap(), 0b101);
    assert!(r.bit().unwrap());
    assert_eq!(r.flag().unwrap(), 0);
    assert!(!r.more_rbsp_data());
    assert!(r.bits(4).is_err());
    assert!(BitReader::new(&[0, 0, 0, 0, 0]).ue().is_err());
}

#[test]
fn a_crop_shrinks_the_display() {
    // 1920x1088 coded, eight lines cropped at the bottom.
    let mut bits = ue(0) + &ue(1) + &ue(0) + &ue(0) + "00" + &ue(0) + &ue(0) + &ue(0) + &ue(1) + "0";
    bits += &ue(119);
    bits += &ue(67);
    bits += "11";
    bits += "1";
    bits += &(ue(0) + &ue(0) + &ue(0) + &ue(4));
    bits += "0";
    let sps = parse_sps(&nal(&[0x67, 100, 0, 40], &bits)).unwrap();
    assert_eq!(sps.coded_size(), (1920, 1088));
    assert_eq!(sps.display_size(), (1920, 1080));
    assert_eq!(sps.max_frame_num(), 16);
    assert_eq!(sps.max_poc_lsb(), 16);
}

#[test]
fn a_slice_of_an_unknown_pps_is_an_error() {
    let r = parse_slice_header(&idr_unit(), |_| None::<(Pps, Sps)>);
    assert!(matches!(r, Err(Error::Bitstream(_))));
    assert!(parse_pps(&pps_unit(), |_| None::<Sps>).is_err());
}

#[test]
fn marking_operations_are_read() {
    let sps = parse_sps(&sps_unit()).unwrap();
    let pps = parse_pps(&pps_unit(), |_| Some(sps.clone())).unwrap();
    // Adaptive marking: forget one short-term picture, then the end.
    let bits = ue(0) + &ue(5) + &ue(0) + "0011" + "0" + "0" + "1" + &ue(1) + &ue(4) + &ue(0) + &ue(0) + &ue(3);
    let p = parse_slice_header(&nal(&[0x41], &bits), |_| Some((pps.clone(), sps.clone()))).unwrap();
    let ops = p.mmcos.unwrap();
    assert_eq!(ops.len(), 1);
    assert_eq!((ops[0].op, ops[0].difference_of_pic_nums_minus1), (1, 4));
    assert_eq!(p.frame_num, 3);
}

/// [`sps_unit`] with some of its fields changed.
fn sps_of(id: u32, chroma: u32, luma_depth: u32, poc: u32) -> Vec<u8> {
    let mut bits = ue(id) + &ue(chroma) + &ue(luma_depth) + &ue(0) + "00" + &ue(0) + &ue(poc) + &ue(1) + "0";
    bits += &(ue(3) + &ue(3) + "11" + "0" + "0");
    nal(&[0x67, 100, 0, 40], &bits)
}

#[test]
fn codes_that_a_field_cannot_hold_are_errors() {
    assert!(parse_sps(&[0x67, 100, 0, 40, 0x80, 0x40, 0xB0, 0xBA, 0x0B, 0x17, 0x90]).is_err());
    assert!(parse_sps(&sps_of(0, 1, 0, 2)).is_ok());
    assert_eq!(parse_sps(&sps_of(255, 1, 0, 2)).unwrap().sps_id, 255);
    assert!(parse_sps(&sps_of(256, 1, 0, 2)).is_err());
    assert!(parse_sps(&sps_of(0, 257, 0, 2)).is_err());
    let unsupported = Err(Error::Bitstream("only 8-bit 4:2:0 is supported"));
    assert_eq!(parse_sps(&sps_of(0, 4, 0, 2)), unsupported);
    assert_eq!(parse_sps(&sps_of(0, 1, 255, 2)), unsupported);
    assert!(parse_sps(&sps_of(0, 1, 256, 2)).is_err());
    assert!(parse_sps(&sps_of(0, 1, 0, 3)).is_err());
    assert!(parse_sps(&sps_of(0, 1, 0, 258)).is_err());
}

#[test]
fn fields_take_what_a_byte_holds() {
    let sps = parse_sps(&sps_unit()).unwrap();
    let pps = parse_pps(&pps_unit(), |_| Some(sps.clone())).unwrap();
    // The code of a signed value: positive ones are odd.
    let se = |v: i32| if v > 0 { ue(2 * v as u32 - 1) } else { ue(2 * v.unsigned_abs()) };
    let pps_of = |id: u32, refs: u32, qp: i32, offset: i32| {
        let mut bits = ue(id) + &ue(40) + "10" + &ue(0) + &ue(refs) + &ue(0) + "000";
        bits += &(se(qp) + &ue(0) + &se(offset) + "100");
        parse_pps(&nal(&[0x68], &bits), |id| if id == 40 { Some(sps.clone()) } else { None })
    };
    let p = pps_of(255, 255, -128, 127).unwrap();
    assert_eq!((p.pps_id, p.sps_id, p.num_ref_idx_l0_default_active_minus1), (255, 40, 255));
    assert_eq!((p.pic_init_qp_minus26, p.chroma_qp_index_offset), (-128, 127));
    assert!(pps_of(256, 0, 0, 0).is_err());
    assert!(pps_of(0, 256, 0, 0).is_err());
    assert!(pps_of(0, 0, -129, 0).is_err());
    assert!(pps_of(0, 0, 0, 128).is_err());
    let slice_of = |kind: u32, id: u32| {
        let bits = ue(0) + &ue(kind) + &ue(id) + "0000" + &ue(0) + "00" + &ue(0) + &ue(3);
        parse_slice_header(&nal(&[0x65], &bits), |_| Some((pps.clone(), sps.clone())))
    };
    assert_eq!(slice_of(7, 255).unwrap().pps_id, 255);
    assert_eq!(slice_of(12, 0).unwrap().slice_type, Some(SliceType::I));
    assert!(slice_of(13, 0).is_err());
    assert!(slice_of(7, 256).is_err());
}
