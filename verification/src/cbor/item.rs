//! Single CBOR items: how they are written, and what stands at a place.

use vstd::prelude::*;
use vstd::utf8::{decode_utf8, encode_utf8, encode_utf8_decode_utf8, encode_utf8_valid_utf8, valid_utf8};

verus! {

/// Why bytes are not the value that was asked for.
#[derive(Debug, Clone, Copy, PartialEq, Eq, Structural)]
pub enum DecodeError {
    /// An enum value this build does not know; it stands at this position.
    UnknownVariant { at: usize },
    /// Cut short, of another type, out of range, or a field is missing.
    Malformed,
}

impl DecodeError {
    pub fn is_unknown_variant(&self) -> (yes: bool)
        ensures
            yes == (self is UnknownVariant),
    {
        match self {
            DecodeError::UnknownVariant { .. } => true,
            DecodeError::Malformed => false,
        }
    }
}

/// A value found at a place, and where it ends.
pub type Found<T> = Result<(T, int), DecodeError>;

/// A double-precision number, by its IEEE 754 bits.
#[derive(Debug, Clone, Copy, PartialEq, Eq, Structural)]
pub struct F64 {
    pub bits: u64,
}

/// A single-precision number, by its IEEE 754 bits.
#[derive(Debug, Clone, Copy, PartialEq, Eq, Structural)]
pub struct F32 {
    pub bits: u32,
}

/// `v` in `n` bytes, highest first.
pub open spec fn be_bytes(v: nat, n: nat) -> Seq<u8>
    decreases n,
{
    if n == 0 {
        Seq::empty()
    } else {
        be_bytes(v / 256, (n - 1) as nat).push((v % 256) as u8)
    }
}

/// The number that bytes write, highest first.
pub open spec fn be_value(s: Seq<u8>) -> nat
    decreases s.len(),
{
    if s.len() == 0 {
        0
    } else {
        256 * be_value(s.drop_last()) + s.last() as nat
    }
}

/// The head of an item: its major type and a number, as short as it gets.
pub open spec fn head(major: nat, v: nat) -> Seq<u8> {
    if v < 24 {
        seq![(32 * major + v) as u8]
    } else if v < 0x100 {
        seq![(32 * major + 24) as u8] + be_bytes(v, 1)
    } else if v < 0x1_0000 {
        seq![(32 * major + 25) as u8] + be_bytes(v, 2)
    } else if v < 0x1_0000_0000 {
        seq![(32 * major + 26) as u8] + be_bytes(v, 4)
    } else {
        seq![(32 * major + 27) as u8] + be_bytes(v, 8)
    }
}

/// The number in `n` bytes at `p`.
pub open spec fn be_at(s: Seq<u8>, p: int, n: int) -> Option<(nat, int)> {
    if p + n <= s.len() {
        Some((be_value(s.subrange(p, p + n)), p + n))
    } else {
        None
    }
}

/// The number of an item's head at `p`, for an item of a major type.
pub open spec fn head_at(s: Seq<u8>, p: int, major: int) -> Option<(nat, int)> {
    if !(0 <= p < s.len()) || s[p] / 32 != major {
        None
    } else {
        let info = s[p] % 32;
        if info < 24 {
            Some((info as nat, p + 1))
        } else if info == 24 {
            be_at(s, p + 1, 1)
        } else if info == 25 {
            be_at(s, p + 1, 2)
        } else if info == 26 {
            be_at(s, p + 1, 4)
        } else if info == 27 {
            be_at(s, p + 1, 8)
        } else {
            None
        }
    }
}

/// An unsigned number.
pub open spec fn uint_bytes(v: nat) -> Seq<u8> {
    head(0, v)
}

/// A signed number.
pub open spec fn int_bytes(v: int) -> Seq<u8> {
    if v >= 0 {
        head(0, v as nat)
    } else {
        head(1, (-1 - v) as nat)
    }
}

pub open spec fn bool_bytes(v: bool) -> Seq<u8> {
    if v {
        seq![0xf5u8]
    } else {
        seq![0xf4u8]
    }
}

pub open spec fn f32_bytes(v: F32) -> Seq<u8> {
    seq![0xfau8] + be_bytes(v.bits as nat, 4)
}

pub open spec fn f64_bytes(v: F64) -> Seq<u8> {
    seq![0xfbu8] + be_bytes(v.bits as nat, 8)
}

pub open spec fn text_bytes(v: Seq<char>) -> Seq<u8> {
    head(3, encode_utf8(v).len()) + encode_utf8(v)
}

pub open spec fn blob_bytes(v: Seq<u8>) -> Seq<u8> {
    head(2, v.len()) + v
}

pub open spec fn list_head(n: nat) -> Seq<u8> {
    head(4, n)
}

pub open spec fn null_bytes() -> Seq<u8> {
    seq![0xf6u8]
}

/// `v` shifted left until its bit 23 is set, and how far.
pub open spec fn leading(v: nat, shift: nat) -> (nat, nat)
    decreases 0x100_0000 - v,
{
    if 0 < v < 0x80_0000 {
        leading(2 * v, shift + 1)
    } else {
        (v, shift)
    }
}

/// The double-precision number with the value of a single-precision one, by
/// bits. A number too small for a full mantissa gets one; a NaN stays a NaN,
/// quiet, with its payload.
pub open spec fn widened(bits: u32) -> nat {
    let sign: nat = (bits / 0x8000_0000) as nat;
    let exponent: nat = ((bits / 0x80_0000) % 256) as nat;
    let mantissa: nat = (bits % 0x80_0000) as nat;
    0x8000_0000_0000_0000 * sign + if exponent == 255 && mantissa == 0 {
        0x7ff0_0000_0000_0000
    } else if exponent == 255 {
        0x7ff8_0000_0000_0000 + (mantissa % 0x40_0000) * 0x2000_0000
    } else if exponent > 0 {
        (exponent + 896) * 0x10_0000_0000_0000 + mantissa * 0x2000_0000
    } else if mantissa == 0 {
        0
    } else {
        let (full, shift) = leading(mantissa, 0);
        ((897 - shift) * 0x10_0000_0000_0000 + (full - 0x80_0000) * 0x2000_0000) as nat
    }
}

/// The end of the item at `p`, whatever it is.
pub uninterp spec fn item_end(s: Seq<u8>, p: int) -> Option<int>;

/// The unsigned number at `p`, of at most `max`.
pub open spec fn uint_at(s: Seq<u8>, p: int, max: nat) -> Found<nat> {
    match head_at(s, p, 0) {
        Some((v, end)) => if v <= max {
            Ok((v, end))
        } else {
            Err(DecodeError::Malformed)
        },
        None => Err(DecodeError::Malformed),
    }
}

pub open spec fn u16_at(s: Seq<u8>, p: int) -> Found<u16> {
    match uint_at(s, p, u16::MAX as nat) {
        Ok((v, end)) => Ok((v as u16, end)),
        Err(e) => Err(e),
    }
}

pub open spec fn u32_at(s: Seq<u8>, p: int) -> Found<u32> {
    match uint_at(s, p, u32::MAX as nat) {
        Ok((v, end)) => Ok((v as u32, end)),
        Err(e) => Err(e),
    }
}

pub open spec fn u64_at(s: Seq<u8>, p: int) -> Found<u64> {
    match uint_at(s, p, u64::MAX as nat) {
        Ok((v, end)) => Ok((v as u64, end)),
        Err(e) => Err(e),
    }
}

/// The signed number at `p`, from `min` to `max`.
pub open spec fn int_at(s: Seq<u8>, p: int, min: int, max: int) -> Found<int> {
    match (head_at(s, p, 0), head_at(s, p, 1)) {
        (Some((v, end)), _) => if v <= max {
            Ok((v as int, end))
        } else {
            Err(DecodeError::Malformed)
        },
        (None, Some((v, end))) => if -1 - v >= min {
            Ok((-1 - v, end))
        } else {
            Err(DecodeError::Malformed)
        },
        (None, None) => Err(DecodeError::Malformed),
    }
}

pub open spec fn i64_at(s: Seq<u8>, p: int) -> Found<i64> {
    match int_at(s, p, i64::MIN as int, i64::MAX as int) {
        Ok((v, end)) => Ok((v as i64, end)),
        Err(e) => Err(e),
    }
}

pub open spec fn i32_at(s: Seq<u8>, p: int) -> Found<i32> {
    match int_at(s, p, i32::MIN as int, i32::MAX as int) {
        Ok((v, end)) => Ok((v as i32, end)),
        Err(e) => Err(e),
    }
}

pub open spec fn bool_at(s: Seq<u8>, p: int) -> Found<bool> {
    if 0 <= p < s.len() && s[p] == 0xf4 {
        Ok((false, p + 1))
    } else if 0 <= p < s.len() && s[p] == 0xf5 {
        Ok((true, p + 1))
    } else {
        Err(DecodeError::Malformed)
    }
}

pub open spec fn f32_at(s: Seq<u8>, p: int) -> Found<F32> {
    if 0 <= p < s.len() && s[p] == 0xfa {
        match be_at(s, p + 1, 4) {
            Some((v, end)) => Ok((F32 { bits: v as u32 }, end)),
            None => Err(DecodeError::Malformed),
        }
    } else {
        Err(DecodeError::Malformed)
    }
}

/// The double-precision number at `p`; a single-precision one is widened.
pub open spec fn f64_at(s: Seq<u8>, p: int) -> Found<F64> {
    if 0 <= p < s.len() && s[p] == 0xfb {
        match be_at(s, p + 1, 8) {
            Some((v, end)) => Ok((F64 { bits: v as u64 }, end)),
            None => Err(DecodeError::Malformed),
        }
    } else {
        match f32_at(s, p) {
            Ok((v, end)) => Ok((F64 { bits: widened(v.bits) as u64 }, end)),
            Err(e) => Err(e),
        }
    }
}

/// The bytes of a string of a major type at `p`, of definite length.
pub open spec fn string_at(s: Seq<u8>, p: int, major: int) -> Found<Seq<u8>> {
    match head_at(s, p, major) {
        Some((n, start)) => if start + n <= s.len() {
            Ok((s.subrange(start, start + n), start + n))
        } else {
            Err(DecodeError::Malformed)
        },
        None => Err(DecodeError::Malformed),
    }
}

pub open spec fn blob_at(s: Seq<u8>, p: int) -> Found<Seq<u8>> {
    string_at(s, p, 2)
}

pub open spec fn text_at(s: Seq<u8>, p: int) -> Found<Seq<char>> {
    match string_at(s, p, 3) {
        Ok((bytes, end)) => if valid_utf8(bytes) {
            Ok((decode_utf8(bytes), end))
        } else {
            Err(DecodeError::Malformed)
        },
        Err(e) => Err(e),
    }
}

/// The head of a list at `p`: its length, or none where it ends with a mark.
pub open spec fn list_at(s: Seq<u8>, p: int) -> Found<Option<u64>> {
    if 0 <= p < s.len() && s[p] == 0x9f {
        Ok((None, p + 1))
    } else {
        match head_at(s, p, 4) {
            Some((n, end)) => Ok((Some(n as u64), end)),
            None => Err(DecodeError::Malformed),
        }
    }
}

/// A number, an empty list, a truth value or a null: its end.
pub open spec fn plain_end(s: Seq<u8>, p: int) -> Option<int> {
    if 0 <= p < s.len() && (s[p] == 0x80 || 0xf4 <= s[p] <= 0xf6) {
        Some(p + 1)
    } else {
        match (head_at(s, p, 0), head_at(s, p, 1)) {
            (Some((_, end)), _) => Some(end),
            (_, Some((_, end))) => Some(end),
            _ => None,
        }
    }
}

pub open spec fn or_end(a: Option<int>, b: Option<int>) -> Option<int> {
    if a is Some {
        a
    } else {
        b
    }
}

/// Past the item at `p`, whatever it is.
pub open spec fn skip_at(s: Seq<u8>, p: int) -> Result<int, DecodeError> {
    match or_end(plain_end(s, p), item_end(s, p)) {
        Some(end) => Ok(end),
        None => Err(DecodeError::Malformed),
    }
}

/// What a skipping step gave: the end, further on and within the bytes, or
/// an error where there is none.
pub open spec fn skipped(res: Result<usize, DecodeError>, p: int, len: nat, want: Option<int>) -> bool {
    match (res, want) {
        (Ok(end), Some(e)) => end == e && p < e <= len,
        (Err(e), None) => e == DecodeError::Malformed,
        _ => false,
    }
}

/// Calls `minicbor::Encoder::u64`, which writes an unsigned number as short
/// as it gets, whatever its type.
#[verifier::external_body]
pub(crate) fn put_uint(out: &mut Vec<u8>, v: u64)
    ensures
        final(out)@ == old(out)@ + uint_bytes(v as nat),
{
    minicbor::Encoder::new(out).u64(v).expect("writing to a vector");
}

/// Calls `minicbor::Encoder::i64`, which writes a signed number as short as
/// it gets.
#[verifier::external_body]
pub(crate) fn put_int(out: &mut Vec<u8>, v: i64)
    ensures
        final(out)@ == old(out)@ + int_bytes(v as int),
{
    minicbor::Encoder::new(out).i64(v).expect("writing to a vector");
}

/// Calls `minicbor::Encoder::bool`.
#[verifier::external_body]
pub(crate) fn put_bool(out: &mut Vec<u8>, v: bool)
    ensures
        final(out)@ == old(out)@ + bool_bytes(v),
{
    minicbor::Encoder::new(out).bool(v).expect("writing to a vector");
}

/// Calls `minicbor::Encoder::null`.
#[verifier::external_body]
pub(crate) fn put_null(out: &mut Vec<u8>)
    ensures
        final(out)@ == old(out)@ + null_bytes(),
{
    minicbor::Encoder::new(out).null().expect("writing to a vector");
}

/// Calls `minicbor::Encoder::str`: a head with the length, then the bytes.
#[verifier::external_body]
pub(crate) fn put_text(out: &mut Vec<u8>, v: &str)
    ensures
        final(out)@ == old(out)@ + text_bytes(v@),
{
    minicbor::Encoder::new(out).str(v).expect("writing to a vector");
}

/// Calls `minicbor::Encoder::bytes`: a head with the length, then the bytes.
#[verifier::external_body]
pub(crate) fn put_blob(out: &mut Vec<u8>, v: &[u8])
    ensures
        final(out)@ == old(out)@ + blob_bytes(v@),
{
    minicbor::Encoder::new(out).bytes(v).expect("writing to a vector");
}

/// Calls `minicbor::Encoder::array`: the head of a list of `n` items.
#[verifier::external_body]
pub(crate) fn put_list(out: &mut Vec<u8>, n: u64)
    ensures
        final(out)@ == old(out)@ + list_head(n as nat),
{
    minicbor::Encoder::new(out).array(n).expect("writing to a vector");
}

/// What a reading step gave, held against what stands there: the same value
/// and its end, further on and within the bytes, or the same error.
pub open spec fn got<T>(res: Result<(T, usize), DecodeError>, p: int, len: nat, want: Found<T>) -> bool {
    match (res, want) {
        (Ok((v, end)), Ok((w, e))) => v == w && end == e && p < e <= len,
        (Err(a), Err(b)) => a == b,
        _ => false,
    }
}

/// The same for values that are compared by their views.
pub open spec fn got_view<T: View>(res: Result<(T, usize), DecodeError>, p: int, len: nat, want: Found<T::V>) -> bool {
    match (res, want) {
        (Ok((v, end)), Ok((w, e))) => v@ == w && end == e && p < e <= len,
        (Err(a), Err(b)) => a == b,
        _ => false,
    }
}

/// Calls `minicbor::Decoder::u64` at a position: an unsigned number, short or
/// long.
#[verifier::external_body]
pub(crate) fn get_u64(s: &[u8], p: usize) -> (res: Result<(u64, usize), DecodeError>)
    ensures
        got(res, p as int, s@.len(), u64_at(s@, p as int)),
{
    let mut d = minicbor::Decoder::new(s);
    d.set_position(p);
    let v = d.u64().map_err(|_| DecodeError::Malformed)?;
    Ok((v, d.position()))
}

/// Calls `minicbor::Decoder::i64` at a position: a signed number, short or
/// long.
#[verifier::external_body]
pub(crate) fn get_i64(s: &[u8], p: usize) -> (res: Result<(i64, usize), DecodeError>)
    ensures
        got(res, p as int, s@.len(), i64_at(s@, p as int)),
{
    let mut d = minicbor::Decoder::new(s);
    d.set_position(p);
    let v = d.i64().map_err(|_| DecodeError::Malformed)?;
    Ok((v, d.position()))
}

/// Calls `minicbor::Decoder::bool` at a position.
#[verifier::external_body]
pub(crate) fn get_bool(s: &[u8], p: usize) -> (res: Result<(bool, usize), DecodeError>)
    ensures
        got(res, p as int, s@.len(), bool_at(s@, p as int)),
{
    let mut d = minicbor::Decoder::new(s);
    d.set_position(p);
    let v = d.bool().map_err(|_| DecodeError::Malformed)?;
    Ok((v, d.position()))
}

/// Calls `minicbor::Decoder::str` at a position: text of definite length.
#[verifier::external_body]
pub(crate) fn get_text(s: &[u8], p: usize) -> (res: Result<(String, usize), DecodeError>)
    ensures
        got_view(res, p as int, s@.len(), text_at(s@, p as int)),
{
    let mut d = minicbor::Decoder::new(s);
    d.set_position(p);
    let v = d.str().map_err(|_| DecodeError::Malformed)?.to_string();
    Ok((v, d.position()))
}

/// Calls `minicbor::Decoder::bytes` at a position: bytes of definite length.
#[verifier::external_body]
pub(crate) fn get_blob(s: &[u8], p: usize) -> (res: Result<(Vec<u8>, usize), DecodeError>)
    ensures
        got_view(res, p as int, s@.len(), blob_at(s@, p as int)),
{
    let mut d = minicbor::Decoder::new(s);
    d.set_position(p);
    let v = d.bytes().map_err(|_| DecodeError::Malformed)?.to_vec();
    Ok((v, d.position()))
}

/// Calls `minicbor::Decoder::array` at a position: the length of a list, or
/// none where it ends with a mark.
#[verifier::external_body]
pub(crate) fn get_list(s: &[u8], p: usize) -> (res: Result<(Option<u64>, usize), DecodeError>)
    ensures
        got(res, p as int, s@.len(), list_at(s@, p as int)),
{
    let mut d = minicbor::Decoder::new(s);
    d.set_position(p);
    let v = d.array().map_err(|_| DecodeError::Malformed)?;
    Ok((v, d.position()))
}

/// Calls `minicbor::Decoder::skip` at a position: past one item, however it
/// nests. A number, an empty list, a truth value and a null end behind
/// their head.
#[verifier::external_body]
pub(crate) fn skip_item(s: &[u8], p: usize) -> (res: Result<usize, DecodeError>)
    ensures
        skipped(res, p as int, s@.len(), or_end(plain_end(s@, p as int), item_end(s@, p as int))),
{
    let mut d = minicbor::Decoder::new(s);
    d.set_position(p);
    d.skip().map_err(|_| DecodeError::Malformed)?;
    Ok(d.position())
}

/// Writes `n` bytes of a number, highest first.
fn put_be(out: &mut Vec<u8>, v: u64, n: usize)
    ensures
        final(out)@ == old(out)@ + be_bytes(v as nat, n as nat),
    decreases n,
{
    if n > 0 {
        put_be(out, v / 256, n - 1);
        out.push((v % 256) as u8);
        assert(out@ =~= old(out)@ + be_bytes(v as nat, n as nat));
    } else {
        assert(out@ =~= old(out)@ + be_bytes(v as nat, 0));
    }
}

/// The number in `n` bytes, highest first.
fn get_be(s: &[u8], p: usize, n: usize) -> (v: u64)
    requires
        p + n <= s@.len(),
        n <= 8,
    ensures
        v == be_value(s@.subrange(p as int, p + n)),
{
    let len: usize = s.len();
    let mut v: u64 = 0;
    proof {
        assert(s@.subrange(p as int, p as int).len() == 0);
    }
    let mut i: usize = 0;
    while i < n
        invariant
            i <= n <= 8,
            p + n <= len == s@.len(),
            v == be_value(s@.subrange(p as int, p + i)),
        decreases n - i,
    {
        let ghost next = s@.subrange(p as int, p + i + 1);
        proof {
            assert(next.drop_last() =~= s@.subrange(p as int, p + i));
            lemma_be_value_max(s@.subrange(p as int, p + i));
            lemma_pow256(i as nat);
        }
        v = v * 256 + s[p + i] as u64;
        i = i + 1;
    }
    v
}

pub(crate) fn put_f32(out: &mut Vec<u8>, v: F32)
    ensures
        final(out)@ == old(out)@ + f32_bytes(v),
{
    out.push(0xfa);
    put_be(out, v.bits as u64, 4);
    assert(out@ =~= old(out)@ + f32_bytes(v));
}

pub(crate) fn put_f64(out: &mut Vec<u8>, v: F64)
    ensures
        final(out)@ == old(out)@ + f64_bytes(v),
{
    out.push(0xfb);
    put_be(out, v.bits, 8);
    assert(out@ =~= old(out)@ + f64_bytes(v));
}

pub(crate) fn get_f32(s: &[u8], p: usize) -> (res: Result<(F32, usize), DecodeError>)
    ensures
        got(res, p as int, s@.len(), f32_at(s@, p as int)),
{
    let len: usize = s.len();
    if p >= len || s[p] != 0xfa || len - p < 5 {
        return Err(DecodeError::Malformed);
    }
    let v: u64 = get_be(s, p + 1, 4);
    proof {
        lemma_be_value_bound(s@.subrange(p + 1, p + 5));
    }
    Ok((F32 { bits: v as u32 }, p + 5))
}

/// The double-precision number with the value of a single-precision one.
fn widen(bits: u32) -> (w: u64)
    ensures
        w == widened(bits),
{
    let sign: u64 = (bits / 0x8000_0000) as u64;
    let exponent: u64 = ((bits / 0x80_0000) % 256) as u64;
    let mantissa: u64 = (bits % 0x80_0000) as u64;
    let top: u64 = 0x8000_0000_0000_0000 * sign;
    if exponent == 255 && mantissa == 0 {
        top + 0x7ff0_0000_0000_0000
    } else if exponent == 255 {
        top + 0x7ff8_0000_0000_0000 + (mantissa % 0x40_0000) * 0x2000_0000
    } else if exponent > 0 {
        top + (exponent + 896) * 0x10_0000_0000_0000 + mantissa * 0x2000_0000
    } else if mantissa == 0 {
        top
    } else {
        let mut full: u64 = mantissa;
        let mut shift: u64 = 0;
        while full < 0x80_0000
            invariant
                0 < full < 0x100_0000,
                shift < 24,
                full >= pow2(shift as nat),
                leading(full as nat, shift as nat) == leading(mantissa as nat, 0),
            decreases 0x100_0000 - full,
        {
            proof {
                lemma_pow2_23(shift as nat);
            }
            full = 2 * full;
            shift = shift + 1;
        }
        top + (897 - shift) * 0x10_0000_0000_0000 + (full - 0x80_0000) * 0x2000_0000
    }
}

pub(crate) fn get_f64(s: &[u8], p: usize) -> (res: Result<(F64, usize), DecodeError>)
    ensures
        got(res, p as int, s@.len(), f64_at(s@, p as int)),
{
    let len: usize = s.len();
    if p < len && s[p] == 0xfb {
        if len - p < 9 {
            return Err(DecodeError::Malformed);
        }
        let v: u64 = get_be(s, p + 1, 8);
        return Ok((F64 { bits: v }, p + 9));
    }
    match get_f32(s, p) {
        Ok((v, end)) => Ok((F64 { bits: widen(v.bits) }, end)),
        Err(e) => Err(e),
    }
}

pub(crate) fn get_u16(s: &[u8], p: usize) -> (res: Result<(u16, usize), DecodeError>)
    ensures
        got(res, p as int, s@.len(), u16_at(s@, p as int)),
{
    match get_u64(s, p) {
        Ok((v, end)) => if v <= 0xffff {
            Ok((v as u16, end))
        } else {
            Err(DecodeError::Malformed)
        },
        Err(e) => Err(e),
    }
}

pub(crate) fn get_u32(s: &[u8], p: usize) -> (res: Result<(u32, usize), DecodeError>)
    ensures
        got(res, p as int, s@.len(), u32_at(s@, p as int)),
{
    match get_u64(s, p) {
        Ok((v, end)) => if v <= 0xffff_ffff {
            Ok((v as u32, end))
        } else {
            Err(DecodeError::Malformed)
        },
        Err(e) => Err(e),
    }
}

pub(crate) fn get_i32(s: &[u8], p: usize) -> (res: Result<(i32, usize), DecodeError>)
    ensures
        got(res, p as int, s@.len(), i32_at(s@, p as int)),
{
    proof {
        lemma_head_value(s@, p as int, 0);
        lemma_head_value(s@, p as int, 1);
    }
    match get_i64(s, p) {
        Ok((v, end)) => if -0x8000_0000 <= v && v <= 0x7fff_ffff {
            Ok((v as i32, end))
        } else {
            Err(DecodeError::Malformed)
        },
        Err(e) => Err(e),
    }
}

/// `n` bytes write numbers below `256^n`.
pub proof fn lemma_be_value_bound(s: Seq<u8>)
    ensures
        s.len() == 1 ==> be_value(s) < 0x100,
        s.len() == 2 ==> be_value(s) < 0x1_0000,
        s.len() == 4 ==> be_value(s) < 0x1_0000_0000,
        s.len() == 8 ==> be_value(s) < 0x1_0000_0000_0000_0000,
{
    reveal_with_fuel(be_value, 9);
}

/// The number of a head has at most 64 bits.
pub proof fn lemma_head_value(s: Seq<u8>, p: int, major: int)
    ensures
        head_at(s, p, major) matches Some((v, end)) ==> v <= u64::MAX && p < end <= s.len(),
{
    if 0 <= p < s.len() {
        if p + 2 <= s.len() {
            lemma_be_value_bound(s.subrange(p + 1, p + 2));
        }
        if p + 3 <= s.len() {
            lemma_be_value_bound(s.subrange(p + 1, p + 3));
        }
        if p + 5 <= s.len() {
            lemma_be_value_bound(s.subrange(p + 1, p + 5));
        }
        if p + 9 <= s.len() {
            lemma_be_value_bound(s.subrange(p + 1, p + 9));
        }
    }
}

/// A number is read back from its bytes.
proof fn lemma_be_round_trip(v: nat, n: nat)
    ensures
        be_bytes(v, n).len() == n,
        n == 1 && v < 0x100 ==> be_value(be_bytes(v, n)) == v,
        n == 2 && v < 0x1_0000 ==> be_value(be_bytes(v, n)) == v,
        n == 4 && v < 0x1_0000_0000 ==> be_value(be_bytes(v, n)) == v,
        n == 8 && v < 0x1_0000_0000_0000_0000 ==> be_value(be_bytes(v, n)) == v,
    decreases n,
{
    lemma_be_len(v, n);
    lemma_be_exact(v, n);
    assert(pow256(1) == 0x100 && pow256(2) == 0x1_0000 && pow256(4) == 0x1_0000_0000 && pow256(8)
        == 0x1_0000_0000_0000_0000) by {
        reveal_with_fuel(pow256, 9);
    }
}

spec fn pow2(n: nat) -> nat
    decreases n,
{
    if n == 0 {
        1
    } else {
        2 * pow2((n - 1) as nat)
    }
}

proof fn lemma_pow2_23(n: nat)
    ensures
        n >= 23 ==> pow2(n) >= 0x80_0000,
        pow2(n + 1) == 2 * pow2(n),
    decreases n,
{
    if n > 23 {
        lemma_pow2_23((n - 1) as nat);
    } else if n == 23 {
        reveal_with_fuel(pow2, 24);
    }
}

proof fn lemma_pow256(n: nat)
    ensures
        n < 8 ==> pow256(n) <= 0x100_0000_0000_0000,
{
    reveal_with_fuel(pow256, 9);
}

proof fn lemma_be_value_max(s: Seq<u8>)
    ensures
        be_value(s) < pow256(s.len()),
    decreases s.len(),
{
    if s.len() > 0 {
        lemma_be_value_max(s.drop_last());
    }
}

spec fn pow256(n: nat) -> nat
    decreases n,
{
    if n == 0 {
        1
    } else {
        256 * pow256((n - 1) as nat)
    }
}

proof fn lemma_be_len(v: nat, n: nat)
    ensures
        be_bytes(v, n).len() == n,
    decreases n,
{
    if n > 0 {
        lemma_be_len(v / 256, (n - 1) as nat);
    }
}

proof fn lemma_be_exact(v: nat, n: nat)
    ensures
        v < pow256(n) ==> be_value(be_bytes(v, n)) == v,
    decreases n,
{
    if n > 0 {
        lemma_be_exact(v / 256, (n - 1) as nat);
        let b = be_bytes(v, n);
        assert(b.drop_last() =~= be_bytes(v / 256, (n - 1) as nat));
        assert(b.last() == (v % 256) as u8);
        if v < pow256(n) {
            assert(v / 256 < pow256((n - 1) as nat));
        }
    }
}

/// Bytes that stand at `p` and what is behind them.
pub open spec fn stands(s: Seq<u8>, p: int, item: Seq<u8>, tail: Seq<u8>) -> bool {
    0 <= p <= s.len() && s.skip(p) == item + tail
}

/// Behind what stands at `p` stands the tail.
pub proof fn lemma_behind(s: Seq<u8>, p: int, item: Seq<u8>, tail: Seq<u8>)
    requires
        stands(s, p, item, tail),
    ensures
        p + item.len() <= s.len(),
        s.skip(p + item.len()) == tail,
        s.subrange(p, p + item.len()) == item,
        item.len() > 0 ==> s[p] == item[0],
{
    assert(s.skip(p).len() == s.len() - p);
    assert(s.skip(p).skip(item.len() as int) =~= s.skip(p + item.len()));
    assert((item + tail).skip(item.len() as int) =~= tail);
    assert(s.subrange(p, p + item.len()) =~= s.skip(p).take(item.len() as int));
    assert((item + tail).take(item.len() as int) =~= item);
    if item.len() > 0 {
        assert(s.skip(p)[0] == s[p]);
    }
}

/// Two items in a row: the second stands behind the first.
pub proof fn lemma_pair(s: Seq<u8>, p: int, a: Seq<u8>, b: Seq<u8>, tail: Seq<u8>)
    requires
        stands(s, p, a + b, tail),
    ensures
        stands(s, p, a, b + tail),
{
    assert((a + b) + tail =~= a + (b + tail));
}

/// A head is read back.
pub proof fn lemma_head_at(s: Seq<u8>, p: int, major: nat, v: nat, tail: Seq<u8>)
    requires
        stands(s, p, head(major, v), tail),
        major <= 7,
        v <= u64::MAX,
    ensures
        head_at(s, p, major as int) == Some((v, p + head(major, v).len())),
        head(major, v).len() > 0,
        head(major, v)[0] / 32 == major,
        head(major, v)[0] % 32 <= 27,
{
    let item = head(major, v);
    lemma_behind(s, p, item, tail);
    let n: nat = if v < 24 {
        0
    } else if v < 0x100 {
        1
    } else if v < 0x1_0000 {
        2
    } else if v < 0x1_0000_0000 {
        4
    } else {
        8
    };
    lemma_be_round_trip(v, n);
    if n > 0 {
        assert(item.len() == n + 1);
        assert(s.subrange(p + 1, p + 1 + n) =~= item.skip(1)) by {
            assert(s.subrange(p, p + item.len()).skip(1) =~= s.subrange(p + 1, p + 1 + n));
        }
        assert(item.skip(1) =~= be_bytes(v, n));
    }
}

/// Numbers are read back: unsigned up to 16, 32 and 64 bits.
pub proof fn lemma_uint_round_trip(s: Seq<u8>, p: int, v: u64, tail: Seq<u8>)
    requires
        stands(s, p, uint_bytes(v as nat), tail),
    ensures
        u64_at(s, p) == Ok::<(u64, int), DecodeError>((v, p + uint_bytes(v as nat).len())),
        v <= u32::MAX ==> u32_at(s, p) == Ok::<(u32, int), DecodeError>((v as u32, p + uint_bytes(v as nat).len())),
        v <= u16::MAX ==> u16_at(s, p) == Ok::<(u16, int), DecodeError>((v as u16, p + uint_bytes(v as nat).len())),
        v <= i64::MAX ==> i64_at(s, p) == Ok::<(i64, int), DecodeError>((v as i64, p + uint_bytes(v as nat).len())),
        stands(s, p + uint_bytes(v as nat).len(), Seq::empty(), tail),
{
    lemma_head_at(s, p, 0, v as nat, tail);
    lemma_behind(s, p, uint_bytes(v as nat), tail);
    assert(Seq::<u8>::empty() + tail =~= tail);
}

/// A signed 32-bit number is read back.
pub proof fn lemma_i32_round_trip(s: Seq<u8>, p: int, v: i32, tail: Seq<u8>)
    requires
        stands(s, p, int_bytes(v as int), tail),
    ensures
        i32_at(s, p) == Ok::<(i32, int), DecodeError>((v, p + int_bytes(v as int).len())),
        stands(s, p + int_bytes(v as int).len(), Seq::empty(), tail),
        int_bytes(v as int).len() > 0,
        int_bytes(v as int)[0] < 0x40,
{
    if v >= 0 {
        lemma_head_at(s, p, 0, v as nat, tail);
    } else {
        lemma_head_at(s, p, 1, (-1 - v) as nat, tail);
        lemma_behind(s, p, int_bytes(v as int), tail);
    }
    lemma_behind(s, p, int_bytes(v as int), tail);
    assert(Seq::<u8>::empty() + tail =~= tail);
}

pub proof fn lemma_bool_round_trip(s: Seq<u8>, p: int, v: bool, tail: Seq<u8>)
    requires
        stands(s, p, bool_bytes(v), tail),
    ensures
        bool_at(s, p) == Ok::<(bool, int), DecodeError>((v, p + bool_bytes(v).len())),
        stands(s, p + bool_bytes(v).len(), Seq::empty(), tail),
{
    lemma_behind(s, p, bool_bytes(v), tail);
    assert(Seq::<u8>::empty() + tail =~= tail);
}

pub proof fn lemma_f32_round_trip(s: Seq<u8>, p: int, v: F32, tail: Seq<u8>)
    requires
        stands(s, p, f32_bytes(v), tail),
    ensures
        f32_at(s, p) == Ok::<(F32, int), DecodeError>((v, p + f32_bytes(v).len())),
        stands(s, p + f32_bytes(v).len(), Seq::empty(), tail),
{
    lemma_behind(s, p, f32_bytes(v), tail);
    lemma_be_round_trip(v.bits as nat, 4);
    assert(s.subrange(p, p + 5).skip(1) =~= s.subrange(p + 1, p + 5));
    assert(f32_bytes(v).skip(1) =~= be_bytes(v.bits as nat, 4));
    assert(Seq::<u8>::empty() + tail =~= tail);
}

pub proof fn lemma_f64_round_trip(s: Seq<u8>, p: int, v: F64, tail: Seq<u8>)
    requires
        stands(s, p, f64_bytes(v), tail),
    ensures
        f64_at(s, p) == Ok::<(F64, int), DecodeError>((v, p + f64_bytes(v).len())),
        stands(s, p + f64_bytes(v).len(), Seq::empty(), tail),
{
    lemma_behind(s, p, f64_bytes(v), tail);
    lemma_be_round_trip(v.bits as nat, 8);
    assert(s.subrange(p, p + 9).skip(1) =~= s.subrange(p + 1, p + 9));
    assert(f64_bytes(v).skip(1) =~= be_bytes(v.bits as nat, 8));
    assert(Seq::<u8>::empty() + tail =~= tail);
}

pub proof fn lemma_blob_round_trip(s: Seq<u8>, p: int, v: Seq<u8>, tail: Seq<u8>)
    requires
        stands(s, p, blob_bytes(v), tail),
        v.len() <= u64::MAX,
    ensures
        blob_at(s, p) == Ok::<(Seq<u8>, int), DecodeError>((v, p + blob_bytes(v).len())),
        stands(s, p + blob_bytes(v).len(), Seq::empty(), tail),
        blob_bytes(v).len() > 0,
        blob_bytes(v)[0] / 32 == 2,
{
    let h = head(2, v.len());
    lemma_pair(s, p, h, v, tail);
    lemma_head_at(s, p, 2, v.len(), v + tail);
    lemma_behind(s, p, h, v + tail);
    lemma_behind(s, p + h.len(), v, tail);
    assert(Seq::<u8>::empty() + tail =~= tail);
}

pub proof fn lemma_text_round_trip(s: Seq<u8>, p: int, v: Seq<char>, tail: Seq<u8>)
    requires
        stands(s, p, text_bytes(v), tail),
        encode_utf8(v).len() <= u64::MAX,
    ensures
        text_at(s, p) == Ok::<(Seq<char>, int), DecodeError>((v, p + text_bytes(v).len())),
        stands(s, p + text_bytes(v).len(), Seq::empty(), tail),
        text_bytes(v).len() > 0,
        text_bytes(v)[0] / 32 == 3,
{
    let bytes = encode_utf8(v);
    let h = head(3, bytes.len());
    lemma_pair(s, p, h, bytes, tail);
    lemma_head_at(s, p, 3, bytes.len(), bytes + tail);
    lemma_behind(s, p, h, bytes + tail);
    lemma_behind(s, p + h.len(), bytes, tail);
    encode_utf8_valid_utf8(v);
    encode_utf8_decode_utf8(v);
    assert(Seq::<u8>::empty() + tail =~= tail);
}

/// The head of a list is read back.
pub proof fn lemma_list_round_trip(s: Seq<u8>, p: int, n: u64, tail: Seq<u8>)
    requires
        stands(s, p, list_head(n as nat), tail),
    ensures
        list_at(s, p) == Ok::<(Option<u64>, int), DecodeError>((Some(n), p + list_head(n as nat).len())),
        stands(s, p + list_head(n as nat).len(), Seq::empty(), tail),
        list_head(n as nat).len() > 0,
{
    lemma_head_at(s, p, 4, n as nat, tail);
    lemma_behind(s, p, list_head(n as nat), tail);
    assert(Seq::<u8>::empty() + tail =~= tail);
}

/// A single-precision number is widened to the same value: its sign is kept,
/// the exponent is counted from another zero, and the fraction gets 29 more
/// places; zero stays zero and infinity infinity.
pub proof fn law_widening_keeps_the_value(bits: u32)
    ensures
        ({
            let w = widened(bits);
            let (sign, exponent, fraction) = (w / 0x8000_0000_0000_0000, w / 0x10_0000_0000_0000 % 2048, w
                % 0x10_0000_0000_0000);
            let e = bits / 0x80_0000 % 256;
            let f = bits % 0x80_0000;
            &&& 0 < e < 255 ==> sign == bits / 0x8000_0000 && exponent - 1023 == e - 127 && fraction == f * 0x2000_0000
            &&& e == 0 && f == 0 ==> sign == bits / 0x8000_0000 && exponent == 0 && fraction == 0
            &&& e == 255 && f == 0 ==> sign == bits / 0x8000_0000 && exponent == 2047 && fraction == 0
        }),
{
}

} // verus!
