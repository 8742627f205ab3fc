//! Values that have a place on the wire.

use vstd::prelude::*;
use vstd::utf8::encode_utf8;
use crate::cbor::item::{
    blob_at, blob_bytes, bool_at, bool_bytes, f32_at, f32_bytes, f64_at, f64_bytes, get_blob, get_bool,
    get_f32, get_f64, get_i32, get_text, get_u16, get_u32, get_u64, i32_at, int_bytes, lemma_behind,
    lemma_blob_round_trip, lemma_bool_round_trip, lemma_f32_round_trip, lemma_f64_round_trip, lemma_head_at,
    lemma_i32_round_trip, lemma_text_round_trip, lemma_uint_round_trip, null_bytes, put_blob, put_bool, put_f32,
    put_f64, put_int, put_null, put_text, put_uint, stands, text_at, text_bytes, u16_at, u32_at, u64_at,
    uint_bytes, DecodeError, Found, F32, F64,
};

verus! {

/// A type with a mathematical model, the bytes that write a value of it, and
/// what the bytes at a place say. What is written is read back.
pub trait Wire: Sized {
    type Model;

    spec fn model(&self) -> Self::Model;

    spec fn bytes_of(m: Self::Model) -> Seq<u8>;

    /// Lengths stay within what a head can write.
    spec fn fits(m: Self::Model) -> bool;

    spec fn found_at(s: Seq<u8>, p: int) -> Found<Self::Model>;

    /// The value of a field that is not there, for a type that has one.
    spec fn nil() -> Option<Self::Model>;

    proof fn round_trip(m: Self::Model, s: Seq<u8>, p: int, tail: Seq<u8>)
        requires
            Self::fits(m),
            stands(s, p, Self::bytes_of(m), tail),
        ensures
            Self::found_at(s, p) == Ok::<(Self::Model, int), DecodeError>((m, p + Self::bytes_of(m).len())),
            stands(s, p + Self::bytes_of(m).len(), Seq::empty(), tail),
            Self::bytes_of(m).len() > 0,
            Self::bytes_of(m)[0] != 0xff,
            Self::nil() is None ==> Self::bytes_of(m)[0] != 0xf6,
    ;
}

/// A value that can be written.
pub trait Put: Wire {
    fn put(&self, out: &mut Vec<u8>)
        ensures
            final(out)@ == old(out)@ + Self::bytes_of(self.model()),
    ;

    fn is_nil(&self) -> (yes: bool)
        ensures
            yes == (Self::nil() == Some(self.model())),
    ;
}

/// What a reading step gave, held against what stands there: a value with the
/// same model and the same end, further on and within the bytes, or the same
/// error.
pub open spec fn read<T: Wire>(res: Result<(T, usize), DecodeError>, p: int, len: nat, want: Found<T::Model>) -> bool {
    match (res, want) {
        (Ok((v, end)), Ok((m, e))) => v.model() == m && end == e && p < e <= len,
        (Err(a), Err(b)) => a == b,
        _ => false,
    }
}

/// A value that can be read.
pub trait Get: Wire {
    fn get(s: &[u8], p: usize) -> (res: Result<(Self, usize), DecodeError>)
        ensures
            read(res, p as int, s@.len(), Self::found_at(s@, p as int)),
    ;

    fn absent() -> (v: Option<Self>)
        ensures
            v matches Some(x) ==> Self::nil() == Some(x.model()),
            v is None ==> Self::nil() is None,
    ;
}

/// The bytes that write a value.
pub fn to_vec<T: Put>(v: &T) -> (out: Vec<u8>)
    ensures
        out@ == T::bytes_of(v.model()),
{
    let mut out: Vec<u8> = Vec::new();
    v.put(&mut out);
    assert(out@ =~= T::bytes_of(v.model()));
    out
}

/// What bytes say, from their start.
pub open spec fn decoded<T: Wire>(s: Seq<u8>) -> Result<T::Model, DecodeError> {
    match T::found_at(s, 0) {
        Ok((m, _)) => Ok(m),
        Err(e) => Err(e),
    }
}

/// The value at the start of bytes; what follows it is ignored.
pub fn decode<T: Get>(s: &[u8]) -> (res: Result<T, DecodeError>)
    ensures
        match (res, decoded::<T>(s@)) {
            (Ok(v), Ok(m)) => v.model() == m,
            (Err(a), Err(b)) => a == b,
            _ => false,
        },
{
    match T::get(s, 0) {
        Ok((v, _)) => Ok(v),
        Err(e) => Err(e),
    }
}

/// A value that was written is read back from its bytes, whatever follows.
pub proof fn law_decode_inverts_to_vec<T: Wire>(m: T::Model, tail: Seq<u8>)
    requires
        T::fits(m),
    ensures
        decoded::<T>(T::bytes_of(m) + tail) == Ok::<T::Model, DecodeError>(m),
{
    let s = T::bytes_of(m) + tail;
    assert(s.skip(0) =~= s);
    T::round_trip(m, s, 0, tail);
}

/// A borrowed value is written as the value.
impl<'a, T: Wire> Wire for &'a T {
    type Model = T::Model;

    open spec fn model(&self) -> Self::Model {
        (**self).model()
    }

    open spec fn bytes_of(m: Self::Model) -> Seq<u8> {
        T::bytes_of(m)
    }

    open spec fn fits(m: Self::Model) -> bool {
        T::fits(m)
    }

    open spec fn found_at(s: Seq<u8>, p: int) -> Found<Self::Model> {
        T::found_at(s, p)
    }

    open spec fn nil() -> Option<Self::Model> {
        T::nil()
    }

    proof fn round_trip(m: Self::Model, s: Seq<u8>, p: int, tail: Seq<u8>) {
        T::round_trip(m, s, p, tail);
    }
}

impl<'a, T: Put> Put for &'a T {
    fn put(&self, out: &mut Vec<u8>) {
        (**self).put(out)
    }

    fn is_nil(&self) -> (yes: bool) {
        (**self).is_nil()
    }
}

impl Wire for u16 {
    type Model = u16;

    open spec fn model(&self) -> Self::Model {
        *self
    }

    open spec fn bytes_of(m: Self::Model) -> Seq<u8> {
        uint_bytes(m as nat)
    }

    open spec fn fits(m: Self::Model) -> bool {
        true
    }

    open spec fn found_at(s: Seq<u8>, p: int) -> Found<Self::Model> {
        u16_at(s, p)
    }

    open spec fn nil() -> Option<Self::Model> {
        None
    }

    proof fn round_trip(m: Self::Model, s: Seq<u8>, p: int, tail: Seq<u8>) {
        lemma_uint_round_trip(s, p, m as u64, tail);
        lemma_head_at(s, p, 0, m as nat, tail);
    }
}

impl Put for u16 {
    fn put(&self, out: &mut Vec<u8>) {
        put_uint(out, *self as u64)
    }

    fn is_nil(&self) -> (yes: bool) {
        false
    }
}

impl Get for u16 {
    fn get(s: &[u8], p: usize) -> (res: Result<(Self, usize), DecodeError>) {
        get_u16(s, p)
    }

    fn absent() -> (v: Option<Self>) {
        None
    }
}

impl Wire for u32 {
    type Model = u32;

    open spec fn model(&self) -> Self::Model {
        *self
    }

    open spec fn bytes_of(m: Self::Model) -> Seq<u8> {
        uint_bytes(m as nat)
    }

    open spec fn fits(m: Self::Model) -> bool {
        true
    }

    open spec fn found_at(s: Seq<u8>, p: int) -> Found<Self::Model> {
        u32_at(s, p)
    }

    open spec fn nil() -> Option<Self::Model> {
        None
    }

    proof fn round_trip(m: Self::Model, s: Seq<u8>, p: int, tail: Seq<u8>) {
        lemma_uint_round_trip(s, p, m as u64, tail);
        lemma_head_at(s, p, 0, m as nat, tail);
    }
}

impl Put for u32 {
    fn put(&self, out: &mut Vec<u8>) {
        put_uint(out, *self as u64)
    }

    fn is_nil(&self) -> (yes: bool) {
        false
    }
}

impl Get for u32 {
    fn get(s: &[u8], p: usize) -> (res: Result<(Self, usize), DecodeError>) {
        get_u32(s, p)
    }

    fn absent() -> (v: Option<Self>) {
        None
    }
}

impl Wire for u64 {
    type Model = u64;

    open spec fn model(&self) -> Self::Model {
        *self
    }

    open spec fn bytes_of(m: Self::Model) -> Seq<u8> {
        uint_bytes(m as nat)
    }

    open spec fn fits(m: Self::Model) -> bool {
        true
    }

    open spec fn found_at(s: Seq<u8>, p: int) -> Found<Self::Model> {
        u64_at(s, p)
    }

    open spec fn nil() -> Option<Self::Model> {
        None
    }

    proof fn round_trip(m: Self::Model, s: Seq<u8>, p: int, tail: Seq<u8>) {
        lemma_uint_round_trip(s, p, m, tail);
        lemma_head_at(s, p, 0, m as nat, tail);
    }
}

impl Put for u64 {
    fn put(&self, out: &mut Vec<u8>) {
        put_uint(out, *self)
    }

    fn is_nil(&self) -> (yes: bool) {
        false
    }
}

impl Get for u64 {
    fn get(s: &[u8], p: usize) -> (res: Result<(Self, usize), DecodeError>) {
        get_u64(s, p)
    }

    fn absent() -> (v: Option<Self>) {
        None
    }
}

impl Wire for i32 {
    type Model = i32;

    open spec fn model(&self) -> Self::Model {
        *self
    }

    open spec fn bytes_of(m: Self::Model) -> Seq<u8> {
        int_bytes(m as int)
    }

    open spec fn fits(m: Self::Model) -> bool {
        true
    }

    open spec fn found_at(s: Seq<u8>, p: int) -> Found<Self::Model> {
        i32_at(s, p)
    }

    open spec fn nil() -> Option<Self::Model> {
        None
    }

    proof fn round_trip(m: Self::Model, s: Seq<u8>, p: int, tail: Seq<u8>) {
        lemma_i32_round_trip(s, p, m, tail);
    }
}

impl Put for i32 {
    fn put(&self, out: &mut Vec<u8>) {
        put_int(out, *self as i64)
    }

    fn is_nil(&self) -> (yes: bool) {
        false
    }
}

impl Get for i32 {
    fn get(s: &[u8], p: usize) -> (res: Result<(Self, usize), DecodeError>) {
        get_i32(s, p)
    }

    fn absent() -> (v: Option<Self>) {
        None
    }
}

impl Wire for bool {
    type Model = bool;

    open spec fn model(&self) -> Self::Model {
        *self
    }

    open spec fn bytes_of(m: Self::Model) -> Seq<u8> {
        bool_bytes(m)
    }

    open spec fn fits(m: Self::Model) -> bool {
        true
    }

    open spec fn found_at(s: Seq<u8>, p: int) -> Found<Self::Model> {
        bool_at(s, p)
    }

    open spec fn nil() -> Option<Self::Model> {
        None
    }

    proof fn round_trip(m: Self::Model, s: Seq<u8>, p: int, tail: Seq<u8>) {
        lemma_bool_round_trip(s, p, m, tail);
    }
}

impl Put for bool {
    fn put(&self, out: &mut Vec<u8>) {
        put_bool(out, *self)
    }

    fn is_nil(&self) -> (yes: bool) {
        false
    }
}

impl Get for bool {
    fn get(s: &[u8], p: usize) -> (res: Result<(Self, usize), DecodeError>) {
        get_bool(s, p)
    }

    fn absent() -> (v: Option<Self>) {
        None
    }
}

impl Wire for F32 {
    type Model = F32;

    open spec fn model(&self) -> Self::Model {
        *self
    }

    open spec fn bytes_of(m: Self::Model) -> Seq<u8> {
        f32_bytes(m)
    }

    open spec fn fits(m: Self::Model) -> bool {
        true
    }

    open spec fn found_at(s: Seq<u8>, p: int) -> Found<Self::Model> {
        f32_at(s, p)
    }

    open spec fn nil() -> Option<Self::Model> {
        None
    }

    proof fn round_trip(m: Self::Model, s: Seq<u8>, p: int, tail: Seq<u8>) {
        lemma_f32_round_trip(s, p, m, tail);
    }
}

impl Put for F32 {
    fn put(&self, out: &mut Vec<u8>) {
        put_f32(out, *self)
    }

    fn is_nil(&self) -> (yes: bool) {
        false
    }
}

impl Get for F32 {
    fn get(s: &[u8], p: usize) -> (res: Result<(Self, usize), DecodeError>) {
        get_f32(s, p)
    }

    fn absent() -> (v: Option<Self>) {
        None
    }
}

impl Wire for F64 {
    type Model = F64;

    open spec fn model(&self) -> Self::Model {
        *self
    }

    open spec fn bytes_of(m: Self::Model) -> Seq<u8> {
        f64_bytes(m)
    }

    open spec fn fits(m: Self::Model) -> bool {
        true
    }

    open spec fn found_at(s: Seq<u8>, p: int) -> Found<Self::Model> {
        f64_at(s, p)
    }

    open spec fn nil() -> Option<Self::Model> {
        None
    }

    proof fn round_trip(m: Self::Model, s: Seq<u8>, p: int, tail: Seq<u8>) {
        lemma_f64_round_trip(s, p, m, tail);
    }
}

impl Put for F64 {
    fn put(&self, out: &mut Vec<u8>) {
        put_f64(out, *self)
    }

    fn is_nil(&self) -> (yes: bool) {
        false
    }
}

impl Get for F64 {
    fn get(s: &[u8], p: usize) -> (res: Result<(Self, usize), DecodeError>) {
        get_f64(s, p)
    }

    fn absent() -> (v: Option<Self>) {
        None
    }
}

impl Wire for String {
    type Model = Seq<char>;

    open spec fn model(&self) -> Self::Model {
        self@
    }

    open spec fn bytes_of(m: Self::Model) -> Seq<u8> {
        text_bytes(m)
    }

    open spec fn fits(m: Self::Model) -> bool {
        encode_utf8(m).len() <= u64::MAX
    }

    open spec fn found_at(s: Seq<u8>, p: int) -> Found<Self::Model> {
        text_at(s, p)
    }

    open spec fn nil() -> Option<Self::Model> {
        None
    }

    proof fn round_trip(m: Self::Model, s: Seq<u8>, p: int, tail: Seq<u8>) {
        lemma_text_round_trip(s, p, m, tail);
    }
}

impl Put for String {
    fn put(&self, out: &mut Vec<u8>) {
        put_text(out, self.as_str())
    }

    fn is_nil(&self) -> (yes: bool) {
        false
    }
}

impl Get for String {
    fn get(s: &[u8], p: usize) -> (res: Result<(Self, usize), DecodeError>) {
        get_text(s, p)
    }

    fn absent() -> (v: Option<Self>) {
        None
    }
}

/// Bytes, written as one string of bytes.
#[derive(Debug)]
pub struct Blob {
    pub bytes: Vec<u8>,
}

impl Wire for Blob {
    type Model = Seq<u8>;

    open spec fn model(&self) -> Self::Model {
        self.bytes@
    }

    open spec fn bytes_of(m: Self::Model) -> Seq<u8> {
        blob_bytes(m)
    }

    open spec fn fits(m: Self::Model) -> bool {
        m.len() <= u64::MAX
    }

    open spec fn found_at(s: Seq<u8>, p: int) -> Found<Self::Model> {
        blob_at(s, p)
    }

    open spec fn nil() -> Option<Self::Model> {
        None
    }

    proof fn round_trip(m: Self::Model, s: Seq<u8>, p: int, tail: Seq<u8>) {
        lemma_blob_round_trip(s, p, m, tail);
    }
}

impl Get for Blob {
    fn get(s: &[u8], p: usize) -> (res: Result<(Self, usize), DecodeError>) {
        match get_blob(s, p) {
            Ok((bytes, end)) => Ok((Blob { bytes }, end)),
            Err(e) => Err(e),
        }
    }

    fn absent() -> (v: Option<Self>) {
        None
    }
}

/// Borrowed bytes, written as a [`Blob`].
#[derive(Debug, Clone, Copy)]
pub struct BlobRef<'a> {
    pub bytes: &'a [u8],
}

impl<'a> Wire for BlobRef<'a> {
    type Model = Seq<u8>;

    open spec fn model(&self) -> Self::Model {
        self.bytes@
    }

    open spec fn bytes_of(m: Self::Model) -> Seq<u8> {
        blob_bytes(m)
    }

    open spec fn fits(m: Self::Model) -> bool {
        m.len() <= u64::MAX
    }

    open spec fn found_at(s: Seq<u8>, p: int) -> Found<Self::Model> {
        blob_at(s, p)
    }

    open spec fn nil() -> Option<Self::Model> {
        None
    }

    proof fn round_trip(m: Self::Model, s: Seq<u8>, p: int, tail: Seq<u8>) {
        lemma_blob_round_trip(s, p, m, tail);
    }
}

impl<'a> Put for BlobRef<'a> {
    fn put(&self, out: &mut Vec<u8>) {
        put_blob(out, self.bytes)
    }

    fn is_nil(&self) -> (yes: bool) {
        false
    }
}

/// A value or a null.
pub open spec fn option_at<T: Wire>(s: Seq<u8>, p: int) -> Found<Option<T::Model>> {
    if 0 <= p < s.len() && s[p] == 0xf6 {
        Ok((None, p + 1))
    } else {
        match T::found_at(s, p) {
            Ok((m, end)) => Ok((Some(m), end)),
            Err(e) => Err(e),
        }
    }
}

pub open spec fn option_bytes<T: Wire>(m: Option<T::Model>) -> Seq<u8> {
    match m {
        Some(v) => T::bytes_of(v),
        None => null_bytes(),
    }
}

impl<T: Wire> Wire for Option<T> {
    type Model = Option<T::Model>;

    open spec fn model(&self) -> Self::Model {
        match self {
            Some(v) => Some(v.model()),
            None => None,
        }
    }

    open spec fn bytes_of(m: Self::Model) -> Seq<u8> {
        option_bytes::<T>(m)
    }

    /// An option in an option cannot be told from its null.
    open spec fn fits(m: Self::Model) -> bool {
        T::nil() is None && (m matches Some(v) ==> T::fits(v))
    }

    open spec fn found_at(s: Seq<u8>, p: int) -> Found<Self::Model> {
        option_at::<T>(s, p)
    }

    open spec fn nil() -> Option<Self::Model> {
        Some(None)
    }

    proof fn round_trip(m: Self::Model, s: Seq<u8>, p: int, tail: Seq<u8>) {
        match m {
            Some(v) => {
                T::round_trip(v, s, p, tail);
                lemma_behind(s, p, T::bytes_of(v), tail);
            },
            None => {
                lemma_behind(s, p, null_bytes(), tail);
                assert(Seq::<u8>::empty() + tail =~= tail);
            },
        }
    }
}

impl<T: Put> Put for Option<T> {
    fn put(&self, out: &mut Vec<u8>) {
        match self {
            Some(v) => v.put(out),
            None => put_null(out),
        }
    }

    fn is_nil(&self) -> (yes: bool) {
        self.is_none()
    }
}

impl<T: Get> Get for Option<T> {
    fn get(s: &[u8], p: usize) -> (res: Result<(Self, usize), DecodeError>) {
        let len: usize = s.len();
        if p < len && s[p] == 0xf6 {
            return Ok((None, p + 1));
        }
        match T::get(s, p) {
            Ok((v, end)) => Ok((Some(v), end)),
            Err(e) => Err(e),
        }
    }

    fn absent() -> (v: Option<Self>) {
        Some(None)
    }
}

/// What optional bytes hold.
pub open spec fn opt_bytes(v: Option<Vec<u8>>) -> Option<Seq<u8>> {
    match v {
        Some(b) => Some(b@),
        None => None,
    }
}

/// Optional bytes, to be written.
pub(crate) fn blob_ref<'a>(v: &'a Option<Vec<u8>>) -> (r: Option<BlobRef<'a>>)
    ensures
        r.model() == opt_bytes(*v),
{
    match v {
        Some(b) => Some(BlobRef { bytes: b.as_slice() }),
        None => None,
    }
}

/// Optional bytes that were read.
pub(crate) fn blob_bytes_of(v: Option<Blob>) -> (r: Option<Vec<u8>>)
    ensures
        opt_bytes(r) == v.model(),
{
    match v {
        Some(b) => Some(b.bytes),
        None => None,
    }
}

} // verus!
