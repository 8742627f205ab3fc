//! Rows of numbered fields: a list in which each value has its place.
//!
//! A reader ignores what stands behind the fields it knows, and takes a
//! field that is not there for its nil where it has one. A writer leaves out
//! the nils at the end.

use vstd::prelude::*;
use crate::cbor::item::{
    get_i64, get_list, i64_at, lemma_behind, lemma_list_round_trip, lemma_pair, lemma_uint_round_trip, list_at,
    list_head, put_int, put_list, skip_at, skip_item, stands, uint_bytes, DecodeError, Found,
};
use crate::cbor::list::{close, get_more, less, more_at, one_less};
use crate::cbor::wire::{Get, Put, Wire};

verus! {

/// The fields of a row: `()` for none, `(A, R)` for one and those behind it.
pub trait Row: Sized {
    type Model;

    spec fn row_model(&self) -> Self::Model;

    /// How many fields there are.
    spec fn count() -> nat;

    /// How many fields are written: up to the last one that is not nil.
    spec fn used(m: Self::Model) -> nat;

    /// The first `n` fields.
    spec fn row_bytes(m: Self::Model, n: nat) -> Seq<u8>;

    spec fn row_fits(m: Self::Model) -> bool;

    /// The fields from `p` on, what is left of the list and where.
    spec fn row_at(s: Seq<u8>, left: Option<u64>, p: int) -> Result<(Self::Model, Option<u64>, int), DecodeError>;

    proof fn row_round_trip(m: Self::Model, s: Seq<u8>, p: int, tail: Seq<u8>)
        requires
            Self::row_fits(m),
            Self::used(m) <= u64::MAX,
            stands(s, p, Self::row_bytes(m, Self::used(m)), tail),
        ensures
            Self::row_at(s, Some(Self::used(m) as u64), p) == Ok::<(Self::Model, Option<u64>, int), DecodeError>(
                (m, Some(0u64), p + Self::row_bytes(m, Self::used(m)).len()),
            ),
            stands(s, p + Self::row_bytes(m, Self::used(m)).len(), Seq::empty(), tail),
    ;

    /// All fields written out are read back, whatever a longer list holds
    /// behind them.
    proof fn full_row(m: Self::Model, s: Seq<u8>, p: int, more: u64, tail: Seq<u8>)
        requires
            Self::row_fits(m),
            Self::count() + more <= u64::MAX,
            stands(s, p, Self::row_bytes(m, Self::count()), tail),
        ensures
            Self::row_at(s, Some((Self::count() + more) as u64), p) == Ok::<
                (Self::Model, Option<u64>, int),
                DecodeError,
            >((m, Some(more), p + Self::row_bytes(m, Self::count()).len())),
            stands(s, p + Self::row_bytes(m, Self::count()).len(), Seq::empty(), tail),
    ;

    proof fn used_is_bounded(m: Self::Model)
        ensures
            Self::used(m) <= Self::count(),
    ;

    proof fn no_bytes(m: Self::Model)
        ensures
            Self::row_bytes(m, 0) == Seq::<u8>::empty(),
    ;
}

pub trait PutRow: Row {
    fn put_used(&self) -> (n: u64)
        requires
            Self::count() <= u64::MAX,
        ensures
            n == Self::used(self.row_model()),
    ;

    fn put_row(&self, out: &mut Vec<u8>, n: u64)
        ensures
            final(out)@ == old(out)@ + Self::row_bytes(self.row_model(), n as nat),
    ;
}

pub trait GetRow: Row {
    fn get_row(s: &[u8], left: Option<u64>, p: usize) -> (res: Result<(Self, Option<u64>, usize), DecodeError>)
        requires
            p <= s@.len(),
        ensures
            match (res, Self::row_at(s@, left, p as int)) {
                (Ok((v, l, end)), Ok((m, k, e))) => v.row_model() == m && l == k && end == e && p <= e <= s@.len(),
                (Err(a), Err(b)) => a == b,
                _ => false,
            },
    ;
}

impl Row for () {
    type Model = ();

    open spec fn row_model(&self) -> Self::Model {
        ()
    }

    open spec fn count() -> nat {
        0
    }

    open spec fn used(m: Self::Model) -> nat {
        0
    }

    open spec fn row_bytes(m: Self::Model, n: nat) -> Seq<u8> {
        Seq::empty()
    }

    open spec fn row_fits(m: Self::Model) -> bool {
        true
    }

    open spec fn row_at(s: Seq<u8>, left: Option<u64>, p: int) -> Result<(Self::Model, Option<u64>, int), DecodeError> {
        Ok(((), left, p))
    }

    proof fn row_round_trip(m: Self::Model, s: Seq<u8>, p: int, tail: Seq<u8>) {
    }

    proof fn full_row(m: Self::Model, s: Seq<u8>, p: int, more: u64, tail: Seq<u8>) {
    }

    proof fn used_is_bounded(m: Self::Model) {
    }

    proof fn no_bytes(m: Self::Model) {
    }
}

impl PutRow for () {
    fn put_used(&self) -> (n: u64) {
        0
    }

    fn put_row(&self, out: &mut Vec<u8>, n: u64) {
        assert(out@ =~= out@ + Seq::<u8>::empty());
    }
}

impl GetRow for () {
    fn get_row(s: &[u8], left: Option<u64>, p: usize) -> (res: Result<(Self, Option<u64>, usize), DecodeError>) {
        Ok(((), left, p))
    }
}

impl<A: Wire, R: Row> Row for (A, R) {
    type Model = (A::Model, R::Model);

    open spec fn row_model(&self) -> Self::Model {
        (self.0.model(), self.1.row_model())
    }

    open spec fn count() -> nat {
        1 + R::count()
    }

    open spec fn used(m: Self::Model) -> nat {
        if R::used(m.1) > 0 {
            1 + R::used(m.1)
        } else if A::nil() == Some(m.0) {
            0
        } else {
            1
        }
    }

    open spec fn row_bytes(m: Self::Model, n: nat) -> Seq<u8> {
        if n == 0 {
            Seq::empty()
        } else {
            A::bytes_of(m.0) + R::row_bytes(m.1, (n - 1) as nat)
        }
    }

    open spec fn row_fits(m: Self::Model) -> bool {
        A::fits(m.0) && R::row_fits(m.1)
    }

    open spec fn row_at(s: Seq<u8>, left: Option<u64>, p: int) -> Result<(Self::Model, Option<u64>, int), DecodeError> {
        match more_at(s, left, p) {
            Err(e) => Err(e),
            Ok(true) => match A::found_at(s, p) {
                Ok((a, q)) => match R::row_at(s, less(left), q) {
                    Ok((r, l, end)) => Ok(((a, r), l, end)),
                    Err(e) => Err(e),
                },
                Err(e) => Err(e),
            },
            Ok(false) => match A::nil() {
                Some(a) => match R::row_at(s, left, p) {
                    Ok((r, l, end)) => Ok(((a, r), l, end)),
                    Err(e) => Err(e),
                },
                None => Err(DecodeError::Malformed),
            },
        }
    }

    proof fn row_round_trip(m: Self::Model, s: Seq<u8>, p: int, tail: Seq<u8>) {
        let n = Self::used(m);
        if n == 0 {
            assert(R::row_bytes(m.1, 0) =~= Seq::<u8>::empty()) by {
                R::no_bytes(m.1);
            }
            R::row_round_trip(m.1, s, p, tail);
        } else {
            let a = A::bytes_of(m.0);
            let b = R::row_bytes(m.1, (n - 1) as nat);
            lemma_pair(s, p, a, b, tail);
            A::round_trip(m.0, s, p, b + tail);
            lemma_behind(s, p, a, b + tail);
            R::row_round_trip(m.1, s, p + a.len(), tail);
        }
    }

    proof fn full_row(m: Self::Model, s: Seq<u8>, p: int, more: u64, tail: Seq<u8>) {
        let a = A::bytes_of(m.0);
        let b = R::row_bytes(m.1, R::count());
        lemma_pair(s, p, a, b, tail);
        A::round_trip(m.0, s, p, b + tail);
        lemma_behind(s, p, a, b + tail);
        R::full_row(m.1, s, p + a.len(), more, tail);
    }

    proof fn used_is_bounded(m: Self::Model) {
        R::used_is_bounded(m.1);
    }

    proof fn no_bytes(m: Self::Model) {
    }
}

impl<A: Put, R: PutRow> PutRow for (A, R) {
    fn put_used(&self) -> (n: u64) {
        let rest: u64 = self.1.put_used();
        proof {
            R::used_is_bounded(self.1.row_model());
        }
        if rest > 0 {
            1 + rest
        } else if self.0.is_nil() {
            0
        } else {
            1
        }
    }

    fn put_row(&self, out: &mut Vec<u8>, n: u64) {
        if n > 0 {
            self.0.put(out);
            self.1.put_row(out, n - 1);
            assert(out@ =~= old(out)@ + Self::row_bytes(self.row_model(), n as nat));
        } else {
            assert(out@ =~= old(out)@ + Self::row_bytes(self.row_model(), 0));
        }
    }
}

impl<A: Get, R: GetRow> GetRow for (A, R) {
    fn get_row(s: &[u8], left: Option<u64>, p: usize) -> (res: Result<(Self, Option<u64>, usize), DecodeError>) {
        match get_more(s, left, p) {
            Err(e) => Err(e),
            Ok(true) => match A::get(s, p) {
                Ok((a, q)) => match R::get_row(s, one_less(left), q) {
                    Ok((r, l, end)) => Ok(((a, r), l, end)),
                    Err(e) => Err(e),
                },
                Err(e) => Err(e),
            },
            Ok(false) => match A::absent() {
                Some(a) => match R::get_row(s, left, p) {
                    Ok((r, l, end)) => Ok(((a, r), l, end)),
                    Err(e) => Err(e),
                },
                None => Err(DecodeError::Malformed),
            },
        }
    }
}

/// Past what is left of a list at `p`.
pub open spec fn rest_at(s: Seq<u8>, left: Option<u64>, p: int) -> Result<int, DecodeError>
    decreases s.len() - p,
{
    match more_at(s, left, p) {
        Err(e) => Err(e),
        Ok(false) => Ok(close(left, p)),
        Ok(true) => match skip_at(s, p) {
            Ok(q) => if p < q <= s.len() {
                rest_at(s, less(left), q)
            } else {
                Err(DecodeError::Malformed)
            },
            Err(e) => Err(e),
        },
    }
}

fn get_rest(s: &[u8], start: Option<u64>, p: usize) -> (res: Result<usize, DecodeError>)
    requires
        p <= s@.len(),
    ensures
        match (res, rest_at(s@, start, p as int)) {
            (Ok(end), Ok(e)) => end == e && p <= e <= s@.len(),
            (Err(a), Err(b)) => a == b,
            _ => false,
        },
{
    let len: usize = s.len();
    let mut left: Option<u64> = start;
    let mut q: usize = p;
    loop
        invariant
            p <= q <= len == s@.len(),
            rest_at(s@, start, p as int) == rest_at(s@, left, q as int),
        decreases len - q,
    {
        match get_more(s, left, q) {
            Err(e) => return Err(e),
            Ok(false) => {
                return match left {
                    Some(_) => Ok(q),
                    None => Ok(q + 1),
                };
            },
            Ok(true) => {},
        }
        match skip_item(s, q) {
            Ok(end) => {
                left = one_less(left);
                q = end;
            },
            Err(e) => return Err(e),
        }
    }
}

/// The row at `p`.
#[verifier::opaque]
pub open spec fn fields_at<R: Row>(s: Seq<u8>, p: int) -> Found<R::Model> {
    match list_at(s, p) {
        Err(e) => Err(e),
        Ok((left, q)) => match R::row_at(s, left, q) {
            Err(e) => Err(e),
            Ok((m, rest, at)) => match rest_at(s, rest, at) {
                Err(e) => Err(e),
                Ok(end) => Ok((m, end)),
            },
        },
    }
}

/// The bytes of a row.
#[verifier::opaque]
pub open spec fn fields_bytes<R: Row>(m: R::Model) -> Seq<u8> {
    list_head(R::used(m)) + R::row_bytes(m, R::used(m))
}

/// What reading a row gave, held against what stands there.
pub open spec fn read_fields<R: Row>(
    res: Result<(R, usize), DecodeError>,
    p: int,
    len: nat,
    want: Found<R::Model>,
) -> bool {
    match (res, want) {
        (Ok((v, end)), Ok((m, e))) => v.row_model() == m && end == e && p < e <= len,
        (Err(a), Err(b)) => a == b,
        _ => false,
    }
}

pub fn get_fields<R: GetRow>(s: &[u8], p: usize) -> (res: Result<(R, usize), DecodeError>)
    ensures
        read_fields(res, p as int, s@.len(), fields_at::<R>(s@, p as int)),
{
    proof {
        reveal(fields_at);
    }
    match get_list(s, p) {
        Err(e) => Err(e),
        Ok((left, q)) => match R::get_row(s, left, q) {
            Err(e) => Err(e),
            Ok((v, rest, at)) => match get_rest(s, rest, at) {
                Err(e) => Err(e),
                Ok(end) => Ok((v, end)),
            },
        },
    }
}

pub fn put_fields<R: PutRow>(row: &R, out: &mut Vec<u8>)
    requires
        R::count() <= u64::MAX,
    ensures
        final(out)@ == old(out)@ + fields_bytes::<R>(row.row_model()),
{
    proof {
        reveal(fields_bytes);
    }
    let n: u64 = row.put_used();
    put_list(out, n);
    row.put_row(out, n);
    assert(out@ =~= old(out)@ + fields_bytes::<R>(row.row_model()));
}

/// A row that was written is read back.
pub proof fn lemma_fields_round_trip<R: Row>(m: R::Model, s: Seq<u8>, p: int, tail: Seq<u8>)
    requires
        R::row_fits(m),
        R::count() <= u64::MAX,
        stands(s, p, fields_bytes::<R>(m), tail),
    ensures
        fields_at::<R>(s, p) == Ok::<(R::Model, int), DecodeError>((m, p + fields_bytes::<R>(m).len())),
        stands(s, p + fields_bytes::<R>(m).len(), Seq::empty(), tail),
        fields_bytes::<R>(m).len() > 0,
        fields_bytes::<R>(m)[0] / 32 == 4,
{
    reveal(fields_at);
    reveal(fields_bytes);
    let n = R::used(m);
    R::used_is_bounded(m);
    let h = list_head(n);
    let b = R::row_bytes(m, n);
    lemma_pair(s, p, h, b, tail);
    lemma_list_round_trip(s, p, n as u64, b + tail);
    lemma_behind(s, p, h, b + tail);
    R::row_round_trip(m, s, p + h.len(), tail);
    assert(fields_bytes::<R>(m)[0] == h[0]);
}

/// Fields that a newer writer appends do not disturb a reader that does not
/// know them: from a row of all its fields and `more` others, it reads its
/// fields, and ends behind the others.
pub proof fn law_appended_fields_are_ignored<R: Row>(m: R::Model, s: Seq<u8>, p: int, more: u64, tail: Seq<u8>)
    requires
        R::row_fits(m),
        R::count() + more <= u64::MAX,
        stands(s, p, list_head(R::count() + more as nat) + R::row_bytes(m, R::count()), tail),
    ensures
        ({
            let others = p + list_head(R::count() + more as nat).len() + R::row_bytes(m, R::count()).len();
            &&& s.skip(others) == tail
            &&& rest_at(s, Some(more), others) matches Ok(end) ==> fields_at::<R>(s, p) == Ok::<
                (R::Model, int),
                DecodeError,
            >((m, end))
        }),
{
    reveal(fields_at);
    let n = R::count() + more as nat;
    let h = list_head(n);
    let b = R::row_bytes(m, R::count());
    lemma_pair(s, p, h, b, tail);
    lemma_list_round_trip(s, p, n as u64, b + tail);
    lemma_behind(s, p, h, b + tail);
    R::full_row(m, s, p + h.len(), more, tail);
    lemma_behind(s, p + h.len(), b, tail);
}

/// The number of an enum's variant and where it stands, at the head of a
/// list of two.
pub open spec fn variant_at(s: Seq<u8>, p: int) -> Result<(i64, int, int), DecodeError> {
    match list_at(s, p) {
        Ok((Some(2), q)) => match i64_at(s, q) {
            Ok((v, end)) => Ok((v, q, end)),
            Err(e) => Err(e),
        },
        Ok(_) => Err(DecodeError::Malformed),
        Err(e) => Err(e),
    }
}

pub open spec fn variant_bytes(index: nat) -> Seq<u8> {
    list_head(2) + uint_bytes(index)
}

pub fn get_variant(s: &[u8], p: usize) -> (res: Result<(i64, usize, usize), DecodeError>)
    ensures
        match (res, variant_at(s@, p as int)) {
            (Ok((v, at, end)), Ok((w, a, e))) => v == w && at == a && end == e && p < a < e <= s@.len(),
            (Err(a), Err(b)) => a == b,
            _ => false,
        },
{
    match get_list(s, p) {
        Ok((Some(n), q)) => {
            if n != 2 {
                return Err(DecodeError::Malformed);
            }
            match get_i64(s, q) {
                Ok((v, end)) => Ok((v, q, end)),
                Err(e) => Err(e),
            }
        },
        Ok(_) => Err(DecodeError::Malformed),
        Err(e) => Err(e),
    }
}

pub fn put_variant(out: &mut Vec<u8>, index: u8)
    ensures
        final(out)@ == old(out)@ + variant_bytes(index as nat),
{
    put_list(out, 2);
    put_int(out, index as i64);
    assert(out@ =~= old(out)@ + variant_bytes(index as nat));
}

/// The head of a variant is read back.
pub proof fn lemma_variant_round_trip(s: Seq<u8>, p: int, index: u8, tail: Seq<u8>)
    requires
        stands(s, p, variant_bytes(index as nat), tail),
    ensures
        variant_at(s, p) == Ok::<(i64, int, int), DecodeError>(
            (index as i64, p + 1, p + variant_bytes(index as nat).len()),
        ),
        s.skip(p + variant_bytes(index as nat).len()) == tail,
        p + variant_bytes(index as nat).len() <= s.len(),
        variant_bytes(index as nat).len() > 0,
        variant_bytes(index as nat)[0] == 0x82,
{
    let h = list_head(2);
    let b = uint_bytes(index as nat);
    lemma_pair(s, p, h, b, tail);
    lemma_list_round_trip(s, p, 2, b + tail);
    lemma_behind(s, p, h, b + tail);
    lemma_uint_round_trip(s, p + h.len(), index as u64, tail);
    lemma_behind(s, p + h.len(), b, tail);
    assert(Seq::<u8>::empty() + tail =~= tail);
}

/// A variant and its fields are read back.
pub proof fn lemma_variant_and_fields<R: Row>(index: u8, m: R::Model, s: Seq<u8>, p: int, tail: Seq<u8>)
    requires
        R::row_fits(m),
        R::count() <= u64::MAX,
        stands(s, p, variant_bytes(index as nat) + fields_bytes::<R>(m), tail),
    ensures
        ({
            let h = variant_bytes(index as nat);
            let b = fields_bytes::<R>(m);
            &&& h.len() > 0
            &&& (h + b)[0] == 0x82
            &&& variant_at(s, p) == Ok::<(i64, int, int), DecodeError>((index as i64, p + 1, p + h.len()))
            &&& fields_at::<R>(s, p + h.len()) == Ok::<(R::Model, int), DecodeError>((m, p + (h + b).len()))
            &&& stands(s, p + (h + b).len(), Seq::empty(), tail)
        }),
{
    let h = variant_bytes(index as nat);
    let b = fields_bytes::<R>(m);
    lemma_pair(s, p, h, b, tail);
    lemma_variant_round_trip(s, p, index, b + tail);
    lemma_fields_round_trip::<R>(m, s, p + h.len(), tail);
    assert((h + b)[0] == h[0]);
}

/// A variant without fields is read back.
pub proof fn lemma_variant_alone(index: u8, s: Seq<u8>, p: int, tail: Seq<u8>)
    requires
        stands(s, p, variant_bytes(index as nat) + list_head(0), tail),
    ensures
        ({
            let h = variant_bytes(index as nat);
            let b = list_head(0);
            &&& h.len() > 0
            &&& (h + b)[0] == 0x82
            &&& variant_at(s, p) == Ok::<(i64, int, int), DecodeError>((index as i64, p + 1, p + h.len()))
            &&& skip_at(s, p + h.len()) == Ok::<int, DecodeError>(p + (h + b).len())
            &&& stands(s, p + (h + b).len(), Seq::empty(), tail)
        }),
{
    let h = variant_bytes(index as nat);
    let b = list_head(0);
    lemma_pair(s, p, h, b, tail);
    lemma_variant_round_trip(s, p, index, b + tail);
    lemma_behind(s, p + h.len(), b, tail);
    assert((h + b)[0] == h[0]);
    assert(Seq::<u8>::empty() + tail =~= tail);
}

} // verus!
