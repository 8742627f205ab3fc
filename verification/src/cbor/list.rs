//! Lists, and values a newer peer may extend.

use vstd::prelude::*;
use crate::cbor::item::{
    get_list, lemma_behind, lemma_list_round_trip, lemma_pair, list_at, list_head, put_list, skip_at, skip_item,
    stands, DecodeError, Found,
};
use crate::cbor::wire::{option_bytes, read, Get, Put, Wire};

verus! {

/// Whether a list goes on at `p`: by how many items are left, or by the mark
/// that ends it.
pub open spec fn more_at(s: Seq<u8>, left: Option<u64>, p: int) -> Result<bool, DecodeError> {
    match left {
        Some(n) => Ok(n > 0),
        None => if 0 <= p < s.len() {
            Ok(s[p] != 0xff)
        } else {
            Err(DecodeError::Malformed)
        },
    }
}

/// What is left behind one more item.
pub open spec fn less(left: Option<u64>) -> Option<u64> {
    match left {
        Some(n) => Some((n - 1) as u64),
        None => None,
    }
}

/// The end of a list whose items end at `p`.
pub open spec fn close(left: Option<u64>, p: int) -> int {
    match left {
        Some(_) => p,
        None => p + 1,
    }
}

pub(crate) fn get_more(s: &[u8], left: Option<u64>, p: usize) -> (res: Result<bool, DecodeError>)
    ensures
        res == more_at(s@, left, p as int),
{
    match left {
        Some(n) => Ok(n > 0),
        None => {
            let len: usize = s.len();
            if p < len {
                Ok(s[p] != 0xff)
            } else {
                Err(DecodeError::Malformed)
            }
        },
    }
}

pub(crate) fn one_less(left: Option<u64>) -> (rest: Option<u64>)
    requires
        left matches Some(n) ==> n > 0,
    ensures
        rest == less(left),
{
    match left {
        Some(n) => Some(n - 1),
        None => None,
    }
}

/// The models of a run of values.
pub open spec fn models<T: Wire>(v: Seq<T>) -> Seq<T::Model> {
    Seq::new(v.len(), |i: int| v[i].model())
}

/// The items of a list from `p` on, behind those in `acc`. A lenient reader
/// drops items whose variant it does not know.
pub open spec fn items_from<T: Wire>(
    s: Seq<u8>,
    lenient: bool,
    acc: Seq<T::Model>,
    left: Option<u64>,
    p: int,
) -> Found<Seq<T::Model>>
    decreases s.len() - p,
{
    match more_at(s, left, p) {
        Err(e) => Err(e),
        Ok(false) => Ok((acc, close(left, p))),
        Ok(true) => match T::found_at(s, p) {
            Ok((m, q)) => if p < q <= s.len() {
                items_from::<T>(s, lenient, acc.push(m), less(left), q)
            } else {
                Err(DecodeError::Malformed)
            },
            Err(e) => if lenient && e is UnknownVariant {
                match skip_at(s, p) {
                    Ok(q) => if p < q <= s.len() {
                        items_from::<T>(s, lenient, acc, less(left), q)
                    } else {
                        Err(DecodeError::Malformed)
                    },
                    Err(e) => Err(e),
                }
            } else {
                Err(e)
            },
        },
    }
}

/// The list at `p`.
pub open spec fn items_at<T: Wire>(s: Seq<u8>, lenient: bool, p: int) -> Found<Seq<T::Model>> {
    match list_at(s, p) {
        Ok((left, q)) => items_from::<T>(s, lenient, Seq::empty(), left, q),
        Err(e) => Err(e),
    }
}

/// The bytes of a run of items.
pub open spec fn run_bytes<T: Wire>(ms: Seq<T::Model>) -> Seq<u8>
    decreases ms.len(),
{
    if ms.len() == 0 {
        Seq::empty()
    } else {
        run_bytes::<T>(ms.drop_last()) + T::bytes_of(ms.last())
    }
}

pub open spec fn items_bytes<T: Wire>(ms: Seq<T::Model>) -> Seq<u8> {
    list_head(ms.len()) + run_bytes::<T>(ms)
}

pub open spec fn items_fit<T: Wire>(ms: Seq<T::Model>) -> bool {
    ms.len() <= u64::MAX && forall|i: int| 0 <= i < ms.len() ==> T::fits(#[trigger] ms[i])
}

fn get_items<T: Get>(s: &[u8], lenient: bool, p: usize) -> (res: Result<(Vec<T>, usize), DecodeError>)
    ensures
        match (res, items_at::<T>(s@, lenient, p as int)) {
            (Ok((v, end)), Ok((ms, e))) => models(v@) == ms && end == e && p < e <= s@.len(),
            (Err(a), Err(b)) => a == b,
            _ => false,
        },
{
    let len: usize = s.len();
    let (start, at): (Option<u64>, usize) = match get_list(s, p) {
        Ok(x) => x,
        Err(e) => return Err(e),
    };
    let mut left: Option<u64> = start;
    let mut q: usize = at;
    let mut out: Vec<T> = Vec::new();
    proof {
        assert(models(out@) =~= Seq::<T::Model>::empty());
    }
    loop
        invariant
            p < q <= len == s@.len(),
            items_at::<T>(s@, lenient, p as int) == items_from::<T>(s@, lenient, models(out@), left, q as int),
        decreases len - q,
    {
        match get_more(s, left, q) {
            Err(e) => return Err(e),
            Ok(false) => {
                return match left {
                    Some(_) => Ok((out, q)),
                    None => Ok((out, q + 1)),
                };
            },
            Ok(true) => {},
        }
        match T::get(s, q) {
            Ok((v, end)) => {
                let ghost before = out@;
                out.push(v);
                proof {
                    assert(models(out@) =~= models(before).push(v.model()));
                }
                left = one_less(left);
                q = end;
            },
            Err(e) => {
                if !lenient || !e.is_unknown_variant() {
                    return Err(e);
                }
                match skip_item(s, q) {
                    Ok(end) => {
                        left = one_less(left);
                        q = end;
                    },
                    Err(e) => return Err(e),
                }
            },
        }
    }
}

fn put_items<T: Put>(v: &Vec<T>, out: &mut Vec<u8>)
    ensures
        final(out)@ == old(out)@ + items_bytes::<T>(models(v@)),
{
    let n: usize = v.len();
    put_list(out, n as u64);
    let ghost ms = models(v@);
    let ghost before = out@;
    proof {
        assert(run_bytes::<T>(ms.take(0)) =~= Seq::<u8>::empty());
    }
    for i in 0..n
        invariant
            n == v@.len(),
            ms == models(v@),
            out@ == before + run_bytes::<T>(ms.take(i as int)),
    {
        let ghost prev = out@;
        v[i].put(out);
        proof {
            let t = ms.take(i + 1);
            assert(t.drop_last() =~= ms.take(i as int));
            assert(t.last() == v@[i as int].model());
            assert(out@ =~= before + run_bytes::<T>(t));
        }
    }
    proof {
        assert(ms.take(n as int) =~= ms);
        assert(out@ =~= old(out)@ + items_bytes::<T>(ms));
    }
}

/// The first item of a run stands at its start.
proof fn lemma_run_first<T: Wire>(ms: Seq<T::Model>)
    requires
        ms.len() > 0,
    ensures
        run_bytes::<T>(ms) == T::bytes_of(ms[0]) + run_bytes::<T>(ms.skip(1)),
    decreases ms.len(),
{
    if ms.len() == 1 {
        assert(ms.drop_last() =~= Seq::empty());
        assert(ms.skip(1) =~= Seq::empty());
        assert(run_bytes::<T>(ms) =~= T::bytes_of(ms[0]) + run_bytes::<T>(ms.skip(1)));
    } else {
        lemma_run_first::<T>(ms.drop_last());
        assert(ms.drop_last().skip(1) =~= ms.skip(1).drop_last());
        assert(ms.skip(1).last() == ms.last());
        assert(run_bytes::<T>(ms) =~= T::bytes_of(ms[0]) + run_bytes::<T>(ms.skip(1)));
    }
}

proof fn lemma_items_from<T: Wire>(
    s: Seq<u8>,
    lenient: bool,
    acc: Seq<T::Model>,
    ms: Seq<T::Model>,
    p: int,
    tail: Seq<u8>,
)
    requires
        items_fit::<T>(ms),
        stands(s, p, run_bytes::<T>(ms), tail),
    ensures
        items_from::<T>(s, lenient, acc, Some(ms.len() as u64), p) == Ok::<(Seq<T::Model>, int), DecodeError>(
            (acc + ms, p + run_bytes::<T>(ms).len()),
        ),
    decreases ms.len(),
{
    if ms.len() == 0 {
        assert(acc + ms =~= acc);
    } else {
        lemma_run_first::<T>(ms);
        let a = T::bytes_of(ms[0]);
        let b = run_bytes::<T>(ms.skip(1));
        assert(T::fits(ms[0]));
        lemma_pair(s, p, a, b, tail);
        T::round_trip(ms[0], s, p, b + tail);
        lemma_behind(s, p, a, b + tail);
        assert forall|i: int| 0 <= i < ms.skip(1).len() implies T::fits(#[trigger] ms.skip(1)[i]) by {
            assert(T::fits(ms[i + 1]));
        }
        lemma_items_from::<T>(s, lenient, acc.push(ms[0]), ms.skip(1), p + a.len(), tail);
        assert(acc.push(ms[0]) + ms.skip(1) =~= acc + ms);
    }
}

/// A list that was written is read back, by a strict and a lenient reader.
pub proof fn lemma_items_round_trip<T: Wire>(lenient: bool, ms: Seq<T::Model>, s: Seq<u8>, p: int, tail: Seq<u8>)
    requires
        items_fit::<T>(ms),
        stands(s, p, items_bytes::<T>(ms), tail),
    ensures
        items_at::<T>(s, lenient, p) == Ok::<(Seq<T::Model>, int), DecodeError>(
            (ms, p + items_bytes::<T>(ms).len()),
        ),
        stands(s, p + items_bytes::<T>(ms).len(), Seq::empty(), tail),
        items_bytes::<T>(ms).len() > 0,
        items_bytes::<T>(ms)[0] / 32 == 4,
{
    let h = list_head(ms.len());
    let b = run_bytes::<T>(ms);
    lemma_pair(s, p, h, b, tail);
    lemma_list_round_trip(s, p, ms.len() as u64, b + tail);
    lemma_behind(s, p, h, b + tail);
    lemma_items_from::<T>(s, lenient, Seq::empty(), ms, p + h.len(), tail);
    assert(Seq::<T::Model>::empty() + ms =~= ms);
    lemma_behind(s, p + h.len(), b, tail);
    assert(Seq::<u8>::empty() + tail =~= tail);
    assert(items_bytes::<T>(ms)[0] == h[0]);
}

impl<T: Wire> Wire for Vec<T> {
    type Model = Seq<T::Model>;

    open spec fn model(&self) -> Self::Model {
        models(self@)
    }

    open spec fn bytes_of(m: Self::Model) -> Seq<u8> {
        items_bytes::<T>(m)
    }

    open spec fn fits(m: Self::Model) -> bool {
        items_fit::<T>(m)
    }

    open spec fn found_at(s: Seq<u8>, p: int) -> Found<Self::Model> {
        items_at::<T>(s, false, p)
    }

    open spec fn nil() -> Option<Self::Model> {
        None
    }

    proof fn round_trip(m: Self::Model, s: Seq<u8>, p: int, tail: Seq<u8>) {
        lemma_items_round_trip::<T>(false, m, s, p, tail);
    }
}

impl<T: Put> Put for Vec<T> {
    fn put(&self, out: &mut Vec<u8>) {
        put_items(self, out)
    }

    fn is_nil(&self) -> (yes: bool) {
        false
    }
}

impl<T: Get> Get for Vec<T> {
    fn get(s: &[u8], p: usize) -> (res: Result<(Self, usize), DecodeError>) {
        get_items(s, false, p)
    }

    fn absent() -> (v: Option<Self>) {
        None
    }
}

/// Reads a list, dropping entries whose enum variant this build does not
/// know. Used where a peer describes itself before any features are agreed,
/// so a newer peer's additions cannot make the whole message fail.
pub fn known<T: Get>(s: &[u8], p: usize) -> (res: Result<(Vec<T>, usize), DecodeError>)
    ensures
        read(res, p as int, s@.len(), items_at::<T>(s@, true, p as int)),
{
    get_items(s, true, p)
}

/// What stands at `p` for an optional value: a null, or a value this build
/// does not know, is none.
pub open spec fn optional_at<T: Wire>(s: Seq<u8>, p: int) -> Found<Option<T::Model>> {
    if !(0 <= p < s.len()) {
        Err(DecodeError::Malformed)
    } else if s[p] == 0xf6 {
        Ok((None, p + 1))
    } else {
        match T::found_at(s, p) {
            Ok((m, end)) => Ok((Some(m), end)),
            Err(e) => if e is UnknownVariant {
                match skip_at(s, p) {
                    Ok(end) => Ok((None, end)),
                    Err(e) => Err(e),
                }
            } else {
                Err(e)
            },
        }
    }
}

/// Reads an optional enum field, taking a value this build does not know as
/// `None`.
pub fn optional<T: Get>(s: &[u8], p: usize) -> (res: Result<(Option<T>, usize), DecodeError>)
    ensures
        read(res, p as int, s@.len(), optional_at::<T>(s@, p as int)),
{
    let len: usize = s.len();
    if p >= len {
        return Err(DecodeError::Malformed);
    }
    if s[p] == 0xf6 {
        return Ok((None, p + 1));
    }
    match T::get(s, p) {
        Ok((v, end)) => Ok((Some(v), end)),
        Err(e) => {
            if !e.is_unknown_variant() {
                return Err(e);
            }
            match skip_item(s, p) {
                Ok(end) => Ok((None, end)),
                Err(e) => Err(e),
            }
        },
    }
}

/// The value of an absent [`optional`] field.
pub fn none<T>() -> (v: Option<Option<T>>)
    ensures
        v == Some(None::<T>),
{
    Some(None)
}

/// A list that is read with [`known`].
#[derive(Debug)]
pub struct Known<T> {
    pub items: Vec<T>,
}

impl<T: Wire> Wire for Known<T> {
    type Model = Seq<T::Model>;

    open spec fn model(&self) -> Self::Model {
        models(self.items@)
    }

    open spec fn bytes_of(m: Self::Model) -> Seq<u8> {
        items_bytes::<T>(m)
    }

    open spec fn fits(m: Self::Model) -> bool {
        items_fit::<T>(m)
    }

    open spec fn found_at(s: Seq<u8>, p: int) -> Found<Self::Model> {
        items_at::<T>(s, true, p)
    }

    open spec fn nil() -> Option<Self::Model> {
        None
    }

    proof fn round_trip(m: Self::Model, s: Seq<u8>, p: int, tail: Seq<u8>) {
        lemma_items_round_trip::<T>(true, m, s, p, tail);
    }
}

impl<T: Get> Get for Known<T> {
    fn get(s: &[u8], p: usize) -> (res: Result<(Self, usize), DecodeError>) {
        match known(s, p) {
            Ok((items, end)) => Ok((Known { items }, end)),
            Err(e) => Err(e),
        }
    }

    fn absent() -> (v: Option<Self>) {
        None
    }
}

/// A value that is read with [`optional`].
#[derive(Debug)]
pub struct Maybe<T> {
    pub value: Option<T>,
}

impl<T: Wire> Wire for Maybe<T> {
    type Model = Option<T::Model>;

    open spec fn model(&self) -> Self::Model {
        self.value.model()
    }

    open spec fn bytes_of(m: Self::Model) -> Seq<u8> {
        option_bytes::<T>(m)
    }

    open spec fn fits(m: Self::Model) -> bool {
        T::nil() is None && (m matches Some(v) ==> T::fits(v))
    }

    open spec fn found_at(s: Seq<u8>, p: int) -> Found<Self::Model> {
        optional_at::<T>(s, p)
    }

    open spec fn nil() -> Option<Self::Model> {
        Some(None)
    }

    proof fn round_trip(m: Self::Model, s: Seq<u8>, p: int, tail: Seq<u8>) {
        lemma_behind(s, p, option_bytes::<T>(m), tail);
        match m {
            Some(v) => T::round_trip(v, s, p, tail),
            None => assert(Seq::<u8>::empty() + tail =~= tail),
        }
    }
}

impl<T: Get> Get for Maybe<T> {
    fn get(s: &[u8], p: usize) -> (res: Result<(Self, usize), DecodeError>) {
        match optional(s, p) {
            Ok((value, end)) => Ok((Maybe { value }, end)),
            Err(e) => Err(e),
        }
    }

    fn absent() -> (v: Option<Self>) {
        match none() {
            Some(value) => Some(Maybe { value }),
            None => None,
        }
    }
}

} // verus!
