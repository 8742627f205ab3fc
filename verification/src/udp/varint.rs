//! Postcard's variable-length integers: seven bits per byte, lowest first,
//! the top bit set on every byte but the last.

use vstd::prelude::*;

verus! {

/// The bytes `v` is written as.
pub open spec fn varint(v: nat) -> Seq<u8>
    decreases v,
{
    if v < 128 {
        seq![v as u8]
    } else {
        seq![(128 + v % 128) as u8] + varint(v / 128)
    }
}

/// The number at the start of `s` and how many bytes it takes. A number of at
/// most `max_len` bytes is accepted, whose byte at that length, if it gets
/// there, is at most `last`.
pub open spec fn read_varint(s: Seq<u8>, max_len: nat, last: u8) -> Option<(nat, nat)>
    decreases max_len,
{
    if max_len == 0 || s.len() == 0 {
        None
    } else if s[0] < 128 {
        if max_len == 1 && s[0] > last {
            None
        } else {
            Some((s[0] as nat, 1nat))
        }
    } else {
        match read_varint(s.skip(1), (max_len - 1) as nat, last) {
            None => None,
            Some((v, n)) => Some(((s[0] - 128 + 128 * v) as nat, n + 1)),
        }
    }
}

/// A 16-bit number at the start of `s`.
pub open spec fn read_u16(s: Seq<u8>) -> Option<(nat, nat)> {
    read_varint(s, 3, 3)
}

/// A 32-bit number at the start of `s`.
pub open spec fn read_u32(s: Seq<u8>) -> Option<(nat, nat)> {
    read_varint(s, 5, 15)
}

/// A 64-bit number at the start of `s`.
pub open spec fn read_u64(s: Seq<u8>) -> Option<(nat, nat)> {
    read_varint(s, 10, 1)
}

/// A truth value at the start of `s`: one byte, 0 or 1.
pub open spec fn read_bool(s: Seq<u8>) -> Option<(bool, nat)> {
    if s.len() == 0 || s[0] > 1 {
        None
    } else {
        Some((s[0] == 1, 1nat))
    }
}

/// A length at the start of `s`, as wide as the machine's addresses.
pub open spec fn read_len(s: Seq<u8>) -> Option<(nat, nat)> {
    if usize::BITS == 64 {
        read_u64(s)
    } else {
        read_u32(s)
    }
}

/// `n` 16-bit numbers in a row at `at` in `s`, behind `list`.
pub open spec fn read_u16s_rest(s: Seq<u8>, at: nat, n: nat, list: Seq<u16>) -> Option<(Seq<u16>, nat)>
    decreases n,
{
    if n == 0 {
        Some((list, at))
    } else {
        match read_u16(s.skip(at as int)) {
            None => None,
            Some((v, k)) => read_u16s_rest(s, at + k, (n - 1) as nat, list.push(v as u16)),
        }
    }
}

/// A list of 16-bit numbers at the start of `s`: its length and its entries.
pub open spec fn read_u16s(s: Seq<u8>) -> Option<(Seq<u16>, nat)> {
    match read_len(s) {
        None => None,
        Some((n, k)) => read_u16s_rest(s, k, n, Seq::empty()),
    }
}

/// Calls `postcard::to_stdvec` on a `u64`: the number as a varint, which is
/// also how postcard writes the same number of a narrower unsigned type, a
/// length, a truth value or an option's mark.
#[verifier::external_body]
pub(crate) fn write_u64(v: u64) -> (out: Vec<u8>)
    ensures
        out@ == varint(v as nat),
{
    postcard::to_stdvec(&v).expect("an integer serialises")
}

/// Calls `postcard::take_from_bytes` for a `u64`: the number and the bytes it
/// took, or `None` where postcard reports an error.
#[verifier::external_body]
pub(crate) fn take_u64(s: &[u8]) -> (res: Option<(u64, usize)>)
    ensures
        match (res, read_u64(s@)) {
            (Some((v, n)), Some((w, m))) => v == w && n == m && n <= s@.len(),
            (None, None) => true,
            _ => false,
        },
{
    let (v, rest) = postcard::take_from_bytes::<u64>(s).ok()?;
    Some((v, s.len() - rest.len()))
}

/// Calls `postcard::take_from_bytes` for a `u32`.
#[verifier::external_body]
pub(crate) fn take_u32(s: &[u8]) -> (res: Option<(u32, usize)>)
    ensures
        match (res, read_u32(s@)) {
            (Some((v, n)), Some((w, m))) => v == w && n == m && n <= s@.len(),
            (None, None) => true,
            _ => false,
        },
{
    let (v, rest) = postcard::take_from_bytes::<u32>(s).ok()?;
    Some((v, s.len() - rest.len()))
}

/// Calls `postcard::take_from_bytes` for a `u16`.
#[verifier::external_body]
pub(crate) fn take_u16(s: &[u8]) -> (res: Option<(u16, usize)>)
    ensures
        match (res, read_u16(s@)) {
            (Some((v, n)), Some((w, m))) => v == w && n == m && n <= s@.len(),
            (None, None) => true,
            _ => false,
        },
{
    let (v, rest) = postcard::take_from_bytes::<u16>(s).ok()?;
    Some((v, s.len() - rest.len()))
}

/// Calls `postcard::take_from_bytes` for a `bool`, which reads a byte that is
/// 0 or 1, as it does for the mark of an option.
#[verifier::external_body]
pub(crate) fn take_bool(s: &[u8]) -> (res: Option<(bool, usize)>)
    ensures
        match (res, read_bool(s@)) {
            (Some((v, n)), Some((w, m))) => v == w && n == m && n <= s@.len(),
            (None, None) => true,
            _ => false,
        },
{
    let (v, rest) = postcard::take_from_bytes::<bool>(s).ok()?;
    Some((v, s.len() - rest.len()))
}

/// Calls `postcard::take_from_bytes` for a `Vec<u16>`: a length, then so many
/// numbers.
#[verifier::external_body]
pub(crate) fn take_u16s(s: &[u8]) -> (res: Option<(Vec<u16>, usize)>)
    ensures
        match (res, read_u16s(s@)) {
            (Some((v, n)), Some((w, m))) => v@ == w && n == m && n <= s@.len(),
            (None, None) => true,
            _ => false,
        },
{
    let (v, rest) = postcard::take_from_bytes::<Vec<u16>>(s).ok()?;
    Some((v, s.len() - rest.len()))
}

/// The numbers that fit `max_len` bytes with a last byte of at most `last`
/// lie below this.
pub open spec fn varint_bound(max_len: nat, last: u8) -> nat
    decreases max_len,
{
    if max_len == 0 {
        0
    } else if max_len == 1 {
        (last + 1) as nat
    } else {
        128 * varint_bound((max_len - 1) as nat, last)
    }
}

/// A number below the bound is written in at most `max_len` bytes and read
/// back from them, whatever follows.
pub proof fn lemma_varint_read_back(v: nat, rest: Seq<u8>, max_len: nat, last: u8)
    requires
        max_len >= 1,
        last < 128,
        v < varint_bound(max_len, last),
    ensures
        read_varint(varint(v) + rest, max_len, last) == Some((v, varint(v).len())),
        1 <= varint(v).len() <= max_len,
    decreases max_len,
{
    let s = varint(v) + rest;
    if v < 128 {
        assert(s[0] == v as u8);
    } else {
        assert(max_len >= 2);
        assert(s.skip(1) =~= varint(v / 128) + rest);
        assert(s[0] == (128 + v % 128) as u8);
        lemma_varint_read_back(v / 128, rest, (max_len - 1) as nat, last);
    }
}

/// The bounds of the three widths.
pub proof fn lemma_varint_bounds()
    ensures
        varint_bound(3, 3) == 0x1_0000,
        varint_bound(5, 15) == 0x1_0000_0000,
        varint_bound(10, 1) == 0x1_0000_0000_0000_0000,
{
    reveal_with_fuel(varint_bound, 11);
}

/// Numbers are read back from what is written of them: 16, 32 and 64 bits
/// wide, and 0 and 1 as truth values.
pub proof fn law_varint_round_trip(v: u64, rest: Seq<u8>)
    ensures
        read_u64(varint(v as nat) + rest) == Some((v as nat, varint(v as nat).len())),
        v <= u32::MAX ==> read_u32(varint(v as nat) + rest) == Some((v as nat, varint(v as nat).len())),
        v <= u16::MAX ==> read_u16(varint(v as nat) + rest) == Some((v as nat, varint(v as nat).len())),
        v <= 1 ==> read_bool(varint(v as nat) + rest) == Some((v == 1, varint(v as nat).len())),
        1 <= varint(v as nat).len() <= 10,
        v <= u32::MAX ==> varint(v as nat).len() <= 5,
        v <= u16::MAX ==> varint(v as nat).len() <= 3,
        v <= 127 ==> varint(v as nat).len() == 1,
{
    lemma_varint_bounds();
    lemma_varint_read_back(v as nat, rest, 10, 1);
    if v <= u32::MAX {
        lemma_varint_read_back(v as nat, rest, 5, 15);
    }
    if v <= u16::MAX {
        lemma_varint_read_back(v as nat, rest, 3, 3);
    }
}

/// What a number is read from starts with the bytes it took.
pub proof fn lemma_read_varint_len(s: Seq<u8>, max_len: nat, last: u8)
    ensures
        read_varint(s, max_len, last) matches Some((_, n)) ==> 1 <= n <= s.len() && n <= max_len,
    decreases max_len,
{
    if max_len > 0 && s.len() > 0 && s[0] >= 128 {
        lemma_read_varint_len(s.skip(1), (max_len - 1) as nat, last);
    }
}

/// The number that bytes hold, the lowest seven bits of each counting, the
/// first the least.
pub open spec fn sevens(s: Seq<u8>) -> nat
    decreases s.len(),
{
    if s.len() == 0 {
        0
    } else {
        s[0] as nat % 128 + 128 * sevens(s.skip(1))
    }
}

/// Whether bytes are one number: the highest bit of each tells whether another
/// follows.
pub open spec fn ends_once(s: Seq<u8>) -> bool {
    s.len() > 0 && s.last() < 128 && forall|i: int| 0 <= i < s.len() - 1 ==> #[trigger] s[i] >= 128
}

/// A number is written seven bits a byte, in no more bytes than it needs.
pub proof fn law_numbers_take_seven_bits_a_byte(v: nat)
    ensures
        sevens(varint(v)) == v,
        ends_once(varint(v)),
        varint(v).len() > 1 ==> varint(v).last() != 0,
    decreases v,
{
    reveal_with_fuel(sevens, 2);
    let s = varint(v);
    if v >= 128 {
        law_numbers_take_seven_bits_a_byte(v / 128);
        let rest = varint(v / 128);
        assert(s.skip(1) =~= rest);
        assert(s.last() == rest.last());
        if rest.len() == 1 {
            assert(rest[0] == sevens(rest)) by {
                assert(rest.skip(1).len() == 0);
            }
        }
        assert forall|i: int| 0 <= i < s.len() - 1 implies #[trigger] s[i] >= 128 by {
            if i > 0 {
                assert(s[i] == rest[i - 1]);
            }
        }
    } else {
        assert(s.skip(1).len() == 0);
    }
}

proof fn lemma_read_is_sevens(s: Seq<u8>, max_len: nat, last: u8)
    requires
        last < 128,
    ensures
        read_varint(s, max_len, last) matches Some((v, n)) ==> 1 <= n <= s.len() && n <= max_len && v == sevens(
            s.take(n as int),
        ) && ends_once(s.take(n as int)) && v < varint_bound(max_len, last),
    decreases max_len,
{
    reveal_with_fuel(sevens, 2);
    lemma_read_varint_len(s, max_len, last);
    if let Some((v, n)) = read_varint(s, max_len, last) {
        let t = s.take(n as int);
        if s[0] < 128 {
            assert(t.skip(1).len() == 0);
            if max_len > 1 {
                lemma_bound_grows((max_len - 1) as nat, last);
            }
        } else {
            let rest = s.skip(1);
            lemma_read_is_sevens(rest, (max_len - 1) as nat, last);
            let u = rest.take(n - 1);
            assert(t.skip(1) =~= u);
            assert(t.last() == u.last());
            assert forall|i: int| 0 <= i < t.len() - 1 implies #[trigger] t[i] >= 128 by {
                if i > 0 {
                    assert(t[i] == u[i - 1]);
                }
            }
        }
    }
}

proof fn lemma_bound_grows(max_len: nat, last: u8)
    requires
        max_len >= 1,
    ensures
        varint_bound(max_len, last) >= 1,
    decreases max_len,
{
    if max_len > 1 {
        lemma_bound_grows((max_len - 1) as nat, last);
    }
}

/// A number that is read is the one that its bytes hold, up to the first that
/// says it is the last, and fits its width.
pub proof fn law_numbers_are_read_as_written(s: Seq<u8>)
    ensures
        read_u16(s) matches Some((v, n)) ==> 1 <= n <= s.len() && n <= 3 && v <= 65_535 && v == sevens(
            s.take(n as int),
        ) && ends_once(s.take(n as int)),
        read_u32(s) matches Some((v, n)) ==> 1 <= n <= s.len() && n <= 5 && v <= u32::MAX && v == sevens(
            s.take(n as int),
        ) && ends_once(s.take(n as int)),
        read_u64(s) matches Some((v, n)) ==> 1 <= n <= s.len() && n <= 10 && v <= u64::MAX && v == sevens(
            s.take(n as int),
        ) && ends_once(s.take(n as int)),
        read_bool(s) matches Some((v, n)) ==> n == 1 && s.len() > 0 && s[0] == (if v {
            1u8
        } else {
            0
        }),
{
    lemma_varint_bounds();
    lemma_read_is_sevens(s, 3, 3);
    lemma_read_is_sevens(s, 5, 15);
    lemma_read_is_sevens(s, 10, 1);
}

} // verus!
