//! H.264 header syntax from the writer's side: how fields are coded as bits,
//! and that what is written so is read back.

use super::bits::{
    bit_at, bits_value, is_escape, law_ue_reads_every_code, read_bit, read_bits, read_se, read_ue, unescaped,
    unescaped_prefix,
};
use crate::error::Error;
use vstd::arithmetic::power2::{lemma2_to64, lemma_pow2_strictly_increases, lemma_pow2_unfold, pow2};
use vstd::prelude::*;

verus! {

/// A number in `n` bits, the highest first.
pub open spec fn fixed(v: nat, n: nat) -> Seq<bool>
    decreases n,
{
    if n == 0 {
        Seq::empty()
    } else {
        fixed(v / 2, (n - 1) as nat).push(v % 2 == 1)
    }
}

/// How many binary digits a number has.
pub open spec fn digits(m: nat) -> nat
    decreases m,
{
    if m < 2 {
        1
    } else {
        1 + digits(m / 2)
    }
}

/// The Exp-Golomb code of `v`: `v + 1` in binary, behind one zero for each of
/// its digits but one.
#[verifier::opaque]
pub open spec fn unsigned(v: nat) -> Seq<bool> {
    fixed(v + 1, (2 * digits(v + 1) - 1) as nat)
}

/// The code of a signed number: positive ones have the odd codes.
#[verifier::opaque]
pub open spec fn signed(v: int) -> Seq<bool> {
    if v > 0 {
        unsigned((2 * v - 1) as nat)
    } else {
        unsigned((-2 * v) as nat)
    }
}

/// A single bit.
pub open spec fn flag(b: bool) -> Seq<bool> {
    seq![b]
}

/// Bits that are written only under a condition.
pub open spec fn only_if(cond: bool, bits: Seq<bool>) -> Seq<bool> {
    if cond {
        bits
    } else {
        Seq::empty()
    }
}

/// Whether these bits stand in `data` from `pos` on.
#[verifier::opaque]
pub open spec fn stands(data: Seq<u8>, pos: int, bits: Seq<bool>) -> bool {
    &&& 0 <= pos
    &&& pos + bits.len() <= 8 * data.len()
    &&& forall|i: int| 0 <= i < bits.len() ==> bit_at(data, pos + i) == #[trigger] bits[i]
}

/// Bits that follow each other stand behind each other.
pub proof fn lemma_cat(data: Seq<u8>, pos: int, a: Seq<bool>, b: Seq<bool>)
    requires
        stands(data, pos, a + b),
    ensures
        stands(data, pos, a),
        stands(data, pos + a.len(), b),
        (a + b).len() == a.len() + b.len(),
{
    reveal(stands);
    assert forall|i: int| 0 <= i < a.len() implies bit_at(data, pos + i) == #[trigger] a[i] by {
        assert((a + b)[i] == a[i]);
    }
    assert forall|i: int| 0 <= i < b.len() implies bit_at(data, pos + a.len() + i) == #[trigger] b[i] by {
        assert((a + b)[a.len() + i] == b[i]);
    }
}

/// A byte is the number its eight bits write, the highest first.
pub proof fn law_bytes_stand_highest_bit_first(data: Seq<u8>, i: int)
    requires
        0 <= i < data.len(),
    ensures
        ({
            let b = |k: int| if bit_at(data, 8 * i + k) {
                1int
            } else {
                0
            };
            data[i] == 128 * b(0) + 64 * b(1) + 32 * b(2) + 16 * b(3) + 8 * b(4) + 4 * b(5) + 2 * b(6) + b(7)
        }),
{
    reveal(bit_at);
    let x = data[i];
    assert forall|k: int| 0 <= k < 8 implies #[trigger] bit_at(data, 8 * i + k) == ((x >> ((7 - k) as u8)) & 1u8
        == 1u8) by {
        assert((8 * i + k) / 8 == i && (8 * i + k) % 8 == k);
    }
    assert(x == 128 * ((x >> 7u8) & 1u8) + 64 * ((x >> 6u8) & 1u8) + 32 * ((x >> 5u8) & 1u8) + 16 * ((x >> 4u8) & 1u8)
        + 8 * ((x >> 3u8) & 1u8) + 4 * ((x >> 2u8) & 1u8) + 2 * ((x >> 1u8) & 1u8) + ((x >> 0u8) & 1u8))
        by (bit_vector);
    assert((x >> 7u8) & 1u8 <= 1 && (x >> 6u8) & 1u8 <= 1 && (x >> 5u8) & 1u8 <= 1 && (x >> 4u8) & 1u8 <= 1 && (x
        >> 3u8)
        & 1u8 <= 1 && (x >> 2u8) & 1u8 <= 1 && (x >> 1u8) & 1u8 <= 1 && (x >> 0u8) & 1u8 <= 1) by (bit_vector);
    assert(bit_at(data, 8 * i + 0) == ((x >> 7u8) & 1u8 == 1u8));
    assert(bit_at(data, 8 * i + 1) == ((x >> 6u8) & 1u8 == 1u8));
    assert(bit_at(data, 8 * i + 2) == ((x >> 5u8) & 1u8 == 1u8));
    assert(bit_at(data, 8 * i + 3) == ((x >> 4u8) & 1u8 == 1u8));
    assert(bit_at(data, 8 * i + 4) == ((x >> 3u8) & 1u8 == 1u8));
    assert(bit_at(data, 8 * i + 5) == ((x >> 2u8) & 1u8 == 1u8));
    assert(bit_at(data, 8 * i + 6) == ((x >> 1u8) & 1u8 == 1u8));
    assert(bit_at(data, 8 * i + 7) == ((x >> 0u8) & 1u8 == 1u8));
}

pub proof fn lemma_fixed_len(v: nat, n: nat)
    ensures
        fixed(v, n).len() == n,
    decreases n,
{
    if n > 0 {
        lemma_fixed_len(v / 2, (n - 1) as nat);
    }
}

proof fn lemma_fixed_value(data: Seq<u8>, pos: int, v: nat, n: nat)
    requires
        stands(data, pos, fixed(v, n)),
        v < pow2(n),
    ensures
        bits_value(data, pos, n) == v,
    decreases n,
{
    reveal(stands);
    if n == 0 {
        lemma2_to64();
    } else {
        let front = fixed(v / 2, (n - 1) as nat);
        lemma_fixed_len(v / 2, (n - 1) as nat);
        assert(fixed(v, n) =~= front + seq![v % 2 == 1]);
        lemma_cat(data, pos, front, seq![v % 2 == 1]);
        lemma_pow2_unfold(n);
        lemma_fixed_value(data, pos, v / 2, (n - 1) as nat);
        assert(seq![v % 2 == 1][0] == (v % 2 == 1));
        assert(bit_at(data, pos + (n - 1) + 0) == seq![v % 2 == 1][0]);
    }
}

/// A number in a field of `n` bits is read back from it, and the reader
/// stands behind the field.
pub proof fn law_fixed_fields_read_back(data: Seq<u8>, pos: int, v: u32, n: u32)
    requires
        n <= 32,
        v < pow2(n as nat),
        stands(data, pos, fixed(v as nat, n as nat)),
    ensures
        read_bits(data, pos, n) == (Ok::<u32, Error>(v), pos + n),
        fixed(v as nat, n as nat).len() == n,
{
    reveal(stands);
    lemma_fixed_len(v as nat, n as nat);
    lemma_fixed_value(data, pos, v as nat, n as nat);
}

proof fn lemma_digits(m: nat)
    requires
        m >= 1,
    ensures
        digits(m) >= 1,
        pow2((digits(m) - 1) as nat) <= m < pow2(digits(m)),
    decreases m,
{
    lemma2_to64();
    if m >= 2 {
        lemma_digits(m / 2);
        lemma_pow2_unfold(digits(m));
        lemma_pow2_unfold((digits(m) - 1) as nat);
    }
}

/// Every unsigned code is read back, and the reader stands behind it.
pub proof fn law_unsigned_codes_read_back(data: Seq<u8>, pos: int, v: u32)
    requires
        v < u32::MAX,
        stands(data, pos, unsigned(v as nat)),
    ensures
        read_ue(data, pos) == (Ok::<u32, Error>(v), pos + unsigned(v as nat).len()),
{
    reveal(stands);
    reveal(unsigned);
    let m = v as nat + 1;
    lemma_digits(m);
    lemma2_to64();
    let z = (digits(m) - 1) as nat;
    if z > 31 {
        if z > 32 {
            lemma_pow2_strictly_increases(32, z);
        }
    }
    lemma_fixed_len(m, 2 * z + 1);
    if z > 0 {
        lemma_pow2_strictly_increases(z + 1, 2 * z + 1);
    }
    lemma_fixed_value(data, pos, m, 2 * z + 1);
    law_ue_reads_every_code(data, pos, v, z);
}

/// Every signed code is read back, and the reader stands behind it.
pub proof fn law_signed_codes_read_back(data: Seq<u8>, pos: int, v: i32)
    requires
        v > i32::MIN,
        stands(data, pos, signed(v as int)),
    ensures
        read_se(data, pos) == (Ok::<i32, Error>(v), pos + signed(v as int).len()),
{
    reveal(signed);
    let k: u32 = if v > 0 {
        (2 * v - 1) as u32
    } else {
        (-2 * v) as u32
    };
    law_unsigned_codes_read_back(data, pos, k);
}

/// A bit is read back.
pub proof fn law_flags_read_back(data: Seq<u8>, pos: int, b: bool)
    requires
        stands(data, pos, flag(b)),
    ensures
        read_bit(data, pos) == (Ok::<bool, Error>(b), pos + 1),
{
    reveal(stands);
    assert(flag(b)[0] == b);
    assert(bit_at(data, pos + 0) == b);
}

/// The first `n` bytes of a payload as they stand in a unit: where two zeros
/// would be followed by a byte of at most 3, a 3 is put in between.
pub open spec fn escaped(payload: Seq<u8>, n: int) -> Seq<u8>
    decreases n,
{
    if n <= 0 {
        Seq::empty()
    } else {
        let before = escaped(payload, n - 1);
        let m = before.len() as int;
        if m >= 2 && before[m - 1] == 0 && before[m - 2] == 0 && payload[n - 1] <= 3 {
            before.push(3).push(payload[n - 1])
        } else {
            before.push(payload[n - 1])
        }
    }
}

proof fn lemma_unescaped_front(a: Seq<u8>, b: Seq<u8>, n: int)
    requires
        0 <= n <= a.len(),
        n <= b.len(),
        forall|i: int| 0 <= i < n ==> a[i] == b[i],
    ensures
        unescaped_prefix(a, n) == unescaped_prefix(b, n),
    decreases n,
{
    if n > 0 {
        lemma_unescaped_front(a, b, n - 1);
        assert(is_escape(a, n - 1) == is_escape(b, n - 1));
    }
}

proof fn lemma_escape(payload: Seq<u8>, n: int)
    requires
        0 <= n <= payload.len(),
    ensures
        unescaped(escaped(payload, n)) == payload.take(n),
    decreases n,
{
    if n > 0 {
        lemma_escape(payload, n - 1);
        let before = escaped(payload, n - 1);
        let m = before.len() as int;
        let now = escaped(payload, n);
        lemma_unescaped_front(before, now, m);
        assert(payload.take(n) =~= payload.take(n - 1).push(payload[n - 1]));
        if now.len() == m + 2 {
            assert(is_escape(now, m));
            assert(!is_escape(now, m + 1));
            assert(unescaped_prefix(now, m + 1) == unescaped_prefix(now, m));
        } else {
            assert(!is_escape(now, m));
        }
    } else {
        assert(payload.take(0) =~= Seq::empty());
    }
}

/// A payload is got back from the unit it was put in.
pub proof fn law_escapes_are_taken_out(payload: Seq<u8>)
    ensures
        unescaped(escaped(payload, payload.len() as int)) == payload,
{
    lemma_escape(payload, payload.len() as int);
    assert(payload.take(payload.len() as int) =~= payload);
}

proof fn lemma_unescaped_same(unit: Seq<u8>, n: int)
    requires
        0 <= n <= unit.len(),
        forall|i: int| 0 <= i < n ==> !#[trigger] is_escape(unit, i),
    ensures
        unescaped_prefix(unit, n) == unit.take(n),
    decreases n,
{
    if n > 0 {
        lemma_unescaped_same(unit, n - 1);
        assert(!is_escape(unit, n - 1));
        assert(unit.take(n) =~= unit.take(n - 1).push(unit[n - 1]));
    } else {
        assert(unit.take(0) =~= Seq::empty());
    }
}

/// A unit in which no 3 stands behind two zeros is its own payload.
pub proof fn law_plain_units_stay(unit: Seq<u8>)
    requires
        forall|i: int| 2 <= i < unit.len() && unit[i - 2] == 0 && unit[i - 1] == 0 ==> #[trigger] unit[i] != 3,
    ensures
        unescaped(unit) == unit,
{
    assert forall|i: int| 0 <= i < unit.len() implies !#[trigger] is_escape(unit, i) by {
        assert(unit[i] == unit[i]);
    }
    lemma_unescaped_same(unit, unit.len() as int);
    assert(unit.take(unit.len() as int) =~= unit);
}

} // verus!
