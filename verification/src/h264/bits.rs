//! Bit-level reading of H.264 RBSP data (Exp-Golomb codes and fixed fields).

use crate::error::Error;
use vstd::arithmetic::power2::{lemma2_to64, lemma_pow2_pos, lemma_pow2_strictly_increases, lemma_pow2_unfold, pow2};
use vstd::bits::lemma_u32_shl_is_mul;
use vstd::prelude::*;
use vstd::std_specs::bits::{axiom_u8_trailing_zeros, u8_trailing_zeros};

verus! {

/// Whether byte `i` of a NAL unit body is an emulation-prevention byte: a 3
/// behind two zero bytes.
pub open spec fn is_escape(nal: Seq<u8>, i: int) -> bool {
    2 <= i < nal.len() && nal[i] == 3 && nal[i - 1] == 0 && nal[i - 2] == 0
}

/// The first `n` bytes of `nal` without its emulation-prevention bytes.
pub open spec fn unescaped_prefix(nal: Seq<u8>, n: int) -> Seq<u8>
    decreases n,
{
    if n <= 0 {
        Seq::empty()
    } else if is_escape(nal, n - 1) {
        unescaped_prefix(nal, n - 1)
    } else {
        unescaped_prefix(nal, n - 1).push(nal[n - 1])
    }
}

/// `nal` without its emulation-prevention bytes.
pub open spec fn unescaped(nal: Seq<u8>) -> Seq<u8> {
    unescaped_prefix(nal, nal.len() as int)
}

/// Strip emulation-prevention bytes (`00 00 03` -> `00 00`) from a NAL unit
/// body, giving the raw byte sequence payload the header syntax is read from.
pub fn unescape_rbsp(nal: &[u8]) -> (out: Vec<u8>)
    ensures
        out@ == unescaped(nal@),
        out@.len() <= nal@.len(),
{
    let mut out: Vec<u8> = Vec::with_capacity(nal.len());
    let mut zeros: usize = 0;
    for i in 0..nal.len()
        invariant
            out@ == unescaped_prefix(nal@, i as int),
            out@.len() <= i,
            zeros <= i,
            forall|k: int| i - zeros <= k < i ==> nal@[k] == 0,
            zeros < i ==> nal@[i - zeros - 1] != 0,
    {
        let b: u8 = nal[i];
        if zeros >= 2 && b == 3 {
            zeros = 0;
        } else {
            out.push(b);
            zeros = if b == 0 { zeros + 1 } else { 0 };
        }
    }
    out
}

/// Bit `i` of `data`, most significant bit of each byte first.
#[verifier::opaque]
pub open spec fn bit_at(data: Seq<u8>, i: int) -> bool {
    (data[i / 8] >> ((7 - i % 8) as u8)) & 1u8 == 1u8
}

/// The number that the `n` bits from `pos` on write in binary.
pub open spec fn bits_value(data: Seq<u8>, pos: int, n: nat) -> nat
    decreases n,
{
    if n == 0 {
        0
    } else {
        2 * bits_value(data, pos, (n - 1) as nat) + (if bit_at(data, pos + n - 1) { 1nat } else { 0nat })
    }
}

/// How many zero bits stand from `pos` on before a one bit or the end.
pub open spec fn zero_run(data: Seq<u8>, pos: int) -> nat
    decreases 8 * data.len() - pos,
{
    if pos < 0 || pos >= 8 * data.len() || bit_at(data, pos) {
        0
    } else {
        1 + zero_run(data, pos + 1)
    }
}

/// Reading one bit at `pos`: the result and the position after it.
pub open spec fn read_bit(data: Seq<u8>, pos: int) -> (Result<bool, Error>, int) {
    if pos < 8 * data.len() {
        (Ok(bit_at(data, pos)), pos + 1)
    } else {
        (Err(Error::Bitstream("unexpected end of header")), pos)
    }
}

/// Reading an `n`-bit field at `pos`.
pub open spec fn read_bits(data: Seq<u8>, pos: int, n: u32) -> (Result<u32, Error>, int) {
    if n > 32 {
        (Err(Error::Bitstream("field wider than 32 bits")), pos)
    } else if pos + n <= 8 * data.len() {
        (Ok(bits_value(data, pos, n as nat) as u32), pos + n)
    } else {
        (Err(Error::Bitstream("unexpected end of header")), 8 * data.len() as int)
    }
}

/// Reading an unsigned Exp-Golomb code at `pos`: `z` zeros, a one, and `z`
/// bits `r` stand for `2^z - 1 + r`.
#[verifier::opaque]
pub open spec fn read_ue(data: Seq<u8>, pos: int) -> (Result<u32, Error>, int) {
    let z = zero_run(data, pos);
    if z > 31 {
        (Err(Error::Bitstream("Exp-Golomb code too long")), pos + 32)
    } else if pos + z >= 8 * data.len() {
        (Err(Error::Bitstream("unexpected end of header")), 8 * data.len() as int)
    } else {
        match read_bits(data, pos + z + 1, z as u32) {
            (Ok(rest), end) => (Ok((pow2(z) - 1 + rest) as u32), end),
            (Err(e), end) => (Err(e), end),
        }
    }
}

/// The signed value an unsigned Exp-Golomb code number stands for: 0, 1, -1,
/// 2, -2 and so on.
pub open spec fn se_value(k: int) -> int {
    if k % 2 == 1 {
        (k + 1) / 2
    } else {
        -(k / 2)
    }
}

/// Reading a signed Exp-Golomb code at `pos`.
pub open spec fn read_se(data: Seq<u8>, pos: int) -> (Result<i32, Error>, int) {
    match read_ue(data, pos) {
        (Ok(k), end) => (Ok(se_value(k as int) as i32), end),
        (Err(e), end) => (Err(e), end),
    }
}

/// `n` bits write a number below `2^n`.
pub proof fn lemma_bits_value_bound(data: Seq<u8>, pos: int, n: nat)
    ensures
        bits_value(data, pos, n) < pow2(n),
    decreases n,
{
    if n == 0 {
        lemma2_to64();
    } else {
        lemma_bits_value_bound(data, pos, (n - 1) as nat);
        lemma_pow2_unfold(n);
    }
}

/// A run of zeros that starts at `pos` ends within the data.
proof fn lemma_zero_run_bound(data: Seq<u8>, pos: int)
    requires
        0 <= pos <= 8 * data.len(),
    ensures
        pos + zero_run(data, pos) <= 8 * data.len(),
    decreases 8 * data.len() - pos,
{
    if pos < 8 * data.len() && !bit_at(data, pos) {
        lemma_zero_run_bound(data, pos + 1);
    }
}

/// A run of zeros is at least as long as every stretch of zeros at its start.
proof fn lemma_zero_run_split(data: Seq<u8>, pos: int, n: nat)
    requires
        0 <= pos,
        pos + n <= 8 * data.len(),
        forall|i: int| pos <= i < pos + n ==> !bit_at(data, i),
    ensures
        zero_run(data, pos) == n + zero_run(data, pos + n),
    decreases n,
{
    if n > 0 {
        lemma_zero_run_split(data, pos + 1, (n - 1) as nat);
    }
}

/// A zero byte holds no one bit.
proof fn lemma_zero_byte_bits(shift: u8)
    ensures
        (0u8 >> shift) & 1u8 == 0u8,
{
    assert((0u8 >> shift) & 1u8 == 0u8) by (bit_vector);
}

/// Behind the lowest one of the last nonzero byte there are only zeros.
proof fn lemma_last_one(data: Seq<u8>, i: int)
    requires
        0 <= i < data.len(),
        data[i] != 0,
        forall|k: int| i < k < data.len() ==> data[k] == 0,
    ensures
        forall|k: int| i * 8 + 7 - u8_trailing_zeros(data[i]) < k < 8 * data.len() ==> !bit_at(data, k),
{
    reveal(bit_at);
    axiom_u8_trailing_zeros(data[i]);
    assert forall|k: int| i * 8 + 7 - u8_trailing_zeros(data[i]) < k < 8 * data.len() implies !bit_at(
        data,
        k,
    ) by {
        if k / 8 > i {
            lemma_zero_byte_bits((7 - k % 8) as u8);
        } else {
            assert(k / 8 == i);
            let j = (7 - k % 8) as u8;
            assert((data[i] >> j) & 1u8 == 0u8);
        }
    }
}

/// A field of `a + b` bits is its first `a` bits followed by its last `b`.
proof fn lemma_bits_value_split(data: Seq<u8>, pos: int, a: nat, b: nat)
    ensures
        bits_value(data, pos, a + b) == bits_value(data, pos, a) * pow2(b) + bits_value(data, pos + a, b),
    decreases b,
{
    if b == 0 {
        lemma2_to64();
    } else {
        lemma_bits_value_split(data, pos, a, (b - 1) as nat);
        lemma_pow2_unfold(b);
        assert(bits_value(data, pos, a) * (2 * pow2((b - 1) as nat)) == 2 * (bits_value(data, pos, a)
            * pow2((b - 1) as nat))) by (nonlinear_arith);
        assert((a + b - 1) as nat == a + (b - 1) as nat);
        assert(pos + (a + b) - 1 == pos + a + b - 1);
    }
}

/// A field that writes 0 holds only zero bits.
proof fn lemma_bits_value_zero(data: Seq<u8>, pos: int, n: nat)
    requires
        bits_value(data, pos, n) == 0,
    ensures
        forall|i: int| pos <= i < pos + n ==> !bit_at(data, i),
    decreases n,
{
    if n > 0 {
        lemma_bits_value_zero(data, pos, (n - 1) as nat);
    }
}

/// Every code of an unsigned value is read back as that value: `v + 1`,
/// written in `2z + 1` bits where `z + 1` are enough, reads as `v`, and the
/// reader stands behind it.
pub proof fn law_ue_reads_every_code(data: Seq<u8>, pos: int, v: u32, z: nat)
    requires
        0 <= pos,
        z <= 31,
        pow2(z) <= v + 1 < pow2(z + 1),
        pos + 2 * z + 1 <= 8 * data.len(),
        bits_value(data, pos, 2 * z + 1) == v + 1,
    ensures
        read_ue(data, pos) == (Ok::<u32, Error>(v), pos + 2 * z + 1),
{
    reveal(read_ue);
    let high = bits_value(data, pos, z);
    let low = bits_value(data, pos + z, z + 1);
    lemma_bits_value_split(data, pos, z, z + 1);
    lemma_bits_value_bound(data, pos + z, z + 1);
    assert(2 * z + 1 == z + (z + 1));
    assert(high == 0) by (nonlinear_arith)
        requires
            high * pow2(z + 1) + low == v + 1,
            v + 1 < pow2(z + 1),
            high >= 0,
            low >= 0,
    ;
    assert(high * pow2(z + 1) == 0) by (nonlinear_arith)
        requires
            high == 0,
    ;
    lemma_bits_value_zero(data, pos, z);
    lemma_bits_value_split(data, pos + z, 1, z);
    lemma_bits_value_bound(data, pos + z + 1, z);
    assert(z + 1 == 1 + z);
    let top = bits_value(data, pos + z, 1);
    assert(bits_value(data, pos + z, 0) == 0);
    assert(bit_at(data, pos + z)) by {
        if !bit_at(data, pos + z) {
            assert(top == 0);
            assert(top * pow2(z) == 0) by (nonlinear_arith)
                requires
                    top == 0,
            ;
        }
    }
    assert(top * pow2(z) == pow2(z)) by (nonlinear_arith)
        requires
            top == 1,
    ;
    lemma_zero_run_split(data, pos, z);
    lemma2_to64();
    if z < 31 {
        lemma_pow2_strictly_increases(z, 31);
    }
    lemma_pow2_pos(z);
}

/// The signed value of a code number fits 32 bits, and no two code numbers
/// share one.
pub proof fn law_se_values_are_distinct(a: u32, b: u32)
    requires
        a < u32::MAX,
        b < u32::MAX,
        se_value(a as int) == se_value(b as int),
    ensures
        a == b,
        i32::MIN < se_value(a as int) <= i32::MAX,
{
}

pub struct BitReader<'a> {
    data: &'a [u8],
    pos: usize,
}

impl<'a> BitReader<'a> {
    /// The bytes that are read.
    pub closed spec fn data(&self) -> Seq<u8> {
        self.data@
    }

    /// The index of the next bit.
    pub closed spec fn pos(&self) -> int {
        self.pos as int
    }

    pub closed spec fn wf(&self) -> bool {
        self.pos <= 8 * self.data@.len() <= usize::MAX
    }

    pub fn new(data: &'a [u8]) -> (r: Self)
        requires
            8 * data@.len() <= usize::MAX,
        ensures
            r.wf(),
            r.data() == data@,
            r.pos() == 0,
    {
        Self { data, pos: 0 }
    }

    pub fn bit(&mut self) -> (res: Result<bool, Error>)
        requires
            old(self).wf(),
        ensures
            final(self).wf(),
            final(self).data() == old(self).data(),
            (res, final(self).pos()) == read_bit(old(self).data(), old(self).pos()),
    {
        proof {
            reveal(bit_at);
        }
        if self.pos / 8 >= self.data.len() {
            return Err(Error::Bitstream("unexpected end of header"));
        }
        let byte: u8 = self.data[self.pos / 8];
        let bit: u8 = (byte >> ((7 - self.pos % 8) as u8)) & 1;
        self.pos = self.pos + 1;
        Ok(bit == 1)
    }

    pub fn flag(&mut self) -> (res: Result<u32, Error>)
        requires
            old(self).wf(),
        ensures
            final(self).wf(),
            final(self).data() == old(self).data(),
            read_bit(old(self).data(), old(self).pos()) == (match res {
                Ok(v) => (Ok::<bool, Error>(v == 1), final(self).pos()),
                Err(e) => (Err::<bool, Error>(e), final(self).pos()),
            }),
            res matches Ok(v) ==> v <= 1,
    {
        match self.bit() {
            Ok(true) => Ok(1),
            Ok(false) => Ok(0),
            Err(e) => Err(e),
        }
    }

    pub fn bits(&mut self, n: u32) -> (res: Result<u32, Error>)
        requires
            old(self).wf(),
        ensures
            final(self).wf(),
            final(self).data() == old(self).data(),
            (res, final(self).pos()) == read_bits(old(self).data(), old(self).pos(), n),
    {
        if n > 32 {
            return Err(Error::Bitstream("field wider than 32 bits"));
        }
        let ghost start = self.pos();
        let ghost data = self.data();
        let mut v: u32 = 0;
        for i in 0..n
            invariant
                n <= 32,
                self.wf(),
                self.data() == data,
                data == old(self).data(),
                start == old(self).pos(),
                self.pos() == start + i,
                v == bits_value(data, start, i as nat),
        {
            proof {
                lemma_bits_value_bound(data, start, i as nat);
                lemma2_to64();
                if i < 31 {
                    lemma_pow2_strictly_increases(i as nat, 31);
                }
            }
            match self.flag() {
                Ok(f) => {
                    let w: u32 = (v << 1) | f;
                    assert(w == 2 * v + f) by (bit_vector)
                        requires
                            v < 0x8000_0000,
                            f <= 1,
                            w == (v << 1) | f,
                    ;
                    v = w;
                },
                Err(e) => {
                    return Err(e);
                },
            }
        }
        Ok(v)
    }

    /// Unsigned Exp-Golomb `ue(v)`.
    pub fn ue(&mut self) -> (res: Result<u32, Error>)
        requires
            old(self).wf(),
        ensures
            final(self).wf(),
            final(self).data() == old(self).data(),
            (res, final(self).pos()) == read_ue(old(self).data(), old(self).pos()),
    {
        let ghost start = self.pos();
        let ghost data = self.data();
        proof {
            reveal(read_ue);
        }
        let mut zeros: u32 = 0;
        loop
            invariant_except_break
                self.wf(),
                self.data() == data,
                start >= 0,
                self.pos() == start + zeros,
                zeros <= 31,
                forall|i: int| start <= i < start + zeros ==> !bit_at(data, i),
                start == old(self).pos(),
                data == old(self).data(),
            ensures
                self.wf(),
                self.data() == data,
                self.pos() == start + zeros + 1,
                start + zeros < 8 * data.len(),
                zeros == zero_run(data, start),
                zeros <= 31,
            decreases 32 - zeros,
        {
            let bit: Result<bool, Error> = self.bit();
            proof {
                reveal(read_ue);
                lemma_zero_run_split(data, start, zeros as nat);
            }
            match bit {
                Ok(true) => {
                    break;
                },
                Ok(false) => {
                    zeros = zeros + 1;
                    if zeros > 31 {
                        return Err(Error::Bitstream("Exp-Golomb code too long"));
                    }
                },
                Err(e) => {
                    return Err(e);
                },
            }
        }
        match self.bits(zeros) {
            Ok(rest) => {
                proof {
                    lemma_bits_value_bound(data, start + zeros + 1, zeros as nat);
                    lemma_pow2_pos(zeros as nat);
                    lemma2_to64();
                    if zeros < 31 {
                        lemma_pow2_strictly_increases(zeros as nat, 31);
                    }
                    lemma_u32_shl_is_mul(1, zeros);
                }
                Ok((1u32 << zeros) - 1 + rest)
            },
            Err(e) => Err(e),
        }
    }

    /// Signed Exp-Golomb `se(v)`.
    pub fn se(&mut self) -> (res: Result<i32, Error>)
        requires
            old(self).wf(),
        ensures
            final(self).wf(),
            final(self).data() == old(self).data(),
            (res, final(self).pos()) == read_se(old(self).data(), old(self).pos()),
    {
        match self.ue() {
            Ok(k) => {
                let k: i64 = k as i64;
                let v: i64 = if k % 2 == 1 { (k + 1) / 2 } else { -(k / 2) };
                Ok(v as i32)
            },
            Err(e) => Err(e),
        }
    }

    /// True while there are bits before the trailing stop bit.
    pub fn more_rbsp_data(&self) -> (more: bool)
        requires
            self.wf(),
        ensures
            more == exists|i: int| self.pos() < i < 8 * self.data().len() && bit_at(self.data(), i),
    {
        let total: usize = self.data.len() * 8;
        if self.pos >= total {
            return false;
        }
        let mut i: usize = self.data.len();
        while i > 0
            invariant
                i <= self.data@.len(),
                self.wf(),
                forall|k: int| i <= k < self.data@.len() ==> self.data@[k] == 0,
            decreases i,
        {
            i = i - 1;
            let byte: u8 = self.data[i];
            if byte != 0 {
                let low: u32 = byte.trailing_zeros();
                proof {
                    reveal(bit_at);
                    axiom_u8_trailing_zeros(byte);
                    lemma_last_one(self.data@, i as int);
                }
                let stop: usize = i * 8 + 7 - low as usize;
                assert(bit_at(self.data@, stop as int)) by {
                    assert((i * 8 + 7 - low) / 8 == i);
                }
                proof {
                    if stop <= self.pos {
                        assert forall|k: int| self.pos() < k < 8 * self.data().len() implies !bit_at(
                            self.data(),
                            k,
                        ) by {
                            assert(i * 8 + 7 - u8_trailing_zeros(self.data@[i as int]) < k);
                        }
                    } else {
                        assert(self.pos() < stop < 8 * self.data().len() && bit_at(
                            self.data(),
                            stop as int,
                        ));
                    }
                }
                return self.pos < stop;
            }
        }
        proof {
            reveal(bit_at);
            assert forall|k: int| 0 <= k < 8 * self.data@.len() implies !bit_at(self.data@, k) by {
                lemma_zero_byte_bits((7 - k % 8) as u8);
            }
        }
        false
    }
}

} // verus!
