//! Stored numbers as bit patterns.
//!
//! A sample is kept as the bit pattern of an IEEE 754 binary64 number. This
//! module reads such patterns from bytes, compares them as numbers, and widens
//! a binary32 pattern to the binary64 pattern of the same number.

use vstd::prelude::*;
use vstd::arithmetic::power2::{
    lemma2_to64, lemma_pow2_adds, lemma_pow2_strictly_increases, lemma_pow2_unfold, pow2,
};
use crate::model::ByteOrder;

verus! {

/// The value of the four bytes at `at`, the first byte counting least.
pub open spec fn le32(bytes: Seq<u8>, at: int) -> int {
    bytes[at] + 0x100 * bytes[at + 1] + 0x1_0000 * bytes[at + 2] + 0x100_0000 * bytes[at + 3]
}

/// The value of the four bytes at `at`, the first byte counting most.
pub open spec fn be32(bytes: Seq<u8>, at: int) -> int {
    bytes[at + 3] + 0x100 * bytes[at + 2] + 0x1_0000 * bytes[at + 1] + 0x100_0000 * bytes[at]
}

/// The value of the four bytes at `at` in the given byte order.
pub open spec fn word32(bytes: Seq<u8>, at: int, order: ByteOrder) -> int {
    match order {
        ByteOrder::LittleEndian => le32(bytes, at),
        ByteOrder::BigEndian => be32(bytes, at),
    }
}

/// The value of the eight bytes at `at` in the given byte order.
pub open spec fn word64(bytes: Seq<u8>, at: int, order: ByteOrder) -> int {
    match order {
        ByteOrder::LittleEndian => le32(bytes, at) + 0x1_0000_0000 * le32(bytes, at + 4),
        ByteOrder::BigEndian => be32(bytes, at + 4) + 0x1_0000_0000 * be32(bytes, at),
    }
}

/// Reads the four bytes at `at` as one number.
pub fn read_u32(bytes: &[u8], at: usize, order: ByteOrder) -> (word: u32)
    requires
        at + 4 <= bytes.len(),
    ensures
        word == word32(bytes@, at as int, order),
{
    let b0: u32 = bytes[at] as u32;
    let b1: u32 = bytes[at + 1] as u32;
    let b2: u32 = bytes[at + 2] as u32;
    let b3: u32 = bytes[at + 3] as u32;
    match order {
        ByteOrder::LittleEndian => b0 + 0x100 * b1 + 0x1_0000 * b2 + 0x100_0000 * b3,
        ByteOrder::BigEndian => b3 + 0x100 * b2 + 0x1_0000 * b1 + 0x100_0000 * b0,
    }
}

/// Reads the eight bytes at `at` as one number.
pub fn read_u64(bytes: &[u8], at: usize, order: ByteOrder) -> (word: u64)
    requires
        at + 8 <= bytes.len(),
    ensures
        word == word64(bytes@, at as int, order),
{
    let first: u64 = read_u32(bytes, at, order) as u64;
    let second: u64 = read_u32(bytes, at + 4, order) as u64;
    match order {
        ByteOrder::LittleEndian => first + 0x1_0000_0000 * second,
        ByteOrder::BigEndian => second + 0x1_0000_0000 * first,
    }
}

/// `u16::from_ne_bytes` on the bytes 1 and 0. The machine's byte order decides
/// which of the two readings comes back: 1 where the first byte counts least,
/// 256 where it counts most.
#[verifier::external_body]
fn native_reading() -> (word: u16)
    ensures
        word == 1 || word == 256,
{
    u16::from_ne_bytes([1, 0])
}

/// The byte order of the machine that runs the decoder.
pub fn native_byte_order() -> ByteOrder {
    byte_order_of(native_reading())
}

/// The byte order under which the bytes 1 and 0 read as the given number:
/// the first byte counts least where they read as 1, and most otherwise.
pub fn byte_order_of(reading: u16) -> (order: ByteOrder)
    ensures
        order == if reading == 1 {
            ByteOrder::LittleEndian
        } else {
            ByteOrder::BigEndian
        },
{
    if reading == 1 {
        ByteOrder::LittleEndian
    } else {
        ByteOrder::BigEndian
    }
}

/// A binary64 pattern without its sign bit.
pub open spec fn magnitude(bits: u64) -> int {
    bits as int % 0x8000_0000_0000_0000
}

/// Whether a binary64 pattern is not a number: its exponent field is all ones
/// and its fraction field is not zero.
pub open spec fn is_nan(bits: u64) -> bool {
    magnitude(bits) > 0x7FF0_0000_0000_0000
}

/// Equality of two binary64 patterns as numbers: the patterns agree, or both
/// are a zero of either sign; a NaN equals nothing, not even itself.
pub open spec fn same_number(a: u64, b: u64) -> bool {
    &&& !is_nan(a)
    &&& !is_nan(b)
    &&& (a == b || magnitude(a) + magnitude(b) == 0)
}

/// Compares two binary64 patterns as numbers.
pub fn numbers_equal(a: u64, b: u64) -> (equal: bool)
    ensures
        equal == same_number(a, b),
{
    let ma: u64 = a % 0x8000_0000_0000_0000;
    let mb: u64 = b % 0x8000_0000_0000_0000;
    if ma > 0x7FF0_0000_0000_0000 || mb > 0x7FF0_0000_0000_0000 {
        false
    } else {
        a == b || (ma == 0 && mb == 0)
    }
}

/// The sign bit of a binary32 pattern.
pub open spec fn single_sign(bits: u32) -> int {
    bits as int / 0x8000_0000
}

/// The exponent field of a binary32 pattern.
pub open spec fn single_exponent(bits: u32) -> int {
    (bits as int / 0x80_0000) % 0x100
}

/// The fraction field of a binary32 pattern.
pub open spec fn single_fraction(bits: u32) -> int {
    bits as int % 0x80_0000
}

/// The binary64 pattern with the given fields.
pub open spec fn double_pattern(sign: int, exponent: int, fraction: int) -> int {
    sign * 0x8000_0000_0000_0000 + exponent * 0x10_0000_0000_0000 + fraction
}

/// How often the fraction of a subnormal binary32 number must be doubled until
/// its leading one reaches the place of the implicit bit.
pub open spec fn leading_shift(fraction: int) -> nat
    decreases 0x100_0000 - fraction,
{
    if 0 < fraction < 0x80_0000 {
        1 + leading_shift(2 * fraction)
    } else {
        0
    }
}

/// The fraction of a subnormal binary32 number after `leading_shift` doublings.
pub open spec fn normalized(fraction: int) -> int {
    fraction * pow2(leading_shift(fraction))
}

/// The binary64 pattern of the number that a binary32 pattern stands for.
///
/// A normal number keeps its fraction and has its exponent rebiased from 127
/// to 1023. A subnormal number becomes normal: its fraction is doubled until
/// the leading one can be dropped, and the exponent counts the doublings. Zero
/// and the infinities keep their sign. A NaN stays a NaN: it keeps its payload
/// and has the quiet bit set.
pub open spec fn widened(bits: u32) -> int {
    let sign = single_sign(bits);
    let exponent = single_exponent(bits);
    let fraction = single_fraction(bits);
    if exponent == 0xFF {
        if fraction == 0 || fraction >= 0x40_0000 {
            double_pattern(sign, 0x7FF, fraction * 0x2000_0000)
        } else {
            double_pattern(sign, 0x7FF, fraction * 0x2000_0000 + 0x8_0000_0000_0000)
        }
    } else if exponent != 0 {
        double_pattern(sign, exponent + 896, fraction * 0x2000_0000)
    } else if fraction == 0 {
        double_pattern(sign, 0, 0)
    } else {
        double_pattern(
            sign,
            897 - leading_shift(fraction),
            (normalized(fraction) - 0x80_0000) * 0x2000_0000,
        )
    }
}

/// The sign bit of a binary64 pattern.
pub open spec fn double_sign(bits: int) -> int {
    bits / 0x8000_0000_0000_0000
}

/// The exponent field of a binary64 pattern.
pub open spec fn double_exponent(bits: int) -> int {
    (bits / 0x10_0000_0000_0000) % 0x800
}

/// The fraction field of a binary64 pattern.
pub open spec fn double_fraction(bits: int) -> int {
    bits % 0x10_0000_0000_0000
}

/// The magnitude of the number that a finite binary32 pattern stands for, in
/// units of 2^-149, the smallest number that the format can hold.
pub open spec fn single_scaled(bits: u32) -> int {
    if single_exponent(bits) == 0 {
        single_fraction(bits)
    } else {
        (0x80_0000 + single_fraction(bits)) * pow2((single_exponent(bits) - 1) as nat)
    }
}

/// The magnitude of the number that a finite binary64 pattern stands for, in
/// units of 2^-1074, the smallest number that the format can hold.
pub open spec fn double_scaled(bits: int) -> int {
    if double_exponent(bits) == 0 {
        double_fraction(bits)
    } else {
        (0x10_0000_0000_0000 + double_fraction(bits)) * pow2((double_exponent(bits) - 1) as nat)
    }
}

/// The fields of a pattern that is put together from its fields.
pub proof fn lemma_double_fields(sign: int, exponent: int, fraction: int)
    requires
        0 <= sign <= 1,
        0 <= exponent < 0x800,
        0 <= fraction < 0x10_0000_0000_0000,
    ensures
        0 <= double_pattern(sign, exponent, fraction) <= u64::MAX,
        double_sign(double_pattern(sign, exponent, fraction)) == sign,
        double_exponent(double_pattern(sign, exponent, fraction)) == exponent,
        double_fraction(double_pattern(sign, exponent, fraction)) == fraction,
{
}

/// Doubling the fraction of a subnormal number `leading_shift` times brings
/// its leading one to the place of the implicit bit, in 23 doublings at most.
pub proof fn lemma_leading_shift(fraction: int)
    requires
        0 < fraction < 0x100_0000,
    ensures
        leading_shift(fraction) <= 23,
        fraction >= 0x80_0000 ==> leading_shift(fraction) == 0,
        0x80_0000 <= normalized(fraction) < 0x100_0000,
        pow2(leading_shift(fraction)) * fraction < 0x100_0000,
    decreases 0x100_0000 - fraction,
{
    lemma2_to64();
    if fraction < 0x80_0000 {
        lemma_leading_shift(2 * fraction);
        let k = leading_shift(2 * fraction);
        lemma_pow2_unfold(k + 1);
        assert(fraction * pow2(k + 1) == (2 * fraction) * pow2(k)) by (nonlinear_arith)
            requires
                pow2(k + 1) == 2 * pow2(k),
        ;
        assert(pow2(k + 1) * fraction == fraction * pow2(k + 1)) by (nonlinear_arith);
        assert(pow2(k) * (2 * fraction) == (2 * fraction) * pow2(k)) by (nonlinear_arith);
        if k + 1 > 23 {
            lemma_pow2_strictly_increases(23, k + 1);
            assert(fraction * pow2(k + 1) >= pow2(k + 1)) by (nonlinear_arith)
                requires
                    fraction >= 1,
            ;
        }
    }
}

/// Widening keeps the number: a finite binary32 pattern and the binary64
/// pattern it is widened to have the same sign and the same magnitude. The
/// units of the two formats differ by the factor 2^925.
pub proof fn lemma_widened_number(bits: u32)
    requires
        single_exponent(bits) != 0xFF,
    ensures
        0 <= widened(bits) <= u64::MAX,
        double_sign(widened(bits)) == single_sign(bits),
        double_exponent(widened(bits)) != 0x7FF,
        double_scaled(widened(bits)) == single_scaled(bits) * pow2(925),
{
    let sign = single_sign(bits);
    let exponent = single_exponent(bits);
    let fraction = single_fraction(bits);
    lemma2_to64();
    if exponent != 0 {
        lemma_double_fields(sign, exponent + 896, fraction * 0x2000_0000);
        lemma_pow2_adds(29, (exponent + 895) as nat);
        lemma_pow2_adds((exponent - 1) as nat, 925);
        let low = pow2((exponent - 1) as nat);
        let high = pow2((exponent + 895) as nat);
        assert((0x10_0000_0000_0000 + fraction * 0x2000_0000) * high == (0x80_0000 + fraction)
            * low * pow2(925)) by (nonlinear_arith)
            requires
                0x2000_0000 * high == low * pow2(925),
        ;
    } else if fraction == 0 {
        lemma_double_fields(sign, 0, 0);
    } else {
        let shift = leading_shift(fraction);
        lemma_leading_shift(fraction);
        let whole = normalized(fraction);
        lemma_double_fields(sign, 897 - shift, (whole - 0x80_0000) * 0x2000_0000);
        lemma_pow2_adds(29, (896 - shift) as nat);
        lemma_pow2_adds(shift, (925 - shift) as nat);
        let high = pow2((896 - shift) as nat);
        assert((0x10_0000_0000_0000 + (whole - 0x80_0000) * 0x2000_0000) * high == fraction
            * pow2(925)) by (nonlinear_arith)
            requires
                whole == fraction * pow2(shift),
                0x2000_0000 * high == pow2((925 - shift) as nat),
                pow2(shift) * pow2((925 - shift) as nat) == pow2(925),
        ;
    }
}

/// Widening keeps what is no finite number: an infinity stays the infinity of
/// its sign, and a NaN stays a NaN.
pub proof fn lemma_widened_special(bits: u32)
    requires
        single_exponent(bits) == 0xFF,
    ensures
        0 <= widened(bits) <= u64::MAX,
        double_sign(widened(bits)) == single_sign(bits),
        double_exponent(widened(bits)) == 0x7FF,
        single_fraction(bits) == 0 <==> double_fraction(widened(bits)) == 0,
        single_fraction(bits) != 0 <==> is_nan(widened(bits) as u64),
{
    let sign = single_sign(bits);
    let fraction = single_fraction(bits);
    if fraction == 0 || fraction >= 0x40_0000 {
        lemma_double_fields(sign, 0x7FF, fraction * 0x2000_0000);
    } else {
        lemma_double_fields(sign, 0x7FF, fraction * 0x2000_0000 + 0x8_0000_0000_0000);
    }
}

/// Widens a binary32 pattern to the binary64 pattern of the same number: a
/// finite number keeps its sign and its magnitude, an infinity stays an
/// infinity, a NaN stays a NaN.
pub fn widen(bits: u32) -> (wide: u64)
    ensures
        wide == widened(bits),
        double_sign(wide as int) == single_sign(bits),
        single_exponent(bits) != 0xFF ==> double_exponent(wide as int) != 0x7FF && double_scaled(
            wide as int,
        ) == single_scaled(bits) * pow2(925),
        single_exponent(bits) == 0xFF ==> double_exponent(wide as int) == 0x7FF && (
        single_fraction(bits) != 0 <==> is_nan(wide)),
{
    proof {
        if single_exponent(bits) != 0xFF {
            lemma_widened_number(bits);
        } else {
            lemma_widened_special(bits);
        }
    }
    let sign: u64 = (bits / 0x8000_0000) as u64;
    let exponent: u64 = ((bits / 0x80_0000) % 0x100) as u64;
    let fraction: u64 = (bits % 0x80_0000) as u64;
    let top: u64 = sign * 0x8000_0000_0000_0000;
    if exponent == 0xFF {
        if fraction == 0 || fraction >= 0x40_0000 {
            top + 0x7FF * 0x10_0000_0000_0000 + fraction * 0x2000_0000
        } else {
            top + 0x7FF * 0x10_0000_0000_0000 + (fraction * 0x2000_0000 + 0x8_0000_0000_0000)
        }
    } else if exponent != 0 {
        top + (exponent + 896) * 0x10_0000_0000_0000 + fraction * 0x2000_0000
    } else if fraction == 0 {
        top
    } else {
        let mut shifted: u64 = fraction;
        let mut doublings: u64 = 0;
        proof {
            lemma2_to64();
        }
        while shifted < 0x80_0000
            invariant
                0 < fraction,
                0 < shifted < 0x100_0000,
                doublings <= 23,
                shifted == fraction * pow2(doublings as nat),
                leading_shift(fraction as int) == doublings + leading_shift(shifted as int),
            decreases 0x100_0000 - shifted,
        {
            proof {
                lemma2_to64();
                lemma_pow2_unfold((doublings + 1) as nat);
                if doublings >= 23 {
                    if doublings > 23 {
                        lemma_pow2_strictly_increases(23, doublings as nat);
                    }
                    assert(fraction * pow2(doublings as nat) >= pow2(doublings as nat))
                        by (nonlinear_arith)
                        requires
                            fraction >= 1,
                    ;
                }
                assert(fraction * (2 * pow2(doublings as nat)) == 2 * (fraction * pow2(
                    doublings as nat,
                ))) by (nonlinear_arith);
            }
            shifted = shifted * 2;
            doublings = doublings + 1;
        }
        top + (897 - doublings) * 0x10_0000_0000_0000 + (shifted - 0x80_0000) * 0x2000_0000
    }
}

} // verus!
