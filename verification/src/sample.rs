//! One decoded sample.

use vstd::prelude::*;
use crate::model::{ByteOrder, DataType};
use crate::numbers::{numbers_equal, read_u32, read_u64, same_number, widen, widened, word32, word64};

verus! {

/// A sample: a complex number whose two parts are held as the bit patterns of
/// IEEE 754 binary64 numbers. A real sample has the imaginary part +0.
#[derive(Debug, Clone, Copy)]
pub struct Value {
    pub real_bits: u64,
    pub imaginary_bits: u64,
}

impl Value {
    /// Equality of two samples as numbers: both parts are equal as binary64
    /// numbers. It is exact, with no tolerance; a sample with a NaN part equals
    /// none, and the two zeros are equal.
    pub open spec fn same(self, other: Value) -> bool {
        same_number(self.real_bits, other.real_bits) && same_number(
            self.imaginary_bits,
            other.imaginary_bits,
        )
    }
}

impl PartialEq for Value {
    fn eq(&self, other: &Self) -> (equal: bool) {
        numbers_equal(self.real_bits, other.real_bits) && numbers_equal(
            self.imaginary_bits,
            other.imaginary_bits,
        )
    }
}

impl vstd::std_specs::cmp::PartialEqSpecImpl for Value {
    open spec fn obeys_eq_spec() -> bool {
        true
    }

    open spec fn eq_spec(&self, other: &Self) -> bool {
        self.same(*other)
    }
}

/// The sample of the given type that the payload holds at position `at`.
///
/// A `Float32` sample is four bytes, widened to binary64. A `Float64` sample
/// is eight bytes. A `Complex128` sample is sixteen bytes: the real part, then
/// the imaginary part.
pub open spec fn sample_at(payload: Seq<u8>, at: int, kind: DataType, order: ByteOrder) -> Value {
    match kind {
        DataType::Float32 => Value {
            real_bits: widened(word32(payload, at, order) as u32) as u64,
            imaginary_bits: 0,
        },
        DataType::Float64 => Value {
            real_bits: word64(payload, at, order) as u64,
            imaginary_bits: 0,
        },
        DataType::Complex128 => Value {
            real_bits: word64(payload, at, order) as u64,
            imaginary_bits: word64(payload, at + 8, order) as u64,
        },
    }
}

/// Reads the sample of the given type that the payload holds at position `at`.
pub fn read_sample(payload: &[u8], at: usize, kind: DataType, order: ByteOrder) -> (sample: Value)
    requires
        at + kind.width() <= payload.len(),
    ensures
        sample == sample_at(payload@, at as int, kind, order),
{
    match kind {
        DataType::Float32 => Value {
            real_bits: widen(read_u32(payload, at, order)),
            imaginary_bits: 0,
        },
        DataType::Float64 => Value { real_bits: read_u64(payload, at, order), imaginary_bits: 0 },
        DataType::Complex128 => Value {
            real_bits: read_u64(payload, at, order),
            imaginary_bits: read_u64(payload, at + 8, order),
        },
    }
}

} // verus!
