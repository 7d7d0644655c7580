//! The layout of the payload, as the header implies it.
//!
//! The payload holds one record per point: the sample of the independent
//! variable, then one sample of each dependent variable in the order of
//! declaration. Nothing stands between the samples or the records.

use vstd::prelude::*;
use crate::header::Header;
use crate::model::{DataType, Flags, Mode, ParseError};

verus! {

/// The sample type of the independent variable: complex in a
/// frequency-domain analysis, else double precision.
pub open spec fn x_type_of(mode: Mode) -> DataType {
    if mode.complex() {
        DataType::Complex128
    } else {
        DataType::Float64
    }
}

/// The sample type of the dependent variables: complex in a frequency-domain
/// analysis, whatever the flags say; else double precision with the flag
/// `Double`, and single precision without it.
pub open spec fn y_type_of(mode: Mode, flags: Seq<Flags>) -> DataType {
    if mode.complex() {
        DataType::Complex128
    } else if flags.contains(Flags::Double) {
        DataType::Float64
    } else {
        DataType::Float32
    }
}

/// The length in bytes of a payload of `points` records, each with one sample
/// of the independent variable and one of each of the other `variables - 1`.
pub open spec fn expected_payload_length(
    points: int,
    variables: int,
    x_width: int,
    y_width: int,
) -> int {
    points * x_width + points * (variables - 1) * y_width
}

/// The layout of a payload.
#[derive(Debug, Clone, Copy, PartialEq, Eq, Structural)]
pub struct Layout {
    /// The sample type of the independent variable.
    pub x_type: DataType,
    /// The sample type of the dependent variables.
    pub y_type: DataType,
    /// The number of records.
    pub points: usize,
    /// The number of dependent variables.
    pub dependents: usize,
}

impl Layout {
    /// The length of one record in bytes.
    pub open spec fn stride(self) -> int {
        self.x_type.width() + self.dependents * self.y_type.width()
    }

    /// The length of the whole payload in bytes.
    pub open spec fn length(self) -> int {
        self.points * self.stride()
    }

    /// Where the record of point `point` begins.
    pub open spec fn x_offset(self, point: int) -> int {
        point * self.stride()
    }

    /// Where the sample of the dependent variable `variable` at point `point`
    /// begins.
    pub open spec fn y_offset(self, variable: int, point: int) -> int {
        point * self.stride() + self.x_type.width() + variable * self.y_type.width()
    }
}

/// Whether what a header says and the length of a payload agree: the header
/// declares as many dependent variables as it counts, and the payload is
/// exactly as long as the counts and the sample types require.
pub open spec fn counts_fit(
    mode: Mode,
    flags: Seq<Flags>,
    points: int,
    variables: int,
    declared: int,
    payload_length: int,
) -> bool {
    &&& declared == variables - 1
    &&& expected_payload_length(
        points,
        variables,
        x_type_of(mode).width(),
        y_type_of(mode, flags).width(),
    ) == payload_length
}

/// Whether a header and the length of a payload agree.
pub open spec fn layout_fits(header: Header, payload_length: int) -> bool {
    counts_fit(
        header.mode,
        header.flags@,
        header.points as int,
        header.variables as int,
        header.declared@.len() as int,
        payload_length,
    )
}

/// The layout that a header implies.
pub open spec fn layout_of(header: Header) -> Layout {
    Layout {
        x_type: x_type_of(header.mode),
        y_type: y_type_of(header.mode, header.flags@),
        points: header.points as usize,
        dependents: header.declared@.len() as usize,
    }
}

/// Computes the length in bytes that a payload must have.
pub fn expected_length(points: u32, variables: u32, x_type: DataType, y_type: DataType) -> (length:
    i128)
    ensures
        length == expected_payload_length(
            points as int,
            variables as int,
            x_type.width(),
            y_type.width(),
        ),
{
    let points: i128 = points as i128;
    let others: i128 = variables as i128 - 1;
    let x_width: i128 = x_type.byte_width() as i128;
    let y_width: i128 = y_type.byte_width() as i128;
    assert(-0xFFFF_FFFF <= points * others <= 0xFFFF_FFFF * 0xFFFF_FFFF) by (nonlinear_arith)
        requires
            0 <= points <= 0xFFFF_FFFF,
            -1 <= others <= 0xFFFF_FFFF,
    ;
    let records: i128 = points * others;
    assert(0 <= points * x_width <= 0xFFFF_FFFF * 16 && -0xFFFF_FFFF * 16 <= records * y_width
        <= 0xFFFF_FFFF * 0xFFFF_FFFF * 16) by (nonlinear_arith)
        requires
            0 <= points <= 0xFFFF_FFFF,
            -0xFFFF_FFFF <= records <= 0xFFFF_FFFF * 0xFFFF_FFFF,
            0 <= x_width <= 16,
            0 <= y_width <= 16,
    ;
    points * x_width + records * y_width
}

/// Tells whether the flags hold `Double`.
pub fn has_double(flags: &Vec<Flags>) -> (r: bool)
    ensures
        r == flags@.contains(Flags::Double),
{
    let mut k: usize = 0;
    while k < flags.len()
        invariant
            k <= flags.len(),
            forall|j: int| 0 <= j < k ==> flags@[j] != Flags::Double,
        decreases flags.len() - k,
    {
        if flags[k] == Flags::Double {
            return true;
        }
        k = k + 1;
    }
    false
}

/// Derives the layout of the payload from the header and holds it against
/// the length of the payload.
///
/// The layout comes back if, and only if, header and payload agree. A payload
/// that is longer or shorter than expected is never cut or filled up.
pub fn plan_layout(header: &Header, payload_length: usize) -> (r: Result<Layout, ParseError>)
    ensures
        match r {
            Ok(layout) => {
                &&& layout_fits(*header, payload_length as int)
                &&& layout == layout_of(*header)
                &&& layout.length() == payload_length
            },
            Err(e) => e == ParseError::LayoutMismatch && !layout_fits(
                *header,
                payload_length as int,
            ),
        },
{
    let length = payload_length;
    if header.variables == 0 || header.declared.len() as u64 != (header.variables - 1) as u64 {
        return Err(ParseError::LayoutMismatch);
    }
    let complex = header.mode.is_complex();
    let x_type = if complex {
        DataType::Complex128
    } else {
        DataType::Float64
    };
    let y_type = if complex {
        DataType::Complex128
    } else if has_double(&header.flags) {
        DataType::Float64
    } else {
        DataType::Float32
    };
    if expected_length(header.points, header.variables, x_type, y_type) != length as i128 {
        return Err(ParseError::LayoutMismatch);
    }
    let layout = Layout {
        x_type,
        y_type,
        points: header.points as usize,
        dependents: header.declared.len(),
    };
    assert(layout.length() == length) by (nonlinear_arith)
        requires
            layout.length() == header.points * (x_type.width() + (header.variables - 1)
                * y_type.width()),
            length == header.points * x_type.width() + header.points * (header.variables - 1)
                * y_type.width(),
    ;
    Ok(layout)
}

/// No payload has a negative length: counts never fit one.
pub proof fn lemma_no_negative_payload(
    mode: Mode,
    flags: Seq<Flags>,
    points: int,
    variables: int,
    declared: int,
    payload_length: int,
)
    requires
        0 <= points,
        0 <= declared,
        payload_length < 0,
    ensures
        !counts_fit(mode, flags, points, variables, declared, payload_length),
{
    let x_width = x_type_of(mode).width();
    let y_width = y_type_of(mode, flags).width();
    if declared == variables - 1 {
        assert(0 <= points * x_width + points * (variables - 1) * y_width) by (nonlinear_arith)
            requires
                0 <= points,
                0 <= variables - 1,
                0 <= x_width,
                0 <= y_width,
        ;
    }
}

} // verus!
