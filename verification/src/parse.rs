//! Decoding a whole file: from its bytes to the header and the samples.
//!
//! The bytes of a file are first read as text, to find the header. What
//! follows works on that text and on the bytes behind the header: the fields
//! are split and read, the layout of the payload is held against its length,
//! and the samples are put into their steps.

use vstd::prelude::*;
use vstd::slice::slice_subrange;
use crate::decode::{decode, Decoded};
use crate::encoding::{
    boundary_marker, detect_encoding, detected_text, find_boundary, payload_length, payload_offset,
};
use crate::fields::{header_fields, split_fields};
use crate::header::{count_in, flags_in, mode_in, read_header, variables_in, Header};
use crate::layout::{
    counts_fit, expected_payload_length, layout_of, lemma_no_negative_payload, x_type_of,
    y_type_of, Layout,
};
use crate::model::{ByteOrder, Encoding, ParseError};
use crate::text::{first_occurrence, lemma_first_occurrence, occurs, occurs_at};

verus! {

/// The first position at which the text holds the line that ends the header.
pub open spec fn boundary_position(text: Seq<char>) -> int {
    choose|at: int| first_occurrence(text, boundary_marker(), at)
}

/// The fields of the header of a text: those of the text up to the colon of
/// the line that ends the header.
pub open spec fn text_fields(text: Seq<char>) -> Seq<(Seq<char>, Seq<char>)> {
    header_fields(text.take(boundary_position(text) + 7))
}

/// Where the payload begins in a file that reads as `text` in the given
/// encoding.
pub open spec fn text_payload_offset(encoding: Encoding, text: Seq<char>) -> int {
    payload_offset(encoding, boundary_position(text))
}

/// The layout of the payload, as the header of the text implies it.
pub open spec fn text_layout(text: Seq<char>) -> Layout {
    let fields = text_fields(text);
    Layout {
        x_type: x_type_of(mode_in(fields)),
        y_type: y_type_of(mode_in(fields), flags_in(fields)),
        points: count_in(fields, "No. Points"@)->0 as usize,
        dependents: variables_in(fields).len() as usize,
    }
}

/// Why a file of the given length that reads as `text` cannot be decoded, if
/// it cannot. The first of these that holds is the reason: the text does not
/// hold the line that ends the header; one of the two counts is no number;
/// header and payload do not agree.
pub open spec fn text_failure(encoding: Encoding, text: Seq<char>, file_length: int) -> Option<
    ParseError,
> {
    let fields = text_fields(text);
    if !occurs(text, boundary_marker()) {
        Some(ParseError::MissingBoundaryMarker)
    } else if count_in(fields, "No. Points"@) is None || count_in(fields, "No. Variables"@)
        is None {
        Some(ParseError::MalformedNumericField)
    } else if !counts_fit(
        mode_in(fields),
        flags_in(fields),
        count_in(fields, "No. Points"@)->0 as int,
        count_in(fields, "No. Variables"@)->0 as int,
        variables_in(fields).len() as int,
        file_length - text_payload_offset(encoding, text),
    ) {
        Some(ParseError::LayoutMismatch)
    } else {
        None
    }
}

/// The text of the file.
pub open spec fn file_text(bytes: Seq<u8>) -> Seq<char> {
    let found = detected_text(bytes)->0;
    found.1
}

/// The encoding of the file.
pub open spec fn file_encoding(bytes: Seq<u8>) -> Encoding {
    let found = detected_text(bytes)->0;
    found.0
}

/// The fields of the header of the file.
pub open spec fn file_fields(bytes: Seq<u8>) -> Seq<(Seq<char>, Seq<char>)> {
    text_fields(file_text(bytes))
}

/// Where the payload of the file begins.
pub open spec fn file_payload_offset(bytes: Seq<u8>) -> int {
    text_payload_offset(file_encoding(bytes), file_text(bytes))
}

/// The payload of the file: the bytes behind the header, as they are.
pub open spec fn file_payload(bytes: Seq<u8>) -> Seq<u8> {
    bytes.skip(file_payload_offset(bytes))
}

/// The layout of the payload of the file, as its header implies it.
pub open spec fn file_layout(bytes: Seq<u8>) -> Layout {
    text_layout(file_text(bytes))
}

/// Why a file cannot be decoded, if it cannot: no encoding shows a marker, or
/// what `text_failure` tells of its text.
pub open spec fn failure(bytes: Seq<u8>) -> Option<ParseError> {
    if detected_text(bytes) is None {
        Some(ParseError::UndecodableHeader)
    } else {
        text_failure(file_encoding(bytes), file_text(bytes), bytes.len() as int)
    }
}

/// A decoded file.
#[derive(Debug)]
pub struct Parsed {
    /// The encoding of the header.
    pub encoding: Encoding,
    /// What the header says.
    pub header: Header,
    /// The samples of the payload.
    pub decoded: Decoded,
}

impl Parsed {
    /// Whether this is what a file holds whose bytes read as `text` in the
    /// given encoding, its payload read in the given byte order.
    pub open spec fn reads_text(
        &self,
        encoding: Encoding,
        text: Seq<char>,
        bytes: Seq<u8>,
        order: ByteOrder,
    ) -> bool {
        &&& self.encoding == encoding
        &&& self.header.reads(text_fields(text))
        &&& self.decoded.yields(
            bytes.skip(text_payload_offset(encoding, text)),
            text_layout(text),
            order,
        )
    }

    /// Whether this is what the file holds, its payload read in the given byte
    /// order.
    pub open spec fn reads(&self, bytes: Seq<u8>, order: ByteOrder) -> bool {
        self.reads_text(file_encoding(bytes), file_text(bytes), bytes, order)
    }
}

/// The line that ends the header stands first at one position only.
pub proof fn lemma_boundary_position(text: Seq<char>, at: int)
    requires
        first_occurrence(text, boundary_marker(), at),
    ensures
        boundary_position(text) == at,
{
    let chosen = boundary_position(text);
    assert(first_occurrence(text, boundary_marker(), chosen));
    if chosen < at {
        assert(!occurs_at(text, boundary_marker(), chosen));
    }
    if at < chosen {
        assert(!occurs_at(text, boundary_marker(), at));
    }
}

/// A file that can be decoded has a payload of exactly the expected length:
/// one sample of the independent variable for each point, and one sample of
/// each other variable for each point.
pub proof fn lemma_decodable_payload_length(encoding: Encoding, text: Seq<char>, file_length: int)
    requires
        text_failure(encoding, text, file_length) is None,
    ensures
        file_length - text_payload_offset(encoding, text) == expected_payload_length(
            count_in(text_fields(text), "No. Points"@)->0 as int,
            count_in(text_fields(text), "No. Variables"@)->0 as int,
            text_layout(text).x_type.width(),
            text_layout(text).y_type.width(),
        ),
        file_length - text_payload_offset(encoding, text) == text_layout(text).length(),
        0 <= text_payload_offset(encoding, text) <= file_length,
{
    let fields = text_fields(text);
    let points = count_in(fields, "No. Points"@)->0 as int;
    let variables = count_in(fields, "No. Variables"@)->0 as int;
    let layout = text_layout(text);
    let x_width = layout.x_type.width();
    let y_width = layout.y_type.width();
    let length = file_length - text_payload_offset(encoding, text);
    assert(layout.dependents == variables - 1);
    assert(layout.length() == length) by (nonlinear_arith)
        requires
            layout.length() == points * (x_width + (variables - 1) * y_width),
            length == points * x_width + points * (variables - 1) * y_width,
    ;
    assert(0 <= layout.length()) by (nonlinear_arith)
        requires
            layout.length() == points * (x_width + (variables - 1) * y_width),
            0 <= points,
            0 <= variables - 1,
            0 <= x_width,
            0 <= y_width,
    ;
    let at = boundary_position(text);
    let somewhere = choose|at: int| occurs_at(text, boundary_marker(), at);
    lemma_first_occurrence(text, boundary_marker(), somewhere);
    assert(first_occurrence(text, boundary_marker(), at));
    assert(0 <= payload_offset(encoding, at)) by (nonlinear_arith)
        requires
            payload_offset(encoding, at) == (at + 8) * encoding.unit_width(),
            0 <= at,
            0 <= encoding.unit_width(),
    ;
}

/// Decodes a file from its text and its bytes: `text` is what the bytes read
/// as in the given encoding, and the payload is read in the given byte order.
///
/// The file is decoded if, and only if, nothing of what `text_failure` lists
/// holds; else the first of them that holds is returned. The payload of a
/// decoded file has exactly the expected length.
pub fn parse_text(encoding: Encoding, text: &[char], bytes: &[u8], order: ByteOrder) -> (r: Result<
    Parsed,
    ParseError,
>)
    ensures
        match r {
            Ok(parsed) => {
                &&& text_failure(encoding, text@, bytes.len() as int) is None
                &&& parsed.reads_text(encoding, text@, bytes@, order)
                &&& bytes.len() - text_payload_offset(encoding, text@) == expected_payload_length(
                    parsed.header.points as int,
                    parsed.header.variables as int,
                    text_layout(text@).x_type.width(),
                    text_layout(text@).y_type.width(),
                )
            },
            Err(e) => text_failure(encoding, text@, bytes.len() as int) == Some(e),
        },
{
    proof {
        if text_failure(encoding, text@, bytes.len() as int) is None {
            lemma_decodable_payload_length(encoding, text@, bytes.len() as int);
        }
    }
    let at = find_boundary(text)?;
    proof {
        lemma_boundary_position(text@, at as int);
    }
    let fields = split_fields(slice_subrange(text, 0, at + 7));
    let header = read_header(&fields)?;
    let length = match payload_length(encoding, at, bytes.len()) {
        Some(length) => length,
        None => {
            proof {
                lemma_no_negative_payload(
                    header.mode,
                    header.flags@,
                    header.points as int,
                    header.variables as int,
                    header.declared@.len() as int,
                    bytes.len() - text_payload_offset(encoding, text@),
                );
            }
            return Err(ParseError::LayoutMismatch);
        },
    };
    let payload = slice_subrange(bytes, bytes.len() - length, bytes.len());
    let decoded = decode(&header, payload, order)?;
    assert(layout_of(header) == text_layout(text@));
    Ok(Parsed { encoding, header, decoded })
}

/// Decodes a file from its bytes, the payload read in the given byte order.
///
/// The file is decoded if, and only if, an encoding is found for it and
/// nothing of what `text_failure` lists holds of its text.
pub fn parse(bytes: &[u8], order: ByteOrder) -> (r: Result<Parsed, ParseError>)
    ensures
        match r {
            Ok(parsed) => {
                &&& failure(bytes@) is None
                &&& parsed.reads(bytes@, order)
                &&& bytes.len() - file_payload_offset(bytes@) == expected_payload_length(
                    parsed.header.points as int,
                    parsed.header.variables as int,
                    file_layout(bytes@).x_type.width(),
                    file_layout(bytes@).y_type.width(),
                )
            },
            Err(e) => failure(bytes@) == Some(e),
        },
{
    let (encoding, text) = detect_encoding(bytes)?;
    parse_text(encoding, text.as_slice(), bytes, order)
}

} // verus!
