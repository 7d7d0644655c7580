//! The text of a file: which encoding its header is written in, and where
//! the header ends and the payload begins.

use vstd::prelude::*;
use crate::model::{Encoding, ParseError};
use crate::text::{chars_of, find, first_occurrence, occurs};

verus! {

/// The text that `String::from_utf8_lossy` reads from the given bytes.
pub uninterp spec fn utf8_lossy_text(bytes: Seq<u8>) -> Seq<char>;

/// The text that `String::from_utf16_lossy` reads from the given code units.
pub uninterp spec fn utf16_lossy_text(units: Seq<u16>) -> Seq<char>;

/// `String::from_utf8_lossy`: the text that the bytes spell as UTF-8, with
/// U+FFFD in place of each part that is not well formed. The result is a
/// function of the bytes alone.
#[verifier::external_body]
fn decode_utf8_lossy(bytes: &[u8]) -> (text: String)
    ensures
        text@ == utf8_lossy_text(bytes@),
{
    String::from_utf8_lossy(bytes).into_owned()
}

/// `String::from_utf16_lossy`: the text that the code units spell as UTF-16,
/// with U+FFFD in place of each unpaired surrogate. The result is a function
/// of the code units alone.
#[verifier::external_body]
fn decode_utf16_lossy(units: &[u16]) -> (text: String)
    ensures
        text@ == utf16_lossy_text(units@),
{
    String::from_utf16_lossy(units)
}

/// The 16-bit code units that the bytes hold, two bytes each, the first byte
/// counting least. A last odd byte belongs to no unit.
pub open spec fn le_units(bytes: Seq<u8>) -> Seq<u16> {
    Seq::new(bytes.len() / 2, |k: int| (bytes[2 * k] + 0x100 * bytes[2 * k + 1]) as u16)
}

/// Reads the bytes as little-endian 16-bit code units.
pub fn code_units(bytes: &[u8]) -> (units: Vec<u16>)
    ensures
        units@ == le_units(bytes@),
{
    let count: usize = bytes.len() / 2;
    let mut units: Vec<u16> = Vec::new();
    let mut k: usize = 0;
    while k < count
        invariant
            count == bytes.len() / 2,
            k <= count,
            units@ == le_units(bytes@).take(k as int),
        decreases count - k,
    {
        let low: u16 = bytes[2 * k] as u16;
        let high: u16 = bytes[2 * k + 1] as u16;
        units.push(low + 0x100 * high);
        assert(units@ =~= le_units(bytes@).take(k + 1));
        k = k + 1;
    }
    assert(le_units(bytes@).take(count as int) =~= le_units(bytes@));
    units
}

/// Whether a text holds one of the two words by which a decoded header is
/// recognised.
pub open spec fn shows_marker(text: Seq<char>) -> bool {
    occurs(text, "Values"@) || occurs(text, "Binary"@)
}

/// Tells whether a text holds `Values` or `Binary`.
pub fn has_marker(text: &[char]) -> (r: bool)
    ensures
        r == shows_marker(text@),
{
    let values = chars_of("Values");
    if find(text, values.as_slice()).is_some() {
        return true;
    }
    let binary = chars_of("Binary");
    find(text, binary.as_slice()).is_some()
}

/// The encoding of a file and its whole content as text: UTF-8 if the text
/// read that way shows a marker, else UTF-16 if the text read that way does,
/// else none.
pub open spec fn detected_text(bytes: Seq<u8>) -> Option<(Encoding, Seq<char>)> {
    if shows_marker(utf8_lossy_text(bytes)) {
        Some((Encoding::UTF8, utf8_lossy_text(bytes)))
    } else if shows_marker(utf16_lossy_text(le_units(bytes))) {
        Some((Encoding::UTF16, utf16_lossy_text(le_units(bytes))))
    } else {
        None
    }
}

/// Finds the encoding of a file and reads its content as text.
///
/// The candidates are tried in the order UTF-8, UTF-16; the first under which
/// the text shows a marker is taken. With none the file is not decodable.
pub fn detect_encoding(bytes: &[u8]) -> (r: Result<(Encoding, Vec<char>), ParseError>)
    ensures
        match r {
            Ok((encoding, text)) => detected_text(bytes@) == Some((encoding, text@)),
            Err(e) => e == ParseError::UndecodableHeader && detected_text(bytes@) is None,
        },
{
    let narrow = chars_of(decode_utf8_lossy(bytes).as_str());
    if has_marker(narrow.as_slice()) {
        return Ok((Encoding::UTF8, narrow));
    }
    let units = code_units(bytes);
    let wide = chars_of(decode_utf16_lossy(units.as_slice()).as_str());
    if has_marker(wide.as_slice()) {
        return Ok((Encoding::UTF16, wide));
    }
    Err(ParseError::UndecodableHeader)
}

/// The line that ends the header. The payload begins behind its line feed.
pub open spec fn boundary_marker() -> Seq<char> {
    "Binary:\n"@
}

/// Finds the first place at which the text holds the line that ends the header.
pub fn find_boundary(text: &[char]) -> (r: Result<usize, ParseError>)
    ensures
        match r {
            Ok(at) => first_occurrence(text@, boundary_marker(), at as int) && at + 8
                <= text.len(),
            Err(e) => e == ParseError::MissingBoundaryMarker && !occurs(text@, boundary_marker()),
        },
{
    let marker = chars_of("Binary:\n");
    proof {
        reveal_strlit("Binary:\n");
    }
    match find(text, marker.as_slice()) {
        Some(at) => Ok(at),
        None => Err(ParseError::MissingBoundaryMarker),
    }
}

/// Where the payload begins in the file, counted in bytes, when the marker
/// stands at position `marker_at` of the text: behind the marker's eight
/// characters, each as wide as a code unit of the encoding.
pub open spec fn payload_offset(encoding: Encoding, marker_at: int) -> int {
    (marker_at + 8) * encoding.unit_width()
}

/// The number of bytes behind the header, if the file is long enough to hold
/// the header at all.
pub fn payload_length(encoding: Encoding, marker_at: usize, file_length: usize) -> (r: Option<
    usize,
>)
    ensures
        match r {
            Some(length) => length == file_length - payload_offset(encoding, marker_at as int),
            None => file_length < payload_offset(encoding, marker_at as int),
        },
{
    let width = encoding.code_unit_width();
    let end = match marker_at.checked_add(8) {
        Some(end) => end,
        None => {
            assert(usize::MAX < (marker_at + 8) * width) by (nonlinear_arith)
                requires
                    usize::MAX < marker_at + 8,
                    1 <= width,
            ;
            return None;
        },
    };
    match end.checked_mul(width) {
        Some(offset) => if offset <= file_length {
            Some(file_length - offset)
        } else {
            None
        },
        None => None,
    }
}

} // verus!
