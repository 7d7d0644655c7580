//! The header of a waveform file: a sequence of fields, each a name, a colon
//! and a value.
//!
//! A field begins at the start of the text or directly behind a line feed.
//! Its name is made of ASCII letters, spaces and periods and ends in a letter;
//! a colon follows. Its value is all that stands between the colon and the
//! line feed before the next field, or the end of the text for the last
//! field. The text of a header ends with the colon of the line `Binary:`;
//! that colon closes the header and names no field, so the value of the last
//! field runs through it.

use vstd::prelude::*;
use vstd::slice::{slice_subrange, slice_to_vec};
use crate::text::{is_letter, letter, run_end, scan, CharClass};

verus! {

/// A field of a header as it is written.
#[derive(Debug)]
pub struct Field {
    pub name: Vec<char>,
    pub value: Vec<char>,
}

impl View for Field {
    type V = (Seq<char>, Seq<char>);

    open spec fn view(&self) -> (Seq<char>, Seq<char>) {
        (self.name@, self.value@)
    }
}

/// The fields of a sequence, each as a pair of name and value.
pub open spec fn field_views(fields: Seq<Field>) -> Seq<(Seq<char>, Seq<char>)> {
    fields.map_values(|field: Field| field@)
}

/// Whether a field begins at position `at` of the text.
pub open spec fn field_starts_at(text: Seq<char>, at: int) -> bool {
    let colon = run_end(text, at, CharClass::Name);
    &&& 0 <= at < text.len()
    &&& (at == 0 || text[at - 1] == '\n')
    &&& at < colon
    &&& colon + 1 < text.len()
    &&& is_letter(text[colon - 1])
    &&& text[colon] == ':'
}

/// The first position at or behind `from` at which a field begins, or the
/// length of the text if there is none.
pub open spec fn next_field(text: Seq<char>, from: int) -> int
    decreases text.len() - from,
{
    if from >= text.len() {
        text.len() as int
    } else if field_starts_at(text, from) {
        from
    } else {
        next_field(text, from + 1)
    }
}

/// The field that begins at position `at`: its name stands before the colon,
/// its value behind it. The value ends before the line feed in front of the
/// next field, or with the text.
pub open spec fn field_at(text: Seq<char>, at: int) -> (Seq<char>, Seq<char>) {
    let colon = run_end(text, at, CharClass::Name);
    let next = next_field(text, colon + 1);
    let end = if next < text.len() {
        next - 1
    } else {
        next
    };
    (text.subrange(at, colon), text.subrange(colon + 1, end))
}

/// The fields that begin at or behind position `at`, in the order of the text.
pub open spec fn fields_from(text: Seq<char>, at: int) -> Seq<(Seq<char>, Seq<char>)>
    decreases text.len() - at,
{
    if at >= text.len() {
        Seq::empty()
    } else if field_starts_at(text, at) {
        seq![field_at(text, at)] + fields_from(text, at + 1)
    } else {
        fields_from(text, at + 1)
    }
}

/// The fields of a header, in the order of the text.
pub open spec fn header_fields(text: Seq<char>) -> Seq<(Seq<char>, Seq<char>)> {
    fields_from(text, 0)
}

/// `next_field` finds a field and skips none.
pub proof fn lemma_next_field(text: Seq<char>, from: int)
    requires
        0 <= from <= text.len(),
    ensures
        from <= next_field(text, from) <= text.len(),
        next_field(text, from) < text.len() ==> field_starts_at(text, next_field(text, from)),
        forall|at: int| from <= at < next_field(text, from) ==> !field_starts_at(text, at),
    decreases text.len() - from,
{
    if from < text.len() && !field_starts_at(text, from) {
        lemma_next_field(text, from + 1);
    }
}

/// Tells whether a field begins at position `at`.
pub fn is_field_start(text: &[char], at: usize) -> (r: bool)
    ensures
        r == field_starts_at(text@, at as int),
{
    if at >= text.len() {
        return false;
    }
    if at > 0 && text[at - 1] != '\n' {
        return false;
    }
    let colon = scan(text, at, CharClass::Name);
    at < colon && colon < text.len() - 1 && letter(text[colon - 1]) && text[colon] == ':'
}

/// Finds the first position at or behind `from` at which a field begins.
pub fn find_field(text: &[char], from: usize) -> (at: usize)
    ensures
        at == next_field(text@, from as int),
        at <= text.len(),
        from <= text.len() ==> from <= at,
{
    if from > text.len() {
        return text.len();
    }
    let mut at: usize = from;
    while at < text.len() && !is_field_start(text, at)
        invariant
            from <= at <= text.len(),
            next_field(text@, from as int) == next_field(text@, at as int),
        decreases text.len() - at,
    {
        at = at + 1;
    }
    at
}

/// Reads the field that begins at position `at`.
fn read_field(text: &[char], at: usize) -> (field: Field)
    requires
        field_starts_at(text@, at as int),
    ensures
        field@ == field_at(text@, at as int),
{
    let colon = scan(text, at, CharClass::Name);
    let next = find_field(text, colon + 1);
    proof {
        lemma_next_field(text@, colon + 1);
    }
    let end: usize = if next < text.len() {
        next - 1
    } else {
        next
    };
    Field {
        name: slice_to_vec(slice_subrange(text, at, colon)),
        value: slice_to_vec(slice_subrange(text, colon + 1, end)),
    }
}

/// Splits the text of a header into its fields.
pub fn split_fields(text: &[char]) -> (fields: Vec<Field>)
    ensures
        field_views(fields@) == header_fields(text@),
{
    let mut fields: Vec<Field> = Vec::new();
    let mut at: usize = 0;
    while at < text.len()
        invariant
            at <= text.len(),
            field_views(fields@) + fields_from(text@, at as int) == header_fields(text@),
        decreases text.len() - at,
    {
        if is_field_start(text, at) {
            let field = read_field(text, at);
            let ghost before = fields@;
            fields.push(field);
            assert(field_views(fields@) =~= field_views(before) + seq![field_at(text@, at as int)]);
            assert(field_views(fields@) + fields_from(text@, at + 1) =~= field_views(before)
                + fields_from(text@, at as int));
        }
        at = at + 1;
    }
    assert(field_views(fields@) + fields_from(text@, at as int) =~= field_views(fields@));
    fields
}

} // verus!
