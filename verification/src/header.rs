//! What the fields of a header say.
//!
//! A field may be written more than once; the last one counts. Fields with
//! other names than the known ones are carried along by name and change
//! nothing.

use vstd::prelude::*;
use vstd::slice::slice_subrange;
use crate::fields::{field_views, Field};
use crate::model::{Flags, Mode, ParseError, SteppedVariable, VariableClass};
use crate::text::{
    chars_of, is_space, parse_unsigned, run_end, same_text, scan, space, spells, string_of, trim,
    trimmed, unsigned_number, CharClass,
};
use crate::variables::{declared_variables, read_variables, variable_views};

verus! {

/// The value of the last field with the given name.
pub open spec fn last_value(fields: Seq<(Seq<char>, Seq<char>)>, name: Seq<char>) -> Option<
    Seq<char>,
>
    decreases fields.len(),
{
    if fields.len() == 0 {
        None
    } else if fields.last().0 == name {
        Some(fields.last().1)
    } else {
        last_value(fields.drop_last(), name)
    }
}

/// The analysis that a plot name stands for.
pub open spec fn named_mode(name: Seq<char>) -> Option<Mode> {
    if name == "Transient Analysis"@ {
        Some(Mode::Transient)
    } else if name == "AC Analysis"@ {
        Some(Mode::AC)
    } else if name == "DC Analysis"@ {
        Some(Mode::DC)
    } else if name == "Noise Analysis"@ {
        Some(Mode::Noise)
    } else if name == "Operating Point"@ {
        Some(Mode::OperatingPoint)
    } else if name == "FFT"@ {
        Some(Mode::FFT)
    } else {
        None
    }
}

/// The analysis mode of a header: that which the value of the `Plotname`
/// field names, taken as it is written; a transient analysis where the field
/// is missing or names none.
pub open spec fn mode_in(fields: Seq<(Seq<char>, Seq<char>)>) -> Mode {
    match last_value(fields, "Plotname"@) {
        Some(value) => match named_mode(value) {
            Some(mode) => mode,
            None => Mode::Transient,
        },
        None => Mode::Transient,
    }
}

/// The storage flag that a word stands for.
pub open spec fn named_flag(word: Seq<char>) -> Option<Flags> {
    if word == "stepped"@ {
        Some(Flags::Stepped)
    } else if word == "real"@ {
        Some(Flags::Real)
    } else if word == "double"@ {
        Some(Flags::Double)
    } else {
        None
    }
}

/// Whether a word begins at position `at`: a character that is no white
/// space, at the start of the text or behind white space.
pub open spec fn word_starts_at(text: Seq<char>, at: int) -> bool {
    &&& 0 <= at < text.len()
    &&& !is_space(text[at])
    &&& (at == 0 || is_space(text[at - 1]))
}

/// The word that begins at position `at`: it runs up to the next white space.
pub open spec fn word_at(text: Seq<char>, at: int) -> Seq<char> {
    text.subrange(at, run_end(text, at, CharClass::Solid))
}

/// The flags that the words at or behind position `at` name, in the order of
/// the text. Words that name no flag are passed over.
pub open spec fn flags_from(text: Seq<char>, at: int) -> Seq<Flags>
    decreases text.len() - at,
{
    if at >= text.len() {
        Seq::empty()
    } else if word_starts_at(text, at) && named_flag(word_at(text, at)) is Some {
        seq![named_flag(word_at(text, at))->0] + flags_from(text, at + 1)
    } else {
        flags_from(text, at + 1)
    }
}

/// The storage flags of a header: those that the words of the `Flags` field
/// name.
pub open spec fn flags_in(fields: Seq<(Seq<char>, Seq<char>)>) -> Seq<Flags> {
    match last_value(fields, "Flags"@) {
        Some(value) => flags_from(value, 0),
        None => Seq::empty(),
    }
}

/// The number in the field with the given name, white space at its ends
/// aside: 0 where the field is missing, none where it writes no unsigned
/// 32-bit number.
pub open spec fn count_in(fields: Seq<(Seq<char>, Seq<char>)>, name: Seq<char>) -> Option<u32> {
    match last_value(fields, name) {
        Some(value) => unsigned_number(trimmed(value)),
        None => Some(0u32),
    }
}

/// The dependent variables of a header: those that the `Variables` field
/// declares.
pub open spec fn variables_in(fields: Seq<(Seq<char>, Seq<char>)>) -> Seq<
    (VariableClass, Seq<char>),
> {
    match last_value(fields, "Variables"@) {
        Some(value) => declared_variables(value),
        None => Seq::empty(),
    }
}

/// Whether a field name is one that the decoder knows.
pub open spec fn known_name(name: Seq<char>) -> bool {
    ||| name == "Title"@
    ||| name == "Date"@
    ||| name == "Plotname"@
    ||| name == "Flags"@
    ||| name == "No. Points"@
    ||| name == "No. Variables"@
    ||| name == "Variables"@
    ||| name == "Command"@
    ||| name == "Backannotation"@
    ||| name == "Offset"@
}

/// The names of the fields that the decoder does not know, in the order of
/// the header.
pub open spec fn unknown_names(fields: Seq<(Seq<char>, Seq<char>)>) -> Seq<Seq<char>>
    decreases fields.len(),
{
    if fields.len() == 0 {
        Seq::empty()
    } else if known_name(fields.last().0) {
        unknown_names(fields.drop_last())
    } else {
        unknown_names(fields.drop_last()).push(fields.last().0)
    }
}

/// The texts of a sequence of strings.
pub open spec fn texts(strings: Seq<String>) -> Seq<Seq<char>> {
    strings.map_values(|s: String| s@)
}

/// What a header says.
#[derive(Debug)]
pub struct Header {
    /// The analysis mode.
    pub mode: Mode,
    /// The storage flags, in the order in which they are written.
    pub flags: Vec<Flags>,
    /// The number of points.
    pub points: u32,
    /// The number of variables, the independent one included.
    pub variables: u32,
    /// The dependent variables, in the order in which they are declared.
    pub declared: Vec<SteppedVariable>,
    /// The value of the `Date` field, if there is one.
    pub date: Option<Vec<char>>,
    /// The names of the fields that the decoder does not know.
    pub unknown: Vec<String>,
}

impl Header {
    /// Whether this is what the given fields say.
    pub open spec fn reads(&self, fields: Seq<(Seq<char>, Seq<char>)>) -> bool {
        &&& self.mode == mode_in(fields)
        &&& self.flags@ == flags_in(fields)
        &&& count_in(fields, "No. Points"@) == Some(self.points)
        &&& count_in(fields, "No. Variables"@) == Some(self.variables)
        &&& variable_views(self.declared@) == variables_in(fields)
        &&& match self.date {
            Some(text) => last_value(fields, "Date"@) == Some(text@),
            None => last_value(fields, "Date"@) is None,
        }
        &&& texts(self.unknown@) == unknown_names(fields)
    }
}

/// Finds the value of the last field with the given name.
pub fn lookup<'a>(fields: &'a Vec<Field>, name: &str) -> (value: Option<&'a Vec<char>>)
    ensures
        match value {
            Some(value) => last_value(field_views(fields@), name@) == Some(value@),
            None => last_value(field_views(fields@), name@) is None,
        },
{
    let wanted = chars_of(name);
    let ghost views = field_views(fields@);
    let mut end: usize = fields.len();
    assert(views.take(end as int) =~= views);
    while end > 0
        invariant
            end <= fields.len(),
            views == field_views(fields@),
            wanted@ == name@,
            last_value(views, name@) == last_value(views.take(end as int), name@),
        decreases end,
    {
        assert(views.take(end as int).last() == fields@[end - 1]@);
        if same_text(fields[end - 1].name.as_slice(), wanted.as_slice()) {
            return Some(&fields[end - 1].value);
        }
        assert(views.take(end as int).drop_last() =~= views.take(end - 1));
        end = end - 1;
    }
    None
}

/// Tells the analysis that a plot name stands for.
pub fn mode_named(name: &[char]) -> (mode: Option<Mode>)
    ensures
        mode == named_mode(name@),
{
    if spells(name, "Transient Analysis") {
        Some(Mode::Transient)
    } else if spells(name, "AC Analysis") {
        Some(Mode::AC)
    } else if spells(name, "DC Analysis") {
        Some(Mode::DC)
    } else if spells(name, "Noise Analysis") {
        Some(Mode::Noise)
    } else if spells(name, "Operating Point") {
        Some(Mode::OperatingPoint)
    } else if spells(name, "FFT") {
        Some(Mode::FFT)
    } else {
        None
    }
}

/// Tells the storage flag that a word stands for.
pub fn flag_named(word: &[char]) -> (flag: Option<Flags>)
    ensures
        flag == named_flag(word@),
{
    if spells(word, "stepped") {
        Some(Flags::Stepped)
    } else if spells(word, "real") {
        Some(Flags::Real)
    } else if spells(word, "double") {
        Some(Flags::Double)
    } else {
        None
    }
}

/// Reads the flags that the words of a `Flags` field name.
pub fn read_flags(value: &[char]) -> (flags: Vec<Flags>)
    ensures
        flags@ == flags_from(value@, 0),
{
    let mut flags: Vec<Flags> = Vec::new();
    let mut at: usize = 0;
    while at < value.len()
        invariant
            at <= value.len(),
            flags@ + flags_from(value@, at as int) == flags_from(value@, 0),
        decreases value.len() - at,
    {
        if !space(value[at]) && (at == 0 || space(value[at - 1])) {
            let end = scan(value, at, CharClass::Solid);
            match flag_named(slice_subrange(value, at, end)) {
                Some(flag) => {
                    let ghost before = flags@;
                    flags.push(flag);
                    assert(flags@ + flags_from(value@, at + 1) =~= before + flags_from(
                        value@,
                        at as int,
                    ));
                },
                None => {},
            }
        }
        at = at + 1;
    }
    assert(flags@ + flags_from(value@, at as int) =~= flags@);
    flags
}

/// Tells whether a field name is one that the decoder knows.
pub fn is_known(name: &[char]) -> (r: bool)
    ensures
        r == known_name(name@),
{
    spells(name, "Title") || spells(name, "Date") || spells(name, "Plotname") || spells(
        name,
        "Flags",
    ) || spells(name, "No. Points") || spells(name, "No. Variables") || spells(name, "Variables")
        || spells(name, "Command") || spells(name, "Backannotation") || spells(name, "Offset")
}

/// Collects the names of the fields that the decoder does not know.
pub fn collect_unknown(fields: &Vec<Field>) -> (names: Vec<String>)
    ensures
        texts(names@) == unknown_names(field_views(fields@)),
{
    let ghost views = field_views(fields@);
    let mut names: Vec<String> = Vec::new();
    let mut k: usize = 0;
    assert(texts(names@) =~= unknown_names(views.take(0)));
    while k < fields.len()
        invariant
            k <= fields.len(),
            views == field_views(fields@),
            texts(names@) == unknown_names(views.take(k as int)),
        decreases fields.len() - k,
    {
        assert(views.take(k + 1).drop_last() =~= views.take(k as int));
        assert(views.take(k + 1).last() == fields@[k as int]@);
        if !is_known(fields[k].name.as_slice()) {
            let name = string_of(fields[k].name.as_slice());
            let ghost before = names@;
            names.push(name);
            assert(texts(names@) =~= texts(before).push(fields@[k as int]@.0));
        }
        k = k + 1;
    }
    assert(views.take(fields.len() as int) =~= views);
    names
}

/// Reads the number in the field with the given name.
pub fn read_count(fields: &Vec<Field>, name: &str) -> (r: Result<u32, ParseError>)
    ensures
        match r {
            Ok(count) => count_in(field_views(fields@), name@) == Some(count),
            Err(e) => e == ParseError::MalformedNumericField && count_in(
                field_views(fields@),
                name@,
            ) is None,
        },
{
    match lookup(fields, name) {
        Some(value) => match parse_unsigned(trim(value.as_slice())) {
            Some(count) => Ok(count),
            None => Err(ParseError::MalformedNumericField),
        },
        None => Ok(0),
    }
}

/// Reads what the fields of a header say.
///
/// This fails if, and only if, `No. Points` or `No. Variables` is there and
/// writes no unsigned 32-bit number.
pub fn read_header(fields: &Vec<Field>) -> (r: Result<Header, ParseError>)
    ensures
        match r {
            Ok(header) => header.reads(field_views(fields@)),
            Err(e) => e == ParseError::MalformedNumericField && (count_in(
                field_views(fields@),
                "No. Points"@,
            ) is None || count_in(field_views(fields@), "No. Variables"@) is None),
        },
{
    let mode = match lookup(fields, "Plotname") {
        Some(value) => match mode_named(value.as_slice()) {
            Some(mode) => mode,
            None => Mode::Transient,
        },
        None => Mode::Transient,
    };
    let flags = match lookup(fields, "Flags") {
        Some(value) => read_flags(value.as_slice()),
        None => Vec::new(),
    };
    let points = read_count(fields, "No. Points")?;
    let variables = read_count(fields, "No. Variables")?;
    let declared = match lookup(fields, "Variables") {
        Some(value) => read_variables(value.as_slice()),
        None => Vec::new(),
    };
    let date = match lookup(fields, "Date") {
        Some(value) => Some(vstd::slice::slice_to_vec(value.as_slice())),
        None => None,
    };
    let unknown = collect_unknown(fields);
    proof {
        assert(variable_views(Seq::<SteppedVariable>::empty()) =~= Seq::empty());
    }
    Ok(Header { mode, flags, points, variables, declared, date, unknown })
}

} // verus!
