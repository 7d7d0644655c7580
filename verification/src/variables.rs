//! The declarations of the dependent variables in the `Variables` field.
//!
//! Each line that a line feed closes may declare one variable. Such a line
//! holds an index, the variable's name and a type tag, with optional white
//! space before each: the index is a run of digits; the name is one or more
//! of the letters `V`, `I` and `x`, an opening parenthesis, at least one
//! character, and the last closing parenthesis of the line; the tag is a run
//! of letters, digits and underscores that ends the line. Other lines, such
//! as that of the independent variable, declare nothing.

use vstd::prelude::*;
use vstd::slice::slice_subrange;
use crate::model::{SteppedVariable, VariableClass};
use crate::text::{run_end, scan, spells, string_of, CharClass};

verus! {

/// A declared variable as a pair of class and name.
pub open spec fn variable_views(variables: Seq<SteppedVariable>) -> Seq<(VariableClass, Seq<char>)> {
    variables.map_values(|variable: SteppedVariable| (variable.class, variable.name@))
}

/// The class that the letters before the parenthesis stand for.
pub open spec fn class_named(letters: Seq<char>) -> VariableClass {
    if letters == "V"@ {
        VariableClass::Voltage
    } else if letters == "I"@ {
        VariableClass::Current
    } else {
        VariableClass::Unknown
    }
}

/// The last position at which the text holds the character, or -1.
pub open spec fn last_index(text: Seq<char>, c: char) -> int
    decreases text.len(),
{
    if text.len() == 0 {
        -1
    } else if text.last() == c {
        text.len() - 1
    } else {
        last_index(text.drop_last(), c)
    }
}

/// The variable that a line declares, if it declares one.
pub open spec fn declared_in(line: Seq<char>) -> Option<(VariableClass, Seq<char>)> {
    let index = run_end(line, 0, CharClass::Space);
    let gap = run_end(line, index, CharClass::Digit);
    let name = run_end(line, gap, CharClass::Space);
    let open = run_end(line, name, CharClass::Kind);
    let close = last_index(line, ')');
    let tag = run_end(line, close + 1, CharClass::Space);
    let end = run_end(line, tag, CharClass::Word);
    if index < gap && name < open && open < line.len() && line[open] == '(' && open + 1 < close
        && tag < end && end == line.len() {
        Some((class_named(line.subrange(name, open)), line.subrange(name, close + 1)))
    } else {
        None
    }
}

/// Whether a line that a line feed closes begins at position `at`.
pub open spec fn line_starts_at(text: Seq<char>, at: int) -> bool {
    &&& 0 <= at < text.len()
    &&& (at == 0 || text[at - 1] == '\n')
    &&& run_end(text, at, CharClass::Inline) < text.len()
}

/// The line that begins at position `at`, without its line feed.
pub open spec fn line_at(text: Seq<char>, at: int) -> Seq<char> {
    text.subrange(at, run_end(text, at, CharClass::Inline))
}

/// The variables that the lines at or behind position `at` declare, in the
/// order of the text.
pub open spec fn variables_from(text: Seq<char>, at: int) -> Seq<(VariableClass, Seq<char>)>
    decreases text.len() - at,
{
    if at >= text.len() {
        Seq::empty()
    } else if line_starts_at(text, at) && declared_in(line_at(text, at)) is Some {
        seq![declared_in(line_at(text, at))->0] + variables_from(text, at + 1)
    } else {
        variables_from(text, at + 1)
    }
}

/// The variables that the value of a `Variables` field declares.
pub open spec fn declared_variables(value: Seq<char>) -> Seq<(VariableClass, Seq<char>)> {
    variables_from(value, 0)
}

/// Finds the last position at which the text holds the character.
pub fn find_last(text: &[char], c: char) -> (at: Option<usize>)
    ensures
        match at {
            Some(at) => at == last_index(text@, c) && at < text.len(),
            None => last_index(text@, c) == -1,
        },
{
    let mut end: usize = text.len();
    assert(text@.take(end as int) =~= text@);
    while end > 0
        invariant
            end <= text.len(),
            last_index(text@, c) == last_index(text@.take(end as int), c),
        decreases end,
    {
        if text[end - 1] == c {
            return Some(end - 1);
        }
        assert(text@.take(end as int).drop_last() =~= text@.take(end - 1));
        end = end - 1;
    }
    None
}

/// Tells the class that the letters before the parenthesis stand for.
pub fn class_of(letters: &[char]) -> (class: VariableClass)
    ensures
        class == class_named(letters@),
{
    if spells(letters, "V") {
        VariableClass::Voltage
    } else if spells(letters, "I") {
        VariableClass::Current
    } else {
        VariableClass::Unknown
    }
}

/// Reads the variable that a line declares, if it declares one.
pub fn read_declaration(line: &[char]) -> (r: Option<SteppedVariable>)
    ensures
        match r {
            Some(variable) => declared_in(line@) == Some((variable.class, variable.name@)),
            None => declared_in(line@) is None,
        },
{
    let index = scan(line, 0, CharClass::Space);
    let gap = scan(line, index, CharClass::Digit);
    let name = scan(line, gap, CharClass::Space);
    let open = scan(line, name, CharClass::Kind);
    let close = match find_last(line, ')') {
        Some(close) => close,
        None => {
            return None;
        },
    };
    let tag = scan(line, close + 1, CharClass::Space);
    let end = scan(line, tag, CharClass::Word);
    if index < gap && name < open && open < line.len() && line[open] == '(' && open + 1 < close
        && tag < end && end == line.len() {
        Some(
            SteppedVariable {
                class: class_of(slice_subrange(line, name, open)),
                name: string_of(slice_subrange(line, name, close + 1)),
            },
        )
    } else {
        None
    }
}

/// Reads the variables that the value of a `Variables` field declares.
pub fn read_variables(value: &[char]) -> (variables: Vec<SteppedVariable>)
    ensures
        variable_views(variables@) == declared_variables(value@),
{
    let mut variables: Vec<SteppedVariable> = Vec::new();
    let mut at: usize = 0;
    while at < value.len()
        invariant
            at <= value.len(),
            variable_views(variables@) + variables_from(value@, at as int) == declared_variables(
                value@,
            ),
        decreases value.len() - at,
    {
        if at == 0 || value[at - 1] == '\n' {
            let end = scan(value, at, CharClass::Inline);
            if end < value.len() {
                match read_declaration(slice_subrange(value, at, end)) {
                    Some(variable) => {
                        let ghost before = variables@;
                        let ghost declared = (variable.class, variable.name@);
                        variables.push(variable);
                        assert(variable_views(variables@) =~= variable_views(before) + seq![
                            declared,
                        ]);
                        assert(variable_views(variables@) + variables_from(value@, at + 1)
                            =~= variable_views(before) + variables_from(value@, at as int));
                    },
                    None => {},
                }
            }
        }
        at = at + 1;
    }
    assert(variable_views(variables@) + variables_from(value@, at as int) =~= variable_views(
        variables@,
    ));
    variables
}

} // verus!
