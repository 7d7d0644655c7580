//! The date of a simulation.
//!
//! The header gives the date as free text. Reading it is left to the
//! `dateparser` crate, and the clock to `chrono`; what comes back depends on
//! the time zone of the machine and on the current time, so nothing is known
//! of it in advance. Where the text is no date, a fallback stands in.

use vstd::prelude::*;
use crate::text::{digit, digit_value, is_digit, run_end, scan, string_of, CharClass};

verus! {

/// A point in time: the seconds since the start of 1970 in UTC, leap seconds
/// not counted, and the nanoseconds since the last full second.
#[derive(Debug, Clone, Copy, PartialEq, Eq, Structural)]
pub struct Timestamp {
    pub seconds: i64,
    pub nanoseconds: u32,
}

/// Whether the text holds, at position `at`, a sign, two digits that make 24
/// or more, any number of colons, and two more digits: the form of a time
/// zone offset of a day or more.
pub open spec fn wide_offset_at(text: Seq<char>, at: int) -> bool {
    let minutes = run_end(text, at + 3, CharClass::Colon);
    &&& 0 <= at
    &&& at + 2 < text.len()
    &&& (text[at] == '+' || text[at] == '-')
    &&& is_digit(text[at + 1])
    &&& is_digit(text[at + 2])
    &&& digit_value(text[at + 1]) * 10 + digit_value(text[at + 2]) >= 24
    &&& minutes + 1 < text.len()
    &&& is_digit(text[minutes])
    &&& is_digit(text[minutes + 1])
}

/// Whether the text holds the form of a time zone offset of a day or more.
pub open spec fn has_wide_offset(text: Seq<char>) -> bool {
    exists|at: int| wide_offset_at(text, at)
}

/// Tells whether the text holds, at position `at`, the form of a time zone
/// offset of a day or more.
pub fn is_wide_offset(text: &[char], at: usize) -> (r: bool)
    ensures
        r == wide_offset_at(text@, at as int),
{
    if text.len() < 3 || at >= text.len() - 2 {
        return false;
    }
    if text[at] != '+' && text[at] != '-' {
        return false;
    }
    if !digit(text[at + 1]) || !digit(text[at + 2]) {
        return false;
    }
    let hours: u32 = (text[at + 1] as u32 - '0' as u32) * 10 + (text[at + 2] as u32 - '0' as u32);
    if hours < 24 {
        return false;
    }
    let minutes = scan(text, at + 3, CharClass::Colon);
    if text.len() - minutes < 2 {
        return false;
    }
    digit(text[minutes]) && digit(text[minutes + 1])
}

/// Tells whether the text holds the form of a time zone offset of a day or
/// more.
pub fn holds_wide_offset(text: &[char]) -> (r: bool)
    ensures
        r == has_wide_offset(text@),
{
    let mut at: usize = 0;
    while at < text.len()
        invariant
            forall|earlier: int| 0 <= earlier < at ==> !wide_offset_at(text@, earlier),
        decreases text.len() - at,
    {
        if is_wide_offset(text, at) {
            return true;
        }
        at = at + 1;
    }
    false
}

/// `dateparser::parse`, with the date that it reads handed on as the seconds
/// that `chrono::DateTime::timestamp` gives and the nanoseconds that
/// `timestamp_subsec_nanos` gives; `None` where the text is no date in any
/// form that the crate knows.
///
/// The crate reads a numeric time zone offset by its sign, two digits for the
/// hours, optional colons and two digits for the minutes, and hands it to
/// `chrono::FixedOffset::east`, which panics from 24 hours on. Texts that
/// hold such a form are left out.
#[verifier::external_body]
fn parse_date(text: &str) -> (date: Option<Timestamp>)
    requires
        !has_wide_offset(text@),
{
    match dateparser::parse(text) {
        Ok(date) => Some(
            Timestamp { seconds: date.timestamp(), nanoseconds: date.timestamp_subsec_nanos() },
        ),
        Err(_) => None,
    }
}

/// `chrono::Utc::now`, handed on as the seconds that
/// `chrono::DateTime::timestamp` gives and the nanoseconds that
/// `timestamp_subsec_nanos` gives. It reads the system clock, which the crate
/// expects not to stand before 1970.
#[verifier::external_body]
pub(crate) fn current_time() -> (now: Timestamp) {
    let now = chrono::Utc::now();
    Timestamp { seconds: now.timestamp(), nanoseconds: now.timestamp_subsec_nanos() }
}

/// The date to record: the one that was read, or the fallback where none was.
pub fn date_or(read: Option<Timestamp>, fallback: Timestamp) -> (date: Timestamp)
    ensures
        date == match read {
            Some(date) => date,
            None => fallback,
        },
{
    match read {
        Some(date) => date,
        None => fallback,
    }
}

/// Reads the date that a text gives, if the date parser can be asked and
/// finds one.
pub fn read_date(text: &[char]) -> (date: Option<Timestamp>)
    ensures
        has_wide_offset(text@) ==> date is None,
{
    if holds_wide_offset(text) {
        None
    } else {
        parse_date(string_of(text).as_str())
    }
}

/// The date of a simulation whose header gives the date as `text`: what the
/// date parser reads from it, or the fallback. The fallback is owed where
/// there is no text or the text may not be handed to the parser.
pub fn resolve_date(text: &Option<Vec<char>>, fallback: Timestamp) -> (date: Timestamp)
    ensures
        text is None ==> date == fallback,
        text matches Some(text) && has_wide_offset(text@) ==> date == fallback,
{
    let read = match text {
        Some(text) => read_date(text.as_slice()),
        None => None,
    };
    date_or(read, fallback)
}

} // verus!
