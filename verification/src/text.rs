//! Text as a sequence of characters: classes of characters, runs, searching,
//! trimming and decimal numbers. The header grammar is built from these.

use vstd::prelude::*;
use vstd::slice::slice_subrange;

verus! {

/// A class of characters that the header grammar tells apart.
#[derive(Debug, Clone, Copy, PartialEq, Eq, Structural)]
pub enum CharClass {
    /// White space as Unicode defines it.
    Space,
    /// Anything but white space.
    Solid,
    /// An ASCII decimal digit.
    Digit,
    /// An ASCII letter.
    Letter,
    /// A character of a field name: an ASCII letter, a space or a period.
    Name,
    /// An ASCII letter, an ASCII digit or an underscore.
    Word,
    /// One of the letters `V`, `I` and `x` that open the name of a variable.
    Kind,
    /// Anything but a line feed.
    Inline,
    /// A colon.
    Colon,
}

/// White space: the characters with the Unicode property `White_Space`.
pub open spec fn is_space(c: char) -> bool {
    ||| '\u{9}' <= c <= '\u{D}'
    ||| c == ' '
    ||| c == '\u{85}'
    ||| c == '\u{A0}'
    ||| c == '\u{1680}'
    ||| '\u{2000}' <= c <= '\u{200A}'
    ||| c == '\u{2028}'
    ||| c == '\u{2029}'
    ||| c == '\u{202F}'
    ||| c == '\u{205F}'
    ||| c == '\u{3000}'
}

/// An ASCII decimal digit.
pub open spec fn is_digit(c: char) -> bool {
    '0' <= c <= '9'
}

/// An ASCII letter.
pub open spec fn is_letter(c: char) -> bool {
    'a' <= c <= 'z' || 'A' <= c <= 'Z'
}

/// Whether a character belongs to a class.
pub open spec fn in_class(c: char, class: CharClass) -> bool {
    match class {
        CharClass::Space => is_space(c),
        CharClass::Solid => !is_space(c),
        CharClass::Digit => is_digit(c),
        CharClass::Letter => is_letter(c),
        CharClass::Name => is_letter(c) || c == ' ' || c == '.',
        CharClass::Word => is_letter(c) || is_digit(c) || c == '_',
        CharClass::Kind => c == 'V' || c == 'I' || c == 'x',
        CharClass::Inline => c != '\n',
        CharClass::Colon => c == ':',
    }
}

/// Tells whether a character is white space.
pub fn space(c: char) -> (r: bool)
    ensures
        r == is_space(c),
{
    (c >= '\u{9}' && c <= '\u{D}') || c == ' ' || c == '\u{85}' || c == '\u{A0}' || c
        == '\u{1680}' || (c >= '\u{2000}' && c <= '\u{200A}') || c == '\u{2028}' || c
        == '\u{2029}' || c == '\u{202F}' || c == '\u{205F}' || c == '\u{3000}'
}

/// Tells whether a character is an ASCII decimal digit.
pub fn digit(c: char) -> (r: bool)
    ensures
        r == is_digit(c),
{
    c >= '0' && c <= '9'
}

/// Tells whether a character is an ASCII letter.
pub fn letter(c: char) -> (r: bool)
    ensures
        r == is_letter(c),
{
    (c >= 'a' && c <= 'z') || (c >= 'A' && c <= 'Z')
}

/// Tells whether a character belongs to a class.
pub fn has_class(c: char, class: CharClass) -> (r: bool)
    ensures
        r == in_class(c, class),
{
    match class {
        CharClass::Space => space(c),
        CharClass::Solid => !space(c),
        CharClass::Digit => digit(c),
        CharClass::Letter => letter(c),
        CharClass::Name => letter(c) || c == ' ' || c == '.',
        CharClass::Word => letter(c) || digit(c) || c == '_',
        CharClass::Kind => c == 'V' || c == 'I' || c == 'x',
        CharClass::Inline => c != '\n',
        CharClass::Colon => c == ':',
    }
}

/// Where the longest run of characters of one class that begins at `from`
/// ends: the first position at or after `from` that holds a character of
/// another class, or the end of the text.
pub open spec fn run_end(text: Seq<char>, from: int, class: CharClass) -> int
    decreases text.len() - from,
{
    if 0 <= from < text.len() && in_class(text[from], class) {
        run_end(text, from + 1, class)
    } else {
        from
    }
}

/// What bounds a run: every character from its start up to its end is of the
/// class, and the character at its end, if there is one, is not.
pub proof fn lemma_run_end(text: Seq<char>, from: int, class: CharClass)
    requires
        0 <= from <= text.len(),
    ensures
        from <= run_end(text, from, class) <= text.len(),
        forall|k: int| from <= k < run_end(text, from, class) ==> in_class(#[trigger] text[k], class),
        run_end(text, from, class) < text.len() ==> !in_class(
            text[run_end(text, from, class)],
            class,
        ),
    decreases text.len() - from,
{
    if from < text.len() && in_class(text[from], class) {
        lemma_run_end(text, from + 1, class);
    }
}

/// Finds the end of the run of characters of one class that begins at `from`.
pub fn scan(text: &[char], from: usize, class: CharClass) -> (end: usize)
    ensures
        end == run_end(text@, from as int, class),
        from <= end,
        from <= text.len() ==> end <= text.len(),
        forall|k: int| from <= k < end ==> in_class(#[trigger] text@[k], class),
        end < text.len() ==> !in_class(text@[end as int], class),
{
    proof {
        if from <= text.len() {
            lemma_run_end(text@, from as int, class);
        }
    }
    let mut end: usize = from;
    while end < text.len() && has_class(text[end], class)
        invariant
            from <= end,
            from <= text.len() ==> end <= text.len(),
            run_end(text@, from as int, class) == run_end(text@, end as int, class),
        decreases text.len() - end,
    {
        end = end + 1;
    }
    end
}

/// Whether `pattern` stands in `text` at position `at`.
pub open spec fn occurs_at(text: Seq<char>, pattern: Seq<char>, at: int) -> bool {
    &&& 0 <= at
    &&& at + pattern.len() <= text.len()
    &&& text.subrange(at, at + pattern.len()) == pattern
}

/// Whether `pattern` stands anywhere in `text`.
pub open spec fn occurs(text: Seq<char>, pattern: Seq<char>) -> bool {
    exists|at: int| occurs_at(text, pattern, at)
}

/// Whether `at` is the first position at which `pattern` stands in `text`.
pub open spec fn first_occurrence(text: Seq<char>, pattern: Seq<char>, at: int) -> bool {
    &&& occurs_at(text, pattern, at)
    &&& forall|earlier: int| 0 <= earlier < at ==> !occurs_at(text, pattern, earlier)
}

/// A pattern that stands in a text stands there at a first position.
pub proof fn lemma_first_occurrence(text: Seq<char>, pattern: Seq<char>, at: int)
    requires
        occurs_at(text, pattern, at),
    ensures
        exists|first: int| first_occurrence(text, pattern, first),
    decreases at,
{
    if exists|earlier: int| 0 <= earlier < at && occurs_at(text, pattern, earlier) {
        let earlier = choose|earlier: int| 0 <= earlier < at && occurs_at(text, pattern, earlier);
        lemma_first_occurrence(text, pattern, earlier);
    } else {
        assert(first_occurrence(text, pattern, at));
    }
}

/// Tells whether `pattern` stands in `text` at position `at`.
pub fn matches_at(text: &[char], pattern: &[char], at: usize) -> (r: bool)
    ensures
        r == occurs_at(text@, pattern@, at as int),
{
    if at > text.len() || pattern.len() > text.len() - at {
        return false;
    }
    let mut k: usize = 0;
    while k < pattern.len()
        invariant
            at + pattern.len() <= text.len(),
            k <= pattern.len(),
            forall|j: int| 0 <= j < k ==> text@[at + j] == pattern@[j],
        decreases pattern.len() - k,
    {
        if text[at + k] != pattern[k] {
            assert(text@.subrange(at as int, at + pattern.len())[k as int] != pattern@[k as int]);
            return false;
        }
        k = k + 1;
    }
    assert(text@.subrange(at as int, at + pattern.len()) =~= pattern@);
    true
}

/// Finds the first position at which `pattern` stands in `text`.
pub fn find(text: &[char], pattern: &[char]) -> (found: Option<usize>)
    ensures
        match found {
            Some(at) => first_occurrence(text@, pattern@, at as int),
            None => !occurs(text@, pattern@),
        },
{
    let mut at: usize = 0;
    loop
        invariant
            at <= text.len(),
            forall|earlier: int| 0 <= earlier < at ==> !occurs_at(text@, pattern@, earlier),
        decreases text.len() - at,
    {
        if matches_at(text, pattern, at) {
            return Some(at);
        }
        if at == text.len() {
            return None;
        }
        at = at + 1;
    }
}

/// Tells whether two texts are the same.
pub fn same_text(a: &[char], b: &[char]) -> (r: bool)
    ensures
        r == (a@ == b@),
{
    if a.len() != b.len() {
        return false;
    }
    let r = matches_at(a, b, 0);
    assert(a@.subrange(0, a@.len() as int) =~= a@);
    r
}

/// Tells whether a text spells the given word.
pub fn spells(text: &[char], word: &str) -> (r: bool)
    ensures
        r == (text@ == word@),
{
    let letters = chars_of(word);
    same_text(text, letters.as_slice())
}

/// Where the text ends once the white space at its end is dropped.
pub open spec fn solid_end(text: Seq<char>) -> int
    decreases text.len(),
{
    if text.len() > 0 && is_space(text.last()) {
        solid_end(text.drop_last())
    } else {
        text.len() as int
    }
}

/// The text without the white space at its two ends.
pub open spec fn trimmed(text: Seq<char>) -> Seq<char> {
    let from = run_end(text, 0, CharClass::Space);
    let to = solid_end(text);
    if from < to {
        text.subrange(from, to)
    } else {
        Seq::empty()
    }
}

/// Drops the white space at the two ends of a text.
pub fn trim(text: &[char]) -> (inner: &[char])
    ensures
        inner@ == trimmed(text@),
{
    let from = scan(text, 0, CharClass::Space);
    let mut to: usize = text.len();
    assert(text@.take(text.len() as int) =~= text@);
    while to > 0 && space(text[to - 1])
        invariant
            to <= text.len(),
            solid_end(text@) == solid_end(text@.take(to as int)),
        decreases to,
    {
        assert(text@.take(to as int).drop_last() =~= text@.take(to - 1));
        to = to - 1;
    }
    if from < to {
        slice_subrange(text, from, to)
    } else {
        slice_subrange(text, 0, 0)
    }
}

/// What a digit counts.
pub open spec fn digit_value(c: char) -> int {
    c as int - '0' as int
}

/// The number that a sequence of decimal digits writes.
pub open spec fn decimal(digits: Seq<char>) -> int
    decreases digits.len(),
{
    if digits.len() == 0 {
        0
    } else {
        decimal(digits.drop_last()) * 10 + digit_value(digits.last())
    }
}

/// Whether a text consists of decimal digits only.
pub open spec fn all_digits(text: Seq<char>) -> bool {
    forall|k: int| 0 <= k < text.len() ==> is_digit(#[trigger] text[k])
}

/// The unsigned 32-bit number that a text writes, if it writes one: an
/// optional plus sign and then one or more decimal digits, nothing before,
/// between or after, whose value is at most `u32::MAX`.
pub open spec fn unsigned_number(text: Seq<char>) -> Option<u32> {
    let digits = if text.len() > 0 && text[0] == '+' {
        text.drop_first()
    } else {
        text
    };
    if digits.len() > 0 && all_digits(digits) && decimal(digits) <= u32::MAX {
        Some(decimal(digits) as u32)
    } else {
        None
    }
}

/// A number does not shrink when digits are written behind it.
pub proof fn lemma_decimal_grows(digits: Seq<char>, shorter: int)
    requires
        all_digits(digits),
        0 <= shorter <= digits.len(),
    ensures
        0 <= decimal(digits.take(shorter)) <= decimal(digits),
    decreases digits.len() - shorter,
{
    if shorter == digits.len() {
        assert(digits.take(shorter) =~= digits);
        lemma_decimal_nonnegative(digits);
    } else {
        lemma_decimal_grows(digits, shorter + 1);
        let longer = digits.take(shorter + 1);
        assert(longer.drop_last() =~= digits.take(shorter));
        assert(longer.last() == digits[shorter]);
        assert(is_digit(digits[shorter]));
        lemma_decimal_nonnegative(digits.take(shorter));
    }
}

/// A sequence of digits writes no negative number.
pub proof fn lemma_decimal_nonnegative(digits: Seq<char>)
    requires
        all_digits(digits),
    ensures
        0 <= decimal(digits),
    decreases digits.len(),
{
    if digits.len() > 0 {
        assert(is_digit(digits[digits.len() - 1]));
        assert forall|k: int| 0 <= k < digits.drop_last().len() implies is_digit(
            #[trigger] digits.drop_last()[k],
        ) by {
            assert(is_digit(digits[k]));
        }
        lemma_decimal_nonnegative(digits.drop_last());
    }
}

/// Reads an unsigned 32-bit number from a text.
pub fn parse_unsigned(text: &[char]) -> (number: Option<u32>)
    ensures
        number == unsigned_number(text@),
{
    let first: usize = if text.len() > 0 && text[0] == '+' {
        1
    } else {
        0
    };
    let digits = slice_subrange(text, first, text.len());
    assert(digits@ =~= if text@.len() > 0 && text@[0] == '+' {
        text@.drop_first()
    } else {
        text@
    });
    if digits.len() == 0 {
        return None;
    }
    let mut value: u64 = 0;
    let mut k: usize = 0;
    while k < digits.len()
        invariant
            k <= digits.len(),
            digits.len() > 0,
            unsigned_number(text@) == (if all_digits(digits@) && decimal(digits@) <= u32::MAX {
                Some(decimal(digits@) as u32)
            } else {
                None
            }),
            all_digits(digits@.take(k as int)),
            value == decimal(digits@.take(k as int)),
            value <= u32::MAX,
        decreases digits.len() - k,
    {
        let c = digits[k];
        if !digit(c) {
            assert(!is_digit(digits@[k as int]));
            return None;
        }
        let ghost longer = digits@.take(k + 1);
        assert(longer.drop_last() =~= digits@.take(k as int));
        assert(longer.last() == c);
        assert(all_digits(longer)) by {
            assert forall|j: int| 0 <= j < longer.len() implies is_digit(#[trigger] longer[j]) by {
                if j < k {
                    assert(is_digit(digits@.take(k as int)[j]));
                }
            }
        }
        value = value * 10 + (c as u64 - '0' as u64);
        if value > u32::MAX as u64 {
            proof {
                if all_digits(digits@) {
                    lemma_decimal_grows(digits@, k + 1);
                }
            }
            return None;
        }
        k = k + 1;
    }
    assert(digits@.take(digits.len() as int) =~= digits@);
    Some(value as u32)
}

/// `String::push` appends the character to the end of the string.
pub assume_specification[ String::push ](text: &mut String, c: char)
    ensures
        final(text)@ == old(text)@.push(c),
;

/// The characters of a string.
pub fn chars_of(text: &str) -> (chars: Vec<char>)
    ensures
        chars@ == text@,
{
    let mut chars: Vec<char> = Vec::new();
    for c in it: text.chars()
        invariant
            it.seq() == text@,
            chars@ == it.seq().take(it.index() as int),
    {
        chars.push(c);
    }
    chars
}

/// The string that holds the given characters.
pub fn string_of(chars: &[char]) -> (text: String)
    ensures
        text@ == chars@,
{
    let mut text = String::new();
    let mut k: usize = 0;
    while k < chars.len()
        invariant
            k <= chars.len(),
            text@ == chars@.take(k as int),
        decreases chars.len() - k,
    {
        text.push(chars[k]);
        k = k + 1;
    }
    text
}

} // verus!
