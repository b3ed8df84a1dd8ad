//! The shapes of words that are told by their characters alone: a checksum,
//! a video resolution, a number with a version, a range of numbers.
use vstd::prelude::*;
use vstd::slice::slice_subrange;
use crate::text::{all_digits, all_hex, check_all_digits, check_all_hex, is_digit, number_value, value_of};

verus! {

/// How many digits stand in a row in `word` from `from` on.
pub open spec fn lead_digits(word: Seq<char>, from: int) -> nat
    decreases word.len() - from,
{
    if from < 0 || from >= word.len() || !is_digit(word[from]) {
        0
    } else {
        1 + lead_digits(word, from + 1)
    }
}

/// The digits that [`lead_digits`] counts are digits, and they end within
/// the word.
pub proof fn lemma_lead_digits(word: Seq<char>, from: int)
    requires
        0 <= from <= word.len(),
    ensures
        from + lead_digits(word, from) <= word.len(),
        all_digits(word.subrange(from, from + lead_digits(word, from))),
        from + lead_digits(word, from) < word.len() ==> !is_digit(
            word[from + lead_digits(word, from)],
        ),
    decreases word.len() - from,
{
    if from < word.len() && is_digit(word[from]) {
        lemma_lead_digits(word, from + 1);
        let n = lead_digits(word, from);
        let run = word.subrange(from, from + n);
        let rest = word.subrange(from + 1, from + n);
        assert forall|i: int| 0 <= i < run.len() implies is_digit(#[trigger] run[i]) by {
            if i > 0 {
                assert(run[i] == rest[i - 1]);
            }
        }
    }
}

/// A checksum: eight hexadecimal digits.
pub open spec fn is_checksum(word: Seq<char>) -> bool {
    word.len() == 8 && all_hex(word)
}

/// A video resolution: three or four digits and `p`, as in `720p`, or a
/// width and a height of three or four digits each with `x` or `×` between
/// them, as in `1280x720`.
pub open spec fn is_resolution(word: Seq<char>) -> bool {
    let width = lead_digits(word, 0) as int;
    &&& 3 <= width <= 4
    &&& word.len() > width
    &&& if word[width] == 'p' || word[width] == 'P' {
        word.len() == width + 1
    } else {
        &&& word[width] == 'x' || word[width] == 'X' || word[width] == '\u{D7}'
        &&& 3 <= word.len() - width - 1 <= 4
        &&& all_digits(word.subrange(width + 1, word.len() as int))
    }
}

/// A number of one to four digits with a version: the digits, `v` or `V`,
/// and one digit more, as in `01v2`.
pub open spec fn is_versioned(word: Seq<char>) -> bool {
    let digits = lead_digits(word, 0) as int;
    &&& 1 <= digits <= 4
    &&& word.len() == digits + 2
    &&& word[digits] == 'v' || word[digits] == 'V'
    &&& is_digit(word[digits + 1])
}

/// A range: two numbers of one to four digits each with a hyphen between
/// them, the first less than the second, as in `11-12`.
pub open spec fn is_range(word: Seq<char>) -> bool {
    let digits = lead_digits(word, 0) as int;
    &&& 1 <= digits <= 4
    &&& word.len() > digits + 1
    &&& word[digits] == '-'
    &&& word.len() - digits - 1 <= 4
    &&& all_digits(word.subrange(digits + 1, word.len() as int))
    &&& value_of(word.subrange(0, digits)) < value_of(
        word.subrange(digits + 1, word.len() as int),
    )
}

/// Computes [`lead_digits`].
pub fn count_digits(word: &[char], from: usize) -> (r: usize)
    requires
        from <= word@.len(),
    ensures
        r == lead_digits(word@, from as int),
        from + r <= word@.len(),
{
    let mut i: usize = from;
    while i < word.len() && is_digit(word[i])
        invariant
            from <= i <= word@.len(),
            (i - from) + lead_digits(word@, i as int) == lead_digits(word@, from as int),
        decreases word@.len() - i,
    {
        i += 1;
    }
    i - from
}

/// Computes [`is_checksum`].
pub fn check_checksum(word: &[char]) -> (r: bool)
    ensures
        r == is_checksum(word@),
{
    word.len() == 8 && check_all_hex(word)
}

/// Computes [`is_resolution`].
pub fn check_resolution(word: &[char]) -> (r: bool)
    ensures
        r == is_resolution(word@),
{
    let width = count_digits(word, 0);
    if width < 3 || width > 4 || word.len() <= width {
        return false;
    }
    let c = word[width];
    if c == 'p' || c == 'P' {
        word.len() == width + 1
    } else if c == 'x' || c == 'X' || c == '\u{D7}' {
        let rest = word.len() - width - 1;
        3 <= rest && rest <= 4 && check_all_digits(slice_subrange(word, width + 1, word.len()))
    } else {
        false
    }
}

/// Computes [`is_versioned`].
pub fn check_versioned(word: &[char]) -> (r: bool)
    ensures
        r == is_versioned(word@),
{
    let digits = count_digits(word, 0);
    if digits < 1 || digits > 4 || word.len() != digits + 2 {
        return false;
    }
    (word[digits] == 'v' || word[digits] == 'V') && is_digit(word[digits + 1])
}

/// Computes [`is_range`].
pub fn check_range(word: &[char]) -> (r: bool)
    ensures
        r == is_range(word@),
{
    let digits = count_digits(word, 0);
    if digits < 1 || digits > 4 || word.len() <= digits + 1 {
        return false;
    }
    if word[digits] != '-' || word.len() - digits - 1 > 4 {
        return false;
    }
    let low = slice_subrange(word, 0, digits);
    let high = slice_subrange(word, digits + 1, word.len());
    if !check_all_digits(high) {
        return false;
    }
    proof {
        lemma_lead_digits(word@, 0);
    }
    number_value(low) < number_value(high)
}

} // verus!
