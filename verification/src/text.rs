//! Characters and runs of characters: the classes the parser tells apart and
//! the small searches and edits it makes on a file name.
use vstd::prelude::*;

verus! {

/// An ASCII digit.
#[verifier::allow_in_spec]
pub fn is_digit(c: char) -> bool
    returns
        ('0' <= c && c <= '9'),
{
    '0' <= c && c <= '9'
}

/// An ASCII letter.
#[verifier::allow_in_spec]
pub fn is_alpha(c: char) -> bool
    returns
        (('a' <= c && c <= 'z') || ('A' <= c && c <= 'Z')),
{
    ('a' <= c && c <= 'z') || ('A' <= c && c <= 'Z')
}

/// An ASCII letter or digit.
#[verifier::allow_in_spec]
pub fn is_alphanumeric(c: char) -> bool
    returns
        (is_digit(c) || is_alpha(c)),
{
    is_digit(c) || is_alpha(c)
}

/// A digit of a hexadecimal number, in either case.
#[verifier::allow_in_spec]
pub fn is_hex_digit(c: char) -> bool
    returns
        (is_digit(c) || ('a' <= c && c <= 'f') || ('A' <= c && c <= 'F')),
{
    is_digit(c) || ('a' <= c && c <= 'f') || ('A' <= c && c <= 'F')
}

/// A character of the Latin script, as far as the end of the block Latin
/// Extended-B.
#[verifier::allow_in_spec]
pub fn is_latin(c: char) -> bool
    returns
        (c <= '\u{24F}'),
{
    c <= '\u{24F}'
}

/// A hyphen or one of the dashes U+2010 to U+2015.
#[verifier::allow_in_spec]
pub fn is_dash(c: char) -> bool
    returns
        (c == '-' || ('\u{2010}' <= c && c <= '\u{2015}')),
{
    c == '-' || ('\u{2010}' <= c && c <= '\u{2015}')
}

/// The upper-case form of an ASCII letter; any other character is left as it
/// is.
pub open spec fn upper(c: char) -> char {
    if 'a' <= c && c <= 'z' {
        ((c as int) - 32) as char
    } else {
        c
    }
}

/// Computes [`upper`].
pub fn to_upper(c: char) -> (r: char)
    ensures
        r == upper(c),
{
    if 'a' <= c && c <= 'z' {
        let code: u8 = c as u8;
        (code - 32) as char
    } else {
        c
    }
}

/// The value of a digit.
pub open spec fn digit_value(c: char) -> nat {
    ((c as int) - ('0' as int)) as nat
}

/// A space, a hyphen or a dash: what is cut off the ends of a title.
#[verifier::allow_in_spec]
pub fn is_trimmable(c: char) -> bool
    returns
        (c == ' ' || is_dash(c)),
{
    c == ' ' || is_dash(c)
}

/// Every character is an ASCII digit.
pub open spec fn all_digits(s: Seq<char>) -> bool {
    forall|i: int| 0 <= i < s.len() ==> is_digit(#[trigger] s[i])
}

/// Every character is an ASCII letter.
pub open spec fn all_alpha(s: Seq<char>) -> bool {
    forall|i: int| 0 <= i < s.len() ==> is_alpha(#[trigger] s[i])
}

/// Every character is an ASCII letter or digit.
pub open spec fn all_alphanumeric(s: Seq<char>) -> bool {
    forall|i: int| 0 <= i < s.len() ==> is_alphanumeric(#[trigger] s[i])
}

/// Every character is a hexadecimal digit.
pub open spec fn all_hex(s: Seq<char>) -> bool {
    forall|i: int| 0 <= i < s.len() ==> is_hex_digit(#[trigger] s[i])
}

/// A number: one digit or more, and nothing else.
pub open spec fn is_number(s: Seq<char>) -> bool {
    s.len() > 0 && all_digits(s)
}

/// Whether some character is a digit.
pub open spec fn has_digit(s: Seq<char>) -> bool {
    exists|i: int| 0 <= i < s.len() && is_digit(#[trigger] s[i])
}

/// The number that a run of digits writes in base ten.
pub open spec fn value_of(s: Seq<char>) -> nat
    decreases s.len(),
{
    if s.len() == 0 {
        0
    } else {
        value_of(s.drop_last()) * 10 + digit_value(s.last())
    }
}

/// The word in upper case, character by character.
pub open spec fn upper_word(s: Seq<char>) -> Seq<char> {
    s.map_values(|c: char| upper(c))
}

/// Computes [`all_digits`].
pub fn check_all_digits(word: &[char]) -> (r: bool)
    ensures
        r == all_digits(word@),
{
    let mut i: usize = 0;
    while i < word.len()
        invariant
            i <= word.len(),
            forall|j: int| 0 <= j < i ==> is_digit(#[trigger] word@[j]),
        decreases word.len() - i,
    {
        if !is_digit(word[i]) {
            return false;
        }
        i += 1;
    }
    true
}

/// Computes [`all_alpha`].
pub fn check_all_alpha(word: &[char]) -> (r: bool)
    ensures
        r == all_alpha(word@),
{
    let mut i: usize = 0;
    while i < word.len()
        invariant
            i <= word.len(),
            forall|j: int| 0 <= j < i ==> is_alpha(#[trigger] word@[j]),
        decreases word.len() - i,
    {
        if !is_alpha(word[i]) {
            return false;
        }
        i += 1;
    }
    true
}

/// Computes [`all_alphanumeric`].
pub fn check_all_alphanumeric(word: &[char]) -> (r: bool)
    ensures
        r == all_alphanumeric(word@),
{
    let mut i: usize = 0;
    while i < word.len()
        invariant
            i <= word.len(),
            forall|j: int| 0 <= j < i ==> is_alphanumeric(#[trigger] word@[j]),
        decreases word.len() - i,
    {
        if !is_alphanumeric(word[i]) {
            return false;
        }
        i += 1;
    }
    true
}

/// Computes [`all_hex`].
pub fn check_all_hex(word: &[char]) -> (r: bool)
    ensures
        r == all_hex(word@),
{
    let mut i: usize = 0;
    while i < word.len()
        invariant
            i <= word.len(),
            forall|j: int| 0 <= j < i ==> is_hex_digit(#[trigger] word@[j]),
        decreases word.len() - i,
    {
        if !is_hex_digit(word[i]) {
            return false;
        }
        i += 1;
    }
    true
}

/// Computes [`is_number`].
pub fn check_number(word: &[char]) -> (r: bool)
    ensures
        r == is_number(word@),
{
    word.len() > 0 && check_all_digits(word)
}

/// Computes [`has_digit`].
pub fn check_has_digit(word: &[char]) -> (r: bool)
    ensures
        r == has_digit(word@),
{
    let mut i: usize = 0;
    while i < word.len()
        invariant
            i <= word.len(),
            forall|j: int| 0 <= j < i ==> !is_digit(#[trigger] word@[j]),
        decreases word.len() - i,
    {
        if is_digit(word[i]) {
            return true;
        }
        i += 1;
    }
    false
}

/// A run of at most four digits is a number below ten thousand.
pub proof fn lemma_value_bound(s: Seq<char>)
    requires
        all_digits(s),
        s.len() <= 4,
    ensures
        s.len() == 0 ==> value_of(s) == 0,
        s.len() == 1 ==> value_of(s) <= 9,
        s.len() == 2 ==> value_of(s) <= 99,
        s.len() == 3 ==> value_of(s) <= 999,
        s.len() == 4 ==> value_of(s) <= 9999,
    decreases s.len(),
{
    if s.len() > 0 {
        lemma_value_bound(s.drop_last());
        assert(is_digit(s[s.len() - 1]));
    }
}

/// Computes [`value_of`] for a number of at most four digits.
pub fn number_value(word: &[char]) -> (r: u32)
    requires
        all_digits(word@),
        word@.len() <= 4,
    ensures
        r == value_of(word@),
        r <= 9999,
{
    let mut r: u32 = 0;
    let mut i: usize = 0;
    while i < word.len()
        invariant
            i <= word.len(),
            word@.len() <= 4,
            all_digits(word@),
            r == value_of(word@.take(i as int)),
            r <= 999 || i == word.len(),
            r <= 9999,
        decreases word.len() - i,
    {
        let c = word[i];
        assert(is_digit(word@[i as int]));
        proof {
            let longer = word@.take(i as int + 1);
            assert(longer.drop_last() =~= word@.take(i as int));
            assert(longer.last() == c);
            assert(all_digits(longer));
            lemma_value_bound(longer);
            lemma_value_bound(word@.take(i as int));
        }
        let d: u32 = (c as u32) - ('0' as u32);
        r = r * 10 + d;
        i += 1;
    }
    assert(word@.take(i as int) =~= word@);
    r
}

/// Computes [`upper_word`].
pub fn to_upper_word(word: &[char]) -> (r: Vec<char>)
    ensures
        r@ == upper_word(word@),
{
    let mut r: Vec<char> = Vec::new();
    let mut i: usize = 0;
    while i < word.len()
        invariant
            i <= word.len(),
            r@.len() == i,
            forall|j: int| 0 <= j < i ==> r@[j] == upper(word@[j]),
        decreases word.len() - i,
    {
        r.push(to_upper(word[i]));
        i += 1;
    }
    assert(r@ =~= upper_word(word@));
    r
}

/// Whether two runs of characters are the same.
pub fn same_chars(a: &[char], b: &[char]) -> (r: bool)
    ensures
        r == (a@ == b@),
{
    if a.len() != b.len() {
        return false;
    }
    let mut i: usize = 0;
    while i < a.len()
        invariant
            i <= a.len(),
            a.len() == b.len(),
            forall|j: int| 0 <= j < i ==> a@[j] == b@[j],
        decreases a.len() - i,
    {
        if a[i] != b[i] {
            return false;
        }
        i += 1;
    }
    assert(a@ =~= b@);
    true
}

/// The characters of a string, one by one.
pub fn chars_of(s: &str) -> (r: Vec<char>)
    ensures
        r@ == s@,
{
    let mut r: Vec<char> = Vec::new();
    for c in it: s.chars()
        invariant
            r@ == it.seq().take(it.index() as int),
            it.seq() == s@,
    {
        r.push(c);
    }
    r
}

/// `String::push` of the standard library appends the given character to the
/// end of the string and leaves what stood there before as it was.
pub assume_specification[ String::push ](s: &mut String, c: char)
    ensures
        final(s)@ == old(s)@.push(c),
;

/// The string made of the given characters.
pub fn string_of(chars: &[char]) -> (r: String)
    ensures
        r@ == chars@,
{
    let mut r = String::new();
    let mut i: usize = 0;
    while i < chars.len()
        invariant
            i <= chars.len(),
            r@ == chars@.take(i as int),
        decreases chars.len() - i,
    {
        r.push(chars[i]);
        assert(chars@.take(i as int + 1) =~= chars@.take(i as int).push(chars@[i as int]));
        i += 1;
    }
    assert(chars@.take(i as int) =~= chars@);
    r
}

/// Appends the characters `source[start..end]` to `target`.
pub fn append_range(target: &mut Vec<char>, source: &[char], start: usize, end: usize)
    requires
        start <= end <= source@.len(),
    ensures
        final(target)@ == old(target)@ + source@.subrange(start as int, end as int),
{
    let mut i: usize = start;
    assert(target@ =~= old(target)@ + source@.subrange(start as int, start as int));
    while i < end
        invariant
            start <= i <= end <= source@.len(),
            target@ == old(target)@ + source@.subrange(start as int, i as int),
        decreases end - i,
    {
        target.push(source[i]);
        assert(source@.subrange(start as int, i as int + 1) =~= source@.subrange(
            start as int,
            i as int,
        ).push(source@[i as int]));
        assert(target@ =~= old(target)@ + source@.subrange(start as int, i as int + 1));
        i += 1;
    }
}

/// Whether `needle` stands in `hay` at position `at`.
pub open spec fn occurs_at(hay: Seq<char>, needle: Seq<char>, at: int) -> bool {
    0 <= at && at + needle.len() <= hay.len() && hay.subrange(at, at + needle.len()) == needle
}

/// The first position at or after `from` at which `needle` stands in `hay`.
pub open spec fn first_occurrence(hay: Seq<char>, needle: Seq<char>, from: int) -> Option<int>
    decreases hay.len() - from + 1,
{
    if from < 0 || from + needle.len() > hay.len() {
        None
    } else if occurs_at(hay, needle, from) {
        Some(from)
    } else {
        first_occurrence(hay, needle, from + 1)
    }
}

/// `hay` without the first occurrence of `needle`. An empty needle, or one
/// that does not occur, leaves `hay` as it is.
pub open spec fn remove_first(hay: Seq<char>, needle: Seq<char>) -> Seq<char> {
    if needle.len() == 0 {
        hay
    } else {
        match first_occurrence(hay, needle, 0) {
            Some(at) => hay.subrange(0, at) + hay.subrange(at + needle.len(), hay.len() as int),
            None => hay,
        }
    }
}

/// `hay` after the first occurrence of each of `needles[from..]` has been
/// removed, one needle after the other.
pub open spec fn remove_each(hay: Seq<char>, needles: Seq<Seq<char>>, from: int) -> Seq<char>
    decreases needles.len() - from,
{
    if from < 0 || from >= needles.len() {
        hay
    } else {
        remove_each(remove_first(hay, needles[from]), needles, from + 1)
    }
}

/// The last position before `before` at which `c` stands in `s`.
pub open spec fn last_index_of(s: Seq<char>, c: char, before: int) -> Option<int>
    decreases before,
{
    if before <= 0 || before > s.len() {
        None
    } else if s[before - 1] == c {
        Some(before - 1)
    } else {
        last_index_of(s, c, before - 1)
    }
}

/// How many characters of `s` are Latin.
pub open spec fn latin_count(s: Seq<char>) -> nat
    decreases s.len(),
{
    if s.len() == 0 {
        0
    } else {
        latin_count(s.drop_last()) + if is_latin(s.last()) {
            1nat
        } else {
            0nat
        }
    }
}

/// At least half of the characters are Latin, and there is at least one
/// character.
pub open spec fn mostly_latin(s: Seq<char>) -> bool {
    s.len() > 0 && 2 * latin_count(s) >= s.len()
}

/// The first position at or after `from` whose character is kept by a trim.
pub open spec fn trim_start(s: Seq<char>, from: int) -> int
    decreases s.len() - from,
{
    if 0 <= from < s.len() && is_trimmable(s[from]) {
        trim_start(s, from + 1)
    } else {
        from
    }
}

/// The end of what a trim keeps of `s[from..to]`.
pub open spec fn trim_end(s: Seq<char>, from: int, to: int) -> int
    decreases to,
{
    if 0 <= from < to <= s.len() && is_trimmable(s[to - 1]) {
        trim_end(s, from, to - 1)
    } else {
        to
    }
}

/// `s` without the spaces, hyphens and dashes at its two ends.
pub open spec fn trimmed(s: Seq<char>) -> Seq<char> {
    let from = trim_start(s, 0);
    let to = trim_end(s, from, s.len() as int);
    s.subrange(from, to)
}

/// Computes [`occurs_at`].
pub fn check_occurs_at(hay: &[char], needle: &[char], at: usize) -> (r: bool)
    ensures
        r == occurs_at(hay@, needle@, at as int),
{
    if needle.len() > hay.len() || at > hay.len() - needle.len() {
        return false;
    }
    let mut i: usize = 0;
    while i < needle.len()
        invariant
            i <= needle.len(),
            at + needle.len() <= hay.len(),
            forall|j: int| 0 <= j < i ==> hay@[at + j] == needle@[j],
        decreases needle.len() - i,
    {
        if hay[at + i] != needle[i] {
            assert(hay@.subrange(at as int, at + needle@.len())[i as int] != needle@[i as int]);
            return false;
        }
        i += 1;
    }
    assert(hay@.subrange(at as int, at + needle@.len()) =~= needle@);
    true
}

/// Computes [`first_occurrence`] from the start of `hay`.
pub fn find_first(hay: &[char], needle: &[char]) -> (r: Option<usize>)
    ensures
        match r {
            Some(at) => first_occurrence(hay@, needle@, 0) == Some(at as int) && occurs_at(
                hay@,
                needle@,
                at as int,
            ),
            None => first_occurrence(hay@, needle@, 0) is None,
        },
{
    if needle.len() > hay.len() {
        return None;
    }
    let last: usize = hay.len() - needle.len();
    let mut i: usize = 0;
    loop
        invariant
            i <= last,
            last == hay.len() - needle.len(),
            first_occurrence(hay@, needle@, 0) == first_occurrence(hay@, needle@, i as int),
        decreases last - i,
    {
        if check_occurs_at(hay, needle, i) {
            return Some(i);
        }
        if i == last {
            assert(first_occurrence(hay@, needle@, i as int + 1) is None);
            return None;
        }
        i += 1;
    }
}

/// Computes [`remove_first`].
pub fn remove_first_occurrence(hay: &[char], needle: &[char]) -> (r: Vec<char>)
    ensures
        r@ == remove_first(hay@, needle@),
{
    let mut r: Vec<char> = Vec::new();
    if needle.len() == 0 {
        append_range(&mut r, hay, 0, hay.len());
        assert(hay@.subrange(0, hay@.len() as int) =~= hay@);
        return r;
    }
    match find_first(hay, needle) {
        Some(at) => {
            let total: usize = hay.len();
            let rest: usize = at + needle.len();
            append_range(&mut r, hay, 0, at);
            append_range(&mut r, hay, rest, total);
        },
        None => {
            append_range(&mut r, hay, 0, hay.len());
            assert(hay@.subrange(0, hay@.len() as int) =~= hay@);
        },
    }
    r
}

/// Computes [`last_index_of`] over the whole of `s`.
pub fn find_last(s: &[char], c: char) -> (r: Option<usize>)
    ensures
        match r {
            Some(at) => last_index_of(s@, c, s@.len() as int) == Some(at as int),
            None => last_index_of(s@, c, s@.len() as int) is None,
        },
{
    let mut i: usize = s.len();
    while i > 0
        invariant
            i <= s.len(),
            last_index_of(s@, c, s@.len() as int) == last_index_of(s@, c, i as int),
        decreases i,
    {
        if s[i - 1] == c {
            return Some(i - 1);
        }
        i -= 1;
    }
    None
}

/// Computes [`mostly_latin`].
pub fn check_mostly_latin(word: &[char]) -> (r: bool)
    ensures
        r == mostly_latin(word@),
{
    let mut n: usize = 0;
    let mut i: usize = 0;
    while i < word.len()
        invariant
            i <= word.len(),
            n <= i,
            n == latin_count(word@.take(i as int)),
        decreases word.len() - i,
    {
        assert(word@.take(i as int + 1).drop_last() =~= word@.take(i as int));
        if is_latin(word[i]) {
            n += 1;
        }
        i += 1;
    }
    assert(word@.take(i as int) =~= word@);
    word.len() > 0 && n >= word.len() - n
}

/// Computes [`trimmed`].
pub fn trim(word: &[char]) -> (r: Vec<char>)
    ensures
        r@ == trimmed(word@),
{
    let mut from: usize = 0;
    while from < word.len() && is_trimmable(word[from])
        invariant
            from <= word.len(),
            trim_start(word@, 0) == trim_start(word@, from as int),
        decreases word.len() - from,
    {
        from += 1;
    }
    let mut to: usize = word.len();
    while from < to && is_trimmable(word[to - 1])
        invariant
            from <= to <= word.len(),
            trim_end(word@, from as int, word@.len() as int) == trim_end(
                word@,
                from as int,
                to as int,
            ),
        decreases to,
    {
        to -= 1;
    }
    let mut r: Vec<char> = Vec::new();
    append_range(&mut r, word, from, to);
    assert(r@ =~= word@.subrange(from as int, to as int));
    r
}

} // verus!
