//! The number heuristics: which number is the year, which the episode, the
//! volume or the season, and which digit is a release version.
//!
//! The rules are tried in a fixed order, and the first that applies to a
//! token decides: a year within brackets; a range of episodes; a number that
//! a marker word announces; a number with a version; and, if no episode was
//! found by then, the last free-standing number behind the title.
use vstd::prelude::*;
use vstd::slice::slice_subrange;
use crate::category::{ElementCategory, ElementView};
use crate::elements::Findings;
use crate::keyword::{Dictionary, KeywordView, lookup};
use crate::matcher::{find_keyword_at, is_prefix, keyword_at};
use crate::options::{Options, OptionsView};
use crate::progress::{Progress, absent, fold_steps, kept, lemma_kept_chain, lemma_kept_same, record,
    recorded};
use crate::shape::{check_range, check_versioned, count_digits, is_range, is_versioned, lead_digits};
use crate::text::{all_digits, check_all_digits, check_number, is_digit, is_number, number_value,
    string_of, upper_word, value_of};
use crate::token::{Filter, Token, TokenKind, accepts, find_next, find_prev, lemma_layout_tiles,
    lemma_tiles_bounds, mark, marked, next_index, prev_index, text_of, tiles};

verus! {

/// The first year that a file name is taken to name.
pub const YEAR_MIN: u32 = 1900;

/// The last year that a file name is taken to name.
pub const YEAR_MAX: u32 = 2050;

/// A year: four digits that write a number from 1900 to 2050.
pub open spec fn is_year(word: Seq<char>) -> bool {
    word.len() == 4 && all_digits(word) && YEAR_MIN <= value_of(word) <= YEAR_MAX
}

/// Whether the token at `at` stands alone within brackets: but for
/// delimiters, an opening bracket stands before it and a closing one after
/// it.
pub open spec fn is_isolated(tokens: Seq<Token>, at: int) -> bool {
    &&& match prev_index(tokens, at, Filter::Solid) {
        Some(before) => tokens[before].kind == TokenKind::OpenBracket,
        None => false,
    }
    &&& next_index(tokens, at + 1, Filter::Solid) < tokens.len()
    &&& tokens[next_index(tokens, at + 1, Filter::Solid)].kind == TokenKind::CloseBracket
}

/// The progress after the token at `at` has been looked at for the year. An
/// unclaimed year that stands alone within brackets is the year of the
/// anime, if none was found before.
pub open spec fn year_step(text: Seq<char>, options: OptionsView, progress: Progress, at: int) -> Progress {
    if 0 <= at < progress.tokens.len() && accepts(Filter::Unclaimed, progress.tokens[at])
        && is_year(text_of(text, progress.tokens[at])) && is_isolated(progress.tokens, at)
        && absent(progress.found, ElementCategory::AnimeYear) {
        Progress {
            tokens: marked(progress.tokens, at, ElementCategory::AnimeYear),
            found: recorded(
                options,
                progress.found,
                ElementCategory::AnimeYear,
                text_of(text, progress.tokens[at]),
            ),
        }
    } else {
        progress
    }
}

/// [`year_step`] as a step of a pass.
pub open spec fn year_stepper(text: Seq<char>, options: OptionsView) -> spec_fn(Progress, int) -> Progress {
    |progress: Progress, at: int| year_step(text, options, progress, at)
}

/// The progress after the year pass: [`year_step`] at each token, from the
/// first to the last.
pub open spec fn year_pass(text: Seq<char>, options: OptionsView, progress: Progress) -> Progress {
    fold_steps(year_stepper(text, options), progress, 0, progress.tokens.len() as int)
}

/// Computes [`is_year`].
pub fn check_year(word: &[char]) -> (r: bool)
    ensures
        r == is_year(word@),
{
    if word.len() != 4 || !check_all_digits(word) {
        return false;
    }
    let value = number_value(word);
    YEAR_MIN <= value && value <= YEAR_MAX
}

/// Computes [`is_isolated`].
pub fn check_isolated(tokens: &Vec<Token>, at: usize) -> (r: bool)
    requires
        at < tokens@.len(),
    ensures
        r == is_isolated(tokens@, at as int),
{
    let count = tokens.len();
    match find_prev(tokens, at, Filter::Solid) {
        Some(before) => {
            if tokens[before].kind != TokenKind::OpenBracket {
                return false;
            }
        },
        None => {
            return false;
        },
    }
    let after = find_next(tokens, at + 1, Filter::Solid);
    after < count && tokens[after].kind == TokenKind::CloseBracket
}

/// Takes [`year_step`].
pub fn run_year_step(
    text: &[char],
    options: &Options,
    tokens: &mut Vec<Token>,
    found: &mut Findings,
    at: usize,
)
    requires
        tiles(old(tokens)@, text@.len() as int),
        at < old(tokens)@.len(),
    ensures
        (Progress { tokens: final(tokens)@, found: final(found)@ }) == year_step(
            text@,
            options@,
            Progress { tokens: old(tokens)@, found: old(found)@ },
            at as int,
        ),
        kept(
            options@,
            Progress { tokens: old(tokens)@, found: old(found)@ },
            Progress { tokens: final(tokens)@, found: final(found)@ },
        ),
{
    let token = tokens[at];
    proof {
        lemma_tiles_bounds(tokens@, text@.len() as int, at as int);
        lemma_kept_same(options@, Progress { tokens: tokens@, found: found@ });
    }
    if accepts(Filter::Unclaimed, token) {
        let word = slice_subrange(text, token.start, token.end);
        if check_year(word) && check_isolated(tokens, at) && found.is_empty(
            Some(ElementCategory::AnimeYear),
        ) {
            mark(tokens, at, ElementCategory::AnimeYear);
            record(found, options, ElementCategory::AnimeYear, string_of(word));
        }
    }
}

/// Runs the year pass.
pub fn run_year_pass(
    text: &[char],
    options: &Options,
    tokens: &mut Vec<Token>,
    found: &mut Findings,
)
    requires
        tiles(old(tokens)@, text@.len() as int),
    ensures
        (Progress { tokens: final(tokens)@, found: final(found)@ }) == year_pass(
            text@,
            options@,
            Progress { tokens: old(tokens)@, found: old(found)@ },
        ),
        kept(
            options@,
            Progress { tokens: old(tokens)@, found: old(found)@ },
            Progress { tokens: final(tokens)@, found: final(found)@ },
        ),
{
    let count: usize = tokens.len();
    let ghost start = Progress { tokens: tokens@, found: found@ };
    proof {
        lemma_kept_same(options@, start);
    }
    let mut at: usize = 0;
    while at < count
        invariant
            at <= count,
            count == tokens@.len(),
            count == start.tokens.len(),
            tiles(start.tokens, text@.len() as int),
            kept(options@, start, Progress { tokens: tokens@, found: found@ }),
            fold_steps(
                year_stepper(text@, options@),
                Progress { tokens: tokens@, found: found@ },
                at as int,
                count as int,
            ) == year_pass(text@, options@, start),
        decreases count - at,
    {
        let ghost before = Progress { tokens: tokens@, found: found@ };
        proof {
            lemma_layout_tiles(start.tokens, tokens@, text@.len() as int);
        }
        run_year_step(text, options, tokens, found, at);
        proof {
            lemma_kept_chain(options@, start, before, Progress { tokens: tokens@, found: found@ });
        }
        at += 1;
    }
}

/// Whether an episode number is still looked for: the options ask for it
/// and none has been found.
pub open spec fn episode_open(options: OptionsView, found: Seq<ElementView>) -> bool {
    options.parse_episode_number && absent(found, ElementCategory::EpisodeNumber)
}

/// The digits of a number: of a number with a version what stands before the
/// `v`, of any other word the whole.
pub open spec fn number_of(word: Seq<char>) -> Seq<char> {
    if is_versioned(word) {
        word.subrange(0, lead_digits(word, 0) as int)
    } else {
        word
    }
}

/// The version of a number with a version: its last digit.
pub open spec fn version_of(word: Seq<char>) -> Seq<char> {
    word.subrange(word.len() - 1, word.len() as int)
}

/// The category of the number that a marker of category `prefix` announces.
#[verifier::allow_in_spec]
pub fn announced(prefix: ElementCategory) -> ElementCategory
    returns
        (match prefix {
            ElementCategory::EpisodePrefix => ElementCategory::EpisodeNumber,
            ElementCategory::VolumePrefix => ElementCategory::VolumeNumber,
            _ => ElementCategory::AnimeSeason,
        }),
{
    match prefix {
        ElementCategory::EpisodePrefix => ElementCategory::EpisodeNumber,
        ElementCategory::VolumePrefix => ElementCategory::VolumeNumber,
        _ => ElementCategory::AnimeSeason,
    }
}

/// Whether `word`, announced by a marker of category `prefix`, is taken as
/// the number it announces. An episode number may carry a version and is
/// taken while one is looked for; a volume number is taken once; a season
/// is a plain number.
pub open spec fn marker_takes(
    options: OptionsView,
    found: Seq<ElementView>,
    prefix: ElementCategory,
    word: Seq<char>,
) -> bool {
    match prefix {
        ElementCategory::EpisodePrefix => episode_open(options, found) && (is_number(word)
            || is_versioned(word)),
        ElementCategory::VolumePrefix => absent(found, ElementCategory::VolumeNumber) && is_number(
            word,
        ),
        ElementCategory::AnimeSeasonPrefix => is_number(word),
        _ => false,
    }
}

/// The elements after the number `word` has been recorded for `category`:
/// its digits, and after them its version as an element of its own, if it
/// has one.
pub open spec fn number_recorded(
    options: OptionsView,
    found: Seq<ElementView>,
    category: ElementCategory,
    word: Seq<char>,
) -> Seq<ElementView> {
    let with_number = recorded(options, found, category, number_of(word));
    if is_versioned(word) {
        recorded(options, with_number, ElementCategory::ReleaseVersion, version_of(word))
    } else {
        with_number
    }
}

/// The progress after the token at `at` has been taken as a number of
/// `category`, the number being what the token holds from `from` on.
pub open spec fn number_taken(
    text: Seq<char>,
    options: OptionsView,
    progress: Progress,
    at: int,
    from: int,
    category: ElementCategory,
) -> Progress {
    Progress {
        tokens: marked(progress.tokens, at, category),
        found: number_recorded(
            options,
            progress.found,
            category,
            text_of(text, progress.tokens[at]).skip(from),
        ),
    }
}

/// The rule of ranges. A token that is a range of numbers, met while an
/// episode number is looked for, gives two episode numbers: the lower bound
/// first, then the upper.
pub open spec fn range_rule(
    text: Seq<char>,
    options: OptionsView,
    progress: Progress,
    at: int,
) -> Option<Progress> {
    let word = text_of(text, progress.tokens[at]);
    let digits = lead_digits(word, 0) as int;
    if is_range(word) && episode_open(options, progress.found) {
        Some(
            Progress {
                tokens: marked(progress.tokens, at, ElementCategory::EpisodeNumber),
                found: recorded(
                    options,
                    recorded(
                        options,
                        progress.found,
                        ElementCategory::EpisodeNumber,
                        word.subrange(0, digits),
                    ),
                    ElementCategory::EpisodeNumber,
                    word.subrange(digits + 1, word.len() as int),
                ),
            },
        )
    } else {
        None
    }
}

/// The marker that stands before the token at `at` with nothing but
/// delimiters between them: its index and its category.
pub open spec fn marker_before(
    text: Seq<char>,
    table: Seq<KeywordView>,
    tokens: Seq<Token>,
    at: int,
) -> Option<(usize, ElementCategory)> {
    match prev_index(tokens, at, Filter::Solid) {
        Some(before) => match keyword_at(text, table, tokens, before, 1) {
            Some(rule) => if is_prefix(rule.category) {
                Some((before as usize, rule.category))
            } else {
                None
            },
            None => None,
        },
        None => None,
    }
}

/// The rule of markers that are tokens of their own, as in `Episode 12` and
/// `Vol.3`. The number is taken for what the marker announces, and the
/// marker is claimed with it.
pub open spec fn marker_rule(
    text: Seq<char>,
    table: Seq<KeywordView>,
    options: OptionsView,
    progress: Progress,
    at: int,
) -> Option<Progress> {
    match marker_before(text, table, progress.tokens, at) {
        Some((before, prefix)) => if marker_takes(
            options,
            progress.found,
            prefix,
            text_of(text, progress.tokens[at]),
        ) {
            let taken = number_taken(text, options, progress, at, 0, announced(prefix));
            Some(Progress { tokens: marked(taken.tokens, before as int, prefix), found: taken.found })
        } else {
            None
        },
        None => None,
    }
}

/// How many characters that are no digits stand in a row in `word` from
/// `from` on.
pub open spec fn lead_others(word: Seq<char>, from: int) -> nat
    decreases word.len() - from,
{
    if from < 0 || from >= word.len() || is_digit(word[from]) {
        0
    } else {
        1 + lead_others(word, from + 1)
    }
}

/// The marker that a word starts with, as `EP` in `EP12`: the length of
/// what stands before the first digit, and the marker's category.
pub open spec fn marker_within(table: Seq<KeywordView>, word: Seq<char>) -> Option<
    (usize, ElementCategory),
> {
    let length = lead_others(word, 0) as int;
    if 1 <= length < word.len() {
        match lookup(table, upper_word(word.subrange(0, length)), false, 0) {
            Some(rule) => if is_prefix(rule.category) {
                Some((length as usize, rule.category))
            } else {
                None
            },
            None => None,
        }
    } else {
        None
    }
}

/// The rule of markers that are written together with their number, as in
/// `EP12` and `Vol3`.
pub open spec fn joined_marker_rule(
    text: Seq<char>,
    table: Seq<KeywordView>,
    options: OptionsView,
    progress: Progress,
    at: int,
) -> Option<Progress> {
    let word = text_of(text, progress.tokens[at]);
    match marker_within(table, word) {
        Some((length, prefix)) => if marker_takes(
            options,
            progress.found,
            prefix,
            word.skip(length as int),
        ) {
            Some(number_taken(text, options, progress, at, length as int, announced(prefix)))
        } else {
            None
        },
        None => None,
    }
}

/// The rule of versions. A number with a version, met while an episode
/// number is looked for, gives the episode number and the release version.
pub open spec fn version_rule(
    text: Seq<char>,
    options: OptionsView,
    progress: Progress,
    at: int,
) -> Option<Progress> {
    if is_versioned(text_of(text, progress.tokens[at])) && episode_open(options, progress.found) {
        Some(number_taken(text, options, progress, at, 0, ElementCategory::EpisodeNumber))
    } else {
        None
    }
}

/// The progress after the token at `at` has been looked at by the number
/// pass: the first rule that applies to an unclaimed free token decides,
/// ranges before markers, markers before versions.
pub open spec fn number_step(
    text: Seq<char>,
    table: Seq<KeywordView>,
    options: OptionsView,
    progress: Progress,
    at: int,
) -> Progress {
    if !(0 <= at < progress.tokens.len()) || !accepts(Filter::Unclaimed, progress.tokens[at]) {
        progress
    } else {
        match range_rule(text, options, progress, at) {
            Some(next) => next,
            None => match marker_rule(text, table, options, progress, at) {
                Some(next) => next,
                None => match joined_marker_rule(text, table, options, progress, at) {
                    Some(next) => next,
                    None => match version_rule(text, options, progress, at) {
                        Some(next) => next,
                        None => progress,
                    },
                },
            },
        }
    }
}

/// [`number_step`] as a step of a pass.
pub open spec fn number_stepper(
    text: Seq<char>,
    table: Seq<KeywordView>,
    options: OptionsView,
) -> spec_fn(Progress, int) -> Progress {
    |progress: Progress, at: int| number_step(text, table, options, progress, at)
}

/// The progress after the number pass: [`number_step`] at each token, from
/// the first to the last.
pub open spec fn number_pass(
    text: Seq<char>,
    table: Seq<KeywordView>,
    options: OptionsView,
    progress: Progress,
) -> Progress {
    fold_steps(number_stepper(text, table, options), progress, 0, progress.tokens.len() as int)
}

/// Computes [`episode_open`].
pub fn is_episode_open(options: &Options, found: &Findings) -> (r: bool)
    ensures
        r == episode_open(options@, found@),
{
    options.parse_episode_number && found.is_empty(Some(ElementCategory::EpisodeNumber))
}

/// Computes [`marker_takes`].
pub fn check_marker_takes(
    options: &Options,
    found: &Findings,
    prefix: ElementCategory,
    word: &[char],
) -> (r: bool)
    ensures
        r == marker_takes(options@, found@, prefix, word@),
{
    match prefix {
        ElementCategory::EpisodePrefix => is_episode_open(options, found) && (check_number(word)
            || check_versioned(word)),
        ElementCategory::VolumePrefix => found.is_empty(Some(ElementCategory::VolumeNumber))
            && check_number(word),
        ElementCategory::AnimeSeasonPrefix => check_number(word),
        _ => false,
    }
}

/// Records the number `word` for `category`, and its version, if it has one,
/// as a release version.
pub fn record_number(
    found: &mut Findings,
    options: &Options,
    category: ElementCategory,
    word: &[char],
)
    ensures
        final(found)@ == number_recorded(options@, old(found)@, category, word@),
        kept(
            options@,
            Progress { tokens: Seq::empty(), found: old(found)@ },
            Progress { tokens: Seq::empty(), found: final(found)@ },
        ),
{
    proof {
        lemma_kept_same(options@, Progress { tokens: Seq::empty(), found: found@ });
    }
    if check_versioned(word) {
        let digits = count_digits(word, 0);
        let total = word.len();
        record(found, options, category, string_of(slice_subrange(word, 0, digits)));
        record(
            found,
            options,
            ElementCategory::ReleaseVersion,
            string_of(slice_subrange(word, total - 1, total)),
        );
    } else {
        record(found, options, category, string_of(word));
    }
}

/// Takes the token at `at` as a number of `category`: [`number_taken`].
pub fn take_number(
    text: &[char],
    options: &Options,
    tokens: &mut Vec<Token>,
    found: &mut Findings,
    at: usize,
    from: usize,
    category: ElementCategory,
)
    requires
        tiles(old(tokens)@, text@.len() as int),
        at < old(tokens)@.len(),
        accepts(Filter::Unclaimed, old(tokens)@[at as int]),
        from <= old(tokens)@[at as int].end - old(tokens)@[at as int].start,
    ensures
        (Progress { tokens: final(tokens)@, found: final(found)@ }) == number_taken(
            text@,
            options@,
            Progress { tokens: old(tokens)@, found: old(found)@ },
            at as int,
            from as int,
            category,
        ),
        kept(
            options@,
            Progress { tokens: old(tokens)@, found: old(found)@ },
            Progress { tokens: final(tokens)@, found: final(found)@ },
        ),
{
    let token = tokens[at];
    proof {
        lemma_tiles_bounds(tokens@, text@.len() as int, at as int);
    }
    let word = slice_subrange(text, token.start + from, token.end);
    assert(word@ =~= text_of(text@, token).skip(from as int));
    mark(tokens, at, category);
    record_number(found, options, category, word);
}

/// Applies [`range_rule`], and says whether it applied.
pub fn try_range(
    text: &[char],
    options: &Options,
    tokens: &mut Vec<Token>,
    found: &mut Findings,
    at: usize,
) -> (applied: bool)
    requires
        tiles(old(tokens)@, text@.len() as int),
        at < old(tokens)@.len(),
        accepts(Filter::Unclaimed, old(tokens)@[at as int]),
    ensures
        match range_rule(
            text@,
            options@,
            Progress { tokens: old(tokens)@, found: old(found)@ },
            at as int,
        ) {
            Some(next) => applied && next == (Progress {
                tokens: final(tokens)@,
                found: final(found)@,
            }),
            None => !applied && final(tokens)@ == old(tokens)@ && final(found)@ == old(found)@,
        },
        kept(
            options@,
            Progress { tokens: old(tokens)@, found: old(found)@ },
            Progress { tokens: final(tokens)@, found: final(found)@ },
        ),
{
    let token = tokens[at];
    proof {
        lemma_tiles_bounds(tokens@, text@.len() as int, at as int);
        lemma_kept_same(options@, Progress { tokens: tokens@, found: found@ });
    }
    let word = slice_subrange(text, token.start, token.end);
    if !check_range(word) || !is_episode_open(options, found) {
        return false;
    }
    let digits = count_digits(word, 0);
    mark(tokens, at, ElementCategory::EpisodeNumber);
    record(
        found,
        options,
        ElementCategory::EpisodeNumber,
        string_of(slice_subrange(word, 0, digits)),
    );
    record(
        found,
        options,
        ElementCategory::EpisodeNumber,
        string_of(slice_subrange(word, digits + 1, word.len())),
    );
    true
}

/// Computes [`marker_before`].
pub fn find_marker_before(
    text: &[char],
    dictionary: &Dictionary,
    tokens: &Vec<Token>,
    at: usize,
) -> (r: Option<(usize, ElementCategory)>)
    requires
        tiles(tokens@, text@.len() as int),
        at < tokens@.len(),
    ensures
        r == marker_before(text@, dictionary@, tokens@, at as int),
        match r {
            Some(pair) => pair.0 < at && accepts(Filter::Unclaimed, tokens@[pair.0 as int]),
            None => true,
        },
{
    match find_prev(tokens, at, Filter::Solid) {
        Some(before) => match find_keyword_at(text, dictionary, tokens, before, 1) {
            Some(rule) => if is_prefix(rule.category) {
                Some((before, rule.category))
            } else {
                None
            },
            None => None,
        },
        None => None,
    }
}

/// Applies [`marker_rule`], and says whether it applied.
pub fn try_marker(
    text: &[char],
    dictionary: &Dictionary,
    options: &Options,
    tokens: &mut Vec<Token>,
    found: &mut Findings,
    at: usize,
) -> (applied: bool)
    requires
        tiles(old(tokens)@, text@.len() as int),
        at < old(tokens)@.len(),
        accepts(Filter::Unclaimed, old(tokens)@[at as int]),
    ensures
        match marker_rule(
            text@,
            dictionary@,
            options@,
            Progress { tokens: old(tokens)@, found: old(found)@ },
            at as int,
        ) {
            Some(next) => applied && next == (Progress {
                tokens: final(tokens)@,
                found: final(found)@,
            }),
            None => !applied && final(tokens)@ == old(tokens)@ && final(found)@ == old(found)@,
        },
        kept(
            options@,
            Progress { tokens: old(tokens)@, found: old(found)@ },
            Progress { tokens: final(tokens)@, found: final(found)@ },
        ),
{
    let ghost start = Progress { tokens: tokens@, found: found@ };
    proof {
        lemma_kept_same(options@, start);
    }
    match find_marker_before(text, dictionary, tokens, at) {
        Some((before, prefix)) => {
            let token = tokens[at];
            proof {
                lemma_tiles_bounds(tokens@, text@.len() as int, at as int);
            }
            let word = slice_subrange(text, token.start, token.end);
            if !check_marker_takes(options, found, prefix, word) {
                return false;
            }
            take_number(text, options, tokens, found, at, 0, announced(prefix));
            let ghost taken = Progress { tokens: tokens@, found: found@ };
            mark(tokens, before, prefix);
            proof {
                lemma_kept_same(options@, taken);
                reveal(crate::progress::gated);
                lemma_kept_chain(options@, start, taken, Progress { tokens: tokens@, found: found@ });
            }
            true
        },
        None => false,
    }
}

/// Computes [`lead_others`].
pub fn count_others(word: &[char], from: usize) -> (r: usize)
    requires
        from <= word@.len(),
    ensures
        r == lead_others(word@, from as int),
        from + r <= word@.len(),
{
    let mut i: usize = from;
    while i < word.len() && !is_digit(word[i])
        invariant
            from <= i <= word@.len(),
            (i - from) + lead_others(word@, i as int) == lead_others(word@, from as int),
        decreases word@.len() - i,
    {
        i += 1;
    }
    i - from
}

/// Computes [`marker_within`].
pub fn find_marker_within(dictionary: &Dictionary, word: &[char]) -> (r: Option<
    (usize, ElementCategory),
>)
    ensures
        r == marker_within(dictionary@, word@),
        match r {
            Some(pair) => 1 <= pair.0 < word@.len(),
            None => true,
        },
{
    let length = count_others(word, 0);
    if length < 1 || length >= word.len() {
        return None;
    }
    match dictionary.find(slice_subrange(word, 0, length), false) {
        Some(rule) => if is_prefix(rule.category) {
            Some((length, rule.category))
        } else {
            None
        },
        None => None,
    }
}

/// Applies [`joined_marker_rule`], and says whether it applied.
pub fn try_joined_marker(
    text: &[char],
    dictionary: &Dictionary,
    options: &Options,
    tokens: &mut Vec<Token>,
    found: &mut Findings,
    at: usize,
) -> (applied: bool)
    requires
        tiles(old(tokens)@, text@.len() as int),
        at < old(tokens)@.len(),
        accepts(Filter::Unclaimed, old(tokens)@[at as int]),
    ensures
        match joined_marker_rule(
            text@,
            dictionary@,
            options@,
            Progress { tokens: old(tokens)@, found: old(found)@ },
            at as int,
        ) {
            Some(next) => applied && next == (Progress {
                tokens: final(tokens)@,
                found: final(found)@,
            }),
            None => !applied && final(tokens)@ == old(tokens)@ && final(found)@ == old(found)@,
        },
        kept(
            options@,
            Progress { tokens: old(tokens)@, found: old(found)@ },
            Progress { tokens: final(tokens)@, found: final(found)@ },
        ),
{
    let token = tokens[at];
    proof {
        lemma_tiles_bounds(tokens@, text@.len() as int, at as int);
        lemma_kept_same(options@, Progress { tokens: tokens@, found: found@ });
    }
    let word = slice_subrange(text, token.start, token.end);
    match find_marker_within(dictionary, word) {
        Some((length, prefix)) => {
            let rest = slice_subrange(word, length, word.len());
            assert(rest@ =~= word@.skip(length as int));
            if !check_marker_takes(options, found, prefix, rest) {
                return false;
            }
            take_number(text, options, tokens, found, at, length, announced(prefix));
            true
        },
        None => false,
    }
}

/// Applies [`version_rule`], and says whether it applied.
pub fn try_version(
    text: &[char],
    options: &Options,
    tokens: &mut Vec<Token>,
    found: &mut Findings,
    at: usize,
) -> (applied: bool)
    requires
        tiles(old(tokens)@, text@.len() as int),
        at < old(tokens)@.len(),
        accepts(Filter::Unclaimed, old(tokens)@[at as int]),
    ensures
        match version_rule(
            text@,
            options@,
            Progress { tokens: old(tokens)@, found: old(found)@ },
            at as int,
        ) {
            Some(next) => applied && next == (Progress {
                tokens: final(tokens)@,
                found: final(found)@,
            }),
            None => !applied && final(tokens)@ == old(tokens)@ && final(found)@ == old(found)@,
        },
        kept(
            options@,
            Progress { tokens: old(tokens)@, found: old(found)@ },
            Progress { tokens: final(tokens)@, found: final(found)@ },
        ),
{
    let token = tokens[at];
    proof {
        lemma_tiles_bounds(tokens@, text@.len() as int, at as int);
        lemma_kept_same(options@, Progress { tokens: tokens@, found: found@ });
    }
    let word = slice_subrange(text, token.start, token.end);
    if !check_versioned(word) || !is_episode_open(options, found) {
        return false;
    }
    take_number(text, options, tokens, found, at, 0, ElementCategory::EpisodeNumber);
    true
}

/// Takes [`number_step`].
pub fn run_number_step(
    text: &[char],
    dictionary: &Dictionary,
    options: &Options,
    tokens: &mut Vec<Token>,
    found: &mut Findings,
    at: usize,
)
    requires
        tiles(old(tokens)@, text@.len() as int),
        at < old(tokens)@.len(),
    ensures
        (Progress { tokens: final(tokens)@, found: final(found)@ }) == number_step(
            text@,
            dictionary@,
            options@,
            Progress { tokens: old(tokens)@, found: old(found)@ },
            at as int,
        ),
        kept(
            options@,
            Progress { tokens: old(tokens)@, found: old(found)@ },
            Progress { tokens: final(tokens)@, found: final(found)@ },
        ),
{
    if !accepts(Filter::Unclaimed, tokens[at]) {
        proof {
            lemma_kept_same(options@, Progress { tokens: tokens@, found: found@ });
        }
        return ;
    }
    if try_range(text, options, tokens, found, at) {
        return ;
    }
    if try_marker(text, dictionary, options, tokens, found, at) {
        return ;
    }
    if try_joined_marker(text, dictionary, options, tokens, found, at) {
        return ;
    }
    let _ = try_version(text, options, tokens, found, at);
}

/// Runs the number pass.
pub fn run_number_pass(
    text: &[char],
    dictionary: &Dictionary,
    options: &Options,
    tokens: &mut Vec<Token>,
    found: &mut Findings,
)
    requires
        tiles(old(tokens)@, text@.len() as int),
    ensures
        (Progress { tokens: final(tokens)@, found: final(found)@ }) == number_pass(
            text@,
            dictionary@,
            options@,
            Progress { tokens: old(tokens)@, found: old(found)@ },
        ),
        kept(
            options@,
            Progress { tokens: old(tokens)@, found: old(found)@ },
            Progress { tokens: final(tokens)@, found: final(found)@ },
        ),
{
    let count: usize = tokens.len();
    let ghost start = Progress { tokens: tokens@, found: found@ };
    proof {
        lemma_kept_same(options@, start);
    }
    let mut at: usize = 0;
    while at < count
        invariant
            at <= count,
            count == tokens@.len(),
            count == start.tokens.len(),
            tiles(start.tokens, text@.len() as int),
            kept(options@, start, Progress { tokens: tokens@, found: found@ }),
            fold_steps(
                number_stepper(text@, dictionary@, options@),
                Progress { tokens: tokens@, found: found@ },
                at as int,
                count as int,
            ) == number_pass(text@, dictionary@, options@, start),
        decreases count - at,
    {
        let ghost before = Progress { tokens: tokens@, found: found@ };
        proof {
            lemma_layout_tiles(start.tokens, tokens@, text@.len() as int);
        }
        run_number_step(text, dictionary, options, tokens, found, at);
        proof {
            lemma_kept_chain(options@, start, before, Progress { tokens: tokens@, found: found@ });
        }
        at += 1;
    }
}

/// The index of the last token before `before` that is an unclaimed number
/// outside brackets.
pub open spec fn last_number(text: Seq<char>, tokens: Seq<Token>, before: int) -> Option<int>
    decreases before,
{
    if before <= 0 || before > tokens.len() {
        None
    } else if accepts(Filter::UnclaimedOutside, tokens[before - 1]) && is_number(
        text_of(text, tokens[before - 1]),
    ) {
        Some(before - 1)
    } else {
        last_number(text, tokens, before - 1)
    }
}

/// The rule of the last number. If an episode number is still looked for
/// after the other rules, the last unclaimed number that stands free and
/// outside brackets is taken for it, provided that it stands behind the
/// first unclaimed token outside brackets: the number of an episode follows
/// the title, and a number that opens the name belongs to the title.
pub open spec fn last_number_rule(text: Seq<char>, options: OptionsView, progress: Progress) -> Progress {
    if episode_open(options, progress.found) {
        match last_number(text, progress.tokens, progress.tokens.len() as int) {
            Some(at) => if next_index(progress.tokens, 0, Filter::UnclaimedOutside) < at {
                Progress {
                    tokens: marked(progress.tokens, at, ElementCategory::EpisodeNumber),
                    found: recorded(
                        options,
                        progress.found,
                        ElementCategory::EpisodeNumber,
                        text_of(text, progress.tokens[at]),
                    ),
                }
            } else {
                progress
            },
            None => progress,
        }
    } else {
        progress
    }
}

/// Computes [`last_number`] over all the tokens.
pub fn find_last_number(text: &[char], tokens: &Vec<Token>) -> (r: Option<usize>)
    requires
        tiles(tokens@, text@.len() as int),
    ensures
        match r {
            Some(at) => at < tokens@.len() && last_number(text@, tokens@, tokens@.len() as int)
                == Some(at as int) && accepts(Filter::UnclaimedOutside, tokens@[at as int]),
            None => last_number(text@, tokens@, tokens@.len() as int) is None,
        },
{
    let mut i: usize = tokens.len();
    while i > 0
        invariant
            i <= tokens@.len(),
            tiles(tokens@, text@.len() as int),
            last_number(text@, tokens@, tokens@.len() as int) == last_number(
                text@,
                tokens@,
                i as int,
            ),
        decreases i,
    {
        let token = tokens[i - 1];
        proof {
            lemma_tiles_bounds(tokens@, text@.len() as int, i - 1);
        }
        if accepts(Filter::UnclaimedOutside, token) && check_number(
            slice_subrange(text, token.start, token.end),
        ) {
            return Some(i - 1);
        }
        i -= 1;
    }
    None
}

/// Applies [`last_number_rule`].
pub fn run_last_number_rule(
    text: &[char],
    options: &Options,
    tokens: &mut Vec<Token>,
    found: &mut Findings,
)
    requires
        tiles(old(tokens)@, text@.len() as int),
    ensures
        (Progress { tokens: final(tokens)@, found: final(found)@ }) == last_number_rule(
            text@,
            options@,
            Progress { tokens: old(tokens)@, found: old(found)@ },
        ),
        kept(
            options@,
            Progress { tokens: old(tokens)@, found: old(found)@ },
            Progress { tokens: final(tokens)@, found: final(found)@ },
        ),
{
    proof {
        lemma_kept_same(options@, Progress { tokens: tokens@, found: found@ });
    }
    if !is_episode_open(options, found) {
        return ;
    }
    match find_last_number(text, tokens) {
        Some(at) => {
            if find_next(tokens, 0, Filter::UnclaimedOutside) < at {
                let token = tokens[at];
                proof {
                    lemma_tiles_bounds(tokens@, text@.len() as int, at as int);
                }
                let word = slice_subrange(text, token.start, token.end);
                mark(tokens, at, ElementCategory::EpisodeNumber);
                record(found, options, ElementCategory::EpisodeNumber, string_of(word));
            }
        },
        None => {},
    }
}

/// The index of the number that stands alone within brackets right behind
/// the episode number, as `176` in `01 (176)`: the number of tokens if there
/// is none.
pub open spec fn alternate_index(text: Seq<char>, tokens: Seq<Token>) -> int {
    let episode = next_index(tokens, 0, Filter::Episode);
    let open = next_index(tokens, episode + 1, Filter::Solid);
    let number = next_index(tokens, open + 1, Filter::Solid);
    if episode < tokens.len() && open < tokens.len() && number < tokens.len()
        && tokens[open].kind == TokenKind::OpenBracket && accepts(
        Filter::Unclaimed,
        tokens[number],
    ) && is_number(text_of(text, tokens[number])) && is_isolated(tokens, number) {
        number
    } else {
        tokens.len() as int
    }
}

/// The rule of the alternative number. An unclaimed number that stands alone
/// within brackets right behind the episode number counts the same episode
/// in another way, and is recorded once.
pub open spec fn alternate_rule(text: Seq<char>, options: OptionsView, progress: Progress) -> Progress {
    let at = alternate_index(text, progress.tokens);
    if at < progress.tokens.len() && absent(progress.found, ElementCategory::EpisodeNumberAlt) {
        Progress {
            tokens: marked(progress.tokens, at, ElementCategory::EpisodeNumberAlt),
            found: recorded(
                options,
                progress.found,
                ElementCategory::EpisodeNumberAlt,
                text_of(text, progress.tokens[at]),
            ),
        }
    } else {
        progress
    }
}

/// Computes [`alternate_index`].
pub fn find_alternate(text: &[char], tokens: &Vec<Token>) -> (r: usize)
    requires
        tiles(tokens@, text@.len() as int),
    ensures
        r == alternate_index(text@, tokens@),
        r <= tokens@.len(),
        r < tokens@.len() ==> accepts(Filter::Unclaimed, tokens@[r as int]),
{
    let count = tokens.len();
    let episode = find_next(tokens, 0, Filter::Episode);
    if episode >= count {
        return count;
    }
    let open = find_next(tokens, episode + 1, Filter::Solid);
    if open >= count || tokens[open].kind != TokenKind::OpenBracket {
        return count;
    }
    let number = find_next(tokens, open + 1, Filter::Solid);
    if number >= count || !accepts(Filter::Unclaimed, tokens[number]) {
        return count;
    }
    let token = tokens[number];
    proof {
        lemma_tiles_bounds(tokens@, text@.len() as int, number as int);
    }
    if check_number(slice_subrange(text, token.start, token.end)) && check_isolated(
        tokens,
        number,
    ) {
        number
    } else {
        count
    }
}

/// Applies [`alternate_rule`].
pub fn run_alternate_rule(
    text: &[char],
    options: &Options,
    tokens: &mut Vec<Token>,
    found: &mut Findings,
)
    requires
        tiles(old(tokens)@, text@.len() as int),
    ensures
        (Progress { tokens: final(tokens)@, found: final(found)@ }) == alternate_rule(
            text@,
            options@,
            Progress { tokens: old(tokens)@, found: old(found)@ },
        ),
        kept(
            options@,
            Progress { tokens: old(tokens)@, found: old(found)@ },
            Progress { tokens: final(tokens)@, found: final(found)@ },
        ),
{
    proof {
        lemma_kept_same(options@, Progress { tokens: tokens@, found: found@ });
    }
    let at = find_alternate(text, tokens);
    if at < tokens.len() && found.is_empty(Some(ElementCategory::EpisodeNumberAlt)) {
        let token = tokens[at];
        proof {
            lemma_tiles_bounds(tokens@, text@.len() as int, at as int);
        }
        let word = slice_subrange(text, token.start, token.end);
        mark(tokens, at, ElementCategory::EpisodeNumberAlt);
        record(found, options, ElementCategory::EpisodeNumberAlt, string_of(word));
    }
}

/// A run of digits that ends the word, or is followed by a character that
/// is no digit, is what [`lead_digits`] counts.
pub proof fn lemma_lead_digits_run(word: Seq<char>, from: int, to: int)
    requires
        0 <= from <= to <= word.len(),
        all_digits(word.subrange(from, to)),
        to < word.len() ==> !is_digit(word[to]),
    ensures
        lead_digits(word, from) == to - from,
    decreases to - from,
{
    if from < to {
        assert(word.subrange(from, to)[0] == word[from]);
        assert forall|i: int| 0 <= i < to - from - 1 implies is_digit(
            #[trigger] word.subrange(from + 1, to)[i],
        ) by {
            assert(word.subrange(from + 1, to)[i] == word.subrange(from, to)[i + 1]);
        }
        lemma_lead_digits_run(word, from + 1, to);
    }
}

/// Range expansion: a token of the form low, hyphen, high, the bounds being
/// numbers of at most four digits and the first less than the second, met
/// while an episode number is looked for, gives exactly two episode
/// numbers: the lower bound, then the upper.
pub proof fn lemma_range_expansion(
    text: Seq<char>,
    table: Seq<KeywordView>,
    options: OptionsView,
    progress: Progress,
    at: int,
    low: Seq<char>,
    high: Seq<char>,
)
    requires
        0 <= at < progress.tokens.len(),
        accepts(Filter::Unclaimed, progress.tokens[at]),
        text_of(text, progress.tokens[at]) == low + seq!['-'] + high,
        is_number(low),
        low.len() <= 4,
        is_number(high),
        high.len() <= 4,
        value_of(low) < value_of(high),
        episode_open(options, progress.found),
    ensures
        number_step(text, table, options, progress, at).found == progress.found.push(
            (ElementCategory::EpisodeNumber, low),
        ).push((ElementCategory::EpisodeNumber, high)),
        number_step(text, table, options, progress, at).tokens == marked(
            progress.tokens,
            at,
            ElementCategory::EpisodeNumber,
        ),
{
    let word = text_of(text, progress.tokens[at]);
    let n = low.len() as int;
    assert(word.subrange(0, n) =~= low);
    assert(word.subrange(n + 1, word.len() as int) =~= high);
    assert(word[n] == '-');
    lemma_lead_digits_run(word, 0, n);
    assert(is_range(word));
}

} // verus!
