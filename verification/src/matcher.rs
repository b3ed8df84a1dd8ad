//! The passes that go by the vocabulary: the checksum, then the keywords of
//! the dictionary and the video resolution.
use vstd::prelude::*;
use vstd::slice::slice_subrange;
use crate::category::ElementCategory;
use crate::elements::Findings;
use crate::keyword::{Dictionary, KeywordView, Rule, lookup};
use crate::options::{Options, OptionsView};
use crate::progress::{Progress, absent, enabled, fold_steps, is_enabled, is_singular, kept,
    lemma_kept_chain, lemma_kept_same, record, recorded};
use crate::shape::{check_checksum, check_resolution, is_checksum, is_resolution};
use crate::text::{string_of, upper_word};
use crate::token::{Filter, Token, TokenKind, accepts, is_bracket, lemma_layout_tiles,
    lemma_tiles_bounds, lemma_tiles_order, mark, mark_range, marked, marked_range, text_of, tiles};

verus! {

/// The progress after the token at `at` has been looked at for a checksum.
/// The first unclaimed token within brackets that has the shape of one is
/// the checksum.
pub open spec fn checksum_step(text: Seq<char>, options: OptionsView, progress: Progress, at: int) -> Progress {
    if 0 <= at < progress.tokens.len() && accepts(Filter::UnclaimedEnclosed, progress.tokens[at])
        && is_checksum(text_of(text, progress.tokens[at])) && absent(
        progress.found,
        ElementCategory::FileChecksum,
    ) {
        Progress {
            tokens: marked(progress.tokens, at, ElementCategory::FileChecksum),
            found: recorded(
                options,
                progress.found,
                ElementCategory::FileChecksum,
                text_of(text, progress.tokens[at]),
            ),
        }
    } else {
        progress
    }
}

/// [`checksum_step`] as a step of a pass.
pub open spec fn checksum_stepper(text: Seq<char>, options: OptionsView) -> spec_fn(Progress, int) -> Progress {
    |progress: Progress, at: int| checksum_step(text, options, progress, at)
}

/// The progress after the checksum pass: [`checksum_step`] at each token,
/// from the first to the last.
pub open spec fn checksum_pass(text: Seq<char>, options: OptionsView, progress: Progress) -> Progress {
    fold_steps(checksum_stepper(text, options), progress, 0, progress.tokens.len() as int)
}

/// Takes [`checksum_step`].
pub fn run_checksum_step(
    text: &[char],
    options: &Options,
    tokens: &mut Vec<Token>,
    found: &mut Findings,
    at: usize,
)
    requires
        tiles(old(tokens)@, text@.len() as int),
        at < old(tokens)@.len(),
    ensures
        (Progress { tokens: final(tokens)@, found: final(found)@ }) == checksum_step(
            text@,
            options@,
            Progress { tokens: old(tokens)@, found: old(found)@ },
            at as int,
        ),
        kept(
            options@,
            Progress { tokens: old(tokens)@, found: old(found)@ },
            Progress { tokens: final(tokens)@, found: final(found)@ },
        ),
{
    let token = tokens[at];
    proof {
        lemma_tiles_bounds(tokens@, text@.len() as int, at as int);
        lemma_kept_same(options@, Progress { tokens: tokens@, found: found@ });
    }
    if accepts(Filter::UnclaimedEnclosed, token) {
        let word = slice_subrange(text, token.start, token.end);
        if check_checksum(word) && found.is_empty(Some(ElementCategory::FileChecksum)) {
            mark(tokens, at, ElementCategory::FileChecksum);
            record(found, options, ElementCategory::FileChecksum, string_of(word));
        }
    }
}

/// Runs the checksum pass.
pub fn run_checksum_pass(
    text: &[char],
    options: &Options,
    tokens: &mut Vec<Token>,
    found: &mut Findings,
)
    requires
        tiles(old(tokens)@, text@.len() as int),
    ensures
        (Progress { tokens: final(tokens)@, found: final(found)@ }) == checksum_pass(
            text@,
            options@,
            Progress { tokens: old(tokens)@, found: old(found)@ },
        ),
        kept(
            options@,
            Progress { tokens: old(tokens)@, found: old(found)@ },
            Progress { tokens: final(tokens)@, found: final(found)@ },
        ),
{
    let count: usize = tokens.len();
    let ghost start = Progress { tokens: tokens@, found: found@ };
    proof {
        lemma_kept_same(options@, start);
    }
    let mut at: usize = 0;
    while at < count
        invariant
            at <= count,
            count == tokens@.len(),
            count == start.tokens.len(),
            tiles(start.tokens, text@.len() as int),
            kept(options@, start, Progress { tokens: tokens@, found: found@ }),
            fold_steps(
                checksum_stepper(text@, options@),
                Progress { tokens: tokens@, found: found@ },
                at as int,
                count as int,
            ) == checksum_pass(text@, options@, start),
        decreases count - at,
    {
        let ghost before = Progress { tokens: tokens@, found: found@ };
        proof {
            lemma_layout_tiles(start.tokens, tokens@, text@.len() as int);
        }
        run_checksum_step(text, options, tokens, found, at);
        proof {
            lemma_kept_chain(options@, start, before, Progress { tokens: tokens@, found: found@ });
        }
        at += 1;
    }
}

/// A token that a window of a keyword may hold after its first: one that
/// is not claimed and is no bracket.
#[verifier::allow_in_spec]
pub fn is_plain(token: Token) -> bool
    returns
        (token.identified is None && !is_bracket(token)),
{
    token.identified.is_none() && !is_bracket(token)
}

/// Whether `width` tokens from `at` on can be read as one word: there are
/// one to three of them, the first is an unclaimed free token, and none of
/// the others is claimed or a bracket.
pub open spec fn window_fits(tokens: Seq<Token>, at: int, width: int) -> bool {
    &&& 0 <= at
    &&& 1 <= width <= 3
    &&& at + width <= tokens.len()
    &&& accepts(Filter::Unclaimed, tokens[at])
    &&& width >= 2 ==> is_plain(tokens[at + 1])
    &&& width >= 3 ==> is_plain(tokens[at + 2])
}

/// The characters that the `width` tokens from `at` on span.
pub open spec fn window_text(text: Seq<char>, tokens: Seq<Token>, at: int, width: int) -> Seq<char> {
    text.subrange(tokens[at].start as int, tokens[at + width - 1].end as int)
}

/// Whether a keyword with `rule` counts where the window stands.
pub open spec fn rule_holds(tokens: Seq<Token>, at: int, width: int, rule: Rule) -> bool {
    &&& rule.enclosed_only ==> tokens[at].enclosed
    &&& rule.before_delimiter ==> at + width < tokens.len() && tokens[at + width].kind
        == TokenKind::Delimiter
}

/// The rule of the keyword that the `width` tokens from `at` on spell,
/// whatever their case.
pub open spec fn keyword_at(
    text: Seq<char>,
    table: Seq<KeywordView>,
    tokens: Seq<Token>,
    at: int,
    width: int,
) -> Option<Rule> {
    if window_fits(tokens, at, width) {
        match lookup(table, upper_word(window_text(text, tokens, at, width)), false, 0) {
            Some(rule) => if rule_holds(tokens, at, width, rule) {
                Some(rule)
            } else {
                None
            },
            None => None,
        }
    } else {
        None
    }
}

/// The longest keyword that starts with the token at `at`: the width of its
/// window and its rule.
pub open spec fn longest_keyword(
    text: Seq<char>,
    table: Seq<KeywordView>,
    tokens: Seq<Token>,
    at: int,
) -> Option<(usize, Rule)> {
    match keyword_at(text, table, tokens, at, 3) {
        Some(rule) => Some((3usize, rule)),
        None => match keyword_at(text, table, tokens, at, 2) {
            Some(rule) => Some((2usize, rule)),
            None => match keyword_at(text, table, tokens, at, 1) {
                Some(rule) => Some((1usize, rule)),
                None => None,
            },
        },
    }
}

/// A category whose keywords announce a number. The keyword pass leaves
/// them to the number pass.
#[verifier::allow_in_spec]
pub fn is_prefix(category: ElementCategory) -> bool
    returns
        (category == ElementCategory::EpisodePrefix || category == ElementCategory::VolumePrefix
            || category == ElementCategory::AnimeSeasonPrefix),
{
    category == ElementCategory::EpisodePrefix || category == ElementCategory::VolumePrefix
        || category == ElementCategory::AnimeSeasonPrefix
}

/// Whether the keyword pass records a keyword of `category`: not a prefix,
/// not one whose category is switched off, and not a second element of a
/// category that has one at most.
pub open spec fn takes_keyword(
    options: OptionsView,
    found: Seq<crate::category::ElementView>,
    category: ElementCategory,
) -> bool {
    &&& !is_prefix(category)
    &&& enabled(options, category)
    &&& is_singular(category) ==> absent(found, category)
}

/// The value of the element that a keyword gives: the word as it is written
/// in the file name. Of a release version the letter in front is dropped.
pub open spec fn keyword_value(category: ElementCategory, word: Seq<char>) -> Seq<char> {
    if category == ElementCategory::ReleaseVersion {
        word.skip(1)
    } else {
        word
    }
}

/// The progress after the keyword that the `width` tokens from `at` on
/// spell has been met: where the keyword pass takes it, it gives an element
/// of the keyword's category, and the free tokens of its window are claimed.
pub open spec fn keyword_taken(
    text: Seq<char>,
    options: OptionsView,
    progress: Progress,
    at: int,
    width: usize,
    rule: Rule,
) -> Progress {
    if takes_keyword(options, progress.found, rule.category) {
        Progress {
            tokens: marked_range(progress.tokens, at, at + width, rule.category),
            found: recorded(
                options,
                progress.found,
                rule.category,
                keyword_value(rule.category, window_text(text, progress.tokens, at, width as int)),
            ),
        }
    } else {
        progress
    }
}

/// The progress after the token at `at` has been looked at for a video
/// resolution: it gives one if it has the shape of one and none was found
/// before.
pub open spec fn resolution_taken(
    text: Seq<char>,
    options: OptionsView,
    progress: Progress,
    at: int,
) -> Progress {
    if is_resolution(text_of(text, progress.tokens[at])) && absent(
        progress.found,
        ElementCategory::VideoResolution,
    ) {
        Progress {
            tokens: marked(progress.tokens, at, ElementCategory::VideoResolution),
            found: recorded(
                options,
                progress.found,
                ElementCategory::VideoResolution,
                text_of(text, progress.tokens[at]),
            ),
        }
    } else {
        progress
    }
}

/// The progress after the token at `at` has been looked at by the keyword
/// pass. An unclaimed free token that starts a keyword is read as the
/// longest keyword it starts; one that starts none may be a video
/// resolution. Any other token is passed over.
pub open spec fn keyword_step(
    text: Seq<char>,
    table: Seq<KeywordView>,
    options: OptionsView,
    progress: Progress,
    at: int,
) -> Progress {
    if !(0 <= at < progress.tokens.len()) || !accepts(Filter::Unclaimed, progress.tokens[at]) {
        progress
    } else {
        match longest_keyword(text, table, progress.tokens, at) {
            Some((width, rule)) => keyword_taken(text, options, progress, at, width, rule),
            None => resolution_taken(text, options, progress, at),
        }
    }
}

/// [`keyword_step`] as a step of a pass.
pub open spec fn keyword_stepper(
    text: Seq<char>,
    table: Seq<KeywordView>,
    options: OptionsView,
) -> spec_fn(Progress, int) -> Progress {
    |progress: Progress, at: int| keyword_step(text, table, options, progress, at)
}

/// The progress after the keyword pass: [`keyword_step`] at each token, from
/// the first to the last.
pub open spec fn keyword_pass(
    text: Seq<char>,
    table: Seq<KeywordView>,
    options: OptionsView,
    progress: Progress,
) -> Progress {
    fold_steps(keyword_stepper(text, table, options), progress, 0, progress.tokens.len() as int)
}

/// Computes [`keyword_at`].
pub fn find_keyword_at(
    text: &[char],
    dictionary: &Dictionary,
    tokens: &Vec<Token>,
    at: usize,
    width: usize,
) -> (r: Option<Rule>)
    requires
        tiles(tokens@, text@.len() as int),
        at < tokens@.len(),
        1 <= width <= 3,
    ensures
        r == keyword_at(text@, dictionary@, tokens@, at as int, width as int),
{
    let count = tokens.len();
    if width > count - at || !accepts(Filter::Unclaimed, tokens[at]) {
        return None;
    }
    if width >= 2 && !is_plain(tokens[at + 1]) {
        return None;
    }
    if width >= 3 && !is_plain(tokens[at + 2]) {
        return None;
    }
    let first = tokens[at];
    let last = tokens[at + width - 1];
    proof {
        lemma_tiles_bounds(tokens@, text@.len() as int, at as int);
        if width > 1 {
            lemma_tiles_order(tokens@, text@.len() as int, at as int, at + width - 1);
        }
    }
    let word = slice_subrange(text, first.start, last.end);
    match dictionary.find(word, false) {
        Some(rule) => {
            if rule.enclosed_only && !first.enclosed {
                return None;
            }
            if rule.before_delimiter && (at + width >= count || tokens[at + width].kind
                != TokenKind::Delimiter) {
                return None;
            }
            Some(rule)
        },
        None => None,
    }
}

/// Computes [`longest_keyword`].
pub fn find_longest_keyword(
    text: &[char],
    dictionary: &Dictionary,
    tokens: &Vec<Token>,
    at: usize,
) -> (r: Option<(usize, Rule)>)
    requires
        tiles(tokens@, text@.len() as int),
        at < tokens@.len(),
    ensures
        r == longest_keyword(text@, dictionary@, tokens@, at as int),
        match r {
            Some(pair) => 1 <= pair.0 <= 3 && at + pair.0 <= tokens@.len(),
            None => true,
        },
{
    match find_keyword_at(text, dictionary, tokens, at, 3) {
        Some(rule) => Some((3, rule)),
        None => match find_keyword_at(text, dictionary, tokens, at, 2) {
            Some(rule) => Some((2, rule)),
            None => match find_keyword_at(text, dictionary, tokens, at, 1) {
                Some(rule) => Some((1, rule)),
                None => None,
            },
        },
    }
}

/// Records the keyword that the `width` tokens from `at` on spell.
pub fn take_keyword(
    text: &[char],
    options: &Options,
    tokens: &mut Vec<Token>,
    found: &mut Findings,
    at: usize,
    width: usize,
    rule: Rule,
)
    requires
        tiles(old(tokens)@, text@.len() as int),
        1 <= width <= 3,
        at + width <= old(tokens)@.len(),
    ensures
        (Progress { tokens: final(tokens)@, found: final(found)@ }) == keyword_taken(
            text@,
            options@,
            Progress { tokens: old(tokens)@, found: old(found)@ },
            at as int,
            width,
            rule,
        ),
        kept(
            options@,
            Progress { tokens: old(tokens)@, found: old(found)@ },
            Progress { tokens: final(tokens)@, found: final(found)@ },
        ),
{
    let category = rule.category;
    if is_prefix(category) || !is_enabled(options, category) {
        proof {
            lemma_kept_same(options@, Progress { tokens: tokens@, found: found@ });
        }
        return ;
    }
    if is_singular(category) && !found.is_empty(Some(category)) {
        proof {
            lemma_kept_same(options@, Progress { tokens: tokens@, found: found@ });
        }
        return ;
    }
    let count = tokens.len();
    let first = tokens[at];
    let last = tokens[at + width - 1];
    proof {
        lemma_tiles_bounds(tokens@, text@.len() as int, at as int);
        if width > 1 {
            lemma_tiles_order(tokens@, text@.len() as int, at as int, at + width - 1);
        }
    }
    let from: usize = if category == ElementCategory::ReleaseVersion {
        first.start + 1
    } else {
        first.start
    };
    let value = slice_subrange(text, from, last.end);
    assert(value@ =~= keyword_value(category, window_text(text@, tokens@, at as int, width as int)));
    mark_range(tokens, at, at + width, category);
    record(found, options, category, string_of(value));
}

/// Records the video resolution that the token at `at` spells, if it spells
/// one and none was found before.
pub fn take_resolution(
    text: &[char],
    options: &Options,
    tokens: &mut Vec<Token>,
    found: &mut Findings,
    at: usize,
)
    requires
        tiles(old(tokens)@, text@.len() as int),
        at < old(tokens)@.len(),
        accepts(Filter::Unclaimed, old(tokens)@[at as int]),
    ensures
        (Progress { tokens: final(tokens)@, found: final(found)@ }) == resolution_taken(
            text@,
            options@,
            Progress { tokens: old(tokens)@, found: old(found)@ },
            at as int,
        ),
        kept(
            options@,
            Progress { tokens: old(tokens)@, found: old(found)@ },
            Progress { tokens: final(tokens)@, found: final(found)@ },
        ),
{
    let token = tokens[at];
    proof {
        lemma_tiles_bounds(tokens@, text@.len() as int, at as int);
    }
    let word = slice_subrange(text, token.start, token.end);
    if check_resolution(word) && found.is_empty(Some(ElementCategory::VideoResolution)) {
        mark(tokens, at, ElementCategory::VideoResolution);
        record(found, options, ElementCategory::VideoResolution, string_of(word));
    } else {
        proof {
            lemma_kept_same(options@, Progress { tokens: tokens@, found: found@ });
        }
    }
}

/// Takes [`keyword_step`].
pub fn run_keyword_step(
    text: &[char],
    dictionary: &Dictionary,
    options: &Options,
    tokens: &mut Vec<Token>,
    found: &mut Findings,
    at: usize,
)
    requires
        tiles(old(tokens)@, text@.len() as int),
        at < old(tokens)@.len(),
    ensures
        (Progress { tokens: final(tokens)@, found: final(found)@ }) == keyword_step(
            text@,
            dictionary@,
            options@,
            Progress { tokens: old(tokens)@, found: old(found)@ },
            at as int,
        ),
        kept(
            options@,
            Progress { tokens: old(tokens)@, found: old(found)@ },
            Progress { tokens: final(tokens)@, found: final(found)@ },
        ),
{
    if !accepts(Filter::Unclaimed, tokens[at]) {
        proof {
            lemma_kept_same(options@, Progress { tokens: tokens@, found: found@ });
        }
        return ;
    }
    match find_longest_keyword(text, dictionary, tokens, at) {
        Some((width, rule)) => take_keyword(text, options, tokens, found, at, width, rule),
        None => take_resolution(text, options, tokens, found, at),
    }
}

/// Runs the keyword pass.
pub fn run_keyword_pass(
    text: &[char],
    dictionary: &Dictionary,
    options: &Options,
    tokens: &mut Vec<Token>,
    found: &mut Findings,
)
    requires
        tiles(old(tokens)@, text@.len() as int),
    ensures
        (Progress { tokens: final(tokens)@, found: final(found)@ }) == keyword_pass(
            text@,
            dictionary@,
            options@,
            Progress { tokens: old(tokens)@, found: old(found)@ },
        ),
        kept(
            options@,
            Progress { tokens: old(tokens)@, found: old(found)@ },
            Progress { tokens: final(tokens)@, found: final(found)@ },
        ),
{
    let count: usize = tokens.len();
    let ghost start = Progress { tokens: tokens@, found: found@ };
    proof {
        lemma_kept_same(options@, start);
    }
    let mut at: usize = 0;
    while at < count
        invariant
            at <= count,
            count == tokens@.len(),
            count == start.tokens.len(),
            tiles(start.tokens, text@.len() as int),
            kept(options@, start, Progress { tokens: tokens@, found: found@ }),
            fold_steps(
                keyword_stepper(text@, dictionary@, options@),
                Progress { tokens: tokens@, found: found@ },
                at as int,
                count as int,
            ) == keyword_pass(text@, dictionary@, options@, start),
        decreases count - at,
    {
        let ghost before = Progress { tokens: tokens@, found: found@ };
        proof {
            lemma_layout_tiles(start.tokens, tokens@, text@.len() as int);
        }
        run_keyword_step(text, dictionary, options, tokens, found, at);
        proof {
            lemma_kept_chain(options@, start, before, Progress { tokens: tokens@, found: found@ });
        }
        at += 1;
    }
}

} // verus!
