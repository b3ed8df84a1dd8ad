//! The parser: the passes in their order, from the file name to the elements.
use vstd::prelude::*;
use vstd::slice::slice_subrange;
use crate::category::{ElementCategory, ElementView};
use crate::elements::{Elements, Findings, count_of, lemma_values_of_take_succ, values_of};
use crate::keyword::{Dictionary, KeywordView, default_keywords, lookup};
use crate::matcher::{checksum_pass, keyword_pass, run_checksum_pass, run_keyword_pass};
use crate::number::{alternate_rule, last_number_rule, number_pass, run_alternate_rule,
    run_last_number_rule, run_number_pass, run_year_pass, year_pass};
use crate::options::{Options, OptionsView, default_delimiters};
use crate::progress::{Progress, absent, enabled, gated, kept, lemma_kept_chain, record, recorded};
use crate::residual::{episode_title_rule, group_rule, run_episode_title_rule, run_group_rule,
    run_title_rule, title_rule};
use crate::text::{all_alpha, all_alphanumeric, chars_of, check_all_alpha, check_all_alphanumeric,
    find_last, last_index_of, remove_each, remove_first_occurrence, string_of,
    upper_word};
use crate::token::{Token, lemma_layout_tiles, tiles};
use crate::tokenizer::{tokenize, tokens_of};

verus! {

/// A file extension: one to four letters and digits that are all letters or
/// stand in the dictionary as an extension.
pub open spec fn is_extension(table: Seq<KeywordView>, word: Seq<char>) -> bool {
    &&& 1 <= word.len() <= 4
    &&& all_alphanumeric(word)
    &&& all_alpha(word) || lookup(table, upper_word(word), true, 0) is Some
}

/// The position of the dot that parts the name from its extension: the last
/// dot of the name, if a file extension follows it.
pub open spec fn extension_dot(table: Seq<KeywordView>, name: Seq<char>) -> Option<int> {
    match last_index_of(name, '.', name.len() as int) {
        Some(dot) => if is_extension(table, name.subrange(dot + 1, name.len() as int)) {
            Some(dot)
        } else {
            None
        },
        None => None,
    }
}

/// The file name without the strings that the options ask to ignore: of
/// each of them, in their order, the first occurrence is taken out.
pub open spec fn cleaned(filename: Seq<char>, options: OptionsView) -> Seq<char> {
    remove_each(filename, options.ignored_strings, 0)
}

/// What is parsed of a cleaned name: the name without its extension, where
/// the options ask for the extension and there is one, and the whole name
/// otherwise.
pub open spec fn stem_of(table: Seq<KeywordView>, options: OptionsView, name: Seq<char>) -> Seq<char> {
    match extension_dot(table, name) {
        Some(dot) => if options.parse_file_extension {
            name.subrange(0, dot)
        } else {
            name
        },
        None => name,
    }
}

/// The elements that a parse starts with: the file extension, where the
/// options ask for it and there is one.
pub open spec fn opening(table: Seq<KeywordView>, options: OptionsView, name: Seq<char>) -> Seq<
    ElementView,
> {
    match extension_dot(table, name) {
        Some(dot) => if options.parse_file_extension {
            seq![(ElementCategory::FileExtension, name.subrange(dot + 1, name.len() as int))]
        } else {
            Seq::empty()
        },
        None => Seq::empty(),
    }
}

/// The progress after every pass, in their order: the checksum, the
/// keywords, the year, the numbers, the last number, the alternative
/// number, the title, the release group and the title of the episode.
pub open spec fn passes(
    text: Seq<char>,
    table: Seq<KeywordView>,
    options: OptionsView,
    progress: Progress,
) -> Progress {
    let after_checksum = checksum_pass(text, options, progress);
    let after_keywords = keyword_pass(text, table, options, after_checksum);
    let after_year = year_pass(text, options, after_keywords);
    let after_numbers = number_pass(text, table, options, after_year);
    let after_last_number = last_number_rule(text, options, after_numbers);
    let after_alternate = alternate_rule(text, options, after_last_number);
    let after_title = title_rule(text, options, after_alternate);
    let after_group = group_rule(text, options, after_title);
    episode_title_rule(text, options, after_group)
}

/// What a parse gives: whether a title was found, and the elements in the
/// order of their discovery.
///
/// The ignored strings are taken out of the file name, then the extension is
/// cut off and recorded. If nothing is left, the parse ends there without
/// success. Otherwise what is left is recorded as the file name and cut into
/// tokens, and the passes run. The parse succeeds if and only if it has
/// found a title.
pub open spec fn parsed(filename: Seq<char>, table: Seq<KeywordView>, options: OptionsView) -> (
    bool,
    Seq<ElementView>,
) {
    let name = cleaned(filename, options);
    let stem = stem_of(table, options, name);
    let found = opening(table, options, name);
    if stem.len() == 0 {
        (false, found)
    } else {
        let start = Progress {
            tokens: tokens_of(stem, options.allowed_delimiters),
            found: found.push((ElementCategory::FileName, stem)),
        };
        let end = passes(stem, table, options, start);
        (!absent(end.found, ElementCategory::AnimeTitle), end.found)
    }
}

/// The file name that the first elements spell: the name, and after a dot
/// the extension, if the extension was found. The extension, if there is
/// one, is the first element, and the name is the element after it.
pub open spec fn reassembled(found: Seq<ElementView>) -> Seq<char> {
    if found.len() >= 2 && found[0].0 == ElementCategory::FileExtension && found[1].0
        == ElementCategory::FileName {
        found[1].1 + seq!['.'] + found[0].1
    } else if found.len() >= 1 && found[0].0 == ElementCategory::FileExtension {
        seq!['.'] + found[0].1
    } else if found.len() >= 1 && found[0].0 == ElementCategory::FileName {
        found[0].1
    } else {
        Seq::empty()
    }
}

/// What holds of every parse, whatever the file name: it succeeds if and
/// only if it has found a title; a category that the options have switched
/// off has no element; and the first elements spell the file name again, as
/// it is without the ignored strings.
pub open spec fn lawful(
    filename: Seq<char>,
    options: OptionsView,
    success: bool,
    found: Seq<ElementView>,
) -> bool {
    &&& success == (count_of(found, Some(ElementCategory::AnimeTitle)) > 0)
    &&& !options.parse_episode_number ==> count_of(found, Some(ElementCategory::EpisodeNumber)) == 0
    &&& !options.parse_episode_title ==> count_of(found, Some(ElementCategory::EpisodeTitle)) == 0
    &&& !options.parse_file_extension ==> count_of(found, Some(ElementCategory::FileExtension)) == 0
    &&& !options.parse_release_group ==> count_of(found, Some(ElementCategory::ReleaseGroup)) == 0
    &&& reassembled(found) == cleaned(filename, options)
}

/// Where no element is of a category that is switched off, there is no
/// element of such a category.
pub proof fn lemma_gated_absent(options: OptionsView, found: Seq<ElementView>, category: ElementCategory)
    requires
        gated(options, found),
        !enabled(options, category),
    ensures
        absent(found, category),
    decreases found.len(),
{
    reveal(gated);
    if found.len() > 0 {
        let shorter = found.drop_last();
        assert(gated(options, shorter)) by {
            assert forall|i: int| 0 <= i < shorter.len() implies enabled(
                options,
                (#[trigger] shorter[i]).0,
            ) by {
                assert(shorter[i] == found[i]);
            }
        }
        lemma_gated_absent(options, shorter, category);
        lemma_values_of_take_succ(found, category, found.len() - 1);
        assert(found.take(found.len() - 1) =~= shorter);
        assert(found.take(found.len() as int) =~= found);
        assert(enabled(options, found[found.len() - 1].0));
    } else {
        assert(values_of(found, category) =~= Seq::<Seq<char>>::empty());
    }
}

/// Computes [`is_extension`].
pub fn check_extension(dictionary: &Dictionary, word: &[char]) -> (r: bool)
    ensures
        r == is_extension(dictionary@, word@),
{
    if word.len() < 1 || word.len() > 4 || !check_all_alphanumeric(word) {
        return false;
    }
    check_all_alpha(word) || dictionary.find(word, true).is_some()
}

/// Computes [`extension_dot`].
pub fn find_extension_dot(dictionary: &Dictionary, name: &[char]) -> (r: Option<usize>)
    ensures
        match r {
            Some(dot) => extension_dot(dictionary@, name@) == Some(dot as int) && dot < name@.len()
                && name@[dot as int] == '.',
            None => extension_dot(dictionary@, name@) is None,
        },
{
    let total = name.len();
    match find_last(name, '.') {
        Some(dot) => {
            proof {
                lemma_last_index(name@, '.', name@.len() as int);
            }
            if check_extension(dictionary, slice_subrange(name, dot + 1, total)) {
                Some(dot)
            } else {
                None
            }
        },
        None => None,
    }
}

/// What [`last_index_of`] finds lies before `before`.
pub proof fn lemma_last_index(s: Seq<char>, c: char, before: int)
    requires
        0 <= before <= s.len(),
    ensures
        match last_index_of(s, c, before) {
            Some(at) => 0 <= at < before && s[at] == c,
            None => true,
        },
    decreases before,
{
    if before > 0 && s[before - 1] != c {
        lemma_last_index(s, c, before - 1);
    }
}

/// Computes [`cleaned`].
pub fn clean(filename: &[char], options: &Options) -> (r: Vec<char>)
    ensures
        r@ == cleaned(filename@, options@),
{
    let empty: [char; 0] = [];
    let mut name = remove_first_occurrence(filename, &empty);
    assert(name@ == filename@);
    let mut i: usize = 0;
    while i < options.ignored_strings.len()
        invariant
            i <= options.ignored_strings@.len(),
            remove_each(name@, options@.ignored_strings, i as int) == cleaned(
                filename@,
                options@,
            ),
        decreases options.ignored_strings@.len() - i,
    {
        let needle = chars_of(options.ignored_strings[i].as_str());
        assert(needle@ == options@.ignored_strings[i as int]);
        name = remove_first_occurrence(name.as_slice(), needle.as_slice());
        i += 1;
    }
    name
}

/// Runs the passes in their order: [`passes`].
pub fn run_passes(
    text: &[char],
    dictionary: &Dictionary,
    options: &Options,
    tokens: &mut Vec<Token>,
    found: &mut Findings,
)
    requires
        tiles(old(tokens)@, text@.len() as int),
    ensures
        (Progress { tokens: final(tokens)@, found: final(found)@ }) == passes(
            text@,
            dictionary@,
            options@,
            Progress { tokens: old(tokens)@, found: old(found)@ },
        ),
        kept(
            options@,
            Progress { tokens: old(tokens)@, found: old(found)@ },
            Progress { tokens: final(tokens)@, found: final(found)@ },
        ),
{
    let ghost len = text@.len() as int;
    let ghost start = Progress { tokens: tokens@, found: found@ };
    run_checksum_pass(text, options, tokens, found);
    let ghost after_checksum = Progress { tokens: tokens@, found: found@ };
    proof {
        lemma_layout_tiles(start.tokens, after_checksum.tokens, len);
    }
    run_keyword_pass(text, dictionary, options, tokens, found);
    let ghost after_keywords = Progress { tokens: tokens@, found: found@ };
    proof {
        lemma_layout_tiles(after_checksum.tokens, after_keywords.tokens, len);
        lemma_kept_chain(options@, start, after_checksum, after_keywords);
    }
    run_year_pass(text, options, tokens, found);
    let ghost after_year = Progress { tokens: tokens@, found: found@ };
    proof {
        lemma_layout_tiles(after_keywords.tokens, after_year.tokens, len);
        lemma_kept_chain(options@, start, after_keywords, after_year);
    }
    run_number_pass(text, dictionary, options, tokens, found);
    let ghost after_numbers = Progress { tokens: tokens@, found: found@ };
    proof {
        lemma_layout_tiles(after_year.tokens, after_numbers.tokens, len);
        lemma_kept_chain(options@, start, after_year, after_numbers);
    }
    run_last_number_rule(text, options, tokens, found);
    let ghost after_last_number = Progress { tokens: tokens@, found: found@ };
    proof {
        lemma_layout_tiles(after_numbers.tokens, after_last_number.tokens, len);
        lemma_kept_chain(options@, start, after_numbers, after_last_number);
    }
    run_alternate_rule(text, options, tokens, found);
    let ghost after_alternate = Progress { tokens: tokens@, found: found@ };
    proof {
        lemma_layout_tiles(after_last_number.tokens, after_alternate.tokens, len);
        lemma_kept_chain(options@, start, after_last_number, after_alternate);
    }
    run_title_rule(text, options, tokens, found);
    let ghost after_title = Progress { tokens: tokens@, found: found@ };
    proof {
        lemma_layout_tiles(after_alternate.tokens, after_title.tokens, len);
        lemma_kept_chain(options@, start, after_alternate, after_title);
    }
    run_group_rule(text, options, tokens, found);
    let ghost after_group = Progress { tokens: tokens@, found: found@ };
    proof {
        lemma_layout_tiles(after_title.tokens, after_group.tokens, len);
        lemma_kept_chain(options@, start, after_title, after_group);
    }
    run_episode_title_rule(text, options, tokens, found);
    proof {
        lemma_kept_chain(options@, start, after_group, Progress { tokens: tokens@, found: found@ });
    }
}

/// Parses a file name with the given dictionary and options.
///
/// The result is [`parsed`]: the same file name, dictionary and options give
/// the same result, whenever and wherever they are parsed. The parse
/// succeeds if and only if it has found a title. No element is of a
/// category that the options have switched off. The first elements spell
/// the file name again, as it is without the ignored strings.
pub fn parse_with(filename: &str, dictionary: &Dictionary, options: &Options) -> (r: (
    bool,
    Elements,
))
    ensures
        (r.0, r.1@) == parsed(filename@, dictionary@, options@),
        lawful(filename@, options@, r.0, r.1@),
{
    let raw = chars_of(filename);
    let name = clean(raw.as_slice(), options);
    let mut found = Findings::new();
    assert(gated(options@, found@)) by {
        reveal(gated);
    }
    let total = name.len();
    let mut stem_end: usize = total;
    if options.parse_file_extension {
        match find_extension_dot(dictionary, name.as_slice()) {
            Some(dot) => {
                let extension = slice_subrange(name.as_slice(), dot + 1, total);
                record(&mut found, options, ElementCategory::FileExtension, string_of(extension));
                stem_end = dot;
            },
            None => {},
        }
    }
    let stem = slice_subrange(name.as_slice(), 0, stem_end);
    assert(stem@ =~= stem_of(dictionary@, options@, name@));
    assert(found@ =~= opening(dictionary@, options@, name@));
    proof {
        if stem_end < total {
            assert(name@[stem_end as int] == '.');
            assert(stem@ + seq!['.'] + name@.subrange(stem_end + 1, total as int) =~= name@);
        }
    }
    if stem.len() == 0 {
        proof {
            lemma_flags(options@, found@);
            assert(absent(found@, ElementCategory::AnimeTitle)) by {
                lemma_no_title(found@);
            }
            assert(reassembled(found@) == cleaned(filename@, options@));
            assert(lawful(filename@, options@, false, found@));
        }
        return (false, found.finish());
    }
    record(&mut found, options, ElementCategory::FileName, string_of(stem));
    let mut tokens = tokenize(stem, options.allowed_delimiters.as_slice());
    let ghost start = Progress { tokens: tokens@, found: found@ };
    run_passes(stem, dictionary, options, &mut tokens, &mut found);
    let success = !found.is_empty(Some(ElementCategory::AnimeTitle));
    proof {
        lemma_flags(options@, found@);
        assert(start.found.is_prefix_of(found@));
        assert(found@[0] == start.found[0]);
        if start.found.len() >= 2 {
            assert(found@[1] == start.found[1]);
        }
    }
    (success, found.finish())
}

/// Elements that are no title, and at most one of them, hold no title.
proof fn lemma_no_title(found: Seq<ElementView>)
    requires
        found.len() <= 1,
        found.len() == 1 ==> found[0].0 != ElementCategory::AnimeTitle,
    ensures
        absent(found, ElementCategory::AnimeTitle),
{
    if found.len() == 1 {
        lemma_values_of_take_succ(found, ElementCategory::AnimeTitle, 0);
        assert(found.take(1) =~= found);
        assert(values_of(found.take(0), ElementCategory::AnimeTitle) =~= Seq::<Seq<char>>::empty());
    } else {
        assert(values_of(found, ElementCategory::AnimeTitle) =~= Seq::<Seq<char>>::empty());
    }
}

/// Flag gating: where no element is of a category that is switched off, each
/// of the four switches that is off leaves no element of its category.
pub proof fn lemma_flags(options: OptionsView, found: Seq<ElementView>)
    requires
        gated(options, found),
    ensures
        !options.parse_episode_number ==> count_of(found, Some(ElementCategory::EpisodeNumber))
            == 0,
        !options.parse_episode_title ==> count_of(found, Some(ElementCategory::EpisodeTitle)) == 0,
        !options.parse_file_extension ==> count_of(found, Some(ElementCategory::FileExtension))
            == 0,
        !options.parse_release_group ==> count_of(found, Some(ElementCategory::ReleaseGroup)) == 0,
{
    if !options.parse_episode_number {
        lemma_gated_absent(options, found, ElementCategory::EpisodeNumber);
    }
    if !options.parse_episode_title {
        lemma_gated_absent(options, found, ElementCategory::EpisodeTitle);
    }
    if !options.parse_file_extension {
        lemma_gated_absent(options, found, ElementCategory::FileExtension);
    }
    if !options.parse_release_group {
        lemma_gated_absent(options, found, ElementCategory::ReleaseGroup);
    }
}

/// Parses a file name with the given options and the keywords that the
/// library knows: [`parse_with`] with the default dictionary.
pub fn parse(filename: &str, options: &Options) -> (r: (bool, Elements))
    ensures
        (r.0, r.1@) == parsed(filename@, default_keywords(), options@),
        lawful(filename@, options@, r.0, r.1@),
{
    let dictionary = Dictionary::default();
    parse_with(filename, &dictionary, options)
}

/// A parser: a dictionary and the options that its parses go by.
pub struct Anitomy {
    options: Options,
    dictionary: Dictionary,
}

impl Anitomy {
    /// The options of the parser, as contracts see them.
    pub closed spec fn options_view(&self) -> OptionsView {
        self.options@
    }

    /// The dictionary of the parser, as contracts see it.
    pub closed spec fn keywords(&self) -> Seq<KeywordView> {
        self.dictionary@
    }

    /// Construct a new parser, with the default options and the default
    /// dictionary.
    pub fn new() -> (r: Self)
        ensures
            r.options_view() == (OptionsView {
                allowed_delimiters: default_delimiters(),
                ignored_strings: Seq::<Seq<char>>::empty(),
                parse_episode_number: true,
                parse_episode_title: true,
                parse_file_extension: true,
                parse_release_group: true,
            }),
            r.keywords() == default_keywords(),
    {
        Anitomy { options: Options::default(), dictionary: Dictionary::default() }
    }

    /// Parses a filename.
    ///
    /// `Ok` and `Err` say whether the parse has found a title. The elements
    /// that were found are returned either way, and the parser is left as it
    /// was.
    pub fn parse(&mut self, filename: &str) -> (r: Result<Elements, Elements>)
        ensures
            final(self).options_view() == old(self).options_view(),
            final(self).keywords() == old(self).keywords(),
            match r {
                Ok(elements) => parsed(filename@, old(self).keywords(), old(self).options_view())
                    == (true, elements@) && lawful(
                    filename@,
                    old(self).options_view(),
                    true,
                    elements@,
                ),
                Err(elements) => parsed(filename@, old(self).keywords(), old(self).options_view())
                    == (false, elements@) && lawful(
                    filename@,
                    old(self).options_view(),
                    false,
                    elements@,
                ),
            },
    {
        let (success, elements) = parse_with(filename, &self.dictionary, &self.options);
        if success {
            Ok(elements)
        } else {
            Err(elements)
        }
    }

    /// Sets the options to be used when parsing filenames.
    pub fn set_options(&mut self, options: &Options)
        ensures
            final(self).options_view() == options@,
            final(self).keywords() == old(self).keywords(),
    {
        self.options = options.duplicate();
    }

    /// The options that the parser goes by.
    pub fn options(&self) -> (r: &Options)
        ensures
            r@ == self.options_view(),
    {
        &self.options
    }

    /// The dictionary that the parser goes by.
    pub fn dictionary(&self) -> (r: &Dictionary)
        ensures
            r@ == self.keywords(),
    {
        &self.dictionary
    }
}

} // verus!
