//! What is left when vocabulary and numbers have been taken: the title, the
//! release group and the title of the episode. Each is a run of unclaimed
//! tokens, built into one element.
use vstd::prelude::*;
use vstd::slice::slice_subrange;
use crate::category::ElementCategory;
use crate::elements::Findings;
use crate::options::{Options, OptionsView};
use crate::progress::{Progress, absent, kept, lemma_kept_same, record, recorded};
use crate::text::{append_range, check_mostly_latin, is_dash, mostly_latin, string_of, trim, trimmed};
use crate::token::{Filter, Token, TokenKind, accepts, find_next, find_prev, is_bracket,
    lemma_tiles_bounds, lemma_tiles_next, lemma_tiles_order, mark_range, marked_range, next_index,
    prev_index, same_layout, text_of, tiles};
use crate::tokenizer::delimiter_free;

verus! {

/// What a token gives to the value of an element. A free token and a bracket
/// give their text. A delimiter gives itself where delimiters are kept;
/// where they are not, it gives nothing at the head of the run, itself if it
/// is a comma or an ampersand, and a space otherwise.
pub open spec fn piece(text: Seq<char>, token: Token, keep: bool, head: bool) -> Seq<char> {
    if token.kind != TokenKind::Delimiter || keep {
        text_of(text, token)
    } else if head {
        Seq::empty()
    } else if text[token.start as int] == ',' || text[token.start as int] == '&' {
        text_of(text, token)
    } else {
        seq![' ']
    }
}

/// The pieces of the tokens `tokens[begin..end]`, one after the other.
pub open spec fn rendered(text: Seq<char>, tokens: Seq<Token>, begin: int, end: int, keep: bool) -> Seq<
    char,
>
    decreases end - begin,
{
    if end <= begin {
        Seq::empty()
    } else {
        rendered(text, tokens, begin, end - 1, keep) + piece(
            text,
            tokens[end - 1],
            keep,
            end - 1 == begin,
        )
    }
}

/// The value of the element built from `tokens[begin..end]`. Where
/// delimiters are not kept, spaces, hyphens and dashes are cut off both
/// ends.
pub open spec fn built_value(text: Seq<char>, tokens: Seq<Token>, begin: int, end: int, keep: bool) -> Seq<
    char,
> {
    if keep {
        rendered(text, tokens, begin, end, keep)
    } else {
        trimmed(rendered(text, tokens, begin, end, keep))
    }
}

/// The progress after an element of `category` has been built from
/// `tokens[begin..end]`: the unclaimed free tokens of the run are claimed,
/// and the element is recorded unless its value is empty.
pub open spec fn built(
    text: Seq<char>,
    options: OptionsView,
    progress: Progress,
    begin: int,
    end: int,
    category: ElementCategory,
    keep: bool,
) -> Progress {
    let value = built_value(text, progress.tokens, begin, end, keep);
    Progress {
        tokens: marked_range(progress.tokens, begin, end, category),
        found: if value.len() > 0 {
            recorded(options, progress.found, category, value)
        } else {
            progress.found
        },
    }
}

/// Where no token of a run is a delimiter, the run is rendered as it is
/// written: the characters of the text from the start of its first token to
/// the end of its last, with nothing turned into a space.
pub proof fn lemma_rendered_verbatim(
    text: Seq<char>,
    tokens: Seq<Token>,
    begin: int,
    end: int,
    keep: bool,
)
    requires
        tiles(tokens, text.len() as int),
        0 <= begin < end <= tokens.len(),
        forall|i: int| begin <= i < end ==> (#[trigger] tokens[i]).kind != TokenKind::Delimiter,
    ensures
        rendered(text, tokens, begin, end, keep) == text.subrange(
            tokens[begin].start as int,
            tokens[end - 1].end as int,
        ),
    decreases end - begin,
{
    lemma_tiles_bounds(tokens, text.len() as int, end - 1);
    lemma_tiles_bounds(tokens, text.len() as int, begin);
    if end - 1 == begin {
        assert(rendered(text, tokens, begin, begin, keep) =~= Seq::<char>::empty());
        assert(Seq::<char>::empty() + text_of(text, tokens[begin]) =~= text_of(text, tokens[begin]));
    } else {
        lemma_rendered_verbatim(text, tokens, begin, end - 1, keep);
        lemma_tiles_next(tokens, text.len() as int, end - 2);
        lemma_tiles_order(tokens, text.len() as int, begin, end - 1);
        lemma_tiles_bounds(tokens, text.len() as int, end - 2);
        assert(text.subrange(tokens[begin].start as int, tokens[end - 2].end as int) + text_of(
            text,
            tokens[end - 1],
        ) =~= text.subrange(tokens[begin].start as int, tokens[end - 1].end as int));
    }
}

/// Where no token is a delimiter, as when no delimiter is allowed, the value
/// that is built from a run holds every character of the run but the spaces,
/// hyphens and dashes at its ends: an underscore between two words of a
/// title stays in the title.
pub proof fn lemma_delimiters_retained(text: Seq<char>, tokens: Seq<Token>, begin: int, end: int)
    requires
        tiles(tokens, text.len() as int),
        delimiter_free(tokens),
        0 <= begin < end <= tokens.len(),
    ensures
        built_value(text, tokens, begin, end, false) == trimmed(
            text.subrange(tokens[begin].start as int, tokens[end - 1].end as int),
        ),
        built_value(text, tokens, begin, end, true) == text.subrange(
            tokens[begin].start as int,
            tokens[end - 1].end as int,
        ),
{
    lemma_rendered_verbatim(text, tokens, begin, end, false);
    lemma_rendered_verbatim(text, tokens, begin, end, true);
}

/// Claiming tokens makes no delimiter: if no token was a delimiter before a
/// pass, none is after it.
pub proof fn lemma_delimiter_free_kept(before: Seq<Token>, after: Seq<Token>)
    requires
        same_layout(before, after),
        delimiter_free(before),
    ensures
        delimiter_free(after),
{
    reveal(same_layout);
    assert forall|i: int| 0 <= i < after.len() implies (#[trigger] after[i]).kind
        != TokenKind::Delimiter by {
        assert(before[i].kind == after[i].kind);
    }
}

/// Computes [`rendered`].
pub fn render(text: &[char], tokens: &Vec<Token>, begin: usize, end: usize, keep: bool) -> (r: Vec<
    char,
>)
    requires
        tiles(tokens@, text@.len() as int),
        begin <= end <= tokens@.len(),
    ensures
        r@ == rendered(text@, tokens@, begin as int, end as int, keep),
{
    let mut out: Vec<char> = Vec::new();
    let mut i: usize = begin;
    while i < end
        invariant
            begin <= i <= end <= tokens@.len(),
            tiles(tokens@, text@.len() as int),
            out@ == rendered(text@, tokens@, begin as int, i as int, keep),
        decreases end - i,
    {
        let token = tokens[i];
        proof {
            lemma_tiles_bounds(tokens@, text@.len() as int, i as int);
        }
        let ghost before = out@;
        if token.kind != TokenKind::Delimiter || keep {
            append_range(&mut out, text, token.start, token.end);
        } else if i == begin {
            assert(out@ =~= before + Seq::<char>::empty());
        } else if text[token.start] == ',' || text[token.start] == '&' {
            append_range(&mut out, text, token.start, token.end);
        } else {
            out.push(' ');
            assert(out@ =~= before + seq![' ']);
        }
        i += 1;
    }
    out
}

/// Builds an element of `category` from `tokens[begin..end]`: [`built`].
pub fn build(
    text: &[char],
    options: &Options,
    tokens: &mut Vec<Token>,
    found: &mut Findings,
    begin: usize,
    end: usize,
    category: ElementCategory,
    keep: bool,
)
    requires
        tiles(old(tokens)@, text@.len() as int),
        begin <= end <= old(tokens)@.len(),
    ensures
        (Progress { tokens: final(tokens)@, found: final(found)@ }) == built(
            text@,
            options@,
            Progress { tokens: old(tokens)@, found: old(found)@ },
            begin as int,
            end as int,
            category,
            keep,
        ),
        kept(
            options@,
            Progress { tokens: old(tokens)@, found: old(found)@ },
            Progress { tokens: final(tokens)@, found: final(found)@ },
        ),
{
    let raw = render(text, tokens, begin, end, keep);
    let value = if keep {
        raw
    } else {
        trim(raw.as_slice())
    };
    mark_range(tokens, begin, end, category);
    if value.len() > 0 {
        record(found, options, category, string_of(value.as_slice()));
    }
}

/// Where a title starts that stands within brackets, the search going on
/// from `from`. The first group is passed over: it is taken to name those
/// who made the release. After it the title starts with the first unclaimed
/// token that is mostly Latin; a group that starts with another is passed
/// over too. The number of tokens stands for "nowhere".
pub open spec fn enclosed_title_start(text: Seq<char>, tokens: Seq<Token>, from: int, skipped: bool) -> int
    decreases tokens.len() - from,
{
    let begin = next_index(tokens, from, Filter::Unclaimed);
    let bracket = next_index(tokens, begin + 1, Filter::Bracket);
    if from < 0 || begin >= tokens.len() {
        tokens.len() as int
    } else if skipped && mostly_latin(text_of(text, tokens[begin])) {
        begin
    } else if from < bracket <= tokens.len() {
        enclosed_title_start(text, tokens, bracket, true)
    } else {
        tokens.len() as int
    }
}

/// The end of a run that would otherwise end at `end`: if the last bracket
/// of the run opens a group that the run does not close, the run ends before
/// that bracket.
pub open spec fn before_open_bracket(tokens: Seq<Token>, begin: int, end: int) -> int {
    match prev_index(tokens, end, Filter::Bracket) {
        Some(last) => if begin < last && tokens[last].kind == TokenKind::OpenBracket {
            last
        } else {
            end
        },
        None => end,
    }
}

/// A closing parenthesis, plain or full-width.
#[verifier::allow_in_spec]
pub fn is_parenthesis(c: char) -> bool
    returns
        (c == ')' || c == '\u{FF09}'),
{
    c == ')' || c == '\u{FF09}'
}

/// The end of a title that would otherwise end at `end`: the groups within
/// brackets that the title ends with, as `[Fansub]` in `Title [Fansub]`, are
/// no part of it. A group in parentheses stays, so that `Title (TV)` is kept
/// whole.
pub open spec fn without_groups(text: Seq<char>, tokens: Seq<Token>, begin: int, end: int) -> int
    decreases end,
{
    match prev_index(tokens, end, Filter::Solid) {
        Some(last) => if tokens[last].kind == TokenKind::CloseBracket && !is_parenthesis(
            text[tokens[last].start as int],
        ) {
            match prev_index(tokens, last, Filter::Bracket) {
                Some(open) => if 0 <= begin < open < end {
                    without_groups(text, tokens, begin, open)
                } else {
                    end
                },
                None => end,
            }
        } else {
            end
        },
        None => end,
    }
}

/// The run of tokens that is the title: where it begins and where it ends.
/// It begins with the first unclaimed free token outside brackets and goes
/// on to the next claimed token, less an unclosed group and less the groups
/// at its end. If every unclaimed token stands within brackets, the title is
/// looked for there, and ends at the next bracket or claimed token.
pub open spec fn title_span(text: Seq<char>, tokens: Seq<Token>) -> Option<(int, int)> {
    let outside = next_index(tokens, 0, Filter::UnclaimedOutside);
    let inside = enclosed_title_start(text, tokens, 0, false);
    if outside < tokens.len() {
        Some(
            (
                outside,
                without_groups(
                    text,
                    tokens,
                    outside,
                    before_open_bracket(tokens, outside, next_index(tokens, outside, Filter::Claimed)),
                ),
            ),
        )
    } else if inside < tokens.len() {
        Some((inside, next_index(tokens, inside, Filter::BracketOrClaimed)))
    } else {
        None
    }
}

/// The progress after the title has been looked for: the run of
/// [`title_span`], built into the title with its delimiters turned into
/// spaces.
pub open spec fn title_rule(text: Seq<char>, options: OptionsView, progress: Progress) -> Progress {
    match title_span(text, progress.tokens) {
        Some((begin, end)) => built(
            text,
            options,
            progress,
            begin,
            end,
            ElementCategory::AnimeTitle,
            false,
        ),
        None => progress,
    }
}

/// Computes [`enclosed_title_start`] from the first token on.
pub fn find_enclosed_title_start(text: &[char], tokens: &Vec<Token>) -> (r: usize)
    requires
        tiles(tokens@, text@.len() as int),
    ensures
        r == enclosed_title_start(text@, tokens@, 0, false),
        r <= tokens@.len(),
        r < tokens@.len() ==> accepts(Filter::Unclaimed, tokens@[r as int]),
{
    let count = tokens.len();
    let mut from: usize = 0;
    let mut skipped = false;
    loop
        invariant
            count == tokens@.len(),
            from <= count,
            tiles(tokens@, text@.len() as int),
            enclosed_title_start(text@, tokens@, from as int, skipped) == enclosed_title_start(
                text@,
                tokens@,
                0,
                false,
            ),
        decreases count - from,
    {
        let begin = find_next(tokens, from, Filter::Unclaimed);
        if begin >= count {
            return count;
        }
        let token = tokens[begin];
        proof {
            lemma_tiles_bounds(tokens@, text@.len() as int, begin as int);
        }
        if skipped && check_mostly_latin(slice_subrange(text, token.start, token.end)) {
            return begin;
        }
        from = find_next(tokens, begin + 1, Filter::Bracket);
        skipped = true;
    }
}

/// Computes [`before_open_bracket`].
pub fn find_before_open_bracket(tokens: &Vec<Token>, begin: usize, end: usize) -> (r: usize)
    requires
        begin <= end <= tokens@.len(),
    ensures
        r == before_open_bracket(tokens@, begin as int, end as int),
        begin <= r <= end,
{
    match find_prev(tokens, end, Filter::Bracket) {
        Some(last) => if begin < last && tokens[last].kind == TokenKind::OpenBracket {
            last
        } else {
            end
        },
        None => end,
    }
}

/// Computes [`without_groups`].
pub fn find_without_groups(text: &[char], tokens: &Vec<Token>, begin: usize, end: usize) -> (r:
    usize)
    requires
        tiles(tokens@, text@.len() as int),
        begin <= end <= tokens@.len(),
    ensures
        r == without_groups(text@, tokens@, begin as int, end as int),
        begin <= r <= end,
{
    let mut cut: usize = end;
    loop
        invariant
            begin <= cut <= end <= tokens@.len(),
            tiles(tokens@, text@.len() as int),
            without_groups(text@, tokens@, begin as int, cut as int) == without_groups(
                text@,
                tokens@,
                begin as int,
                end as int,
            ),
        decreases cut,
    {
        match find_prev(tokens, cut, Filter::Solid) {
            Some(last) => {
                let token = tokens[last];
                proof {
                    lemma_tiles_bounds(tokens@, text@.len() as int, last as int);
                }
                if token.kind != TokenKind::CloseBracket || is_parenthesis(text[token.start]) {
                    return cut;
                }
                match find_prev(tokens, last, Filter::Bracket) {
                    Some(open) => {
                        if begin < open {
                            cut = open;
                        } else {
                            return cut;
                        }
                    },
                    None => {
                        return cut;
                    },
                }
            },
            None => {
                return cut;
            },
        }
    }
}

/// Computes [`title_span`].
pub fn find_title_span(text: &[char], tokens: &Vec<Token>) -> (r: Option<(usize, usize)>)
    requires
        tiles(tokens@, text@.len() as int),
    ensures
        match r {
            Some(span) => title_span(text@, tokens@) == Some((span.0 as int, span.1 as int))
                && span.0 <= span.1 <= tokens@.len(),
            None => title_span(text@, tokens@) is None,
        },
{
    let count = tokens.len();
    let outside = find_next(tokens, 0, Filter::UnclaimedOutside);
    if outside < count {
        let reach = find_next(tokens, outside, Filter::Claimed);
        let closed = find_before_open_bracket(tokens, outside, reach);
        return Some((outside, find_without_groups(text, tokens, outside, closed)));
    }
    let inside = find_enclosed_title_start(text, tokens);
    if inside < count {
        return Some((inside, find_next(tokens, inside, Filter::BracketOrClaimed)));
    }
    None
}

/// Applies [`title_rule`].
pub fn run_title_rule(
    text: &[char],
    options: &Options,
    tokens: &mut Vec<Token>,
    found: &mut Findings,
)
    requires
        tiles(old(tokens)@, text@.len() as int),
    ensures
        (Progress { tokens: final(tokens)@, found: final(found)@ }) == title_rule(
            text@,
            options@,
            Progress { tokens: old(tokens)@, found: old(found)@ },
        ),
        kept(
            options@,
            Progress { tokens: old(tokens)@, found: old(found)@ },
            Progress { tokens: final(tokens)@, found: final(found)@ },
        ),
{
    match find_title_span(text, tokens) {
        Some((begin, end)) => build(
            text,
            options,
            tokens,
            found,
            begin,
            end,
            ElementCategory::AnimeTitle,
            false,
        ),
        None => {
            proof {
                lemma_kept_same(options@, Progress { tokens: tokens@, found: found@ });
            }
        },
    }
}

/// The run of tokens that names the release group, the search going on from
/// `from`: the first run of unclaimed tokens within brackets that starts its
/// group and goes on to the bracket that closes it.
pub open spec fn group_span(tokens: Seq<Token>, from: int) -> Option<(int, int)>
    decreases tokens.len() - from,
{
    let begin = next_index(tokens, from, Filter::UnclaimedEnclosed);
    let end = next_index(tokens, begin, Filter::BracketOrClaimed);
    if from < 0 || begin >= tokens.len() {
        None
    } else if end < tokens.len() && is_bracket(tokens[end]) && starts_group(tokens, begin) {
        Some((begin, end))
    } else if from < end <= tokens.len() {
        group_span(tokens, end)
    } else {
        None
    }
}

/// Whether the token at `at` is the first of its group: but for delimiters,
/// a bracket stands before it, or nothing does.
pub open spec fn starts_group(tokens: Seq<Token>, at: int) -> bool {
    match prev_index(tokens, at, Filter::Solid) {
        Some(before) => is_bracket(tokens[before]),
        None => true,
    }
}

/// The progress after the release group has been looked for. Where the
/// options ask for it and no keyword has named it, the run of
/// [`group_span`] is the release group, with its delimiters as they are
/// written.
pub open spec fn group_rule(text: Seq<char>, options: OptionsView, progress: Progress) -> Progress {
    if options.parse_release_group && absent(progress.found, ElementCategory::ReleaseGroup) {
        match group_span(progress.tokens, 0) {
            Some((begin, end)) => built(
                text,
                options,
                progress,
                begin,
                end,
                ElementCategory::ReleaseGroup,
                true,
            ),
            None => progress,
        }
    } else {
        progress
    }
}

/// A word that is nothing but one hyphen or dash.
pub open spec fn is_lone_dash(word: Seq<char>) -> bool {
    word.len() == 1 && is_dash(word[0])
}

/// The run of tokens that is the title of the episode, the search going on
/// from `from`: the first run of unclaimed tokens outside brackets, up to
/// the next bracket or claimed token, that is more than a dash between two
/// elements.
pub open spec fn episode_title_span(text: Seq<char>, tokens: Seq<Token>, from: int) -> Option<
    (int, int),
>
    decreases tokens.len() - from,
{
    let begin = next_index(tokens, from, Filter::UnclaimedOutside);
    let end = next_index(tokens, begin, Filter::BracketOrClaimed);
    if from < 0 || begin >= tokens.len() {
        None
    } else if !(end - begin <= 2 && is_lone_dash(text_of(text, tokens[begin]))) {
        Some((begin, end))
    } else if from < end <= tokens.len() {
        episode_title_span(text, tokens, end)
    } else {
        None
    }
}

/// The progress after the title of the episode has been looked for. Where
/// the options ask for it, the run of [`episode_title_span`] is built into
/// it with its delimiters turned into spaces.
pub open spec fn episode_title_rule(text: Seq<char>, options: OptionsView, progress: Progress) -> Progress {
    if options.parse_episode_title {
        match episode_title_span(text, progress.tokens, 0) {
            Some((begin, end)) => built(
                text,
                options,
                progress,
                begin,
                end,
                ElementCategory::EpisodeTitle,
                false,
            ),
            None => progress,
        }
    } else {
        progress
    }
}

/// Computes [`starts_group`].
pub fn check_starts_group(tokens: &Vec<Token>, at: usize) -> (r: bool)
    requires
        at <= tokens@.len(),
    ensures
        r == starts_group(tokens@, at as int),
{
    match find_prev(tokens, at, Filter::Solid) {
        Some(before) => is_bracket(tokens[before]),
        None => true,
    }
}

/// Computes [`group_span`] from the first token on.
pub fn find_group_span(tokens: &Vec<Token>) -> (r: Option<(usize, usize)>)
    ensures
        match r {
            Some(span) => group_span(tokens@, 0) == Some((span.0 as int, span.1 as int)) && span.0
                <= span.1 <= tokens@.len(),
            None => group_span(tokens@, 0) is None,
        },
{
    let count = tokens.len();
    let mut from: usize = 0;
    loop
        invariant
            count == tokens@.len(),
            from <= count,
            group_span(tokens@, from as int) == group_span(tokens@, 0),
        decreases count - from,
    {
        let begin = find_next(tokens, from, Filter::UnclaimedEnclosed);
        if begin >= count {
            return None;
        }
        let end = find_next(tokens, begin, Filter::BracketOrClaimed);
        if end < count && is_bracket(tokens[end]) && check_starts_group(tokens, begin) {
            return Some((begin, end));
        }
        if end >= count {
            assert(group_span(tokens@, end as int) is None);
            return None;
        }
        from = end;
    }
}

/// Applies [`group_rule`].
pub fn run_group_rule(
    text: &[char],
    options: &Options,
    tokens: &mut Vec<Token>,
    found: &mut Findings,
)
    requires
        tiles(old(tokens)@, text@.len() as int),
    ensures
        (Progress { tokens: final(tokens)@, found: final(found)@ }) == group_rule(
            text@,
            options@,
            Progress { tokens: old(tokens)@, found: old(found)@ },
        ),
        kept(
            options@,
            Progress { tokens: old(tokens)@, found: old(found)@ },
            Progress { tokens: final(tokens)@, found: final(found)@ },
        ),
{
    proof {
        lemma_kept_same(options@, Progress { tokens: tokens@, found: found@ });
    }
    if !options.parse_release_group || !found.is_empty(Some(ElementCategory::ReleaseGroup)) {
        return ;
    }
    match find_group_span(tokens) {
        Some((begin, end)) => build(
            text,
            options,
            tokens,
            found,
            begin,
            end,
            ElementCategory::ReleaseGroup,
            true,
        ),
        None => {},
    }
}

/// Computes [`is_lone_dash`].
pub fn check_lone_dash(word: &[char]) -> (r: bool)
    ensures
        r == is_lone_dash(word@),
{
    word.len() == 1 && is_dash(word[0])
}

/// Computes [`episode_title_span`] from the first token on.
pub fn find_episode_title_span(text: &[char], tokens: &Vec<Token>) -> (r: Option<(usize, usize)>)
    requires
        tiles(tokens@, text@.len() as int),
    ensures
        match r {
            Some(span) => episode_title_span(text@, tokens@, 0) == Some(
                (span.0 as int, span.1 as int),
            ) && span.0 <= span.1 <= tokens@.len(),
            None => episode_title_span(text@, tokens@, 0) is None,
        },
{
    let count = tokens.len();
    let mut from: usize = 0;
    loop
        invariant
            count == tokens@.len(),
            from <= count,
            tiles(tokens@, text@.len() as int),
            episode_title_span(text@, tokens@, from as int) == episode_title_span(
                text@,
                tokens@,
                0,
            ),
        decreases count - from,
    {
        let begin = find_next(tokens, from, Filter::UnclaimedOutside);
        if begin >= count {
            return None;
        }
        let end = find_next(tokens, begin, Filter::BracketOrClaimed);
        let token = tokens[begin];
        proof {
            lemma_tiles_bounds(tokens@, text@.len() as int, begin as int);
        }
        if !(end - begin <= 2 && check_lone_dash(slice_subrange(text, token.start, token.end))) {
            return Some((begin, end));
        }
        if end >= count {
            assert(episode_title_span(text@, tokens@, end as int) is None);
            return None;
        }
        from = end;
    }
}

/// Applies [`episode_title_rule`].
pub fn run_episode_title_rule(
    text: &[char],
    options: &Options,
    tokens: &mut Vec<Token>,
    found: &mut Findings,
)
    requires
        tiles(old(tokens)@, text@.len() as int),
    ensures
        (Progress { tokens: final(tokens)@, found: final(found)@ }) == episode_title_rule(
            text@,
            options@,
            Progress { tokens: old(tokens)@, found: old(found)@ },
        ),
        kept(
            options@,
            Progress { tokens: old(tokens)@, found: old(found)@ },
            Progress { tokens: final(tokens)@, found: final(found)@ },
        ),
{
    proof {
        lemma_kept_same(options@, Progress { tokens: tokens@, found: found@ });
    }
    if !options.parse_episode_title {
        return ;
    }
    match find_episode_title_span(text, tokens) {
        Some((begin, end)) => build(
            text,
            options,
            tokens,
            found,
            begin,
            end,
            ElementCategory::EpisodeTitle,
            false,
        ),
        None => {},
    }
}

} // verus!
