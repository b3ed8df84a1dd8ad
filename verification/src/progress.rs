//! What a parse has reached at some point: the tokens with their claims and
//! the elements found so far. Every pass takes the one and gives the next.
use vstd::prelude::*;
use crate::category::{ElementCategory, ElementView};
use crate::elements::{Findings, count_of};
use crate::options::{Options, OptionsView};
use crate::token::{Token, same_layout};

verus! {

/// The state of a parse between two passes.
pub struct Progress {
    pub tokens: Seq<Token>,
    pub found: Seq<ElementView>,
}

/// Whether the options let the parser look for elements of `category`. The
/// four categories that have a switch follow it; every other is looked for.
pub open spec fn enabled(options: OptionsView, category: ElementCategory) -> bool {
    match category {
        ElementCategory::EpisodeNumber => options.parse_episode_number,
        ElementCategory::EpisodeTitle => options.parse_episode_title,
        ElementCategory::FileExtension => options.parse_file_extension,
        ElementCategory::ReleaseGroup => options.parse_release_group,
        _ => true,
    }
}

/// No element is of a category that the options have switched off.
#[verifier::opaque]
pub open spec fn gated(options: OptionsView, found: Seq<ElementView>) -> bool {
    forall|i: int| 0 <= i < found.len() ==> enabled(options, (#[trigger] found[i]).0)
}

/// No element of `category` has been found.
pub open spec fn absent(found: Seq<ElementView>, category: ElementCategory) -> bool {
    count_of(found, Some(category)) == 0
}

/// The elements after one of `category` has been found: it is appended,
/// unless the options have switched its category off.
pub open spec fn recorded(
    options: OptionsView,
    found: Seq<ElementView>,
    category: ElementCategory,
    value: Seq<char>,
) -> Seq<ElementView> {
    if enabled(options, category) {
        found.push((category, value))
    } else {
        found
    }
}

/// A category of which a file name has one element at most.
#[verifier::allow_in_spec]
pub fn is_singular(category: ElementCategory) -> bool
    returns
        (match category {
            ElementCategory::AnimeSeason => false,
            ElementCategory::AnimeType => false,
            ElementCategory::AudioTerm => false,
            ElementCategory::DeviceCompatibility => false,
            ElementCategory::EpisodeNumber => false,
            ElementCategory::Language => false,
            ElementCategory::Other => false,
            ElementCategory::ReleaseInformation => false,
            ElementCategory::Source => false,
            ElementCategory::VideoTerm => false,
            _ => true,
        }),
{
    match category {
        ElementCategory::AnimeSeason => false,
        ElementCategory::AnimeType => false,
        ElementCategory::AudioTerm => false,
        ElementCategory::DeviceCompatibility => false,
        ElementCategory::EpisodeNumber => false,
        ElementCategory::Language => false,
        ElementCategory::Other => false,
        ElementCategory::ReleaseInformation => false,
        ElementCategory::Source => false,
        ElementCategory::VideoTerm => false,
        _ => true,
    }
}

/// Computes [`enabled`].
pub fn is_enabled(options: &Options, category: ElementCategory) -> (r: bool)
    ensures
        r == enabled(options@, category),
{
    match category {
        ElementCategory::EpisodeNumber => options.parse_episode_number,
        ElementCategory::EpisodeTitle => options.parse_episode_title,
        ElementCategory::FileExtension => options.parse_file_extension,
        ElementCategory::ReleaseGroup => options.parse_release_group,
        _ => true,
    }
}

/// Records an element of `category`, unless the options have switched the
/// category off. What was found before keeps its place.
pub fn record(found: &mut Findings, options: &Options, category: ElementCategory, value: String)
    ensures
        final(found)@ == recorded(options@, old(found)@, category, value@),
        old(found)@.is_prefix_of(final(found)@),
        gated(options@, old(found)@) ==> gated(options@, final(found)@),
{
    if is_enabled(options, category) {
        found.push(category, value);
    }
    proof {
        reveal(gated);
    }
}

/// If the first list differs from the second only in claims, and the second
/// from the third, so does the first from the third.
pub proof fn lemma_same_layout_chain(a: Seq<Token>, b: Seq<Token>, c: Seq<Token>)
    requires
        same_layout(a, b),
        same_layout(b, c),
    ensures
        same_layout(a, c),
{
    reveal(same_layout);
    assert forall|i: int| 0 <= i < a.len() implies {
        &&& a[i].start == c[i].start
        &&& a[i].end == c[i].end
        &&& a[i].kind == c[i].kind
        &&& a[i].enclosed == c[i].enclosed
        &&& a[i].identified is Some ==> c[i].identified == a[i].identified
    } by {
        assert(a[i].start == b[i].start);
        assert(b[i].start == c[i].start);
    }
}

/// The progress after the steps `from`, `from + 1`, ... up to `to`, each
/// taken on what the one before has left.
pub open spec fn fold_steps(
    step: spec_fn(Progress, int) -> Progress,
    progress: Progress,
    from: int,
    to: int,
) -> Progress
    decreases to - from,
{
    if from >= to {
        progress
    } else {
        fold_steps(step, step(progress, from), from + 1, to)
    }
}

/// What every pass keeps: the tokens differ at most in what has been
/// claimed; the elements that were found stand where they stood, and what
/// was found since stands behind them; and if no element was of a category
/// that is switched off, none is now.
pub open spec fn kept(options: OptionsView, before: Progress, after: Progress) -> bool {
    &&& same_layout(before.tokens, after.tokens)
    &&& before.found.is_prefix_of(after.found)
    &&& gated(options, before.found) ==> gated(options, after.found)
}

/// Two steps that each keep what a pass keeps do so together.
pub proof fn lemma_kept_chain(options: OptionsView, a: Progress, b: Progress, c: Progress)
    requires
        kept(options, a, b),
        kept(options, b, c),
    ensures
        kept(options, a, c),
{
    lemma_same_layout_chain(a.tokens, b.tokens, c.tokens);
}

/// Nothing changed: everything is kept.
pub proof fn lemma_kept_same(options: OptionsView, a: Progress)
    ensures
        kept(options, a, a),
{
    reveal(same_layout);
}

} // verus!
