//! Tokens: the pieces into which a file name is cut, and the searches the
//! passes make among them.
//!
//! A token does not own its text. It names a span of the file name it was cut
//! from, so a list of tokens is plain data: positions, a kind, and the
//! category that claimed the token, if any has.
use vstd::prelude::*;
use vstd::slice::slice_subrange;
use crate::category::ElementCategory;
use crate::text::string_of;

verus! {

/// What a token is made of.
#[derive(Debug, Copy, Clone, PartialEq, Eq, Structural)]
pub enum TokenKind {
    /// A run of characters that are neither delimiters nor brackets.
    Free,
    /// One allowed delimiter.
    Delimiter,
    /// One opening bracket.
    OpenBracket,
    /// One closing bracket that closes an open one.
    CloseBracket,
}

/// One piece of a file name: the characters from `start` up to `end`.
#[derive(Debug, Copy, Clone, PartialEq, Eq)]
pub struct Token {
    /// The position of the token's first character.
    pub start: usize,
    /// The position after the token's last character.
    pub end: usize,
    pub kind: TokenKind,
    /// Whether the token lies within brackets. A bracket is enclosed itself.
    pub enclosed: bool,
    /// The category of the pass that claimed the token. It is set once.
    pub identified: Option<ElementCategory>,
}

/// The characters of `text` that a token spans.
pub open spec fn text_of(text: Seq<char>, token: Token) -> Seq<char> {
    text.subrange(token.start as int, token.end as int)
}

impl Token {
    /// The text of the token: the characters of `text` that it spans. There
    /// is none if the span does not lie within `text`.
    pub fn text(&self, text: &[char]) -> (r: Option<String>)
        ensures
            match r {
                Some(word) => self.start <= self.end <= text@.len() && word@ == text_of(
                    text@,
                    *self,
                ),
                None => !(self.start <= self.end <= text@.len()),
            },
    {
        if self.start <= self.end && self.end <= text.len() {
            Some(string_of(slice_subrange(text, self.start, self.end)))
        } else {
            None
        }
    }
}

/// The texts of the tokens, one after the other.
pub open spec fn joined(text: Seq<char>, tokens: Seq<Token>) -> Seq<char>
    decreases tokens.len(),
{
    if tokens.len() == 0 {
        Seq::empty()
    } else {
        joined(text, tokens.drop_last()) + text_of(text, tokens.last())
    }
}

/// The tokens cut a text of `len` characters into consecutive pieces, none of
/// them empty: the first starts at 0, each starts where the one before ends,
/// and the last ends at `len`.
#[verifier::opaque]
pub open spec fn tiles(tokens: Seq<Token>, len: int) -> bool {
    &&& forall|i: int| 0 <= i < tokens.len() ==> (#[trigger] tokens[i]).start < tokens[i].end <= len
    &&& forall|i: int, j: int|
        0 <= i < j < tokens.len() ==> (#[trigger] tokens[i]).end <= (#[trigger] tokens[j]).start
    &&& forall|i: int, j: int|
        0 <= i && j == i + 1 && j < tokens.len() ==> (#[trigger] tokens[i]).end == (
        #[trigger] tokens[j]).start
    &&& tokens.len() > 0 ==> tokens[0].start == 0 && tokens.last().end == len
    &&& tokens.len() == 0 ==> len == 0
}

/// The second list holds the tokens of the first, and nothing has changed
/// but that tokens may have been claimed: a token that was claimed is
/// claimed still, and for the same category.
#[verifier::opaque]
pub open spec fn same_layout(a: Seq<Token>, b: Seq<Token>) -> bool {
    &&& a.len() == b.len()
    &&& forall|i: int|
        #![trigger a[i]]
        #![trigger b[i]]
        0 <= i < a.len() ==> {
            &&& a[i].start == b[i].start
            &&& a[i].end == b[i].end
            &&& a[i].kind == b[i].kind
            &&& a[i].enclosed == b[i].enclosed
            &&& a[i].identified is Some ==> b[i].identified == a[i].identified
        }
}

/// Claiming tokens does not disturb the tiling.
pub proof fn lemma_layout_tiles(a: Seq<Token>, b: Seq<Token>, len: int)
    requires
        same_layout(a, b),
        tiles(a, len),
    ensures
        tiles(b, len),
{
    reveal(tiles);
    reveal(same_layout);
    assert forall|i: int| 0 <= i < b.len() implies (#[trigger] b[i]).start < b[i].end <= len by {
        assert(a[i].start == b[i].start);
    }
    assert forall|i: int, j: int| 0 <= i < j < b.len() implies (#[trigger] b[i]).end <= (
    #[trigger] b[j]).start by {
        assert(a[i].end == b[i].end);
        assert(a[j].start == b[j].start);
    }
    assert forall|i: int, j: int| 0 <= i && j == i + 1 && j < b.len() implies (
    #[trigger] b[i]).end == (#[trigger] b[j]).start by {
        assert(a[i].end == b[i].end);
        assert(a[j].start == b[j].start);
    }
    if b.len() > 0 {
        assert(a[0].start == b[0].start);
        assert(a[a.len() - 1].end == b[b.len() - 1].end);
    }
}

/// In a tiling a token is not empty and lies within the text.
pub proof fn lemma_tiles_bounds(tokens: Seq<Token>, len: int, i: int)
    requires
        tiles(tokens, len),
        0 <= i < tokens.len(),
    ensures
        tokens[i].start < tokens[i].end <= len,
{
    reveal(tiles);
}

/// In a tiling an earlier token ends before a later one starts.
pub proof fn lemma_tiles_order(tokens: Seq<Token>, len: int, i: int, j: int)
    requires
        tiles(tokens, len),
        0 <= i < j < tokens.len(),
    ensures
        tokens[i].start < tokens[i].end <= tokens[j].start < tokens[j].end <= len,
{
    reveal(tiles);
}

/// In a tiling a token starts where the one before it ends.
pub proof fn lemma_tiles_next(tokens: Seq<Token>, len: int, i: int)
    requires
        tiles(tokens, len),
        0 <= i < tokens.len() - 1,
    ensures
        tokens[i].end == tokens[i + 1].start,
{
    reveal(tiles);
}

/// The token `token`, claimed for `category`.
pub open spec fn claimed(token: Token, category: ElementCategory) -> Token {
    Token { identified: Some(category), ..token }
}

/// The tokens with the one at `index` claimed for `category`.
pub open spec fn marked(tokens: Seq<Token>, index: int, category: ElementCategory) -> Seq<Token> {
    tokens.update(index, claimed(tokens[index], category))
}

/// The tokens with each unclaimed free token of `tokens[begin..end]` claimed
/// for `category`.
pub open spec fn marked_range(
    tokens: Seq<Token>,
    begin: int,
    end: int,
    category: ElementCategory,
) -> Seq<Token> {
    Seq::new(
        tokens.len(),
        |i: int|
            if begin <= i < end && accepts(Filter::Unclaimed, tokens[i]) {
                claimed(tokens[i], category)
            } else {
                tokens[i]
            },
    )
}

/// Claims the token at `index`, which no pass has claimed, for `category`.
pub fn mark(tokens: &mut Vec<Token>, index: usize, category: ElementCategory)
    requires
        index < old(tokens)@.len(),
        old(tokens)@[index as int].identified is None,
    ensures
        final(tokens)@ == marked(old(tokens)@, index as int, category),
        same_layout(old(tokens)@, final(tokens)@),
{
    let token = tokens[index];
    tokens.set(index, Token { identified: Some(category), ..token });
    proof {
        reveal(same_layout);
    }
}

/// Claims each unclaimed free token of `tokens[begin..end]` for `category`.
pub fn mark_range(tokens: &mut Vec<Token>, begin: usize, end: usize, category: ElementCategory)
    requires
        begin <= end <= old(tokens)@.len(),
    ensures
        final(tokens)@ == marked_range(old(tokens)@, begin as int, end as int, category),
        same_layout(old(tokens)@, final(tokens)@),
{
    let ghost target = marked_range(tokens@, begin as int, end as int, category);
    let mut i: usize = begin;
    while i < end
        invariant
            begin <= i <= end <= tokens@.len(),
            tokens@.len() == old(tokens)@.len(),
            target == marked_range(old(tokens)@, begin as int, end as int, category),
            forall|j: int| 0 <= j < i ==> tokens@[j] == target[j],
            forall|j: int| i <= j < tokens@.len() ==> tokens@[j] == old(tokens)@[j],
        decreases end - i,
    {
        let token = tokens[i];
        if accepts(Filter::Unclaimed, token) {
            tokens.set(i, Token { identified: Some(category), ..token });
        }
        i += 1;
    }
    assert(tokens@ =~= target);
    proof {
        reveal(same_layout);
    }
}

/// The kinds of token a search can ask for.
#[derive(Debug, Copy, Clone, PartialEq, Eq, Structural)]
pub enum Filter {
    /// A free token that no pass has claimed.
    Unclaimed,
    /// An unclaimed free token outside brackets.
    UnclaimedOutside,
    /// An unclaimed free token within brackets.
    UnclaimedEnclosed,
    /// A bracket, opening or closing.
    Bracket,
    /// A token that a pass has claimed.
    Claimed,
    /// A bracket or a claimed token.
    BracketOrClaimed,
    /// Anything but a delimiter.
    Solid,
    /// A token that has been claimed as an episode number.
    Episode,
}

/// Whether a token is a bracket.
#[verifier::allow_in_spec]
pub fn is_bracket(token: Token) -> bool
    returns
        (token.kind == TokenKind::OpenBracket || token.kind == TokenKind::CloseBracket),
{
    token.kind == TokenKind::OpenBracket || token.kind == TokenKind::CloseBracket
}

/// Whether a token is of the kind that `filter` asks for.
#[verifier::allow_in_spec]
pub fn accepts(filter: Filter, token: Token) -> bool
    returns
        (match filter {
            Filter::Unclaimed => token.kind == TokenKind::Free && token.identified is None,
            Filter::UnclaimedOutside => token.kind == TokenKind::Free && token.identified is None
                && !token.enclosed,
            Filter::UnclaimedEnclosed => token.kind == TokenKind::Free && token.identified is None
                && token.enclosed,
            Filter::Bracket => is_bracket(token),
            Filter::Claimed => token.identified is Some,
            Filter::BracketOrClaimed => is_bracket(token) || token.identified is Some,
            Filter::Solid => token.kind != TokenKind::Delimiter,
            Filter::Episode => token.identified == Some(ElementCategory::EpisodeNumber),
        }),
{
    match filter {
        Filter::Unclaimed => token.kind == TokenKind::Free && token.identified.is_none(),
        Filter::UnclaimedOutside => token.kind == TokenKind::Free && token.identified.is_none()
            && !token.enclosed,
        Filter::UnclaimedEnclosed => token.kind == TokenKind::Free && token.identified.is_none()
            && token.enclosed,
        Filter::Bracket => is_bracket(token),
        Filter::Claimed => token.identified.is_some(),
        Filter::BracketOrClaimed => is_bracket(token) || token.identified.is_some(),
        Filter::Solid => token.kind != TokenKind::Delimiter,
        Filter::Episode => match token.identified {
            Some(category) => category == ElementCategory::EpisodeNumber,
            None => false,
        },
    }
}

/// The index of the first token at or after `from` that `filter` accepts; the
/// number of tokens if there is none.
pub open spec fn next_index(tokens: Seq<Token>, from: int, filter: Filter) -> int
    decreases tokens.len() - from,
{
    if from < 0 || from >= tokens.len() {
        tokens.len() as int
    } else if accepts(filter, tokens[from]) {
        from
    } else {
        next_index(tokens, from + 1, filter)
    }
}

/// The index of the last token before `before` that `filter` accepts.
pub open spec fn prev_index(tokens: Seq<Token>, before: int, filter: Filter) -> Option<int>
    decreases before,
{
    if before <= 0 || before > tokens.len() {
        None
    } else if accepts(filter, tokens[before - 1]) {
        Some(before - 1)
    } else {
        prev_index(tokens, before - 1, filter)
    }
}

/// What [`next_index`] finds lies at or after `from`, and is accepted.
pub proof fn lemma_next_index(tokens: Seq<Token>, from: int, filter: Filter)
    requires
        0 <= from <= tokens.len(),
    ensures
        from <= next_index(tokens, from, filter) <= tokens.len(),
        next_index(tokens, from, filter) < tokens.len() ==> accepts(
            filter,
            tokens[next_index(tokens, from, filter)],
        ),
        forall|i: int|
            from <= i < next_index(tokens, from, filter) ==> !accepts(filter, #[trigger] tokens[i]),
    decreases tokens.len() - from,
{
    if from < tokens.len() && !accepts(filter, tokens[from]) {
        lemma_next_index(tokens, from + 1, filter);
    }
}

/// What [`prev_index`] finds lies before `before`, and is accepted.
pub proof fn lemma_prev_index(tokens: Seq<Token>, before: int, filter: Filter)
    requires
        0 <= before <= tokens.len(),
    ensures
        match prev_index(tokens, before, filter) {
            Some(at) => 0 <= at < before && accepts(filter, tokens[at]) && (forall|i: int|
                at < i < before ==> !accepts(filter, #[trigger] tokens[i])),
            None => forall|i: int| 0 <= i < before ==> !accepts(filter, #[trigger] tokens[i]),
        },
    decreases before,
{
    if before > 0 && !accepts(filter, tokens[before - 1]) {
        lemma_prev_index(tokens, before - 1, filter);
    }
}

/// Computes [`next_index`].
pub fn find_next(tokens: &Vec<Token>, from: usize, filter: Filter) -> (r: usize)
    requires
        from <= tokens@.len(),
    ensures
        r == next_index(tokens@, from as int, filter),
        from <= r <= tokens@.len(),
        r < tokens@.len() ==> accepts(filter, tokens@[r as int]),
        forall|i: int| from <= i < r ==> !accepts(filter, #[trigger] tokens@[i]),
{
    let mut i: usize = from;
    while i < tokens.len()
        invariant
            from <= i <= tokens@.len(),
            next_index(tokens@, from as int, filter) == next_index(tokens@, i as int, filter),
        decreases tokens@.len() - i,
    {
        if accepts(filter, tokens[i]) {
            proof {
                lemma_next_index(tokens@, from as int, filter);
            }
            return i;
        }
        i += 1;
    }
    proof {
        lemma_next_index(tokens@, from as int, filter);
    }
    i
}

/// Computes [`prev_index`].
pub fn find_prev(tokens: &Vec<Token>, before: usize, filter: Filter) -> (r: Option<usize>)
    requires
        before <= tokens@.len(),
    ensures
        match r {
            Some(at) => prev_index(tokens@, before as int, filter) == Some(at as int) && at
                < before && accepts(filter, tokens@[at as int]) && (forall|i: int|
                at < i < before ==> !accepts(filter, #[trigger] tokens@[i])),
            None => prev_index(tokens@, before as int, filter) is None && (forall|i: int|
                0 <= i < before ==> !accepts(filter, #[trigger] tokens@[i])),
        },
{
    let mut i: usize = before;
    while i > 0
        invariant
            i <= before <= tokens@.len(),
            prev_index(tokens@, before as int, filter) == prev_index(tokens@, i as int, filter),
        decreases i,
    {
        if accepts(filter, tokens[i - 1]) {
            proof {
                lemma_prev_index(tokens@, before as int, filter);
            }
            return Some(i - 1);
        }
        i -= 1;
    }
    proof {
        lemma_prev_index(tokens@, before as int, filter);
    }
    None
}

} // verus!
