//! Cuts a file name into tokens: brackets, delimiters, and the runs of
//! characters between them.
use vstd::prelude::*;
use crate::token::{Token, TokenKind, joined, tiles};

verus! {

/// An opening bracket: `(`, `[`, `{`, a corner or lenticular bracket, or the
/// full-width form of one of the first three.
#[verifier::allow_in_spec]
pub fn is_open_bracket(c: char) -> bool
    returns
        (c == '(' || c == '[' || c == '{' || c == '\u{300C}' || c == '\u{300E}' || c == '\u{3010}'
            || c == '\u{FF08}' || c == '\u{FF3B}' || c == '\u{FF5B}'),
{
    c == '(' || c == '[' || c == '{' || c == '\u{300C}' || c == '\u{300E}' || c == '\u{3010}' || c
        == '\u{FF08}' || c == '\u{FF3B}' || c == '\u{FF5B}'
}

/// A closing bracket: the partner of one of the opening brackets.
#[verifier::allow_in_spec]
pub fn is_close_bracket(c: char) -> bool
    returns
        (c == ')' || c == ']' || c == '}' || c == '\u{300D}' || c == '\u{300F}' || c == '\u{3011}'
            || c == '\u{FF09}' || c == '\u{FF3D}' || c == '\u{FF5D}'),
{
    c == ')' || c == ']' || c == '}' || c == '\u{300D}' || c == '\u{300F}' || c == '\u{3011}' || c
        == '\u{FF09}' || c == '\u{FF3D}' || c == '\u{FF5D}'
}

/// Whether `c` is one of `set`.
pub fn contains_char(set: &[char], c: char) -> (r: bool)
    ensures
        r == set@.contains(c),
{
    let mut i: usize = 0;
    while i < set.len()
        invariant
            i <= set.len(),
            forall|j: int| 0 <= j < i ==> set@[j] != c,
        decreases set.len() - i,
    {
        if set[i] == c {
            return true;
        }
        i += 1;
    }
    false
}

/// The kind of the token that starts with the character `c`, `depth`
/// brackets being open. A closing bracket with nothing to close is an
/// ordinary character, and a bracket is never a delimiter.
pub open spec fn kind_of(delimiters: Seq<char>, c: char, depth: int) -> TokenKind {
    if is_open_bracket(c) {
        TokenKind::OpenBracket
    } else if is_close_bracket(c) && depth > 0 {
        TokenKind::CloseBracket
    } else if delimiters.contains(c) {
        TokenKind::Delimiter
    } else {
        TokenKind::Free
    }
}

/// How many characters from `from` on go on a free run, `depth` brackets
/// being open: those up to the next bracket or delimiter.
pub open spec fn run_length(text: Seq<char>, delimiters: Seq<char>, depth: int, from: int) -> nat
    decreases text.len() - from,
{
    if from < 0 || from >= text.len() || kind_of(delimiters, text[from], depth)
        != TokenKind::Free {
        0
    } else {
        1 + run_length(text, delimiters, depth, from + 1)
    }
}

/// Where the token that starts at `at` ends. A bracket and a delimiter are a
/// token of one character; a free run goes on as far as it can.
pub open spec fn end_of(text: Seq<char>, delimiters: Seq<char>, depth: int, at: int) -> int {
    if kind_of(delimiters, text[at], depth) == TokenKind::Free {
        at + 1 + run_length(text, delimiters, depth, at + 1)
    } else {
        at + 1
    }
}

/// How many brackets are open after a token of kind `kind`.
pub open spec fn depth_after(depth: int, kind: TokenKind) -> int {
    match kind {
        TokenKind::OpenBracket => depth + 1,
        TokenKind::CloseBracket => depth - 1,
        _ => depth,
    }
}

/// The tokens of `text[at..]`, `depth` brackets being open at `at`. A token
/// is enclosed when it is a bracket or stands where a bracket is open.
pub open spec fn tokens_from(text: Seq<char>, delimiters: Seq<char>, depth: int, at: int) -> Seq<
    Token,
>
    decreases
            if at <= text.len() {
                text.len() - at
            } else {
                0
            },
{
    if at < 0 || at >= text.len() {
        Seq::empty()
    } else {
        let kind = kind_of(delimiters, text[at], depth);
        let end = end_of(text, delimiters, depth, at);
        let token = Token {
            start: #[verifier::truncate] (at as usize),
            end: #[verifier::truncate] (end as usize),
            kind,
            enclosed: depth > 0 || kind != TokenKind::Free && kind != TokenKind::Delimiter,
            identified: None,
        };
        seq![token] + tokens_from(text, delimiters, depth_after(depth, kind), end)
    }
}

/// The tokens of a file name.
pub open spec fn tokens_of(text: Seq<char>, delimiters: Seq<char>) -> Seq<Token> {
    tokens_from(text, delimiters, 0, 0)
}

/// No token is claimed, and each delimiter token is one of the delimiters.
pub open spec fn fresh(text: Seq<char>, delimiters: Seq<char>, tokens: Seq<Token>) -> bool {
    forall|i: int|
        0 <= i < tokens.len() ==> {
            &&& (#[trigger] tokens[i]).identified is None
            &&& tokens[i].kind == TokenKind::Delimiter ==> delimiters.contains(
                text[tokens[i].start as int],
            )
        }
}

/// A token that starts where the tiling ends extends the tiling.
pub proof fn lemma_tiles_push(tokens: Seq<Token>, at: int, token: Token)
    requires
        tiles(tokens, at),
        token.start == at,
        token.start < token.end,
    ensures
        tiles(tokens.push(token), token.end as int),
{
    reveal(tiles);
    let longer = tokens.push(token);
    assert forall|i: int| 0 <= i < longer.len() implies (#[trigger] longer[i]).start
        < longer[i].end <= token.end by {
        if i < tokens.len() {
            assert(longer[i] == tokens[i]);
        }
    }
    assert forall|i: int, j: int| 0 <= i < j < longer.len() implies (#[trigger] longer[i]).end <= (
    #[trigger] longer[j]).start by {
        assert(longer[i] == tokens[i]);
        if j < tokens.len() {
            assert(longer[j] == tokens[j]);
        }
    }
    assert forall|i: int, j: int| 0 <= i && j == i + 1 && j < longer.len() implies (
    #[trigger] longer[i]).end == (#[trigger] longer[j]).start by {
        assert(longer[i] == tokens[i]);
        if j < tokens.len() {
            assert(longer[j] == tokens[j]);
        } else {
            assert(tokens[i] == tokens.last());
        }
    }
    if tokens.len() > 0 {
        assert(longer[0] == tokens[0]);
    }
}

/// An unclaimed token that is no delimiter, or is an allowed one, keeps the
/// tokens fresh.
pub proof fn lemma_fresh_push(text: Seq<char>, delimiters: Seq<char>, tokens: Seq<Token>, token: Token)
    requires
        fresh(text, delimiters, tokens),
        token.identified is None,
        token.kind == TokenKind::Delimiter ==> delimiters.contains(text[token.start as int]),
    ensures
        fresh(text, delimiters, tokens.push(token)),
{
    let longer = tokens.push(token);
    assert forall|i: int| 0 <= i < longer.len() implies {
        &&& (#[trigger] longer[i]).identified is None
        &&& longer[i].kind == TokenKind::Delimiter ==> delimiters.contains(
            text[longer[i].start as int],
        )
    } by {
        if i < tokens.len() {
            assert(longer[i] == tokens[i]);
        }
    }
}

/// No token is a delimiter.
pub open spec fn delimiter_free(tokens: Seq<Token>) -> bool {
    forall|i: int| 0 <= i < tokens.len() ==> (#[trigger] tokens[i]).kind != TokenKind::Delimiter
}

/// With no delimiter allowed, no token is a delimiter: a character that
/// would part two words elsewhere stays within the free token it stands in.
pub proof fn lemma_no_delimiter_allowed(text: Seq<char>, depth: int, at: int)
    ensures
        delimiter_free(tokens_from(text, Seq::empty(), depth, at)),
    decreases
            if at <= text.len() {
                text.len() - at
            } else {
                0
            },
{
    let none = Seq::<char>::empty();
    if 0 <= at < text.len() {
        let kind = kind_of(none, text[at], depth);
        let end = end_of(text, none, depth, at);
        assert(!none.contains(text[at]));
        lemma_no_delimiter_allowed(text, depth_after(depth, kind), end);
        let rest = tokens_from(text, none, depth_after(depth, kind), end);
        let all = tokens_from(text, none, depth, at);
        assert forall|i: int| 0 <= i < all.len() implies (#[trigger] all[i]).kind
            != TokenKind::Delimiter by {
            if i > 0 {
                assert(all[i] == rest[i - 1]);
            }
        }
    }
}

/// Cuts `text` into tokens.
///
/// The characters are read from left to right. A bracket is a token of its
/// own, and so is each of the `delimiters`; what lies between them is a free
/// token. The tokens cover the text without gap or overlap, so their texts,
/// joined, give the text back. With no delimiter allowed there is no
/// delimiter token.
pub fn tokenize(text: &[char], delimiters: &[char]) -> (r: Vec<Token>)
    ensures
        r@ == tokens_of(text@, delimiters@),
        tiles(r@, text@.len() as int),
        joined(text@, r@) == text@,
        fresh(text@, delimiters@, r@),
        delimiters@.len() == 0 ==> delimiter_free(r@),
{
    let mut tokens: Vec<Token> = Vec::new();
    let mut at: usize = 0;
    let mut depth: usize = 0;
    let total: usize = text.len();
    assert(tiles(tokens@, 0)) by {
        reveal(tiles);
    }
    assert(joined(text@, tokens@) =~= text@.subrange(0, 0));
    assert(tokens@ + tokens_from(text@, delimiters@, 0, 0) =~= tokens_of(text@, delimiters@));
    while at < total
        invariant
            total == text@.len(),
            at <= total,
            depth <= at,
            tokens@ + tokens_from(text@, delimiters@, depth as int, at as int) == tokens_of(
                text@,
                delimiters@,
            ),
            joined(text@, tokens@) == text@.subrange(0, at as int),
            tiles(tokens@, at as int),
            fresh(text@, delimiters@, tokens@),
        decreases total - at,
    {
        let c = text[at];
        let kind = classify(delimiters, c, depth);
        let mut end: usize = at + 1;
        if kind == TokenKind::Free {
            while end < total && classify(delimiters, text[end], depth) == TokenKind::Free
                invariant
                    at < end <= total,
                    total == text@.len(),
                    end - (at + 1) + run_length(text@, delimiters@, depth as int, end as int)
                        == run_length(text@, delimiters@, depth as int, at + 1),
                decreases total - end,
            {
                end += 1;
            }
        }
        assert(end == end_of(text@, delimiters@, depth as int, at as int));
        let token = Token {
            start: at,
            end,
            kind,
            enclosed: depth > 0 || kind != TokenKind::Free && kind != TokenKind::Delimiter,
            identified: None,
        };
        let next_depth: usize = match kind {
            TokenKind::OpenBracket => depth + 1,
            TokenKind::CloseBracket => depth - 1,
            _ => depth,
        };
        proof {
            let rest = tokens_from(text@, delimiters@, next_depth as int, end as int);
            assert(tokens_from(text@, delimiters@, depth as int, at as int) == seq![token] + rest);
            assert(tokens@.push(token) + rest =~= tokens@ + (seq![token] + rest));
            assert(tokens@.push(token).drop_last() =~= tokens@);
            assert(text@.subrange(0, at as int) + text@.subrange(at as int, end as int)
                =~= text@.subrange(0, end as int));
            lemma_tiles_push(tokens@, at as int, token);
            lemma_fresh_push(text@, delimiters@, tokens@, token);
        }
        tokens.push(token);
        at = end;
        depth = next_depth;
    }
    assert(text@.subrange(0, at as int) =~= text@);
    proof {
        if delimiters@.len() == 0 {
            assert(delimiters@ =~= Seq::<char>::empty());
            lemma_no_delimiter_allowed(text@, 0, 0);
        }
    }
    tokens
}

/// Computes [`kind_of`].
pub fn classify(delimiters: &[char], c: char, depth: usize) -> (r: TokenKind)
    ensures
        r == kind_of(delimiters@, c, depth as int),
{
    if is_open_bracket(c) {
        TokenKind::OpenBracket
    } else if is_close_bracket(c) && depth > 0 {
        TokenKind::CloseBracket
    } else if contains_char(delimiters, c) {
        TokenKind::Delimiter
    } else {
        TokenKind::Free
    }
}

} // verus!
