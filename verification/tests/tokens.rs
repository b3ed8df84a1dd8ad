use anitomy::token::{find_next, find_prev, mark, mark_range, Filter};
use anitomy::tokenizer::{classify, is_close_bracket, is_open_bracket};
use anitomy::{tokenize, ElementCategory, Token, TokenKind};

fn chars(s: &str) -> Vec<char> {
    s.chars().collect()
}

fn token(start: usize, end: usize, kind: TokenKind, enclosed: bool) -> Token {
    Token { start, end, kind, enclosed, identified: None }
}

fn texts(name: &str, delimiters: &[char]) -> Vec<String> {
    let text = chars(name);
    tokenize(&text, delimiters)
        .iter()
        .map(|t| text[t.start..t.end].iter().collect())
        .collect()
}

#[test]
fn tokens_of_a_bracketed_name() {
    let text = chars("[a_b]c");
    assert_eq!(
        tokenize(&text, &[' ', '_', '.']),
        vec![
            token(0, 1, TokenKind::OpenBracket, true),
            token(1, 2, TokenKind::Free, true),
            token(2, 3, TokenKind::Delimiter, true),
            token(3, 4, TokenKind::Free, true),
            token(4, 5, TokenKind::CloseBracket, true),
            token(5, 6, TokenKind::Free, false),
        ]
    );
}

#[test]
fn empty_name_has_no_tokens() {
    assert_eq!(tokenize(&[], &[' ', '_']), vec![]);
}

#[test]
fn unmatched_closing_bracket_is_a_plain_character() {
    let text = chars("a]b");
    assert_eq!(tokenize(&text, &[' ']), vec![token(0, 3, TokenKind::Free, false)]);
}

#[test]
fn nested_brackets_are_counted() {
    let text = chars("[a(b)c]d");
    let tokens = tokenize(&text, &[' ']);
    let kinds: Vec<TokenKind> = tokens.iter().map(|t| t.kind).collect();
    assert_eq!(
        kinds,
        vec![
            TokenKind::OpenBracket,
            TokenKind::Free,
            TokenKind::OpenBracket,
            TokenKind::Free,
            TokenKind::CloseBracket,
            TokenKind::Free,
            TokenKind::CloseBracket,
            TokenKind::Free,
        ]
    );
    let enclosed: Vec<bool> = tokens.iter().map(|t| t.enclosed).collect();
    assert_eq!(enclosed, vec![true, true, true, true, true, true, true, false]);
}

#[test]
fn full_width_and_corner_brackets_enclose() {
    assert_eq!(texts("【a】 b", &[' ']), vec!["【", "a", "】", " ", "b"]);
    let text = chars("（a）「b」『c』［d］｛e｝{f}");
    let tokens = tokenize(&text, &[]);
    assert_eq!(tokens.len(), 18);
    assert!(tokens.iter().all(|t| t.enclosed));
    assert!(is_open_bracket('（') && is_close_bracket('）'));
    assert!(!is_open_bracket(')') && !is_close_bracket('('));
}

#[test]
fn each_delimiter_is_a_token() {
    assert_eq!(texts("a..b", &['.']), vec!["a", ".", ".", "b"]);
    assert_eq!(classify(&['.'], '.', 0), TokenKind::Delimiter);
    assert_eq!(classify(&['.'], ']', 0), TokenKind::Free);
    assert_eq!(classify(&['.'], ']', 1), TokenKind::CloseBracket);
    assert_eq!(classify(&['['], '[', 0), TokenKind::OpenBracket);
}

#[test]
fn no_delimiter_allowed_gives_no_delimiter_token() {
    let text = chars("a_b c.d [e_f] g");
    let tokens = tokenize(&text, &[]);
    assert!(tokens.iter().all(|t| t.kind != TokenKind::Delimiter));
    assert_eq!(texts("a_b c.d [e_f] g", &[]), vec!["a_b c.d ", "[", "e_f", "]", " g"]);
}

#[test]
fn token_texts_joined_give_the_name() {
    let name = "[TaigaSubs]_Toradora!_(2008)_-_01v2_-_Tiger_and_Dragon_[1280x720_H.264_FLAC][1234ABCD]";
    for delimiters in [&[' ', '_', '.', '&', '+', ',', '|'][..], &[][..], &['-'][..]] {
        assert_eq!(texts(name, delimiters).concat(), name);
        let text = chars(name);
        let tokens = tokenize(&text, delimiters);
        assert_eq!(tokens[0].start, 0);
        assert_eq!(tokens[tokens.len() - 1].end, text.len());
        for pair in tokens.windows(2) {
            assert_eq!(pair[0].end, pair[1].start);
        }
        assert!(tokens.iter().all(|t| t.start < t.end && t.identified.is_none()));
    }
}

#[test]
fn searches_among_tokens() {
    let text = chars("[a] b c");
    let mut tokens = tokenize(&text, &[' ']);
    assert_eq!(find_next(&tokens, 0, Filter::Unclaimed), 1);
    assert_eq!(find_next(&tokens, 0, Filter::UnclaimedOutside), 4);
    assert_eq!(find_next(&tokens, 2, Filter::UnclaimedEnclosed), tokens.len());
    assert_eq!(find_next(&tokens, 1, Filter::Bracket), 2);
    assert_eq!(find_next(&tokens, 0, Filter::Claimed), tokens.len());
    assert_eq!(find_prev(&tokens, 4, Filter::Solid), Some(2));
    assert_eq!(find_prev(&tokens, 0, Filter::Solid), None);
    mark(&mut tokens, 4, ElementCategory::EpisodeNumber);
    assert_eq!(tokens[4].identified, Some(ElementCategory::EpisodeNumber));
    assert_eq!(find_next(&tokens, 0, Filter::Claimed), 4);
    assert_eq!(find_next(&tokens, 0, Filter::Episode), 4);
    assert_eq!(find_next(&tokens, 0, Filter::BracketOrClaimed), 0);
    assert_eq!(find_next(&tokens, 3, Filter::BracketOrClaimed), 4);
    assert_eq!(find_next(&tokens, 0, Filter::UnclaimedOutside), 6);
    mark_range(&mut tokens, 0, 7, ElementCategory::AnimeTitle);
    let claims: Vec<Option<ElementCategory>> = tokens.iter().map(|t| t.identified).collect();
    assert_eq!(
        claims,
        vec![
            None,
            Some(ElementCategory::AnimeTitle),
            None,
            None,
            Some(ElementCategory::EpisodeNumber),
            None,
            Some(ElementCategory::AnimeTitle),
        ]
    );
}
