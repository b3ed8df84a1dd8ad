use anitomy::shape::{check_checksum, check_range, check_resolution, check_versioned, count_digits};
use anitomy::text::{
    chars_of, check_mostly_latin, check_number, find_first, find_last, is_dash, is_latin,
    number_value, remove_first_occurrence, string_of, to_upper, to_upper_word, trim,
};

fn chars(s: &str) -> Vec<char> {
    s.chars().collect()
}

#[test]
fn strings_and_characters_convert_both_ways() {
    assert_eq!(chars_of("a漆b"), vec!['a', '漆', 'b']);
    assert_eq!(string_of(&['a', '漆', 'b']), "a漆b");
    assert_eq!(string_of(&[]), "");
}

#[test]
fn upper_case_touches_ascii_letters_only() {
    assert_eq!(to_upper('a'), 'A');
    assert_eq!(to_upper('z'), 'Z');
    assert_eq!(to_upper('A'), 'A');
    assert_eq!(to_upper('1'), '1');
    assert_eq!(to_upper('é'), 'é');
    assert_eq!(to_upper_word(&chars("h.264x")), chars("H.264X"));
}

#[test]
fn number_values() {
    assert_eq!(number_value(&chars("0")), 0);
    assert_eq!(number_value(&chars("0123")), 123);
    assert_eq!(number_value(&chars("9999")), 9999);
    assert_eq!(number_value(&[]), 0);
    assert!(check_number(&chars("007")));
    assert!(!check_number(&chars("")));
    assert!(!check_number(&chars("7a")));
}

#[test]
fn first_and_last_occurrences() {
    assert_eq!(find_first(&chars("abcabc"), &chars("bc")), Some(1));
    assert_eq!(find_first(&chars("abcabc"), &chars("cb")), None);
    assert_eq!(find_first(&chars("abc"), &chars("abcd")), None);
    assert_eq!(find_first(&chars("abc"), &[]), Some(0));
    assert_eq!(find_last(&chars("a.b.c"), '.'), Some(3));
    assert_eq!(find_last(&chars("abc"), '.'), None);
}

#[test]
fn first_occurrence_is_removed() {
    assert_eq!(remove_first_occurrence(&chars("abcabc"), &chars("bc")), chars("aabc"));
    assert_eq!(remove_first_occurrence(&chars("abcabc"), &chars("x")), chars("abcabc"));
    assert_eq!(remove_first_occurrence(&chars("abc"), &[]), chars("abc"));
    assert_eq!(remove_first_occurrence(&chars("abc"), &chars("abc")), chars(""));
}

#[test]
fn trim_cuts_spaces_and_dashes() {
    assert_eq!(trim(&chars(" - Tiger and Dragon -‐ ")), chars("Tiger and Dragon"));
    assert_eq!(trim(&chars("_Toradora!_")), chars("_Toradora!_"));
    assert_eq!(trim(&chars(" - ")), chars(""));
    assert_eq!(trim(&chars("a - b")), chars("a - b"));
    assert!(is_dash('-') && is_dash('\u{2015}') && !is_dash('_'));
}

#[test]
fn mostly_latin_counts_half() {
    assert!(check_mostly_latin(&chars("Black")));
    assert!(check_mostly_latin(&chars("ab漆黑")));
    assert!(!check_mostly_latin(&chars("a漆黑")));
    assert!(!check_mostly_latin(&chars("")));
    assert!(is_latin('\u{24F}') && !is_latin('\u{250}'));
}

#[test]
fn shapes_of_words() {
    assert_eq!(count_digits(&chars("12ab3"), 0), 2);
    assert_eq!(count_digits(&chars("12ab3"), 2), 0);
    assert_eq!(count_digits(&chars("12ab3"), 4), 1);
    assert!(check_checksum(&chars("1234ABCD")));
    assert!(check_checksum(&chars("deadbeef")));
    assert!(!check_checksum(&chars("1234ABCG")));
    assert!(!check_checksum(&chars("1234ABC")));
    assert!(check_resolution(&chars("1280x720")));
    assert!(check_resolution(&chars("720p")));
    assert!(check_resolution(&chars("1080P")));
    assert!(check_resolution(&chars("848×480")));
    assert!(!check_resolution(&chars("72p")));
    assert!(!check_resolution(&chars("720")));
    assert!(!check_resolution(&chars("1280x72")));
    assert!(!check_resolution(&chars("1280x720p")));
    assert!(!check_resolution(&chars("12800x720")));
    assert!(check_versioned(&chars("01v2")));
    assert!(check_versioned(&chars("1234V0")));
    assert!(!check_versioned(&chars("01v")));
    assert!(!check_versioned(&chars("01v22")));
    assert!(!check_versioned(&chars("12345v2")));
    assert!(!check_versioned(&chars("v2")));
    assert!(check_range(&chars("11-12")));
    assert!(check_range(&chars("1-1000")));
    assert!(!check_range(&chars("12-11")));
    assert!(!check_range(&chars("12-12")));
    assert!(!check_range(&chars("11-")));
    assert!(!check_range(&chars("11-12a")));
    assert!(!check_range(&chars("11~12")));
    assert!(!check_range(&chars("11-12345")));
}
