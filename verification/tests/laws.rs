use anitomy::{parse, tokenize, ElementCategory, Options, TokenKind};

const NAMES: [&'static str; 24] = [
    "",
    ".",
    ".mkv",
    "-",
    "[",
    "]",
    "[]",
    "[[[",
    "]]]",
    "a",
    "01",
    "01.mkv",
    "2008",
    "(2008)",
    "v2",
    "11-12",
    "EP",
    "EP01v2",
    "_-_",
    "[異域字幕組][漆黑的子彈][Black Bullet][11-12][1280x720][繁体].mp4",
    "[TaigaSubs]_Toradora!_(2008)_-_01v2_-_Tiger_and_Dragon_[1280x720_H.264_FLAC][1234ABCD].mkv",
    "Spice and Wolf Vol.3 EP05 (BD 1920x1080 H.264 Dual Audio) [DEADBEEF].mkv",
    "「タイトル」 第01話 （1280×720）",
    "Title - 01 (176) [Group] (TV) {x} 【y】.avi",
];

fn every_options() -> Vec<Options> {
    let mut all = Vec::new();
    for bits in 0..16 {
        let mut options = Options::default();
        options
            .parse_episode_number(bits & 1 != 0)
            .parse_episode_title(bits & 2 != 0)
            .parse_file_extension(bits & 4 != 0)
            .parse_release_group(bits & 8 != 0);
        all.push(options.duplicate());
        options.allow_delimiters(&[]);
        all.push(options.duplicate());
        options.allow_delimiters(&[' ', '-', '[']).ignore_strings(&["a", "01", "Dragon", ""]);
        all.push(options);
    }
    all
}

#[test]
fn success_means_a_title() {
    for options in every_options() {
        for name in NAMES {
            let (success, elements) = parse(name, &options);
            assert_eq!(success, elements.count(Some(ElementCategory::AnimeTitle)) > 0);
            assert_eq!(success, elements.get(ElementCategory::AnimeTitle).is_some());
        }
    }
}

#[test]
fn switches_gate_their_categories() {
    for options in every_options() {
        for name in NAMES {
            let (_, elements) = parse(name, &options);
            if !options.parse_episode_number {
                assert!(elements.is_empty(Some(ElementCategory::EpisodeNumber)));
            }
            if !options.parse_episode_title {
                assert!(elements.is_empty(Some(ElementCategory::EpisodeTitle)));
            }
            if !options.parse_file_extension {
                assert!(elements.is_empty(Some(ElementCategory::FileExtension)));
            }
            if !options.parse_release_group {
                assert!(elements.is_empty(Some(ElementCategory::ReleaseGroup)));
            }
        }
    }
}

#[test]
fn same_input_same_result() {
    for options in every_options() {
        for name in NAMES {
            assert_eq!(parse(name, &options), parse(name, &options.duplicate()));
        }
    }
}

#[test]
fn queries_agree_with_the_order_of_discovery() {
    for name in NAMES {
        let (_, elements) = parse(name, &Options::default());
        let all = elements.iterate();
        assert_eq!(elements.count(None), all.len());
        assert_eq!(elements.is_empty(None), all.is_empty());
        for element in all.iter() {
            let category = element.category;
            let expected: Vec<&str> = all
                .iter()
                .filter(|e| e.category == category)
                .map(|e| e.value.as_str())
                .collect();
            assert_eq!(elements.get_all(category), expected);
            assert_eq!(elements.get(category), Some(expected[0]));
            assert_eq!(elements.count(Some(category)), expected.len());
            assert!(!elements.is_empty(Some(category)));
        }
    }
}

#[test]
fn name_and_extension_spell_the_file_name() {
    for name in NAMES {
        let (_, elements) = parse(name, &Options::default());
        let stem = elements.get(ElementCategory::FileName).unwrap_or("");
        let spelled = match elements.get(ElementCategory::FileExtension) {
            Some(extension) => format!("{}.{}", stem, extension),
            None => stem.to_string(),
        };
        assert_eq!(spelled, name);
    }
}

#[test]
fn tokens_cover_the_name() {
    for delimiters in [&[' ', '_', '.', '&', '+', ',', '|'][..], &[][..], &['-', '['][..]] {
        for name in NAMES {
            let text: Vec<char> = name.chars().collect();
            let tokens = tokenize(&text, delimiters);
            let mut at = 0;
            for token in tokens.iter() {
                assert_eq!(token.start, at);
                assert!(token.start < token.end);
                assert_eq!(token.text(&text), Some(text[token.start..token.end].iter().collect()));
                if token.kind == TokenKind::Delimiter {
                    assert_eq!(token.end, token.start + 1);
                    assert!(delimiters.contains(&text[token.start]));
                }
                at = token.end;
            }
            assert_eq!(at, text.len());
            if delimiters.is_empty() {
                assert!(tokens.iter().all(|t| t.kind != TokenKind::Delimiter));
            }
        }
    }
    let text: Vec<char> = "ab".chars().collect();
    let tokens = tokenize(&"abc".chars().collect::<Vec<char>>(), &[]);
    assert_eq!(tokens[0].text(&text), None);
}
