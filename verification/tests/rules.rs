use anitomy::keyword::{guarded_rule, marker_rule, plain_rule};
use anitomy::{parse, parse_with, Dictionary, ElementCategory, Elements, Options, Rule};

fn found(elements: &Elements) -> Vec<(ElementCategory, String)> {
    elements
        .iterate()
        .iter()
        .filter(|e| e.category != ElementCategory::FileName)
        .map(|e| (e.category, e.value.clone()))
        .collect()
}

fn default_parse(name: &str) -> Vec<(ElementCategory, String)> {
    found(&parse(name, &Options::default()).1)
}

fn pair(category: ElementCategory, value: &str) -> (ElementCategory, String) {
    (category, value.to_string())
}

fn chars(s: &str) -> Vec<char> {
    s.chars().collect()
}

#[test]
fn dictionary_lookup_ignores_case() {
    let table = Dictionary::default();
    assert_eq!(table.find(&chars("flac"), false), Some(plain_rule(ElementCategory::AudioTerm)));
    assert_eq!(table.find(&chars("FLAC"), false), Some(plain_rule(ElementCategory::AudioTerm)));
    assert_eq!(table.find(&chars("Dual Audio"), false), Some(plain_rule(ElementCategory::AudioTerm)));
    assert_eq!(table.find(&chars("ita"), false), Some(guarded_rule(ElementCategory::Language)));
    assert_eq!(table.find(&chars("Episode"), false), Some(marker_rule(ElementCategory::EpisodePrefix)));
    assert_eq!(table.find(&chars("Toradora"), false), None);
}

#[test]
fn dictionary_keeps_extensions_apart() {
    let table = Dictionary::default();
    assert_eq!(table.find(&chars("mkv"), false), None);
    assert_eq!(table.find(&chars("mkv"), true), Some(plain_rule(ElementCategory::FileExtension)));
    assert_eq!(table.find(&chars("ts"), false), Some(plain_rule(ElementCategory::Other)));
    assert_eq!(table.find(&chars("ts"), true), Some(plain_rule(ElementCategory::FileExtension)));
    assert_eq!(table.find(&chars("avi"), false), Some(plain_rule(ElementCategory::VideoTerm)));
    assert_eq!(table.find(&chars("flac"), true), None);
}

#[test]
fn earlier_entry_wins_a_tie() {
    let mut table = Dictionary::new();
    assert_eq!(table.len(), 0);
    table.insert("web", plain_rule(ElementCategory::Source));
    table.insert("WEB", plain_rule(ElementCategory::Other));
    assert_eq!(table.len(), 2);
    assert_eq!(table.find(&chars("Web"), false), Some(plain_rule(ElementCategory::Source)));
    let (_, elements) = parse_with("Title - 01 [WEB].mkv", &table, &Options::default());
    assert_eq!(elements.get(ElementCategory::Source), Some("WEB"));
    assert_eq!(elements.get(ElementCategory::Other), None);
}

#[test]
fn keyword_rules_say_where_a_keyword_counts() {
    assert_eq!(
        plain_rule(ElementCategory::Source),
        Rule { category: ElementCategory::Source, enclosed_only: false, before_delimiter: false }
    );
    let mut table = Dictionary::new();
    table.insert("proper", marker_rule(ElementCategory::ReleaseInformation));
    table.insert("uncut", guarded_rule(ElementCategory::Other));
    let options = Options::default();
    let (_, elements) = parse_with("Title - 01 Proper Uncut.mkv", &table, &options);
    assert_eq!(elements.get(ElementCategory::ReleaseInformation), Some("Proper"));
    assert_eq!(elements.get(ElementCategory::Other), None);
    let (_, elements) = parse_with("Title - 01 [Proper][Uncut].mkv", &table, &options);
    assert_eq!(elements.get(ElementCategory::ReleaseInformation), None);
    assert_eq!(elements.get(ElementCategory::Other), Some("Uncut"));
}

#[test]
fn keywords_are_found_in_token_order() {
    assert_eq!(
        default_parse("Spice and Wolf Vol.3 EP05 (BD 1920x1080 H.264 Dual Audio) [DEADBEEF].mkv"),
        vec![
            pair(ElementCategory::FileExtension, "mkv"),
            pair(ElementCategory::FileChecksum, "DEADBEEF"),
            pair(ElementCategory::Source, "BD"),
            pair(ElementCategory::VideoResolution, "1920x1080"),
            pair(ElementCategory::VideoTerm, "H.264"),
            pair(ElementCategory::AudioTerm, "Dual Audio"),
            pair(ElementCategory::VolumeNumber, "3"),
            pair(ElementCategory::EpisodeNumber, "05"),
            pair(ElementCategory::AnimeTitle, "Spice and Wolf"),
        ]
    );
}

#[test]
fn guarded_keyword_counts_within_brackets_only() {
    assert_eq!(
        default_parse("Bokura ga Ita - 01.mkv"),
        vec![
            pair(ElementCategory::FileExtension, "mkv"),
            pair(ElementCategory::EpisodeNumber, "01"),
            pair(ElementCategory::AnimeTitle, "Bokura ga Ita"),
        ]
    );
    assert_eq!(
        default_parse("Title - 01 [ITA].mkv"),
        vec![
            pair(ElementCategory::FileExtension, "mkv"),
            pair(ElementCategory::Language, "ITA"),
            pair(ElementCategory::EpisodeNumber, "01"),
            pair(ElementCategory::AnimeTitle, "Title"),
        ]
    );
    assert_eq!(
        default_parse("Title [OVA] - 01.mkv"),
        vec![
            pair(ElementCategory::FileExtension, "mkv"),
            pair(ElementCategory::AnimeType, "OVA"),
            pair(ElementCategory::EpisodeNumber, "01"),
            pair(ElementCategory::AnimeTitle, "Title"),
        ]
    );
}

#[test]
fn singular_category_takes_the_first_keyword() {
    assert_eq!(
        default_parse("Title 720p 1080p.mkv"),
        vec![
            pair(ElementCategory::FileExtension, "mkv"),
            pair(ElementCategory::VideoResolution, "720p"),
            pair(ElementCategory::AnimeTitle, "Title"),
            pair(ElementCategory::EpisodeTitle, "1080p"),
        ]
    );
    assert_eq!(
        default_parse("Title [DVD][TS][BD].mkv"),
        vec![
            pair(ElementCategory::FileExtension, "mkv"),
            pair(ElementCategory::Source, "DVD"),
            pair(ElementCategory::Other, "TS"),
            pair(ElementCategory::Source, "BD"),
            pair(ElementCategory::AnimeTitle, "Title"),
        ]
    );
}

#[test]
fn checksum_is_the_first_enclosed_run_of_eight_hex_digits() {
    let (_, elements) = parse("Title [1234ABCD][DEADBEEF].mkv", &Options::default());
    assert_eq!(elements.get_all(ElementCategory::FileChecksum), ["1234ABCD"]);
    let (_, elements) = parse("Title DEADBEEF.mkv", &Options::default());
    assert_eq!(elements.get(ElementCategory::FileChecksum), None);
}

#[test]
fn release_version_keyword_drops_its_letter() {
    assert_eq!(
        default_parse("[Taiga_Subs] Title - 01 - Tiger, Lion & Dragon [v2].mkv"),
        vec![
            pair(ElementCategory::FileExtension, "mkv"),
            pair(ElementCategory::ReleaseVersion, "2"),
            pair(ElementCategory::EpisodeNumber, "01"),
            pair(ElementCategory::AnimeTitle, "Title"),
            pair(ElementCategory::ReleaseGroup, "Taiga_Subs"),
            pair(ElementCategory::EpisodeTitle, "Tiger, Lion & Dragon"),
        ]
    );
}

#[test]
fn release_group_keyword_follows_its_switch() {
    let (_, elements) = parse("THORA Title - 01.mkv", &Options::default());
    assert_eq!(elements.get(ElementCategory::ReleaseGroup), Some("THORA"));
    assert_eq!(elements.get(ElementCategory::AnimeTitle), Some("Title"));
    let (_, elements) = parse("THORA Title - 01.mkv", Options::default().parse_release_group(false));
    assert_eq!(elements.get(ElementCategory::ReleaseGroup), None);
    assert_eq!(elements.get(ElementCategory::AnimeTitle), Some("THORA Title"));
}

#[test]
fn year_stands_alone_within_brackets() {
    assert_eq!(
        default_parse("Title (2008) - 05.mkv"),
        vec![
            pair(ElementCategory::FileExtension, "mkv"),
            pair(ElementCategory::AnimeYear, "2008"),
            pair(ElementCategory::EpisodeNumber, "05"),
            pair(ElementCategory::AnimeTitle, "Title"),
        ]
    );
    assert_eq!(
        default_parse("Title 2008 - 05.mkv"),
        vec![
            pair(ElementCategory::FileExtension, "mkv"),
            pair(ElementCategory::EpisodeNumber, "05"),
            pair(ElementCategory::AnimeTitle, "Title 2008"),
        ]
    );
    let (_, elements) = parse("Title (1899) (2051) (1900) (2050).mkv", &Options::default());
    assert_eq!(elements.get_all(ElementCategory::AnimeYear), ["1900"]);
}

#[test]
fn range_gives_both_bounds() {
    assert_eq!(
        default_parse("Title - 03-05.mkv"),
        vec![
            pair(ElementCategory::FileExtension, "mkv"),
            pair(ElementCategory::EpisodeNumber, "03"),
            pair(ElementCategory::EpisodeNumber, "05"),
            pair(ElementCategory::AnimeTitle, "Title"),
        ]
    );
    assert_eq!(
        default_parse("Title - 05-03.mkv"),
        vec![
            pair(ElementCategory::FileExtension, "mkv"),
            pair(ElementCategory::AnimeTitle, "Title - 05-03"),
        ]
    );
    let (_, elements) = parse("[Group][Title][11-12][13-14].mkv", &Options::default());
    assert_eq!(elements.get_all(ElementCategory::EpisodeNumber), ["11", "12"]);
}

#[test]
fn marker_announces_its_number() {
    assert_eq!(
        default_parse("Title Episode 12.mkv"),
        vec![
            pair(ElementCategory::FileExtension, "mkv"),
            pair(ElementCategory::EpisodeNumber, "12"),
            pair(ElementCategory::AnimeTitle, "Title"),
        ]
    );
    assert_eq!(
        default_parse("Title EP12v2.mkv"),
        vec![
            pair(ElementCategory::FileExtension, "mkv"),
            pair(ElementCategory::EpisodeNumber, "12"),
            pair(ElementCategory::ReleaseVersion, "2"),
            pair(ElementCategory::AnimeTitle, "Title"),
        ]
    );
    assert_eq!(
        default_parse("Title - E05.mkv"),
        vec![
            pair(ElementCategory::FileExtension, "mkv"),
            pair(ElementCategory::EpisodeNumber, "05"),
            pair(ElementCategory::AnimeTitle, "Title"),
        ]
    );
    assert_eq!(
        default_parse("Title Vol.3 - 07.mkv"),
        vec![
            pair(ElementCategory::FileExtension, "mkv"),
            pair(ElementCategory::VolumeNumber, "3"),
            pair(ElementCategory::EpisodeNumber, "07"),
            pair(ElementCategory::AnimeTitle, "Title"),
        ]
    );
    assert_eq!(
        default_parse("Title Season 2 - 07.mkv"),
        vec![
            pair(ElementCategory::FileExtension, "mkv"),
            pair(ElementCategory::AnimeSeason, "2"),
            pair(ElementCategory::EpisodeNumber, "07"),
            pair(ElementCategory::AnimeTitle, "Title"),
        ]
    );
    assert_eq!(
        default_parse("Title S2 - 07.mkv"),
        vec![
            pair(ElementCategory::FileExtension, "mkv"),
            pair(ElementCategory::AnimeSeason, "2"),
            pair(ElementCategory::EpisodeNumber, "07"),
            pair(ElementCategory::AnimeTitle, "Title"),
        ]
    );
}

#[test]
fn marker_precedes_the_last_number() {
    let (_, elements) = parse("Title Episode 12 Part 2.mkv", &Options::default());
    assert_eq!(elements.get_all(ElementCategory::EpisodeNumber), ["12"]);
    let (_, elements) = parse("Title Volume 1 Volume 2.mkv", &Options::default());
    assert_eq!(elements.get_all(ElementCategory::VolumeNumber), ["1"]);
    assert_eq!(elements.get_all(ElementCategory::EpisodeNumber), ["2"]);
}

#[test]
fn last_free_number_is_the_episode() {
    assert_eq!(
        default_parse("Title - 01.mkv"),
        vec![
            pair(ElementCategory::FileExtension, "mkv"),
            pair(ElementCategory::EpisodeNumber, "01"),
            pair(ElementCategory::AnimeTitle, "Title"),
        ]
    );
    assert_eq!(
        default_parse("Title 3.mkv"),
        vec![
            pair(ElementCategory::FileExtension, "mkv"),
            pair(ElementCategory::EpisodeNumber, "3"),
            pair(ElementCategory::AnimeTitle, "Title"),
        ]
    );
    assert_eq!(
        default_parse("Title - 01 - Sub-Title, Part 2.mkv"),
        vec![
            pair(ElementCategory::FileExtension, "mkv"),
            pair(ElementCategory::EpisodeNumber, "2"),
            pair(ElementCategory::AnimeTitle, "Title - 01 - Sub-Title, Part"),
        ]
    );
    let (_, elements) = parse("Title [12].mkv", &Options::default());
    assert_eq!(elements.get(ElementCategory::EpisodeNumber), None);
    assert_eq!(
        default_parse("2001 A Space Odyssey.mkv"),
        vec![
            pair(ElementCategory::FileExtension, "mkv"),
            pair(ElementCategory::AnimeTitle, "2001 A Space Odyssey"),
        ]
    );
}

#[test]
fn number_behind_the_episode_is_its_alternative() {
    assert_eq!(
        default_parse("Title - 01 (176).mkv"),
        vec![
            pair(ElementCategory::FileExtension, "mkv"),
            pair(ElementCategory::EpisodeNumber, "01"),
            pair(ElementCategory::EpisodeNumberAlt, "176"),
            pair(ElementCategory::AnimeTitle, "Title"),
        ]
    );
    let (_, elements) = parse("Title - 01 (2008).mkv", &Options::default());
    assert_eq!(elements.get(ElementCategory::EpisodeNumberAlt), None);
    assert_eq!(elements.get(ElementCategory::AnimeYear), Some("2008"));
}

#[test]
fn switched_off_categories_are_not_found() {
    let name = "[TaigaSubs] Title Episode 11-12 - 13 - 01v2 EP3 - Name [THORA].mkv";
    let mut options = Options::default();
    options
        .parse_episode_number(false)
        .parse_episode_title(false)
        .parse_file_extension(false)
        .parse_release_group(false);
    let (success, elements) = parse(name, &options);
    assert!(success);
    assert_eq!(elements.count(Some(ElementCategory::EpisodeNumber)), 0);
    assert_eq!(elements.count(Some(ElementCategory::EpisodeTitle)), 0);
    assert_eq!(elements.count(Some(ElementCategory::FileExtension)), 0);
    assert_eq!(elements.count(Some(ElementCategory::ReleaseGroup)), 0);
    let (_, elements) = parse(name, &Options::default());
    assert!(elements.count(Some(ElementCategory::EpisodeNumber)) > 0);
    assert!(elements.count(Some(ElementCategory::EpisodeTitle)) > 0);
    assert!(elements.count(Some(ElementCategory::FileExtension)) > 0);
    assert!(elements.count(Some(ElementCategory::ReleaseGroup)) > 0);
}

#[test]
fn file_extension_is_known_or_short_and_alphabetic() {
    let extension = |name: &str| {
        parse(name, &Options::default())
            .1
            .get(ElementCategory::FileExtension)
            .map(|s| s.to_string())
    };
    assert_eq!(extension("Title - 01.mp4"), Some("mp4".to_string()));
    assert_eq!(extension("Title - 01.m2ts"), Some("m2ts".to_string()));
    assert_eq!(extension("Title - 01.MKV"), Some("MKV".to_string()));
    assert_eq!(extension("Title - 01.abcd"), Some("abcd".to_string()));
    assert_eq!(extension("Title - 01.abcde"), None);
    assert_eq!(extension("Title.x264"), None);
    assert_eq!(extension("Title - 01.12345"), None);
    assert_eq!(extension("Title - 01."), None);
    assert_eq!(extension("Title - 01"), None);
    assert_eq!(extension("Title.a-b"), None);
}

#[test]
fn title_ends_before_a_trailing_group() {
    assert_eq!(
        default_parse("Title (Rebuild) [Taiga_Subs].avi"),
        vec![
            pair(ElementCategory::FileExtension, "avi"),
            pair(ElementCategory::AnimeTitle, "Title (Rebuild)"),
            pair(ElementCategory::ReleaseGroup, "Taiga_Subs"),
        ]
    );
    assert_eq!(
        default_parse("a]b [c(d)e] f"),
        vec![pair(ElementCategory::AnimeTitle, "a]b [c(d)e] f")]
    );
}

#[test]
fn title_within_brackets_passes_over_the_first_group() {
    let (success, elements) = parse("[Group][Title].mkv", &Options::default());
    assert!(success);
    assert_eq!(elements.get(ElementCategory::AnimeTitle), Some("Title"));
    assert_eq!(elements.get(ElementCategory::ReleaseGroup), Some("Group"));
    let (success, elements) = parse("[Title].mkv", &Options::default());
    assert!(!success);
    assert_eq!(elements.get(ElementCategory::AnimeTitle), None);
    assert_eq!(elements.get(ElementCategory::ReleaseGroup), Some("Title"));
}

#[test]
fn empty_delimiters_keep_every_character() {
    let (success, elements) = parse("My_Title [Group_A].mkv", Options::default().allow_delimiters(&[]));
    assert!(success);
    assert_eq!(elements.get(ElementCategory::AnimeTitle), Some("My_Title"));
    assert_eq!(elements.get(ElementCategory::ReleaseGroup), Some("Group_A"));
    let (_, elements) = parse("My_Title [Group_A].mkv", &Options::default());
    assert_eq!(elements.get(ElementCategory::AnimeTitle), Some("My Title"));
    assert_eq!(elements.get(ElementCategory::ReleaseGroup), Some("Group_A"));
}

#[test]
fn options_with_nul_are_not_representable() {
    assert!(Options::default().is_representable());
    assert!(!Options::default().allow_delimiter('\0').is_representable());
    assert!(!Options::default().ignore_string("a\0b").is_representable());
    assert!(Options::default().ignore_string("ab").is_representable());
    let mut options = Options::default();
    options.ignore_strings(&["x", "y"]).parse_episode_title(false);
    assert_eq!(options.duplicate(), options);
}
