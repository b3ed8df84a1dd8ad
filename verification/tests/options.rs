use anitomy::{ElementCategory, Findings, Options};

#[test]
fn options_default_values() {
    let options = Options::default();
    assert_eq!(options.allowed_delimiters, vec![' ', '_', '.', '&', '+', ',', '|']);
    assert!(options.ignored_strings.is_empty());
    assert!(options.parse_episode_number);
    assert!(options.parse_episode_title);
    assert!(options.parse_file_extension);
    assert!(options.parse_release_group);
}

#[test]
fn options_builders_chain() {
    let mut options = Options::default();
    options
        .allow_delimiters(&[' '])
        .allow_delimiter('_')
        .ignore_string("Dragon")
        .parse_episode_number(false)
        .parse_episode_title(false)
        .parse_file_extension(false)
        .parse_release_group(false);
    assert_eq!(options.allowed_delimiters, vec![' ', '_']);
    assert_eq!(options.ignored_strings, vec!["Dragon".to_string()]);
    assert!(!options.parse_episode_number);
    assert!(!options.parse_episode_title);
    assert!(!options.parse_file_extension);
    assert!(!options.parse_release_group);
}

#[test]
fn elements_queries_keep_discovery_order() {
    let mut findings = Findings::new();
    assert!(findings.is_empty(None));
    findings.push(ElementCategory::EpisodeNumber, "11".to_string());
    findings.push(ElementCategory::AnimeTitle, "Black Bullet".to_string());
    findings.push(ElementCategory::EpisodeNumber, "12".to_string());
    assert!(!findings.is_empty(Some(ElementCategory::AnimeTitle)));
    assert!(findings.is_empty(Some(ElementCategory::ReleaseGroup)));
    let elements = findings.finish();
    assert_eq!(elements.count(None), 3);
    assert_eq!(elements.count(Some(ElementCategory::EpisodeNumber)), 2);
    assert_eq!(elements.get(ElementCategory::EpisodeNumber), Some("11"));
    assert_eq!(elements.get_all(ElementCategory::EpisodeNumber), ["11", "12"]);
    assert_eq!(elements.get(ElementCategory::ReleaseGroup), None);
    assert!(elements.is_empty(Some(ElementCategory::ReleaseGroup)));
    assert_eq!(elements[1].value, "Black Bullet");
}

#[test]
fn category_codes_go_both_ways() {
    let all = [
        ElementCategory::AnimeSeason,
        ElementCategory::AnimeSeasonPrefix,
        ElementCategory::AnimeTitle,
        ElementCategory::AnimeType,
        ElementCategory::AnimeYear,
        ElementCategory::AudioTerm,
        ElementCategory::DeviceCompatibility,
        ElementCategory::EpisodeNumber,
        ElementCategory::EpisodeNumberAlt,
        ElementCategory::EpisodePrefix,
        ElementCategory::EpisodeTitle,
        ElementCategory::FileChecksum,
        ElementCategory::FileExtension,
        ElementCategory::FileName,
        ElementCategory::Language,
        ElementCategory::Other,
        ElementCategory::ReleaseGroup,
        ElementCategory::ReleaseInformation,
        ElementCategory::ReleaseVersion,
        ElementCategory::Source,
        ElementCategory::Subtitles,
        ElementCategory::VideoResolution,
        ElementCategory::VideoTerm,
        ElementCategory::VolumeNumber,
        ElementCategory::VolumePrefix,
        ElementCategory::Unknown,
    ];
    for (position, category) in all.iter().enumerate() {
        assert_eq!(category.code(), position as i32);
        assert_eq!(ElementCategory::from(category.code()), *category);
    }
    assert_eq!(ElementCategory::AnimeTitle.code(), 2);
    assert_eq!(ElementCategory::FileExtension.code(), 12);
    assert_eq!(ElementCategory::from(26), ElementCategory::Unknown);
    assert_eq!(ElementCategory::from(-1), ElementCategory::Unknown);
}

#[test]
fn element_at_a_position() {
    let mut findings = Findings::new();
    findings.push(ElementCategory::FileExtension, "mp4".to_string());
    let elements = findings.finish();
    let first = elements.at(0).expect("at least one element");
    assert_eq!(first.category, ElementCategory::FileExtension);
    assert_eq!(first.value, "mp4");
    assert!(elements.at(1).is_none());
}

#[test]
fn options_new_takes_every_setting() {
    let options = Options::new(&['-'], &["a", "b"], false, true, false, true);
    assert_eq!(options.allowed_delimiters, vec!['-']);
    assert_eq!(options.ignored_strings, vec!["a".to_string(), "b".to_string()]);
    assert!(!options.parse_episode_number);
    assert!(options.parse_episode_title);
    assert!(!options.parse_file_extension);
    assert!(options.parse_release_group);
}
