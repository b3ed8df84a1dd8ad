use anitomy::{parse, Anitomy, ElementCategory, Elements, Options};

const BLACK_BULLET_FILENAME: &'static str =
    "[異域字幕組][漆黑的子彈][Black Bullet][11-12][1280x720][繁体].mp4";
const TORADORA_FILENAME: &'static str = "[TaigaSubs]_Toradora!_(2008)_-_01v2_-_Tiger_and_Dragon_[1280x720_H.264_FLAC][1234ABCD].mkv";

fn pairs(elements: &Elements) -> Vec<(ElementCategory, String)> {
    elements
        .iterate()
        .iter()
        .map(|e| (e.category, e.value.clone()))
        .collect()
}

fn pair(category: ElementCategory, value: &str) -> (ElementCategory, String) {
    (category, value.to_string())
}

#[test]
fn ffi_anitomy_new_destroy() {
    let ani = Anitomy::new();
    drop(ani);
}

#[test]
fn anitomy_elements_not_null() {
    let mut ani = Anitomy::new();
    let elements = ani.parse("").expect_err("fail to parse filename");
    assert!(elements.is_empty(None));
    assert_eq!(elements.count(None), 0);
    assert!(elements.iterate().is_empty());
}

#[test]
fn anitomy_options_not_null() {
    let ani = Anitomy::new();
    assert_eq!(ani.options(), &Options::default());
    assert!(ani.dictionary().len() > 0);
}

#[test]
fn ffi_anitomy_parse_good_input() {
    let (success, _) = parse(BLACK_BULLET_FILENAME, &Options::default());
    assert!(success);
}

#[test]
fn ffi_anitomy_parse_bad_input() {
    let (success, _) = parse("", &Options::default());
    assert!(!success);
}

#[test]
fn ffi_anitomy_elements_empty_good_input() {
    let (success, elems) = parse(BLACK_BULLET_FILENAME, &Options::default());
    assert!(success);
    assert!(!elems.is_empty(None));
    assert!(!elems.is_empty(Some(ElementCategory::AnimeTitle)));
    assert!(elems.count(None) > 0);
    assert!(elems.count(Some(ElementCategory::AnimeTitle)) == 1);
}

#[test]
fn ffi_anitomy_elements_empty_bad_input() {
    let (success, elems) = parse("", &Options::default());
    assert!(!success);
    assert!(elems.is_empty(None));
    assert!(elems.is_empty(Some(ElementCategory::AnimeTitle)));
    assert!(elems.count(None) == 0);
    assert!(elems.count(Some(ElementCategory::AnimeTitle)) == 0);
}

#[test]
fn ffi_anitomy_elements_get_good_input() {
    let (success, elems) = parse(BLACK_BULLET_FILENAME, &Options::default());
    assert!(success);
    assert!(elems.count(Some(ElementCategory::AnimeTitle)) == 1);
    assert_eq!(elems.get(ElementCategory::AnimeTitle), Some("Black Bullet"));
}

#[test]
fn ffi_anitomy_elements_get_bad_input() {
    let (success, elems) = parse("", &Options::default());
    assert!(!success);
    assert!(elems.count(Some(ElementCategory::AnimeTitle)) == 0);
    assert_eq!(elems.get(ElementCategory::AnimeTitle), None);
}

#[test]
fn ffi_anitomy_elements_get_all_good_input() {
    let (success, elems) = parse(BLACK_BULLET_FILENAME, &Options::default());
    assert!(success);
    assert!(elems.count(Some(ElementCategory::EpisodeNumber)) == 2);
    let all = elems.get_all(ElementCategory::EpisodeNumber);
    assert!(all.len() == 2);
    assert_eq!(all, ["11", "12"]);
}

#[test]
fn ffi_anitomy_elements_get_all_bad_input() {
    let (success, elems) = parse("", &Options::default());
    assert!(!success);
    assert!(elems.count(Some(ElementCategory::EpisodeNumber)) == 0);
    assert!(elems.get_all(ElementCategory::EpisodeNumber).len() == 0);
}

#[test]
fn ffi_anitomy_elements_at() {
    let (success, elems) = parse(BLACK_BULLET_FILENAME, &Options::default());
    assert!(success);
    assert!(elems.count(None) > 0);
    let pair = &elems.iterate()[0];
    assert_eq!(pair.category, ElementCategory::FileExtension);
    assert_eq!(pair.value, "mp4");
}

#[test]
fn ffi_anitomy_options_allowed_delimiters() {
    let (success, elems) = parse(TORADORA_FILENAME, &Options::default());
    assert!(success);
    assert!(elems.count(Some(ElementCategory::AnimeTitle)) == 1);
    assert_eq!(elems.get(ElementCategory::AnimeTitle), Some("Toradora!"));

    let (success, elems) = parse(TORADORA_FILENAME, Options::default().allow_delimiters(&[]));
    assert!(success);
    assert!(elems.count(Some(ElementCategory::AnimeTitle)) == 1);
    assert_eq!(elems.get(ElementCategory::AnimeTitle), Some("_Toradora!_"));
}

#[test]
fn ffi_anitomy_options_ignored_strings() {
    let (success, elems) = parse(TORADORA_FILENAME, &Options::default());
    assert!(success);
    assert!(elems.count(Some(ElementCategory::EpisodeTitle)) == 1);
    assert_eq!(elems.get(ElementCategory::EpisodeTitle), Some("Tiger and Dragon"));

    let (success, elems) = parse(TORADORA_FILENAME, Options::default().ignore_strings(&["Dragon"]));
    assert!(success);
    assert!(elems.count(Some(ElementCategory::EpisodeTitle)) == 1);
    assert_eq!(elems.get(ElementCategory::EpisodeTitle), Some("Tiger and"));
}

#[test]
fn ffi_anitomy_options_parse_episode_number() {
    let (success, elems) = parse(TORADORA_FILENAME, &Options::default());
    assert!(success);
    assert!(elems.count(Some(ElementCategory::EpisodeNumber)) == 1);

    let (success, elems) = parse(TORADORA_FILENAME, Options::default().parse_episode_number(false));
    assert!(success);
    assert!(elems.count(Some(ElementCategory::EpisodeNumber)) == 0);
}

#[test]
fn ffi_anitomy_options_parse_episode_title() {
    let (success, elems) = parse(TORADORA_FILENAME, &Options::default());
    assert!(success);
    assert!(elems.count(Some(ElementCategory::EpisodeTitle)) == 1);

    let (success, elems) = parse(TORADORA_FILENAME, Options::default().parse_episode_title(false));
    assert!(success);
    assert!(elems.count(Some(ElementCategory::EpisodeTitle)) == 0);
}

#[test]
fn ffi_anitomy_options_parse_file_extension() {
    let (success, elems) = parse(TORADORA_FILENAME, &Options::default());
    assert!(success);
    assert!(elems.count(Some(ElementCategory::FileExtension)) == 1);

    let (success, elems) = parse(TORADORA_FILENAME, Options::default().parse_file_extension(false));
    assert!(success);
    assert!(elems.count(Some(ElementCategory::FileExtension)) == 0);
}

#[test]
fn ffi_anitomy_options_parse_release_group() {
    let (success, elems) = parse(TORADORA_FILENAME, &Options::default());
    assert!(success);
    assert!(elems.count(Some(ElementCategory::ReleaseGroup)) == 1);

    let (success, elems) = parse(TORADORA_FILENAME, Options::default().parse_release_group(false));
    assert!(success);
    assert!(elems.count(Some(ElementCategory::ReleaseGroup)) == 0);
}

#[test]
fn black_bullet_elements_in_discovery_order() {
    let (success, elems) = parse("[Group][Black Bullet][11-12][1280x720].mp4", &Options::default());
    assert!(success);
    assert_eq!(
        pairs(&elems),
        vec![
            pair(ElementCategory::FileExtension, "mp4"),
            pair(ElementCategory::FileName, "[Group][Black Bullet][11-12][1280x720]"),
            pair(ElementCategory::VideoResolution, "1280x720"),
            pair(ElementCategory::EpisodeNumber, "11"),
            pair(ElementCategory::EpisodeNumber, "12"),
            pair(ElementCategory::AnimeTitle, "Black Bullet"),
            pair(ElementCategory::ReleaseGroup, "Group"),
        ]
    );
}

#[test]
fn toradora_elements_in_discovery_order() {
    let (success, elems) = parse(TORADORA_FILENAME, &Options::default());
    assert!(success);
    assert_eq!(
        pairs(&elems),
        vec![
            pair(ElementCategory::FileExtension, "mkv"),
            pair(
                ElementCategory::FileName,
                "[TaigaSubs]_Toradora!_(2008)_-_01v2_-_Tiger_and_Dragon_[1280x720_H.264_FLAC][1234ABCD]"
            ),
            pair(ElementCategory::FileChecksum, "1234ABCD"),
            pair(ElementCategory::VideoResolution, "1280x720"),
            pair(ElementCategory::VideoTerm, "H.264"),
            pair(ElementCategory::AudioTerm, "FLAC"),
            pair(ElementCategory::AnimeYear, "2008"),
            pair(ElementCategory::EpisodeNumber, "01"),
            pair(ElementCategory::ReleaseVersion, "2"),
            pair(ElementCategory::AnimeTitle, "Toradora!"),
            pair(ElementCategory::ReleaseGroup, "TaigaSubs"),
            pair(ElementCategory::EpisodeTitle, "Tiger and Dragon"),
        ]
    );
}

#[test]
fn parse_is_repeatable() {
    let options = Options::default();
    let first = parse(TORADORA_FILENAME, &options);
    let second = parse(TORADORA_FILENAME, &options);
    assert_eq!(first.0, second.0);
    assert_eq!(first.1, second.1);
    let mut ani = Anitomy::new();
    let third = ani.parse(TORADORA_FILENAME).expect("successfully parse filename");
    let fourth = ani.parse(TORADORA_FILENAME).expect("successfully parse filename");
    assert_eq!(third, fourth);
    assert_eq!(third, first.1);
}

#[test]
fn extension_alone_is_no_title() {
    let (success, elems) = parse(".mkv", &Options::default());
    assert!(!success);
    assert_eq!(pairs(&elems), vec![pair(ElementCategory::FileExtension, "mkv")]);
}

#[test]
fn keywords_alone_are_no_title() {
    let (success, elems) = parse("[720p][FLAC].mkv", &Options::default());
    assert!(!success);
    assert!(elems.is_empty(Some(ElementCategory::AnimeTitle)));
    assert_eq!(elems.get(ElementCategory::VideoResolution), Some("720p"));
    assert_eq!(elems.get(ElementCategory::AudioTerm), Some("FLAC"));
}

#[test]
fn first_elements_spell_the_name_again() {
    let (_, elems) = parse(TORADORA_FILENAME, Options::default().ignore_string("Dragon"));
    let all = elems.iterate();
    assert_eq!(all[0].category, ElementCategory::FileExtension);
    assert_eq!(all[1].category, ElementCategory::FileName);
    assert_eq!(
        format!("{}.{}", all[1].value, all[0].value),
        "[TaigaSubs]_Toradora!_(2008)_-_01v2_-_Tiger_and__[1280x720_H.264_FLAC][1234ABCD].mkv"
    );
    let (_, elems) = parse(TORADORA_FILENAME, Options::default().parse_file_extension(false));
    assert_eq!(elems.iterate()[0].category, ElementCategory::FileName);
    assert_eq!(elems.iterate()[0].value, TORADORA_FILENAME);
}

#[test]
fn ignored_string_is_taken_out_once() {
    let (_, elems) = parse("Dragon Dragon - 01.mkv", Options::default().ignore_string("Dragon"));
    assert_eq!(elems.get(ElementCategory::FileName), Some(" Dragon - 01"));
    assert_eq!(elems.get(ElementCategory::AnimeTitle), Some("Dragon"));
    let (_, elems) = parse("Dragon Dragon - 01.mkv", Options::default().ignore_string("dragon"));
    assert_eq!(elems.get(ElementCategory::FileName), Some("Dragon Dragon - 01"));
}
