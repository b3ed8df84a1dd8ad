use anitomy::{Anitomy, ElementCategory, Options};

const BLACK_BULLET_FILENAME: &'static str =
    "[異域字幕組][漆黑的子彈][Black Bullet][11-12][1280x720][繁体].mp4";
const TORADORA_FILENAME: &'static str = "[TaigaSubs]_Toradora!_(2008)_-_01v2_-_Tiger_and_Dragon_[1280x720_H.264_FLAC][1234ABCD].mkv";

#[test]
fn lib_anitomy_new_destroy() {
    Anitomy::new();
}

#[test]
fn lib_anitomy_parse_good_input() {
    assert!(Anitomy::new().parse(BLACK_BULLET_FILENAME).is_ok());
}

#[test]
fn lib_anitomy_parse_bad_input() {
    assert!(!Anitomy::new().parse("").is_ok());
}

#[test]
fn lib_anitomy_elements_empty_good_input() {
    let elems = Anitomy::new()
        .parse(BLACK_BULLET_FILENAME)
        .expect("successfully parse filename");
    assert!(!elems.is_empty(None));
    assert!(!elems.is_empty(Some(ElementCategory::AnimeTitle)));
    assert!(elems.count(None) > 0);
    assert!(elems.count(Some(ElementCategory::AnimeTitle)) == 1);
}

#[test]
fn lib_anitomy_elements_empty_bad_input() {
    let elems = Anitomy::new()
        .parse("")
        .expect_err("fail to parse filename");
    assert!(elems.is_empty(None));
    assert!(elems.is_empty(Some(ElementCategory::AnimeTitle)));
    assert!(elems.count(None) == 0);
    assert!(elems.count(Some(ElementCategory::AnimeTitle)) == 0);
}

#[test]
fn lib_anitomy_elements_get_good_input() {
    let elems = Anitomy::new()
        .parse(BLACK_BULLET_FILENAME)
        .expect("successfully parse filename");
    assert!(elems.count(Some(ElementCategory::AnimeTitle)) == 1);
    assert_eq!(elems.get(ElementCategory::AnimeTitle), Some("Black Bullet"));
}

#[test]
fn lib_anitomy_elements_get_bad_input() {
    let elems = Anitomy::new()
        .parse("")
        .expect_err("fail to parse filename");
    assert!(elems.count(Some(ElementCategory::AnimeTitle)) == 0);
    assert_eq!(elems.get(ElementCategory::AnimeTitle), None);
}

#[test]
fn lib_anitomy_elements_get_all_good_input() {
    let elems = Anitomy::new()
        .parse(BLACK_BULLET_FILENAME)
        .expect("successfully parse filename");
    assert!(elems.count(Some(ElementCategory::EpisodeNumber)) == 2);
    assert_eq!(elems.get_all(ElementCategory::EpisodeNumber), ["11", "12"]);
}

#[test]
fn lib_anitomy_elements_get_all_bad_input() {
    let elems = Anitomy::new()
        .parse("")
        .expect_err("fail to parse filename");
    assert!(elems.count(Some(ElementCategory::EpisodeNumber)) == 0);
    assert_eq!(
        elems.get_all(ElementCategory::EpisodeNumber),
        Vec::<&str>::new()
    );
}

#[test]
fn lib_anitomy_elements_at() {
    let elems = Anitomy::new()
        .parse(BLACK_BULLET_FILENAME)
        .expect("successfully parse filename");
    let pair = &elems[0];
    assert_eq!(pair.category, ElementCategory::FileExtension);
    assert_eq!(pair.value, "mp4");
}

#[test]
fn lib_anitomy_options_allowed_delimiters() {
    let mut ani = Anitomy::new();
    let elems = ani
        .parse(TORADORA_FILENAME)
        .expect("successfully parse filename");
    assert!(elems.count(Some(ElementCategory::AnimeTitle)) == 1);
    assert_eq!(elems.get(ElementCategory::AnimeTitle), Some("Toradora!"));

    ani.set_options(Options::default().allow_delimiters(&[]));

    let elems = ani
        .parse(TORADORA_FILENAME)
        .expect("successfully parse filename");
    assert!(elems.count(Some(ElementCategory::AnimeTitle)) == 1);
    assert_eq!(elems.get(ElementCategory::AnimeTitle), Some("_Toradora!_"));
}

#[test]
fn lib_anitomy_options_ignored_strings() {
    let mut ani = Anitomy::new();
    let elems = ani
        .parse(TORADORA_FILENAME)
        .expect("successfully parse filename");
    assert!(elems.count(Some(ElementCategory::EpisodeTitle)) == 1);
    assert_eq!(
        elems.get(ElementCategory::EpisodeTitle),
        Some("Tiger and Dragon")
    );

    ani.set_options(Options::default().ignore_string("Dragon"));

    let elems = ani
        .parse(TORADORA_FILENAME)
        .expect("successfully parse filename");
    assert!(elems.count(Some(ElementCategory::EpisodeTitle)) == 1);
    assert_eq!(elems.get(ElementCategory::EpisodeTitle), Some("Tiger and"));
}

#[test]
fn lib_anitomy_options_parse_episode_number() {
    let mut ani = Anitomy::new();
    let elems = ani
        .parse(TORADORA_FILENAME)
        .expect("successfully parse filename");
    assert!(elems.count(Some(ElementCategory::EpisodeNumber)) == 1);

    ani.set_options(Options::default().parse_episode_number(false));

    let elems = ani
        .parse(TORADORA_FILENAME)
        .expect("successfully parse filename");
    assert!(elems.count(Some(ElementCategory::EpisodeNumber)) == 0);
}

#[test]
fn lib_anitomy_options_parse_episode_title() {
    let mut ani = Anitomy::new();
    let elems = ani
        .parse(TORADORA_FILENAME)
        .expect("successfully parse filename");
    assert!(elems.count(Some(ElementCategory::EpisodeTitle)) == 1);

    ani.set_options(Options::default().parse_episode_title(false));

    let elems = ani
        .parse(TORADORA_FILENAME)
        .expect("successfully parse filename");
    assert!(elems.count(Some(ElementCategory::EpisodeTitle)) == 0);
}

#[test]
fn lib_anitomy_options_parse_file_extension() {
    let mut ani = Anitomy::new();
    let elems = ani
        .parse(TORADORA_FILENAME)
        .expect("successfully parse filename");
    assert!(elems.count(Some(ElementCategory::FileExtension)) == 1);

    ani.set_options(Options::default().parse_file_extension(false));

    let elems = ani
        .parse(TORADORA_FILENAME)
        .expect("successfully parse filename");
    assert!(elems.count(Some(ElementCategory::FileExtension)) == 0);
}

#[test]
fn lib_anitomy_options_parse_release_group() {
    let mut ani = Anitomy::new();
    let elems = ani
        .parse(TORADORA_FILENAME)
        .expect("successfully parse filename");
    assert!(elems.count(Some(ElementCategory::ReleaseGroup)) == 1);

    ani.set_options(Options::default().parse_release_group(false));

    let elems = ani
        .parse(TORADORA_FILENAME)
        .expect("successfully parse filename");
    assert!(elems.count(Some(ElementCategory::ReleaseGroup)) == 0);
}
