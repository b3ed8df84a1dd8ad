//! The keyword dictionary: the fixed vocabulary of file names, as a table
//! that can be read, extended and replaced.
use vstd::prelude::*;
use crate::category::ElementCategory;
use crate::text::{chars_of, same_chars, to_upper_word, upper_word};

verus! {

/// What a keyword stands for, and where it counts.
#[derive(Debug, Copy, Clone, PartialEq, Eq)]
pub struct Rule {
    /// The category of the element that the keyword gives.
    pub category: ElementCategory,
    /// The keyword counts only within brackets.
    pub enclosed_only: bool,
    /// The keyword counts only where a delimiter follows it.
    pub before_delimiter: bool,
}

/// One entry of the dictionary.
#[derive(Debug, Clone, PartialEq, Eq)]
pub struct Keyword {
    /// The keyword, in upper case.
    pub word: Vec<char>,
    pub rule: Rule,
}

/// What an entry is in contracts.
pub struct KeywordView {
    pub word: Seq<char>,
    pub rule: Rule,
}

impl View for Keyword {
    type V = KeywordView;

    open spec fn view(&self) -> KeywordView {
        KeywordView { word: self.word@, rule: self.rule }
    }
}

/// The views of the entries, in the same order.
pub open spec fn keyword_views(entries: Seq<Keyword>) -> Seq<KeywordView> {
    entries.map_values(|k: Keyword| k@)
}

/// The rule of a keyword that counts wherever it stands.
#[verifier::allow_in_spec]
pub fn plain_rule(category: ElementCategory) -> Rule
    returns
        (Rule { category, enclosed_only: false, before_delimiter: false }),
{
    Rule { category, enclosed_only: false, before_delimiter: false }
}

/// The rule of a keyword that counts only within brackets.
#[verifier::allow_in_spec]
pub fn guarded_rule(category: ElementCategory) -> Rule
    returns
        (Rule { category, enclosed_only: true, before_delimiter: false }),
{
    Rule { category, enclosed_only: true, before_delimiter: false }
}

/// The rule of a keyword that counts only where a delimiter follows it.
#[verifier::allow_in_spec]
pub fn marker_rule(category: ElementCategory) -> Rule
    returns
        (Rule { category, enclosed_only: false, before_delimiter: true }),
{
    Rule { category, enclosed_only: false, before_delimiter: true }
}

/// The entry for `word` with a plain rule.
pub open spec fn plain(word: &str, category: ElementCategory) -> KeywordView {
    KeywordView { word: upper_word(word@), rule: plain_rule(category) }
}

/// The entry for `word` with a guarded rule.
pub open spec fn guarded(word: &str, category: ElementCategory) -> KeywordView {
    KeywordView { word: upper_word(word@), rule: guarded_rule(category) }
}

/// The entry for `word` with a marker's rule.
pub open spec fn marker(word: &str, category: ElementCategory) -> KeywordView {
    KeywordView { word: upper_word(word@), rule: marker_rule(category) }
}

/// The rule of the first entry from `from` on whose keyword is `word`. With
/// `extension` set only the entries for file extensions are read, without it
/// only the others: an earlier entry wins over a later one.
pub open spec fn lookup(table: Seq<KeywordView>, word: Seq<char>, extension: bool, from: int) -> Option<
    Rule,
>
    decreases table.len() - from,
{
    if from < 0 || from >= table.len() {
        None
    } else if table[from].word == word && (table[from].rule.category
        == ElementCategory::FileExtension) == extension {
        Some(table[from].rule)
    } else {
        lookup(table, word, extension, from + 1)
    }
}

/// The keywords of file names, in the order in which they are tried.
#[derive(Debug, Clone, PartialEq, Eq)]
pub struct Dictionary {
    entries: Vec<Keyword>,
}

impl View for Dictionary {
    type V = Seq<KeywordView>;

    closed spec fn view(&self) -> Seq<KeywordView> {
        keyword_views(self.entries@)
    }
}

impl Dictionary {
    /// A dictionary without entries.
    pub fn new() -> (r: Self)
        ensures
            r@ == Seq::<KeywordView>::empty(),
    {
        let r = Dictionary { entries: Vec::new() };
        assert(r@ =~= Seq::<KeywordView>::empty());
        r
    }

    /// Appends an entry for `word`, which is kept in upper case. The entries
    /// that stand before it keep their place, and win over it.
    pub fn insert(&mut self, word: &str, rule: Rule)
        ensures
            final(self)@ == old(self)@.push(KeywordView { word: upper_word(word@), rule }),
    {
        let chars = chars_of(word);
        let keyword = Keyword { word: to_upper_word(chars.as_slice()), rule };
        let ghost before = self.entries@;
        self.entries.push(keyword);
        assert(keyword_views(self.entries@) =~= keyword_views(before).push(keyword@));
    }

    /// The number of entries.
    pub fn len(&self) -> (r: usize)
        ensures
            r == self@.len(),
    {
        self.entries.len()
    }

    /// Looks `word` up, whatever its case, among the keywords (`extension`
    /// not set) or among the file extensions (`extension` set).
    pub fn find(&self, word: &[char], extension: bool) -> (r: Option<Rule>)
        ensures
            r == lookup(self@, upper_word(word@), extension, 0),
    {
        let wanted = to_upper_word(word);
        let mut i: usize = 0;
        while i < self.entries.len()
            invariant
                i <= self.entries@.len(),
                wanted@ == upper_word(word@),
                lookup(self@, wanted@, extension, 0) == lookup(self@, wanted@, extension, i as int),
            decreases self.entries@.len() - i,
        {
            let entry = &self.entries[i];
            assert(self@[i as int] == entry@);
            let is_extension = entry.rule.category == ElementCategory::FileExtension;
            if is_extension == extension && same_chars(entry.word.as_slice(), wanted.as_slice()) {
                return Some(entry.rule);
            }
            i += 1;
        }
        None
    }
}

impl Default for Dictionary {
    /// The dictionary that the parser uses: [`default_keywords`].
    fn default() -> (r: Self)
        ensures
            r@ == default_keywords(),
    {
        let mut table = Dictionary::new();
        add_sources(&mut table);
        add_devices(&mut table);
        add_audio_terms(&mut table);
        add_video_terms(&mut table);
        add_anime_types(&mut table);
        add_languages(&mut table);
        add_subtitles(&mut table);
        add_release_terms(&mut table);
        add_markers(&mut table);
        add_other_terms(&mut table);
        add_extensions(&mut table);
        table
    }
}

/// The keywords that the parser knows, in the order in which they are tried:
/// sources, devices, audio and video terms first, the generic terms late,
/// and the file extensions, which are looked up apart, last.
pub open spec fn default_keywords() -> Seq<KeywordView> {
    with_extensions(with_other_terms(with_markers(with_release_terms(with_subtitles(with_languages(with_anime_types(with_video_terms(with_audio_terms(with_devices(with_sources(Seq::empty())))))))))))
}

/// Where a release was taken from.
pub open spec fn with_sources(base: Seq<KeywordView>) -> Seq<KeywordView> {
    base
        .push(plain("BD", ElementCategory::Source))
        .push(plain("BDRIP", ElementCategory::Source))
        .push(plain("BLURAY", ElementCategory::Source))
        .push(plain("BLU-RAY", ElementCategory::Source))
        .push(plain("DVD", ElementCategory::Source))
        .push(plain("DVD5", ElementCategory::Source))
        .push(plain("DVD9", ElementCategory::Source))
        .push(plain("DVD-R2J", ElementCategory::Source))
        .push(plain("DVDRIP", ElementCategory::Source))
        .push(plain("DVD-RIP", ElementCategory::Source))
        .push(plain("R2DVD", ElementCategory::Source))
        .push(plain("R2J", ElementCategory::Source))
        .push(plain("R2JDVD", ElementCategory::Source))
        .push(plain("R2JDVDRIP", ElementCategory::Source))
        .push(plain("HDTV", ElementCategory::Source))
        .push(plain("HDTVRIP", ElementCategory::Source))
        .push(plain("TVRIP", ElementCategory::Source))
        .push(plain("TV-RIP", ElementCategory::Source))
        .push(plain("WEBCAST", ElementCategory::Source))
        .push(plain("WEBRIP", ElementCategory::Source))
}

/// The devices a release was made for.
pub open spec fn with_devices(base: Seq<KeywordView>) -> Seq<KeywordView> {
    base
        .push(plain("IPAD3", ElementCategory::DeviceCompatibility))
        .push(plain("IPHONE5", ElementCategory::DeviceCompatibility))
        .push(plain("IPOD", ElementCategory::DeviceCompatibility))
        .push(plain("PS3", ElementCategory::DeviceCompatibility))
        .push(plain("XBOX", ElementCategory::DeviceCompatibility))
        .push(plain("XBOX360", ElementCategory::DeviceCompatibility))
        .push(guarded("ANDROID", ElementCategory::DeviceCompatibility))
}

/// Audio channels, codecs and tracks.
pub open spec fn with_audio_terms(base: Seq<KeywordView>) -> Seq<KeywordView> {
    base
        .push(plain("2.0CH", ElementCategory::AudioTerm))
        .push(plain("2CH", ElementCategory::AudioTerm))
        .push(plain("5.1", ElementCategory::AudioTerm))
        .push(plain("5.1CH", ElementCategory::AudioTerm))
        .push(plain("DTS", ElementCategory::AudioTerm))
        .push(plain("DTS-ES", ElementCategory::AudioTerm))
        .push(plain("DTS5.1", ElementCategory::AudioTerm))
        .push(plain("TRUEHD5.1", ElementCategory::AudioTerm))
        .push(plain("AAC", ElementCategory::AudioTerm))
        .push(plain("AACX2", ElementCategory::AudioTerm))
        .push(plain("AACX3", ElementCategory::AudioTerm))
        .push(plain("AACX4", ElementCategory::AudioTerm))
        .push(plain("AC3", ElementCategory::AudioTerm))
        .push(plain("EAC3", ElementCategory::AudioTerm))
        .push(plain("E-AC-3", ElementCategory::AudioTerm))
        .push(plain("FLAC", ElementCategory::AudioTerm))
        .push(plain("FLACX2", ElementCategory::AudioTerm))
        .push(plain("FLACX3", ElementCategory::AudioTerm))
        .push(plain("FLACX4", ElementCategory::AudioTerm))
        .push(plain("LOSSLESS", ElementCategory::AudioTerm))
        .push(plain("MP3", ElementCategory::AudioTerm))
        .push(plain("OGG", ElementCategory::AudioTerm))
        .push(plain("VORBIS", ElementCategory::AudioTerm))
        .push(plain("DUALAUDIO", ElementCategory::AudioTerm))
        .push(plain("DUAL AUDIO", ElementCategory::AudioTerm))
}

/// Frame rates, video codecs, formats and qualities.
pub open spec fn with_video_terms(base: Seq<KeywordView>) -> Seq<KeywordView> {
    base
        .push(plain("23.976FPS", ElementCategory::VideoTerm))
        .push(plain("24FPS", ElementCategory::VideoTerm))
        .push(plain("29.97FPS", ElementCategory::VideoTerm))
        .push(plain("30FPS", ElementCategory::VideoTerm))
        .push(plain("60FPS", ElementCategory::VideoTerm))
        .push(plain("120FPS", ElementCategory::VideoTerm))
        .push(plain("8BIT", ElementCategory::VideoTerm))
        .push(plain("8-BIT", ElementCategory::VideoTerm))
        .push(plain("10BIT", ElementCategory::VideoTerm))
        .push(plain("10BITS", ElementCategory::VideoTerm))
        .push(plain("10-BIT", ElementCategory::VideoTerm))
        .push(plain("10-BITS", ElementCategory::VideoTerm))
        .push(plain("HI10", ElementCategory::VideoTerm))
        .push(plain("HI10P", ElementCategory::VideoTerm))
        .push(plain("HI444", ElementCategory::VideoTerm))
        .push(plain("HI444P", ElementCategory::VideoTerm))
        .push(plain("HI444PP", ElementCategory::VideoTerm))
        .push(plain("H264", ElementCategory::VideoTerm))
        .push(plain("H265", ElementCategory::VideoTerm))
        .push(plain("H.264", ElementCategory::VideoTerm))
        .push(plain("H.265", ElementCategory::VideoTerm))
        .push(plain("X264", ElementCategory::VideoTerm))
        .push(plain("X265", ElementCategory::VideoTerm))
        .push(plain("X.264", ElementCategory::VideoTerm))
        .push(plain("AVC", ElementCategory::VideoTerm))
        .push(plain("HEVC", ElementCategory::VideoTerm))
        .push(plain("HEVC2", ElementCategory::VideoTerm))
        .push(plain("DIVX", ElementCategory::VideoTerm))
        .push(plain("DIVX5", ElementCategory::VideoTerm))
        .push(plain("DIVX6", ElementCategory::VideoTerm))
        .push(plain("XVID", ElementCategory::VideoTerm))
        .push(plain("AV1", ElementCategory::VideoTerm))
        .push(plain("AVI", ElementCategory::VideoTerm))
        .push(plain("RMVB", ElementCategory::VideoTerm))
        .push(plain("WMV", ElementCategory::VideoTerm))
        .push(plain("WMV3", ElementCategory::VideoTerm))
        .push(plain("WMV9", ElementCategory::VideoTerm))
        .push(plain("HQ", ElementCategory::VideoTerm))
        .push(plain("LQ", ElementCategory::VideoTerm))
        .push(plain("HD", ElementCategory::VideoTerm))
        .push(plain("SD", ElementCategory::VideoTerm))
}

/// The kinds of work. Those that are words of many titles count only within brackets.
pub open spec fn with_anime_types(base: Seq<KeywordView>) -> Seq<KeywordView> {
    base
        .push(guarded("GEKIJOUBAN", ElementCategory::AnimeType))
        .push(guarded("MOVIE", ElementCategory::AnimeType))
        .push(guarded("OAD", ElementCategory::AnimeType))
        .push(guarded("OAV", ElementCategory::AnimeType))
        .push(guarded("ONA", ElementCategory::AnimeType))
        .push(guarded("OVA", ElementCategory::AnimeType))
        .push(guarded("SPECIAL", ElementCategory::AnimeType))
        .push(guarded("SPECIALS", ElementCategory::AnimeType))
        .push(guarded("TV", ElementCategory::AnimeType))
        .push(guarded("SP", ElementCategory::AnimeType))
        .push(plain("ED", ElementCategory::AnimeType))
        .push(plain("ENDING", ElementCategory::AnimeType))
        .push(plain("NCED", ElementCategory::AnimeType))
        .push(plain("NCOP", ElementCategory::AnimeType))
        .push(plain("OP", ElementCategory::AnimeType))
        .push(plain("OPENING", ElementCategory::AnimeType))
        .push(plain("PREVIEW", ElementCategory::AnimeType))
        .push(plain("PV", ElementCategory::AnimeType))
}

/// Languages. The short forms that are also words count only within brackets.
pub open spec fn with_languages(base: Seq<KeywordView>) -> Seq<KeywordView> {
    base
        .push(plain("ENG", ElementCategory::Language))
        .push(plain("ENGLISH", ElementCategory::Language))
        .push(plain("ESPANOL", ElementCategory::Language))
        .push(plain("JAP", ElementCategory::Language))
        .push(plain("PT-BR", ElementCategory::Language))
        .push(plain("SPANISH", ElementCategory::Language))
        .push(plain("VOSTFR", ElementCategory::Language))
        .push(guarded("ESP", ElementCategory::Language))
        .push(guarded("ITA", ElementCategory::Language))
}

/// Kinds of subtitles.
pub open spec fn with_subtitles(base: Seq<KeywordView>) -> Seq<KeywordView> {
    base
        .push(plain("ASS", ElementCategory::Subtitles))
        .push(plain("BIG5", ElementCategory::Subtitles))
        .push(plain("DUB", ElementCategory::Subtitles))
        .push(plain("DUBBED", ElementCategory::Subtitles))
        .push(plain("HARDSUB", ElementCategory::Subtitles))
        .push(plain("HARDSUBS", ElementCategory::Subtitles))
        .push(plain("RAW", ElementCategory::Subtitles))
        .push(plain("SOFTSUB", ElementCategory::Subtitles))
        .push(plain("SOFTSUBS", ElementCategory::Subtitles))
        .push(plain("SUB", ElementCategory::Subtitles))
        .push(plain("SUBBED", ElementCategory::Subtitles))
        .push(plain("SUBTITLED", ElementCategory::Subtitles))
}

/// Release information, release versions and the one release group that is known by name.
pub open spec fn with_release_terms(base: Seq<KeywordView>) -> Seq<KeywordView> {
    base
        .push(plain("BATCH", ElementCategory::ReleaseInformation))
        .push(plain("COMPLETE", ElementCategory::ReleaseInformation))
        .push(plain("PATCH", ElementCategory::ReleaseInformation))
        .push(plain("REMUX", ElementCategory::ReleaseInformation))
        .push(guarded("END", ElementCategory::ReleaseInformation))
        .push(guarded("FINAL", ElementCategory::ReleaseInformation))
        .push(plain("V0", ElementCategory::ReleaseVersion))
        .push(plain("V1", ElementCategory::ReleaseVersion))
        .push(plain("V2", ElementCategory::ReleaseVersion))
        .push(plain("V3", ElementCategory::ReleaseVersion))
        .push(plain("V4", ElementCategory::ReleaseVersion))
        .push(plain("THORA", ElementCategory::ReleaseGroup))
}

/// The words that announce an episode, a volume or a season number.
pub open spec fn with_markers(base: Seq<KeywordView>) -> Seq<KeywordView> {
    base
        .push(marker("EP", ElementCategory::EpisodePrefix))
        .push(marker("EPS", ElementCategory::EpisodePrefix))
        .push(marker("EPISODE", ElementCategory::EpisodePrefix))
        .push(marker("EPISODES", ElementCategory::EpisodePrefix))
        .push(marker("CAPITULO", ElementCategory::EpisodePrefix))
        .push(marker("EPISODIO", ElementCategory::EpisodePrefix))
        .push(marker("FOLGE", ElementCategory::EpisodePrefix))
        .push(marker("E", ElementCategory::EpisodePrefix))
        .push(marker("VOL", ElementCategory::VolumePrefix))
        .push(marker("VOLUME", ElementCategory::VolumePrefix))
        .push(marker("SAISON", ElementCategory::AnimeSeasonPrefix))
        .push(marker("SEASON", ElementCategory::AnimeSeasonPrefix))
        .push(marker("S", ElementCategory::AnimeSeasonPrefix))
}

/// Generic terms. They come after the terms above, which win a tie.
pub open spec fn with_other_terms(base: Seq<KeywordView>) -> Seq<KeywordView> {
    base
        .push(plain("REMASTER", ElementCategory::Other))
        .push(plain("REMASTERED", ElementCategory::Other))
        .push(plain("UNCENSORED", ElementCategory::Other))
        .push(plain("UNCUT", ElementCategory::Other))
        .push(plain("TS", ElementCategory::Other))
        .push(plain("VFR", ElementCategory::Other))
        .push(plain("WIDESCREEN", ElementCategory::Other))
        .push(plain("WS", ElementCategory::Other))
}

/// The file extensions that need not be made of letters alone to be known.
pub open spec fn with_extensions(base: Seq<KeywordView>) -> Seq<KeywordView> {
    base
        .push(plain("3GP", ElementCategory::FileExtension))
        .push(plain("AVI", ElementCategory::FileExtension))
        .push(plain("DIVX", ElementCategory::FileExtension))
        .push(plain("FLV", ElementCategory::FileExtension))
        .push(plain("M2TS", ElementCategory::FileExtension))
        .push(plain("MKV", ElementCategory::FileExtension))
        .push(plain("MOV", ElementCategory::FileExtension))
        .push(plain("MP4", ElementCategory::FileExtension))
        .push(plain("MPG", ElementCategory::FileExtension))
        .push(plain("OGM", ElementCategory::FileExtension))
        .push(plain("RM", ElementCategory::FileExtension))
        .push(plain("RMVB", ElementCategory::FileExtension))
        .push(plain("TS", ElementCategory::FileExtension))
        .push(plain("WEBM", ElementCategory::FileExtension))
        .push(plain("WMV", ElementCategory::FileExtension))
}

/// Appends the keywords of [`with_sources`].
fn add_sources(table: &mut Dictionary)
    ensures
        final(table)@ == with_sources(old(table)@),
{
    table.insert("BD", plain_rule(ElementCategory::Source));
    table.insert("BDRIP", plain_rule(ElementCategory::Source));
    table.insert("BLURAY", plain_rule(ElementCategory::Source));
    table.insert("BLU-RAY", plain_rule(ElementCategory::Source));
    table.insert("DVD", plain_rule(ElementCategory::Source));
    table.insert("DVD5", plain_rule(ElementCategory::Source));
    table.insert("DVD9", plain_rule(ElementCategory::Source));
    table.insert("DVD-R2J", plain_rule(ElementCategory::Source));
    table.insert("DVDRIP", plain_rule(ElementCategory::Source));
    table.insert("DVD-RIP", plain_rule(ElementCategory::Source));
    table.insert("R2DVD", plain_rule(ElementCategory::Source));
    table.insert("R2J", plain_rule(ElementCategory::Source));
    table.insert("R2JDVD", plain_rule(ElementCategory::Source));
    table.insert("R2JDVDRIP", plain_rule(ElementCategory::Source));
    table.insert("HDTV", plain_rule(ElementCategory::Source));
    table.insert("HDTVRIP", plain_rule(ElementCategory::Source));
    table.insert("TVRIP", plain_rule(ElementCategory::Source));
    table.insert("TV-RIP", plain_rule(ElementCategory::Source));
    table.insert("WEBCAST", plain_rule(ElementCategory::Source));
    table.insert("WEBRIP", plain_rule(ElementCategory::Source));
}

/// Appends the keywords of [`with_devices`].
fn add_devices(table: &mut Dictionary)
    ensures
        final(table)@ == with_devices(old(table)@),
{
    table.insert("IPAD3", plain_rule(ElementCategory::DeviceCompatibility));
    table.insert("IPHONE5", plain_rule(ElementCategory::DeviceCompatibility));
    table.insert("IPOD", plain_rule(ElementCategory::DeviceCompatibility));
    table.insert("PS3", plain_rule(ElementCategory::DeviceCompatibility));
    table.insert("XBOX", plain_rule(ElementCategory::DeviceCompatibility));
    table.insert("XBOX360", plain_rule(ElementCategory::DeviceCompatibility));
    table.insert("ANDROID", guarded_rule(ElementCategory::DeviceCompatibility));
}

/// Appends the keywords of [`with_audio_terms`].
fn add_audio_terms(table: &mut Dictionary)
    ensures
        final(table)@ == with_audio_terms(old(table)@),
{
    table.insert("2.0CH", plain_rule(ElementCategory::AudioTerm));
    table.insert("2CH", plain_rule(ElementCategory::AudioTerm));
    table.insert("5.1", plain_rule(ElementCategory::AudioTerm));
    table.insert("5.1CH", plain_rule(ElementCategory::AudioTerm));
    table.insert("DTS", plain_rule(ElementCategory::AudioTerm));
    table.insert("DTS-ES", plain_rule(ElementCategory::AudioTerm));
    table.insert("DTS5.1", plain_rule(ElementCategory::AudioTerm));
    table.insert("TRUEHD5.1", plain_rule(ElementCategory::AudioTerm));
    table.insert("AAC", plain_rule(ElementCategory::AudioTerm));
    table.insert("AACX2", plain_rule(ElementCategory::AudioTerm));
    table.insert("AACX3", plain_rule(ElementCategory::AudioTerm));
    table.insert("AACX4", plain_rule(ElementCategory::AudioTerm));
    table.insert("AC3", plain_rule(ElementCategory::AudioTerm));
    table.insert("EAC3", plain_rule(ElementCategory::AudioTerm));
    table.insert("E-AC-3", plain_rule(ElementCategory::AudioTerm));
    table.insert("FLAC", plain_rule(ElementCategory::AudioTerm));
    table.insert("FLACX2", plain_rule(ElementCategory::AudioTerm));
    table.insert("FLACX3", plain_rule(ElementCategory::AudioTerm));
    table.insert("FLACX4", plain_rule(ElementCategory::AudioTerm));
    table.insert("LOSSLESS", plain_rule(ElementCategory::AudioTerm));
    table.insert("MP3", plain_rule(ElementCategory::AudioTerm));
    table.insert("OGG", plain_rule(ElementCategory::AudioTerm));
    table.insert("VORBIS", plain_rule(ElementCategory::AudioTerm));
    table.insert("DUALAUDIO", plain_rule(ElementCategory::AudioTerm));
    table.insert("DUAL AUDIO", plain_rule(ElementCategory::AudioTerm));
}

/// Appends the keywords of [`with_video_terms`].
fn add_video_terms(table: &mut Dictionary)
    ensures
        final(table)@ == with_video_terms(old(table)@),
{
    table.insert("23.976FPS", plain_rule(ElementCategory::VideoTerm));
    table.insert("24FPS", plain_rule(ElementCategory::VideoTerm));
    table.insert("29.97FPS", plain_rule(ElementCategory::VideoTerm));
    table.insert("30FPS", plain_rule(ElementCategory::VideoTerm));
    table.insert("60FPS", plain_rule(ElementCategory::VideoTerm));
    table.insert("120FPS", plain_rule(ElementCategory::VideoTerm));
    table.insert("8BIT", plain_rule(ElementCategory::VideoTerm));
    table.insert("8-BIT", plain_rule(ElementCategory::VideoTerm));
    table.insert("10BIT", plain_rule(ElementCategory::VideoTerm));
    table.insert("10BITS", plain_rule(ElementCategory::VideoTerm));
    table.insert("10-BIT", plain_rule(ElementCategory::VideoTerm));
    table.insert("10-BITS", plain_rule(ElementCategory::VideoTerm));
    table.insert("HI10", plain_rule(ElementCategory::VideoTerm));
    table.insert("HI10P", plain_rule(ElementCategory::VideoTerm));
    table.insert("HI444", plain_rule(ElementCategory::VideoTerm));
    table.insert("HI444P", plain_rule(ElementCategory::VideoTerm));
    table.insert("HI444PP", plain_rule(ElementCategory::VideoTerm));
    table.insert("H264", plain_rule(ElementCategory::VideoTerm));
    table.insert("H265", plain_rule(ElementCategory::VideoTerm));
    table.insert("H.264", plain_rule(ElementCategory::VideoTerm));
    table.insert("H.265", plain_rule(ElementCategory::VideoTerm));
    table.insert("X264", plain_rule(ElementCategory::VideoTerm));
    table.insert("X265", plain_rule(ElementCategory::VideoTerm));
    table.insert("X.264", plain_rule(ElementCategory::VideoTerm));
    table.insert("AVC", plain_rule(ElementCategory::VideoTerm));
    table.insert("HEVC", plain_rule(ElementCategory::VideoTerm));
    table.insert("HEVC2", plain_rule(ElementCategory::VideoTerm));
    table.insert("DIVX", plain_rule(ElementCategory::VideoTerm));
    table.insert("DIVX5", plain_rule(ElementCategory::VideoTerm));
    table.insert("DIVX6", plain_rule(ElementCategory::VideoTerm));
    table.insert("XVID", plain_rule(ElementCategory::VideoTerm));
    table.insert("AV1", plain_rule(ElementCategory::VideoTerm));
    table.insert("AVI", plain_rule(ElementCategory::VideoTerm));
    table.insert("RMVB", plain_rule(ElementCategory::VideoTerm));
    table.insert("WMV", plain_rule(ElementCategory::VideoTerm));
    table.insert("WMV3", plain_rule(ElementCategory::VideoTerm));
    table.insert("WMV9", plain_rule(ElementCategory::VideoTerm));
    table.insert("HQ", plain_rule(ElementCategory::VideoTerm));
    table.insert("LQ", plain_rule(ElementCategory::VideoTerm));
    table.insert("HD", plain_rule(ElementCategory::VideoTerm));
    table.insert("SD", plain_rule(ElementCategory::VideoTerm));
}

/// Appends the keywords of [`with_anime_types`].
fn add_anime_types(table: &mut Dictionary)
    ensures
        final(table)@ == with_anime_types(old(table)@),
{
    table.insert("GEKIJOUBAN", guarded_rule(ElementCategory::AnimeType));
    table.insert("MOVIE", guarded_rule(ElementCategory::AnimeType));
    table.insert("OAD", guarded_rule(ElementCategory::AnimeType));
    table.insert("OAV", guarded_rule(ElementCategory::AnimeType));
    table.insert("ONA", guarded_rule(ElementCategory::AnimeType));
    table.insert("OVA", guarded_rule(ElementCategory::AnimeType));
    table.insert("SPECIAL", guarded_rule(ElementCategory::AnimeType));
    table.insert("SPECIALS", guarded_rule(ElementCategory::AnimeType));
    table.insert("TV", guarded_rule(ElementCategory::AnimeType));
    table.insert("SP", guarded_rule(ElementCategory::AnimeType));
    table.insert("ED", plain_rule(ElementCategory::AnimeType));
    table.insert("ENDING", plain_rule(ElementCategory::AnimeType));
    table.insert("NCED", plain_rule(ElementCategory::AnimeType));
    table.insert("NCOP", plain_rule(ElementCategory::AnimeType));
    table.insert("OP", plain_rule(ElementCategory::AnimeType));
    table.insert("OPENING", plain_rule(ElementCategory::AnimeType));
    table.insert("PREVIEW", plain_rule(ElementCategory::AnimeType));
    table.insert("PV", plain_rule(ElementCategory::AnimeType));
}

/// Appends the keywords of [`with_languages`].
fn add_languages(table: &mut Dictionary)
    ensures
        final(table)@ == with_languages(old(table)@),
{
    table.insert("ENG", plain_rule(ElementCategory::Language));
    table.insert("ENGLISH", plain_rule(ElementCategory::Language));
    table.insert("ESPANOL", plain_rule(ElementCategory::Language));
    table.insert("JAP", plain_rule(ElementCategory::Language));
    table.insert("PT-BR", plain_rule(ElementCategory::Language));
    table.insert("SPANISH", plain_rule(ElementCategory::Language));
    table.insert("VOSTFR", plain_rule(ElementCategory::Language));
    table.insert("ESP", guarded_rule(ElementCategory::Language));
    table.insert("ITA", guarded_rule(ElementCategory::Language));
}

/// Appends the keywords of [`with_subtitles`].
fn add_subtitles(table: &mut Dictionary)
    ensures
        final(table)@ == with_subtitles(old(table)@),
{
    table.insert("ASS", plain_rule(ElementCategory::Subtitles));
    table.insert("BIG5", plain_rule(ElementCategory::Subtitles));
    table.insert("DUB", plain_rule(ElementCategory::Subtitles));
    table.insert("DUBBED", plain_rule(ElementCategory::Subtitles));
    table.insert("HARDSUB", plain_rule(ElementCategory::Subtitles));
    table.insert("HARDSUBS", plain_rule(ElementCategory::Subtitles));
    table.insert("RAW", plain_rule(ElementCategory::Subtitles));
    table.insert("SOFTSUB", plain_rule(ElementCategory::Subtitles));
    table.insert("SOFTSUBS", plain_rule(ElementCategory::Subtitles));
    table.insert("SUB", plain_rule(ElementCategory::Subtitles));
    table.insert("SUBBED", plain_rule(ElementCategory::Subtitles));
    table.insert("SUBTITLED", plain_rule(ElementCategory::Subtitles));
}

/// Appends the keywords of [`with_release_terms`].
fn add_release_terms(table: &mut Dictionary)
    ensures
        final(table)@ == with_release_terms(old(table)@),
{
    table.insert("BATCH", plain_rule(ElementCategory::ReleaseInformation));
    table.insert("COMPLETE", plain_rule(ElementCategory::ReleaseInformation));
    table.insert("PATCH", plain_rule(ElementCategory::ReleaseInformation));
    table.insert("REMUX", plain_rule(ElementCategory::ReleaseInformation));
    table.insert("END", guarded_rule(ElementCategory::ReleaseInformation));
    table.insert("FINAL", guarded_rule(ElementCategory::ReleaseInformation));
    table.insert("V0", plain_rule(ElementCategory::ReleaseVersion));
    table.insert("V1", plain_rule(ElementCategory::ReleaseVersion));
    table.insert("V2", plain_rule(ElementCategory::ReleaseVersion));
    table.insert("V3", plain_rule(ElementCategory::ReleaseVersion));
    table.insert("V4", plain_rule(ElementCategory::ReleaseVersion));
    table.insert("THORA", plain_rule(ElementCategory::ReleaseGroup));
}

/// Appends the keywords of [`with_markers`].
fn add_markers(table: &mut Dictionary)
    ensures
        final(table)@ == with_markers(old(table)@),
{
    table.insert("EP", marker_rule(ElementCategory::EpisodePrefix));
    table.insert("EPS", marker_rule(ElementCategory::EpisodePrefix));
    table.insert("EPISODE", marker_rule(ElementCategory::EpisodePrefix));
    table.insert("EPISODES", marker_rule(ElementCategory::EpisodePrefix));
    table.insert("CAPITULO", marker_rule(ElementCategory::EpisodePrefix));
    table.insert("EPISODIO", marker_rule(ElementCategory::EpisodePrefix));
    table.insert("FOLGE", marker_rule(ElementCategory::EpisodePrefix));
    table.insert("E", marker_rule(ElementCategory::EpisodePrefix));
    table.insert("VOL", marker_rule(ElementCategory::VolumePrefix));
    table.insert("VOLUME", marker_rule(ElementCategory::VolumePrefix));
    table.insert("SAISON", marker_rule(ElementCategory::AnimeSeasonPrefix));
    table.insert("SEASON", marker_rule(ElementCategory::AnimeSeasonPrefix));
    table.insert("S", marker_rule(ElementCategory::AnimeSeasonPrefix));
}

/// Appends the keywords of [`with_other_terms`].
fn add_other_terms(table: &mut Dictionary)
    ensures
        final(table)@ == with_other_terms(old(table)@),
{
    table.insert("REMASTER", plain_rule(ElementCategory::Other));
    table.insert("REMASTERED", plain_rule(ElementCategory::Other));
    table.insert("UNCENSORED", plain_rule(ElementCategory::Other));
    table.insert("UNCUT", plain_rule(ElementCategory::Other));
    table.insert("TS", plain_rule(ElementCategory::Other));
    table.insert("VFR", plain_rule(ElementCategory::Other));
    table.insert("WIDESCREEN", plain_rule(ElementCategory::Other));
    table.insert("WS", plain_rule(ElementCategory::Other));
}

/// Appends the keywords of [`with_extensions`].
fn add_extensions(table: &mut Dictionary)
    ensures
        final(table)@ == with_extensions(old(table)@),
{
    table.insert("3GP", plain_rule(ElementCategory::FileExtension));
    table.insert("AVI", plain_rule(ElementCategory::FileExtension));
    table.insert("DIVX", plain_rule(ElementCategory::FileExtension));
    table.insert("FLV", plain_rule(ElementCategory::FileExtension));
    table.insert("M2TS", plain_rule(ElementCategory::FileExtension));
    table.insert("MKV", plain_rule(ElementCategory::FileExtension));
    table.insert("MOV", plain_rule(ElementCategory::FileExtension));
    table.insert("MP4", plain_rule(ElementCategory::FileExtension));
    table.insert("MPG", plain_rule(ElementCategory::FileExtension));
    table.insert("OGM", plain_rule(ElementCategory::FileExtension));
    table.insert("RM", plain_rule(ElementCategory::FileExtension));
    table.insert("RMVB", plain_rule(ElementCategory::FileExtension));
    table.insert("TS", plain_rule(ElementCategory::FileExtension));
    table.insert("WEBM", plain_rule(ElementCategory::FileExtension));
    table.insert("WMV", plain_rule(ElementCategory::FileExtension));
}

} // verus!
