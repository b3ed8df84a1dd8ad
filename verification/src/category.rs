//! The categories a piece of a file name can fall into, and the pair of a
//! category and a value that the parser hands out.
use vstd::prelude::*;

verus! {

/// The category of an [`Element`].
#[derive(Debug, Copy, Clone, PartialEq, Eq, Hash, Structural)]
pub enum ElementCategory {
    AnimeSeason,
    AnimeSeasonPrefix,
    AnimeTitle,
    AnimeType,
    AnimeYear,
    AudioTerm,
    DeviceCompatibility,
    EpisodeNumber,
    EpisodeNumberAlt,
    EpisodePrefix,
    EpisodeTitle,
    FileChecksum,
    FileExtension,
    FileName,
    Language,
    Other,
    ReleaseGroup,
    ReleaseInformation,
    ReleaseVersion,
    Source,
    Subtitles,
    VideoResolution,
    VideoTerm,
    VolumeNumber,
    VolumePrefix,
    Unknown,
}

/// The number that stands for a category where categories are exchanged as
/// numbers: the categories are counted from 0 in the order in which they are
/// declared.
pub open spec fn category_code(category: ElementCategory) -> int {
    match category {
        ElementCategory::AnimeSeason => 0,
        ElementCategory::AnimeSeasonPrefix => 1,
        ElementCategory::AnimeTitle => 2,
        ElementCategory::AnimeType => 3,
        ElementCategory::AnimeYear => 4,
        ElementCategory::AudioTerm => 5,
        ElementCategory::DeviceCompatibility => 6,
        ElementCategory::EpisodeNumber => 7,
        ElementCategory::EpisodeNumberAlt => 8,
        ElementCategory::EpisodePrefix => 9,
        ElementCategory::EpisodeTitle => 10,
        ElementCategory::FileChecksum => 11,
        ElementCategory::FileExtension => 12,
        ElementCategory::FileName => 13,
        ElementCategory::Language => 14,
        ElementCategory::Other => 15,
        ElementCategory::ReleaseGroup => 16,
        ElementCategory::ReleaseInformation => 17,
        ElementCategory::ReleaseVersion => 18,
        ElementCategory::Source => 19,
        ElementCategory::Subtitles => 20,
        ElementCategory::VideoResolution => 21,
        ElementCategory::VideoTerm => 22,
        ElementCategory::VolumeNumber => 23,
        ElementCategory::VolumePrefix => 24,
        ElementCategory::Unknown => 25,
    }
}

/// The category that a number stands for. A number that stands for none is
/// read as `Unknown`.
pub open spec fn category_of(code: int) -> ElementCategory {
    if code == 0 {
        ElementCategory::AnimeSeason
    } else     if code == 1 {
        ElementCategory::AnimeSeasonPrefix
    } else     if code == 2 {
        ElementCategory::AnimeTitle
    } else     if code == 3 {
        ElementCategory::AnimeType
    } else     if code == 4 {
        ElementCategory::AnimeYear
    } else     if code == 5 {
        ElementCategory::AudioTerm
    } else     if code == 6 {
        ElementCategory::DeviceCompatibility
    } else     if code == 7 {
        ElementCategory::EpisodeNumber
    } else     if code == 8 {
        ElementCategory::EpisodeNumberAlt
    } else     if code == 9 {
        ElementCategory::EpisodePrefix
    } else     if code == 10 {
        ElementCategory::EpisodeTitle
    } else     if code == 11 {
        ElementCategory::FileChecksum
    } else     if code == 12 {
        ElementCategory::FileExtension
    } else     if code == 13 {
        ElementCategory::FileName
    } else     if code == 14 {
        ElementCategory::Language
    } else     if code == 15 {
        ElementCategory::Other
    } else     if code == 16 {
        ElementCategory::ReleaseGroup
    } else     if code == 17 {
        ElementCategory::ReleaseInformation
    } else     if code == 18 {
        ElementCategory::ReleaseVersion
    } else     if code == 19 {
        ElementCategory::Source
    } else     if code == 20 {
        ElementCategory::Subtitles
    } else     if code == 21 {
        ElementCategory::VideoResolution
    } else     if code == 22 {
        ElementCategory::VideoTerm
    } else     if code == 23 {
        ElementCategory::VolumeNumber
    } else     if code == 24 {
        ElementCategory::VolumePrefix
    } else {
        ElementCategory::Unknown
    }
}

/// The number of a category stands for that category, and lies between 0
/// and 25.
pub proof fn lemma_category_code(category: ElementCategory)
    ensures
        category_of(category_code(category)) == category,
        0 <= category_code(category) <= 25,
{
}

impl ElementCategory {
    /// Computes [`category_code`].
    pub fn code(self) -> (r: i32)
        ensures
            r == category_code(self),
    {
        match self {
            ElementCategory::AnimeSeason => 0,
            ElementCategory::AnimeSeasonPrefix => 1,
            ElementCategory::AnimeTitle => 2,
            ElementCategory::AnimeType => 3,
            ElementCategory::AnimeYear => 4,
            ElementCategory::AudioTerm => 5,
            ElementCategory::DeviceCompatibility => 6,
            ElementCategory::EpisodeNumber => 7,
            ElementCategory::EpisodeNumberAlt => 8,
            ElementCategory::EpisodePrefix => 9,
            ElementCategory::EpisodeTitle => 10,
            ElementCategory::FileChecksum => 11,
            ElementCategory::FileExtension => 12,
            ElementCategory::FileName => 13,
            ElementCategory::Language => 14,
            ElementCategory::Other => 15,
            ElementCategory::ReleaseGroup => 16,
            ElementCategory::ReleaseInformation => 17,
            ElementCategory::ReleaseVersion => 18,
            ElementCategory::Source => 19,
            ElementCategory::Subtitles => 20,
            ElementCategory::VideoResolution => 21,
            ElementCategory::VideoTerm => 22,
            ElementCategory::VolumeNumber => 23,
            ElementCategory::VolumePrefix => 24,
            ElementCategory::Unknown => 25,
        }
    }
}

impl From<i32> for ElementCategory {
    /// Computes [`category_of`].
    fn from(code: i32) -> (r: ElementCategory)
        ensures
            r == category_of(code as int),
    {
        match code {
            0 => ElementCategory::AnimeSeason,
            1 => ElementCategory::AnimeSeasonPrefix,
            2 => ElementCategory::AnimeTitle,
            3 => ElementCategory::AnimeType,
            4 => ElementCategory::AnimeYear,
            5 => ElementCategory::AudioTerm,
            6 => ElementCategory::DeviceCompatibility,
            7 => ElementCategory::EpisodeNumber,
            8 => ElementCategory::EpisodeNumberAlt,
            9 => ElementCategory::EpisodePrefix,
            10 => ElementCategory::EpisodeTitle,
            11 => ElementCategory::FileChecksum,
            12 => ElementCategory::FileExtension,
            13 => ElementCategory::FileName,
            14 => ElementCategory::Language,
            15 => ElementCategory::Other,
            16 => ElementCategory::ReleaseGroup,
            17 => ElementCategory::ReleaseInformation,
            18 => ElementCategory::ReleaseVersion,
            19 => ElementCategory::Source,
            20 => ElementCategory::Subtitles,
            21 => ElementCategory::VideoResolution,
            22 => ElementCategory::VideoTerm,
            23 => ElementCategory::VolumeNumber,
            24 => ElementCategory::VolumePrefix,
            _ => ElementCategory::Unknown,
        }
    }
}

impl vstd::std_specs::convert::FromSpecImpl<i32> for ElementCategory {
    open spec fn obeys_from_spec() -> bool {
        true
    }

    open spec fn from_spec(code: i32) -> ElementCategory {
        category_of(code as int)
    }
}

/// What an element is in contracts: its category and the characters of its
/// value.
pub type ElementView = (ElementCategory, Seq<char>);

/// One classified piece of a file name.
#[derive(Debug, Clone, PartialEq, Eq)]
pub struct Element {
    /// The category of the element.
    pub category: ElementCategory,
    /// The value of the element.
    pub value: String,
}

impl View for Element {
    type V = ElementView;

    open spec fn view(&self) -> ElementView {
        (self.category, self.value@)
    }
}

/// The views of a sequence of elements, in the same order.
pub open spec fn element_views(elements: Seq<Element>) -> Seq<ElementView> {
    elements.map_values(|e: Element| e@)
}

/// Appending an element appends its view.
pub proof fn lemma_element_views_push(elements: Seq<Element>, element: Element)
    ensures
        element_views(elements.push(element)) == element_views(elements).push(element@),
{
    assert(element_views(elements.push(element)) =~= element_views(elements).push(element@));
}

} // verus!
