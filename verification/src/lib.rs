//! Extracts structured metadata (title, episode number, release group, video
//! and audio characteristics, checksum, ...) from the file name of an anime
//! video.
//!
//! A file name has no grammar. The parser cuts it into tokens, recognises a
//! fixed vocabulary and a few numeric shapes, and hands what is left to the
//! title, the release group and the episode title. Every step is a total,
//! deterministic function of the file name and the [`Options`]; the result is
//! an ordered container of [`Element`]s.
//!
//! ```ignore
//! let (success, elements) = anitomy::parse(
//!     "[TaigaSubs]_Toradora!_(2008)_-_01v2_-_Tiger_and_Dragon_[1280x720_H.264_FLAC][1234ABCD].mkv",
//!     &anitomy::Options::default(),
//! );
//! assert!(success);
//! assert_eq!(elements.get(anitomy::ElementCategory::AnimeTitle), Some("Toradora!"));
//! assert_eq!(elements.get(anitomy::ElementCategory::EpisodeNumber), Some("01"));
//! assert_eq!(elements.get(anitomy::ElementCategory::ReleaseGroup), Some("TaigaSubs"));
//! ```
//!
//! The modules follow the way of a file name through the parser:
//! [`tokenizer`] cuts it into the tokens of [`token`]; [`matcher`] reads the
//! checksum and the keywords of the dictionary in [`keyword`]; [`number`]
//! decides what the numbers are; [`residual`] builds the title, the release
//! group and the episode title from what is left; and [`parser`] runs them in
//! their order. [`progress`] holds what every pass takes and gives, and
//! [`text`] and [`shape`] the small questions asked of characters and words.
//!
//! Every function is verified against a contract, and the contract of
//! [`parse`] says what a parse gives for each file name.
pub mod category;
pub mod elements;
pub mod keyword;
pub mod matcher;
pub mod number;
pub mod options;
pub mod parser;
pub mod progress;
pub mod residual;
pub mod shape;
pub mod text;
pub mod token;
pub mod tokenizer;

pub use category::{Element, ElementCategory};
pub use elements::{Elements, Findings};
pub use keyword::{Dictionary, Keyword, Rule};
pub use options::Options;
pub use parser::{Anitomy, parse, parse_with};
pub use token::{Token, TokenKind};
pub use tokenizer::tokenize;
