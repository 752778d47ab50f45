//! A WebVTT subtitle parser.
//!
//! The input is the full text of a WebVTT document; the output is a
//! [`File`]: an optional description taken from the signature line and an
//! ordered collection of typed blocks (currently only timed caption cues).
//! Malformed blocks are skipped rather than failing the whole document.

pub mod document;
pub mod settings;
pub mod text;
pub mod timestamp;
pub mod timing;
pub mod types;

pub use document::parse_file;
pub use timestamp::parse_timestamp;
pub use types::Block;
pub use types::Cue;
pub use types::CueSettings;
pub use types::Error;
pub use types::File;
pub use types::WritingDirection;
