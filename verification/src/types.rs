//! The data model: errors, documents, blocks, cues and cue settings,
//! together with the mathematical views the parser contracts speak of.

use vstd::prelude::*;

verus! {

/// A document-fatal parse error, or the signal that an unsupported block
/// kind (STYLE/REGION) was encountered before any cue.
#[derive(Clone, Copy, Debug, PartialEq, Eq, Structural)]
pub enum Error {
    /// The document does not begin with the `WEBVTT` signature.
    NoMagic,
    /// The signature line continues, but not with a space or tab separator.
    BadHeader,
    /// Reserved: a required header token was still expected at end of input.
    UnexpectedEof,
    /// A STYLE or REGION block appeared before any cue; parsing those block
    /// bodies is out of scope, and the condition is surfaced rather than
    /// silently dropped.
    Unimplemented,
}

impl Error {
    /// A human-readable description of the error.
    pub fn message(&self) -> (r: &'static str)
        ensures
            r@ == self.spec_message(),
    {
        match self {
            Error::NoMagic => "missing file magic",
            Error::BadHeader => "bad file header",
            Error::UnexpectedEof => "unexpected end-of-file",
            Error::Unimplemented => "WebVTT styles and regions are unimplemented",
        }
    }

    /// What `message` returns, for each variant.
    pub open spec fn spec_message(&self) -> Seq<char> {
        match self {
            Error::NoMagic => "missing file magic"@,
            Error::BadHeader => "bad file header"@,
            Error::UnexpectedEof => "unexpected end-of-file"@,
            Error::Unimplemented => "WebVTT styles and regions are unimplemented"@,
        }
    }
}

/// The text-flow orientation a cue is rendered with.
#[derive(Clone, Copy, Debug, PartialEq, Eq, Hash, Default, Structural)]
pub enum WritingDirection {
    /// horizontal (a line extends horizontally and is offset vertically from
    /// the video viewport's top edge, with consecutive lines displayed below
    /// each other)
    #[default]
    Horizontal,
    /// vertical growing left (a line extends vertically and is offset
    /// horizontally from the video viewport's right edge, with consecutive
    /// lines displayed to the left of each other)
    VerticalLeft,
    /// vertical growing right (a line extends vertically and is offset
    /// horizontally from the video viewport's left edge, with consecutive
    /// lines displayed to the right of each other)
    VerticalRight,
}

/// The mathematical value of a [`CueSettings`].
pub ghost struct SpecSettings {
    pub region: Option<Seq<char>>,
    pub writing_direction: WritingDirection,
}

/// The mathematical value of a [`Cue`].
pub ghost struct SpecCue {
    pub start: u64,
    pub end: u64,
    pub id: Seq<char>,
    pub text: Seq<char>,
    pub settings: SpecSettings,
}

/// The mathematical value of a [`Block`].
pub ghost enum SpecBlock {
    Cue(SpecCue),
}

/// The mathematical value of a [`File`].
pub ghost struct SpecFile {
    pub description: Option<Seq<char>>,
    pub blocks: Seq<SpecBlock>,
}

/// Rendering settings attached to a cue's timing line.
///
/// Invariant maintained by the parser: a cue with a vertical writing
/// direction never carries a region reference.
#[derive(Clone, Debug, PartialEq, Eq, Hash, Default)]
pub struct CueSettings {
    pub region: Option<String>,
    pub writing_direction: WritingDirection,
}

impl View for CueSettings {
    type V = SpecSettings;

    open spec fn view(&self) -> SpecSettings {
        SpecSettings { region: self.region.deep_view(), writing_direction: self.writing_direction }
    }
}

impl DeepView for CueSettings {
    type V = SpecSettings;

    open spec fn deep_view(&self) -> SpecSettings {
        self.view()
    }
}

/// One timed caption entry. `start` and `end` are offsets from the start of
/// the media, counted in milliseconds.
#[derive(Clone, Debug, Default)]
pub struct Cue {
    pub start: u64,
    pub end: u64,
    pub id: String,
    pub text: String,
    pub settings: CueSettings,
}

impl View for Cue {
    type V = SpecCue;

    open spec fn view(&self) -> SpecCue {
        SpecCue {
            start: self.start,
            end: self.end,
            id: self.id@,
            text: self.text@,
            settings: self.settings@,
        }
    }
}

impl DeepView for Cue {
    type V = SpecCue;

    open spec fn deep_view(&self) -> SpecCue {
        self.view()
    }
}

/// One recognized block of a document. The variant set is meant to grow
/// (styles, regions, comments); cues are the only populated variant.
#[derive(Clone, Debug)]
pub enum Block {
    Cue(Cue),
}

impl View for Block {
    type V = SpecBlock;

    open spec fn view(&self) -> SpecBlock {
        match self {
            Block::Cue(c) => SpecBlock::Cue(c@),
        }
    }
}

impl DeepView for Block {
    type V = SpecBlock;

    open spec fn deep_view(&self) -> SpecBlock {
        self.view()
    }
}

/// A parsed WebVTT document: the optional description following the
/// signature, and the recognized blocks in document order.
#[derive(Clone, Debug)]
pub struct File {
    pub description: Option<String>,
    pub blocks: Vec<Block>,
}

impl View for File {
    type V = SpecFile;

    open spec fn view(&self) -> SpecFile {
        SpecFile { description: self.description.deep_view(), blocks: self.blocks.deep_view() }
    }
}

} // verus!
