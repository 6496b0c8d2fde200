//! Source locations and the semantic errors of sequencing.

use vstd::prelude::*;

verus! {

/// A position in the source text, used only to point diagnostics at.
#[derive(Clone, Copy, PartialEq, Eq, Debug)]
pub struct SourceLoc {
    pub line: usize,
    pub column: usize,
}

/// What went wrong while sequencing a piece.
#[derive(Clone, PartialEq, Eq, Debug)]
pub enum ErrorType {
    /// A play block names a voice that the piece does not declare.
    UndeclaredVoice { voice_name: String },
    /// A play block names no voice at all.
    VoicelessPlayBlock,
    /// A repeat marker has no concrete bar before it in its stave.
    NothingToRepeat,
    /// Transposing a note moved it out of the MIDI range; carries the
    /// voice's transposition in whole octaves.
    InvalidNote { octave_offset: i8 },
}

/// A semantic error together with the place in the source it concerns.
#[derive(Clone, PartialEq, Eq, Debug)]
pub struct SequencingError {
    pub loc: SourceLoc,
    pub error: ErrorType,
}

} // verus!
