//! The syntax tree handed over by the parser.

use crate::error::SourceLoc;
use crate::notes::Midi;
use vstd::prelude::*;

verus! {

/// All pieces of one source file.
#[derive(Debug, PartialEq, Eq)]
pub struct ParseTree {
    pub pieces: Vec<PieceNode>,
}

/// A piece: its attributes, declared voices and play blocks.
#[derive(Debug, PartialEq, Eq)]
pub struct PieceNode {
    pub title: Option<String>,
    pub composer: Option<String>,
    pub tempo: Option<u64>,
    pub beats: Option<u64>,
    pub voices: Vec<VoiceNode>,
    pub plays: Vec<PlayNode>,
}

/// A voice declaration.
#[derive(Debug, PartialEq, Eq)]
pub struct VoiceNode {
    pub name: String,
    pub program: Option<u8>,
    pub channel: Option<u8>,
    pub transpose: Option<i8>,
    pub volume: Option<u8>,
}

/// A play block: staves that a named voice performs together.
#[derive(Debug, PartialEq, Eq)]
pub struct PlayNode {
    pub voice: Option<String>,
    pub staves: Vec<StaveNode>,
    pub error_loc: Option<SourceLoc>,
}

/// One rhythmic line of a play block, with one location per bar slot.
#[derive(Debug, PartialEq, Eq)]
pub struct StaveNode {
    pub prefix: String,
    pub bars: Vec<BarTypeNode>,
    pub bar_locs: Vec<SourceLoc>,
}

/// A bar slot: a concrete bar, or a marker repeating an earlier bar.
#[derive(Debug, PartialEq, Eq)]
pub enum BarTypeNode {
    Bar(BarNode),
    RepeatBar,
}

/// A concrete bar, with one location per note event.
#[derive(Debug, PartialEq, Eq)]
pub struct BarNode {
    pub notes: Vec<NoteNode>,
    pub note_locs: Vec<SourceLoc>,
}

/// A note event, its length counted in the bar's own subdivisions.
#[derive(Debug, Clone, Copy, PartialEq, Eq)]
pub enum NoteNode {
    Rest { length: u8 },
    Extension { length: u8 },
    Note { length: u8, midi: Midi },
}

/// The length of a note event in source subdivisions.
pub open spec fn note_length(n: NoteNode) -> nat {
    match n {
        NoteNode::Rest { length } => length as nat,
        NoteNode::Extension { length } => length as nat,
        NoteNode::Note { length, .. } => length as nat,
    }
}

impl NoteNode {
    /// The length of this event in source subdivisions.
    pub fn length(self) -> (r: u32)
        ensures
            r == note_length(self),
    {
        match self {
            NoteNode::Rest { length } => length as u32,
            NoteNode::Extension { length } => length as u32,
            NoteNode::Note { length, .. } => length as u32,
        }
    }
}

impl Default for PieceNode {
    fn default() -> (r: PieceNode)
        ensures
            r.title is None,
            r.composer is None,
            r.tempo is None,
            r.beats is None,
            r.voices@.len() == 0,
            r.plays@.len() == 0,
    {
        PieceNode {
            title: None,
            composer: None,
            tempo: None,
            beats: None,
            voices: Vec::new(),
            plays: Vec::new(),
        }
    }
}

impl Default for VoiceNode {
    fn default() -> (r: VoiceNode)
        ensures
            r.name@.len() == 0,
            r.program is None,
            r.channel is None,
            r.transpose is None,
            r.volume is None,
    {
        VoiceNode { name: String::new(), program: None, channel: None, transpose: None, volume: None }
    }
}

impl Default for PlayNode {
    fn default() -> (r: PlayNode)
        ensures
            r.voice is None,
            r.staves@.len() == 0,
            r.error_loc is None,
    {
        PlayNode { voice: None, staves: Vec::new(), error_loc: None }
    }
}

impl Default for StaveNode {
    fn default() -> (r: StaveNode)
        ensures
            r.prefix@.len() == 0,
            r.bars@.len() == 0,
            r.bar_locs@.len() == 0,
    {
        StaveNode { prefix: String::new(), bars: Vec::new(), bar_locs: Vec::new() }
    }
}

impl Default for BarNode {
    fn default() -> (r: BarNode)
        ensures
            r.notes@.len() == 0,
            r.note_locs@.len() == 0,
    {
        BarNode { notes: Vec::new(), note_locs: Vec::new() }
    }
}

} // verus!
