//! The sequenced result: per voice, a flat list of timed notes.

use crate::error::SourceLoc;
use crate::notes::Midi;
use vstd::prelude::*;

verus! {

/// Tempo of a piece that states none.
pub const DEFAULT_TEMPO: u64 = 120;

/// Beats per bar of a piece that states none.
pub const DEFAULT_BEATS: u64 = 4;

/// Channel of a voice that states none.
pub const DEFAULT_CHANNEL: u8 = 0;

/// Program of a voice that states none.
pub const DEFAULT_PROGRAM: u8 = 0;

/// Transposition of a voice that states none.
pub const DEFAULT_TRANSPOSE: i8 = 0;

/// A piece after sequencing.
#[derive(Debug, PartialEq, Eq)]
pub struct Piece {
    pub title: Option<String>,
    pub composer: Option<String>,
    pub tempo: u64,
    pub beats: u64,
    pub voices: Vec<Voice>,
}

/// A voice after sequencing. Times are counted in `divisions_per_bar`
/// units per bar. `volume` is out of 127 (127 is full volume); `None`
/// leaves it unset.
#[derive(Debug, PartialEq, Eq)]
pub struct Voice {
    pub name: String,
    pub channel: u8,
    pub program: u8,
    pub transpose: i8,
    pub volume: Option<u8>,
    pub divisions_per_bar: u32,
    pub notes: Vec<Note>,
    pub debug_bar_info: Vec<DebugBarInfo>,
}

/// A sounding note: pitch, duration and absolute start.
#[derive(Debug, Clone, Copy, PartialEq, Eq)]
pub struct Note {
    pub midi: Midi,
    pub length: u32,
    pub position: u32,
}

/// Where a walked bar came from and how many subdivisions it had.
#[derive(Debug, Clone, Copy, PartialEq, Eq)]
pub struct DebugBarInfo {
    pub loc: SourceLoc,
    pub divisions_in_source: u32,
}

impl Default for Piece {
    fn default() -> (r: Piece)
        ensures
            r.title is None,
            r.composer is None,
            r.tempo == DEFAULT_TEMPO,
            r.beats == DEFAULT_BEATS,
            r.voices@.len() == 0,
    {
        Piece {
            title: None,
            composer: None,
            tempo: DEFAULT_TEMPO,
            beats: DEFAULT_BEATS,
            voices: Vec::new(),
        }
    }
}

impl Default for Voice {
    fn default() -> (r: Voice)
        ensures
            r.name@.len() == 0,
            r.channel == DEFAULT_CHANNEL,
            r.program == DEFAULT_PROGRAM,
            r.transpose == DEFAULT_TRANSPOSE,
            r.volume is None,
            r.divisions_per_bar == 1,
            r.notes@.len() == 0,
            r.debug_bar_info@.len() == 0,
    {
        Voice {
            name: String::new(),
            channel: DEFAULT_CHANNEL,
            program: DEFAULT_PROGRAM,
            transpose: DEFAULT_TRANSPOSE,
            volume: None,
            divisions_per_bar: 1,
            notes: Vec::new(),
            debug_bar_info: Vec::new(),
        }
    }
}

} // verus!
