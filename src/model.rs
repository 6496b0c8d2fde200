//! The meaning of sequencing, stated over the syntax tree: the common time
//! grid of a voice, the walk over its bars, and the order of its events.

use crate::error::{ErrorType, SequencingError, SourceLoc};
use crate::notes::{spec_lcm, spec_transposed};
use crate::sequenced::{
    DebugBarInfo, Note, Piece, Voice, DEFAULT_BEATS, DEFAULT_CHANNEL, DEFAULT_PROGRAM,
    DEFAULT_TEMPO, DEFAULT_TRANSPOSE,
};
use crate::syntax::{note_length, BarNode, BarTypeNode, NoteNode, PieceNode, PlayNode, StaveNode, VoiceNode};
use vstd::prelude::*;

verus! {

// ---------------------------------------------------------------- grid

/// Total length of a sequence of note events.
pub open spec fn sum_lengths(s: Seq<NoteNode>) -> nat
    decreases s.len(),
{
    if s.len() == 0 {
        0
    } else {
        sum_lengths(s.drop_last()) + note_length(s.last())
    }
}

/// The number of source subdivisions in a bar.
pub open spec fn bar_length(b: BarNode) -> nat {
    sum_lengths(b.notes@)
}

/// What a bar slot contributes to the grid: a bar its length, a repeat 1.
pub open spec fn slot_factor(slot: BarTypeNode) -> nat {
    match slot {
        BarTypeNode::Bar(b) => bar_length(b),
        BarTypeNode::RepeatBar => 1,
    }
}

/// `acc` folded with lcm over the slots' factors, in order.
pub open spec fn fold_slots(acc: nat, slots: Seq<BarTypeNode>) -> nat
    decreases slots.len(),
{
    if slots.len() == 0 {
        acc
    } else {
        spec_lcm(fold_slots(acc, slots.drop_last()), slot_factor(slots.last()))
    }
}

/// `acc` folded with lcm over every slot of the staves, in order.
pub open spec fn fold_staves(acc: nat, staves: Seq<StaveNode>) -> nat
    decreases staves.len(),
{
    if staves.len() == 0 {
        acc
    } else {
        fold_slots(fold_staves(acc, staves.drop_last()), staves.last().bars@)
    }
}

/// Whether a play block is performed by the voice named `name`.
pub open spec fn plays_voice(play: PlayNode, name: Seq<char>) -> bool {
    match play.voice {
        Some(v) => v@ == name,
        None => false,
    }
}

/// `acc` folded with lcm over every slot of the play blocks of `name`.
pub open spec fn fold_plays(acc: nat, plays: Seq<PlayNode>, name: Seq<char>) -> nat
    decreases plays.len(),
{
    if plays.len() == 0 {
        acc
    } else {
        let a = fold_plays(acc, plays.drop_last(), name);
        if plays_voice(plays.last(), name) {
            fold_staves(a, plays.last().staves@)
        } else {
            a
        }
    }
}

/// The common grid of the voice named `name`: the lcm, seeded at 1, of the
/// factors of all slots of all staves of all play blocks of that voice.
pub open spec fn divisions_per_bar(p: PieceNode, name: Seq<char>) -> nat {
    fold_plays(1, p.plays@, name)
}

// ---------------------------------------------------------------- walk

/// The state of the walk over a voice's bars.
pub struct Walk {
    /// Notes emitted so far, in emission order.
    pub notes: Seq<Note>,
    /// One entry per walked bar slot.
    pub info: Seq<DebugBarInfo>,
    /// Whether a tie may extend the last emitted note.
    pub prev: bool,
    /// Absolute position of the next event.
    pub cursor: int,
}

/// The walk before anything was emitted.
pub open spec fn empty_walk() -> Walk {
    Walk { notes: Seq::empty(), info: Seq::empty(), prev: false, cursor: 0 }
}

/// A transposition in whole octaves, rounded toward zero.
pub open spec fn octave_offset(transpose: i8) -> i8 {
    if transpose >= 0 {
        (transpose / 12) as i8
    } else {
        (-((-transpose) / 12)) as i8
    }
}

/// `notes` with its last note lengthened by `d`.
pub open spec fn extend_last(notes: Seq<Note>, d: int) -> Seq<Note> {
    let last = notes.last();
    notes.update(notes.len() - 1, Note { length: (last.length + d) as u32, ..last })
}

/// One note event of a bar scaled by `scale`, at location `loc`.
pub open spec fn step(w: Walk, n: NoteNode, loc: SourceLoc, scale: int, transpose: i8) -> Result<
    Walk,
    SequencingError,
> {
    match n {
        NoteNode::Rest { length } => Ok(Walk { prev: false, cursor: w.cursor + scale * length, ..w }),
        NoteNode::Extension { length } => Ok(
            Walk {
                notes: if w.prev {
                    extend_last(w.notes, scale * length)
                } else {
                    w.notes
                },
                cursor: w.cursor + scale * length,
                ..w
            },
        ),
        NoteNode::Note { length, midi } => match spec_transposed(midi, transpose) {
            None => Err(
                SequencingError {
                    loc,
                    error: ErrorType::InvalidNote { octave_offset: octave_offset(transpose) },
                },
            ),
            Some(m) => Ok(
                Walk {
                    notes: w.notes.push(
                        Note { midi: m, length: (scale * length) as u32, position: w.cursor as u32 },
                    ),
                    prev: true,
                    cursor: w.cursor + scale * length,
                    ..w
                },
            ),
        },
    }
}

/// The note events of a bar from index `i` on.
pub open spec fn walk_notes(w: Walk, b: BarNode, i: int, scale: int, transpose: i8) -> Result<
    Walk,
    SequencingError,
>
    decreases b.notes@.len() - i,
{
    if i < 0 || i >= b.notes@.len() {
        Ok(w)
    } else {
        match step(w, b.notes@[i], b.note_locs@[i], scale, transpose) {
            Err(e) => Err(e),
            Ok(w2) => walk_notes(w2, b, i + 1, scale, transpose),
        }
    }
}

/// A concrete bar played at slot `index` on a grid of `grid` units.
pub open spec fn walk_bar(w: Walk, b: BarNode, index: int, grid: int, transpose: i8) -> Result<
    Walk,
    SequencingError,
> {
    let start = Walk {
        info: w.info.push(
            DebugBarInfo { loc: b.note_locs@[0], divisions_in_source: bar_length(b) as u32 },
        ),
        cursor: index * grid,
        ..w
    };
    walk_notes(start, b, 0, grid / (bar_length(b) as int), transpose)
}

/// The nearest concrete bar before slot `i`.
pub open spec fn nearest_bar(bars: Seq<BarTypeNode>, i: int) -> Option<BarNode>
    decreases i,
{
    if i <= 0 {
        None
    } else {
        match bars[i - 1] {
            BarTypeNode::Bar(b) => Some(b),
            BarTypeNode::RepeatBar => nearest_bar(bars, i - 1),
        }
    }
}

/// Slot `i` of a stave: its own bar, or for a repeat marker the nearest
/// concrete bar before it, walked with no note to tie into.
pub open spec fn walk_slot(w: Walk, s: StaveNode, i: int, grid: int, transpose: i8) -> Result<
    Walk,
    SequencingError,
> {
    match s.bars@[i] {
        BarTypeNode::Bar(b) => walk_bar(w, b, i, grid, transpose),
        BarTypeNode::RepeatBar => match nearest_bar(s.bars@, i) {
            None => Err(SequencingError { loc: s.bar_locs@[i], error: ErrorType::NothingToRepeat }),
            Some(b) => walk_bar(Walk { prev: false, ..w }, b, i, grid, transpose),
        },
    }
}

/// The slots of a stave from index `i` on.
pub open spec fn walk_slots(w: Walk, s: StaveNode, i: int, grid: int, transpose: i8) -> Result<
    Walk,
    SequencingError,
>
    decreases s.bars@.len() - i,
{
    if i < 0 || i >= s.bars@.len() {
        Ok(w)
    } else {
        match walk_slot(w, s, i, grid, transpose) {
            Err(e) => Err(e),
            Ok(w2) => walk_slots(w2, s, i + 1, grid, transpose),
        }
    }
}

/// A whole stave, which starts with no note to tie into.
pub open spec fn walk_stave(w: Walk, s: StaveNode, grid: int, transpose: i8) -> Result<
    Walk,
    SequencingError,
> {
    walk_slots(Walk { prev: false, cursor: 0, ..w }, s, 0, grid, transpose)
}

/// The staves of a play block from index `j` on.
pub open spec fn walk_staves(w: Walk, staves: Seq<StaveNode>, j: int, grid: int, transpose: i8) -> Result<
    Walk,
    SequencingError,
>
    decreases staves.len() - j,
{
    if j < 0 || j >= staves.len() {
        Ok(w)
    } else {
        match walk_stave(w, staves[j], grid, transpose) {
            Err(e) => Err(e),
            Ok(w2) => walk_staves(w2, staves, j + 1, grid, transpose),
        }
    }
}

/// The play blocks of the voice `name`, from index `k` on.
pub open spec fn walk_plays(
    w: Walk,
    plays: Seq<PlayNode>,
    k: int,
    name: Seq<char>,
    grid: int,
    transpose: i8,
) -> Result<Walk, SequencingError>
    decreases plays.len() - k,
{
    if k < 0 || k >= plays.len() {
        Ok(w)
    } else if plays_voice(plays[k], name) {
        match walk_staves(w, plays[k].staves@, 0, grid, transpose) {
            Err(e) => Err(e),
            Ok(w2) => walk_plays(w2, plays, k + 1, name, grid, transpose),
        }
    } else {
        walk_plays(w, plays, k + 1, name, grid, transpose)
    }
}

/// The transposition a voice resolves to.
pub open spec fn voice_transpose(v: VoiceNode) -> i8 {
    match v.transpose {
        Some(t) => t,
        None => DEFAULT_TRANSPOSE,
    }
}

/// The whole walk of a voice of piece `p`.
pub open spec fn voice_walk(p: PieceNode, v: VoiceNode) -> Result<Walk, SequencingError> {
    walk_plays(
        empty_walk(),
        p.plays@,
        0,
        v.name@,
        divisions_per_bar(p, v.name@) as int,
        voice_transpose(v),
    )
}

// ---------------------------------------------------------------- order

/// `n` placed into `s` after every note that does not start later than it.
pub open spec fn insert_by_position(s: Seq<Note>, n: Note) -> Seq<Note>
    decreases s.len(),
{
    if s.len() > 0 && s.last().position > n.position {
        insert_by_position(s.drop_last(), n).push(s.last())
    } else {
        s.push(n)
    }
}

/// Stable sort by start position: notes that start together keep their order.
pub open spec fn sort_by_position(s: Seq<Note>) -> Seq<Note>
    decreases s.len(),
{
    if s.len() == 0 {
        s
    } else {
        insert_by_position(sort_by_position(s.drop_last()), s.last())
    }
}

/// Start positions never decrease along `s`.
pub open spec fn sorted_by_position(s: Seq<Note>) -> bool {
    forall|i: int, j: int| 0 <= i < j < s.len() ==> s[i].position <= s[j].position
}

// ---------------------------------------------------------------- outcome

/// Some voice of `voices` is called `name`.
pub open spec fn declared(voices: Seq<VoiceNode>, name: Seq<char>) -> bool {
    exists|i: int| 0 <= i < voices.len() && voices[i].name@ == name
}

/// A play block names a voice that the piece declares.
pub open spec fn play_is_valid(p: PieceNode, play: PlayNode) -> bool {
    match play.voice {
        Some(n) => declared(p.voices@, n@),
        None => false,
    }
}

/// The first play block from index `k` on whose reference is invalid.
pub open spec fn first_invalid_play(p: PieceNode, k: int) -> Option<int>
    decreases p.plays@.len() - k,
{
    if k < 0 || k >= p.plays@.len() {
        None
    } else if !play_is_valid(p, p.plays@[k]) {
        Some(k)
    } else {
        first_invalid_play(p, k + 1)
    }
}

/// `e` is the error reported for the invalid play block `play`.
pub open spec fn reports_play(e: SequencingError, play: PlayNode) -> bool {
    &&& play.error_loc == Some(e.loc)
    &&& match play.voice {
        Some(n) => e.error is UndeclaredVoice && e.error->voice_name@ == n@,
        None => e.error is VoicelessPlayBlock,
    }
}

/// The error of the first voice from index `j` on whose walk fails.
pub open spec fn first_voice_failure(p: PieceNode, j: int) -> Option<SequencingError>
    decreases p.voices@.len() - j,
{
    if j < 0 || j >= p.voices@.len() {
        None
    } else {
        match voice_walk(p, p.voices@[j]) {
            Err(e) => Some(e),
            Ok(_) => first_voice_failure(p, j + 1),
        }
    }
}

/// Sequencing `p` succeeds.
pub open spec fn piece_succeeds(p: PieceNode) -> bool {
    first_invalid_play(p, 0) is None && first_voice_failure(p, 0) is None
}

/// Sequencing `p` stops with error `e`: the first invalid play block, else
/// the first failing voice.
pub open spec fn piece_fails_with(p: PieceNode, e: SequencingError) -> bool {
    match first_invalid_play(p, 0) {
        Some(k) => reports_play(e, p.plays@[k]),
        None => first_voice_failure(p, 0) == Some(e),
    }
}

/// Sequencing the pieces stops with `e`: every piece before some piece
/// succeeds, and that one fails with `e`.
pub open spec fn pieces_fail_with(pieces: Seq<PieceNode>, e: SequencingError) -> bool {
    exists|i: int|
        0 <= i < pieces.len() && (forall|h: int| 0 <= h < i ==> piece_succeeds(#[trigger] pieces[h]))
            && piece_fails_with(pieces[i], e)
}

/// The view of an optional text.
pub open spec fn text_of(o: Option<String>) -> Option<Seq<char>> {
    match o {
        Some(s) => Some(s@),
        None => None,
    }
}

/// `out` is voice `v` of piece `p`, sequenced.
pub open spec fn voice_matches(out: Voice, p: PieceNode, v: VoiceNode) -> bool {
    &&& out.name@ == v.name@
    &&& out.channel == (match v.channel {
        Some(c) => c,
        None => DEFAULT_CHANNEL,
    })
    &&& out.program == (match v.program {
        Some(c) => c,
        None => DEFAULT_PROGRAM,
    })
    &&& out.transpose == voice_transpose(v)
    &&& out.volume == v.volume
    &&& out.divisions_per_bar == divisions_per_bar(p, v.name@)
    &&& match voice_walk(p, v) {
        Ok(w) => out.notes@ == sort_by_position(w.notes) && out.debug_bar_info@ == w.info,
        Err(_) => false,
    }
}

/// `out` is piece `p`, sequenced.
pub open spec fn piece_matches(out: Piece, p: PieceNode) -> bool {
    &&& text_of(out.title) == text_of(p.title)
    &&& text_of(out.composer) == text_of(p.composer)
    &&& out.tempo == (match p.tempo {
        Some(t) => t,
        None => DEFAULT_TEMPO,
    })
    &&& out.beats == (match p.beats {
        Some(b) => b,
        None => DEFAULT_BEATS,
    })
    &&& out.voices@.len() == p.voices@.len()
    &&& forall|j: int| 0 <= j < p.voices@.len() ==> voice_matches(#[trigger] out.voices@[j], p, p.voices@[j])
}

// ---------------------------------------------------------------- inputs

/// A concrete bar has one location per event and a positive length.
pub open spec fn bar_wf(b: BarNode) -> bool {
    b.note_locs@.len() == b.notes@.len() && bar_length(b) > 0
}

/// A stave has one location per slot, and its concrete bars are well formed.
pub open spec fn stave_wf(s: StaveNode) -> bool {
    &&& s.bar_locs@.len() == s.bars@.len()
    &&& forall|i: int| 0 <= i < s.bars@.len() && s.bars@[i] is Bar ==> bar_wf(#[trigger] s.bars@[i]->Bar_0)
}

/// A play block carries its location and well-formed staves.
pub open spec fn play_wf(play: PlayNode) -> bool {
    &&& play.error_loc is Some
    &&& forall|j: int| 0 <= j < play.staves@.len() ==> stave_wf(#[trigger] play.staves@[j])
}

/// Every time value of voice `name` fits in 32 bits: its grid, and the end
/// of each of its staves.
pub open spec fn voice_fits(p: PieceNode, name: Seq<char>) -> bool {
    let g = divisions_per_bar(p, name);
    &&& g <= u32::MAX
    &&& forall|k: int, j: int|
        0 <= k < p.plays@.len() && plays_voice(p.plays@[k], name) && 0 <= j < p.plays@[k].staves@.len()
            ==> #[trigger] p.plays@[k].staves@[j].bars@.len() * g <= u32::MAX
}

/// A piece as the parser hands it over, whose times fit in 32 bits.
pub open spec fn piece_wf(p: PieceNode) -> bool {
    &&& forall|k: int| 0 <= k < p.plays@.len() ==> play_wf(#[trigger] p.plays@[k])
    &&& forall|j: int| 0 <= j < p.voices@.len() ==> voice_fits(p, #[trigger] p.voices@[j].name@)
}

} // verus!
