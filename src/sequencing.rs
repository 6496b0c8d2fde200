//! Sequencing: from the syntax tree to timed notes, voice by voice.

use crate::error::{ErrorType, SequencingError, SourceLoc};
use crate::grid::{bar_length_of, lemma_partial_divides, lemma_sum_prefix, names_voice, voice_divisions};
use crate::model::{
    bar_length, bar_wf, declared, divisions_per_bar, first_invalid_play, first_voice_failure,
    nearest_bar, octave_offset, piece_fails_with, piece_matches, piece_succeeds, piece_wf,
    pieces_fail_with, play_wf, plays_voice, reports_play, slot_factor, step,
    stave_wf, sum_lengths, text_of, voice_fits, voice_matches, voice_transpose, voice_walk, walk_bar,
    walk_notes, walk_plays, walk_slot, walk_slots, walk_stave, walk_staves, Walk,
};
use crate::notes::{divides, lemma_divisor_le};
use crate::order::sort_notes;
use crate::sequenced::{
    DebugBarInfo, Note, Piece, Voice, DEFAULT_BEATS, DEFAULT_CHANNEL, DEFAULT_PROGRAM,
    DEFAULT_TEMPO, DEFAULT_TRANSPOSE,
};
use crate::syntax::{note_length, BarNode, BarTypeNode, NoteNode, ParseTree, PieceNode, PlayNode, StaveNode, VoiceNode};
use vstd::arithmetic::div_mod::lemma_fundamental_div_mod;
use vstd::prelude::*;

verus! {

/// The walk over a voice's bars, as it runs.
struct Walker {
    notes: Vec<Note>,
    info: Vec<DebugBarInfo>,
    prev: bool,
    cursor: u32,
}

impl Walker {
    spec fn state(&self) -> Walk {
        Walk { notes: self.notes@, info: self.info@, prev: self.prev, cursor: self.cursor as int }
    }
}

/// A note that a tie may extend ends no later than the cursor.
spec fn walk_ok(w: Walk) -> bool {
    w.prev ==> (w.notes.len() > 0 && w.notes.last().position + w.notes.last().length <= w.cursor)
}

/// Every concrete bar of the stave divides the grid evenly.
spec fn bars_divide(s: StaveNode, grid: nat) -> bool {
    forall|i: int|
        0 <= i < s.bars@.len() && s.bars@[i] is Bar ==> divides(
            bar_length(#[trigger] s.bars@[i]->Bar_0),
            grid,
        )
}

/// A transposition in whole octaves, rounded toward zero.
fn octave_offset_of(transpose: i8) -> (r: i8)
    ensures
        r == octave_offset(transpose),
{
    if transpose >= 0 {
        ((transpose as u8) / 12) as i8
    } else {
        let m: i16 = -(transpose as i16);
        let q: u8 = (m as u8) / 12;
        -(q as i8)
    }
}

/// One note event, scaled by `scale`.
fn walk_note(w: &mut Walker, n: NoteNode, loc: SourceLoc, scale: u32, transpose: i8) -> (r: Result<
    (),
    SequencingError,
>)
    requires
        walk_ok(old(w).state()),
        old(w).cursor + scale * note_length(n) <= u32::MAX,
    ensures
        match r {
            Ok(_) => step(old(w).state(), n, loc, scale as int, transpose) == Ok::<Walk, SequencingError>(
                final(w).state(),
            ) && walk_ok(final(w).state()),
            Err(e) => step(old(w).state(), n, loc, scale as int, transpose) == Err::<
                Walk,
                SequencingError,
            >(e),
        },
{
    match n {
        NoteNode::Rest { length } => {
            w.prev = false;
            w.cursor = w.cursor + scale * (length as u32);
            Ok(())
        },
        NoteNode::Extension { length } => {
            let d: u32 = scale * (length as u32);
            if w.prev {
                let last_index = w.notes.len() - 1;
                let mut last = w.notes[last_index];
                last.length = last.length + d;
                w.notes[last_index] = last;
            }
            w.cursor = w.cursor + d;
            Ok(())
        },
        NoteNode::Note { length, midi } => match midi.transposed(transpose) {
            None => Err(
                SequencingError {
                    loc,
                    error: ErrorType::InvalidNote { octave_offset: octave_offset_of(transpose) },
                },
            ),
            Some(m) => {
                let d: u32 = scale * (length as u32);
                w.notes.push(Note { midi: m, length: d, position: w.cursor });
                w.prev = true;
                w.cursor = w.cursor + d;
                Ok(())
            },
        },
    }
}

/// A concrete bar played at slot `index`.
fn walk_bar_exec(w: &mut Walker, b: &BarNode, index: usize, grid: u32, transpose: i8) -> (r: Result<
    (),
    SequencingError,
>)
    requires
        bar_wf(*b),
        divides(bar_length(*b), grid as nat),
        grid > 0,
        (index + 1) * grid <= u32::MAX,
        walk_ok(old(w).state()),
        old(w).cursor <= index * grid,
    ensures
        match r {
            Ok(_) => walk_bar(old(w).state(), *b, index as int, grid as int, transpose) == Ok::<
                Walk,
                SequencingError,
            >(final(w).state()) && walk_ok(final(w).state()) && final(w).cursor <= (index + 1)
                * grid,
            Err(e) => walk_bar(old(w).state(), *b, index as int, grid as int, transpose) == Err::<
                Walk,
                SequencingError,
            >(e),
        },
{
    let ghost w0 = w.state();
    assert(w0 == old(w).state());
    proof {
        lemma_divisor_le(bar_length(*b), grid as nat);
        assert((index + 1) * grid == index * grid + grid) by (nonlinear_arith);
        lemma_fundamental_div_mod(grid as int, bar_length(*b) as int);
        assert(index * grid <= (index + 1) * grid) by (nonlinear_arith);
        assert(index <= index * grid) by (nonlinear_arith)
            requires
                grid > 0,
        ;
    }
    let len = bar_length_of(b);
    w.info.push(DebugBarInfo { loc: b.note_locs[0], divisions_in_source: len });
    let base: u32 = (index as u32) * grid;
    w.cursor = base;
    let scale: u32 = grid / len;
    assert(scale * len == grid) by (nonlinear_arith)
        requires
            grid == len * (grid / len) + grid % len,
            grid % len == 0,
            scale == grid / len,
    ;
    assert(b.notes@.take(0) =~= Seq::<NoteNode>::empty());
    let ghost start = w.state();
    assert(start == Walk {
        info: w0.info.push(DebugBarInfo { loc: b.note_locs@[0], divisions_in_source: bar_length(*b) as u32 }),
        cursor: index * grid,
        ..w0
    });
    let mut i: usize = 0;
    while i < b.notes.len()
        invariant
            0 <= i <= b.notes@.len(),
            bar_wf(*b),
            len == bar_length(*b),
            scale * len == grid,
            base == index * grid,
            base + grid <= u32::MAX,
            w0 == old(w).state(),
            walk_bar(w0, *b, index as int, grid as int, transpose) == walk_notes(
                w.state(),
                *b,
                i as int,
                scale as int,
                transpose,
            ),
            walk_ok(w.state()),
            w.cursor == base + scale * sum_lengths(b.notes@.take(i as int)),
        decreases b.notes@.len() - i,
    {
        let ghost before = sum_lengths(b.notes@.take(i as int));
        proof {
            lemma_sum_prefix(b.notes@, i as int);
            let after = sum_lengths(b.notes@.take(i + 1));
            assert(scale * before + scale * note_length(b.notes@[i as int]) == scale * after)
                by (nonlinear_arith)
                requires
                    after == before + note_length(b.notes@[i as int]),
            ;
            assert(scale * after <= scale * len) by (nonlinear_arith)
                requires
                    after <= len,
            ;
        }
        let n = b.notes[i];
        let loc = b.note_locs[i];
        match walk_note(w, n, loc, scale, transpose) {
            Err(e) => {
                return Err(e);
            },
            Ok(_) => {},
        }
        i = i + 1;
    }
    proof {
        assert(b.notes@.take(i as int) =~= b.notes@);
    }
    Ok(())
}

/// The index of the nearest concrete bar before slot `index`.
fn find_nearest_bar(bars: &Vec<BarTypeNode>, index: usize) -> (r: Option<usize>)
    requires
        index <= bars@.len(),
    ensures
        match r {
            Some(j) => j < index && bars@[j as int] is Bar && nearest_bar(bars@, index as int)
                == Some(bars@[j as int]->Bar_0),
            None => nearest_bar(bars@, index as int) is None,
        },
{
    let mut j: usize = index;
    while j > 0
        invariant
            j <= index <= bars@.len(),
            nearest_bar(bars@, index as int) == nearest_bar(bars@, j as int),
        decreases j,
    {
        match &bars[j - 1] {
            BarTypeNode::Bar(_) => {
                return Some(j - 1);
            },
            BarTypeNode::RepeatBar => {},
        }
        j = j - 1;
    }
    None
}

/// Slot `index` of a stave, resolving a repeat marker to the bar it repeats.
fn walk_slot_exec(w: &mut Walker, s: &StaveNode, index: usize, grid: u32, transpose: i8) -> (r:
    Result<(), SequencingError>)
    requires
        stave_wf(*s),
        bars_divide(*s, grid as nat),
        index < s.bars@.len(),
        grid > 0,
        s.bars@.len() * grid <= u32::MAX,
        walk_ok(old(w).state()),
        old(w).cursor <= index * grid,
    ensures
        match r {
            Ok(_) => walk_slot(old(w).state(), *s, index as int, grid as int, transpose) == Ok::<
                Walk,
                SequencingError,
            >(final(w).state()) && walk_ok(final(w).state()) && final(w).cursor <= (index + 1)
                * grid,
            Err(e) => walk_slot(old(w).state(), *s, index as int, grid as int, transpose) == Err::<
                Walk,
                SequencingError,
            >(e),
        },
{
    assert((index + 1) * grid <= s.bars@.len() * grid) by (nonlinear_arith)
        requires
            index < s.bars@.len(),
            grid > 0,
    ;
    match &s.bars[index] {
        BarTypeNode::Bar(b) => {
            assert(bar_wf(s.bars@[index as int]->Bar_0));
            assert(divides(bar_length(s.bars@[index as int]->Bar_0), grid as nat));
            walk_bar_exec(w, b, index, grid, transpose)
        },
        BarTypeNode::RepeatBar => {
            w.prev = false;
            match find_nearest_bar(&s.bars, index) {
                None => Err(SequencingError { loc: s.bar_locs[index], error: ErrorType::NothingToRepeat }),
                Some(j) => match &s.bars[j] {
                    BarTypeNode::Bar(b) => {
                        assert(bar_wf(s.bars@[j as int]->Bar_0));
                        assert(divides(bar_length(s.bars@[j as int]->Bar_0), grid as nat));
                        walk_bar_exec(w, b, index, grid, transpose)
                    },
                    BarTypeNode::RepeatBar => Ok(()),
                },
            }
        },
    }
}

/// A whole stave.
fn walk_stave_exec(w: &mut Walker, s: &StaveNode, grid: u32, transpose: i8) -> (r: Result<
    (),
    SequencingError,
>)
    requires
        stave_wf(*s),
        bars_divide(*s, grid as nat),
        grid > 0,
        s.bars@.len() * grid <= u32::MAX,
    ensures
        match r {
            Ok(_) => walk_stave(old(w).state(), *s, grid as int, transpose) == Ok::<
                Walk,
                SequencingError,
            >(final(w).state()),
            Err(e) => walk_stave(old(w).state(), *s, grid as int, transpose) == Err::<
                Walk,
                SequencingError,
            >(e),
        },
{
    let ghost w0 = w.state();
    assert(w0 == old(w).state());
    w.prev = false;
    w.cursor = 0;
    let mut i: usize = 0;
    while i < s.bars.len()
        invariant
            0 <= i <= s.bars@.len(),
            stave_wf(*s),
            bars_divide(*s, grid as nat),
            grid > 0,
            s.bars@.len() * grid <= u32::MAX,
            w0 == old(w).state(),
            walk_stave(w0, *s, grid as int, transpose) == walk_slots(
                w.state(),
                *s,
                i as int,
                grid as int,
                transpose,
            ),
            walk_ok(w.state()),
            w.cursor <= i * grid,
        decreases s.bars@.len() - i,
    {
        match walk_slot_exec(w, s, i, grid, transpose) {
            Err(e) => {
                return Err(e);
            },
            Ok(_) => {},
        }
        i = i + 1;
    }
    Ok(())
}

/// Sequences voice `v` of piece `p`.
fn sequence_voice(p: &PieceNode, v: &VoiceNode) -> (r: Result<Voice, SequencingError>)
    requires
        forall|k: int| 0 <= k < p.plays@.len() ==> play_wf(#[trigger] p.plays@[k]),
        voice_fits(*p, v.name@),
    ensures
        match r {
            Ok(out) => voice_walk(*p, *v) is Ok && voice_matches(out, *p, *v),
            Err(e) => voice_walk(*p, *v) == Err::<Walk, SequencingError>(e),
        },
{
    let ghost plays = p.plays@;
    let ghost name = v.name@;
    let grid = voice_divisions(p, &v.name);
    let transpose: i8 = match v.transpose {
        Some(t) => t,
        None => DEFAULT_TRANSPOSE,
    };
    let mut w = Walker { notes: Vec::new(), info: Vec::new(), prev: false, cursor: 0 };
    proof {
        lemma_grid_positive(*p, name);
    }
    let mut k: usize = 0;
    while k < p.plays.len()
        invariant
            0 <= k <= plays.len(),
            plays == p.plays@,
            name == v.name@,
            grid == divisions_per_bar(*p, name),
            grid > 0,
            transpose == voice_transpose(*v),
            forall|h: int| 0 <= h < p.plays@.len() ==> play_wf(#[trigger] p.plays@[h]),
            voice_fits(*p, name),
            voice_walk(*p, *v) == walk_plays(w.state(), plays, k as int, name, grid as int, transpose),
        decreases plays.len() - k,
    {
        let play = &p.plays[k];
        if names_voice(play, &v.name) {
            let mut j: usize = 0;
            while j < play.staves.len()
                invariant
                    0 <= j <= play.staves@.len(),
                    0 <= k < plays.len(),
                    plays == p.plays@,
                    *play == plays[k as int],
                    plays_voice(*play, name),
                    name == v.name@,
                    grid == divisions_per_bar(*p, name),
                    grid > 0,
                    transpose == voice_transpose(*v),
                    forall|h: int| 0 <= h < p.plays@.len() ==> play_wf(#[trigger] p.plays@[h]),
                    voice_fits(*p, name),
                    voice_walk(*p, *v) == match walk_staves(
                        w.state(),
                        play.staves@,
                        j as int,
                        grid as int,
                        transpose,
                    ) {
                        Err(e) => Err(e),
                        Ok(w2) => walk_plays(w2, plays, k + 1, name, grid as int, transpose),
                    },
                decreases play.staves@.len() - j,
            {
                let stave = &play.staves[j];
                proof {
                    assert(play_wf(plays[k as int]));
                    assert(stave_wf(play.staves@[j as int]));
                    assert(stave.bars@.len() * grid <= u32::MAX);
                    assert forall|i: int|
                        0 <= i < stave.bars@.len() && stave.bars@[i] is Bar implies divides(
                        bar_length(#[trigger] stave.bars@[i]->Bar_0),
                        grid as nat,
                    ) by {
                        lemma_partial_divides(*p, name, k as int, j as int, i);
                        assert(slot_factor(stave.bars@[i]) == bar_length(stave.bars@[i]->Bar_0));
                    }
                }
                match walk_stave_exec(&mut w, stave, grid, transpose) {
                    Err(e) => {
                        return Err(e);
                    },
                    Ok(_) => {},
                }
                j = j + 1;
            }
        }
        k = k + 1;
    }
    let notes = sort_notes(&w.notes);
    let channel: u8 = match v.channel {
        Some(c) => c,
        None => DEFAULT_CHANNEL,
    };
    let program: u8 = match v.program {
        Some(c) => c,
        None => DEFAULT_PROGRAM,
    };
    Ok(
        Voice {
            name: v.name.clone(),
            channel,
            program,
            transpose,
            volume: v.volume,
            divisions_per_bar: grid,
            notes,
            debug_bar_info: w.info,
        },
    )
}

/// The grid of a voice is positive.
proof fn lemma_grid_positive(p: PieceNode, name: Seq<char>)
    requires
        forall|k: int| 0 <= k < p.plays@.len() ==> play_wf(#[trigger] p.plays@[k]),
    ensures
        divisions_per_bar(p, name) > 0,
{
    crate::grid::lemma_plays_positive(p, name);
    crate::grid::lemma_fold_plays(1, p.plays@, name, 0);
}

/// Whether the play block's reference names a voice of `voices`.
fn voice_declared(voices: &Vec<VoiceNode>, play: &PlayNode) -> (r: bool)
    ensures
        r == (match play.voice {
            Some(n) => declared(voices@, n@),
            None => false,
        }),
{
    match &play.voice {
        None => false,
        Some(n) => {
            let mut i: usize = 0;
            while i < voices.len()
                invariant
                    0 <= i <= voices@.len(),
                    play.voice == Some(*n),
                    forall|h: int| 0 <= h < i ==> (#[trigger] voices@[h]).name@ != n@,
                decreases voices@.len() - i,
            {
                if voices[i].name == *n {
                    assert(voices@[i as int].name@ == n@);
                    return true;
                }
                i = i + 1;
            }
            false
        },
    }
}

/// Checks, in order, that every play block names a declared voice.
fn validate_plays(p: &PieceNode) -> (r: Result<(), SequencingError>)
    requires
        forall|k: int| 0 <= k < p.plays@.len() ==> play_wf(#[trigger] p.plays@[k]),
    ensures
        match r {
            Ok(_) => first_invalid_play(*p, 0) is None,
            Err(e) => first_invalid_play(*p, 0) matches Some(k) && 0 <= k < p.plays@.len()
                && reports_play(e, p.plays@[k]),
        },
{
    let mut k: usize = 0;
    while k < p.plays.len()
        invariant
            0 <= k <= p.plays@.len(),
            forall|h: int| 0 <= h < p.plays@.len() ==> play_wf(#[trigger] p.plays@[h]),
            first_invalid_play(*p, 0) == first_invalid_play(*p, k as int),
        decreases p.plays@.len() - k,
    {
        let play = &p.plays[k];
        if !voice_declared(&p.voices, play) {
            assert(play_wf(p.plays@[k as int]));
            let error = match &play.voice {
                Some(n) => ErrorType::UndeclaredVoice { voice_name: n.clone() },
                None => ErrorType::VoicelessPlayBlock,
            };
            return Err(SequencingError { loc: play.error_loc.unwrap(), error });
        }
        k = k + 1;
    }
    Ok(())
}

/// The optional text, copied.
fn copy_text(t: &Option<String>) -> (r: Option<String>)
    ensures
        text_of(r) == text_of(*t),
{
    match t {
        Some(s) => Some(s.clone()),
        None => None,
    }
}

/// Sequences one piece.
fn sequence_piece(p: &PieceNode) -> (r: Result<Piece, SequencingError>)
    requires
        piece_wf(*p),
    ensures
        match r {
            Ok(out) => piece_succeeds(*p) && piece_matches(out, *p),
            Err(e) => piece_fails_with(*p, e),
        },
{
    match validate_plays(p) {
        Err(e) => {
            return Err(e);
        },
        Ok(_) => {},
    }
    let mut voices: Vec<Voice> = Vec::new();
    let mut j: usize = 0;
    while j < p.voices.len()
        invariant
            0 <= j <= p.voices@.len(),
            piece_wf(*p),
            first_invalid_play(*p, 0) is None,
            first_voice_failure(*p, 0) == first_voice_failure(*p, j as int),
            voices@.len() == j,
            forall|h: int| 0 <= h < j ==> voice_matches(#[trigger] voices@[h], *p, p.voices@[h]),
        decreases p.voices@.len() - j,
    {
        assert(voice_fits(*p, p.voices@[j as int].name@));
        match sequence_voice(p, &p.voices[j]) {
            Err(e) => {
                return Err(e);
            },
            Ok(v) => {
                voices.push(v);
            },
        }
        j = j + 1;
    }
    let tempo: u64 = match p.tempo {
        Some(t) => t,
        None => DEFAULT_TEMPO,
    };
    let beats: u64 = match p.beats {
        Some(b) => b,
        None => DEFAULT_BEATS,
    };
    Ok(
        Piece {
            title: copy_text(&p.title),
            composer: copy_text(&p.composer),
            tempo,
            beats,
            voices,
        },
    )
}

/// Sequences every piece of the tree, stopping at the first semantic error.
///
/// Each piece first has every play block's voice reference checked, in
/// order; then each voice, in order, gets its grid (`divisions_per_bar`),
/// the walk over the bars of its play blocks, and its notes stably sorted by
/// start position.
///
/// The tree must be as the parser builds it (`piece_wf`): every play block
/// carries its location, every slot and event has one, every concrete bar has
/// a positive length, and each voice's grid and stave ends fit in 32 bits.
pub fn sequence_pieces(parse_tree: &ParseTree) -> (r: Result<Vec<Piece>, SequencingError>)
    requires
        forall|i: int| 0 <= i < parse_tree.pieces@.len() ==> piece_wf(#[trigger] parse_tree.pieces@[i]),
    ensures
        match r {
            Ok(pieces) => pieces@.len() == parse_tree.pieces@.len() && forall|i: int|
                0 <= i < pieces@.len() ==> piece_succeeds(#[trigger] parse_tree.pieces@[i])
                    && piece_matches(pieces@[i], parse_tree.pieces@[i]),
            Err(e) => pieces_fail_with(parse_tree.pieces@, e),
        },
{
    let mut pieces: Vec<Piece> = Vec::new();
    let mut i: usize = 0;
    while i < parse_tree.pieces.len()
        invariant
            0 <= i <= parse_tree.pieces@.len(),
            forall|h: int| 0 <= h < parse_tree.pieces@.len() ==> piece_wf(#[trigger] parse_tree.pieces@[h]),
            pieces@.len() == i,
            forall|h: int|
                0 <= h < i ==> piece_succeeds(#[trigger] parse_tree.pieces@[h]) && piece_matches(
                    pieces@[h],
                    parse_tree.pieces@[h],
                ),
        decreases parse_tree.pieces@.len() - i,
    {
        match sequence_piece(&parse_tree.pieces[i]) {
            Err(e) => {
                assert(forall|h: int| 0 <= h < i ==> piece_succeeds(#[trigger] parse_tree.pieces@[h]));
                return Err(e);
            },
            Ok(piece) => {
                pieces.push(piece);
            },
        }
        i = i + 1;
    }
    Ok(pieces)
}

} // verus!
