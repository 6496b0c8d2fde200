//! Properties of sequencing, stated over the model and proved.

use crate::error::{ErrorType, SequencingError, SourceLoc};
use crate::model::{
    bar_length, bar_wf, sum_lengths, walk_notes,
    divisions_per_bar, empty_walk, first_invalid_play, fold_plays, nearest_bar, octave_offset,
    piece_fails_with, piece_matches, piece_succeeds, play_is_valid, plays_voice, reports_play,
    sort_by_position, sorted_by_position, step, voice_matches, voice_walk, walk_bar, walk_plays,
    walk_slot, Walk,
};
use crate::grid::lemma_sum_prefix;
use crate::notes::{divides, spec_transposed, Midi, MAX_MIDI};
use vstd::arithmetic::div_mod::{lemma_fundamental_div_mod, lemma_mod_multiples_basic};
use crate::order::lemma_sort_sorted;
use crate::sequenced::{Piece, Voice};
use crate::syntax::{BarNode, BarTypeNode, NoteNode, PieceNode, PlayNode, StaveNode, VoiceNode};
use vstd::prelude::*;

verus! {

/// A piece with no voices and no play blocks is sequenced without error,
/// into a piece with no voices.
pub proof fn empty_piece_has_no_voices(p: PieceNode)
    requires
        p.voices@.len() == 0,
        p.plays@.len() == 0,
    ensures
        piece_succeeds(p),
        forall|out: Piece| piece_matches(out, p) ==> out.voices@.len() == 0,
{
}

proof fn lemma_fold_unplayed(plays: Seq<PlayNode>, name: Seq<char>)
    requires
        forall|k: int| 0 <= k < plays.len() ==> !plays_voice(#[trigger] plays[k], name),
    ensures
        fold_plays(1, plays, name) == 1,
    decreases plays.len(),
{
    if plays.len() > 0 {
        let t = plays.drop_last();
        assert(!plays_voice(plays[plays.len() - 1], name));
        assert forall|k: int| 0 <= k < t.len() implies !plays_voice(#[trigger] t[k], name) by {
            assert(t[k] == plays[k]);
        }
        lemma_fold_unplayed(t, name);
    }
}

proof fn lemma_walk_unplayed(w: Walk, plays: Seq<PlayNode>, k: int, name: Seq<char>, grid: int, t: i8)
    requires
        0 <= k,
        forall|h: int| 0 <= h < plays.len() ==> !plays_voice(#[trigger] plays[h], name),
    ensures
        walk_plays(w, plays, k, name, grid, t) == Ok::<Walk, SequencingError>(w),
    decreases plays.len() - k,
{
    if k < plays.len() {
        assert(!plays_voice(plays[k], name));
        lemma_walk_unplayed(w, plays, k + 1, name, grid, t);
    }
}

/// A voice that no play block names has a grid of one division per bar,
/// no notes and no bars.
pub proof fn unplayed_voice_is_empty(p: PieceNode, v: VoiceNode)
    requires
        forall|k: int| 0 <= k < p.plays@.len() ==> !plays_voice(#[trigger] p.plays@[k], v.name@),
    ensures
        divisions_per_bar(p, v.name@) == 1,
        voice_walk(p, v) == Ok::<Walk, SequencingError>(empty_walk()),
        forall|out: Voice|
            voice_matches(out, p, v) ==> out.divisions_per_bar == 1 && out.notes@.len() == 0
                && out.debug_bar_info@.len() == 0,
{
    lemma_fold_unplayed(p.plays@, v.name@);
    lemma_walk_unplayed(empty_walk(), p.plays@, 0, v.name@, 1, crate::model::voice_transpose(v));
    assert(sort_by_position(Seq::empty()) == Seq::<crate::sequenced::Note>::empty());
}

proof fn lemma_first_invalid_from(p: PieceNode, k: int, h: int)
    requires
        0 <= h <= k < p.plays@.len(),
        !play_is_valid(p, p.plays@[k]),
        forall|m: int| 0 <= m < k ==> play_is_valid(p, #[trigger] p.plays@[m]),
    ensures
        first_invalid_play(p, h) == Some(k),
    decreases k - h,
{
    if h < k {
        assert(play_is_valid(p, p.plays@[h]));
        lemma_first_invalid_from(p, k, h + 1);
    }
}

/// When play block `k` is the first whose reference names no declared
/// voice, sequencing the piece fails, and fails exactly with the error for
/// that block: `UndeclaredVoice` with its name at its location, or
/// `VoicelessPlayBlock` when it names no voice.
pub proof fn first_invalid_reference_fails(p: PieceNode, k: int)
    requires
        0 <= k < p.plays@.len(),
        !play_is_valid(p, p.plays@[k]),
        forall|m: int| 0 <= m < k ==> play_is_valid(p, #[trigger] p.plays@[m]),
    ensures
        !piece_succeeds(p),
        forall|e: SequencingError| piece_fails_with(p, e) <==> reports_play(e, p.plays@[k]),
{
    lemma_first_invalid_from(p, k, 0);
}

/// The notes of every sequenced voice are sorted by start position.
pub proof fn voice_notes_sorted(out: Voice, p: PieceNode, v: VoiceNode)
    requires
        voice_matches(out, p, v),
    ensures
        sorted_by_position(out.notes@),
{
    if let Ok(w) = voice_walk(p, v) {
        lemma_sort_sorted(w.notes);
    }
}

/// A note followed at once by a tie: the tie lengthens that note by the
/// tie's scaled length, and emits nothing.
pub proof fn tie_extends_previous_note(
    w: Walk,
    note_length: u8,
    midi: Midi,
    tie_length: u8,
    note_loc: SourceLoc,
    tie_loc: SourceLoc,
    scale: nat,
    transpose: i8,
)
    requires
        spec_transposed(midi, transpose) is Some,
        scale * note_length + scale * tie_length <= u32::MAX,
    ensures
        ({
            let w1 = step(w, NoteNode::Note { length: note_length, midi }, note_loc, scale as int, transpose)->Ok_0;
            let w2 = step(w1, NoteNode::Extension { length: tie_length }, tie_loc, scale as int, transpose)->Ok_0;
            &&& step(w1, NoteNode::Extension { length: tie_length }, tie_loc, scale as int, transpose) is Ok
            &&& w2.notes.len() == w1.notes.len()
            &&& w2.notes.drop_last() == w1.notes.drop_last()
            &&& w2.notes.last().length == scale * note_length + scale * tie_length
            &&& w2.notes.last().position == w1.notes.last().position
            &&& w2.notes.last().midi == w1.notes.last().midi
            &&& w2.cursor == w1.cursor + scale * tie_length
        }),
{
    let w1 = step(w, NoteNode::Note { length: note_length, midi }, note_loc, scale as int, transpose)->Ok_0;
    let w2 = step(w1, NoteNode::Extension { length: tie_length }, tie_loc, scale as int, transpose)->Ok_0;
    assert(scale * note_length <= u32::MAX) by (nonlinear_arith)
        requires
            scale * note_length + scale * tie_length <= u32::MAX,
            scale * tie_length >= 0,
    ;
    assert(w2.notes.drop_last() =~= w1.notes.drop_last());
}

/// A tie with no note to extend is absorbed: time advances, nothing changes.
pub proof fn leading_tie_absorbed(w: Walk, length: u8, loc: SourceLoc, scale: int, transpose: i8)
    requires
        !w.prev,
    ensures
        step(w, NoteNode::Extension { length }, loc, scale, transpose) == Ok::<Walk, SequencingError>(
            Walk { cursor: w.cursor + scale * length, ..w },
        ),
{
}

/// The nearest concrete bar before slot `i` is a concrete bar at some
/// earlier slot `j`, with only repeat markers between the two.
pub proof fn nearest_bar_is_nearest(bars: Seq<BarTypeNode>, i: int)
    requires
        0 <= i <= bars.len(),
    ensures
        nearest_bar(bars, i) matches Some(b) ==> exists|j: int|
            0 <= j < i && bars[j] == BarTypeNode::Bar(b) && forall|m: int|
                j < m < i ==> #[trigger] bars[m] is RepeatBar,
        nearest_bar(bars, i) is None ==> forall|m: int| 0 <= m < i ==> #[trigger] bars[m] is RepeatBar,
    decreases i,
{
    if i > 0 {
        nearest_bar_is_nearest(bars, i - 1);
        if let BarTypeNode::Bar(b) = bars[i - 1] {
            assert(forall|m: int| i - 1 < m < i ==> #[trigger] bars[m] is RepeatBar);
        } else {
            if let Some(b) = nearest_bar(bars, i - 1) {
                let j = choose|j: int|
                    0 <= j < i - 1 && bars[j] == BarTypeNode::Bar(b) && forall|m: int|
                        j < m < i - 1 ==> #[trigger] bars[m] is RepeatBar;
                assert(forall|m: int| j < m < i ==> #[trigger] bars[m] is RepeatBar);
            }
        }
    }
}

/// A repeat marker at slot `i` plays the nearest earlier concrete bar of its
/// stave as that bar would be played at slot `i` (its notes from
/// `i * grid` on), with no note to tie into; with no such bar it fails with
/// `NothingToRepeat` at the marker's location.
pub proof fn repeat_plays_nearest_bar(w: Walk, s: StaveNode, i: int, grid: int, transpose: i8)
    requires
        0 <= i < s.bars@.len(),
        s.bars@[i] is RepeatBar,
    ensures
        nearest_bar(s.bars@, i) matches Some(b) ==> walk_slot(w, s, i, grid, transpose) == walk_bar(
            Walk { prev: false, ..w },
            b,
            i,
            grid,
            transpose,
        ),
        nearest_bar(s.bars@, i) is None ==> walk_slot(w, s, i, grid, transpose) == Err::<
            Walk,
            SequencingError,
        >(SequencingError { loc: s.bar_locs@[i], error: ErrorType::NothingToRepeat }),
{
}

/// A note whose transposed pitch leaves `0..=127` fails with `InvalidNote`
/// at that note's location.
pub proof fn out_of_range_note_fails(
    w: Walk,
    length: u8,
    midi: Midi,
    loc: SourceLoc,
    scale: int,
    transpose: i8,
)
    requires
        midi.number + transpose < 0 || midi.number + transpose > MAX_MIDI,
    ensures
        step(w, NoteNode::Note { length, midi }, loc, scale, transpose) == Err::<Walk, SequencingError>(
            SequencingError {
                loc,
                error: ErrorType::InvalidNote { octave_offset: octave_offset(transpose) },
            },
        ),
{
}

proof fn lemma_mod_step(c: int, scale: int, l: int)
    requires
        scale > 0,
        l >= 0,
        c % scale == 0,
    ensures
        (c + scale * l) % scale == 0,
{
    lemma_fundamental_div_mod(c, scale);
    let q = c / scale;
    assert(c + scale * l == (q + l) * scale) by (nonlinear_arith)
        requires
            c == scale * q,
    ;
    lemma_mod_multiples_basic(q + l, scale);
}

proof fn lemma_walk_notes_on_scale(w: Walk, b: BarNode, i: int, scale: int, t: i8)
    requires
        0 <= i <= b.notes@.len(),
        scale > 0,
        w.cursor >= 0,
        w.cursor % scale == 0,
        w.prev ==> w.notes.len() > 0,
        w.cursor + scale * (bar_length(b) - sum_lengths(b.notes@.take(i))) <= u32::MAX,
        sum_lengths(b.notes@.take(i)) <= bar_length(b),
    ensures
        walk_notes(w, b, i, scale, t) matches Ok(w2) ==> {
            &&& w2.notes.len() >= w.notes.len()
            &&& forall|m: int| 0 <= m < w.notes.len() ==> #[trigger] w2.notes[m].position == w.notes[m].position
            &&& forall|m: int|
                w.notes.len() <= m < w2.notes.len() ==> (#[trigger] w2.notes[m].position as int) % scale == 0
        },
    decreases b.notes@.len() - i,
{
    if i < b.notes@.len() {
        let n = b.notes@[i];
        lemma_sum_prefix(b.notes@, i);
        let before = sum_lengths(b.notes@.take(i));
        let after = sum_lengths(b.notes@.take(i + 1));
        let l = note_len_of(n);
        assert(w.cursor + scale * l + scale * (bar_length(b) - after) == w.cursor + scale * (
        bar_length(b) - before)) by (nonlinear_arith)
            requires
                after == before + l,
        ;
        assert(scale * (bar_length(b) - after) >= 0) by (nonlinear_arith)
            requires
                scale > 0,
                after <= bar_length(b),
        ;
        assert(scale * l >= 0) by (nonlinear_arith)
            requires
                scale > 0,
                l >= 0,
        ;
        lemma_mod_step(w.cursor, scale, l);
        if let Ok(w1) = step(w, n, b.note_locs@[i], scale, t) {
            assert(w1.cursor == w.cursor + scale * l);
            lemma_walk_notes_on_scale(w1, b, i + 1, scale, t);
            if let Ok(w2) = walk_notes(w1, b, i + 1, scale, t) {
                assert forall|m: int| 0 <= m < w.notes.len() implies #[trigger] w2.notes[m].position
                    == w.notes[m].position by {
                    assert(w2.notes[m].position == w1.notes[m].position);
                }
                assert forall|m: int| w.notes.len() <= m < w2.notes.len() implies (#[trigger] w2.notes[m].position
                    as int) % scale == 0 by {
                    if m < w1.notes.len() {
                        assert(w2.notes[m].position == w1.notes[m].position);
                    }
                }
            }
        }
    }
}

/// The length of a note event, as an integer.
spec fn note_len_of(n: NoteNode) -> int {
    crate::syntax::note_length(n) as int
}

/// Every note that a concrete bar emits starts on one of the bar's own
/// subdivisions of the grid: at a multiple of `grid / bar_length(b)`. So
/// staves that divide a bar differently place their notes on their own
/// steps of the common grid. Notes emitted before keep their positions.
pub proof fn bar_notes_on_own_subdivisions(w: Walk, b: BarNode, index: nat, grid: nat, t: i8)
    requires
        bar_wf(b),
        divides(bar_length(b), grid),
        grid > 0,
        (index + 1) * grid <= u32::MAX,
        w.prev ==> w.notes.len() > 0,
    ensures
        walk_bar(w, b, index as int, grid as int, t) matches Ok(w2) ==> {
            &&& w2.notes.len() >= w.notes.len()
            &&& forall|m: int| 0 <= m < w.notes.len() ==> #[trigger] w2.notes[m].position == w.notes[m].position
            &&& forall|m: int|
                w.notes.len() <= m < w2.notes.len() ==> (#[trigger] w2.notes[m].position as int) % (
                    grid as int / bar_length(b) as int) == 0
        },
{
    let len = bar_length(b) as int;
    let scale = grid as int / len;
    lemma_fundamental_div_mod(grid as int, len);
    assert(scale * len == grid);
    assert(scale > 0) by (nonlinear_arith)
        requires
            scale * len == grid,
            grid > 0,
            len > 0,
    ;
    assert(b.notes@.take(0) =~= Seq::<NoteNode>::empty());
    let start = index * grid;
    assert(start == scale * (len * index)) by (nonlinear_arith)
        requires
            scale * len == grid,
            start == index * grid,
    ;
    assert(len * index >= 0) by (nonlinear_arith)
        requires
            len > 0,
    ;
    lemma_mod_multiples_basic(len * index, scale);
    assert((len * index) * scale == scale * (len * index)) by (nonlinear_arith);
    assert(start + scale * len <= u32::MAX) by (nonlinear_arith)
        requires
            scale * len == grid,
            start == index * grid,
            (index + 1) * grid <= u32::MAX,
    ;
    let w0 = Walk {
        info: w.info.push(
            crate::sequenced::DebugBarInfo {
                loc: b.note_locs@[0],
                divisions_in_source: bar_length(b) as u32,
            },
        ),
        cursor: (index * grid) as int,
        ..w
    };
    lemma_walk_notes_on_scale(w0, b, 0, scale, t);
}

/// `w1` is `w2` with every note from index `base` on, and the cursor, later by `d`.
spec fn shifted(w1: Walk, w2: Walk, base: int, d: int) -> bool {
    &&& w1.notes.len() == w2.notes.len()
    &&& base <= w1.notes.len()
    &&& forall|m: int| 0 <= m < base ==> #[trigger] w1.notes[m] == w2.notes[m]
    &&& forall|m: int|
        base <= m < w1.notes.len() ==> {
            &&& (#[trigger] w1.notes[m]).midi == w2.notes[m].midi
            &&& w1.notes[m].length == w2.notes[m].length
            &&& w1.notes[m].position as int == w2.notes[m].position as int + d
        }
    &&& w1.info == w2.info
    &&& w1.prev == w2.prev
    &&& w1.prev ==> w1.notes.len() > base
    &&& w1.cursor == w2.cursor + d
}

proof fn lemma_walk_notes_shifted(
    w1: Walk,
    w2: Walk,
    base: int,
    d: int,
    b: BarNode,
    i: int,
    scale: int,
    t: i8,
)
    requires
        0 <= i <= b.notes@.len(),
        0 <= base,
        0 <= d,
        scale > 0,
        w2.cursor >= 0,
        shifted(w1, w2, base, d),
        w1.cursor + scale * (bar_length(b) - sum_lengths(b.notes@.take(i))) <= u32::MAX,
        sum_lengths(b.notes@.take(i)) <= bar_length(b),
    ensures
        match (walk_notes(w1, b, i, scale, t), walk_notes(w2, b, i, scale, t)) {
            (Ok(a), Ok(c)) => shifted(a, c, base, d),
            (Err(e1), Err(e2)) => e1 == e2,
            _ => false,
        },
    decreases b.notes@.len() - i,
{
    if i < b.notes@.len() {
        let n = b.notes@[i];
        let loc = b.note_locs@[i];
        lemma_sum_prefix(b.notes@, i);
        let before = sum_lengths(b.notes@.take(i));
        let after = sum_lengths(b.notes@.take(i + 1));
        let l = note_len_of(n);
        assert(w1.cursor + scale * l + scale * (bar_length(b) - after) == w1.cursor + scale * (
        bar_length(b) - before)) by (nonlinear_arith)
            requires
                after == before + l,
        ;
        assert(scale * (bar_length(b) - after) >= 0) by (nonlinear_arith)
            requires
                scale > 0,
                after <= bar_length(b),
        ;
        assert(scale * l >= 0) by (nonlinear_arith)
            requires
                scale > 0,
                l >= 0,
        ;
        let s1 = step(w1, n, loc, scale, t);
        let s2 = step(w2, n, loc, scale, t);
        if let (Ok(v1), Ok(v2)) = (s1, s2) {
            assert(shifted(v1, v2, base, d)) by {
                if n is Extension && w1.prev {
                    let k = w1.notes.len() - 1;
                    assert forall|m: int| 0 <= m < base implies #[trigger] v1.notes[m] == v2.notes[m] by {
                        assert(v1.notes[m] == w1.notes[m]);
                        assert(v2.notes[m] == w2.notes[m]);
                    }
                    assert forall|m: int| base <= m < v1.notes.len() implies {
                        &&& (#[trigger] v1.notes[m]).midi == v2.notes[m].midi
                        &&& v1.notes[m].length == v2.notes[m].length
                        &&& v1.notes[m].position as int == v2.notes[m].position as int + d
                    } by {
                        if m != k {
                            assert(v1.notes[m] == w1.notes[m]);
                            assert(v2.notes[m] == w2.notes[m]);
                        }
                    }
                }
                if n is Note {
                    assert forall|m: int| 0 <= m < base implies #[trigger] v1.notes[m] == v2.notes[m] by {
                        assert(v1.notes[m] == w1.notes[m]);
                        assert(v2.notes[m] == w2.notes[m]);
                    }
                    assert forall|m: int| base <= m < v1.notes.len() implies {
                        &&& (#[trigger] v1.notes[m]).midi == v2.notes[m].midi
                        &&& v1.notes[m].length == v2.notes[m].length
                        &&& v1.notes[m].position as int == v2.notes[m].position as int + d
                    } by {
                        if m < w1.notes.len() {
                            assert(v1.notes[m] == w1.notes[m]);
                            assert(v2.notes[m] == w2.notes[m]);
                        }
                    }
                }
            }
            lemma_walk_notes_shifted(v1, v2, base, d, b, i + 1, scale, t);
        }
    }
}

/// A bar played at slot `i` with no note to tie into emits the same notes
/// as when played at an earlier slot `j` from the same state: same pitches
/// and lengths, each starting `(i - j) * grid` later. Both fail alike.
pub proof fn bar_replays_shifted(w: Walk, b: BarNode, i: nat, j: nat, grid: nat, t: i8)
    requires
        bar_wf(b),
        divides(bar_length(b), grid),
        grid > 0,
        j <= i,
        (i + 1) * grid <= u32::MAX,
        !w.prev,
    ensures
        match (walk_bar(w, b, i as int, grid as int, t), walk_bar(w, b, j as int, grid as int, t)) {
            (Ok(a), Ok(c)) => {
                &&& a.notes.len() == c.notes.len()
                &&& a.info == c.info
                &&& forall|m: int| 0 <= m < w.notes.len() ==> #[trigger] a.notes[m] == c.notes[m]
                &&& forall|m: int|
                    w.notes.len() <= m < a.notes.len() ==> {
                        &&& (#[trigger] a.notes[m]).midi == c.notes[m].midi
                        &&& a.notes[m].length == c.notes[m].length
                        &&& a.notes[m].position as int == c.notes[m].position as int + (i - j) * grid
                    }
            },
            (Err(e1), Err(e2)) => e1 == e2,
            _ => false,
        },
{
    let len = bar_length(b) as int;
    let scale = grid as int / len;
    lemma_fundamental_div_mod(grid as int, len);
    assert(scale * len == grid);
    assert(scale > 0) by (nonlinear_arith)
        requires
            scale * len == grid,
            grid > 0,
            len > 0,
    ;
    assert(b.notes@.take(0) =~= Seq::<NoteNode>::empty());
    let d = (i - j) * grid;
    assert(i * grid == j * grid + d && d >= 0 && j * grid >= 0) by (nonlinear_arith)
        requires
            j <= i,
            d == (i - j) * grid,
    ;
    assert(i * grid + scale * len <= u32::MAX) by (nonlinear_arith)
        requires
            scale * len == grid,
            (i + 1) * grid <= u32::MAX,
    ;
    let info = w.info.push(
        crate::sequenced::DebugBarInfo { loc: b.note_locs@[0], divisions_in_source: bar_length(b) as u32 },
    );
    let w1 = Walk { info, cursor: (i * grid) as int, ..w };
    let w2 = Walk { info, cursor: (j * grid) as int, ..w };
    assert(shifted(w1, w2, w.notes.len() as int, d));
    lemma_walk_notes_shifted(w1, w2, w.notes.len() as int, d, b, 0, scale, t);
}

} // verus!
