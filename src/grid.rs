//! The common time grid of a voice: the lcm of all its bar lengths.

use crate::model::{
    bar_length, bar_wf, divisions_per_bar, fold_plays, fold_slots, fold_staves, play_wf,
    plays_voice, slot_factor, stave_wf, sum_lengths,
};
use crate::notes::{divides, lcm, lemma_divides_trans, lemma_divisor_le, lemma_lcm_multiple};
use crate::syntax::{note_length, BarNode, BarTypeNode, NoteNode, PieceNode, PlayNode, StaveNode};
use vstd::arithmetic::div_mod::lemma_mod_self_0;
use vstd::prelude::*;

verus! {

/// Every slot contributes a positive factor.
pub open spec fn slots_positive(s: Seq<BarTypeNode>) -> bool {
    forall|m: int| 0 <= m < s.len() ==> slot_factor(#[trigger] s[m]) > 0
}

/// Every slot of every stave contributes a positive factor.
pub open spec fn staves_positive(st: Seq<StaveNode>) -> bool {
    forall|j: int| 0 <= j < st.len() ==> slots_positive(#[trigger] st[j].bars@)
}

/// Every slot of every play block of `name` contributes a positive factor.
pub open spec fn plays_positive(plays: Seq<PlayNode>, name: Seq<char>) -> bool {
    forall|k: int|
        0 <= k < plays.len() && plays_voice(#[trigger] plays[k], name) ==> staves_positive(
            plays[k].staves@,
        )
}

proof fn lemma_self_divides(x: nat)
    requires
        x > 0,
    ensures
        divides(x, x),
{
    lemma_mod_self_0(x as int);
}

/// A prefix sum of event lengths grows by the next event and stays within the total.
pub proof fn lemma_sum_prefix(s: Seq<NoteNode>, i: int)
    requires
        0 <= i < s.len(),
    ensures
        sum_lengths(s.take(i + 1)) == sum_lengths(s.take(i)) + note_length(s[i]),
        sum_lengths(s.take(i + 1)) <= sum_lengths(s),
    decreases s.len(),
{
    assert(s.take(i + 1).drop_last() =~= s.take(i));
    if i + 1 == s.len() {
        assert(s.take(i + 1) =~= s);
    } else {
        let t = s.drop_last();
        lemma_sum_prefix(t, i);
        assert(t.take(i + 1) =~= s.take(i + 1));
        assert(t.take(i) =~= s.take(i));
    }
}

/// The fold over a prefix of the slots divides the fold over all of them.
pub proof fn lemma_fold_slots(a: nat, s: Seq<BarTypeNode>, i: int)
    requires
        a > 0,
        slots_positive(s),
        0 <= i <= s.len(),
    ensures
        fold_slots(a, s) > 0,
        fold_slots(a, s.take(i)) > 0,
        divides(fold_slots(a, s.take(i)), fold_slots(a, s)),
    decreases s.len(),
{
    if s.len() == 0 {
        assert(s.take(i) =~= s);
        lemma_self_divides(a);
    } else {
        let t = s.drop_last();
        assert(slots_positive(t)) by {
            assert forall|m: int| 0 <= m < t.len() implies slot_factor(#[trigger] t[m]) > 0 by {
                assert(t[m] == s[m]);
            }
        }
        let i2 = if i < s.len() {
            i
        } else {
            0
        };
        lemma_fold_slots(a, t, i2);
        assert(slot_factor(s[s.len() - 1]) > 0);
        lemma_lcm_multiple(fold_slots(a, t), slot_factor(s.last()));
        if i == s.len() {
            assert(s.take(i) =~= s);
            lemma_self_divides(fold_slots(a, s));
        } else {
            assert(s.take(i) =~= t.take(i));
            lemma_divides_trans(fold_slots(a, t.take(i)), fold_slots(a, t), fold_slots(a, s));
        }
    }
}

/// The fold over a prefix of the staves divides the fold over all of them.
pub proof fn lemma_fold_staves(a: nat, st: Seq<StaveNode>, j: int)
    requires
        a > 0,
        staves_positive(st),
        0 <= j <= st.len(),
    ensures
        fold_staves(a, st) > 0,
        fold_staves(a, st.take(j)) > 0,
        divides(fold_staves(a, st.take(j)), fold_staves(a, st)),
    decreases st.len(),
{
    if st.len() == 0 {
        assert(st.take(j) =~= st);
        lemma_self_divides(a);
    } else {
        let t = st.drop_last();
        assert(staves_positive(t)) by {
            assert forall|m: int| 0 <= m < t.len() implies slots_positive(#[trigger] t[m].bars@) by {
                assert(t[m] == st[m]);
            }
        }
        let j2 = if j < st.len() {
            j
        } else {
            0
        };
        lemma_fold_staves(a, t, j2);
        let bars = st.last().bars@;
        assert(slots_positive(st[st.len() - 1].bars@));
        lemma_fold_slots(fold_staves(a, t), bars, 0);
        assert(bars.take(0) =~= Seq::<BarTypeNode>::empty());
        if j == st.len() {
            assert(st.take(j) =~= st);
            lemma_self_divides(fold_staves(a, st));
        } else {
            assert(st.take(j) =~= t.take(j));
            lemma_divides_trans(fold_staves(a, t.take(j)), fold_staves(a, t), fold_staves(a, st));
        }
    }
}

/// The fold over a prefix of the play blocks divides the fold over all of them.
pub proof fn lemma_fold_plays(a: nat, plays: Seq<PlayNode>, name: Seq<char>, k: int)
    requires
        a > 0,
        plays_positive(plays, name),
        0 <= k <= plays.len(),
    ensures
        fold_plays(a, plays, name) > 0,
        fold_plays(a, plays.take(k), name) > 0,
        divides(fold_plays(a, plays.take(k), name), fold_plays(a, plays, name)),
    decreases plays.len(),
{
    if plays.len() == 0 {
        assert(plays.take(k) =~= plays);
        lemma_self_divides(a);
    } else {
        let t = plays.drop_last();
        assert(plays_positive(t, name)) by {
            assert forall|m: int| 0 <= m < t.len() && plays_voice(#[trigger] t[m], name) implies staves_positive(
                t[m].staves@,
            ) by {
                assert(t[m] == plays[m]);
            }
        }
        let k2 = if k < plays.len() {
            k
        } else {
            0
        };
        lemma_fold_plays(a, t, name, k2);
        let b = fold_plays(a, t, name);
        if plays_voice(plays.last(), name) {
            assert(staves_positive(plays[plays.len() - 1].staves@));
            lemma_fold_staves(b, plays.last().staves@, 0);
            assert(plays.last().staves@.take(0) =~= Seq::<StaveNode>::empty());
        } else {
            lemma_self_divides(b);
        }
        if k == plays.len() {
            assert(plays.take(k) =~= plays);
            lemma_self_divides(fold_plays(a, plays, name));
        } else {
            assert(plays.take(k) =~= t.take(k));
            lemma_divides_trans(
                fold_plays(a, t.take(k), name),
                b,
                fold_plays(a, plays, name),
            );
        }
    }
}

/// In a well-formed piece every slot of every play block contributes a positive factor.
pub proof fn lemma_plays_positive(p: PieceNode, name: Seq<char>)
    requires
        forall|k: int| 0 <= k < p.plays@.len() ==> play_wf(#[trigger] p.plays@[k]),
    ensures
        plays_positive(p.plays@, name),
{
    assert forall|k: int|
        0 <= k < p.plays@.len() && plays_voice(#[trigger] p.plays@[k], name) implies staves_positive(
            p.plays@[k].staves@,
        ) by {
        let st = p.plays@[k].staves@;
        assert(play_wf(p.plays@[k]));
        assert forall|j: int| 0 <= j < st.len() implies slots_positive(#[trigger] st[j].bars@) by {
            assert(stave_wf(st[j]));
            let bars = st[j].bars@;
            assert forall|m: int| 0 <= m < bars.len() implies slot_factor(#[trigger] bars[m]) > 0 by {
                if bars[m] is Bar {
                    assert(bar_wf(bars[m]->Bar_0));
                }
            }
        }
    }
}

/// Folding in the slots of stave `j` of play block `k` up to slot `i` gives a
/// divisor of the voice's grid, and so does the factor of slot `i`.
pub proof fn lemma_partial_divides(
    p: PieceNode,
    name: Seq<char>,
    k: int,
    j: int,
    i: int,
)
    requires
        forall|h: int| 0 <= h < p.plays@.len() ==> play_wf(#[trigger] p.plays@[h]),
        0 <= k < p.plays@.len(),
        plays_voice(p.plays@[k], name),
        0 <= j < p.plays@[k].staves@.len(),
        0 <= i < p.plays@[k].staves@[j].bars@.len(),
    ensures
        ({
            let y = fold_plays(1, p.plays@.take(k), name);
            let x = fold_staves(y, p.plays@[k].staves@.take(j));
            let bars = p.plays@[k].staves@[j].bars@;
            &&& fold_slots(x, bars.take(i)) > 0
            &&& fold_slots(x, bars.take(i + 1)) > 0
            &&& divides(fold_slots(x, bars.take(i + 1)), divisions_per_bar(p, name))
            &&& divides(slot_factor(bars[i]), divisions_per_bar(p, name))
            &&& divisions_per_bar(p, name) > 0
        }),
{
    let plays = p.plays@;
    let staves = plays[k].staves@;
    let bars = staves[j].bars@;
    let g = divisions_per_bar(p, name);
    lemma_plays_positive(p, name);
    lemma_fold_plays(1, plays, name, k);
    lemma_fold_plays(1, plays, name, k + 1);
    let y = fold_plays(1, plays.take(k), name);
    assert(staves_positive(staves));
    lemma_fold_staves(y, staves, j);
    lemma_fold_staves(y, staves, j + 1);
    let x = fold_staves(y, staves.take(j));
    assert(slots_positive(bars));
    lemma_fold_slots(x, bars, i);
    lemma_fold_slots(x, bars, i + 1);
    assert(bars.take(i + 1).drop_last() =~= bars.take(i));
    assert(staves.take(j + 1).drop_last() =~= staves.take(j));
    assert(plays.take(k + 1).drop_last() =~= plays.take(k));
    assert(slot_factor(bars[i]) > 0);
    lemma_lcm_multiple(fold_slots(x, bars.take(i)), slot_factor(bars[i]));
    let u = fold_slots(x, bars.take(i + 1));
    let whole_stave = fold_staves(y, staves.take(j + 1));
    let whole_play = fold_plays(1, plays.take(k + 1), name);
    assert(whole_stave == fold_slots(x, bars));
    assert(whole_play == fold_staves(y, staves));
    lemma_divides_trans(u, whole_stave, fold_staves(y, staves));
    lemma_divides_trans(u, whole_play, g);
    lemma_divides_trans(slot_factor(bars[i]), u, g);
}

/// The number of source subdivisions in a bar.
pub fn bar_length_of(b: &BarNode) -> (r: u32)
    requires
        bar_length(*b) <= u32::MAX,
    ensures
        r == bar_length(*b),
{
    let mut total: u32 = 0;
    let mut i: usize = 0;
    while i < b.notes.len()
        invariant
            0 <= i <= b.notes@.len(),
            total == sum_lengths(b.notes@.take(i as int)),
            bar_length(*b) <= u32::MAX,
        decreases b.notes@.len() - i,
    {
        proof {
            lemma_sum_prefix(b.notes@, i as int);
        }
        total = total + b.notes[i].length();
        i = i + 1;
    }
    assert(b.notes@.take(i as int) =~= b.notes@);
    total
}

/// Whether a play block is performed by the voice `name`.
pub fn names_voice(play: &PlayNode, name: &String) -> (r: bool)
    ensures
        r == plays_voice(*play, name@),
{
    match &play.voice {
        Some(v) => *v == *name,
        None => false,
    }
}

/// The common grid of the voice `name`: the lcm, seeded at 1, of the length
/// of every concrete bar (and 1 for every repeat marker) in its play blocks.
pub fn voice_divisions(p: &PieceNode, name: &String) -> (g: u32)
    requires
        forall|k: int| 0 <= k < p.plays@.len() ==> play_wf(#[trigger] p.plays@[k]),
        divisions_per_bar(*p, name@) <= u32::MAX,
    ensures
        g == divisions_per_bar(*p, name@),
{
    let ghost plays = p.plays@;
    let ghost total = divisions_per_bar(*p, name@);
    let mut acc: u32 = 1;
    let mut k: usize = 0;
    while k < p.plays.len()
        invariant
            0 <= k <= plays.len(),
            plays == p.plays@,
            total == divisions_per_bar(*p, name@),
            total <= u32::MAX,
            forall|h: int| 0 <= h < p.plays@.len() ==> play_wf(#[trigger] p.plays@[h]),
            acc == fold_plays(1, plays.take(k as int), name@),
        decreases plays.len() - k,
    {
        let play = &p.plays[k];
        assert(plays.take(k + 1).drop_last() =~= plays.take(k as int));
        if names_voice(play, name) {
            let ghost y = acc as nat;
            let mut j: usize = 0;
            while j < play.staves.len()
                invariant
                    0 <= j <= play.staves@.len(),
                    0 <= k < plays.len(),
                    plays == p.plays@,
                    *play == plays[k as int],
                    plays_voice(*play, name@),
                    y == fold_plays(1, plays.take(k as int), name@),
                    total == divisions_per_bar(*p, name@),
                    total <= u32::MAX,
                    forall|h: int| 0 <= h < p.plays@.len() ==> play_wf(#[trigger] p.plays@[h]),
                    acc == fold_staves(y, play.staves@.take(j as int)),
                decreases play.staves@.len() - j,
            {
                let stave = &play.staves[j];
                let ghost x = acc as nat;
                let mut i: usize = 0;
                while i < stave.bars.len()
                    invariant
                        0 <= i <= stave.bars@.len(),
                        0 <= j < play.staves@.len(),
                        0 <= k < plays.len(),
                        plays == p.plays@,
                        *play == plays[k as int],
                        *stave == play.staves@[j as int],
                        plays_voice(*play, name@),
                        y == fold_plays(1, plays.take(k as int), name@),
                        x == fold_staves(y, play.staves@.take(j as int)),
                        total == divisions_per_bar(*p, name@),
                        total <= u32::MAX,
                        forall|h: int| 0 <= h < p.plays@.len() ==> play_wf(#[trigger] p.plays@[h]),
                        acc == fold_slots(x, stave.bars@.take(i as int)),
                    decreases stave.bars@.len() - i,
                {
                    proof {
                        lemma_partial_divides(*p, name@, k as int, j as int, i as int);
                        lemma_divisor_le(slot_factor(stave.bars@[i as int]), total);
                        lemma_divisor_le(fold_slots(x, stave.bars@.take(i + 1)), total);
                        assert(stave.bars@.take(i + 1).drop_last() =~= stave.bars@.take(i as int));
                    }
                    let factor: u32 = match &stave.bars[i] {
                        BarTypeNode::Bar(b) => bar_length_of(b),
                        BarTypeNode::RepeatBar => 1,
                    };
                    acc = lcm(acc, factor);
                    i = i + 1;
                }
                assert(stave.bars@.take(i as int) =~= stave.bars@);
                assert(play.staves@.take(j + 1).drop_last() =~= play.staves@.take(j as int));
                j = j + 1;
            }
            assert(play.staves@.take(j as int) =~= play.staves@);
        }
        k = k + 1;
    }
    assert(plays.take(k as int) =~= plays);
    acc
}

} // verus!
