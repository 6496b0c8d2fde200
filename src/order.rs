//! Stable ordering of emitted notes by start position.

use crate::model::{insert_by_position, sort_by_position, sorted_by_position};
use crate::sequenced::Note;
use vstd::prelude::*;

verus! {

/// Inserting into a sorted sequence keeps it sorted, and no position in the
/// result exceeds the larger of the last position and the inserted one.
pub proof fn lemma_insert_sorted(s: Seq<Note>, n: Note)
    requires
        sorted_by_position(s),
    ensures
        sorted_by_position(insert_by_position(s, n)),
        insert_by_position(s, n).len() == s.len() + 1,
        forall|i: int|
            0 <= i < s.len() + 1 ==> #[trigger] insert_by_position(s, n)[i].position <= (if s.len()
                > 0 && s.last().position > n.position {
                s.last().position
            } else {
                n.position
            }),
    decreases s.len(),
{
    if s.len() > 0 && s.last().position > n.position {
        let t = s.drop_last();
        assert(sorted_by_position(t));
        lemma_insert_sorted(t, n);
        let r = insert_by_position(t, n);
        if t.len() > 0 {
            assert(t.last().position <= s.last().position);
        }
        assert forall|i: int| 0 <= i < r.len() implies #[trigger] r[i].position <= s.last().position by {
            assert(r[i].position <= s.last().position);
        }
    } else {
        if s.len() > 0 {
            assert forall|i: int| 0 <= i < s.len() implies s[i].position <= s.last().position by {
                if i < s.len() - 1 {
                    assert(s[i].position <= s[s.len() - 1].position);
                }
            }
        }
    }
}

/// The stable sort by position yields a sorted sequence of the same length.
pub proof fn lemma_sort_sorted(s: Seq<Note>)
    ensures
        sorted_by_position(sort_by_position(s)),
        sort_by_position(s).len() == s.len(),
    decreases s.len(),
{
    if s.len() > 0 {
        lemma_sort_sorted(s.drop_last());
        lemma_insert_sorted(sort_by_position(s.drop_last()), s.last());
    }
}

/// Inserting `n` before a tail of notes that all start after it.
proof fn lemma_insert_split(s: Seq<Note>, n: Note, j: int)
    requires
        0 <= j <= s.len(),
        forall|m: int| j <= m < s.len() ==> #[trigger] s[m].position > n.position,
    ensures
        insert_by_position(s, n) =~= insert_by_position(s.take(j), n) + s.subrange(j, s.len() as int),
    decreases s.len(),
{
    if j == s.len() {
        assert(s.take(j) =~= s);
    } else {
        let t = s.drop_last();
        assert(s.last().position > n.position);
        lemma_insert_split(t, n, j);
        assert(t.take(j) =~= s.take(j));
        assert(t.subrange(j, t.len() as int).push(s.last()) =~= s.subrange(j, s.len() as int));
    }
}

/// Inserts `n` into the sorted notes after every note that does not start later.
pub fn insert_note(v: &mut Vec<Note>, n: Note)
    ensures
        final(v)@ == insert_by_position(old(v)@, n),
{
    let ghost s = old(v)@;
    let len = v.len();
    v.push(n);
    let mut j: usize = len;
    while j > 0 && v[j - 1].position > n.position
        invariant
            j <= len,
            len == s.len(),
            v@ =~= s.take(j as int) + seq![n] + s.subrange(j as int, len as int),
            forall|m: int| j <= m < len ==> #[trigger] s[m].position > n.position,
        decreases j,
    {
        let moved = v[j - 1];
        assert(moved == s[j - 1]);
        v[j] = moved;
        v[j - 1] = n;
        j = j - 1;
        assert(v@ =~= s.take(j as int) + seq![n] + s.subrange(j as int, len as int));
    }
    proof {
        lemma_insert_split(s, n, j as int);
        if j > 0 {
            assert(s.take(j as int).last() == s[j - 1]);
        }
        assert(v@ =~= insert_by_position(s.take(j as int), n) + s.subrange(j as int, len as int));
    }
}

/// The notes stably sorted by start position.
pub fn sort_notes(notes: &Vec<Note>) -> (r: Vec<Note>)
    ensures
        r@ == sort_by_position(notes@),
        sorted_by_position(r@),
{
    let mut r: Vec<Note> = Vec::new();
    let mut i: usize = 0;
    while i < notes.len()
        invariant
            0 <= i <= notes@.len(),
            r@ == sort_by_position(notes@.take(i as int)),
        decreases notes@.len() - i,
    {
        assert(notes@.take(i + 1).drop_last() =~= notes@.take(i as int));
        insert_note(&mut r, notes[i]);
        i = i + 1;
    }
    assert(notes@.take(i as int) =~= notes@);
    proof {
        lemma_sort_sorted(notes@);
    }
    r
}

} // verus!
