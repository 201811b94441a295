//! Background notes in the order in which they sound.

use crate::chart::{notes_ok, BackgroundNote};
use crate::tempo::ascending;
use crate::time::{lemma_at_or_before_transitive, lemma_order_total, ObjTime};
use std::cmp::Ordering;
use vstd::prelude::*;

verus! {

/// `x` put into `sorted` behind every note that does not come after it.
pub open spec fn insert_note(sorted: Seq<BackgroundNote>, x: BackgroundNote) -> Seq<
    BackgroundNote,
>
    decreases sorted.len(),
{
    if sorted.len() == 0 {
        seq![x]
    } else if x.offset.precedes(sorted.last().offset) {
        insert_note(sorted.drop_last(), x).push(sorted.last())
    } else {
        sorted.push(x)
    }
}

/// The notes by ascending position, notes at one instant in the order
/// in which they were given.
pub open spec fn stable_sorted(notes: Seq<BackgroundNote>) -> Seq<BackgroundNote>
    decreases notes.len(),
{
    if notes.len() == 0 {
        Seq::empty()
    } else {
        insert_note(stable_sorted(notes.drop_last()), notes.last())
    }
}

/// Compares two positions.
pub fn order_of(a: &ObjTime, b: &ObjTime) -> (r: Ordering)
    ensures
        (r == Ordering::Less) == a.precedes(*b),
        (r == Ordering::Greater) == b.precedes(*a),
{
    if a.is_before(b) {
        Ordering::Less
    } else if b.is_before(a) {
        Ordering::Greater
    } else {
        Ordering::Equal
    }
}

/// `itertools::Itertools::sorted_by`, called with `order_of` on the notes'
/// positions. It is documented as a stable ascending sort, which is what
/// `stable_sorted` describes.
#[verifier::external_body]
pub(crate) fn sort_by_offset(notes: &Vec<BackgroundNote>) -> (r: Vec<BackgroundNote>)
    requires
        notes_ok(notes@),
    ensures
        r@ == stable_sorted(notes@),
{
    itertools::Itertools::sorted_by(notes.iter().copied(), |a, b| order_of(&a.offset, &b.offset))
        .collect()
}

/// Inserting a note adds it and keeps the others.
pub proof fn lemma_insert_members(sorted: Seq<BackgroundNote>, x: BackgroundNote)
    ensures
        insert_note(sorted, x).len() == sorted.len() + 1,
        insert_note(sorted, x).contains(x),
        forall|y: BackgroundNote| sorted.contains(y) ==> insert_note(sorted, x).contains(y),
        forall|y: BackgroundNote|
            insert_note(sorted, x).contains(y) ==> y == x || sorted.contains(y),
    decreases sorted.len(),
{
    let out = insert_note(sorted, x);
    if sorted.len() == 0 {
        assert(out[0] == x);
    } else if x.offset.precedes(sorted.last().offset) {
        let head = sorted.drop_last();
        let inner = insert_note(head, x);
        lemma_insert_members(head, x);
        assert(out == inner.push(sorted.last()));
        let w = choose|i: int| 0 <= i < inner.len() && inner[i] == x;
        assert(out[w] == x);
        assert forall|y: BackgroundNote| sorted.contains(y) implies out.contains(y) by {
            let i = choose|i: int| 0 <= i < sorted.len() && sorted[i] == y;
            if i == sorted.len() - 1 {
                assert(out[out.len() - 1] == y);
            } else {
                assert(head[i] == y);
                assert(head.contains(y));
                assert(inner.contains(y));
                let j = choose|j: int| 0 <= j < inner.len() && inner[j] == y;
                assert(out[j] == y);
            }
        }
        assert forall|y: BackgroundNote| out.contains(y) implies y == x || sorted.contains(y) by {
            let i = choose|i: int| 0 <= i < out.len() && out[i] == y;
            if i == out.len() - 1 {
                assert(sorted[sorted.len() - 1] == y);
            } else {
                assert(inner[i] == y);
                assert(inner.contains(y));
                if y != x {
                    assert(head.contains(y));
                    let j = choose|j: int| 0 <= j < head.len() && head[j] == y;
                    assert(sorted[j] == y);
                }
            }
        }
    } else {
        assert(out == sorted.push(x));
        assert(out[sorted.len() as int] == x);
        assert forall|y: BackgroundNote| sorted.contains(y) implies out.contains(y) by {
            let i = choose|i: int| 0 <= i < sorted.len() && sorted[i] == y;
            assert(out[i] == y);
        }
        assert forall|y: BackgroundNote| out.contains(y) implies y == x || sorted.contains(y) by {
            let i = choose|i: int| 0 <= i < out.len() && out[i] == y;
            if i < sorted.len() {
                assert(sorted[i] == y);
            }
        }
    }
}

/// Sorting keeps every note and invents none.
pub proof fn lemma_sorted_members(notes: Seq<BackgroundNote>)
    ensures
        stable_sorted(notes).len() == notes.len(),
        forall|y: BackgroundNote| notes.contains(y) <==> stable_sorted(notes).contains(y),
    decreases notes.len(),
{
    if notes.len() > 0 {
        let head = notes.drop_last();
        lemma_sorted_members(head);
        lemma_insert_members(stable_sorted(head), notes.last());
        let out = stable_sorted(notes);
        assert forall|y: BackgroundNote| notes.contains(y) implies out.contains(y) by {
            let i = choose|i: int| 0 <= i < notes.len() && notes[i] == y;
            if i < notes.len() - 1 {
                assert(head[i] == y);
                assert(head.contains(y));
            }
        }
        assert forall|y: BackgroundNote| out.contains(y) implies notes.contains(y) by {
            if y == notes.last() {
                assert(notes[notes.len() - 1] == y);
            } else {
                assert(head.contains(y));
                let j = choose|j: int| 0 <= j < head.len() && head[j] == y;
                assert(notes[j] == y);
            }
        }
    }
}

/// Sorted notes are as well formed as the notes given.
pub proof fn lemma_sorted_notes_ok(notes: Seq<BackgroundNote>)
    requires
        notes_ok(notes),
    ensures
        notes_ok(stable_sorted(notes)),
{
    lemma_sorted_members(notes);
    let out = stable_sorted(notes);
    assert forall|i: int| 0 <= i < out.len() implies (#[trigger] out[i]).offset.wf() by {
        let y = out[i];
        assert(out.contains(y));
        assert(notes.contains(y));
        let j = choose|j: int| 0 <= j < notes.len() && notes[j] == y;
        assert(notes[j].offset.wf());
    }
}

/// Inserting into ascending notes leaves them ascending.
pub proof fn lemma_insert_ascending(sorted: Seq<BackgroundNote>, x: BackgroundNote)
    requires
        notes_ok(sorted),
        x.offset.wf(),
        ascending(sorted),
    ensures
        ascending(insert_note(sorted, x)),
    decreases sorted.len(),
{
    let out = insert_note(sorted, x);
    lemma_insert_members(sorted, x);
    if sorted.len() == 0 {
    } else if x.offset.precedes(sorted.last().offset) {
        let head = sorted.drop_last();
        let inner = insert_note(head, x);
        let last = sorted.last();
        assert forall|i: int, j: int| 0 <= i < j < head.len() implies !(
        #[trigger] head[j]).offset.precedes((#[trigger] head[i]).offset) by {
            assert(head[i] == sorted[i] && head[j] == sorted[j]);
        }
        assert forall|i: int| 0 <= i < head.len() implies (#[trigger] head[i]).offset.wf() by {
            assert(head[i] == sorted[i]);
        }
        lemma_insert_ascending(head, x);
        lemma_insert_members(head, x);
        assert forall|i: int, j: int| 0 <= i < j < out.len() implies !(
        #[trigger] out[j]).offset.precedes((#[trigger] out[i]).offset) by {
            if j < inner.len() {
                assert(out[i] == inner[i] && out[j] == inner[j]);
            } else {
                let y = inner[i];
                assert(out[i] == y && out[j] == last);
                assert(inner.contains(y));
                if y == x {
                    lemma_order_total(x.offset, last.offset);
                } else {
                    assert(head.contains(y));
                    let m = choose|m: int| 0 <= m < head.len() && head[m] == y;
                    assert(sorted[m] == y);
                    assert(!sorted[sorted.len() - 1].offset.precedes(sorted[m].offset));
                }
            }
        }
    } else {
        let last = sorted.last();
        assert forall|i: int, j: int| 0 <= i < j < out.len() implies !(
        #[trigger] out[j]).offset.precedes((#[trigger] out[i]).offset) by {
            if j < sorted.len() {
                assert(out[i] == sorted[i] && out[j] == sorted[j]);
            } else {
                let y = sorted[i];
                assert(out[i] == y && out[j] == x);
                if x.offset.precedes(y.offset) {
                    lemma_order_total(y.offset, last.offset);
                    if i < sorted.len() - 1 {
                        assert(!sorted[sorted.len() - 1].offset.precedes(sorted[i].offset));
                    }
                    assert(y.offset.at_or_before(last.offset));
                    assert(sorted[sorted.len() - 1].offset.wf());
                    lemma_at_or_before_transitive(x.offset, y.offset, last.offset);
                }
            }
        }
    }
}

/// Sorted notes ascend.
pub proof fn lemma_sorted_ascending(notes: Seq<BackgroundNote>)
    requires
        notes_ok(notes),
    ensures
        ascending(stable_sorted(notes)),
    decreases notes.len(),
{
    if notes.len() > 0 {
        let head = notes.drop_last();
        assert forall|i: int| 0 <= i < head.len() implies (#[trigger] head[i]).offset.wf() by {
            assert(head[i] == notes[i]);
        }
        lemma_sorted_ascending(head);
        lemma_sorted_notes_ok(head);
        assert(notes[notes.len() - 1].offset.wf());
        lemma_insert_ascending(stable_sorted(head), notes.last());
    }
}

} // verus!
