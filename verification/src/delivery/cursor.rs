//! A subscription's progress: which messages of the log are done.

use crate::store::codec::{CursorRecord, CursorView};
use vstd::prelude::*;

verus! {

broadcast use vstd::std_specs::btree::group_btree_axioms;

/// The message is done: acknowledged, filtered out, or forwarded.
pub open spec fn is_done(cursor: CursorView, seq: u64) -> bool {
    seq <= cursor.acked_floor || cursor.acked_above_floor.contains(seq)
}

/// The end of the unbroken run of messages in `above` that starts right behind `floor`; `floor`
/// itself when there is none.
pub open spec fn run_end(above: Set<u64>, floor: u64) -> u64
    decreases u64::MAX - floor,
{
    if floor < u64::MAX && above.contains((floor + 1) as u64) {
        run_end(above, (floor + 1) as u64)
    } else {
        floor
    }
}

/// The cursor once a message is done. The floor moves over the message and the run behind it, if
/// the message is the next one above the floor.
pub open spec fn marked(cursor: CursorView, seq: u64) -> CursorView {
    if seq <= cursor.acked_floor {
        cursor
    } else if seq == cursor.acked_floor + 1 {
        let end = run_end(cursor.acked_above_floor, seq);
        CursorView {
            acked_floor: end,
            acked_above_floor: cursor.acked_above_floor.filter(
                |s: u64| !(seq < s && s <= end),
            ),
            ..cursor
        }
    } else {
        CursorView { acked_above_floor: cursor.acked_above_floor.insert(seq), ..cursor }
    }
}

/// No message is noted one by one that the floor covers or could move over.
pub open spec fn is_tight(cursor: CursorView) -> bool {
    &&& forall|s: u64| #[trigger]
        cursor.acked_above_floor.contains(s) ==> s > cursor.acked_floor + 1
}

proof fn lemma_run_end(above: Set<u64>, floor: u64)
    ensures
        floor <= run_end(above, floor),
        forall|s: u64| floor < s <= run_end(above, floor) ==> #[trigger] above.contains(s),
        run_end(above, floor) < u64::MAX ==> !above.contains((run_end(above, floor) + 1) as u64),
    decreases u64::MAX - floor,
{
    if floor < u64::MAX && above.contains((floor + 1) as u64) {
        lemma_run_end(above, (floor + 1) as u64);
    }
}

proof fn lemma_run_end_is(above: Set<u64>, floor: u64, end: u64)
    requires
        floor <= end,
        forall|s: u64| floor < s <= end ==> #[trigger] above.contains(s),
        end < u64::MAX ==> !above.contains((end + 1) as u64),
    ensures
        run_end(above, floor) == end,
    decreases end - floor,
{
    if floor < end {
        assert(above.contains((floor + 1) as u64));
        lemma_run_end_is(above, (floor + 1) as u64, end);
    }
}

/// Marking a message as done makes that message done, and no other message changes.
pub proof fn law_marking_adds_one_message(cursor: CursorView, seq: u64, other: u64)
    ensures
        is_done(marked(cursor, seq), other) <==> is_done(cursor, other) || other == seq,
{
    if seq == cursor.acked_floor + 1 {
        lemma_run_end(cursor.acked_above_floor, seq);
    }
}

/// What is done stays done, and marking a message twice is marking it once.
pub proof fn law_marking_twice(cursor: CursorView, seq: u64)
    requires
        is_tight(cursor),
    ensures
        marked(marked(cursor, seq), seq) == marked(cursor, seq),
{
    if seq == cursor.acked_floor + 1 {
        lemma_run_end(cursor.acked_above_floor, seq);
    } else if seq > cursor.acked_floor {
        assert(cursor.acked_above_floor.insert(seq).insert(seq)
            =~= cursor.acked_above_floor.insert(seq));
    }
}

/// A tight cursor stays tight.
pub proof fn law_marking_keeps_tight(cursor: CursorView, seq: u64)
    requires
        is_tight(cursor),
    ensures
        is_tight(marked(cursor, seq)),
        marked(cursor, seq).acked_floor >= cursor.acked_floor,
        marked(cursor, seq).attach_seq == cursor.attach_seq,
{
    if seq == cursor.acked_floor + 1 {
        let above = cursor.acked_above_floor;
        let end = run_end(above, seq);
        lemma_run_end(above, seq);
        assert forall|s: u64| #[trigger]
            marked(cursor, seq).acked_above_floor.contains(s) implies s > end + 1 by {
            assert(above.contains(s));
            if s <= end + 1 {
                if s <= end {
                    assert(s > seq);
                } else {
                    assert(s == (end + 1) as u64);
                }
            }
        }
    }
}

/// The order in which messages are done does not matter: a tight cursor is determined by which
/// messages are done.
pub proof fn law_tight_cursors_agree(a: CursorView, b: CursorView)
    requires
        is_tight(a),
        is_tight(b),
        a.attach_seq == b.attach_seq,
        forall|s: u64| is_done(a, s) <==> is_done(b, s),
    ensures
        a == b,
{
    lemma_floor_reaches(a, b);
    lemma_floor_reaches(b, a);
    assert forall|s: u64| a.acked_above_floor.contains(s) <==> b.acked_above_floor.contains(s) by {
        assert(is_done(a, s) <==> is_done(b, s));
    }
    assert(a.acked_above_floor =~= b.acked_above_floor);
}

proof fn lemma_floor_reaches(a: CursorView, b: CursorView)
    requires
        is_tight(a),
        forall|s: u64| is_done(a, s) <==> is_done(b, s),
    ensures
        a.acked_floor >= b.acked_floor,
{
    if a.acked_floor < b.acked_floor {
        let next = (a.acked_floor + 1) as u64;
        assert(is_done(b, next));
        assert(is_done(a, next));
        assert(a.acked_above_floor.contains(next));
    }
}

/// Whether a message is done.
pub fn done(cursor: &CursorRecord, seq: u64) -> (r: bool)
    ensures
        r == is_done(cursor@, seq),
{
    seq <= cursor.acked_floor || cursor.acked_above_floor.contains(&seq)
}

/// Marks a message as done.
pub fn mark_done(cursor: &mut CursorRecord, seq: u64)
    ensures
        final(cursor)@ == marked(old(cursor)@, seq),
{
    if seq <= cursor.acked_floor {
        return;
    }
    let ghost above = cursor@.acked_above_floor;
    if seq - 1 == cursor.acked_floor {
        cursor.acked_floor = seq;
        let mut more = seq < u64::MAX;
        assert(above.filter(|s: u64| !(seq < s && s <= seq)) =~= above);
        while more
            invariant
                above == old(cursor)@.acked_above_floor,
                seq <= cursor.acked_floor,
                cursor.attach_seq == old(cursor).attach_seq,
                more ==> cursor.acked_floor < u64::MAX,
                forall|s: u64| seq < s <= cursor.acked_floor ==> #[trigger] above.contains(s),
                !more ==> cursor.acked_floor == u64::MAX || !above.contains(
                    (cursor.acked_floor + 1) as u64,
                ),
                cursor@.acked_above_floor == above.filter(
                    |s: u64| !(seq < s && s <= cursor.acked_floor),
                ),
            decreases
                    (if more {
                        1int
                    } else {
                        0int
                    }) + u64::MAX - cursor.acked_floor,
        {
            let next: u64 = cursor.acked_floor + 1;
            let ghost here = cursor.acked_floor;
            let ghost set = cursor@.acked_above_floor;
            assert(set.contains(next) <==> above.contains(next));
            if cursor.acked_above_floor.remove(&next) {
                cursor.acked_floor = next;
                more = next < u64::MAX;
                assert(set.remove(next) =~= above.filter(|s: u64| !(seq < s && s <= next)));
            } else {
                more = false;
                assert(set =~= above.filter(|s: u64| !(seq < s && s <= here)));
            }
        }
        proof {
            lemma_run_end_is(above, seq, cursor.acked_floor);
            let end = cursor.acked_floor;
            assert(cursor@.acked_above_floor =~= above.filter(
                |s: u64| !(seq < s && s <= end),
            ));
        }
    } else {
        cursor.acked_above_floor.insert(seq);
    }
}

} // verus!
