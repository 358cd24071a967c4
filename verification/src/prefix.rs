//! How far a sequence of pages can be reused: every page up to the end of the
//! reused part needs its regular group, and the last one its trailing group.

use crate::geometry::ComponentMask;
use vstd::prelude::*;

verus! {

/// Reuse that starts at `from` may end before page `end`.
pub open spec fn is_boundary(masks: Seq<ComponentMask>, from: int, end: int) -> bool {
    &&& from < end <= masks.len()
    &&& forall|i: int| from <= i < end ==> (#[trigger] masks[i]).regular
    &&& masks[end - 1].trailing
}

/// `end` is the farthest boundary, or `from` where there is none.
pub open spec fn is_usable_prefix(masks: Seq<ComponentMask>, from: int, end: int) -> bool {
    &&& end == from || is_boundary(masks, from, end)
    &&& forall|k: int| #[trigger] is_boundary(masks, from, k) ==> k <= end
}

/// Where reuse that starts at `from` ends at the latest.
pub open spec fn usable_prefix(masks: Seq<ComponentMask>, from: int) -> int {
    choose|end: int| is_usable_prefix(masks, from, end)
}

pub proof fn lemma_usable_prefix(masks: Seq<ComponentMask>, from: int, end: int)
    requires
        is_usable_prefix(masks, from, end),
    ensures
        usable_prefix(masks, from) == end,
{
    let other = usable_prefix(masks, from);
    assert(is_usable_prefix(masks, from, other));
}

/// Where no page has a regular group, nothing can be reused.
pub proof fn lemma_nothing_usable(masks: Seq<ComponentMask>, from: int)
    requires
        0 <= from,
        forall|i: int| 0 <= i < masks.len() ==> !(#[trigger] masks[i]).regular,
    ensures
        usable_prefix(masks, from) == from,
{
    assert forall|k: int| #[trigger] is_boundary(masks, from, k) implies k <= from by {
        assert(masks[from].regular);
    }
    lemma_usable_prefix(masks, from, from);
}

/// There is always a farthest boundary, at or after the start of the scan and
/// not after the end of the sequence.
pub proof fn lemma_usable_prefix_bounds(masks: Seq<ComponentMask>, from: int)
    requires
        0 <= from,
    ensures
        is_usable_prefix(masks, from, usable_prefix(masks, from)),
        from <= usable_prefix(masks, from),
        from <= masks.len() ==> usable_prefix(masks, from) <= masks.len(),
        from >= masks.len() ==> usable_prefix(masks, from) == from,
{
    if from >= masks.len() {
        assert(is_usable_prefix(masks, from, from));
    } else {
        let end = lemma_scan(masks, from, from, from);
        assert(is_usable_prefix(masks, from, end));
    }
}

/// Scans on from `next`, before which `best` is the farthest boundary.
proof fn lemma_scan(masks: Seq<ComponentMask>, from: int, next: int, best: int) -> (end: int)
    requires
        0 <= from <= next <= masks.len(),
        forall|i: int| from <= i < next ==> (#[trigger] masks[i]).regular,
        is_usable_prefix(masks.take(next), from, best),
    ensures
        is_usable_prefix(masks, from, end),
    decreases masks.len() - next,
{
    if next == masks.len() {
        assert(masks.take(next) =~= masks);
        best
    } else {
        lemma_scan_step(masks, from, next, best);
        if masks[next].regular {
            lemma_scan(masks, from, next + 1, if masks[next].trailing { next + 1 } else { best })
        } else {
            best
        }
    }
}

/// One more page of a scan for the farthest boundary.
///
/// `best` is the farthest boundary among the pages before `next`, all of which
/// have their regular group.
pub proof fn lemma_scan_step(masks: Seq<ComponentMask>, from: int, next: int, best: int)
    requires
        0 <= from <= next < masks.len(),
        forall|i: int| from <= i < next ==> (#[trigger] masks[i]).regular,
        is_usable_prefix(masks.take(next), from, best),
    ensures
        !masks[next].regular ==> is_usable_prefix(masks, from, best),
        masks[next].regular ==> is_usable_prefix(
            masks.take(next + 1),
            from,
            if masks[next].trailing { next + 1 } else { best },
        ),
{
    let short = masks.take(next);
    let long = masks.take(next + 1);
    assert forall|k: int| k <= next implies (is_boundary(masks, from, k) <==> #[trigger] is_boundary(
        short,
        from,
        k,
    )) by {
        if is_boundary(masks, from, k) {
            assert forall|i: int| from <= i < k implies (#[trigger] short[i]).regular by {
                assert(short[i] == masks[i]);
            }
        }
        if is_boundary(short, from, k) {
            assert forall|i: int| from <= i < k implies (#[trigger] masks[i]).regular by {
                assert(short[i] == masks[i]);
            }
        }
    }
    if masks[next].regular {
        assert forall|k: int| k <= next implies (is_boundary(long, from, k) <==> #[trigger]
            is_boundary(short, from, k)) by {
            if is_boundary(long, from, k) {
                assert forall|i: int| from <= i < k implies (#[trigger] short[i]).regular by {
                    assert(short[i] == long[i]);
                }
            }
            if is_boundary(short, from, k) {
                assert forall|i: int| from <= i < k implies (#[trigger] long[i]).regular by {
                    assert(short[i] == long[i]);
                }
            }
        }
        let found = if masks[next].trailing { next + 1 } else { best };
        assert(masks[next].trailing ==> is_boundary(long, from, next + 1));
        assert forall|k: int| #[trigger] is_boundary(long, from, k) implies k <= found by {
            if k <= next {
                assert(is_boundary(short, from, k));
            } else {
                assert(long[k - 1] == masks[next]);
            }
        }
        if found != from && !masks[next].trailing {
            assert(is_boundary(short, from, best));
            assert(is_boundary(long, from, best));
        }
    } else {
        assert forall|k: int| #[trigger] is_boundary(masks, from, k) implies k <= best by {
            if k > next {
                assert(masks[next].regular);
            } else {
                assert(is_boundary(short, from, k));
            }
        }
        if best != from {
            assert(is_boundary(short, from, best));
            assert(is_boundary(masks, from, best));
        }
    }
}

} // verus!
