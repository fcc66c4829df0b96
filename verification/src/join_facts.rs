//! What joining two locks changes for the others.
use vstd::prelude::*;

use crate::lock_model;
use crate::lock_model::{LockType, ProcessId, Segment};
use crate::segment_facts;

verus! {

/// A lock that is apart from one of two locks touches the join of both where it
/// touches the other.
proof fn lemma_joined_touches(
    a: Segment,
    b: Segment,
    c: Segment,
    owner: ProcessId,
    lock_type: LockType,
)
    requires
        lock_model::joinable(a, b, owner, lock_type),
        a.start < a.end,
        b.start < b.end,
        c.start < c.end,
    ensures
        !lock_model::joinable(c, b, owner, lock_type) ==> lock_model::joinable(
            c,
            lock_model::joined(a, b),
            owner,
            lock_type,
        ) == lock_model::joinable(c, a, owner, lock_type),
        !lock_model::joinable(c, a, owner, lock_type) ==> lock_model::joinable(
            c,
            lock_model::joined(a, b),
            owner,
            lock_type,
        ) == lock_model::joinable(c, b, owner, lock_type),
{
}

/// Only the lock at `h` touches others of its kind.
pub(crate) open spec fn touch_only_at(
    segments: Seq<Segment>,
    owner: ProcessId,
    lock_type: LockType,
    h: int,
) -> bool {
    &&& 0 <= h < segments.len()
    &&& segments[h].is_kind(owner, lock_type)
    &&& forall|k: int|
        0 <= k < segments.len() ==> (#[trigger] segments[k]).start < segments[k].end
    &&& forall|k: int, l: int|
        #![trigger segments[k], segments[l]]
        0 <= k < segments.len() && 0 <= l < segments.len() && k != l && k != h && l != h
            ==> !lock_model::joinable(segments[k], segments[l], owner, lock_type)
}

/// The position before a join at `i` and `j` of what stands at `k` after it.
pub(crate) open spec fn before_join(k: int, j: int) -> int {
    if k < j {
        k
    } else {
        k + 1
    }
}

/// Joining the first pair around the lock at `h` leaves a lock at `i` that alone
/// touches others of its kind, and that touches what the lock at `h` touched
/// besides the one that it has taken in.
pub(crate) proof fn lemma_join_around(
    segments: Seq<Segment>,
    owner: ProcessId,
    lock_type: LockType,
    h: int,
    i: int,
    j: int,
)
    requires
        touch_only_at(segments, owner, lock_type, h),
        lock_model::is_first_pair(segments, owner, lock_type, i, j),
    ensures
        i == h || j == h,
        touch_only_at(lock_model::join_at(segments, i, j), owner, lock_type, i),
        lock_model::join_at(segments, i, j)[i] == lock_model::joined(segments[i], segments[j]),
        forall|k: int|
            0 <= k < segments.len() - 1 && k != i ==> {
                let next = #[trigger] lock_model::join_at(segments, i, j)[k];
                &&& next == segments[before_join(k, j)]
                &&& lock_model::joinable(
                    next,
                    lock_model::joined(segments[i], segments[j]),
                    owner,
                    lock_type,
                ) == lock_model::joinable(next, segments[h], owner, lock_type)
            },
{
    let o: int = if i == h {
        j
    } else {
        i
    };
    assert(i == h || j == h);
    let next = lock_model::join_at(segments, i, j);
    let wide = lock_model::joined(segments[i], segments[j]);
    assert forall|k: int| 0 <= k < next.len() && k != i implies #[trigger] next[k]
        == segments[before_join(k, j)] && lock_model::joinable(next[k], wide, owner, lock_type)
        == lock_model::joinable(next[k], segments[h], owner, lock_type) by {
        let c: int = before_join(k, j);
        assert(next[k] == segments[c]);
        assert(!lock_model::joinable(segments[c], segments[o], owner, lock_type));
        lemma_joined_touches(segments[i], segments[j], segments[c], owner, lock_type);
    }
}

/// Without the lock that it is joined with, and without the join, the others are
/// those besides both.
pub(crate) proof fn lemma_join_others(segments: Seq<Segment>, h: int, i: int, j: int)
    requires
        0 <= i < j < segments.len(),
        i == h || j == h,
    ensures
        lock_model::join_at(segments, i, j).remove(i) == segments.remove(j).remove(i),
        i == h ==> segments.remove(h).remove(j - 1) == segments.remove(j).remove(i),
{
    assert(lock_model::join_at(segments, i, j).remove(i) =~= segments.remove(j).remove(i));
    if i == h {
        assert(segments.remove(h).remove(j - 1) =~= segments.remove(j).remove(i));
    }
}

/// What is apart from the join of the first pair is what is apart from the lock at
/// `h`, in the same order.
pub(crate) proof fn lemma_apart_from_join(
    segments: Seq<Segment>,
    owner: ProcessId,
    lock_type: LockType,
    h: int,
    i: int,
    j: int,
)
    requires
        touch_only_at(segments, owner, lock_type, h),
        lock_model::is_first_pair(segments, owner, lock_type, i, j),
    ensures
        lock_model::join_at(segments, i, j).remove(i).filter(
            |s: Segment|
                !lock_model::joinable(
                    s,
                    lock_model::join_at(segments, i, j)[i],
                    owner,
                    lock_type,
                ),
        ) == segments.remove(h).filter(
            |s: Segment| !lock_model::joinable(s, segments[h], owner, lock_type),
        ),
{
    lemma_join_around(segments, owner, lock_type, h, i, j);
    lemma_join_others(segments, h, i, j);
    let hub = segments[h];
    let next = lock_model::join_at(segments, i, j);
    let wide = next[i];
    let others = next.remove(i);
    let keep = |s: Segment| !lock_model::joinable(s, hub, owner, lock_type);
    let keep_next = |s: Segment| !lock_model::joinable(s, wide, owner, lock_type);
    assert forall|k: int| 0 <= k < others.len() implies keep_next(#[trigger] others[k]) == keep(
        others[k],
    ) by {
        let c: int = before_join(k, i);
        assert(others[k] == next[c]);
    }
    segment_facts::lemma_filter_same(others, keep_next, keep);
    let rest = segments.remove(h);
    if i == h {
        assert(rest[j - 1] == segments[j]);
        segment_facts::lemma_filter_without(rest, keep, j - 1);
    } else {
        assert(rest[i] == segments[i]);
        segment_facts::lemma_filter_without(rest, keep, i);
    }
}

} // verus!
