//! Where a new lock ends up among those that it is joined with.
use vstd::prelude::*;

use crate::join_facts;
use crate::lock_model;
use crate::lock_model::{LockType, ProcessId, Segment};
use crate::segment_facts;

verus! {

/// Where only the lock at `h` touches others of its kind, it takes in all that it
/// touches, at the lowest position of them and of itself; the others stay in order.
pub(crate) proof fn lemma_coalesced_around(
    segments: Seq<Segment>,
    owner: ProcessId,
    lock_type: LockType,
    h: int,
) -> (m: int)
    requires
        join_facts::touch_only_at(segments, owner, lock_type, h),
    ensures
        ({
            let after = lock_model::coalesced(segments, owner, lock_type);
            &&& 0 <= m < after.len()
            &&& m <= h
            &&& after[m].is_kind(owner, lock_type)
            &&& after[m].start <= segments[h].start
            &&& segments[h].end <= after[m].end
            &&& after.remove(m) == segments.remove(h).filter(
                |s: Segment| !lock_model::joinable(s, segments[h], owner, lock_type),
            )
            &&& forall|k: int|
                0 <= k < m ==> !lock_model::joinable(
                    #[trigger] segments[k],
                    segments[h],
                    owner,
                    lock_type,
                )
            &&& m == h || lock_model::joinable(segments[m], segments[h], owner, lock_type)
        }),
    decreases segments.len(),
{
    let hub = segments[h];
    let keep = |s: Segment| !lock_model::joinable(s, hub, owner, lock_type);
    let rest = segments.remove(h);
    if exists|i: int, j: int| lock_model::is_first_pair(segments, owner, lock_type, i, j) {
        let (i, j) = choose|i: int, j: int|
            lock_model::is_first_pair(segments, owner, lock_type, i, j);
        segment_facts::lemma_coalesced_step(segments, owner, lock_type, i, j);
        join_facts::lemma_apart_from_join(segments, owner, lock_type, h, i, j);
        let next = lock_model::join_at(segments, i, j);
        assert(join_facts::touch_only_at(next, owner, lock_type, i)) by {
            join_facts::lemma_join_around(segments, owner, lock_type, h, i, j);
        }
        let m: int = lemma_coalesced_around(next, owner, lock_type, i);
        assert(i == h || j == h);
        assert forall|k: int| 0 <= k < i implies keep(#[trigger] segments[k]) by {
            assert(k < h);
        }
        assert(m == i) by {
            if m < i {
                join_facts::lemma_join_around(segments, owner, lock_type, h, i, j);
                assert(next[m] == segments[join_facts::before_join(m, j)]);
                assert(keep(segments[m]));
            }
        }
        assert(lock_model::joinable(segments[i], segments[j], owner, lock_type));
        m
    } else {
        assert forall|k: int| 0 <= k < rest.len() implies keep(#[trigger] rest[k]) by {
            let c: int = join_facts::before_join(k, h);
            assert(rest[k] == segments[c]);
            if lock_model::joinable(segments[c], hub, owner, lock_type) {
                if c < h {
                    segment_facts::lemma_first_pair_exists(segments, owner, lock_type, c, h);
                } else {
                    segment_facts::lemma_first_pair_exists(segments, owner, lock_type, h, c);
                }
            }
        }
        segment_facts::lemma_filter_all(rest, keep);
        assert forall|k: int| 0 <= k < h implies !lock_model::joinable(
            #[trigger] segments[k],
            hub,
            owner,
            lock_type,
        ) by {
            assert(rest[k] == segments[k]);
        }
        h
    }
}

/// Where in a tidy file a new lock ends up, once what its owner held on its range is
/// gone.
pub(crate) proof fn lemma_acquired_in_place(
    freed: Seq<Segment>,
    start: u64,
    end: u64,
    lock_type: LockType,
    owner: ProcessId,
) -> (m: int)
    requires
        start < end,
        forall|k: int| 0 <= k < freed.len() ==> (#[trigger] freed[k]).start < freed[k].end,
        lock_model::pairwise(freed, |a: Segment, b: Segment| lock_model::kept_apart(a, b)),
    ensures
        ({
            let after = lock_model::coalesced(
                freed.push(Segment { start, end, owner, lock_type }),
                owner,
                lock_type,
            );
            &&& 0 <= m < after.len()
            &&& m <= freed.len()
            &&& after[m].owner == owner && after[m].lock_type == lock_type
            &&& after[m].start <= start && end <= after[m].end
            &&& after.remove(m) == freed.filter(
                |s: Segment|
                    !(s.owner == owner && s.lock_type == lock_type && s.start <= end && start
                        <= s.end),
            )
            &&& forall|i: int|
                0 <= i < m ==> !((#[trigger] freed[i]).owner == owner && freed[i].lock_type
                    == lock_type && freed[i].start <= end && start <= freed[i].end)
            &&& m < freed.len() ==> freed[m].owner == owner && freed[m].lock_type == lock_type
                && freed[m].start <= end && start <= freed[m].end
        }),
{
    let new = Segment { start, end, owner, lock_type };
    let all = freed.push(new);
    let h: int = freed.len() as int;
    let apart = |a: Segment, b: Segment| lock_model::kept_apart(a, b);
    assert(join_facts::touch_only_at(all, owner, lock_type, h)) by {
        assert forall|k: int, l: int|
            #![trigger all[k], all[l]]
            0 <= k < all.len() && 0 <= l < all.len() && k != l && k != h && l
                != h implies !lock_model::joinable(all[k], all[l], owner, lock_type) by {
            assert(all[k] == freed[k] && all[l] == freed[l]);
            if k < l {
                assert(apart(freed[k], freed[l]));
            } else {
                assert(apart(freed[l], freed[k]));
            }
        }
    }
    let m: int = lemma_coalesced_around(all, owner, lock_type, h);
    assert(all.remove(h) =~= freed);
    segment_facts::lemma_filter_same(
        freed,
        |s: Segment| !lock_model::joinable(s, all[h], owner, lock_type),
        |s: Segment|
            !(s.owner == owner && s.lock_type == lock_type && s.start <= end && start <= s.end),
    );
    assert forall|i: int| 0 <= i < m implies !((#[trigger] freed[i]).owner == owner
        && freed[i].lock_type == lock_type && freed[i].start <= end && start <= freed[i].end) by {
        assert(all[i] == freed[i]);
    }
    if m < freed.len() {
        assert(all[m] == freed[m]);
    }
    m
}

/// Joining the locks of one kind leaves all others as they are, in their order.
pub(crate) proof fn lemma_coalesced_other_kinds(
    segments: Seq<Segment>,
    owner: ProcessId,
    lock_type: LockType,
)
    ensures
        lock_model::coalesced(segments, owner, lock_type).filter(
            |s: Segment| !(s.owner == owner && s.lock_type == lock_type),
        ) == segments.filter(|s: Segment| !(s.owner == owner && s.lock_type == lock_type)),
    decreases segments.len(),
{
    if exists|i: int, j: int| lock_model::is_first_pair(segments, owner, lock_type, i, j) {
        let (i, j) = choose|i: int, j: int|
            lock_model::is_first_pair(segments, owner, lock_type, i, j);
        let next = lock_model::join_at(segments, i, j);
        let other = |s: Segment| !(s.owner == owner && s.lock_type == lock_type);
        segment_facts::lemma_coalesced_step(segments, owner, lock_type, i, j);
        lemma_coalesced_other_kinds(next, owner, lock_type);
        join_facts::lemma_join_others(segments, j, i, j);
        assert(segments.remove(j)[i] == segments[i]);
        segment_facts::lemma_filter_without(next, other, i);
        segment_facts::lemma_filter_without(segments.remove(j), other, i);
        segment_facts::lemma_filter_without(segments, other, j);
    }
}

/// Every lock lies, once all are joined, in one of the same owner and type.
pub(crate) proof fn lemma_coalesced_contains(
    segments: Seq<Segment>,
    owner: ProcessId,
    lock_type: LockType,
    k: int,
) -> (l: int)
    requires
        0 <= k < segments.len(),
    ensures
        ({
            let after = lock_model::coalesced(segments, owner, lock_type);
            &&& 0 <= l < after.len()
            &&& after[l].is_kind(segments[k].owner, segments[k].lock_type)
            &&& after[l].start <= segments[k].start
            &&& segments[k].end <= after[l].end
        }),
    decreases segments.len(),
{
    if exists|i: int, j: int| lock_model::is_first_pair(segments, owner, lock_type, i, j) {
        let (i, j) = choose|i: int, j: int|
            lock_model::is_first_pair(segments, owner, lock_type, i, j);
        let next = lock_model::join_at(segments, i, j);
        segment_facts::lemma_coalesced_step(segments, owner, lock_type, i, j);
        let n: int = if k == j {
            i
        } else if k < j {
            k
        } else {
            k - 1
        };
        assert(next[n] == if n == i {
            lock_model::joined(segments[i], segments[j])
        } else {
            segments[k]
        });
        lemma_coalesced_contains(next, owner, lock_type, n)
    } else {
        k
    }
}

} // verus!
