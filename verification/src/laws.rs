//! What holds of every lock table: which requests conflict, what a lock and an
//! unlock change and leave alone, and who is woken.
use vstd::prelude::*;

use crate::lock_model;
use crate::lock_model::{FileKey, FileLocks, LockType, LockWaiter, ProcessId, Segment};
use crate::segment_facts;

verus! {

/// A request is refused just where a lock of another process reaches into the
/// range and not both locks are shared.
pub proof fn law_refused_iff_blocked(
    locks: FileLocks,
    start: u64,
    end: u64,
    lock_type: LockType,
    requester: ProcessId,
)
    ensures
        locks.first_conflict(start, end, lock_type, requester) is Some <==> exists|i: int|
            0 <= i < locks.segments.len() && (#[trigger] locks.segments[i]).owner != requester
                && locks.segments[i].reaches(start, end) && !(lock_type is Shared
                && locks.segments[i].lock_type is Shared),
{
    segment_facts::lemma_first_conflict(locks.segments, start, end, lock_type, requester);
    match locks.first_conflict(start, end, lock_type, requester) {
        Some(conflict) => {
            let i = choose|i: int|
                0 <= i < locks.segments.len() && locks.segments[i] == conflict;
            assert(locks.segments[i].owner != requester);
        },
        None => {},
    }
}

/// A process never conflicts with its own locks: its requests are answered as if
/// it held none.
pub proof fn law_own_locks_never_conflict(
    locks: FileLocks,
    start: u64,
    end: u64,
    lock_type: LockType,
    requester: ProcessId,
)
    ensures
        locks.first_conflict(start, end, lock_type, requester) == lock_model::first_conflict(
            locks.segments.filter(|s: Segment| s.owner != requester),
            start,
            end,
            lock_type,
            requester,
        ),
{
    let foreign = |s: Segment| s.owner != requester;
    let blocking = |s: Segment| s.blocks(start, end, lock_type, requester);
    segment_facts::lemma_filter_twice(locks.segments, foreign, blocking);
}

/// Two shared locks are always compatible: a shared request is never refused in
/// favour of a shared lock.
pub proof fn law_shared_locks_are_compatible(
    locks: FileLocks,
    start: u64,
    end: u64,
    requester: ProcessId,
)
    ensures
        locks.first_conflict(start, end, LockType::Shared, requester) matches Some(conflict)
            ==> conflict.lock_type is Exclusive,
{
    segment_facts::lemma_first_conflict(locks.segments, start, end, LockType::Shared, requester);
}

/// Whether two locks conflict does not depend on which of them came first.
pub proof fn law_conflict_is_mutual(a: Segment, b: Segment)
    ensures
        a.blocks(b.start, b.end, b.lock_type, b.owner) <==> b.blocks(
            a.start,
            a.end,
            a.lock_type,
            a.owner,
        ),
{
}

/// A granted lock is held on each byte of the range, in place of what the
/// process held there; what it holds elsewhere stays as it was, and so does all
/// that other processes hold.
pub proof fn law_lock_replaces(
    locks: FileLocks,
    start: u64,
    end: u64,
    lock_type: LockType,
    owner: ProcessId,
    holder: ProcessId,
    held: LockType,
    b: int,
)
    ensures
        locks.locked(start, end, lock_type, owner).holds(holder, held, b) <==> (if holder == owner
            && start <= b < end {
            held == lock_type
        } else {
            locks.holds(holder, held, b)
        }),
{
    let carved = lock_model::carved(locks.segments, start, end, owner);
    let new = Segment { start, end, owner, lock_type };
    segment_facts::lemma_carved_holds(locks.segments, start, end, owner, holder, held, b);
    segment_facts::lemma_holds_add(carved, seq![new], holder, held, b);
    assert(carved.push(new) =~= carved + seq![new]);
    assert(seq![new][0] == new);
    segment_facts::lemma_coalesced_holds(
        carved.push(new),
        owner,
        lock_type,
        holder,
        held,
        b,
    );
}

/// A process that releases a range holds nothing on it any more; what it holds
/// elsewhere stays as it was, and so does all that other processes hold.
pub proof fn law_unlock_releases(
    locks: FileLocks,
    start: u64,
    end: u64,
    owner: ProcessId,
    holder: ProcessId,
    held: LockType,
    b: int,
)
    ensures
        locks.released(start, end, owner).holds(holder, held, b) <==> (locks.holds(holder, held, b)
            && !(holder == owner && start <= b < end)),
{
    segment_facts::lemma_carved_holds(locks.segments, start, end, owner, holder, held, b);
}

/// What a process locks or releases leaves the locks of all other processes in
/// place, each whole and in its order.
pub proof fn law_locks_of_others_stay(
    locks: FileLocks,
    start: u64,
    end: u64,
    lock_type: LockType,
    owner: ProcessId,
)
    ensures
        locks.locked(start, end, lock_type, owner).segments.filter(|s: Segment| s.owner != owner)
            == locks.segments.filter(|s: Segment| s.owner != owner),
        locks.released(start, end, owner).segments.filter(|s: Segment| s.owner != owner)
            == locks.segments.filter(|s: Segment| s.owner != owner),
{
    reveal(Seq::filter);
    let carved = lock_model::carved(locks.segments, start, end, owner);
    let new = Segment { start, end, owner, lock_type };
    segment_facts::lemma_carved_foreign(locks.segments, start, end, owner);
    segment_facts::lemma_coalesced_foreign(carved.push(new), owner, lock_type);
    assert(carved.push(new).drop_last() =~= carved);
}

/// A granted lock keeps a file coherent: no byte is locked twice by one process,
/// and none that is locked exclusively is locked by another process too. Left out
/// are only ranges that end before they start and lie in a lock of the other type
/// that the process holds.
pub proof fn law_lock_keeps_coherent(
    locks: FileLocks,
    start: u64,
    end: u64,
    lock_type: LockType,
    owner: ProcessId,
)
    requires
        locks.coherent(),
        start <= end || forall|i: int|
            0 <= i < locks.segments.len() && (#[trigger] locks.segments[i]).is_cut(
                start,
                end,
                owner,
            ) ==> locks.segments[i].lock_type == lock_type,
        locks.first_conflict(start, end, lock_type, owner) is None,
    ensures
        locks.locked(start, end, lock_type, owner).coherent(),
{
    let carved = lock_model::carved(locks.segments, start, end, owner);
    let new = Segment { start, end, owner, lock_type };
    let all = carved.push(new);
    let related = |a: Segment, b: Segment|
        segment_facts::alike_or_in_harmony(a, b, owner, lock_type);
    segment_facts::lemma_carved_in_harmony(locks.segments, start, end, owner, lock_type);
    segment_facts::lemma_carved_parts(locks.segments, start, end, owner);
    segment_facts::lemma_first_conflict(locks.segments, start, end, lock_type, owner);
    assert forall|i: int, j: int|
        #![trigger all[i], all[j]]
        0 <= i < j < all.len() implies related(all[i], all[j]) by {
        if j < carved.len() {
            assert(related(carved[i], carved[j]));
        } else {
            let old_lock = carved[i];
            assert forall|x: int| #[trigger] old_lock.covers(x) && new.covers(x) implies
                old_lock.owner != new.owner && old_lock.lock_type is Shared
                && new.lock_type is Shared by {
                if old_lock.owner == owner {
                    segment_facts::lemma_carved_holds(
                        locks.segments,
                        start,
                        end,
                        owner,
                        owner,
                        old_lock.lock_type,
                        x,
                    );
                    assert(carved[i].is_kind(owner, old_lock.lock_type));
                    assert(lock_model::holds(carved, owner, old_lock.lock_type, x));
                } else {
                    let k = choose|k: int|
                        0 <= k < locks.segments.len() && locks.segments[k] == old_lock;
                    assert(!locks.segments[k].blocks(start, end, lock_type, owner));
                }
            }
        }
    }
    segment_facts::lemma_coalesced_in_harmony(all, owner, lock_type);
}

/// A release keeps a file coherent. Left out are only ranges that end before they
/// start and lie in a lock that the process holds.
pub proof fn law_unlock_keeps_coherent(
    locks: FileLocks,
    start: u64,
    end: u64,
    owner: ProcessId,
)
    requires
        locks.coherent(),
        start <= end || forall|i: int|
            0 <= i < locks.segments.len() ==> !(#[trigger] locks.segments[i]).is_cut(
                start,
                end,
                owner,
            ),
    ensures
        locks.released(start, end, owner).coherent(),
{
    if start <= end {
        let carved = lock_model::carved(locks.segments, start, end, owner);
        segment_facts::lemma_carved_in_harmony(
            locks.segments,
            start,
            end,
            owner,
            LockType::Shared,
        );
        segment_facts::lemma_carved_in_harmony(
            locks.segments,
            start,
            end,
            owner,
            LockType::Exclusive,
        );
        let shared = |a: Segment, b: Segment|
            segment_facts::alike_or_in_harmony(a, b, owner, LockType::Shared);
        let exclusive = |a: Segment, b: Segment|
            segment_facts::alike_or_in_harmony(a, b, owner, LockType::Exclusive);
        let harmony = |a: Segment, b: Segment| lock_model::in_harmony(a, b);
        assert forall|i: int, j: int|
            #![trigger carved[i], carved[j]]
            0 <= i < j < carved.len() implies harmony(carved[i], carved[j]) by {
            assert(shared(carved[i], carved[j]));
            assert(exclusive(carved[i], carved[j]));
        }
    } else {
        segment_facts::lemma_nothing_carved(locks.segments, start, end, owner);
    }
}

/// A lock keeps a file tidy: what one process holds without a gap with one type
/// stays one lock, and no lock is empty. Left out are only empty ranges that touch
/// no lock of the same type, or split one of the other, that the process holds.
pub proof fn law_lock_keeps_tidy(
    locks: FileLocks,
    start: u64,
    end: u64,
    lock_type: LockType,
    owner: ProcessId,
)
    requires
        locks.tidy(),
        start < end || {
            &&& forall|i: int|
                0 <= i < locks.segments.len() && (#[trigger] locks.segments[i]).is_cut(
                    start,
                    end,
                    owner,
                ) ==> locks.segments[i].lock_type == lock_type
            &&& exists|i: int|
                0 <= i < locks.segments.len() && lock_model::joinable(
                    #[trigger] locks.segments[i],
                    Segment { start, end, owner, lock_type },
                    owner,
                    lock_type,
                )
        },
    ensures
        locks.locked(start, end, lock_type, owner).tidy(),
{
    let carved = lock_model::carved(locks.segments, start, end, owner);
    let new = Segment { start, end, owner, lock_type };
    let all = carved.push(new);
    let after = lock_model::coalesced(all, owner, lock_type);
    let related = |a: Segment, b: Segment| segment_facts::alike_or_apart(a, b, owner, lock_type);
    let apart = |a: Segment, b: Segment| lock_model::kept_apart(a, b);
    segment_facts::lemma_carved_apart(locks.segments, start, end, owner, lock_type);
    segment_facts::lemma_carved_nonempty(locks.segments, start, end, owner);
    assert forall|i: int, j: int|
        #![trigger all[i], all[j]]
        0 <= i < j < all.len() implies related(all[i], all[j]) by {
        if j < carved.len() {
            assert(related(carved[i], carved[j]));
        }
    }
    assert forall|k: int| 0 <= k < all.len() implies #[trigger] segment_facts::full_or_joinable(
        all,
        owner,
        lock_type,
        k,
    ) by {
        if k < carved.len() {
            assert(carved[k].start < carved[k].end);
        } else if start >= end {
            let i = choose|i: int|
                0 <= i < locks.segments.len() && lock_model::joinable(
                    #[trigger] locks.segments[i],
                    new,
                    owner,
                    lock_type,
                );
            let l = segment_facts::lemma_carved_neighbour(
                locks.segments,
                start,
                end,
                lock_type,
                owner,
                i,
            );
            assert(all[l] == carved[l]);
        }
    }
    segment_facts::lemma_coalesced_pairwise(all, owner, lock_type, related);
    segment_facts::lemma_coalesced_done(all, owner, lock_type);
    segment_facts::lemma_coalesced_full(all, owner, lock_type);
    assert forall|i: int, j: int|
        #![trigger after[i], after[j]]
        0 <= i < j < after.len() implies apart(after[i], after[j]) by {
        assert(related(after[i], after[j]));
    }
}

/// A release keeps a file tidy. Left out are only empty ranges that split a lock
/// that the process holds.
pub proof fn law_unlock_keeps_tidy(locks: FileLocks, start: u64, end: u64, owner: ProcessId)
    requires
        locks.tidy(),
        start < end || forall|i: int|
            0 <= i < locks.segments.len() ==> !(#[trigger] locks.segments[i]).is_cut(
                start,
                end,
                owner,
            ),
    ensures
        locks.released(start, end, owner).tidy(),
{
    if start < end {
        let carved = lock_model::carved(locks.segments, start, end, owner);
        segment_facts::lemma_carved_apart(locks.segments, start, end, owner, LockType::Shared);
        segment_facts::lemma_carved_apart(locks.segments, start, end, owner, LockType::Exclusive);
        segment_facts::lemma_carved_nonempty(locks.segments, start, end, owner);
        let shared = |a: Segment, b: Segment|
            segment_facts::alike_or_apart(a, b, owner, LockType::Shared);
        let exclusive = |a: Segment, b: Segment|
            segment_facts::alike_or_apart(a, b, owner, LockType::Exclusive);
        let apart = |a: Segment, b: Segment| lock_model::kept_apart(a, b);
        assert forall|i: int, j: int|
            #![trigger carved[i], carved[j]]
            0 <= i < j < carved.len() implies apart(carved[i], carved[j]) by {
            assert(shared(carved[i], carved[j]));
            assert(exclusive(carved[i], carved[j]));
        }
    } else {
        segment_facts::lemma_nothing_carved(locks.segments, start, end, owner);
    }
}

/// A lock on a range that is not empty keeps the locks of each process from
/// overlapping, whatever their types, and leaves none of the new owner and type
/// adjacent. No lock becomes empty.
pub proof fn law_lock_keeps_own_locks_disjoint(
    locks: FileLocks,
    start: u64,
    end: u64,
    lock_type: LockType,
    owner: ProcessId,
)
    requires
        start < end,
        locks.has_no_empty_lock(),
        locks.own_locks_are_disjoint(),
    ensures
        locks.locked(start, end, lock_type, owner).has_no_empty_lock(),
        locks.locked(start, end, lock_type, owner).own_locks_are_disjoint(),
        locks.locked(start, end, lock_type, owner).is_coalesced(owner, lock_type),
{
    let carved = lock_model::carved(locks.segments, start, end, owner);
    let new = Segment { start, end, owner, lock_type };
    let all = carved.push(new);
    let after = locks.locked(start, end, lock_type, owner);
    let related = |a: Segment, b: Segment| segment_facts::disjoint_if_own(a, b);
    segment_facts::lemma_carved_pairwise(locks.segments, start, end, owner, related);
    segment_facts::lemma_carved_nonempty(locks.segments, start, end, owner);
    segment_facts::lemma_carved_not_cut(locks.segments, start, end, owner);
    assert forall|i: int| 0 <= i < all.len() implies (#[trigger] all[i]).start < all[i].end by {
        if i < carved.len() {
            assert(all[i] == carved[i]);
        }
    }
    assert forall|i: int, j: int|
        #![trigger all[i], all[j]]
        0 <= i < j < all.len() implies related(all[i], all[j]) by {
        assert(all[i] == carved[i]);
        if j < carved.len() {
            assert(related(carved[i], carved[j]));
        } else {
            assert(!carved[i].is_cut(start, end, owner));
        }
    }
    segment_facts::lemma_coalesced_pairwise(all, owner, lock_type, related);
    segment_facts::lemma_coalesced_done(all, owner, lock_type);
    assert forall|i: int, j: int|
        #![trigger after.segments[i], after.segments[j]]
        0 <= i < j < after.segments.len() && after.segments[i].owner
            == after.segments[j].owner implies !after.segments[i].reaches(
        after.segments[j].start,
        after.segments[j].end,
    ) by {
        assert(related(after.segments[i], after.segments[j]));
    }
}

/// A granted lock on a range that is not empty keeps exclusive locks alone: locks
/// of different processes that overlap are both shared.
pub proof fn law_lock_keeps_exclusive_locks_alone(
    locks: FileLocks,
    start: u64,
    end: u64,
    lock_type: LockType,
    owner: ProcessId,
)
    requires
        start < end,
        locks.has_no_empty_lock(),
        locks.exclusive_locks_stand_alone(),
        locks.first_conflict(start, end, lock_type, owner) is None,
    ensures
        locks.locked(start, end, lock_type, owner).has_no_empty_lock(),
        locks.locked(start, end, lock_type, owner).exclusive_locks_stand_alone(),
{
    let carved = lock_model::carved(locks.segments, start, end, owner);
    let new = Segment { start, end, owner, lock_type };
    let all = carved.push(new);
    let after = locks.locked(start, end, lock_type, owner);
    let related = |a: Segment, b: Segment| segment_facts::shared_if_foreign(a, b);
    segment_facts::lemma_carved_pairwise(locks.segments, start, end, owner, related);
    segment_facts::lemma_carved_nonempty(locks.segments, start, end, owner);
    segment_facts::lemma_carved_parts(locks.segments, start, end, owner);
    segment_facts::lemma_first_conflict(locks.segments, start, end, lock_type, owner);
    assert forall|i: int| 0 <= i < all.len() implies (#[trigger] all[i]).start < all[i].end by {
        if i < carved.len() {
            assert(all[i] == carved[i]);
        }
    }
    assert forall|i: int, j: int|
        #![trigger all[i], all[j]]
        0 <= i < j < all.len() implies related(all[i], all[j]) by {
        assert(all[i] == carved[i]);
        if j < carved.len() {
            assert(related(carved[i], carved[j]));
        } else if carved[i].owner != owner {
            let k = choose|k: int|
                0 <= k < locks.segments.len() && locks.segments[k] == carved[i];
            assert(!locks.segments[k].blocks(start, end, lock_type, owner));
        }
    }
    segment_facts::lemma_coalesced_pairwise(all, owner, lock_type, related);
    segment_facts::lemma_coalesced_done(all, owner, lock_type);
    assert forall|i: int, j: int|
        #![trigger after.segments[i], after.segments[j]]
        0 <= i < j < after.segments.len() && after.segments[i].owner != after.segments[j].owner
            && after.segments[i].reaches(
            after.segments[j].start,
            after.segments[j].end,
        ) implies after.segments[i].lock_type is Shared
        && after.segments[j].lock_type is Shared by {
        assert(related(after.segments[i], after.segments[j]));
    }
}

/// A release leaves no lock empty, keeps exclusive locks alone, and keeps the locks
/// of each process from overlapping, unless its range ends before it starts and lies
/// in a lock that the process holds.
pub proof fn law_unlock_keeps_locks_disjoint(
    locks: FileLocks,
    start: u64,
    end: u64,
    owner: ProcessId,
)
    requires
        locks.has_no_empty_lock(),
    ensures
        locks.released(start, end, owner).has_no_empty_lock(),
        locks.own_locks_are_disjoint() && (start <= end || forall|i: int|
            0 <= i < locks.segments.len() ==> !(#[trigger] locks.segments[i]).is_cut(
                start,
                end,
                owner,
            )) ==> locks.released(start, end, owner).own_locks_are_disjoint(),
        locks.exclusive_locks_stand_alone() ==> locks.released(
            start,
            end,
            owner,
        ).exclusive_locks_stand_alone(),
{
    let carved = lock_model::carved(locks.segments, start, end, owner);
    let after = locks.released(start, end, owner);
    let own = |a: Segment, b: Segment| segment_facts::disjoint_if_own(a, b);
    let foreign = |a: Segment, b: Segment| segment_facts::shared_if_foreign(a, b);
    segment_facts::lemma_carved_nonempty(locks.segments, start, end, owner);
    if locks.own_locks_are_disjoint() && (start <= end || forall|i: int|
        0 <= i < locks.segments.len() ==> !(#[trigger] locks.segments[i]).is_cut(
            start,
            end,
            owner,
        )) {
        segment_facts::lemma_carved_pairwise(locks.segments, start, end, owner, own);
        assert forall|i: int, j: int|
            #![trigger after.segments[i], after.segments[j]]
            0 <= i < j < after.segments.len() && after.segments[i].owner
                == after.segments[j].owner implies !after.segments[i].reaches(
            after.segments[j].start,
            after.segments[j].end,
        ) by {
            assert(own(carved[i], carved[j]));
        }
    }
    if locks.exclusive_locks_stand_alone() {
        segment_facts::lemma_carved_pairwise(locks.segments, start, end, owner, foreign);
        assert forall|i: int, j: int|
            #![trigger after.segments[i], after.segments[j]]
            0 <= i < j < after.segments.len() && after.segments[i].owner
                != after.segments[j].owner && after.segments[i].reaches(
                after.segments[j].start,
                after.segments[j].end,
            ) implies after.segments[i].lock_type is Shared
            && after.segments[j].lock_type is Shared by {
            assert(foreign(carved[i], carved[j]));
        }
    }
}

/// Draining a second time hands on nobody and changes nothing.
pub proof fn law_drain_twice(locks: FileLocks)
    ensures
        locks.drained().drained() == locks.drained(),
        locks.drained().ready() == Seq::<LockWaiter>::empty(),
{
    let free = |w: LockWaiter| !lock_model::is_blocked(locks.segments, w);
    let stuck = |w: LockWaiter| lock_model::is_blocked(locks.segments, w);
    let still = locks.waiters.filter(stuck);
    segment_facts::lemma_filter_twice(locks.waiters, stuck, stuck);
    assert forall|i: int| 0 <= i < still.len() implies !free(#[trigger] still[i]) by {
        locks.waiters.lemma_filter_pred(stuck, i);
    }
    segment_facts::lemma_filter_none(still, free);
    assert(locks.drained().ready() =~= Seq::<LockWaiter>::empty());
}

/// Releasing a range a second time hands on nobody and changes nothing.
pub proof fn law_release_twice(locks: FileLocks, start: u64, end: u64, owner: ProcessId)
    ensures
        locks.released(start, end, owner).released(start, end, owner) == locks.released(
            start,
            end,
            owner,
        ),
        locks.released(start, end, owner).woken(start, end, owner) == Seq::<LockWaiter>::empty(),
{
    let once = locks.released(start, end, owner);
    segment_facts::lemma_carved_not_cut(locks.segments, start, end, owner);
    segment_facts::lemma_nothing_carved(once.segments, start, end, owner);
    assert(once.carved(start, end, owner) == once);
    law_drain_twice(locks.carved(start, end, owner));
}

/// In a tidy file, a request for a range that is not empty is refused just where
/// another process holds a byte of the range and not both locks are shared.
pub proof fn law_conflict_is_about_bytes(
    locks: FileLocks,
    start: u64,
    end: u64,
    lock_type: LockType,
    requester: ProcessId,
)
    requires
        locks.tidy(),
        start < end,
    ensures
        locks.first_conflict(start, end, lock_type, requester) is Some <==> exists|
            holder: ProcessId,
            held: LockType,
            b: int,
        | #[trigger]
            locks.holds(holder, held, b) && holder != requester && start <= b < end && !(
            lock_type is Shared && held is Shared),
{
    segment_facts::lemma_first_conflict(locks.segments, start, end, lock_type, requester);
    match locks.first_conflict(start, end, lock_type, requester) {
        Some(conflict) => {
            let i = choose|i: int|
                0 <= i < locks.segments.len() && locks.segments[i] == conflict;
            let b = if conflict.start <= start {
                start as int
            } else {
                conflict.start as int
            };
            assert(locks.segments[i].start < locks.segments[i].end);
            assert(locks.segments[i].is_kind(conflict.owner, conflict.lock_type));
            assert(locks.segments[i].covers(b));
            assert(locks.holds(conflict.owner, conflict.lock_type, b));
        },
        None => {
            assert forall|holder: ProcessId, held: LockType, b: int| #[trigger]
                locks.holds(holder, held, b) && holder != requester && start <= b
                    < end implies lock_type is Shared && held is Shared by {
                let i = choose|i: int|
                    0 <= i < locks.segments.len() && (#[trigger] locks.segments[i]).is_kind(
                        holder,
                        held,
                    ) && locks.segments[i].covers(b);
                assert(!locks.segments[i].blocks(start, end, lock_type, requester));
            }
        },
    }
}

/// Locking a range on which a process held nothing, and then releasing it, gives
/// back what every process held before.
pub proof fn law_unlock_undoes_lock(
    locks: FileLocks,
    start: u64,
    end: u64,
    lock_type: LockType,
    owner: ProcessId,
    holder: ProcessId,
    held: LockType,
    b: int,
)
    requires
        forall|t: LockType, x: int| start <= x < end ==> !#[trigger] locks.holds(owner, t, x),
    ensures
        locks.locked(start, end, lock_type, owner).released(start, end, owner).holds(
            holder,
            held,
            b,
        ) <==> locks.holds(holder, held, b),
{
    let locked = locks.locked(start, end, lock_type, owner);
    law_lock_replaces(locks, start, end, lock_type, owner, holder, held, b);
    law_unlock_releases(locked, start, end, owner, holder, held, b);
}

/// Locking a range a second time with the same type changes nothing that is held.
pub proof fn law_lock_twice_is_lock_once(
    locks: FileLocks,
    start: u64,
    end: u64,
    lock_type: LockType,
    owner: ProcessId,
    holder: ProcessId,
    held: LockType,
    b: int,
)
    ensures
        locks.locked(start, end, lock_type, owner).locked(start, end, lock_type, owner).holds(
            holder,
            held,
            b,
        ) <==> locks.locked(start, end, lock_type, owner).holds(holder, held, b),
{
    let locked = locks.locked(start, end, lock_type, owner);
    law_lock_replaces(locks, start, end, lock_type, owner, holder, held, b);
    law_lock_replaces(locked, start, end, lock_type, owner, holder, held, b);
}

/// After a process has released all bytes of a file, it holds none of them and
/// blocks no request of any process; in a tidy file no lock of it is left.
pub proof fn law_release_all_leaves_nothing(locks: FileLocks, owner: ProcessId)
    ensures
        forall|held: LockType, b: int| !#[trigger]
            locks.released(0, u64::MAX, owner).holds(owner, held, b),
        forall|i: int, start: u64, end: u64|
            #![trigger locks.released(0, u64::MAX, owner).segments[i].reaches(start, end)]
            0 <= i < locks.released(0, u64::MAX, owner).segments.len() && locks.released(
                0,
                u64::MAX,
                owner,
            ).segments[i].owner == owner ==> !locks.released(0, u64::MAX, owner).segments[i].reaches(
                start,
                end,
            ),
        locks.tidy() ==> locks.released(0, u64::MAX, owner).segments == locks.segments.filter(
            |s: Segment| s.owner != owner,
        ),
{
    broadcast use vstd::seq_lib::group_filter_ensures;

    let after = locks.released(0, u64::MAX, owner);
    let keep = |s: Segment| !s.is_cut(0, u64::MAX, owner);
    segment_facts::lemma_remnants_of_all(locks.segments, owner);
    assert(after.segments =~= locks.segments.filter(keep));
    assert forall|i: int, start: u64, end: u64|
        #![trigger after.segments[i].reaches(start, end)]
        0 <= i < after.segments.len() && after.segments[i].owner
            == owner implies !after.segments[i].reaches(start, end) by {
        assert(keep(locks.segments.filter(keep)[i]));
    }
    assert forall|held: LockType, b: int| !#[trigger] after.holds(owner, held, b) by {
        if after.holds(owner, held, b) {
            let i = choose|i: int|
                0 <= i < after.segments.len() && (#[trigger] after.segments[i]).is_kind(owner, held)
                    && after.segments[i].covers(b);
            assert(keep(locks.segments.filter(keep)[i]));
        }
    }
    if locks.tidy() {
        let foreign = |s: Segment| s.owner != owner;
        assert forall|i: int| 0 <= i < locks.segments.len() implies keep(
            #[trigger] locks.segments[i],
        ) == foreign(locks.segments[i]) by {
            assert(locks.segments[i].start < locks.segments[i].end);
        }
        segment_facts::lemma_filter_same(locks.segments, keep, foreign);
    }
}

/// A release takes out just the waiters that no lock blocks any more and hands
/// them on; all others keep waiting. None is lost and none is doubled.
pub proof fn law_release_wakes_the_unblocked(
    locks: FileLocks,
    start: u64,
    end: u64,
    owner: ProcessId,
)
    ensures
        forall|w: LockWaiter| #[trigger]
            locks.woken(start, end, owner).contains(w) <==> locks.waiters.contains(w)
                && locks.released(start, end, owner).first_conflict(
                w.start,
                w.end,
                w.lock_type,
                w.pid,
            ) is None,
        forall|w: LockWaiter| #[trigger]
            locks.released(start, end, owner).waiters.contains(w) <==> locks.waiters.contains(w)
                && locks.released(start, end, owner).first_conflict(
                w.start,
                w.end,
                w.lock_type,
                w.pid,
            ) is Some,
        locks.woken(start, end, owner).to_multiset().add(
            locks.released(start, end, owner).waiters.to_multiset(),
        ) =~= locks.waiters.to_multiset(),
{
    let carved = locks.carved(start, end, owner);
    let free = |w: LockWaiter| !lock_model::is_blocked(carved.segments, w);
    let stuck = |w: LockWaiter| lock_model::is_blocked(carved.segments, w);
    segment_facts::lemma_filter_parts(locks.waiters, free, stuck);
    assert forall|w: LockWaiter| #[trigger]
        locks.woken(start, end, owner).contains(w) <==> locks.waiters.contains(w)
            && locks.released(start, end, owner).first_conflict(
            w.start,
            w.end,
            w.lock_type,
            w.pid,
        ) is None by {
        segment_facts::lemma_filter_keeps(locks.waiters, free, w);
    }
    assert forall|w: LockWaiter| #[trigger]
        locks.released(start, end, owner).waiters.contains(w) <==> locks.waiters.contains(w)
            && locks.released(start, end, owner).first_conflict(
            w.start,
            w.end,
            w.lock_type,
            w.pid,
        ) is Some by {
        segment_facts::lemma_filter_keeps(locks.waiters, stuck, w);
    }
}

/// A registered waiter is handed on by a release just where the release leaves no
/// conflict with it; the lock that it waits for is then granted.
pub proof fn law_waiter_is_woken_when_free(
    table: Map<FileKey, FileLocks>,
    key: FileKey,
    waiter: LockWaiter,
    start: u64,
    end: u64,
    owner: ProcessId,
)
    ensures
        ({
            let waiting = lock_model::after_add_waiter(table, key, waiter);
            let released = lock_model::after_unlock(waiting, key, start, end, owner);
            &&& lock_model::woken_by_unlock(waiting, key, start, end, owner).contains(waiter)
                <==> lock_model::lock_answer(
                released,
                key,
                waiter.start,
                waiter.end,
                waiter.lock_type,
                waiter.pid,
            ) is Ok
            &&& lock_model::locks_on(released, key).waiters.contains(waiter)
                <==> lock_model::lock_answer(
                released,
                key,
                waiter.start,
                waiter.end,
                waiter.lock_type,
                waiter.pid,
            ) is Err
        }),
{
    let waiting = lock_model::locks_on(table, key).with_waiter(waiter);
    assert(waiting.waiters.last() == waiter);
    assert(waiting.waiters.contains(waiter));
    law_release_wakes_the_unblocked(waiting, start, end, owner);
    let released = waiting.released(start, end, owner);
    assert(waiting.woken(start, end, owner).contains(waiter) <==> released.first_conflict(
        waiter.start,
        waiter.end,
        waiter.lock_type,
        waiter.pid,
    ) is None);
    assert(released.waiters.contains(waiter) <==> released.first_conflict(
        waiter.start,
        waiter.end,
        waiter.lock_type,
        waiter.pid,
    ) is Some);
}

/// Every waiter that a release hands on is granted its lock if it asks next.
pub proof fn law_woken_waiter_is_granted(
    table: Map<FileKey, FileLocks>,
    key: FileKey,
    start: u64,
    end: u64,
    owner: ProcessId,
    waiter: LockWaiter,
)
    requires
        lock_model::woken_by_unlock(table, key, start, end, owner).contains(waiter),
    ensures
        lock_model::lock_answer(
            lock_model::after_unlock(table, key, start, end, owner),
            key,
            waiter.start,
            waiter.end,
            waiter.lock_type,
            waiter.pid,
        ) is Ok,
{
    law_release_wakes_the_unblocked(lock_model::locks_on(table, key), start, end, owner);
}

/// A query foretells a request: it finds no lock just where the request would be
/// granted, and else names the process that the request would be refused for.
pub proof fn law_query_foretells_lock(
    table: Map<FileKey, FileLocks>,
    key: FileKey,
    start: u64,
    end: u64,
    lock_type: LockType,
    requester: ProcessId,
)
    ensures
        match lock_model::query_answer(table, key, start, end, lock_type, requester) {
            None => lock_model::lock_answer(table, key, start, end, lock_type, requester) == Ok::<
                (),
                ProcessId,
            >(()),
            Some((_, blocker)) => {
                &&& blocker != requester
                &&& lock_model::lock_answer(table, key, start, end, lock_type, requester) == Err::<
                    (),
                    ProcessId,
                >(blocker)
            },
        },
{
    segment_facts::lemma_first_conflict(
        lock_model::locks_on(table, key).segments,
        start,
        end,
        lock_type,
        requester,
    );
}

/// A refused request changes nothing on any file.
pub proof fn law_refusal_changes_nothing(
    table: Map<FileKey, FileLocks>,
    key: FileKey,
    start: u64,
    end: u64,
    lock_type: LockType,
    requester: ProcessId,
    file: FileKey,
)
    requires
        lock_model::lock_answer(table, key, start, end, lock_type, requester) is Err,
    ensures
        lock_model::locks_on(
            lock_model::after_try_lock(table, key, start, end, lock_type, requester),
            file,
        ) == lock_model::locks_on(table, file),
{
}

/// What is done on one file changes nothing on another.
pub proof fn law_files_are_independent(
    table: Map<FileKey, FileLocks>,
    key: FileKey,
    start: u64,
    end: u64,
    lock_type: LockType,
    owner: ProcessId,
    waiter: LockWaiter,
    file: FileKey,
)
    requires
        file != key,
    ensures
        lock_model::locks_on(
            lock_model::after_try_lock(table, key, start, end, lock_type, owner),
            file,
        ) == lock_model::locks_on(table, file),
        lock_model::locks_on(lock_model::after_unlock(table, key, start, end, owner), file)
            == lock_model::locks_on(table, file),
        lock_model::locks_on(lock_model::after_add_waiter(table, key, waiter), file)
            == lock_model::locks_on(table, file),
{
}

/// As long as a process holds a byte, every request of another process that covers
/// the byte is refused, unless both locks are shared.
pub proof fn law_held_byte_excludes_others(
    locks: FileLocks,
    owner: ProcessId,
    held: LockType,
    b: int,
    start: u64,
    end: u64,
    lock_type: LockType,
    other: ProcessId,
)
    requires
        locks.holds(owner, held, b),
        start <= b < end,
        other != owner,
        !(held is Shared && lock_type is Shared),
    ensures
        locks.first_conflict(start, end, lock_type, other) is Some,
{
    let i = choose|i: int|
        0 <= i < locks.segments.len() && (#[trigger] locks.segments[i]).is_kind(owner, held)
            && locks.segments[i].covers(b);
    segment_facts::lemma_first_conflict(locks.segments, start, end, lock_type, other);
    assert(locks.segments[i].blocks(start, end, lock_type, other));
}

/// A granted lock shuts out every other process from each of its bytes, unless
/// both locks are shared.
pub proof fn law_granted_lock_excludes_others(
    table: Map<FileKey, FileLocks>,
    key: FileKey,
    start: u64,
    end: u64,
    lock_type: LockType,
    owner: ProcessId,
    other: ProcessId,
    other_start: u64,
    other_end: u64,
    other_type: LockType,
    b: int,
)
    requires
        lock_model::lock_answer(table, key, start, end, lock_type, owner) is Ok,
        other != owner,
        start <= b < end,
        other_start <= b < other_end,
        !(lock_type is Shared && other_type is Shared),
    ensures
        lock_model::lock_answer(
            lock_model::after_try_lock(table, key, start, end, lock_type, owner),
            key,
            other_start,
            other_end,
            other_type,
            other,
        ) is Err,
{
    let locks = lock_model::locks_on(table, key);
    let after = locks.locked(start, end, lock_type, owner);
    law_lock_replaces(locks, start, end, lock_type, owner, owner, lock_type, b);
    law_held_byte_excludes_others(
        after,
        owner,
        lock_type,
        b,
        other_start,
        other_end,
        other_type,
        other,
    );
}

/// A granted lock stands in the way of no other lock that is shared as it is, or
/// that has no byte in common with it: what would have been granted to another
/// process before is granted after.
pub proof fn law_granted_lock_admits_compatible(
    table: Map<FileKey, FileLocks>,
    key: FileKey,
    start: u64,
    end: u64,
    lock_type: LockType,
    owner: ProcessId,
    other: ProcessId,
    other_start: u64,
    other_end: u64,
    other_type: LockType,
)
    requires
        lock_model::locks_on(table, key).tidy(),
        start < end,
        other_start < other_end,
        lock_model::lock_answer(table, key, start, end, lock_type, owner) is Ok,
        lock_model::lock_answer(table, key, other_start, other_end, other_type, other) is Ok,
        (lock_type is Shared && other_type is Shared) || end <= other_start || other_end <= start,
    ensures
        lock_model::lock_answer(
            lock_model::after_try_lock(table, key, start, end, lock_type, owner),
            key,
            other_start,
            other_end,
            other_type,
            other,
        ) is Ok,
{
    let locks = lock_model::locks_on(table, key);
    let after = locks.locked(start, end, lock_type, owner);
    law_lock_keeps_tidy(locks, start, end, lock_type, owner);
    law_conflict_is_about_bytes(locks, other_start, other_end, other_type, other);
    law_conflict_is_about_bytes(after, other_start, other_end, other_type, other);
    if after.first_conflict(other_start, other_end, other_type, other) is Some {
        let (holder, held, b) = choose|holder: ProcessId, held: LockType, b: int| #[trigger]
            after.holds(holder, held, b) && holder != other && other_start <= b < other_end && !(
            other_type is Shared && held is Shared);
        law_lock_replaces(locks, start, end, lock_type, owner, holder, held, b);
        assert(locks.holds(holder, held, b));
    }
}

/// A coherent table stays coherent, and a tidy one tidy, when a thread begins to
/// wait.
pub proof fn law_waiting_keeps_order(
    table: Map<FileKey, FileLocks>,
    key: FileKey,
    waiter: LockWaiter,
)
    ensures
        lock_model::coherent(table) ==> lock_model::coherent(
            lock_model::after_add_waiter(table, key, waiter),
        ),
        lock_model::tidy(table) ==> lock_model::tidy(
            lock_model::after_add_waiter(table, key, waiter),
        ),
{
    let locks = lock_model::locks_on(table, key);
    let after = locks.with_waiter(waiter);
    assert(after.segments == locks.segments);
    if lock_model::coherent(table) {
        assert(locks.coherent());
    }
    if lock_model::tidy(table) {
        assert(locks.tidy());
    }
}

/// A coherent table stays coherent for every range that does not end before it
/// starts, and a tidy one tidy for every range that is not empty, whatever is
/// locked and released.
pub(crate) proof fn lemma_table_keeps_order(
    table: Map<FileKey, FileLocks>,
    key: FileKey,
    start: u64,
    end: u64,
    lock_type: LockType,
    owner: ProcessId,
)
    ensures
        lock_model::coherent(table) && start <= end ==> {
            &&& lock_model::coherent(
                lock_model::after_try_lock(table, key, start, end, lock_type, owner),
            )
            &&& lock_model::coherent(lock_model::after_unlock(table, key, start, end, owner))
        },
        lock_model::tidy(table) && start < end ==> {
            &&& lock_model::tidy(
                lock_model::after_try_lock(table, key, start, end, lock_type, owner),
            )
            &&& lock_model::tidy(lock_model::after_unlock(table, key, start, end, owner))
        },
{
    let locks = lock_model::locks_on(table, key);
    if lock_model::coherent(table) && start <= end {
        assert(locks.coherent());
        law_unlock_keeps_coherent(locks, start, end, owner);
        if locks.first_conflict(start, end, lock_type, owner) is None {
            law_lock_keeps_coherent(locks, start, end, lock_type, owner);
        }
    }
    if lock_model::tidy(table) && start < end {
        assert(locks.tidy());
        law_unlock_keeps_tidy(locks, start, end, owner);
        law_lock_keeps_tidy(locks, start, end, lock_type, owner);
    }
}

} // verus!
