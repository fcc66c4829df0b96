//! What the operations of a lock table do, told by owners, types and bytes of the
//! locks, by their order, and by the list of waiters.
use vstd::prelude::*;

use crate::laws;
use crate::lock_model;
use crate::lock_model::{FileKey, FileLocks, LockType, LockWaiter, ProcessId, Segment};
use crate::merge_facts;
use crate::piece_facts;
use crate::segment_facts;

verus! {

/// A file that a table does not list has no lock and no waiter.
pub proof fn law_unlisted_file_is_free(table: Map<FileKey, FileLocks>, key: FileKey)
    ensures
        !table.contains_key(key) ==> lock_model::locks_on(table, key).segments.len() == 0
            && lock_model::locks_on(table, key).waiters.len() == 0,
        table.contains_key(key) ==> lock_model::locks_on(table, key) == table[key],
{
}

/// A lock and a range that both cover a byte reach into each other just where they
/// have a byte in common. A lock stands in the way of a request just where it is of
/// another process, reaches into the range, and one of the two is exclusive.
pub proof fn law_overlap_is_a_common_byte(
    lock: Segment,
    start: u64,
    end: u64,
    lock_type: LockType,
    requester: ProcessId,
)
    ensures
        lock.start < lock.end && start < end ==> (lock.reaches(start, end) <==> exists|b: int|
            #![trigger lock.covers(b)]
            lock.start <= b < lock.end && start <= b < end),
        lock.reaches(start, end) <==> lock.start < end && start < lock.end,
        forall|b: int| #[trigger] lock.covers(b) <==> lock.start <= b < lock.end,
        lock.blocks(start, end, lock_type, requester) <==> lock.owner != requester && lock.start
            < end && start < lock.end && (lock_type is Exclusive || lock.lock_type is Exclusive),
{
    if lock.start < lock.end && start < end && lock.reaches(start, end) {
        let b: int = if lock.start < start {
            start as int
        } else {
            lock.start as int
        };
        assert(lock.covers(b));
    }
}

/// A request is refused, and a query reports a lock, just where a lock of another
/// process reaches into the range and one of the two is exclusive. Both name the
/// first such lock of the file: the refusal its owner, the query its type and owner.
pub proof fn law_answer_names_the_first_lock_in_the_way(
    table: Map<FileKey, FileLocks>,
    key: FileKey,
    start: u64,
    end: u64,
    lock_type: LockType,
    requester: ProcessId,
)
    ensures
        ({
            let locks = lock_model::locks_on(table, key).segments;
            let answer = lock_model::lock_answer(table, key, start, end, lock_type, requester);
            let found = lock_model::query_answer(table, key, start, end, lock_type, requester);
            &&& answer is Err <==> exists|i: int|
                0 <= i < locks.len() && (#[trigger] locks[i]).owner != requester && locks[i].start
                    < end && start < locks[i].end && (lock_type is Exclusive
                    || locks[i].lock_type is Exclusive)
            &&& found is Some <==> answer is Err
            &&& answer matches Err(owner) ==> exists|i: int|
                {
                    &&& 0 <= i < locks.len()
                    &&& (#[trigger] locks[i]).owner != requester
                    &&& locks[i].start < end && start < locks[i].end
                    &&& lock_type is Exclusive || locks[i].lock_type is Exclusive
                    &&& locks[i].owner == owner
                    &&& found == Some((locks[i].lock_type, locks[i].owner))
                    &&& forall|j: int|
                        0 <= j < i ==> (#[trigger] locks[j]).owner == requester || locks[j].start
                            >= end || start >= locks[j].end || (lock_type is Shared
                            && locks[j].lock_type is Shared)
                }
        }),
{
    let locks = lock_model::locks_on(table, key).segments;
    segment_facts::lemma_first_conflict(locks, start, end, lock_type, requester);
    if lock_model::first_conflict(locks, start, end, lock_type, requester) is Some {
        let i: int = segment_facts::lemma_first_conflict_position(
            locks,
            start,
            end,
            lock_type,
            requester,
        );
        assert(locks[i].blocks(start, end, lock_type, requester));
        assert forall|j: int| 0 <= j < i implies (#[trigger] locks[j]).owner == requester
            || locks[j].start >= end || start >= locks[j].end || (lock_type is Shared
            && locks[j].lock_type is Shared) by {
            assert(!locks[j].blocks(start, end, lock_type, requester));
        }
    } else {
        assert forall|i: int| 0 <= i < locks.len() implies !((#[trigger] locks[i]).owner
            != requester && locks[i].start < end && start < locks[i].end && (
        lock_type is Exclusive || locks[i].lock_type is Exclusive)) by {
            assert(!locks[i].blocks(start, end, lock_type, requester));
        }
    }
}

/// A lock request, granted or refused, leaves the waiters of every file as they are,
/// in their order.
pub proof fn law_lock_request_keeps_waiters(
    table: Map<FileKey, FileLocks>,
    key: FileKey,
    start: u64,
    end: u64,
    lock_type: LockType,
    requester: ProcessId,
    file: FileKey,
)
    ensures
        lock_model::locks_on(
            lock_model::after_try_lock(table, key, start, end, lock_type, requester),
            file,
        ).waiters == lock_model::locks_on(table, file).waiters,
{
}

/// A request for a lock: file, range, type and process.
pub struct LockCall {
    pub key: FileKey,
    pub start: u64,
    pub end: u64,
    pub lock_type: LockType,
    pub requester: ProcessId,
}

/// The table after requests that are made one after the other.
pub open spec fn after_calls(table: Map<FileKey, FileLocks>, calls: Seq<LockCall>) -> Map<
    FileKey,
    FileLocks,
>
    decreases calls.len(),
{
    if calls.len() == 0 {
        table
    } else {
        let earlier = after_calls(table, calls.drop_last());
        let LockCall { key, start, end, lock_type, requester } = calls.last();
        lock_model::after_try_lock(earlier, key, start, end, lock_type, requester)
    }
}

/// A thread that waits keeps waiting through any number of lock requests, granted or
/// refused. The next release on the file returns it just where no lock of another
/// process is in its way then; else it waits on.
pub proof fn law_waiter_stays_until_released(
    table: Map<FileKey, FileLocks>,
    key: FileKey,
    waiter: LockWaiter,
    calls: Seq<LockCall>,
    start: u64,
    end: u64,
    owner: ProcessId,
)
    ensures
        ({
            let waiting = after_calls(lock_model::after_add_waiter(table, key, waiter), calls);
            let released = lock_model::after_unlock(waiting, key, start, end, owner);
            let after = lock_model::locks_on(released, key);
            let in_its_way = exists|i: int|
                0 <= i < after.segments.len() && (#[trigger] after.segments[i]).owner != waiter.pid
                    && after.segments[i].start < waiter.end && waiter.start < after.segments[i].end
                    && (waiter.lock_type is Exclusive || after.segments[i].lock_type is Exclusive);
            &&& lock_model::locks_on(waiting, key).waiters == lock_model::locks_on(
                table,
                key,
            ).waiters.push(waiter)
            &&& lock_model::woken_by_unlock(waiting, key, start, end, owner).contains(waiter)
                <==> !in_its_way
            &&& after.waiters.contains(waiter) <==> in_its_way
        }),
{
    let added = lock_model::after_add_waiter(table, key, waiter);
    let waiting = after_calls(added, calls);
    lemma_calls_keep_waiters(added, calls, key);
    law_release_parts_waiters_in_order(waiting, key, start, end, owner);
    let before = lock_model::locks_on(waiting, key);
    let after = lock_model::locks_on(
        lock_model::after_unlock(waiting, key, start, end, owner),
        key,
    );
    let blocked = |w: LockWaiter|
        exists|i: int|
            0 <= i < after.segments.len() && (#[trigger] after.segments[i]).owner != w.pid
                && after.segments[i].start < w.end && w.start < after.segments[i].end && (
            w.lock_type is Exclusive || after.segments[i].lock_type is Exclusive);
    let free = |w: LockWaiter|
        !exists|i: int|
            0 <= i < after.segments.len() && (#[trigger] after.segments[i]).owner != w.pid
                && after.segments[i].start < w.end && w.start < after.segments[i].end && (
            w.lock_type is Exclusive || after.segments[i].lock_type is Exclusive);
    segment_facts::lemma_filter_keeps(before.waiters, blocked, waiter);
    segment_facts::lemma_filter_keeps(before.waiters, free, waiter);
    assert(before.waiters[before.waiters.len() - 1] == waiter);
    assert(before.waiters.contains(waiter));
}

proof fn lemma_calls_keep_waiters(
    table: Map<FileKey, FileLocks>,
    calls: Seq<LockCall>,
    file: FileKey,
)
    ensures
        lock_model::locks_on(after_calls(table, calls), file).waiters == lock_model::locks_on(
            table,
            file,
        ).waiters,
    decreases calls.len(),
{
    if calls.len() > 0 {
        lemma_calls_keep_waiters(table, calls.drop_last(), file);
        let earlier = after_calls(table, calls.drop_last());
        let LockCall { key, start, end, lock_type, requester } = calls.last();
        law_lock_request_keeps_waiters(earlier, key, start, end, lock_type, requester, file);
    }
}

/// A release parts the waiters of the file by what it leaves locked: it returns those
/// that no lock of another process is in the way of, and the others wait on. Both
/// stay in the order in which they began to wait.
pub proof fn law_release_parts_waiters_in_order(
    table: Map<FileKey, FileLocks>,
    key: FileKey,
    start: u64,
    end: u64,
    owner: ProcessId,
)
    ensures
        ({
            let before = lock_model::locks_on(table, key);
            let after = lock_model::locks_on(
                lock_model::after_unlock(table, key, start, end, owner),
                key,
            );
            &&& lock_model::woken_by_unlock(table, key, start, end, owner)
                == before.waiters.filter(
                |w: LockWaiter|
                    !exists|i: int|
                        0 <= i < after.segments.len() && (#[trigger] after.segments[i]).owner
                            != w.pid && after.segments[i].start < w.end && w.start
                            < after.segments[i].end && (w.lock_type is Exclusive
                            || after.segments[i].lock_type is Exclusive),
            )
            &&& after.waiters == before.waiters.filter(
                |w: LockWaiter|
                    exists|i: int|
                        0 <= i < after.segments.len() && (#[trigger] after.segments[i]).owner
                            != w.pid && after.segments[i].start < w.end && w.start
                            < after.segments[i].end && (w.lock_type is Exclusive
                            || after.segments[i].lock_type is Exclusive),
            )
        }),
{
    let before = lock_model::locks_on(table, key);
    let after = lock_model::locks_on(
        lock_model::after_unlock(table, key, start, end, owner),
        key,
    );
    let blocked = |w: LockWaiter|
        exists|i: int|
            0 <= i < after.segments.len() && (#[trigger] after.segments[i]).owner != w.pid
                && after.segments[i].start < w.end && w.start < after.segments[i].end && (
            w.lock_type is Exclusive || after.segments[i].lock_type is Exclusive);
    let free = |w: LockWaiter|
        !exists|i: int|
            0 <= i < after.segments.len() && (#[trigger] after.segments[i]).owner != w.pid
                && after.segments[i].start < w.end && w.start < after.segments[i].end && (
            w.lock_type is Exclusive || after.segments[i].lock_type is Exclusive);
    assert forall|k: int| 0 <= k < before.waiters.len() implies blocked(
        #[trigger] before.waiters[k],
    ) == lock_model::is_blocked(after.segments, before.waiters[k]) by {
        lemma_blocked(after.segments, before.waiters[k]);
    }
    let carved = before.carved(start, end, owner);
    assert(after.segments == carved.segments);
    segment_facts::lemma_filter_same(
        before.waiters,
        |w: LockWaiter| lock_model::is_blocked(carved.segments, w),
        blocked,
    );
    segment_facts::lemma_filter_same(
        before.waiters,
        |w: LockWaiter| !lock_model::is_blocked(carved.segments, w),
        free,
    );
}

/// A waiter is blocked just where a lock of another process reaches into its range
/// and one of the two is exclusive.
proof fn lemma_blocked(locks: Seq<Segment>, w: LockWaiter)
    ensures
        lock_model::is_blocked(locks, w) <==> exists|i: int|
            0 <= i < locks.len() && (#[trigger] locks[i]).owner != w.pid && locks[i].start < w.end
                && w.start < locks[i].end && (w.lock_type is Exclusive
                || locks[i].lock_type is Exclusive),
{
    segment_facts::lemma_first_conflict(locks, w.start, w.end, w.lock_type, w.pid);
    match lock_model::first_conflict(locks, w.start, w.end, w.lock_type, w.pid) {
        Some(conflict) => {
            let i = choose|i: int| 0 <= i < locks.len() && locks[i] == conflict;
            assert(locks[i].blocks(w.start, w.end, w.lock_type, w.pid));
        },
        None => {
            assert forall|i: int| 0 <= i < locks.len() implies !((#[trigger] locks[i]).owner
                != w.pid && locks[i].start < w.end && w.start < locks[i].end && (
            w.lock_type is Exclusive || locks[i].lock_type is Exclusive)) by {
                assert(!locks[i].blocks(w.start, w.end, w.lock_type, w.pid));
            }
        },
    }
}

/// A thread that begins to wait is the last to wait on the file; no lock changes, and
/// nothing on another file.
pub proof fn law_new_waiter_is_the_last(
    table: Map<FileKey, FileLocks>,
    key: FileKey,
    waiter: LockWaiter,
    file: FileKey,
)
    ensures
        ({
            let after = lock_model::locks_on(
                lock_model::after_add_waiter(table, key, waiter),
                file,
            );
            let before = lock_model::locks_on(table, file);
            &&& after.segments == before.segments
            &&& file == key ==> after.waiters == before.waiters.push(waiter)
            &&& file != key ==> after.waiters == before.waiters
        }),
{
}

/// A granted lock covers its range, in place of what the process held there; what it
/// holds elsewhere stays as it was, and so does all that other processes hold and all
/// that is locked in other files.
pub proof fn law_granted_lock_covers_its_range(
    table: Map<FileKey, FileLocks>,
    key: FileKey,
    start: u64,
    end: u64,
    lock_type: LockType,
    requester: ProcessId,
    file: FileKey,
    holder: ProcessId,
    held: LockType,
    b: int,
)
    requires
        lock_model::lock_answer(table, key, start, end, lock_type, requester) is Ok,
    ensures
        lock_model::locks_on(
            lock_model::after_try_lock(table, key, start, end, lock_type, requester),
            file,
        ).holds(holder, held, b) <==> (if file == key && holder == requester && start <= b < end {
            held == lock_type
        } else {
            lock_model::locks_on(table, file).holds(holder, held, b)
        }),
{
    laws::law_lock_replaces(
        lock_model::locks_on(table, key),
        start,
        end,
        lock_type,
        requester,
        holder,
        held,
        b,
    );
}

/// A release takes its range from the process, and nothing else: no other byte, no
/// lock of another process, none in another file.
pub proof fn law_release_frees_its_range(
    table: Map<FileKey, FileLocks>,
    key: FileKey,
    start: u64,
    end: u64,
    owner: ProcessId,
    file: FileKey,
    holder: ProcessId,
    held: LockType,
    b: int,
)
    ensures
        lock_model::locks_on(
            lock_model::after_unlock(table, key, start, end, owner),
            file,
        ).holds(holder, held, b) <==> (lock_model::locks_on(table, file).holds(holder, held, b)
            && !(file == key && holder == owner && start <= b < end)),
{
    laws::law_unlock_releases(
        lock_model::locks_on(table, key),
        start,
        end,
        owner,
        holder,
        held,
        b,
    );
}

/// After a granted lock no two locks of its process and type touch, in whatever
/// state the file was before.
pub proof fn law_granted_lock_is_merged(
    table: Map<FileKey, FileLocks>,
    key: FileKey,
    start: u64,
    end: u64,
    lock_type: LockType,
    requester: ProcessId,
)
    requires
        lock_model::lock_answer(table, key, start, end, lock_type, requester) is Ok,
    ensures
        ({
            let after = lock_model::locks_on(
                lock_model::after_try_lock(table, key, start, end, lock_type, requester),
                key,
            ).segments;
            forall|i: int, j: int|
                #![trigger after[i], after[j]]
                0 <= i < j < after.len() && after[i].owner == requester && after[j].owner
                    == requester && after[i].lock_type == lock_type && after[j].lock_type
                    == lock_type ==> after[i].end < after[j].start || after[j].end < after[i].start
        }),
{
    let carved = lock_model::carved(
        lock_model::locks_on(table, key).segments,
        start,
        end,
        requester,
    );
    segment_facts::lemma_coalesced_done(
        carved.push(Segment { start, end, owner: requester, lock_type }),
        requester,
        lock_type,
    );
}

/// `pieces` are what `[start, end)` leaves of the locks of `owner` in `segments`
/// that it reaches into: of each the bytes before the range, then those after it,
/// as far as there are any. The piece at `k` is one of the lock at `from[k]`, and
/// the pieces stand in the order of their locks.
pub open spec fn are_pieces(
    pieces: Seq<Segment>,
    from: Seq<int>,
    segments: Seq<Segment>,
    start: u64,
    end: u64,
    owner: ProcessId,
) -> bool {
    &&& from.len() == pieces.len()
    &&& forall|k: int|
        #![trigger from[k]]
        0 <= k < from.len() ==> {
            let s = segments[from[k]];
            &&& 0 <= from[k] < segments.len()
            &&& s.owner == owner && s.start < end && start < s.end
            &&& (s.start < start && pieces[k] == Segment { end: start, ..s }) || (end < s.end
                && pieces[k] == Segment { start: end, ..s })
        }
    &&& forall|k: int, l: int|
        #![trigger from[k], from[l]]
        0 <= k < l < from.len() ==> from[k] < from[l] || {
            let s = segments[from[k]];
            &&& from[k] == from[l]
            &&& s.start < start && pieces[k] == Segment { end: start, ..s }
            &&& end < s.end && pieces[l] == Segment { start: end, ..s }
        }
    &&& forall|i: int|
        0 <= i < segments.len() && segments[i].owner == owner && segments[i].start < start && start
            < segments[i].end && segments[i].start < end ==> #[trigger] has_piece(
            pieces,
            from,
            i,
            segments[i].start,
            start,
        )
    &&& forall|i: int|
        0 <= i < segments.len() && segments[i].owner == owner && segments[i].start < end && end
            < segments[i].end && start < segments[i].end ==> #[trigger] has_piece(
            pieces,
            from,
            i,
            end,
            segments[i].end,
        )
}

/// One of `pieces` is the part `[start, end)` of the lock at `i`.
pub open spec fn has_piece(
    pieces: Seq<Segment>,
    from: Seq<int>,
    i: int,
    start: u64,
    end: u64,
) -> bool {
    exists|k: int|
        #![trigger from[k]]
        0 <= k < from.len() && from[k] == i && pieces[k].start == start && pieces[k].end == end
}

/// A release leaves all locks that it does not reach into as they are, in their
/// order, and puts behind them, in the order of the locks that they come from, the
/// pieces that are left of those that it does.
pub proof fn law_release_keeps_order(
    table: Map<FileKey, FileLocks>,
    key: FileKey,
    start: u64,
    end: u64,
    owner: ProcessId,
)
    ensures
        ({
            let before = lock_model::locks_on(table, key).segments;
            let after = lock_model::locks_on(
                lock_model::after_unlock(table, key, start, end, owner),
                key,
            ).segments;
            let whole = before.filter(
                |s: Segment| !(s.owner == owner && s.start < end && start < s.end),
            );
            exists|pieces: Seq<Segment>, from: Seq<int>|
                after == whole + pieces && #[trigger] are_pieces(
                    pieces,
                    from,
                    before,
                    start,
                    end,
                    owner,
                )
        }),
{
    let before = lock_model::locks_on(table, key).segments;
    segment_facts::lemma_filter_same(
        before,
        |s: Segment| !s.is_cut(start, end, owner),
        |s: Segment| !(s.owner == owner && s.start < end && start < s.end),
    );
    let from = piece_facts::lemma_remnants_are_pieces(before, start, end, owner);
    assert(are_pieces(
        lock_model::remnants(before, start, end, owner),
        from,
        before,
        start,
        end,
        owner,
    ));
}

/// A granted lock leaves what a release of its range by the process would leave, but
/// for one lock that covers the range and stands in for all those of the process and
/// type that touch it. It stands where the first of them stood, or last where there
/// is none; all others stay in their order.
pub proof fn law_granted_lock_takes_its_place(
    table: Map<FileKey, FileLocks>,
    key: FileKey,
    start: u64,
    end: u64,
    lock_type: LockType,
    requester: ProcessId,
)
    requires
        start < end,
        lock_model::locks_on(table, key).tidy(),
        lock_model::lock_answer(table, key, start, end, lock_type, requester) is Ok,
    ensures
        ({
            let after = lock_model::locks_on(
                lock_model::after_try_lock(table, key, start, end, lock_type, requester),
                key,
            ).segments;
            let freed = lock_model::locks_on(
                lock_model::after_unlock(table, key, start, end, requester),
                key,
            ).segments;
            exists|m: int|
                {
                    &&& 0 <= m < after.len()
                    &&& m <= freed.len()
                    &&& after[m].owner == requester && after[m].lock_type == lock_type
                    &&& after[m].start <= start && end <= after[m].end
                    &&& #[trigger] after.remove(m) == freed.filter(
                        |s: Segment|
                            !(s.owner == requester && s.lock_type == lock_type && s.start <= end
                                && start <= s.end),
                    )
                    &&& forall|i: int|
                        0 <= i < m ==> !((#[trigger] freed[i]).owner == requester
                            && freed[i].lock_type == lock_type && freed[i].start <= end && start
                            <= freed[i].end)
                    &&& m < freed.len() ==> freed[m].owner == requester && freed[m].lock_type
                        == lock_type && freed[m].start <= end && start <= freed[m].end
                }
        }),
{
    let locks = lock_model::locks_on(table, key);
    laws::law_unlock_keeps_tidy(locks, start, end, requester);
    let freed = locks.released(start, end, requester).segments;
    let m: int = merge_facts::lemma_acquired_in_place(freed, start, end, lock_type, requester);
    let after = lock_model::locks_on(
        lock_model::after_try_lock(table, key, start, end, lock_type, requester),
        key,
    ).segments;
    assert(0 <= m < after.remove(m).len() + 1);
}

/// A granted lock lies in one lock of its process and type, whatever its range, and so
/// does every lock that a release of the range by the process would leave. Those of
/// another process or type are the same and in the same order as after the release.
pub proof fn law_granted_lock_joins_what_is_left(
    table: Map<FileKey, FileLocks>,
    key: FileKey,
    start: u64,
    end: u64,
    lock_type: LockType,
    requester: ProcessId,
    k: int,
)
    requires
        lock_model::lock_answer(table, key, start, end, lock_type, requester) is Ok,
    ensures
        ({
            let after = lock_model::locks_on(
                lock_model::after_try_lock(table, key, start, end, lock_type, requester),
                key,
            ).segments;
            let freed = lock_model::locks_on(
                lock_model::after_unlock(table, key, start, end, requester),
                key,
            ).segments;
            &&& exists|i: int|
                0 <= i < after.len() && (#[trigger] after[i]).owner == requester
                    && after[i].lock_type == lock_type && after[i].start <= start && end
                    <= after[i].end
            &&& 0 <= k < freed.len() ==> exists|i: int|
                0 <= i < after.len() && (#[trigger] after[i]).owner == freed[k].owner
                    && after[i].lock_type == freed[k].lock_type && after[i].start <= freed[k].start
                    && freed[k].end <= after[i].end
            &&& after.filter(|s: Segment| !(s.owner == requester && s.lock_type == lock_type))
                == freed.filter(|s: Segment| !(s.owner == requester && s.lock_type == lock_type))
        }),
{
    reveal(Seq::filter);
    let freed = lock_model::locks_on(
        lock_model::after_unlock(table, key, start, end, requester),
        key,
    ).segments;
    let after = lock_model::locks_on(
        lock_model::after_try_lock(table, key, start, end, lock_type, requester),
        key,
    ).segments;
    let new = Segment { start, end, owner: requester, lock_type };
    let all = freed.push(new);
    assert(all[freed.len() as int] == new);
    let i: int = merge_facts::lemma_coalesced_contains(
        all,
        requester,
        lock_type,
        freed.len() as int,
    );
    assert(after[i].owner == requester);
    if 0 <= k < freed.len() {
        assert(all[k] == freed[k]);
        let j: int = merge_facts::lemma_coalesced_contains(all, requester, lock_type, k);
        assert(after[j].owner == freed[k].owner);
    }
    merge_facts::lemma_coalesced_other_kinds(all, requester, lock_type);
    assert(all.drop_last() =~= freed);
}

/// Releasing everything takes all bytes of the file from the process, none from
/// another process, and none in another file. The waiters are parted as for any
/// release. Where no lock is empty, the locks of the others are all that is left, in
/// their order.
pub proof fn law_release_all_frees_the_file(
    table: Map<FileKey, FileLocks>,
    key: FileKey,
    owner: ProcessId,
    file: FileKey,
    holder: ProcessId,
    held: LockType,
    b: int,
)
    ensures
        ({
            let after_all = lock_model::after_release_all(table, key, owner);
            let before = lock_model::locks_on(table, key);
            let after = lock_model::locks_on(after_all, key);
            &&& lock_model::locks_on(after_all, file).holds(holder, held, b) <==> (
            lock_model::locks_on(table, file).holds(holder, held, b) && !(file == key && holder
                == owner))
            &&& file != key ==> lock_model::locks_on(after_all, file) == lock_model::locks_on(
                table,
                file,
            )
            &&& (forall|i: int|
                0 <= i < before.segments.len() ==> (#[trigger] before.segments[i]).start
                    < before.segments[i].end) ==> after.segments == before.segments.filter(
                |s: Segment| s.owner != owner,
            )
            &&& lock_model::woken_by_release_all(table, key, owner) == before.waiters.filter(
                |w: LockWaiter|
                    !exists|i: int|
                        0 <= i < after.segments.len() && (#[trigger] after.segments[i]).owner
                            != w.pid && after.segments[i].start < w.end && w.start
                            < after.segments[i].end && (w.lock_type is Exclusive
                            || after.segments[i].lock_type is Exclusive),
            )
            &&& after.waiters == before.waiters.filter(
                |w: LockWaiter|
                    exists|i: int|
                        0 <= i < after.segments.len() && (#[trigger] after.segments[i]).owner
                            != w.pid && after.segments[i].start < w.end && w.start
                            < after.segments[i].end && (w.lock_type is Exclusive
                            || after.segments[i].lock_type is Exclusive),
            )
        }),
{
    let before = lock_model::locks_on(table, key);
    law_release_frees_its_range(table, key, 0, u64::MAX, owner, file, holder, held, b);
    law_release_parts_waiters_in_order(table, key, 0, u64::MAX, owner);
    segment_facts::lemma_remnants_of_all(before.segments, owner);
    if forall|i: int|
        0 <= i < before.segments.len() ==> (#[trigger] before.segments[i]).start
            < before.segments[i].end {
        segment_facts::lemma_filter_same(
            before.segments,
            |s: Segment| !s.is_cut(0, u64::MAX, owner),
            |s: Segment| s.owner != owner,
        );
        let after = lock_model::locks_on(lock_model::after_release_all(table, key, owner), key);
        assert(after.segments =~= before.segments.filter(|s: Segment| s.owner != owner));
    }
}

/// In a coherent file two locks that cover a byte in common belong to different
/// processes and are both shared, and a file where this holds is coherent.
pub proof fn law_coherent_file_has_no_clash(locks: FileLocks)
    ensures
        locks.coherent() <==> forall|i: int, j: int, b: int|
            #![trigger locks.segments[i].covers(b), locks.segments[j].covers(b)]
            0 <= i < j < locks.segments.len() && locks.segments[i].covers(b)
                && locks.segments[j].covers(b) ==> locks.segments[i].owner
                != locks.segments[j].owner && locks.segments[i].lock_type is Shared
                && locks.segments[j].lock_type is Shared,
{
    let harmony = |a: Segment, b: Segment| lock_model::in_harmony(a, b);
    if locks.coherent() {
        assert forall|i: int, j: int, b: int|
            #![trigger locks.segments[i].covers(b), locks.segments[j].covers(b)]
            0 <= i < j < locks.segments.len() && locks.segments[i].covers(b)
                && locks.segments[j].covers(b) implies locks.segments[i].owner
            != locks.segments[j].owner && locks.segments[i].lock_type is Shared
            && locks.segments[j].lock_type is Shared by {
            assert(harmony(locks.segments[i], locks.segments[j]));
            assert(locks.segments[i].covers(b));
        }
    }
    if forall|i: int, j: int, b: int|
        #![trigger locks.segments[i].covers(b), locks.segments[j].covers(b)]
        0 <= i < j < locks.segments.len() && locks.segments[i].covers(b)
            && locks.segments[j].covers(b) ==> locks.segments[i].owner != locks.segments[j].owner
            && locks.segments[i].lock_type is Shared && locks.segments[j].lock_type is Shared {
        assert forall|i: int, j: int|
            #![trigger locks.segments[i], locks.segments[j]]
            0 <= i < j < locks.segments.len() implies harmony(
            locks.segments[i],
            locks.segments[j],
        ) by {
            assert forall|x: int| #[trigger]
                locks.segments[i].covers(x) && locks.segments[j].covers(
                    x,
                ) implies locks.segments[i].owner != locks.segments[j].owner
                && locks.segments[i].lock_type is Shared && locks.segments[j].lock_type is Shared by {
            }
        }
        assert(lock_model::pairwise(locks.segments, harmony));
        assert(locks.coherent());
    }
}

/// In a tidy file no lock is empty, and between two locks of one process and type
/// there is a byte that neither covers. A file where this holds is tidy.
pub proof fn law_tidy_file_has_gaps(locks: FileLocks)
    ensures
        locks.tidy() <==> {
            &&& forall|i: int|
                0 <= i < locks.segments.len() ==> (#[trigger] locks.segments[i]).start
                    < locks.segments[i].end
            &&& forall|i: int, j: int|
                #![trigger locks.segments[i], locks.segments[j]]
                0 <= i < j < locks.segments.len() && locks.segments[i].owner
                    == locks.segments[j].owner && locks.segments[i].lock_type
                    == locks.segments[j].lock_type ==> locks.segments[i].end
                    < locks.segments[j].start || locks.segments[j].end < locks.segments[i].start
        },
{
    let apart = |a: Segment, b: Segment| lock_model::kept_apart(a, b);
    if locks.tidy() {
        assert forall|i: int, j: int|
            #![trigger locks.segments[i], locks.segments[j]]
            0 <= i < j < locks.segments.len() && locks.segments[i].owner == locks.segments[j].owner
                && locks.segments[i].lock_type
                == locks.segments[j].lock_type implies locks.segments[i].end
            < locks.segments[j].start || locks.segments[j].end < locks.segments[i].start by {
            assert(apart(locks.segments[i], locks.segments[j]));
        }
    }
}

} // verus!
