//! Locks, conflicts between locks, and what acquiring and releasing a byte
//! range does to the locks of one file.
use vstd::prelude::*;

verus! {

/// Stable identifier of an open-file description.
pub type FileKey = u64;

/// A process of the simulated host, by its process number.
#[derive(Clone, Copy, PartialEq, Eq, Debug, Hash, Structural)]
pub struct ProcessId(pub i32);

/// A thread of the simulated host, by its thread number.
#[derive(Clone, Copy, PartialEq, Eq, Debug, Hash, Structural)]
pub struct ThreadId(pub i32);

/// The type of a POSIX advisory lock.
#[derive(Clone, Copy, PartialEq, Eq, Debug, Structural)]
pub enum LockType {
    /// `F_RDLCK`: shared read lock.
    Shared,
    /// `F_WRLCK`: exclusive write lock.
    Exclusive,
}

/// A thread that waits to acquire a lock.
#[derive(Clone, Copy, PartialEq, Eq, Debug, Structural)]
pub struct LockWaiter {
    pub pid: ProcessId,
    pub tid: ThreadId,
    pub start: u64,
    pub end: u64,
    pub lock_type: LockType,
}

/// A single acquired lock.
#[derive(Clone, Copy, PartialEq, Eq, Debug, Structural)]
pub struct Segment {
    /// First byte of the locked range.
    pub start: u64,
    /// First byte after the locked range; `u64::MAX` stands for "to end of file".
    pub end: u64,
    pub owner: ProcessId,
    pub lock_type: LockType,
}

impl Segment {
    /// The segment and `[start, end)` reach into each other.
    pub open spec fn reaches(self, start: u64, end: u64) -> bool {
        self.start < end && self.end > start
    }

    /// Byte `b` lies in the segment.
    pub open spec fn covers(self, b: int) -> bool {
        self.start <= b < self.end
    }

    /// The segment stands in the way of a lock of `lock_type` on `[start, end)`
    /// for `requester`: it belongs to another process, reaches into the range,
    /// and not both locks are shared.
    pub open spec fn blocks(
        self,
        start: u64,
        end: u64,
        lock_type: LockType,
        requester: ProcessId,
    ) -> bool {
        &&& self.owner != requester
        &&& self.reaches(start, end)
        &&& !(lock_type is Shared && self.lock_type is Shared)
    }

    /// A change that `owner` makes on `[start, end)` touches this segment.
    pub open spec fn is_cut(self, start: u64, end: u64, owner: ProcessId) -> bool {
        self.owner == owner && self.reaches(start, end)
    }

    /// What is left of the segment once `[start, end)` is taken out of it: the
    /// part before the range, then the part after it.
    pub open spec fn remainder(self, start: u64, end: u64) -> Seq<Segment> {
        let before = if self.start < start {
            seq![Segment { end: start, ..self }]
        } else {
            Seq::empty()
        };
        let after = if self.end > end {
            seq![Segment { start: end, ..self }]
        } else {
            Seq::empty()
        };
        before + after
    }

    /// The segment belongs to `owner` and is of type `lock_type`.
    pub open spec fn is_kind(self, owner: ProcessId, lock_type: LockType) -> bool {
        self.owner == owner && self.lock_type == lock_type
    }
}

/// The first of `segments` that blocks the request, if any does.
pub open spec fn first_conflict(
    segments: Seq<Segment>,
    start: u64,
    end: u64,
    lock_type: LockType,
    requester: ProcessId,
) -> Option<Segment> {
    let conflicts = segments.filter(|s: Segment| s.blocks(start, end, lock_type, requester));
    if conflicts.len() == 0 {
        None
    } else {
        Some(conflicts[0])
    }
}

/// The segments that a change by `owner` on `[start, end)` leaves as they are.
pub open spec fn uncut(segments: Seq<Segment>, start: u64, end: u64, owner: ProcessId) -> Seq<
    Segment,
> {
    segments.filter(|s: Segment| !s.is_cut(start, end, owner))
}

/// What is left, in order, of the segments that a change by `owner` on
/// `[start, end)` touches.
pub open spec fn remnants(segments: Seq<Segment>, start: u64, end: u64, owner: ProcessId) -> Seq<
    Segment,
>
    decreases segments.len(),
{
    if segments.len() == 0 {
        Seq::empty()
    } else {
        let earlier = remnants(segments.drop_last(), start, end, owner);
        if segments.last().is_cut(start, end, owner) {
            earlier + segments.last().remainder(start, end)
        } else {
            earlier
        }
    }
}

/// The segments once `owner` holds nothing on `[start, end)` any more.
pub open spec fn carved(segments: Seq<Segment>, start: u64, end: u64, owner: ProcessId) -> Seq<
    Segment,
> {
    uncut(segments, start, end, owner) + remnants(segments, start, end, owner)
}

/// Two locks of `owner` and `lock_type` that overlap or are adjacent.
pub open spec fn joinable(a: Segment, b: Segment, owner: ProcessId, lock_type: LockType) -> bool {
    &&& a.is_kind(owner, lock_type)
    &&& b.is_kind(owner, lock_type)
    &&& a.end >= b.start
    &&& b.end >= a.start
}

/// The lock that reaches from the lower start to the higher end of two locks.
pub open spec fn joined(a: Segment, b: Segment) -> Segment {
    Segment {
        start: if a.start <= b.start {
            a.start
        } else {
            b.start
        },
        end: if a.end >= b.end {
            a.end
        } else {
            b.end
        },
        ..a
    }
}

/// `segments` with those at `i` and `j` joined at `i`.
pub open spec fn join_at(segments: Seq<Segment>, i: int, j: int) -> Seq<Segment> {
    segments.remove(j).update(i, joined(segments[i], segments[j]))
}

/// `i` and `j` are, in lexicographic order, the first two positions whose
/// segments can be joined.
pub open spec fn is_first_pair(
    segments: Seq<Segment>,
    owner: ProcessId,
    lock_type: LockType,
    i: int,
    j: int,
) -> bool {
    &&& 0 <= i < j < segments.len()
    &&& joinable(segments[i], segments[j], owner, lock_type)
    &&& forall|k: int, l: int|
        #![trigger segments[k], segments[l]]
        0 <= k < l < segments.len() && (k < i || (k == i && l < j)) ==> !joinable(
            segments[k],
            segments[l],
            owner,
            lock_type,
        )
}

/// `segments` with the locks of `owner` and `lock_type` joined, first pair
/// first, until no two of them overlap or are adjacent.
pub open spec fn coalesced(
    segments: Seq<Segment>,
    owner: ProcessId,
    lock_type: LockType,
) -> Seq<Segment>
    decreases segments.len(),
{
    if exists|i: int, j: int| is_first_pair(segments, owner, lock_type, i, j) {
        let (i, j) = choose|i: int, j: int| is_first_pair(segments, owner, lock_type, i, j);
        coalesced(join_at(segments, i, j), owner, lock_type)
    } else {
        segments
    }
}

/// The segments once `owner` has acquired `[start, end)` with `lock_type`: the
/// new lock replaces what `owner` held there, and is joined with what it touches.
pub open spec fn acquired(
    segments: Seq<Segment>,
    start: u64,
    end: u64,
    lock_type: LockType,
    owner: ProcessId,
) -> Seq<Segment> {
    coalesced(
        carved(segments, start, end, owner).push(Segment { start, end, owner, lock_type }),
        owner,
        lock_type,
    )
}

/// `owner` holds a lock of `lock_type` on byte `b`.
pub open spec fn holds(
    segments: Seq<Segment>,
    owner: ProcessId,
    lock_type: LockType,
    b: int,
) -> bool {
    exists|i: int|
        0 <= i < segments.len() && (#[trigger] segments[i]).is_kind(owner, lock_type)
            && segments[i].covers(b)
}

/// Two locks may stand side by side: where they cover a byte in common, they
/// belong to different processes and are both shared.
pub open spec fn in_harmony(a: Segment, b: Segment) -> bool {
    forall|x: int| #[trigger]
        a.covers(x) && b.covers(x) ==> a.owner != b.owner && a.lock_type is Shared
            && b.lock_type is Shared
}

/// Two locks are not parts of one lock: where owner and type are the same, there
/// is a gap between them.
pub open spec fn kept_apart(a: Segment, b: Segment) -> bool {
    !joinable(a, b, a.owner, a.lock_type)
}

/// `related` holds of every two segments at different positions.
pub open spec fn pairwise(
    segments: Seq<Segment>,
    related: spec_fn(Segment, Segment) -> bool,
) -> bool {
    forall|i: int, j: int|
        #![trigger segments[i], segments[j]]
        0 <= i < j < segments.len() ==> related(segments[i], segments[j])
}

/// Some segment blocks the lock that `waiter` waits for.
pub open spec fn is_blocked(segments: Seq<Segment>, waiter: LockWaiter) -> bool {
    first_conflict(segments, waiter.start, waiter.end, waiter.lock_type, waiter.pid) is Some
}

/// The locks on one file, and the threads that wait for one, in the order in
/// which they began to wait.
#[verifier::ext_equal]
pub struct FileLocks {
    pub segments: Seq<Segment>,
    pub waiters: Seq<LockWaiter>,
}

impl FileLocks {
    /// No lock and no waiter.
    pub open spec fn empty() -> FileLocks {
        FileLocks { segments: Seq::empty(), waiters: Seq::empty() }
    }

    /// The waiters that no lock blocks.
    pub open spec fn ready(self) -> Seq<LockWaiter> {
        self.waiters.filter(|w: LockWaiter| !is_blocked(self.segments, w))
    }

    /// The waiters that some lock blocks.
    pub open spec fn still_blocked(self) -> Seq<LockWaiter> {
        self.waiters.filter(|w: LockWaiter| is_blocked(self.segments, w))
    }

    /// The file once the ready waiters have left.
    pub open spec fn drained(self) -> FileLocks {
        FileLocks { waiters: self.still_blocked(), ..self }
    }

    /// The file once `owner` holds nothing on `[start, end)` any more, before
    /// any waiter leaves.
    pub open spec fn carved(self, start: u64, end: u64, owner: ProcessId) -> FileLocks {
        FileLocks { segments: carved(self.segments, start, end, owner), ..self }
    }

    /// The file once `owner` has released `[start, end)`.
    pub open spec fn released(self, start: u64, end: u64, owner: ProcessId) -> FileLocks {
        self.carved(start, end, owner).drained()
    }

    /// The waiters that leave when `owner` releases `[start, end)`.
    pub open spec fn woken(self, start: u64, end: u64, owner: ProcessId) -> Seq<LockWaiter> {
        self.carved(start, end, owner).ready()
    }

    /// The file once `owner` has acquired `[start, end)` with `lock_type`.
    pub open spec fn locked(
        self,
        start: u64,
        end: u64,
        lock_type: LockType,
        owner: ProcessId,
    ) -> FileLocks {
        FileLocks { segments: acquired(self.segments, start, end, lock_type, owner), ..self }
    }

    /// The file with one more waiter.
    pub open spec fn with_waiter(self, waiter: LockWaiter) -> FileLocks {
        FileLocks { waiters: self.waiters.push(waiter), ..self }
    }

    /// No byte is locked twice by one process, and none that is locked
    /// exclusively is locked by another process too.
    pub open spec fn coherent(self) -> bool {
        pairwise(self.segments, |a: Segment, b: Segment| in_harmony(a, b))
    }

    /// Every lock covers a byte, and what one process holds without a gap with
    /// one type is one lock.
    pub open spec fn tidy(self) -> bool {
        &&& forall|i: int|
            0 <= i < self.segments.len() ==> (#[trigger] self.segments[i]).start
                < self.segments[i].end
        &&& pairwise(self.segments, |a: Segment, b: Segment| kept_apart(a, b))
    }

    /// Every lock covers a byte.
    pub open spec fn has_no_empty_lock(self) -> bool {
        forall|i: int|
            0 <= i < self.segments.len() ==> (#[trigger] self.segments[i]).start
                < self.segments[i].end
    }

    /// No two locks of one process overlap, whatever their types.
    pub open spec fn own_locks_are_disjoint(self) -> bool {
        forall|i: int, j: int|
            #![trigger self.segments[i], self.segments[j]]
            0 <= i < j < self.segments.len() && self.segments[i].owner == self.segments[j].owner
                ==> !self.segments[i].reaches(self.segments[j].start, self.segments[j].end)
    }

    /// Locks of different processes that overlap are both shared.
    pub open spec fn exclusive_locks_stand_alone(self) -> bool {
        forall|i: int, j: int|
            #![trigger self.segments[i], self.segments[j]]
            0 <= i < j < self.segments.len() && self.segments[i].owner != self.segments[j].owner
                && self.segments[i].reaches(self.segments[j].start, self.segments[j].end)
                ==> self.segments[i].lock_type is Shared && self.segments[j].lock_type is Shared
    }

    /// No two locks of `owner` and `lock_type` overlap or are adjacent.
    pub open spec fn is_coalesced(self, owner: ProcessId, lock_type: LockType) -> bool {
        forall|i: int, j: int|
            #![trigger self.segments[i], self.segments[j]]
            0 <= i < j < self.segments.len() ==> !joinable(
                self.segments[i],
                self.segments[j],
                owner,
                lock_type,
            )
    }

    /// `owner` holds a lock of `lock_type` on byte `b`.
    pub open spec fn holds(self, owner: ProcessId, lock_type: LockType, b: int) -> bool {
        holds(self.segments, owner, lock_type, b)
    }

    /// The first lock that blocks the request, if any does.
    pub open spec fn first_conflict(
        self,
        start: u64,
        end: u64,
        lock_type: LockType,
        requester: ProcessId,
    ) -> Option<Segment> {
        first_conflict(self.segments, start, end, lock_type, requester)
    }
}

/// What a table holds on `key`; a file that it does not list has no lock and no
/// waiter.
pub open spec fn locks_on(table: Map<FileKey, FileLocks>, key: FileKey) -> FileLocks {
    if table.contains_key(key) {
        table[key]
    } else {
        FileLocks::empty()
    }
}

/// The answer to a request for a lock: refused in favour of the owner of the
/// first lock that blocks it, granted where none does.
pub open spec fn lock_answer(
    table: Map<FileKey, FileLocks>,
    key: FileKey,
    start: u64,
    end: u64,
    lock_type: LockType,
    requester: ProcessId,
) -> Result<(), ProcessId> {
    match locks_on(table, key).first_conflict(start, end, lock_type, requester) {
        Some(conflict) => Err(conflict.owner),
        None => Ok(()),
    }
}

/// The table after a request for a lock: a granted lock is in it, a refused
/// request has changed no lock and no waiter. Either way the file is listed.
pub open spec fn after_try_lock(
    table: Map<FileKey, FileLocks>,
    key: FileKey,
    start: u64,
    end: u64,
    lock_type: LockType,
    requester: ProcessId,
) -> Map<FileKey, FileLocks> {
    let locks = locks_on(table, key);
    match lock_answer(table, key, start, end, lock_type, requester) {
        Ok(_) => table.insert(key, locks.locked(start, end, lock_type, requester)),
        Err(_) => table.insert(key, locks),
    }
}

/// The answer to a query: type and owner of the first lock that blocks the
/// request, `None` where none does.
pub open spec fn query_answer(
    table: Map<FileKey, FileLocks>,
    key: FileKey,
    start: u64,
    end: u64,
    lock_type: LockType,
    requester: ProcessId,
) -> Option<(LockType, ProcessId)> {
    match locks_on(table, key).first_conflict(start, end, lock_type, requester) {
        Some(conflict) => Some((conflict.lock_type, conflict.owner)),
        None => None,
    }
}

/// The table once `owner` has released `[start, end)` of `key`.
pub open spec fn after_unlock(
    table: Map<FileKey, FileLocks>,
    key: FileKey,
    start: u64,
    end: u64,
    owner: ProcessId,
) -> Map<FileKey, FileLocks> {
    table.insert(key, locks_on(table, key).released(start, end, owner))
}

/// The waiters that leave the table when `owner` releases `[start, end)` of `key`.
pub open spec fn woken_by_unlock(
    table: Map<FileKey, FileLocks>,
    key: FileKey,
    start: u64,
    end: u64,
    owner: ProcessId,
) -> Seq<LockWaiter> {
    locks_on(table, key).woken(start, end, owner)
}

/// The table once `owner` has released all of `key`.
pub open spec fn after_release_all(
    table: Map<FileKey, FileLocks>,
    key: FileKey,
    owner: ProcessId,
) -> Map<FileKey, FileLocks> {
    after_unlock(table, key, 0, u64::MAX, owner)
}

/// The waiters that leave the table when `owner` releases all of `key`.
pub open spec fn woken_by_release_all(
    table: Map<FileKey, FileLocks>,
    key: FileKey,
    owner: ProcessId,
) -> Seq<LockWaiter> {
    woken_by_unlock(table, key, 0, u64::MAX, owner)
}

/// The table with one more waiter on `key`.
pub open spec fn after_add_waiter(
    table: Map<FileKey, FileLocks>,
    key: FileKey,
    waiter: LockWaiter,
) -> Map<FileKey, FileLocks> {
    table.insert(key, locks_on(table, key).with_waiter(waiter))
}

/// Every file of the table is coherent.
pub open spec fn coherent(table: Map<FileKey, FileLocks>) -> bool {
    forall|key: FileKey| #[trigger] table.contains_key(key) ==> table[key].coherent()
}

/// Every file of the table is tidy.
pub open spec fn tidy(table: Map<FileKey, FileLocks>) -> bool {
    forall|key: FileKey| #[trigger] table.contains_key(key) ==> table[key].tidy()
}

} // verus!
