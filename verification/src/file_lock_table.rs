//! The table of advisory locks of a host.
use std::collections::HashMap;

use vstd::prelude::*;

use crate::laws;
use crate::lock_model;
use crate::lock_model::{FileKey, FileLocks, LockType, LockWaiter, ProcessId, Segment};
use crate::segment_facts;

verus! {

broadcast use vstd::std_specs::hash::group_hash_axioms;

impl Segment {
    fn overlaps(&self, start: u64, end: u64) -> (result: bool)
        ensures
            result == self.reaches(start, end),
    {
        self.start < end && self.end > start
    }

    /// Whether this lock blocks a lock of `lock_type` on `[start, end)` for
    /// `requester`.
    fn conflicts_with(
        &self,
        start: u64,
        end: u64,
        lock_type: LockType,
        requester: ProcessId,
    ) -> (result: bool)
        ensures
            result == self.blocks(start, end, lock_type, requester),
    {
        // A process never conflicts with itself.
        if self.owner == requester {
            return false;
        }
        if !self.overlaps(start, end) {
            return false;
        }
        // Two shared locks are always compatible.

        !matches!((lock_type, self.lock_type), (LockType::Shared, LockType::Shared))
    }
}

/// Per-file lock state: acquired segments and blocked waiters.
struct FileLockState {
    segments: Vec<Segment>,
    waiters: Vec<LockWaiter>,
}

impl View for FileLockState {
    type V = FileLocks;

    closed spec fn view(&self) -> FileLocks {
        FileLocks { segments: self.segments@, waiters: self.waiters@ }
    }
}

impl FileLockState {
    fn new() -> (state: Self)
        ensures
            state@ == FileLocks::empty(),
    {
        FileLockState { segments: Vec::new(), waiters: Vec::new() }
    }

    /// Returns the first segment that conflicts with a prospective lock
    /// `[start, end)` of `lock_type` by `requester`, or `None`.
    fn find_conflict(
        &self,
        start: u64,
        end: u64,
        lock_type: LockType,
        requester: ProcessId,
    ) -> (found: Option<&Segment>)
        ensures
            match found {
                Some(segment) => self@.first_conflict(start, end, lock_type, requester) == Some(
                    *segment,
                ),
                None => self@.first_conflict(start, end, lock_type, requester) is None,
            },
    {
        let ghost all = self.segments@;
        let ghost blocking = |s: Segment| s.blocks(start, end, lock_type, requester);
        let mut i: usize = 0;
        while i < self.segments.len()
            invariant
                i <= all.len(),
                all == self.segments@,
                blocking == (|s: Segment| s.blocks(start, end, lock_type, requester)),
                all.take(i as int).filter(blocking).len() == 0,
            decreases all.len() - i,
        {
            proof {
                segment_facts::lemma_filter_take_next(all, blocking, i as int);
            }
            if self.segments[i].conflicts_with(start, end, lock_type, requester) {
                proof {
                    segment_facts::lemma_filter_split(all, blocking, i + 1);
                }
                return Some(&self.segments[i]);
            }
            i = i + 1;
        }
        proof {
            assert(all.take(i as int) =~= all);
        }
        None
    }

    /// Removes the segments of `owner` that overlap `[start, end)`, keeping the
    /// parts of them that lie outside the range.
    fn carve_out(&mut self, start: u64, end: u64, owner: ProcessId)
        ensures
            final(self)@ == old(self)@.carved(start, end, owner),
    {
        let ghost all = self.segments@;
        let ghost keep = |s: Segment| !s.is_cut(start, end, owner);
        let mut kept: Vec<Segment> = Vec::new();
        let mut remnants: Vec<Segment> = Vec::new();
        let mut i: usize = 0;
        proof {
            reveal(Seq::filter);
        }
        while i < self.segments.len()
            invariant
                i <= all.len(),
                all == self.segments@,
                self.waiters@ == old(self).waiters@,
                keep == (|s: Segment| !s.is_cut(start, end, owner)),
                kept@ == all.take(i as int).filter(keep),
                remnants@ == lock_model::remnants(all.take(i as int), start, end, owner),
            decreases all.len() - i,
        {
            let segment = self.segments[i];
            proof {
                segment_facts::lemma_filter_take_next(all, keep, i as int);
                assert(all.take(i + 1).drop_last() =~= all.take(i as int));
            }
            if segment.owner != owner || !segment.overlaps(start, end) {
                kept.push(segment);
            } else {
                let ghost earlier = remnants@;
                if segment.start < start {
                    remnants.push(
                        Segment {
                            start: segment.start,
                            end: start,
                            owner,
                            lock_type: segment.lock_type,
                        },
                    );
                }
                if segment.end > end {
                    remnants.push(
                        Segment { start: end, end: segment.end, owner, lock_type: segment.lock_type },
                    );
                }
                assert(remnants@ =~= earlier + segment.remainder(start, end));
            }
            i = i + 1;
        }
        proof {
            assert(all.take(i as int) =~= all);
        }
        kept.append(&mut remnants);
        self.segments = kept;
    }

    /// Acquires `[start, end)` with `lock_type` for `owner`.
    ///
    /// The caller has made sure that `find_conflict` returns `None`. Segments of
    /// the same process that overlap the new range are split, replaced or merged.
    fn acquire(&mut self, start: u64, end: u64, lock_type: LockType, owner: ProcessId)
        ensures
            final(self)@ == old(self)@.locked(start, end, lock_type, owner),
            start < end && old(self)@.has_no_empty_lock() && old(self)@.own_locks_are_disjoint()
                ==> {
                &&& final(self)@.has_no_empty_lock()
                &&& final(self)@.own_locks_are_disjoint()
                &&& final(self)@.is_coalesced(owner, lock_type)
            },
            start < end && old(self)@.has_no_empty_lock()
                && old(self)@.exclusive_locks_stand_alone() && old(self)@.first_conflict(
                start,
                end,
                lock_type,
                owner,
            ) is None ==> final(self)@.exclusive_locks_stand_alone(),
    {
        proof {
            let before = self@;
            if start < end && before.has_no_empty_lock() {
                if before.own_locks_are_disjoint() {
                    laws::law_lock_keeps_own_locks_disjoint(before, start, end, lock_type, owner);
                }
                if before.exclusive_locks_stand_alone() && before.first_conflict(
                    start,
                    end,
                    lock_type,
                    owner,
                ) is None {
                    laws::law_lock_keeps_exclusive_locks_alone(
                        before,
                        start,
                        end,
                        lock_type,
                        owner,
                    );
                }
            }
        }
        self.carve_out(start, end, owner);
        self.segments.push(Segment { start, end, owner, lock_type });
        self.coalesce(owner, lock_type);
    }

    /// Finds the first two segments of `owner` and `lock_type` that are adjacent
    /// or overlap.
    fn find_joinable(&self, owner: ProcessId, lock_type: LockType) -> (found: Option<
        (usize, usize),
    >)
        ensures
            match found {
                Some((i, j)) => lock_model::is_first_pair(
                    self@.segments,
                    owner,
                    lock_type,
                    i as int,
                    j as int,
                ),
                None => forall|i: int, j: int|
                    !lock_model::is_first_pair(self@.segments, owner, lock_type, i, j),
            },
    {
        let n: usize = self.segments.len();
        let ghost all = self.segments@;
        let mut i: usize = 0;
        while i < n
            invariant
                i <= n,
                n == all.len(),
                all == self.segments@,
                forall|k: int, l: int|
                    #![trigger all[k], all[l]]
                    0 <= k < l < n && k < i ==> !lock_model::joinable(
                        all[k],
                        all[l],
                        owner,
                        lock_type,
                    ),
            decreases n - i,
        {
            let mut j: usize = i + 1;
            while j < n
                invariant
                    i < j <= n,
                    n == all.len(),
                    all == self.segments@,
                    forall|k: int, l: int|
                        #![trigger all[k], all[l]]
                        0 <= k < l < n && (k < i || (k == i && l < j))
                            ==> !lock_model::joinable(all[k], all[l], owner, lock_type),
                decreases n - j,
            {
                let a = self.segments[i];
                let b = self.segments[j];
                if a.owner == owner && b.owner == owner && a.lock_type == lock_type && b.lock_type
                    == lock_type && a.end >= b.start && b.end >= a.start {
                    return Some((i, j));
                }
                j = j + 1;
            }
            i = i + 1;
        }
        None
    }

    /// Merges adjacent or overlapping segments of `owner` and `lock_type`.
    fn coalesce(&mut self, owner: ProcessId, lock_type: LockType)
        ensures
            final(self)@.segments == lock_model::coalesced(
                old(self)@.segments,
                owner,
                lock_type,
            ),
            final(self)@.waiters == old(self)@.waiters,
    {
        let ghost goal = lock_model::coalesced(self.segments@, owner, lock_type);
        loop
            invariant
                goal == lock_model::coalesced(self.segments@, owner, lock_type),
                self.waiters@ == old(self).waiters@,
            ensures
                goal == self.segments@,
            decreases self.segments@.len(),
        {
            match self.find_joinable(owner, lock_type) {
                None => {
                    assert(goal == self@.segments);
                    break;
                },
                Some((i, j)) => {
                    let ghost all = self.segments@;
                    proof {
                        segment_facts::lemma_coalesced_step(
                            all,
                            owner,
                            lock_type,
                            i as int,
                            j as int,
                        );
                    }
                    let a = self.segments[i];
                    let b = self.segments[j];
                    let new_start: u64 = if a.start <= b.start {
                        a.start
                    } else {
                        b.start
                    };
                    let new_end: u64 = if a.end >= b.end {
                        a.end
                    } else {
                        b.end
                    };
                    self.segments.remove(j);
                    self.segments[i] = Segment {
                        start: new_start,
                        end: new_end,
                        owner,
                        lock_type,
                    };
                    assert(self.segments@ =~= lock_model::join_at(all, i as int, j as int));
                },
            }
        }
    }

    /// Releases `[start, end)` owned by `owner`.
    ///
    /// Returns the waiters that are no longer conflicted after the release.
    fn release(&mut self, start: u64, end: u64, owner: ProcessId) -> (ready: Vec<LockWaiter>)
        ensures
            final(self)@ == old(self)@.released(start, end, owner),
            ready@ == old(self)@.woken(start, end, owner),
    {
        self.carve_out(start, end, owner);
        self.drain_ready_waiters()
    }

    /// Removes and returns the waiters that no segment blocks.
    fn drain_ready_waiters(&mut self) -> (ready: Vec<LockWaiter>)
        ensures
            final(self)@ == old(self)@.drained(),
            ready@ == old(self)@.ready(),
            final(self)@.ready() == Seq::<LockWaiter>::empty(),
            final(self)@.drained() == final(self)@,
    {
        proof {
            laws::law_drain_twice(self@);
        }
        let ghost before = self@;
        let ghost free = |w: LockWaiter| !lock_model::is_blocked(before.segments, w);
        let ghost stuck = |w: LockWaiter| lock_model::is_blocked(before.segments, w);
        let mut ready: Vec<LockWaiter> = Vec::new();
        let mut still_blocked: Vec<LockWaiter> = Vec::new();
        let mut i: usize = 0;
        proof {
            reveal(Seq::filter);
        }
        while i < self.waiters.len()
            invariant
                i <= before.waiters.len(),
                self@ == before,
                free == (|w: LockWaiter| !lock_model::is_blocked(before.segments, w)),
                stuck == (|w: LockWaiter| lock_model::is_blocked(before.segments, w)),
                ready@ == before.waiters.take(i as int).filter(free),
                still_blocked@ == before.waiters.take(i as int).filter(stuck),
            decreases before.waiters.len() - i,
        {
            let w = self.waiters[i];
            proof {
                segment_facts::lemma_filter_take_next(before.waiters, free, i as int);
                segment_facts::lemma_filter_take_next(before.waiters, stuck, i as int);
            }
            if self.find_conflict(w.start, w.end, w.lock_type, w.pid).is_some() {
                still_blocked.push(w);
            } else {
                ready.push(w);
            }
            i = i + 1;
        }
        proof {
            assert(before.waiters.take(i as int) =~= before.waiters);
        }
        self.waiters = still_blocked;
        ready
    }
}

/// Host-level table of POSIX advisory file locks.
pub struct FileLockTable {
    files: HashMap<FileKey, FileLockState>,
}

impl View for FileLockTable {
    type V = Map<FileKey, FileLocks>;

    closed spec fn view(&self) -> Map<FileKey, FileLocks> {
        self.files@.map_values(|state: FileLockState| state@)
    }
}

impl FileLockTable {
    /// An empty table.
    pub fn new() -> (table: Self)
        ensures
            table@ == Map::<FileKey, FileLocks>::empty(),
            lock_model::coherent(table@),
            lock_model::tidy(table@),
    {
        let table = FileLockTable { files: HashMap::new() };
        assert(table@ =~= Map::<FileKey, FileLocks>::empty());
        table
    }

    /// Attempts to acquire `[start, end)` with `lock_type` for `requester`.
    ///
    /// Returns `Ok(())` on success, or `Err(conflicting_owner)` if a conflicting
    /// lock is held by another process.
    pub fn try_lock(
        &mut self,
        key: FileKey,
        start: u64,
        end: u64,
        lock_type: LockType,
        requester: ProcessId,
    ) -> (result: Result<(), ProcessId>)
        ensures
            result == lock_model::lock_answer(old(self)@, key, start, end, lock_type, requester),
            result is Ok <==> forall|i: int|
                0 <= i < lock_model::locks_on(old(self)@, key).segments.len() ==> !(
                #[trigger] lock_model::locks_on(old(self)@, key).segments[i]).blocks(
                    start,
                    end,
                    lock_type,
                    requester,
                ),
            final(self)@ == lock_model::after_try_lock(
                old(self)@,
                key,
                start,
                end,
                lock_type,
                requester,
            ),
            lock_model::coherent(old(self)@) && start <= end ==> lock_model::coherent(
                final(self)@,
            ),
            lock_model::tidy(old(self)@) && start < end ==> lock_model::tidy(final(self)@),
    {
        let ghost before = self@;
        proof {
            segment_facts::lemma_first_conflict(
                lock_model::locks_on(before, key).segments,
                start,
                end,
                lock_type,
                requester,
            );
        }
        let state = self.files.entry(key).or_insert(FileLockState::new());
        assert(state@ == lock_model::locks_on(before, key));
        let result = match state.find_conflict(start, end, lock_type, requester) {
            Some(conflict) => Err(conflict.owner),
            None => {
                state.acquire(start, end, lock_type, requester);
                Ok(())
            },
        };
        assert(self@ =~= before.insert(key, self@[key]));
        proof {
            laws::lemma_table_keeps_order(before, key, start, end, lock_type, requester);
        }
        result
    }

    /// Queries whether a prospective lock would conflict (`F_GETLK`).
    ///
    /// Returns `None` if the lock can be acquired, or
    /// `Some((blocking_lock_type, blocking_pid))` if it cannot.
    pub fn query_lock(
        &self,
        key: FileKey,
        start: u64,
        end: u64,
        lock_type: LockType,
        requester: ProcessId,
    ) -> (result: Option<(LockType, ProcessId)>)
        ensures
            result == lock_model::query_answer(self@, key, start, end, lock_type, requester),
            result is None <==> forall|i: int|
                0 <= i < lock_model::locks_on(self@, key).segments.len() ==> !(
                #[trigger] lock_model::locks_on(self@, key).segments[i]).blocks(
                    start,
                    end,
                    lock_type,
                    requester,
                ),
    {
        proof {
            segment_facts::lemma_first_conflict(
                lock_model::locks_on(self@, key).segments,
                start,
                end,
                lock_type,
                requester,
            );
        }
        match self.files.get(&key) {
            None => {
                proof {
                    reveal(Seq::filter);
                }
                None
            },
            Some(state) => match state.find_conflict(start, end, lock_type, requester) {
                Some(segment) => Some((segment.lock_type, segment.owner)),
                None => None,
            },
        }
    }

    /// Releases `[start, end)` held by `owner`.
    ///
    /// Returns the waiters that are now unblocked and must be resumed.
    pub fn unlock(&mut self, key: FileKey, start: u64, end: u64, owner: ProcessId) -> (ready: Vec<
        LockWaiter,
    >)
        ensures
            final(self)@ == lock_model::after_unlock(old(self)@, key, start, end, owner),
            ready@ == lock_model::woken_by_unlock(old(self)@, key, start, end, owner),
            lock_model::coherent(old(self)@) && start <= end ==> lock_model::coherent(
                final(self)@,
            ),
            lock_model::tidy(old(self)@) && start < end ==> lock_model::tidy(final(self)@),
    {
        let ghost before = self@;
        let state = self.files.entry(key).or_insert(FileLockState::new());
        assert(state@ == lock_model::locks_on(before, key));
        let ready = state.release(start, end, owner);
        assert(self@ =~= before.insert(key, self@[key]));
        proof {
            laws::lemma_table_keeps_order(before, key, start, end, LockType::Shared, owner);
        }
        ready
    }

    /// Releases all locks held by `owner` on `key`.
    ///
    /// To be called when the last descriptor of the file description is closed,
    /// and on process exit. Returns the waiters that are now unblocked.
    pub fn release_all(&mut self, key: FileKey, owner: ProcessId) -> (ready: Vec<LockWaiter>)
        ensures
            final(self)@ == lock_model::after_unlock(old(self)@, key, 0, u64::MAX, owner),
            ready@ == lock_model::woken_by_unlock(old(self)@, key, 0, u64::MAX, owner),
            final(self)@ == lock_model::after_release_all(old(self)@, key, owner),
            ready@ == lock_model::woken_by_release_all(old(self)@, key, owner),
            lock_model::coherent(old(self)@) ==> lock_model::coherent(final(self)@),
            lock_model::tidy(old(self)@) ==> lock_model::tidy(final(self)@),
            forall|held: LockType, b: int| !#[trigger]
                lock_model::locks_on(final(self)@, key).holds(owner, held, b),
            forall|i: int, start: u64, end: u64|
                #![trigger lock_model::locks_on(final(self)@, key).segments[i].reaches(start, end)]
                0 <= i < lock_model::locks_on(final(self)@, key).segments.len()
                    && lock_model::locks_on(final(self)@, key).segments[i].owner == owner
                    ==> !lock_model::locks_on(final(self)@, key).segments[i].reaches(start, end),
    {
        proof {
            laws::law_release_all_leaves_nothing(lock_model::locks_on(self@, key), owner);
        }
        self.unlock(key, 0, u64::MAX, owner)
    }

    /// Registers `waiter` as blocked on `key`.
    ///
    /// The waiter is returned by the first `unlock` or `release_all` that leaves no
    /// conflict with it.
    pub fn add_waiter(&mut self, key: FileKey, waiter: LockWaiter)
        ensures
            final(self)@ == lock_model::after_add_waiter(old(self)@, key, waiter),
            lock_model::coherent(old(self)@) ==> lock_model::coherent(final(self)@),
            lock_model::tidy(old(self)@) ==> lock_model::tidy(final(self)@),
    {
        let ghost before = self@;
        let state = self.files.entry(key).or_insert(FileLockState::new());
        state.waiters.push(waiter);
        assert(self@ =~= before.insert(key, self@[key]));
        proof {
            laws::law_waiting_keeps_order(before, key, waiter);
        }
    }
}

impl Default for FileLockTable {
    fn default() -> (table: Self)
        ensures
            table@ == Map::<FileKey, FileLocks>::empty(),
            lock_model::coherent(table@),
            lock_model::tidy(table@),
    {
        FileLockTable::new()
    }
}

} // verus!
