use posix_locks::file_lock_table::FileLockTable;
use posix_locks::lock_model::{LockType, LockWaiter, ProcessId, ThreadId};

const KEY: u64 = 7;
const A: ProcessId = ProcessId(100);
const B: ProcessId = ProcessId(200);
const C: ProcessId = ProcessId(300);

fn waiter(pid: ProcessId, tid: i32, start: u64, end: u64, lock_type: LockType) -> LockWaiter {
    LockWaiter { pid, tid: ThreadId(tid), start, end, lock_type }
}

fn tids(waiters: &[LockWaiter]) -> Vec<i32> {
    waiters.iter().map(|w| w.tid.0).collect()
}

#[test]
fn empty_table_grants_every_request() {
    let mut table = FileLockTable::new();
    assert_eq!(table.query_lock(KEY, 0, u64::MAX, LockType::Exclusive, A), None);
    assert_eq!(table.try_lock(KEY, 0, u64::MAX, LockType::Exclusive, A), Ok(()));
    let mut other = FileLockTable::default();
    assert_eq!(other.try_lock(KEY, 0, 1, LockType::Shared, A), Ok(()));
}

#[test]
fn process_never_conflicts_with_itself() {
    let mut table = FileLockTable::new();
    assert_eq!(table.try_lock(KEY, 0, 100, LockType::Exclusive, A), Ok(()));
    assert_eq!(table.query_lock(KEY, 50, 150, LockType::Exclusive, A), None);
    assert_eq!(table.try_lock(KEY, 50, 150, LockType::Exclusive, A), Ok(()));
    assert_eq!(table.try_lock(KEY, 0, 150, LockType::Shared, A), Ok(()));
}

#[test]
fn shared_locks_are_compatible() {
    let mut table = FileLockTable::new();
    assert_eq!(table.try_lock(KEY, 0, 100, LockType::Shared, A), Ok(()));
    assert_eq!(table.try_lock(KEY, 0, 100, LockType::Shared, B), Ok(()));
    assert_eq!(table.try_lock(KEY, 50, 60, LockType::Shared, C), Ok(()));
}

#[test]
fn exclusive_lock_conflicts_with_any_lock_of_others() {
    let mut table = FileLockTable::new();
    assert_eq!(table.try_lock(KEY, 10, 20, LockType::Exclusive, A), Ok(()));
    assert_eq!(table.try_lock(KEY, 19, 30, LockType::Shared, B), Err(A));
    assert_eq!(table.try_lock(KEY, 0, 11, LockType::Exclusive, B), Err(A));
    // Adjacent ranges do not conflict.
    assert_eq!(table.try_lock(KEY, 20, 30, LockType::Exclusive, B), Ok(()));
    assert_eq!(table.try_lock(KEY, 0, 10, LockType::Exclusive, C), Ok(()));
    assert_eq!(table.try_lock(KEY, 0, 30, LockType::Exclusive, C), Err(A));
}

#[test]
fn exclusive_request_conflicts_with_shared_lock() {
    let mut table = FileLockTable::new();
    assert_eq!(table.try_lock(KEY, 10, 20, LockType::Shared, A), Ok(()));
    assert_eq!(table.try_lock(KEY, 15, 16, LockType::Exclusive, B), Err(A));
    assert_eq!(
        table.query_lock(KEY, 15, 16, LockType::Exclusive, B),
        Some((LockType::Shared, A))
    );
}

#[test]
fn query_names_type_and_owner_of_the_first_conflict() {
    let mut table = FileLockTable::new();
    assert_eq!(table.try_lock(KEY, 0, 10, LockType::Shared, A), Ok(()));
    assert_eq!(table.try_lock(KEY, 10, 20, LockType::Exclusive, B), Ok(()));
    assert_eq!(
        table.query_lock(KEY, 0, 20, LockType::Exclusive, C),
        Some((LockType::Shared, A))
    );
    assert_eq!(
        table.query_lock(KEY, 0, 20, LockType::Shared, C),
        Some((LockType::Exclusive, B))
    );
    assert_eq!(table.try_lock(KEY, 0, 20, LockType::Exclusive, C), Err(A));
    assert_eq!(table.try_lock(KEY, 0, 20, LockType::Shared, C), Err(B));
}

#[test]
fn lock_to_end_of_file_reaches_every_byte() {
    let mut table = FileLockTable::new();
    assert_eq!(table.try_lock(KEY, 5, u64::MAX, LockType::Exclusive, A), Ok(()));
    assert_eq!(table.try_lock(KEY, 1 << 62, (1 << 62) + 1, LockType::Shared, B), Err(A));
    assert_eq!(table.try_lock(KEY, 0, 5, LockType::Exclusive, B), Ok(()));
}

#[test]
fn lock_inside_own_lock_of_other_type_splits_it() {
    let mut table = FileLockTable::new();
    assert_eq!(table.try_lock(KEY, 0, 100, LockType::Shared, A), Ok(()));
    assert_eq!(table.try_lock(KEY, 40, 60, LockType::Exclusive, A), Ok(()));
    assert_eq!(table.query_lock(KEY, 0, 40, LockType::Shared, B), None);
    assert_eq!(
        table.query_lock(KEY, 39, 41, LockType::Shared, B),
        Some((LockType::Exclusive, A))
    );
    assert_eq!(
        table.query_lock(KEY, 59, 60, LockType::Shared, B),
        Some((LockType::Exclusive, A))
    );
    assert_eq!(table.query_lock(KEY, 60, 100, LockType::Shared, B), None);
    assert_eq!(
        table.query_lock(KEY, 60, 100, LockType::Exclusive, B),
        Some((LockType::Shared, A))
    );
    assert_eq!(
        table.query_lock(KEY, 0, 40, LockType::Exclusive, B),
        Some((LockType::Shared, A))
    );
}

#[test]
fn new_lock_replaces_own_lock() {
    let mut table = FileLockTable::new();
    assert_eq!(table.try_lock(KEY, 0, 100, LockType::Exclusive, A), Ok(()));
    assert_eq!(table.try_lock(KEY, 0, 100, LockType::Shared, A), Ok(()));
    assert_eq!(table.try_lock(KEY, 0, 100, LockType::Shared, B), Ok(()));
    // The upgrade is refused while another process reads.
    assert_eq!(table.try_lock(KEY, 0, 100, LockType::Exclusive, A), Err(B));
}

#[test]
fn adjacent_locks_are_merged_in_place_of_the_first() {
    let mut table = FileLockTable::new();
    assert_eq!(table.try_lock(KEY, 0, 10, LockType::Shared, A), Ok(()));
    assert_eq!(table.try_lock(KEY, 0, 30, LockType::Shared, B), Ok(()));
    assert_eq!(table.try_lock(KEY, 10, 20, LockType::Shared, A), Ok(()));
    // The merged lock of A stands before that of B.
    assert_eq!(table.try_lock(KEY, 10, 20, LockType::Exclusive, C), Err(A));
    assert_eq!(table.try_lock(KEY, 20, 30, LockType::Exclusive, C), Err(B));
}

#[test]
fn lock_across_two_own_locks_merges_all_three() {
    let mut table = FileLockTable::new();
    assert_eq!(table.try_lock(KEY, 0, 10, LockType::Shared, A), Ok(()));
    assert_eq!(table.try_lock(KEY, 20, 30, LockType::Shared, A), Ok(()));
    assert_eq!(table.try_lock(KEY, 0, 40, LockType::Shared, B), Ok(()));
    assert_eq!(table.try_lock(KEY, 8, 22, LockType::Shared, A), Ok(()));
    // What was cut stands behind the lock of B now.
    assert_eq!(table.try_lock(KEY, 29, 30, LockType::Exclusive, C), Err(B));
    assert!(table.release_all(KEY, B).is_empty());
    for b in 0..30u64 {
        assert_eq!(table.try_lock(KEY, b, b + 1, LockType::Exclusive, C), Err(A));
    }
    assert_eq!(table.try_lock(KEY, 30, 40, LockType::Exclusive, C), Ok(()));
}

#[test]
fn unlock_in_the_middle_leaves_both_ends() {
    let mut table = FileLockTable::new();
    assert_eq!(table.try_lock(KEY, 0, 100, LockType::Exclusive, A), Ok(()));
    assert!(table.unlock(KEY, 40, 60, A).is_empty());
    assert_eq!(table.query_lock(KEY, 40, 60, LockType::Exclusive, B), None);
    assert_eq!(
        table.query_lock(KEY, 39, 60, LockType::Shared, B),
        Some((LockType::Exclusive, A))
    );
    assert_eq!(
        table.query_lock(KEY, 40, 61, LockType::Shared, B),
        Some((LockType::Exclusive, A))
    );
    // A lock of another process is not released.
    assert_eq!(table.try_lock(KEY, 40, 60, LockType::Exclusive, B), Ok(()));
    assert!(table.unlock(KEY, 0, 100, A).is_empty());
    assert_eq!(table.try_lock(KEY, 0, 100, LockType::Exclusive, A), Err(B));
}

#[test]
fn unlock_undoes_lock() {
    let mut table = FileLockTable::new();
    assert_eq!(table.try_lock(KEY, 0, 10, LockType::Shared, B), Ok(()));
    assert_eq!(table.try_lock(KEY, 10, 20, LockType::Exclusive, A), Ok(()));
    assert!(table.unlock(KEY, 10, 20, A).is_empty());
    assert_eq!(table.query_lock(KEY, 10, 20, LockType::Exclusive, C), None);
    assert_eq!(
        table.query_lock(KEY, 0, 20, LockType::Exclusive, C),
        Some((LockType::Shared, B))
    );
}

#[test]
fn locking_twice_is_locking_once() {
    let mut table = FileLockTable::new();
    assert_eq!(table.try_lock(KEY, 0, 10, LockType::Exclusive, A), Ok(()));
    assert_eq!(table.try_lock(KEY, 0, 10, LockType::Exclusive, A), Ok(()));
    assert!(table.unlock(KEY, 0, 10, A).is_empty());
    assert_eq!(table.try_lock(KEY, 0, 10, LockType::Exclusive, B), Ok(()));
}

#[test]
fn refused_request_changes_nothing() {
    let mut table = FileLockTable::new();
    assert_eq!(table.try_lock(KEY, 0, 10, LockType::Exclusive, A), Ok(()));
    assert_eq!(table.try_lock(KEY, 5, 50, LockType::Exclusive, B), Err(A));
    assert_eq!(table.query_lock(KEY, 10, 50, LockType::Exclusive, C), None);
    assert_eq!(
        table.query_lock(KEY, 0, 10, LockType::Exclusive, C),
        Some((LockType::Exclusive, A))
    );
}

#[test]
fn files_are_independent() {
    let mut table = FileLockTable::new();
    assert_eq!(table.try_lock(1, 0, 10, LockType::Exclusive, A), Ok(()));
    assert_eq!(table.try_lock(2, 0, 10, LockType::Exclusive, B), Ok(()));
    table.add_waiter(1, waiter(B, 20, 0, 10, LockType::Shared));
    assert!(table.release_all(2, B).is_empty());
    assert_eq!(table.try_lock(1, 0, 10, LockType::Shared, B), Err(A));
    assert_eq!(tids(&table.release_all(1, A)), vec![20]);
}

#[test]
fn release_all_drops_every_lock_of_the_process() {
    let mut table = FileLockTable::new();
    assert_eq!(table.try_lock(KEY, 0, 10, LockType::Exclusive, A), Ok(()));
    assert_eq!(table.try_lock(KEY, 20, 30, LockType::Shared, A), Ok(()));
    assert_eq!(table.try_lock(KEY, 40, u64::MAX, LockType::Exclusive, A), Ok(()));
    assert_eq!(table.try_lock(KEY, 25, 28, LockType::Shared, B), Ok(()));
    assert!(table.release_all(KEY, A).is_empty());
    assert_eq!(table.query_lock(KEY, 0, 25, LockType::Exclusive, C), None);
    assert_eq!(table.query_lock(KEY, 28, u64::MAX, LockType::Exclusive, C), None);
    assert_eq!(
        table.query_lock(KEY, 0, u64::MAX, LockType::Exclusive, C),
        Some((LockType::Shared, B))
    );
}

#[test]
fn unlock_wakes_only_the_unblocked_in_order() {
    let mut table = FileLockTable::new();
    assert_eq!(table.try_lock(KEY, 0, 100, LockType::Exclusive, A), Ok(()));
    table.add_waiter(KEY, waiter(B, 1, 0, 10, LockType::Exclusive));
    table.add_waiter(KEY, waiter(C, 2, 40, 60, LockType::Shared));
    table.add_waiter(KEY, waiter(B, 3, 5, 15, LockType::Shared));
    table.add_waiter(KEY, waiter(C, 4, 0, 20, LockType::Exclusive));
    let woken = table.unlock(KEY, 0, 20, A);
    assert_eq!(tids(&woken), vec![1, 3, 4]);
    assert_eq!(woken[1], waiter(B, 3, 5, 15, LockType::Shared));
    // Those that were woken are gone, the blocked one is still there.
    assert_eq!(tids(&table.release_all(KEY, A)), vec![2]);
    assert!(table.release_all(KEY, A).is_empty());
}

#[test]
fn releasing_twice_hands_on_nobody() {
    let mut table = FileLockTable::new();
    assert_eq!(table.try_lock(KEY, 0, 100, LockType::Exclusive, A), Ok(()));
    table.add_waiter(KEY, waiter(B, 1, 40, 50, LockType::Shared));
    table.add_waiter(KEY, waiter(B, 2, 0, 10, LockType::Shared));
    assert_eq!(tids(&table.unlock(KEY, 40, 60, A)), vec![1]);
    assert!(table.unlock(KEY, 40, 60, A).is_empty());
    assert_eq!(
        table.query_lock(KEY, 39, 40, LockType::Shared, B),
        Some((LockType::Exclusive, A))
    );
    assert_eq!(tids(&table.release_all(KEY, A)), vec![2]);
}

#[test]
fn woken_waiter_is_granted_its_lock() {
    let mut table = FileLockTable::new();
    assert_eq!(table.try_lock(KEY, 0, 10, LockType::Exclusive, A), Ok(()));
    assert_eq!(table.try_lock(KEY, 0, 10, LockType::Exclusive, B), Err(A));
    table.add_waiter(KEY, waiter(B, 9, 0, 10, LockType::Exclusive));
    let woken = table.unlock(KEY, 0, 10, A);
    assert_eq!(tids(&woken), vec![9]);
    let w = woken[0];
    assert_eq!(table.try_lock(KEY, w.start, w.end, w.lock_type, w.pid), Ok(()));
}

#[test]
fn waiter_on_an_unlisted_file_is_woken_by_the_first_release() {
    let mut table = FileLockTable::new();
    table.add_waiter(KEY, waiter(B, 5, 0, 10, LockType::Exclusive));
    assert_eq!(tids(&table.unlock(KEY, 0, 1, A)), vec![5]);
}

#[test]
fn own_lock_does_not_block_a_waiter() {
    let mut table = FileLockTable::new();
    assert_eq!(table.try_lock(KEY, 0, 10, LockType::Shared, A), Ok(()));
    assert_eq!(table.try_lock(KEY, 0, 10, LockType::Shared, B), Ok(()));
    table.add_waiter(KEY, waiter(A, 6, 0, 10, LockType::Exclusive));
    assert_eq!(tids(&table.unlock(KEY, 0, 10, B)), vec![6]);
}

#[test]
fn empty_range_inside_a_lock_of_another_process_is_refused() {
    let mut table = FileLockTable::new();
    assert_eq!(table.try_lock(KEY, 0, 10, LockType::Exclusive, A), Ok(()));
    assert_eq!(table.try_lock(KEY, 5, 5, LockType::Exclusive, B), Err(A));
    assert_eq!(table.try_lock(KEY, 0, 0, LockType::Exclusive, B), Ok(()));
    assert_eq!(table.try_lock(KEY, 10, 10, LockType::Exclusive, B), Ok(()));
}

#[test]
fn empty_lock_inside_own_lock_keeps_what_is_held() {
    let mut table = FileLockTable::new();
    assert_eq!(table.try_lock(KEY, 0, 10, LockType::Shared, A), Ok(()));
    assert_eq!(table.try_lock(KEY, 5, 5, LockType::Exclusive, A), Ok(()));
    for b in 0..10u64 {
        assert_eq!(
            table.query_lock(KEY, b, b + 1, LockType::Exclusive, B),
            Some((LockType::Shared, A))
        );
        assert_eq!(table.query_lock(KEY, b, b + 1, LockType::Shared, B), None);
    }
}

#[test]
fn range_that_ends_before_it_starts_keeps_what_is_held() {
    let mut table = FileLockTable::new();
    assert_eq!(table.try_lock(KEY, 0, 10, LockType::Exclusive, A), Ok(()));
    assert!(table.unlock(KEY, 6, 4, A).is_empty());
    for b in 0..10u64 {
        assert_eq!(
            table.query_lock(KEY, b, b + 1, LockType::Shared, B),
            Some((LockType::Exclusive, A))
        );
    }
    assert!(table.release_all(KEY, A).is_empty());
    assert_eq!(table.query_lock(KEY, 0, 10, LockType::Exclusive, B), None);
}
