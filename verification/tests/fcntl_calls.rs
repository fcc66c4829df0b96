use posix_locks::fcntl::{
    decode_request, file_key_for_desc, flock_to_range, handle_lock_cmd, merge_status,
    reply_to_query, status_after_split, wake_waiters, Caller, CompatFile, Descriptor, Errno, FcntlAction,
    FcntlCommand, FcntlEvent, Flock, KnownFlags, LockAction, LockOperation, LockRequest, OpenFile,
    ResumeTask, SyscallError, SyscallHandler, ACCESS_MODES, CREATION_FLAGS, FD_CLOEXEC, O_APPEND,
    O_ASYNC, O_CLOEXEC, O_CREAT, O_DIRECT, O_DIRECTORY, O_EXCL, O_NOATIME, O_NOCTTY, O_NOFOLLOW,
    O_NONBLOCK, O_PATH, O_RDWR, O_TMPFILE, O_TRUNC, O_WRONLY, STATUS_UPDATE_MASK,
};
use posix_locks::file_lock_table::FileLockTable;
use posix_locks::lock_model::{LockType, LockWaiter, ProcessId, ThreadId};

const A: Caller = Caller { pid: ProcessId(100), tid: ThreadId(101), sim_end_time: 5000 };
const B: Caller = Caller { pid: ProcessId(200), tid: ThreadId(201), sim_end_time: 5000 };

const KNOWN: KnownFlags = KnownFlags { open: 0x6f_ffff, descriptor: 1 };

fn flock(l_type: i32, l_start: i64, l_len: i64) -> Flock {
    Flock { l_type: l_type as i16, l_whence: libc::SEEK_SET as i16, l_start, l_len, l_pid: 0 }
}

fn new_desc() -> Descriptor {
    let file = OpenFile { inner_file: 0xabc0, status: O_APPEND, mode: O_RDWR, pipe_max_size: None };
    Descriptor { file: CompatFile::New(file), flags: 0 }
}

fn legacy_desc() -> Descriptor {
    Descriptor { file: CompatFile::Legacy(0xdef0), flags: FD_CLOEXEC }
}

fn pipe_desc(size: u64) -> Descriptor {
    let file =
        OpenFile { inner_file: 0x1230, status: 0, mode: O_WRONLY, pipe_max_size: Some(size) };
    Descriptor { file: CompatFile::New(file), flags: 0 }
}

#[test]
fn numbers_are_those_of_the_c_library() {
    let pairs = [
        (libc::F_DUPFD, FcntlCommand::F_DUPFD),
        (libc::F_GETFD, FcntlCommand::F_GETFD),
        (libc::F_SETFD, FcntlCommand::F_SETFD),
        (libc::F_GETFL, FcntlCommand::F_GETFL),
        (libc::F_SETFL, FcntlCommand::F_SETFL),
        (libc::F_GETLK, FcntlCommand::F_GETLK),
        (libc::F_SETLK, FcntlCommand::F_SETLK),
        (libc::F_SETLKW, FcntlCommand::F_SETLKW),
        (libc::F_OFD_GETLK, FcntlCommand::F_OFD_GETLK),
        (libc::F_OFD_SETLK, FcntlCommand::F_OFD_SETLK),
        (libc::F_OFD_SETLKW, FcntlCommand::F_OFD_SETLKW),
        (libc::F_DUPFD_CLOEXEC, FcntlCommand::F_DUPFD_CLOEXEC),
        (libc::F_GETPIPE_SZ, FcntlCommand::F_GETPIPE_SZ),
    ];
    for (number, command) in pairs {
        assert_eq!(FcntlCommand::from_number(number as u32), Some(command));
    }
    assert_eq!(FcntlCommand::from_number(libc::F_SETPIPE_SZ as u32), None);
    assert_eq!(FcntlCommand::from_number(u32::MAX), None);
}

#[test]
fn flags_are_those_of_the_c_library() {
    assert_eq!(O_WRONLY, libc::O_WRONLY);
    assert_eq!(O_RDWR, libc::O_RDWR);
    assert_eq!(O_CREAT, libc::O_CREAT);
    assert_eq!(O_EXCL, libc::O_EXCL);
    assert_eq!(O_NOCTTY, libc::O_NOCTTY);
    assert_eq!(O_TRUNC, libc::O_TRUNC);
    assert_eq!(O_APPEND, libc::O_APPEND);
    assert_eq!(O_NONBLOCK, libc::O_NONBLOCK);
    assert_eq!(O_ASYNC, libc::O_ASYNC);
    assert_eq!(O_DIRECT, libc::O_DIRECT);
    assert_eq!(O_DIRECTORY, libc::O_DIRECTORY);
    assert_eq!(O_NOFOLLOW, libc::O_NOFOLLOW);
    assert_eq!(O_NOATIME, libc::O_NOATIME);
    assert_eq!(O_CLOEXEC, libc::O_CLOEXEC);
    assert_eq!(O_PATH, libc::O_PATH);
    assert_eq!(O_TMPFILE, libc::O_TMPFILE);
    assert_eq!(FD_CLOEXEC, libc::FD_CLOEXEC);
}

#[test]
fn range_of_a_positive_length() {
    assert_eq!(flock_to_range(&flock(libc::F_RDLCK, 10, 5)), Ok((10, 15)));
    assert_eq!(
        flock_to_range(&flock(libc::F_RDLCK, i64::MAX, i64::MAX)),
        Ok((0x7fff_ffff_ffff_ffff, 0xffff_ffff_ffff_fffe))
    );
}

#[test]
fn range_of_length_zero_reaches_to_end_of_file() {
    assert_eq!(flock_to_range(&flock(libc::F_RDLCK, 0, 0)), Ok((0, u64::MAX)));
    assert_eq!(flock_to_range(&flock(libc::F_RDLCK, 42, 0)), Ok((42, u64::MAX)));
}

#[test]
fn range_of_a_negative_length_ends_at_the_start() {
    assert_eq!(flock_to_range(&flock(libc::F_RDLCK, 100, -20)), Ok((80, 100)));
    assert_eq!(flock_to_range(&flock(libc::F_RDLCK, 100, -100)), Ok((0, 100)));
    assert_eq!(flock_to_range(&flock(libc::F_RDLCK, 100, -101)), Err(Errno::EINVAL));
    assert_eq!(flock_to_range(&flock(libc::F_RDLCK, i64::MAX, i64::MIN)), Err(Errno::EINVAL));
}

#[test]
fn range_has_to_count_from_the_start_of_the_file() {
    assert_eq!(flock_to_range(&flock(libc::F_RDLCK, -1, 5)), Err(Errno::EINVAL));
    for whence in [libc::SEEK_CUR, libc::SEEK_END] {
        let fl = Flock { l_whence: whence as i16, ..flock(libc::F_RDLCK, 0, 5) };
        assert_eq!(flock_to_range(&fl), Err(Errno::EINVAL));
    }
}

#[test]
fn key_is_the_address_of_the_shared_object() {
    assert_eq!(file_key_for_desc(&new_desc()), 0xabc0);
    assert_eq!(file_key_for_desc(&legacy_desc()), 0xdef0);
    let duplicate = Descriptor { flags: FD_CLOEXEC, ..new_desc() };
    assert_eq!(file_key_for_desc(&duplicate), file_key_for_desc(&new_desc()));
}

#[test]
fn request_is_decoded() {
    let operation = LockOperation::Acquire(LockType::Shared);
    assert_eq!(
        decode_request(Some(flock(libc::F_RDLCK, 1, 2)), Ok(new_desc())),
        Ok(LockRequest { key: 0xabc0, start: 1, end: 3, operation })
    );
    let operation = LockOperation::Acquire(LockType::Exclusive);
    assert_eq!(
        decode_request(Some(flock(libc::F_WRLCK, 1, 2)), Ok(legacy_desc())),
        Ok(LockRequest { key: 0xdef0, start: 1, end: 3, operation })
    );
    let operation = LockOperation::Release;
    assert_eq!(
        decode_request(Some(flock(libc::F_UNLCK, 1, 0)), Ok(new_desc())),
        Ok(LockRequest { key: 0xabc0, start: 1, end: u64::MAX, operation })
    );
}

#[test]
fn first_invalid_argument_gives_the_error() {
    assert_eq!(decode_request(None, Err(Errno::EBADF)), Err(Errno::EFAULT));
    assert_eq!(
        decode_request(Some(flock(17, 0, 0)), Err(Errno::EBADF)),
        Err(Errno::EINVAL)
    );
    assert_eq!(
        decode_request(Some(flock(libc::F_UNLCK, -1, 0)), Err(Errno::EBADF)),
        Err(Errno::EINVAL)
    );
    assert_eq!(
        decode_request(Some(flock(libc::F_WRLCK, 0, 0)), Err(Errno::EBADF)),
        Err(Errno::EBADF)
    );
}

#[test]
fn query_reply_reports_what_is_in_the_way() {
    let fl = flock(libc::F_WRLCK, 3, 4);
    assert_eq!(
        reply_to_query(fl, None),
        Flock { l_type: libc::F_UNLCK as i16, ..fl }
    );
    assert_eq!(
        reply_to_query(fl, Some((LockType::Shared, ProcessId(8)))),
        Flock { l_type: libc::F_RDLCK as i16, l_pid: 8, ..fl }
    );
    assert_eq!(
        reply_to_query(fl, Some((LockType::Exclusive, ProcessId(9)))),
        Flock { l_type: libc::F_WRLCK as i16, l_pid: 9, ..fl }
    );
}

#[test]
fn set_lock_is_granted_or_refused() {
    let mut table = FileLockTable::new();
    let fl = Some(flock(libc::F_WRLCK, 0, 0));
    let granted = handle_lock_cmd(&mut table, FcntlCommand::F_SETLK, fl, Ok(new_desc()), A);
    assert!(matches!(granted, LockAction::Done));
    let refused = handle_lock_cmd(&mut table, FcntlCommand::F_OFD_SETLK, fl, Ok(new_desc()), B);
    assert!(matches!(refused, LockAction::Fail(SyscallError::Failed(Errno::EACCES))));
    // Another file has locks of its own.
    let other = handle_lock_cmd(&mut table, FcntlCommand::F_SETLK, fl, Ok(legacy_desc()), B);
    assert!(matches!(other, LockAction::Done));
}

#[test]
fn get_lock_reports_and_changes_nothing() {
    let mut table = FileLockTable::new();
    let fl = flock(libc::F_WRLCK, 0, 10);
    let free = handle_lock_cmd(&mut table, FcntlCommand::F_GETLK, Some(fl), Ok(new_desc()), B);
    match free {
        LockAction::WriteBack(out) => {
            assert_eq!(out, Flock { l_type: libc::F_UNLCK as i16, ..fl })
        }
        _ => panic!("the query has a reply"),
    }
    // The query has locked nothing.
    let granted =
        handle_lock_cmd(&mut table, FcntlCommand::F_SETLK, Some(fl), Ok(new_desc()), A);
    assert!(matches!(granted, LockAction::Done));
    let taken =
        handle_lock_cmd(&mut table, FcntlCommand::F_OFD_GETLK, Some(fl), Ok(new_desc()), B);
    match taken {
        LockAction::WriteBack(out) => {
            assert_eq!(out, Flock { l_type: libc::F_WRLCK as i16, l_pid: 100, ..fl })
        }
        _ => panic!("the query has a reply"),
    }
}

#[test]
fn blocked_thread_is_woken_and_gets_the_lock() {
    let mut table = FileLockTable::new();
    let lock = Some(flock(libc::F_WRLCK, 0, 10));
    let unlock = Some(flock(libc::F_UNLCK, 0, 10));
    let first = handle_lock_cmd(&mut table, FcntlCommand::F_SETLKW, lock, Ok(new_desc()), A);
    assert!(matches!(first, LockAction::Done));
    let second = handle_lock_cmd(&mut table, FcntlCommand::F_SETLKW, lock, Ok(new_desc()), B);
    assert!(matches!(
        second,
        LockAction::Fail(SyscallError::Blocked { until: 5000, restartable: true })
    ));
    let release = handle_lock_cmd(&mut table, FcntlCommand::F_SETLK, unlock, Ok(new_desc()), A);
    let waiters = match release {
        LockAction::Wake(waiters) => waiters,
        _ => panic!("a release hands on the waiters"),
    };
    assert_eq!(
        waiters,
        vec![LockWaiter {
            pid: B.pid,
            tid: B.tid,
            start: 0,
            end: 10,
            lock_type: LockType::Exclusive
        }]
    );
    let again = handle_lock_cmd(&mut table, FcntlCommand::F_SETLKW, lock, Ok(new_desc()), B);
    assert!(matches!(again, LockAction::Done));
}

#[test]
fn release_comes_with_any_lock_command() {
    let mut table = FileLockTable::new();
    let lock = Some(flock(libc::F_WRLCK, 0, 10));
    let unlock = Some(flock(libc::F_UNLCK, 0, 10));
    let commands = [
        FcntlCommand::F_SETLK,
        FcntlCommand::F_SETLKW,
        FcntlCommand::F_GETLK,
        FcntlCommand::F_OFD_SETLK,
        FcntlCommand::F_OFD_SETLKW,
        FcntlCommand::F_OFD_GETLK,
    ];
    for cmd in commands {
        let taken = handle_lock_cmd(&mut table, FcntlCommand::F_SETLK, lock, Ok(new_desc()), A);
        assert!(matches!(taken, LockAction::Done));
        let released = handle_lock_cmd(&mut table, cmd, unlock, Ok(new_desc()), A);
        assert!(matches!(released, LockAction::Wake(waiters) if waiters.is_empty()));
        let free = handle_lock_cmd(&mut table, FcntlCommand::F_SETLK, lock, Ok(new_desc()), B);
        assert!(matches!(free, LockAction::Done));
        let released = handle_lock_cmd(&mut table, cmd, unlock, Ok(new_desc()), B);
        assert!(matches!(released, LockAction::Wake(_)));
    }
}

#[test]
fn invalid_lock_command_fails_and_changes_nothing() {
    let mut table = FileLockTable::new();
    let lock = Some(flock(libc::F_WRLCK, 0, 10));
    let bad = handle_lock_cmd(&mut table, FcntlCommand::F_SETLK, None, Ok(new_desc()), A);
    assert!(matches!(bad, LockAction::Fail(SyscallError::Failed(Errno::EFAULT))));
    let bad =
        handle_lock_cmd(&mut table, FcntlCommand::F_SETLK, Some(flock(9, 0, 0)), Ok(new_desc()), A);
    assert!(matches!(bad, LockAction::Fail(SyscallError::Failed(Errno::EINVAL))));
    let bad = handle_lock_cmd(&mut table, FcntlCommand::F_SETLK, lock, Err(Errno::EBADF), A);
    assert!(matches!(bad, LockAction::Fail(SyscallError::Failed(Errno::EBADF))));
    let free = handle_lock_cmd(&mut table, FcntlCommand::F_SETLK, lock, Ok(new_desc()), B);
    assert!(matches!(free, LockAction::Done));
}

#[test]
fn waiters_are_resumed_in_order_without_delay() {
    let waiters = vec![
        LockWaiter {
            pid: A.pid,
            tid: A.tid,
            start: 0,
            end: 1,
            lock_type: LockType::Shared,
        },
        LockWaiter {
            pid: B.pid,
            tid: B.tid,
            start: 5,
            end: 9,
            lock_type: LockType::Exclusive,
        },
    ];
    assert_eq!(
        wake_waiters(&waiters),
        vec![
            ResumeTask { pid: A.pid, tid: A.tid, delay: 0 },
            ResumeTask { pid: B.pid, tid: B.tid, delay: 0 },
        ]
    );
    assert!(wake_waiters(&Vec::new()).is_empty());
}

#[test]
fn lookup_comes_before_the_command() {
    assert_eq!(
        SyscallHandler::fcntl(Err(Errno::EBADF), 9999, 0, KNOWN),
        FcntlAction::Fail(Errno::EBADF)
    );
    assert_eq!(
        SyscallHandler::fcntl(Ok(new_desc()), 9999, 0, KNOWN),
        FcntlAction::Fail(Errno::EINVAL)
    );
}

#[test]
fn lock_commands_are_handed_on() {
    let numbers = [
        libc::F_SETLK,
        libc::F_SETLKW,
        libc::F_GETLK,
        libc::F_OFD_SETLK,
        libc::F_OFD_SETLKW,
        libc::F_OFD_GETLK,
    ];
    for number in numbers {
        let command = FcntlCommand::from_number(number as u32).unwrap();
        for desc in [new_desc(), legacy_desc()] {
            assert_eq!(
                SyscallHandler::fcntl(Ok(desc), number as u32, 1, KNOWN),
                FcntlAction::Lock(command)
            );
        }
    }
}

#[test]
fn get_status_flags() {
    let cmd = libc::F_GETFL as u32;
    assert_eq!(
        SyscallHandler::fcntl(Ok(new_desc()), cmd, 0, KNOWN),
        FcntlAction::Return((O_APPEND | O_RDWR) as i64)
    );
    assert_eq!(SyscallHandler::fcntl(Ok(legacy_desc()), cmd, 0, KNOWN), FcntlAction::Legacy);
}

#[test]
fn set_status_flags() {
    let cmd = libc::F_SETFL as u32;
    let arg = (O_NONBLOCK | O_WRONLY | O_CREAT) as u64;
    assert_eq!(
        SyscallHandler::fcntl(Ok(new_desc()), cmd, arg, KNOWN),
        FcntlAction::SplitStatus { flags: O_NONBLOCK }
    );
    // Arguments that do not fit, or set unknown bits.
    for arg in [1u64 << 31, 1 << 32, u64::MAX, 0x4000_0000] {
        assert_eq!(
            SyscallHandler::fcntl(Ok(new_desc()), cmd, arg, KNOWN),
            FcntlAction::Fail(Errno::EINVAL)
        );
        assert_eq!(
            SyscallHandler::fcntl(Ok(legacy_desc()), cmd, arg, KNOWN),
            FcntlAction::Legacy
        );
    }
}

#[test]
fn status_update_keeps_all_other_flags() {
    let old = O_APPEND | 0x1000 | O_RDWR;
    assert_eq!(merge_status(old, O_DIRECT | O_ASYNC), 0x1000 | O_RDWR | O_DIRECT | O_ASYNC);
    assert_eq!(merge_status(old, ACCESS_MODES | CREATION_FLAGS), 0x1000 | O_RDWR);
    assert_eq!(merge_status(0, -1), STATUS_UPDATE_MASK);
    assert_eq!(STATUS_UPDATE_MASK, O_APPEND | O_ASYNC | O_DIRECT | O_NOATIME | O_NONBLOCK);
}

#[test]
fn status_is_set_where_nothing_remains() {
    assert_eq!(status_after_split(O_NONBLOCK, 0), Ok(O_NONBLOCK));
    assert_eq!(status_after_split(0, 0), Ok(0));
    assert_eq!(status_after_split(O_NONBLOCK | 0x1000, 0x1000), Err(Errno::EINVAL));
    assert_eq!(status_after_split(O_NONBLOCK, i32::MIN), Err(Errno::EINVAL));
}

#[test]
fn set_status_is_shown_by_get() {
    let set = libc::F_SETFL as u32;
    let get = libc::F_GETFL as u32;
    let arg = (O_NONBLOCK | O_TRUNC | O_CLOEXEC | O_WRONLY) as u64;
    let flags = match SyscallHandler::fcntl(Ok(new_desc()), set, arg, KNOWN) {
        FcntlAction::SplitStatus { flags } => flags,
        _ => panic!("the status is to be set"),
    };
    let file = OpenFile { inner_file: 0xabc0, status: flags, mode: O_RDWR, pipe_max_size: None };
    let after = Descriptor { file: CompatFile::New(file), flags: 0 };
    assert_eq!(
        SyscallHandler::fcntl(Ok(after), get, 0, KNOWN),
        FcntlAction::Return((O_NONBLOCK | O_RDWR) as i64)
    );
}

#[test]
fn descriptor_commands_never_reach_the_legacy_layer() {
    for number in [libc::F_SETFD, libc::F_GETFD, libc::F_DUPFD, libc::F_DUPFD_CLOEXEC] {
        let action = SyscallHandler::fcntl(Ok(legacy_desc()), number as u32, 1, KNOWN);
        assert_ne!(action, FcntlAction::Legacy);
    }
}

#[test]
fn descriptor_flags() {
    let get = libc::F_GETFD as u32;
    let set = libc::F_SETFD as u32;
    assert_eq!(SyscallHandler::fcntl(Ok(legacy_desc()), get, 0, KNOWN), FcntlAction::Return(1));
    assert_eq!(SyscallHandler::fcntl(Ok(new_desc()), get, 0, KNOWN), FcntlAction::Return(0));
    assert_eq!(
        SyscallHandler::fcntl(Ok(new_desc()), set, 1, KNOWN),
        FcntlAction::SetDescriptorFlags { flags: 1 }
    );
    for arg in [2u64, 3, 1 << 31, 1 << 40] {
        assert_eq!(
            SyscallHandler::fcntl(Ok(new_desc()), set, arg, KNOWN),
            FcntlAction::Fail(Errno::EINVAL)
        );
    }
}

#[test]
fn duplicates() {
    assert_eq!(
        SyscallHandler::fcntl(Ok(new_desc()), libc::F_DUPFD as u32, 10, KNOWN),
        FcntlAction::Duplicate { min_fd: 10, flags: 0 }
    );
    assert_eq!(
        SyscallHandler::fcntl(Ok(legacy_desc()), libc::F_DUPFD_CLOEXEC as u32, 11, KNOWN),
        FcntlAction::Duplicate { min_fd: 11, flags: FD_CLOEXEC }
    );
}

#[test]
fn pipe_size() {
    let cmd = libc::F_GETPIPE_SZ as u32;
    assert_eq!(
        SyscallHandler::fcntl(Ok(pipe_desc(65536)), cmd, 0, KNOWN),
        FcntlAction::Return(65536)
    );
    assert_eq!(
        SyscallHandler::fcntl(Ok(new_desc()), cmd, 0, KNOWN),
        FcntlAction::Fail(Errno::EINVAL)
    );
    assert_eq!(SyscallHandler::fcntl(Ok(legacy_desc()), cmd, 0, KNOWN), FcntlAction::Legacy);
}

#[test]
fn events_give_the_result() {
    assert_eq!(SyscallHandler::fcntl_resume(FcntlEvent::FlockWritten(true)), Ok(0));
    assert_eq!(
        SyscallHandler::fcntl_resume(FcntlEvent::FlockWritten(false)),
        Err(Errno::EFAULT)
    );
    assert_eq!(SyscallHandler::fcntl_resume(FcntlEvent::StatusSet), Ok(0));
    assert_eq!(SyscallHandler::fcntl_resume(FcntlEvent::DescriptorFlagsSet), Ok(0));
    assert_eq!(SyscallHandler::fcntl_resume(FcntlEvent::Duplicated(Some(12))), Ok(12));
    assert_eq!(
        SyscallHandler::fcntl_resume(FcntlEvent::Duplicated(None)),
        Err(Errno::EINVAL)
    );
    assert_eq!(SyscallHandler::fcntl_resume(FcntlEvent::WaitersScheduled), Ok(0));
}
