//! What each command of `fcntl` does, told by the fields of its arguments, by the
//! bytes that are locked, and by the list of waiters.
use vstd::prelude::*;

use crate::fcntl;
use crate::fcntl::{
    Caller, CompatFile, Descriptor, Errno, FcntlAction, FcntlCommand, FcntlEvent, Flock,
    KnownFlags, LockAction, LockOperation, OpenFile, SyscallError,
};
use crate::lock_model;
use crate::lock_model::{FileKey, FileLocks, LockType, LockWaiter, ProcessId};
use crate::segment_facts;
use crate::table_laws;

verus! {

/// Byte `b` is one of those that `l_start` and `l_len` describe: `l_len` bytes from
/// `l_start` on, as many before it where `l_len` is negative, all from it on where
/// `l_len` is 0.
pub open spec fn describes(fl: Flock, b: int) -> bool {
    if fl.l_len > 0 {
        fl.l_start <= b < fl.l_start + fl.l_len
    } else if fl.l_len == 0 {
        fl.l_start <= b
    } else {
        fl.l_start + fl.l_len <= b < fl.l_start
    }
}

/// A lock command with `fl` on `desc` is about `[start, end)` of `key`: offsets are
/// from the start of the file and not negative, and the file is known by its address.
pub open spec fn is_about(
    fl: Flock,
    desc: Descriptor,
    key: FileKey,
    start: u64,
    end: u64,
) -> bool {
    &&& fl.l_whence == 0
    &&& 0 <= fl.l_start
    &&& 0 <= fl.l_start + fl.l_len
    &&& fl.l_len > 0 ==> start == fl.l_start && end == fl.l_start + fl.l_len
    &&& fl.l_len == 0 ==> start == fl.l_start && end == u64::MAX
    &&& fl.l_len < 0 ==> start == fl.l_start + fl.l_len && end == fl.l_start
    &&& desc.file matches CompatFile::New(file) ==> key == file.inner_file
    &&& desc.file matches CompatFile::Legacy(object) ==> key == object
}

/// The range of a `flock` holds the bytes that it describes, up to the one that
/// stands for the end of the file. It has one just where offsets are from the start of
/// the file and neither `l_start` nor `l_start + l_len` is negative.
pub proof fn law_range_holds_the_described_bytes(fl: Flock, b: int)
    requires
        0 <= b < u64::MAX,
    ensures
        fl.range() is Some <==> fl.l_whence == 0 && fl.l_start >= 0 && fl.l_start + fl.l_len >= 0,
        fl.range() matches Some((start, end)) ==> 0 <= start < end <= u64::MAX && (start <= b < end
            <==> describes(fl, b)),
{
}

/// A lock command is about the bytes that its `flock` describes, in the file of its
/// descriptor, and about what `l_type` stands for: 0 for a shared lock, 1 for an
/// exclusive one, 2 for a release.
pub proof fn law_request_is_read_from_the_arguments(fl: Flock, desc: Descriptor, b: int)
    requires
        0 <= b < u64::MAX,
        0 <= fl.l_type <= 2,
        fl.l_whence == 0,
        fl.l_start >= 0,
        fl.l_start + fl.l_len >= 0,
    ensures
        fcntl::request_of(Some(fl), Ok(desc)) matches Ok(request) && {
            &&& request.start < request.end
            &&& request.start <= b < request.end <==> describes(fl, b)
            &&& is_about(fl, desc, request.key, request.start, request.end)
            &&& request.operation == LockOperation::Acquire(LockType::Shared) <==> fl.l_type == 0
            &&& request.operation == LockOperation::Acquire(LockType::Exclusive) <==> fl.l_type
                == 1
            &&& request.operation == LockOperation::Release <==> fl.l_type == 2
        },
{
}

/// Two descriptors stand for the same file in the lock table just where the addresses
/// of their files are the same; nothing else of them counts.
pub proof fn law_file_is_known_by_its_address(
    file: OpenFile,
    other: OpenFile,
    object: u64,
    flags: i32,
    other_flags: i32,
)
    ensures
        (Descriptor { file: CompatFile::New(file), flags }).file_key() == (Descriptor {
            file: CompatFile::New(other),
            flags: other_flags,
        }).file_key() <==> file.inner_file == other.inner_file,
        (Descriptor { file: CompatFile::New(file), flags }).file_key() == file.inner_file,
        (Descriptor { file: CompatFile::Legacy(object), flags }).file_key() == object,
{
}

/// A lock command with an invalid argument fails and changes nothing. Memory that
/// cannot be read comes first (`EFAULT`), then an `l_type` or a range that is not
/// valid (`EINVAL`), then the error of the lookup of the descriptor.
pub proof fn law_invalid_lock_command_fails(
    table: Map<FileKey, FileLocks>,
    cmd: FcntlCommand,
    flock: Option<Flock>,
    desc: Result<Descriptor, Errno>,
    caller: Caller,
    action: LockAction,
)
    requires
        fcntl::is_outcome_of(action, table, cmd, flock, desc, caller),
    ensures
        flock is None ==> action == LockAction::Fail(SyscallError::Failed(Errno::EFAULT)),
        flock matches Some(fl) && !(0 <= fl.l_type <= 2 && fl.l_whence == 0 && fl.l_start >= 0
            && fl.l_start + fl.l_len >= 0) ==> action == LockAction::Fail(
            SyscallError::Failed(Errno::EINVAL),
        ),
        flock matches Some(fl) && 0 <= fl.l_type <= 2 && fl.l_whence == 0 && fl.l_start >= 0
            && fl.l_start + fl.l_len >= 0 ==> (desc matches Err(errno) ==> action
            == LockAction::Fail(SyscallError::Failed(errno))),
        flock is None || desc is Err || (flock matches Some(fl) && !(0 <= fl.l_type <= 2
            && fl.l_whence == 0 && fl.l_start >= 0 && fl.l_start + fl.l_len >= 0))
            ==> fcntl::after_command(table, cmd, flock, desc, caller) == table,
{
}

/// A command with `F_UNLCK` takes from the calling process the bytes that its `flock`
/// describes, and nothing else: no other byte, no lock of another process, none in
/// another file. It hands on, in the order in which they began to wait, the waiters of
/// the file that no lock of another process is in the way of any more; the others wait
/// on. Which of the lock commands it is makes no difference.
pub proof fn law_unlock_command(
    table: Map<FileKey, FileLocks>,
    cmd: FcntlCommand,
    fl: Flock,
    desc: Descriptor,
    caller: Caller,
    action: LockAction,
    key: FileKey,
    start: u64,
    end: u64,
    file: FileKey,
    holder: ProcessId,
    held: LockType,
    b: int,
)
    requires
        fl.l_type == 2,
        is_about(fl, desc, key, start, end),
        0 <= b < u64::MAX,
        fcntl::is_outcome_of(action, table, cmd, Some(fl), Ok(desc), caller),
    ensures
        ({
            let after_all = fcntl::after_command(table, cmd, Some(fl), Ok(desc), caller);
            let before = lock_model::locks_on(table, key);
            let after = lock_model::locks_on(after_all, key);
            &&& lock_model::locks_on(after_all, file).holds(holder, held, b) <==> (
            lock_model::locks_on(table, file).holds(holder, held, b) && !(file == key && holder
                == caller.pid && describes(fl, b)))
            &&& file != key ==> lock_model::locks_on(after_all, file) == lock_model::locks_on(
                table,
                file,
            )
            &&& after_all == lock_model::after_unlock(table, key, start, end, caller.pid)
            &&& action matches LockAction::Wake(woken) && woken@ == before.waiters.filter(
                |w: LockWaiter|
                    !exists|i: int|
                        0 <= i < after.segments.len() && (#[trigger] after.segments[i]).owner
                            != w.pid && after.segments[i].start < w.end && w.start
                            < after.segments[i].end && (w.lock_type is Exclusive
                            || after.segments[i].lock_type is Exclusive),
            )
            &&& after.waiters == before.waiters.filter(
                |w: LockWaiter|
                    exists|i: int|
                        0 <= i < after.segments.len() && (#[trigger] after.segments[i]).owner
                            != w.pid && after.segments[i].start < w.end && w.start
                            < after.segments[i].end && (w.lock_type is Exclusive
                            || after.segments[i].lock_type is Exclusive),
            )
        }),
{
    table_laws::law_release_frees_its_range(
        table,
        key,
        start,
        end,
        caller.pid,
        file,
        holder,
        held,
        b,
    );
    table_laws::law_release_parts_waiters_in_order(table, key, start, end, caller.pid);
}

/// A command that asks for a lock, and that does not only query, gets it just where no
/// lock of another process is in the way: none that reaches into the bytes of its
/// `flock` and is exclusive, or is shared where an exclusive one is wanted. A granted
/// lock covers these bytes, in place of what the process held there, and all waiters
/// wait on. Where a lock is in the way, no lock changes: `F_SETLK` fails with
/// `EACCES` and leaves the waiters as they are; `F_SETLKW` blocks until the end of the
/// simulation, to be restarted, and its thread is the last of the waiters from then
/// on. The OFD commands do the same, and nothing changes in another file.
pub proof fn law_lock_command(
    table: Map<FileKey, FileLocks>,
    cmd: FcntlCommand,
    fl: Flock,
    desc: Descriptor,
    caller: Caller,
    action: LockAction,
    key: FileKey,
    start: u64,
    end: u64,
    wanted: LockType,
    file: FileKey,
)
    requires
        (fl.l_type == 0 && wanted is Shared) || (fl.l_type == 1 && wanted is Exclusive),
        is_about(fl, desc, key, start, end),
        cmd is F_SETLK || cmd is F_SETLKW || cmd is F_OFD_SETLK || cmd is F_OFD_SETLKW,
        fcntl::is_outcome_of(action, table, cmd, Some(fl), Ok(desc), caller),
    ensures
        ({
            let after_all = fcntl::after_command(table, cmd, Some(fl), Ok(desc), caller);
            let before = lock_model::locks_on(table, key);
            let after = lock_model::locks_on(after_all, key);
            let in_the_way = exists|i: int|
                0 <= i < before.segments.len() && (#[trigger] before.segments[i]).owner
                    != caller.pid && before.segments[i].start < end && start
                    < before.segments[i].end && (fl.l_type == 1
                    || before.segments[i].lock_type is Exclusive);
            &&& file != key ==> lock_model::locks_on(after_all, file) == lock_model::locks_on(
                table,
                file,
            )
            &&& !in_the_way ==> {
                &&& action == LockAction::Done
                &&& after.waiters == before.waiters
                &&& after_all == lock_model::after_try_lock(
                    table,
                    key,
                    start,
                    end,
                    wanted,
                    caller.pid,
                )
                &&& forall|holder: ProcessId, held: LockType, b: int|
                    0 <= b < u64::MAX ==> (#[trigger] after.holds(holder, held, b) <==> (if holder
                        == caller.pid && describes(fl, b) {
                        held == wanted
                    } else {
                        before.holds(holder, held, b)
                    }))
            }
            &&& in_the_way && (cmd is F_SETLK || cmd is F_OFD_SETLK) ==> {
                &&& action == LockAction::Fail(SyscallError::Failed(Errno::EACCES))
                &&& after.segments == before.segments
                &&& after.waiters == before.waiters
            }
            &&& in_the_way && (cmd is F_SETLKW || cmd is F_OFD_SETLKW) ==> {
                &&& action == LockAction::Fail(
                    SyscallError::Blocked { until: caller.sim_end_time, restartable: true },
                )
                &&& after.segments == before.segments
                &&& after.waiters == before.waiters.push(
                    LockWaiter {
                        pid: caller.pid,
                        tid: caller.tid,
                        start,
                        end,
                        lock_type: wanted,
                    },
                )
            }
        }),
{
    table_laws::law_answer_names_the_first_lock_in_the_way(
        table,
        key,
        start,
        end,
        wanted,
        caller.pid,
    );
    let before = lock_model::locks_on(table, key);
    let after = lock_model::locks_on(
        fcntl::after_command(table, cmd, Some(fl), Ok(desc), caller),
        key,
    );
    if lock_model::lock_answer(table, key, start, end, wanted, caller.pid) is Ok {
        assert forall|holder: ProcessId, held: LockType, b: int|
            0 <= b < u64::MAX implies (#[trigger] after.holds(holder, held, b) <==> (if holder
            == caller.pid && describes(fl, b) {
            held == wanted
        } else {
            before.holds(holder, held, b)
        })) by {
            table_laws::law_granted_lock_covers_its_range(
                table,
                key,
                start,
                end,
                wanted,
                caller.pid,
                key,
                holder,
                held,
                b,
            );
        }
    }
}

/// What a query writes back names a lock that is there: the first of the file that is
/// in the way of the lock that is asked for. Its process is `l_pid`, and its type is
/// what `l_type` stands for, so a query for a shared lock never reports a shared one.
/// Where no lock is in the way, `l_type` is 2 and `l_pid` is what it was. The other
/// fields are those of the request, and no lock and no waiter changes.
pub proof fn law_query_command(
    table: Map<FileKey, FileLocks>,
    cmd: FcntlCommand,
    fl: Flock,
    desc: Descriptor,
    caller: Caller,
    action: LockAction,
    key: FileKey,
    start: u64,
    end: u64,
)
    requires
        fl.l_type == 0 || fl.l_type == 1,
        is_about(fl, desc, key, start, end),
        cmd is F_GETLK || cmd is F_OFD_GETLK,
        fcntl::is_outcome_of(action, table, cmd, Some(fl), Ok(desc), caller),
    ensures
        fcntl::after_command(table, cmd, Some(fl), Ok(desc), caller) == table,
        action matches LockAction::WriteBack(reply) && {
            let locks = lock_model::locks_on(table, key).segments;
            &&& reply.l_whence == fl.l_whence
            &&& reply.l_start == fl.l_start
            &&& reply.l_len == fl.l_len
            &&& reply.l_type == 2 <==> forall|i: int|
                0 <= i < locks.len() ==> (#[trigger] locks[i]).owner == caller.pid
                    || locks[i].start >= end || start >= locks[i].end || (fl.l_type == 0
                    && locks[i].lock_type is Shared)
            &&& reply.l_type == 2 ==> reply.l_pid == fl.l_pid
            &&& reply.l_type != 2 ==> exists|i: int|
                {
                    &&& 0 <= i < locks.len()
                    &&& (#[trigger] locks[i]).owner != caller.pid
                    &&& locks[i].start < end && start < locks[i].end
                    &&& fl.l_type == 1 || locks[i].lock_type is Exclusive
                    &&& reply.l_pid == locks[i].owner.0
                    &&& fcntl::operation_of(reply.l_type) == Some(
                        LockOperation::Acquire(locks[i].lock_type),
                    )
                    &&& reply.l_type == 0 <==> locks[i].lock_type is Shared
                    &&& reply.l_type == 1 <==> locks[i].lock_type is Exclusive
                    &&& forall|j: int|
                        0 <= j < i ==> (#[trigger] locks[j]).owner == caller.pid || locks[j].start
                            >= end || start >= locks[j].end || (fl.l_type == 0
                            && locks[j].lock_type is Shared)
                }
            &&& fl.l_type == 0 ==> reply.l_type != 0
        },
{
    let wanted = if fl.l_type == 1 {
        LockType::Exclusive
    } else {
        LockType::Shared
    };
    let locks = lock_model::locks_on(table, key).segments;
    let pid = caller.pid;
    segment_facts::lemma_first_conflict(locks, start, end, wanted, pid);
    if lock_model::first_conflict(locks, start, end, wanted, pid) is Some {
        let i: int = segment_facts::lemma_first_conflict_position(locks, start, end, wanted, pid);
        assert forall|j: int| 0 <= j < i implies (#[trigger] locks[j]).owner == pid
            || locks[j].start >= end || start >= locks[j].end || (fl.l_type == 0
            && locks[j].lock_type is Shared) by {
            assert(!locks[j].blocks(start, end, wanted, pid));
        }
        assert(locks[i].blocks(start, end, wanted, pid));
    } else {
        assert forall|i: int| 0 <= i < locks.len() implies (#[trigger] locks[i]).owner == pid
            || locks[i].start >= end || start >= locks[i].end || (fl.l_type == 0
            && locks[i].lock_type is Shared) by {
            assert(!locks[i].blocks(start, end, wanted, pid));
        }
    }
}

/// The reply to a query stands for the lock that it is given: read as a request, its
/// `l_type` asks for a lock of that type, and its `l_pid` is the process; for no lock
/// it asks for a release. Two different locks never give the same reply.
pub proof fn law_reply_stands_for_the_lock(
    fl: Flock,
    blocking: Option<(LockType, ProcessId)>,
    other: Option<(LockType, ProcessId)>,
)
    ensures
        ({
            let reply = fcntl::query_reply(fl, blocking);
            &&& match blocking {
                Some((lock_type, pid)) => fcntl::operation_of(reply.l_type) == Some(
                    LockOperation::Acquire(lock_type),
                ) && reply.l_pid == pid.0,
                None => fcntl::operation_of(reply.l_type) == Some(LockOperation::Release)
                    && reply.l_pid == fl.l_pid,
            }
            &&& reply.l_whence == fl.l_whence && reply.l_start == fl.l_start && reply.l_len
                == fl.l_len
            &&& reply == fcntl::query_reply(fl, other) ==> blocking == other
        }),
        fcntl::operation_of(0) == Some(LockOperation::Acquire(LockType::Shared)),
        fcntl::operation_of(1) == Some(LockOperation::Acquire(LockType::Exclusive)),
        fcntl::operation_of(2) == Some(LockOperation::Release),
        forall|l_type: i16|
            l_type < 0 || l_type > 2 ==> #[trigger] fcntl::operation_of(l_type) is None,
{
}

/// Every waiter is resumed once, in order and without delay: the task at each position
/// is for process and thread of the waiter there.
pub proof fn law_every_waiter_is_resumed(waiters: Seq<LockWaiter>, i: int)
    requires
        0 <= i < waiters.len(),
    ensures
        fcntl::tasks_for(waiters).len() == waiters.len(),
        fcntl::tasks_for(waiters)[i].pid == waiters[i].pid,
        fcntl::tasks_for(waiters)[i].tid == waiters[i].tid,
        fcntl::tasks_for(waiters)[i].delay == 0,
{
}

/// Each command has one number, that of the Linux system call interface, and no other
/// number is one of a command.
pub proof fn law_commands_have_their_numbers(number: u32, other: u32)
    ensures
        fcntl::command_of(number) == Some(FcntlCommand::F_DUPFD) <==> number == 0,
        fcntl::command_of(number) == Some(FcntlCommand::F_GETFD) <==> number == 1,
        fcntl::command_of(number) == Some(FcntlCommand::F_SETFD) <==> number == 2,
        fcntl::command_of(number) == Some(FcntlCommand::F_GETFL) <==> number == 3,
        fcntl::command_of(number) == Some(FcntlCommand::F_SETFL) <==> number == 4,
        fcntl::command_of(number) == Some(FcntlCommand::F_GETLK) <==> number == 5,
        fcntl::command_of(number) == Some(FcntlCommand::F_SETLK) <==> number == 6,
        fcntl::command_of(number) == Some(FcntlCommand::F_SETLKW) <==> number == 7,
        fcntl::command_of(number) == Some(FcntlCommand::F_OFD_GETLK) <==> number == 36,
        fcntl::command_of(number) == Some(FcntlCommand::F_OFD_SETLK) <==> number == 37,
        fcntl::command_of(number) == Some(FcntlCommand::F_OFD_SETLKW) <==> number == 38,
        fcntl::command_of(number) == Some(FcntlCommand::F_DUPFD_CLOEXEC) <==> number == 1030,
        fcntl::command_of(number) == Some(FcntlCommand::F_GETPIPE_SZ) <==> number == 1032,
        fcntl::command_of(number) is Some && fcntl::command_of(number) == fcntl::command_of(other)
            ==> number == other,
{
}

/// A failed lookup of the descriptor decides the call, whatever the command; then a
/// number that no command has gives `EINVAL`, whatever the descriptor. A call is
/// handled as a lock command just where its number is one of these six, and then as
/// the command with that number, whatever the file and the argument.
pub proof fn law_lookup_and_number_come_first(
    desc: Descriptor,
    errno: Errno,
    cmd: u32,
    arg: u64,
    known: KnownFlags,
)
    ensures
        fcntl::decision_of(Err(errno), cmd, arg, known) == FcntlAction::Fail(errno),
        !(cmd <= 7 || 36 <= cmd <= 38 || cmd == 1030 || cmd == 1032) ==> fcntl::decision_of(
            Ok(desc),
            cmd,
            arg,
            known,
        ) == FcntlAction::Fail(Errno::EINVAL),
        fcntl::decision_of(Ok(desc), cmd, arg, known) is Lock <==> 5 <= cmd <= 7 || 36 <= cmd
            <= 38,
        fcntl::decision_of(Ok(desc), cmd, arg, known) matches FcntlAction::Lock(command)
            ==> fcntl::command_of(cmd) == Some(command),
{
}

/// The lock commands are the six on record locks, with or without OFD: a query, an
/// attempt and a wait of each.
pub proof fn law_lock_commands_are_six(cmd: FcntlCommand)
    ensures
        cmd.is_query() <==> cmd is F_GETLK || cmd is F_OFD_GETLK,
        cmd.is_try() <==> cmd is F_SETLK || cmd is F_OFD_SETLK,
        cmd.is_wait() <==> cmd is F_SETLKW || cmd is F_OFD_SETLKW,
        cmd.is_lock_command() <==> cmd is F_GETLK || cmd is F_OFD_GETLK || cmd is F_SETLK
            || cmd is F_OFD_SETLK || cmd is F_SETLKW || cmd is F_OFD_SETLKW,
{
}

/// `F_DUPFD` asks for a duplicate that is not closed on `exec`, `F_DUPFD_CLOEXEC` for
/// one that is. Nothing of the descriptor that is duplicated counts, neither its flags
/// nor its file, and the lowest number for the duplicate is the argument.
pub proof fn law_duplicate_has_its_own_flags(
    desc: Descriptor,
    other: Descriptor,
    arg: u64,
    known: KnownFlags,
    other_known: KnownFlags,
)
    ensures
        fcntl::decision_of(Ok(desc), 0, arg, known) == (FcntlAction::Duplicate {
            min_fd: arg,
            flags: 0,
        }),
        fcntl::decision_of(Ok(desc), 1030, arg, known) == (FcntlAction::Duplicate {
            min_fd: arg,
            flags: 1,
        }),
        fcntl::decision_of(Ok(desc), 0, arg, known) == fcntl::decision_of(
            Ok(other),
            0,
            arg,
            other_known,
        ),
        fcntl::decision_of(Ok(desc), 1030, arg, known) == fcntl::decision_of(
            Ok(other),
            1030,
            arg,
            other_known,
        ),
        fcntl::action_of(desc, FcntlCommand::F_DUPFD, arg, known) == (FcntlAction::Duplicate {
            min_fd: arg,
            flags: 0,
        }),
        fcntl::action_of(desc, FcntlCommand::F_DUPFD_CLOEXEC, arg, known) == (
        FcntlAction::Duplicate { min_fd: arg, flags: 1 }),
{
}

/// `F_SETFD` gives the descriptor the flags in its argument where this fits and sets
/// known bits only, and fails with `EINVAL` where not. `F_GETFD` returns the flags of
/// the descriptor: after an `F_SETFD` that has set them, its argument. The file does
/// not count, nor does the argument of `F_GETFD`.
pub proof fn law_set_descriptor_flags_are_shown(
    desc: Descriptor,
    arg: u64,
    known: KnownFlags,
    any_arg: u64,
)
    ensures
        fcntl::decision_of(Ok(desc), 1, any_arg, known) == FcntlAction::Return(desc.flags as i64),
        arg > 0x7fff_ffff || (arg as i32) & !known.descriptor != 0 ==> fcntl::decision_of(
            Ok(desc),
            2,
            arg,
            known,
        ) == FcntlAction::Fail(Errno::EINVAL),
        arg <= 0x7fff_ffff && (arg as i32) & !known.descriptor == 0 ==> {
            &&& fcntl::decision_of(Ok(desc), 2, arg, known) matches
                FcntlAction::SetDescriptorFlags { flags }
            &&& flags == arg
            &&& fcntl::decision_of(Ok(Descriptor { flags, ..desc }), 1, any_arg, known)
                == FcntlAction::Return(arg as i64)
        },
{
}

/// `F_SETFL` fails with `EINVAL` where its argument does not fit or sets a bit that is
/// no open flag. Else the file is to have the flags of the argument among `O_APPEND`,
/// `O_NONBLOCK`, `O_ASYNC`, `O_DIRECT` and `O_NOATIME`, and all others as before.
pub proof fn law_set_status_takes_the_changeable_flags(
    desc: Descriptor,
    file: OpenFile,
    arg: u64,
    known: KnownFlags,
)
    requires
        desc.file == CompatFile::New(file),
    ensures
        arg > 0x7fff_ffff || (arg as i32) & !known.open != 0 ==> fcntl::decision_of(
            Ok(desc),
            4,
            arg,
            known,
        ) == FcntlAction::Fail(Errno::EINVAL),
        arg <= 0x7fff_ffff && (arg as i32) & !known.open == 0 ==> {
            &&& fcntl::decision_of(Ok(desc), 4, arg, known) matches
                FcntlAction::SplitStatus { flags }
            &&& flags & 0x46c00i32 == (arg as i32) & 0x46c00i32
            &&& flags & !0x46c00i32 == file.status & !0x46c00i32
        },
{
    let old_flags = file.status;
    let new_flags = arg as i32;
    assert(fcntl::merged_status(old_flags, new_flags) & 0x46c00i32 == new_flags & 0x46c00i32)
        by (bit_vector);
    assert(fcntl::merged_status(old_flags, new_flags) & !0x46c00i32 == old_flags & !0x46c00i32)
        by (bit_vector);
}

/// `F_GETFL` returns the status flags of the file with its access mode, and
/// `F_GETPIPE_SZ` the capacity of a pipe, or `EINVAL` for another file. Neither the
/// flags of the descriptor nor the argument count.
pub proof fn law_file_state_is_shown(
    desc: Descriptor,
    file: OpenFile,
    arg: u64,
    known: KnownFlags,
    bit: i32,
)
    requires
        desc.file == CompatFile::New(file),
    ensures
        fcntl::decision_of(Ok(desc), 3, arg, known) matches FcntlAction::Return(value)
            && i32::MIN <= value <= i32::MAX && ((value as i32) & bit == 0 <==> file.status & bit
            == 0 && file.mode & bit == 0),
        file.pipe_max_size matches Some(size) ==> (size <= i64::MAX ==> fcntl::decision_of(
            Ok(desc),
            1032,
            arg,
            known,
        ) == FcntlAction::Return(size as i64)),
        file.pipe_max_size is None ==> fcntl::decision_of(Ok(desc), 1032, arg, known)
            == FcntlAction::Fail(Errno::EINVAL),
{
    let status = file.status;
    let mode = file.mode;
    assert((status | mode) & bit == 0 <==> status & bit == 0 && mode & bit == 0) by (bit_vector);
}

/// A file of the legacy layer is handed to the handler of that layer for `F_GETFL`,
/// `F_SETFL` and `F_GETPIPE_SZ`, whatever the argument, and for nothing else.
pub proof fn law_legacy_file_is_handed_on(
    desc: Descriptor,
    cmd: u32,
    arg: u64,
    known: KnownFlags,
)
    ensures
        fcntl::decision_of(Ok(desc), cmd, arg, known) is Legacy <==> desc.file is Legacy && (cmd
            == 3 || cmd == 4 || cmd == 1032),
{
}

/// The file gets all the flags where nothing remains of them; else the call fails.
pub proof fn law_status_is_set_where_nothing_remains(flags: i32, remaining: i32)
    ensures
        remaining == 0 <==> fcntl::split_status(flags, remaining) is Ok,
        fcntl::split_status(flags, remaining) matches Ok(status) ==> status == flags,
        fcntl::split_status(flags, remaining) matches Err(errno) ==> errno is EINVAL,
{
}

/// A call fails after an event just where the `flock` could not be written back
/// (`EFAULT`) or there is no number for the duplicate (`EINVAL`). It returns the number
/// of the duplicate where there is one, and else 0.
pub proof fn law_call_returns_after_an_event(event: FcntlEvent)
    ensures
        fcntl::result_of(event) == Err::<i64, Errno>(Errno::EFAULT) <==> event
            == FcntlEvent::FlockWritten(false),
        fcntl::result_of(event) == Err::<i64, Errno>(Errno::EINVAL) <==> event
            == FcntlEvent::Duplicated(None),
        fcntl::result_of(event) matches Err(errno) ==> errno is EFAULT || errno is EINVAL,
        event matches FcntlEvent::Duplicated(Some(fd)) ==> fcntl::result_of(event) == Ok::<
            i64,
            Errno,
        >(fd as i64),
        !(event is Duplicated) && event != FcntlEvent::FlockWritten(false) ==> fcntl::result_of(
            event,
        ) == Ok::<i64, Errno>(0),
{
}

/// The flags have their values of the Linux system call interface on x86-64.
pub proof fn law_flags_have_their_values()
    ensures
        fcntl::O_WRONLY == 0x1 && fcntl::O_RDWR == 0x2 && fcntl::O_PATH == 0x200000,
        fcntl::O_CREAT == 0x40 && fcntl::O_EXCL == 0x80 && fcntl::O_NOCTTY == 0x100,
        fcntl::O_TRUNC == 0x200 && fcntl::O_APPEND == 0x400 && fcntl::O_NONBLOCK == 0x800,
        fcntl::O_ASYNC == 0x2000 && fcntl::O_DIRECT == 0x4000 && fcntl::O_DIRECTORY == 0x10000,
        fcntl::O_NOFOLLOW == 0x20000 && fcntl::O_NOATIME == 0x40000,
        fcntl::O_CLOEXEC == 0x80000 && fcntl::O_TMPFILE == 0x410000,
        fcntl::STATUS_UPDATE_MASK == 0x46c00,
        fcntl::ACCESS_MODES == 0x200003,
        fcntl::CREATION_FLAGS == 0x4b03c0,
        fcntl::FD_CLOEXEC == 1,
{
    assert(fcntl::STATUS_UPDATE_MASK == 0x46c00) by (bit_vector);
    assert(fcntl::ACCESS_MODES == 0x200003) by (bit_vector);
    assert(fcntl::CREATION_FLAGS == 0x4b03c0) by (bit_vector);
}

} // verus!
