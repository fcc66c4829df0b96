//! What holds of every call of `fcntl`.
use vstd::prelude::*;

use crate::fcntl;
use crate::fcntl::{
    Caller, CompatFile, Descriptor, Errno, FcntlAction, FcntlCommand, Flock, KnownFlags,
    LockAction, LockOperation, LockRequest, OpenFile, SyscallError,
};
use crate::laws;
use crate::lock_model;
use crate::lock_model::{FileKey, FileLocks, ProcessId};

verus! {

/// A duplicate of a descriptor, whatever its flags, shares the locks of the file.
pub proof fn law_duplicates_share_locks(desc: Descriptor, flags: i32)
    ensures
        (Descriptor { flags, ..desc }).file_key() == desc.file_key(),
{
}

/// A valid range is not empty, and lies in the lock on the whole file.
pub proof fn law_valid_range_is_not_empty(fl: Flock)
    ensures
        fl.range() matches Some((start, end)) ==> 0 <= start < end <= u64::MAX,
        (Flock { l_whence: 0, l_start: 0, l_len: 0, ..fl }).range() == Some(
            (0int, u64::MAX as int),
        ),
{
}

/// The OFD commands act on locks of the process, as the commands without OFD do.
pub proof fn law_ofd_commands_act_alike(
    plain: FcntlCommand,
    ofd: FcntlCommand,
    table: Map<FileKey, FileLocks>,
    fl: Flock,
    request: LockRequest,
    caller: Caller,
    action: LockAction,
)
    requires
        (plain is F_GETLK && ofd is F_OFD_GETLK) || (plain is F_SETLK && ofd is F_OFD_SETLK) || (
        plain is F_SETLKW && ofd is F_OFD_SETLKW),
    ensures
        fcntl::after_request(table, ofd, request, caller) == fcntl::after_request(
            table,
            plain,
            request,
            caller,
        ),
        fcntl::is_action_of(action, table, ofd, fl, request, caller) <==> fcntl::is_action_of(
            action,
            table,
            plain,
            fl,
            request,
            caller,
        ),
{
}

/// A query leaves all locks and waiters as they are.
pub proof fn law_query_changes_nothing(
    table: Map<FileKey, FileLocks>,
    cmd: FcntlCommand,
    request: LockRequest,
    caller: Caller,
)
    requires
        cmd.is_query(),
        request.operation is Acquire,
    ensures
        fcntl::after_request(table, cmd, request, caller) == table,
{
}

/// A query foretells the same request made with `F_SETLK`: it reports `F_UNLCK`
/// just where the lock would be granted, and else a lock type, and the process for
/// which the request would be refused.
pub proof fn law_query_foretells_request(
    table: Map<FileKey, FileLocks>,
    query: FcntlCommand,
    attempt: FcntlCommand,
    fl: Flock,
    request: LockRequest,
    caller: Caller,
    reply: Flock,
    outcome: LockAction,
)
    requires
        query.is_query(),
        attempt.is_try(),
        request.operation is Acquire,
        fcntl::is_action_of(LockAction::WriteBack(reply), table, query, fl, request, caller),
        fcntl::is_action_of(outcome, table, attempt, fl, request, caller),
    ensures
        fcntl::operation_of(reply.l_type) == Some(LockOperation::Release) <==> outcome
            == LockAction::Done,
        outcome != LockAction::Done ==> {
            &&& outcome == LockAction::Fail(SyscallError::Failed(Errno::EACCES))
            &&& fcntl::operation_of(reply.l_type) matches Some(LockOperation::Acquire(_))
            &&& reply.l_pid != caller.pid.0
        },
        reply.l_whence == fl.l_whence && reply.l_start == fl.l_start && reply.l_len == fl.l_len,
{
    if let LockOperation::Acquire(lock_type) = request.operation {
        laws::law_query_foretells_lock(
            table,
            request.key,
            request.start,
            request.end,
            lock_type,
            caller.pid,
        );
    }
}

/// A thread that a lock command has blocked is handed on by a release just where
/// the release leaves no lock in its way; the command is then done when the thread
/// issues it again.
pub proof fn law_blocked_thread_is_woken(
    table: Map<FileKey, FileLocks>,
    cmd: FcntlCommand,
    fl: Flock,
    request: LockRequest,
    caller: Caller,
    start: u64,
    end: u64,
    owner: ProcessId,
)
    requires
        cmd.is_wait(),
        fcntl::is_action_of(
            LockAction::Fail(
                SyscallError::Blocked { until: caller.sim_end_time, restartable: true },
            ),
            table,
            cmd,
            fl,
            request,
            caller,
        ),
    ensures
        request.operation matches LockOperation::Acquire(lock_type) && {
            let blocked = fcntl::after_request(table, cmd, request, caller);
            let released = lock_model::after_unlock(blocked, request.key, start, end, owner);
            lock_model::woken_by_unlock(blocked, request.key, start, end, owner).contains(
                fcntl::waiter_for(request, lock_type, caller),
            ) <==> fcntl::is_action_of(LockAction::Done, released, cmd, fl, request, caller)
        },
{
    if let LockOperation::Acquire(lock_type) = request.operation {
        let tried = lock_model::after_try_lock(
            table,
            request.key,
            request.start,
            request.end,
            lock_type,
            caller.pid,
        );
        laws::law_waiter_is_woken_when_free(
            tried,
            request.key,
            fcntl::waiter_for(request, lock_type, caller),
            start,
            end,
            owner,
        );
    }
}

/// `F_SETFL` takes the flags that it can change from its argument and keeps all
/// others; access modes and creation flags in the argument change nothing.
pub proof fn law_status_update(old_flags: i32, new_flags: i32)
    ensures
        fcntl::merged_status(old_flags, new_flags) & fcntl::STATUS_UPDATE_MASK == new_flags
            & fcntl::STATUS_UPDATE_MASK,
        fcntl::merged_status(old_flags, new_flags) & !fcntl::STATUS_UPDATE_MASK == old_flags
            & !fcntl::STATUS_UPDATE_MASK,
        fcntl::merged_status(old_flags, new_flags | fcntl::ACCESS_MODES | fcntl::CREATION_FLAGS)
            == fcntl::merged_status(old_flags, new_flags),
        fcntl::merged_status(fcntl::merged_status(old_flags, new_flags), new_flags)
            == fcntl::merged_status(old_flags, new_flags),
{
    assert(fcntl::merged_status(old_flags, new_flags) & fcntl::STATUS_UPDATE_MASK == new_flags
        & fcntl::STATUS_UPDATE_MASK) by (bit_vector);
    assert(fcntl::merged_status(old_flags, new_flags) & !fcntl::STATUS_UPDATE_MASK == old_flags
        & !fcntl::STATUS_UPDATE_MASK) by (bit_vector);
    assert(fcntl::merged_status(
        old_flags,
        new_flags | fcntl::ACCESS_MODES | fcntl::CREATION_FLAGS,
    ) == fcntl::merged_status(old_flags, new_flags)) by (bit_vector);
    assert(fcntl::merged_status(fcntl::merged_status(old_flags, new_flags), new_flags)
        == fcntl::merged_status(old_flags, new_flags)) by (bit_vector);
}

/// What `F_GETFL` shows after an `F_SETFL` that has set the status: the flags that
/// can change are those of the argument, next to the access mode, and all others are
/// as before. Access modes and creation flags in the argument change nothing that is
/// shown, where the mode of the file holds none of the flags that can change.
pub proof fn law_set_status_is_shown(
    desc: Descriptor,
    file: OpenFile,
    arg: u64,
    known: KnownFlags,
    flags: i32,
    any_arg: u64,
)
    requires
        desc.file == CompatFile::New(file),
        fcntl::action_of(desc, FcntlCommand::F_SETFL, arg, known) == (FcntlAction::SplitStatus {
            flags,
        }),
    ensures
        ({
            let mask = fcntl::STATUS_UPDATE_MASK;
            let after = Descriptor {
                file: CompatFile::New(OpenFile { status: flags, ..file }),
                ..desc
            };
            let shown_before = file.status | file.mode;
            let shown_after = flags | file.mode;
            &&& fcntl::action_of(desc, FcntlCommand::F_GETFL, any_arg, known)
                == FcntlAction::Return(shown_before as i64)
            &&& fcntl::action_of(after, FcntlCommand::F_GETFL, any_arg, known)
                == FcntlAction::Return(shown_after as i64)
            &&& shown_after & !mask == shown_before & !mask
            &&& shown_after & mask == ((arg as i32) & mask) | (file.mode & mask)
            &&& file.mode & mask == 0 ==> shown_after & mask == (arg as i32) & mask
        }),
{
    let old_flags = file.status;
    let mode = file.mode;
    let new_flags = arg as i32;
    assert(flags == fcntl::merged_status(old_flags, new_flags));
    assert((fcntl::merged_status(old_flags, new_flags) | mode) & !fcntl::STATUS_UPDATE_MASK == (
    old_flags | mode) & !fcntl::STATUS_UPDATE_MASK) by (bit_vector);
    assert((fcntl::merged_status(old_flags, new_flags) | mode) & fcntl::STATUS_UPDATE_MASK == (
    new_flags & fcntl::STATUS_UPDATE_MASK) | (mode & fcntl::STATUS_UPDATE_MASK)) by (bit_vector);
    assert(mode & fcntl::STATUS_UPDATE_MASK == 0 ==> (fcntl::merged_status(old_flags, new_flags)
        | mode) & fcntl::STATUS_UPDATE_MASK == new_flags & fcntl::STATUS_UPDATE_MASK)
        by (bit_vector);
}

/// The handler of the legacy layer is run for files of that layer only, and never
/// for a command that changes the state of a descriptor.
pub proof fn law_legacy_layer_leaves_descriptors_alone(
    desc: Descriptor,
    cmd: FcntlCommand,
    arg: u64,
    known: KnownFlags,
)
    ensures
        fcntl::action_of(desc, cmd, arg, known) is Legacy <==> desc.file is Legacy && (
        cmd is F_GETFL || cmd is F_SETFL || cmd is F_GETPIPE_SZ),
        cmd is F_SETFD || cmd is F_DUPFD || cmd is F_DUPFD_CLOEXEC || cmd.is_lock_command()
            ==> !(fcntl::action_of(desc, cmd, arg, known) is Legacy),
{
}

} // verus!
