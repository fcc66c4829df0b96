//! The decisions of the `fcntl` system call: which action a command asks for, and
//! what a lock command does to the lock table.
use vstd::prelude::*;

use crate::abi;
use crate::file_lock_table::FileLockTable;
use crate::lock_model;
use crate::lock_model::{FileKey, FileLocks, LockType, LockWaiter, ProcessId, ThreadId};

verus! {

/// The error numbers that the system call reports.
#[derive(Clone, Copy, PartialEq, Eq, Debug, Structural)]
pub enum Errno {
    /// Bad file descriptor.
    EBADF,
    /// Permission denied; a lock of another process is in the way.
    EACCES,
    /// Bad address.
    EFAULT,
    /// Invalid argument.
    EINVAL,
}

/// How a system call ends other than with a value.
#[derive(Clone, Copy, PartialEq, Eq, Debug, Structural)]
pub enum SyscallError {
    /// It fails with an error number.
    Failed(Errno),
    /// The thread blocks until it is resumed, or until the time `until` at the
    /// latest. Where `restartable`, the call is issued again after a signal.
    Blocked { until: u64, restartable: bool },
}

/// The `fcntl` commands that are handled.
#[allow(non_camel_case_types)]
#[derive(Clone, Copy, PartialEq, Eq, Debug, Structural)]
pub enum FcntlCommand {
    F_DUPFD,
    F_GETFD,
    F_SETFD,
    F_GETFL,
    F_SETFL,
    F_GETLK,
    F_SETLK,
    F_SETLKW,
    F_OFD_GETLK,
    F_OFD_SETLK,
    F_OFD_SETLKW,
    F_DUPFD_CLOEXEC,
    F_GETPIPE_SZ,
}

impl FcntlCommand {
    /// The command is one of those on locks.
    pub open spec fn is_lock_command(self) -> bool {
        self.is_query() || self.is_try() || self.is_wait()
    }

    /// The command asks for a lock that would be in the way.
    pub open spec fn is_query(self) -> bool {
        self is F_GETLK || self is F_OFD_GETLK
    }

    /// The command asks for a lock at once.
    pub open spec fn is_try(self) -> bool {
        self is F_SETLK || self is F_OFD_SETLK
    }

    /// The command asks for a lock and waits for it.
    pub open spec fn is_wait(self) -> bool {
        self is F_SETLKW || self is F_OFD_SETLKW
    }

    /// The command with the given number, `None` where no handled command has it.
    pub fn from_number(number: u32) -> (command: Option<FcntlCommand>)
        ensures
            command == command_of(number),
    {
        match number {
            0 => Some(FcntlCommand::F_DUPFD),
            1 => Some(FcntlCommand::F_GETFD),
            2 => Some(FcntlCommand::F_SETFD),
            3 => Some(FcntlCommand::F_GETFL),
            4 => Some(FcntlCommand::F_SETFL),
            5 => Some(FcntlCommand::F_GETLK),
            6 => Some(FcntlCommand::F_SETLK),
            7 => Some(FcntlCommand::F_SETLKW),
            36 => Some(FcntlCommand::F_OFD_GETLK),
            37 => Some(FcntlCommand::F_OFD_SETLK),
            38 => Some(FcntlCommand::F_OFD_SETLKW),
            1030 => Some(FcntlCommand::F_DUPFD_CLOEXEC),
            1032 => Some(FcntlCommand::F_GETPIPE_SZ),
            _ => None,
        }
    }
}

/// The command that has a number in the Linux system call interface, where it is
/// one that is handled.
pub open spec fn command_of(number: u32) -> Option<FcntlCommand> {
    match number {
        0 => Some(FcntlCommand::F_DUPFD),
        1 => Some(FcntlCommand::F_GETFD),
        2 => Some(FcntlCommand::F_SETFD),
        3 => Some(FcntlCommand::F_GETFL),
        4 => Some(FcntlCommand::F_SETFL),
        5 => Some(FcntlCommand::F_GETLK),
        6 => Some(FcntlCommand::F_SETLK),
        7 => Some(FcntlCommand::F_SETLKW),
        36 => Some(FcntlCommand::F_OFD_GETLK),
        37 => Some(FcntlCommand::F_OFD_SETLK),
        38 => Some(FcntlCommand::F_OFD_SETLKW),
        1030 => Some(FcntlCommand::F_DUPFD_CLOEXEC),
        1032 => Some(FcntlCommand::F_GETPIPE_SZ),
        _ => None,
    }
}

/// The argument of a lock command: `struct flock`.
#[derive(Clone, Copy, PartialEq, Eq, Debug, Structural)]
pub struct Flock {
    pub l_type: i16,
    pub l_whence: i16,
    pub l_start: i64,
    pub l_len: i64,
    pub l_pid: i32,
}

impl Flock {
    /// The bytes `[start, end)` that the fields describe, `None` where they are
    /// not valid.
    ///
    /// Only offsets from the start of the file are (`l_whence` 0, `SEEK_SET`). A
    /// length of 0 reaches to the end of the file, which `u64::MAX` stands for. A
    /// negative length describes the bytes before `l_start`.
    pub open spec fn range(self) -> Option<(int, int)> {
        if self.l_whence != 0 || self.l_start < 0 || self.l_start + self.l_len < 0 {
            None
        } else if self.l_len == 0 {
            Some((self.l_start as int, u64::MAX as int))
        } else if self.l_len > 0 {
            Some((self.l_start as int, self.l_start + self.l_len))
        } else {
            Some((self.l_start + self.l_len, self.l_start as int))
        }
    }
}

/// Converts the fields of `fl` into an absolute `[start, end)` byte range.
///
/// Offsets from the current position or from the end of the file would need the
/// state of the file; they are refused.
pub fn flock_to_range(fl: &Flock) -> (result: Result<(u64, u64), Errno>)
    ensures
        match fl.range() {
            Some((start, end)) => result matches Ok(range) && range.0 == start && range.1 == end
                && range.0 < range.1,
            None => result == Err::<(u64, u64), Errno>(Errno::EINVAL),
        },
{
    if fl.l_whence as i32 != abi::seek_set() {
        return Err(Errno::EINVAL);
    }
    if fl.l_start < 0 {
        return Err(Errno::EINVAL);
    }
    let start: u64 = fl.l_start as u64;
    if fl.l_len == 0 {
        // Lock to the end of the file.
        Ok((start, u64::MAX))
    } else if fl.l_len < 0 {
        // Lock the range that ends at `start`.
        if fl.l_start + fl.l_len < 0 {
            return Err(Errno::EINVAL);
        }
        Ok(((fl.l_start + fl.l_len) as u64, start))
    } else {
        Ok((start, start + fl.l_len as u64))
    }
}

/// An open file, as far as the system call reads it.
#[derive(Clone, Copy, PartialEq, Eq, Debug, Structural)]
pub struct OpenFile {
    /// Address of the reference-counted allocation of the file. Duplicated and
    /// inherited descriptors share it.
    pub inner_file: u64,
    /// The status flags, as `O_*` bits.
    pub status: i32,
    /// The access mode, as `O_*` bits.
    pub mode: i32,
    /// The capacity, where the file is a pipe.
    pub pipe_max_size: Option<u64>,
}

/// The file that a descriptor refers to.
#[derive(Clone, Copy, PartialEq, Eq, Debug, Structural)]
pub enum CompatFile {
    New(OpenFile),
    /// A file of the legacy layer, by the address of its object.
    Legacy(u64),
}

/// A file descriptor.
#[derive(Clone, Copy, PartialEq, Eq, Debug, Structural)]
pub struct Descriptor {
    pub file: CompatFile,
    /// The descriptor flags, as `FD_*` bits.
    pub flags: i32,
}

impl Descriptor {
    /// What identifies the file of the descriptor in the lock table: the address of
    /// the allocation or object that all descriptors of the file share.
    pub open spec fn file_key(self) -> FileKey {
        match self.file {
            CompatFile::New(file) => file.inner_file,
            CompatFile::Legacy(object) => object,
        }
    }
}

/// Derives a stable key for the file that `desc` refers to.
///
/// Descriptors that were duplicated or inherited share the allocation of the file,
/// so they share the key. For a file of the legacy layer this is not so of two
/// independent `open` calls on one path.
pub fn file_key_for_desc(desc: &Descriptor) -> (key: FileKey)
    ensures
        key == desc.file_key(),
{
    match desc.file {
        CompatFile::New(file) => file.inner_file,
        CompatFile::Legacy(object) => object,
    }
}

/// What the `l_type` of a lock command asks for.
#[derive(Clone, Copy, PartialEq, Eq, Debug, Structural)]
pub enum LockOperation {
    Acquire(LockType),
    Release,
}

/// A lock command that is valid as far as its arguments go.
#[derive(Clone, Copy, PartialEq, Eq, Debug, Structural)]
pub struct LockRequest {
    pub key: FileKey,
    pub start: u64,
    pub end: u64,
    pub operation: LockOperation,
}

/// What an `l_type` asks for: 0 (`F_RDLCK`) a shared lock, 1 (`F_WRLCK`) an
/// exclusive lock, 2 (`F_UNLCK`) a release.
pub open spec fn operation_of(l_type: i16) -> Option<LockOperation> {
    if l_type == 0 {
        Some(LockOperation::Acquire(LockType::Shared))
    } else if l_type == 1 {
        Some(LockOperation::Acquire(LockType::Exclusive))
    } else if l_type == 2 {
        Some(LockOperation::Release)
    } else {
        None
    }
}

/// The request that the arguments of a lock command make, or the error that the
/// first invalid one of them gives: the memory that holds the `flock`, its type,
/// its range, the descriptor.
pub open spec fn request_of(flock: Option<Flock>, desc: Result<Descriptor, Errno>) -> Result<
    LockRequest,
    Errno,
> {
    match flock {
        None => Err(Errno::EFAULT),
        Some(fl) => match (operation_of(fl.l_type), fl.range(), desc) {
            (None, _, _) => Err(Errno::EINVAL),
            (_, None, _) => Err(Errno::EINVAL),
            (_, _, Err(errno)) => Err(errno),
            (Some(operation), Some((start, end)), Ok(desc)) => Ok(
                LockRequest {
                    key: desc.file_key(),
                    start: start as u64,
                    end: end as u64,
                    operation,
                },
            ),
        },
    }
}

/// Decodes the arguments of a lock command: the `flock` that was read from the
/// memory of the process, `None` where it could not be read, and the descriptor.
pub fn decode_request(flock: Option<Flock>, desc: Result<Descriptor, Errno>) -> (result: Result<
    LockRequest,
    Errno,
>)
    ensures
        result == request_of(flock, desc),
        result matches Ok(request) ==> request.start < request.end,
{
    let fl = match flock {
        Some(fl) => fl,
        None => {
            return Err(Errno::EFAULT);
        },
    };
    let l_type: i32 = fl.l_type as i32;
    let operation = if l_type == abi::f_rdlck() {
        LockOperation::Acquire(LockType::Shared)
    } else if l_type == abi::f_wrlck() {
        LockOperation::Acquire(LockType::Exclusive)
    } else if l_type == abi::f_unlck() {
        LockOperation::Release
    } else {
        return Err(Errno::EINVAL);
    };
    let (start, end) = match flock_to_range(&fl) {
        Ok(range) => range,
        Err(errno) => {
            return Err(errno);
        },
    };
    match desc {
        Ok(desc) => Ok(LockRequest { key: file_key_for_desc(&desc), start, end, operation }),
        Err(errno) => Err(errno),
    }
}

/// What a lock query writes back: the request with `F_UNLCK` (2) as its type where
/// no lock is in the way, else with type and process of the first lock that is.
pub open spec fn query_reply(fl: Flock, blocking: Option<(LockType, ProcessId)>) -> Flock {
    match blocking {
        None => Flock { l_type: 2, ..fl },
        Some((LockType::Shared, pid)) => Flock { l_type: 0, l_pid: pid.0, ..fl },
        Some((LockType::Exclusive, pid)) => Flock { l_type: 1, l_pid: pid.0, ..fl },
    }
}

/// Fills in what a lock query writes back.
pub fn reply_to_query(fl: Flock, blocking: Option<(LockType, ProcessId)>) -> (reply: Flock)
    ensures
        reply == query_reply(fl, blocking),
{
    match blocking {
        None => Flock { l_type: abi::f_unlck() as i16, ..fl },
        Some((blocking_type, blocking_pid)) => {
            let l_type: i16 = match blocking_type {
                LockType::Shared => abi::f_rdlck() as i16,
                LockType::Exclusive => abi::f_wrlck() as i16,
            };
            Flock { l_type, l_pid: blocking_pid.0, ..fl }
        },
    }
}

/// What is left to do for a lock command.
pub enum LockAction {
    /// Return this error, or block.
    Fail(SyscallError),
    /// Return 0.
    Done,
    /// Write the `flock` back into the memory of the process.
    WriteBack(Flock),
    /// Resume these waiters, then return 0.
    Wake(Vec<LockWaiter>),
}

/// The thread that issues a command, and the end of the simulated time.
#[derive(Clone, Copy, PartialEq, Eq, Debug, Structural)]
pub struct Caller {
    pub pid: ProcessId,
    pub tid: ThreadId,
    pub sim_end_time: u64,
}

/// The waiter that a thread becomes that blocks on a request.
pub open spec fn waiter_for(request: LockRequest, lock_type: LockType, caller: Caller) -> LockWaiter {
    LockWaiter {
        pid: caller.pid,
        tid: caller.tid,
        start: request.start,
        end: request.end,
        lock_type,
    }
}

/// The table after a command has made a valid request.
pub open spec fn after_request(
    table: Map<FileKey, FileLocks>,
    cmd: FcntlCommand,
    request: LockRequest,
    caller: Caller,
) -> Map<FileKey, FileLocks> {
    let LockRequest { key, start, end, operation } = request;
    match operation {
        LockOperation::Release => lock_model::after_unlock(table, key, start, end, caller.pid),
        LockOperation::Acquire(lock_type) => {
            let tried = lock_model::after_try_lock(table, key, start, end, lock_type, caller.pid);
            if cmd.is_query() {
                table
            } else if cmd.is_wait() && lock_model::lock_answer(
                table,
                key,
                start,
                end,
                lock_type,
                caller.pid,
            ) is Err {
                lock_model::after_add_waiter(tried, key, waiter_for(request, lock_type, caller))
            } else {
                tried
            }
        },
    }
}

/// `action` is what is left to do once a command has made a valid request with
/// `fl`: a release hands on the waiters that it frees; a query writes back what is
/// in the way; a lock that is granted is done; one that is refused fails with
/// `EACCES`, or, where the command waits, blocks until the end of the simulation.
pub open spec fn is_action_of(
    action: LockAction,
    table: Map<FileKey, FileLocks>,
    cmd: FcntlCommand,
    fl: Flock,
    request: LockRequest,
    caller: Caller,
) -> bool {
    let LockRequest { key, start, end, operation } = request;
    match operation {
        LockOperation::Release => action matches LockAction::Wake(waiters) && waiters@
            == lock_model::woken_by_unlock(table, key, start, end, caller.pid),
        LockOperation::Acquire(lock_type) => {
            if cmd.is_query() {
                action == LockAction::WriteBack(
                    query_reply(
                        fl,
                        lock_model::query_answer(table, key, start, end, lock_type, caller.pid),
                    ),
                )
            } else if lock_model::lock_answer(
                table,
                key,
                start,
                end,
                lock_type,
                caller.pid,
            ) is Ok {
                action == LockAction::Done
            } else if cmd.is_try() {
                action == LockAction::Fail(SyscallError::Failed(Errno::EACCES))
            } else {
                action == LockAction::Fail(
                    SyscallError::Blocked { until: caller.sim_end_time, restartable: true },
                )
            }
        },
    }
}

/// The table after a lock command with these arguments.
pub open spec fn after_command(
    table: Map<FileKey, FileLocks>,
    cmd: FcntlCommand,
    flock: Option<Flock>,
    desc: Result<Descriptor, Errno>,
    caller: Caller,
) -> Map<FileKey, FileLocks> {
    match request_of(flock, desc) {
        Ok(request) => after_request(table, cmd, request, caller),
        Err(_) => table,
    }
}

/// `action` is what is left to do for a lock command with these arguments.
pub open spec fn is_outcome_of(
    action: LockAction,
    table: Map<FileKey, FileLocks>,
    cmd: FcntlCommand,
    flock: Option<Flock>,
    desc: Result<Descriptor, Errno>,
    caller: Caller,
) -> bool {
    match (request_of(flock, desc), flock) {
        (Ok(request), Some(fl)) => is_action_of(action, table, cmd, fl, request, caller),
        (Err(errno), _) => action == LockAction::Fail(SyscallError::Failed(errno)),
        _ => false,
    }
}

/// Handles `F_SETLK`, `F_SETLKW`, `F_GETLK` and their OFD equivalents, which are
/// locks of the process too.
///
/// `flock` is what was read at the third argument of the call, `None` where that
/// memory cannot be read; `desc` is the descriptor of the first.
pub fn handle_lock_cmd(
    table: &mut FileLockTable,
    cmd: FcntlCommand,
    flock: Option<Flock>,
    desc: Result<Descriptor, Errno>,
    caller: Caller,
) -> (action: LockAction)
    requires
        request_of(flock, desc) matches Ok(request) && request.operation is Acquire
            ==> cmd.is_lock_command(),
    ensures
        match request_of(flock, desc) {
            Err(errno) => {
                &&& action == LockAction::Fail(SyscallError::Failed(errno))
                &&& final(table)@ == old(table)@
            },
            Ok(request) => {
                &&& is_action_of(action, old(table)@, cmd, flock.unwrap(), request, caller)
                &&& final(table)@ == after_request(old(table)@, cmd, request, caller)
            },
        },
        final(table)@ == after_command(old(table)@, cmd, flock, desc, caller),
        is_outcome_of(action, old(table)@, cmd, flock, desc, caller),
        lock_model::coherent(old(table)@) ==> lock_model::coherent(final(table)@),
        lock_model::tidy(old(table)@) ==> lock_model::tidy(final(table)@),
{
    let request = match decode_request(flock, desc) {
        Ok(request) => request,
        Err(errno) => {
            return LockAction::Fail(SyscallError::Failed(errno));
        },
    };
    let fl = match flock {
        Some(fl) => fl,
        None => {
            return LockAction::Fail(SyscallError::Failed(Errno::EFAULT));
        },
    };
    let LockRequest { key, start, end, operation } = request;
    let lock_type = match operation {
        LockOperation::Release => {
            return LockAction::Wake(table.unlock(key, start, end, caller.pid));
        },
        LockOperation::Acquire(lock_type) => lock_type,
    };
    match cmd {
        FcntlCommand::F_GETLK | FcntlCommand::F_OFD_GETLK => {
            let blocking = table.query_lock(key, start, end, lock_type, caller.pid);
            LockAction::WriteBack(reply_to_query(fl, blocking))
        },
        FcntlCommand::F_SETLK | FcntlCommand::F_OFD_SETLK => {
            match table.try_lock(key, start, end, lock_type, caller.pid) {
                Ok(_) => LockAction::Done,
                Err(_) => LockAction::Fail(SyscallError::Failed(Errno::EACCES)),
            }
        },
        _ => {
            // A thread that has been resumed issues the command again: it gets the
            // lock if it is free now, and else waits again.
            match table.try_lock(key, start, end, lock_type, caller.pid) {
                Ok(_) => LockAction::Done,
                Err(_) => {
                    table.add_waiter(
                        key,
                        LockWaiter { pid: caller.pid, tid: caller.tid, start, end, lock_type },
                    );
                    LockAction::Fail(
                        SyscallError::Blocked { until: caller.sim_end_time, restartable: true },
                    )
                },
            }
        },
    }
}

/// A task that resumes a thread after a delay.
#[derive(Clone, Copy, PartialEq, Eq, Debug, Structural)]
pub struct ResumeTask {
    pub pid: ProcessId,
    pub tid: ThreadId,
    /// In nanoseconds of simulated time.
    pub delay: u64,
}

/// The task that resumes a waiter at once.
pub open spec fn resume_of(waiter: LockWaiter) -> ResumeTask {
    ResumeTask { pid: waiter.pid, tid: waiter.tid, delay: 0 }
}

/// The tasks that resume waiters, one for each, in their order.
pub open spec fn tasks_for(waiters: Seq<LockWaiter>) -> Seq<ResumeTask> {
    Seq::new(waiters.len(), |i: int| resume_of(waiters[i]))
}

/// The tasks that wake every waiter of `waiters`, in order and without delay.
pub fn wake_waiters(waiters: &Vec<LockWaiter>) -> (tasks: Vec<ResumeTask>)
    ensures
        tasks@ == waiters@.map_values(|w: LockWaiter| resume_of(w)),
        tasks@ == tasks_for(waiters@),
{
    let mut tasks: Vec<ResumeTask> = Vec::new();
    let mut i: usize = 0;
    while i < waiters.len()
        invariant
            i <= waiters.len(),
            tasks@ == waiters@.take(i as int).map_values(|w: LockWaiter| resume_of(w)),
        decreases waiters.len() - i,
    {
        let w = waiters[i];
        tasks.push(ResumeTask { pid: w.pid, tid: w.tid, delay: 0 });
        i = i + 1;
        assert(tasks@ =~= waiters@.take(i as int).map_values(|w: LockWaiter| resume_of(w)));
    }
    assert(waiters@.take(i as int) =~= waiters@);
    tasks
}

/// Flags of an open file, with their values in the Linux system call interface on
/// x86-64: opened for writing only.
pub const O_WRONLY: i32 = 0x1;

pub const O_RDWR: i32 = 0x2;

pub const O_CREAT: i32 = 0x40;

pub const O_EXCL: i32 = 0x80;

pub const O_NOCTTY: i32 = 0x100;

pub const O_TRUNC: i32 = 0x200;

pub const O_APPEND: i32 = 0x400;

pub const O_NONBLOCK: i32 = 0x800;

pub const O_ASYNC: i32 = 0x2000;

pub const O_DIRECT: i32 = 0x4000;

pub const O_DIRECTORY: i32 = 0x10000;

pub const O_NOFOLLOW: i32 = 0x20000;

pub const O_NOATIME: i32 = 0x40000;

pub const O_CLOEXEC: i32 = 0x80000;

pub const O_PATH: i32 = 0x200000;

pub const O_TMPFILE: i32 = 0x410000;

/// The status flags that `F_SETFL` can change.
pub const STATUS_UPDATE_MASK: i32 = O_APPEND | O_ASYNC | O_DIRECT | O_NOATIME | O_NONBLOCK;

/// The access modes, which `F_SETFL` ignores (`O_RDONLY` has no bit).
pub const ACCESS_MODES: i32 = O_WRONLY | O_RDWR | O_PATH;

/// The creation flags, which `F_SETFL` ignores.
pub const CREATION_FLAGS: i32 = O_CLOEXEC | O_CREAT | O_DIRECTORY | O_EXCL | O_NOCTTY | O_NOFOLLOW
    | O_TMPFILE | O_TRUNC;

/// The descriptor flag that closes a descriptor on `exec`.
pub const FD_CLOEXEC: i32 = 1;

/// The bits that the host defines a flag for.
#[derive(Clone, Copy, PartialEq, Eq, Debug, Structural)]
pub struct KnownFlags {
    /// Among the `O_*` flags.
    pub open: i32,
    /// Among the `FD_*` flags.
    pub descriptor: i32,
}

/// The status flags `old` with those that `F_SETFL` can change taken from `new`.
pub open spec fn merged_status(old_flags: i32, new_flags: i32) -> i32 {
    (old_flags & !STATUS_UPDATE_MASK) | (new_flags & STATUS_UPDATE_MASK)
}

/// Merges the status flags that `F_SETFL` is given into those of the file.
pub fn merge_status(old_flags: i32, new_flags: i32) -> (status: i32)
    ensures
        status == merged_status(old_flags, new_flags),
{
    // Access modes and creation flags are ignored.
    let status: i32 = new_flags & !ACCESS_MODES & !CREATION_FLAGS;
    proof {
        assert(((new_flags & !ACCESS_MODES & !CREATION_FLAGS) & STATUS_UPDATE_MASK) == (new_flags
            & STATUS_UPDATE_MASK)) by (bit_vector);
    }
    (old_flags & !STATUS_UPDATE_MASK) | (status & STATUS_UPDATE_MASK)
}

/// The status that a file gets where `remaining` is what is left of `flags` besides
/// the status flags of a file.
pub open spec fn split_status(flags: i32, remaining: i32) -> Result<i32, Errno> {
    if remaining == 0 {
        Ok(flags)
    } else {
        Err(Errno::EINVAL)
    }
}

/// Decides what status a file gets, once the host has split `flags` into the status
/// flags of a file and `remaining`, the bits that none of these stands for: all of
/// `flags` where nothing remains; else the status stays, and the call fails.
pub fn status_after_split(flags: i32, remaining: i32) -> (status: Result<i32, Errno>)
    ensures
        status == (if remaining == 0 {
            Ok::<i32, Errno>(flags)
        } else {
            Err::<i32, Errno>(Errno::EINVAL)
        }),
        status == split_status(flags, remaining),
{
    if remaining == 0 {
        Ok(flags)
    } else {
        Err(Errno::EINVAL)
    }
}

/// What a command asks for.
#[derive(Clone, Copy, PartialEq, Eq, Debug, Structural)]
pub enum FcntlAction {
    /// Return this error.
    Fail(Errno),
    /// Return this value.
    Return(i64),
    /// Handle a lock command.
    Lock(FcntlCommand),
    /// Hand the call to the handler of the legacy layer.
    Legacy,
    /// Split these flags into the status of the file and what remains of them, and
    /// give the file the status that `status_after_split` decides on.
    SplitStatus { flags: i32 },
    /// Give the descriptor these flags.
    SetDescriptorFlags { flags: i32 },
    /// Register a duplicate of the descriptor, with these flags, at the first free
    /// number from `min_fd` on.
    Duplicate { min_fd: u64, flags: i32 },
}

/// The flags that an argument holds: it has to fit and to set known bits only.
pub open spec fn flags_of(arg: u64, known: i32) -> Option<i32> {
    if arg <= i32::MAX && (arg as i32) & !known == 0 {
        Some(arg as i32)
    } else {
        None
    }
}

/// Decodes the flags that an argument holds.
fn decode_flags(arg: u64, known: i32) -> (flags: Option<i32>)
    ensures
        flags == flags_of(arg, known),
{
    if arg <= 0x7fff_ffff {
        let flags: i32 = arg as i32;
        if flags & !known == 0 {
            return Some(flags);
        }
    }
    None
}

/// What `cmd` with `arg` asks for on `desc`.
pub open spec fn action_of(
    desc: Descriptor,
    cmd: FcntlCommand,
    arg: u64,
    known: KnownFlags,
) -> FcntlAction {
    match cmd {
        FcntlCommand::F_GETFL => match desc.file {
            CompatFile::New(file) => FcntlAction::Return((file.status | file.mode) as i64),
            CompatFile::Legacy(_) => FcntlAction::Legacy,
        },
        FcntlCommand::F_SETFL => match (desc.file, flags_of(arg, known.open)) {
            (CompatFile::Legacy(_), _) => FcntlAction::Legacy,
            (CompatFile::New(_), None) => FcntlAction::Fail(Errno::EINVAL),
            (CompatFile::New(file), Some(flags)) => FcntlAction::SplitStatus {
                flags: merged_status(file.status, flags),
            },
        },
        FcntlCommand::F_GETFD => FcntlAction::Return(desc.flags as i64),
        FcntlCommand::F_SETFD => match flags_of(arg, known.descriptor) {
            None => FcntlAction::Fail(Errno::EINVAL),
            Some(flags) => FcntlAction::SetDescriptorFlags { flags },
        },
        FcntlCommand::F_DUPFD => FcntlAction::Duplicate { min_fd: arg, flags: 0 },
        FcntlCommand::F_DUPFD_CLOEXEC => FcntlAction::Duplicate { min_fd: arg, flags: FD_CLOEXEC },
        FcntlCommand::F_GETPIPE_SZ => match desc.file {
            CompatFile::Legacy(_) => FcntlAction::Legacy,
            CompatFile::New(file) => match file.pipe_max_size {
                Some(size) => FcntlAction::Return(size as i64),
                None => FcntlAction::Fail(Errno::EINVAL),
            },
        },
        _ => FcntlAction::Lock(cmd),
    }
}

/// What the call `fcntl(fd, cmd, arg)` asks for, where `desc` is what the lookup of
/// `fd` gave: a failed lookup comes first, then a number that is no command.
pub open spec fn decision_of(
    desc: Result<Descriptor, Errno>,
    cmd: u32,
    arg: u64,
    known: KnownFlags,
) -> FcntlAction {
    match (desc, command_of(cmd)) {
        (Err(errno), _) => FcntlAction::Fail(errno),
        (Ok(_), None) => FcntlAction::Fail(Errno::EINVAL),
        (Ok(desc), Some(command)) => action_of(desc, command, arg, known),
    }
}

/// What the host answers to an action.
#[derive(Clone, Copy, PartialEq, Eq, Debug, Structural)]
pub enum FcntlEvent {
    /// Whether the `flock` could be written back.
    FlockWritten(bool),
    /// The file has its status.
    StatusSet,
    /// The descriptor has its flags.
    DescriptorFlagsSet,
    /// The number of the duplicate; `None` where `min_fd` is no descriptor number,
    /// or no number is free from it on.
    Duplicated(Option<u32>),
    /// The waiters will be resumed.
    WaitersScheduled,
}

/// What the system call returns after an event.
pub open spec fn result_of(event: FcntlEvent) -> Result<i64, Errno> {
    match event {
        FcntlEvent::FlockWritten(false) => Err(Errno::EFAULT),
        FcntlEvent::Duplicated(None) => Err(Errno::EINVAL),
        FcntlEvent::Duplicated(Some(fd)) => Ok(fd as i64),
        _ => Ok(0),
    }
}

/// The decisions of the system calls.
pub struct SyscallHandler;

impl SyscallHandler {
    /// Decides what the call `fcntl(fd, cmd, arg)` asks for, where `desc` is what
    /// the lookup of `fd` gave.
    ///
    /// The capacity of a pipe that is asked for has to fit the result.
    pub fn fcntl(
        desc: Result<Descriptor, Errno>,
        cmd: u32,
        arg: u64,
        known: KnownFlags,
    ) -> (action: FcntlAction)
        requires
            command_of(cmd) == Some(FcntlCommand::F_GETPIPE_SZ) ==> (desc matches Ok(
                Descriptor { file: CompatFile::New(OpenFile { pipe_max_size: Some(size), .. }), .. },
            ) ==> size <= i64::MAX),
        ensures
            action == match (desc, command_of(cmd)) {
                (Err(errno), _) => FcntlAction::Fail(errno),
                (Ok(_), None) => FcntlAction::Fail(Errno::EINVAL),
                (Ok(desc), Some(command)) => action_of(desc, command, arg, known),
            },
            action == decision_of(desc, cmd, arg, known),
            action matches FcntlAction::Lock(c) ==> c.is_lock_command(),
    {
        let desc = match desc {
            Ok(desc) => desc,
            Err(errno) => {
                return FcntlAction::Fail(errno);
            },
        };
        let command = match FcntlCommand::from_number(cmd) {
            Some(command) => command,
            None => {
                return FcntlAction::Fail(Errno::EINVAL);
            },
        };
        match command {
            FcntlCommand::F_GETFL => match desc.file {
                CompatFile::New(file) => FcntlAction::Return((file.status | file.mode) as i64),
                CompatFile::Legacy(_) => FcntlAction::Legacy,
            },
            FcntlCommand::F_SETFL => match desc.file {
                CompatFile::Legacy(_) => FcntlAction::Legacy,
                CompatFile::New(file) => match decode_flags(arg, known.open) {
                    None => FcntlAction::Fail(Errno::EINVAL),
                    Some(flags) => FcntlAction::SplitStatus {
                        flags: merge_status(file.status, flags),
                    },
                },
            },
            FcntlCommand::F_GETFD => FcntlAction::Return(desc.flags as i64),
            FcntlCommand::F_SETFD => match decode_flags(arg, known.descriptor) {
                None => FcntlAction::Fail(Errno::EINVAL),
                Some(flags) => FcntlAction::SetDescriptorFlags { flags },
            },
            FcntlCommand::F_DUPFD => FcntlAction::Duplicate { min_fd: arg, flags: 0 },
            FcntlCommand::F_DUPFD_CLOEXEC => FcntlAction::Duplicate {
                min_fd: arg,
                flags: FD_CLOEXEC,
            },
            FcntlCommand::F_GETPIPE_SZ => match desc.file {
                CompatFile::Legacy(_) => FcntlAction::Legacy,
                CompatFile::New(file) => match file.pipe_max_size {
                    Some(size) => FcntlAction::Return(size as i64),
                    None => FcntlAction::Fail(Errno::EINVAL),
                },
            },
            _ => FcntlAction::Lock(command),
        }
    }

    /// Decides what the call returns once the host has answered to an action.
    pub fn fcntl_resume(event: FcntlEvent) -> (result: Result<i64, Errno>)
        ensures
            result == result_of(event),
    {
        match event {
            FcntlEvent::FlockWritten(written) => if written {
                Ok(0)
            } else {
                Err(Errno::EFAULT)
            },
            FcntlEvent::StatusSet => Ok(0),
            FcntlEvent::DescriptorFlagsSet => Ok(0),
            FcntlEvent::Duplicated(Some(fd)) => Ok(fd as i64),
            FcntlEvent::Duplicated(None) => Err(Errno::EINVAL),
            FcntlEvent::WaitersScheduled => Ok(0),
        }
    }
}

} // verus!
