//! POSIX advisory record locks for a simulated host.
//!
//! The locks belong to processes. A process never conflicts with its own locks, two
//! shared locks are always compatible, and an exclusive lock conflicts with every
//! lock of another process that reaches into its range.
//!
//! * [`lock_model`]: what a lock, a conflict, a release and a merge are, and what the
//!   operations of a lock table do.
//! * [`file_lock_table`]: the table of locks and waiting threads of a host.
//! * [`laws`]: what holds of every lock table.
//! * [`table_laws`]: what its operations do, told by owners, types and bytes of the
//!   locks, by their order, and by the list of waiters.
//! * [`fcntl`]: the decisions of the `fcntl` system call.
//! * [`fcntl_laws`]: what holds of every call of it.
//! * [`command_laws`]: what each command does, told by the fields of its arguments, by
//!   the bytes that are locked, and by the list of waiters.
mod abi;
pub mod command_laws;
pub mod fcntl;
pub mod fcntl_laws;
pub mod file_lock_table;
mod join_facts;
pub mod laws;
pub mod lock_model;
mod merge_facts;
mod piece_facts;
mod segment_facts;
pub mod table_laws;
