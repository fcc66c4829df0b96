//! The numbers of the C library that describe a lock request.
use vstd::prelude::*;

verus! {

/// The constant `libc::F_RDLCK`: the `l_type` of a request for a shared lock. The
/// contract claims that it is 0, as the crate defines it for Linux on x86-64.
#[verifier::external_body]
pub(crate) fn f_rdlck() -> (value: i32)
    ensures
        value == 0,
{
    libc::F_RDLCK
}

/// The constant `libc::F_WRLCK`: the `l_type` of a request for an exclusive lock.
/// The contract claims that it is 1, as the crate defines it for Linux on x86-64.
#[verifier::external_body]
pub(crate) fn f_wrlck() -> (value: i32)
    ensures
        value == 1,
{
    libc::F_WRLCK
}

/// The constant `libc::F_UNLCK`: the `l_type` of a release. The contract claims
/// that it is 2, as the crate defines it for Linux on x86-64.
#[verifier::external_body]
pub(crate) fn f_unlck() -> (value: i32)
    ensures
        value == 2,
{
    libc::F_UNLCK
}

/// The constant `libc::SEEK_SET`: the `l_whence` of a range that counts from the
/// start of the file. The contract claims that it is 0, as the crate defines it for
/// Linux.
#[verifier::external_body]
pub(crate) fn seek_set() -> (value: i32)
    ensures
        value == 0,
{
    libc::SEEK_SET
}

} // verus!
