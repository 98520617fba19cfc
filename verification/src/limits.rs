//! The process's file-descriptor budget, used to size store options.

use vstd::prelude::*;

verus! {

/// Relies on `fdlimit::raise_fd_limit`: raises the soft open-file limit
/// to the hard limit and returns the new limit, 256 where the platform
/// gives no answer. The value depends on the machine and its
/// configuration, so nothing is promised of it.
#[verifier::external_body]
pub fn system_maxfiles() -> usize {
    fdlimit::raise_fd_limit().unwrap_or(256u64) as usize
}

/// An eighth of a file budget, clamped into `i32`.
pub fn files_per_store(budget: usize) -> (r: i32)
    ensures
        budget / 8 <= i32::MAX ==> r == budget / 8,
        budget / 8 > i32::MAX ==> r == i32::MAX,
        r >= 0,
{
    let m = budget / 8;
    if m > i32::MAX as usize {
        i32::MAX
    } else {
        m as i32
    }
}

/// File-descriptor allowance for one authority's store under test:
/// an eighth of the process budget.
pub fn max_files_authority_tests() -> (r: i32)
    ensures
        r >= 0,
{
    files_per_store(system_maxfiles())
}

} // verus!
