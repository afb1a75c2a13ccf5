use vstd::prelude::*;

verus! {

/// The number of workers for a machine that reports `cpus` processors: one at
/// least, and no more than a `u32` holds.
pub open spec fn workers_for(cpus: int) -> int {
    if cpus < 1 {
        1
    } else if cpus > u32::MAX {
        u32::MAX as int
    } else {
        cpus
    }
}

/// Calls `num_cpus::get`, which asks the machine how many processors this
/// process may use. The answer differs from machine to machine and from run to
/// run, so nothing is claimed of it.
#[verifier::external_body]
fn available_cpus() -> (cpus: usize) {
    num_cpus::get()
}

/// Sizes the worker pool for a machine that reports `cpus` processors.
pub fn pool_size(cpus: usize) -> (workers: u32)
    ensures
        workers == workers_for(cpus as int),
        workers >= 1,
{
    if cpus < 1 {
        1
    } else if cpus > 0xffff_ffff {
        0xffff_ffff
    } else {
        cpus as u32
    }
}

/// The size of the worker pool on this machine: one worker for each processor
/// at hand, and one at least whatever the machine reports.
pub fn worker_count() -> (workers: u32)
    ensures
        workers >= 1,
{
    pool_size(available_cpus())
}

} // verus!
