//! The size of the worker pool.

use vstd::prelude::*;

verus! {

/// The number of workers for a machine that can run `available` threads at
/// once: one fewer than that, but no fewer than `min_size`. A count that is
/// unknown stands as one.
pub open spec fn pool_size_of(available: Option<usize>, min_size: u8) -> int {
    let usable: int = match available {
        Some(n) => n as int,
        None => 1,
    };
    if usable - 1 > min_size {
        usable - 1
    } else {
        min_size as int
    }
}

/// Sizes the worker pool for a machine that can run `available` threads at
/// once, a count that is never zero where it is known.
pub fn pool_size(available: Option<usize>, min_size: u8) -> (r: usize)
    requires
        available != Some(0usize),
    ensures
        r == pool_size_of(available, min_size),
{
    let usable: usize = match available {
        Some(n) => n,
        None => 1,
    };
    let spare: usize = usable - 1;
    if spare > min_size as usize {
        spare
    } else {
        min_size as usize
    }
}

} // verus!
