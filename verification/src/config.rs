//! Build-time policy switches and capacities.
use vstd::prelude::*;

verus! {

/// Round allocation sizes up to a whole page before forwarding them to the
/// underlying allocator, so every tracked region owns its pages alone.
pub const ALIGN_ALLOCATIONS_TO_PAGE_SIZE: bool = true;

/// On any fault restore read *and* write access, instead of read access only
/// (a later write would then fault once more and upgrade the page).
pub const UNPROTECT_READ_WRITE_ON_FAULT: bool = false;

/// Capacity of the allocation registry.
pub const MAX_TRACKED_ALLOCATIONS: usize = 1024;

/// Capacity of the interval test list.
pub const MAX_INTERVAL_TESTS: usize = 100;

/// Minimum wall time, in milliseconds, between two interval dispatches.
pub const INTERVAL_MS: u64 = 1000;

} // verus!
