//! Tracks heap allocations as byte regions, revokes their page permissions,
//! and restores access on a fault: the registry maps any address to its
//! owning region, an interval scheduler compresses idle regions in place,
//! and the fault path decides which page to re-open and how.
use vstd::prelude::*;

pub mod compress;
pub mod config;
pub mod hooks;
pub mod interval;
pub mod logger;
pub mod perms;
pub mod track;

verus! {

/// `a` rounded down to a multiple of `ps`.
pub open spec fn spec_align_down(a: usize, ps: usize) -> usize
    recommends
        ps > 0,
{
    (a - (a % ps)) as usize
}

/// `a` rounded up to a multiple of `ps`.
pub open spec fn spec_align_up(a: usize, ps: usize) -> usize
    recommends
        ps > 0,
        a + ps - 1 <= usize::MAX,
{
    spec_align_down((a + ps - 1) as usize, ps)
}

/// Rounds `size` up to the next multiple of the page size.
pub fn align_up_to_page_size(size: usize, page_size: usize) -> (r: usize)
    requires
        page_size > 0,
        size + page_size - 1 <= usize::MAX,
    ensures
        r == spec_align_up(size, page_size),
{
    let t = size + (page_size - 1);
    proof {
        lemma_align_down_properties(t, page_size);
    }
    t - t % page_size
}

/// Rounds `size` down to a multiple of the page size.
pub fn align_down_to_page_size(size: usize, page_size: usize) -> (r: usize)
    requires
        page_size > 0,
    ensures
        r == spec_align_down(size, page_size),
{
    proof {
        lemma_align_down_properties(size, page_size);
    }
    size - size % page_size
}

/// Rounding down lands on a multiple, at or below the start, less than a page
/// away.
pub proof fn lemma_align_down_properties(a: usize, ps: usize)
    requires
        ps > 0,
    ensures
        spec_align_down(a, ps) % ps == 0,
        spec_align_down(a, ps) <= a,
        a - spec_align_down(a, ps) < ps,
        a % ps <= a,
{
    let m = a % ps;
    assert(m < ps && m <= a) by (nonlinear_arith)
        requires
            ps > 0 && m == a % ps,
    ;
    let d = (a - m) as usize;
    assert(d % ps == 0) by (nonlinear_arith)
        requires
            ps > 0 && m == a % ps && m <= a && d == a - m,
    ;
}

/// Rounding up lands on a multiple in `[a, a + ps)`.
pub proof fn lemma_align_up_properties(a: usize, ps: usize)
    requires
        ps > 0,
        a + ps - 1 <= usize::MAX,
    ensures
        spec_align_up(a, ps) % ps == 0,
        a <= spec_align_up(a, ps),
        spec_align_up(a, ps) < a + ps,
{
    let b = (a + ps - 1) as usize;
    lemma_align_down_properties(b, ps);
    assert(a <= spec_align_down(b, ps)) by (nonlinear_arith)
        requires
            ps > 0 && b == a + ps - 1 && b - spec_align_down(b, ps) < ps && spec_align_down(b, ps)
                <= b,
    ;
}

} // verus!
