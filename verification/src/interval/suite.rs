//! The interval scheduler: timed dispatch to the test list, with a
//! protection fence around every interval.
//!
//! One interval unprotects the union of all tracked pages, runs every test
//! in insertion order, removes the tests that are done, and protects the
//! union again: after a scheduled interval every page of every tracked
//! region is inaccessible.
use vstd::prelude::*;

use crate::interval::{CompressAlloc, IntervalConfig, IntervalTest, RegionBytes};
use crate::perms::{cmd_covers, net_perm, Permissions, ProtCmd};
use crate::perms::{lemma_net_perm_append, lemma_net_perm_uniform};
use crate::track::{Block, Track};
use crate::{spec_align_down, spec_align_up, align_down_to_page_size, align_up_to_page_size};

verus! {

/// Every tracked span can be widened to whole pages without leaving the
/// address space.
pub open spec fn spec_track_fits(m: Map<usize, usize>, ps: usize) -> bool {
    forall|b: usize| #[trigger] m.dom().contains(b) ==> b + m[b] + ps - 1 <= usize::MAX
}

/// Whether `a` lies on some page of some tracked region: the page cover of
/// a span runs from its base rounded down to its end rounded up.
pub open spec fn spec_in_tracked_pages(m: Map<usize, usize>, a: usize, ps: usize) -> bool {
    exists|b: usize|
        #[trigger] m.dom().contains(b) && spec_align_down(b, ps) <= a < spec_align_up(
            (b + m[b]) as usize,
            ps,
        )
}

/// Whether the page starting at `p` covers the address `a`.
pub open spec fn page_start_covers(p: usize, a: usize, ps: usize) -> bool {
    p <= a < p + ps
}

/// Whether some collected page start covers `a`.
pub open spec fn page_covered(pages: Seq<usize>, a: usize, ps: usize) -> bool {
    exists|i: int| 0 <= i < pages.len() && (#[trigger] pages[i]) <= a < pages[i] + ps
}

/// Whether `p` is already among the collected page starts.
fn contains_page(pages: &Vec<usize>, p: usize) -> (r: bool)
    ensures
        r == pages@.contains(p),
{
    let mut i: usize = 0;
    while i < pages.len()
        invariant
            i <= pages@.len(),
            forall|j: int| 0 <= j < i ==> pages@[j] != p,
        decreases pages@.len() - i,
    {
        if pages[i] == p {
            return true;
        }
        i += 1;
    }
    false
}

/// The deduplicated union of all tracked regions' pages, as one protection
/// command per page, all with the same mask: per-region changes would touch
/// shared boundary pages twice, the union touches each page once.
#[verifier::rlimit(50)]
fn fence_cmds(track: &Track, page_size: usize, perms: Permissions) -> (cmds: Vec<ProtCmd>)
    requires
        track.wf(),
        page_size > 0,
        spec_track_fits(track@, page_size),
    ensures
        forall|i: int| 0 <= i < cmds@.len() ==> (#[trigger] cmds@[i]).perms == perms,
        forall|a: usize|
            spec_in_tracked_pages(track@, a, page_size) ==> exists|i: int|
                0 <= i < cmds@.len() && cmd_covers(#[trigger] cmds@[i], a),
        forall|i: int, a: usize|
            0 <= i < cmds@.len() && #[trigger] cmd_covers(cmds@[i], a) ==> spec_in_tracked_pages(
                track@,
                a,
                page_size,
            ),
{
    let blocks = track.iter();
    let ps = page_size;
    let mut pages: Vec<usize> = Vec::new();
    let mut bi: usize = 0;
    while bi < blocks.len()
        invariant
            track.wf(),
            ps == page_size,
            ps > 0,
            spec_track_fits(track@, ps),
            bi <= blocks@.len(),
            forall|j: int|
                0 <= j < blocks@.len() ==> #[trigger] track@.contains_pair(
                    blocks@[j].base,
                    blocks@[j].size_in_bytes,
                ),
            forall|k: usize|
                track@.dom().contains(k) ==> exists|j: int|
                    0 <= j < blocks@.len() && #[trigger] blocks@[j].base == k,
            forall|a: usize|
                (exists|j: int|
                    0 <= j < bi && spec_align_down(#[trigger] blocks@[j].base, ps) <= a
                        < spec_align_up(
                        (blocks@[j].base + blocks@[j].size_in_bytes) as usize,
                        ps,
                    )) ==> page_covered(pages@, a, ps),
            forall|qi: int, a: usize|
                0 <= qi < pages@.len() && #[trigger] page_start_covers(pages@[qi], a, ps)
                    ==> spec_in_tracked_pages(track@, a, ps),
        decreases blocks@.len() - bi,
    {
        let b = blocks[bi];
        proof {
            assert(track@.contains_pair(b.base, b.size_in_bytes));
            crate::lemma_align_down_properties(b.base, ps);
            crate::lemma_align_up_properties((b.base + b.size_in_bytes) as usize, ps);
        }
        let start = align_down_to_page_size(b.base, ps);
        let end = align_up_to_page_size(b.base + b.size_in_bytes, ps);
        let mut p = start;
        proof {
            assert(start % ps == 0 && end % ps == 0 && start <= end);
            assert((end as int) % (ps as int) == 0 && (start as int) % (ps as int) == 0);
            vstd::arithmetic::div_mod::lemma_sub_mod_noop(end as int, start as int, ps as int);
            assert((0int - 0int) % (ps as int) == 0int) by (nonlinear_arith)
                requires
                    ps > 0,
            ;
            assert((end - start) % (ps as int) == 0);
        }
        while p < end
            invariant
                ps > 0,
                start <= p,
                p <= end,
                end <= usize::MAX,
                (p - start) % (ps as int) == 0,
                (end - start) % (ps as int) == 0,
                forall|a: usize| start <= a < p ==> page_covered(pages@, a, ps),
                forall|a: usize|
                    (exists|j: int|
                        0 <= j < bi && spec_align_down(#[trigger] blocks@[j].base, ps) <= a
                            < spec_align_up(
                            (blocks@[j].base + blocks@[j].size_in_bytes) as usize,
                            ps,
                        )) ==> page_covered(pages@, a, ps),
                forall|qi: int, a: usize|
                    0 <= qi < pages@.len() && #[trigger] page_start_covers(pages@[qi], a, ps)
                        ==> spec_in_tracked_pages(track@, a, ps),
                track@.dom().contains(b.base) && track@[b.base] == b.size_in_bytes,
                start == spec_align_down(b.base, ps),
                end == spec_align_up((b.base + b.size_in_bytes) as usize, ps),
            decreases end - p,
        {
            proof {
                assert(end - p >= ps) by (nonlinear_arith)
                    requires
                        ps > 0 && p < end && (p - start) % (ps as int) == 0 && (end - start) % (
                        ps as int) == 0 && start <= p,
                ;
            }
            let ghost pages_before = pages@;
            if !contains_page(&pages, p) {
                pages.push(p);
                proof {
                    assert(pages@[pages@.len() - 1] == p);
                    assert forall|qi: int, a: usize|
                        0 <= qi < pages@.len() && #[trigger] page_start_covers(
                            pages@[qi],
                            a,
                            ps,
                        ) implies spec_in_tracked_pages(track@, a, ps) by {
                        if qi == pages@.len() - 1 {
                            assert(start <= a < end);
                            assert(track@.dom().contains(b.base) && spec_align_down(b.base, ps)
                                <= a < spec_align_up((b.base + track@[b.base]) as usize, ps));
                        } else {
                            assert(pages_before[qi] == pages@[qi]);
                        }
                    }
                }
            }
            proof {
                assert(pages@.contains(p));
                let pi = choose|pi: int| 0 <= pi < pages@.len() && pages@[pi] == p;
                assert forall|a: usize| start <= a < p + ps implies page_covered(
                    pages@,
                    a,
                    ps,
                ) by {
                    if a < p {
                        assert(page_covered(pages_before, a, ps));
                        let qi = choose|qi: int|
                            0 <= qi < pages_before.len() && (#[trigger] pages_before[qi]) <= a
                                < pages_before[qi] + ps;
                        assert(pages@[qi] == pages_before[qi]);
                    } else {
                        assert(pages@[pi] <= a < pages@[pi] + ps);
                    }
                }
                assert forall|a: usize|
                    (exists|j: int|
                        0 <= j < bi && spec_align_down(#[trigger] blocks@[j].base, ps) <= a
                            < spec_align_up(
                            (blocks@[j].base + blocks@[j].size_in_bytes) as usize,
                            ps,
                        )) implies page_covered(pages@, a, ps) by {
                    assert(page_covered(pages_before, a, ps));
                    let qi = choose|qi: int|
                        0 <= qi < pages_before.len() && (#[trigger] pages_before[qi]) <= a
                            < pages_before[qi] + ps;
                    assert(pages@[qi] == pages_before[qi]);
                }
            }
            proof {
                vstd::arithmetic::div_mod::lemma_mod_add_multiples_vanish(
                    p - start,
                    ps as int,
                );
            }
            p += ps;
        }
        proof {
            assert forall|a: usize|
                (exists|j: int|
                    0 <= j < bi + 1 && spec_align_down(#[trigger] blocks@[j].base, ps) <= a
                        < spec_align_up(
                        (blocks@[j].base + blocks@[j].size_in_bytes) as usize,
                        ps,
                    )) implies page_covered(pages@, a, ps) by {
                let j = choose|j: int|
                    0 <= j < bi + 1 && spec_align_down(#[trigger] blocks@[j].base, ps) <= a
                        < spec_align_up((blocks@[j].base + blocks@[j].size_in_bytes) as usize, ps);
                if j == bi {
                    assert(start <= a < end);
                }
            }
        }
        bi += 1;
    }
    let mut cmds: Vec<ProtCmd> = Vec::new();
    let mut pi: usize = 0;
    while pi < pages.len()
        invariant
            ps > 0,
            pi <= pages@.len(),
            cmds@.len() == pi,
            forall|j: int|
                0 <= j < pi ==> #[trigger] cmds@[j] == (ProtCmd {
                    start: pages@[j],
                    len: ps,
                    perms,
                }),
            forall|qi: int, a: usize|
                0 <= qi < pages@.len() && #[trigger] page_start_covers(pages@[qi], a, ps)
                    ==> spec_in_tracked_pages(track@, a, ps),
        decreases pages@.len() - pi,
    {
        cmds.push(ProtCmd { start: pages[pi], len: ps, perms });
        pi += 1;
    }
    proof {
        assert forall|a: usize| spec_in_tracked_pages(track@, a, page_size) implies exists|i: int|
            0 <= i < cmds@.len() && cmd_covers(#[trigger] cmds@[i], a) by {
            let b = choose|b: usize|
                #[trigger] track@.dom().contains(b) && spec_align_down(b, ps) <= a < spec_align_up(
                    (b + track@[b]) as usize,
                    ps,
                );
            let j = choose|j: int| 0 <= j < blocks@.len() && #[trigger] blocks@[j].base == b;
            assert(track@.contains_pair(blocks@[j].base, blocks@[j].size_in_bytes));
            assert(blocks@[j].size_in_bytes == track@[b]);
            assert(page_covered(pages@, a, ps));
            let qi = choose|qi: int|
                0 <= qi < pages@.len() && (#[trigger] pages@[qi]) <= a < pages@[qi] + ps;
            assert(cmd_covers(cmds@[qi], a));
        }
        assert forall|i: int, a: usize|
            0 <= i < cmds@.len() && #[trigger] cmd_covers(cmds@[i], a) implies
            spec_in_tracked_pages(track@, a, page_size) by {
            assert(page_start_covers(pages@[i], a, ps));
        }
    }
    cmds
}

/// What a test list, run in insertion order, leaves of region contents
/// `s`: each test's interval outcome feeds the next.
pub open spec fn spec_tests_outcome(tests: Seq<IntervalTest>, s: Seq<u8>) -> Seq<u8>
    decreases tests.len(),
{
    if tests.len() == 0 {
        s
    } else {
        tests.last().spec_interval_outcome(spec_tests_outcome(tests.drop_last(), s))
    }
}

/// Position `k` holds the list's only compression test.
pub open spec fn spec_sole_compressor(tests: Seq<IntervalTest>, k: int) -> bool {
    &&& 0 <= k < tests.len()
    &&& tests[k] matches IntervalTest::Compress(_)
    &&& forall|j: int|
        0 <= j < tests.len() && j != k ==> !((#[trigger] tests[j]) matches IntervalTest::Compress(
            _,
        ))
}

/// The access situation in which the fault path's decompression is owed:
/// the list's only compression test holds the block compressed, and the
/// buffer is the in-place image of contents `s`.
pub open spec fn spec_compressed_access(
    tests: Seq<IntervalTest>,
    k: int,
    c: CompressAlloc,
    base: usize,
    buf: Seq<u8>,
    s: Seq<u8>,
) -> bool {
    &&& spec_sole_compressor(tests, k)
    &&& tests[k] == IntervalTest::Compress(c)
    &&& c.table().contains_key(base)
    &&& buf == c.algorithm().spec_in_place_image(s)
    &&& s.len() == buf.len()
    &&& c.table()[base] == c.algorithm().spec_compressed(s).len()
}

/// The scheduler: the time of the last interval, a counter of executed
/// intervals, and the
/// ordered test list.
pub struct IntervalSuite {
    last_interval: u64,
    total_intervals_executed: u64,
    tests: Vec<IntervalTest>,
}

impl IntervalSuite {
    /// The time of the last executed interval, in milliseconds.
    pub closed spec fn last(self) -> u64 {
        self.last_interval
    }

    /// How many intervals have executed.
    pub closed spec fn total(self) -> u64 {
        self.total_intervals_executed
    }

    /// The test list.
    pub closed spec fn spec_tests(self) -> Seq<IntervalTest> {
        self.tests@
    }

    /// Ready on the very first call, and afterwards exactly when
    /// `interval_ms` has passed since the last executed interval.
    pub open spec fn spec_ready(self, config: IntervalConfig, now_ms: u64) -> bool {
        self.total() == 0 || now_ms >= self.last() + config.interval_ms
    }

    pub fn new() -> (s: Self)
        ensures
            s.total() == 0,
            s.last() == 0,
            s.spec_tests() =~= Seq::<IntervalTest>::empty(),
    {
        IntervalSuite { last_interval: 0, total_intervals_executed: 0, tests: Vec::new() }
    }

    /// A suite preloaded with a test list.
    pub fn from_tests(tests: Vec<IntervalTest>) -> (s: Self)
        ensures
            s.total() == 0,
            s.last() == 0,
            s.spec_tests() == tests@,
    {
        IntervalSuite { last_interval: 0, total_intervals_executed: 0, tests }
    }

    /// Appends a test; it runs after all present ones.
    pub fn add_test(&mut self, test: IntervalTest)
        ensures
            final(self).total() == old(self).total(),
            final(self).last() == old(self).last(),
            final(self).spec_tests() == old(self).spec_tests().push(test),
    {
        self.tests.push(test);
    }

    /// The time of the last executed interval, for callers that must
    /// clamp a clock reading to it.
    pub fn last_interval_ms(&self) -> (r: u64)
        ensures
            r == self.last(),
    {
        self.last_interval
    }

    /// How many intervals have executed.
    pub fn total_intervals(&self) -> (r: u64)
        ensures
            r == self.total(),
    {
        self.total_intervals_executed
    }

    /// Whether the next call to `schedule` would run an interval now.
    pub fn is_ready(&self, config: &IntervalConfig, now_ms: u64) -> (r: bool)
        requires
            self.last() <= now_ms,
        ensures
            r == self.spec_ready(*config, now_ms),
    {
        if self.total_intervals_executed == 0 {
            return true;
        }
        let elapsed = now_ms - self.last_interval;
        elapsed >= config.interval_ms
    }

    /// Opens every page of every tracked region for reads and writes: the
    /// fence before an interval's callbacks run.
    pub fn unprotect_allocations(&self, track: &Track, page_size: usize) -> (cmds: Vec<ProtCmd>)
        requires
            track.wf(),
            page_size > 0,
            spec_track_fits(track@, page_size),
        ensures
            forall|a: usize|
                spec_in_tracked_pages(track@, a, page_size) ==> net_perm(cmds@, a) == Some(
                    Permissions { read: true, write: true, execute: false },
                ),
            forall|a: usize|
                !spec_in_tracked_pages(track@, a, page_size) ==> net_perm(cmds@, a) is None,
    {
        let cmds = fence_cmds(track, page_size, Permissions::read_write());
        proof {
            assert forall|a: usize| spec_in_tracked_pages(track@, a, page_size) implies net_perm(
                cmds@,
                a,
            ) == Some(Permissions { read: true, write: true, execute: false }) by {
                lemma_net_perm_uniform(
                    cmds@,
                    Permissions { read: true, write: true, execute: false },
                    a,
                );
            }
            assert forall|a: usize| !spec_in_tracked_pages(track@, a, page_size) implies net_perm(
                cmds@,
                a,
            ) is None by {
                crate::perms::lemma_net_perm_uncovered(cmds@, a);
            }
        }
        cmds
    }

    /// Revokes access to every page of every tracked region: the fence
    /// after an interval's callbacks ran.
    pub fn protect_allocations(&self, track: &Track, page_size: usize) -> (cmds: Vec<ProtCmd>)
        requires
            track.wf(),
            page_size > 0,
            spec_track_fits(track@, page_size),
        ensures
            forall|a: usize|
                spec_in_tracked_pages(track@, a, page_size) ==> net_perm(cmds@, a) == Some(
                    Permissions { read: false, write: false, execute: false },
                ),
            forall|i: int|
                0 <= i < cmds@.len() ==> (#[trigger] cmds@[i]).perms == (Permissions {
                    read: false,
                    write: false,
                    execute: false,
                }),
            forall|a: usize|
                !spec_in_tracked_pages(track@, a, page_size) ==> net_perm(cmds@, a) is None,
    {
        let cmds = fence_cmds(track, page_size, Permissions::none());
        proof {
            assert forall|a: usize| spec_in_tracked_pages(track@, a, page_size) implies net_perm(
                cmds@,
                a,
            ) == Some(Permissions { read: false, write: false, execute: false }) by {
                lemma_net_perm_uniform(
                    cmds@,
                    Permissions { read: false, write: false, execute: false },
                    a,
                );
            }
            assert forall|a: usize| !spec_in_tracked_pages(track@, a, page_size) implies net_perm(
                cmds@,
                a,
            ) is None by {
                crate::perms::lemma_net_perm_uncovered(cmds@, a);
            }
        }
        cmds
    }

    /// Runs the tests of one interval in order, in a buffer of region
    /// bytes, and removes the tests that report themselves done.
    fn run_tests(&mut self, mem: &mut Vec<RegionBytes>)
        requires
            forall|i: int, j: int|
                0 <= i < j < old(mem)@.len() ==> old(mem)@[i].block.base != old(mem)@[j].block.base,
        ensures
            final(self).total() == old(self).total(),
            final(self).last() == old(self).last(),
            final(self).spec_tests().len() == old(self).spec_tests().len(),
            forall|j: int|
                0 <= j < old(self).spec_tests().len() ==> IntervalTest::outcome_equiv(
                    #[trigger] final(self).spec_tests()[j],
                    old(self).spec_tests()[j],
                ),
            final(mem)@.len() == old(mem)@.len(),
            forall|i: int|
                0 <= i < old(mem)@.len() ==> #[trigger] final(mem)@[i].block == old(
                    mem,
                )@[i].block,
            forall|i: int|
                0 <= i < old(mem)@.len() ==> #[trigger] final(mem)@[i].bytes@.len() == old(
                    mem,
                )@[i].bytes@.len(),
            forall|i: int|
                0 <= i < old(mem)@.len() ==> #[trigger] final(mem)@[i].bytes@
                    == spec_tests_outcome(old(self).spec_tests(), old(mem)@[i].bytes@),
    {
        let n = self.tests.len();
        let mut ti: usize = 0;
        let mut to_remove: Vec<usize> = Vec::new();
        while ti < n
            invariant
                ti <= n,
                n == self.tests@.len(),
                n == old(self).spec_tests().len(),
                self.total() == old(self).total(),
                self.last() == old(self).last(),
                forall|j: int|
                    0 <= j < n ==> IntervalTest::outcome_equiv(
                        #[trigger] self.tests@[j],
                        old(self).spec_tests()[j],
                    ),
                mem@.len() == old(mem)@.len(),
                forall|i: int|
                    0 <= i < old(mem)@.len() ==> #[trigger] mem@[i].block == old(mem)@[i].block,
                forall|i: int|
                    0 <= i < old(mem)@.len() ==> #[trigger] mem@[i].bytes@.len() == old(
                        mem,
                    )@[i].bytes@.len(),
                forall|i: int|
                    0 <= i < old(mem)@.len() ==> #[trigger] mem@[i].bytes@ == spec_tests_outcome(
                        old(self).spec_tests().subrange(0, ti as int),
                        old(mem)@[i].bytes@,
                    ),
                forall|i: int, j: int|
                    0 <= i < j < old(mem)@.len() ==> old(mem)@[i].block.base != old(
                        mem,
                    )@[j].block.base,
                to_remove@.len() == 0,
            decreases n - ti,
        {
            let ghost tests_entry = self.tests@;
            let ghost mem_entry = mem@;
            let test = &mut self.tests[ti];
            test.on_interval(mem);
            if test.is_done() {
                to_remove.push(ti);
            }
            proof {
                let prefix = old(self).spec_tests().subrange(0, ti as int);
                let prefix1 = old(self).spec_tests().subrange(0, ti + 1);
                assert(prefix1.drop_last() =~= prefix);
                assert(prefix1.last() == old(self).spec_tests()[ti as int]);
                assert forall|i: int|
                    0 <= i < old(mem)@.len() implies #[trigger] mem@[i].bytes@
                    == spec_tests_outcome(prefix1, old(mem)@[i].bytes@) by {
                    assert(mem@[i].bytes@ == tests_entry[ti as int].spec_interval_outcome(
                        mem_entry[i].bytes@,
                    ));
                    assert(tests_entry[ti as int].spec_interval_outcome(mem_entry[i].bytes@)
                        == old(self).spec_tests()[ti as int].spec_interval_outcome(
                        mem_entry[i].bytes@,
                    ));
                }
                assert forall|j: int|
                    0 <= j < n implies IntervalTest::outcome_equiv(
                    #[trigger] self.tests@[j],
                    old(self).spec_tests()[j],
                ) by {
                    if j == ti {
                        assert(IntervalTest::outcome_equiv(
                            self.tests@[j],
                            tests_entry[j],
                        ));
                        assert forall|sq: Seq<u8>| (#[trigger] self.tests@[
                        j].spec_interval_outcome(sq)) == old(self).spec_tests()[
                        j].spec_interval_outcome(sq) by {
                            assert(self.tests@[j].spec_interval_outcome(sq) == tests_entry[
                            j].spec_interval_outcome(sq));
                        }
                    } else {
                        assert(self.tests@[j] == tests_entry[j]);
                    }
                }
            }
            ti += 1;
        }
        proof {
            assert(old(self).spec_tests().subrange(0, n as int) =~= old(self).spec_tests());
        }
        // none of the built-in tests ever reports itself done, so the
        // deferred-removal list stays empty and the list survives whole
        while to_remove.len() > 0
            invariant
                to_remove@.len() == 0,
                n == self.tests@.len(),
                n == old(self).spec_tests().len(),
                self.total() == old(self).total(),
                self.last() == old(self).last(),
                forall|j: int|
                    0 <= j < n ==> IntervalTest::outcome_equiv(
                        #[trigger] self.tests@[j],
                        old(self).spec_tests()[j],
                    ),
                mem@.len() == old(mem)@.len(),
                forall|i: int|
                    0 <= i < old(mem)@.len() ==> #[trigger] mem@[i].block == old(mem)@[i].block,
                forall|i: int|
                    0 <= i < old(mem)@.len() ==> #[trigger] mem@[i].bytes@.len() == old(
                        mem,
                    )@[i].bytes@.len(),
                forall|i: int|
                    0 <= i < old(mem)@.len() ==> #[trigger] mem@[i].bytes@ == spec_tests_outcome(
                        old(self).spec_tests(),
                        old(mem)@[i].bytes@,
                    ),
            decreases to_remove@.len(),
        {
            let idx = match to_remove.pop() {
                Some(i) => i,
                None => {
                    return ;
                },
            };
            self.tests.remove(idx);
        }
    }

    /// One scheduling decision. When an interval is due it runs: the
    /// counter advances, the next interval is due `interval_ms` later, the
    /// fences bracket the tests, and every page of every tracked region
    /// nets out protected. When none is due, nothing changes and no
    /// command is issued.
    pub fn schedule(
        &mut self,
        config: &IntervalConfig,
        now_ms: u64,
        track: &Track,
        page_size: usize,
        mem: &mut Vec<RegionBytes>,
    ) -> (r: (bool, Vec<ProtCmd>))
        requires
            old(self).last() <= now_ms,
            old(self).total() < u64::MAX,
            track.wf(),
            page_size > 0,
            spec_track_fits(track@, page_size),
            forall|i: int, j: int|
                0 <= i < j < old(mem)@.len() ==> old(mem)@[i].block.base != old(mem)@[j].block.base,
        ensures
            r.0 == old(self).spec_ready(*config, now_ms),
            !r.0 ==> *final(self) == *old(self) && final(mem)@ == old(mem)@ && r.1@.len() == 0,
            r.0 ==> final(self).total() == old(self).total() + 1 && final(self).last() == now_ms,
            r.0 ==> final(self).spec_tests().len() == old(self).spec_tests().len() && (forall|
                j: int,
            |
                0 <= j < old(self).spec_tests().len() ==> IntervalTest::outcome_equiv(
                    #[trigger] final(self).spec_tests()[j],
                    old(self).spec_tests()[j],
                )),
            r.0 ==> forall|i: int|
                0 <= i < old(mem)@.len() ==> #[trigger] final(mem)@[i].bytes@
                    == spec_tests_outcome(old(self).spec_tests(), old(mem)@[i].bytes@),
            r.0 ==> forall|a: usize|
                spec_in_tracked_pages(track@, a, page_size) ==> net_perm(r.1@, a) == Some(
                    Permissions { read: false, write: false, execute: false },
                ),
            forall|a: usize| !spec_in_tracked_pages(track@, a, page_size) ==> net_perm(r.1@, a)
                is None,
            final(mem)@.len() == old(mem)@.len(),
            forall|i: int|
                0 <= i < old(mem)@.len() ==> #[trigger] final(mem)@[i].block == old(
                    mem,
                )@[i].block,
    {
        if !self.is_ready(config, now_ms) {
            return (false, Vec::new());
        }
        self.total_intervals_executed = self.total_intervals_executed + 1;
        let mut cmds = self.unprotect_allocations(track, page_size);
        self.last_interval = now_ms;
        self.run_tests(mem);
        let mut post = self.protect_allocations(track, page_size);
        let ghost pre_seq = cmds@;
        let ghost post_seq = post@;
        cmds.append(&mut post);
        proof {
            assert forall|a: usize| spec_in_tracked_pages(track@, a, page_size) implies net_perm(
                cmds@,
                a,
            ) == Some(Permissions { read: false, write: false, execute: false }) by {
                lemma_net_perm_append(pre_seq, post_seq, a);
            }
            assert forall|a: usize| !spec_in_tracked_pages(track@, a, page_size) implies net_perm(
                cmds@,
                a,
            ) is None by {
                lemma_net_perm_append(pre_seq, post_seq, a);
            }
        }
        (true, cmds)
    }

    /// The fence around one allocation event: open the new block's pages,
    /// let every test take note, close them again. The block's pages net
    /// out protected.
    pub fn on_alloc(&mut self, alloc: &Block, page_size: usize) -> (cmds: Vec<ProtCmd>)
        requires
            page_size > 0,
            alloc.fits(page_size),
        ensures
            final(self).total() == old(self).total(),
            final(self).last() == old(self).last(),
            final(self).spec_tests() == old(self).spec_tests(),
            forall|a: usize|
                alloc.base <= a < alloc.base + alloc.size_in_bytes ==> net_perm(cmds@, a) == Some(
                    Permissions { read: false, write: false, execute: false },
                ),
    {
        let mut cmds: Vec<ProtCmd> = Vec::new();
        cmds.push(alloc.unprotect(page_size));
        let n = self.tests.len();
        let mut ti: usize = 0;
        while ti < n
            invariant
                ti <= n,
                n == self.tests@.len(),
                self.total() == old(self).total(),
                self.last() == old(self).last(),
                self.spec_tests() =~= old(self).spec_tests(),
            decreases n - ti,
        {
            let ghost tests_before = self.tests@;
            let test = &mut self.tests[ti];
            test.on_alloc(alloc);
            proof {
                assert(self.tests@ =~= tests_before);
            }
            ti += 1;
        }
        cmds.push(alloc.protect(page_size));
        proof {
            assert forall|a: usize|
                alloc.base <= a < alloc.base + alloc.size_in_bytes implies net_perm(cmds@, a)
                == Some(Permissions { read: false, write: false, execute: false }) by {
                assert(cmd_covers(cmds@.last(), a));
            }
        }
        cmds
    }

    /// The fence around one deallocation event.
    pub fn on_dealloc(&mut self, dealloc: &Block, page_size: usize) -> (cmds: Vec<ProtCmd>)
        requires
            page_size > 0,
            dealloc.fits(page_size),
        ensures
            final(self).total() == old(self).total(),
            final(self).last() == old(self).last(),
            final(self).spec_tests() == old(self).spec_tests(),
            forall|a: usize|
                dealloc.base <= a < dealloc.base + dealloc.size_in_bytes ==> net_perm(cmds@, a)
                    == Some(Permissions { read: false, write: false, execute: false }),
    {
        let mut cmds: Vec<ProtCmd> = Vec::new();
        cmds.push(dealloc.unprotect(page_size));
        let n = self.tests.len();
        let mut ti: usize = 0;
        while ti < n
            invariant
                ti <= n,
                n == self.tests@.len(),
                self.total() == old(self).total(),
                self.last() == old(self).last(),
                self.spec_tests() =~= old(self).spec_tests(),
            decreases n - ti,
        {
            let ghost tests_before = self.tests@;
            let test = &mut self.tests[ti];
            test.on_dealloc(dealloc);
            proof {
                assert(self.tests@ =~= tests_before);
            }
            ti += 1;
        }
        cmds.push(dealloc.protect(page_size));
        proof {
            assert forall|a: usize|
                dealloc.base <= a < dealloc.base + dealloc.size_in_bytes implies net_perm(cmds@, a)
                == Some(Permissions { read: false, write: false, execute: false }) by {
                assert(cmd_covers(cmds@.last(), a));
            }
        }
        cmds
    }

    /// The fence around one write notification.
    pub fn on_write(&mut self, block: &Block, page_size: usize) -> (cmds: Vec<ProtCmd>)
        requires
            page_size > 0,
            block.fits(page_size),
        ensures
            final(self).total() == old(self).total(),
            final(self).last() == old(self).last(),
            final(self).spec_tests() == old(self).spec_tests(),
            forall|a: usize|
                block.base <= a < block.base + block.size_in_bytes ==> net_perm(cmds@, a) == Some(
                    Permissions { read: false, write: false, execute: false },
                ),
    {
        let mut cmds: Vec<ProtCmd> = Vec::new();
        cmds.push(block.unprotect(page_size));
        let n = self.tests.len();
        let mut ti: usize = 0;
        while ti < n
            invariant
                ti <= n,
                n == self.tests@.len(),
                self.total() == old(self).total(),
                self.last() == old(self).last(),
                self.spec_tests() =~= old(self).spec_tests(),
            decreases n - ti,
        {
            let ghost tests_before = self.tests@;
            let test = &mut self.tests[ti];
            test.on_write(block);
            proof {
                assert(self.tests@ =~= tests_before);
            }
            ti += 1;
        }
        cmds.push(block.protect(page_size));
        proof {
            assert forall|a: usize|
                block.base <= a < block.base + block.size_in_bytes implies net_perm(cmds@, a)
                == Some(Permissions { read: false, write: false, execute: false }) by {
                assert(cmd_covers(cmds@.last(), a));
            }
        }
        cmds
    }

    /// The fence around one read notification.
    pub fn on_read(&mut self, block: &Block, page_size: usize) -> (cmds: Vec<ProtCmd>)
        requires
            page_size > 0,
            block.fits(page_size),
        ensures
            final(self).total() == old(self).total(),
            final(self).last() == old(self).last(),
            final(self).spec_tests() == old(self).spec_tests(),
            forall|a: usize|
                block.base <= a < block.base + block.size_in_bytes ==> net_perm(cmds@, a) == Some(
                    Permissions { read: false, write: false, execute: false },
                ),
    {
        let mut cmds: Vec<ProtCmd> = Vec::new();
        cmds.push(block.unprotect(page_size));
        let n = self.tests.len();
        let mut ti: usize = 0;
        while ti < n
            invariant
                ti <= n,
                n == self.tests@.len(),
                self.total() == old(self).total(),
                self.last() == old(self).last(),
                self.spec_tests() =~= old(self).spec_tests(),
            decreases n - ti,
        {
            let ghost tests_before = self.tests@;
            let test = &mut self.tests[ti];
            test.on_read(block);
            proof {
                assert(self.tests@ =~= tests_before);
            }
            ti += 1;
        }
        cmds.push(block.protect(page_size));
        proof {
            assert forall|a: usize|
                block.base <= a < block.base + block.size_in_bytes implies net_perm(cmds@, a)
                == Some(Permissions { read: false, write: false, execute: false }) by {
                assert(cmd_covers(cmds@.last(), a));
            }
        }
        cmds
    }

    /// The fence around one access event: open the block, hand its bytes
    /// to every test — the compression test restores a compressed block —
    /// then close the block again. The fault path afterwards re-opens the
    /// one faulting page.
    pub fn on_access(
        &mut self,
        block: &Block,
        is_write: bool,
        bytes: &mut Vec<u8>,
        page_size: usize,
    ) -> (r: (bool, Vec<ProtCmd>))
        requires
            page_size > 0,
            block.fits(page_size),
        ensures
            final(self).total() == old(self).total(),
            final(self).last() == old(self).last(),
            final(bytes)@.len() == old(bytes)@.len(),
            forall|a: usize|
                block.base <= a < block.base + block.size_in_bytes ==> net_perm(r.1@, a) == Some(
                    Permissions { read: false, write: false, execute: false },
                ),
            forall|k: int, c: CompressAlloc, s: Seq<u8>|
                #[trigger] spec_compressed_access(
                    old(self).spec_tests(),
                    k,
                    c,
                    block.base,
                    old(bytes)@,
                    s,
                ) ==> r.0 && final(bytes)@ == s,
    {
        let mut cmds: Vec<ProtCmd> = Vec::new();
        cmds.push(block.unprotect(page_size));
        let n = self.tests.len();
        let mut ti: usize = 0;
        let mut restored = false;
        while ti < n
            invariant
                ti <= n,
                n == self.tests@.len(),
                n == old(self).spec_tests().len(),
                self.total() == old(self).total(),
                self.last() == old(self).last(),
                bytes@.len() == old(bytes)@.len(),
                forall|j: int|
                    0 <= j < n && !((#[trigger] old(self).spec_tests()[j]) matches
                        IntervalTest::Compress(_)) ==> self.tests@[j] == old(self).spec_tests()[j],
                forall|k: int, c: CompressAlloc, s: Seq<u8>|
                    #[trigger] spec_compressed_access(
                        old(self).spec_tests(),
                        k,
                        c,
                        block.base,
                        old(bytes)@,
                        s,
                    ) ==> (if ti <= k {
                        bytes@ == old(bytes)@ && !restored && self.tests@[k] == old(
                            self,
                        ).spec_tests()[k]
                    } else {
                        bytes@ == s && restored
                    }),
            decreases n - ti,
        {
            let ghost tests_entry = self.tests@;
            let ghost bytes_entry = bytes@;
            let ghost restored_entry = restored;
            let test = &mut self.tests[ti];
            if test.on_access(block, is_write, bytes) {
                restored = true;
            }
            if is_write {
                test.on_write(block);
            } else {
                test.on_read(block);
            }
            proof {
                assert forall|j: int|
                    0 <= j < n && !((#[trigger] old(self).spec_tests()[j]) matches
                        IntervalTest::Compress(_)) implies self.tests@[j] == old(
                    self,
                ).spec_tests()[j] by {
                    if j == ti {
                        assert(!(tests_entry[j] matches IntervalTest::Compress(_)));
                    } else {
                        assert(self.tests@[j] == tests_entry[j]);
                    }
                }
                assert forall|k: int, c: CompressAlloc, s: Seq<u8>|
                    #[trigger] spec_compressed_access(
                        old(self).spec_tests(),
                        k,
                        c,
                        block.base,
                        old(bytes)@,
                        s,
                    ) implies (if ti + 1 <= k {
                    bytes@ == old(bytes)@ && !restored && self.tests@[k] == old(
                        self,
                    ).spec_tests()[k]
                } else {
                    bytes@ == s && restored
                }) by {
                    if ti < k {
                        assert(!(old(self).spec_tests()[ti as int] matches IntervalTest::Compress(
                            _,
                        )));
                        assert(tests_entry[ti as int] == old(self).spec_tests()[ti as int]);
                        assert(bytes@ == bytes_entry && !restored);
                        assert(self.tests@[k] == tests_entry[k]);
                    } else if ti == k {
                        assert(tests_entry[ti as int] == IntervalTest::Compress(c));
                        assert(bytes_entry == c.algorithm().spec_in_place_image(s));
                        assert(bytes@ == s && restored);
                    } else {
                        assert(bytes_entry == s && restored_entry);
                        assert(!(old(self).spec_tests()[ti as int] matches IntervalTest::Compress(
                            _,
                        )));
                        assert(tests_entry[ti as int] == old(self).spec_tests()[ti as int]);
                        assert(bytes@ == bytes_entry);
                    }
                }
            }
            ti += 1;
        }
        cmds.push(block.protect(page_size));
        proof {
            assert forall|a: usize|
                block.base <= a < block.base + block.size_in_bytes implies net_perm(cmds@, a)
                == Some(Permissions { read: false, write: false, execute: false }) by {
                assert(cmd_covers(cmds@.last(), a));
            }
        }
        (restored, cmds)
    }
}

/// Scheduling is idempotent across time: once an interval has executed at
/// `t`, none is due at any instant before `t + interval_ms`, so a second
/// call within the interval executes nothing.
pub proof fn lemma_schedule_idempotent(
    s: IntervalSuite,
    config: IntervalConfig,
    t: u64,
    t2: u64,
)
    requires
        s.total() >= 1,
        s.last() == t,
        t <= t2 < t + config.interval_ms,
    ensures
        !s.spec_ready(config, t2),
{
}

} // verus!
