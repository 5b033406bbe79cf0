//! The allocator hook logic and the fault path's decisions.
//!
//! The process-level shell owns the exported `malloc`/`free`/`mmap`/`munmap`
//! symbols and the signal handler; everything those have to decide — the
//! reentry guard, registration, scheduling, fault classification and which
//! page to re-open — lives here, over a [`HookState`] the shell keeps under
//! its lock. Functions that change page protection return the commands to
//! apply, in order.
use vstd::prelude::*;

use crate::config::UNPROTECT_READ_WRITE_ON_FAULT;
use crate::interval::suite::spec_track_fits;
use crate::interval::{IntervalConfig, IntervalSuite, RegionBytes};
use crate::perms::{cmd_covers, net_perm, Permissions, ProtCmd};
use crate::track::{Block, Track};
use crate::spec_align_down;

verus! {

/// The fault handler saw `SEGV_MAPERR`: the address is not mapped.
pub const SEGV_MAPERR: i32 = 1;

/// The fault handler saw `SEGV_ACCERR`: the access violated permissions.
pub const SEGV_ACCERR: i32 = 2;

/// How a faulting instruction touched memory.
#[derive(Clone, Copy, PartialEq, Eq, Structural, Debug)]
pub enum FaultAccess {
    Read,
    Write,
}

/// What the aarch64 instruction word at the faulting program counter says:
/// the load encodings mean a read, the store encodings a write, anything
/// else is unknown and treated as a read by the caller.
pub open spec fn spec_detect_faulting_operation(instr: u32) -> Option<FaultAccess> {
    if (instr & 0xFFC00000u32) == 0xB9400000u32 || (instr & 0xFFC00000u32) == 0x39400000u32 || (
    instr & 0xFFC00000u32) == 0x79400000u32 {
        Some(FaultAccess::Read)
    } else if (instr & 0xFFC00000u32) == 0xB9000000u32 || (instr & 0xFFC00000u32) == 0x39000000u32
        || (instr & 0xFFC00000u32) == 0x79000000u32 {
        Some(FaultAccess::Write)
    } else {
        None
    }
}

/// Classifies an aarch64 instruction word as the load or store that
/// faulted: `LDR`/`LDRB`/`LDRH` patterns read, `STR`/`STRB`/`STRH` patterns
/// write, unrecognized encodings are unknown.
pub fn detect_faulting_operation(instr: u32) -> (r: Option<FaultAccess>)
    ensures
        r == spec_detect_faulting_operation(instr),
{
    let masked = instr & 0xFFC00000;
    if masked == 0xB9400000 || masked == 0x39400000 || masked == 0x79400000 {
        Some(FaultAccess::Read)
    } else if masked == 0xB9000000 || masked == 0x39000000 || masked == 0x79000000 {
        Some(FaultAccess::Write)
    } else {
        None
    }
}

/// Classifies the first opcode byte at the faulting instruction pointer on
/// x86-64: `0x8B` moves memory to a register (a read), `0x89` a register to
/// memory (a write).
pub fn detect_faulting_operation_x86(opcode: u8) -> (r: Option<FaultAccess>)
    ensures
        opcode == 0x8B ==> r == Some(FaultAccess::Read),
        opcode == 0x89 ==> r == Some(FaultAccess::Write),
        opcode != 0x8B && opcode != 0x89 ==> r is None,
{
    if opcode == 0x8B {
        Some(FaultAccess::Read)
    } else if opcode == 0x89 {
        Some(FaultAccess::Write)
    } else {
        None
    }
}

/// Whether the saved x86-64 page-fault error code marks the access as a
/// write: bit 1 is the write bit.
pub fn is_write_fault_x86(error_code: u64) -> (r: bool)
    ensures
        r == ((error_code & 0x2u64) != 0u64),
{
    error_code & 0x2 != 0
}

/// What a hook entry decided: forward straight to the original symbol, or
/// proceed with tracking while holding the guard.
#[derive(Clone, Copy, PartialEq, Eq, Structural, Debug)]
pub enum HookEntry {
    Forward,
    Proceed,
}

/// What the registry said about a new allocation.
#[derive(Clone, Copy, PartialEq, Eq, Structural, Debug)]
pub enum RegisterOutcome {
    Fresh,
    Replaced,
    RegistryFull,
}

/// The reentry guard's transition: a raised guard forwards and changes
/// nothing, a lowered one is raised and the caller proceeds.
pub open spec fn spec_enter_hook(s: HookState) -> (HookState, HookEntry) {
    if s.in_hook {
        (s, HookEntry::Forward)
    } else {
        (HookState { in_hook: true, ..s }, HookEntry::Proceed)
    }
}

/// The command that sets the one page containing `addr` to `perms`.
pub fn page_cmd(addr: usize, page_size: usize, perms: Permissions) -> (c: ProtCmd)
    requires
        page_size > 0,
        spec_align_down(addr, page_size) + page_size <= usize::MAX,
    ensures
        c.start == spec_align_down(addr, page_size),
        c.len == page_size,
        c.perms == perms,
        cmd_covers(c, addr),
{
    proof {
        crate::lemma_align_down_properties(addr, page_size);
    }
    let start = crate::align_down_to_page_size(addr, page_size);
    ProtCmd { start, len: page_size, perms }
}

/// The process-wide state every hook and the fault handler share: the
/// allocation registry (tracking starts lazily), the interval test suite,
/// and the reentry flag, which holds while any hooked entry point or the
/// fault handler is on stack.
pub struct HookState {
    pub track: Option<Track>,
    pub suite: IntervalSuite,
    pub in_hook: bool,
}

impl HookState {
    /// The registry is well-formed whenever it exists.
    pub open spec fn wf(self) -> bool {
        match self.track {
            Some(t) => t.wf(),
            None => true,
        }
    }

    /// The registry's contents, empty until tracking starts.
    pub open spec fn spec_allocations(self) -> Map<usize, usize> {
        match self.track {
            Some(t) => t@,
            None => Map::<usize, usize>::empty(),
        }
    }

    pub fn new(suite: IntervalSuite) -> (s: Self)
        ensures
            s.track is None,
            !s.in_hook,
            s.suite == suite,
            s.wf(),
    {
        HookState { track: None, suite, in_hook: false }
    }

    /// Starts tracking if it has not started; an existing registry is kept
    /// as it is.
    pub fn init_tracking(&mut self)
        requires
            old(self).wf(),
        ensures
            final(self).wf(),
            final(self).track is Some,
            old(self).track is Some ==> *final(self) == *old(self),
            old(self).track is None ==> final(self).spec_allocations() == Map::<
                usize,
                usize,
            >::empty() && final(self).suite == old(self).suite && final(self).in_hook == old(self).in_hook,
    {
        if self.track.is_none() {
            self.track = Some(Track::new());
        }
    }

    /// Raises the reentry guard if it is down; reports whether the caller
    /// may proceed with tracking. A raised guard means some hook is already
    /// on stack: the caller must forward to the original symbol and touch
    /// nothing, which is exactly what the returned decision says.
    pub fn enter_hook(&mut self) -> (r: HookEntry)
        ensures
            (*final(self), r) == spec_enter_hook(*old(self)),
            old(self).in_hook ==> r == HookEntry::Forward && *final(self) == *old(self),
            !old(self).in_hook ==> r == HookEntry::Proceed && final(self).in_hook && final(self).track == old(self).track && final(self).suite == old(self).suite,
    {
        if self.in_hook {
            HookEntry::Forward
        } else {
            self.in_hook = true;
            HookEntry::Proceed
        }
    }

    /// Whether some hook or the fault handler is on stack.
    pub fn is_in_hook(&self) -> (r: bool)
        ensures
            r == self.in_hook,
    {
        self.in_hook
    }

    /// Lowers the reentry guard; everything else stays.
    pub fn exit_hook(&mut self)
        ensures
            !final(self).in_hook,
            final(self).track == old(self).track,
            final(self).suite == old(self).suite,
    {
        self.in_hook = false;
    }

    /// Registers a fresh allocation, starting tracking if needed. A full
    /// registry is reported and changes nothing — the caller still returns
    /// the pointer to the user; a base already tracked is replaced and
    /// reported.
    pub fn track_allocation(&mut self, ptr: usize, size: usize) -> (r: RegisterOutcome)
        requires
            old(self).wf(),
            ptr + size <= usize::MAX,
            forall|b: usize| #[trigger]
                old(self).spec_allocations().dom().contains(b) && b != ptr ==> b + old(self).spec_allocations()[b] <= ptr || ptr + size <= b,
        ensures
            final(self).wf(),
            final(self).suite == old(self).suite,
            final(self).in_hook == old(self).in_hook,
            final(self).track is Some,
            match r {
                RegisterOutcome::Fresh => !old(self).spec_allocations().dom().contains(ptr)
                    && final(self).spec_allocations() == old(self).spec_allocations().insert(
                    ptr,
                    size,
                ),
                RegisterOutcome::Replaced => old(self).spec_allocations().dom().contains(ptr)
                    && final(self).spec_allocations() == old(self).spec_allocations().insert(
                    ptr,
                    size,
                ),
                RegisterOutcome::RegistryFull => final(self).spec_allocations() == old(self).spec_allocations() && old(self).spec_allocations().dom().len()
                    == crate::config::MAX_TRACKED_ALLOCATIONS && !old(
                    self,
                ).spec_allocations().dom().contains(ptr),
            },
    {
        self.init_tracking();
        let track = match &mut self.track {
            Some(t) => t,
            None => {
                proof {
                    assert(false);
                }
                return RegisterOutcome::RegistryFull;
            },
        };
        match track.insert(Block::new(ptr, size)) {
            Ok(true) => RegisterOutcome::Replaced,
            Ok(false) => RegisterOutcome::Fresh,
            Err(_) => RegisterOutcome::RegistryFull,
        }
    }

    /// The tracked region owning `ptr`, if any.
    pub fn get_tracked_allocation(&mut self, ptr: usize) -> (r: Option<Block>)
        requires
            old(self).wf(),
        ensures
            final(self).wf(),
            final(self).suite == old(self).suite,
            final(self).in_hook == old(self).in_hook,
            final(self).spec_allocations() == old(self).spec_allocations(),
            r == (match final(self).track {
                Some(t) => t.spec_get(ptr),
                None => None::<Block>,
            }),
    {
        self.init_tracking();
        match &self.track {
            Some(t) => t.get(ptr),
            None => None,
        }
    }

    /// Deregisters the allocation based at `ptr`; an untracked base is an
    /// error and changes nothing.
    pub fn track_deallocation(&mut self, ptr: usize) -> (r: Result<Block, ()>)
        requires
            old(self).wf(),
        ensures
            final(self).wf(),
            final(self).track is Some,
            final(self).suite == old(self).suite,
            final(self).in_hook == old(self).in_hook,
            final(self).spec_allocations() == old(self).spec_allocations().remove(ptr),
            match r {
                Ok(b) => old(self).spec_allocations().dom().contains(ptr) && b == (Block {
                    base: ptr,
                    size_in_bytes: old(self).spec_allocations()[ptr],
                }),
                Err(()) => !old(self).spec_allocations().dom().contains(ptr),
            },
    {
        self.init_tracking();
        let track = match &mut self.track {
            Some(t) => t,
            None => {
                proof {
                    assert(false);
                }
                return Err(());
            },
        };
        let r = track.remove_ptr(ptr);
        proof {
            assert(self.spec_allocations() =~= old(self).spec_allocations().remove(ptr));
        }
        r
    }

    /// The tracking work of one `malloc` after the original allocator
    /// returned `ptr`: register the span, let the tests see the
    /// allocation, give the scheduler its chance, and protect the new
    /// region's pages. Whatever the registry said — full registries only
    /// log — every page of the new region nets out inaccessible, so the
    /// first touch traps.
    pub fn on_malloc(
        &mut self,
        ptr: usize,
        size: usize,
        config: &IntervalConfig,
        now_ms: u64,
        page_size: usize,
        mem: &mut Vec<RegionBytes>,
    ) -> (r: (RegisterOutcome, Vec<ProtCmd>))
        requires
            old(self).wf(),
            old(self).in_hook,
            page_size > 0,
            ptr + size + page_size - 1 <= usize::MAX,
            spec_track_fits(old(self).spec_allocations(), page_size),
            forall|b: usize| #[trigger]
                old(self).spec_allocations().dom().contains(b) && b != ptr ==> b + old(self).spec_allocations()[b] <= ptr || ptr + size <= b,
            old(self).suite.last() <= now_ms,
            old(self).suite.total() < u64::MAX,
            forall|i: int, j: int|
                0 <= i < j < old(mem)@.len() ==> old(mem)@[i].block.base != old(mem)@[j].block.base,
        ensures
            final(self).wf(),
            final(self).in_hook,
            match r.0 {
                RegisterOutcome::Fresh => !old(self).spec_allocations().dom().contains(ptr)
                    && final(self).spec_allocations() == old(self).spec_allocations().insert(
                    ptr,
                    size,
                ),
                RegisterOutcome::Replaced => old(self).spec_allocations().dom().contains(ptr)
                    && final(self).spec_allocations() == old(self).spec_allocations().insert(
                    ptr,
                    size,
                ),
                RegisterOutcome::RegistryFull => final(self).spec_allocations() == old(self).spec_allocations() && old(self).spec_allocations().dom().len()
                    == crate::config::MAX_TRACKED_ALLOCATIONS && !old(
                    self,
                ).spec_allocations().dom().contains(ptr),
            },
            forall|a: usize|
                spec_align_down(ptr, page_size) <= a < crate::spec_align_up(
                    (ptr + size) as usize,
                    page_size,
                ) ==> net_perm(r.1@, a) == Some(
                    Permissions { read: false, write: false, execute: false },
                ),
    {
        let block = Block::new(ptr, size);
        let outcome = self.track_allocation(ptr, size);
        let mut cmds = self.suite.on_alloc(&block, page_size);
        let track = match &self.track {
            Some(t) => t,
            None => {
                return (outcome, cmds);
            },
        };
        proof {
            assert forall|b: usize| #[trigger] track@.dom().contains(b) implies b + track@[b]
                + page_size - 1 <= usize::MAX by {
                if b != ptr || !(final(self).spec_allocations() == old(self).spec_allocations().insert(ptr, size)) {
                }
            }
        }
        let (_, mut sched_cmds) = self.suite.schedule(config, now_ms, track, page_size, mem);
        let ghost cmds0 = cmds@;
        let ghost sched_seq = sched_cmds@;
        cmds.append(&mut sched_cmds);
        let close = block.protect(page_size);
        cmds.push(close);
        proof {
            assert forall|a: usize|
                spec_align_down(ptr, page_size) <= a < crate::spec_align_up(
                    (ptr + size) as usize,
                    page_size,
                ) implies net_perm(cmds@, a) == Some(
                Permissions { read: false, write: false, execute: false },
            ) by {
                assert(cmd_covers(cmds@.last(), a));
            }
        }
        (outcome, cmds)
    }

    /// The tracking work of one `free` before the pointer is handed to the
    /// original: deregister the span, let the tests see the deallocation,
    /// and give the scheduler its chance. Freeing an untracked pointer is
    /// only logged and leaves the registry as it was.
    pub fn on_free(
        &mut self,
        ptr: usize,
        config: &IntervalConfig,
        now_ms: u64,
        page_size: usize,
        mem: &mut Vec<RegionBytes>,
    ) -> (r: (Option<Block>, Vec<ProtCmd>))
        requires
            old(self).wf(),
            old(self).in_hook,
            page_size > 0,
            spec_track_fits(old(self).spec_allocations(), page_size),
            old(self).suite.last() <= now_ms,
            old(self).suite.total() < u64::MAX,
            forall|i: int, j: int|
                0 <= i < j < old(mem)@.len() ==> old(mem)@[i].block.base != old(mem)@[j].block.base,
        ensures
            final(self).wf(),
            final(self).in_hook,
            final(self).spec_allocations() == old(self).spec_allocations().remove(ptr),
            match r.0 {
                Some(b) => old(self).spec_allocations().dom().contains(ptr) && b == (Block {
                    base: ptr,
                    size_in_bytes: old(self).spec_allocations()[ptr],
                }),
                None => !old(self).spec_allocations().dom().contains(ptr) && final(self).spec_allocations() == old(self).spec_allocations(),
            },
            (r.0 matches Some(b) ==> forall|a: usize|
                b.base <= a < b.base + b.size_in_bytes ==> net_perm(r.1@, a) == Some(
                    Permissions { read: false, write: false, execute: false },
                )),
    {
        let removed = self.track_deallocation(ptr);
        let mut cmds: Vec<ProtCmd> = Vec::new();
        let ghost mut fence_seq = Seq::<ProtCmd>::empty();
        let found = match removed {
            Ok(block) => {
                let mut fence = self.suite.on_dealloc(&block, page_size);
                proof {
                    fence_seq = fence@;
                }
                cmds.append(&mut fence);
                proof {
                    assert(cmds@ =~= fence_seq);
                }
                Some(block)
            },
            Err(()) => {
                proof {
                    assert(self.spec_allocations() =~= old(self).spec_allocations());
                }
                None
            },
        };
        let track = match &self.track {
            Some(t) => t,
            None => {
                proof {
                    assert(false);
                }
                return (found, cmds);
            },
        };
        proof {
            assert forall|b: usize| #[trigger] track@.dom().contains(b) implies b + track@[b]
                + page_size - 1 <= usize::MAX by {
                assert(old(self).spec_allocations().dom().contains(b));
            }
        }
        let ghost track_view = track@;
        let (executed, mut sched_cmds) = self.suite.schedule(config, now_ms, track, page_size, mem);
        let ghost sched_seq = sched_cmds@;
        cmds.append(&mut sched_cmds);
        if let Some(b) = found {
            proof {
                assert(cmds@ =~= fence_seq + sched_seq);
                assert forall|a: usize|
                    b.base <= a < b.base + b.size_in_bytes implies net_perm(cmds@, a) == Some(
                    Permissions { read: false, write: false, execute: false },
                ) by {
                    crate::perms::lemma_net_perm_append(fence_seq, sched_seq, a);
                    if net_perm(sched_seq, a) is Some {
                        assert(crate::interval::suite::spec_in_tracked_pages(
                            track_view,
                            a,
                            page_size,
                        ));
                        assert(executed);
                    } else {
                        assert(net_perm(fence_seq, a) == Some(
                            Permissions { read: false, write: false, execute: false },
                        ));
                    }
                }
            }
        }
        (found, cmds)
    }

    /// The tracking work of one `mmap` after the original returned a real
    /// mapping; the decisions are those of `malloc`.
    pub fn on_mmap(
        &mut self,
        ptr: usize,
        length: usize,
        config: &IntervalConfig,
        now_ms: u64,
        page_size: usize,
        mem: &mut Vec<RegionBytes>,
    ) -> (r: (RegisterOutcome, Vec<ProtCmd>))
        requires
            old(self).wf(),
            old(self).in_hook,
            page_size > 0,
            ptr + length + page_size - 1 <= usize::MAX,
            spec_track_fits(old(self).spec_allocations(), page_size),
            forall|b: usize| #[trigger]
                old(self).spec_allocations().dom().contains(b) && b != ptr ==> b + old(self).spec_allocations()[b] <= ptr || ptr + length <= b,
            old(self).suite.last() <= now_ms,
            old(self).suite.total() < u64::MAX,
            forall|i: int, j: int|
                0 <= i < j < old(mem)@.len() ==> old(mem)@[i].block.base != old(mem)@[j].block.base,
        ensures
            final(self).wf(),
            final(self).in_hook,
            match r.0 {
                RegisterOutcome::Fresh => !old(self).spec_allocations().dom().contains(ptr)
                    && final(self).spec_allocations() == old(self).spec_allocations().insert(
                    ptr,
                    length,
                ),
                RegisterOutcome::Replaced => old(self).spec_allocations().dom().contains(ptr)
                    && final(self).spec_allocations() == old(self).spec_allocations().insert(
                    ptr,
                    length,
                ),
                RegisterOutcome::RegistryFull => final(self).spec_allocations() == old(self).spec_allocations() && old(self).spec_allocations().dom().len()
                    == crate::config::MAX_TRACKED_ALLOCATIONS && !old(
                    self,
                ).spec_allocations().dom().contains(ptr),
            },
            forall|a: usize|
                spec_align_down(ptr, page_size) <= a < crate::spec_align_up(
                    (ptr + length) as usize,
                    page_size,
                ) ==> net_perm(r.1@, a) == Some(
                    Permissions { read: false, write: false, execute: false },
                ),
    {
        self.on_malloc(ptr, length, config, now_ms, page_size, mem)
    }

    /// The tracking work of one `munmap` before the range is handed to the
    /// original: an untracked address is forwarded untouched — the registry
    /// keeps its contents and no deallocation event fires.
    pub fn on_munmap(
        &mut self,
        addr: usize,
        config: &IntervalConfig,
        now_ms: u64,
        page_size: usize,
        mem: &mut Vec<RegionBytes>,
    ) -> (r: (Option<Block>, Vec<ProtCmd>))
        requires
            old(self).wf(),
            old(self).in_hook,
            page_size > 0,
            spec_track_fits(old(self).spec_allocations(), page_size),
            old(self).suite.last() <= now_ms,
            old(self).suite.total() < u64::MAX,
            forall|i: int, j: int|
                0 <= i < j < old(mem)@.len() ==> old(mem)@[i].block.base != old(mem)@[j].block.base,
        ensures
            final(self).wf(),
            final(self).in_hook,
            final(self).spec_allocations() == old(self).spec_allocations().remove(addr),
            match r.0 {
                Some(b) => old(self).spec_allocations().dom().contains(addr) && b == (Block {
                    base: addr,
                    size_in_bytes: old(self).spec_allocations()[addr],
                }),
                None => !old(self).spec_allocations().dom().contains(addr) && final(self).spec_allocations() == old(self).spec_allocations(),
            },
            (r.0 matches Some(b) ==> forall|a: usize|
                b.base <= a < b.base + b.size_in_bytes ==> net_perm(r.1@, a) == Some(
                    Permissions { read: false, write: false, execute: false },
                )),
    {
        self.on_free(addr, config, now_ms, page_size, mem)
    }

    /// A copy of the registry, safe to walk without the state lock.
    pub fn get_tracked_allocations(&mut self) -> (t: Track)
        requires
            old(self).wf(),
        ensures
            final(self).wf(),
            final(self).spec_allocations() == old(self).spec_allocations(),
            final(self).suite == old(self).suite,
            final(self).in_hook == old(self).in_hook,
            t.wf(),
            t@ == final(self).spec_allocations(),
    {
        self.init_tracking();
        match &self.track {
            Some(t) => t.snapshot(),
            None => Track::new(),
        }
    }
}

/// What the signal handler decides after the guard check.
impl HookState {
    /// The fault handler's entry: a fault while the guard is raised comes
    /// from the library's own code — the handler only opens the faulting
    /// page for reads and writes and returns, touching no other state.
    /// Otherwise the guard goes up and the handler proceeds.
    pub fn fault_entry(&mut self, fault_addr: usize, page_size: usize) -> (r: (
        HookEntry,
        Option<ProtCmd>,
    ))
        requires
            page_size > 0,
            spec_align_down(fault_addr, page_size) + page_size <= usize::MAX,
        ensures
            old(self).in_hook ==> r.0 == HookEntry::Forward && *final(self) == *old(self) && (
            match r.1 {
                Some(c) => cmd_covers(c, fault_addr) && c.perms == (Permissions {
                    read: true,
                    write: true,
                    execute: false,
                }),
                None => false,
            }),
            !old(self).in_hook ==> r.0 == HookEntry::Proceed && final(self).in_hook && final(self).track == old(self).track && final(self).suite == old(self).suite && r.1 is None,
    {
        if self.is_in_hook() {
            let cmd = page_cmd(fault_addr, page_size, Permissions::read_write());
            (HookEntry::Forward, Some(cmd))
        } else {
            self.enter_hook();
            (HookEntry::Proceed, None)
        }
    }

    /// The handler's last protection change: which access the faulting
    /// page keeps when execution resumes. Writes — and builds configured
    /// to re-open fully on any fault — get the page back readable and
    /// writable; reads get it back readable, so a later write faults once
    /// more and upgrades. Either way the page is at least readable: the
    /// retried instruction makes progress.
    pub fn fault_close(&self, fault_addr: usize, is_write: bool, page_size: usize) -> (c: ProtCmd)
        requires
            page_size > 0,
            spec_align_down(fault_addr, page_size) + page_size <= usize::MAX,
        ensures
            cmd_covers(c, fault_addr),
            c.perms.read,
            c.perms.write == (is_write || UNPROTECT_READ_WRITE_ON_FAULT),
    {
        if is_write || UNPROTECT_READ_WRITE_ON_FAULT {
            page_cmd(fault_addr, page_size, Permissions::read_write())
        } else {
            page_cmd(fault_addr, page_size, Permissions::read_only())
        }
    }
}

/// After the handler returns from an access — the scheduler's fence
/// commands first, its own page command last — the faulting page is at
/// least readable, whatever the fence decided.
pub proof fn lemma_fault_page_readable(fence: Seq<ProtCmd>, close: ProtCmd, addr: usize)
    requires
        cmd_covers(close, addr),
        close.perms.read,
    ensures
        net_perm(fence.push(close), addr) == Some(close.perms),
{
    assert(fence.push(close).last() == close);
}

/// Within the dynamic extent of an outer hook the guard is raised, so any
/// nested hook entry forwards to the original symbol, performs no registry
/// mutation, and leaves the whole state as it found it.
pub proof fn lemma_reentry_forwards(s: HookState)
    requires
        s.in_hook,
    ensures
        spec_enter_hook(s).1 == HookEntry::Forward,
        spec_enter_hook(s).0 == s,
        spec_enter_hook(s).0.spec_allocations() == s.spec_allocations(),
{
}

} // verus!
