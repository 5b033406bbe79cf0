//! Page permission masks and the protection commands the library decides on.
//!
//! The library never calls `mprotect` itself: functions that change
//! protection return a list of [`ProtCmd`] values, applied in order by the
//! process-level shell. The net effect of such a list on an address is the
//! last command whose range covers it.
use vstd::prelude::*;

verus! {

/// A page permission mask with union semantics over read, write and execute.
#[derive(Clone, Copy, PartialEq, Eq, Structural, Debug)]
pub struct Permissions {
    pub read: bool,
    pub write: bool,
    pub execute: bool,
}

impl Permissions {
    /// No access at all: a touch of the page traps.
    pub fn none() -> (p: Self)
        ensures
            p == (Permissions { read: false, write: false, execute: false }),
    {
        Permissions { read: false, write: false, execute: false }
    }

    /// Read access only.
    pub fn read_only() -> (p: Self)
        ensures
            p == (Permissions { read: true, write: false, execute: false }),
    {
        Permissions { read: true, write: false, execute: false }
    }

    /// Read and write access.
    pub fn read_write() -> (p: Self)
        ensures
            p == (Permissions { read: true, write: true, execute: false }),
    {
        Permissions { read: true, write: true, execute: false }
    }

    /// The union of two masks.
    pub fn union(self, other: Self) -> (p: Self)
        ensures
            p.read == (self.read || other.read),
            p.write == (self.write || other.write),
            p.execute == (self.execute || other.execute),
    {
        Permissions {
            read: self.read || other.read,
            write: self.write || other.write,
            execute: self.execute || other.execute,
        }
    }

    /// The mask in the bit layout `mprotect` takes: read 1, write 2,
    /// execute 4.
    pub fn bits(self) -> (b: u32)
        ensures
            b == self.spec_bits(),
    {
        let r: u32 = if self.read {
            1
        } else {
            0
        };
        let w: u32 = if self.write {
            2
        } else {
            0
        };
        let x: u32 = if self.execute {
            4
        } else {
            0
        };
        r + w + x
    }

    /// The bit layout of the mask.
    pub open spec fn spec_bits(self) -> u32 {
        (((if self.read {
            1u32
        } else {
            0u32
        }) + (if self.write {
            2u32
        } else {
            0u32
        }) + (if self.execute {
            4u32
        } else {
            0u32
        })) as u32)
    }
}

/// One protection change: set every page of `[start, start + len)` to
/// `perms`. The range is always whole pages.
#[derive(Clone, Copy, PartialEq, Eq, Structural, Debug)]
pub struct ProtCmd {
    pub start: usize,
    pub len: usize,
    pub perms: Permissions,
}

/// Whether the command's range covers the address.
pub open spec fn cmd_covers(c: ProtCmd, addr: usize) -> bool {
    c.start <= addr < c.start + c.len
}

/// The permission an address holds after a command list runs in order:
/// that of the last command covering it, `None` if no command touches it.
pub open spec fn net_perm(cmds: Seq<ProtCmd>, addr: usize) -> Option<Permissions>
    decreases cmds.len(),
{
    if cmds.len() == 0 {
        None
    } else if cmd_covers(cmds.last(), addr) {
        Some(cmds.last().perms)
    } else {
        net_perm(cmds.drop_last(), addr)
    }
}

/// Running one list after another: the later list decides wherever it
/// touches the address at all.
pub proof fn lemma_net_perm_append(a: Seq<ProtCmd>, b: Seq<ProtCmd>, addr: usize)
    ensures
        net_perm(a + b, addr) == (if net_perm(b, addr) is Some {
            net_perm(b, addr)
        } else {
            net_perm(a, addr)
        }),
    decreases b.len(),
{
    if b.len() == 0 {
        assert(a + b =~= a);
    } else {
        assert((a + b).drop_last() =~= a + b.drop_last());
        lemma_net_perm_append(a, b.drop_last(), addr);
    }
}

/// A list none of whose commands covers the address leaves it untouched.
pub proof fn lemma_net_perm_uncovered(cmds: Seq<ProtCmd>, addr: usize)
    requires
        forall|i: int| 0 <= i < cmds.len() ==> !cmd_covers(#[trigger] cmds[i], addr),
    ensures
        net_perm(cmds, addr) is None,
    decreases cmds.len(),
{
    if cmds.len() > 0 {
        lemma_net_perm_uncovered(cmds.drop_last(), addr);
    }
}

/// A list whose commands all set the same mask nets that mask on every
/// address any of them covers.
pub proof fn lemma_net_perm_uniform(cmds: Seq<ProtCmd>, p: Permissions, addr: usize)
    requires
        forall|i: int| 0 <= i < cmds.len() ==> cmds[i].perms == p,
        exists|i: int| 0 <= i < cmds.len() && cmd_covers(cmds[i], addr),
    ensures
        net_perm(cmds, addr) == Some(p),
    decreases cmds.len(),
{
    if cmd_covers(cmds.last(), addr) {
    } else {
        let i = choose|i: int| 0 <= i < cmds.len() && cmd_covers(cmds[i], addr);
        assert(0 <= i < cmds.len() - 1);
        assert(cmds.drop_last()[i] == cmds[i]);
        lemma_net_perm_uniform(cmds.drop_last(), p, addr);
    }
}

} // verus!
