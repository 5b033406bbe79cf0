//! Tracked regions and the allocation registry.
//!
//! A [`Block`] is a contiguous byte span with a base address and the
//! user-requested size. The registry ([`Track`]) keys live blocks by base in
//! a fixed-capacity `heapless` index map, so registration never allocates,
//! and answers point queries for any address inside a tracked span. Base
//! spans of distinct tracked blocks are disjoint; under that invariant the
//! region owning an address is unique.
use vstd::prelude::*;

use crate::config::MAX_TRACKED_ALLOCATIONS;
use crate::perms::{Permissions, ProtCmd};
use crate::{spec_align_down, spec_align_up, align_down_to_page_size, align_up_to_page_size};

verus! {

/// A tracked byte span: `[base, base + size_in_bytes)`.
#[derive(Clone, Copy, PartialEq, Eq, Structural, Debug)]
pub struct Block {
    pub base: usize,
    pub size_in_bytes: usize,
}

impl Block {
    pub fn new(ptr: usize, size_in_bytes: usize) -> (b: Self)
        ensures
            b == (Block { base: ptr, size_in_bytes }),
    {
        Block { base: ptr, size_in_bytes }
    }

    /// The base address.
    pub fn ptr(&self) -> (p: usize)
        ensures
            p == self.base,
    {
        self.base
    }

    /// The base address, for callers that will write through it.
    pub fn ptr_mut(&self) -> (p: usize)
        ensures
            p == self.base,
    {
        self.base
    }

    /// The same span with another size.
    pub fn with_size(self, size_in_bytes: usize) -> (b: Self)
        ensures
            b == (Block { base: self.base, size_in_bytes }),
    {
        Block { base: self.base, size_in_bytes }
    }

    /// The user-requested size in bytes.
    pub fn size(&self) -> (s: usize)
        ensures
            s == self.size_in_bytes,
    {
        self.size_in_bytes
    }

    /// Whether `p` lies in the span.
    pub open spec fn spec_contains(self, p: usize) -> bool {
        self.base <= p < self.base + self.size_in_bytes
    }

    pub fn contains(&self, ptr: usize) -> (r: bool)
        ensures
            r == self.spec_contains(ptr),
    {
        ptr >= self.base && ptr - self.base < self.size_in_bytes
    }

    /// The one-page block containing `ptr`.
    pub fn page_of(ptr: usize, page_size: usize) -> (b: Self)
        requires
            page_size > 0,
        ensures
            b.base == spec_align_down(ptr, page_size),
            b.size_in_bytes == page_size,
            b.spec_contains(ptr),
    {
        proof {
            crate::lemma_align_down_properties(ptr, page_size);
        }
        let start = align_down_to_page_size(ptr, page_size);
        Block { base: start, size_in_bytes: page_size }
    }

    /// The span widened to whole pages: no align-up overflow.
    pub open spec fn fits(self, ps: usize) -> bool {
        self.base + self.size_in_bytes + ps - 1 <= usize::MAX
    }

    /// The protection change that sets every page the span touches to
    /// `new_permissions`: the range runs from the base rounded down to the
    /// span end rounded up.
    pub fn change_permissions(&self, new_permissions: Permissions, page_size: usize) -> (c:
        ProtCmd)
        requires
            page_size > 0,
            self.fits(page_size),
        ensures
            c.start == spec_align_down(self.base, page_size),
            c.start + c.len == spec_align_up((self.base + self.size_in_bytes) as usize, page_size),
            c.perms == new_permissions,
            forall|a: usize| self.base <= a < self.base + self.size_in_bytes ==> crate::perms::cmd_covers(c, a),
            c.len >= self.size_in_bytes,
    {
        proof {
            crate::lemma_align_down_properties(self.base, page_size);
            crate::lemma_align_up_properties((self.base + self.size_in_bytes) as usize, page_size);
        }
        let start = align_down_to_page_size(self.base, page_size);
        let end = align_up_to_page_size(self.base + self.size_in_bytes, page_size);
        ProtCmd { start, len: end - start, perms: new_permissions }
    }

    /// Revoke all access to the span's pages.
    pub fn protect(&self, page_size: usize) -> (c: ProtCmd)
        requires
            page_size > 0,
            self.fits(page_size),
        ensures
            c == self.change_cmd(Permissions { read: false, write: false, execute: false }, page_size),
            forall|a: usize| self.base <= a < self.base + self.size_in_bytes ==> crate::perms::cmd_covers(c, a),
    {
        self.change_permissions(Permissions::none(), page_size)
    }

    /// Open the span's pages for reads and writes.
    pub fn unprotect(&self, page_size: usize) -> (c: ProtCmd)
        requires
            page_size > 0,
            self.fits(page_size),
        ensures
            c == self.change_cmd(Permissions { read: true, write: true, execute: false }, page_size),
            forall|a: usize| self.base <= a < self.base + self.size_in_bytes ==> crate::perms::cmd_covers(c, a),
    {
        self.change_permissions(Permissions::read_write(), page_size)
    }

    /// The command `change_permissions` decides on.
    pub open spec fn change_cmd(self, p: Permissions, ps: usize) -> ProtCmd {
        ProtCmd {
            start: spec_align_down(self.base, ps),
            len: (spec_align_up((self.base + self.size_in_bytes) as usize, ps) - spec_align_down(
                self.base,
                ps,
            )) as usize,
            perms: p,
        }
    }
}

/// The fixed-capacity index map the registry is built on. The map itself is
/// `heapless::IndexMap`; the library states its behaviour and never looks
/// inside.
#[verifier::external_type_specification]
#[verifier::external_body]
#[verifier::reject_recursive_types(K)]
#[verifier::reject_recursive_types(V)]
#[verifier::reject_recursive_types(S)]
pub struct ExIndexMap<K, V, S, const N: usize>(heapless::IndexMap<K, V, S, N>);

/// The hasher family the registry's index map uses; the library never
/// hashes anything itself.
#[verifier::external_type_specification]
#[verifier::external_body]
pub struct ExFnvHasher(hash32::FnvHasher);

#[verifier::external_type_specification]
#[verifier::external_body]
#[verifier::reject_recursive_types(H)]
pub struct ExBuildHasherDefault<H>(hash32::BuildHasherDefault<H>);

/// The concrete map type behind the registry.
pub type RegistryMap = heapless::index_map::FnvIndexMap<usize, usize, MAX_TRACKED_ALLOCATIONS>;

/// What the registry's index map holds, as a mathematical map from base
/// address to size.
pub uninterp spec fn registry_contents(m: RegistryMap) -> Map<usize, usize>;


/// Relies on `heapless::IndexMap::insert`: an existing key has its value
/// replaced and returned; a new key is added while capacity is left; a new
/// key on a full map is refused and the map is unchanged.
#[verifier::external_body]
fn map_insert(m: &mut RegistryMap, key: usize, value: usize) -> (r: Result<Option<usize>, (usize, usize)>)
    requires
        registry_contents(*old(m)).dom().finite(),
    ensures
        registry_contents(*final(m)).dom().finite(),
        match r {
            Ok(previous) => {
                &&& registry_contents(*final(m)) == registry_contents(*old(m)).insert(key, value)
                &&& match previous {
                    Some(v) => registry_contents(*old(m)).dom().contains(key)
                        && registry_contents(*old(m))[key] == v,
                    None => !registry_contents(*old(m)).dom().contains(key) && registry_contents(
                        *old(m),
                    ).dom().len() < MAX_TRACKED_ALLOCATIONS,
                }
            },
            Err(kv) => {
                &&& kv == (key, value)
                &&& registry_contents(*final(m)) == registry_contents(*old(m))
                &&& registry_contents(*old(m)).dom().len() == MAX_TRACKED_ALLOCATIONS
                &&& !registry_contents(*old(m)).dom().contains(key)
            },
        },
{
    m.insert(key, value)
}

/// Relies on `heapless::IndexMap::remove`: the key's value comes out and the
/// entry disappears; a missing key leaves the map unchanged.
#[verifier::external_body]
fn map_remove(m: &mut RegistryMap, key: usize) -> (r: Option<usize>)
    ensures
        registry_contents(*final(m)) == registry_contents(*old(m)).remove(key),
        registry_contents(*final(m)).dom().finite() == registry_contents(*old(m)).dom().finite(),
        match r {
            Some(v) => registry_contents(*old(m)).dom().contains(key) && registry_contents(
                *old(m),
            )[key] == v,
            None => !registry_contents(*old(m)).dom().contains(key),
        },
{
    m.remove(&key)
}

/// Relies on `heapless::IndexMap::get`: the value stored under the key, if
/// any.
#[verifier::external_body]
fn map_get(m: &RegistryMap, key: usize) -> (r: Option<usize>)
    ensures
        match r {
            Some(v) => registry_contents(*m).dom().contains(key) && registry_contents(*m)[key]
                == v,
            None => !registry_contents(*m).dom().contains(key),
        },
{
    m.get(&key).copied()
}

/// Relies on `heapless::IndexMap::iter`: every stored pair comes out exactly
/// once.
#[verifier::external_body]
fn map_entries(m: &RegistryMap) -> (r: Vec<(usize, usize)>)
    ensures
        forall|i: int|
            0 <= i < r@.len() ==> #[trigger] registry_contents(*m).contains_pair(
                r@[i].0,
                r@[i].1,
            ),
        forall|k: usize|
            registry_contents(*m).dom().contains(k) ==> exists|i: int|
                0 <= i < r@.len() && #[trigger] r@[i].0 == k,
        forall|i: int, j: int| 0 <= i < j < r@.len() ==> r@[i].0 != r@[j].0,
{
    m.iter().map(|(k, v)| (*k, *v)).collect()
}


/// The allocation registry: live blocks keyed by base address, at most
/// `MAX_TRACKED_ALLOCATIONS` of them.
pub struct Track {
    allocations: RegistryMap,
}

impl View for Track {
    type V = Map<usize, usize>;

    closed spec fn view(&self) -> Map<usize, usize> {
        registry_contents(self.allocations)
    }
}

impl Track {
    /// Relies on `heapless::IndexMap::new`: the fresh map is empty.
    #[verifier::external_body]
    fn raw_new() -> (t: Track)
        ensures
            t@ =~= vstd::map::Map::empty(),
            t@.dom().finite(),
    {
        Track { allocations: heapless::index_map::FnvIndexMap::new() }
    }

    /// Relies on `heapless::IndexMap::clone`: the copy holds the same
    /// pairs.
    #[verifier::external_body]
    fn raw_clone(&self) -> (t: Track)
        ensures
            t@ == self@,
    {
        Track { allocations: self.allocations.clone() }
    }

    /// Well-formed: finitely many entries, every span ends within the
    /// address space, and the spans of distinct bases are disjoint.
    pub open spec fn wf(self) -> bool {
        &&& self@.dom().finite()
        &&& self@.dom().len() <= MAX_TRACKED_ALLOCATIONS
        &&& forall|b: usize| #[trigger]
            self@.dom().contains(b) ==> b + self@[b] <= usize::MAX
        &&& forall|b1: usize, b2: usize|
            #[trigger] self@.dom().contains(b1) && #[trigger] self@.dom().contains(b2) && b1 != b2
                ==> b1 + self@[b1] <= b2 || b2 + self@[b2] <= b1
    }

    /// Whether the tracked base `b` covers the address `p`.
    pub open spec fn covers(self, b: usize, p: usize) -> bool {
        self@.dom().contains(b) && b <= p < b + self@[b]
    }

    /// The region a point query finds: the exact base if `p` is one, else
    /// the unique tracked span containing `p`.
    pub open spec fn spec_get(self, p: usize) -> Option<Block> {
        if self@.dom().contains(p) {
            Some(Block { base: p, size_in_bytes: self@[p] })
        } else if exists|b: usize| self.covers(b, p) {
            Some(
                Block {
                    base: choose|b: usize| self.covers(b, p),
                    size_in_bytes: self@[choose|b: usize| self.covers(b, p)],
                },
            )
        } else {
            None
        }
    }

    /// Disjointness makes the covering base unique.
    pub proof fn lemma_cover_unique(self, b1: usize, b2: usize, p: usize)
        requires
            self.wf(),
            self.covers(b1, p),
            self.covers(b2, p),
        ensures
            b1 == b2,
    {
    }

    pub fn new() -> (t: Self)
        ensures
            t@ == Map::<usize, usize>::empty(),
            t.wf(),
    {
        let t = Track::raw_new();
        proof {
            assert(t@.dom() =~= Set::<usize>::empty());
        }
        t
    }

    /// Registers a block under its base. `Ok(true)` replaced an entry of
    /// the same base, `Ok(false)` added a fresh one; `Err` returns the block
    /// of a full registry untouched. A new span must not overlap any other
    /// tracked span: live allocations are disjoint.
    pub fn insert(&mut self, value: Block) -> (r: Result<bool, Block>)
        requires
            old(self).wf(),
            value.base + value.size_in_bytes <= usize::MAX,
            forall|b: usize| #[trigger]
                old(self)@.dom().contains(b) && b != value.base ==> b + old(self)@[b]
                    <= value.base || value.base + value.size_in_bytes <= b,
        ensures
            final(self).wf(),
            match r {
                Ok(replaced) => {
                    &&& final(self)@ == old(self)@.insert(value.base, value.size_in_bytes)
                    &&& replaced == old(self)@.dom().contains(value.base)
                },
                Err(v) => {
                    &&& v == value
                    &&& final(self)@ == old(self)@
                    &&& old(self)@.dom().len() == MAX_TRACKED_ALLOCATIONS
                    &&& !old(self)@.dom().contains(value.base)
                },
            },
    {
        let r = map_insert(&mut self.allocations, value.base, value.size_in_bytes);
        match r {
            Ok(previous) => {
                proof {
                    vstd::set_lib::lemma_len_subset(
                        old(self)@.dom(),
                        self@.dom(),
                    );
                }
                Ok(previous.is_some())
            },
            Err(_) => Err(value),
        }
    }

    /// Deregisters the block based at `value`, handing it back; `Err` if no
    /// block has that base.
    pub fn remove_ptr(&mut self, value: usize) -> (r: Result<Block, ()>)
        requires
            old(self).wf(),
        ensures
            final(self).wf(),
            final(self)@ == old(self)@.remove(value),
            match r {
                Ok(b) => old(self)@.dom().contains(value) && b == (Block {
                    base: value,
                    size_in_bytes: old(self)@[value],
                }),
                Err(()) => !old(self)@.dom().contains(value),
            },
    {
        let r = map_remove(&mut self.allocations, value);
        proof {
            vstd::set_lib::lemma_len_subset(self@.dom(), old(self)@.dom());
        }
        match r {
            Some(size) => Ok(Block { base: value, size_in_bytes: size }),
            None => Err(()),
        }
    }

    /// Deregisters a block by its base.
    pub fn remove(&mut self, value: Block) -> (r: Result<Block, ()>)
        requires
            old(self).wf(),
        ensures
            final(self).wf(),
            final(self)@ == old(self)@.remove(value.base),
            match r {
                Ok(b) => old(self)@.dom().contains(value.base) && b == (Block {
                    base: value.base,
                    size_in_bytes: old(self)@[value.base],
                }),
                Err(()) => !old(self)@.dom().contains(value.base),
            },
    {
        self.remove_ptr(value.base)
    }

    /// The tracked region owning `ptr`: an exact base match first, else the
    /// unique span containing `ptr`.
    pub fn get(&self, ptr: usize) -> (r: Option<Block>)
        requires
            self.wf(),
        ensures
            r == self.spec_get(ptr),
    {
        match map_get(&self.allocations, ptr) {
            Some(size) => Some(Block { base: ptr, size_in_bytes: size }),
            None => {
                let entries = map_entries(&self.allocations);
                let mut i: usize = 0;
                while i < entries.len()
                    invariant
                        self.wf(),
                        !self@.dom().contains(ptr),
                        i <= entries.len(),
                        forall|j: int|
                            0 <= j < entries@.len() ==> #[trigger] self@.contains_pair(
                                entries@[j].0,
                                entries@[j].1,
                            ),
                        forall|k: usize|
                            self@.dom().contains(k) ==> exists|j: int|
                                0 <= j < entries@.len() && #[trigger] entries@[j].0 == k,
                        forall|j: int| 0 <= j < i ==> !self.covers(entries@[j].0, ptr),
                    decreases entries.len() - i,
                {
                    let (base, size) = entries[i];
                    if ptr >= base && ptr - base < size {
                        proof {
                            assert(self@.contains_pair(entries@[i as int].0, entries@[i as int].1));
                            assert(self.covers(base, ptr));
                            let c = choose|b: usize| self.covers(b, ptr);
                            self.lemma_cover_unique(base, c, ptr);
                        }
                        return Some(Block { base, size_in_bytes: size });
                    }
                    proof {
                        assert(self@.contains_pair(entries@[i as int].0, entries@[i as int].1));
                        assert(!self.covers(entries@[i as int].0, ptr));
                    }
                    i += 1;
                }
                proof {
                    if exists|b: usize| self.covers(b, ptr) {
                        let b = choose|b: usize| self.covers(b, ptr);
                        let j = choose|j: int|
                            0 <= j < entries@.len() && #[trigger] entries@[j].0 == b;
                        assert(!self.covers(entries@[j].0, ptr));
                    }
                }
                None
            },
        }
    }

    /// The size of the region owning `ptr`.
    pub fn get_size(&self, ptr: usize) -> (r: Option<usize>)
        requires
            self.wf(),
        ensures
            r == match self.spec_get(ptr) {
                Some(b) => Some(b.size_in_bytes),
                None => None::<usize>,
            },
    {
        match self.get(ptr) {
            Some(b) => Some(b.size_in_bytes),
            None => None,
        }
    }

    /// All tracked blocks, one per base.
    pub fn iter(&self) -> (r: Vec<Block>)
        ensures
            forall|i: int|
                0 <= i < r@.len() ==> #[trigger] self@.contains_pair(
                    r@[i].base,
                    r@[i].size_in_bytes,
                ),
            forall|k: usize|
                self@.dom().contains(k) ==> exists|i: int|
                    0 <= i < r@.len() && #[trigger] r@[i].base == k,
            forall|i: int, j: int| 0 <= i < j < r@.len() ==> r@[i].base != r@[j].base,
    {
        let entries = map_entries(&self.allocations);
        let mut out: Vec<Block> = Vec::new();
        let mut i: usize = 0;
        while i < entries.len()
            invariant
                i <= entries.len(),
                out@.len() == i,
                forall|j: int|
                    0 <= j < entries@.len() ==> #[trigger] self@.contains_pair(
                        entries@[j].0,
                        entries@[j].1,
                    ),
                forall|k: usize|
                    self@.dom().contains(k) ==> exists|j: int|
                        0 <= j < entries@.len() && #[trigger] entries@[j].0 == k,
                forall|j1: int, j2: int|
                    0 <= j1 < j2 < entries@.len() ==> entries@[j1].0 != entries@[j2].0,
                forall|j: int|
                    0 <= j < i ==> #[trigger] out@[j] == (Block {
                        base: entries@[j].0,
                        size_in_bytes: entries@[j].1,
                    }),
            decreases entries.len() - i,
        {
            let (base, size) = entries[i];
            out.push(Block { base, size_in_bytes: size });
            i += 1;
        }
        proof {
            assert forall|k: usize| self@.dom().contains(k) implies exists|i0: int|
                0 <= i0 < out@.len() && #[trigger] out@[i0].base == k by {
                let j = choose|j: int| 0 <= j < entries@.len() && #[trigger] entries@[j].0 == k;
                assert(out@[j].base == k);
            }
        }
        out
    }

    /// All tracked blocks, consuming the registry.
    pub fn into_iter(self) -> (r: Vec<Block>)
        ensures
            forall|i: int|
                0 <= i < r@.len() ==> #[trigger] self@.contains_pair(
                    r@[i].base,
                    r@[i].size_in_bytes,
                ),
            forall|k: usize|
                self@.dom().contains(k) ==> exists|i: int|
                    0 <= i < r@.len() && #[trigger] r@[i].base == k,
            forall|i: int, j: int| 0 <= i < j < r@.len() ==> r@[i].base != r@[j].base,
    {
        self.iter()
    }

    /// A cheap copy of the registry, safe to walk outside its lock.
    pub fn snapshot(&self) -> (t: Self)
        ensures
            t@ == self@,
    {
        self.raw_clone()
    }
}

/// For every address inside a tracked span the point query returns exactly
/// that block, and for an address inside no tracked span it returns nothing.
pub proof fn lemma_get_partitions(t: Track, b: usize, p: usize)
    requires
        t.wf(),
    ensures
        t.covers(b, p) ==> t.spec_get(p) == Some(Block { base: b, size_in_bytes: t@[b] }),
        (forall|b2: usize| !t.covers(b2, p)) && !t@.dom().contains(p) ==> t.spec_get(p) is None,
{
    if t.covers(b, p) {
        if t@.dom().contains(p) {
            t.lemma_cover_unique(b, p, p);
        } else {
            let c = choose|b2: usize| t.covers(b2, p);
            t.lemma_cover_unique(b, c, p);
        }
    }
}

/// Packs one `pagemap` entry of `/proc/self/pagemap` into the physical
/// address of `addr`: bit 63 says the page is present, the low 55 bits hold
/// the page frame number.
pub fn pagemap_entry_to_physical(entry: u64, addr: usize, page_size: usize) -> (r: Option<u64>)
    requires
        page_size > 0,
    ensures
        r == spec_pagemap_physical(entry, addr, page_size),
{
    if (entry >> 63u64) & 1u64 == 0u64 {
        return None;
    }
    let pfn = entry & 0x007f_ffff_ffff_ffffu64;
    let page = match pfn.checked_mul(page_size as u64) {
        Some(p) => p,
        None => {
            return None;
        },
    };
    proof {
        crate::lemma_align_down_properties(addr, page_size);
    }
    let offset = (addr % page_size) as u64;
    match page.checked_add(offset) {
        Some(phys) => Some(phys),
        None => None,
    }
}

/// The physical address an entry of the kernel's page map describes, if the
/// page is present and the address fits.
pub open spec fn spec_pagemap_physical(entry: u64, addr: usize, page_size: usize) -> Option<u64> {
    if (entry >> 63u64) & 1u64 == 0u64 {
        None
    } else if (entry & 0x007f_ffff_ffff_ffffu64) * page_size + addr % page_size <= u64::MAX {
        Some((((entry & 0x007f_ffff_ffff_ffffu64) * page_size + addr % page_size) as u64))
    } else {
        None
    }
}

} // verus!
