//! The compression interval test: compress idle regions in place, remember
//! each compressed length in a side table, and decompress on access.
use vstd::prelude::*;

use std::collections::HashMap;

use crate::compress::CompressionAlgorithm;
use crate::interval::RegionBytes;
use crate::track::Block;

verus! {

broadcast use vstd::std_specs::hash::group_hash_axioms;

/// Compresses every tracked region on each interval and records the
/// compressed length by base address; a compressed region is restored the
/// moment it is accessed. A region is "compressed" exactly while its base
/// is in the side table.
pub struct CompressAlloc {
    algo: CompressionAlgorithm,
    compressed_sizes: HashMap<usize, usize>,
}

impl CompressAlloc {
    /// The side table: base address of a compressed region to its
    /// compressed length.
    pub closed spec fn table(self) -> Map<usize, usize> {
        self.compressed_sizes@
    }

    /// The codec this test compresses with.
    pub closed spec fn algorithm(self) -> CompressionAlgorithm {
        self.algo
    }

    pub fn new(algo: CompressionAlgorithm) -> (t: Self)
        ensures
            t.algorithm() == algo,
            t.table() == Map::<usize, usize>::empty(),
    {
        CompressAlloc { algo, compressed_sizes: HashMap::new() }
    }

    pub fn name(&self) -> (r: &'static str)
        ensures
            r@ == "Compression Alloc Interval Test"@,
    {
        proof {
            reveal_strlit("Compression Alloc Interval Test");
        }
        "Compression Alloc Interval Test"
    }

    /// Whether the block is currently compressed.
    pub fn is_compressed(&self, block: &Block) -> (r: bool)
        ensures
            r == self.table().contains_key(block.base),
    {
        self.compressed_sizes.contains_key(&block.base)
    }

    /// What one interval does to one region's bytes: the in-place image if
    /// the codec succeeds and its output fits, the old contents otherwise.
    pub open spec fn spec_compress_outcome(algo: CompressionAlgorithm, s: Seq<u8>) -> Seq<u8> {
        if Self::spec_compresses(algo, s) {
            algo.spec_in_place_image(s)
        } else {
            s
        }
    }

    /// Whether the codec manages to compress contents `s` into their own
    /// buffer.
    pub open spec fn spec_compresses(algo: CompressionAlgorithm, s: Seq<u8>) -> bool {
        algo.spec_compressible(s) && algo.spec_compressed(s).len() <= s.len()
    }

    /// Compresses every region in place. Each region that the codec
    /// manages to compress holds the compressed image afterwards and its
    /// base maps to the compressed length; the rest are untouched. Entries
    /// of bases outside `mem` survive unchanged.
    pub fn compress_all_allocations(&mut self, mem: &mut Vec<RegionBytes>)
        requires
            forall|i: int, j: int|
                0 <= i < j < old(mem)@.len() ==> old(mem)@[i].block.base != old(mem)@[j].block.base,
        ensures
            final(self).algorithm() == old(self).algorithm(),
            final(mem)@.len() == old(mem)@.len(),
            forall|i: int|
                0 <= i < old(mem)@.len() ==> #[trigger] final(mem)@[i].block == old(
                    mem,
                )@[i].block,
            forall|i: int|
                0 <= i < old(mem)@.len() ==> #[trigger] final(mem)@[i].bytes@
                    == Self::spec_compress_outcome(
                    old(self).algorithm(),
                    old(mem)@[i].bytes@,
                ),
            forall|i: int|
                0 <= i < old(mem)@.len() && Self::spec_compresses(
                    old(self).algorithm(),
                    old(mem)@[i].bytes@,
                ) ==> #[trigger] final(self).table().contains_key(old(mem)@[i].block.base)
                    && final(self).table()[old(mem)@[i].block.base] == old(self).algorithm(
                ).spec_compressed(old(mem)@[i].bytes@).len(),
            forall|k: usize|
                #[trigger] final(self).table().contains_key(k) <==> (old(self).table().contains_key(
                    k,
                ) || exists|i: int|
                    0 <= i < old(mem)@.len() && #[trigger] old(mem)@[i].block.base == k
                        && Self::spec_compresses(old(self).algorithm(), old(mem)@[i].bytes@)),
            forall|k: usize|
                old(self).table().contains_key(k) && (forall|i: int|
                    0 <= i < old(mem)@.len() ==> !(#[trigger] old(mem)@[i].block.base == k
                        && Self::spec_compresses(old(self).algorithm(), old(mem)@[i].bytes@)))
                    ==> #[trigger] final(self).table()[k] == old(self).table()[k],
    {
        let n = mem.len();
        let mut i: usize = 0;
        while i < n
            invariant
                i <= n,
                n == mem@.len(),
                mem@.len() == old(mem)@.len(),
                self.algorithm() == old(self).algorithm(),
                forall|a: int, b: int|
                    0 <= a < b < old(mem)@.len() ==> old(mem)@[a].block.base != old(
                        mem,
                    )@[b].block.base,
                forall|j: int|
                    0 <= j < n ==> #[trigger] mem@[j].block == old(mem)@[j].block,
                forall|j: int|
                    i <= j < n ==> #[trigger] mem@[j].bytes@ == old(mem)@[j].bytes@,
                forall|j: int|
                    0 <= j < i ==> #[trigger] mem@[j].bytes@ == Self::spec_compress_outcome(
                        old(self).algorithm(),
                        old(mem)@[j].bytes@,
                    ),
                forall|j: int|
                    0 <= j < i && Self::spec_compresses(
                        old(self).algorithm(),
                        old(mem)@[j].bytes@,
                    ) ==> #[trigger] self.table().contains_key(old(mem)@[j].block.base)
                        && self.table()[old(mem)@[j].block.base] == old(self).algorithm(
                    ).spec_compressed(old(mem)@[j].bytes@).len(),
                forall|k: usize|
                    #[trigger] self.table().contains_key(k) <==> (old(self).table().contains_key(k)
                        || exists|j: int|
                        0 <= j < i && #[trigger] old(mem)@[j].block.base == k
                            && Self::spec_compresses(old(self).algorithm(), old(mem)@[j].bytes@)),
                forall|k: usize|
                    old(self).table().contains_key(k) && (forall|j: int|
                        0 <= j < i ==> !(#[trigger] old(mem)@[j].block.base == k
                            && Self::spec_compresses(old(self).algorithm(), old(mem)@[j].bytes@)))
                        ==> #[trigger] self.table()[k] == old(self).table()[k],
            decreases n - i,
        {
            let ghost table_before = self.table();
            let algo = self.algo;
            let entry = &mut mem[i];
            let base = entry.block.ptr();
            match algo.compress_in_place(&mut entry.bytes) {
                Some(compressed_size) => {
                    let _ = self.compressed_sizes.insert(base, compressed_size);
                    proof {
                        assert(self.table() == table_before.insert(
                            base,
                            compressed_size,
                        ));
                        assert forall|j: int|
                            0 <= j < i + 1 && Self::spec_compresses(
                                old(self).algorithm(),
                                old(mem)@[j].bytes@,
                            ) implies #[trigger] self.table().contains_key(old(mem)@[j].block.base)
                            && self.table()[old(mem)@[j].block.base] == old(self).algorithm(
                        ).spec_compressed(old(mem)@[j].bytes@).len() by {
                            if j < i {
                                assert(old(mem)@[j].block.base != old(mem)@[i as int].block.base);
                            }
                        }
                        assert forall|k: usize| #[trigger]
                            self.table().contains_key(k) implies (old(
                            self,
                        ).table().contains_key(k) || exists|j: int|
                            0 <= j < i + 1 && #[trigger] old(mem)@[j].block.base == k
                                && Self::spec_compresses(
                                old(self).algorithm(),
                                old(mem)@[j].bytes@,
                            )) by {
                            if k == base {
                                assert(old(mem)@[i as int].block.base == k && Self::spec_compresses(
                                    old(self).algorithm(),
                                    old(mem)@[i as int].bytes@,
                                ));
                            }
                        }
                    }
                },
                None => {
                    proof {
                        assert(!Self::spec_compresses(
                            old(self).algorithm(),
                            old(mem)@[i as int].bytes@,
                        ));
                    }
                },
            }
            i += 1;
            proof {
                assert forall|j: int|
                    0 <= j < i && Self::spec_compresses(
                        old(self).algorithm(),
                        old(mem)@[j].bytes@,
                    ) implies #[trigger] self.table().contains_key(old(mem)@[j].block.base)
                    && self.table()[old(mem)@[j].block.base] == old(self).algorithm(
                ).spec_compressed(old(mem)@[j].bytes@).len() by {
                    if j < i - 1 {
                        assert(old(mem)@[j].block.base != old(mem)@[i - 1].block.base);
                    }
                }
            }
        }
    }

    /// Restores one compressed region: decompresses its bytes in place and
    /// drops the side-table entry. A block that is not in the table, or
    /// whose bytes the codec rejects, is left exactly as it was, entry
    /// included.
    pub fn decompress_allocation(&mut self, block: &Block, bytes: &mut Vec<u8>) -> (restored:
        bool)
        ensures
            final(self).algorithm() == old(self).algorithm(),
            restored ==> final(self).table() == old(self).table().remove(block.base)
                && final(bytes)@.len() == old(bytes)@.len(),
            !restored ==> final(self).table() == old(self).table() && final(bytes)@ == old(
                bytes,
            )@,
            !old(self).table().contains_key(block.base) ==> !restored,
            forall|s: Seq<u8>|
                old(self).table().contains_key(block.base) && old(bytes)@ == old(self).algorithm(
                ).spec_in_place_image(s) && s.len() == old(bytes)@.len()
                    && old(self).table()[block.base] == old(self).algorithm().spec_compressed(
                    s,
                ).len() ==> restored && final(bytes)@ == s,
    {
        let base = block.ptr();
        let compressed_size = match self.compressed_sizes.get(&base) {
            Some(size) => *size,
            None => {
                return false;
            },
        };
        if compressed_size > bytes.len() {
            return false;
        }
        match self.algo.decompress_in_place(bytes, compressed_size) {
            Some(_) => {
                self.compressed_sizes.remove(&base);
                true
            },
            None => false,
        }
    }

    /// An access to a compressed block restores it; any other access
    /// changes nothing.
    pub fn on_access(&mut self, block: &Block, is_write: bool, bytes: &mut Vec<u8>) -> (restored:
        bool)
        ensures
            final(self).algorithm() == old(self).algorithm(),
            restored ==> final(self).table() == old(self).table().remove(block.base)
                && final(bytes)@.len() == old(bytes)@.len(),
            !restored ==> final(self).table() == old(self).table() && final(bytes)@ == old(
                bytes,
            )@,
            !old(self).table().contains_key(block.base) ==> !restored,
            forall|s: Seq<u8>|
                old(self).table().contains_key(block.base) && old(bytes)@ == old(self).algorithm(
                ).spec_in_place_image(s) && s.len() == old(bytes)@.len()
                    && old(self).table()[block.base] == old(self).algorithm().spec_compressed(
                    s,
                ).len() ==> restored && final(bytes)@ == s,
    {
        let _ = is_write;
        if self.is_compressed(block) {
            self.decompress_allocation(block, bytes)
        } else {
            false
        }
    }

    /// One interval: compress everything.
    pub fn on_interval(&mut self, mem: &mut Vec<RegionBytes>)
        requires
            forall|i: int, j: int|
                0 <= i < j < old(mem)@.len() ==> old(mem)@[i].block.base != old(mem)@[j].block.base,
        ensures
            final(self).algorithm() == old(self).algorithm(),
            final(mem)@.len() == old(mem)@.len(),
            forall|i: int|
                0 <= i < old(mem)@.len() ==> #[trigger] final(mem)@[i].block == old(
                    mem,
                )@[i].block,
            forall|i: int|
                0 <= i < old(mem)@.len() ==> #[trigger] final(mem)@[i].bytes@
                    == Self::spec_compress_outcome(
                    old(self).algorithm(),
                    old(mem)@[i].bytes@,
                ),
    {
        self.compress_all_allocations(mem)
    }
}

} // verus!
