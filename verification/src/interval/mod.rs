//! Interval tests and their scheduler.
use vstd::prelude::*;

use crate::track::Block;

pub mod compress;
pub mod dummy;
pub mod dummy_compress;
pub mod suite;

pub use compress::CompressAlloc;
pub use dummy::DummyInterval;
pub use dummy_compress::DummyCompressInterval;
pub use suite::IntervalSuite;

verus! {

/// The scheduler's timing policy: minimum wall time between interval
/// dispatches.
#[derive(Clone, Copy, PartialEq, Eq, Structural, Debug)]
pub struct IntervalConfig {
    pub interval_ms: u64,
}

/// A tracked region together with its current bytes, as the scheduler's
/// callbacks see memory: the shell copies a region in while its pages are
/// open and writes it back before re-protecting.
pub struct RegionBytes {
    pub block: Block,
    pub bytes: Vec<u8>,
}

/// One entry of the scheduler's test list. Every test answers the same
/// entry points; most of them are observations and change nothing.
pub enum IntervalTest {
    Dummy(DummyInterval),
    DummyCompress(DummyCompressInterval),
    Compress(CompressAlloc),
}

impl IntervalTest {
    /// None of the built-in tests ever retires itself.
    pub fn is_done(&self) -> (r: bool)
        ensures
            r == false,
    {
        false
    }

    /// A fresh allocation: all built-in tests only take note.
    pub fn on_alloc(&mut self, alloc: &Block)
        ensures
            *final(self) == *old(self),
    {
        let _ = alloc;
    }

    /// A deallocation: all built-in tests only take note.
    pub fn on_dealloc(&mut self, dealloc: &Block)
        ensures
            *final(self) == *old(self),
    {
        let _ = dealloc;
    }

    /// A write to a tracked block: observation only.
    pub fn on_write(&mut self, block: &Block)
        ensures
            *final(self) == *old(self),
    {
        let _ = block;
    }

    /// A read of a tracked block: observation only.
    pub fn on_read(&mut self, block: &Block)
        ensures
            *final(self) == *old(self),
    {
        let _ = block;
    }

    /// An access to a tracked block, with its current bytes: the
    /// compression test restores a compressed block; the others change
    /// nothing. The compressed image a compression interval left in the
    /// buffer always comes back as the original contents.
    pub fn on_access(&mut self, block: &Block, is_write: bool, bytes: &mut Vec<u8>) -> (restored:
        bool)
        ensures
            final(bytes)@.len() == old(bytes)@.len(),
            !restored ==> final(bytes)@ == old(bytes)@,
            !(*old(self) matches IntervalTest::Compress(_)) ==> *final(self) == *old(self)
                && !restored,
            forall|c: CompressAlloc|
                *old(self) == IntervalTest::Compress(c) && !c.table().contains_key(block.base)
                    ==> !restored,
            forall|s: Seq<u8>, c: CompressAlloc|
                *old(self) == IntervalTest::Compress(c) && c.table().contains_key(block.base) && old(
                    bytes,
                )@ == c.algorithm().spec_in_place_image(s) && s.len() == old(bytes)@.len()
                    && c.table()[block.base] == c.algorithm().spec_compressed(s).len() ==> restored
                    && final(bytes)@ == s,
    {
        let mut taken = IntervalTest::Dummy(DummyInterval);
        core::mem::swap(self, &mut taken);
        match taken {
            IntervalTest::Dummy(d) => {
                *self = IntervalTest::Dummy(d);
                false
            },
            IntervalTest::DummyCompress(t) => {
                *self = IntervalTest::DummyCompress(t);
                false
            },
            IntervalTest::Compress(mut c) => {
                let restored = c.on_access(block, is_write, bytes);
                *self = IntervalTest::Compress(c);
                restored
            },
        }
    }

    /// What one interval dispatch leaves in a region whose bytes were `s`.
    pub open spec fn spec_interval_outcome(self, s: Seq<u8>) -> Seq<u8> {
        match self {
            IntervalTest::Dummy(_) => s,
            IntervalTest::DummyCompress(_) => s,
            IntervalTest::Compress(c) => CompressAlloc::spec_compress_outcome(c.algorithm(), s),
        }
    }

    /// Whether two tests transform region bytes identically on an
    /// interval: dispatch changes a test's bookkeeping, never what it does
    /// to contents.
    pub open spec fn outcome_equiv(a: IntervalTest, b: IntervalTest) -> bool {
        forall|s: Seq<u8>| (#[trigger] a.spec_interval_outcome(s)) == b.spec_interval_outcome(s)
    }

    /// One interval: the compression test compresses every region in
    /// place, the round-trip test leaves contents unchanged, the dummy does
    /// nothing. Region identities and buffer lengths are preserved.
    pub fn on_interval(&mut self, mem: &mut Vec<RegionBytes>)
        requires
            forall|i: int, j: int|
                0 <= i < j < old(mem)@.len() ==> old(mem)@[i].block.base != old(mem)@[j].block.base,
        ensures
            final(mem)@.len() == old(mem)@.len(),
            forall|i: int|
                0 <= i < old(mem)@.len() ==> #[trigger] final(mem)@[i].block == old(
                    mem,
                )@[i].block,
            forall|i: int|
                0 <= i < old(mem)@.len() ==> #[trigger] final(mem)@[i].bytes@.len() == old(
                    mem,
                )@[i].bytes@.len(),
            forall|i: int|
                0 <= i < old(mem)@.len() ==> #[trigger] final(mem)@[i].bytes@ == old(
                    self,
                ).spec_interval_outcome(old(mem)@[i].bytes@),
            Self::outcome_equiv(*final(self), *old(self)),
    {
        let mut taken = IntervalTest::Dummy(DummyInterval);
        core::mem::swap(self, &mut taken);
        match taken {
            IntervalTest::Dummy(d) => {
                *self = IntervalTest::Dummy(d);
            },
            IntervalTest::DummyCompress(mut t) => {
                t.on_interval(mem);
                *self = IntervalTest::DummyCompress(t);
            },
            IntervalTest::Compress(mut c) => {
                c.compress_all_allocations(mem);
                proof {
                    lemma_outcome_preserves_len();
                }
                *self = IntervalTest::Compress(c);
            },
        }
        proof {
            assert forall|s: Seq<u8>| (#[trigger] self.spec_interval_outcome(s)) == taken.spec_interval_outcome(
                s,
            ) by {
            }
        }
    }
}

/// A compression outcome is as long as the contents it came from: the
/// in-place image pads the compressed bytes back to the original length.
pub proof fn lemma_outcome_preserves_len()
    ensures
        forall|algo: crate::compress::CompressionAlgorithm, s: Seq<u8>|
            (#[trigger] CompressAlloc::spec_compress_outcome(algo, s)).len() == s.len(),
{
}

} // verus!
