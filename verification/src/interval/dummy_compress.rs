//! A test that compresses and immediately decompresses every region, as a
//! self-check of the codec: region contents must come back bit for bit.
use vstd::prelude::*;

use crate::compress::CompressionAlgorithm;
use crate::interval::RegionBytes;

verus! {

/// An interval test that round-trips every tracked region through the
/// codec on each interval and leaves all contents as they were.
#[derive(Clone, Copy, PartialEq, Eq, Structural, Debug)]
pub struct DummyCompressInterval(pub CompressionAlgorithm);

impl DummyCompressInterval {
    pub fn name(&self) -> (r: &'static str)
        ensures
            r@ == "Dummy Compress Interval Test"@,
    {
        proof {
            reveal_strlit("Dummy Compress Interval Test");
        }
        "Dummy Compress Interval Test"
    }

    /// Compresses the buffer in place and decompresses it again. Whether or
    /// not the codec managed to compress, the contents end unchanged: a
    /// failed compression leaves the buffer alone, a successful one is
    /// inverted exactly by decompression.
    pub fn exercise(&self, bytes: &mut Vec<u8>) -> (compressed: bool)
        ensures
            final(bytes)@ == old(bytes)@,
    {
        match self.0.compress_in_place(bytes) {
            Some(compressed_size) => {
                let r = self.0.decompress_in_place(bytes, compressed_size);
                proof {
                    assert(r matches Some(n) && n == old(bytes)@.len() && bytes@ == old(bytes)@);
                }
                true
            },
            None => false,
        }
    }

    /// One interval: round-trip every tracked region's bytes; nothing may
    /// change.
    pub fn on_interval(&mut self, mem: &mut Vec<RegionBytes>)
        ensures
            final(mem)@.len() == old(mem)@.len(),
            forall|i: int|
                0 <= i < old(mem)@.len() ==> #[trigger] final(mem)@[i].block == old(
                    mem,
                )@[i].block,
            forall|i: int|
                0 <= i < old(mem)@.len() ==> #[trigger] final(mem)@[i].bytes@ == old(
                    mem,
                )@[i].bytes@,
    {
        let n = mem.len();
        let mut i: usize = 0;
        while i < n
            invariant
                i <= n,
                n == mem@.len(),
                mem@.len() == old(mem)@.len(),
                forall|j: int|
                    0 <= j < n ==> #[trigger] mem@[j].block == old(mem)@[j].block,
                forall|j: int| 0 <= j < n ==> #[trigger] mem@[j].bytes@ == old(mem)@[j].bytes@,
            decreases n - i,
        {
            let algo = self.0;
            let test = DummyCompressInterval(algo);
            let entry = &mut mem[i];
            test.exercise(&mut entry.bytes);
            i += 1;
        }
    }
}

} // verus!
