//! The in-place compression codec.
//!
//! A codec is a pure value naming an algorithm. The compressors themselves
//! are outside code, called through trusted wrappers whose results carry
//! names; what the library proves is the in-place layout — compressed head,
//! zeroed tail — and the round trip through it.
use vstd::prelude::*;

verus! {

/// Upper bound many callers use for compressed output.
pub const MAX_COMPRESSED_SIZE: usize = 65536;

#[derive(Clone, Copy, PartialEq, Eq, Structural, Debug)]
pub enum CompressionAlgorithm {
    LZ4,
    Snappy,
}

/// What LZ4 block compression emits for the given bytes.
pub uninterp spec fn lz4_compressed(s: Seq<u8>) -> Seq<u8>;

/// What LZ4 block decompression emits for the given bytes under the given
/// capacity, when it succeeds.
pub uninterp spec fn lz4_expanded(s: Seq<u8>, cap: nat) -> Seq<u8>;

/// Decompression under capacity `cap` inverts compression: any bytes whose
/// LZ4 compression is `head` and which fit `cap` are what expanding `head`
/// yields.
pub open spec fn lz4_round_trip(head: Seq<u8>, cap: nat) -> bool {
    forall|s: Seq<u8>|
        (#[trigger] lz4_compressed(s)) == head && s.len() <= cap ==> lz4_expanded(head, cap) == s
}

/// What raw Snappy compression emits for the given bytes.
pub uninterp spec fn snappy_compressed(s: Seq<u8>) -> Seq<u8>;

/// What raw Snappy decompression emits for the given bytes, when it
/// succeeds.
pub uninterp spec fn snappy_expanded(s: Seq<u8>) -> Seq<u8>;

/// Snappy decompression inverts compression: any bytes whose Snappy
/// compression is `head` are what expanding `head` yields.
pub open spec fn snappy_round_trip(head: Seq<u8>) -> bool {
    forall|s: Seq<u8>| (#[trigger] snappy_compressed(s)) == head ==> snappy_expanded(head) == s
}

/// Relies on `lz4_flex::block::compress`: deterministic LZ4 block
/// compression, a function of the input bytes alone, for any input.
#[verifier::external_body]
fn lz4_compress(input: &Vec<u8>) -> (r: Vec<u8>)
    ensures
        r@ == lz4_compressed(input@),
{
    lz4_flex::block::compress(input.as_slice())
}

/// Relies on `lz4_flex::block::decompress` (safe-decode build): the output
/// of `lz4_flex::block::compress` decompresses back to the original bytes
/// whenever the capacity covers them, and the result is a function of the
/// input and the capacity; malformed input gives an error, not a panic.
#[verifier::external_body]
fn lz4_decompress(head: &Vec<u8>, min_uncompressed_size: usize) -> (r: Option<Vec<u8>>)
    ensures
        (match r {
            Some(v) => v@ == lz4_expanded(head@, min_uncompressed_size as nat),
            None => true,
        }),
        (exists|s: Seq<u8>|
            (#[trigger] lz4_compressed(s)) == head@ && s.len() <= min_uncompressed_size) ==> r
            is Some,
        r is Some ==> lz4_round_trip(head@, min_uncompressed_size as nat),
{
    lz4_flex::block::decompress(head.as_slice(), min_uncompressed_size).ok()
}

/// Relies on `snap::raw::Encoder::compress_vec`: deterministic raw Snappy
/// compression, a function of the input bytes alone; refused exactly when
/// the worst-case output size would pass the format's four-byte bound.
#[verifier::external_body]
fn snappy_compress(input: &Vec<u8>) -> (r: Option<Vec<u8>>)
    ensures
        (match r {
            Some(v) => v@ == snappy_compressed(input@) && 32 + input@.len() + input@.len() / 6
                <= 0xffff_ffff,
            None => 32 + input@.len() + input@.len() / 6 > 0xffff_ffff,
        }),
{
    snap::raw::Encoder::new().compress_vec(input.as_slice()).ok()
}

/// Relies on `snap::raw::Decoder::decompress_vec`: the output of a
/// conforming Snappy compressor decompresses back to the original bytes,
/// and the result is a function of the input alone; anything else gives an
/// error, not a panic.
#[verifier::external_body]
fn snappy_decompress(head: &Vec<u8>) -> (r: Option<Vec<u8>>)
    ensures
        (match r {
            Some(v) => v@ == snappy_expanded(head@),
            None => true,
        }),
        (exists|s: Seq<u8>| (#[trigger] snappy_compressed(s)) == head@) ==> r is Some,
        r is Some ==> snappy_round_trip(head@),
{
    snap::raw::Decoder::new().decompress_vec(head.as_slice()).ok()
}

/// The first `n` bytes of `buf`, as their own vector.
fn head_copy(buf: &Vec<u8>, n: usize) -> (h: Vec<u8>)
    requires
        n <= buf.len(),
    ensures
        h@ == buf@.subrange(0, n as int),
{
    let mut h: Vec<u8> = Vec::new();
    let mut i: usize = 0;
    while i < n
        invariant
            i <= n,
            n <= buf@.len(),
            h@.len() == i,
            forall|j: int| 0 <= j < i ==> h@[j] == buf@[j],
        decreases n - i,
    {
        h.push(buf[i]);
        i += 1;
    }
    proof {
        assert(h@ =~= buf@.subrange(0, n as int));
    }
    h
}

/// Copies `src` over the head of `buf` and zeroes the rest.
fn overwrite_head_zero_tail(buf: &mut Vec<u8>, src: &Vec<u8>)
    requires
        src.len() <= old(buf).len(),
    ensures
        final(buf)@.len() == old(buf)@.len(),
        final(buf)@.subrange(0, src@.len() as int) == src@,
        forall|i: int| src@.len() <= i < final(buf)@.len() ==> final(buf)@[i] == 0u8,
{
    let n = src.len();
    let total = buf.len();
    let mut i: usize = 0;
    while i < n
        invariant
            i <= n,
            n <= total,
            n == src@.len(),
            buf@.len() == total,
            forall|j: int| 0 <= j < i ==> buf@[j] == src@[j],
        decreases n - i,
    {
        buf.set(i, src[i]);
        i += 1;
    }
    let mut k: usize = n;
    while k < total
        invariant
            n <= k <= total,
            n == src@.len(),
            buf@.len() == total,
            forall|j: int| 0 <= j < n ==> buf@[j] == src@[j],
            forall|j: int| n <= j < k ==> buf@[j] == 0u8,
        decreases total - k,
    {
        buf.set(k, 0);
        k += 1;
    }
    proof {
        assert(buf@.subrange(0, src@.len() as int) =~= src@);
    }
}

impl CompressionAlgorithm {
    /// What this codec's compressor emits for the given bytes.
    pub open spec fn spec_compressed(self, s: Seq<u8>) -> Seq<u8> {
        match self {
            CompressionAlgorithm::LZ4 => lz4_compressed(s),
            CompressionAlgorithm::Snappy => snappy_compressed(s),
        }
    }

    /// Whether this codec accepts the input at all: LZ4 takes anything,
    /// Snappy refuses inputs whose worst-case output passes its four-byte
    /// length bound.
    pub open spec fn spec_compressible(self, s: Seq<u8>) -> bool {
        match self {
            CompressionAlgorithm::LZ4 => true,
            CompressionAlgorithm::Snappy => 32 + s.len() + s.len() / 6 <= 0xffff_ffff,
        }
    }

    /// The buffer after a successful in-place compression of contents `s`:
    /// the compressed bytes, then zeroes up to the original length.
    pub open spec fn spec_in_place_image(self, s: Seq<u8>) -> Seq<u8> {
        self.spec_compressed(s) + Seq::new(
            (s.len() - self.spec_compressed(s).len()) as nat,
            |i: int| 0u8,
        )
    }

    /// What this codec's decompressor emits for a compressed head, under
    /// the capacity of the surrounding buffer, whenever it succeeds.
    pub open spec fn spec_expanded(self, comp: Seq<u8>, cap: nat) -> Seq<u8> {
        match self {
            CompressionAlgorithm::LZ4 => lz4_expanded(comp, cap),
            CompressionAlgorithm::Snappy => snappy_expanded(comp),
        }
    }

    /// Compresses `input`, returning the codec's output bytes. Fails only
    /// when the codec refuses the input.
    pub fn compress(&self, input: &Vec<u8>) -> (r: Option<Vec<u8>>)
        ensures
            (match r {
                Some(v) => v@ == self.spec_compressed(input@),
                None => true,
            }),
            r is Some <==> self.spec_compressible(input@),
    {
        match self {
            CompressionAlgorithm::LZ4 => Some(lz4_compress(input)),
            CompressionAlgorithm::Snappy => snappy_compress(input),
        }
    }

    /// Decompresses the first `compressed_size` bytes of `input`; the
    /// result never grows past `input`'s own length for LZ4, and for either
    /// codec the output of `compress` comes back as the original bytes.
    pub fn decompress(&self, input: &Vec<u8>, compressed_size: usize) -> (r: Option<Vec<u8>>)
        requires
            compressed_size <= input.len(),
        ensures
            (match r {
                Some(v) => v@ == self.spec_expanded(
                    input@.subrange(0, compressed_size as int),
                    input@.len() as nat,
                ),
                None => true,
            }),
            forall|s: Seq<u8>|
                (#[trigger] self.spec_compressed(s)) == input@.subrange(0, compressed_size as int)
                    && s.len() <= input@.len() ==> (r matches Some(v) && v@ == s),
    {
        let head = head_copy(input, compressed_size);
        match self {
            CompressionAlgorithm::LZ4 => lz4_decompress(&head, input.len()),
            CompressionAlgorithm::Snappy => snappy_decompress(&head),
        }
    }

    /// Compresses the buffer in place: on success the head holds the
    /// compressed bytes, the tail up to the original length is zeroed, and
    /// the compressed length comes back. Fails — leaving the buffer bitwise
    /// unchanged — exactly when the codec refuses the input or its output
    /// would not fit the buffer.
    pub fn compress_in_place(&self, input: &mut Vec<u8>) -> (r: Option<usize>)
        ensures
            (match r {
                Some(n) => {
                    &&& self.spec_compressible(old(input)@)
                    &&& n == self.spec_compressed(old(input)@).len()
                    &&& n <= old(input)@.len()
                    &&& final(input)@ == self.spec_in_place_image(old(input)@)
                },
                None => {
                    &&& final(input)@ == old(input)@
                    &&& (!self.spec_compressible(old(input)@) || self.spec_compressed(
                        old(input)@,
                    ).len() > old(input)@.len())
                },
            }),
            r is Some <==> (self.spec_compressible(old(input)@) && self.spec_compressed(
                old(input)@,
            ).len() <= old(input)@.len()),
    {
        let compressed = match self.compress(input) {
            Some(c) => c,
            None => {
                return None;
            },
        };
        if compressed.len() > input.len() {
            return None;
        }
        overwrite_head_zero_tail(input, &compressed);
        proof {
            assert(input@ =~= self.spec_in_place_image(old(input)@));
        }
        Some(compressed.len())
    }

    /// Decompresses a buffer compressed in place: the head holds
    /// `compressed_size` compressed bytes. On success the buffer holds the
    /// decompressed bytes, then zeroes; on failure it is bitwise unchanged.
    /// The image a successful `compress_in_place` left behind always comes
    /// back as the original contents.
    pub fn decompress_in_place(&self, input: &mut Vec<u8>, compressed_size: usize) -> (r: Option<
        usize,
    >)
        requires
            compressed_size <= old(input).len(),
        ensures
            (match r {
                Some(n) => {
                    &&& n <= final(input)@.len()
                    &&& final(input)@.len() == old(input)@.len()
                    &&& n == self.spec_expanded(
                        old(input)@.subrange(0, compressed_size as int),
                        old(input)@.len() as nat,
                    ).len()
                    &&& final(input)@.subrange(0, n as int) == self.spec_expanded(
                        old(input)@.subrange(0, compressed_size as int),
                        old(input)@.len() as nat,
                    )
                    &&& forall|i: int| n <= i < final(input)@.len() ==> final(input)@[i] == 0u8
                },
                None => final(input)@ == old(input)@,
            }),
            forall|s: Seq<u8>|
                old(input)@ == self.spec_in_place_image(s) && s.len() == old(input)@.len()
                    && compressed_size == self.spec_compressed(s).len() ==> (r matches Some(n)
                    && n == s.len() && final(input)@ == s),
    {
        let ghost pre = input@;
        let decompressed = match self.decompress(input, compressed_size) {
            Some(d) => d,
            None => {
                proof {
                    self.lemma_image_head(pre, compressed_size);
                }
                return None;
            },
        };
        if decompressed.len() > input.len() {
            proof {
                self.lemma_image_head(pre, compressed_size);
            }
            return None;
        }
        overwrite_head_zero_tail(input, &decompressed);
        proof {
            self.lemma_image_head(pre, compressed_size);
            assert forall|s: Seq<u8>|
                pre == self.spec_in_place_image(s) && s.len() == pre.len() && compressed_size
                    == self.spec_compressed(s).len() implies decompressed@ == s && input@
                == s by {
                assert(input@ =~= decompressed@);
            }
        }
        Some(decompressed.len())
    }

    /// The head of an in-place image is exactly the compressed bytes.
    proof fn lemma_image_head(self, pre: Seq<u8>, compressed_size: usize)
        ensures
            forall|s: Seq<u8>|
                pre == self.spec_in_place_image(s) && s.len() >= self.spec_compressed(s).len()
                    && compressed_size == self.spec_compressed(s).len() && compressed_size
                    <= pre.len() ==> (#[trigger] self.spec_compressed(s)) == pre.subrange(
                    0,
                    compressed_size as int,
                ),
    {
        assert forall|s: Seq<u8>|
            pre == self.spec_in_place_image(s) && s.len() >= self.spec_compressed(s).len()
                && compressed_size == self.spec_compressed(s).len() && compressed_size
                <= pre.len() implies (#[trigger] self.spec_compressed(s)) == pre.subrange(
            0,
            compressed_size as int,
        ) by {
            assert(pre.subrange(0, compressed_size as int) =~= self.spec_compressed(s));
        }
    }
}

} // verus!
