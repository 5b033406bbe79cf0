use memtrack::compress::CompressionAlgorithm;

fn pattern(len: usize) -> Vec<u8> {
    let mut v = Vec::with_capacity(len);
    for i in 0..len {
        v.push((i % 256) as u8);
    }
    v
}

fn in_place_image(algo: CompressionAlgorithm, original: &[u8]) -> Vec<u8> {
    let compressed = algo
        .compress(&original.to_vec())
        .expect("compression of a small buffer must succeed");
    let mut image = compressed.clone();
    image.resize(original.len(), 0);
    image
}

#[test]
fn lz4_roundtrip_pattern_page() {
    let algo = CompressionAlgorithm::LZ4;
    let original = pattern(4096);
    let mut buf = original.clone();
    let compressed_size = algo
        .compress_in_place(&mut buf)
        .expect("a repeating pattern must compress into its own buffer");
    assert!(compressed_size < 4096);
    assert_eq!(buf.len(), 4096);
    // compressed head, zeroed tail
    for i in compressed_size..4096 {
        assert_eq!(buf[i], 0);
    }
    let restored = algo
        .decompress_in_place(&mut buf, compressed_size)
        .expect("the compressed image must decompress");
    assert_eq!(restored, 4096);
    assert_eq!(buf, original);
}

#[test]
fn snappy_roundtrip_pattern_page() {
    let algo = CompressionAlgorithm::Snappy;
    let original = pattern(4096);
    let mut buf = original.clone();
    let compressed_size = algo
        .compress_in_place(&mut buf)
        .expect("a repeating pattern must compress into its own buffer");
    assert!(compressed_size < 4096);
    let restored = algo
        .decompress_in_place(&mut buf, compressed_size)
        .expect("the compressed image must decompress");
    assert_eq!(restored, 4096);
    assert_eq!(buf, original);
}

#[test]
fn failed_compression_leaves_buffer_unchanged() {
    for algo in [CompressionAlgorithm::LZ4, CompressionAlgorithm::Snappy] {
        // Eight distinct bytes cannot shrink: any codec framing makes the
        // output longer than the buffer.
        let original: Vec<u8> = vec![7, 3, 254, 11, 90, 151, 2, 63];
        let mut buf = original.clone();
        assert_eq!(algo.compress_in_place(&mut buf), None);
        assert_eq!(buf, original);
    }
}

#[test]
fn failed_decompression_leaves_buffer_unchanged() {
    // A head of 0xFF bytes is not a valid block for either codec.
    for algo in [CompressionAlgorithm::LZ4, CompressionAlgorithm::Snappy] {
        let original: Vec<u8> = vec![0xFF; 64];
        let mut buf = original.clone();
        assert_eq!(algo.decompress_in_place(&mut buf, 64), None);
        assert_eq!(buf, original);
    }
}

#[test]
fn compress_matches_in_place_head() {
    for algo in [CompressionAlgorithm::LZ4, CompressionAlgorithm::Snappy] {
        let original = pattern(1024);
        let image = in_place_image(algo, &original);
        let mut buf = original.clone();
        let n = algo.compress_in_place(&mut buf).expect("must compress");
        assert_eq!(buf, image);
        let direct = algo.compress(&original).expect("must compress");
        assert_eq!(n, direct.len());
        assert_eq!(&buf[..n], &direct[..]);
    }
}

#[test]
fn decompress_returns_original_bytes() {
    for algo in [CompressionAlgorithm::LZ4, CompressionAlgorithm::Snappy] {
        let original = pattern(512);
        let compressed = algo.compress(&original).expect("must compress");
        // decompress reads the compressed head of a buffer sized like the
        // original region
        let mut region = compressed.clone();
        region.resize(512, 0);
        let out = algo
            .decompress(&region, compressed.len())
            .expect("must decompress");
        assert_eq!(out, original);
    }
}

#[test]
fn empty_buffer_compression() {
    let algo = CompressionAlgorithm::LZ4;
    let mut buf: Vec<u8> = Vec::new();
    // LZ4 output of even an empty input needs at least one token byte, so
    // it cannot fit a zero-length buffer.
    assert_eq!(algo.compress_in_place(&mut buf), None);
    assert_eq!(buf.len(), 0);
}
