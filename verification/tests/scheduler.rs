use memtrack::compress::CompressionAlgorithm;
use memtrack::interval::{
    CompressAlloc, DummyCompressInterval, DummyInterval, IntervalConfig, IntervalSuite,
    IntervalTest, RegionBytes,
};
use memtrack::perms::{Permissions, ProtCmd};
use memtrack::track::{Block, Track};

const PAGE: usize = 4096;

fn config() -> IntervalConfig {
    IntervalConfig { interval_ms: 1000 }
}

fn pattern(len: usize, seed: usize) -> Vec<u8> {
    let mut v = Vec::with_capacity(len);
    for i in 0..len {
        v.push(((i + seed) % 256) as u8);
    }
    v
}

/// The permission an address ends with after the commands run in order.
fn net(cmds: &[ProtCmd], addr: usize) -> Option<Permissions> {
    for c in cmds.iter().rev() {
        if c.start <= addr && addr - c.start < c.len {
            return Some(c.perms);
        }
    }
    None
}

#[test]
fn schedule_runs_once_per_interval() {
    let mut suite = IntervalSuite::from_tests(vec![IntervalTest::Dummy(DummyInterval)]);
    let track = Track::new();
    let mut mem: Vec<RegionBytes> = Vec::new();
    // the first call is always ready
    let (ran, _) = suite.schedule(&config(), 0, &track, PAGE, &mut mem);
    assert!(ran);
    // a second call within interval_ms executes nothing
    let (ran, cmds) = suite.schedule(&config(), 999, &track, PAGE, &mut mem);
    assert!(!ran);
    assert!(cmds.is_empty());
    // once the interval has passed, the next one is due
    let (ran, _) = suite.schedule(&config(), 1000, &track, PAGE, &mut mem);
    assert!(ran);
}

#[test]
fn schedule_protects_all_tracked_pages() {
    let mut suite = IntervalSuite::new();
    let mut track = Track::new();
    // two regions, one of them crossing a page boundary
    track.insert(Block::new(PAGE, 100)).unwrap();
    track.insert(Block::new(4 * PAGE + 8, 2 * PAGE)).unwrap();
    let mut mem: Vec<RegionBytes> = Vec::new();
    let (ran, cmds) = suite.schedule(&config(), 0, &track, PAGE, &mut mem);
    assert!(ran);
    for addr in [
        PAGE,
        PAGE + 99,
        4 * PAGE,
        4 * PAGE + 8,
        5 * PAGE,
        6 * PAGE,
        6 * PAGE + 7,
    ] {
        assert_eq!(net(&cmds, addr), Some(Permissions::none()), "addr {addr}");
    }
}

#[test]
fn fence_commands_deduplicate_shared_pages() {
    let suite = IntervalSuite::new();
    let mut track = Track::new();
    // two small regions on the same page
    track.insert(Block::new(PAGE, 16)).unwrap();
    track.insert(Block::new(PAGE + 64, 16)).unwrap();
    let cmds = suite.protect_allocations(&track, PAGE);
    assert_eq!(cmds.len(), 1);
    assert_eq!(cmds[0].start, PAGE);
    assert_eq!(cmds[0].len, PAGE);
}

#[test]
fn interval_compresses_and_access_restores() {
    // two tracked regions; after an interval both are compressed, a touch
    // of the first restores it and leaves the second compressed
    let algo = CompressionAlgorithm::LZ4;
    let a = Block::new(PAGE, PAGE);
    let b = Block::new(4 * PAGE, PAGE);
    let bytes_a = pattern(PAGE, 0);
    let bytes_b = pattern(PAGE, 7);
    let image_a = {
        let mut v = algo.compress(&bytes_a).unwrap();
        v.resize(PAGE, 0);
        v
    };
    let image_b = {
        let mut v = algo.compress(&bytes_b).unwrap();
        v.resize(PAGE, 0);
        v
    };

    let mut track = Track::new();
    track.insert(a).unwrap();
    track.insert(b).unwrap();
    let mut suite = IntervalSuite::from_tests(vec![IntervalTest::Compress(CompressAlloc::new(
        algo,
    ))]);
    let mut mem = vec![
        RegionBytes { block: a, bytes: bytes_a.clone() },
        RegionBytes { block: b, bytes: bytes_b.clone() },
    ];

    let (ran, _) = suite.schedule(&config(), 0, &track, PAGE, &mut mem);
    assert!(ran);
    assert_eq!(mem[0].bytes, image_a);
    assert_eq!(mem[1].bytes, image_b);

    // touch a: the access dispatch decompresses it
    let (restored, cmds) = suite.on_access(&a, false, &mut mem[0].bytes, PAGE);
    assert!(restored);
    assert_eq!(mem[0].bytes, bytes_a);
    // b stays compressed
    assert_eq!(mem[1].bytes, image_b);
    // the fence leaves the whole region protected; the fault handler then
    // re-opens the faulting page
    assert_eq!(net(&cmds, PAGE + 5), Some(Permissions::none()));

    // a second access to a finds nothing compressed and changes nothing
    let (restored, _) = suite.on_access(&a, false, &mut mem[0].bytes, PAGE);
    assert!(!restored);
    assert_eq!(mem[0].bytes, bytes_a);
}

#[test]
fn dummy_compress_interval_preserves_contents() {
    let mut test = DummyCompressInterval(CompressionAlgorithm::Snappy);
    let block = Block::new(PAGE, 512);
    let original = pattern(512, 3);
    let mut mem = vec![RegionBytes { block, bytes: original.clone() }];
    test.on_interval(&mut mem);
    assert_eq!(mem[0].bytes, original);
}

#[test]
fn suite_bookkeeping() {
    let mut suite = IntervalSuite::new();
    suite.add_test(IntervalTest::Dummy(DummyInterval));
    suite.add_test(IntervalTest::DummyCompress(DummyCompressInterval(
        CompressionAlgorithm::LZ4,
    )));
    assert!(suite.is_ready(&config(), 0));
    let track = Track::new();
    let mut mem: Vec<RegionBytes> = Vec::new();
    let (ran, _) = suite.schedule(&config(), 5, &track, PAGE, &mut mem);
    assert!(ran);
    assert!(!suite.is_ready(&config(), 5));
    assert!(!suite.is_ready(&config(), 1004));
    assert!(suite.is_ready(&config(), 1005));
}

#[test]
fn alloc_event_fence_ends_protected() {
    let mut suite = IntervalSuite::new();
    let block = Block::new(PAGE, 100);
    let cmds = suite.on_alloc(&block, PAGE);
    // the event is bracketed: open first, closed at the end
    assert_eq!(cmds.first().map(|c| c.perms), Some(Permissions::read_write()));
    for addr in [PAGE, PAGE + 99] {
        assert_eq!(net(&cmds, addr), Some(Permissions::none()), "addr {addr}");
    }
    let cmds = suite.on_dealloc(&block, PAGE);
    assert_eq!(net(&cmds, PAGE + 50), Some(Permissions::none()));
}

#[test]
fn snappy_side_table_roundtrip() {
    let algo = CompressionAlgorithm::Snappy;
    let mut test = CompressAlloc::new(algo);
    let block = Block::new(PAGE, PAGE);
    let original = pattern(PAGE, 9);
    let mut mem = vec![RegionBytes { block, bytes: original.clone() }];
    test.compress_all_allocations(&mut mem);
    assert!(test.is_compressed(&block));
    assert_ne!(mem[0].bytes, original);
    assert!(test.decompress_allocation(&block, &mut mem[0].bytes));
    assert_eq!(mem[0].bytes, original);
}

#[test]
fn compress_alloc_side_table() {
    let algo = CompressionAlgorithm::LZ4;
    let mut test = CompressAlloc::new(algo);
    let block = Block::new(PAGE, PAGE);
    assert!(!test.is_compressed(&block));
    let original = pattern(PAGE, 1);
    let mut mem = vec![RegionBytes { block, bytes: original.clone() }];
    test.compress_all_allocations(&mut mem);
    assert!(test.is_compressed(&block));
    let restored = test.decompress_allocation(&block, &mut mem[0].bytes);
    assert!(restored);
    assert!(!test.is_compressed(&block));
    assert_eq!(mem[0].bytes, original);
    // decompressing an untracked block reports failure and changes nothing
    let untouched = mem[0].bytes.clone();
    assert!(!test.decompress_allocation(&block, &mut mem[0].bytes));
    assert_eq!(mem[0].bytes, untouched);
}
