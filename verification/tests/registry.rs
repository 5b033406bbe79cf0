use memtrack::config::MAX_TRACKED_ALLOCATIONS;
use memtrack::perms::Permissions;
use memtrack::track::{pagemap_entry_to_physical, Block, Track};
use memtrack::{align_down_to_page_size, align_up_to_page_size};

#[test]
fn alignment_exact_values() {
    assert_eq!(align_up_to_page_size(0, 4096), 0);
    assert_eq!(align_up_to_page_size(1, 4096), 4096);
    assert_eq!(align_up_to_page_size(4096, 4096), 4096);
    assert_eq!(align_up_to_page_size(4097, 4096), 8192);
    assert_eq!(align_down_to_page_size(0, 4096), 0);
    assert_eq!(align_down_to_page_size(4095, 4096), 0);
    assert_eq!(align_down_to_page_size(4096, 4096), 4096);
    assert_eq!(align_down_to_page_size(8191, 4096), 4096);
}

#[test]
fn block_contains_and_page_of() {
    let b = Block::new(4096, 100);
    assert_eq!(b.ptr(), 4096);
    assert_eq!(b.size(), 100);
    assert!(b.contains(4096));
    assert!(b.contains(4195));
    assert!(!b.contains(4196));
    assert!(!b.contains(4095));
    let p = Block::page_of(4100, 4096);
    assert_eq!(p.ptr(), 4096);
    assert_eq!(p.size(), 4096);
    let q = Block::page_of(8191, 4096);
    assert_eq!(q.ptr(), 4096);
}

#[test]
fn change_permissions_covers_whole_pages() {
    let b = Block::new(4100, 100);
    let c = b.change_permissions(Permissions::read_write(), 4096);
    assert_eq!(c.start, 4096);
    assert_eq!(c.len, 4096);
    assert_eq!(c.perms.bits(), 3);
    let d = Block::new(4096, 8192).protect(4096);
    assert_eq!(d.start, 4096);
    assert_eq!(d.len, 8192);
    assert_eq!(d.perms.bits(), 0);
}

#[test]
fn permission_bits_layout() {
    assert_eq!(Permissions::none().bits(), 0);
    assert_eq!(Permissions::read_only().bits(), 1);
    assert_eq!(Permissions::read_write().bits(), 3);
    let rwx = Permissions::read_write().union(Permissions {
        read: false,
        write: false,
        execute: true,
    });
    assert_eq!(rwx.bits(), 7);
}

#[test]
fn point_query_finds_owner() {
    let mut t = Track::new();
    assert!(matches!(t.insert(Block::new(4096, 4096)), Ok(false)));
    assert!(matches!(t.insert(Block::new(16384, 100)), Ok(false)));
    // exact base
    assert_eq!(t.get(4096), Some(Block::new(4096, 4096)));
    // interior address resolves to the owning region
    assert_eq!(t.get(4100), Some(Block::new(4096, 4096)));
    assert_eq!(t.get(8191), Some(Block::new(4096, 4096)));
    assert_eq!(t.get(16483), Some(Block::new(16384, 100)));
    // addresses outside every region resolve to nothing
    assert_eq!(t.get(8192), None);
    assert_eq!(t.get(16484), None);
    assert_eq!(t.get(0), None);
    assert_eq!(t.get_size(4100), Some(4096));
    assert_eq!(t.get_size(12288), None);
}

#[test]
fn insert_same_base_replaces() {
    let mut t = Track::new();
    assert!(matches!(t.insert(Block::new(4096, 100)), Ok(false)));
    assert!(matches!(t.insert(Block::new(4096, 200)), Ok(true)));
    assert_eq!(t.get_size(4096), Some(200));
}

#[test]
fn remove_returns_block() {
    let mut t = Track::new();
    t.insert(Block::new(4096, 100)).unwrap();
    assert_eq!(t.remove_ptr(4096), Ok(Block::new(4096, 100)));
    assert_eq!(t.remove_ptr(4096), Err(()));
    assert_eq!(t.get(4096), None);
}

#[test]
fn registry_full_is_reported() {
    let mut t = Track::new();
    for i in 0..MAX_TRACKED_ALLOCATIONS {
        let base = 4096 + i * 8192;
        assert!(matches!(t.insert(Block::new(base, 4096)), Ok(false)));
    }
    let overflow_base = 4096 + MAX_TRACKED_ALLOCATIONS * 8192;
    let extra = Block::new(overflow_base, 4096);
    assert_eq!(t.insert(extra), Err(extra));
    // replacing a tracked base still works on a full registry
    assert!(matches!(t.insert(Block::new(4096, 64)), Ok(true)));
}

#[test]
fn snapshot_and_iteration() {
    let mut t = Track::new();
    t.insert(Block::new(4096, 10)).unwrap();
    t.insert(Block::new(8192, 20)).unwrap();
    let snap = t.snapshot();
    let mut blocks = snap.iter();
    blocks.sort_by_key(|b| b.ptr());
    assert_eq!(blocks, vec![Block::new(4096, 10), Block::new(8192, 20)]);
    let mut owned = t.into_iter();
    owned.sort_by_key(|b| b.ptr());
    assert_eq!(owned, vec![Block::new(4096, 10), Block::new(8192, 20)]);
}

#[test]
fn pagemap_entry_formula() {
    // present bit set, page frame number 5, page size 4096, offset 0x234
    let entry = (1u64 << 63) | 5;
    assert_eq!(
        pagemap_entry_to_physical(entry, 0x1234, 4096),
        Some(5 * 4096 + 0x234)
    );
    // page not present
    assert_eq!(pagemap_entry_to_physical(5, 0x1234, 4096), None);
    // frame number bits above bit 54 are ignored
    let entry = (1u64 << 63) | (1u64 << 55) | 7;
    assert_eq!(
        pagemap_entry_to_physical(entry, 4096, 4096),
        Some(7 * 4096)
    );
}
