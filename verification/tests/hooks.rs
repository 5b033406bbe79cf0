use memtrack::compress::CompressionAlgorithm;
use memtrack::hooks::{
    detect_faulting_operation, detect_faulting_operation_x86, is_write_fault_x86, FaultAccess,
    HookEntry, HookState, RegisterOutcome,
};
use memtrack::interval::{
    CompressAlloc, IntervalConfig, IntervalSuite, IntervalTest, RegionBytes,
};
use memtrack::logger::{color_code, color_reset, level_enabled, LogLevel};
use memtrack::perms::{Permissions, ProtCmd};

const PAGE: usize = 4096;

fn config() -> IntervalConfig {
    IntervalConfig { interval_ms: 1000 }
}

fn pattern(len: usize) -> Vec<u8> {
    let mut v = Vec::with_capacity(len);
    for i in 0..len {
        v.push((i % 256) as u8);
    }
    v
}

fn net(cmds: &[ProtCmd], addr: usize) -> Option<Permissions> {
    for c in cmds.iter().rev() {
        if c.start <= addr && addr - c.start < c.len {
            return Some(c.perms);
        }
    }
    None
}

fn fresh_state() -> HookState {
    HookState::new(IntervalSuite::from_tests(vec![IntervalTest::Compress(
        CompressAlloc::new(CompressionAlgorithm::LZ4),
    )]))
}

#[test]
fn reentry_guard_forwards_nested_entries() {
    let mut state = fresh_state();
    assert!(!state.is_in_hook());
    assert_eq!(state.enter_hook(), HookEntry::Proceed);
    assert!(state.is_in_hook());
    // a nested entry while the guard is up must forward and mutate nothing
    assert_eq!(state.enter_hook(), HookEntry::Forward);
    assert!(state.is_in_hook());
    assert_eq!(state.get_tracked_allocation(PAGE), None);
    state.exit_hook();
    assert!(!state.is_in_hook());
}

#[test]
fn malloc_protects_new_region() {
    let mut state = fresh_state();
    assert_eq!(state.enter_hook(), HookEntry::Proceed);
    let mut mem: Vec<RegionBytes> = Vec::new();
    let (outcome, cmds) = state.on_malloc(PAGE, 100, &config(), 0, PAGE, &mut mem);
    assert_eq!(outcome, RegisterOutcome::Fresh);
    // every address of every page the region touches ends inaccessible
    for addr in [PAGE, PAGE + 50, PAGE + 99, PAGE + 4095] {
        assert_eq!(net(&cmds, addr), Some(Permissions::none()), "addr {addr}");
    }
    state.exit_hook();
    assert_eq!(
        state.get_tracked_allocation(PAGE + 50),
        Some(memtrack::track::Block::new(PAGE, 100))
    );
}

#[test]
fn fault_read_then_write_upgrades_page() {
    let mut state = fresh_state();
    state.enter_hook();
    let mut mem: Vec<RegionBytes> = Vec::new();
    let (_, _) = state.on_malloc(PAGE, PAGE, &config(), 0, PAGE, &mut mem);
    state.exit_hook();

    // first fault: a read of ptr[0]
    let (entry, cmd) = state.fault_entry(PAGE, PAGE);
    assert_eq!(entry, HookEntry::Proceed);
    assert!(cmd.is_none());
    let block = state.get_tracked_allocation(PAGE).expect("tracked");
    let mut bytes = pattern(PAGE);
    let (_, _) = state.suite.on_access(&block, false, &mut bytes, PAGE);
    let close = state.fault_close(PAGE, false, PAGE);
    // the page comes back readable but not writable
    assert!(close.perms.read);
    assert!(!close.perms.write);
    assert_eq!(close.start, PAGE);
    assert_eq!(close.len, PAGE);
    state.exit_hook();

    // second fault: the write re-faults and upgrades to read/write
    let (entry, _) = state.fault_entry(PAGE, PAGE);
    assert_eq!(entry, HookEntry::Proceed);
    let (_, _) = state.suite.on_access(&block, true, &mut bytes, PAGE);
    let close = state.fault_close(PAGE, true, PAGE);
    assert!(close.perms.read);
    assert!(close.perms.write);
    state.exit_hook();
}

#[test]
fn nested_fault_reopens_page_and_returns() {
    let mut state = fresh_state();
    state.enter_hook();
    // a fault raised while the guard is up is the library's own access:
    // open the page and get out
    let (entry, cmd) = state.fault_entry(3 * PAGE + 17, PAGE);
    assert_eq!(entry, HookEntry::Forward);
    let cmd = cmd.expect("the nested fault path must open the page");
    assert_eq!(cmd.start, 3 * PAGE);
    assert_eq!(cmd.len, PAGE);
    assert_eq!(cmd.perms, Permissions::read_write());
    assert!(state.is_in_hook());
}

#[test]
fn munmap_of_untracked_address_changes_nothing() {
    let mut state = fresh_state();
    state.enter_hook();
    let mut mem: Vec<RegionBytes> = Vec::new();
    let (_, _) = state.on_malloc(PAGE, PAGE, &config(), 0, PAGE, &mut mem);
    // unmapping an address nobody tracks: forwarded, no deallocation event,
    // registry unchanged
    let (found, _) = state.on_munmap(9 * PAGE, &config(), 0, PAGE, &mut mem);
    assert_eq!(found, None);
    state.exit_hook();
    assert!(state.get_tracked_allocation(PAGE).is_some());
}

#[test]
fn free_deregisters_and_reports() {
    let mut state = fresh_state();
    state.enter_hook();
    let mut mem: Vec<RegionBytes> = Vec::new();
    let (_, _) = state.on_malloc(PAGE, 128, &config(), 0, PAGE, &mut mem);
    let (found, cmds) = state.on_free(PAGE, &config(), 1, PAGE, &mut mem);
    assert_eq!(found, Some(memtrack::track::Block::new(PAGE, 128)));
    // the deallocation event is fenced: the span ends protected
    for addr in [PAGE, PAGE + 127] {
        assert_eq!(net(&cmds, addr), Some(Permissions::none()), "addr {addr}");
    }
    let (found, _) = state.on_free(PAGE, &config(), 2, PAGE, &mut mem);
    assert_eq!(found, None);
    state.exit_hook();
}

#[test]
fn registry_overflow_leaves_pointer_untracked() {
    let mut state = fresh_state();
    state.enter_hook();
    let mut mem: Vec<RegionBytes> = Vec::new();
    for i in 0..memtrack::config::MAX_TRACKED_ALLOCATIONS {
        let base = PAGE + i * 2 * PAGE;
        let outcome = state.track_allocation(base, PAGE);
        assert_eq!(outcome, RegisterOutcome::Fresh);
    }
    let overflow_base = PAGE + memtrack::config::MAX_TRACKED_ALLOCATIONS * 2 * PAGE;
    let (outcome, cmds) =
        state.on_malloc(overflow_base, PAGE, &config(), 0, PAGE, &mut mem);
    // the caller still gets its pointer; only the registry refused
    assert_eq!(outcome, RegisterOutcome::RegistryFull);
    // the region is protected all the same, so the next touch faults ...
    assert_eq!(net(&cmds, overflow_base), Some(Permissions::none()));
    state.exit_hook();
    // ... and the handler's lookup then finds nothing: it aborts
    assert_eq!(state.get_tracked_allocation(overflow_base), None);
}

#[test]
fn detect_faulting_operation_decodes_loads_and_stores() {
    // LDR / LDRB / LDRH encodings are reads
    assert_eq!(detect_faulting_operation(0xB9400123), Some(FaultAccess::Read));
    assert_eq!(detect_faulting_operation(0x39400001), Some(FaultAccess::Read));
    assert_eq!(detect_faulting_operation(0x79400001), Some(FaultAccess::Read));
    // STR / STRB / STRH encodings are writes
    assert_eq!(detect_faulting_operation(0xB9000123), Some(FaultAccess::Write));
    assert_eq!(detect_faulting_operation(0x39000001), Some(FaultAccess::Write));
    assert_eq!(detect_faulting_operation(0x79000001), Some(FaultAccess::Write));
    // anything else is unknown
    assert_eq!(detect_faulting_operation(0xD503201F), None);
    assert_eq!(detect_faulting_operation(0), None);
}

#[test]
fn x86_fault_classification() {
    assert_eq!(detect_faulting_operation_x86(0x8B), Some(FaultAccess::Read));
    assert_eq!(detect_faulting_operation_x86(0x89), Some(FaultAccess::Write));
    assert_eq!(detect_faulting_operation_x86(0x90), None);
    assert!(is_write_fault_x86(0x2));
    assert!(is_write_fault_x86(0x7));
    assert!(!is_write_fault_x86(0x5));
    assert!(!is_write_fault_x86(0));
}

#[test]
fn log_level_filter() {
    assert!(level_enabled(LogLevel::Error, LogLevel::Trace));
    assert!(level_enabled(LogLevel::Warn, LogLevel::Warn));
    assert!(!level_enabled(LogLevel::Debug, LogLevel::Info));
    assert!(!level_enabled(LogLevel::Trace, LogLevel::Error));
    assert_eq!(color_code(LogLevel::Error), "\x1b[31m");
    assert_eq!(color_code(LogLevel::Trace), "\x1b[36m");
    assert_eq!(color_reset(), "\x1b[0m");
}
