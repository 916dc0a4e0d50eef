use disk_dashboard::coordinator::SizeCoordinator;
use disk_dashboard::dirsize::{
    calculate_dir_size_recursive, calculate_dir_size_recursive_limited, calculate_dir_size_shallow,
    FsEntry,
};
use disk_dashboard::human_size::format_size;

// ==================== Size Formatting Tests ====================

#[test]
fn test_format_size_bytes() {
    assert_eq!(format_size(0), "0 B");
    assert_eq!(format_size(512), "512 B");
    assert_eq!(format_size(1023), "1023 B");
}

#[test]
fn test_format_size_kilobytes() {
    assert_eq!(format_size(1024), "1.0 KB");
    assert_eq!(format_size(1536), "1.5 KB");
    assert_eq!(format_size(1024 * 100), "100.0 KB");
}

#[test]
fn test_format_size_megabytes() {
    assert_eq!(format_size(1024 * 1024), "1.0 MB");
    assert_eq!(format_size(1024 * 1024 * 500), "500.0 MB");
}

#[test]
fn test_format_size_gigabytes() {
    assert_eq!(format_size(1024 * 1024 * 1024), "1.00 GB");
    assert_eq!(format_size(1024 * 1024 * 1024 * 2), "2.00 GB");
}

#[test]
fn test_format_size_terabytes() {
    assert_eq!(format_size(1024u64 * 1024 * 1024 * 1024), "1.00 TB");
    assert_eq!(format_size(1024u64 * 1024 * 1024 * 1024 * 5), "5.00 TB");
}

#[test]
fn test_format_size_rounds_to_nearest() {
    // 1075 B is 1.0498 KB: rounds down.
    assert_eq!(format_size(1075), "1.0 KB");
    // 1131 B is 1.104 KB: still one decimal.
    assert_eq!(format_size(1131), "1.1 KB");
}

#[test]
fn test_format_size_ties_go_to_even() {
    // 1280 B is exactly 1.25 KB: the tie rounds to the even digit.
    assert_eq!(format_size(1280), "1.2 KB");
    // 1792 B is exactly 1.75 KB: the tie rounds up to the even digit.
    assert_eq!(format_size(1792), "1.8 KB");
}

// ==================== Directory Size Aggregation Tests ====================

fn file(name: &str, size: u64) -> FsEntry {
    FsEntry::File { name: name.to_string(), size }
}

fn dir(name: &str, children: Vec<FsEntry>) -> FsEntry {
    FsEntry::Dir { name: name.to_string(), children }
}

#[test]
fn test_depth_zero_counts_only_immediate_files() {
    // At the depth cap only immediate file children count: no recursion.
    let entries = vec![
        file("a.txt", 100),
        file("b.txt", 23),
        dir("sub", vec![file("inner.txt", 1000)]),
    ];
    assert_eq!(calculate_dir_size_recursive_limited(&entries, 0), 123);
    assert_eq!(calculate_dir_size_shallow(&entries), 123);
}

#[test]
fn test_nested_directory_total() {
    // D holds a (100 bytes) and E holding b (200 bytes): the bounded walk
    // at depth 2 sees all 300 bytes.
    let d = vec![file("a", 100), dir("E", vec![file("b", 200)])];
    assert_eq!(calculate_dir_size_recursive_limited(&d, 2), 300);
    assert_eq!(calculate_dir_size_recursive(&d), 300);
}

#[test]
fn test_depth_cap_stops_recursion() {
    // A file three levels down is out of reach at depth 2.
    let d = vec![dir("l1", vec![dir("l2", vec![dir("l3", vec![file("deep", 64)]), file("m", 8)])])];
    assert_eq!(calculate_dir_size_recursive_limited(&d, 2), 8);
    assert_eq!(calculate_dir_size_recursive_limited(&d, 3), 72);
}

#[test]
fn test_volatile_directories_are_skipped() {
    let d = vec![
        file("a", 5),
        dir("$RECYCLE.BIN", vec![file("junk", 1000)]),
        dir("System Volume Information", vec![file("meta", 1000)]),
        dir("Windows", vec![file("os", 1000)]),
        dir("normal", vec![file("kept", 7)]),
    ];
    assert_eq!(calculate_dir_size_recursive_limited(&d, 2), 12);
}

#[test]
fn test_size_sum_saturates() {
    // Saturating addition: the sum clamps instead of wrapping.
    let d = vec![file("big", u64::MAX), file("more", 100)];
    assert_eq!(calculate_dir_size_recursive_limited(&d, 0), u64::MAX);
}

// ==================== Coordinator Tests ====================

#[test]
fn test_resolve_size_dispatches_once() {
    // A miss dispatches; a second query before completion returns the
    // pending sentinel and must not dispatch a duplicate computation.
    let mut coordinator = SizeCoordinator::new();
    let (bytes, dispatch) = coordinator.resolve_size("C:\\D");
    assert_eq!(bytes, 0);
    assert!(dispatch);

    let (bytes, dispatch) = coordinator.resolve_size("C:\\D");
    assert_eq!(bytes, 0);
    assert!(!dispatch);
}

#[test]
fn test_resolve_size_returns_recorded_result() {
    let mut coordinator = SizeCoordinator::new();
    let (_, dispatch) = coordinator.resolve_size("C:\\D");
    assert!(dispatch);

    coordinator.record_result("C:\\D", 300);
    let (bytes, dispatch) = coordinator.resolve_size("C:\\D");
    assert_eq!(bytes, 300);
    assert!(!dispatch);
    assert!(!coordinator.has_pending());
}

#[test]
fn test_stale_result_is_discarded() {
    // A result for a path that is no longer pending is dropped.
    let mut coordinator = SizeCoordinator::new();
    coordinator.record_result("C:\\gone", 999);
    assert_eq!(coordinator.peek_cached("C:\\gone"), None);
}

#[test]
fn test_invalidate_clears_path_and_ancestors() {
    // After a deletion under E, the next query for E and for D must miss
    // the cache again (and dispatch anew).
    let mut coordinator = SizeCoordinator::new();
    coordinator.resolve_size("C:\\D");
    coordinator.record_result("C:\\D", 300);
    coordinator.resolve_size("C:\\D\\E");
    coordinator.record_result("C:\\D\\E", 200);
    coordinator.resolve_size("C:\\Other");
    coordinator.record_result("C:\\Other", 42);

    coordinator.invalidate("C:\\D\\E\\b");

    assert_eq!(coordinator.peek_cached("C:\\D\\E"), None);
    assert_eq!(coordinator.peek_cached("C:\\D"), None);
    // Unrelated siblings keep their sizes.
    assert_eq!(coordinator.peek_cached("C:\\Other"), Some(42));

    let (bytes, dispatch) = coordinator.resolve_size("C:\\D");
    assert_eq!(bytes, 0);
    assert!(dispatch);
    let (bytes, dispatch) = coordinator.resolve_size("C:\\D\\E");
    assert_eq!(bytes, 0);
    assert!(dispatch);
}

#[test]
fn test_invalidate_does_not_touch_siblings() {
    let mut coordinator = SizeCoordinator::new();
    coordinator.resolve_size("C:\\D\\E");
    coordinator.record_result("C:\\D\\E", 200);
    coordinator.resolve_size("C:\\D\\EX");
    coordinator.record_result("C:\\D\\EX", 500);

    coordinator.invalidate("C:\\D\\E\\b");

    // "C:\\D\\EX" shares a name prefix with "C:\\D\\E" but is no ancestor.
    assert_eq!(coordinator.peek_cached("C:\\D\\EX"), Some(500));
    assert_eq!(coordinator.peek_cached("C:\\D\\E"), None);
}

#[test]
fn test_invalidate_drops_affected_pending_work() {
    let mut coordinator = SizeCoordinator::new();
    let (_, dispatch) = coordinator.resolve_size("C:\\D");
    assert!(dispatch);

    coordinator.invalidate("C:\\D\\E\\b");

    // The in-flight ancestor computation was dropped: its late result is
    // discarded, and a new query dispatches again.
    coordinator.record_result("C:\\D", 300);
    assert_eq!(coordinator.peek_cached("C:\\D"), None);
    let (_, dispatch) = coordinator.resolve_size("C:\\D");
    assert!(dispatch);
}

#[test]
fn test_has_pending_tracks_in_flight_work() {
    let mut coordinator = SizeCoordinator::new();
    assert!(!coordinator.has_pending());
    coordinator.resolve_size("C:\\D");
    assert!(coordinator.has_pending());
    coordinator.record_result("C:\\D", 1);
    assert!(!coordinator.has_pending());
}

#[test]
fn test_recorded_size_overwrites_after_new_computation() {
    let mut coordinator = SizeCoordinator::new();
    coordinator.resolve_size("C:\\D");
    coordinator.record_result("C:\\D", 300);
    coordinator.invalidate("C:\\D\\a");
    coordinator.resolve_size("C:\\D");
    coordinator.record_result("C:\\D", 250);
    assert_eq!(coordinator.peek_cached("C:\\D"), Some(250));
}
