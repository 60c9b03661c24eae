use disk_scan::coordinator::ScanResult;
use disk_scan::limits::ScanLimits;
use disk_scan::node::FileInfo;
use disk_scan::snapshot::{scan_fits, scan_tree, try_scan_tree, Entry, ScanError};

fn file(name: &str, size: u64) -> Entry {
    Entry::File { name: name.to_string(), path: format!("/root/{}", name), size }
}

fn dir(name: &str, entries: Vec<Entry>) -> Entry {
    Entry::Directory { name: name.to_string(), path: format!("/root/{}", name), listing: Some(entries) }
}

fn locked_dir(name: &str) -> Entry {
    Entry::Directory { name: name.to_string(), path: format!("/root/{}", name), listing: None }
}

fn scan(root: &Entry, limits: &ScanLimits) -> ScanResult {
    match scan_tree(root, limits) {
        Ok(result) => result,
        Err(error) => panic!("scan failed: {:?}", error),
    }
}

fn names_and_sizes(node: &FileInfo) -> Vec<(String, u64)> {
    let mut out = Vec::new();
    for child in &node.children {
        out.push((child.name.clone(), child.size));
    }
    out
}

fn same_tree(left: &FileInfo, right: &FileInfo) -> bool {
    if left.name != right.name
        || left.path != right.path
        || left.size != right.size
        || left.is_dir != right.is_dir
        || left.children.len() != right.children.len()
    {
        return false;
    }
    for i in 0..left.children.len() {
        if !same_tree(&left.children[i], &right.children[i]) {
            return false;
        }
    }
    true
}

fn check_shape(node: &FileInfo, max_children: usize) {
    if node.is_dir {
        assert!(node.children.len() <= max_children);
        let mut sum: u64 = 0;
        for i in 0..node.children.len() {
            sum += node.children[i].size;
            if i > 0 {
                assert!(node.children[i - 1].size >= node.children[i].size);
            }
            check_shape(&node.children[i], max_children);
        }
        assert_eq!(node.size, sum);
    } else {
        assert!(node.children.is_empty());
    }
}

#[test]
fn one_file_and_one_subdirectory() {
    let root = dir("top", vec![dir("b", vec![file("c.txt", 50)]), file("a.txt", 100)]);
    let result = scan(&root, &ScanLimits::standard());
    assert_eq!(result.total_size, 150);
    assert_eq!(result.file_count, 2);
    assert_eq!(result.error_count, 0);
    assert!(result.root.is_dir);
    assert_eq!(result.root.name, "top");
    assert_eq!(result.root.size, 150);
    assert_eq!(
        names_and_sizes(&result.root),
        vec![("a.txt".to_string(), 100), ("b".to_string(), 50)]
    );
    let b = &result.root.children[1];
    assert!(b.is_dir);
    assert_eq!(b.path, "/root/b");
    assert_eq!(names_and_sizes(b), vec![("c.txt".to_string(), 50)]);
    assert!(!b.children[0].is_dir);
}

#[test]
fn missing_root_is_an_error() {
    let outcome = scan_tree(&Entry::Missing, &ScanLimits::standard());
    match outcome {
        Err(error) => {
            assert_eq!(error, ScanError::PathDoesNotExist);
            assert_eq!(error.message(), "path does not exist");
        }
        Ok(_) => panic!("a missing root must not scan"),
    }
}

#[test]
fn unreadable_root_is_an_error() {
    let outcome = scan_tree(&Entry::Unreadable, &ScanLimits::standard());
    match outcome {
        Err(error) => {
            assert_eq!(error, ScanError::CannotReadMetadata);
            assert_eq!(error.message(), "cannot read metadata");
        }
        Ok(_) => panic!("an unreadable root must not scan"),
    }
}

#[test]
fn root_may_be_a_single_file() {
    let result = scan(&file("only.bin", 7), &ScanLimits::standard());
    assert_eq!(result.total_size, 7);
    assert_eq!(result.file_count, 1);
    assert_eq!(result.error_count, 0);
    assert!(!result.root.is_dir);
    assert_eq!(result.root.size, 7);
    assert_eq!(result.root.name, "only.bin");
    assert_eq!(result.root.path, "/root/only.bin");
    assert!(result.root.children.is_empty());
}

#[test]
fn wide_directory_is_cut_at_the_listing_cap() {
    let mut entries = Vec::new();
    for i in 0..1000u64 {
        entries.push(file(&format!("f{}", i), i + 1));
    }
    let root = dir("wide", entries);
    let result = scan(&root, &ScanLimits::standard());
    // the first 500 in enumeration order have sizes 1..=500
    assert_eq!(result.file_count, 500);
    assert_eq!(result.total_size, 500 * 501 / 2);
    assert_eq!(result.error_count, 0);
    // the tree keeps the 50 largest of those: sizes 451..=500
    assert_eq!(result.root.children.len(), 50);
    assert_eq!(result.root.children[0].size, 500);
    assert_eq!(result.root.children[0].name, "f499");
    assert_eq!(result.root.children[49].size, 451);
    assert_eq!(result.root.size, (451..=500u64).sum::<u64>());
}

#[test]
fn directory_size_is_the_sum_of_retained_children() {
    let mut entries = Vec::new();
    for i in 0..60u64 {
        entries.push(file(&format!("f{}", i), 10 + i));
    }
    let root = dir("many", entries);
    let result = scan(&root, &ScanLimits::standard());
    assert_eq!(result.file_count, 60);
    assert_eq!(result.total_size, (10..70u64).sum::<u64>());
    assert_eq!(result.root.children.len(), 50);
    assert_eq!(result.root.size, (20..70u64).sum::<u64>());
    assert!(result.root.size < result.total_size);
    check_shape(&result.root, 50);
}

#[test]
fn children_of_equal_size_keep_their_order() {
    let root = dir(
        "ties",
        vec![file("a", 5), file("b", 9), file("c", 5), file("d", 9), file("e", 1), file("f", 5)],
    );
    let result = scan(&root, &ScanLimits::standard());
    assert_eq!(
        names_and_sizes(&result.root),
        vec![
            ("b".to_string(), 9),
            ("d".to_string(), 9),
            ("a".to_string(), 5),
            ("c".to_string(), 5),
            ("f".to_string(), 5),
            ("e".to_string(), 1),
        ]
    );
}

#[test]
fn unreadable_directory_counts_one_error_and_spares_its_siblings() {
    let broken = dir(
        "top",
        vec![file("a", 10), locked_dir("secret"), dir("open", vec![file("x", 3), file("y", 4)])],
    );
    let mended = dir(
        "top",
        vec![file("a", 10), dir("secret", vec![]), dir("open", vec![file("x", 3), file("y", 4)])],
    );
    let with_error = scan(&broken, &ScanLimits::standard());
    let without = scan(&mended, &ScanLimits::standard());
    assert_eq!(with_error.error_count, 1);
    assert_eq!(without.error_count, 0);
    assert_eq!(with_error.file_count, 3);
    assert_eq!(with_error.total_size, 17);
    assert_eq!(without.file_count, 3);
    assert_eq!(without.total_size, 17);
    assert!(same_tree(&with_error.root, &without.root));
    assert_eq!(
        names_and_sizes(&with_error.root),
        vec![("a".to_string(), 10), ("open".to_string(), 7), ("secret".to_string(), 0)]
    );
    assert!(with_error.root.children[2].is_dir);
    assert!(with_error.root.children[2].children.is_empty());
}

#[test]
fn unreadable_entries_are_counted_and_dropped() {
    let root = dir("top", vec![Entry::Unreadable, file("a", 10), Entry::Missing]);
    let result = scan(&root, &ScanLimits::standard());
    assert_eq!(result.error_count, 2);
    assert_eq!(result.file_count, 1);
    assert_eq!(result.total_size, 10);
    assert_eq!(names_and_sizes(&result.root), vec![("a".to_string(), 10)]);
}

#[test]
fn unreadable_root_directory_is_an_empty_node() {
    let result = scan(&locked_dir("top"), &ScanLimits::standard());
    assert_eq!(result.error_count, 1);
    assert_eq!(result.file_count, 0);
    assert_eq!(result.total_size, 0);
    assert!(result.root.is_dir);
    assert_eq!(result.root.size, 0);
    assert!(result.root.children.is_empty());
}

#[test]
fn scanning_twice_gives_the_same_result() {
    let root = dir(
        "top",
        vec![
            dir("b", vec![file("c", 50), file("d", 50), locked_dir("e")]),
            file("a", 100),
            Entry::Unreadable,
        ],
    );
    let first = scan(&root, &ScanLimits::standard());
    let second = scan(&root, &ScanLimits::standard());
    assert_eq!(first.total_size, second.total_size);
    assert_eq!(first.file_count, second.file_count);
    assert_eq!(first.error_count, second.error_count);
    assert!(same_tree(&first.root, &second.root));
}

#[test]
fn smaller_cap_never_reports_more() {
    let root = dir(
        "top",
        vec![
            dir("x", vec![file("x1", 6), file("x2", 5), file("x3", 4)]),
            dir("y", vec![file("y1", 9)]),
            file("z", 8),
        ],
    );
    let mut limits = ScanLimits::standard();
    let mut previous: Option<u64> = None;
    for cap in [0usize, 1, 2, 3, 50] {
        limits.max_children = cap;
        let result = scan(&root, &limits);
        check_shape(&result.root, cap);
        assert_eq!(result.total_size, 32);
        assert_eq!(result.file_count, 5);
        if let Some(smaller) = previous {
            assert!(smaller <= result.root.size);
        }
        previous = Some(result.root.size);
    }
    limits.max_children = 1;
    // x shrinks to its largest file, 6, so y with 9 is the one child kept
    let one = scan(&root, &limits);
    assert_eq!(names_and_sizes(&one.root), vec![("y".to_string(), 9)]);
    assert_eq!(one.root.size, 9);
    limits.max_children = 2;
    // x keeps 6 + 5 = 11 and comes first, then y with 9
    let two = scan(&root, &limits);
    assert_eq!(names_and_sizes(&two.root), vec![("x".to_string(), 11), ("y".to_string(), 9)]);
    assert_eq!(two.root.size, 20);
    limits.max_children = 0;
    let none = scan(&root, &limits);
    assert_eq!(none.root.size, 0);
    assert!(none.root.children.is_empty());
}

#[test]
fn file_ceiling_stops_the_scan_without_an_error() {
    let root = dir(
        "top",
        vec![
            dir("x", vec![file("x1", 1), file("x2", 2), file("x3", 4)]),
            file("y", 8),
            locked_dir("z"),
        ],
    );
    let mut limits = ScanLimits::standard();
    limits.max_files = Some(2);
    let result = scan(&root, &limits);
    assert_eq!(result.file_count, 2);
    assert_eq!(result.total_size, 3);
    // nothing behind the second file is visited, the unreadable directory included
    assert_eq!(result.error_count, 0);
    assert_eq!(names_and_sizes(&result.root), vec![("x".to_string(), 3)]);

    limits.max_files = Some(5);
    let all = scan(&root, &limits);
    assert_eq!(all.file_count, 4);
    assert_eq!(all.total_size, 15);
    assert_eq!(all.error_count, 1);

    limits.max_files = Some(0);
    let nothing = scan(&root, &limits);
    assert_eq!(nothing.file_count, 0);
    assert_eq!(nothing.total_size, 0);
    assert!(nothing.root.children.is_empty());
    let lone = scan(&file("only", 3), &limits);
    assert_eq!(lone.file_count, 1);
}

#[test]
fn depth_bound_leaves_deep_directories_empty() {
    let root = dir("top", vec![dir("x", vec![file("deep", 4), dir("xx", vec![file("deeper", 2)])]), file("y", 8)]);
    let mut limits = ScanLimits::standard();
    limits.max_depth = Some(1);
    let result = scan(&root, &limits);
    assert_eq!(result.file_count, 1);
    assert_eq!(result.total_size, 8);
    assert_eq!(names_and_sizes(&result.root), vec![("y".to_string(), 8), ("x".to_string(), 0)]);
    limits.max_depth = Some(2);
    let deeper = scan(&root, &limits);
    assert_eq!(deeper.file_count, 2);
    assert_eq!(deeper.total_size, 12);
    limits.max_depth = Some(0);
    let flat = scan(&root, &limits);
    assert_eq!(flat.file_count, 0);
    assert!(flat.root.children.is_empty());
    limits.max_depth = None;
    let full = scan(&root, &limits);
    assert_eq!(full.file_count, 3);
    assert_eq!(full.total_size, 14);
}

#[test]
fn time_budget_does_not_touch_a_snapshot() {
    let root = dir("top", vec![file("a", 1), file("b", 2)]);
    let mut limits = ScanLimits::standard();
    limits.max_elapsed_ms = Some(0);
    let result = scan(&root, &limits);
    assert_eq!(result.file_count, 2);
    assert_eq!(result.total_size, 3);
}

#[test]
fn empty_directory_scans_to_an_empty_node() {
    let result = scan(&dir("empty", vec![]), &ScanLimits::standard());
    assert_eq!(result.file_count, 0);
    assert_eq!(result.total_size, 0);
    assert_eq!(result.error_count, 0);
    assert!(result.root.is_dir);
    assert_eq!(result.root.size, 0);
    assert!(result.root.children.is_empty());
}

fn collect_sizes(node: &FileInfo, out: &mut Vec<(String, u64)>) {
    out.push((node.path.clone(), node.size));
    for child in &node.children {
        collect_sizes(child, out);
    }
}

#[test]
fn smaller_cap_shrinks_every_directory_in_both_trees() {
    let root = dir(
        "top",
        vec![
            dir("x", vec![file("x1", 6), file("x2", 5), dir("xx", vec![file("xx1", 3), file("xx2", 3)])]),
            dir("y", vec![file("y1", 9), file("y2", 1)]),
            file("z", 8),
        ],
    );
    let mut limits = ScanLimits::standard();
    let caps = [0usize, 1, 2, 3, 50];
    for low in 0..caps.len() {
        for high in low..caps.len() {
            limits.max_children = caps[low];
            let small = scan(&root, &limits);
            limits.max_children = caps[high];
            let large = scan(&root, &limits);
            let mut small_sizes = Vec::new();
            let mut large_sizes = Vec::new();
            collect_sizes(&small.root, &mut small_sizes);
            collect_sizes(&large.root, &mut large_sizes);
            for (path, size) in &small_sizes {
                for (other_path, other_size) in &large_sizes {
                    if path == other_path {
                        assert!(size <= other_size);
                    }
                }
            }
        }
    }
    limits.max_children = 1;
    let one = scan(&root, &limits);
    // under a cap of one, x keeps its largest child only: the file of 6 bytes
    // beats the directory xx, which itself keeps one file of 3
    assert_eq!(names_and_sizes(&one.root), vec![("y".to_string(), 9)]);
    limits.max_children = 2;
    let two = scan(&root, &limits);
    // x keeps 6 + 6: the directory xx now weighs 6 and stands behind x1 of equal size
    assert_eq!(names_and_sizes(&two.root), vec![("x".to_string(), 12), ("y".to_string(), 10)]);
    assert_eq!(
        names_and_sizes(&two.root.children[0]),
        vec![("x1".to_string(), 6), ("xx".to_string(), 6)]
    );
}

#[test]
fn counts_that_fit_are_scanned() {
    let root = dir("top", vec![file("a", u64::MAX - 1), file("b", 1), locked_dir("c")]);
    let limits = ScanLimits::standard();
    assert!(scan_fits(&root, &limits));
    match try_scan_tree(&root, &limits) {
        Some(Ok(result)) => {
            assert_eq!(result.total_size, u64::MAX);
            assert_eq!(result.file_count, 2);
            assert_eq!(result.error_count, 1);
            assert_eq!(result.root.size, u64::MAX);
        }
        _ => panic!("the counts fit"),
    }
}

#[test]
fn counts_that_do_not_fit_are_not_scanned() {
    let root = dir("top", vec![dir("d", vec![file("a", u64::MAX)]), file("b", 1)]);
    let limits = ScanLimits::standard();
    assert!(!scan_fits(&root, &limits));
    assert!(try_scan_tree(&root, &limits).is_none());
}

#[test]
fn bytes_behind_a_limit_do_not_count_against_the_fit() {
    let root = dir("top", vec![file("a", u64::MAX), file("b", u64::MAX)]);
    let mut limits = ScanLimits::standard();
    assert!(!scan_fits(&root, &limits));
    limits.max_files = Some(1);
    assert!(scan_fits(&root, &limits));
    limits.max_files = None;
    limits.max_entries_per_dir = 1;
    match try_scan_tree(&root, &limits) {
        Some(Ok(result)) => {
            assert_eq!(result.file_count, 1);
            assert_eq!(result.total_size, u64::MAX);
        }
        _ => panic!("the counts fit"),
    }
}

#[test]
fn a_root_that_cannot_be_examined_fits_and_fails() {
    let limits = ScanLimits::standard();
    assert!(scan_fits(&Entry::Missing, &limits));
    match try_scan_tree(&Entry::Missing, &limits) {
        Some(Err(error)) => assert_eq!(error, ScanError::PathDoesNotExist),
        _ => panic!("a missing root is an error"),
    }
    match try_scan_tree(&Entry::Unreadable, &limits) {
        Some(Err(error)) => assert_eq!(error, ScanError::CannotReadMetadata),
        _ => panic!("an unreadable root is an error"),
    }
}
