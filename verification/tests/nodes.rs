use disk_scan::node::{entry_name, sizes_fit, sort_by_size, FileInfo};

fn leaf(name: &str, size: u64) -> FileInfo {
    FileInfo::file(name.to_string(), format!("/{}", name), size)
}

fn names(nodes: &Vec<FileInfo>) -> Vec<String> {
    let mut out = Vec::new();
    for node in nodes {
        out.push(node.name.clone());
    }
    out
}

#[test]
fn file_node_is_a_leaf() {
    let node = FileInfo::file("a.txt".to_string(), "/x/a.txt".to_string(), 100);
    assert_eq!(node.name, "a.txt");
    assert_eq!(node.path, "/x/a.txt");
    assert_eq!(node.size, 100);
    assert!(!node.is_dir);
    assert!(node.children.is_empty());
}

#[test]
fn unlisted_directory_is_empty() {
    let node = FileInfo::unlisted_directory("d".to_string(), "/x/d".to_string());
    assert_eq!(node.name, "d");
    assert_eq!(node.path, "/x/d");
    assert_eq!(node.size, 0);
    assert!(node.is_dir);
    assert!(node.children.is_empty());
}

#[test]
fn sort_puts_the_largest_first() {
    let sorted = sort_by_size(vec![leaf("s", 1), leaf("l", 30), leaf("m", 20)]);
    assert_eq!(names(&sorted), vec!["l", "m", "s"]);
}

#[test]
fn sort_is_stable() {
    let sorted = sort_by_size(vec![
        leaf("a", 2),
        leaf("b", 2),
        leaf("c", 3),
        leaf("d", 2),
        leaf("e", 3),
    ]);
    assert_eq!(names(&sorted), vec!["c", "e", "a", "b", "d"]);
}

#[test]
fn sort_of_nothing_is_nothing() {
    assert!(sort_by_size(Vec::new()).is_empty());
}

#[test]
fn directory_keeps_the_largest_children() {
    let node = FileInfo::directory(
        "d".to_string(),
        "/d".to_string(),
        vec![leaf("a", 1), leaf("b", 5), leaf("c", 3), leaf("e", 4)],
        2,
    );
    assert!(node.is_dir);
    assert_eq!(node.name, "d");
    assert_eq!(node.path, "/d");
    assert_eq!(names(&node.children), vec!["b", "e"]);
    assert_eq!(node.size, 9);
}

#[test]
fn directory_under_a_wide_cap_keeps_all() {
    let node = FileInfo::directory(
        "d".to_string(),
        "/d".to_string(),
        vec![leaf("a", 1), leaf("b", 5), leaf("c", 3)],
        50,
    );
    assert_eq!(names(&node.children), vec!["b", "c", "a"]);
    assert_eq!(node.size, 9);
}

#[test]
fn directory_with_cap_zero_keeps_none() {
    let node = FileInfo::directory("d".to_string(), "/d".to_string(), vec![leaf("a", 1)], 0);
    assert!(node.children.is_empty());
    assert_eq!(node.size, 0);
}

#[test]
fn entry_is_named_by_its_last_component() {
    assert_eq!(entry_name("/x/y/a.txt", Some("a.txt".to_string())), "a.txt");
}

#[test]
fn entry_without_a_last_component_is_named_by_its_path() {
    assert_eq!(entry_name("/", None), "/");
    assert_eq!(entry_name("..", None), "..");
}

#[test]
fn sizes_fit_up_to_the_largest_number() {
    assert!(sizes_fit(&Vec::new()));
    assert!(sizes_fit(&vec![leaf("a", 1), leaf("b", 2)]));
    assert!(sizes_fit(&vec![leaf("a", u64::MAX - 1), leaf("b", 1), leaf("c", 0)]));
}

#[test]
fn sizes_do_not_fit_beyond_the_largest_number() {
    assert!(!sizes_fit(&vec![leaf("a", u64::MAX), leaf("b", 1)]));
    assert!(!sizes_fit(&vec![leaf("a", u64::MAX - 1), leaf("b", 1), leaf("c", 1)]));
}
