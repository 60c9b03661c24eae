use disk_scan::actions::{plan_reveal, removal_for, reveal_command, DeleteError, Platform, Removal};

#[test]
fn windows_selects_the_path_in_explorer() {
    let launch = reveal_command(Platform::Windows, "C:\\x\\y.txt", None).unwrap();
    assert_eq!(launch.program, "explorer");
    assert_eq!(launch.arguments, vec!["/select,".to_string(), "C:\\x\\y.txt".to_string()]);
}

#[test]
fn macos_reveals_the_path() {
    let launch = reveal_command(Platform::MacOs, "/x/y.txt", None).unwrap();
    assert_eq!(launch.program, "open");
    assert_eq!(launch.arguments, vec!["-R".to_string(), "/x/y.txt".to_string()]);
}

#[test]
fn linux_opens_the_parent_directory() {
    let launch = reveal_command(Platform::Linux, "/x/y.txt", Some("/x".to_string())).unwrap();
    assert_eq!(launch.program, "xdg-open");
    assert_eq!(launch.arguments, vec!["/x".to_string()]);
}

#[test]
fn linux_without_a_parent_opens_the_path_itself() {
    let launch = reveal_command(Platform::Linux, "/", None).unwrap();
    assert_eq!(launch.program, "xdg-open");
    assert_eq!(launch.arguments, vec!["/".to_string()]);
}

#[test]
fn other_systems_run_nothing() {
    assert!(reveal_command(Platform::Other, "/x/y.txt", None).is_none());
    assert!(reveal_command(Platform::Other, "/x/y.txt", Some("/x".to_string())).is_none());
    assert!(plan_reveal(Platform::Other, "/x/y.txt").is_none());
}

#[test]
fn plan_looks_the_parent_up_on_linux() {
    let launch = plan_reveal(Platform::Linux, "/tmp/a/b.txt").unwrap();
    assert_eq!(launch.program, "xdg-open");
    assert_eq!(launch.arguments, vec!["/tmp/a".to_string()]);
}

#[test]
fn plan_opens_a_root_itself_on_linux() {
    let launch = plan_reveal(Platform::Linux, "/").unwrap();
    assert_eq!(launch.program, "xdg-open");
    assert_eq!(launch.arguments, vec!["/".to_string()]);
}

#[test]
fn plan_opens_the_empty_path_itself_on_linux() {
    let launch = plan_reveal(Platform::Linux, "").unwrap();
    assert_eq!(launch.program, "xdg-open");
    assert_eq!(launch.arguments, vec!["".to_string()]);
}

#[test]
fn plan_needs_no_parent_elsewhere() {
    let launch = plan_reveal(Platform::MacOs, "/x/y.txt").unwrap();
    assert_eq!(launch.program, "open");
    assert_eq!(launch.arguments, vec!["-R".to_string(), "/x/y.txt".to_string()]);
    let launch = plan_reveal(Platform::Windows, "/x/y.txt").unwrap();
    assert_eq!(launch.program, "explorer");
    assert_eq!(launch.arguments, vec!["/select,".to_string(), "/x/y.txt".to_string()]);
}

#[test]
fn a_file_is_removed_alone() {
    assert_eq!(removal_for(true, false), Ok(Removal::File));
    assert_eq!(removal_for(true, true), Ok(Removal::File));
}

#[test]
fn a_directory_is_removed_with_its_tree() {
    assert_eq!(removal_for(false, true), Ok(Removal::DirectoryTree));
}

#[test]
fn nothing_to_remove_is_an_error() {
    assert_eq!(removal_for(false, false), Err(DeleteError::PathDoesNotExist));
    assert_eq!(DeleteError::PathDoesNotExist.message(), "path does not exist");
}
