use collector::ntfs::{device_path_of, lookup_plan_for, recovered_message, split_drive, split_text};

#[test]
fn split_cuts_at_every_backslash() {
    assert_eq!(split_text("a\\b\\c", '\\'), vec!["a", "b", "c"]);
    assert_eq!(split_text("", '\\'), vec![""]);
    assert_eq!(split_text("\\a\\", '\\'), vec!["", "a", ""]);
}

#[test]
fn split_then_join_gives_the_text_back() {
    for s in ["a\\b\\c", "", "\\\\x", "plain"] {
        assert_eq!(split_text(s, '\\').join("\\"), s);
    }
}

#[test]
fn lookup_walks_the_directories_when_there_are_at_least_two() {
    let p = lookup_plan_for("Windows\\System32\\config\\SAM");
    assert_eq!(p.directories, vec!["Windows", "System32", "config"]);
    assert_eq!(p.file_name, "SAM");
}

#[test]
fn lookup_reads_the_whole_name_from_the_root_otherwise() {
    let p = lookup_plan_for("Windows\\x");
    assert!(p.directories.is_empty());
    assert_eq!(p.file_name, "Windows\\x");
    let p = lookup_plan_for("$MFT");
    assert!(p.directories.is_empty());
    assert_eq!(p.file_name, "$MFT");
}

#[test]
fn device_paths_and_reports() {
    assert_eq!(device_path_of("C:\\"), "\\\\?\\C:");
    assert_eq!(device_path_of("C:"), "\\\\?\\C:");
    assert_eq!(device_path_of(""), "\\\\?\\");
    assert_eq!(recovered_message("\\\\?\\C:", "$MFT"), "A file has been recover: \\\\?\\C:\\$MFT");
}

#[test]
fn split_drive_cuts_at_the_first_backslash() {
    assert_eq!(
        split_drive("C:\\Windows\\System32\\config\\SAM"),
        Some(("C:".to_string(), "Windows\\System32\\config\\SAM".to_string()))
    );
    assert_eq!(split_drive("\\x"), Some((String::new(), "x".to_string())));
    assert_eq!(split_drive("C:\\"), Some(("C:".to_string(), String::new())));
    assert_eq!(split_drive("no_backslash"), None);
}
