use collector::csv::{header_row_needed, CsvLogItem};

#[test]
fn stamped_row_is_empty_and_carries_its_times() {
    let now = "2024-05-01T10:20:30.123456789+00:00".to_string();
    let r = CsvLogItem::stamped(now.clone(), now.clone(), now.clone());
    assert_eq!(r.source_file, "");
    assert_eq!(r.destination_file, "");
    assert_eq!(r.hasfile_sha256, "");
    assert!(!r.from_ntfs);
    assert_eq!(r.collect_time, now);
    assert_eq!(r.modfified_time, now);
    assert_eq!(r.access_time, now);
}

#[test]
fn copy_row_holds_what_it_is_given() {
    let r = CsvLogItem::for_copy(
        "2024-05-01T10:20:30+00:00".to_string(),
        "C:\\Windows\\x".to_string(),
        "out\\x".to_string(),
        "10.000000000s".to_string(),
        "11.000000000s".to_string(),
        true,
        "abcd".to_string(),
    );
    assert_eq!(r.collect_time, "2024-05-01T10:20:30+00:00");
    assert_eq!(r.source_file, "C:\\Windows\\x");
    assert_eq!(r.destination_file, "out\\x");
    assert_eq!(r.modfified_time, "10.000000000s");
    assert_eq!(r.access_time, "11.000000000s");
    assert!(r.from_ntfs);
    assert_eq!(r.hasfile_sha256, "abcd");
}

#[test]
fn header_row_only_for_a_new_or_headerless_log() {
    assert!(header_row_needed(false, true));
    assert!(header_row_needed(false, false));
    assert!(header_row_needed(true, true));
    assert!(!header_row_needed(true, false));
}
