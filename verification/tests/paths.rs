use collector::collect::{
    after_attempt, artifact_relative, destination_entry, ntfs_entry, source_pattern, CopyAction, CopyAttempt,
};
use collector::helper::FormatSource;
use collector::writer::{collector_dir, output_relative_name, Writer};
use std::path::PathBuf;

fn one_of_joins(r: &str, base: &str, rest: &str) -> bool {
    let ends_sep = base.ends_with('/') || base.ends_with('\\');
    let bare_drive = base.len() == 2 && base.as_bytes()[1] == b':';
    (r == format!("{}{}", base, rest) && (base.is_empty() || ends_sep || bare_drive))
        || (r == format!("{}/{}", base, rest) && !base.ends_with('/'))
        || (r == format!("{}\\{}", base, rest) && !ends_sep)
}

#[test]
fn to_string_always_appends_a_backslash() {
    assert_eq!(FormatSource::from("C:\\").to_string(), "C:\\\\");
    assert_eq!(FormatSource::from("C:").to_string(), "C:\\");
    assert_eq!(FormatSource::from("out/").to_string(), "out/\\");
}

#[test]
fn to_string_drops_one_leading_separator() {
    assert_eq!(FormatSource::from("\\data").to_string(), "data\\");
    assert_eq!(FormatSource::from("/data").to_string(), "data\\");
    assert_eq!(FormatSource::from("\\\\share").to_string(), "\\share\\");
    assert_eq!(FormatSource::from("").to_string(), "");
}

#[test]
fn to_string_keeps_the_formatted_text() {
    let mut f = FormatSource::from("x");
    assert_eq!(f.to_string(), "x\\");
    assert_eq!(f.to_string(), "x\\\\");
}

#[test]
fn formatted_text_ends_with_a_backslash() {
    for s in ["a", "\\a", "/", "\\", "C:\\Windows"] {
        let t = FormatSource::from(s).to_string();
        assert!(t.ends_with('\\'));
        assert!(t.len() == s.len() + 1 || t.len() == s.len());
    }
}

#[test]
fn to_path_is_the_formatted_text() {
    let mut f = FormatSource::from("\\out");
    assert_eq!(f.to_path(), PathBuf::from("out\\"));
    assert_eq!(f.to_string(), "out\\\\");
}

#[test]
fn output_name_loses_colons_and_one_leading_backslash() {
    assert_eq!(output_relative_name("C:\\Windows\\x"), "C\\Windows\\x");
    assert_eq!(output_relative_name("\\Windows:x"), "Windowsx");
    assert_eq!(output_relative_name("\\\\a"), "\\a");
    assert!(!output_relative_name("a:b:c::").contains(':'));
}

#[test]
fn writer_destinations() {
    let w = Writer::new(".\\out\\", "host");
    assert_eq!(w.base_destination(), ".\\out\\\\");
    let full = w.full_destination();
    assert!(full.ends_with('\\'));
    let inner = &full[..full.len() - 1];
    assert!(one_of_joins(inner, ".\\out\\\\", "Collector_host"));
    assert_eq!(collector_dir("host"), "Collector_host");
    assert_eq!(Writer::zip_file_name("host"), "Collector_host.zip");
}

#[test]
fn writer_file_paths() {
    let w = Writer::new("out", "h");
    let full = w.full_destination().clone();
    let p = w.get_filepath_as_str("C:\\Windows\\System32\\config\\SAM".to_string());
    assert!(one_of_joins(&p, &full, "C\\Windows\\System32\\config\\SAM"));
    assert_ne!(p, full);
    assert_ne!(p, format!("{}\\{}", full, "C\\Windows\\System32\\config\\SAM"));
    assert_eq!(w.get_filepath("x".to_string()), PathBuf::from(w.get_filepath_as_str("x".to_string())));
}

#[test]
fn artifact_patterns() {
    assert_eq!(artifact_relative("\\Windows\\Prefetch\\*.pf"), "Windows\\Prefetch\\*.pf");
    assert_eq!(artifact_relative("$MFT"), "$MFT");
    let p = source_pattern("C:\\", "\\Windows\\Prefetch\\*.pf");
    assert!(one_of_joins(&p, "C:\\\\", "Windows\\Prefetch\\*.pf"));
}

#[test]
fn copy_names_from_a_snapshot() {
    assert_eq!(
        destination_entry("C:\\vss\\HarddiskVolumeShadowCopy1\\Windows\\x", "C:\\vss\\HarddiskVolumeShadowCopy1", Some("HarddiskVolumeShadowCopy1")),
        "HarddiskVolumeShadowCopy1\\Windows\\x"
    );
    assert_eq!(destination_entry("C:\\Windows\\x", "C:\\", None), "C:\\Windows\\x");
    assert_eq!(ntfs_entry("C:\\vss\\Windows\\x", "C:\\vss", true), "Windows\\x");
    assert_eq!(ntfs_entry("C:\\vss\\Windows\\x", "C:\\vss", false), "C:\\vss\\Windows\\x");
}

#[test]
fn ntfs_is_tried_only_after_the_file_system_fails() {
    assert_eq!(after_attempt(CopyAttempt::FileSystem, true), CopyAction::LogCopy { from_ntfs: false });
    assert_eq!(after_attempt(CopyAttempt::FileSystem, false), CopyAction::TryNtfs);
    assert_eq!(after_attempt(CopyAttempt::Ntfs, true), CopyAction::LogCopy { from_ntfs: true });
    assert_eq!(after_attempt(CopyAttempt::Ntfs, false), CopyAction::GiveUp);
}

#[test]
fn stream_names_and_empty_names_are_joined_too() {
    let p = source_pattern("C:\\", "\\$Extend\\$UsnJrnl:$J");
    assert!(p.ends_with("$Extend\\$UsnJrnl:$J"));
    assert!(one_of_joins(&p, "C:\\\\", "$Extend\\$UsnJrnl:$J"));
    let w = Writer::new("out", "h");
    let full = w.full_destination().clone();
    let e = w.get_filepath_as_str(":".to_string());
    assert!(one_of_joins(&e, &full, ""));
    assert!(e.starts_with(&full));
}
