use collector::vss::{CollectVss, DriveLetter, VSSObj, Vss, VssError};

fn snap(volume: &str, device: &str) -> VSSObj {
    VSSObj {
        original_volume_name: volume.to_string(),
        device_volume_name: device.to_string(),
        timestamp: "1".to_string(),
    }
}

#[test]
fn extract_vss_list() {
}

#[test]
fn get_list_keeps_the_snapshots_of_the_volume_in_order() {
    let vss = Vss::new("C:\\".to_string());
    let all = vec![
        snap("\\\\?\\Volume{a}\\", "\\\\?\\GLOBALROOT\\Device\\HarddiskVolumeShadowCopy1"),
        snap("\\\\?\\Volume{b}\\", "\\\\?\\GLOBALROOT\\Device\\HarddiskVolumeShadowCopy2"),
        snap("\\\\?\\Volume{a}\\", "\\\\?\\GLOBALROOT\\Device\\HarddiskVolumeShadowCopy3"),
    ];
    let kept = vss.get_list(all, Some("\\\\?\\Volume{a}\\".to_string())).unwrap();
    assert_eq!(kept.len(), 2);
    assert_eq!(kept[0].device_volume_name, "\\\\?\\GLOBALROOT\\Device\\HarddiskVolumeShadowCopy1");
    assert_eq!(kept[1].device_volume_name, "\\\\?\\GLOBALROOT\\Device\\HarddiskVolumeShadowCopy3");
    for k in &kept {
        assert_eq!(k.original_volume_name, "\\\\?\\Volume{a}\\");
    }
}

#[test]
fn get_list_without_volume_fails() {
    let vss = Vss::new("C:\\".to_string());
    let all = vec![snap("v", "d")];
    assert_eq!(vss.get_list(all, None).unwrap_err(), VssError::OriginalVolumeNotFound);
}

#[test]
fn get_list_without_snapshot_of_the_volume_fails() {
    let vss = Vss::new("C:\\".to_string());
    let all = vec![snap("v", "d")];
    assert_eq!(vss.get_list(all, Some("w".to_string())).unwrap_err(), VssError::NoSnapshotForVolume);
    assert_eq!(vss.get_list(Vec::new(), Some(String::new())).unwrap_err(), VssError::NoSnapshotForVolume);
}

#[test]
fn snapshot_dir_name_is_the_last_segment() {
    assert_eq!(
        Vss::snapshot_dir_name("\\\\?\\GLOBALROOT\\Device\\HarddiskVolumeShadowCopy1"),
        "HarddiskVolumeShadowCopy1"
    );
    assert_eq!(Vss::snapshot_dir_name("plain"), "plain");
    assert_eq!(Vss::snapshot_dir_name("ends\\"), "");
    assert_eq!(Vss::snapshot_dir_name(""), "");
}

#[test]
fn snapshot_dir_name_has_no_backslash_and_ends_the_name() {
    let name = "a\\bb\\ccc";
    let seg = Vss::snapshot_dir_name(name);
    assert!(!seg.contains('\\'));
    assert!(name.ends_with(seg.as_str()));
}

#[test]
fn new_values_hold_what_they_are_given() {
    let vss = Vss::new("D:\\".to_string());
    assert_eq!(vss.drive_letter, "D:\\");
    let dl = DriveLetter::from("E:\\".to_string());
    assert_eq!(dl.drive_letter(), "E:\\");
    let c = CollectVss::new("C:\\", ".\\out\\", vec!["a".to_string()]);
    assert_eq!(c.drive_letter, "C:\\");
    assert_eq!(c.dst, ".\\out\\");
    assert_eq!(c.list_artefacts, vec!["a".to_string()]);
    assert_eq!(c.vss_obj().drive_letter, "C:\\");
}
