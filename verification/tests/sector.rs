use collector::sector::{bytes_handed_out, sector_window, SectorWindow};

#[test]
fn window_covers_the_wanted_bytes_with_whole_sectors() {
    assert_eq!(sector_window(0, 4096, 4096), Some(SectorWindow { start: 0, end: 4096, skip: 0 }));
    assert_eq!(sector_window(5000, 100, 4096), Some(SectorWindow { start: 4096, end: 8192, skip: 904 }));
    assert_eq!(sector_window(4000, 200, 4096), Some(SectorWindow { start: 0, end: 8192, skip: 4000 }));
    assert_eq!(sector_window(8192, 0, 512), Some(SectorWindow { start: 8192, end: 8192, skip: 0 }));
}

#[test]
fn window_past_the_end_of_64_bits_is_refused() {
    assert_eq!(sector_window(u64::MAX - 10, 5, 4096), None);
    assert_eq!(sector_window(u64::MAX, 1, 1), None);
    assert_eq!(sector_window(u64::MAX - 1, 1, 1), Some(SectorWindow { start: u64::MAX - 1, end: u64::MAX, skip: 0 }));
}

#[test]
fn handed_out_bytes_skip_the_front_and_stop_at_the_want() {
    assert_eq!(bytes_handed_out(8192, 904, 100), 100);
    assert_eq!(bytes_handed_out(1000, 904, 100), 96);
    assert_eq!(bytes_handed_out(904, 904, 100), 0);
    assert_eq!(bytes_handed_out(0, 0, 100), 0);
}
