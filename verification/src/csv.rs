//! The record written to the copy log for each collected file.

use vstd::prelude::*;

verus! {

/// One row of the copy log.
#[derive(Debug, Clone)]
pub struct CsvLogItem {
    pub collect_time: String,
    pub source_file: String,
    pub destination_file: String,
    pub hasfile_sha256: String,
    pub from_ntfs: bool,
    pub modfified_time: String,
    pub access_time: String,
}

/// The model of a row of the copy log.
pub struct CsvRecord {
    pub collect_time: Seq<char>,
    pub source_file: Seq<char>,
    pub destination_file: Seq<char>,
    pub hasfile_sha256: Seq<char>,
    pub from_ntfs: bool,
    pub modfified_time: Seq<char>,
    pub access_time: Seq<char>,
}

impl View for CsvLogItem {
    type V = CsvRecord;

    open spec fn view(&self) -> CsvRecord {
        CsvRecord {
            collect_time: self.collect_time@,
            source_file: self.source_file@,
            destination_file: self.destination_file@,
            hasfile_sha256: self.hasfile_sha256@,
            from_ntfs: self.from_ntfs,
            modfified_time: self.modfified_time@,
            access_time: self.access_time@,
        }
    }
}

impl CsvLogItem {
    /// An empty row stamped with the given times (the current time, read
    /// by the caller, in RFC 3339): the other texts are empty and the row
    /// is not marked as read from NTFS.
    pub fn stamped(collect_time: String, modfified_time: String, access_time: String) -> (r: Self)
        ensures
            r@.collect_time == collect_time@,
            r@.modfified_time == modfified_time@,
            r@.access_time == access_time@,
            r@.source_file == Seq::<char>::empty(),
            r@.destination_file == Seq::<char>::empty(),
            r@.hasfile_sha256 == Seq::<char>::empty(),
            !r@.from_ntfs,
    {
        CsvLogItem {
            collect_time,
            source_file: String::new(),
            destination_file: String::new(),
            hasfile_sha256: String::new(),
            from_ntfs: false,
            modfified_time,
            access_time,
        }
    }

    /// The row of one copied file, made at `collect_time`.
    pub fn for_copy(
        collect_time: String,
        source_file: String,
        destination_file: String,
        modfified_time: String,
        access_time: String,
        from_ntfs: bool,
        hasfile_sha256: String,
    ) -> (r: Self)
        ensures
            r@.collect_time == collect_time@,
            r@.source_file == source_file@,
            r@.destination_file == destination_file@,
            r@.modfified_time == modfified_time@,
            r@.access_time == access_time@,
            r@.from_ntfs == from_ntfs,
            r@.hasfile_sha256 == hasfile_sha256@,
    {
        let mut log_item = CsvLogItem::stamped(collect_time, String::new(), String::new());
        log_item.source_file = source_file;
        log_item.destination_file = destination_file;
        log_item.modfified_time = modfified_time;
        log_item.access_time = access_time;
        log_item.from_ntfs = from_ntfs;
        log_item.hasfile_sha256 = hasfile_sha256;
        log_item
    }
}

/// Whether the copy log must start with a header row: unless the file
/// exists already with a header.
pub fn header_row_needed(file_exists: bool, header_is_empty: bool) -> (r: bool)
    ensures
        r == !(file_exists && !header_is_empty),
{
    !(file_exists && !header_is_empty)
}

} // verus!
