//! The decisions taken for each artifact while collecting: the glob
//! pattern to search, the name of the copy, the name to look up in the
//! NTFS index, and what follows each attempt to copy a file.

use vstd::prelude::*;
use crate::helper::{formatted, join_text, joined, FormatSource};
use crate::text::{chars_of, push_char, push_chars, replace_all, replace_spec};
use crate::writer::strip_backslash;

verus! {

/// An artifact path without one leading backslash.
pub fn artifact_relative(artifact: &str) -> (r: String)
    ensures
        r@ == strip_backslash(artifact@),
{
    let cs = chars_of(artifact);
    if cs.len() > 0 && cs[0] == '\\' {
        let mut rest = String::new();
        push_chars(&mut rest, &cs, 1, cs.len());
        assert(cs@.subrange(1, cs@.len() as int) =~= cs@.drop_first());
        rest
    } else {
        artifact.to_owned()
    }
}

/// The glob pattern of an artifact under the source: the formatted source
/// joined with the artifact path.
pub fn source_pattern(src: &str, artifact: &str) -> (r: String)
    ensures
        joined(formatted(src@), strip_backslash(artifact@), r@),
{
    let artifact_element = artifact_relative(artifact);
    let src_path = FormatSource::from(src).to_string();
    join_text(src_path.as_str(), artifact_element.as_str())
}

/// The name under which a found file is copied: the path found, with the
/// source replaced by the snapshot's name when collecting from a shadow
/// copy.
pub fn destination_entry(entry: &str, src: &str, snapshot_name: Option<&str>) -> (r: String)
    ensures
        match snapshot_name {
            Some(n) => r@ == replace_spec(entry@, src@, n@),
            None => r@ == entry@,
        },
{
    match snapshot_name {
        Some(n) => replace_all(entry, src, n),
        None => entry.to_owned(),
    }
}

/// The name looked up in the NTFS index for a found file: when collecting
/// from a shadow copy, the path without the source and its backslash.
pub fn ntfs_entry(entry: &str, src: &str, from_snapshot: bool) -> (r: String)
    ensures
        from_snapshot ==> r@ == replace_spec(entry@, src@.push('\\'), Seq::<char>::empty()),
        !from_snapshot ==> r@ == entry@,
{
    if from_snapshot {
        let mut add_backslash = src.to_owned();
        push_char(&mut add_backslash, '\\');
        let r = replace_all(entry, add_backslash.as_str(), "");
        proof {
            reveal_strlit("");
            assert(""@ =~= Seq::<char>::empty());
        }
        r
    } else {
        entry.to_owned()
    }
}

/// The ways a found file is copied, in the order they are tried.
#[derive(Debug, Clone, Copy, PartialEq, Eq, Structural)]
pub enum CopyAttempt {
    /// Reading the file through the file system.
    FileSystem,
    /// Reading the file from the NTFS structures of its volume.
    Ntfs,
}

/// What follows an attempt to copy a found file.
#[derive(Debug, Clone, Copy, PartialEq, Eq, Structural)]
pub enum CopyAction {
    /// Try again by reading the NTFS structures.
    TryNtfs,
    /// Log the copy; when it was read from NTFS, the copy first gets the
    /// times of the source file.
    LogCopy { from_ntfs: bool },
    /// Give the file up.
    GiveUp,
}

/// What follows `attempt`, by whether it succeeded.
pub open spec fn next_action(attempt: CopyAttempt, succeeded: bool) -> CopyAction {
    match attempt {
        CopyAttempt::FileSystem => if succeeded { CopyAction::LogCopy { from_ntfs: false } } else { CopyAction::TryNtfs },
        CopyAttempt::Ntfs => if succeeded { CopyAction::LogCopy { from_ntfs: true } } else { CopyAction::GiveUp },
    }
}

/// Decides what follows an attempt to copy a found file: a copy through
/// the file system is logged, and when it fails the file is read from
/// NTFS; a copy read from NTFS is logged, and when it fails the file is
/// given up.
pub fn after_attempt(attempt: CopyAttempt, succeeded: bool) -> (r: CopyAction)
    ensures
        r == next_action(attempt, succeeded),
{
    match attempt {
        CopyAttempt::FileSystem => if succeeded { CopyAction::LogCopy { from_ntfs: false } } else { CopyAction::TryNtfs },
        CopyAttempt::Ntfs => if succeeded { CopyAction::LogCopy { from_ntfs: true } } else { CopyAction::GiveUp },
    }
}

/// Law: a file is read from NTFS only after the file system failed, and
/// every run of attempts ends: at most two attempts are made, and a file
/// is logged at most once.
pub proof fn law_ntfs_only_after_file_system_fails(first_ok: bool, second_ok: bool)
    ensures
        next_action(CopyAttempt::FileSystem, first_ok) == CopyAction::TryNtfs <==> !first_ok,
        next_action(CopyAttempt::Ntfs, second_ok) != CopyAction::TryNtfs,
        next_action(CopyAttempt::FileSystem, first_ok) matches CopyAction::LogCopy { from_ntfs } ==> !from_ntfs,
        next_action(CopyAttempt::Ntfs, second_ok) matches CopyAction::LogCopy { from_ntfs } ==> from_ntfs,
{
}

} // verus!
