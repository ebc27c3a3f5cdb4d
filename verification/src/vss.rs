//! Volume shadow copies: the snapshots of a drive and the directory names
//! under which they are mounted.

use vstd::prelude::*;
use crate::text::{chars_of, push_chars, strs};

verus! {

/// One shadow copy, as the system lists it.
#[derive(Debug, Clone)]
pub struct VSSObj {
    pub original_volume_name: String,
    pub device_volume_name: String,
    pub timestamp: String,
}

/// A drive letter whose volume name is looked up.
pub struct DriveLetter {
    drive_letter: String,
}

/// The shadow copies of one drive.
#[derive(Debug, Clone)]
pub struct Vss {
    pub drive_letter: String,
}

/// Why no shadow copy can be collected.
#[derive(Debug, Clone, Copy, PartialEq, Eq, Structural)]
pub enum VssError {
    /// The volume of the drive is not known.
    OriginalVolumeNotFound,
    /// No shadow copy was made of the drive's volume.
    NoSnapshotForVolume,
}

/// Collection from the shadow copies of a drive.
pub struct CollectVss {
    pub drive_letter: String,
    pub dst: String,
    pub list_artefacts: Vec<String>,
    vss_obj: Vss,
}

impl View for DriveLetter {
    type V = Seq<char>;

    closed spec fn view(&self) -> Seq<char> {
        self.drive_letter@
    }
}

impl DriveLetter {
    /// Holds `drive_letter`.
    pub fn from(drive_letter: String) -> (r: Self)
        ensures
            r@ == drive_letter@,
    {
        DriveLetter { drive_letter }
    }

    /// The drive letter held.
    pub fn drive_letter(&self) -> (r: &String)
        ensures
            r@ == self@,
    {
        &self.drive_letter
    }
}

/// The snapshots of `snaps` made of the volume `volume`, in order.
pub open spec fn of_volume(snaps: Seq<VSSObj>, volume: Seq<char>) -> Seq<VSSObj>
    decreases snaps.len(),
{
    if snaps.len() == 0 {
        seq![]
    } else {
        let r = of_volume(snaps.drop_last(), volume);
        if snaps.last().original_volume_name@ == volume {
            r.push(snaps.last())
        } else {
            r
        }
    }
}

/// What selecting the snapshots of a drive gives: an error when the
/// volume is unknown or has no snapshot.
pub open spec fn snapshots_of(snaps: Seq<VSSObj>, volume: Option<Seq<char>>) -> Result<Seq<VSSObj>, VssError> {
    match volume {
        None => Err(VssError::OriginalVolumeNotFound),
        Some(v) => if of_volume(snaps, v).len() == 0 {
            Err(VssError::NoSnapshotForVolume)
        } else {
            Ok(of_volume(snaps, v))
        },
    }
}

/// The part of `s` after its last backslash (all of `s` when it has none).
pub open spec fn last_segment(s: Seq<char>) -> Seq<char>
    decreases s.len(),
{
    if s.len() == 0 {
        seq![]
    } else if s.last() == '\\' {
        seq![]
    } else {
        last_segment(s.drop_last()).push(s.last())
    }
}

/// A copy of a snapshot description, field by field.
fn copy_of(o: &VSSObj) -> (r: VSSObj)
    ensures
        r == *o,
{
    VSSObj {
        original_volume_name: o.original_volume_name.clone(),
        device_volume_name: o.device_volume_name.clone(),
        timestamp: o.timestamp.clone(),
    }
}

impl Vss {
    /// The shadow copies of `drive_letter`.
    pub fn new(drive_letter: String) -> (r: Self)
        ensures
            r.drive_letter == drive_letter,
    {
        Vss { drive_letter }
    }

    /// The snapshots, among all those listed, made of the drive's volume
    /// `original_volume` (`None` when the volume is not known).
    pub fn get_list(&self, snapshots: Vec<VSSObj>, original_volume: Option<String>) -> (r: Result<Vec<VSSObj>, VssError>)
        ensures
            match (r, snapshots_of(snapshots@, match original_volume { Some(v) => Some(v@), None => None })) {
                (Ok(v), Ok(s)) => v@ == s,
                (Err(e), Err(f)) => e == f,
                _ => false,
            },
    {
        let volume = match original_volume {
            Some(v) => v,
            None => {
                return Err(VssError::OriginalVolumeNotFound);
            },
        };
        let mut kept: Vec<VSSObj> = Vec::new();
        let mut i: usize = 0;
        assert(snapshots@.take(0) =~= Seq::<VSSObj>::empty());
        while i < snapshots.len()
            invariant
                0 <= i <= snapshots@.len(),
                kept@ == of_volume(snapshots@.take(i as int), volume@),
            decreases snapshots@.len() - i,
        {
            assert(snapshots@.take(i + 1).drop_last() =~= snapshots@.take(i as int));
            assert(snapshots@.take(i + 1).last() == snapshots@[i as int]);
            if snapshots[i].original_volume_name == volume {
                kept.push(copy_of(&snapshots[i]));
            }
            i = i + 1;
        }
        assert(snapshots@.take(snapshots@.len() as int) =~= snapshots@);
        if kept.len() == 0 {
            Err(VssError::NoSnapshotForVolume)
        } else {
            Ok(kept)
        }
    }

    /// The name of the directory under which a snapshot is mounted: the
    /// part of its device name after the last backslash.
    pub fn snapshot_dir_name(device_volume_name: &str) -> (r: String)
        ensures
            r@ == last_segment(device_volume_name@),
    {
        let cs = chars_of(device_volume_name);
        let n = cs.len();
        let mut start = n;
        assert(cs@.subrange(n as int, n as int) =~= Seq::<char>::empty());
        assert(cs@.take(n as int) =~= cs@);
        assert(last_segment(cs@) + cs@.subrange(n as int, n as int) =~= last_segment(cs@));
        while start > 0 && cs[start - 1] != '\\'
            invariant
                0 <= start <= n,
                n == cs@.len(),
                cs@ == device_volume_name@,
                last_segment(device_volume_name@) == last_segment(cs@.take(start as int)) + cs@.subrange(start as int, n as int),
            decreases start,
        {
            let ghost pre = cs@.take(start as int);
            assert(pre.drop_last() =~= cs@.take(start - 1));
            assert(cs@.subrange(start - 1, n as int) =~= seq![cs@[start - 1]] + cs@.subrange(start as int, n as int));
            assert(last_segment(pre) == last_segment(pre.drop_last()).push(cs@[start - 1]));
            assert(last_segment(pre.drop_last()).push(cs@[start - 1]) + cs@.subrange(start as int, n as int)
                =~= last_segment(pre.drop_last()) + cs@.subrange(start - 1, n as int));
            start = start - 1;
        }
        assert(last_segment(cs@.take(start as int)) =~= Seq::<char>::empty());
        let mut r = String::new();
        push_chars(&mut r, &cs, start, n);
        r
    }
}

/// Law: a mount directory name holds no backslash and ends the device
/// name it comes from.
pub proof fn law_last_segment(s: Seq<char>)
    ensures
        !last_segment(s).contains('\\'),
        last_segment(s).len() <= s.len(),
        last_segment(s) == s.subrange(s.len() - last_segment(s).len(), s.len() as int),
    decreases s.len(),
{
    if s.len() > 0 && s.last() != '\\' {
        law_last_segment(s.drop_last());
        let p = last_segment(s.drop_last());
        assert(p.push(s.last()) =~= s.subrange(s.len() - p.len() - 1, s.len() as int));
        if p.push(s.last()).contains('\\') {
            let k = choose|k: int| 0 <= k < p.len() + 1 && p.push(s.last())[k] == '\\';
            if k < p.len() {
                assert(p[k] == '\\');
            }
        }
    } else if s.len() > 0 {
        assert(last_segment(s) =~= Seq::<char>::empty());
    }
}

/// Law: the snapshots kept are exactly those of the volume, each one as
/// listed.
pub proof fn law_of_volume(snaps: Seq<VSSObj>, volume: Seq<char>)
    ensures
        forall|k: int| #![trigger of_volume(snaps, volume)[k]] 0 <= k < of_volume(snaps, volume).len() ==> {
            &&& of_volume(snaps, volume)[k].original_volume_name@ == volume
            &&& snaps.contains(of_volume(snaps, volume)[k])
        },
    decreases snaps.len(),
{
    if snaps.len() > 0 {
        law_of_volume(snaps.drop_last(), volume);
        let r = of_volume(snaps.drop_last(), volume);
        assert forall|k: int| #![trigger of_volume(snaps, volume)[k]] 0 <= k < of_volume(snaps, volume).len() implies {
            &&& of_volume(snaps, volume)[k].original_volume_name@ == volume
            &&& snaps.contains(of_volume(snaps, volume)[k])
        } by {
            if k < r.len() {
                assert(of_volume(snaps, volume)[k] == r[k]);
                assert(r[k].original_volume_name@ == volume && snaps.drop_last().contains(r[k]));
                let j = choose|j: int| 0 <= j < snaps.drop_last().len() && snaps.drop_last()[j] == r[k];
                assert(snaps[j] == r[k]);
            } else {
                assert(snaps[snaps.len() - 1] == snaps.last());
            }
        }
    }
}

/// Law: the snapshots kept are exactly those listed whose original volume
/// is the drive's volume, every one of them, in the order of the list: the
/// list filtered by the volume.
pub proof fn law_kept_snapshots_are_the_filter(snaps: Seq<VSSObj>, volume: Seq<char>)
    ensures
        of_volume(snaps, volume) == snaps.filter(|o: VSSObj| o.original_volume_name@ == volume),
    decreases snaps.len(),
{
    reveal(Seq::filter);
    if snaps.len() > 0 {
        law_kept_snapshots_are_the_filter(snaps.drop_last(), volume);
    }
}

/// `idx` picks `sub` out of `snaps`: increasing positions of `snaps`
/// holding the items of `sub`, in order.
pub open spec fn picks(snaps: Seq<VSSObj>, idx: Seq<int>, sub: Seq<VSSObj>) -> bool {
    &&& idx.len() == sub.len()
    &&& forall|k: int| #![trigger idx[k]] 0 <= k < idx.len() ==> 0 <= idx[k] < snaps.len() && snaps[idx[k]] == sub[k]
    &&& forall|j: int, k: int| #![trigger idx[j], idx[k]] 0 <= j < k < idx.len() ==> idx[j] < idx[k]
}

/// `sub` is a subsequence of `snaps`.
pub open spec fn is_subsequence(sub: Seq<VSSObj>, snaps: Seq<VSSObj>) -> bool {
    exists|idx: Seq<int>| picks(snaps, idx, sub)
}

/// The positions of the snapshots of `volume` in `snaps`.
spec fn volume_positions(snaps: Seq<VSSObj>, volume: Seq<char>) -> Seq<int>
    decreases snaps.len(),
{
    if snaps.len() == 0 {
        seq![]
    } else {
        let r = volume_positions(snaps.drop_last(), volume);
        if snaps.last().original_volume_name@ == volume {
            r.push(snaps.len() - 1)
        } else {
            r
        }
    }
}

proof fn lemma_volume_positions(snaps: Seq<VSSObj>, volume: Seq<char>)
    ensures
        picks(snaps, volume_positions(snaps, volume), of_volume(snaps, volume)),
    decreases snaps.len(),
{
    if snaps.len() > 0 {
        let pre = snaps.drop_last();
        lemma_volume_positions(pre, volume);
        let r = volume_positions(pre, volume);
        let o = of_volume(pre, volume);
        assert forall|k: int| #![trigger r[k]] 0 <= k < r.len() implies 0 <= r[k] < pre.len() && snaps[r[k]] == o[k] by {
            assert(pre[r[k]] == o[k]);
        }
        if snaps.last().original_volume_name@ == volume {
            let r2 = r.push(snaps.len() - 1);
            let o2 = o.push(snaps.last());
            assert forall|k: int| #![trigger r2[k]] 0 <= k < r2.len() implies 0 <= r2[k] < snaps.len() && snaps[r2[k]] == o2[k] by {
                if k < r.len() {
                    assert(r2[k] == r[k]);
                }
            }
            assert forall|j: int, k: int| #![trigger r2[j], r2[k]] 0 <= j < k < r2.len() implies r2[j] < r2[k] by {
                assert(r2[j] == r[j]);
                if k < r.len() {
                    assert(r2[k] == r[k]);
                }
            }
        }
    }
}

/// Law: the snapshots kept are a subsequence of those listed: each comes
/// from the list, and they keep the order of the list.
pub proof fn law_kept_snapshots_are_a_subsequence(snaps: Seq<VSSObj>, volume: Seq<char>)
    ensures
        is_subsequence(of_volume(snaps, volume), snaps),
{
    lemma_volume_positions(snaps, volume);
}

impl View for CollectVss {
    /// The drive, the destination, the selected paths and the drive whose
    /// shadow copies are read.
    type V = (Seq<char>, Seq<char>, Seq<Seq<char>>, Seq<char>);

    closed spec fn view(&self) -> Self::V {
        (self.drive_letter@, self.dst@, strs(self.list_artefacts@), self.vss_obj.drive_letter@)
    }
}

impl CollectVss {
    /// Collection from the shadow copies of `drive_letter` into `dst`.
    pub fn new(drive_letter: &str, dst: &str, list_artefacts: Vec<String>) -> (r: Self)
        ensures
            r@ == (drive_letter@, dst@, strs(list_artefacts@), drive_letter@),
    {
        CollectVss {
            drive_letter: drive_letter.to_owned(),
            dst: dst.to_owned(),
            list_artefacts,
            vss_obj: Vss::new(drive_letter.to_owned()),
        }
    }

    /// The shadow copies collected from.
    pub fn vss_obj(&self) -> (r: &Vss)
        ensures
            r.drive_letter@ == self@.3,
    {
        &self.vss_obj
    }
}

} // verus!
