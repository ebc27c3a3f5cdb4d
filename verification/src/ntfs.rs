//! Raw NTFS reads: the device to open, the directories to walk and the
//! file to read for an artifact, and the report of a recovered file.

use vstd::prelude::*;
use crate::text::{chars_of, count_of, lemma_count_of_push, push_char, push_chars, string_of, strs};

verus! {

/// How an artifact is looked up in the NTFS index: the directories to
/// enter from the root, in order, then the file to read there.
pub struct NtfsLookup {
    pub directories: Vec<String>,
    pub file_name: String,
}

/// `s` cut at every `c`; there is one more part than there are `c`.
pub open spec fn split_on(s: Seq<char>, c: char) -> Seq<Seq<char>>
    decreases s.len(),
{
    if s.len() == 0 {
        seq![seq![]]
    } else {
        let r = split_on(s.drop_last(), c);
        if s.last() == c {
            r.push(seq![])
        } else {
            r.update(r.len() - 1, r.last().push(s.last()))
        }
    }
}

/// The parts joined back with `c` between them.
pub open spec fn join_with(parts: Seq<Seq<char>>, c: char) -> Seq<char>
    decreases parts.len(),
{
    if parts.len() == 0 {
        seq![]
    } else if parts.len() == 1 {
        parts[0]
    } else {
        join_with(parts.drop_last(), c) + seq![c] + parts.last()
    }
}

/// The lookup of an artifact named by a backslash-separated path: the
/// directories before the last part, then the last part, when there are
/// at least two directories; otherwise the whole name, looked up in the
/// root directory.
pub open spec fn lookup_plan(artifact: Seq<char>) -> (Seq<Seq<char>>, Seq<char>) {
    let parts = split_on(artifact, '\\');
    if parts.len() - 1 > 1 {
        (parts.drop_last(), parts.last())
    } else {
        (seq![], artifact)
    }
}

/// The device path of a drive: `\\?\` and the drive without one trailing
/// backslash.
pub open spec fn device_path(drive_letter: Seq<char>) -> Seq<char> {
    seq!['\\', '\\', '?', '\\'] + (if drive_letter.len() > 0 && drive_letter.last() == '\\' {
        drive_letter.drop_last()
    } else {
        drive_letter
    })
}

/// The report of a recovered file.
pub open spec fn recovered_report(device: Seq<char>, artifact: Seq<char>) -> Seq<char> {
    seq!['A', ' ', 'f', 'i', 'l', 'e', ' ', 'h', 'a', 's', ' ', 'b', 'e', 'e', 'n', ' ', 'r', 'e', 'c', 'o', 'v', 'e', 'r', ':', ' ']
        + device + seq!['\\'] + artifact
}

proof fn lemma_split_nonempty(s: Seq<char>, c: char)
    ensures
        split_on(s, c).len() >= 1,
    decreases s.len(),
{
    if s.len() > 0 {
        lemma_split_nonempty(s.drop_last(), c);
    }
}

/// `s` cut at every `c`.
pub fn split_text(s: &str, c: char) -> (r: Vec<String>)
    ensures
        strs(r@) == split_on(s@, c),
{
    let cs = chars_of(s);
    let mut parts: Vec<String> = Vec::new();
    let mut cur: Vec<char> = Vec::new();
    let mut i: usize = 0;
    assert(cs@.take(0) =~= Seq::<char>::empty());
    assert(strs(parts@).push(cur@) =~= seq![Seq::<char>::empty()]);
    while i < cs.len()
        invariant
            0 <= i <= cs@.len(),
            cs@ == s@,
            split_on(cs@.take(i as int), c) == strs(parts@).push(cur@),
        decreases cs@.len() - i,
    {
        let ghost pre = cs@.take(i + 1);
        assert(pre.drop_last() =~= cs@.take(i as int));
        assert(pre.last() == cs@[i as int]);
        if cs[i] == c {
            let ghost before = parts@;
            parts.push(string_of(&cur));
            cur = Vec::new();
            assert(strs(parts@) =~= strs(before).push(split_on(cs@.take(i as int), c).last()));
            assert(strs(parts@).push(cur@) =~= split_on(cs@.take(i as int), c).push(seq![]));
        } else {
            let ghost before = cur@;
            cur.push(cs[i]);
            assert(strs(parts@).push(cur@) =~= split_on(cs@.take(i as int), c).update(
                split_on(cs@.take(i as int), c).len() - 1,
                before.push(cs@[i as int]),
            ));
        }
        i = i + 1;
    }
    assert(cs@.take(cs@.len() as int) =~= cs@);
    let ghost before = parts@;
    parts.push(string_of(&cur));
    assert(strs(parts@) =~= strs(before).push(cur@));
    parts
}

/// The lookup of an artifact in the NTFS index.
pub fn lookup_plan_for(artifact_name: &str) -> (r: NtfsLookup)
    ensures
        strs(r.directories@) == lookup_plan(artifact_name@).0,
        r.file_name@ == lookup_plan(artifact_name@).1,
{
    let mut parts = split_text(artifact_name, '\\');
    proof {
        lemma_split_nonempty(artifact_name@, '\\');
    }
    let ghost all = strs(parts@);
    let file_name = parts.pop().unwrap();
    assert(strs(parts@) =~= all.drop_last());
    if parts.len() > 1 {
        NtfsLookup { directories: parts, file_name }
    } else {
        let directories: Vec<String> = Vec::new();
        assert(strs(directories@) =~= Seq::<Seq<char>>::empty());
        NtfsLookup { directories, file_name: artifact_name.to_owned() }
    }
}

/// `s` cut at its first `c`: the part before and the part after it
/// (`None` when `s` holds no `c`).
pub open spec fn split_first(s: Seq<char>, c: char) -> Option<(Seq<char>, Seq<char>)>
    decreases s.len(),
{
    if s.len() == 0 {
        None
    } else if s[0] == c {
        Some((seq![], s.drop_first()))
    } else {
        match split_first(s.drop_first(), c) {
            Some((a, b)) => Some((seq![s[0]] + a, b)),
            None => None,
        }
    }
}

proof fn lemma_split_first(s: Seq<char>, c: char, i: int)
    requires
        0 <= i <= s.len(),
        forall|j: int| 0 <= j < i ==> s[j] != c,
        i < s.len() ==> s[i] == c,
    ensures
        split_first(s, c) == if i < s.len() { Some((s.take(i), s.skip(i + 1))) } else { None::<(Seq<char>, Seq<char>)> },
    decreases i,
{
    if i > 0 {
        let t = s.drop_first();
        assert forall|j: int| 0 <= j < i - 1 implies t[j] != c by {
            assert(t[j] == s[j + 1]);
        }
        if i < s.len() {
            assert(t[i - 1] == s[i]);
        }
        lemma_split_first(t, c, i - 1);
        if i < s.len() {
            assert(seq![s[0]] + t.take(i - 1) =~= s.take(i));
            assert(t.skip(i) =~= s.skip(i + 1));
        }
    } else if s.len() > 0 {
        assert(s.take(0) =~= Seq::<char>::empty());
        assert(s.skip(1) =~= s.drop_first());
    }
}

/// An entry cut at its first backslash: the drive, and the path on it.
pub fn split_drive(entry: &str) -> (r: Option<(String, String)>)
    ensures
        match (r, split_first(entry@, '\\')) {
            (Some((d, p)), Some((sd, sp))) => d@ == sd && p@ == sp,
            (None, None) => true,
            _ => false,
        },
{
    let cs = chars_of(entry);
    let n = cs.len();
    let mut i: usize = 0;
    while i < n && cs[i] != '\\'
        invariant
            0 <= i <= n,
            n == cs@.len(),
            cs@ == entry@,
            forall|j: int| 0 <= j < i ==> cs@[j] != '\\',
        decreases n - i,
    {
        i = i + 1;
    }
    proof {
        lemma_split_first(cs@, '\\', i as int);
    }
    if i == n {
        None
    } else {
        let mut drive = String::new();
        push_chars(&mut drive, &cs, 0, i);
        let mut rest = String::new();
        push_chars(&mut rest, &cs, i + 1, n);
        assert(cs@.subrange(0, i as int) =~= cs@.take(i as int));
        assert(cs@.subrange(i + 1, n as int) =~= cs@.skip(i + 1));
        Some((drive, rest))
    }
}

/// The device path of a drive letter.
pub fn device_path_of(drive_letter: &str) -> (r: String)
    ensures
        r@ == device_path(drive_letter@),
{
    let mut r = "\\\\?\\".to_owned();
    proof {
        reveal_strlit("\\\\?\\");
    }
    let cs = chars_of(drive_letter);
    if cs.len() > 0 && cs[cs.len() - 1] == '\\' {
        push_chars(&mut r, &cs, 0, cs.len() - 1);
        assert(cs@.subrange(0, cs@.len() - 1) =~= cs@.drop_last());
    } else {
        r.append(drive_letter);
    }
    r
}

/// The report of a file recovered from `device` at `artifact_name`.
pub fn recovered_message(device: &str, artifact_name: &str) -> (r: String)
    ensures
        r@ == recovered_report(device@, artifact_name@),
{
    let mut r = "A file has been recover: ".to_owned();
    proof {
        reveal_strlit("A file has been recover: ");
    }
    r.append(device);
    push_char(&mut r, '\\');
    r.append(artifact_name);
    r
}

/// Law: cutting a text at a character and joining the parts back with it
/// gives the text again, and no part holds the character.
pub proof fn law_split_join(s: Seq<char>, c: char)
    ensures
        join_with(split_on(s, c), c) == s,
        forall|k: int| 0 <= k < split_on(s, c).len() ==> !(#[trigger] split_on(s, c)[k]).contains(c),
    decreases s.len(),
{
    lemma_split_nonempty(s, c);
    if s.len() > 0 {
        let p = s.drop_last();
        law_split_join(p, c);
        lemma_split_nonempty(p, c);
        let r = split_on(p, c);
        if s.last() == c {
            assert(split_on(s, c).drop_last() =~= r);
            assert(join_with(r, c) + seq![c] + seq![] =~= s);
            assert forall|k: int| 0 <= k < split_on(s, c).len() implies !(#[trigger] split_on(s, c)[k]).contains(c) by {
                if k < r.len() {
                    assert(split_on(s, c)[k] == r[k]);
                } else {
                    assert(split_on(s, c)[k] =~= Seq::<char>::empty());
                }
            }
        } else {
            let out = split_on(s, c);
            let last = r.last().push(s.last());
            if r.len() == 1 {
                assert(out =~= seq![last]);
                assert(join_with(r, c) == r[0]);
                assert(last =~= s);
            } else {
                assert(out.drop_last() =~= r.drop_last());
                assert(join_with(r, c) == join_with(r.drop_last(), c) + seq![c] + r.last());
                assert(join_with(out, c) == join_with(r.drop_last(), c) + seq![c] + last);
                assert(join_with(out, c) =~= join_with(r, c).push(s.last()));
                assert(p.push(s.last()) =~= s);
            }
            assert forall|k: int| 0 <= k < out.len() implies !(#[trigger] out[k]).contains(c) by {
                if k < r.len() - 1 {
                    assert(out[k] == r[k]);
                } else {
                    assert(out[k] == last);
                    assert(!r[k].contains(c));
                    if last.contains(c) {
                        let j = choose|j: int| 0 <= j < last.len() && last[j] == c;
                        if j < r[k].len() {
                            assert(r[k][j] == c);
                        }
                    }
                }
            }
        }
    }
}

/// There is one more part than there are cut characters.
proof fn lemma_split_count(s: Seq<char>, c: char)
    ensures
        split_on(s, c).len() == count_of(s, c) + 1,
    decreases s.len(),
{
    if s.len() > 0 {
        lemma_split_count(s.drop_last(), c);
        lemma_split_nonempty(s.drop_last(), c);
        lemma_count_of_push(s.drop_last(), s.last(), c);
        assert(s.drop_last().push(s.last()) =~= s);
    }
}

/// Law: an artifact named by a path with at least two backslashes is
/// looked up by walking, from the root, one directory per part before the
/// last and then reading the last part: the directories and the file name,
/// joined back with backslashes, give the name again, and none of them
/// holds a backslash. A name with fewer backslashes is looked up whole in
/// the root directory.
pub proof fn law_lookup_walks_the_directories(name: Seq<char>)
    ensures
        count_of(name, '\\') >= 2 ==> {
            let (dirs, file) = lookup_plan(name);
            &&& dirs.len() == count_of(name, '\\')
            &&& join_with(dirs.push(file), '\\') == name
            &&& !file.contains('\\')
            &&& forall|k: int| 0 <= k < dirs.len() ==> !(#[trigger] dirs[k]).contains('\\')
        },
        count_of(name, '\\') < 2 ==> lookup_plan(name) == (Seq::<Seq<char>>::empty(), name),
{
    lemma_split_count(name, '\\');
    law_split_join(name, '\\');
    let parts = split_on(name, '\\');
    if count_of(name, '\\') >= 2 {
        let (dirs, file) = lookup_plan(name);
        assert(dirs.push(file) =~= parts);
        assert(file == parts[parts.len() - 1]);
        assert forall|k: int| 0 <= k < dirs.len() implies !(#[trigger] dirs[k]).contains('\\') by {
            assert(dirs[k] == parts[k]);
        }
    }
}
} // verus!
