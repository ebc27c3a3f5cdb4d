//! Where collected files are written: the destination directory of this
//! host and the name of each output file under it.

use vstd::prelude::*;
use crate::helper::{formatted, join_text, joined, path_buf_from, path_buf_of, FormatSource};
use crate::text::{chars_of, push_chars, replace_all, replace_spec, starts_with_char};

verus! {

/// The output directories: the destination as given, formatted, and the
/// directory of this host under it.
#[derive(Debug, Clone)]
pub struct Writer {
    base_dst: String,
    full_dst: String,
}

/// `Collector_` followed by the host name.
pub open spec fn collector_dir_name(host: Seq<char>) -> Seq<char> {
    seq!['C', 'o', 'l', 'l', 'e', 'c', 't', 'o', 'r', '_'] + host
}

/// The name of the archive of a host's output directory.
pub open spec fn zip_name(host: Seq<char>) -> Seq<char> {
    collector_dir_name(host) + seq!['.', 'z', 'i', 'p']
}

/// `s` without one leading backslash.
pub open spec fn strip_backslash(s: Seq<char>) -> Seq<char> {
    if starts_with_char(s, '\\') {
        s.drop_first()
    } else {
        s
    }
}

/// The name under the host's output directory of a collected file: every
/// colon removed, then one leading backslash.
pub open spec fn relative_name(path_name: Seq<char>) -> Seq<char> {
    strip_backslash(replace_spec(path_name, seq![':'], seq![]))
}

/// The name under the host's output directory of a collected file.
pub fn output_relative_name(path_name: &str) -> (r: String)
    ensures
        r@ == relative_name(path_name@),
{
    let format_file = replace_all(path_name, ":", "");
    proof {
        reveal_strlit(":");
        reveal_strlit("");
        assert(":"@ =~= seq![':']);
        assert(""@ =~= Seq::<char>::empty());
    }
    let cs = chars_of(format_file.as_str());
    if cs.len() > 0 && cs[0] == '\\' {
        let mut rest = String::new();
        push_chars(&mut rest, &cs, 1, cs.len());
        assert(cs@.subrange(1, cs@.len() as int) =~= cs@.drop_first());
        rest
    } else {
        format_file
    }
}

/// `Collector_` followed by the host name.
pub fn collector_dir(host_name: &str) -> (r: String)
    ensures
        r@ == collector_dir_name(host_name@),
{
    let mut r = "Collector_".to_owned();
    r.append(host_name);
    proof {
        reveal_strlit("Collector_");
    }
    r
}

impl View for Writer {
    type V = (Seq<char>, Seq<char>);

    closed spec fn view(&self) -> (Seq<char>, Seq<char>) {
        (self.base_dst@, self.full_dst@)
    }
}

impl Writer {
    /// The output directories for `destination_path` on the host
    /// `host_name`: the formatted destination, and under it, formatted, the
    /// directory `Collector_<host>`.
    pub fn new(destination_path: &str, host_name: &str) -> (r: Writer)
        ensures
            r@.0 == formatted(destination_path@),
            exists|j: Seq<char>| joined(formatted(destination_path@), collector_dir_name(host_name@), j) && r@.1 == formatted(j),
    {
        let base = FormatSource::from(destination_path).to_string();
        let dir = collector_dir(host_name);
        let binding = join_text(base.as_str(), dir.as_str());
        let full = FormatSource::from(binding.as_str()).to_string();
        Writer { base_dst: base, full_dst: full }
    }

    /// The formatted destination.
    pub fn base_destination(&self) -> (r: &String)
        ensures
            r@ == self@.0,
    {
        &self.base_dst
    }

    /// The host's output directory.
    pub fn full_destination(&self) -> (r: &String)
        ensures
            r@ == self@.1,
    {
        &self.full_dst
    }

    /// The text of the output path of a collected file.
    pub fn get_filepath_as_str(&self, path_name: String) -> (r: String)
        ensures
            joined(self@.1, relative_name(path_name@), r@),
    {
        let format_file = output_relative_name(path_name.as_str());
        join_text(self.full_dst.as_str(), format_file.as_str())
    }

    /// The output path of a collected file.
    pub fn get_filepath(&self, path_name: String) -> (r: std::path::PathBuf)
        ensures
            exists|t: Seq<char>| joined(self@.1, relative_name(path_name@), t) && r == path_buf_of(t),
    {
        path_buf_from(self.get_filepath_as_str(path_name))
    }

    /// The name of the archive of the host's output directory.
    pub fn zip_file_name(host_name: &str) -> (r: String)
        ensures
            r@ == zip_name(host_name@),
    {
        let mut r = collector_dir(host_name);
        r.append(".zip");
        proof {
            reveal_strlit(".zip");
        }
        r
    }
}

proof fn lemma_replace_removes(s: Seq<char>, c: char)
    ensures
        !replace_spec(s, seq![c], seq![]).contains(c),
    decreases s.len(),
{
    if s.len() > 0 {
        lemma_replace_removes(s.drop_first(), c);
        if s.take(1) == seq![c] {
            assert(replace_spec(s, seq![c], seq![]) =~= replace_spec(s.skip(1), seq![c], seq![]));
            assert(s.skip(1) =~= s.drop_first());
        } else {
            assert(s[0] != c) by {
                if s[0] == c {
                    assert(s.take(1) =~= seq![c]);
                }
            }
            let r = replace_spec(s, seq![c], seq![]);
            assert(r == seq![s[0]] + replace_spec(s.drop_first(), seq![c], seq![]));
            if r.contains(c) {
                let k = choose|k: int| 0 <= k < r.len() && r[k] == c;
                if k > 0 {
                    assert(replace_spec(s.drop_first(), seq![c], seq![])[k - 1] == c);
                }
            }
        }
    }
}

/// Law: the name of an output file never holds a colon, so it cannot name
/// a drive or a stream.
pub proof fn law_relative_name_has_no_colon(path_name: Seq<char>)
    ensures
        !relative_name(path_name).contains(':'),
{
    lemma_replace_removes(path_name, ':');
    let r = replace_spec(path_name, seq![':'], seq![]);
    if starts_with_char(r, '\\') && r.drop_first().contains(':') {
        let k = choose|k: int| 0 <= k < r.drop_first().len() && r.drop_first()[k] == ':';
        assert(r[k + 1] == ':');
    }
}

/// Removing every colon keeps every other character, in order.
proof fn lemma_remove_colons(s: Seq<char>)
    ensures
        replace_spec(s, seq![':'], seq![]) == s.filter(|c: char| c != ':'),
    decreases s.len(),
{
    if s.len() > 0 {
        lemma_remove_colons(s.drop_first());
        assert(seq![s[0]] + s.drop_first() =~= s);
        s.drop_first().lemma_filter_prepend(s[0], |c: char| c != ':');
        if s.take(1) == seq![':'] {
            assert(s[0] == ':') by {
                assert(s.take(1)[0] == s[0]);
            }
            assert(s.skip(1) =~= s.drop_first());
            assert(seq![] + s.drop_first().filter(|c: char| c != ':') =~= s.drop_first().filter(|c: char| c != ':'));
        } else {
            assert(s[0] != ':') by {
                if s[0] == ':' {
                    assert(s.take(1) =~= seq![':']);
                }
            }
        }
    }
}

/// Law: the name of an output file is the collected path with its colons
/// removed and nothing else changed, and then one leading backslash
/// dropped; a path without colons and without a leading backslash is
/// kept as it is.
pub proof fn law_relative_name_only_drops_colons(path_name: Seq<char>)
    ensures
        relative_name(path_name) == (if path_name.filter(|c: char| c != ':').len() > 0
            && path_name.filter(|c: char| c != ':')[0] == '\\' {
            path_name.filter(|c: char| c != ':').drop_first()
        } else {
            path_name.filter(|c: char| c != ':')
        }),
        !path_name.contains(':') && !starts_with_char(path_name, '\\') ==> relative_name(path_name) == path_name,
{
    lemma_remove_colons(path_name);
    if !path_name.contains(':') {
        lemma_no_colon_kept(path_name);
    }
}

/// A text without a colon is kept whole by the removal of colons.
proof fn lemma_no_colon_kept(s: Seq<char>)
    requires
        !s.contains(':'),
    ensures
        s.filter(|c: char| c != ':') == s,
    decreases s.len(),
{
    reveal(Seq::filter);
    if s.len() > 0 {
        assert(!s.drop_last().contains(':')) by {
            if s.drop_last().contains(':') {
                let k = choose|k: int| 0 <= k < s.drop_last().len() && s.drop_last()[k] == ':';
                assert(s[k] == ':');
            }
        }
        lemma_no_colon_kept(s.drop_last());
        assert(s[s.len() - 1] != ':');
        assert(s.drop_last().push(s.last()) =~= s);
    }
}
} // verus!
