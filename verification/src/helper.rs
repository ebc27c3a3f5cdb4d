//! Source and destination path text, and the joining of paths.

use vstd::prelude::*;
use crate::text::{chars_of, push_char, push_chars, starts_with_char};

verus! {

#[verifier::external_type_specification]
#[verifier::external_body]
pub struct ExPathBuf(std::path::PathBuf);

/// The path whose text is `text`.
pub uninterp spec fn path_buf_of(text: Seq<char>) -> std::path::PathBuf;

/// Wraps `PathBuf::from(String)`, which takes the string over as the text
/// of the path. The result is the path named by the text.
#[verifier::external_body]
pub(crate) fn path_buf_from(text: String) -> (r: std::path::PathBuf)
    ensures
        r == path_buf_of(text@),
{
    std::path::PathBuf::from(text)
}

/// `c` separates path components on some platform.
pub open spec fn is_separator(c: char) -> bool {
    c == '/' || c == '\\'
}

/// `rest` is a relative path that joining appends: it does not start at a
/// root (a separator) and does not start with a drive prefix (`X:`).
/// A colon further on, as in an NTFS stream name, does not matter.
pub open spec fn plain_relative(rest: Seq<char>) -> bool {
    &&& !(rest.len() > 0 && is_separator(rest[0]))
    &&& !(rest.len() >= 2 && rest[1] == ':')
}

/// `r` ends with `tail`.
pub open spec fn ends_with(r: Seq<char>, tail: Seq<char>) -> bool {
    tail.len() <= r.len() && r.subrange(r.len() - tail.len(), r.len() as int) == tail
}

/// `base` is a verbatim path (`\\?\...`), which joining normalizes.
pub open spec fn verbatim(base: Seq<char>) -> bool {
    base.len() >= 4 && base.take(4) == seq!['\\', '\\', '?', '\\']
}

/// `base` is a bare drive (`X:`), onto which a relative path is joined
/// without a separator.
pub open spec fn bare_drive(base: Seq<char>) -> bool {
    base.len() == 2 && base[1] == ':'
}

/// What joining `rest` onto `base` gives, as far as it holds on every
/// platform, for a base that is not verbatim. The result always ends with
/// `rest`: a relative path is appended, and a rooted or prefixed one
/// replaces all or part of the base. A relative path extends the base: no
/// separator is added after an empty base, a bare drive or a base that
/// ends with a separator; otherwise one is added, `/` or `\`, and `/` only
/// where the base does not end with `/`. So a separator is never doubled,
/// and the two parts are never run together after a base that ends with
/// neither separator and is not a bare drive.
pub open spec fn joined(base: Seq<char>, rest: Seq<char>, r: Seq<char>) -> bool {
    !verbatim(base) ==> {
        &&& ends_with(r, rest)
        &&& plain_relative(rest) ==> {
            ||| r == base + rest && (base.len() == 0 || is_separator(base.last()) || bare_drive(base))
            ||| r == base + seq!['/'] + rest && !(base.len() > 0 && base.last() == '/')
            ||| r == base + seq!['\\'] + rest && !(base.len() > 0 && is_separator(base.last()))
        }
    }
}

/// Wraps `Path::join`, the text of the result taken back with
/// `to_string_lossy`, which loses nothing here since both parts are text.
/// `Path::join` pushes `rest` onto `base`. A rooted `rest` keeps at most
/// the prefix of `base`, and one with a prefix (on Windows, such as `X:`)
/// replaces `base`; either way the result ends with `rest`. Otherwise a
/// separator is added unless `base` is empty, ends with a separator of the
/// platform (`/`, and on Windows also `\`) or is a bare drive on Windows;
/// the separator added is the platform's (`/`, or `\` on Windows). A
/// verbatim `base` is normalized, so nothing is stated for it.
#[verifier::external_body]
pub(crate) fn join_text(base: &str, rest: &str) -> (r: String)
    ensures
        joined(base@, rest@, r@),
{
    std::path::Path::new(base).join(rest).to_string_lossy().into_owned()
}

/// A source or destination path as given on the command line.
pub struct FormatSource {
    source: String,
}

impl View for FormatSource {
    type V = Seq<char>;

    closed spec fn view(&self) -> Seq<char> {
        self.source@
    }
}

/// The formatted text of a path: a backslash is always appended, whatever
/// the text ends with (no text ends with both `/` and `\`, and the test
/// for a trailing separator asks for either to be missing), then one
/// leading separator is dropped.
pub open spec fn formatted(source: Seq<char>) -> Seq<char> {
    let pushed = source.push('\\');
    if starts_with_char(pushed, '/') || starts_with_char(pushed, '\\') {
        pushed.drop_first()
    } else {
        pushed
    }
}

impl FormatSource {
    /// Holds `source`.
    pub fn from(source: &str) -> (r: Self)
        ensures
            r@ == source@,
    {
        FormatSource { source: source.to_owned() }
    }

    /// Formats the held text, keeps the formatted text and returns it.
    pub fn to_string(&mut self) -> (r: String)
        ensures
            r@ == formatted(old(self)@),
            final(self)@ == r@,
    {
        push_char(&mut self.source, '\\');
        let cs = chars_of(self.source.as_str());
        if cs[0] == '/' || cs[0] == '\\' {
            let mut rest = String::new();
            push_chars(&mut rest, &cs, 1, cs.len());
            assert(cs@.subrange(1, cs@.len() as int) =~= cs@.drop_first());
            self.source = rest;
        }
        self.source.clone()
    }

    /// Formats the held text, keeps it, and returns it as a path.
    pub fn to_path(&mut self) -> (r: std::path::PathBuf)
        ensures
            final(self)@ == formatted(old(self)@),
            r == path_buf_of(formatted(old(self)@)),
    {
        let get_self_string: String = self.to_string();
        path_buf_from(get_self_string)
    }
}

/// Law: formatting a text that is not empty ends it with a backslash and
/// lengthens it by one character, or keeps its length when a leading
/// separator is dropped. (The empty text formats to the empty text.)
pub proof fn law_formatted_shape(source: Seq<char>)
    requires
        source.len() > 0,
    ensures
        formatted(source).last() == '\\',
        formatted(source).len() == source.len() + 1
            || (formatted(source).len() == source.len() && is_separator(source[0])),
{
    let pushed = source.push('\\');
    assert(pushed[0] == source[0]);
    assert(pushed.drop_first().last() == pushed.last());
}

} // verus!
