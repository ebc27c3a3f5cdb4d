//! Character-level text helpers shared by the other modules.

use vstd::prelude::*;

verus! {

/// The character views of a sequence of strings.
pub open spec fn strs(v: Seq<String>) -> Seq<Seq<char>> {
    v.map_values(|s: String| s@)
}

/// The first position of `x` in `s`, if `x` occurs there.
pub open spec fn first_match(s: Seq<Seq<char>>, x: Seq<char>) -> Option<int> {
    if exists|i: int| 0 <= i < s.len() && s[i] == x {
        Some(choose|i: int| 0 <= i < s.len() && s[i] == x && forall|j: int| 0 <= j < i ==> s[j] != x)
    } else {
        None
    }
}

/// `k` is the first position of `x` in `s`.
pub proof fn lemma_first_match_at(s: Seq<Seq<char>>, x: Seq<char>, k: int)
    requires
        0 <= k < s.len(),
        s[k] == x,
        forall|j: int| 0 <= j < k ==> s[j] != x,
    ensures
        first_match(s, x) == Some(k),
{
    let c = choose|i: int| 0 <= i < s.len() && s[i] == x && forall|j: int| 0 <= j < i ==> s[j] != x;
    assert(0 <= c < s.len() && s[c] == x && forall|j: int| 0 <= j < c ==> s[j] != x);
    if c < k {
    } else if k < c {
        assert(s[k] != x);
    }
}

/// `x` does not occur in `s`.
pub proof fn lemma_first_match_none(s: Seq<Seq<char>>, x: Seq<char>)
    requires
        forall|j: int| 0 <= j < s.len() ==> s[j] != x,
    ensures
        first_match(s, x) is None,
{
}

/// A found position holds `x`, and nothing before it does.
pub proof fn lemma_first_match_some(s: Seq<Seq<char>>, x: Seq<char>)
    ensures
        first_match(s, x) matches Some(k) ==> {
            &&& 0 <= k < s.len()
            &&& s[k] == x
            &&& forall|j: int| 0 <= j < k ==> s[j] != x
        },
        first_match(s, x) is None ==> forall|j: int| 0 <= j < s.len() ==> s[j] != x,
{
    if exists|i: int| 0 <= i < s.len() && s[i] == x {
        let w = choose|i: int| 0 <= i < s.len() && s[i] == x;
        lemma_least_match(s, x, w);
    }
}

proof fn lemma_least_match(s: Seq<Seq<char>>, x: Seq<char>, w: int)
    requires
        0 <= w < s.len(),
        s[w] == x,
    ensures
        exists|i: int| 0 <= i < s.len() && s[i] == x && forall|j: int| 0 <= j < i ==> s[j] != x,
    decreases w,
{
    if exists|j: int| 0 <= j < w && s[j] == x {
        let j = choose|j: int| 0 <= j < w && s[j] == x;
        lemma_least_match(s, x, j);
    } else {
        assert(forall|j: int| 0 <= j < w ==> s[j] != x);
    }
}

/// `s` with every occurrence of `pat` replaced by `rep`, scanning from the
/// left without overlaps; an empty `pat` matches before every character and
/// at the end.
pub open spec fn replace_spec(s: Seq<char>, pat: Seq<char>, rep: Seq<char>) -> Seq<char>
    decreases s.len(),
{
    if pat.len() == 0 {
        if s.len() == 0 {
            rep
        } else {
            rep + seq![s[0]] + replace_spec(s.drop_first(), pat, rep)
        }
    } else if s.len() == 0 {
        s
    } else if pat.len() <= s.len() && s.take(pat.len() as int) == pat {
        rep + replace_spec(s.skip(pat.len() as int), pat, rep)
    } else {
        seq![s[0]] + replace_spec(s.drop_first(), pat, rep)
    }
}

/// Replacing a pattern by itself leaves the text unchanged.
pub proof fn law_replace_by_itself(s: Seq<char>, pat: Seq<char>)
    ensures
        replace_spec(s, pat, pat) == s,
    decreases s.len(),
{
    if s.len() == 0 {
    } else if pat.len() == 0 {
        law_replace_by_itself(s.drop_first(), pat);
        assert(seq![s[0]] + s.drop_first() =~= s);
        assert(pat + seq![s[0]] + s.drop_first() =~= s);
    } else if pat.len() <= s.len() && s.take(pat.len() as int) == pat {
        law_replace_by_itself(s.skip(pat.len() as int), pat);
        assert(s.take(pat.len() as int) + s.skip(pat.len() as int) =~= s);
    } else {
        law_replace_by_itself(s.drop_first(), pat);
        assert(seq![s[0]] + s.drop_first() =~= s);
    }
}

/// Appends one character to a string.
/// Wraps `String::push`, which the standard library documents as
/// appending the given char to the end of the string.
#[verifier::external_body]
pub(crate) fn push_char(s: &mut String, c: char)
    ensures
        final(s)@ == old(s)@.push(c),
{
    s.push(c);
}

/// The characters of `s`, in order.
pub fn chars_of(s: &str) -> (r: Vec<char>)
    ensures
        r@ == s@,
{
    let mut r: Vec<char> = Vec::new();
    let chars = s.chars();
    for c in it: chars
        invariant
            it.seq() == s@,
            r@ == s@.take(it.index()),
    {
        r.push(c);
    }
    r
}

/// Appends characters `from..to` of `chars` to `out`.
pub(crate) fn push_chars(out: &mut String, chars: &Vec<char>, from: usize, to: usize)
    requires
        from <= to <= chars@.len(),
    ensures
        final(out)@ == old(out)@ + chars@.subrange(from as int, to as int),
{
    let mut i = from;
    while i < to
        invariant
            from <= i <= to <= chars@.len(),
            out@ == old(out)@ + chars@.subrange(from as int, i as int),
        decreases to - i,
    {
        push_char(out, chars[i]);
        i = i + 1;
        assert(chars@.subrange(from as int, i as int) =~= chars@.subrange(from as int, i - 1).push(chars@[i - 1]));
    }
}

/// The string made of `chars`.
pub(crate) fn string_of(chars: &Vec<char>) -> (r: String)
    ensures
        r@ == chars@,
{
    let mut r = String::new();
    push_chars(&mut r, chars, 0, chars.len());
    assert(chars@.subrange(0, chars@.len() as int) =~= chars@);
    r
}

/// Whether `pat` occurs in `s` at position `i`.
fn occurs_at(s: &Vec<char>, pat: &Vec<char>, i: usize) -> (r: bool)
    requires
        i + pat@.len() <= s@.len(),
    ensures
        r == (s@.subrange(i as int, i + pat@.len()) == pat@),
{
    let m = pat.len();
    let mut j: usize = 0;
    while j < m
        invariant
            m == pat@.len(),
            i + m <= s.len(),
            0 <= j <= m,
            forall|k: int| 0 <= k < j ==> s@[i + k] == pat@[k],
        decreases m - j,
    {
        if s[i + j] != pat[j] {
            assert(s@.subrange(i as int, i + m)[j as int] != pat@[j as int]);
            return false;
        }
        j = j + 1;
    }
    assert(s@.subrange(i as int, i + m) =~= pat@);
    true
}

/// `s` with every occurrence of `from` replaced by `to`, as `str::replace`
/// does it.
pub fn replace_all(s: &str, from: &str, to: &str) -> (r: String)
    ensures
        r@ == replace_spec(s@, from@, to@),
{
    let sv = chars_of(s);
    let pv = chars_of(from);
    let n = sv.len();
    let m = pv.len();
    let mut r = String::new();
    let mut i: usize = 0;
    assert(s@.skip(0) =~= s@);
    while i < n
        invariant
            0 <= i <= n,
            n == s@.len(),
            m == from@.len(),
            sv@ == s@,
            pv@ == from@,
            replace_spec(s@, from@, to@) == r@ + replace_spec(s@.skip(i as int), from@, to@),
        decreases n - i,
    {
        let ghost rest = s@.skip(i as int);
        assert(rest.drop_first() =~= s@.skip(i + 1));
        assert(rest[0] == sv@[i as int]);
        if m == 0 {
            r.append(to);
            push_char(&mut r, sv[i]);
            i = i + 1;
        } else if m <= n - i && occurs_at(&sv, &pv, i) {
            assert(rest.take(m as int) =~= s@.subrange(i as int, i + m));
            assert(rest.skip(m as int) =~= s@.skip(i + m));
            r.append(to);
            i = i + m;
        } else {
            if m <= n - i {
                assert(rest.take(m as int) =~= s@.subrange(i as int, i + m));
            }
            push_char(&mut r, sv[i]);
            i = i + 1;
        }
    }
    if m == 0 {
        r.append(to);
    }
    assert(s@.skip(n as int) =~= Seq::<char>::empty());
    r
}

/// Whether `v` holds a string equal to `x`.
pub fn contains_string(v: &Vec<String>, x: &String) -> (r: bool)
    ensures
        r == strs(v@).contains(x@),
{
    let mut i: usize = 0;
    while i < v.len()
        invariant
            0 <= i <= v@.len(),
            forall|j: int| 0 <= j < i ==> v@[j]@ != x@,
        decreases v@.len() - i,
    {
        if v[i] == *x {
            assert(strs(v@)[i as int] == x@);
            return true;
        }
        i = i + 1;
    }
    assert(!strs(v@).contains(x@)) by {
        if strs(v@).contains(x@) {
            let k = choose|k: int| 0 <= k < strs(v@).len() && strs(v@)[k] == x@;
            assert(v@[k]@ == x@);
        }
    }
    false
}

/// A copy of `v`, string by string.
pub fn clone_strings(v: &Vec<String>) -> (r: Vec<String>)
    ensures
        strs(r@) == strs(v@),
{
    let mut r: Vec<String> = Vec::new();
    let mut i: usize = 0;
    while i < v.len()
        invariant
            0 <= i <= v@.len(),
            strs(r@) == strs(v@).take(i as int),
        decreases v@.len() - i,
    {
        let c = v[i].clone();
        assert(c@ == v@[i as int]@);
        let ghost before = r@;
        r.push(c);
        assert(strs(r@) =~= strs(before).push(c@));
        assert(strs(v@).take(i + 1) =~= strs(v@).take(i as int).push(v@[i as int]@));
        i = i + 1;
    }
    assert(strs(v@).take(v@.len() as int) =~= strs(v@));
    r
}

/// Whether the character view of `s` ends with `c`.
pub open spec fn ends_with_char(s: Seq<char>, c: char) -> bool {
    s.len() > 0 && s.last() == c
}

/// Whether the character view of `s` starts with `c`.
pub open spec fn starts_with_char(s: Seq<char>, c: char) -> bool {
    s.len() > 0 && s[0] == c
}

/// How many times `c` occurs in `s`.
pub open spec fn count_of(s: Seq<char>, c: char) -> nat {
    s.filter(|x: char| x == c).len()
}

/// Counting over a text one character longer.
pub proof fn lemma_count_of_push(s: Seq<char>, x: char, c: char)
    ensures
        count_of(s.push(x), c) == count_of(s, c) + (if x == c { 1nat } else { 0nat }),
{
    reveal(Seq::filter);
    let t = s.push(x);
    assert(t.drop_last() =~= s);
    assert(t.last() == x);
}

/// Counting over two texts put together.
pub proof fn lemma_count_of_add(a: Seq<char>, b: Seq<char>, c: char)
    ensures
        count_of(a + b, c) == count_of(a, c) + count_of(b, c),
{
    Seq::filter_distributes_over_add(a, b, |x: char| x == c);
}
/// A character that does not occur is counted zero times.
pub proof fn lemma_count_of_absent(s: Seq<char>, c: char)
    requires
        !s.contains(c),
    ensures
        count_of(s, c) == 0,
    decreases s.len(),
{
    if s.len() > 0 {
        assert(!s.drop_last().contains(c)) by {
            if s.drop_last().contains(c) {
                let k = choose|k: int| 0 <= k < s.drop_last().len() && s.drop_last()[k] == c;
                assert(s[k] == c);
            }
        }
        lemma_count_of_absent(s.drop_last(), c);
        assert(s[s.len() - 1] != c);
        lemma_count_of_push(s.drop_last(), s.last(), c);
        assert(s.drop_last().push(s.last()) =~= s);
    }
}
} // verus!
