//! Resource descriptions and the selection of the paths to collect.
//!
//! A resource document names an artifact and gives either the glob paths
//! that make it up (`path`) or the names of other artifacts that it groups
//! (`group`). Selecting a list of names collects, in order and without
//! repetition, every path reached from them.

use vstd::prelude::*;
use crate::text::{
    chars_of, clone_strings, contains_string, ends_with_char, first_match, lemma_first_match_at,
    lemma_first_match_none, lemma_first_match_some, push_char, strs,
};

verus! {

/// One resource document.
#[derive(Debug, Clone)]
pub struct YamlArtifact {
    pub metadata: Metadata,
    pub artifact: Artifact,
}

/// Descriptive part of a resource document.
#[derive(Debug, Clone)]
pub struct Metadata {
    pub name: String,
    pub description: String,
    pub date: Option<String>,
    pub category: Option<String>,
    pub source: Option<Vec<String>>,
}

/// What a resource document collects: glob paths, or other artifacts.
#[derive(Debug, Clone)]
pub struct Artifact {
    pub path: Option<Vec<String>>,
    pub group: Option<Vec<String>>,
}

/// Selection state: the glob pattern of the resource files and the paths
/// selected so far.
#[derive(Clone)]
pub struct YamlParser {
    pub ressource_path: String,
    artifact_element_glob: SelectedPaths,
}

/// The paths selected so far, none of them twice.
struct SelectedPaths {
    paths: Vec<String>,
}

/// Why a selection could not be made.
#[derive(Debug, Clone, PartialEq, Eq)]
pub enum SelectError {
    /// No resource document carries this name.
    NameNotFound(String),
    /// The group of this artifact leads back to itself.
    CyclicGroup(String),
}

/// Why a resource document is refused.
#[derive(Debug, Clone, Copy, PartialEq, Eq, Structural)]
pub enum DocumentError {
    /// Neither `path` nor `group` is given.
    NoPathNorGroup,
    /// Both `path` and `group` are given.
    BothPathAndGroup,
}

/// The outcome of a selection, in the model.
pub enum Selection {
    Done(Seq<Seq<char>>),
    Missing(Seq<char>),
    Cyclic(Seq<char>),
}

/// The names of the documents, in order.
pub open spec fn names_of(docs: Seq<YamlArtifact>) -> Seq<Seq<char>> {
    docs.map_values(|a: YamlArtifact| a.metadata.name@)
}

/// The first document named `name`.
pub open spec fn first_named(docs: Seq<YamlArtifact>, name: Seq<char>) -> Option<int> {
    first_match(names_of(docs), name)
}

/// `glob` extended by the items of `items` that it does not hold yet, in order.
pub open spec fn add_unique(glob: Seq<Seq<char>>, items: Seq<Seq<char>>) -> Seq<Seq<char>>
    decreases items.len(),
{
    if items.len() == 0 {
        glob
    } else {
        let g = add_unique(glob, items.drop_last());
        if g.contains(items.last()) {
            g
        } else {
            g.push(items.last())
        }
    }
}

/// The view of a stack of document positions.
pub open spec fn positions(st: Seq<usize>) -> Seq<int> {
    st.map_values(|x: usize| x as int)
}

/// Selecting `names` from `docs`, starting from the selected paths `glob`,
/// while the groups of the documents at `stack` are being expanded: each
/// name in turn, as `select_one` says.
pub open spec fn select_from(
    glob: Seq<Seq<char>>,
    names: Seq<Seq<char>>,
    docs: Seq<YamlArtifact>,
    stack: Seq<int>,
) -> Selection
    decreases docs.len() - stack.len(), names.len(),
{
    if names.len() == 0 {
        Selection::Done(glob)
    } else {
        match select_one(glob, names[0], docs, stack) {
            Selection::Done(g) => select_from(g, names.drop_first(), docs, stack),
            other => other,
        }
    }
}

/// Selecting one name: it is looked up (the first document with that
/// name); its group, if any, is selected first, then its paths are added.
/// A name that no document carries is `Missing`; a group that leads back to
/// a document being expanded is `Cyclic`.
pub open spec fn select_one(
    glob: Seq<Seq<char>>,
    want: Seq<char>,
    docs: Seq<YamlArtifact>,
    stack: Seq<int>,
) -> Selection
    decreases docs.len() - stack.len(), 0int,
{
    match first_named(docs, want) {
        None => Selection::Missing(want),
        Some(i) => {
            let after_group = match docs[i].artifact.group {
                None => Selection::Done(glob),
                Some(g) => if stack.contains(i) || stack.len() >= docs.len() {
                    Selection::Cyclic(want)
                } else {
                    select_from(glob, strs(g@), docs, stack.push(i))
                },
            };
            match after_group {
                Selection::Done(g1) => Selection::Done(
                    match docs[i].artifact.path {
                        None => g1,
                        Some(p) => add_unique(g1, strs(p@)),
                    },
                ),
                other => other,
            }
        },
    }
}

/// `b` begins with `a`.
pub open spec fn begins_with(b: Seq<Seq<char>>, a: Seq<Seq<char>>) -> bool {
    a.len() <= b.len() && forall|i: int| 0 <= i < a.len() ==> b[i] == a[i]
}

/// Adding items keeps what was there, adds each item, adds nothing else,
/// and adds nothing twice.
pub proof fn lemma_add_unique(glob: Seq<Seq<char>>, items: Seq<Seq<char>>)
    ensures
        begins_with(add_unique(glob, items), glob),
        glob.no_duplicates() ==> add_unique(glob, items).no_duplicates(),
        forall|x: Seq<char>| items.contains(x) ==> add_unique(glob, items).contains(x),
        forall|x: Seq<char>| add_unique(glob, items).contains(x) ==> glob.contains(x) || items.contains(x),
    decreases items.len(),
{
    if items.len() > 0 {
        let rest = items.drop_last();
        lemma_add_unique(glob, rest);
        let g = add_unique(glob, rest);
        assert forall|x: Seq<char>| items.contains(x) implies add_unique(glob, items).contains(x) by {
            let k = choose|k: int| 0 <= k < items.len() && items[k] == x;
            if k < items.len() - 1 {
                assert(rest[k] == x);
                assert(rest.contains(x));
                assert(g.contains(x));
                let j = choose|j: int| 0 <= j < g.len() && g[j] == x;
                if !g.contains(items.last()) {
                    assert(g.push(items.last())[j] == x);
                }
            } else if !g.contains(items.last()) {
                assert(g.push(items.last())[g.len() as int] == x);
            }
        }
        assert forall|x: Seq<char>| add_unique(glob, items).contains(x) implies glob.contains(x) || items.contains(x) by {
            if g.contains(x) {
                if rest.contains(x) {
                    let k = choose|k: int| 0 <= k < rest.len() && rest[k] == x;
                    assert(items[k] == x);
                }
            } else {
                assert(items[items.len() - 1] == x);
            }
        }
    }
}

/// Adding items that are all there already changes nothing.
pub proof fn lemma_add_unique_absorbed(glob: Seq<Seq<char>>, items: Seq<Seq<char>>)
    requires
        forall|x: Seq<char>| items.contains(x) ==> glob.contains(x),
    ensures
        add_unique(glob, items) == glob,
    decreases items.len(),
{
    if items.len() > 0 {
        let rest = items.drop_last();
        assert forall|x: Seq<char>| rest.contains(x) implies glob.contains(x) by {
            let k = choose|k: int| 0 <= k < rest.len() && rest[k] == x;
            assert(items[k] == x);
        }
        lemma_add_unique_absorbed(glob, rest);
        assert(items.contains(items.last()));
    }
}

/// A selection keeps the paths selected before it, at the front, and adds
/// none twice.
pub proof fn lemma_select_grows(
    glob: Seq<Seq<char>>,
    names: Seq<Seq<char>>,
    docs: Seq<YamlArtifact>,
    stack: Seq<int>,
)
    ensures
        select_from(glob, names, docs, stack) matches Selection::Done(g) ==> {
            &&& begins_with(g, glob)
            &&& glob.no_duplicates() ==> g.no_duplicates()
        },
    decreases docs.len() - stack.len(), names.len(),
{
    if names.len() > 0 {
        lemma_select_one_grows(glob, names[0], docs, stack);
        if let Selection::Done(g1) = select_one(glob, names[0], docs, stack) {
            lemma_select_grows(g1, names.drop_first(), docs, stack);
        }
    }
}

/// Selecting one name keeps the paths selected before it, at the front,
/// and adds none twice.
pub proof fn lemma_select_one_grows(glob: Seq<Seq<char>>, want: Seq<char>, docs: Seq<YamlArtifact>, stack: Seq<int>)
    ensures
        select_one(glob, want, docs, stack) matches Selection::Done(g) ==> {
            &&& begins_with(g, glob)
            &&& glob.no_duplicates() ==> g.no_duplicates()
        },
    decreases docs.len() - stack.len(), 0int,
{
    if let Some(i) = first_named(docs, want) {
        let after_group = match docs[i].artifact.group {
            None => Selection::Done(glob),
            Some(g) => if stack.contains(i) || stack.len() >= docs.len() {
                Selection::Cyclic(want)
            } else {
                select_from(glob, strs(g@), docs, stack.push(i))
            },
        };
        if let Some(g) = docs[i].artifact.group {
            if !(stack.contains(i) || stack.len() >= docs.len()) {
                lemma_select_grows(glob, strs(g@), docs, stack.push(i));
            }
        }
        if let Selection::Done(g1) = after_group {
            if let Some(p) = docs[i].artifact.path {
                lemma_add_unique(g1, strs(p@));
            }
        }
    }
}

/// A selection that succeeded succeeds again, without change, from any
/// selected paths that hold all of its result.
pub proof fn lemma_select_absorbs(
    glob: Seq<Seq<char>>,
    names: Seq<Seq<char>>,
    docs: Seq<YamlArtifact>,
    stack: Seq<int>,
    big: Seq<Seq<char>>,
)
    requires
        select_from(glob, names, docs, stack) matches Selection::Done(g)
            && forall|x: Seq<char>| g.contains(x) ==> big.contains(x),
    ensures
        select_from(big, names, docs, stack) == Selection::Done(big),
    decreases docs.len() - stack.len(), names.len(),
{
    if names.len() > 0 {
        let g = select_from(glob, names, docs, stack)->Done_0;
        let g1 = select_one(glob, names[0], docs, stack)->Done_0;
        lemma_select_grows(g1, names.drop_first(), docs, stack);
        assert forall|x: Seq<char>| g1.contains(x) implies big.contains(x) by {
            let k = choose|k: int| 0 <= k < g1.len() && g1[k] == x;
            assert(g[k] == x);
        }
        lemma_select_one_absorbs(glob, names[0], docs, stack, big);
        lemma_select_absorbs(g1, names.drop_first(), docs, stack, big);
    }
}

/// Selecting one name that succeeded succeeds again, without change, from
/// any selected paths that hold all of its result.
pub proof fn lemma_select_one_absorbs(
    glob: Seq<Seq<char>>,
    want: Seq<char>,
    docs: Seq<YamlArtifact>,
    stack: Seq<int>,
    big: Seq<Seq<char>>,
)
    requires
        select_one(glob, want, docs, stack) matches Selection::Done(g)
            && forall|x: Seq<char>| g.contains(x) ==> big.contains(x),
    ensures
        select_one(big, want, docs, stack) == Selection::Done(big),
    decreases docs.len() - stack.len(), 0int,
{
    let i = first_named(docs, want)->Some_0;
    let g = select_one(glob, want, docs, stack)->Done_0;
    let g1 = match docs[i].artifact.group {
        None => glob,
        Some(gr) => select_from(glob, strs(gr@), docs, stack.push(i))->Done_0,
    };
    match docs[i].artifact.path {
        None => {},
        Some(p) => {
            lemma_add_unique(g1, strs(p@));
            assert forall|x: Seq<char>| strs(p@).contains(x) implies big.contains(x) by {}
            lemma_add_unique_absorbed(big, strs(p@));
        },
    }
    assert forall|x: Seq<char>| g1.contains(x) implies big.contains(x) by {
        if let Some(p) = docs[i].artifact.path {
            let k = choose|k: int| 0 <= k < g1.len() && g1[k] == x;
            assert(g[k] == x);
        }
    }
    if let Some(gr) = docs[i].artifact.group {
        lemma_select_absorbs(glob, strs(gr@), docs, stack.push(i), big);
    }
}

/// Law: a selection never repeats a path: when the paths selected before
/// hold no duplicate, neither does the result, and the paths selected
/// before stay in front, in their order.
pub proof fn law_selection_keeps_order_without_duplicates(
    glob: Seq<Seq<char>>,
    names: Seq<Seq<char>>,
    docs: Seq<YamlArtifact>,
)
    requires
        glob.no_duplicates(),
    ensures
        select_from(glob, names, docs, Seq::empty()) matches Selection::Done(g) ==> {
            &&& g.no_duplicates()
            &&& begins_with(g, glob)
        },
{
    lemma_select_grows(glob, names, docs, Seq::empty());
}

/// The groups of `docs` are ranked by `rank`: every name in the group of a
/// document is carried by a document, and the first one carrying it is
/// ranked below the group's document. Such a ranking exists exactly when
/// every group member can be found and no group leads back to itself.
pub open spec fn groups_ranked(docs: Seq<YamlArtifact>, rank: spec_fn(int) -> nat) -> bool {
    forall|i: int, k: int|
        0 <= i < docs.len() && docs[i].artifact.group is Some && 0 <= k < docs[i].artifact.group->Some_0@.len()
            ==> match #[trigger] first_named(docs, docs[i].artifact.group->Some_0@[k]@) {
            Some(j) => rank(j) < rank(i),
            None => false,
        }
}

/// A stack of distinct positions of `n` documents, to which one more
/// position not on it can be pushed, holds fewer than `n` positions.
proof fn lemma_room_on_stack(stack: Seq<int>, i: int, n: int)
    requires
        stack.no_duplicates(),
        forall|p: int| 0 <= p < stack.len() ==> 0 <= #[trigger] stack[p] < n,
        0 <= i < n,
        !stack.contains(i),
    ensures
        stack.len() < n,
{
    let s2 = stack.push(i);
    assert(s2.no_duplicates()) by {
        assert forall|a: int, b: int| 0 <= a < s2.len() && 0 <= b < s2.len() && a != b implies s2[a] != s2[b] by {
            if a < stack.len() && b < stack.len() {
                assert(s2[a] == stack[a] && s2[b] == stack[b]);
            } else if a < stack.len() {
                assert(s2[a] == stack[a]);
            } else if b < stack.len() {
                assert(s2[b] == stack[b]);
            }
        }
    }
    s2.unique_seq_to_set();
    vstd::set_lib::lemma_int_range(0, n);
    assert(s2.to_set().subset_of(vstd::set_lib::set_int_range(0, n))) by {
        assert forall|x: int| s2.to_set().contains(x) implies vstd::set_lib::set_int_range(0, n).contains(x) by {
            let k = choose|k: int| 0 <= k < s2.len() && s2[k] == x;
            if k < stack.len() {
                assert(s2[k] == stack[k]);
            }
        }
    }
    vstd::set_lib::lemma_len_subset(s2.to_set(), vstd::set_lib::set_int_range(0, n));
}

/// Selecting names whose documents are all ranked below `bound`, while
/// only documents ranked at or above it are being expanded, succeeds.
proof fn lemma_ranked_from(
    glob: Seq<Seq<char>>,
    names: Seq<Seq<char>>,
    docs: Seq<YamlArtifact>,
    stack: Seq<int>,
    rank: spec_fn(int) -> nat,
    bound: nat,
)
    requires
        groups_ranked(docs, rank),
        forall|k: int| 0 <= k < names.len() ==> match #[trigger] first_named(docs, names[k]) {
            Some(j) => rank(j) < bound,
            None => false,
        },
        forall|p: int| 0 <= p < stack.len() ==> 0 <= #[trigger] stack[p] < docs.len() && rank(stack[p]) >= bound,
        stack.no_duplicates(),
    ensures
        select_from(glob, names, docs, stack) is Done,
    decreases bound, names.len() + 1,
{
    if names.len() > 0 {
        assert(first_named(docs, names[0]) is Some);
        lemma_ranked_one(glob, names[0], docs, stack, rank, bound);
        if let Selection::Done(g1) = select_one(glob, names[0], docs, stack) {
            assert forall|k: int| 0 <= k < names.drop_first().len() implies match #[trigger] first_named(docs, names.drop_first()[k]) {
                Some(j) => rank(j) < bound,
                None => false,
            } by {
                assert(names.drop_first()[k] == names[k + 1]);
                assert(first_named(docs, names[k + 1]) is Some);
            }
            lemma_ranked_from(g1, names.drop_first(), docs, stack, rank, bound);
        }
    }
}

/// Selecting one name whose document is ranked below `bound`, while only
/// documents ranked at or above it are being expanded, succeeds.
proof fn lemma_ranked_one(
    glob: Seq<Seq<char>>,
    want: Seq<char>,
    docs: Seq<YamlArtifact>,
    stack: Seq<int>,
    rank: spec_fn(int) -> nat,
    bound: nat,
)
    requires
        groups_ranked(docs, rank),
        match first_named(docs, want) {
            Some(j) => rank(j) < bound,
            None => false,
        },
        forall|p: int| 0 <= p < stack.len() ==> 0 <= #[trigger] stack[p] < docs.len() && rank(stack[p]) >= bound,
        stack.no_duplicates(),
    ensures
        select_one(glob, want, docs, stack) is Done,
    decreases bound, 0int,
{
    lemma_first_match_some(names_of(docs), want);
    let i = first_named(docs, want)->Some_0;
    if let Some(g) = docs[i].artifact.group {
        assert(!stack.contains(i)) by {
            if stack.contains(i) {
                let p = choose|p: int| 0 <= p < stack.len() && stack[p] == i;
                assert(rank(stack[p]) >= bound);
            }
        }
        lemma_room_on_stack(stack, i, docs.len() as int);
        let st2 = stack.push(i);
        assert forall|p: int| 0 <= p < st2.len() implies 0 <= #[trigger] st2[p] < docs.len() && rank(st2[p]) >= rank(i) by {
            if p < stack.len() {
                assert(st2[p] == stack[p]);
            }
        }
        assert(st2.no_duplicates()) by {
            assert forall|a: int, b: int| 0 <= a < st2.len() && 0 <= b < st2.len() && a != b implies st2[a] != st2[b] by {
                if a < stack.len() && b < stack.len() {
                    assert(st2[a] == stack[a] && st2[b] == stack[b]);
                } else if a < stack.len() {
                    assert(st2[a] == stack[a]);
                } else if b < stack.len() {
                    assert(st2[b] == stack[b]);
                }
            }
        }
        let members = strs(g@);
        assert forall|k: int| 0 <= k < members.len() implies match #[trigger] first_named(docs, members[k]) {
            Some(j) => rank(j) < rank(i),
            None => false,
        } by {
            assert(members[k] == docs[i].artifact.group->Some_0@[k]@);
            assert(match first_named(docs, docs[i].artifact.group->Some_0@[k]@) {
                Some(j) => rank(j) < rank(i),
                None => false,
            });
        }
        lemma_ranked_from(glob, members, docs, st2, rank, rank(i));
    }
}

/// The largest rank of the first `n` documents, plus one.
spec fn rank_bound(rank: spec_fn(int) -> nat, n: nat) -> nat
    decreases n,
{
    if n == 0 {
        0
    } else {
        let b = rank_bound(rank, (n - 1) as nat);
        if rank(n - 1) + 1 > b { rank(n - 1) + 1 } else { b }
    }
}

proof fn lemma_rank_bound(rank: spec_fn(int) -> nat, n: nat)
    ensures
        forall|i: int| 0 <= i < n ==> #[trigger] rank(i) < rank_bound(rank, n),
    decreases n,
{
    if n > 0 {
        lemma_rank_bound(rank, (n - 1) as nat);
    }
}

/// Law: a selection is refused as cyclic only when a group leads back to
/// itself: when every group member can be found and the groups are ranked
/// (no group leads back to itself, at any depth), selecting names that
/// all can be found succeeds.
pub proof fn law_acyclic_selection_succeeds(
    glob: Seq<Seq<char>>,
    names: Seq<Seq<char>>,
    docs: Seq<YamlArtifact>,
    rank: spec_fn(int) -> nat,
)
    requires
        groups_ranked(docs, rank),
        forall|k: int| 0 <= k < names.len() ==> #[trigger] first_named(docs, names[k]) is Some,
    ensures
        select_from(glob, names, docs, Seq::empty()) is Done,
{
    let bound = rank_bound(rank, docs.len());
    lemma_rank_bound(rank, docs.len());
    assert forall|k: int| 0 <= k < names.len() implies match #[trigger] first_named(docs, names[k]) {
        Some(j) => rank(j) < bound,
        None => false,
    } by {
        lemma_first_match_some(names_of(docs), names[k]);
        let j = first_named(docs, names[k])->Some_0;
        assert(rank(j) < bound);
    }
    lemma_ranked_from(glob, names, docs, Seq::empty(), rank, bound);
}

/// The selected paths after a run of selections, one list of names after
/// another, each starting from what the one before left: a selection that
/// is refused leaves the paths as they were.
pub open spec fn select_in_turn(
    glob: Seq<Seq<char>>,
    batches: Seq<Seq<Seq<char>>>,
    docs: Seq<YamlArtifact>,
) -> Seq<Seq<char>>
    decreases batches.len(),
{
    if batches.len() == 0 {
        glob
    } else {
        let next = match select_from(glob, batches[0], docs, Seq::empty()) {
            Selection::Done(g) => g,
            _ => glob,
        };
        select_in_turn(next, batches.drop_first(), docs)
    }
}

/// Law: however many selections are made, and whatever names they are
/// given, the selected paths never hold a path twice, and the paths
/// selected first stay in front, in their order.
pub proof fn law_selected_paths_never_repeat(
    glob: Seq<Seq<char>>,
    batches: Seq<Seq<Seq<char>>>,
    docs: Seq<YamlArtifact>,
)
    requires
        glob.no_duplicates(),
    ensures
        select_in_turn(glob, batches, docs).no_duplicates(),
        begins_with(select_in_turn(glob, batches, docs), glob),
    decreases batches.len(),
{
    if batches.len() > 0 {
        lemma_select_grows(glob, batches[0], docs, Seq::empty());
        let next = match select_from(glob, batches[0], docs, Seq::empty()) {
            Selection::Done(g) => g,
            _ => glob,
        };
        law_selected_paths_never_repeat(next, batches.drop_first(), docs);
        let last = select_in_turn(next, batches.drop_first(), docs);
        assert forall|i: int| 0 <= i < glob.len() implies last[i] == glob[i] by {
            assert(next[i] == glob[i]);
        }
    }
}

/// Law: selecting `x` and then `y` is selecting `x` followed by `y`: the
/// paths of a first selection stay, and a second one goes on from them.
pub proof fn law_selection_concatenates(
    glob: Seq<Seq<char>>,
    x: Seq<Seq<char>>,
    y: Seq<Seq<char>>,
    docs: Seq<YamlArtifact>,
)
    ensures
        select_from(glob, x + y, docs, Seq::empty()) == match select_from(glob, x, docs, Seq::empty()) {
            Selection::Done(g) => select_from(g, y, docs, Seq::empty()),
            other => other,
        },
    decreases x.len(),
{
    if x.len() == 0 {
        assert(x + y =~= y);
    } else {
        assert((x + y)[0] == x[0]);
        assert((x + y).drop_first() =~= x.drop_first() + y);
        if let Selection::Done(g1) = select_one(glob, x[0], docs, Seq::empty()) {
            law_selection_concatenates(g1, x.drop_first(), y, docs);
        }
    }
}

/// Law: selecting the same names a second time changes nothing.
pub proof fn law_selection_idempotent(glob: Seq<Seq<char>>, names: Seq<Seq<char>>, docs: Seq<YamlArtifact>)
    requires
        select_from(glob, names, docs, Seq::empty()) is Done,
    ensures
        select_from(select_from(glob, names, docs, Seq::empty())->Done_0, names, docs, Seq::empty())
            == select_from(glob, names, docs, Seq::empty()),
{
    lemma_select_absorbs(glob, names, docs, Seq::empty(), select_from(glob, names, docs, Seq::empty())->Done_0);
}

/// The glob pattern that finds the resource files under `dir`.
pub open spec fn resource_pattern(dir: Seq<char>) -> Seq<char> {
    (if ends_with_char(dir, '\\') { dir } else { dir.push('\\') }) + seq!['*', '*', '/', '*', '.', 'y', 'a', 'm', 'l']
}

/// Whether a document is accepted: exactly one of `path` and `group`.
pub open spec fn document_check(doc: YamlArtifact) -> Result<(), DocumentError> {
    match (doc.artifact.path, doc.artifact.group) {
        (None, None) => Err(DocumentError::NoPathNorGroup),
        (Some(_), Some(_)) => Err(DocumentError::BothPathAndGroup),
        _ => Ok(()),
    }
}

/// Checks that a document gives exactly one of `path` and `group`.
pub fn check_artifact(doc: &YamlArtifact) -> (r: Result<(), DocumentError>)
    ensures
        r == document_check(*doc),
{
    match (&doc.artifact.path, &doc.artifact.group) {
        (None, None) => Err(DocumentError::NoPathNorGroup),
        (Some(_), Some(_)) => Err(DocumentError::BothPathAndGroup),
        _ => Ok(()),
    }
}

/// The position of the first document named `want`.
fn find_named(docs: &Vec<YamlArtifact>, want: &String) -> (r: Option<usize>)
    ensures
        match r {
            Some(i) => first_named(docs@, want@) == Some(i as int),
            None => first_named(docs@, want@) is None,
        },
{
    let mut i: usize = 0;
    while i < docs.len()
        invariant
            0 <= i <= docs@.len(),
            forall|j: int| 0 <= j < i ==> names_of(docs@)[j] != want@,
        decreases docs@.len() - i,
    {
        if docs[i].metadata.name == *want {
            proof {
                lemma_first_match_at(names_of(docs@), want@, i as int);
            }
            return Some(i);
        }
        i = i + 1;
    }
    proof {
        lemma_first_match_none(names_of(docs@), want@);
    }
    None
}

/// Whether `v` holds `x`.
fn contains_position(v: &Vec<usize>, x: usize) -> (r: bool)
    ensures
        r == positions(v@).contains(x as int),
{
    let mut i: usize = 0;
    while i < v.len()
        invariant
            0 <= i <= v@.len(),
            forall|j: int| 0 <= j < i ==> v@[j] != x,
        decreases v@.len() - i,
    {
        if v[i] == x {
            assert(positions(v@)[i as int] == x as int);
            return true;
        }
        i = i + 1;
    }
    assert(!positions(v@).contains(x as int)) by {
        if positions(v@).contains(x as int) {
            let k = choose|k: int| 0 <= k < positions(v@).len() && positions(v@)[k] == x as int;
            assert(v@[k] == x);
        }
    }
    false
}

impl SelectedPaths {
    /// No path is selected twice.
    #[verifier::type_invariant]
    spec fn no_repeat(self) -> bool {
        strs(self.paths@).no_duplicates()
    }
}

impl Clone for SelectedPaths {
    fn clone(&self) -> Self {
        proof {
            use_type_invariant(self);
        }
        SelectedPaths { paths: clone_strings(&self.paths) }
    }
}

impl YamlParser {
    /// The paths selected so far.
    pub closed spec fn selected(self) -> Seq<Seq<char>> {
        strs(self.artifact_element_glob.paths@)
    }

    /// The glob pattern of the resource files.
    pub closed spec fn pattern(self) -> Seq<char> {
        self.ressource_path@
    }

    /// A parser for the resource files under `ressource_path`, with nothing
    /// selected yet.
    pub fn new(ressource_path: String) -> (r: Self)
        ensures
            r.pattern() == resource_pattern(ressource_path@),
            r.selected() == Seq::<Seq<char>>::empty(),
            r.selected().no_duplicates(),
    {
        let mut format_ressource_path = ressource_path;
        let cs = chars_of(format_ressource_path.as_str());
        if !(cs.len() > 0 && cs[cs.len() - 1] == '\\') {
            push_char(&mut format_ressource_path, '\\');
        }
        format_ressource_path.append("**/*.yaml");
        proof {
            reveal_strlit("**/*.yaml");
        }
        let none: Vec<String> = Vec::new();
        assert(strs(none@) =~= Seq::<Seq<char>>::empty());
        let r = YamlParser {
            ressource_path: format_ressource_path,
            artifact_element_glob: SelectedPaths { paths: none },
        };
        assert(r.selected() =~= Seq::<Seq<char>>::empty());
        r
    }

    /// Adds the paths that are not selected yet, in order.
    fn add_paths(&mut self, paths: &Vec<String>)
        ensures
            final(self).selected() == add_unique(old(self).selected(), strs(paths@)),
            final(self).pattern() == old(self).pattern(),
    {
        proof {
            use_type_invariant(&self.artifact_element_glob);
        }
        let ghost start = self.selected();
        let mut kept: Vec<String> = Vec::new();
        std::mem::swap(&mut kept, &mut self.artifact_element_glob.paths);
        let mut j: usize = 0;
        assert(strs(paths@).take(0) =~= Seq::<Seq<char>>::empty());
        while j < paths.len()
            invariant
                0 <= j <= paths@.len(),
                strs(kept@) == add_unique(start, strs(paths@).take(j as int)),
                start.no_duplicates(),
            decreases paths@.len() - j,
        {
            let ghost before = strs(kept@);
            assert(strs(paths@).take(j + 1).drop_last() =~= strs(paths@).take(j as int));
            assert(strs(paths@).take(j + 1).last() == paths@[j as int]@);
            if !contains_string(&kept, &paths[j]) {
                kept.push(paths[j].clone());
                assert(strs(kept@) =~= before.push(paths@[j as int]@));
            }
            j = j + 1;
        }
        assert(strs(paths@).take(paths@.len() as int) =~= strs(paths@));
        proof {
            lemma_add_unique(start, strs(paths@));
        }
        self.artifact_element_glob = SelectedPaths { paths: kept };
    }

    /// Selects one name into the selected paths while the groups of the
    /// documents at `stack` are being expanded.
    fn select_one(
        &mut self,
        want: &String,
        docs: &Vec<YamlArtifact>,
        stack: &mut Vec<usize>,
    ) -> (r: Result<(), SelectError>)
        requires
            old(stack)@.len() <= docs@.len(),
        ensures
            final(stack)@ == old(stack)@,
            final(self).pattern() == old(self).pattern(),
            match select_one(old(self).selected(), want@, docs@, positions(old(stack)@)) {
                Selection::Done(g) => r is Ok && final(self).selected() == g,
                Selection::Missing(n) => r matches Err(SelectError::NameNotFound(s)) && s@ == n,
                Selection::Cyclic(n) => r matches Err(SelectError::CyclicGroup(s)) && s@ == n,
            },
        decreases docs@.len() - old(stack)@.len(), 0int,
    {
        let ghost st = positions(stack@);
        match find_named(docs, want) {
            None => {
                return Err(SelectError::NameNotFound(want.clone()));
            },
            Some(i) => {
                proof {
                    lemma_first_match_some(names_of(docs@), want@);
                }
                match &docs[i].artifact.group {
                    None => {},
                    Some(group) => {
                        if contains_position(stack, i) || stack.len() >= docs.len() {
                            return Err(SelectError::CyclicGroup(want.clone()));
                        }
                        let ghost before = stack@;
                        stack.push(i);
                        assert(positions(stack@) =~= st.push(i as int));
                        let res = self.select_into(group, docs, stack);
                        stack.pop();
                        assert(stack@ =~= before);
                        match res {
                            Ok(()) => {},
                            Err(e) => {
                                return Err(e);
                            },
                        }
                    },
                }
                match &docs[i].artifact.path {
                    None => {},
                    Some(paths) => {
                        self.add_paths(paths);
                    },
                }
                Ok(())
            },
        }
    }

    /// Selects `names` into the selected paths while the groups of the
    /// documents at `stack` are being expanded.
    fn select_into(
        &mut self,
        names: &Vec<String>,
        docs: &Vec<YamlArtifact>,
        stack: &mut Vec<usize>,
    ) -> (r: Result<(), SelectError>)
        requires
            old(stack)@.len() <= docs@.len(),
        ensures
            final(stack)@ == old(stack)@,
            final(self).pattern() == old(self).pattern(),
            match select_from(old(self).selected(), strs(names@), docs@, positions(old(stack)@)) {
                Selection::Done(g) => r is Ok && final(self).selected() == g,
                Selection::Missing(n) => r matches Err(SelectError::NameNotFound(s)) && s@ == n,
                Selection::Cyclic(n) => r matches Err(SelectError::CyclicGroup(s)) && s@ == n,
            },
        decreases docs@.len() - old(stack)@.len(), names@.len() + 1,
    {
        let ghost st = positions(stack@);
        let ghost all = strs(names@);
        let ghost start = self.selected();
        let mut k: usize = 0;
        assert(all.skip(0) =~= all);
        while k < names.len()
            invariant
                0 <= k <= names@.len(),
                all == strs(names@),
                start == old(self).selected(),
                stack@ == old(stack)@,
                st == positions(stack@),
                stack@.len() <= docs@.len(),
                self.pattern() == old(self).pattern(),
                select_from(start, all, docs@, st) == select_from(self.selected(), all.skip(k as int), docs@, st),
            decreases names@.len() - k,
        {
            let ghost rest = all.skip(k as int);
            assert(rest[0] == names@[k as int]@);
            assert(rest.drop_first() =~= all.skip(k + 1));
            let ghost cur = self.selected();
            assert(select_from(cur, rest, docs@, st) == match select_one(cur, rest[0], docs@, st) {
                Selection::Done(g) => select_from(g, rest.drop_first(), docs@, st),
                other => other,
            });
            let res = self.select_one(&names[k], docs, stack);
            match res {
                Ok(()) => {},
                Err(e) => {
                    return Err(e);
                },
            }
            k = k + 1;
        }
        assert(all.skip(k as int).len() == 0);
        Ok(())
    }

    /// Selects the paths reached from `artifacts_name`, adds those not yet
    /// selected, and returns all the selected paths. On a refusal the
    /// selection is left as it was.
    pub fn try_select_artifact(
        &mut self,
        artifacts_name: Vec<String>,
        doc_artifact: Vec<YamlArtifact>,
    ) -> (r: Result<Vec<String>, SelectError>)
        ensures
            final(self).pattern() == old(self).pattern(),
            begins_with(final(self).selected(), old(self).selected()),
            final(self).selected().no_duplicates(),
            final(self).selected() == select_in_turn(old(self).selected(), seq![strs(artifacts_name@)], doc_artifact@),
            match select_from(old(self).selected(), strs(artifacts_name@), doc_artifact@, Seq::empty()) {
                Selection::Done(g) => r matches Ok(v) && strs(v@) == g && final(self).selected() == g,
                Selection::Missing(n) => r matches Err(SelectError::NameNotFound(s)) && s@ == n
                    && final(self).selected() == old(self).selected(),
                Selection::Cyclic(n) => r matches Err(SelectError::CyclicGroup(s)) && s@ == n
                    && final(self).selected() == old(self).selected(),
            },
    {
        proof {
            use_type_invariant(&self.artifact_element_glob);
            lemma_select_grows(self.selected(), strs(artifacts_name@), doc_artifact@, Seq::empty());
            let one = seq![strs(artifacts_name@)];
            assert(one[0] == strs(artifacts_name@));
            assert(one.drop_first() =~= Seq::<Seq<Seq<char>>>::empty());
            reveal_with_fuel(select_in_turn, 2);
        }
        let saved = clone_strings(&self.artifact_element_glob.paths);
        let mut stack: Vec<usize> = Vec::new();
        assert(positions(stack@) =~= Seq::<int>::empty());
        match self.select_into(&artifacts_name, &doc_artifact, &mut stack) {
            Ok(()) => Ok(clone_strings(&self.artifact_element_glob.paths)),
            Err(e) => {
                self.artifact_element_glob = SelectedPaths { paths: saved };
                Err(e)
            },
        }
    }

    /// Selects the paths reached from `artifacts_name`, adds those not yet
    /// selected, and returns all the selected paths. Every name reached must
    /// be found and no group may lead back to itself.
    pub fn select_artifact(&mut self, artifacts_name: Vec<String>, doc_artifact: Vec<YamlArtifact>) -> (r: Vec<String>)
        requires
            select_from(old(self).selected(), strs(artifacts_name@), doc_artifact@, Seq::empty()) is Done,
        ensures
            final(self).pattern() == old(self).pattern(),
            final(self).selected() == select_from(old(self).selected(), strs(artifacts_name@), doc_artifact@, Seq::empty())->Done_0,
            strs(r@) == final(self).selected(),
            begins_with(final(self).selected(), old(self).selected()),
            final(self).selected().no_duplicates(),
    {
        proof {
            use_type_invariant(&self.artifact_element_glob);
            lemma_select_grows(self.selected(), strs(artifacts_name@), doc_artifact@, Seq::empty());
        }
        let mut stack: Vec<usize> = Vec::new();
        assert(positions(stack@) =~= Seq::<int>::empty());
        match self.select_into(&artifacts_name, &doc_artifact, &mut stack) {
            Ok(()) => clone_strings(&self.artifact_element_glob.paths),
            Err(_) => {
                proof {
                    assert(false);
                }
                Vec::new()
            },
        }
    }
}

} // verus!
