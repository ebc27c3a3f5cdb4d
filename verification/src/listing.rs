//! Listings of the loaded resource documents: names of targets, names of
//! groups, and names by category.

use vstd::prelude::*;
use crate::parser::{document_check, YamlArtifact};
use crate::text::{
    count_of, first_match, lemma_count_of_absent, lemma_count_of_add, lemma_first_match_at, lemma_first_match_none,
    lemma_first_match_some, push_char, strs,
};

verus! {

/// The loaded resource documents.
pub struct ArtifactListing {
    pub artifact_struct_list: Vec<YamlArtifact>,
}

/// A category and the names of the documents filed under it, in order.
#[derive(Debug)]
pub struct ArtifactCategoryNames {
    category_name: String,
    list_name_artifact: Vec<String>,
}

/// Width of the category column in the printed listing.
pub const CATEGORY_WIDTH: usize = 20;

/// The model of a category: its title and its names.
pub type CategoryModel = (Seq<char>, Seq<Seq<char>>);

impl View for ArtifactCategoryNames {
    type V = CategoryModel;

    closed spec fn view(&self) -> CategoryModel {
        (self.category_name@, strs(self.list_name_artifact@))
    }
}

impl ArtifactCategoryNames {
    /// A category always holds at least one name.
    #[verifier::type_invariant]
    closed spec fn holds_a_name(self) -> bool {
        self.list_name_artifact@.len() > 0
    }

    /// The title of the category.
    pub fn category_name(&self) -> (r: &String)
        ensures
            r@ == self@.0,
    {
        &self.category_name
    }

    /// The names filed under the category, in order.
    pub fn names(&self) -> (r: &Vec<String>)
        ensures
            strs(r@) == self@.1,
    {
        &self.list_name_artifact
    }

    /// The printed form of the category: one line per name, the title right
    /// aligned in a column of `CATEGORY_WIDTH` characters on the first line
    /// and blank on the others, then ` | ` and the name.
    pub fn display_text(&self) -> (r: String)
        ensures
            r@ == display_spec(self@.0, self@.1),
    {
        proof {
            use_type_invariant(self);
        }
        let n = self.list_name_artifact.len();
        let mut out = String::new();
        append_line(&mut out, self.category_name.as_str(), self.list_name_artifact[0].as_str());
        let mut i: usize = 1;
        assert(strs(self.list_name_artifact@).take(1) =~= seq![self.list_name_artifact@[0]@]);
        while i < n
            invariant
                1 <= i <= n,
                n == self.list_name_artifact@.len(),
                out@ == display_spec(self@.0, self@.1.take(i as int)),
                self@ == (self.category_name@, strs(self.list_name_artifact@)),
            decreases n - i,
        {
            append_line(&mut out, "", self.list_name_artifact[i].as_str());
            proof {
                reveal_strlit("");
                assert(self@.1.take(i + 1).drop_last() =~= self@.1.take(i as int));
            }
            i = i + 1;
        }
        assert(self@.1.take(n as int) =~= self@.1);
        out
    }
}

/// `s` right aligned in a column of `width` characters.
pub open spec fn pad_left(s: Seq<char>, width: int) -> Seq<char> {
    Seq::new(if s.len() < width { (width - s.len()) as nat } else { 0 }, |_i: int| ' ') + s
}

/// One printed line: `left` right aligned in the category column, ` | `,
/// `right`, and a line break.
pub open spec fn display_line(left: Seq<char>, right: Seq<char>) -> Seq<char> {
    pad_left(left, CATEGORY_WIDTH as int) + seq![' ', '|', ' '] + right + seq!['\n']
}

/// The printed form of a category titled `title` holding `names`.
pub open spec fn display_spec(title: Seq<char>, names: Seq<Seq<char>>) -> Seq<char>
    decreases names.len(),
{
    if names.len() == 0 {
        seq![]
    } else if names.len() == 1 {
        display_line(title, names[0])
    } else {
        display_spec(title, names.drop_last()) + display_line(seq![], names.last())
    }
}

/// A printed line holds exactly one line break when its two sides hold
/// none.
proof fn lemma_line_breaks_of_line(left: Seq<char>, right: Seq<char>)
    requires
        !left.contains('\n'),
        !right.contains('\n'),
    ensures
        count_of(display_line(left, right), '\n') == 1,
{
    let w: int = CATEGORY_WIDTH as int;
    let pad = Seq::new(if left.len() < w { (w - left.len()) as nat } else { 0 }, |_i: int| ' ');
    assert(!pad.contains('\n'));
    assert(!seq![' ', '|', ' '].contains('\n')) by {
        if seq![' ', '|', ' '].contains('\n') {
            let k = choose|k: int| 0 <= k < 3 && seq![' ', '|', ' '][k] == '\n';
            assert(seq![' ', '|', ' '][k] != '\n');
        }
    }
    lemma_count_of_absent(pad, '\n');
    lemma_count_of_absent(left, '\n');
    lemma_count_of_absent(right, '\n');
    lemma_count_of_absent(seq![' ', '|', ' '], '\n');
    lemma_count_of_absent(Seq::<char>::empty(), '\n');
    crate::text::lemma_count_of_push(Seq::<char>::empty(), '\n', '\n');
    assert(Seq::<char>::empty().push('\n') =~= seq!['\n']);
    lemma_count_of_add(pad, left, '\n');
    lemma_count_of_add(pad + left, seq![' ', '|', ' '], '\n');
    lemma_count_of_add(pad + left + seq![' ', '|', ' '], right, '\n');
    lemma_count_of_add(pad + left + seq![' ', '|', ' '] + right, seq!['\n'], '\n');
}

/// Law: a printed line is the left part right aligned in a column of
/// `CATEGORY_WIDTH` characters (spaces, then the left part; a longer left
/// part fills the column alone), then ` | `, then the right part, then a
/// line break.
pub proof fn law_line_shape(left: Seq<char>, right: Seq<char>)
    ensures
        ({
            let line = display_line(left, right);
            let w: int = if left.len() < CATEGORY_WIDTH { CATEGORY_WIDTH as int } else { left.len() as int };
            &&& line.len() == w + 3 + right.len() + 1
            &&& forall|i: int| 0 <= i < w - left.len() ==> line[i] == ' '
            &&& line.subrange(w - left.len(), w) == left
            &&& line.subrange(w, w + 3) == seq![' ', '|', ' ']
            &&& line.subrange(w + 3, w + 3 + right.len()) == right
            &&& line[w + 3 + right.len()] == '\n'
        }),
{
    let line = display_line(left, right);
    let w: int = if left.len() < CATEGORY_WIDTH { CATEGORY_WIDTH as int } else { left.len() as int };
    let pad = Seq::new(if left.len() < CATEGORY_WIDTH { (CATEGORY_WIDTH - left.len()) as nat } else { 0 }, |_i: int| ' ');
    assert(pad.len() == w - left.len());
    assert forall|i: int| 0 <= i < w - left.len() implies line[i] == ' ' by {
        assert(line[i] == pad[i]);
    }
    assert(line.subrange(w - left.len(), w) =~= left);
    assert(line.subrange(w, w + 3) =~= seq![' ', '|', ' ']);
    assert(line.subrange(w + 3, w + 3 + right.len()) =~= right);
}

/// Law: the printed form of a category is one line per name, in order:
/// the first with the title in the category column, the others with the
/// column blank; each line is the column, ` | `, the name and a line
/// break. So when neither the title nor a name holds a line break, the
/// printed form holds exactly as many line breaks as there are names.
pub proof fn law_one_line_per_name(title: Seq<char>, names: Seq<Seq<char>>)
    ensures
        display_spec(title, names) == Seq::new(
            names.len(),
            |k: int| display_line(if k == 0 { title } else { Seq::<char>::empty() }, names[k]),
        ).flatten(),
        !title.contains('\n') && (forall|k: int| 0 <= k < names.len() ==> !(#[trigger] names[k]).contains('\n'))
            ==> count_of(display_spec(title, names), '\n') == names.len(),
    decreases names.len(),
{
    let lines = Seq::new(
        names.len(),
        |k: int| display_line(if k == 0 { title } else { Seq::<char>::empty() }, names[k]),
    );
    lines.lemma_flatten_and_flatten_alt_are_equivalent();
    if names.len() > 0 {
        let pre = names.drop_last();
        law_one_line_per_name(title, pre);
        let pre_lines = Seq::new(
            pre.len(),
            |k: int| display_line(if k == 0 { title } else { Seq::<char>::empty() }, pre[k]),
        );
        pre_lines.lemma_flatten_and_flatten_alt_are_equivalent();
        assert(lines.drop_last() =~= pre_lines);
        if names.len() == 1 {
            assert(pre_lines.flatten_alt() =~= Seq::<char>::empty());
            assert(lines.flatten_alt() =~= display_line(title, names[0]));
        } else {
            assert(lines.last() == display_line(Seq::<char>::empty(), names.last()));
        }
        if !title.contains('\n') && (forall|k: int| 0 <= k < names.len() ==> !(#[trigger] names[k]).contains('\n')) {
            assert(forall|k: int| 0 <= k < pre.len() ==> !(#[trigger] pre[k]).contains('\n')) by {
                assert forall|k: int| 0 <= k < pre.len() implies !(#[trigger] pre[k]).contains('\n') by {
                    assert(pre[k] == names[k]);
                }
            }
            assert(!names[names.len() - 1].contains('\n'));
            assert(!Seq::<char>::empty().contains('\n'));
            if names.len() == 1 {
                lemma_line_breaks_of_line(title, names[0]);
            } else {
                lemma_line_breaks_of_line(Seq::<char>::empty(), names.last());
                lemma_count_of_add(display_spec(title, pre), display_line(Seq::<char>::empty(), names.last()), '\n');
            }
        }
    } else {
        assert(lines =~= Seq::<Seq<char>>::empty());
    }
}

/// Appends one printed line.
fn append_line(out: &mut String, left: &str, right: &str)
    ensures
        final(out)@ == old(out)@ + display_line(left@, right@),
{
    let len = left.unicode_len();
    let mut k = len;
    let ghost start = out@;
    while k < CATEGORY_WIDTH
        invariant
            len == left@.len(),
            len <= k <= CATEGORY_WIDTH || (len > CATEGORY_WIDTH && k == len),
            out@ == start + Seq::new((k - len) as nat, |_i: int| ' '),
        decreases CATEGORY_WIDTH - k,
    {
        push_char(out, ' ');
        k = k + 1;
        assert(out@ =~= start + Seq::new((k - len) as nat, |_i: int| ' '));
    }
    assert(Seq::new((k - len) as nat, |_i: int| ' ') =~= Seq::new(
        if left@.len() < CATEGORY_WIDTH { (CATEGORY_WIDTH - left@.len()) as nat } else { 0 },
        |_i: int| ' ',
    ));
    out.append(left);
    out.append(" | ");
    out.append(right);
    push_char(out, '\n');
    proof {
        reveal_strlit(" | ");
    }
    assert(out@ =~= start + display_line(left@, right@));
}

/// The title under which a document is filed: its category, or `Other`.
pub open spec fn category_of(a: YamlArtifact) -> Seq<char> {
    match a.metadata.category {
        Some(c) => c@,
        None => seq!['O', 't', 'h', 'e', 'r'],
    }
}

/// The titles of the categories, in order.
pub open spec fn titles(groups: Seq<CategoryModel>) -> Seq<Seq<char>> {
    groups.map_values(|g: CategoryModel| g.0)
}

/// `name` filed under `title`: appended to the first category with that
/// title, or to a new category at the end.
pub open spec fn file_under(groups: Seq<CategoryModel>, title: Seq<char>, name: Seq<char>) -> Seq<CategoryModel> {
    match first_match(titles(groups), title) {
        Some(k) => groups.update(k, (title, groups[k].1.push(name))),
        None => groups.push((title, seq![name])),
    }
}

/// The categories of `docs`: each document's name filed under its category,
/// in the order of the documents.
pub open spec fn categories(docs: Seq<YamlArtifact>) -> Seq<CategoryModel>
    decreases docs.len(),
{
    if docs.len() == 0 {
        seq![]
    } else {
        file_under(categories(docs.drop_last()), category_of(docs.last()), docs.last().metadata.name@)
    }
}

/// The number of names held by the categories.
pub open spec fn total_names(groups: Seq<CategoryModel>) -> int
    decreases groups.len(),
{
    if groups.len() == 0 {
        0
    } else {
        total_names(groups.drop_last()) + groups.last().1.len()
    }
}

proof fn lemma_total_update(groups: Seq<CategoryModel>, k: int, g: CategoryModel)
    requires
        0 <= k < groups.len(),
    ensures
        total_names(groups.update(k, g)) == total_names(groups) - groups[k].1.len() + g.1.len(),
    decreases groups.len(),
{
    if k < groups.len() - 1 {
        lemma_total_update(groups.drop_last(), k, g);
        assert(groups.update(k, g).drop_last() =~= groups.drop_last().update(k, g));
    } else {
        assert(groups.update(k, g).drop_last() =~= groups.drop_last());
    }
}

/// `name` is listed under `title` in `groups`.
pub open spec fn listed_under(groups: Seq<CategoryModel>, title: Seq<char>, name: Seq<char>) -> bool {
    exists|k: int| 0 <= k < groups.len() && groups[k].0 == title && #[trigger] groups[k].1.contains(name)
}

/// Law: the listing by category partitions the documents. No title occurs
/// twice, no category is empty, there are as many names as documents, and
/// every document's name is listed under its category (`Other` when it has
/// none).
pub proof fn law_categories_partition(docs: Seq<YamlArtifact>)
    ensures
        titles(categories(docs)).no_duplicates(),
        forall|k: int| 0 <= k < categories(docs).len() ==> #[trigger] categories(docs)[k].1.len() > 0,
        total_names(categories(docs)) == docs.len(),
        forall|j: int| 0 <= j < docs.len() ==> listed_under(categories(docs), category_of(docs[j]), #[trigger] docs[j].metadata.name@),
    decreases docs.len(),
{
    if docs.len() > 0 {
        let prev = docs.drop_last();
        law_categories_partition(prev);
        let groups = categories(prev);
        let t = category_of(docs.last());
        let n = docs.last().metadata.name@;
        let out = categories(docs);
        assert(out == file_under(groups, t, n));
        lemma_first_match_some(titles(groups), t);
        match first_match(titles(groups), t) {
            Some(k) => {
                assert(titles(out) =~= titles(groups));
                lemma_total_update(groups, k, (t, groups[k].1.push(n)));
                assert forall|j: int| 0 <= j < docs.len() implies listed_under(out, category_of(docs[j]), #[trigger] docs[j].metadata.name@) by {
                    if j < docs.len() - 1 {
                        assert(prev[j] == docs[j]);
                        assert(listed_under(groups, category_of(prev[j]), prev[j].metadata.name@));
                        let k2 = choose|k2: int| 0 <= k2 < groups.len() && groups[k2].0 == category_of(prev[j]) && #[trigger] groups[k2].1.contains(prev[j].metadata.name@);
                        if k2 == k {
                            let m = choose|m: int| 0 <= m < groups[k].1.len() && groups[k].1[m] == prev[j].metadata.name@;
                            assert(out[k].1[m] == prev[j].metadata.name@);
                            assert(out[k].1.contains(docs[j].metadata.name@));
                        } else {
                            assert(out[k2] == groups[k2]);
                            assert(out[k2].1.contains(docs[j].metadata.name@));
                        }
                    } else {
                        assert(out[k].1[groups[k].1.len() as int] == n);
                        assert(out[k].1.contains(n));
                    }
                }
            },
            None => {
                assert(titles(out) =~= titles(groups).push(t));
                assert(total_names(out) == total_names(groups) + 1) by {
                    assert(out.drop_last() =~= groups);
                }
                assert forall|j: int| 0 <= j < docs.len() implies listed_under(out, category_of(docs[j]), #[trigger] docs[j].metadata.name@) by {
                    if j < docs.len() - 1 {
                        assert(prev[j] == docs[j]);
                        assert(listed_under(groups, category_of(prev[j]), prev[j].metadata.name@));
                        let k2 = choose|k2: int| 0 <= k2 < groups.len() && groups[k2].0 == category_of(prev[j]) && #[trigger] groups[k2].1.contains(prev[j].metadata.name@);
                        assert(out[k2] == groups[k2]);
                        assert(out[k2].1.contains(docs[j].metadata.name@));
                    } else {
                        assert(out[groups.len() as int].1[0] == n);
                        assert(out[groups.len() as int].1.contains(n));
                    }
                }
            },
        }
    }
}

/// The names of the documents that give paths (`by_group` false) or groups
/// (`by_group` true), in order.
pub open spec fn names_where(docs: Seq<YamlArtifact>, by_group: bool) -> Seq<Seq<char>>
    decreases docs.len(),
{
    if docs.len() == 0 {
        seq![]
    } else {
        let r = names_where(docs.drop_last(), by_group);
        let a = docs.last();
        if (if by_group { a.artifact.group is Some } else { a.artifact.path is Some }) {
            r.push(a.metadata.name@)
        } else {
            r
        }
    }
}

/// Law: when every document is accepted (exactly one of `path` and
/// `group`), each is listed once, either as a target or as a group.
pub proof fn law_targets_and_groups_cover(docs: Seq<YamlArtifact>)
    requires
        forall|i: int| 0 <= i < docs.len() ==> #[trigger] document_check(docs[i]) is Ok,
    ensures
        names_where(docs, false).len() + names_where(docs, true).len() == docs.len(),
    decreases docs.len(),
{
    if docs.len() > 0 {
        let prev = docs.drop_last();
        assert forall|i: int| 0 <= i < prev.len() implies #[trigger] document_check(prev[i]) is Ok by {
            assert(prev[i] == docs[i]);
        }
        law_targets_and_groups_cover(prev);
        assert(document_check(docs[docs.len() - 1]) is Ok);
    }
}

/// The models of a list of categories.
pub open spec fn category_models(v: Seq<ArtifactCategoryNames>) -> Seq<CategoryModel> {
    v.map_values(|c: ArtifactCategoryNames| c@)
}

impl ArtifactListing {
    /// A listing of the given documents.
    pub fn load(artifact_struct: Vec<YamlArtifact>) -> (r: Self)
        ensures
            r.artifact_struct_list@ == artifact_struct@,
    {
        ArtifactListing { artifact_struct_list: artifact_struct }
    }

    fn names_by(&self, by_group: bool) -> (r: Vec<String>)
        ensures
            strs(r@) == names_where(self.artifact_struct_list@, by_group),
    {
        let docs = &self.artifact_struct_list;
        let mut names: Vec<String> = Vec::new();
        let mut i: usize = 0;
        assert(docs@.take(0) =~= Seq::<YamlArtifact>::empty());
        while i < docs.len()
            invariant
                0 <= i <= docs@.len(),
                strs(names@) == names_where(docs@.take(i as int), by_group),
            decreases docs@.len() - i,
        {
            assert(docs@.take(i + 1).drop_last() =~= docs@.take(i as int));
            assert(docs@.take(i + 1).last() == docs@[i as int]);
            let a = &docs[i];
            let wanted = if by_group { a.artifact.group.is_some() } else { a.artifact.path.is_some() };
            if wanted {
                let ghost before = names@;
                names.push(a.metadata.name.clone());
                assert(strs(names@) =~= strs(before).push(a.metadata.name@));
            }
            i = i + 1;
        }
        assert(docs@.take(docs@.len() as int) =~= docs@);
        names
    }

    /// The names of the documents that give paths (the targets), in order.
    pub fn names_pa(&self) -> (r: Vec<String>)
        ensures
            strs(r@) == names_where(self.artifact_struct_list@, false),
    {
        self.names_by(false)
    }

    /// The names of the documents that give groups, in order.
    pub fn names_gr(&self) -> (r: Vec<String>)
        ensures
            strs(r@) == names_where(self.artifact_struct_list@, true),
    {
        self.names_by(true)
    }

    /// The names of the documents by category, in the order in which the
    /// categories first appear; documents without a category are filed
    /// under `Other`.
    pub fn list_categories(&self) -> (r: Vec<ArtifactCategoryNames>)
        ensures
            category_models(r@) == categories(self.artifact_struct_list@),
    {
        let docs = &self.artifact_struct_list;
        let mut names: Vec<ArtifactCategoryNames> = Vec::new();
        let mut i: usize = 0;
        assert(docs@.take(0) =~= Seq::<YamlArtifact>::empty());
        assert(category_models(names@) =~= Seq::<CategoryModel>::empty());
        while i < docs.len()
            invariant
                0 <= i <= docs@.len(),
                category_models(names@) == categories(docs@.take(i as int)),
            decreases docs@.len() - i,
        {
            assert(docs@.take(i + 1).drop_last() =~= docs@.take(i as int));
            assert(docs@.take(i + 1).last() == docs@[i as int]);
            let a = &docs[i];
            let category: String = match &a.metadata.category {
                Some(c) => c.clone(),
                None => "Other".to_owned(),
            };
            proof {
                reveal_strlit("Other");
            }
            assert(category@ == category_of(docs@[i as int]));
            file_name(&mut names, category, a.metadata.name.clone());
            i = i + 1;
        }
        assert(docs@.take(docs@.len() as int) =~= docs@);
        names
    }
}

/// Files `name` under `title` in `groups`.
fn file_name(groups: &mut Vec<ArtifactCategoryNames>, title: String, name: String)
    ensures
        category_models(final(groups)@) == file_under(category_models(old(groups)@), title@, name@),
{
    let ghost models = category_models(groups@);
    assert(titles(models) =~= groups@.map_values(|c: ArtifactCategoryNames| c@.0));
    let mut k: usize = 0;
    while k < groups.len()
        invariant
            0 <= k <= groups@.len(),
            groups@ == old(groups)@,
            models == category_models(groups@),
            forall|j: int| 0 <= j < k ==> titles(models)[j] != title@,
        decreases groups@.len() - k,
    {
        if *groups[k].category_name() == title {
            proof {
                lemma_first_match_at(titles(models), title@, k as int);
            }
            let mut g = groups.remove(k);
            proof {
                use_type_invariant(&g);
            }
            let ArtifactCategoryNames { category_name, list_name_artifact } = g;
            let mut list = list_name_artifact;
            let ghost before = list@;
            list.push(name);
            let g2 = ArtifactCategoryNames { category_name, list_name_artifact: list };
            assert(g2@.1 =~= models[k as int].1.push(name@));
            groups.insert(k, g2);
            assert(category_models(groups@) =~= models.update(k as int, (title@, models[k as int].1.push(name@))));
            return;
        }
        k = k + 1;
    }
    proof {
        lemma_first_match_none(titles(models), title@);
    }
    let mut list: Vec<String> = Vec::new();
    list.push(name);
    let g = ArtifactCategoryNames { category_name: title, list_name_artifact: list };
    assert(g@.1 =~= seq![name@]);
    groups.push(g);
    assert(category_models(groups@) =~= models.push((title@, seq![name@])));
}

} // verus!
