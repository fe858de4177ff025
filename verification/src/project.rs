//! Discovered projects, and the order and uniqueness of the list that a pass returns.

use vstd::prelude::*;
use crate::action::ProjectAction;
use crate::name::text_of;
use crate::text::{lowercase, to_lowercase};
use crate::order::{
    lemma_lex_le_reflexive, lemma_lex_le_total, lemma_lex_le_transitive, lex_le, name_le,
};

verus! {

/// A discovered unit of work.
#[derive(Clone, Debug, PartialEq, Eq)]
pub struct Project {
    /// The name under which the project is shown and its session is looked up.
    pub name: String,
    /// The directory that the project is anchored to.
    pub root: String,
    /// The project's configuration file.
    pub config: Option<String>,
    /// What has to happen to bring its session to the foreground.
    pub action: ProjectAction,
    /// Whether it comes from a directory of registered configurations, rather than from a
    /// scanned directory tree.
    pub is_global: bool,
}

/// A project as plain data.
pub struct ProjectView {
    pub name: Seq<char>,
    pub root: Seq<char>,
    pub config: Option<Seq<char>>,
    pub action: ProjectAction,
    pub is_global: bool,
}

impl View for Project {
    type V = ProjectView;

    open spec fn view(&self) -> ProjectView {
        ProjectView {
            name: self.name@,
            root: self.root@,
            config: text_of(self.config),
            action: self.action,
            is_global: self.is_global,
        }
    }
}

/// The projects of a list as plain data.
pub open spec fn views(list: Seq<Project>) -> Seq<ProjectView> {
    list.map_values(|p: Project| p@)
}

/// What tells two entries of a list apart: name, root and locality.
pub open spec fn key(p: ProjectView) -> (Seq<char>, Seq<char>, bool) {
    (p.name, p.root, p.is_global)
}

/// Whether some entry of `list` has the key `k`.
pub open spec fn has_key(list: Seq<ProjectView>, k: (Seq<char>, Seq<char>, bool)) -> bool {
    exists|i: int| 0 <= i < list.len() && key(#[trigger] list[i]) == k
}

/// Whether no two entries of `list` have the same key.
pub open spec fn keys_distinct(list: Seq<ProjectView>) -> bool {
    forall|i: int, j: int|
        0 <= i < j < list.len() ==> key(#[trigger] list[i]) != key(#[trigger] list[j])
}

/// What a list is ordered by.
#[derive(Clone, Copy, Debug, PartialEq, Eq, Structural)]
pub enum By {
    /// The name as it is: the order of the list that a pass returns.
    Name,
    /// The name in lower case: the order in which matches are shown.
    LowercaseName,
}

impl By {
    /// What a project is ordered by.
    pub open spec fn of(self, p: ProjectView) -> Seq<char> {
        match self {
            By::Name => p.name,
            By::LowercaseName => lowercase(p.name),
        }
    }

    /// What `p` is ordered by.
    pub fn key(self, p: &Project) -> (k: String)
        ensures
            k@ == self.of(p@),
    {
        match self {
            By::Name => p.name.clone(),
            By::LowercaseName => to_lowercase(p.name.as_str()),
        }
    }
}

/// Whether `list` is in non-decreasing order of what it is ordered by.
pub open spec fn sorted_by(by: By, list: Seq<ProjectView>) -> bool {
    forall|i: int, j: int|
        0 <= i <= j < list.len() ==> lex_le(by.of(#[trigger] list[i]), by.of(#[trigger] list[j]))
}

/// `list` with, for each key, only the first entry that has it.
pub open spec fn distinct_first(list: Seq<ProjectView>) -> Seq<ProjectView>
    decreases list.len(),
{
    if list.len() == 0 {
        list
    } else if has_key(list.drop_last(), key(list.last())) {
        distinct_first(list.drop_last())
    } else {
        distinct_first(list.drop_last()).push(list.last())
    }
}

/// Where an entry ordered by `name` goes into a sorted `list`: behind the last entry that
/// does not come after it.
pub open spec fn insertion_point(by: By, list: Seq<ProjectView>, name: Seq<char>) -> nat
    decreases list.len(),
{
    if list.len() > 0 && !lex_le(by.of(list.last()), name) {
        insertion_point(by, list.drop_last(), name)
    } else {
        list.len()
    }
}

/// `list` in order; entries that are ordered by the same stay in the order they had.
pub open spec fn sorted_stable(by: By, list: Seq<ProjectView>) -> Seq<ProjectView>
    decreases list.len(),
{
    if list.len() == 0 {
        list
    } else {
        let front = sorted_stable(by, list.drop_last());
        front.insert(insertion_point(by, front, by.of(list.last())) as int, list.last())
    }
}

/// The list that a pass returns for the candidates it found, in the order it found them:
/// one entry for each key, the first found, and all in order of name.
pub open spec fn arranged(candidates: Seq<ProjectView>) -> Seq<ProjectView> {
    sorted_stable(By::Name, distinct_first(candidates))
}

/// The insertion point lies in the list, behind an entry that does not come after `name`
/// and before entries that all do.
pub proof fn lemma_insertion_point(by: By, list: Seq<ProjectView>, name: Seq<char>)
    ensures
        insertion_point(by, list, name) <= list.len(),
        forall|j: int|
            insertion_point(by, list, name) <= j < list.len() ==> !lex_le(
                by.of(#[trigger] list[j]),
                name,
            ),
        insertion_point(by, list, name) > 0 ==> lex_le(
            by.of(list[insertion_point(by, list, name) - 1]),
            name,
        ),
    decreases list.len(),
{
    if list.len() > 0 && !lex_le(by.of(list.last()), name) {
        lemma_insertion_point(by, list.drop_last(), name);
        assert forall|j: int| insertion_point(by, list, name) <= j < list.len() implies !lex_le(
            by.of(#[trigger] list[j]),
            name,
        ) by {
            if j < list.len() - 1 {
                assert(list[j] == list.drop_last()[j]);
            }
        }
        if insertion_point(by, list, name) > 0 {
            assert(list[insertion_point(by, list, name) - 1] == list.drop_last()[insertion_point(
                by,
                list,
                name,
            ) - 1]);
        }
    }
}

/// An index that has what the insertion point has is the insertion point.
pub proof fn lemma_insertion_point_is(by: By, list: Seq<ProjectView>, name: Seq<char>, k: int)
    requires
        0 <= k <= list.len(),
        forall|j: int| k <= j < list.len() ==> !lex_le(by.of(#[trigger] list[j]), name),
        k > 0 ==> lex_le(by.of(list[k - 1]), name),
    ensures
        insertion_point(by, list, name) == k,
    decreases list.len() - k,
{
    if k < list.len() {
        let front = list.drop_last();
        assert(!lex_le(by.of(list[list.len() - 1]), name));
        assert forall|j: int| k <= j < front.len() implies !lex_le(
            by.of(#[trigger] front[j]),
            name,
        ) by {
            assert(front[j] == list[j]);
        }
        if k > 0 {
            assert(front[k - 1] == list[k - 1]);
        }
        lemma_insertion_point_is(by, front, name, k);
    }
}

/// A key is in a list with one more entry where it is the key of that entry or in the list.
proof fn lemma_has_key_insert(
    list: Seq<ProjectView>,
    at: int,
    p: ProjectView,
    k: (Seq<char>, Seq<char>, bool),
)
    requires
        0 <= at <= list.len(),
    ensures
        has_key(list.insert(at, p), k) <==> (key(p) == k || has_key(list, k)),
{
    let out = list.insert(at, p);
    if has_key(out, k) {
        let i = choose|i: int| 0 <= i < out.len() && key(#[trigger] out[i]) == k;
        if i < at {
            assert(key(list[i]) == k);
        } else if i > at {
            assert(key(list[i - 1]) == k);
        }
    }
    if key(p) == k {
        assert(key(out[at]) == k);
    }
    if has_key(list, k) {
        let i = choose|i: int| 0 <= i < list.len() && key(#[trigger] list[i]) == k;
        if i < at {
            assert(key(out[i]) == k);
        } else {
            assert(key(out[i + 1]) == k);
        }
    }
}

/// A key is in a list where it is the key of the last entry or in the list before it.
proof fn lemma_has_key_last(list: Seq<ProjectView>, k: (Seq<char>, Seq<char>, bool))
    requires
        list.len() > 0,
    ensures
        has_key(list, k) <==> (key(list.last()) == k || has_key(list.drop_last(), k)),
{
    let init = list.drop_last();
    if has_key(list, k) {
        let i = choose|i: int| 0 <= i < list.len() && key(#[trigger] list[i]) == k;
        if i < init.len() {
            assert(key(init[i]) == k);
        }
    }
    if key(list.last()) == k {
        assert(key(list[list.len() - 1]) == k);
    }
    if has_key(init, k) {
        let i = choose|i: int| 0 <= i < init.len() && key(#[trigger] init[i]) == k;
        assert(key(list[i]) == k);
    }
}

/// Sorting keeps each key.
proof fn lemma_sorted_stable_key(by: By, list: Seq<ProjectView>, k: (Seq<char>, Seq<char>, bool))
    ensures
        sorted_stable(by, list).len() == list.len(),
        has_key(sorted_stable(by, list), k) <==> has_key(list, k),
    decreases list.len(),
{
    if list.len() > 0 {
        let front = sorted_stable(by, list.drop_last());
        lemma_sorted_stable_key(by, list.drop_last(), k);
        lemma_insertion_point(by, front, by.of(list.last()));
        lemma_has_key_insert(front, insertion_point(by, front, by.of(list.last())) as int, list.last(), k);
        lemma_has_key_last(list, k);
    }
}

/// Sorting keeps each entry.
proof fn lemma_sorted_stable_entry(by: By, list: Seq<ProjectView>, p: ProjectView)
    ensures
        sorted_stable(by, list).contains(p) <==> list.contains(p),
    decreases list.len(),
{
    if list.len() > 0 {
        let init = list.drop_last();
        let front = sorted_stable(by, init);
        let at = insertion_point(by, front, by.of(list.last())) as int;
        let out = front.insert(at, list.last());
        lemma_sorted_stable_entry(by, init, p);
        lemma_insertion_point(by, front, by.of(list.last()));
        if out.contains(p) {
            let i = choose|i: int| 0 <= i < out.len() && out[i] == p;
            if i < at {
                assert(front[i] == p);
            } else if i > at {
                assert(front[i - 1] == p);
            }
            if i != at {
                assert(front.contains(p));
                let j = choose|j: int| 0 <= j < init.len() && init[j] == p;
                assert(list[j] == p);
            } else {
                assert(list[list.len() - 1] == p);
            }
        }
        if list.contains(p) {
            let j = choose|j: int| 0 <= j < list.len() && list[j] == p;
            if j < init.len() {
                assert(init[j] == p);
                assert(init.contains(p));
                let i = choose|i: int| 0 <= i < front.len() && front[i] == p;
                if i < at {
                    assert(out[i] == p);
                } else {
                    assert(out[i + 1] == p);
                }
            } else {
                assert(out[at] == p);
            }
        }
    }
}

/// What sorting returns is in non-decreasing order.
pub proof fn lemma_sorted_stable_is_sorted(by: By, list: Seq<ProjectView>)
    ensures
        sorted_by(by, sorted_stable(by, list)),
    decreases list.len(),
{
    if list.len() > 0 {
        let front = sorted_stable(by, list.drop_last());
        let last = list.last();
        let at = insertion_point(by, front, by.of(last)) as int;
        let out = sorted_stable(by, list);
        lemma_sorted_stable_is_sorted(by, list.drop_last());
        lemma_insertion_point(by, front, by.of(last));
        assert(out == front.insert(at, last));
        assert forall|i: int, j: int| 0 <= i <= j < out.len() implies lex_le(
            by.of(#[trigger] out[i]),
            by.of(#[trigger] out[j]),
        ) by {
            if j < at {
                assert(out[i] == front[i] && out[j] == front[j]);
            } else if j == at {
                if i < at {
                    assert(out[i] == front[i]);
                    assert(lex_le(by.of(front[i]), by.of(front[at - 1])));
                    lemma_lex_le_transitive(by.of(front[i]), by.of(front[at - 1]), by.of(last));
                } else {
                    lemma_lex_le_reflexive(by.of(last));
                }
            } else {
                assert(out[j] == front[j - 1]);
                assert(!lex_le(by.of(front[j - 1]), by.of(last)));
                lemma_lex_le_total(by.of(front[j - 1]), by.of(last));
                if i < at {
                    assert(out[i] == front[i]);
                    assert(lex_le(by.of(front[i]), by.of(front[j - 1])));
                } else if i == at {
                } else {
                    assert(out[i] == front[i - 1]);
                    assert(lex_le(by.of(front[i - 1]), by.of(front[j - 1])));
                }
            }
        }
    }
}

/// Keeping the first entry of each key keeps each key.
proof fn lemma_distinct_first_key(list: Seq<ProjectView>, k: (Seq<char>, Seq<char>, bool))
    ensures
        has_key(distinct_first(list), k) <==> has_key(list, k),
        distinct_first(list).len() <= list.len(),
    decreases list.len(),
{
    if list.len() > 0 {
        let init = list.drop_last();
        let kept = distinct_first(init);
        lemma_distinct_first_key(init, k);
        lemma_has_key_last(list, k);
        if !has_key(init, key(list.last())) {
            lemma_has_key_insert(kept, kept.len() as int, list.last(), k);
            assert(kept.insert(kept.len() as int, list.last()) =~= kept.push(list.last()));
        }
    }
}

/// Keeping the first entry of each key brings in no entry.
proof fn lemma_distinct_first_entry(list: Seq<ProjectView>, p: ProjectView)
    requires
        distinct_first(list).contains(p),
    ensures
        list.contains(p),
    decreases list.len(),
{
    if list.len() > 0 {
        let init = list.drop_last();
        let kept = distinct_first(init);
        let out = distinct_first(list);
        let i = choose|i: int| 0 <= i < out.len() && out[i] == p;
        if i < kept.len() {
            assert(kept[i] == p);
            assert(kept.contains(p));
            lemma_distinct_first_entry(init, p);
            let j = choose|j: int| 0 <= j < init.len() && init[j] == p;
            assert(list[j] == p);
        } else {
            assert(list[list.len() - 1] == p);
        }
    }
}

/// Keeping the first entry of each key leaves no key twice.
pub proof fn lemma_distinct_first_is_distinct(list: Seq<ProjectView>)
    ensures
        keys_distinct(distinct_first(list)),
    decreases list.len(),
{
    if list.len() > 0 {
        let init = list.drop_last();
        let kept = distinct_first(init);
        let out = distinct_first(list);
        lemma_distinct_first_is_distinct(init);
        lemma_distinct_first_key(init, key(list.last()));
        assert forall|i: int, j: int| 0 <= i < j < out.len() implies key(#[trigger] out[i]) != key(
            #[trigger] out[j],
        ) by {
            if j < kept.len() {
                assert(out[i] == kept[i] && out[j] == kept[j]);
            } else {
                assert(out[i] == kept[i]);
                assert(!has_key(kept, key(list.last())));
            }
        }
    }
}

/// Sorting a list without a key twice gives a list without a key twice.
pub proof fn lemma_sorted_stable_stays_distinct(by: By, list: Seq<ProjectView>)
    requires
        keys_distinct(list),
    ensures
        keys_distinct(sorted_stable(by, list)),
    decreases list.len(),
{
    if list.len() > 0 {
        let init = list.drop_last();
        let front = sorted_stable(by, init);
        let last = list.last();
        let at = insertion_point(by, front, by.of(last)) as int;
        let out = sorted_stable(by, list);
        assert forall|i: int, j: int| 0 <= i < j < init.len() implies key(#[trigger] init[i]) != key(
            #[trigger] init[j],
        ) by {
            assert(init[i] == list[i] && init[j] == list[j]);
        }
        lemma_sorted_stable_stays_distinct(by, init);
        lemma_sorted_stable_key(by, init, key(last));
        lemma_insertion_point(by, front, by.of(last));
        assert(!has_key(init, key(last))) by {
            if has_key(init, key(last)) {
                let i = choose|i: int| 0 <= i < init.len() && key(#[trigger] init[i]) == key(last);
                assert(init[i] == list[i]);
                assert(key(list[i]) != key(list[list.len() - 1]));
            }
        }
        assert(!has_key(front, key(last)));
        assert(out == front.insert(at, last));
        assert forall|i: int, j: int| 0 <= i < j < out.len() implies key(#[trigger] out[i]) != key(
            #[trigger] out[j],
        ) by {
            let a = if i < at { i } else { i - 1 };
            let b = if j < at { j } else { j - 1 };
            if i == at {
                assert(out[j] == front[b]);
            } else if j == at {
                assert(out[i] == front[a]);
            } else {
                assert(out[i] == front[a] && out[j] == front[b]);
            }
        }
    }
}

/// The list of a pass is in non-decreasing order of name.
pub proof fn lemma_arranged_is_sorted(candidates: Seq<ProjectView>)
    ensures
        sorted_by(By::Name, arranged(candidates)),
{
    lemma_sorted_stable_is_sorted(By::Name, distinct_first(candidates));
}

/// The list of a pass holds no two entries with the same name, root and locality.
pub proof fn lemma_arranged_is_distinct(candidates: Seq<ProjectView>)
    ensures
        keys_distinct(arranged(candidates)),
{
    lemma_distinct_first_is_distinct(candidates);
    lemma_sorted_stable_stays_distinct(By::Name, distinct_first(candidates));
}

/// A candidate that a pass produces, however often, has exactly one entry in the list:
/// some entry has its key, and no two entries have.
pub proof fn lemma_candidate_listed_once(candidates: Seq<ProjectView>, i: int)
    requires
        0 <= i < candidates.len(),
    ensures
        exists|j: int|
            0 <= j < arranged(candidates).len() && key(#[trigger] arranged(candidates)[j]) == key(
                candidates[i],
            ),
        forall|j: int, l: int|
            0 <= j < arranged(candidates).len() && 0 <= l < arranged(candidates).len() && key(
                #[trigger] arranged(candidates)[j],
            ) == key(candidates[i]) && key(#[trigger] arranged(candidates)[l]) == key(candidates[i])
                ==> j == l,
{
    let k = key(candidates[i]);
    assert(has_key(candidates, k));
    lemma_distinct_first_key(candidates, k);
    lemma_sorted_stable_key(By::Name, distinct_first(candidates), k);
    lemma_arranged_is_distinct(candidates);
    let out = arranged(candidates);
    assert forall|j: int, l: int|
        0 <= j < out.len() && 0 <= l < out.len() && key(#[trigger] out[j]) == k && key(
            #[trigger] out[l],
        ) == k implies j == l by {
        if j < l {
            assert(key(out[j]) != key(out[l]));
        } else if l < j {
            assert(key(out[l]) != key(out[j]));
        }
    }
}

/// The list of a pass holds nothing but candidates.
pub proof fn lemma_listed_is_candidate(candidates: Seq<ProjectView>, j: int)
    requires
        0 <= j < arranged(candidates).len(),
    ensures
        candidates.contains(arranged(candidates)[j]),
{
    let p = arranged(candidates)[j];
    assert(arranged(candidates).contains(p));
    lemma_sorted_stable_entry(By::Name, distinct_first(candidates), p);
    lemma_distinct_first_entry(candidates, p);
}

/// A list in order is what sorting it returns.
pub proof fn lemma_sorted_stable_of_sorted(by: By, list: Seq<ProjectView>)
    requires
        sorted_by(by, list),
    ensures
        sorted_stable(by, list) == list,
    decreases list.len(),
{
    if list.len() > 0 {
        let init = list.drop_last();
        assert forall|i: int, j: int| 0 <= i <= j < init.len() implies lex_le(
            by.of(#[trigger] init[i]),
            by.of(#[trigger] init[j]),
        ) by {
            assert(init[i] == list[i] && init[j] == list[j]);
        }
        lemma_sorted_stable_of_sorted(by, init);
        if init.len() > 0 {
            assert(init[init.len() - 1] == list[list.len() - 2]);
            assert(lex_le(by.of(list[list.len() - 2]), by.of(list[list.len() - 1])));
        }
        lemma_insertion_point_is(by, init, by.of(list.last()), init.len() as int);
        assert(init.insert(init.len() as int, list.last()) =~= list);
    }
}

/// A list without a key twice is what keeping the first entry of each key returns.
pub proof fn lemma_distinct_first_of_distinct(list: Seq<ProjectView>)
    requires
        keys_distinct(list),
    ensures
        distinct_first(list) == list,
    decreases list.len(),
{
    if list.len() > 0 {
        let init = list.drop_last();
        assert forall|i: int, j: int| 0 <= i < j < init.len() implies key(#[trigger] init[i]) != key(
            #[trigger] init[j],
        ) by {
            assert(init[i] == list[i] && init[j] == list[j]);
        }
        lemma_distinct_first_of_distinct(init);
        if has_key(init, key(list.last())) {
            let i = choose|i: int| 0 <= i < init.len() && key(#[trigger] init[i]) == key(list.last());
            assert(init[i] == list[i]);
            assert(key(list[i]) != key(list[list.len() - 1]));
        }
        assert(init.push(list.last()) =~= list);
    }
}

/// Arranging a list that a pass returned changes nothing.
pub proof fn lemma_arranged_twice(candidates: Seq<ProjectView>)
    ensures
        arranged(arranged(candidates)) == arranged(candidates),
{
    lemma_arranged_is_distinct(candidates);
    lemma_arranged_is_sorted(candidates);
    lemma_distinct_first_of_distinct(arranged(candidates));
    lemma_sorted_stable_of_sorted(By::Name, arranged(candidates));
}

/// Whether two projects have the same name, root and locality.
pub fn same_key(a: &Project, b: &Project) -> (same: bool)
    ensures
        same == (key(a@) == key(b@)),
{
    a.name == b.name && a.root == b.root && a.is_global == b.is_global
}

/// Keeps, for each key, the first of the projects that have it.
fn first_of_each_key(candidates: Vec<Project>) -> (kept: Vec<Project>)
    ensures
        views(kept@) == distinct_first(views(candidates@)),
{
    let ghost all = views(candidates@);
    let mut kept: Vec<Project> = Vec::new();
    for p in it: candidates
        invariant
            views(it.seq()) == all,
            views(kept@) == distinct_first(all.take(it.index())),
    {
        let ghost seen = all.take(it.index());
        let mut found = false;
        let mut j: usize = 0;
        while j < kept.len() && !found
            invariant
                j <= kept.len(),
                found ==> has_key(views(kept@), key(p@)),
                !found ==> forall|l: int| 0 <= l < j ==> key(#[trigger] views(kept@)[l]) != key(p@),
            decreases kept.len() - j + if found { 0int } else { 1int },
        {
            if same_key(&kept[j], &p) {
                assert(key(views(kept@)[j as int]) == key(p@));
                found = true;
            } else {
                j += 1;
            }
        }
        proof {
            lemma_distinct_first_key(seen, key(p@));
            let next = all.take(it.index() + 1);
            assert(next.drop_last() =~= seen);
            assert(next.last() == p@);
        }
        if !found {
            let ghost before = views(kept@);
            kept.push(p);
            assert(views(kept@) =~= before.push(p@));
        }
    }
    assert(all.take(all.len() as int) == all);
    kept
}

/// Sorts projects; those that are ordered by the same stay in the order they had.
pub fn sort_by(projects: Vec<Project>, by: By) -> (sorted: Vec<Project>)
    ensures
        views(sorted@) == sorted_stable(by, views(projects@)),
{
    let ghost all = views(projects@);
    let mut sorted: Vec<Project> = Vec::new();
    for p in it: projects
        invariant
            views(it.seq()) == all,
            views(sorted@) == sorted_stable(by, all.take(it.index())),
    {
        let ghost front = views(sorted@);
        let rank = by.key(&p);
        let mut at: usize = sorted.len();
        while at > 0 && !name_le(by.key(&sorted[at - 1]).as_str(), rank.as_str())
            invariant
                at <= sorted.len(),
                front == views(sorted@),
                rank@ == by.of(p@),
                forall|l: int| at <= l < front.len() ==> !lex_le(by.of(#[trigger] front[l]), rank@),
            decreases at,
        {
            at -= 1;
        }
        proof {
            lemma_insertion_point_is(by, front, rank@, at as int);
            let next = all.take(it.index() + 1);
            assert(next.drop_last() =~= all.take(it.index()));
            assert(next.last() == p@);
        }
        sorted.insert(at, p);
        assert(views(sorted@) =~= front.insert(at as int, p@));
    }
    assert(all.take(all.len() as int) == all);
    sorted
}

/// Turns the candidates of a pass, in the order they were found, into the list that the
/// pass returns: one entry for each name, root and locality, and all in order of name.
pub fn arrange(candidates: Vec<Project>) -> (list: Vec<Project>)
    ensures
        views(list@) == arranged(views(candidates@)),
        sorted_by(By::Name, views(list@)),
        keys_distinct(views(list@)),
{
    proof {
        lemma_arranged_is_sorted(views(candidates@));
        lemma_arranged_is_distinct(views(candidates@));
    }
    sort_by(first_of_each_key(candidates), By::Name)
}

} // verus!
