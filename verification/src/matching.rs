//! The matches shown for a query: the projects that the query picks, in the order of their
//! names in lower case, each with its title and description.

use vstd::prelude::*;
use crate::project::{sort_by, sorted_stable, views, By, Project, ProjectView};
use crate::selection::{describe, description};
use crate::text::{
    find, holds, lowercase, matches_at, occurs_at, slice, strip, stripped, to_chars, to_lowercase,
    to_string, CharClass,
};

verus! {

/// What a match shows.
#[derive(Clone, Debug, PartialEq, Eq)]
pub struct Shown {
    pub title: String,
    pub description: String,
}

/// What a match shows, as plain data.
pub struct ShownView {
    pub title: Seq<char>,
    pub description: Seq<char>,
}

impl View for Shown {
    type V = ShownView;

    open spec fn view(&self) -> ShownView {
        ShownView { title: self.title@, description: self.description@ }
    }
}

/// The matches of a list as plain data.
pub open spec fn shown_views(list: Seq<Shown>) -> Seq<ShownView> {
    list.map_values(|s: Shown| s@)
}

/// What an input searches for: where it starts with the prefix, the rest of it, without
/// surrounding white space and in lower case. An input without the prefix is not meant for
/// this launcher.
pub open spec fn query_of(input: Seq<char>, prefix: Seq<char>) -> Option<Seq<char>> {
    if occurs_at(input, prefix, 0) {
        Some(lowercase(stripped(input.skip(prefix.len() as int), CharClass::Whitespace)))
    } else {
        None
    }
}

/// Whether a query picks a project: an empty query picks every project, another one
/// those that hold it in their name or in their root, in lower case.
pub open spec fn picks(query: Seq<char>, project: ProjectView) -> bool {
    query.len() == 0 || holds(lowercase(project.name), query) || holds(
        lowercase(project.root),
        query,
    )
}

/// The projects of `list` that `query` picks, in their order.
pub open spec fn picked(list: Seq<ProjectView>, query: Seq<char>) -> Seq<ProjectView>
    decreases list.len(),
{
    if list.len() == 0 {
        list
    } else if picks(query, list.last()) {
        picked(list.drop_last(), query).push(list.last())
    } else {
        picked(list.drop_last(), query)
    }
}

/// What the match of a project shows: its name, and the line that describes it.
pub open spec fn shown_of(project: ProjectView) -> ShownView {
    ShownView { title: project.name, description: description(project) }
}

/// The matches shown for an input: none where the input lacks the prefix, else one for
/// each project that the query picks, in the order of their names in lower case.
pub open spec fn displayed(projects: Seq<ProjectView>, input: Seq<char>, prefix: Seq<char>) -> Seq<
    ShownView,
> {
    match query_of(input, prefix) {
        Some(query) => sorted_stable(By::LowercaseName, picked(projects, query)).map_values(
            |p: ProjectView| shown_of(p),
        ),
        None => Seq::empty(),
    }
}

/// Reads the query off an input.
pub fn parse_query(input: &str, prefix: &str) -> (query: Option<String>)
    ensures
        query is Some <==> query_of(input@, prefix@) is Some,
        query matches Some(q) ==> q@ == query_of(input@, prefix@)->0,
{
    let text = to_chars(input);
    let lead = to_chars(prefix);
    if matches_at(&text, &lead, 0) {
        let rest = strip(&slice(&text, lead.len(), text.len()), CharClass::Whitespace);
        Some(to_lowercase(to_string(&rest).as_str()))
    } else {
        None
    }
}

/// Whether `query`, in lower case already, picks `project`.
pub fn is_picked(query: &str, project: &Project) -> (picked: bool)
    ensures
        picked == picks(query@, project@),
{
    let wanted = to_chars(query);
    if wanted.len() == 0 {
        return true;
    }
    let name = to_chars(to_lowercase(project.name.as_str()).as_str());
    if find(&name, &wanted, 0).is_some() {
        return true;
    }
    let root = to_chars(to_lowercase(project.root.as_str()).as_str());
    find(&root, &wanted, 0).is_some()
}

/// The matches to show for `input`, out of the projects that a pass returned.
pub fn get_matches(projects: Vec<Project>, input: &str, prefix: &str) -> (matches: Vec<Shown>)
    ensures
        shown_views(matches@) == displayed(views(projects@), input@, prefix@),
{
    let query = match parse_query(input, prefix) {
        Some(query) => query,
        None => {
            let none: Vec<Shown> = Vec::new();
            assert(shown_views(none@) =~= Seq::<ShownView>::empty());
            return none;
        },
    };
    let ghost all = views(projects@);
    let mut chosen: Vec<Project> = Vec::new();
    for p in it: projects
        invariant
            views(it.seq()) == all,
            views(chosen@) == picked(all.take(it.index()), query@),
    {
        let ghost before = views(chosen@);
        proof {
            let next = all.take(it.index() + 1);
            assert(next.drop_last() =~= all.take(it.index()));
            assert(next.last() == p@);
        }
        if is_picked(query.as_str(), &p) {
            chosen.push(p);
            assert(views(chosen@) =~= before.push(p@));
        }
    }
    assert(all.take(all.len() as int) == all);
    let ordered = sort_by(chosen, By::LowercaseName);
    let mut matches: Vec<Shown> = Vec::new();
    let mut i: usize = 0;
    while i < ordered.len()
        invariant
            i <= ordered.len(),
            shown_views(matches@) == views(ordered@).take(i as int).map_values(
                |p: ProjectView| shown_of(p),
            ),
        decreases ordered.len() - i,
    {
        let ghost before = shown_views(matches@);
        matches.push(Shown { title: ordered[i].name.clone(), description: describe(&ordered[i]) });
        assert(shown_views(matches@) =~= before.push(shown_of(ordered@[i as int]@)));
        assert(views(ordered@).take(i + 1).map_values(|p: ProjectView| shown_of(p)) =~= before.push(
            shown_of(ordered@[i as int]@),
        ));
        i += 1;
    }
    assert(views(ordered@).take(ordered.len() as int) == views(ordered@));
    matches
}

/// An empty query picks every project.
pub proof fn lemma_empty_query_picks_all(list: Seq<ProjectView>)
    ensures
        picked(list, Seq::<char>::empty()) == list,
    decreases list.len(),
{
    if list.len() > 0 {
        lemma_empty_query_picks_all(list.drop_last());
        assert(list.drop_last().push(list.last()) =~= list);
    }
}

/// Every project that is picked is one of the list, and the query picks it.
pub proof fn lemma_picked_is_picked(list: Seq<ProjectView>, query: Seq<char>, i: int)
    requires
        0 <= i < picked(list, query).len(),
    ensures
        list.contains(picked(list, query)[i]),
        picks(query, picked(list, query)[i]),
    decreases list.len(),
{
    if list.len() > 0 {
        let init = list.drop_last();
        if i < picked(init, query).len() {
            lemma_picked_is_picked(init, query, i);
            let p = picked(init, query)[i];
            let j = choose|j: int| 0 <= j < init.len() && init[j] == p;
            assert(list[j] == p);
        } else {
            assert(list[list.len() - 1] == list.last());
        }
    }
}

} // verus!
