//! What a discovery pass finds, stated over the file system itself, and the proof that
//! the pass finds exactly that.
//!
//! The file system is an oracle: a function from questions to answers. What lies below a
//! directory is then a function of the oracle, defined by descending the tree; the pass,
//! which works off an agenda question by question, is shown to arrive at the same list.

use vstd::prelude::*;
use crate::config::Config;
use crate::path::{extension, joined};
use crate::project::{arranged, ProjectView};
use crate::scan::{
    answers, bare_project, config_extension, configured_project, descent_tasks, discovered,
    follow_ups,
    initial, listing_of, local_config_name, next_request, registered_project, registered_tasks,
    request_of, run, step, EntryView, RequestView, ResponseView, ScanView, TaskView,
};

verus! {

/// Whether the oracle answers every question with an answer of the kind asked for.
pub open spec fn sound(oracle: spec_fn(RequestView) -> ResponseView) -> bool {
    forall|request: RequestView|
        !(request is Finished) ==> answers(request, #[trigger] oracle(request))
}

/// The text that the oracle gives for a file; nothing where it cannot be read.
pub open spec fn content_of(oracle: spec_fn(RequestView) -> ResponseView, file: Seq<char>) -> Option<
    Seq<char>,
> {
    match oracle(RequestView::Read { path: file }) {
        ResponseView::Content(text) => text,
        _ => None,
    }
}

/// Whether the oracle says that something exists at `path`.
pub open spec fn exists_at(oracle: spec_fn(RequestView) -> ResponseView, path: Seq<char>) -> bool {
    oracle(RequestView::Exists { path }) == ResponseView::Exists(true)
}

/// The entries that the oracle lists for a directory; none where it cannot be listed.
pub open spec fn entries_of(oracle: spec_fn(RequestView) -> ResponseView, dir: Seq<char>) -> Seq<
    EntryView,
> {
    match oracle(RequestView::List { path: dir }) {
        ResponseView::Listing(Some(entries)) => entries,
        _ => Seq::empty(),
    }
}

/// The project, if any, that the directory `dir` at the configured depth stands for.
pub open spec fn project_at(
    oracle: spec_fn(RequestView) -> ResponseView,
    live: Set<Seq<char>>,
    dir: Seq<char>,
) -> Seq<ProjectView> {
    let config = joined(dir, local_config_name());
    if exists_at(oracle, config) {
        seq![configured_project(dir, content_of(oracle, config), live)]
    } else {
        match bare_project(dir, live) {
            Some(project) => seq![project],
            None => Seq::empty(),
        }
    }
}

/// The projects that lie exactly `depth` levels below `path`, depth first and in the
/// order of the listings. Level 0 is `path` itself.
pub open spec fn projects_below(
    oracle: spec_fn(RequestView) -> ResponseView,
    live: Set<Seq<char>>,
    path: Seq<char>,
    depth: nat,
) -> Seq<ProjectView>
    decreases depth, 0nat,
{
    if depth == 0 {
        project_at(oracle, live, path)
    } else {
        projects_among(oracle, live, entries_of(oracle, path), (depth - 1) as nat)
    }
}

/// The projects that lie exactly `depth` levels below the directories among `entries`.
pub open spec fn projects_among(
    oracle: spec_fn(RequestView) -> ResponseView,
    live: Set<Seq<char>>,
    entries: Seq<EntryView>,
    depth: nat,
) -> Seq<ProjectView>
    decreases depth, entries.len(),
{
    if entries.len() == 0 {
        Seq::empty()
    } else if entries[0].is_dir {
        projects_below(oracle, live, entries[0].path, depth) + projects_among(
            oracle,
            live,
            entries.drop_first(),
            depth,
        )
    } else {
        projects_among(oracle, live, entries.drop_first(), depth)
    }
}

/// The projects of a configured tree: none where its root does not exist.
pub open spec fn projects_of_tree(
    oracle: spec_fn(RequestView) -> ResponseView,
    live: Set<Seq<char>>,
    root: Seq<char>,
    depth: nat,
) -> Seq<ProjectView> {
    if exists_at(oracle, root) {
        projects_below(oracle, live, root, depth)
    } else {
        Seq::empty()
    }
}

/// The projects that the configurations among `entries` stand for, in their order.
pub open spec fn projects_registered(
    oracle: spec_fn(RequestView) -> ResponseView,
    live: Set<Seq<char>>,
    dir: Seq<char>,
    entries: Seq<EntryView>,
) -> Seq<ProjectView>
    decreases entries.len(),
{
    if entries.len() == 0 {
        Seq::empty()
    } else if extension(entries[0].path) == Some(config_extension()) {
        seq![registered_project(dir, entries[0].path, content_of(oracle, entries[0].path), live)]
            + projects_registered(oracle, live, dir, entries.drop_first())
    } else {
        projects_registered(oracle, live, dir, entries.drop_first())
    }
}

/// What a task brings to light in the end.
pub open spec fn projects_of_task(
    oracle: spec_fn(RequestView) -> ResponseView,
    live: Set<Seq<char>>,
    task: TaskView,
) -> Seq<ProjectView> {
    match task {
        TaskView::Registry { dir } => projects_registered(oracle, live, dir, entries_of(oracle, dir)),
        TaskView::Registered { dir, file } => seq![
            registered_project(dir, file, content_of(oracle, file), live),
        ],
        TaskView::Root { path, depth } => projects_of_tree(oracle, live, path, depth),
        TaskView::Walk { path, remaining } => projects_below(oracle, live, path, remaining),
        TaskView::Configured { dir } => seq![
            configured_project(dir, content_of(oracle, joined(dir, local_config_name())), live),
        ],
    }
}

/// What the tasks of an agenda bring to light, one after the other.
pub open spec fn projects_of_agenda(
    oracle: spec_fn(RequestView) -> ResponseView,
    live: Set<Seq<char>>,
    agenda: Seq<TaskView>,
) -> Seq<ProjectView>
    decreases agenda.len(),
{
    if agenda.len() == 0 {
        Seq::empty()
    } else {
        projects_of_task(oracle, live, agenda[0]) + projects_of_agenda(
            oracle,
            live,
            agenda.drop_first(),
        )
    }
}

/// The candidates of a whole pass over the file system that the oracle stands for: those
/// of the registries, then those of the configured trees.
pub open spec fn candidates(
    config: Config,
    env: Map<Seq<char>, Seq<char>>,
    live: Set<Seq<char>>,
    oracle: spec_fn(RequestView) -> ResponseView,
) -> Seq<ProjectView> {
    projects_of_agenda(oracle, live, initial(config, env, live).agenda)
}

/// A state of a pass.
pub open spec fn state(live: Set<Seq<char>>, agenda: Seq<TaskView>, found: Seq<ProjectView>) -> ScanView {
    ScanView { live, agenda, found }
}

/// Running on is running from where the run has come to.
pub proof fn lemma_run_on(
    start: ScanView,
    oracle: spec_fn(RequestView) -> ResponseView,
    n: nat,
    m: nat,
)
    ensures
        run(start, oracle, n + m) == run(run(start, oracle, n), oracle, m),
    decreases n,
{
    if start.agenda.len() == 0 {
        lemma_run_rests(start, oracle, n);
        lemma_run_rests(start, oracle, n + m);
        lemma_run_rests(start, oracle, m);
    } else if n > 0 {
        lemma_run_on(step(start, oracle(next_request(start))), oracle, (n - 1) as nat, m);
    }
}

/// A pass with an empty agenda does not move.
pub proof fn lemma_run_rests(start: ScanView, oracle: spec_fn(RequestView) -> ResponseView, n: nat)
    requires
        start.agenda.len() == 0,
    ensures
        run(start, oracle, n) == start,
{
}

/// One answered question takes the task in front off the agenda, puts what follows from
/// it in its place, and adds what it brings to light.
proof fn lemma_one_step(
    oracle: spec_fn(RequestView) -> ResponseView,
    live: Set<Seq<char>>,
    task: TaskView,
    rest: Seq<TaskView>,
    found: Seq<ProjectView>,
    n: nat,
)
    requires
        sound(oracle),
    ensures
        run(state(live, seq![task] + rest, found), oracle, n + 1) == run(
            state(
                live,
                follow_ups(task, oracle(request_of(task))) + rest,
                match discovered(task, oracle(request_of(task)), live) {
                    Some(project) => found + seq![project],
                    None => found,
                },
            ),
            oracle,
            n,
        ),
{
    let start = state(live, seq![task] + rest, found);
    let response = oracle(request_of(task));
    assert(start.agenda[0] == task);
    assert(!(request_of(task) is Finished));
    assert(answers(request_of(task), response));
    assert(start.agenda.drop_first() =~= rest);
    match discovered(task, response, live) {
        Some(project) => {
            assert(found.push(project) =~= found + seq![project]);
        },
        None => {},
    }
}

/// The tasks for the directories among the entries, read from the front.
proof fn lemma_descent_tasks_front(entries: Seq<EntryView>, remaining: nat)
    requires
        entries.len() > 0,
    ensures
        descent_tasks(entries, remaining) == (if entries[0].is_dir {
            seq![TaskView::Walk { path: entries[0].path, remaining }]
        } else {
            Seq::<TaskView>::empty()
        }) + descent_tasks(entries.drop_first(), remaining),
    decreases entries.len(),
{
    let head = if entries[0].is_dir {
        seq![TaskView::Walk { path: entries[0].path, remaining }]
    } else {
        Seq::<TaskView>::empty()
    };
    if entries.len() == 1 {
        assert(entries.drop_last() =~= Seq::<EntryView>::empty());
        assert(entries.drop_first() =~= Seq::<EntryView>::empty());
        assert(descent_tasks(entries, remaining) =~= head + descent_tasks(
            entries.drop_first(),
            remaining,
        ));
    } else {
        let init = entries.drop_last();
        lemma_descent_tasks_front(init, remaining);
        assert(init.drop_first() =~= entries.drop_first().drop_last());
        assert(init[0] == entries[0]);
        assert(entries.drop_first().last() == entries.last());
        assert(descent_tasks(entries, remaining) =~= head + descent_tasks(
            entries.drop_first(),
            remaining,
        ));
    }
}

/// The tasks for the configurations among the entries, read from the front.
proof fn lemma_registered_tasks_front(dir: Seq<char>, entries: Seq<EntryView>)
    requires
        entries.len() > 0,
    ensures
        registered_tasks(dir, entries) == (if extension(entries[0].path) == Some(
            config_extension(),
        ) {
            seq![TaskView::Registered { dir, file: entries[0].path }]
        } else {
            Seq::<TaskView>::empty()
        }) + registered_tasks(dir, entries.drop_first()),
    decreases entries.len(),
{
    let head = if extension(entries[0].path) == Some(config_extension()) {
        seq![TaskView::Registered { dir, file: entries[0].path }]
    } else {
        Seq::<TaskView>::empty()
    };
    if entries.len() == 1 {
        assert(entries.drop_last() =~= Seq::<EntryView>::empty());
        assert(entries.drop_first() =~= Seq::<EntryView>::empty());
        assert(registered_tasks(dir, entries) =~= head + registered_tasks(
            dir,
            entries.drop_first(),
        ));
    } else {
        let init = entries.drop_last();
        lemma_registered_tasks_front(dir, init);
        assert(init.drop_first() =~= entries.drop_first().drop_last());
        assert(init[0] == entries[0]);
        assert(entries.drop_first().last() == entries.last());
        assert(registered_tasks(dir, entries) =~= head + registered_tasks(
            dir,
            entries.drop_first(),
        ));
    }
}

/// A pass works a directory of a tree off its agenda and finds what lies below it at the
/// configured depth: no more, and from no other depth.
pub proof fn lemma_walk(
    oracle: spec_fn(RequestView) -> ResponseView,
    live: Set<Seq<char>>,
    path: Seq<char>,
    remaining: nat,
    rest: Seq<TaskView>,
    found: Seq<ProjectView>,
) -> (n: nat)
    requires
        sound(oracle),
    ensures
        run(state(live, seq![TaskView::Walk { path, remaining }] + rest, found), oracle, n)
            == state(live, rest, found + projects_below(oracle, live, path, remaining)),
    decreases remaining, 0nat,
{
    let task = TaskView::Walk { path, remaining };
    let response = oracle(request_of(task));
    assert(answers(request_of(task), response));
    if remaining == 0 {
        let config = joined(path, local_config_name());
        if exists_at(oracle, config) {
            let second = TaskView::Configured { dir: path };
            let text = oracle(request_of(second));
            assert(answers(request_of(second), text));
            lemma_one_step(oracle, live, task, rest, found, 1);
            lemma_one_step(oracle, live, second, rest, found, 0);
            assert(follow_ups(task, response) + rest =~= seq![second] + rest);
            assert(follow_ups(second, text) + rest =~= rest);
            2
        } else {
            lemma_one_step(oracle, live, task, rest, found, 0);
            assert(follow_ups(task, response) + rest =~= rest);
            assert(found + Seq::<ProjectView>::empty() =~= found);
            1
        }
    } else {
        let entries = entries_of(oracle, path);
        let below = (remaining - 1) as nat;
        let m = lemma_walk_among(oracle, live, entries, below, rest, found);
        lemma_one_step(oracle, live, task, rest, found, m);
        assert(follow_ups(task, response) =~= descent_tasks(entries, below)) by {
            if response == ResponseView::Listing(None) {
                assert(descent_tasks(Seq::<EntryView>::empty(), below) =~= Seq::<TaskView>::empty());
            }
        }
        m + 1
    }
}

/// A pass works the directories among the entries of a listing off its agenda, one after
/// the other, each with all that lies below it.
pub proof fn lemma_walk_among(
    oracle: spec_fn(RequestView) -> ResponseView,
    live: Set<Seq<char>>,
    entries: Seq<EntryView>,
    remaining: nat,
    rest: Seq<TaskView>,
    found: Seq<ProjectView>,
) -> (n: nat)
    requires
        sound(oracle),
    ensures
        run(state(live, descent_tasks(entries, remaining) + rest, found), oracle, n) == state(
            live,
            rest,
            found + projects_among(oracle, live, entries, remaining),
        ),
    decreases remaining, entries.len(),
{
    if entries.len() == 0 {
        assert(descent_tasks(entries, remaining) + rest =~= rest);
        assert(found + projects_among(oracle, live, entries, remaining) =~= found);
        0
    } else {
        let tail = entries.drop_first();
        lemma_descent_tasks_front(entries, remaining);
        if entries[0].is_dir {
            let first = TaskView::Walk { path: entries[0].path, remaining };
            let later = descent_tasks(tail, remaining) + rest;
            let here = projects_below(oracle, live, entries[0].path, remaining);
            let a = lemma_walk(oracle, live, entries[0].path, remaining, later, found);
            let b = lemma_walk_among(oracle, live, tail, remaining, rest, found + here);
            lemma_run_on(state(live, seq![first] + later, found), oracle, a, b);
            assert(descent_tasks(entries, remaining) + rest =~= seq![first] + later);
            assert(found + here + projects_among(oracle, live, tail, remaining) =~= found
                + projects_among(oracle, live, entries, remaining));
            a + b
        } else {
            let b = lemma_walk_among(oracle, live, tail, remaining, rest, found);
            assert(descent_tasks(entries, remaining) + rest =~= descent_tasks(tail, remaining)
                + rest);
            b
        }
    }
}

/// A pass works the configurations among the entries of a registry off its agenda.
proof fn lemma_registered_among(
    oracle: spec_fn(RequestView) -> ResponseView,
    live: Set<Seq<char>>,
    dir: Seq<char>,
    entries: Seq<EntryView>,
    rest: Seq<TaskView>,
    found: Seq<ProjectView>,
) -> (n: nat)
    requires
        sound(oracle),
    ensures
        run(state(live, registered_tasks(dir, entries) + rest, found), oracle, n) == state(
            live,
            rest,
            found + projects_registered(oracle, live, dir, entries),
        ),
    decreases entries.len(),
{
    if entries.len() == 0 {
        assert(registered_tasks(dir, entries) + rest =~= rest);
        assert(found + projects_registered(oracle, live, dir, entries) =~= found);
        0
    } else {
        let tail = entries.drop_first();
        lemma_registered_tasks_front(dir, entries);
        if extension(entries[0].path) == Some(config_extension()) {
            let first = TaskView::Registered { dir, file: entries[0].path };
            let later = registered_tasks(dir, tail) + rest;
            let text = oracle(request_of(first));
            assert(answers(request_of(first), text));
            let here = seq![
                registered_project(dir, entries[0].path, content_of(oracle, entries[0].path), live),
            ];
            let b = lemma_registered_among(oracle, live, dir, tail, rest, found + here);
            lemma_one_step(oracle, live, first, later, found, b);
            assert(follow_ups(first, text) + later =~= later);
            assert(registered_tasks(dir, entries) + rest =~= seq![first] + later);
            assert(found + here + projects_registered(oracle, live, dir, tail) =~= found
                + projects_registered(oracle, live, dir, entries));
            b + 1
        } else {
            let b = lemma_registered_among(oracle, live, dir, tail, rest, found);
            assert(registered_tasks(dir, entries) + rest =~= registered_tasks(dir, tail) + rest);
            b
        }
    }
}

/// A pass works any task off its agenda and finds what the task brings to light.
pub proof fn lemma_task(
    oracle: spec_fn(RequestView) -> ResponseView,
    live: Set<Seq<char>>,
    task: TaskView,
    rest: Seq<TaskView>,
    found: Seq<ProjectView>,
) -> (n: nat)
    requires
        sound(oracle),
    ensures
        run(state(live, seq![task] + rest, found), oracle, n) == state(
            live,
            rest,
            found + projects_of_task(oracle, live, task),
        ),
{
    let response = oracle(request_of(task));
    assert(answers(request_of(task), response));
    match task {
        TaskView::Registry { dir } => {
            let entries = entries_of(oracle, dir);
            let m = lemma_registered_among(oracle, live, dir, entries, rest, found);
            lemma_one_step(oracle, live, task, rest, found, m);
            assert(follow_ups(task, response) =~= registered_tasks(dir, entries)) by {
                if response == ResponseView::Listing(None) {
                    assert(registered_tasks(dir, Seq::<EntryView>::empty()) =~= Seq::<
                        TaskView,
                    >::empty());
                }
            }
            m + 1
        },
        TaskView::Registered { dir, file } => {
            lemma_one_step(oracle, live, task, rest, found, 0);
            assert(follow_ups(task, response) + rest =~= rest);
            1
        },
        TaskView::Root { path, depth } => {
            if exists_at(oracle, path) {
                let m = lemma_walk(oracle, live, path, depth, rest, found);
                lemma_one_step(oracle, live, task, rest, found, m);
                assert(follow_ups(task, response) =~= seq![
                    TaskView::Walk { path, remaining: depth },
                ]);
                m + 1
            } else {
                lemma_one_step(oracle, live, task, rest, found, 0);
                assert(follow_ups(task, response) + rest =~= rest);
                assert(found + Seq::<ProjectView>::empty() =~= found);
                1
            }
        },
        TaskView::Walk { path, remaining } => lemma_walk(oracle, live, path, remaining, rest, found),
        TaskView::Configured { dir } => {
            lemma_one_step(oracle, live, task, rest, found, 0);
            assert(follow_ups(task, response) + rest =~= rest);
            1
        },
    }
}

/// A pass works its whole agenda off and finds what its tasks bring to light, in the
/// order of the agenda.
pub proof fn lemma_agenda(
    oracle: spec_fn(RequestView) -> ResponseView,
    live: Set<Seq<char>>,
    agenda: Seq<TaskView>,
    found: Seq<ProjectView>,
) -> (n: nat)
    requires
        sound(oracle),
    ensures
        run(state(live, agenda, found), oracle, n) == state(
            live,
            Seq::empty(),
            found + projects_of_agenda(oracle, live, agenda),
        ),
    decreases agenda.len(),
{
    if agenda.len() == 0 {
        assert(agenda =~= Seq::<TaskView>::empty());
        assert(found + projects_of_agenda(oracle, live, agenda) =~= found);
        0
    } else {
        let rest = agenda.drop_first();
        let here = projects_of_task(oracle, live, agenda[0]);
        let a = lemma_task(oracle, live, agenda[0], rest, found);
        let b = lemma_agenda(oracle, live, rest, found + here);
        lemma_run_on(state(live, agenda, found), oracle, a, b);
        assert(seq![agenda[0]] + rest =~= agenda);
        assert(found + here + projects_of_agenda(oracle, live, rest) =~= found
            + projects_of_agenda(oracle, live, agenda));
        a + b
    }
}

/// Over a file system that answers each question in kind, a pass comes to an end, and
/// the list it returns is made of the registered configurations and of the directories
/// that lie at exactly the configured depth below the configured roots: one entry for
/// each name, root and locality, in order of name.
pub proof fn lemma_pass_finds_the_candidates(
    config: Config,
    env: Map<Seq<char>, Seq<char>>,
    live: Set<Seq<char>>,
    oracle: spec_fn(RequestView) -> ResponseView,
) -> (n: nat)
    requires
        sound(oracle),
    ensures
        run(initial(config, env, live), oracle, n).agenda.len() == 0,
        listing_of(run(initial(config, env, live), oracle, n)) == arranged(
            candidates(config, env, live, oracle),
        ),
{
    let start = initial(config, env, live);
    let n = lemma_agenda(oracle, live, start.agenda, Seq::empty());
    assert(state(live, start.agenda, Seq::empty()) == start);
    assert(Seq::<ProjectView>::empty() + candidates(config, env, live, oracle) =~= candidates(
        config,
        env,
        live,
        oracle,
    ));
    n
}

} // verus!
