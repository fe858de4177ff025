//! One discovery pass as a sequence of questions to the file system and of their answers.
//!
//! The pass keeps an agenda of what is still to be looked at. Its caller asks for the next
//! question, puts it to the file system, and hands the answer back; the pass then decides
//! what follows. Directory trees are walked depth first, and a directory counts as a
//! project only at the configured depth.

use vstd::prelude::*;
use crate::action::{determine_action, resolve, ProjectAction};
use crate::config::{registries, texts, tmuxinator_dirs, Config, Directory};
use crate::expand::{expand_path, expanded, Environment};
use crate::name::{declared_name, parse_project_name, project_name, resolved_name, text_of};
use crate::path::{
    extension, extension_of, file_name, file_name_of, file_stem, file_stem_of, join, joined,
};
use crate::project::{
    arrange, arranged, keys_distinct, sorted_by, views, By, Project, ProjectView,
};
use crate::sessions::{inventory, session_inventory, Listing, SessionSet};
use crate::text::same_text;

verus! {

/// The name of the configuration file that marks a directory as a project.
pub open spec fn local_config_name() -> Seq<char> {
    ".tmuxinator.yml"@
}

/// The extension that marks a file as a registered configuration.
pub open spec fn config_extension() -> Seq<char> {
    "yml"@
}

/// An entry of a directory: its path, and whether it is a directory itself.
#[derive(Clone, Debug, PartialEq, Eq)]
pub struct Entry {
    pub path: String,
    pub is_dir: bool,
}

/// An entry of a directory as plain data.
pub struct EntryView {
    pub path: Seq<char>,
    pub is_dir: bool,
}

impl View for Entry {
    type V = EntryView;

    open spec fn view(&self) -> EntryView {
        EntryView { path: self.path@, is_dir: self.is_dir }
    }
}

/// A question to the file system.
#[derive(Clone, Debug, PartialEq, Eq)]
pub enum Request {
    /// Is there anything at this path?
    Exists { path: String },
    /// What are the entries of this directory?
    List { path: String },
    /// What is the text of this file?
    Read { path: String },
    /// Nothing is left to ask: the pass is complete.
    Finished,
}

/// A question to the file system as plain data.
pub enum RequestView {
    Exists { path: Seq<char> },
    List { path: Seq<char> },
    Read { path: Seq<char> },
    Finished,
}

impl View for Request {
    type V = RequestView;

    open spec fn view(&self) -> RequestView {
        match self {
            Request::Exists { path } => RequestView::Exists { path: path@ },
            Request::List { path } => RequestView::List { path: path@ },
            Request::Read { path } => RequestView::Read { path: path@ },
            Request::Finished => RequestView::Finished,
        }
    }
}

/// An answer of the file system.
#[derive(Clone, Debug, PartialEq, Eq)]
pub enum Response {
    /// Whether there is anything at the path.
    Exists(bool),
    /// The entries of the directory, in the order the file system gave them; nothing where
    /// it could not be listed.
    Listing(Option<Vec<Entry>>),
    /// The text of the file; nothing where it could not be read.
    Content(Option<String>),
}

/// An answer of the file system as plain data.
pub enum ResponseView {
    Exists(bool),
    Listing(Option<Seq<EntryView>>),
    Content(Option<Seq<char>>),
}

/// The entries of a listing as plain data.
pub open spec fn entry_views(entries: Seq<Entry>) -> Seq<EntryView> {
    entries.map_values(|e: Entry| e@)
}

impl View for Response {
    type V = ResponseView;

    open spec fn view(&self) -> ResponseView {
        match self {
            Response::Exists(found) => ResponseView::Exists(*found),
            Response::Listing(Some(entries)) => ResponseView::Listing(Some(entry_views(entries@))),
            Response::Listing(None) => ResponseView::Listing(None),
            Response::Content(text) => ResponseView::Content(text_of(*text)),
        }
    }
}

/// Something that the pass still has to look at.
pub enum Task {
    /// A directory of registered configurations, to be listed.
    Registry { dir: String },
    /// A registered configuration, to be read.
    Registered { dir: String, file: String },
    /// The root of a tree to scan, to be probed: projects lie `depth` levels below it.
    Root { path: String, depth: usize },
    /// A directory of a tree, `remaining` levels above the projects: to be listed, or, at
    /// level 0, to be probed for its configuration.
    Walk { path: String, remaining: usize },
    /// The configuration of a project directory, to be read.
    Configured { dir: String },
}

/// Something that the pass still has to look at, as plain data.
pub enum TaskView {
    Registry { dir: Seq<char> },
    Registered { dir: Seq<char>, file: Seq<char> },
    Root { path: Seq<char>, depth: nat },
    Walk { path: Seq<char>, remaining: nat },
    Configured { dir: Seq<char> },
}

impl View for Task {
    type V = TaskView;

    open spec fn view(&self) -> TaskView {
        match self {
            Task::Registry { dir } => TaskView::Registry { dir: dir@ },
            Task::Registered { dir, file } => TaskView::Registered { dir: dir@, file: file@ },
            Task::Root { path, depth } => TaskView::Root { path: path@, depth: *depth as nat },
            Task::Walk { path, remaining } => TaskView::Walk {
                path: path@,
                remaining: *remaining as nat,
            },
            Task::Configured { dir } => TaskView::Configured { dir: dir@ },
        }
    }
}

/// The state of a pass: the live sessions, the agenda with what comes next in front, and
/// the projects found so far, in the order they were found.
pub struct ScanView {
    pub live: Set<Seq<char>>,
    pub agenda: Seq<TaskView>,
    pub found: Seq<ProjectView>,
}

/// The question that a task puts.
pub open spec fn request_of(task: TaskView) -> RequestView {
    match task {
        TaskView::Registry { dir } => RequestView::List { path: dir },
        TaskView::Registered { dir, file } => RequestView::Read { path: file },
        TaskView::Root { path, depth } => RequestView::Exists { path },
        TaskView::Walk { path, remaining } => if remaining == 0 {
            RequestView::Exists { path: joined(path, local_config_name()) }
        } else {
            RequestView::List { path }
        },
        TaskView::Configured { dir } => RequestView::Read { path: joined(dir, local_config_name()) },
    }
}

/// The question that a pass puts next.
pub open spec fn next_request(state: ScanView) -> RequestView {
    if state.agenda.len() == 0 {
        RequestView::Finished
    } else {
        request_of(state.agenda[0])
    }
}

/// Whether an answer is of the kind that a question asks for.
pub open spec fn answers(request: RequestView, response: ResponseView) -> bool {
    match request {
        RequestView::Exists { .. } => response is Exists,
        RequestView::List { .. } => response is Listing,
        RequestView::Read { .. } => response is Content,
        RequestView::Finished => false,
    }
}

/// The tasks for the registered configurations among the entries of a registry: one for
/// each entry with the extension of a configuration, in the order of the entries.
pub open spec fn registered_tasks(dir: Seq<char>, entries: Seq<EntryView>) -> Seq<TaskView>
    decreases entries.len(),
{
    if entries.len() == 0 {
        Seq::empty()
    } else {
        let before = registered_tasks(dir, entries.drop_last());
        if extension(entries.last().path) == Some(config_extension()) {
            before.push(TaskView::Registered { dir, file: entries.last().path })
        } else {
            before
        }
    }
}

/// The tasks for the directories among the entries of a directory, one level further
/// down, in the order of the entries.
pub open spec fn descent_tasks(entries: Seq<EntryView>, remaining: nat) -> Seq<TaskView>
    decreases entries.len(),
{
    if entries.len() == 0 {
        Seq::empty()
    } else {
        let before = descent_tasks(entries.drop_last(), remaining);
        if entries.last().is_dir {
            before.push(TaskView::Walk { path: entries.last().path, remaining })
        } else {
            before
        }
    }
}

/// The name that a text declares, where there is a text.
pub open spec fn declared_in(content: Option<Seq<char>>) -> Option<Seq<char>> {
    match content {
        Some(text) => declared_name(text),
        None => None,
    }
}

/// The project that a registered configuration stands for. It is named by what the file
/// declares, else by the stem of the file's name.
pub open spec fn registered_project(
    dir: Seq<char>,
    file: Seq<char>,
    content: Option<Seq<char>>,
    live: Set<Seq<char>>,
) -> ProjectView {
    let name = resolved_name(declared_in(content), None, file_stem(file), "unknown"@);
    ProjectView {
        name,
        root: dir,
        config: Some(file),
        action: resolve(name, true, live),
        is_global: true,
    }
}

/// The project that a directory with a configuration stands for. It is named by what the
/// configuration declares, else by the directory, else by the stem of the file's name.
pub open spec fn configured_project(
    dir: Seq<char>,
    content: Option<Seq<char>>,
    live: Set<Seq<char>>,
) -> ProjectView {
    let config = joined(dir, local_config_name());
    let name = resolved_name(declared_in(content), file_name(dir), file_stem(config), "unknown"@);
    ProjectView {
        name,
        root: dir,
        config: Some(config),
        action: resolve(name, true, live),
        is_global: false,
    }
}

/// The project that a directory without a configuration stands for: one to be created,
/// named by the directory, unless a session of that name is live.
pub open spec fn bare_project(dir: Seq<char>, live: Set<Seq<char>>) -> Option<ProjectView> {
    let name = resolved_name(None, file_name(dir), None, "unnamed"@);
    if resolve(name, false, live) == ProjectAction::Create {
        Some(
            ProjectView {
                name,
                root: dir,
                config: Some(joined(dir, local_config_name())),
                action: ProjectAction::Create,
                is_global: false,
            },
        )
    } else {
        None
    }
}

/// The tasks that take the place of a task once it is answered.
pub open spec fn follow_ups(task: TaskView, response: ResponseView) -> Seq<TaskView> {
    match (task, response) {
        (TaskView::Registry { dir }, ResponseView::Listing(Some(entries))) => registered_tasks(
            dir,
            entries,
        ),
        (TaskView::Root { path, depth }, ResponseView::Exists(true)) => seq![
            TaskView::Walk { path, remaining: depth },
        ],
        (TaskView::Walk { path, remaining }, ResponseView::Listing(Some(entries))) => descent_tasks(
            entries,
            (remaining - 1) as nat,
        ),
        (TaskView::Walk { path, remaining }, ResponseView::Exists(true)) => seq![
            TaskView::Configured { dir: path },
        ],
        _ => Seq::empty(),
    }
}

/// The project that an answered task brings to light, if any.
pub open spec fn discovered(task: TaskView, response: ResponseView, live: Set<Seq<char>>) -> Option<
    ProjectView,
> {
    match (task, response) {
        (TaskView::Registered { dir, file }, ResponseView::Content(content)) => Some(
            registered_project(dir, file, content, live),
        ),
        (TaskView::Walk { path, remaining }, ResponseView::Exists(false)) => bare_project(
            path,
            live,
        ),
        (TaskView::Configured { dir }, ResponseView::Content(content)) => Some(
            configured_project(dir, content, live),
        ),
        _ => None,
    }
}

/// The state of a pass after an answer. An answer of the wrong kind, or one that comes
/// when nothing was asked, changes nothing.
pub open spec fn step(state: ScanView, response: ResponseView) -> ScanView {
    if answers(next_request(state), response) {
        ScanView {
            live: state.live,
            agenda: follow_ups(state.agenda[0], response) + state.agenda.drop_first(),
            found: match discovered(state.agenda[0], response, state.live) {
                Some(project) => state.found.push(project),
                None => state.found,
            },
        }
    } else {
        state
    }
}

/// The tasks for the directories of registered configurations.
pub open spec fn registry_tasks(dirs: Seq<Seq<char>>) -> Seq<TaskView> {
    dirs.map_values(|dir: Seq<char>| TaskView::Registry { dir })
}

/// The tasks for the configured trees: each root is expanded first.
pub open spec fn root_tasks(dirs: Seq<Directory>, env: Map<Seq<char>, Seq<char>>) -> Seq<TaskView> {
    dirs.map_values(
        |d: Directory| TaskView::Root { path: expanded(d.path@, env), depth: d.depth as nat },
    )
}

/// The state in which a pass starts: the registries come first, then the configured trees
/// in their order, and nothing is found yet.
pub open spec fn initial(
    config: Config,
    env: Map<Seq<char>, Seq<char>>,
    live: Set<Seq<char>>,
) -> ScanView {
    ScanView {
        live,
        agenda: registry_tasks(registries(text_of(config.tmuxinator_dir), env)) + root_tasks(
            config.directories@,
            env,
        ),
        found: Seq::empty(),
    }
}

/// The tasks of a list as plain data.
pub open spec fn task_views(tasks: Seq<Task>) -> Seq<TaskView> {
    tasks.map_values(|t: Task| t@)
}

/// The agenda that a stack of tasks stands for: what lies on top comes first.
pub open spec fn agenda_of(stack: Seq<Task>) -> Seq<TaskView> {
    Seq::new(stack.len(), |i: int| stack[stack.len() - 1 - i]@)
}

/// A discovery pass in progress.
pub struct Scan {
    sessions: SessionSet,
    stack: Vec<Task>,
    found: Vec<Project>,
}

impl View for Scan {
    type V = ScanView;

    closed spec fn view(&self) -> ScanView {
        ScanView {
            live: self.sessions@,
            agenda: agenda_of(self.stack@),
            found: views(self.found@),
        }
    }
}

/// Puts `tasks` on the stack so that the first of them comes to lie on top.
fn push_all(stack: &mut Vec<Task>, tasks: Vec<Task>)
    ensures
        agenda_of(final(stack)@) == task_views(tasks@) + agenda_of(old(stack)@),
{
    let ghost all = tasks@;
    let mut tasks = tasks;
    assert(task_views(all.skip(all.len() as int)) + agenda_of(stack@) =~= agenda_of(stack@));
    while tasks.len() > 0
        invariant
            tasks.len() <= all.len(),
            tasks@ == all.take(tasks.len() as int),
            agenda_of(stack@) == task_views(all.skip(tasks.len() as int)) + agenda_of(old(stack)@),
        decreases tasks.len(),
    {
        let ghost before = stack@;
        let ghost n = tasks.len() as int;
        let task = tasks.pop().unwrap();
        stack.push(task);
        assert(tasks@ =~= all.take(n - 1));
        assert(agenda_of(stack@) =~= seq![task@] + agenda_of(before));
        assert(task_views(all.skip(n - 1)) =~= seq![task@] + task_views(all.skip(n)));
        assert(seq![task@] + (task_views(all.skip(n)) + agenda_of(old(stack)@)) =~= task_views(
            all.skip(n - 1),
        ) + agenda_of(old(stack)@));
    }
    assert(all.skip(0) == all);
}

/// The tasks for the registered configurations among `entries`.
fn registered_among(dir: &String, entries: &Vec<Entry>) -> (tasks: Vec<Task>)
    ensures
        task_views(tasks@) == registered_tasks(dir@, entry_views(entries@)),
{
    let mut tasks: Vec<Task> = Vec::new();
    let mut i: usize = 0;
    while i < entries.len()
        invariant
            i <= entries.len(),
            task_views(tasks@) == registered_tasks(dir@, entry_views(entries@.take(i as int))),
        decreases entries.len() - i,
    {
        let ghost before = task_views(tasks@);
        let ghost next = entry_views(entries@.take(i + 1));
        assert(next.drop_last() =~= entry_views(entries@.take(i as int)));
        assert(next.last() == entries@[i as int]@);
        let wanted = match extension_of(entries[i].path.as_str()) {
            Some(ext) => same_text(ext.as_str(), "yml"),
            None => false,
        };
        if wanted {
            tasks.push(Task::Registered { dir: dir.clone(), file: entries[i].path.clone() });
            assert(task_views(tasks@) =~= before.push(
                TaskView::Registered { dir: dir@, file: entries@[i as int].path@ },
            ));
        }
        i += 1;
    }
    assert(entries@.take(entries.len() as int) == entries@);
    tasks
}

/// The tasks for the directories among `entries`, `remaining` levels above the projects.
fn directories_among(entries: &Vec<Entry>, remaining: usize) -> (tasks: Vec<Task>)
    ensures
        task_views(tasks@) == descent_tasks(entry_views(entries@), remaining as nat),
{
    let mut tasks: Vec<Task> = Vec::new();
    let mut i: usize = 0;
    while i < entries.len()
        invariant
            i <= entries.len(),
            task_views(tasks@) == descent_tasks(
                entry_views(entries@.take(i as int)),
                remaining as nat,
            ),
        decreases entries.len() - i,
    {
        let ghost before = task_views(tasks@);
        let ghost next = entry_views(entries@.take(i + 1));
        assert(next.drop_last() =~= entry_views(entries@.take(i as int)));
        assert(next.last() == entries@[i as int]@);
        if entries[i].is_dir {
            tasks.push(Task::Walk { path: entries[i].path.clone(), remaining });
            assert(task_views(tasks@) =~= before.push(
                TaskView::Walk { path: entries@[i as int].path@, remaining: remaining as nat },
            ));
        }
        i += 1;
    }
    assert(entries@.take(entries.len() as int) == entries@);
    tasks
}

/// The name that a file's text declares, where the file could be read.
fn declared(content: &Option<String>) -> (name: Option<String>)
    ensures
        text_of(name) == declared_in(text_of(*content)),
{
    match content {
        Some(text) => parse_project_name(text.as_str()),
        None => None,
    }
}

impl Scan {
    /// Starts a pass: the sessions are taken from `listing` once and for the whole pass,
    /// and the agenda holds the registries and the configured trees.
    pub fn new(config: &Config, env: &Environment, listing: &Listing) -> (scan: Scan)
        ensures
            scan@ == initial(*config, env@, inventory(*listing)),
    {
        let mut tasks: Vec<Task> = Vec::new();
        let dirs = tmuxinator_dirs(config, env);
        let mut i: usize = 0;
        while i < dirs.len()
            invariant
                i <= dirs.len(),
                task_views(tasks@) == registry_tasks(texts(dirs@.take(i as int))),
            decreases dirs.len() - i,
        {
            let ghost before = task_views(tasks@);
            tasks.push(Task::Registry { dir: dirs[i].clone() });
            assert(task_views(tasks@) =~= before.push(TaskView::Registry { dir: dirs@[i as int]@ }));
            assert(registry_tasks(texts(dirs@.take(i + 1))) =~= before.push(
                TaskView::Registry { dir: dirs@[i as int]@ },
            ));
            i += 1;
        }
        assert(dirs@.take(dirs.len() as int) == dirs@);
        let ghost registry_part = task_views(tasks@);
        let mut j: usize = 0;
        while j < config.directories.len()
            invariant
                j <= config.directories.len(),
                task_views(tasks@) == registry_part + root_tasks(
                    config.directories@.take(j as int),
                    env@,
                ),
            decreases config.directories.len() - j,
        {
            let ghost before = task_views(tasks@);
            let directory = &config.directories[j];
            let root = Task::Root {
                path: expand_path(directory.path.as_str(), env),
                depth: directory.depth,
            };
            let ghost added = root@;
            tasks.push(root);
            assert(task_views(tasks@) =~= before.push(added));
            assert(root_tasks(config.directories@.take(j + 1), env@) =~= root_tasks(
                config.directories@.take(j as int),
                env@,
            ).push(added));
            assert(registry_part + root_tasks(config.directories@.take(j + 1), env@) =~= before.push(
                added,
            ));
            j += 1;
        }
        assert(config.directories@.take(config.directories.len() as int) == config.directories@);
        let mut stack: Vec<Task> = Vec::new();
        push_all(&mut stack, tasks);
        let scan = Scan { sessions: session_inventory(listing), stack, found: Vec::new() };
        assert(scan@.agenda =~= initial(*config, env@, inventory(*listing)).agenda);
        assert(scan@.found =~= Seq::<ProjectView>::empty());
        scan
    }

    /// The question to put to the file system next.
    pub fn request(&self) -> (request: Request)
        ensures
            request@ == next_request(self@),
    {
        if self.stack.len() == 0 {
            return Request::Finished;
        }
        match &self.stack[self.stack.len() - 1] {
            Task::Registry { dir } => Request::List { path: dir.clone() },
            Task::Registered { dir, file } => Request::Read { path: file.clone() },
            Task::Root { path, depth } => Request::Exists { path: path.clone() },
            Task::Walk { path, remaining } => {
                if *remaining == 0 {
                    Request::Exists { path: join(path.as_str(), ".tmuxinator.yml") }
                } else {
                    Request::List { path: path.clone() }
                }
            },
            Task::Configured { dir } => Request::Read { path: join(dir.as_str(), ".tmuxinator.yml") },
        }
    }

    /// Whether nothing is left to ask.
    pub fn is_finished(&self) -> (done: bool)
        ensures
            done == (self@.agenda.len() == 0),
    {
        self.stack.len() == 0
    }

    /// Takes the answer to the question that `request` gave last, and says whether it was
    /// of the kind asked for. One that was not changes nothing.
    pub fn respond(&mut self, response: Response) -> (accepted: bool)
        ensures
            accepted == answers(next_request(old(self)@), response@),
            final(self)@ == step(old(self)@, response@),
    {
        let ghost before = self.stack@;
        let ghost found_before = views(self.found@);
        let task = match self.stack.pop() {
            Some(task) => task,
            None => {
                return false;
            },
        };
        assert(agenda_of(before) =~= seq![task@] + agenda_of(self.stack@));
        assert(agenda_of(before).drop_first() =~= agenda_of(self.stack@));
        assert(Seq::<TaskView>::empty() + agenda_of(self.stack@) =~= agenda_of(self.stack@));
        match task {
            Task::Registry { dir } => match response {
                Response::Listing(listing) => {
                    let next = match listing {
                        Some(entries) => registered_among(&dir, &entries),
                        None => Vec::new(),
                    };
                    assert(task_views(next@) =~= follow_ups(task@, response@));
                    push_all(&mut self.stack, next);
                    true
                },
                _ => {
                    self.stack.push(Task::Registry { dir });
                    assert(self.stack@ =~= before);
                    false
                },
            },
            Task::Registered { dir, file } => match response {
                Response::Content(content) => {
                    let name = project_name(
                        declared(&content),
                        None,
                        file_stem_of(file.as_str()),
                        "unknown",
                    );
                    let action = determine_action(name.as_str(), true, &self.sessions);
                    self.found.push(
                        Project { name, root: dir, config: Some(file), action, is_global: true },
                    );
                    assert(views(self.found@) =~= found_before.push(
                        registered_project(dir@, file@, text_of(content), self.sessions@),
                    ));
                    true
                },
                _ => {
                    self.stack.push(Task::Registered { dir, file });
                    assert(self.stack@ =~= before);
                    false
                },
            },
            Task::Root { path, depth } => match response {
                Response::Exists(found) => {
                    if found {
                        self.stack.push(Task::Walk { path, remaining: depth });
                        assert(agenda_of(self.stack@) =~= follow_ups(task@, response@) + agenda_of(
                            before,
                        ).drop_first());
                    }
                    true
                },
                _ => {
                    self.stack.push(Task::Root { path, depth });
                    assert(self.stack@ =~= before);
                    false
                },
            },
            Task::Walk { path, remaining } => match response {
                Response::Listing(listing) => {
                    if remaining == 0 {
                        self.stack.push(Task::Walk { path, remaining });
                        assert(self.stack@ =~= before);
                        false
                    } else {
                        let next = match listing {
                            Some(entries) => directories_among(&entries, remaining - 1),
                            None => Vec::new(),
                        };
                        assert(task_views(next@) =~= follow_ups(task@, response@));
                        push_all(&mut self.stack, next);
                        true
                    }
                },
                Response::Exists(found) => {
                    if remaining != 0 {
                        self.stack.push(Task::Walk { path, remaining });
                        assert(self.stack@ =~= before);
                        false
                    } else if found {
                        self.stack.push(Task::Configured { dir: path });
                        assert(agenda_of(self.stack@) =~= follow_ups(task@, response@) + agenda_of(
                            before,
                        ).drop_first());
                        true
                    } else {
                        let name = project_name(None, file_name_of(path.as_str()), None, "unnamed");
                        let action = determine_action(name.as_str(), false, &self.sessions);
                        if action == ProjectAction::Create {
                            let config = join(path.as_str(), ".tmuxinator.yml");
                            self.found.push(
                                Project {
                                    name,
                                    root: path,
                                    config: Some(config),
                                    action,
                                    is_global: false,
                                },
                            );
                            assert(views(self.found@) =~= found_before.push(
                                bare_project(path@, self.sessions@)->0,
                            ));
                        }
                        true
                    }
                },
                _ => {
                    self.stack.push(Task::Walk { path, remaining });
                    assert(self.stack@ =~= before);
                    false
                },
            },
            Task::Configured { dir } => match response {
                Response::Content(content) => {
                    let config = join(dir.as_str(), ".tmuxinator.yml");
                    let name = project_name(
                        declared(&content),
                        file_name_of(dir.as_str()),
                        file_stem_of(config.as_str()),
                        "unknown",
                    );
                    let action = determine_action(name.as_str(), true, &self.sessions);
                    self.found.push(
                        Project { name, root: dir, config: Some(config), action, is_global: false },
                    );
                    assert(views(self.found@) =~= found_before.push(
                        configured_project(dir@, text_of(content), self.sessions@),
                    ));
                    true
                },
                _ => {
                    self.stack.push(Task::Configured { dir });
                    assert(self.stack@ =~= before);
                    false
                },
            },
        }
    }

    /// Ends the pass and returns its list: the projects found, one entry for each name,
    /// root and locality, in order of name.
    pub fn finish(self) -> (list: Vec<Project>)
        ensures
            views(list@) == arranged(self@.found),
            sorted_by(By::Name, views(list@)),
            keys_distinct(views(list@)),
    {
        arrange(self.found)
    }
}

/// The state of a pass after at most `steps` questions, each answered by `oracle`: the
/// file system as it is, which gives the same answer whenever it is asked the same.
pub open spec fn run(
    state: ScanView,
    oracle: spec_fn(RequestView) -> ResponseView,
    steps: nat,
) -> ScanView
    decreases steps,
{
    if steps == 0 || state.agenda.len() == 0 {
        state
    } else {
        run(step(state, oracle(next_request(state))), oracle, (steps - 1) as nat)
    }
}

/// The list that a pass returns in the state it has reached.
pub open spec fn listing_of(state: ScanView) -> Seq<ProjectView> {
    arranged(state.found)
}

/// The live sessions are taken once: they are the same at every point of a pass.
pub proof fn lemma_run_keeps_sessions(
    state: ScanView,
    oracle: spec_fn(RequestView) -> ResponseView,
    steps: nat,
)
    ensures
        run(state, oracle, steps).live == state.live,
    decreases steps,
{
    if steps > 0 && state.agenda.len() > 0 {
        lemma_run_keeps_sessions(
            step(state, oracle(next_request(state))),
            oracle,
            (steps - 1) as nat,
        );
    }
}

/// A pass that is complete stays as it is, however many more questions it is allowed.
pub proof fn lemma_complete_pass_rests(
    state: ScanView,
    oracle: spec_fn(RequestView) -> ResponseView,
    n: nat,
    m: nat,
)
    requires
        n <= m,
        run(state, oracle, n).agenda.len() == 0,
    ensures
        run(state, oracle, m) == run(state, oracle, n),
    decreases n,
{
    if n > 0 && state.agenda.len() > 0 {
        lemma_complete_pass_rests(
            step(state, oracle(next_request(state))),
            oracle,
            (n - 1) as nat,
            (m - 1) as nat,
        );
    }
}

/// Two passes over an unchanged file system, with the same configuration, environment and
/// live sessions, return the same list: the same projects in the same order.
pub proof fn lemma_passes_agree(
    config: Config,
    env: Map<Seq<char>, Seq<char>>,
    live: Set<Seq<char>>,
    oracle: spec_fn(RequestView) -> ResponseView,
    n: nat,
    m: nat,
)
    requires
        run(initial(config, env, live), oracle, n).agenda.len() == 0,
        run(initial(config, env, live), oracle, m).agenda.len() == 0,
    ensures
        listing_of(run(initial(config, env, live), oracle, n)) == listing_of(
            run(initial(config, env, live), oracle, m),
        ),
{
    if n <= m {
        lemma_complete_pass_rests(initial(config, env, live), oracle, n, m);
    } else {
        lemma_complete_pass_rests(initial(config, env, live), oracle, m, n);
    }
}

} // verus!
