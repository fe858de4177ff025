//! Launching a selected project: the commands to run, and the order in which they are
//! tried.
//!
//! A launch is a sequence of steps that its caller carries out one by one, reporting of
//! each whether it succeeded. A project that has to be created gets its configuration
//! written first. Then the running multiplexer, if there is one, is asked to switch to the
//! project's session. Where that does not succeed, terminals are tried in order of
//! priority, each to run the command that attaches to the session or starts the project.

use vstd::prelude::*;
use vstd::string::StringExecFns;
use crate::action::ProjectAction;
use crate::config::texts;
use crate::name::text_of;
use crate::path::{join, joined};
use crate::scan::local_config_name;
use crate::text::{hyphenate, hyphenated, to_chars, to_string};

verus! {

/// The project that the operator selected, and what is to happen with it.
#[derive(Clone, Debug, PartialEq, Eq)]
pub struct Selection {
    /// The project's name, which is also the name of its session.
    pub name: String,
    /// For a local project its root directory; for a global one its configuration file.
    pub path: String,
    pub action: ProjectAction,
    pub is_global: bool,
}

/// A selection as plain data.
pub struct SelectionView {
    pub name: Seq<char>,
    pub path: Seq<char>,
    pub action: ProjectAction,
    pub is_global: bool,
}

impl View for Selection {
    type V = SelectionView;

    open spec fn view(&self) -> SelectionView {
        SelectionView {
            name: self.name@,
            path: self.path@,
            action: self.action,
            is_global: self.is_global,
        }
    }
}

/// A program and its arguments.
#[derive(Clone, Debug, PartialEq, Eq)]
pub struct Command {
    pub program: String,
    pub args: Vec<String>,
}

/// A program and its arguments as plain data.
pub struct CommandView {
    pub program: Seq<char>,
    pub args: Seq<Seq<char>>,
}

impl View for Command {
    type V = CommandView;

    open spec fn view(&self) -> CommandView {
        CommandView { program: self.program@, args: texts(self.args@) }
    }
}

/// The command that lists the names of the live sessions, one to a line.
pub open spec fn list_sessions_command() -> CommandView {
    CommandView { program: "tmux"@, args: seq!["list-sessions"@, "-F"@, "#{session_name}"@] }
}

/// The command that succeeds where the multiplexer is running.
pub open spec fn probe_command() -> CommandView {
    CommandView { program: "tmux"@, args: seq!["info"@] }
}

/// The command that switches the active client to `session`.
pub open spec fn switch_command(session: Seq<char>) -> CommandView {
    CommandView { program: "tmux"@, args: seq!["switch-client"@, "-t"@, session] }
}

/// The command that has `terminal` run the shell command line `line`.
pub open spec fn terminal_command(terminal: Seq<char>, line: Seq<char>) -> CommandView {
    CommandView { program: terminal, args: seq!["-e"@, "sh"@, "-lc"@, line] }
}

/// The configuration file of a local project.
pub open spec fn config_path(selection: SelectionView) -> Seq<char> {
    joined(selection.path, local_config_name())
}

/// The shell command line that brings the selected project up: attaching goes by the
/// session's name, a local project is started by the path of its configuration, since
/// several local projects may share a name, and a global one by its name.
pub open spec fn shell_line(selection: SelectionView) -> Seq<char> {
    if selection.action == ProjectAction::Attach {
        "tmux attach-session -t "@ + selection.name
    } else if selection.is_global {
        "tmuxinator start "@ + selection.name
    } else {
        "tmuxinator start -p "@ + config_path(selection)
    }
}

/// Whether a configuration has to be written before the selected project is launched.
pub open spec fn needs_config(selection: SelectionView) -> bool {
    selection.action == ProjectAction::Create && !selection.is_global
}

/// The text of the configuration written for a new project: its name, with dots turned
/// into hyphens, its root, and a default layout of windows.
pub open spec fn basic_config(name: Seq<char>, root: Seq<char>) -> Seq<char> {
    "name: "@ + hyphenated(name) + "\nroot: "@ + root
        + "\n#pre_window: nix develop\nstartup_window: editor\nwindows:\n  - editor:\n      - nvim .\n  - term:\n  - git-lg: lazygit\n"@
}

/// The terminals that are tried where none is configured, in order of priority.
pub open spec fn fallback_terminals() -> Seq<Seq<char>> {
    seq![
        "x-terminal-emulator"@,
        "alacritty"@,
        "kitty"@,
        "wezterm"@,
        "gnome-terminal"@,
        "foot"@,
        "xterm"@,
    ]
}

/// The terminals to try, in order: the configured one first, then the others.
pub open spec fn terminal_candidates(preferred: Option<Seq<char>>) -> Seq<Seq<char>> {
    match preferred {
        Some(terminal) => seq![terminal] + fallback_terminals(),
        None => fallback_terminals(),
    }
}

/// What is reported where no terminal could be started to run `line`.
pub open spec fn no_terminal_cause(line: Seq<char>) -> Seq<char> {
    "no terminal available to run: "@ + line
}

/// The one report of a failed launch: the project, and the cause.
pub open spec fn failure_report(selection: SelectionView, cause: Seq<char>) -> Seq<char> {
    if selection.is_global {
        "[tmuxinator-launcher] failed to run global project "@ + selection.name + " ("@
            + selection.path + "): "@ + cause
    } else {
        "[tmuxinator-launcher] failed to run local project "@ + selection.name + ": "@ + cause
    }
}

/// How a launch ended.
#[derive(Clone, Copy, Debug, PartialEq, Eq, Structural)]
pub enum Outcome {
    /// The multiplexer switched its client to the project's session.
    Switched,
    /// A terminal was started to run the command line.
    Spawned,
    /// The configuration of the new project could not be written; nothing was launched.
    ConfigNotWritten,
    /// No terminal could be started.
    NoTerminal,
}

/// Where a launch stands.
#[derive(Clone, Copy, Debug, PartialEq, Eq, Structural)]
pub enum Phase {
    /// The configuration of the new project is to be written.
    Writing,
    /// The multiplexer is to be probed.
    Probing,
    /// The multiplexer is to switch its client.
    Switching,
    /// The terminal at index `next` is to be started.
    Spawning { next: usize },
    /// Nothing is left to do.
    Done(Outcome),
}

/// A step of a launch, for the caller to carry out.
#[derive(Clone, Debug, PartialEq, Eq)]
pub enum Step {
    /// Write `content` to the file at `path`, creating its parent directories as needed.
    Write { path: String, content: String },
    /// Run the command and wait for it: it succeeds where it exits with success.
    Run { command: Command },
    /// Start the command without waiting: it succeeds where it could be started.
    Spawn { command: Command },
    /// The launch is over.
    Finished { outcome: Outcome },
}

/// A step of a launch as plain data.
pub enum StepView {
    Write { path: Seq<char>, content: Seq<char> },
    Run { command: CommandView },
    Spawn { command: CommandView },
    Finished { outcome: Outcome },
}

impl View for Step {
    type V = StepView;

    open spec fn view(&self) -> StepView {
        match self {
            Step::Write { path, content } => StepView::Write { path: path@, content: content@ },
            Step::Run { command } => StepView::Run { command: command@ },
            Step::Spawn { command } => StepView::Spawn { command: command@ },
            Step::Finished { outcome } => StepView::Finished { outcome: *outcome },
        }
    }
}

/// A launch as plain data: what was selected, the terminals to try, and the phase.
pub struct LaunchView {
    pub selection: SelectionView,
    pub terminals: Seq<Seq<char>>,
    pub phase: Phase,
}

/// The phase in which a launch starts.
pub open spec fn first_phase(selection: SelectionView) -> Phase {
    if needs_config(selection) {
        Phase::Writing
    } else {
        Phase::Probing
    }
}

/// The launch of a selection, at its start.
pub open spec fn launch_of(selection: SelectionView, preferred: Option<Seq<char>>) -> LaunchView {
    LaunchView {
        selection,
        terminals: terminal_candidates(preferred),
        phase: first_phase(selection),
    }
}

/// The step that a launch asks for.
pub open spec fn step_of(launch: LaunchView) -> StepView {
    match launch.phase {
        Phase::Writing => StepView::Write {
            path: config_path(launch.selection),
            content: basic_config(launch.selection.name, launch.selection.path),
        },
        Phase::Probing => StepView::Run { command: probe_command() },
        Phase::Switching => StepView::Run { command: switch_command(launch.selection.name) },
        Phase::Spawning { next } => StepView::Spawn {
            command: terminal_command(launch.terminals[next as int], shell_line(launch.selection)),
        },
        Phase::Done(outcome) => StepView::Finished { outcome },
    }
}

/// The phase that follows once the step of a phase has succeeded or failed, with `count`
/// terminals to try.
pub open spec fn next_phase(phase: Phase, succeeded: bool, count: nat) -> Phase {
    match phase {
        Phase::Writing => if succeeded {
            Phase::Probing
        } else {
            Phase::Done(Outcome::ConfigNotWritten)
        },
        Phase::Probing => if succeeded {
            Phase::Switching
        } else {
            Phase::Spawning { next: 0 }
        },
        Phase::Switching => if succeeded {
            Phase::Done(Outcome::Switched)
        } else {
            Phase::Spawning { next: 0 }
        },
        Phase::Spawning { next } => if succeeded {
            Phase::Done(Outcome::Spawned)
        } else if next + 1 < count {
            Phase::Spawning { next: (next + 1) as usize }
        } else {
            Phase::Done(Outcome::NoTerminal)
        },
        Phase::Done(outcome) => Phase::Done(outcome),
    }
}

/// A launch after the report on its step.
pub open spec fn advanced(launch: LaunchView, succeeded: bool) -> LaunchView {
    LaunchView {
        selection: launch.selection,
        terminals: launch.terminals,
        phase: next_phase(launch.phase, succeeded, launch.terminals.len()),
    }
}

/// Whether a launch is in order: there is a terminal to try, and the one to try next is
/// one of them.
pub open spec fn well_formed(launch: LaunchView) -> bool {
    &&& launch.terminals.len() > 0
    &&& launch.phase matches Phase::Spawning { next } ==> next < launch.terminals.len()
}

/// A launch after a series of reports.
pub open spec fn after_reports(launch: LaunchView, reports: Seq<bool>) -> LaunchView
    decreases reports.len(),
{
    if reports.len() == 0 {
        launch
    } else {
        after_reports(advanced(launch, reports[0]), reports.drop_first())
    }
}

/// A list of one more string.
fn with_arg(args: Vec<String>, arg: String) -> (out: Vec<String>)
    ensures
        texts(out@) == texts(args@).push(arg@),
{
    let mut out = args;
    out.push(arg);
    assert(texts(out@) =~= texts(args@).push(arg@));
    out
}

/// No string at all.
fn no_args() -> (out: Vec<String>)
    ensures
        texts(out@) == Seq::<Seq<char>>::empty(),
{
    let out: Vec<String> = Vec::new();
    assert(texts(out@) =~= Seq::<Seq<char>>::empty());
    out
}

/// The command that lists the names of the live sessions, one to a line.
pub fn list_sessions() -> (command: Command)
    ensures
        command@ == list_sessions_command(),
{
    let args = with_arg(
        with_arg(with_arg(no_args(), String::from_str("list-sessions")), String::from_str("-F")),
        String::from_str("#{session_name}"),
    );
    assert(texts(args@) =~= list_sessions_command().args);
    Command { program: String::from_str("tmux"), args }
}

/// The command that succeeds where the multiplexer is running.
pub fn probe() -> (command: Command)
    ensures
        command@ == probe_command(),
{
    let args = with_arg(no_args(), String::from_str("info"));
    assert(texts(args@) =~= probe_command().args);
    Command { program: String::from_str("tmux"), args }
}

/// The command that switches the active client to `session`.
pub fn switch_client(session: &str) -> (command: Command)
    ensures
        command@ == switch_command(session@),
{
    let args = with_arg(
        with_arg(with_arg(no_args(), String::from_str("switch-client")), String::from_str("-t")),
        String::from_str(session),
    );
    assert(texts(args@) =~= switch_command(session@).args);
    Command { program: String::from_str("tmux"), args }
}

/// The command that has `terminal` run the shell command line `line`.
pub fn run_in_terminal(terminal: &str, line: &str) -> (command: Command)
    ensures
        command@ == terminal_command(terminal@, line@),
{
    let args = with_arg(
        with_arg(
            with_arg(with_arg(no_args(), String::from_str("-e")), String::from_str("sh")),
            String::from_str("-lc"),
        ),
        String::from_str(line),
    );
    assert(texts(args@) =~= terminal_command(terminal@, line@).args);
    Command { program: String::from_str(terminal), args }
}

/// The shell command line that brings the selected project up.
pub fn launch_line(selection: &Selection) -> (line: String)
    ensures
        line@ == shell_line(selection@),
{
    if selection.action == ProjectAction::Attach {
        String::from_str("tmux attach-session -t ").concat(selection.name.as_str())
    } else if selection.is_global {
        String::from_str("tmuxinator start ").concat(selection.name.as_str())
    } else {
        String::from_str("tmuxinator start -p ").concat(
            join(selection.path.as_str(), ".tmuxinator.yml").as_str(),
        )
    }
}

/// The text of the configuration written for a new project called `name` at `root`.
pub fn create_basic_config(name: &str, root: &str) -> (content: String)
    ensures
        content@ == basic_config(name@, root@),
{
    let written = to_string(&hyphenate(&to_chars(name)));
    String::from_str("name: ").concat(written.as_str()).concat("\nroot: ").concat(root).concat(
        "\n#pre_window: nix develop\nstartup_window: editor\nwindows:\n  - editor:\n      - nvim .\n  - term:\n  - git-lg: lazygit\n",
    )
}

/// The terminals to try, in order: the configured one first, then the others.
pub fn terminals(preferred: &Option<String>) -> (list: Vec<String>)
    ensures
        texts(list@) == terminal_candidates(text_of(*preferred)),
{
    let first = match preferred {
        Some(terminal) => with_arg(no_args(), terminal.clone()),
        None => no_args(),
    };
    let list = with_arg(
        with_arg(
            with_arg(
                with_arg(
                    with_arg(
                        with_arg(
                            with_arg(first, String::from_str("x-terminal-emulator")),
                            String::from_str("alacritty"),
                        ),
                        String::from_str("kitty"),
                    ),
                    String::from_str("wezterm"),
                ),
                String::from_str("gnome-terminal"),
            ),
            String::from_str("foot"),
        ),
        String::from_str("xterm"),
    );
    assert(texts(list@) =~= terminal_candidates(text_of(*preferred)));
    list
}

/// What to report where no terminal could be started for the selected project.
pub fn no_terminal_message(selection: &Selection) -> (cause: String)
    ensures
        cause@ == no_terminal_cause(shell_line(selection@)),
{
    String::from_str("no terminal available to run: ").concat(launch_line(selection).as_str())
}

/// The one report of a failed launch of the selected project.
pub fn failure_message(selection: &Selection, cause: &str) -> (report: String)
    ensures
        report@ == failure_report(selection@, cause@),
{
    if selection.is_global {
        String::from_str("[tmuxinator-launcher] failed to run global project ").concat(
            selection.name.as_str(),
        ).concat(" (").concat(selection.path.as_str()).concat("): ").concat(cause)
    } else {
        String::from_str("[tmuxinator-launcher] failed to run local project ").concat(
            selection.name.as_str(),
        ).concat(": ").concat(cause)
    }
}

/// The launch of a selected project, in progress.
pub struct Launch {
    selection: Selection,
    terminals: Vec<String>,
    phase: Phase,
}

impl View for Launch {
    type V = LaunchView;

    closed spec fn view(&self) -> LaunchView {
        LaunchView {
            selection: self.selection@,
            terminals: texts(self.terminals@),
            phase: self.phase,
        }
    }
}

impl Launch {
    /// There is a terminal to try, and the one to try next is one of them.
    #[verifier::type_invariant]
    spec fn inv(self) -> bool {
        well_formed(self@)
    }

    /// Prepares the launch of `selection`, with `preferred` as the terminal to try first.
    pub fn new(selection: Selection, preferred: &Option<String>) -> (launch: Launch)
        ensures
            launch@ == launch_of(selection@, text_of(*preferred)),
    {
        let phase = if selection.action == ProjectAction::Create && !selection.is_global {
            Phase::Writing
        } else {
            Phase::Probing
        };
        Launch { selection, terminals: terminals(preferred), phase }
    }

    /// The step to carry out next.
    pub fn step(&self) -> (step: Step)
        ensures
            step@ == step_of(self@),
    {
        proof {
            use_type_invariant(self);
            assert(texts(self.terminals@).len() == self.terminals.len());
        }
        match self.phase {
            Phase::Writing => Step::Write {
                path: join(self.selection.path.as_str(), ".tmuxinator.yml"),
                content: create_basic_config(
                    self.selection.name.as_str(),
                    self.selection.path.as_str(),
                ),
            },
            Phase::Probing => Step::Run { command: probe() },
            Phase::Switching => Step::Run { command: switch_client(self.selection.name.as_str()) },
            Phase::Spawning { next } => Step::Spawn {
                command: run_in_terminal(
                    self.terminals[next].as_str(),
                    launch_line(&self.selection).as_str(),
                ),
            },
            Phase::Done(outcome) => Step::Finished { outcome },
        }
    }

    /// Takes the report on the step that `step` gave last: whether it succeeded.
    pub fn report(&mut self, succeeded: bool)
        ensures
            final(self)@ == advanced(old(self)@, succeeded),
    {
        proof {
            use_type_invariant(&*self);
            assert(texts(self.terminals@).len() == self.terminals.len());
        }
        self.phase = match self.phase {
            Phase::Writing => if succeeded {
                Phase::Probing
            } else {
                Phase::Done(Outcome::ConfigNotWritten)
            },
            Phase::Probing => if succeeded {
                Phase::Switching
            } else {
                Phase::Spawning { next: 0 }
            },
            Phase::Switching => if succeeded {
                Phase::Done(Outcome::Switched)
            } else {
                Phase::Spawning { next: 0 }
            },
            Phase::Spawning { next } => if succeeded {
                Phase::Done(Outcome::Spawned)
            } else if next + 1 < self.terminals.len() {
                Phase::Spawning { next: next + 1 }
            } else {
                Phase::Done(Outcome::NoTerminal)
            },
            Phase::Done(outcome) => Phase::Done(outcome),
        };
    }

    /// How the launch ended, once it is over.
    pub fn outcome(&self) -> (outcome: Option<Outcome>)
        ensures
            outcome == (match self@.phase {
                Phase::Done(o) => Some(o),
                _ => None,
            }),
    {
        match self.phase {
            Phase::Done(outcome) => Some(outcome),
            _ => None,
        }
    }
}

/// A launch that is in order at its start stays in order.
pub proof fn lemma_launch_stays_well_formed(launch: LaunchView, succeeded: bool)
    requires
        well_formed(launch),
    ensures
        well_formed(advanced(launch, succeeded)),
{
}

/// Every launch starts in order: there are always terminals to fall back on.
pub proof fn lemma_launch_starts_well_formed(selection: SelectionView, preferred: Option<Seq<char>>)
    ensures
        well_formed(launch_of(selection, preferred)),
{
}

/// A launch that is over stays over, with the outcome it had.
pub proof fn lemma_finished_launch_rests(launch: LaunchView, reports: Seq<bool>)
    requires
        launch.phase is Done,
    ensures
        after_reports(launch, reports) == launch,
    decreases reports.len(),
{
    if reports.len() > 0 {
        lemma_finished_launch_rests(advanced(launch, reports[0]), reports.drop_first());
    }
}

/// Launching a project that has to be created starts with writing its configuration to
/// the file `.tmuxinator.yml` in its root. Where that fails, the launch is over at once,
/// as a failure, and no later report brings it to run anything. Where it succeeds and the
/// multiplexer is not running, the next step starts the first terminal with the command
/// line that starts the project by the path of that file.
pub proof fn lemma_created_project_is_written_first(
    selection: SelectionView,
    preferred: Option<Seq<char>>,
    later: Seq<bool>,
)
    requires
        selection.action == ProjectAction::Create,
        !selection.is_global,
    ensures
        step_of(launch_of(selection, preferred)) == (StepView::Write {
            path: joined(selection.path, local_config_name()),
            content: basic_config(selection.name, selection.path),
        }),
        step_of(after_reports(launch_of(selection, preferred), seq![false] + later)) == (
        StepView::Finished { outcome: Outcome::ConfigNotWritten }),
        step_of(after_reports(launch_of(selection, preferred), seq![true, false])) == (
        StepView::Spawn {
            command: terminal_command(
                terminal_candidates(preferred)[0],
                "tmuxinator start -p "@ + joined(selection.path, local_config_name()),
            ),
        }),
{
    let start = launch_of(selection, preferred);
    assert((seq![false] + later).drop_first() =~= later);
    lemma_finished_launch_rests(advanced(start, false), later);
    let written = advanced(start, true);
    assert(seq![true, false].drop_first() =~= seq![false]);
    assert(after_reports(written, seq![false]) == advanced(written, false)) by {
        assert(seq![false].drop_first() =~= Seq::<bool>::empty());
        assert(after_reports(advanced(written, false), Seq::<bool>::empty()) == advanced(
            written,
            false,
        ));
    }
}

/// Once the switch has not succeeded, the terminals are tried in their order: after `k`
/// of them failed to start, the next step starts the one at index `k`.
pub proof fn lemma_terminals_tried_in_order(launch: LaunchView, k: nat)
    requires
        launch.phase == (Phase::Spawning { next: 0 }),
        k < launch.terminals.len() <= usize::MAX,
    ensures
        after_reports(launch, Seq::new(k, |i: int| false)).phase == (Phase::Spawning {
            next: k as usize,
        }),
        step_of(after_reports(launch, Seq::new(k, |i: int| false))) == (StepView::Spawn {
            command: terminal_command(launch.terminals[k as int], shell_line(launch.selection)),
        }),
{
    lemma_failures_advance(launch, 0, k);
}

/// From the terminal at index `from`, `k` failures lead to the terminal at `from + k`.
proof fn lemma_failures_advance(launch: LaunchView, from: nat, k: nat)
    requires
        launch.phase == (Phase::Spawning { next: from as usize }),
        from + k < launch.terminals.len() <= usize::MAX,
    ensures
        after_reports(launch, Seq::new(k, |i: int| false)) == (LaunchView {
            selection: launch.selection,
            terminals: launch.terminals,
            phase: Phase::Spawning { next: (from + k) as usize },
        }),
    decreases k,
{
    let reports = Seq::new(k, |i: int| false);
    if k > 0 {
        assert(reports.drop_first() =~= Seq::new((k - 1) as nat, |i: int| false));
        lemma_failures_advance(advanced(launch, false), from + 1, (k - 1) as nat);
    }
}

/// The first terminal that starts ends the launch: none is tried after it.
pub proof fn lemma_first_terminal_wins(launch: LaunchView, k: nat, later: Seq<bool>)
    requires
        launch.phase == (Phase::Spawning { next: 0 }),
        k < launch.terminals.len() <= usize::MAX,
    ensures
        after_reports(launch, Seq::new(k, |i: int| false) + seq![true] + later).phase == Phase::Done(
            Outcome::Spawned,
        ),
{
    let failures = Seq::new(k, |i: int| false);
    lemma_failures_advance(launch, 0, k);
    lemma_after_reports_split(launch, failures, seq![true] + later);
    let reached = after_reports(launch, failures);
    assert((seq![true] + later).drop_first() =~= later);
    lemma_finished_launch_rests(advanced(reached, true), later);
    assert(failures + seq![true] + later =~= failures + (seq![true] + later));
}

/// Where no terminal starts, the launch ends as a failure after the last one.
pub proof fn lemma_no_terminal_is_failure(launch: LaunchView)
    requires
        launch.phase == (Phase::Spawning { next: 0 }),
        0 < launch.terminals.len() <= usize::MAX,
    ensures
        after_reports(launch, Seq::new(launch.terminals.len(), |i: int| false)).phase
            == Phase::Done(Outcome::NoTerminal),
{
    let n = launch.terminals.len();
    let failures = Seq::new((n - 1) as nat, |i: int| false);
    lemma_failures_advance(launch, 0, (n - 1) as nat);
    lemma_after_reports_split(launch, failures, seq![false]);
    assert(failures + seq![false] =~= Seq::new(n, |i: int| false));
    let reached = after_reports(launch, failures);
    assert(seq![false].drop_first() =~= Seq::<bool>::empty());
    assert(after_reports(advanced(reached, false), Seq::<bool>::empty()) == advanced(
        reached,
        false,
    ));
}

/// Reports taken in two batches lead where they lead when taken in one.
pub proof fn lemma_after_reports_split(launch: LaunchView, first: Seq<bool>, second: Seq<bool>)
    ensures
        after_reports(launch, first + second) == after_reports(
            after_reports(launch, first),
            second,
        ),
    decreases first.len(),
{
    if first.len() == 0 {
        assert(first + second =~= second);
    } else {
        assert((first + second).drop_first() =~= first.drop_first() + second);
        lemma_after_reports_split(advanced(launch, first[0]), first.drop_first(), second);
    }
}

} // verus!
