use tmuxinator_launcher::action::ProjectAction;
use tmuxinator_launcher::launch::{
    create_basic_config, launch_line, list_sessions, probe, run_in_terminal, switch_client,
    terminals, Command, Launch, Outcome, Selection, Step,
};
use tmuxinator_launcher::name::parse_project_name;
use tmuxinator_launcher::project::Project;
use tmuxinator_launcher::selection::{action_in, describe, parse_marked_selection, parse_selection};

fn selection(name: &str, path: &str, action: ProjectAction, is_global: bool) -> Selection {
    Selection { name: name.to_string(), path: path.to_string(), action, is_global }
}

fn command(program: &str, args: &[&str]) -> Command {
    Command { program: program.to_string(), args: args.iter().map(|a| a.to_string()).collect() }
}

const BASIC: &str = "name: my-app\nroot: /work/my.app\n#pre_window: nix develop\nstartup_window: editor\nwindows:\n  - editor:\n      - nvim .\n  - term:\n  - git-lg: lazygit\n";

/// Carries a launch out against scripted reports and returns the steps it asked for.
fn carry_out(mut launch: Launch, reports: &[bool]) -> (Vec<Step>, Outcome) {
    let mut steps = Vec::new();
    let mut reports = reports.iter();
    loop {
        let step = launch.step();
        if let Step::Finished { outcome } = step {
            assert_eq!(launch.outcome(), Some(outcome));
            return (steps, outcome);
        }
        assert_eq!(launch.outcome(), None);
        steps.push(step);
        launch.report(*reports.next().expect("a report for each step"));
    }
}

#[test]
fn multiplexer_commands() {
    assert_eq!(list_sessions(), command("tmux", &["list-sessions", "-F", "#{session_name}"]));
    assert_eq!(probe(), command("tmux", &["info"]));
    assert_eq!(switch_client("app"), command("tmux", &["switch-client", "-t", "app"]));
    assert_eq!(
        run_in_terminal("kitty", "tmux attach-session -t app"),
        command("kitty", &["-e", "sh", "-lc", "tmux attach-session -t app"])
    );
}

#[test]
fn command_lines_by_action_and_locality() {
    assert_eq!(
        launch_line(&selection("app", "/work/app", ProjectAction::Attach, false)),
        "tmux attach-session -t app"
    );
    assert_eq!(
        launch_line(&selection("app", "/reg/app.yml", ProjectAction::Attach, true)),
        "tmux attach-session -t app"
    );
    assert_eq!(
        launch_line(&selection("app", "/work/app", ProjectAction::Start, false)),
        "tmuxinator start -p /work/app/.tmuxinator.yml"
    );
    assert_eq!(
        launch_line(&selection("app", "/work/app", ProjectAction::Create, false)),
        "tmuxinator start -p /work/app/.tmuxinator.yml"
    );
    assert_eq!(
        launch_line(&selection("app", "/reg/app.yml", ProjectAction::Start, true)),
        "tmuxinator start app"
    );
    assert_eq!(
        launch_line(&selection("app", "/reg/app.yml", ProjectAction::Create, true)),
        "tmuxinator start app"
    );
}

#[test]
fn terminal_candidates_in_priority_order() {
    assert_eq!(
        terminals(&None),
        vec!["x-terminal-emulator", "alacritty", "kitty", "wezterm", "gnome-terminal", "foot", "xterm"]
    );
    assert_eq!(
        terminals(&Some("st".to_string())),
        vec!["st", "x-terminal-emulator", "alacritty", "kitty", "wezterm", "gnome-terminal", "foot", "xterm"]
    );
}

#[test]
fn basic_config_text() {
    assert_eq!(create_basic_config("my.app", "/work/my.app"), BASIC);
}

#[test]
fn basic_config_declares_its_name() {
    assert_eq!(
        parse_project_name(&create_basic_config("my.app", "/work/my.app")),
        Some("my-app".to_string())
    );
}

#[test]
fn created_project_is_written_then_started_by_path() {
    let launch = Launch::new(selection("my.app", "/work/my.app", ProjectAction::Create, false), &None);
    let (steps, outcome) = carry_out(launch, &[true, false, true]);
    assert_eq!(
        steps,
        vec![
            Step::Write { path: "/work/my.app/.tmuxinator.yml".to_string(), content: BASIC.to_string() },
            Step::Run { command: probe() },
            Step::Spawn {
                command: run_in_terminal(
                    "x-terminal-emulator",
                    "tmuxinator start -p /work/my.app/.tmuxinator.yml"
                )
            },
        ]
    );
    assert_eq!(outcome, Outcome::Spawned);
}

#[test]
fn failed_write_abandons_the_launch() {
    let launch = Launch::new(selection("app", "/work/app", ProjectAction::Create, false), &None);
    let (steps, outcome) = carry_out(launch, &[false]);
    assert_eq!(steps.len(), 1);
    assert!(matches!(steps[0], Step::Write { .. }));
    assert_eq!(outcome, Outcome::ConfigNotWritten);
}

#[test]
fn finished_launch_ignores_further_reports() {
    let mut launch = Launch::new(selection("app", "/work/app", ProjectAction::Create, false), &None);
    launch.report(false);
    launch.report(true);
    launch.report(true);
    assert_eq!(launch.step(), Step::Finished { outcome: Outcome::ConfigNotWritten });
}

#[test]
fn successful_switch_spawns_no_terminal() {
    let launch = Launch::new(selection("app", "/work/app", ProjectAction::Attach, false), &None);
    let (steps, outcome) = carry_out(launch, &[true, true]);
    assert_eq!(
        steps,
        vec![Step::Run { command: probe() }, Step::Run { command: switch_client("app") }]
    );
    assert_eq!(outcome, Outcome::Switched);
}

#[test]
fn failed_switch_falls_back_to_terminals() {
    let launch =
        Launch::new(selection("app", "/reg/app.yml", ProjectAction::Start, true), &Some("st".to_string()));
    let (steps, outcome) = carry_out(launch, &[true, false, false, false, true]);
    assert_eq!(
        steps,
        vec![
            Step::Run { command: probe() },
            Step::Run { command: switch_client("app") },
            Step::Spawn { command: run_in_terminal("st", "tmuxinator start app") },
            Step::Spawn { command: run_in_terminal("x-terminal-emulator", "tmuxinator start app") },
            Step::Spawn { command: run_in_terminal("alacritty", "tmuxinator start app") },
        ]
    );
    assert_eq!(outcome, Outcome::Spawned);
}

#[test]
fn no_terminal_is_a_failure_after_all_were_tried() {
    let launch = Launch::new(selection("app", "/work/app", ProjectAction::Attach, false), &None);
    let (steps, outcome) = carry_out(launch, &[false; 8]);
    assert_eq!(steps.len(), 8);
    let tried: Vec<String> = steps[1..]
        .iter()
        .map(|s| match s {
            Step::Spawn { command } => command.program.clone(),
            other => panic!("not a spawn: {:?}", other),
        })
        .collect();
    assert_eq!(tried, terminals(&None));
    assert_eq!(outcome, Outcome::NoTerminal);
}

#[test]
fn started_project_writes_nothing() {
    let launch = Launch::new(selection("app", "/work/app", ProjectAction::Start, false), &None);
    assert_eq!(launch.step(), Step::Run { command: probe() });
    let global = Launch::new(selection("app", "/reg/app.yml", ProjectAction::Create, true), &None);
    assert_eq!(global.step(), Step::Run { command: probe() });
}

fn project(name: &str, root: &str, config: Option<&str>, action: ProjectAction, is_global: bool) -> Project {
    Project {
        name: name.to_string(),
        root: root.to_string(),
        config: config.map(|c| c.to_string()),
        action,
        is_global,
    }
}

#[test]
fn descriptions_of_matches() {
    assert_eq!(
        describe(&project("app", "/work/app", Some("/work/app/.tmuxinator.yml"), ProjectAction::Create, false)),
        "[create] local /work/app"
    );
    assert_eq!(
        describe(&project("foo", "/reg", Some("/reg/foo.yml"), ProjectAction::Attach, true)),
        "[attach] global /reg/foo.yml"
    );
    assert_eq!(
        describe(&project("foo", "/reg", None, ProjectAction::Start, true)),
        "[start] global <unknown>"
    );
}

#[test]
fn selection_is_read_back_from_description() {
    for action in [ProjectAction::Attach, ProjectAction::Start, ProjectAction::Create] {
        let local = project("app", "/work/app", Some("/work/app/.tmuxinator.yml"), action, false);
        assert_eq!(
            parse_selection("app", Some(&describe(&local))),
            Some(selection("app", "/work/app", action, false))
        );
        let global = project("foo", "/reg", Some("/reg/foo.yml"), action, true);
        assert_eq!(
            parse_selection("foo", Some(&describe(&global))),
            Some(selection("foo", "/reg/foo.yml", action, true))
        );
    }
}

#[test]
fn unrecognised_selection_is_passed_over() {
    assert_eq!(parse_selection("app", None), None);
    assert_eq!(parse_selection("app", Some("")), None);
    assert_eq!(parse_selection("app", Some("[start]")), None);
    assert_eq!(parse_selection("app", Some("[start] ")), None);
    assert_eq!(parse_selection("app", Some("[start] remote /x")), None);
    assert_eq!(parse_selection("app", Some("[start]  local /x")), None);
    assert_eq!(parse_selection("app", Some("[work] https://example.org")), None);
    assert_eq!(parse_selection("app", Some("local /x")), None);
}

#[test]
fn unknown_action_is_passed_over() {
    assert_eq!(parse_selection("app", Some("[bogus] local /work/app")), None);
    assert_eq!(parse_selection("app", Some("[x] global /a] /b")), None);
    assert_eq!(parse_selection("app", Some("[Start] local /work/app")), None);
    assert_eq!(parse_selection("app", Some(" [start] local /work/app")), None);
    assert_eq!(parse_selection("app", Some("x [attach] local /work/app")), None);
    assert_eq!(parse_selection("app", Some("[] local /work/app")), None);
}

#[test]
fn action_is_read_from_the_leading_bracket_only() {
    assert_eq!(
        parse_selection("app", Some("[start] local /w/[attach]")),
        Some(selection("app", "/w/[attach]", ProjectAction::Start, false))
    );
    assert_eq!(
        parse_selection("app", Some("[create] global /a/[start] /b")),
        Some(selection("app", "/a/[start] /b", ProjectAction::Create, true))
    );
    let chars = |s: &str| s.chars().collect::<Vec<char>>();
    assert_eq!(action_in(&chars("[attach] local /x")), Some(ProjectAction::Attach));
    assert_eq!(action_in(&chars("[start] ")), Some(ProjectAction::Start));
    assert_eq!(action_in(&chars("[create] anything")), Some(ProjectAction::Create));
    assert_eq!(action_in(&chars("[create]")), None);
    assert_eq!(action_in(&chars("[bogus] local /x [attach] ")), None);
}

#[test]
fn selection_path_is_trimmed() {
    assert_eq!(
        parse_selection("app", Some("[start] local   /work/app  ")),
        Some(selection("app", "/work/app", ProjectAction::Start, false))
    );
    assert_eq!(
        parse_selection("app", Some("[attach] global /a] /b\t")),
        Some(selection("app", "/a] /b", ProjectAction::Attach, true))
    );
    assert_eq!(
        parse_selection("app", Some("[create] local ")),
        Some(selection("app", "", ProjectAction::Create, false))
    );
}

#[test]
fn marked_description_is_read_by_its_marks() {
    let by_class: Vec<(char, bool)> =
        "[start] local  /a b ".chars().map(|c| (c, c.is_whitespace())).collect();
    assert_eq!(
        parse_marked_selection("app", Some(&by_class)),
        Some(selection("app", "/a b", ProjectAction::Start, false))
    );
    let none: Vec<(char, bool)> = "[start] local  /a b ".chars().map(|c| (c, false)).collect();
    assert_eq!(
        parse_marked_selection("app", Some(&none)),
        Some(selection("app", " /a b ", ProjectAction::Start, false))
    );
    let slash_too: Vec<(char, bool)> =
        "[start] local  /a b ".chars().map(|c| (c, c == ' ' || c == '/')).collect();
    assert_eq!(
        parse_marked_selection("app", Some(&slash_too)),
        Some(selection("app", "a b", ProjectAction::Start, false))
    );
    assert_eq!(parse_marked_selection("app", None), None);
}

#[test]
fn every_description_is_read_back() {
    for action in [ProjectAction::Attach, ProjectAction::Start, ProjectAction::Create] {
        for is_global in [false, true] {
            for path in ["/w/a", "/w/[attach] x", "/w/] [start] ", "local /x", ""] {
                let p = project("n", path, Some(path), action, is_global);
                assert_eq!(
                    parse_selection("n", Some(&describe(&p))),
                    Some(selection("n", path.trim(), action, is_global))
                );
            }
        }
    }
}

#[test]
fn failure_reports_name_project_and_cause() {
    let local = selection("app", "/work/app", ProjectAction::Create, false);
    assert_eq!(
        tmuxinator_launcher::launch::failure_message(&local, "permission denied"),
        "[tmuxinator-launcher] failed to run local project app: permission denied"
    );
    let global = selection("foo", "/reg/foo.yml", ProjectAction::Start, true);
    assert_eq!(
        tmuxinator_launcher::launch::failure_message(
            &global,
            &tmuxinator_launcher::launch::no_terminal_message(&global)
        ),
        "[tmuxinator-launcher] failed to run global project foo (/reg/foo.yml): no terminal available to run: tmuxinator start foo"
    );
}
