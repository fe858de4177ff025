use std::collections::HashMap;
use tmuxinator_launcher::action::ProjectAction;
use tmuxinator_launcher::config::{Config, Directory};
use tmuxinator_launcher::expand::Environment;
use tmuxinator_launcher::project::{arrange, same_key, Project};
use tmuxinator_launcher::scan::{Entry, Request, Response, Scan};
use tmuxinator_launcher::sessions::Listing;

/// A file system made up for a test: directories with their entries, and files with their
/// text. A file without text exists and cannot be read.
struct Disk {
    dirs: HashMap<String, Vec<String>>,
    files: HashMap<String, Option<String>>,
}

impl Disk {
    fn new() -> Disk {
        Disk { dirs: HashMap::new(), files: HashMap::new() }
    }

    fn dir(mut self, path: &str, entries: &[&str]) -> Disk {
        self.dirs.insert(path.to_string(), entries.iter().map(|e| e.to_string()).collect());
        self
    }

    fn file(mut self, path: &str, text: &str) -> Disk {
        self.files.insert(path.to_string(), Some(text.to_string()));
        self
    }

    fn unreadable(mut self, path: &str) -> Disk {
        self.files.insert(path.to_string(), None);
        self
    }

    fn answer(&self, request: &Request) -> Response {
        match request {
            Request::Exists { path } => {
                Response::Exists(self.dirs.contains_key(path) || self.files.contains_key(path))
            }
            Request::List { path } => Response::Listing(self.dirs.get(path).map(|entries| {
                entries
                    .iter()
                    .map(|e| Entry { path: e.clone(), is_dir: self.dirs.contains_key(e) })
                    .collect()
            })),
            Request::Read { path } => {
                Response::Content(self.files.get(path).and_then(|text| text.clone()))
            }
            Request::Finished => panic!("nothing was asked"),
        }
    }
}

fn config(registry: Option<&str>, trees: &[(&str, usize)]) -> Config {
    Config {
        prefix: ":t".to_string(),
        terminal: None,
        tmuxinator_dir: registry.map(|r| r.to_string()),
        directories: trees
            .iter()
            .map(|(path, depth)| Directory { path: path.to_string(), depth: *depth })
            .collect(),
    }
}

fn live(names: &str) -> Listing {
    Listing::Exited { success: true, stdout: names.as_bytes().to_vec() }
}

/// Runs a pass and returns its list together with the questions it asked.
fn pass(config: &Config, env: &Environment, listing: &Listing, disk: &Disk) -> (Vec<Project>, Vec<Request>) {
    let mut scan = Scan::new(config, env, listing);
    let mut asked = Vec::new();
    let mut steps = 0;
    while !scan.is_finished() {
        let request = scan.request();
        assert!(scan.respond(disk.answer(&request)));
        asked.push(request);
        steps += 1;
        assert!(steps < 10_000);
    }
    assert_eq!(scan.request(), Request::Finished);
    (scan.finish(), asked)
}

fn project(name: &str, root: &str, config: &str, action: ProjectAction, is_global: bool) -> Project {
    Project {
        name: name.to_string(),
        root: root.to_string(),
        config: Some(config.to_string()),
        action,
        is_global,
    }
}

#[test]
fn directory_without_config_or_session_is_a_create_candidate() {
    let disk = Disk::new().dir("/work", &["/work/app"]).dir("/work/app", &[]);
    let (list, _) =
        pass(&config(Some("/none"), &[("/work", 1)]), &Environment::new(), &live(""), &disk);
    assert_eq!(
        list,
        vec![project("app", "/work/app", "/work/app/.tmuxinator.yml", ProjectAction::Create, false)]
    );
}

#[test]
fn registered_config_with_live_session_is_attached() {
    let disk = Disk::new()
        .dir("/reg", &["/reg/foo.yml"])
        .file("/reg/foo.yml", "name: foo\nroot: ~/foo\n");
    let (list, _) = pass(&config(Some("/reg"), &[]), &Environment::new(), &live("foo\n"), &disk);
    assert_eq!(list, vec![project("foo", "/reg", "/reg/foo.yml", ProjectAction::Attach, true)]);
    assert!(list[0].is_global);
    assert_eq!(list[0].action, ProjectAction::Attach);
    assert_eq!(list[0].name, "foo");
}

#[test]
fn registered_config_without_session_is_started() {
    let disk = Disk::new()
        .dir("/reg", &["/reg/foo.yml", "/reg/notes.txt", "/reg/bar.yml"])
        .file("/reg/foo.yml", "name: foo\n")
        .file("/reg/notes.txt", "name: notes\n")
        .file("/reg/bar.yml", "root: /x\n");
    let (list, asked) = pass(&config(Some("/reg"), &[]), &Environment::new(), &live("x\n"), &disk);
    assert_eq!(
        list,
        vec![
            project("bar", "/reg", "/reg/bar.yml", ProjectAction::Start, true),
            project("foo", "/reg", "/reg/foo.yml", ProjectAction::Start, true),
        ]
    );
    assert!(!asked.contains(&Request::Read { path: "/reg/notes.txt".to_string() }));
}

#[test]
fn unreadable_registered_config_is_named_by_its_stem() {
    let disk = Disk::new().dir("/reg", &["/reg/my.proj.yml"]).unreadable("/reg/my.proj.yml");
    let (list, _) = pass(&config(Some("/reg"), &[]), &Environment::new(), &live(""), &disk);
    assert_eq!(
        list,
        vec![project("my-proj", "/reg", "/reg/my.proj.yml", ProjectAction::Start, true)]
    );
}

#[test]
fn usual_registries_are_used_where_none_is_configured() {
    let mut env = Environment::new();
    env.set("HOME".to_string(), "/home/u".to_string());
    let disk = Disk::new()
        .dir("/home/u/.tmuxinator", &["/home/u/.tmuxinator/old.yml"])
        .file("/home/u/.tmuxinator/old.yml", "project_name: old\n");
    let (list, asked) = pass(&config(None, &[]), &env, &live(""), &disk);
    assert_eq!(
        list,
        vec![project(
            "old",
            "/home/u/.tmuxinator",
            "/home/u/.tmuxinator/old.yml",
            ProjectAction::Start,
            true
        )]
    );
    assert_eq!(asked[0], Request::List { path: "/home/u/.config/tmuxinator".to_string() });
    assert_eq!(asked[1], Request::List { path: "/home/u/.tmuxinator".to_string() });
}

#[test]
fn missing_directories_are_skipped() {
    let disk = Disk::new();
    let (list, asked) = pass(
        &config(Some("/none"), &[("/gone", 0), ("/gone", 2)]),
        &Environment::new(),
        &live(""),
        &disk,
    );
    assert!(list.is_empty());
    assert_eq!(
        asked,
        vec![
            Request::List { path: "/none".to_string() },
            Request::Exists { path: "/gone".to_string() },
            Request::Exists { path: "/gone".to_string() },
        ]
    );
}

#[test]
fn depth_zero_takes_the_root_itself() {
    let disk = Disk::new()
        .dir("/work/app", &["/work/app/.tmuxinator.yml", "/work/app/src"])
        .dir("/work/app/src", &[])
        .file("/work/app/.tmuxinator.yml", "root: .\n");
    let (list, _) =
        pass(&config(Some("/none"), &[("/work/app", 0)]), &Environment::new(), &live(""), &disk);
    assert_eq!(
        list,
        vec![project("app", "/work/app", "/work/app/.tmuxinator.yml", ProjectAction::Start, false)]
    );
}

#[test]
fn only_the_exact_depth_is_scanned() {
    let disk = Disk::new()
        .dir("/w", &["/w/a", "/w/b", "/w/file"])
        .dir("/w/a", &["/w/a/x", "/w/a/y"])
        .dir("/w/b", &[])
        .dir("/w/a/x", &["/w/a/x/deep"])
        .dir("/w/a/y", &[])
        .dir("/w/a/x/deep", &[])
        .file("/w/file", "");
    let (list, asked) =
        pass(&config(Some("/none"), &[("/w", 2)]), &Environment::new(), &live(""), &disk);
    assert_eq!(
        list,
        vec![
            project("x", "/w/a/x", "/w/a/x/.tmuxinator.yml", ProjectAction::Create, false),
            project("y", "/w/a/y", "/w/a/y/.tmuxinator.yml", ProjectAction::Create, false),
        ]
    );
    assert!(!asked.contains(&Request::List { path: "/w/a/x".to_string() }));
    assert!(!asked.contains(&Request::Exists { path: "/w/a/.tmuxinator.yml".to_string() }));
    assert!(!asked.contains(&Request::List { path: "/w/file".to_string() }));
}

#[test]
fn trees_are_walked_depth_first_in_listing_order() {
    let disk = Disk::new()
        .dir("/w", &["/w/b", "/w/a"])
        .dir("/w/b", &["/w/b/same", "/w/b/z"])
        .dir("/w/a", &["/w/a/same"])
        .dir("/w/b/same", &[])
        .dir("/w/b/z", &[])
        .dir("/w/a/same", &[]);
    let (list, _) =
        pass(&config(Some("/none"), &[("/w", 2)]), &Environment::new(), &live(""), &disk);
    let roots: Vec<&str> = list.iter().map(|p| p.root.as_str()).collect();
    assert_eq!(roots, vec!["/w/b/same", "/w/a/same", "/w/b/z"]);
}

#[test]
fn bare_directory_with_live_session_is_left_out() {
    let disk = Disk::new().dir("/work", &["/work/app", "/work/lib"]).dir("/work/app", &[]).dir("/work/lib", &[]);
    let (list, _) =
        pass(&config(Some("/none"), &[("/work", 1)]), &Environment::new(), &live("app\n"), &disk);
    assert_eq!(
        list,
        vec![project("lib", "/work/lib", "/work/lib/.tmuxinator.yml", ProjectAction::Create, false)]
    );
}

#[test]
fn configured_directory_uses_declared_name_and_session() {
    let disk = Disk::new()
        .dir("/work", &["/work/app"])
        .dir("/work/app", &["/work/app/.tmuxinator.yml"])
        .file("/work/app/.tmuxinator.yml", "name: my.app\n");
    let (list, _) =
        pass(&config(Some("/none"), &[("/work", 1)]), &Environment::new(), &live("my-app\n"), &disk);
    assert_eq!(
        list,
        vec![project("my-app", "/work/app", "/work/app/.tmuxinator.yml", ProjectAction::Attach, false)]
    );
}

#[test]
fn unreadable_local_config_falls_back_to_directory_name() {
    let disk = Disk::new()
        .dir("/work", &["/work/my.app"])
        .dir("/work/my.app", &[])
        .unreadable("/work/my.app/.tmuxinator.yml");
    let (list, _) =
        pass(&config(Some("/none"), &[("/work", 1)]), &Environment::new(), &live(""), &disk);
    assert_eq!(
        list,
        vec![project("my-app", "/work/my.app", "/work/my.app/.tmuxinator.yml", ProjectAction::Start, false)]
    );
}

#[test]
fn scan_roots_are_expanded() {
    let mut env = Environment::new();
    env.set("HOME".to_string(), "/home/u".to_string());
    env.set("SRC".to_string(), "src".to_string());
    let disk = Disk::new().dir("/home/u/src", &["/home/u/src/p"]).dir("/home/u/src/p", &[]);
    let (list, _) = pass(&config(Some("/none"), &[("~/$SRC", 1)]), &env, &live(""), &disk);
    assert_eq!(
        list,
        vec![project("p", "/home/u/src/p", "/home/u/src/p/.tmuxinator.yml", ProjectAction::Create, false)]
    );
}

#[test]
fn overlapping_roots_give_one_entry() {
    let disk = Disk::new()
        .dir("/work", &["/work/app", "/work/lib"])
        .dir("/work/app", &[])
        .dir("/work/lib", &[]);
    let (list, _) = pass(
        &config(Some("/none"), &[("/work", 1), ("/work/app", 0), ("/work", 1)]),
        &Environment::new(),
        &live(""),
        &disk,
    );
    assert_eq!(
        list,
        vec![
            project("app", "/work/app", "/work/app/.tmuxinator.yml", ProjectAction::Create, false),
            project("lib", "/work/lib", "/work/lib/.tmuxinator.yml", ProjectAction::Create, false),
        ]
    );
}

#[test]
fn two_passes_over_the_same_disk_agree() {
    let disk = Disk::new()
        .dir("/reg", &["/reg/b.yml", "/reg/a.yml"])
        .file("/reg/b.yml", "name: b\n")
        .file("/reg/a.yml", "name: a\n")
        .dir("/work", &["/work/z", "/work/a"])
        .dir("/work/z", &[])
        .dir("/work/a", &[]);
    let c = config(Some("/reg"), &[("/work", 1)]);
    let (first, asked_first) = pass(&c, &Environment::new(), &live("a\n"), &disk);
    let (second, asked_second) = pass(&c, &Environment::new(), &live("a\n"), &disk);
    assert_eq!(first, second);
    assert_eq!(asked_first, asked_second);
    assert_eq!(first.len(), 3);
}

#[test]
fn list_is_sorted_by_name() {
    let disk = Disk::new()
        .dir("/work", &["/work/b", "/work/a", "/work/C", "/work/ab"])
        .dir("/work/b", &[])
        .dir("/work/a", &[])
        .dir("/work/C", &[])
        .dir("/work/ab", &[]);
    let (list, _) =
        pass(&config(Some("/none"), &[("/work", 1)]), &Environment::new(), &live(""), &disk);
    let names: Vec<&str> = list.iter().map(|p| p.name.as_str()).collect();
    assert_eq!(names, vec!["C", "a", "ab", "b"]);
}

#[test]
fn answer_of_the_wrong_kind_changes_nothing() {
    let mut scan = Scan::new(&config(Some("/reg"), &[]), &Environment::new(), &live(""));
    assert_eq!(scan.request(), Request::List { path: "/reg".to_string() });
    assert!(!scan.respond(Response::Exists(true)));
    assert!(!scan.respond(Response::Content(None)));
    assert_eq!(scan.request(), Request::List { path: "/reg".to_string() });
    assert!(scan.respond(Response::Listing(None)));
    assert!(scan.is_finished());
    assert!(!scan.respond(Response::Listing(None)));
    assert!(scan.finish().is_empty());
}

#[test]
fn arrange_keeps_first_of_each_key_and_sorts() {
    let a1 = project("a", "/r1", "/r1/one.yml", ProjectAction::Start, true);
    let a2 = project("a", "/r1", "/r1/two.yml", ProjectAction::Start, true);
    let a3 = project("a", "/r2", "/r2/.tmuxinator.yml", ProjectAction::Create, false);
    let a4 = project("a", "/r1", "/r1/.tmuxinator.yml", ProjectAction::Create, false);
    let b = project("B", "/r1", "/r1/b.yml", ProjectAction::Attach, true);
    let list = arrange(vec![a1.clone(), b.clone(), a3.clone(), a2.clone(), a4.clone(), a3.clone(), b.clone()]);
    assert_eq!(list, vec![b, a1, a3, a4]);
}

#[test]
fn arrange_of_nothing_is_nothing() {
    assert_eq!(arrange(Vec::new()), Vec::<Project>::new());
}

#[test]
fn arrange_twice_changes_nothing() {
    let input = vec![
        project("z", "/1", "/1/c", ProjectAction::Start, false),
        project("a", "/2", "/2/c", ProjectAction::Start, false),
        project("z", "/1", "/1/c", ProjectAction::Start, false),
        project("m", "/3", "/3/c", ProjectAction::Create, false),
    ];
    let once = arrange(input);
    let twice = arrange(once.clone());
    assert_eq!(once, twice);
    assert_eq!(once.len(), 3);
}

#[test]
fn keys_compare_name_root_and_locality() {
    let p = project("a", "/r", "/r/x.yml", ProjectAction::Start, true);
    assert!(same_key(&p, &project("a", "/r", "/r/y.yml", ProjectAction::Attach, true)));
    assert!(!same_key(&p, &project("a", "/r", "/r/x.yml", ProjectAction::Start, false)));
    assert!(!same_key(&p, &project("a", "/s", "/r/x.yml", ProjectAction::Start, true)));
    assert!(!same_key(&p, &project("b", "/r", "/r/x.yml", ProjectAction::Start, true)));
}
