use tmuxinator_launcher::config::{default_tmuxinator_dirs, tmuxinator_dirs, Config, Directory};
use tmuxinator_launcher::expand::{expand_marked, expand_path, expand_variables, Environment};

fn env(vars: &[(&str, &str)]) -> Environment {
    let mut env = Environment::new();
    for (name, value) in vars {
        env.set(name.to_string(), value.to_string());
    }
    env
}

#[test]
fn tilde_becomes_home() {
    assert_eq!(expand_path("~/x", &env(&[("HOME", "/home/u")])), "/home/u/x");
}

#[test]
fn variable_becomes_value() {
    assert_eq!(expand_path("$FOO/bar", &env(&[("FOO", "baz")])), "baz/bar");
}

#[test]
fn unset_variable_stays() {
    assert_eq!(expand_path("$UNSET/bar", &env(&[("FOO", "baz")])), "$UNSET/bar");
}

#[test]
fn tilde_without_home_stays() {
    assert_eq!(expand_path("~/x", &Environment::new()), "~/x");
}

#[test]
fn tilde_alone_or_inside_stays() {
    let e = env(&[("HOME", "/home/u")]);
    assert_eq!(expand_path("~", &e), "~");
    assert_eq!(expand_path("~x/y", &e), "~x/y");
    assert_eq!(expand_path("/a/~/b", &e), "/a/~/b");
}

#[test]
fn variable_name_is_longest_run() {
    let e = env(&[("FOO", "short"), ("FOO_BAR1", "long")]);
    assert_eq!(expand_path("$FOO_BAR1/x", &e), "long/x");
    assert_eq!(expand_path("$FOO-x", &e), "short-x");
    assert_eq!(expand_path("a$FOO", &e), "ashort");
}

#[test]
fn several_variables_and_home() {
    let e = env(&[("HOME", "/home/u"), ("A", "1"), ("B", "2")]);
    assert_eq!(expand_path("~/$A/$B$A", &e), "/home/u/1/21");
}

#[test]
fn lone_dollar_stays() {
    let e = env(&[("A", "1")]);
    assert_eq!(expand_path("$", &e), "$");
    assert_eq!(expand_path("a$/b", &e), "a$/b");
    assert_eq!(expand_path("$$A", &e), "$1");
}

#[test]
fn value_is_not_expanded_again() {
    let e = env(&[("A", "$B"), ("B", "2")]);
    assert_eq!(expand_path("$A/x", &e), "$B/x");
}

#[test]
fn home_value_is_put_in_unread() {
    let e = env(&[("HOME", "/h/$U"), ("U", "me")]);
    assert_eq!(expand_path("~/x", &e), "/h/$U/x");
    let e = env(&[("HOME", "/h/$FOO"), ("FOO", "x")]);
    assert_eq!(expand_path("~/y", &e), "/h/$FOO/y");
    assert_eq!(expand_path("~/$FOO", &e), "/h/$FOO/x");
}

#[test]
fn marked_path_is_expanded_by_its_marks() {
    let e = env(&[("HOME", "/h/$F"), ("F", "x"), ("F-G", "hyphen")]);
    let by_class: Vec<(char, bool)> =
        "~/$F-G".chars().map(|c| (c, c.is_alphanumeric() || c == '_')).collect();
    assert_eq!(expand_marked(&by_class, &e), "/h/$F/x-G");
    let hyphen_too: Vec<(char, bool)> =
        "~/$F-G".chars().map(|c| (c, c.is_alphanumeric() || c == '-')).collect();
    assert_eq!(expand_marked(&hyphen_too, &e), "/h/$F/hyphen");
    let none: Vec<(char, bool)> = "~/$F-G".chars().map(|c| (c, false)).collect();
    assert_eq!(expand_marked(&none, &e), "/h/$F/$F-G");
    assert_eq!(expand_variables(&by_class, &e), "~/x-G".chars().collect::<Vec<char>>());
    assert_eq!(expand_marked(&Vec::new(), &e), "");
}

#[test]
fn plain_path_is_unchanged() {
    let e = env(&[("HOME", "/home/u")]);
    assert_eq!(expand_path("/work/app", &e), "/work/app");
    assert_eq!(expand_path("", &e), "");
}

#[test]
fn later_setting_replaces_earlier() {
    let mut e = Environment::new();
    e.set("A".to_string(), "1".to_string());
    e.set("A".to_string(), "2".to_string());
    assert_eq!(e.get("A"), Some("2".to_string()));
    assert_eq!(e.get("B"), None);
    assert_eq!(expand_path("$A", &e), "2");
}

#[test]
fn default_config_values() {
    let config = Config::default();
    assert_eq!(config.prefix, ":t");
    assert_eq!(config.terminal, None);
    assert_eq!(config.tmuxinator_dir, None);
    assert!(config.directories.is_empty());
}

#[test]
fn usual_registries_below_home() {
    let e = env(&[("HOME", "/home/u")]);
    assert_eq!(
        default_tmuxinator_dirs(&e),
        vec!["/home/u/.config/tmuxinator".to_string(), "/home/u/.tmuxinator".to_string()]
    );
    assert_eq!(tmuxinator_dirs(&Config::default(), &e), default_tmuxinator_dirs(&e));
}

#[test]
fn no_registries_without_home() {
    assert!(default_tmuxinator_dirs(&Environment::new()).is_empty());
}

#[test]
fn configured_registry_is_expanded() {
    let e = env(&[("HOME", "/home/u")]);
    let config = Config {
        prefix: ":t".to_string(),
        terminal: None,
        tmuxinator_dir: Some("~/mux".to_string()),
        directories: vec![Directory { path: "/work".to_string(), depth: 1 }],
    };
    assert_eq!(tmuxinator_dirs(&config, &e), vec!["/home/u/mux".to_string()]);
}
