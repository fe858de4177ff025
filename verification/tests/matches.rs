use tmuxinator_launcher::action::ProjectAction;
use tmuxinator_launcher::matching::{get_matches, is_picked, parse_query, Shown};
use tmuxinator_launcher::project::{sort_by, By, Project};

fn project(name: &str, root: &str, is_global: bool) -> Project {
    Project {
        name: name.to_string(),
        root: root.to_string(),
        config: Some(format!("{}/{}.yml", root, name)),
        action: ProjectAction::Start,
        is_global,
    }
}

fn shown(title: &str, description: &str) -> Shown {
    Shown { title: title.to_string(), description: description.to_string() }
}

fn sample() -> Vec<Project> {
    vec![
        project("Beta", "/work/Beta", false),
        project("alpha", "/reg", true),
        project("gamma", "/work/ALPHAbet", false),
    ]
}

#[test]
fn input_without_prefix_shows_nothing() {
    assert_eq!(get_matches(sample(), "alpha", ":t"), Vec::<Shown>::new());
    assert_eq!(get_matches(sample(), " :t alpha", ":t"), Vec::<Shown>::new());
    assert_eq!(parse_query("alpha", ":t"), None);
}

#[test]
fn query_is_trimmed_and_lowered() {
    assert_eq!(parse_query(":t  AlPha \t", ":t"), Some("alpha".to_string()));
    assert_eq!(parse_query(":t", ":t"), Some(String::new()));
    assert_eq!(parse_query("anything", ""), Some("anything".to_string()));
}

#[test]
fn empty_query_shows_all_in_order_of_lower_case_names() {
    assert_eq!(
        get_matches(sample(), ":t", ":t"),
        vec![
            shown("alpha", "[start] global /reg/alpha.yml"),
            shown("Beta", "[start] local /work/Beta"),
            shown("gamma", "[start] local /work/ALPHAbet"),
        ]
    );
}

#[test]
fn query_picks_by_name_or_root_without_case() {
    assert_eq!(
        get_matches(sample(), ":t ALPHA", ":t"),
        vec![
            shown("alpha", "[start] global /reg/alpha.yml"),
            shown("gamma", "[start] local /work/ALPHAbet"),
        ]
    );
    assert_eq!(get_matches(sample(), ":t work/b", ":t"), vec![shown("Beta", "[start] local /work/Beta")]);
    assert_eq!(get_matches(sample(), ":t nothing", ":t"), Vec::<Shown>::new());
}

#[test]
fn picking_one_project() {
    let p = project("My-App", "/Work/x", false);
    assert!(is_picked("", &p));
    assert!(is_picked("my-", &p));
    assert!(is_picked("work", &p));
    assert!(!is_picked("My", &p));
    assert!(!is_picked("yml", &p));
}

#[test]
fn sorting_by_lower_case_name_is_stable() {
    let list = vec![
        project("b", "/1", false),
        project("A", "/2", false),
        project("a", "/3", false),
        project("B", "/4", false),
    ];
    let roots: Vec<String> =
        sort_by(list.clone(), By::LowercaseName).into_iter().map(|p| p.root).collect();
    assert_eq!(roots, vec!["/2", "/3", "/1", "/4"]);
    let roots: Vec<String> = sort_by(list, By::Name).into_iter().map(|p| p.root).collect();
    assert_eq!(roots, vec!["/2", "/4", "/3", "/1"]);
}
