use tmuxinator_launcher::name::{parse_marked_name, parse_project_name, project_name};
use tmuxinator_launcher::order::name_le;
use tmuxinator_launcher::path::{extension_of, file_name_of, file_stem_of, join};
use tmuxinator_launcher::text::{strip, to_chars, to_string, CharClass};

fn some(s: &str) -> Option<String> {
    Some(s.to_string())
}

#[test]
fn declared_dots_become_hyphens() {
    assert_eq!(parse_project_name("name: my.project\n"), some("my-project"));
}

#[test]
fn declared_name_is_trimmed_and_unquoted() {
    assert_eq!(parse_project_name("name:   \"foo\"  \nroot: /x\n"), some("foo"));
    assert_eq!(parse_project_name("  name: foo\r\n"), some("foo"));
    assert_eq!(parse_project_name("name: .foo.bar.\n"), some("foo-bar"));
}

#[test]
fn older_key_is_recognised() {
    assert_eq!(parse_project_name("# comment\nproject_name: legacy.one\n"), some("legacy-one"));
}

#[test]
fn first_declaration_wins() {
    assert_eq!(parse_project_name("root: /x\nname: one\nname: two\n"), some("one"));
}

#[test]
fn text_without_declaration_declares_nothing() {
    assert_eq!(parse_project_name(""), None);
    assert_eq!(parse_project_name("root: /x\nwindows:\n  - editor: vim\n"), None);
    assert_eq!(parse_project_name("- name: nested\n"), None);
    assert_eq!(parse_project_name("names: x\n"), None);
}

#[test]
fn empty_declaration_is_an_empty_name() {
    assert_eq!(parse_project_name("name:\n"), some(""));
}

#[test]
fn marked_text_is_read_by_its_marks() {
    let text = "\t name:  \"my.app\" \nname: other\n";
    let by_class: Vec<(char, bool)> = text.chars().map(|c| (c, c.is_whitespace())).collect();
    assert_eq!(parse_marked_name(&by_class), some("my-app"));
    let none: Vec<(char, bool)> = text.chars().map(|c| (c, false)).collect();
    assert_eq!(parse_marked_name(&none), some(" other"));
    let quotes_too: Vec<(char, bool)> =
        "name: x y\n".chars().map(|c| (c, c == ' ' || c == 'x')).collect();
    assert_eq!(parse_marked_name(&quotes_too), some("y"));
    assert_eq!(parse_marked_name(&Vec::new()), None);
}

#[test]
fn quotes_are_taken_off_before_inner_white_space() {
    assert_eq!(parse_project_name("name: \" x \"\n"), some(" x "));
}

#[test]
fn name_prefers_declaration_then_directory_then_stem() {
    assert_eq!(project_name(some("decl"), some("dir"), some("stem"), "unknown"), "decl");
    assert_eq!(project_name(None, some("dir"), some("stem"), "unknown"), "dir");
    assert_eq!(project_name(None, None, some("stem"), "unknown"), "stem");
    assert_eq!(project_name(None, None, None, "unknown"), "unknown");
}

#[test]
fn fallback_names_lose_their_dots() {
    assert_eq!(project_name(None, some("my.app"), None, "unnamed"), "my-app");
    assert_eq!(project_name(None, None, some(".tmuxinator"), "unknown"), "-tmuxinator");
}

#[test]
fn file_names_of_paths() {
    assert_eq!(file_name_of("/work/app"), some("app"));
    assert_eq!(file_name_of("/work/app/"), some("app"));
    assert_eq!(file_name_of("/work/app//"), some("app"));
    assert_eq!(file_name_of("/work/app/."), some("app"));
    assert_eq!(file_name_of("app"), some("app"));
    assert_eq!(file_name_of("./app"), some("app"));
    assert_eq!(file_name_of("/work/.hidden"), some(".hidden"));
    assert_eq!(file_name_of("/"), None);
    assert_eq!(file_name_of(""), None);
    assert_eq!(file_name_of("."), None);
    assert_eq!(file_name_of(".."), None);
    assert_eq!(file_name_of("/work/.."), None);
    assert_eq!(file_name_of("/work/../."), None);
}

#[test]
fn file_names_agree_with_std() {
    for p in ["/work/app", "/work/app/", "a/./", "./.", "/.", "a/..", "..a", "a//b", "/a/b/./.", "...", "x.yml"] {
        let ours = file_name_of(p);
        let theirs = std::path::Path::new(p).file_name().map(|s| s.to_str().unwrap().to_string());
        assert_eq!(ours, theirs);
        let ext = std::path::Path::new(p).extension().map(|s| s.to_str().unwrap().to_string());
        assert_eq!(extension_of(p), ext);
        let stem = std::path::Path::new(p).file_stem().map(|s| s.to_str().unwrap().to_string());
        assert_eq!(file_stem_of(p), stem);
    }
}

#[test]
fn extensions_and_stems() {
    assert_eq!(extension_of("/r/foo.yml"), some("yml"));
    assert_eq!(file_stem_of("/r/foo.yml"), some("foo"));
    assert_eq!(extension_of("/r/foo.bar.yml"), some("yml"));
    assert_eq!(file_stem_of("/r/foo.bar.yml"), some("foo.bar"));
    assert_eq!(extension_of("/r/.tmuxinator.yml"), some("yml"));
    assert_eq!(file_stem_of("/r/.tmuxinator.yml"), some(".tmuxinator"));
    assert_eq!(extension_of("/r/.hidden"), None);
    assert_eq!(file_stem_of("/r/.hidden"), some(".hidden"));
    assert_eq!(extension_of("/r/plain"), None);
    assert_eq!(file_stem_of("/r/plain"), some("plain"));
    assert_eq!(extension_of("/r/dot."), some(""));
    assert_eq!(file_stem_of("/r/dot."), some("dot"));
    assert_eq!(extension_of("/"), None);
    assert_eq!(file_stem_of("/"), None);
}

#[test]
fn joining_paths() {
    assert_eq!(join("/work/app", ".tmuxinator.yml"), "/work/app/.tmuxinator.yml");
    assert_eq!(join("/work/app/", ".tmuxinator.yml"), "/work/app/.tmuxinator.yml");
    assert_eq!(join("/", "x"), "/x");
    assert_eq!(join("", "x"), "x");
    for (d, n) in [("/work/app", "f"), ("/work/app/", "f"), ("", "f"), ("/", "f"), ("a", "b.c")] {
        assert_eq!(join(d, n), std::path::Path::new(d).join(n).to_str().unwrap());
    }
}

#[test]
fn names_are_ordered_by_code_point() {
    assert!(name_le("", ""));
    assert!(name_le("", "a"));
    assert!(!name_le("a", ""));
    assert!(name_le("a", "a"));
    assert!(name_le("a", "ab"));
    assert!(!name_le("ab", "a"));
    assert!(name_le("B", "a"));
    assert!(!name_le("a", "B"));
    assert!(name_le("z", "\u{e9}"));
    for a in ["", "a", "ab", "B", "\u{e9}", "zz", "a-b", "a_b", "\u{1f600}", "\u{ffff}"] {
        for b in ["", "a", "ab", "B", "\u{e9}", "zz", "a-b", "a_b", "\u{1f600}", "\u{ffff}"] {
            assert_eq!(name_le(a, b), a <= b);
        }
    }
}

#[test]
fn text_round_trip_and_strip() {
    assert_eq!(to_string(&to_chars("h\u{e9}llo")), "h\u{e9}llo");
    assert_eq!(to_chars("ab"), vec!['a', 'b']);
    assert_eq!(to_string(&strip(&to_chars(" \t x y \n"), CharClass::Whitespace)), "x y");
    assert_eq!(to_string(&strip(&to_chars("   "), CharClass::Whitespace)), "");
    assert_eq!(to_string(&strip(&to_chars("\"..a.b\"."), CharClass::Quoting)), "a.b");
    assert_eq!(to_string(&strip(&to_chars("__a1 b__"), CharClass::Identifier)), " ");
}
