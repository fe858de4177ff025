//! The name of a project: what its configuration declares, or what its place on disk
//! suggests.

use vstd::prelude::*;
use crate::text::{
    classify, count_leading, hyphenate, hyphenated, leading_run, lemma_leading_run_bounds,
    lemma_marks_stripped, letters, marked_stripped, marks, matches_at, occurs_at, slice, strip,
    strip_marked, stripped, to_chars, to_string, unmark, CharClass,
};

verus! {

/// The key that declares a project's name.
pub open spec fn name_key() -> Seq<char> {
    "name:"@
}

/// The older key that declares a project's name.
pub open spec fn legacy_name_key() -> Seq<char> {
    "project_name:"@
}

/// The name that the text behind a key stands for: without surrounding white space, then
/// without surrounding quotes and dots, and with each remaining dot turned into a hyphen.
pub open spec fn declared_value(rest: Seq<char>) -> Seq<char> {
    hyphenated(stripped(stripped(rest, CharClass::Whitespace), CharClass::Quoting))
}

/// The name that one line declares, if it declares one: white space aside, the line starts
/// with one of the two keys.
pub open spec fn line_declaration(line: Seq<char>) -> Option<Seq<char>> {
    let text = stripped(line, CharClass::Whitespace);
    if occurs_at(text, name_key(), 0) {
        Some(declared_value(text.skip(name_key().len() as int)))
    } else if occurs_at(text, legacy_name_key(), 0) {
        Some(declared_value(text.skip(legacy_name_key().len() as int)))
    } else {
        None
    }
}

/// The name that a configuration declares: that of its first line that declares one.
pub open spec fn declared_name(content: Seq<char>) -> Option<Seq<char>>
    decreases content.len(),
{
    let n = leading_run(content, CharClass::Except('\n')) as int;
    match line_declaration(content.take(n)) {
        Some(name) => Some(name),
        None => if n < content.len() {
            declared_name(content.skip(n + 1))
        } else {
            None
        },
    }
}

/// The view of an optional string.
pub open spec fn text_of(s: Option<String>) -> Option<Seq<char>> {
    match s {
        Some(s) => Some(s@),
        None => None,
    }
}

/// The name of a project: the declared one where there is one, else the directory's name,
/// else the stem of the configuration file's name, else `fallback`; in each case with
/// every dot turned into a hyphen.
pub open spec fn resolved_name(
    declared: Option<Seq<char>>,
    dir_name: Option<Seq<char>>,
    stem: Option<Seq<char>>,
    fallback: Seq<char>,
) -> Seq<char> {
    hyphenated(
        match declared {
            Some(name) => name,
            None => match dir_name {
                Some(name) => name,
                None => match stem {
                    Some(name) => name,
                    None => fallback,
                },
            },
        },
    )
}

/// `declared_value` for a text whose white space is marked.
pub open spec fn declared_value_marked(rest: Seq<(char, bool)>) -> Seq<char> {
    hyphenated(stripped(letters(marked_stripped(rest)), CharClass::Quoting))
}

/// `line_declaration` for a line whose white space is marked.
pub open spec fn line_declaration_marked(line: Seq<(char, bool)>) -> Option<Seq<char>> {
    let text = marked_stripped(line);
    if occurs_at(letters(text), name_key(), 0) {
        Some(declared_value_marked(text.skip(name_key().len() as int)))
    } else if occurs_at(letters(text), legacy_name_key(), 0) {
        Some(declared_value_marked(text.skip(legacy_name_key().len() as int)))
    } else {
        None
    }
}

/// `declared_name` for a configuration whose white space is marked.
pub open spec fn declared_name_marked(content: Seq<(char, bool)>) -> Option<Seq<char>>
    decreases content.len(),
{
    let n = leading_run(letters(content), CharClass::Except('\n')) as int;
    match line_declaration_marked(content.take(n)) {
        Some(name) => Some(name),
        None => if n < content.len() {
            declared_name_marked(content.skip(n + 1))
        } else {
            None
        },
    }
}

/// Marking the white space of a line and reading the marked line is reading the line.
pub proof fn lemma_line_declaration_marked(line: Seq<char>)
    ensures
        line_declaration_marked(marks(line, CharClass::Whitespace)) == line_declaration(line),
{
    let class = CharClass::Whitespace;
    let text = stripped(line, class);
    lemma_marks_stripped(line, class);
    assert(letters(marks(text, class)) =~= text);
    if occurs_at(text, name_key(), 0) {
        let rest = text.skip(name_key().len() as int);
        assert(marks(text, class).skip(name_key().len() as int) =~= marks(rest, class));
        lemma_marks_stripped(rest, class);
    } else if occurs_at(text, legacy_name_key(), 0) {
        let rest = text.skip(legacy_name_key().len() as int);
        assert(marks(text, class).skip(legacy_name_key().len() as int) =~= marks(rest, class));
        lemma_marks_stripped(rest, class);
    }
}

/// Marking the white space of a configuration and reading the marked text is reading the
/// configuration.
pub proof fn lemma_declared_name_marked(content: Seq<char>)
    ensures
        declared_name_marked(marks(content, CharClass::Whitespace)) == declared_name(content),
    decreases content.len(),
{
    let class = CharClass::Whitespace;
    let m = marks(content, class);
    let n = leading_run(content, CharClass::Except('\n')) as int;
    assert(letters(m) =~= content);
    lemma_leading_run_bounds(content, CharClass::Except('\n'));
    assert(m.take(n) =~= marks(content.take(n), class));
    lemma_line_declaration_marked(content.take(n));
    if n < content.len() {
        assert(m.skip(n + 1) =~= marks(content.skip(n + 1), class));
        lemma_declared_name_marked(content.skip(n + 1));
    }
}

/// The name that a line declares, from its characters with their white space marked.
fn line_declaration_chars(line: &Vec<(char, bool)>) -> (name: Option<Vec<char>>)
    ensures
        name is Some <==> line_declaration_marked(line@) is Some,
        name matches Some(n) ==> n@ == line_declaration_marked(line@)->0,
{
    let text = strip_marked(line);
    let chars = unmark(&text);
    let key = to_chars("name:");
    let legacy = to_chars("project_name:");
    let rest = if matches_at(&chars, &key, 0) {
        slice(&text, key.len(), text.len())
    } else if matches_at(&chars, &legacy, 0) {
        slice(&text, legacy.len(), text.len())
    } else {
        return None;
    };
    Some(hyphenate(&strip(&unmark(&strip_marked(&rest)), CharClass::Quoting)))
}

/// Reads the declared name off a configuration's text whose white space is marked.
pub fn parse_marked_name(content: &Vec<(char, bool)>) -> (name: Option<String>)
    ensures
        text_of(name) == declared_name_marked(content@),
{
    let chars = unmark(content);
    let mut start: usize = 0;
    assert(content@.skip(0) == content@);
    loop
        invariant
            start <= content.len(),
            chars@ == letters(content@),
            declared_name_marked(content@) == declared_name_marked(content@.skip(start as int)),
        decreases content.len() - start,
    {
        let ghost rest = content@.skip(start as int);
        assert(letters(rest) =~= chars@.skip(start as int));
        let n = count_leading(&chars, start, CharClass::Except('\n'));
        let line = slice(content, start, start + n);
        assert(line@ == rest.take(n as int));
        match line_declaration_chars(&line) {
            Some(name) => {
                return Some(to_string(&name));
            },
            None => {},
        }
        if start + n >= content.len() {
            return None;
        }
        assert(rest.skip(n + 1) == content@.skip(start + n + 1));
        start = start + n + 1;
    }
}

/// Reads the declared name off a configuration's text. That a text declares none is an
/// ordinary outcome: the caller then derives the name from the project's place on disk.
pub fn parse_project_name(content: &str) -> (name: Option<String>)
    ensures
        text_of(name) == declared_name(content@),
{
    proof {
        lemma_declared_name_marked(content@);
    }
    parse_marked_name(&classify(&to_chars(content), CharClass::Whitespace))
}

/// Settles the name of a project from what its configuration declares and from the names
/// that its place on disk offers.
pub fn project_name(
    declared: Option<String>,
    dir_name: Option<String>,
    stem: Option<String>,
    fallback: &str,
) -> (name: String)
    ensures
        name@ == resolved_name(text_of(declared), text_of(dir_name), text_of(stem), fallback@),
{
    let chosen = match declared {
        Some(name) => to_chars(name.as_str()),
        None => match dir_name {
            Some(name) => to_chars(name.as_str()),
            None => match stem {
                Some(name) => to_chars(name.as_str()),
                None => to_chars(fallback),
            },
        },
    };
    to_string(&hyphenate(&chosen))
}

/// No name of a project holds a dot.
pub proof fn lemma_resolved_name_has_no_dot(
    declared: Option<Seq<char>>,
    dir_name: Option<Seq<char>>,
    stem: Option<Seq<char>>,
    fallback: Seq<char>,
)
    ensures
        !resolved_name(declared, dir_name, stem, fallback).contains('.'),
{
    let name = resolved_name(declared, dir_name, stem, fallback);
    if name.contains('.') {
        let i = choose|i: int| 0 <= i < name.len() && name[i] == '.';
        assert(name[i] != '.');
    }
}

/// A name that was settled once is left as it is when it is declared again.
pub proof fn lemma_hyphenated_twice(s: Seq<char>)
    ensures
        hyphenated(hyphenated(s)) == hyphenated(s),
{
    assert(hyphenated(hyphenated(s)) =~= hyphenated(s));
}

} // verus!
