//! Paths as `/`-separated strings: the last component, its stem and extension, and joining.

use vstd::prelude::*;
use crate::text::{
    count_trailing, lemma_trailing_run_bounds, slice, to_chars, to_string, trailing_run, CharClass,
};

verus! {

/// The one-character sequence `.`: the component that stands for the directory itself.
pub open spec fn dot() -> Seq<char> {
    seq!['.']
}

/// The sequence `..`: the component that stands for the parent directory.
pub open spec fn dot_dot() -> Seq<char> {
    seq!['.', '.']
}

/// `path` without its trailing separators.
pub open spec fn without_trailing_separators(path: Seq<char>) -> Seq<char> {
    path.take(path.len() - trailing_run(path, CharClass::Only('/')))
}

/// Where the last component of `path` starts, once trailing separators are dropped.
pub open spec fn last_component_start(path: Seq<char>) -> int {
    let body = without_trailing_separators(path);
    body.len() - trailing_run(body, CharClass::Except('/'))
}

/// The final component of `path`: the last one that is neither empty nor `.`.
/// There is none where the path has no such component or where it is `..`.
pub open spec fn file_name(path: Seq<char>) -> Option<Seq<char>>
    decreases path.len(),
{
    let body = without_trailing_separators(path);
    let start = last_component_start(path);
    let last = body.skip(start);
    if 0 <= start < body.len() <= path.len() {
        if last == dot() {
            file_name(body.take(start))
        } else if last == dot_dot() {
            None
        } else {
            Some(last)
        }
    } else {
        None
    }
}

/// Index of the last dot of `name`, or -1 where it has none.
pub open spec fn last_dot(name: Seq<char>) -> int {
    name.len() - trailing_run(name, CharClass::Except('.')) - 1
}

/// The part of a file name after its final dot. A name without a dot, or whose only dot
/// comes first, has no extension.
pub open spec fn name_extension(name: Seq<char>) -> Option<Seq<char>> {
    if last_dot(name) <= 0 {
        None
    } else {
        Some(name.skip(last_dot(name) + 1))
    }
}

/// The part of a file name before its final dot; the whole name where it has no dot or its
/// only dot comes first.
pub open spec fn name_stem(name: Seq<char>) -> Seq<char> {
    if last_dot(name) <= 0 {
        name
    } else {
        name.take(last_dot(name))
    }
}

/// The extension of the final component of `path`.
pub open spec fn extension(path: Seq<char>) -> Option<Seq<char>> {
    match file_name(path) {
        Some(name) => name_extension(name),
        None => None,
    }
}

/// The stem of the final component of `path`.
pub open spec fn file_stem(path: Seq<char>) -> Option<Seq<char>> {
    match file_name(path) {
        Some(name) => Some(name_stem(name)),
        None => None,
    }
}

/// `dir` with the relative name `name` adjoined: a separator comes between them unless
/// `dir` is empty or ends with one.
pub open spec fn joined(dir: Seq<char>, name: Seq<char>) -> Seq<char> {
    if dir.len() == 0 || dir.last() == '/' {
        dir + name
    } else {
        dir.push('/') + name
    }
}

/// The final component of `path`, from its characters.
pub fn file_name_chars(path: &Vec<char>) -> (name: Option<Vec<char>>)
    ensures
        name is Some <==> file_name(path@) is Some,
        name matches Some(n) ==> n@ == file_name(path@)->0,
{
    let mut end: usize = path.len();
    assert(path@.take(end as int) == path@);
    loop
        invariant
            end <= path.len(),
            file_name(path@) == file_name(path@.take(end as int)),
        decreases end,
    {
        let ghost whole = path@.take(end as int);
        let slashes = count_trailing(path, end, CharClass::Only('/'));
        let body_end = end - slashes;
        let run = count_trailing(path, body_end, CharClass::Except('/'));
        let start = body_end - run;
        proof {
            assert(without_trailing_separators(whole) == path@.take(body_end as int));
            assert(last_component_start(whole) == start);
            lemma_trailing_run_bounds(whole, CharClass::Only('/'));
        }
        if run == 0 {
            return None;
        }
        let last = slice(path, start, body_end);
        assert(last@ == path@.take(body_end as int).skip(start as int));
        if last.len() == 1 && last[0] == '.' {
            assert(last@ =~= dot());
            assert(path@.take(body_end as int).take(start as int) == path@.take(start as int));
            end = start;
        } else if last.len() == 2 && last[0] == '.' && last[1] == '.' {
            assert(last@ =~= dot_dot());
            return None;
        } else {
            assert(last@ != dot()) by {
                if last@ == dot() {
                    assert(last@.len() == 1 && last@[0] == '.');
                }
            }
            assert(last@ != dot_dot()) by {
                if last@ == dot_dot() {
                    assert(last@.len() == 2 && last@[0] == '.' && last@[1] == '.');
                }
            }
            return Some(last);
        }
    }
}

/// The extension of a file name, from its characters.
pub fn name_extension_chars(name: &Vec<char>) -> (ext: Option<Vec<char>>)
    ensures
        ext is Some <==> name_extension(name@) is Some,
        ext matches Some(e) ==> e@ == name_extension(name@)->0,
{
    let run = count_trailing(name, name.len(), CharClass::Except('.'));
    assert(name@.take(name.len() as int) == name@);
    if name.len() - run <= 1 {
        None
    } else {
        Some(slice(name, name.len() - run, name.len()))
    }
}

/// The stem of a file name, from its characters.
pub fn name_stem_chars(name: &Vec<char>) -> (stem: Vec<char>)
    ensures
        stem@ == name_stem(name@),
{
    let run = count_trailing(name, name.len(), CharClass::Except('.'));
    assert(name@.take(name.len() as int) == name@);
    if name.len() - run <= 1 {
        assert(name@.subrange(0, name.len() as int) == name@);
        slice(name, 0, name.len())
    } else {
        slice(name, 0, name.len() - run - 1)
    }
}

/// `dir` with the relative name `name` adjoined, from their characters.
pub fn join_chars(dir: &Vec<char>, name: &Vec<char>) -> (path: Vec<char>)
    ensures
        path@ == joined(dir@, name@),
{
    let mut path: Vec<char> = slice(dir, 0, dir.len());
    assert(path@ == dir@) by {
        assert(dir@.subrange(0, dir.len() as int) == dir@);
    }
    if dir.len() > 0 && dir[dir.len() - 1] != '/' {
        path.push('/');
    }
    let ghost head = path@;
    let mut i: usize = 0;
    while i < name.len()
        invariant
            i <= name.len(),
            path@ == head + name@.take(i as int),
        decreases name.len() - i,
    {
        path.push(name[i]);
        assert(path@ =~= head + name@.take(i + 1));
        i += 1;
    }
    assert(name@.take(name.len() as int) == name@);
    path
}

/// The final component of `path`.
pub fn file_name_of(path: &str) -> (name: Option<String>)
    ensures
        name is Some <==> file_name(path@) is Some,
        name matches Some(n) ==> n@ == file_name(path@)->0,
{
    match file_name_chars(&to_chars(path)) {
        Some(n) => Some(to_string(&n)),
        None => None,
    }
}

/// The extension of the final component of `path`.
pub fn extension_of(path: &str) -> (ext: Option<String>)
    ensures
        ext is Some <==> extension(path@) is Some,
        ext matches Some(e) ==> e@ == extension(path@)->0,
{
    match file_name_chars(&to_chars(path)) {
        Some(n) => match name_extension_chars(&n) {
            Some(e) => Some(to_string(&e)),
            None => None,
        },
        None => None,
    }
}

/// The stem of the final component of `path`.
pub fn file_stem_of(path: &str) -> (stem: Option<String>)
    ensures
        stem is Some <==> file_stem(path@) is Some,
        stem matches Some(s) ==> s@ == file_stem(path@)->0,
{
    match file_name_chars(&to_chars(path)) {
        Some(n) => Some(to_string(&name_stem_chars(&n))),
        None => None,
    }
}

/// `dir` with the relative name `name` adjoined.
pub fn join(dir: &str, name: &str) -> (path: String)
    ensures
        path@ == joined(dir@, name@),
{
    to_string(&join_chars(&to_chars(dir), &to_chars(name)))
}

} // verus!
