//! Expansion of `~/` and of `$NAME` references in configured paths, against an environment
//! that the caller hands in.

use vstd::prelude::*;
use crate::text::{
    classify, count_marked, leading_run, lemma_leading_run_bounds, lemma_marks_runs, letters,
    marked_leading, marks, matches_at, occurs_at, slice, to_chars, to_string, unmark, CharClass,
};

verus! {

/// A snapshot of environment variables: names and their values.
pub struct Environment {
    vars: Vec<(String, String)>,
}

/// The value that the first entry for `key` gives it.
pub open spec fn first_value(vars: Seq<(String, String)>, key: Seq<char>) -> Option<Seq<char>>
    decreases vars.len(),
{
    if vars.len() == 0 {
        None
    } else if vars[0].0@ == key {
        Some(vars[0].1@)
    } else {
        first_value(vars.drop_first(), key)
    }
}

impl View for Environment {
    type V = Map<Seq<char>, Seq<char>>;

    closed spec fn view(&self) -> Map<Seq<char>, Seq<char>> {
        Map::new(
            |key: Seq<char>| first_value(self.vars@, key) is Some,
            |key: Seq<char>| first_value(self.vars@, key)->0,
        )
    }
}

impl Environment {
    /// An environment in which no variable is set.
    pub fn new() -> (env: Environment)
        ensures
            env@ == Map::<Seq<char>, Seq<char>>::empty(),
    {
        let env = Environment { vars: Vec::new() };
        assert(env@ =~= Map::<Seq<char>, Seq<char>>::empty());
        env
    }

    /// Sets the variable `name` to `value`, replacing what it held.
    pub fn set(&mut self, name: String, value: String)
        ensures
            final(self)@ == old(self)@.insert(name@, value@),
    {
        let ghost before = self.vars@;
        self.vars.insert(0, (name, value));
        proof {
            assert(self.vars@.drop_first() == before);
            assert(final(self)@ =~= old(self)@.insert(name@, value@));
        }
    }

    /// The value of the variable `name`, where it is set.
    pub fn get(&self, name: &str) -> (value: Option<String>)
        ensures
            value is Some <==> self@.contains_key(name@),
            value matches Some(v) ==> v@ == self@[name@],
    {
        let wanted = name.to_owned();
        let mut i: usize = 0;
        assert(self.vars@.skip(0) == self.vars@);
        while i < self.vars.len()
            invariant
                i <= self.vars.len(),
                wanted@ == name@,
                first_value(self.vars@, name@) == first_value(self.vars@.skip(i as int), name@),
            decreases self.vars.len() - i,
        {
            let ghost rest = self.vars@.skip(i as int);
            assert(rest.drop_first() == self.vars@.skip(i + 1));
            assert(rest[0] == self.vars@[i as int]);
            if self.vars[i].0 == wanted {
                return Some(self.vars[i].1.clone());
            }
            i += 1;
        }
        None
    }
}

/// The name of the variable that holds the home directory.
pub open spec fn home_key() -> Seq<char> {
    "HOME"@
}

/// What a reference to the variable `name` stands for: its value where the name is not
/// empty and the variable is set, else the reference itself.
pub open spec fn reference_value(name: Seq<char>, env: Map<Seq<char>, Seq<char>>) -> Seq<char> {
    if name.len() > 0 && env.contains_key(name) {
        env[name]
    } else {
        seq!['$'] + name
    }
}

/// `s` with each `$` and the longest run of identifier characters behind it replaced by
/// what the reference stands for, read from left to right; everything else is kept, and
/// what was put in is not read again.
pub open spec fn with_variables(s: Seq<char>, env: Map<Seq<char>, Seq<char>>) -> Seq<char>
    decreases s.len(),
{
    if s.len() == 0 {
        s
    } else if s[0] == '$' {
        let n = leading_run(s.skip(1), CharClass::Identifier) as int;
        if n < s.len() {
            reference_value(s.subrange(1, 1 + n), env) + with_variables(s.skip(1 + n), env)
        } else {
            s
        }
    } else {
        seq![s[0]] + with_variables(s.skip(1), env)
    }
}

/// The expansion of a configured path, read once from left to right: a leading `~`, where
/// `/` follows it and the home directory is known, becomes the home directory, and each
/// reference to a variable in the rest becomes what it stands for. The home directory is
/// put in as it is, like the value of any variable.
pub open spec fn expanded(path: Seq<char>, env: Map<Seq<char>, Seq<char>>) -> Seq<char> {
    if occurs_at(path, "~/"@, 0) && env.contains_key(home_key()) {
        env[home_key()] + with_variables(path.skip(1), env)
    } else {
        with_variables(path, env)
    }
}

/// `with_variables` for a text whose identifier characters are marked.
pub open spec fn variables_marked(s: Seq<(char, bool)>, env: Map<Seq<char>, Seq<char>>) -> Seq<
    char,
>
    decreases s.len(),
{
    if s.len() == 0 {
        Seq::empty()
    } else if s[0].0 == '$' {
        let n = marked_leading(s.skip(1)) as int;
        if n < s.len() {
            reference_value(letters(s.subrange(1, 1 + n)), env) + variables_marked(
                s.skip(1 + n),
                env,
            )
        } else {
            letters(s)
        }
    } else {
        seq![s[0].0] + variables_marked(s.skip(1), env)
    }
}

/// `expanded` for a path whose identifier characters are marked.
pub open spec fn expanded_marked(path: Seq<(char, bool)>, env: Map<Seq<char>, Seq<char>>) -> Seq<
    char,
> {
    if occurs_at(letters(path), "~/"@, 0) && env.contains_key(home_key()) {
        env[home_key()] + variables_marked(path.skip(1), env)
    } else {
        variables_marked(path, env)
    }
}

/// Marking the identifier characters of a text and expanding the marked text is
/// expanding the text.
pub proof fn lemma_variables_marked(s: Seq<char>, env: Map<Seq<char>, Seq<char>>)
    ensures
        variables_marked(marks(s, CharClass::Identifier), env) == with_variables(s, env),
    decreases s.len(),
{
    let m = marks(s, CharClass::Identifier);
    if s.len() == 0 {
        assert(s =~= Seq::<char>::empty());
    } else if s[0] == '$' {
        let n = leading_run(s.skip(1), CharClass::Identifier) as int;
        assert(m.skip(1) =~= marks(s.skip(1), CharClass::Identifier));
        lemma_marks_runs(s.skip(1), CharClass::Identifier);
        assert(letters(m.subrange(1, 1 + n)) =~= s.subrange(1, 1 + n));
        assert(m.skip(1 + n) =~= marks(s.skip(1 + n), CharClass::Identifier));
        lemma_variables_marked(s.skip(1 + n), env);
    } else {
        assert(m.skip(1) =~= marks(s.skip(1), CharClass::Identifier));
        lemma_variables_marked(s.skip(1), env);
    }
}

/// Marking the identifier characters of a path and expanding the marked path is
/// expanding the path.
pub proof fn lemma_expanded_marked(path: Seq<char>, env: Map<Seq<char>, Seq<char>>)
    ensures
        expanded_marked(marks(path, CharClass::Identifier), env) == expanded(path, env),
{
    reveal_strlit("~/");
    let m = marks(path, CharClass::Identifier);
    assert(letters(m) =~= path);
    lemma_variables_marked(path, env);
    if path.len() > 0 {
        assert(m.skip(1) =~= marks(path.skip(1), CharClass::Identifier));
        lemma_variables_marked(path.skip(1), env);
    }
}

/// Appends the characters of `tail` to `out`.
fn append(out: &mut Vec<char>, tail: &Vec<char>)
    ensures
        final(out)@ == old(out)@ + tail@,
{
    let mut i: usize = 0;
    while i < tail.len()
        invariant
            i <= tail.len(),
            out@ == old(out)@ + tail@.take(i as int),
        decreases tail.len() - i,
    {
        out.push(tail[i]);
        assert(out@ =~= old(out)@ + tail@.take(i + 1));
        i += 1;
    }
    assert(tail@.take(tail.len() as int) == tail@);
}

/// Expands the references to variables in a text whose identifier characters are marked.
pub fn expand_variables(chars: &Vec<(char, bool)>, env: &Environment) -> (out: Vec<char>)
    ensures
        out@ == variables_marked(chars@, env@),
{
    let mut out: Vec<char> = Vec::new();
    let mut i: usize = 0;
    assert(chars@.skip(0) == chars@);
    while i < chars.len()
        invariant
            i <= chars.len(),
            variables_marked(chars@, env@) == out@ + variables_marked(chars@.skip(i as int), env@),
        decreases chars.len() - i,
    {
        let ghost rest = chars@.skip(i as int);
        let ghost before = out@;
        if chars[i].0 == '$' {
            let n = count_marked(chars, i + 1);
            let name = unmark(&slice(chars, i + 1, i + 1 + n));
            proof {
                assert(rest.skip(1) == chars@.skip(i + 1));
                assert(rest.subrange(1, 1 + n) == chars@.subrange(i + 1, i + 1 + n));
                assert(rest.skip(1 + n) == chars@.skip(i + 1 + n));
            }
            let value = if n > 0 {
                env.get(to_string(&name).as_str())
            } else {
                None
            };
            match value {
                Some(v) => {
                    append(&mut out, &to_chars(v.as_str()));
                },
                None => {
                    out.push('$');
                    append(&mut out, &name);
                    assert(out@ =~= before + (seq!['$'] + name@));
                },
            }
            assert(out@ == before + reference_value(name@, env@));
            assert(before + (reference_value(name@, env@) + variables_marked(
                rest.skip(1 + n),
                env@,
            )) =~= out@ + variables_marked(rest.skip(1 + n), env@));
            i = i + 1 + n;
        } else {
            out.push(chars[i].0);
            assert(rest.skip(1) == chars@.skip(i + 1));
            assert(before + (seq![rest[0].0] + variables_marked(rest.skip(1), env@)) =~= out@
                + variables_marked(rest.skip(1), env@));
            i += 1;
        }
    }
    assert(out@ + Seq::<char>::empty() =~= out@);
    out
}

/// Expands a path whose identifier characters are marked: the characters that a
/// variable's name is made of.
pub fn expand_marked(path: &Vec<(char, bool)>, env: &Environment) -> (out: String)
    ensures
        out@ == expanded_marked(path@, env@),
{
    let tilde = to_chars("~/");
    if matches_at(&unmark(path), &tilde, 0) {
        proof {
            reveal_strlit("~/");
        }
        match env.get("HOME") {
            Some(home) => {
                let mut out = to_chars(home.as_str());
                let rest = slice(path, 1, path.len());
                assert(rest@ == path@.skip(1));
                append(&mut out, &expand_variables(&rest, env));
                return to_string(&out);
            },
            None => {},
        }
    }
    to_string(&expand_variables(path, env))
}

/// Expands a configured path: a leading `~/` becomes the home directory followed by `/`,
/// and each `$NAME` becomes the value of the variable `NAME`. A reference that cannot be
/// resolved stays as it is written, so the expansion never fails. What is put in is not
/// read again.
pub fn expand_path(path: &str, env: &Environment) -> (out: String)
    ensures
        out@ == expanded(path@, env@),
{
    proof {
        lemma_expanded_marked(path@, env@);
    }
    expand_marked(&classify(&to_chars(path), CharClass::Identifier), env)
}

/// Where no reference can be resolved, expanding the variables changes nothing.
pub proof fn lemma_unresolved_variables_stay(s: Seq<char>, env: Map<Seq<char>, Seq<char>>)
    requires
        env == Map::<Seq<char>, Seq<char>>::empty(),
    ensures
        with_variables(s, env) == s,
    decreases s.len(),
{
    if s.len() == 0 {
    } else if s[0] == '$' {
        let n = leading_run(s.skip(1), CharClass::Identifier) as int;
        lemma_leading_run_bounds(s.skip(1), CharClass::Identifier);
        lemma_unresolved_variables_stay(s.skip(1 + n), env);
        assert(seq!['$'] + s.subrange(1, 1 + n) + s.skip(1 + n) =~= s);
    } else {
        lemma_unresolved_variables_stay(s.skip(1), env);
        assert(seq![s[0]] + s.skip(1) =~= s);
    }
}

/// With no variable set at all, a path is its own expansion.
pub proof fn lemma_expansion_without_environment(path: Seq<char>)
    ensures
        expanded(path, Map::<Seq<char>, Seq<char>>::empty()) == path,
{
    lemma_unresolved_variables_stay(path, Map::<Seq<char>, Seq<char>>::empty());
}

/// A text without any `$` is left as it is by the expansion of the variables.
pub proof fn lemma_plain_text_stays(s: Seq<char>, env: Map<Seq<char>, Seq<char>>)
    requires
        !s.contains('$'),
    ensures
        with_variables(s, env) == s,
    decreases s.len(),
{
    if s.len() > 0 {
        assert(s[0] != '$');
        let t = s.skip(1);
        assert forall|i: int| 0 <= i < t.len() implies t[i] != '$' by {
            assert(t[i] == s[i + 1]);
        }
        lemma_plain_text_stays(t, env);
        assert(seq![s[0]] + t =~= s);
    }
}

} // verus!
