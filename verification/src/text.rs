//! Character-level groundwork: strings as sequences of characters.

use vstd::prelude::*;

verus! {

broadcast use vstd::string::group_string_axioms;

/// Whether `c` is alphanumeric in the sense of Unicode, as `char::is_alphanumeric` reports it.
pub uninterp spec fn unicode_alphanumeric(c: char) -> bool;

/// Whether `c` is white space in the sense of Unicode, as `char::is_whitespace` reports it.
pub uninterp spec fn unicode_whitespace(c: char) -> bool;

/// Calls `char::is_alphanumeric`. The classification is a table of the Unicode standard;
/// the contract only gives it a name.
#[verifier::external_body]
pub(crate) fn is_alphanumeric(c: char) -> (b: bool)
    ensures
        b == unicode_alphanumeric(c),
{
    c.is_alphanumeric()
}

/// Calls `char::is_whitespace`. The classification is a table of the Unicode standard;
/// the contract only gives it a name.
#[verifier::external_body]
pub(crate) fn is_whitespace(c: char) -> (b: bool)
    ensures
        b == unicode_whitespace(c),
{
    c.is_whitespace()
}

/// The text in lower case in the sense of Unicode, as `str::to_lowercase` returns it.
pub uninterp spec fn lowercase(s: Seq<char>) -> Seq<char>;

/// Calls `str::to_lowercase`. The mapping is a table of the Unicode standard; the contract
/// only gives it a name.
#[verifier::external_body]
pub(crate) fn to_lowercase(s: &str) -> (lower: String)
    ensures
        lower@ == lowercase(s@),
{
    s.to_lowercase()
}

/// Calls `String::push`, which appends one character at the end of the string.
#[verifier::external_body]
pub(crate) fn push_char(s: &mut String, c: char)
    ensures
        final(s)@ == old(s)@.push(c),
{
    s.push(c)
}

/// The characters of `s`, in order.
pub fn to_chars(s: &str) -> (chars: Vec<char>)
    ensures
        chars@ == s@,
{
    let mut chars: Vec<char> = Vec::new();
    for c in it: s.chars()
        invariant
            it.seq() == s@,
            chars@ == it.seq().take(it.index()),
    {
        chars.push(c);
    }
    chars
}

/// The string made of `chars`, in order.
pub fn to_string(chars: &Vec<char>) -> (s: String)
    ensures
        s@ == chars@,
{
    let mut s = String::new();
    let mut i: usize = 0;
    while i < chars.len()
        invariant
            i <= chars.len(),
            s@ == chars@.take(i as int),
        decreases chars.len() - i,
    {
        push_char(&mut s, chars[i]);
        i += 1;
    }
    s
}

/// The character classes that the engine's scanners tell apart.
#[derive(Clone, Copy, Debug, PartialEq, Eq, Structural)]
pub enum CharClass {
    /// Unicode white space.
    Whitespace,
    /// A double quote or a dot: what may surround a declared name.
    Quoting,
    /// Alphanumeric or underscore: what a variable's name is made of.
    Identifier,
    /// The one character given.
    Only(char),
    /// Every character but the one given.
    Except(char),
}

impl CharClass {
    /// Whether `c` belongs to the class.
    pub open spec fn contains(self, c: char) -> bool {
        match self {
            CharClass::Whitespace => unicode_whitespace(c),
            CharClass::Quoting => c == '"' || c == '.',
            CharClass::Identifier => unicode_alphanumeric(c) || c == '_',
            CharClass::Only(x) => c == x,
            CharClass::Except(x) => c != x,
        }
    }

    /// Tests whether `c` belongs to the class.
    pub fn test(self, c: char) -> (b: bool)
        ensures
            b == self.contains(c),
    {
        match self {
            CharClass::Whitespace => is_whitespace(c),
            CharClass::Quoting => c == '"' || c == '.',
            CharClass::Identifier => c == '_' || is_alphanumeric(c),
            CharClass::Only(x) => c == x,
            CharClass::Except(x) => c != x,
        }
    }
}

/// Length of the longest prefix of `s` made of characters of `class`.
pub open spec fn leading_run(s: Seq<char>, class: CharClass) -> nat
    decreases s.len(),
{
    if s.len() > 0 && class.contains(s[0]) {
        1 + leading_run(s.drop_first(), class)
    } else {
        0
    }
}

/// Length of the longest suffix of `s` made of characters of `class`.
pub open spec fn trailing_run(s: Seq<char>, class: CharClass) -> nat
    decreases s.len(),
{
    if s.len() > 0 && class.contains(s.last()) {
        1 + trailing_run(s.drop_last(), class)
    } else {
        0
    }
}

/// `s` without its leading characters of `class`.
pub open spec fn stripped_start(s: Seq<char>, class: CharClass) -> Seq<char> {
    s.skip(leading_run(s, class) as int)
}

/// `s` without its leading and then its trailing characters of `class`.
pub open spec fn stripped(s: Seq<char>, class: CharClass) -> Seq<char> {
    let t = stripped_start(s, class);
    t.take(t.len() - trailing_run(t, class))
}

/// A run of `n` class members followed by a non-member, or by the end, is the leading run.
pub proof fn lemma_leading_run(s: Seq<char>, class: CharClass, n: int)
    requires
        0 <= n <= s.len(),
        forall|k: int| 0 <= k < n ==> class.contains(#[trigger] s[k]),
        n == s.len() || !class.contains(s[n]),
    ensures
        leading_run(s, class) == n,
    decreases n,
{
    if n > 0 {
        let t = s.drop_first();
        assert forall|k: int| 0 <= k < n - 1 implies class.contains(#[trigger] t[k]) by {
            assert(t[k] == s[k + 1]);
        }
        lemma_leading_run(t, class, n - 1);
    }
}

/// A run of `n` class members preceded by a non-member, or by the start, is the trailing run.
pub proof fn lemma_trailing_run(s: Seq<char>, class: CharClass, n: int)
    requires
        0 <= n <= s.len(),
        forall|k: int| s.len() - n <= k < s.len() ==> class.contains(#[trigger] s[k]),
        n == s.len() || !class.contains(s[s.len() - n - 1]),
    ensures
        trailing_run(s, class) == n,
    decreases n,
{
    if n > 0 {
        let t = s.drop_last();
        assert forall|k: int| t.len() - (n - 1) <= k < t.len() implies class.contains(
            #[trigger] t[k],
        ) by {
            assert(t[k] == s[k]);
        }
        lemma_trailing_run(t, class, n - 1);
    }
}

/// The leading run is a run, and it is maximal.
pub proof fn lemma_leading_run_bounds(s: Seq<char>, class: CharClass)
    ensures
        leading_run(s, class) <= s.len(),
        forall|k: int| 0 <= k < leading_run(s, class) ==> class.contains(#[trigger] s[k]),
        leading_run(s, class) < s.len() ==> !class.contains(s[leading_run(s, class) as int]),
    decreases s.len(),
{
    if s.len() > 0 && class.contains(s[0]) {
        let t = s.drop_first();
        lemma_leading_run_bounds(t, class);
        assert forall|k: int| 0 <= k < leading_run(s, class) implies class.contains(
            #[trigger] s[k],
        ) by {
            if k > 0 {
                assert(s[k] == t[k - 1]);
            }
        }
        if leading_run(s, class) < s.len() {
            assert(s[leading_run(s, class) as int] == t[leading_run(t, class) as int]);
        }
    }
}

/// The trailing run is never longer than the sequence.
pub proof fn lemma_trailing_run_bounds(s: Seq<char>, class: CharClass)
    ensures
        trailing_run(s, class) <= s.len(),
    decreases s.len(),
{
    if s.len() > 0 && class.contains(s.last()) {
        lemma_trailing_run_bounds(s.drop_last(), class);
    }
}

/// The items of `v` from `from` up to, not including, `to`.
pub fn slice<T: Copy>(v: &Vec<T>, from: usize, to: usize) -> (part: Vec<T>)
    requires
        from <= to <= v.len(),
    ensures
        part@ == v@.subrange(from as int, to as int),
{
    let mut part: Vec<T> = Vec::new();
    let mut i: usize = from;
    while i < to
        invariant
            from <= i <= to <= v.len(),
            part@ == v@.subrange(from as int, i as int),
        decreases to - i,
    {
        part.push(v[i]);
        i += 1;
    }
    part
}

/// Counts the characters of `class` that `v` holds from index `from` on, up to the first
/// character outside the class.
pub fn count_leading(v: &Vec<char>, from: usize, class: CharClass) -> (n: usize)
    requires
        from <= v.len(),
    ensures
        n == leading_run(v@.skip(from as int), class),
        from + n <= v.len(),
{
    let mut i: usize = from;
    while i < v.len() && class.test(v[i])
        invariant
            from <= i <= v.len(),
            forall|k: int| from <= k < i ==> class.contains(#[trigger] v@[k]),
        decreases v.len() - i,
    {
        i += 1;
    }
    proof {
        let s = v@.skip(from as int);
        assert forall|k: int| 0 <= k < i - from implies class.contains(#[trigger] s[k]) by {
            assert(s[k] == v@[from + k]);
        }
        lemma_leading_run(s, class, i - from);
    }
    i - from
}

/// Counts the characters of `class` at the end of the first `to` characters of `v`.
pub fn count_trailing(v: &Vec<char>, to: usize, class: CharClass) -> (n: usize)
    requires
        to <= v.len(),
    ensures
        n == trailing_run(v@.take(to as int), class),
        n <= to,
{
    let mut i: usize = to;
    while i > 0 && class.test(v[i - 1])
        invariant
            i <= to <= v.len(),
            forall|k: int| i <= k < to ==> class.contains(#[trigger] v@[k]),
        decreases i,
    {
        i -= 1;
    }
    proof {
        let s = v@.take(to as int);
        assert forall|k: int| s.len() - (to - i) <= k < s.len() implies class.contains(
            #[trigger] s[k],
        ) by {
            assert(s[k] == v@[k]);
        }
        lemma_trailing_run(s, class, to - i);
    }
    to - i
}

/// `v` without its leading and then its trailing characters of `class`.
pub fn strip(v: &Vec<char>, class: CharClass) -> (r: Vec<char>)
    ensures
        r@ == stripped(v@, class),
{
    let lead = count_leading(v, 0, class);
    assert(v@.skip(0) == v@);
    let rest = slice(v, lead, v.len());
    assert(rest@ == stripped_start(v@, class));
    let trail = count_trailing(&rest, rest.len(), class);
    assert(rest@.take(rest.len() as int) == rest@);
    slice(&rest, 0, rest.len() - trail)
}

/// Whether `s` holds `pattern` at index `at`.
pub open spec fn occurs_at(s: Seq<char>, pattern: Seq<char>, at: int) -> bool {
    0 <= at && at + pattern.len() <= s.len() && s.subrange(at, at + pattern.len()) == pattern
}

/// Tests whether `v` holds `pattern` at index `at`.
pub fn matches_at(v: &Vec<char>, pattern: &Vec<char>, at: usize) -> (b: bool)
    ensures
        b == occurs_at(v@, pattern@, at as int),
{
    if at > v.len() || pattern.len() > v.len() - at {
        return false;
    }
    let mut i: usize = 0;
    while i < pattern.len()
        invariant
            i <= pattern.len(),
            at + pattern.len() <= v.len(),
            forall|k: int| 0 <= k < i ==> v@[at + k] == pattern@[k],
        decreases pattern.len() - i,
    {
        if v[at + i] != pattern[i] {
            proof {
                let w = v@.subrange(at as int, at + pattern.len());
                assert(w[i as int] == v@[at + i]);
            }
            return false;
        }
        i += 1;
    }
    assert(v@.subrange(at as int, at + pattern.len()) =~= pattern@);
    true
}

/// `s` with every dot turned into a hyphen.
pub open spec fn hyphenated(s: Seq<char>) -> Seq<char> {
    s.map_values(|c: char| if c == '.' { '-' } else { c })
}

/// `v` with every dot turned into a hyphen.
pub fn hyphenate(v: &Vec<char>) -> (r: Vec<char>)
    ensures
        r@ == hyphenated(v@),
{
    let mut r: Vec<char> = Vec::new();
    let mut i: usize = 0;
    while i < v.len()
        invariant
            i <= v.len(),
            r@ == hyphenated(v@.take(i as int)),
        decreases v.len() - i,
    {
        let c = v[i];
        r.push(if c == '.' { '-' } else { c });
        assert(r@ =~= hyphenated(v@.take(i + 1)));
        i += 1;
    }
    assert(v@.take(v.len() as int) == v@);
    r
}

/// Whether two strings hold the same text.
pub fn same_text(a: &str, b: &str) -> (same: bool)
    ensures
        same == (a@ == b@),
{
    a.to_owned() == b.to_owned()
}

/// The first index from `from` on at which `s` holds `pattern`, if there is one.
pub open spec fn search(s: Seq<char>, pattern: Seq<char>, from: int) -> Option<int>
    decreases s.len() + 1 - from,
{
    if from < 0 || from + pattern.len() > s.len() {
        None
    } else if occurs_at(s, pattern, from) {
        Some(from)
    } else {
        search(s, pattern, from + 1)
    }
}

/// Whether `s` holds `pattern` somewhere.
pub open spec fn holds(s: Seq<char>, pattern: Seq<char>) -> bool {
    search(s, pattern, 0) is Some
}

/// What `search` finds is the first occurrence from `from` on; it finds none only where
/// there is none.
pub proof fn lemma_search(s: Seq<char>, pattern: Seq<char>, from: int)
    requires
        0 <= from,
    ensures
        search(s, pattern, from) matches Some(at) ==> from <= at && occurs_at(s, pattern, at)
            && forall|k: int| from <= k < at ==> !occurs_at(s, pattern, k),
        search(s, pattern, from) is None ==> forall|k: int| from <= k ==> !occurs_at(s, pattern, k),
    decreases s.len() + 1 - from,
{
    if from + pattern.len() <= s.len() && !occurs_at(s, pattern, from) {
        lemma_search(s, pattern, from + 1);
    }
}

/// Finds the first index from `from` on at which `v` holds `pattern`.
pub fn find(v: &Vec<char>, pattern: &Vec<char>, from: usize) -> (at: Option<usize>)
    ensures
        at is Some <==> search(v@, pattern@, from as int) is Some,
        at matches Some(i) ==> search(v@, pattern@, from as int) == Some(i as int) && occurs_at(
            v@,
            pattern@,
            i as int,
        ),
{
    let mut i: usize = from;
    while i <= v.len() && pattern.len() <= v.len() - i
        invariant
            from <= i,
            search(v@, pattern@, from as int) == search(v@, pattern@, i as int),
        decreases v.len() + 1 - i,
    {
        if matches_at(v, pattern, i) {
            return Some(i);
        }
        if i == v.len() {
            assert(search(v@, pattern@, i + 1) is None);
            return None;
        }
        i += 1;
    }
    None
}

/// A text with each character marked as a member of a class or not.
pub open spec fn marks(s: Seq<char>, class: CharClass) -> Seq<(char, bool)> {
    s.map_values(|c: char| (c, class.contains(c)))
}

/// The characters of a marked text.
pub open spec fn letters(s: Seq<(char, bool)>) -> Seq<char> {
    s.map_values(|m: (char, bool)| m.0)
}

/// Length of the longest prefix of `s` made of marked characters.
pub open spec fn marked_leading(s: Seq<(char, bool)>) -> nat
    decreases s.len(),
{
    if s.len() > 0 && s[0].1 {
        1 + marked_leading(s.drop_first())
    } else {
        0
    }
}

/// Length of the longest suffix of `s` made of marked characters.
pub open spec fn marked_trailing(s: Seq<(char, bool)>) -> nat
    decreases s.len(),
{
    if s.len() > 0 && s.last().1 {
        1 + marked_trailing(s.drop_last())
    } else {
        0
    }
}

/// `s` without its leading and then its trailing marked characters.
pub open spec fn marked_stripped(s: Seq<(char, bool)>) -> Seq<(char, bool)> {
    let t = s.skip(marked_leading(s) as int);
    t.take(t.len() - marked_trailing(t))
}

/// A run of `n` marked characters followed by an unmarked one, or by the end, is the
/// leading run.
pub proof fn lemma_marked_leading(s: Seq<(char, bool)>, n: int)
    requires
        0 <= n <= s.len(),
        forall|k: int| 0 <= k < n ==> (#[trigger] s[k]).1,
        n == s.len() || !s[n].1,
    ensures
        marked_leading(s) == n,
    decreases n,
{
    if n > 0 {
        let t = s.drop_first();
        assert forall|k: int| 0 <= k < n - 1 implies (#[trigger] t[k]).1 by {
            assert(t[k] == s[k + 1]);
        }
        lemma_marked_leading(t, n - 1);
    }
}

/// A run of `n` marked characters preceded by an unmarked one, or by the start, is the
/// trailing run.
pub proof fn lemma_marked_trailing(s: Seq<(char, bool)>, n: int)
    requires
        0 <= n <= s.len(),
        forall|k: int| s.len() - n <= k < s.len() ==> (#[trigger] s[k]).1,
        n == s.len() || !s[s.len() - n - 1].1,
    ensures
        marked_trailing(s) == n,
    decreases n,
{
    if n > 0 {
        let t = s.drop_last();
        assert forall|k: int| t.len() - (n - 1) <= k < t.len() implies (#[trigger] t[k]).1 by {
            assert(t[k] == s[k]);
        }
        lemma_marked_trailing(t, n - 1);
    }
}

/// The runs of a text marked by a class are the runs of the class.
pub proof fn lemma_marks_runs(s: Seq<char>, class: CharClass)
    ensures
        marked_leading(marks(s, class)) == leading_run(s, class),
        marked_trailing(marks(s, class)) == trailing_run(s, class),
        leading_run(s, class) <= s.len(),
        trailing_run(s, class) <= s.len(),
    decreases s.len(),
{
    if s.len() > 0 {
        assert(marks(s, class).drop_first() =~= marks(s.drop_first(), class));
        assert(marks(s, class).drop_last() =~= marks(s.drop_last(), class));
        lemma_marks_runs(s.drop_first(), class);
        lemma_marks_runs(s.drop_last(), class);
    }
}

/// Stripping a text marked by a class strips the characters of the class.
pub proof fn lemma_marks_stripped(s: Seq<char>, class: CharClass)
    ensures
        marked_stripped(marks(s, class)) == marks(stripped(s, class), class),
        letters(marked_stripped(marks(s, class))) == stripped(s, class),
{
    lemma_marks_runs(s, class);
    let t = stripped_start(s, class);
    assert(marks(s, class).skip(leading_run(s, class) as int) =~= marks(t, class));
    lemma_marks_runs(t, class);
    assert(marks(t, class).take(t.len() - trailing_run(t, class)) =~= marks(
        stripped(s, class),
        class,
    ));
    assert(letters(marks(stripped(s, class), class)) =~= stripped(s, class));
}

/// Marks each character of `v` as a member of `class` or not.
pub fn classify(v: &Vec<char>, class: CharClass) -> (marked: Vec<(char, bool)>)
    ensures
        marked@ == marks(v@, class),
{
    let mut marked: Vec<(char, bool)> = Vec::new();
    let mut i: usize = 0;
    while i < v.len()
        invariant
            i <= v.len(),
            marked@ == marks(v@.take(i as int), class),
        decreases v.len() - i,
    {
        marked.push((v[i], class.test(v[i])));
        assert(marked@ =~= marks(v@.take(i + 1), class));
        i += 1;
    }
    assert(v@.take(v.len() as int) == v@);
    marked
}

/// The characters of a marked text.
pub fn unmark(marked: &Vec<(char, bool)>) -> (v: Vec<char>)
    ensures
        v@ == letters(marked@),
{
    let mut v: Vec<char> = Vec::new();
    let mut i: usize = 0;
    while i < marked.len()
        invariant
            i <= marked.len(),
            v@ == letters(marked@.take(i as int)),
        decreases marked.len() - i,
    {
        v.push(marked[i].0);
        assert(v@ =~= letters(marked@.take(i + 1)));
        i += 1;
    }
    assert(marked@.take(marked.len() as int) == marked@);
    v
}

/// Counts the marked characters that `v` holds from index `from` on, up to the first
/// unmarked one.
pub fn count_marked(v: &Vec<(char, bool)>, from: usize) -> (n: usize)
    requires
        from <= v.len(),
    ensures
        n == marked_leading(v@.skip(from as int)),
        from + n <= v.len(),
{
    let mut i: usize = from;
    while i < v.len() && v[i].1
        invariant
            from <= i <= v.len(),
            forall|k: int| from <= k < i ==> (#[trigger] v@[k]).1,
        decreases v.len() - i,
    {
        i += 1;
    }
    proof {
        let s = v@.skip(from as int);
        assert forall|k: int| 0 <= k < i - from implies (#[trigger] s[k]).1 by {
            assert(s[k] == v@[from + k]);
        }
        lemma_marked_leading(s, i - from);
    }
    i - from
}

/// `v` without its leading and then its trailing marked characters.
pub fn strip_marked(v: &Vec<(char, bool)>) -> (r: Vec<(char, bool)>)
    ensures
        r@ == marked_stripped(v@),
{
    let lead = count_marked(v, 0);
    assert(v@.skip(0) == v@);
    let rest = slice(v, lead, v.len());
    let mut end: usize = rest.len();
    while end > 0 && rest[end - 1].1
        invariant
            end <= rest.len(),
            forall|k: int| end <= k < rest.len() ==> (#[trigger] rest@[k]).1,
        decreases end,
    {
        end -= 1;
    }
    proof {
        lemma_marked_trailing(rest@, rest.len() - end);
    }
    slice(&rest, 0, end)
}

} // verus!
