//! The inventory of live sessions, read from the multiplexer's listing.

use vstd::prelude::*;
use vstd::utf8::{decode_utf8, valid_utf8};

verus! {

/// The names of the live sessions, as one listing reported them.
pub struct SessionSet {
    names: Vec<String>,
}

impl View for SessionSet {
    type V = Set<Seq<char>>;

    closed spec fn view(&self) -> Set<Seq<char>> {
        Set::new(|name: Seq<char>| exists|i: int| 0 <= i < self.names.len() && self.names[i]@ == name)
    }
}

impl SessionSet {
    /// No live session at all.
    pub fn new() -> (set: SessionSet)
        ensures
            set@ == Set::<Seq<char>>::empty(),
    {
        let set = SessionSet { names: Vec::new() };
        assert(set@ =~= Set::<Seq<char>>::empty());
        set
    }

    /// Adds a session name.
    pub fn insert(&mut self, name: String)
        ensures
            final(self)@ == old(self)@.insert(name@),
    {
        let ghost before = self.names@;
        self.names.push(name);
        proof {
            assert forall|n: Seq<char>| final(self)@.contains(n) <==> old(self)@.insert(
                name@,
            ).contains(n) by {
                if final(self)@.contains(n) {
                    let i = choose|i: int| 0 <= i < self.names.len() && self.names[i]@ == n;
                    if i < before.len() {
                        assert(before[i]@ == n);
                    }
                }
                if old(self)@.contains(n) {
                    let i = choose|i: int| 0 <= i < before.len() && before[i]@ == n;
                    assert(self.names[i]@ == n);
                }
                if n == name@ {
                    assert(self.names[before.len() as int]@ == n);
                }
            }
            assert(final(self)@ =~= old(self)@.insert(name@));
        }
    }

    /// Whether a session called `name` is live.
    pub fn contains(&self, name: &str) -> (found: bool)
        ensures
            found == self@.contains(name@),
    {
        let wanted = name.to_owned();
        let mut i: usize = 0;
        while i < self.names.len()
            invariant
                i <= self.names.len(),
                wanted@ == name@,
                forall|k: int| 0 <= k < i ==> self.names[k]@ != name@,
            decreases self.names.len() - i,
        {
            if self.names[i] == wanted {
                return true;
            }
            i += 1;
        }
        false
    }
}

/// What the attempt to list the sessions came to.
pub enum Listing {
    /// The multiplexer could not be run, or its output could not be read.
    Unavailable,
    /// The multiplexer ran: how it exited, and what it wrote to its standard output.
    Exited { success: bool, stdout: Vec<u8> },
}

/// Number of bytes before the first line feed of `out`, or its length where it has none.
pub open spec fn line_length(out: Seq<u8>) -> nat
    decreases out.len(),
{
    if out.len() > 0 && out[0] != 10u8 {
        1 + line_length(out.drop_first())
    } else {
        0
    }
}

/// The session names that an output lists: each line that is not empty and is valid UTF-8
/// names one.
pub open spec fn listed_sessions(out: Seq<u8>) -> Set<Seq<char>>
    decreases out.len(),
{
    let n = line_length(out) as int;
    let line = out.take(n);
    let others = if n < out.len() {
        listed_sessions(out.skip(n + 1))
    } else {
        Set::<Seq<char>>::empty()
    };
    if n > 0 && valid_utf8(line) {
        others.insert(decode_utf8(line))
    } else {
        others
    }
}

/// The live sessions after an attempt to list them: none where the attempt failed in any
/// way, else those that the output lists.
pub open spec fn inventory(listing: Listing) -> Set<Seq<char>> {
    match listing {
        Listing::Unavailable => Set::<Seq<char>>::empty(),
        Listing::Exited { success, stdout } => if success {
            listed_sessions(stdout@)
        } else {
            Set::<Seq<char>>::empty()
        },
    }
}

/// Calls `std::str::from_utf8`, which accepts exactly the byte strings that are valid UTF-8,
/// and hands back the text they encode.
#[verifier::external_body]
fn decode_line(bytes: &[u8]) -> (text: Option<String>)
    ensures
        text is Some <==> valid_utf8(bytes@),
        text matches Some(s) ==> s@ == decode_utf8(bytes@),
{
    match std::str::from_utf8(bytes) {
        Ok(s) => Some(s.to_string()),
        Err(_) => None,
    }
}

/// A line of `n` bytes free of line feeds, followed by a line feed or by the end.
proof fn lemma_line_length(out: Seq<u8>, n: int)
    requires
        0 <= n <= out.len(),
        forall|k: int| 0 <= k < n ==> #[trigger] out[k] != 10u8,
        n == out.len() || out[n] == 10u8,
    ensures
        line_length(out) == n,
    decreases n,
{
    if n > 0 {
        let t = out.drop_first();
        assert forall|k: int| 0 <= k < n - 1 implies #[trigger] t[k] != 10u8 by {
            assert(t[k] == out[k + 1]);
        }
        lemma_line_length(t, n - 1);
    }
}

/// Reads the names of the live sessions off the multiplexer's output.
pub fn parse_sessions(stdout: &Vec<u8>) -> (set: SessionSet)
    ensures
        set@ == listed_sessions(stdout@),
{
    let mut set = SessionSet::new();
    let mut start: usize = 0;
    let mut i: usize = 0;
    assert(stdout@.skip(0) == stdout@);
    while i < stdout.len()
        invariant
            start <= i <= stdout.len(),
            forall|k: int| start <= k < i ==> #[trigger] stdout@[k] != 10u8,
            listed_sessions(stdout@) == set@.union(listed_sessions(stdout@.skip(start as int))),
        decreases stdout.len() - i,
    {
        if stdout[i] == 10u8 {
            let ghost rest = stdout@.skip(start as int);
            let ghost before = set@;
            proof {
                assert forall|k: int| 0 <= k < i - start implies #[trigger] rest[k] != 10u8 by {
                    assert(rest[k] == stdout@[start + k]);
                }
                lemma_line_length(rest, i - start);
                assert(rest.skip(i - start + 1) == stdout@.skip(i + 1));
                assert(rest.take(i - start) == stdout@.subrange(start as int, i as int));
            }
            if start < i {
                let line = vstd::slice::slice_subrange(stdout.as_slice(), start, i);
                match decode_line(line) {
                    Some(name) => {
                        set.insert(name);
                    },
                    None => {},
                }
            }
            assert(before.union(listed_sessions(rest)) =~= set@.union(
                listed_sessions(stdout@.skip(i + 1)),
            ));
            start = i + 1;
        }
        i += 1;
    }
    let ghost rest = stdout@.skip(start as int);
    let ghost before = set@;
    proof {
        assert forall|k: int| 0 <= k < rest.len() implies #[trigger] rest[k] != 10u8 by {
            assert(rest[k] == stdout@[start + k]);
        }
        lemma_line_length(rest, rest.len() as int);
        assert(rest.take(rest.len() as int) == rest);
    }
    if start < stdout.len() {
        let line = vstd::slice::slice_subrange(stdout.as_slice(), start, stdout.len());
        assert(line@ == rest);
        match decode_line(line) {
            Some(name) => {
                set.insert(name);
            },
            None => {},
        }
    }
    assert(set@ =~= before.union(listed_sessions(rest)));
    set
}

/// The live sessions after an attempt to list them. A failed attempt counts as no session:
/// it never stands in the way of discovery.
pub fn session_inventory(listing: &Listing) -> (set: SessionSet)
    ensures
        set@ == inventory(*listing),
{
    match listing {
        Listing::Unavailable => SessionSet::new(),
        Listing::Exited { success, stdout } => {
            if *success {
                parse_sessions(stdout)
            } else {
                SessionSet::new()
            }
        },
    }
}

} // verus!
