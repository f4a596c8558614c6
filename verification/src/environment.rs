//! A snapshot of environment variables, handed to the client as a value.

use vstd::prelude::*;

verus! {

/// The variables that a list of assignments leaves set. A later assignment of
/// a name replaces an earlier one.
pub open spec fn assigned(entries: Seq<(String, String)>) -> Map<Seq<char>, Seq<char>>
    decreases entries.len(),
{
    if entries.len() == 0 {
        Map::empty()
    } else {
        assigned(entries.drop_last()).insert(entries.last().0@, entries.last().1@)
    }
}

/// A name that no assignment mentions is not set.
proof fn lemma_unassigned(entries: Seq<(String, String)>, name: Seq<char>)
    requires
        forall|j: int| 0 <= j < entries.len() ==> (#[trigger] entries[j]).0@ != name,
    ensures
        !assigned(entries).contains_key(name),
    decreases entries.len(),
{
    if entries.len() > 0 {
        let rest = entries.drop_last();
        assert(entries.last() == entries[entries.len() - 1]);
        assert forall|j: int| 0 <= j < rest.len() implies (#[trigger] rest[j]).0@ != name by {
            assert(rest[j] == entries[j]);
        }
        lemma_unassigned(rest, name);
    }
}

/// A name holds the value of its latest assignment.
proof fn lemma_latest_assignment(entries: Seq<(String, String)>, i: int, name: Seq<char>)
    requires
        0 <= i < entries.len(),
        entries[i].0@ == name,
        forall|j: int| i < j < entries.len() ==> (#[trigger] entries[j]).0@ != name,
    ensures
        assigned(entries).contains_key(name),
        assigned(entries)[name] == entries[i].1@,
    decreases entries.len(),
{
    let rest = entries.drop_last();
    assert(entries.last() == entries[entries.len() - 1]);
    if i < entries.len() - 1 {
        assert(rest[i] == entries[i]);
        assert forall|j: int| i < j < rest.len() implies (#[trigger] rest[j]).0@ != name by {
            assert(rest[j] == entries[j]);
        }
        lemma_latest_assignment(rest, i, name);
    }
}

/// Environment variables by name, as one value: a snapshot that the caller
/// takes of the process environment, or builds by hand.
#[derive(Debug, Clone)]
pub struct Environment {
    entries: Vec<(String, String)>,
}

impl View for Environment {
    type V = Map<Seq<char>, Seq<char>>;

    /// The variables that are set, each with its value.
    closed spec fn view(&self) -> Map<Seq<char>, Seq<char>> {
        assigned(self.entries@)
    }
}

impl Environment {
    /// An environment in which no variable is set.
    pub fn new() -> (env: Environment)
        ensures
            env@ == Map::<Seq<char>, Seq<char>>::empty(),
    {
        Environment { entries: Vec::new() }
    }

    /// Sets `name` to `value`, replacing the value it had, if any.
    pub fn set(&mut self, name: &str, value: &str)
        ensures
            final(self)@ == old(self)@.insert(name@, value@),
    {
        let ghost before = self.entries@;
        self.entries.push((name.to_owned(), value.to_owned()));
        proof {
            assert(self.entries@.drop_last() == before);
        }
    }

    /// The value of `name`, if it is set.
    pub fn get(&self, name: &str) -> (value: Option<String>)
        ensures
            value is Some <==> self@.contains_key(name@),
            value matches Some(v) ==> v@ == self@[name@],
    {
        let wanted = name.to_owned();
        let mut i: usize = self.entries.len();
        while i > 0
            invariant
                i <= self.entries.len(),
                wanted@ == name@,
                forall|j: int| i <= j < self.entries.len() ==> (#[trigger] self.entries@[j]).0@ != name@,
            decreases i,
        {
            i -= 1;
            if self.entries[i].0 == wanted {
                proof {
                    lemma_latest_assignment(self.entries@, i as int, name@);
                }
                return Some(self.entries[i].1.clone());
            }
        }
        proof {
            lemma_unassigned(self.entries@, name@);
        }
        None
    }
}

} // verus!
