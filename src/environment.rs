//! A snapshot of environment variables, as plain values.

use vstd::prelude::*;

verus! {

/// The variables defined by `entries`, a later entry overriding an earlier
/// one with the same name.
pub open spec fn bindings(entries: Seq<(String, String)>) -> Map<Seq<char>, Seq<char>>
    decreases entries.len(),
{
    if entries.len() == 0 {
        Map::empty()
    } else {
        let last = entries.last();
        bindings(entries.drop_last()).insert(last.0@, last.1@)
    }
}

/// A set of environment variables, each a name bound to a value.
///
/// Lookups see the value set last for a name.
#[derive(Clone, Debug)]
pub struct Environment {
    entries: Vec<(String, String)>,
}

impl View for Environment {
    type V = Map<Seq<char>, Seq<char>>;

    closed spec fn view(&self) -> Map<Seq<char>, Seq<char>> {
        bindings(self.entries@)
    }
}

/// Entries after `from` that do not bind `name` leave its binding as it was.
proof fn lemma_bindings_unbound_suffix(entries: Seq<(String, String)>, from: int, name: Seq<char>)
    requires
        0 <= from <= entries.len(),
        forall|k: int| from <= k < entries.len() ==> entries[k].0@ != name,
    ensures
        bindings(entries).contains_key(name) == bindings(entries.take(from)).contains_key(name),
        bindings(entries).contains_key(name) ==> bindings(entries)[name] == bindings(
            entries.take(from),
        )[name],
    decreases entries.len() - from,
{
    if from < entries.len() {
        assert(entries.drop_last().take(from) =~= entries.take(from));
        lemma_bindings_unbound_suffix(entries.drop_last(), from, name);
    } else {
        assert(entries.take(from) =~= entries);
    }
}

impl Environment {
    /// An environment with no variables.
    pub fn new() -> (r: Environment)
        ensures
            r@ == Map::<Seq<char>, Seq<char>>::empty(),
    {
        Environment { entries: Vec::new() }
    }

    /// Binds `name` to `value`, replacing any earlier value of `name`.
    pub fn set(&mut self, name: String, value: String)
        ensures
            final(self)@ == old(self)@.insert(name@, value@),
    {
        let ghost prev = self.entries@;
        self.entries.push((name, value));
        assert(self.entries@.drop_last() =~= prev);
    }

    /// The value bound to `name`, if any.
    pub fn get(&self, name: &String) -> (r: Option<&String>)
        ensures
            match r {
                Some(v) => self@.contains_key(name@) && self@[name@] == v@,
                None => !self@.contains_key(name@),
            },
    {
        let mut i: usize = self.entries.len();
        while i > 0
            invariant
                i <= self.entries.len(),
                forall|k: int| i <= k < self.entries.len() ==> self.entries@[k].0@ != name@,
            decreases i,
        {
            let entry = &self.entries[i - 1];
            if entry.0 == *name {
                proof {
                    let es = self.entries@;
                    lemma_bindings_unbound_suffix(es, i as int, name@);
                    assert(es.take(i as int).drop_last() =~= es.take(i - 1));
                }
                return Some(&entry.1);
            }
            i = i - 1;
        }
        proof {
            lemma_bindings_unbound_suffix(self.entries@, 0, name@);
        }
        None
    }
}

} // verus!
