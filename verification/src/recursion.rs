//! A bounded record of what a depth-first search is currently visiting.
//!
//! The record is a path of names, root first, together with a count of the
//! nested steps taken that carry no name. Its depth is the sum of the two
//! and never grows past a fixed limit: a step that would exceed the limit
//! is refused and leaves the record as it was.

use vstd::hash_map::StringHashMap;
use vstd::prelude::*;

verus! {

/// The depth that a search may reach unless told otherwise.
pub const DEFAULT_RECURSION_LIMIT: usize = 32;

/// The search would have gone deeper than its limit allows.
#[derive(Debug, Clone, Copy, PartialEq, Eq, Structural)]
pub struct RecursionLimitError {}

/// What a `RecursionStack` stands for: the names on the current path, root
/// first, the number of unnamed nested steps, and the limit on their sum.
pub struct Trail {
    pub names: Seq<Seq<char>>,
    pub nesting: nat,
    pub limit: nat,
}

impl Trail {
    pub open spec fn rooted(root: Seq<char>, limit: nat) -> Trail {
        Trail { names: seq![root], nesting: 0, limit }
    }

    pub open spec fn depth(self) -> nat {
        self.names.len() + self.nesting
    }

    /// Whether one more step fits under the limit.
    pub open spec fn has_room(self) -> bool {
        self.depth() < self.limit
    }

    /// How many more steps fit under the limit.
    pub open spec fn budget(self) -> nat {
        if self.depth() < self.limit {
            (self.limit - self.depth()) as nat
        } else {
            0
        }
    }

    pub open spec fn contains(self, name: Seq<char>) -> bool {
        self.names.contains(name)
    }

    pub open spec fn first(self) -> Option<Seq<char>> {
        if self.names.len() > 0 {
            Some(self.names[0])
        } else {
            None
        }
    }

    pub open spec fn push(self, name: Seq<char>) -> Trail {
        Trail { names: self.names.push(name), ..self }
    }

    pub open spec fn pop(self) -> Trail {
        if self.names.len() > 0 {
            Trail { names: self.names.drop_last(), ..self }
        } else {
            self
        }
    }

    pub open spec fn enter(self) -> Trail {
        Trail { nesting: self.nesting + 1, ..self }
    }

    pub open spec fn leave(self) -> Trail {
        if self.nesting > 0 {
            Trail { nesting: (self.nesting - 1) as nat, ..self }
        } else {
            self
        }
    }
}

/// The path of a depth-first search, with a hash index of the names on it.
///
/// The path and the index change together: a name is in the index exactly
/// when it is on the path, and the index knows how often.
pub struct RecursionStack {
    seen: Vec<String>,
    index: StringHashMap<usize>,
    nesting: usize,
    limit: usize,
}

/// The character sequences of a list of names.
spec fn names_of(seen: Seq<String>) -> Seq<Seq<char>> {
    seen.map_values(|name: String| name@)
}

/// How often `name` is on the path.
spec fn occurrences(names: Seq<Seq<char>>, name: Seq<char>) -> nat
    decreases names.len(),
{
    if names.len() == 0 {
        0
    } else if names.last() == name {
        occurrences(names.drop_last(), name) + 1
    } else {
        occurrences(names.drop_last(), name)
    }
}

/// The index holds exactly the names on the path, each with the number of
/// times that it is there.
spec fn in_step(seen: Seq<String>, index: Map<Seq<char>, usize>) -> bool {
    forall|name: Seq<char>|
        {
            &&& #[trigger] index.contains_key(name) <==> occurrences(names_of(seen), name) > 0
            &&& index.contains_key(name) ==> index[name] == occurrences(names_of(seen), name)
        }
}

proof fn lemma_occurrences(names: Seq<Seq<char>>, name: Seq<char>)
    ensures
        occurrences(names, name) <= names.len(),
        occurrences(names, name) > 0 <==> names.contains(name),
    decreases names.len(),
{
    if names.len() > 0 {
        let rest = names.drop_last();
        lemma_occurrences(rest, name);
        if names.contains(name) && names.last() != name {
            let i: int = choose|i: int| 0 <= i < names.len() && names[i] == name;
            assert(rest[i] == name);
        }
    }
}

proof fn lemma_push_in_step(seen: Seq<String>, index: Map<Seq<char>, usize>, name: String)
    requires
        in_step(seen, index),
        seen.len() < usize::MAX,
    ensures
        occurrences(names_of(seen), name@) < usize::MAX,
        in_step(
            seen.push(name),
            index.insert(name@, (occurrences(names_of(seen), name@) + 1) as usize),
        ),
        names_of(seen.push(name)) == names_of(seen).push(name@),
{
    lemma_occurrences(names_of(seen), name@);
    assert(names_of(seen.push(name)).drop_last() =~= names_of(seen));
}

proof fn lemma_pop_in_step(seen: Seq<String>, index: Map<Seq<char>, usize>)
    requires
        in_step(seen, index),
        seen.len() > 0,
    ensures
        index.contains_key(seen.last()@),
        index[seen.last()@] >= 1,
        in_step(
            seen.drop_last(),
            if index[seen.last()@] == 1 {
                index.remove(seen.last()@)
            } else {
                index.insert(seen.last()@, (index[seen.last()@] - 1) as usize)
            },
        ),
        names_of(seen.drop_last()) == names_of(seen).drop_last(),
{
    let before = names_of(seen);
    assert(names_of(seen.drop_last()) =~= before.drop_last());
    assert(index.contains_key(seen.last()@) <==> occurrences(before, seen.last()@) > 0);
}

impl View for RecursionStack {
    type V = Trail;

    closed spec fn view(&self) -> Trail {
        Trail {
            names: names_of(self.seen@),
            nesting: self.nesting as nat,
            limit: self.limit as nat,
        }
    }
}

impl RecursionStack {
    #[verifier::type_invariant]
    spec fn well_formed(&self) -> bool {
        &&& in_step(self.seen@, self.index@)
        &&& self.seen.len() + self.nesting <= usize::MAX
    }

    /// An empty path under the default limit.
    pub fn new() -> (stack: RecursionStack)
        ensures
            stack@ == (Trail { names: Seq::empty(), nesting: 0, limit: DEFAULT_RECURSION_LIMIT as nat }),
    {
        let seen: Vec<String> = Vec::new();
        let index: StringHashMap<usize> = StringHashMap::new();
        assert(names_of(seen@) =~= Seq::empty());
        RecursionStack { seen, index, nesting: 0, limit: DEFAULT_RECURSION_LIMIT }
    }

    /// A path that starts at `root`, under the default limit. The root is
    /// on the path whatever the limit.
    pub fn with_root(root: String) -> (stack: RecursionStack)
        ensures
            stack@ == Trail::rooted(root@, DEFAULT_RECURSION_LIMIT as nat),
    {
        let mut seen: Vec<String> = Vec::new();
        let mut index: StringHashMap<usize> = StringHashMap::new();
        proof {
            lemma_push_in_step(seen@, index@, root);
            assert(names_of(seen@).push(root@) =~= seq![root@]);
        }
        index.insert(root.clone(), 1);
        seen.push(root);
        RecursionStack { seen, index, nesting: 0, limit: DEFAULT_RECURSION_LIMIT }
    }

    /// The same path under another limit.
    pub fn with_limit(self, limit: usize) -> (stack: RecursionStack)
        ensures
            stack@ == (Trail { limit: limit as nat, ..self@ }),
    {
        proof {
            use_type_invariant(&self);
        }
        RecursionStack { seen: self.seen, index: self.index, nesting: self.nesting, limit }
    }

    /// Whether `name` is on the path.
    pub fn contains(&self, name: &String) -> (found: bool)
        ensures
            found == self@.contains(name@),
    {
        proof {
            use_type_invariant(self);
            lemma_occurrences(self@.names, name@);
        }
        self.index.contains_key(name.as_str())
    }

    /// The name the path starts with.
    pub fn first(&self) -> (root: Option<&String>)
        ensures
            match root {
                Some(name) => self@.first() == Some(name@),
                None => self@.first() is None,
            },
    {
        if self.seen.len() > 0 {
            Some(&self.seen[0])
        } else {
            None
        }
    }

    pub fn depth(&self) -> (depth: usize)
        ensures
            depth == self@.depth(),
    {
        proof {
            use_type_invariant(self);
        }
        self.seen.len() + self.nesting
    }

    pub fn limit(&self) -> (limit: usize)
        ensures
            limit == self@.limit,
    {
        self.limit
    }

    /// Extends the path by `name`, or refuses when the path is as deep as
    /// the limit allows. A name may be on the path more than once.
    pub fn push(&mut self, name: &String) -> (result: Result<(), RecursionLimitError>)
        ensures
            old(self)@.has_room() ==> result is Ok && final(self)@ == old(self)@.push(name@),
            !old(self)@.has_room() ==> result is Err && final(self)@ == old(self)@,
    {
        proof {
            use_type_invariant(&*self);
        }
        if self.seen.len() + self.nesting >= self.limit {
            return Err(RecursionLimitError {});
        }
        let mut taken = RecursionStack::new();
        std::mem::swap(self, &mut taken);
        let RecursionStack { mut seen, mut index, nesting, limit } = taken;
        proof {
            lemma_push_in_step(seen@, index@, *name);
        }
        let count: usize = match index.get(name.as_str()) {
            Some(count) => *count,
            None => 0,
        };
        index.insert(name.clone(), count + 1);
        seen.push(name.clone());
        *self = RecursionStack { seen, index, nesting, limit };
        Ok(())
    }

    /// Takes the last name off the path. An empty path stays empty.
    pub fn pop(&mut self)
        ensures
            final(self)@ == old(self)@.pop(),
    {
        proof {
            use_type_invariant(&*self);
        }
        let mut taken = RecursionStack::new();
        std::mem::swap(self, &mut taken);
        let RecursionStack { mut seen, mut index, nesting, limit } = taken;
        proof {
            if seen.len() > 0 {
                lemma_pop_in_step(seen@, index@);
            }
        }
        match seen.pop() {
            Some(name) => {
                let count: usize = match index.get(name.as_str()) {
                    Some(count) => *count,
                    None => 1,
                };
                if count == 1 {
                    index.remove(name.as_str());
                } else {
                    index.insert(name, count - 1);
                }
            },
            None => {},
        }
        *self = RecursionStack { seen, index, nesting, limit };
    }

    /// Takes one nested step that carries no name, or refuses when the
    /// path is as deep as the limit allows.
    pub fn enter(&mut self) -> (result: Result<(), RecursionLimitError>)
        ensures
            old(self)@.has_room() ==> result is Ok && final(self)@ == old(self)@.enter(),
            !old(self)@.has_room() ==> result is Err && final(self)@ == old(self)@,
    {
        proof {
            use_type_invariant(&*self);
        }
        if self.seen.len() + self.nesting >= self.limit {
            return Err(RecursionLimitError {});
        }
        self.nesting = self.nesting + 1;
        Ok(())
    }

    /// Returns from one nested step. Without one, nothing changes.
    pub fn leave(&mut self)
        ensures
            final(self)@ == old(self)@.leave(),
    {
        proof {
            use_type_invariant(&*self);
        }
        if self.nesting > 0 {
            self.nesting = self.nesting - 1;
        }
    }
}

} // verus!
