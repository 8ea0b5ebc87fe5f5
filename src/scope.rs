use vstd::prelude::*;

verus! {

/// The value that `m` holds under `k`, if any.
pub open spec fn lookup(m: Map<Seq<char>, Seq<char>>, k: Seq<char>) -> Option<Seq<char>> {
    if m.contains_key(k) {
        Some(m[k])
    } else {
        None
    }
}

/// The characters of an optional string.
pub open spec fn opt_view(o: Option<String>) -> Option<Seq<char>> {
    match o {
        Some(s) => Some(s@),
        None => None,
    }
}

/// A mapping from variable names to values; each name occurs once.
pub struct Scope {
    entries: Vec<(String, String)>,
    contents: Ghost<Map<Seq<char>, Seq<char>>>,
}

impl View for Scope {
    type V = Map<Seq<char>, Seq<char>>;

    closed spec fn view(&self) -> Map<Seq<char>, Seq<char>> {
        self.contents@
    }
}

impl Scope {
    #[verifier::type_invariant]
    spec fn well_formed(&self) -> bool {
        &&& forall|i: int, j: int|
            0 <= i < j < self.entries.len() ==> #[trigger] self.entries@[i].0@
                != #[trigger] self.entries@[j].0@
        &&& forall|i: int|
            0 <= i < self.entries.len() ==> self.contents@.contains_key(
                #[trigger] self.entries@[i].0@,
            ) && self.contents@[self.entries@[i].0@] == self.entries@[i].1@
        &&& forall|k: Seq<char>| #[trigger]
            self.contents@.contains_key(k) ==> exists|i: int|
                0 <= i < self.entries.len() && self.entries@[i].0@ == k
    }

    /// An empty scope.
    pub fn new() -> (r: Scope)
        ensures
            r@ == Map::<Seq<char>, Seq<char>>::empty(),
    {
        Scope { entries: Vec::new(), contents: Ghost(Map::empty()) }
    }

    /// The index of the entry for `name`, if there is one.
    fn find(&self, name: &String) -> (r: Option<usize>)
        ensures
            match r {
                Some(i) => i < self.entries.len() && self.entries@[i as int].0@ == name@,
                None => !self@.contains_key(name@),
            },
            r is Some ==> self@.contains_key(name@),
    {
        proof {
            use_type_invariant(self);
        }
        let mut i: usize = 0;
        while i < self.entries.len()
            invariant
                0 <= i <= self.entries.len(),
                forall|j: int| 0 <= j < i ==> #[trigger] self.entries@[j].0@ != name@,
            decreases self.entries.len() - i,
        {
            proof {
                use_type_invariant(self);
            }
            if self.entries[i].0.eq(name) {
                return Some(i);
            }
            i = i + 1;
        }
        None
    }

    /// The value held under `name`.
    pub fn get(&self, name: &str) -> (r: Option<String>)
        ensures
            opt_view(r) == lookup(self@, name@),
    {
        proof {
            use_type_invariant(self);
        }
        let key = name.to_owned();
        match self.find(&key) {
            Some(i) => Some(self.entries[i].1.clone()),
            None => None,
        }
    }

    /// Whether `name` holds a value.
    pub fn contains_key(&self, name: &str) -> (r: bool)
        ensures
            r == self@.contains_key(name@),
    {
        let key = name.to_owned();
        self.find(&key).is_some()
    }

    /// Stores `value` under `name`, replacing what was there.
    pub fn insert(&mut self, name: String, value: String)
        ensures
            final(self)@ == old(self)@.insert(name@, value@),
    {
        proof {
            use_type_invariant(&*self);
        }
        let found = self.find(&name);
        let mut old_scope = Scope::new();
        std::mem::swap(self, &mut old_scope);
        proof {
            use_type_invariant(&old_scope);
        }
        let ghost k = name@;
        let ghost v = value@;
        let ghost m = old_scope.contents@;
        let Scope { mut entries, contents } = old_scope;
        match found {
            Some(i) => {
                entries.set(i, (name, value));
                assert forall|a: int| 0 <= a < entries.len() implies m.insert(k, v).contains_key(
                    #[trigger] entries@[a].0@,
                ) && m.insert(k, v)[entries@[a].0@] == entries@[a].1@ by {
                    if a != i as int {
                        assert(old_scope.entries@[a].0@ != old_scope.entries@[i as int].0@);
                    }
                }
                assert forall|a: int, b: int| 0 <= a < b < entries.len() implies #[trigger] entries@[a].0@
                    != #[trigger] entries@[b].0@ by {
                    if a != i as int && b != i as int {
                    }
                }
                assert forall|q: Seq<char>| #[trigger] m.insert(k, v).contains_key(q) implies exists|a: int|
                    0 <= a < entries.len() && entries@[a].0@ == q by {
                    if q == k {
                        assert(entries@[i as int].0@ == q);
                    } else {
                        let a = choose|a: int| 0 <= a < entries.len() && old_scope.entries@[a].0@ == q;
                        assert(entries@[a].0@ == q);
                    }
                }
            },
            None => {
                entries.push((name, value));
                assert forall|a: int| 0 <= a < entries.len() implies m.insert(k, v).contains_key(
                    #[trigger] entries@[a].0@,
                ) && m.insert(k, v)[entries@[a].0@] == entries@[a].1@ by {
                    if a < old_scope.entries.len() {
                        assert(m.contains_key(old_scope.entries@[a].0@));
                    }
                }
                assert forall|a: int, b: int| 0 <= a < b < entries.len() implies #[trigger] entries@[a].0@
                    != #[trigger] entries@[b].0@ by {
                    if b == old_scope.entries.len() {
                        assert(m.contains_key(old_scope.entries@[a].0@));
                    }
                }
                assert forall|q: Seq<char>| #[trigger] m.insert(k, v).contains_key(q) implies exists|a: int|
                    0 <= a < entries.len() && entries@[a].0@ == q by {
                    if q == k {
                        assert(entries@[entries.len() - 1].0@ == q);
                    } else {
                        let a = choose|a: int| 0 <= a < old_scope.entries.len() && old_scope.entries@[a].0@ == q;
                        assert(entries@[a].0@ == q);
                    }
                }
            },
        }
        let ghost m2 = m.insert(k, v);
        assert(forall|i: int, j: int|
            0 <= i < j < entries.len() ==> #[trigger] entries@[i].0@
                != #[trigger] entries@[j].0@);
        assert(forall|i: int|
            0 <= i < entries.len() ==> m2.contains_key(
                #[trigger] entries@[i].0@,
            ) && m2[entries@[i].0@] == entries@[i].1@);
        assert(forall|q: Seq<char>| #[trigger]
            m2.contains_key(q) ==> exists|i: int|
                0 <= i < entries.len() && entries@[i].0@ == q);
        assert(Ghost(m2)@ == m2);
        assert((Scope { entries, contents: Ghost(m2) }).entries@ == entries@);
        *self = Scope { entries, contents: Ghost(m2) };
    }
}

} // verus!
