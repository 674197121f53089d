//! A small map from names to values that keeps its entries in insertion order
//! and never holds a name twice.
use vstd::prelude::*;

verus! {

/// The index of the first entry whose name is `key`.
pub open spec fn find_key<V>(entries: Seq<(Seq<char>, V)>, key: Seq<char>) -> Option<int>
    decreases entries.len(),
{
    if entries.len() == 0 {
        None
    } else {
        match find_key(entries.drop_last(), key) {
            Some(i) => Some(i),
            None => if entries.last().0 == key {
                Some(entries.len() - 1)
            } else {
                None
            },
        }
    }
}

/// No name occurs twice.
pub open spec fn keys_unique<V>(entries: Seq<(Seq<char>, V)>) -> bool {
    forall|i: int, j: int|
        0 <= i < j < entries.len() ==> (#[trigger] entries[i]).0 != (#[trigger] entries[j]).0
}

/// Whether some entry is named `key`.
pub open spec fn has_key<V>(entries: Seq<(Seq<char>, V)>, key: Seq<char>) -> bool {
    exists|i: int| 0 <= i < entries.len() && (#[trigger] entries[i]).0 == key
}

/// The value stored under `key`, if any.
pub open spec fn lookup<V>(entries: Seq<(Seq<char>, V)>, key: Seq<char>) -> Option<V> {
    match find_key(entries, key) {
        Some(i) => Some(entries[i].1),
        None => None,
    }
}

/// The entries after storing `value` under `key`: an entry of that name keeps its place
/// and takes the new value; otherwise the entry is added at the end.
pub open spec fn inserted<V>(entries: Seq<(Seq<char>, V)>, key: Seq<char>, value: V) -> Seq<
    (Seq<char>, V),
> {
    match find_key(entries, key) {
        Some(i) => entries.update(i, (key, value)),
        None => entries.push((key, value)),
    }
}

/// `find_key` finds exactly the first entry of that name.
pub proof fn lemma_find_key<V>(entries: Seq<(Seq<char>, V)>, key: Seq<char>)
    ensures
        find_key(entries, key) is Some <==> has_key(entries, key),
        find_key(entries, key) matches Some(i) ==> {
            &&& 0 <= i < entries.len()
            &&& entries[i].0 == key
            &&& forall|j: int| 0 <= j < i ==> (#[trigger] entries[j]).0 != key
        },
    decreases entries.len(),
{
    if entries.len() > 0 {
        let init = entries.drop_last();
        lemma_find_key(init, key);
        assert forall|j: int| 0 <= j < init.len() implies #[trigger] init[j] == entries[j] by {}
        if has_key(init, key) {
            let i = choose|i: int| 0 <= i < init.len() && (#[trigger] init[i]).0 == key;
            assert(entries[i] == init[i]);
        }
        if has_key(entries, key) && !has_key(init, key) {
            let i = choose|i: int| 0 <= i < entries.len() && (#[trigger] entries[i]).0 == key;
            if i < entries.len() - 1 {
                assert(init[i] == entries[i]);
            }
        }
        match find_key(init, key) {
            Some(i) => {
                assert forall|j: int| 0 <= j < i implies (#[trigger] entries[j]).0 != key by {
                    assert(init[j] == entries[j]);
                }
            },
            None => {
                assert forall|j: int| 0 <= j < entries.len() - 1 implies (
                #[trigger] entries[j]).0 != key by {
                    assert(init[j] == entries[j]);
                }
            },
        }
    }
}

/// A map from names to values, kept in insertion order, with no name twice.
pub struct Table<V> {
    entries: Vec<(String, V)>,
}

impl<V> View for Table<V> {
    type V = Seq<(Seq<char>, V)>;

    closed spec fn view(&self) -> Seq<(Seq<char>, V)> {
        self.entries@.map_values(|e: (String, V)| (e.0@, e.1))
    }
}

impl<V> Table<V> {
    #[verifier::type_invariant]
    closed spec fn names_distinct(self) -> bool {
        keys_unique(self@)
    }

    /// The empty table.
    pub fn new() -> (t: Table<V>)
        ensures
            t@ == Seq::<(Seq<char>, V)>::empty(),
    {
        let t = Table { entries: Vec::new() };
        assert(t@ =~= Seq::<(Seq<char>, V)>::empty());
        t
    }

    /// The number of entries; the entries never repeat a name.
    pub fn len(&self) -> (n: usize)
        ensures
            n == self@.len(),
            keys_unique(self@),
    {
        proof {
            use_type_invariant(self);
        }
        self.entries.len()
    }

    /// The name of entry `i`.
    pub fn key_at(&self, i: usize) -> (k: &String)
        requires
            i < self@.len(),
        ensures
            k@ == self@[i as int].0,
    {
        &self.entries[i].0
    }

    /// The value of entry `i`.
    pub fn value_at(&self, i: usize) -> (v: &V)
        requires
            i < self@.len(),
        ensures
            *v == self@[i as int].1,
    {
        &self.entries[i].1
    }

    /// The index of the entry named `key`.
    fn position(&self, key: &String) -> (r: Option<usize>)
        ensures
            r matches Some(i) ==> find_key(self@, key@) == Some(i as int),
            r is None ==> find_key(self@, key@) is None,
    {
        proof {
            lemma_find_key(self@, key@);
        }
        let mut i: usize = 0;
        while i < self.entries.len()
            invariant
                i <= self.entries.len(),
                self@.len() == self.entries.len(),
                forall|j: int| 0 <= j < i ==> (#[trigger] self@[j]).0 != key@,
                find_key(self@, key@) is Some <==> has_key(self@, key@),
                find_key(self@, key@) matches Some(f) ==> {
                    &&& 0 <= f < self@.len()
                    &&& self@[f].0 == key@
                    &&& forall|j: int| 0 <= j < f ==> (#[trigger] self@[j]).0 != key@
                },
            decreases self.entries.len() - i,
        {
            if self.entries[i].0 == *key {
                assert(self@[i as int].0 == key@);
                return Some(i);
            }
            i += 1;
        }
        None
    }

    /// Whether some entry is named `key`.
    pub fn contains_key(&self, key: &String) -> (b: bool)
        ensures
            b == has_key(self@, key@),
    {
        proof {
            lemma_find_key(self@, key@);
        }
        self.position(key).is_some()
    }

    /// The value stored under `key`.
    pub fn get(&self, key: &String) -> (r: Option<&V>)
        ensures
            r is Some == lookup(self@, key@) is Some,
            r matches Some(v) ==> *v == lookup(self@, key@)->0,
    {
        proof {
            lemma_find_key(self@, key@);
        }
        match self.position(key) {
            Some(i) => Some(&self.entries[i].1),
            None => None,
        }
    }

    /// Stores `value` under `key`, replacing the value of an entry of that name.
    pub fn insert(&mut self, key: String, value: V)
        ensures
            final(self)@ == inserted(old(self)@, key@, value),
    {
        proof {
            use_type_invariant(&*self);
            lemma_find_key(self@, key@);
        }
        let ghost k = key@;
        match self.position(&key) {
            Some(i) => {
                let ghost before = self@;
                let mut entries = Vec::new();
                std::mem::swap(&mut entries, &mut self.entries);
                entries.set(i, (key, value));
                assert(entries@.map_values(|e: (String, V)| (e.0@, e.1)) =~= before.update(
                    i as int,
                    (k, value),
                ));
                self.entries = entries;
            },
            None => {
                let ghost before = self@;
                let mut entries = Vec::new();
                std::mem::swap(&mut entries, &mut self.entries);
                entries.push((key, value));
                assert(entries@.map_values(|e: (String, V)| (e.0@, e.1)) =~= before.push(
                    (k, value),
                ));
                self.entries = entries;
            },
        }
    }
}

} // verus!
