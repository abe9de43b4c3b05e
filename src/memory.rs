//! The machine's working data: a mapping from field names to values.
use crate::json::JsonValue;
use vstd::prelude::*;

verus! {

/// A string-keyed store of values, each key held once.
pub struct Memory {
    entries: Vec<(String, JsonValue)>,
}

/// No key occurs twice among `s`.
pub open spec fn keys_unique(s: Seq<(String, JsonValue)>) -> bool {
    forall|i: int, j: int| 0 <= i < j < s.len() ==> s[i].0@ != s[j].0@
}

/// The mapping that a list of entries with unique keys describes.
pub open spec fn entries_map(s: Seq<(String, JsonValue)>) -> Map<Seq<char>, JsonValue> {
    Map::new(
        |k: Seq<char>| exists|i: int| 0 <= i < s.len() && s[i].0@ == k,
        |k: Seq<char>| s[choose|i: int| 0 <= i < s.len() && s[i].0@ == k].1,
    )
}

proof fn lemma_entries_map_at(s: Seq<(String, JsonValue)>, i: int)
    requires
        keys_unique(s),
        0 <= i < s.len(),
    ensures
        entries_map(s).contains_key(s[i].0@),
        entries_map(s)[s[i].0@] == s[i].1,
{
    let k = s[i].0@;
    assert(exists|j: int| 0 <= j < s.len() && s[j].0@ == k);
    let j = choose|j: int| 0 <= j < s.len() && s[j].0@ == k;
    assert(i == j);
}

impl View for Memory {
    type V = Map<Seq<char>, JsonValue>;

    closed spec fn view(&self) -> Map<Seq<char>, JsonValue> {
        entries_map(self.entries@)
    }
}

impl Memory {
    #[verifier::type_invariant]
    spec fn inv(&self) -> bool {
        keys_unique(self.entries@)
    }

    /// An empty memory.
    pub fn new() -> (r: Memory)
        ensures
            r@ == Map::<Seq<char>, JsonValue>::empty(),
    {
        let r = Memory { entries: Vec::new() };
        assert(r@ =~= Map::<Seq<char>, JsonValue>::empty());
        r
    }

    /// Number of fields held.
    pub fn len(&self) -> (r: usize)
        ensures
            r as nat == self@.len(),
    {
        proof {
            use_type_invariant(self);
            self.lemma_len();
        }
        self.entries.len()
    }

    proof fn lemma_len(&self)
        requires
            keys_unique(self.entries@),
        ensures
            self@.len() == self.entries@.len(),
        decreases self.entries@.len(),
    {
        let s = self.entries@;
        let keys = Seq::new(s.len(), |i: int| s[i].0@);
        assert forall|a: int, b: int| 0 <= a < b < keys.len() implies keys[a] != keys[b] by {}
        keys.unique_seq_to_set();
        assert(self@.dom() =~= keys.to_set()) by {
            assert forall|k: Seq<char>| keys.to_set().contains(k) implies self@.dom().contains(k) by {
                let i = choose|i: int| 0 <= i < keys.len() && keys[i] == k;
                assert(s[i].0@ == k);
            }
            assert forall|k: Seq<char>| self@.dom().contains(k) implies keys.to_set().contains(k) by {
                let i = choose|i: int| 0 <= i < s.len() && s[i].0@ == k;
                assert(keys[i] == k);
            }
        }
    }

    fn position(&self, key: &str) -> (r: Option<usize>)
        requires
            keys_unique(self.entries@),
        ensures
            match r {
                Some(i) => i < self.entries@.len() && self.entries@[i as int].0@ == key@,
                None => !self@.contains_key(key@),
            },
    {
        let mut i: usize = 0;
        while i < self.entries.len()
            invariant
                0 <= i <= self.entries@.len(),
                forall|j: int| 0 <= j < i ==> self.entries@[j].0@ != key@,
            decreases self.entries@.len() - i,
        {
            if self.entries[i].0.as_str().to_owned() == key.to_owned() {
                return Some(i);
            }
            i = i + 1;
        }
        None
    }

    /// The value held under `key`, if any.
    pub fn get(&self, key: &str) -> (r: Option<&JsonValue>)
        ensures
            r is Some <==> self@.contains_key(key@),
            r is Some ==> *r->0 == self@[key@],
    {
        proof {
            use_type_invariant(self);
        }
        match self.position(key) {
            Some(i) => {
                proof {
                    lemma_entries_map_at(self.entries@, i as int);
                }
                Some(&self.entries[i].1)
            },
            None => None,
        }
    }

    /// Whether a value is held under `key`.
    pub fn contains_key(&self, key: &str) -> (r: bool)
        ensures
            r == self@.contains_key(key@),
    {
        self.get(key).is_some()
    }

    /// Takes out the value held under `key`, if any.
    pub fn remove(&mut self, key: &str) -> (r: Option<JsonValue>)
        ensures
            final(self)@ == old(self)@.remove(key@),
            match r {
                Some(v) => old(self)@.contains_key(key@) && v == old(self)@[key@],
                None => !old(self)@.contains_key(key@),
            },
    {
        proof {
            use_type_invariant(&*self);
        }
        let ghost old_entries = self.entries@;
        match self.position(key) {
            None => {
                assert(entries_map(old_entries) =~= entries_map(old_entries).remove(key@));
                None
            },
            Some(i) => {
                proof {
                    lemma_entries_map_at(old_entries, i as int);
                }
                let mut taken = Memory { entries: Vec::new() };
                std::mem::swap(self, &mut taken);
                let Memory { entries: mut entries } = taken;
                assert(entries@ == old_entries);
                let (_, v) = entries.remove(i);
                let ghost s = entries@;
                assert(s =~= old_entries.remove(i as int));
                assert(keys_unique(s));
                assert(entries_map(s) =~= entries_map(old_entries).remove(key@)) by {
                    assert forall|x: Seq<char>| #[trigger] entries_map(s).contains_key(x) implies entries_map(
                        old_entries,
                    ).remove(key@).contains_key(x) by {
                        let j = choose|j: int| 0 <= j < s.len() && s[j].0@ == x;
                        if j < i {
                            assert(old_entries[j].0@ == x);
                        } else {
                            assert(old_entries[j + 1].0@ == x);
                        }
                    }
                    assert forall|x: Seq<char>| #[trigger] entries_map(old_entries).remove(key@).contains_key(x)
                        implies entries_map(s).contains_key(x) by {
                        let j = choose|j: int| 0 <= j < old_entries.len() && old_entries[j].0@ == x;
                        if j < i {
                            assert(s[j].0@ == x);
                        } else {
                            assert(s[j - 1].0@ == x);
                        }
                    }
                    assert forall|x: Seq<char>| #[trigger] entries_map(s).contains_key(x) implies entries_map(s)[x]
                        == entries_map(old_entries).remove(key@)[x] by {
                        let j = choose|j: int| 0 <= j < s.len() && s[j].0@ == x;
                        lemma_entries_map_at(s, j);
                        if j < i {
                            lemma_entries_map_at(old_entries, j);
                        } else {
                            lemma_entries_map_at(old_entries, j + 1);
                        }
                    }
                }
                *self = Memory { entries };
                Some(v)
            },
        }
    }

    /// Holds `value` under `key`, replacing what was there.
    pub fn insert(&mut self, key: String, value: JsonValue)
        ensures
            final(self)@ == old(self)@.insert(key@, value),
    {
        proof {
            use_type_invariant(&*self);
        }
        let pos = self.position(key.as_str());
        let ghost old_entries = self.entries@;
        let ghost k = key@;
        let mut taken = Memory { entries: Vec::new() };
        std::mem::swap(self, &mut taken);
        let Memory { entries: mut entries } = taken;
        assert(entries@ == old_entries);
        match pos {
            Some(i) => {
                entries.set(i, (key, value));
            },
            None => {
                entries.push((key, value));
            },
        }
        let ghost s = entries@;
        assert(keys_unique(s));
        assert(entries_map(s) =~= entries_map(old_entries).insert(k, value)) by {
            assert forall|x: Seq<char>| #[trigger] entries_map(s).contains_key(x) implies entries_map(
                old_entries,
            ).insert(k, value).contains_key(x) by {
                let j = choose|j: int| 0 <= j < s.len() && s[j].0@ == x;
                if x != k {
                    assert(old_entries[j].0@ == x);
                }
            }
            assert forall|x: Seq<char>| #[trigger] entries_map(old_entries).insert(k, value).contains_key(x)
                implies entries_map(s).contains_key(x) by {
                if x == k {
                    match pos {
                        Some(i) => assert(s[i as int].0@ == x),
                        None => assert(s[s.len() - 1].0@ == x),
                    }
                } else {
                    let j = choose|j: int| 0 <= j < old_entries.len() && old_entries[j].0@ == x;
                    assert(s[j].0@ == x);
                }
            }
            assert forall|x: Seq<char>| #[trigger] entries_map(s).contains_key(x) implies entries_map(s)[x]
                == entries_map(old_entries).insert(k, value)[x] by {
                let j = choose|j: int| 0 <= j < s.len() && s[j].0@ == x;
                lemma_entries_map_at(s, j);
                if x != k {
                    lemma_entries_map_at(old_entries, j);
                }
            }
        }
        *self = Memory { entries };
    }
}

} // verus!
