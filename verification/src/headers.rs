//! The header fields of a request: a finite map from names to values in
//! which a later field replaces an earlier one of the same name.

use vstd::prelude::*;

verus! {

/// A map from header names to header values.
#[derive(Debug)]
pub struct Headers {
    entries: Vec<(String, String)>,
}

/// Whether `names` holds `name` at index `i`.
spec fn names_at(entries: Seq<(String, String)>, i: int, name: Seq<char>) -> bool {
    0 <= i < entries.len() && entries[i].0@ == name
}

/// The map that a list of entries with distinct names stands for.
spec fn map_of(entries: Seq<(String, String)>) -> Map<Seq<char>, Seq<char>> {
    Map::new(
        |name: Seq<char>| exists|i: int| names_at(entries, i, name),
        |name: Seq<char>| entries[choose|i: int| names_at(entries, i, name)].1@,
    )
}

/// Whether no two entries have the same name.
spec fn distinct(entries: Seq<(String, String)>) -> bool {
    forall|i: int, j: int|
        0 <= i < j < entries.len() ==> (#[trigger] entries[i]).0@ != (#[trigger] entries[j]).0@
}

/// What `map_of` holds for the entry at index `i`.
proof fn lemma_entry(entries: Seq<(String, String)>, i: int)
    requires
        distinct(entries),
        0 <= i < entries.len(),
    ensures
        map_of(entries).contains_key(entries[i].0@),
        map_of(entries)[entries[i].0@] == entries[i].1@,
{
    let name = entries[i].0@;
    assert(names_at(entries, i, name));
    let j = choose|j: int| names_at(entries, j, name);
    assert(j == i) by {
        if j < i {
            assert(entries[j].0@ != entries[i].0@);
        } else if i < j {
            assert(entries[i].0@ != entries[j].0@);
        }
    }
}

impl View for Headers {
    type V = Map<Seq<char>, Seq<char>>;

    closed spec fn view(&self) -> Map<Seq<char>, Seq<char>> {
        map_of(self.entries@)
    }
}

impl Headers {
    #[verifier::type_invariant]
    spec fn well_formed(self) -> bool {
        distinct(self.entries@)
    }

    /// A map without fields.
    pub fn new() -> (headers: Headers)
        ensures
            headers@ == Map::<Seq<char>, Seq<char>>::empty(),
    {
        let headers = Headers { entries: Vec::new() };
        assert(headers@ =~= Map::<Seq<char>, Seq<char>>::empty());
        headers
    }

    /// The index of the entry named `name`, if there is one.
    fn position(&self, name: &String) -> (r: Option<usize>)
        ensures
            match r {
                Some(i) => names_at(self.entries@, i as int, name@),
                None => forall|i: int| !names_at(self.entries@, i, name@),
            },
    {
        let mut i: usize = 0;
        while i < self.entries.len()
            invariant
                i <= self.entries@.len(),
                forall|j: int| 0 <= j < i ==> !names_at(self.entries@, j, name@),
            decreases self.entries@.len() - i,
        {
            if self.entries[i].0 == *name {
                return Some(i);
            }
            i += 1;
        }
        None
    }

    /// Sets the value of the field `name`, replacing the value it had.
    pub fn insert(&mut self, name: String, value: String)
        ensures
            final(self)@ == old(self)@.insert(name@, value@),
    {
        proof {
            use_type_invariant(&*self);
        }
        let ghost before = self.entries@;
        let ghost key = name@;
        let ghost val = value@;
        let found = self.position(&name);
        let mut entries: Vec<(String, String)> = Vec::new();
        core::mem::swap(&mut self.entries, &mut entries);
        match found {
            Some(i) => {
                entries.set(i, (name, value));
                proof {
                    let now = entries@;
                    assert(distinct(now)) by {
                        assert forall|a: int, b: int| 0 <= a < b < now.len() implies (
                        #[trigger] now[a]).0@ != (#[trigger] now[b]).0@ by {
                            assert(now[a].0@ == before[a].0@);
                            assert(now[b].0@ == before[b].0@);
                        }
                    }
                    assert forall|k: Seq<char>| #[trigger]
                        map_of(now).contains_key(k) == map_of(before).insert(
                            key,
                            val,
                        ).contains_key(k) by {
                        if map_of(now).contains_key(k) {
                            let j = choose|j: int| names_at(now, j, k);
                            assert(names_at(before, j, k));
                        }
                        if map_of(before).contains_key(k) {
                            let j = choose|j: int| names_at(before, j, k);
                            assert(names_at(now, j, k));
                        }
                        if k == key {
                            assert(names_at(now, i as int, k));
                        }
                    }
                    assert forall|k: Seq<char>| #[trigger]
                        map_of(now).contains_key(k) implies map_of(now)[k] == map_of(
                        before,
                    ).insert(key, val)[k] by {
                        let j = choose|j: int| names_at(now, j, k);
                        lemma_entry(now, j);
                        if j != i {
                            lemma_entry(before, j);
                        }
                    }
                    assert(map_of(now) =~= map_of(before).insert(key, val));
                }
            },
            None => {
                entries.push((name, value));
                proof {
                    let now = entries@;
                    let last = now.len() - 1;
                    assert(distinct(now)) by {
                        assert forall|a: int, b: int| 0 <= a < b < now.len() implies (
                        #[trigger] now[a]).0@ != (#[trigger] now[b]).0@ by {
                            assert(now[a] == before[a]);
                            if b < last {
                                assert(now[b] == before[b]);
                            } else {
                                assert(!names_at(before, a, key));
                            }
                        }
                    }
                    assert forall|k: Seq<char>| #[trigger]
                        map_of(now).contains_key(k) == map_of(before).insert(
                            key,
                            val,
                        ).contains_key(k) by {
                        if map_of(now).contains_key(k) {
                            let j = choose|j: int| names_at(now, j, k);
                            if j < last {
                                assert(names_at(before, j, k));
                            }
                        }
                        if map_of(before).contains_key(k) {
                            let j = choose|j: int| names_at(before, j, k);
                            assert(names_at(now, j, k));
                        }
                        if k == key {
                            assert(names_at(now, last, k));
                        }
                    }
                    assert forall|k: Seq<char>| #[trigger]
                        map_of(now).contains_key(k) implies map_of(now)[k] == map_of(
                        before,
                    ).insert(key, val)[k] by {
                        let j = choose|j: int| names_at(now, j, k);
                        lemma_entry(now, j);
                        if j < last {
                            lemma_entry(before, j);
                        }
                    }
                    assert(map_of(now) =~= map_of(before).insert(key, val));
                }
            },
        }
        self.entries = entries;
    }

    /// The value of the field `name`, if the map has one.
    pub fn get(&self, name: &str) -> (value: Option<&String>)
        ensures
            match value {
                Some(v) => self@.contains_key(name@) && v@ == self@[name@],
                None => !self@.contains_key(name@),
            },
    {
        proof {
            use_type_invariant(self);
        }
        let owned = name.to_owned();
        match self.position(&owned) {
            Some(i) => {
                proof {
                    lemma_entry(self.entries@, i as int);
                }
                Some(&self.entries[i].1)
            },
            None => None,
        }
    }
}

} // verus!
