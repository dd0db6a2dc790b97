//! A map from texts to values.

use crate::text::same_text;
use vstd::prelude::*;
use vstd::string::*;

verus! {

/// A map from texts to values, with each text at most once.
pub struct TextMap<V> {
    entries: Vec<(String, V)>,
}

/// Whether an entry has the text `key`.
pub open spec fn has_key<V>(entries: Seq<(String, V)>, key: Seq<char>) -> bool {
    exists|i: int| 0 <= i < entries.len() && (#[trigger] entries[i]).0@ == key
}

/// The index of an entry with the text `key`.
pub open spec fn key_index<V>(entries: Seq<(String, V)>, key: Seq<char>) -> int {
    choose|i: int| 0 <= i < entries.len() && (#[trigger] entries[i]).0@ == key
}

/// Whether no two entries have the same text.
pub open spec fn distinct_keys<V>(entries: Seq<(String, V)>) -> bool {
    forall|i: int, j: int|
        0 <= i < j < entries.len() ==> (#[trigger] entries[i]).0@ != (#[trigger] entries[j]).0@
}

/// The map that entries stand for.
pub open spec fn entry_map<V>(entries: Seq<(String, V)>) -> Map<Seq<char>, V> {
    Map::new(|key: Seq<char>| has_key(entries, key), |key: Seq<char>| entries[key_index(entries, key)].1)
}

/// Each entry is in the map.
proof fn lemma_entry<V>(entries: Seq<(String, V)>, i: int)
    requires
        distinct_keys(entries),
        0 <= i < entries.len(),
    ensures
        entry_map(entries).dom().contains(entries[i].0@),
        entry_map(entries)[entries[i].0@] == entries[i].1,
{
    let key = entries[i].0@;
    assert(has_key(entries, key));
    let j = key_index(entries, key);
    assert(entries[j].0@ == key);
    if i < j {
        assert(entries[i].0@ != entries[j].0@);
    } else if j < i {
        assert(entries[j].0@ != entries[i].0@);
    }
}

/// Adding an entry with a new text.
proof fn lemma_push<V>(entries: Seq<(String, V)>, entry: (String, V))
    requires
        distinct_keys(entries),
        !has_key(entries, entry.0@),
    ensures
        distinct_keys(entries.push(entry)),
        entry_map(entries.push(entry)) == entry_map(entries).insert(entry.0@, entry.1),
{
    let after = entries.push(entry);
    assert forall|i: int, j: int| 0 <= i < j < after.len() implies (#[trigger] after[i]).0@ != (
    #[trigger] after[j]).0@ by {
        assert(after[i] == entries[i]);
        if j < entries.len() {
            assert(after[j] == entries[j]);
        }
    }
    let a = entry_map(after);
    let b = entry_map(entries).insert(entry.0@, entry.1);
    assert forall|key: Seq<char>| a.dom().contains(key) <==> b.dom().contains(key) by {
        if a.dom().contains(key) {
            let i = key_index(after, key);
            if i < entries.len() {
                assert(entries[i] == after[i]);
            }
        }
        if b.dom().contains(key) {
            if key == entry.0@ {
                assert(after[entries.len() as int] == entry);
            } else {
                let i = key_index(entries, key);
                assert(after[i] == entries[i]);
            }
        }
    }
    assert forall|key: Seq<char>| a.dom().contains(key) implies #[trigger] a[key] == b[key] by {
        let i = key_index(after, key);
        lemma_entry(after, i);
        if i < entries.len() {
            assert(after[i] == entries[i]);
            lemma_entry(entries, i);
        }
    }
    assert(a =~= b);
}

/// Giving an entry another value.
proof fn lemma_update<V>(entries: Seq<(String, V)>, after: Seq<(String, V)>, i: int)
    requires
        distinct_keys(entries),
        0 <= i < entries.len(),
        after.len() == entries.len(),
        after[i].0@ == entries[i].0@,
        forall|j: int| 0 <= j < entries.len() && j != i ==> #[trigger] after[j] == entries[j],
    ensures
        distinct_keys(after),
        entry_map(after) == entry_map(entries).insert(entries[i].0@, after[i].1),
{
    assert forall|j: int| 0 <= j < after.len() implies (#[trigger] after[j]).0@ == entries[j].0@ by {}
    assert forall|j: int, k: int| 0 <= j < k < after.len() implies (#[trigger] after[j]).0@ != (
    #[trigger] after[k]).0@ by {
        assert(entries[j].0@ != entries[k].0@);
    }
    let a = entry_map(after);
    let b = entry_map(entries).insert(entries[i].0@, after[i].1);
    assert forall|key: Seq<char>| a.dom().contains(key) <==> b.dom().contains(key) by {
        if a.dom().contains(key) {
            let j = key_index(after, key);
            assert(entries[j].0@ == key);
        }
        if b.dom().contains(key) && key != entries[i].0@ {
            let j = key_index(entries, key);
            assert(after[j].0@ == key);
        }
        if key == entries[i].0@ {
            assert(after[i].0@ == key);
        }
    }
    assert forall|key: Seq<char>| a.dom().contains(key) implies #[trigger] a[key] == b[key] by {
        let j = key_index(after, key);
        lemma_entry(after, j);
        lemma_entry(entries, j);
    }
    assert(a =~= b);
}

/// Taking an entry out.
proof fn lemma_remove<V>(entries: Seq<(String, V)>, i: int)
    requires
        distinct_keys(entries),
        0 <= i < entries.len(),
    ensures
        distinct_keys(entries.remove(i)),
        entry_map(entries.remove(i)) == entry_map(entries).remove(entries[i].0@),
{
    let after = entries.remove(i);
    assert forall|j: int| 0 <= j < after.len() implies #[trigger] after[j] == entries[if j < i {
        j
    } else {
        j + 1
    }] by {}
    assert forall|j: int, k: int| 0 <= j < k < after.len() implies (#[trigger] after[j]).0@ != (
    #[trigger] after[k]).0@ by {}
    let a = entry_map(after);
    let b = entry_map(entries).remove(entries[i].0@);
    assert forall|key: Seq<char>| a.dom().contains(key) <==> b.dom().contains(key) by {
        if a.dom().contains(key) {
            let j = key_index(after, key);
            let k = if j < i {
                j
            } else {
                j + 1
            };
            assert(entries[k].0@ == key);
            if k < i {
                assert(entries[k].0@ != entries[i].0@);
            } else {
                assert(entries[i].0@ != entries[k].0@);
            }
        }
        if b.dom().contains(key) {
            let j = key_index(entries, key);
            assert(j != i);
            let k = if j < i {
                j
            } else {
                j - 1
            };
            assert(after[k] == entries[j]);
        }
    }
    assert forall|key: Seq<char>| a.dom().contains(key) implies #[trigger] a[key] == b[key] by {
        let j = key_index(after, key);
        lemma_entry(after, j);
        lemma_entry(
            entries,
            if j < i {
                j
            } else {
                j + 1
            },
        );
    }
    assert(a =~= b);
}

impl<V> View for TextMap<V> {
    type V = Map<Seq<char>, V>;

    closed spec fn view(&self) -> Map<Seq<char>, V> {
        entry_map(self.entries@)
    }
}

impl<V> TextMap<V> {
    /// No text occurs twice.
    #[verifier::type_invariant]
    spec fn keys_are_distinct(&self) -> bool {
        distinct_keys(self.entries@)
    }

    /// The empty map.
    pub fn new() -> (r: Self)
        ensures
            r@ == Map::<Seq<char>, V>::empty(),
    {
        let r = TextMap { entries: Vec::new() };
        assert(r@ =~= Map::<Seq<char>, V>::empty());
        r
    }

    fn position(&self, key: &str) -> (r: Option<usize>)
        ensures
            match r {
                Some(i) => i < self.entries@.len() && self.entries@[i as int].0@ == key@,
                None => !has_key(self.entries@, key@),
            },
    {
        let mut i: usize = 0;
        while i < self.entries.len()
            invariant
                i <= self.entries@.len(),
                forall|j: int| 0 <= j < i ==> (#[trigger] self.entries@[j]).0@ != key@,
            decreases self.entries@.len() - i,
        {
            if same_text(self.entries[i].0.as_str(), key) {
                return Some(i);
            }
            i = i + 1;
        }
        None
    }

    /// The value of a text.
    pub fn get(&self, key: &str) -> (r: Option<&V>)
        ensures
            r is Some <==> self@.dom().contains(key@),
            r matches Some(v) ==> *v == self@[key@],
    {
        proof {
            use_type_invariant(self);
        }
        match self.position(key) {
            Some(i) => {
                proof {
                    lemma_entry(self.entries@, i as int);
                }
                Some(&self.entries[i].1)
            },
            None => None,
        }
    }

    /// Gives a text a value, in place of the one that it had.
    pub fn insert(&mut self, key: String, value: V)
        ensures
            final(self)@ == old(self)@.insert(key@, value),
    {
        proof {
            use_type_invariant(&*self);
        }
        let mut entries: Vec<(String, V)> = Vec::new();
        let found = self.position(key.as_str());
        std::mem::swap(&mut entries, &mut self.entries);
        let ghost before = entries@;
        match found {
            Some(i) => {
                entries[i] = (key, value);
                proof {
                    lemma_update(before, entries@, i as int);
                }
            },
            None => {
                entries.push((key, value));
                proof {
                    lemma_push(before, (key, value));
                }
            },
        }
        self.entries = entries;
    }

    /// Takes a text out.
    pub fn remove(&mut self, key: &str)
        ensures
            final(self)@ == old(self)@.remove(key@),
    {
        proof {
            use_type_invariant(&*self);
        }
        let mut entries: Vec<(String, V)> = Vec::new();
        let found = self.position(key);
        std::mem::swap(&mut entries, &mut self.entries);
        let ghost before = entries@;
        match found {
            Some(i) => {
                let _ = entries.remove(i);
                proof {
                    lemma_remove(before, i as int);
                }
            },
            None => {
                assert(entry_map(before).remove(key@) =~= entry_map(before));
            },
        }
        self.entries = entries;
    }

    /// Takes out every text whose value `keep` does not hold of.
    pub fn retain<F: Fn(&V) -> bool>(&mut self, keep: F)
        requires
            forall|v: &V| #[trigger] call_requires(keep, (v,)),
        ensures
            forall|key: Seq<char>| #[trigger]
                final(self)@.dom().contains(key) ==> {
                    &&& old(self)@.dom().contains(key)
                    &&& final(self)@[key] == old(self)@[key]
                    &&& call_ensures(keep, (&old(self)@[key],), true)
                },
            forall|key: Seq<char>|
                #![trigger old(self)@.dom().contains(key)]
                old(self)@.dom().contains(key) && !final(self)@.dom().contains(key)
                    ==> call_ensures(keep, (&old(self)@[key],), false),
    {
        proof {
            use_type_invariant(&*self);
        }
        let ghost before = self@;
        let mut entries: Vec<(String, V)> = Vec::new();
        std::mem::swap(&mut entries, &mut self.entries);
        let mut i: usize = 0;
        while i < entries.len()
            invariant
                i <= entries@.len(),
                forall|v: &V| #[trigger] call_requires(keep, (v,)),
                distinct_keys(entries@),
                forall|j: int|
                    0 <= j < i ==> call_ensures(keep, (&(#[trigger] entries@[j]).1,), true),
                forall|key: Seq<char>| #[trigger]
                    entry_map(entries@).dom().contains(key) ==> before.dom().contains(key)
                        && entry_map(entries@)[key] == before[key],
                forall|key: Seq<char>|
                    #![trigger before.dom().contains(key)]
                    before.dom().contains(key) && !entry_map(entries@).dom().contains(key)
                        ==> call_ensures(keep, (&before[key],), false),
            decreases entries@.len() - i,
        {
            if keep(&entries[i].1) {
                i = i + 1;
            } else {
                let ghost old_entries = entries@;
                proof {
                    lemma_entry(old_entries, i as int);
                    lemma_remove(old_entries, i as int);
                }
                let _ = entries.remove(i);
                assert forall|j: int| 0 <= j < i implies call_ensures(
                    keep,
                    (&(#[trigger] entries@[j]).1,),
                    true,
                ) by {
                    assert(entries@[j] == old_entries[j]);
                }
            }
        }
        proof {
            assert forall|key: Seq<char>| #[trigger]
                entry_map(entries@).dom().contains(key) implies call_ensures(
                keep,
                (&before[key],),
                true,
            ) by {
                let j = key_index(entries@, key);
                lemma_entry(entries@, j);
                assert(entries@[j].1 == before[key]);
            }
        }
        self.entries = entries;
    }
}

} // verus!
