//! Maps and sets keyed by names.

use vstd::prelude::*;

use crate::text;

verus! {

/// The map that a list of entries stands for: of two entries with one name,
/// the later one counts.
pub open spec fn entries_map<V>(entries: Seq<(String, V)>) -> Map<Seq<char>, V>
    decreases entries.len(),
{
    if entries.len() == 0 {
        Map::empty()
    } else {
        entries_map(entries.drop_last()).insert(entries.last().0@, entries.last().1)
    }
}

/// A map from names to values, its entries in the order they were first
/// inserted.
#[derive(Debug)]
pub struct NameMap<V> {
    entries: Vec<(String, V)>,
}

impl<V> View for NameMap<V> {
    type V = Map<Seq<char>, V>;

    closed spec fn view(&self) -> Map<Seq<char>, V> {
        entries_map(self.entries@)
    }
}

/// An entry is in the map exactly if no later one has its name.
proof fn entries_map_at<V>(entries: Seq<(String, V)>, i: int)
    requires
        0 <= i < entries.len(),
        forall|j: int| i < j < entries.len() ==> (#[trigger] entries[j]).0@ != entries[i].0@,
    ensures
        entries_map(entries).contains_key(entries[i].0@),
        entries_map(entries)[entries[i].0@] == entries[i].1,
    decreases entries.len(),
{
    let key = entries[i].0@;
    if i < entries.len() - 1 {
        assert(entries[entries.len() - 1].0@ != key);
        assert forall|j: int| i < j < entries.drop_last().len() implies (
        #[trigger] entries.drop_last()[j]).0@ != key by {
            assert(entries.drop_last()[j] == entries[j]);
        }
        entries_map_at(entries.drop_last(), i);
    }
}

proof fn entries_map_absent<V>(entries: Seq<(String, V)>, key: Seq<char>)
    requires
        forall|j: int| 0 <= j < entries.len() ==> (#[trigger] entries[j]).0@ != key,
    ensures
        !entries_map(entries).contains_key(key),
    decreases entries.len(),
{
    if entries.len() > 0 {
        assert(entries[entries.len() - 1].0@ != key);
        assert forall|j: int| 0 <= j < entries.drop_last().len() implies (
        #[trigger] entries.drop_last()[j]).0@ != key by {
            assert(entries.drop_last()[j] == entries[j]);
        }
        entries_map_absent(entries.drop_last(), key);
    }
}

/// Replacing the last entry with a name replaces its value in the map.
proof fn entries_map_update<V>(entries: Seq<(String, V)>, i: int, entry: (String, V))
    requires
        0 <= i < entries.len(),
        entries[i].0@ == entry.0@,
        forall|j: int| i < j < entries.len() ==> (#[trigger] entries[j]).0@ != entry.0@,
    ensures
        entries_map(entries.update(i, entry)) == entries_map(entries).insert(entry.0@, entry.1),
    decreases entries.len(),
{
    let updated = entries.update(i, entry);
    let n = entries.len() - 1;
    if i < n {
        assert(updated.drop_last() =~= entries.drop_last().update(i, entry));
        assert forall|j: int| i < j < entries.drop_last().len() implies (
        #[trigger] entries.drop_last()[j]).0@ != entry.0@ by {
            assert(entries.drop_last()[j] == entries[j]);
        }
        entries_map_update(entries.drop_last(), i, entry);
        assert(entries[n].0@ != entry.0@);
        assert(entries_map(updated) =~= entries_map(entries).insert(entry.0@, entry.1));
    } else {
        assert(updated.drop_last() =~= entries.drop_last());
        assert(entries_map(updated) =~= entries_map(entries).insert(entry.0@, entry.1));
    }
}

/// Dropping an entry changes nothing but its name's value.
proof fn entries_map_remove<V>(entries: Seq<(String, V)>, i: int)
    requires
        0 <= i < entries.len(),
    ensures
        entries_map(entries.remove(i)).remove(entries[i].0@) == entries_map(entries).remove(
            entries[i].0@,
        ),
    decreases entries.len(),
{
    let key = entries[i].0@;
    let less = entries.remove(i);
    if i < entries.len() - 1 {
        entries_map_remove(entries.drop_last(), i);
        assert(less.drop_last() =~= entries.drop_last().remove(i));
        assert(less.last() == entries.last());
        let a = entries_map(less.drop_last());
        let b = entries_map(entries.drop_last());
        assert(a.remove(key) == b.remove(key));
        let k = entries.last().0@;
        let v = entries.last().1;
        assert forall|x: Seq<char>|
            a.insert(k, v).remove(key).contains_key(x) <==> b.insert(k, v).remove(
                key,
            ).contains_key(x) by {
            assert(a.remove(key).contains_key(x) <==> b.remove(key).contains_key(x));
        }
        assert forall|x: Seq<char>|
            a.insert(k, v).remove(key).contains_key(x) implies a.insert(k, v).remove(key)[x]
            == b.insert(k, v).remove(key)[x] by {
            if x != k {
                assert(a.remove(key)[x] == b.remove(key)[x]);
            }
        }
        assert(a.insert(k, v).remove(key) =~= b.insert(k, v).remove(key));
    } else {
        assert(less =~= entries.drop_last());
        assert(entries_map(less).remove(key) =~= entries_map(entries).remove(key));
    }
}

impl<V> NameMap<V> {
    /// The empty map.
    pub fn new() -> (r: NameMap<V>)
        ensures
            r@ == Map::<Seq<char>, V>::empty(),
    {
        NameMap { entries: Vec::new() }
    }

    /// The position of the entry with the given name.
    fn position(&self, key: &str) -> (r: Option<usize>)
        ensures
            match r {
                Some(i) => i < self.entries@.len() && self.entries@[i as int].0@ == key@ && (
                forall|j: int|
                    i < j < self.entries@.len() ==> (#[trigger] self.entries@[j]).0@ != key@),
                None => forall|j: int|
                    0 <= j < self.entries@.len() ==> (#[trigger] self.entries@[j]).0@ != key@,
            },
    {
        let mut i: usize = self.entries.len();
        while i > 0
            invariant
                i <= self.entries@.len(),
                forall|j: int|
                    i <= j < self.entries@.len() ==> (#[trigger] self.entries@[j]).0@ != key@,
            decreases i,
        {
            i -= 1;
            if text::same(self.entries[i].0.as_str(), key) {
                return Some(i);
            }
        }
        None
    }

    /// Sets the value of `key`.
    pub fn insert(&mut self, key: String, value: V)
        ensures
            final(self)@ == old(self)@.insert(key@, value),
    {
        let entry = (key, value);
        match self.position(entry.0.as_str()) {
            Some(i) => {
                proof {
                    entries_map_update(self.entries@, i as int, entry);
                }
                self.entries.set(i, entry);
            },
            None => {
                let ghost before = self.entries@;
                self.entries.push(entry);
                assert(self.entries@.drop_last() =~= before);
            },
        }
    }

    /// The value of `key`.
    pub fn get(&self, key: &str) -> (r: Option<&V>)
        ensures
            match r {
                Some(v) => self@.contains_key(key@) && self@[key@] == *v,
                None => !self@.contains_key(key@),
            },
    {
        match self.position(key) {
            Some(i) => {
                proof {
                    entries_map_at(self.entries@, i as int);
                }
                Some(&self.entries[i].1)
            },
            None => {
                proof {
                    entries_map_absent(self.entries@, key@);
                }
                None
            },
        }
    }

    /// Whether `key` has a value.
    pub fn contains_key(&self, key: &str) -> (r: bool)
        ensures
            r == self@.contains_key(key@),
    {
        self.get(key).is_some()
    }

    /// Takes the value of `key` away.
    pub fn remove(&mut self, key: &str)
        ensures
            final(self)@ == old(self)@.remove(key@),
    {
        loop
            invariant
                self@.remove(key@) == old(self)@.remove(key@),
            decreases self.entries@.len(),
        {
            match self.position(key) {
                Some(i) => {
                    proof {
                        entries_map_remove(self.entries@, i as int);
                    }
                    let _ = self.entries.remove(i);
                },
                None => {
                    proof {
                        entries_map_absent(self.entries@, key@);
                        assert(self@.remove(key@) =~= self@);
                    }
                    return;
                },
            }
        }
    }

    /// The map of the given entries; of two with one name, the later counts.
    pub fn from_entries(entries: Vec<(String, V)>) -> (r: NameMap<V>)
        ensures
            r@ == entries_map(entries@),
    {
        NameMap { entries }
    }
}

/// The set of the names of a list.
pub open spec fn name_set(names: Seq<String>) -> Set<Seq<char>> {
    Set::new(|n: Seq<char>| text::views(names).contains(n))
}

/// Appending a name adds it to the set.
pub proof fn name_set_push(names: Seq<String>, n: String)
    ensures
        name_set(names.push(n)) == name_set(names).insert(n@),
{
    let a = name_set(names.push(n));
    let b = name_set(names).insert(n@);
    assert forall|x: Seq<char>| #[trigger] a.contains(x) == b.contains(x) by {
        if a.contains(x) {
            let i = choose|i: int|
                0 <= i < text::views(names.push(n)).len() && text::views(names.push(n))[i] == x;
            if i < names.len() {
                assert(text::views(names)[i] == x);
            }
        }
        if text::views(names).contains(x) {
            let i = choose|i: int| 0 <= i < text::views(names).len() && text::views(names)[i] == x;
            assert(text::views(names.push(n))[i] == x);
        }
        if x == n@ {
            assert(text::views(names.push(n))[names.len() as int] == x);
        }
    }
    assert(a =~= b);
}

} // verus!
