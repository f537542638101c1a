//! Maps and sets that are keyed by text and visited in the order of the keys.
use vstd::prelude::*;

use crate::text::{before, before_is_total, before_is_transitive, same_text, sorts_before};

verus! {

/// The map that a list of entries makes; of two entries of one key the later
/// stands.
pub open spec fn map_of<V>(entries: Seq<(Seq<char>, V)>) -> Map<Seq<char>, V>
    decreases entries.len(),
{
    if entries.len() == 0 {
        Map::empty()
    } else {
        map_of(entries.drop_last()).insert(entries.last().0, entries.last().1)
    }
}

/// Entries in strictly ascending order of their keys.
pub open spec fn in_order<V>(entries: Seq<(Seq<char>, V)>) -> bool {
    forall|i: int, j: int|
        0 <= i < j < entries.len() ==> before((#[trigger] entries[i]).0, (#[trigger] entries[j]).0)
}

/// Entries by the views of their keys.
pub open spec fn entry_views<V>(entries: Seq<(String, V)>) -> Seq<(Seq<char>, V)> {
    entries.map_values(|e: (String, V)| (e.0@, e.1))
}

proof fn map_of_ordered<V>(entries: Seq<(Seq<char>, V)>)
    requires
        in_order(entries),
    ensures
        forall|i: int|
            0 <= i < entries.len() ==> map_of(entries).contains_key((#[trigger] entries[i]).0)
                && map_of(entries)[entries[i].0] == entries[i].1,
        forall|k: Seq<char>|
            map_of(entries).contains_key(k) ==> exists|i: int|
                0 <= i < entries.len() && (#[trigger] entries[i]).0 == k,
    decreases entries.len(),
{
    if entries.len() > 0 {
        let rest = entries.drop_last();
        map_of_ordered(rest);
        let last = entries.last();
        assert forall|i: int| 0 <= i < entries.len() implies map_of(entries).contains_key(
            (#[trigger] entries[i]).0,
        ) && map_of(entries)[entries[i].0] == entries[i].1 by {
            if i < rest.len() {
                assert(rest[i] == entries[i]);
                before_is_total(entries[i].0, last.0);
            }
        }
        assert forall|k: Seq<char>| map_of(entries).contains_key(k) implies exists|i: int|
            0 <= i < entries.len() && (#[trigger] entries[i]).0 == k by {
            if k == last.0 {
                assert(entries[entries.len() - 1].0 == k);
            } else {
                assert(map_of(rest).contains_key(k));
                let i = choose|i: int| 0 <= i < rest.len() && (#[trigger] rest[i]).0 == k;
                assert(entries[i].0 == k);
            }
        }
    }
}

proof fn map_of_is<V>(entries: Seq<(Seq<char>, V)>, map: Map<Seq<char>, V>)
    requires
        in_order(entries),
        forall|i: int|
            0 <= i < entries.len() ==> map.contains_key((#[trigger] entries[i]).0)
                && map[entries[i].0] == entries[i].1,
        forall|k: Seq<char>|
            map.contains_key(k) ==> exists|i: int|
                0 <= i < entries.len() && (#[trigger] entries[i]).0 == k,
    ensures
        map_of(entries) == map,
{
    map_of_ordered(entries);
    let made = map_of(entries);
    assert forall|k: Seq<char>| made.contains_key(k) implies map.contains_key(k) && map[k]
        == made[k] by {
        let i = choose|i: int| 0 <= i < entries.len() && (#[trigger] entries[i]).0 == k;
        assert(entries[i].0 == k);
    }
    assert forall|k: Seq<char>| map.contains_key(k) implies made.contains_key(k) by {
        let i = choose|i: int| 0 <= i < entries.len() && (#[trigger] entries[i]).0 == k;
        assert(entries[i].0 == k);
    }
    assert(made =~= map);
}

/// A map keyed by text.
#[derive(Debug, PartialEq, Eq)]
pub struct NameMap<V: Copy> {
    entries: Vec<(String, V)>,
}

impl<V: Copy> View for NameMap<V> {
    type V = Map<Seq<char>, V>;

    closed spec fn view(&self) -> Map<Seq<char>, V> {
        map_of(entry_views(self.entries@))
    }
}

impl<V: Copy> NameMap<V> {
    #[verifier::type_invariant]
    closed spec fn is_ordered(self) -> bool {
        in_order(entry_views(self.entries@))
    }

    /// The entries in the order of their keys.
    pub closed spec fn listed(&self) -> Seq<(Seq<char>, V)> {
        entry_views(self.entries@)
    }

    /// The map without entries.
    pub fn new() -> (map: NameMap<V>)
        ensures
            map@ == Map::<Seq<char>, V>::empty(),
    {
        let map = NameMap { entries: Vec::new() };
        assert(entry_views(map.entries@) =~= Seq::empty());
        map
    }

    /// The number of entries.
    pub fn len(&self) -> (n: usize)
        ensures
            n == self.listed().len(),
            in_order(self.listed()),
            self@ == map_of(self.listed()),
    {
        proof {
            use_type_invariant(self);
        }
        self.entries.len()
    }

    /// The entry at a place in the order of the keys.
    pub fn entry(&self, i: usize) -> (entry: (&str, V))
        requires
            i < self.listed().len(),
        ensures
            (entry.0@, entry.1) == self.listed()[i as int],
            self@.contains_key(entry.0@),
            self@[entry.0@] == entry.1,
    {
        proof {
            use_type_invariant(self);
            map_of_ordered(entry_views(self.entries@));
            assert(entry_views(self.entries@)[i as int] == (
                self.entries@[i as int].0@,
                self.entries@[i as int].1,
            ));
        }
        (self.entries[i].0.as_str(), self.entries[i].1)
    }

    fn position(&self, key: &str) -> (at: usize)
        ensures
            at <= self.entries@.len(),
            forall|i: int| 0 <= i < at ==> before((#[trigger] self.entries@[i]).0@, key@),
            at < self.entries@.len() ==> !before(self.entries@[at as int].0@, key@),
    {
        let mut at: usize = 0;
        while at < self.entries.len() && sorts_before(self.entries[at].0.as_str(), key)
            invariant
                at <= self.entries@.len(),
                forall|i: int| 0 <= i < at ==> before((#[trigger] self.entries@[i]).0@, key@),
            decreases self.entries@.len() - at,
        {
            at = at + 1;
        }
        at
    }

    /// The value of a key.
    pub fn get(&self, key: &str) -> (value: Option<V>)
        ensures
            value == (if self@.contains_key(key@) {
                Some(self@[key@])
            } else {
                None
            }),
    {
        let at: usize = self.position(key);
        proof {
            use_type_invariant(self);
            let entries = entry_views(self.entries@);
            map_of_ordered(entries);
            if at < entries.len() && entries[at as int].0 == key@ {
            } else if self@.contains_key(key@) {
                let i = choose|i: int| 0 <= i < entries.len() && (#[trigger] entries[i]).0 == key@;
                assert(entries[i].0 == self.entries@[i].0@);
                before_is_total(key@, key@);
                before_is_total(entries[at as int].0, key@);
                assert(i > at);
                assert(before(entries[at as int].0, entries[i].0));
            }
        }
        if at < self.entries.len() && same_text(self.entries[at].0.as_str(), key) {
            Some(self.entries[at].1)
        } else {
            None
        }
    }

    /// Whether there is an entry for a key.
    pub fn contains_key(&self, key: &str) -> (yes: bool)
        ensures
            yes == self@.contains_key(key@),
    {
        self.get(key).is_some()
    }

    /// The map with a key set to a value.
    pub fn with(self, key: &str, value: V) -> (map: NameMap<V>)
        ensures
            map@ == self@.insert(key@, value),
    {
        let at: usize = self.position(key);
        proof {
            use_type_invariant(&self);
            map_of_ordered(entry_views(self.entries@));
        }
        let ghost raw = self.entries@;
        let ghost was = entry_views(self.entries@);
        let ghost target = self@.insert(key@, value);
        let mut entries = self.entries;
        if at < entries.len() && same_text(entries[at].0.as_str(), key) {
            entries.set(at, (key.to_owned(), value));
            proof {
                let now = entry_views(entries@);
                assert(now =~= was.update(at as int, (key@, value)));
                assert forall|i: int, j: int| 0 <= i < j < now.len() implies before(
                    (#[trigger] now[i]).0,
                    (#[trigger] now[j]).0,
                ) by {
                    assert(now[i].0 == was[i].0);
                    assert(now[j].0 == was[j].0);
                }
                before_is_total(key@, key@);
                assert forall|i: int| 0 <= i < now.len() implies target.contains_key(
                    (#[trigger] now[i]).0,
                ) && target[now[i].0] == now[i].1 by {
                    if i != at {
                        assert(now[i] == was[i]);
                        if i < at {
                            assert(before(was[i].0, was[at as int].0));
                        } else {
                            assert(before(was[at as int].0, was[i].0));
                        }
                    }
                }
                assert forall|k: Seq<char>| target.contains_key(k) implies exists|i: int|
                    0 <= i < now.len() && (#[trigger] now[i]).0 == k by {
                    if k == key@ {
                        assert(now[at as int].0 == k);
                    } else {
                        let i = choose|i: int| 0 <= i < was.len() && (#[trigger] was[i]).0 == k;
                        assert(now[i].0 == k);
                    }
                }
                map_of_is(now, target);
            }
        } else {
            entries.insert(at, (key.to_owned(), value));
            proof {
                let now = entry_views(entries@);
                assert(now =~= was.insert(at as int, (key@, value)));
                if at < was.len() {
                    before_is_total(key@, was[at as int].0);
                }
                assert forall|i: int| at <= i < was.len() implies before(
                    key@,
                    (#[trigger] was[i]).0,
                ) by {
                    if i > at {
                        assert(before(was[at as int].0, was[i].0));
                        before_is_transitive(key@, was[at as int].0, was[i].0);
                    }
                }
                assert forall|i: int| 0 <= i < at implies before((#[trigger] was[i]).0, key@) by {
                    assert(raw[i].0@ == was[i].0);
                }
                assert forall|i: int, j: int| 0 <= i < j < now.len() implies before(
                    (#[trigger] now[i]).0,
                    (#[trigger] now[j]).0,
                ) by {
                    let a = if i < at {
                        i
                    } else {
                        i - 1
                    };
                    let b = if j < at {
                        j
                    } else {
                        j - 1
                    };
                    if i != at {
                        assert(now[i] == was[a]);
                    }
                    if j != at {
                        assert(now[j] == was[b]);
                    }
                }
                before_is_total(key@, key@);
                assert forall|i: int| 0 <= i < now.len() implies target.contains_key(
                    (#[trigger] now[i]).0,
                ) && target[now[i].0] == now[i].1 by {
                    if i < at {
                        assert(now[i] == was[i]);
                    } else if i > at {
                        assert(now[i] == was[i - 1]);
                    }
                }
                assert forall|k: Seq<char>| target.contains_key(k) implies exists|i: int|
                    0 <= i < now.len() && (#[trigger] now[i]).0 == k by {
                    if k == key@ {
                        assert(now[at as int].0 == k);
                    } else {
                        let i = choose|i: int| 0 <= i < was.len() && (#[trigger] was[i]).0 == k;
                        if i < at {
                            assert(now[i].0 == k);
                        } else {
                            assert(now[i + 1].0 == k);
                        }
                    }
                }
                map_of_is(now, target);
            }
        }
        NameMap { entries }
    }

    /// Sets a key to a value.
    pub fn insert(&mut self, key: &str, value: V)
        ensures
            final(self)@ == old(self)@.insert(key@, value),
    {
        let mut taken: NameMap<V> = NameMap::new();
        std::mem::swap(self, &mut taken);
        *self = taken.with(key, value);
    }

    /// The map without the entry of a key.
    pub fn without(self, key: &str) -> (map: NameMap<V>)
        ensures
            map@ == self@.remove(key@),
    {
        let at: usize = self.position(key);
        proof {
            use_type_invariant(&self);
            map_of_ordered(entry_views(self.entries@));
        }
        let ghost raw = self.entries@;
        let ghost was = entry_views(self.entries@);
        let ghost target = self@.remove(key@);
        let mut entries = self.entries;
        if at < entries.len() && same_text(entries[at].0.as_str(), key) {
            let _ = entries.remove(at);
            proof {
                let now = entry_views(entries@);
                assert(now =~= was.remove(at as int));
                before_is_total(key@, key@);
                assert forall|i: int, j: int| 0 <= i < j < now.len() implies before(
                    (#[trigger] now[i]).0,
                    (#[trigger] now[j]).0,
                ) by {
                    let a = if i < at {
                        i
                    } else {
                        i + 1
                    };
                    let b = if j < at {
                        j
                    } else {
                        j + 1
                    };
                    assert(now[i] == was[a]);
                    assert(now[j] == was[b]);
                }
                assert forall|i: int| 0 <= i < now.len() implies target.contains_key(
                    (#[trigger] now[i]).0,
                ) && target[now[i].0] == now[i].1 by {
                    let a = if i < at {
                        i
                    } else {
                        i + 1
                    };
                    assert(now[i] == was[a]);
                    if a < at {
                        assert(before(was[a].0, was[at as int].0));
                    } else {
                        assert(before(was[at as int].0, was[a].0));
                    }
                }
                assert forall|k: Seq<char>| target.contains_key(k) implies exists|i: int|
                    0 <= i < now.len() && (#[trigger] now[i]).0 == k by {
                    let i = choose|i: int| 0 <= i < was.len() && (#[trigger] was[i]).0 == k;
                    if i < at {
                        assert(now[i].0 == k);
                    } else {
                        assert(now[i - 1].0 == k);
                    }
                }
                map_of_is(now, target);
            }
        } else {
            proof {
                if target != self@ {
                    assert(self@.contains_key(key@)) by {
                        if !self@.contains_key(key@) {
                            assert(target =~= self@);
                        }
                    }
                    let i = choose|i: int| 0 <= i < was.len() && (#[trigger] was[i]).0 == key@;
                    assert(was[i].0 == raw[i].0@);
                    before_is_total(key@, key@);
                    before_is_total(was[at as int].0, key@);
                    assert(i > at);
                    assert(before(was[at as int].0, was[i].0));
                }
            }
        }
        NameMap { entries }
    }

    /// Takes the entry of a key out.
    pub fn remove(&mut self, key: &str)
        ensures
            final(self)@ == old(self)@.remove(key@),
    {
        let mut taken: NameMap<V> = NameMap::new();
        std::mem::swap(self, &mut taken);
        *self = taken.without(key);
    }

    /// An equal map.
    pub fn copy(&self) -> (copy: NameMap<V>)
        ensures
            copy@ == self@,
            copy.listed() == self.listed(),
    {
        let mut entries: Vec<(String, V)> = Vec::new();
        for i in 0..self.entries.len()
            invariant
                entry_views(entries@) == entry_views(self.entries@).take(i as int),
        {
            let name = self.entries[i].0.clone();
            let value = self.entries[i].1;
            entries.push((name, value));
            assert(entry_views(entries@) =~= entry_views(self.entries@).take(i as int).push(
                (name@, value),
            ));
            assert(entry_views(entries@) =~= entry_views(self.entries@).take(i + 1));
        }
        assert(entry_views(entries@) =~= entry_views(self.entries@));
        proof {
            use_type_invariant(self);
        }
        NameMap { entries }
    }
}

} // verus!
