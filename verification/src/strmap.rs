//! A small map keyed by strings, with the keys kept in insertion order. Its
//! model is a `Map` from character sequences to values.

use vstd::prelude::*;
use crate::text::str_eq;
use crate::seqs::{keep, lemma_keep_all, lemma_keep_remove};

verus! {

/// Maps string keys to values; no key occurs twice.
pub struct StrMap<V: View> {
    entries: Vec<(String, V)>,
}

pub open spec fn distinct_keys<V: View>(es: Seq<(String, V)>) -> bool {
    forall|i: int, j: int|
        0 <= i < es.len() && 0 <= j < es.len() && i != j ==> (#[trigger] es[i]).0@ != (
        #[trigger] es[j]).0@
}

pub open spec fn as_map<V: View>(es: Seq<(String, V)>) -> Map<Seq<char>, V::V>
    decreases es.len(),
{
    if es.len() == 0 {
        Map::empty()
    } else {
        as_map(es.drop_last()).insert(es.last().0@, es.last().1@)
    }
}

pub proof fn lemma_as_map_entry<V: View>(es: Seq<(String, V)>, i: int)
    requires
        distinct_keys(es),
        0 <= i < es.len(),
    ensures
        as_map(es).contains_key(es[i].0@),
        as_map(es)[es[i].0@] == es[i].1@,
    decreases es.len(),
{
    if i < es.len() - 1 {
        let d = es.drop_last();
        assert(d[i] == es[i]);
        assert(distinct_keys(d)) by {
            assert forall|a: int, b: int|
                0 <= a < d.len() && 0 <= b < d.len() && a != b implies (#[trigger] d[a]).0@ != (
                #[trigger] d[b]).0@ by {
                assert(d[a] == es[a] && d[b] == es[b]);
            }
        }
        lemma_as_map_entry(d, i);
        assert(es[i] == es[i]);
        assert(es[es.len() - 1].0@ != es[i].0@);
    }
}

pub proof fn lemma_as_map_dom<V: View>(es: Seq<(String, V)>, k: Seq<char>)
    ensures
        as_map(es).contains_key(k) <==> exists|i: int| 0 <= i < es.len() && (#[trigger] es[i]).0@ == k,
    decreases es.len(),
{
    if es.len() > 0 {
        let d = es.drop_last();
        lemma_as_map_dom(d, k);
        if as_map(es).contains_key(k) {
            if k == es.last().0@ {
                assert(es[es.len() - 1].0@ == k);
            } else {
                let i = choose|i: int| 0 <= i < d.len() && (#[trigger] d[i]).0@ == k;
                assert(es[i] == d[i]);
            }
        }
        if exists|i: int| 0 <= i < es.len() && (#[trigger] es[i]).0@ == k {
            let i = choose|i: int| 0 <= i < es.len() && (#[trigger] es[i]).0@ == k;
            if i < es.len() - 1 {
                assert(d[i] == es[i]);
            }
        }
    }
}

proof fn lemma_distinct_prefix<V: View>(es: Seq<(String, V)>)
    requires
        distinct_keys(es),
        es.len() > 0,
    ensures
        distinct_keys(es.drop_last()),
{
    let d = es.drop_last();
    assert forall|a: int, b: int|
        0 <= a < d.len() && 0 <= b < d.len() && a != b implies (#[trigger] d[a]).0@ != (
        #[trigger] d[b]).0@ by {
        assert(d[a] == es[a] && d[b] == es[b]);
    }
}

proof fn lemma_as_map_update<V: View>(es: Seq<(String, V)>, i: int, e: (String, V))
    requires
        distinct_keys(es),
        0 <= i < es.len(),
        e.0@ == es[i].0@,
    ensures
        as_map(es.update(i, e)) =~= as_map(es).insert(e.0@, e.1@),
    decreases es.len(),
{
    let u = es.update(i, e);
    let d = es.drop_last();
    if i == es.len() - 1 {
        assert(u.drop_last() =~= d);
    } else {
        lemma_distinct_prefix(es);
        lemma_as_map_update(d, i, e);
        assert(u.drop_last() =~= d.update(i, e));
        assert(es[es.len() - 1].0@ != es[i].0@);
    }
}

proof fn lemma_as_map_remove<V: View>(es: Seq<(String, V)>, i: int)
    requires
        distinct_keys(es),
        0 <= i < es.len(),
    ensures
        distinct_keys(es.remove(i)),
        as_map(es.remove(i)) =~= as_map(es).remove(es[i].0@),
    decreases es.len(),
{
    let r = es.remove(i);
    assert(distinct_keys(r)) by {
        assert forall|a: int, b: int|
            0 <= a < r.len() && 0 <= b < r.len() && a != b implies (#[trigger] r[a]).0@ != (
            #[trigger] r[b]).0@ by {
            let a2 = if a < i { a } else { a + 1 };
            let b2 = if b < i { b } else { b + 1 };
            assert(r[a] == es[a2] && r[b] == es[b2]);
        }
    }
    let d = es.drop_last();
    if i == es.len() - 1 {
        assert(r =~= d);
        lemma_as_map_dom(d, es[i].0@);
        assert forall|k: int| 0 <= k < d.len() implies (#[trigger] d[k]).0@ != es[i].0@ by {
            assert(d[k] == es[k]);
        }
        assert(!as_map(d).contains_key(es[i].0@));
    } else {
        lemma_distinct_prefix(es);
        assert(d[i] == es[i]);
        lemma_as_map_remove(d, i);
        assert(r.drop_last() =~= d.remove(i));
        assert(r.last() == es.last());
        assert(es[es.len() - 1].0@ != es[i].0@);
    }
}

impl<V: View> View for StrMap<V> {
    type V = Map<Seq<char>, V::V>;

    closed spec fn view(&self) -> Map<Seq<char>, V::V> {
        as_map(self.entries@)
    }
}

impl<V: View> StrMap<V> {
    /// Keys are pairwise different.
    pub closed spec fn wf(&self) -> bool {
        distinct_keys(self.entries@)
    }

    /// The keys, in insertion order.
    pub closed spec fn key_order(&self) -> Seq<Seq<char>> {
        self.entries@.map_values(|e: (String, V)| e.0@)
    }

    /// The keys in insertion order are exactly the map's keys, each once.
    pub proof fn lemma_keys(&self)
        requires
            self.wf(),
        ensures
            forall|i: int|
                0 <= i < self.key_order().len() ==> self@.contains_key(
                    #[trigger] self.key_order()[i],
                ),
            forall|k: Seq<char>|
                self@.contains_key(k) ==> exists|i: int|
                    0 <= i < self.key_order().len() && #[trigger] self.key_order()[i] == k,
            forall|i: int, j: int|
                0 <= i < self.key_order().len() && 0 <= j < self.key_order().len() && i != j
                    ==> #[trigger] self.key_order()[i] != #[trigger] self.key_order()[j],
    {
        let es = self.entries@;
        assert forall|i: int| 0 <= i < self.key_order().len() implies self@.contains_key(
            #[trigger] self.key_order()[i],
        ) by {
            lemma_as_map_entry(es, i);
        }
        assert forall|k: Seq<char>| self@.contains_key(k) implies exists|i: int|
            0 <= i < self.key_order().len() && #[trigger] self.key_order()[i] == k by {
            lemma_as_map_dom(es, k);
            let i = choose|i: int| 0 <= i < es.len() && (#[trigger] es[i]).0@ == k;
            assert(self.key_order()[i] == k);
        }
        assert forall|i: int, j: int|
            0 <= i < self.key_order().len() && 0 <= j < self.key_order().len() && i != j
                implies #[trigger] self.key_order()[i] != #[trigger] self.key_order()[j] by {
            assert(es[i].0@ != es[j].0@);
        }
    }

    pub fn new() -> (r: Self)
        ensures
            r.wf(),
            r@ == Map::<Seq<char>, V::V>::empty(),
            r.key_order() == Seq::<Seq<char>>::empty(),
    {
        let r = StrMap { entries: Vec::new() };
        assert(r.key_order() =~= Seq::<Seq<char>>::empty());
        r
    }

    fn find(&self, key: &str) -> (r: Option<usize>)
        requires
            self.wf(),
        ensures
            match r {
                Some(i) => i < self.entries@.len() && self.entries@[i as int].0@ == key@,
                None => forall|i: int|
                    0 <= i < self.entries@.len() ==> (#[trigger] self.entries@[i]).0@ != key@,
            },
    {
        let mut i: usize = 0;
        while i < self.entries.len()
            invariant
                i <= self.entries@.len(),
                forall|j: int| 0 <= j < i ==> (#[trigger] self.entries@[j]).0@ != key@,
            decreases self.entries@.len() - i,
        {
            if str_eq(self.entries[i].0.as_str(), key) {
                return Some(i);
            }
            i += 1;
        }
        None
    }

    /// The value stored under `key`.
    pub fn get(&self, key: &str) -> (r: Option<&V>)
        requires
            self.wf(),
        ensures
            match r {
                Some(v) => self@.contains_key(key@) && v@ == self@[key@],
                None => !self@.contains_key(key@),
            },
    {
        proof {
            lemma_as_map_dom(self.entries@, key@);
        }
        match self.find(key) {
            Some(i) => {
                proof {
                    lemma_as_map_entry(self.entries@, i as int);
                }
                Some(&self.entries[i].1)
            },
            None => None,
        }
    }

    /// Whether `key` has a value.
    pub fn contains_key(&self, key: &str) -> (r: bool)
        requires
            self.wf(),
        ensures
            r == self@.contains_key(key@),
    {
        proof {
            lemma_as_map_dom(self.entries@, key@);
        }
        self.find(key).is_some()
    }

    /// Whether the map holds no entry.
    pub fn is_empty(&self) -> (r: bool)
        requires
            self.wf(),
        ensures
            r == (self@ == Map::<Seq<char>, V::V>::empty()),
    {
        if self.entries.len() == 0 {
            assert(self@ =~= Map::<Seq<char>, V::V>::empty());
            true
        } else {
            proof {
                lemma_as_map_entry(self.entries@, 0);
                assert(!Map::<Seq<char>, V::V>::empty().contains_key(self.entries@[0].0@));
            }
            false
        }
    }

    /// Number of keys.
    pub fn len(&self) -> (r: usize)
        ensures
            r == self.key_order().len(),
    {
        self.entries.len()
    }

    /// The `i`-th key in insertion order and its value.
    pub fn entry_at(&self, i: usize) -> (r: (&String, &V))
        requires
            self.wf(),
            i < self.key_order().len(),
        ensures
            r.0@ == self.key_order()[i as int],
            self@.contains_key(r.0@),
            r.1@ == self@[r.0@],
    {
        proof {
            lemma_as_map_entry(self.entries@, i as int);
        }
        (&self.entries[i].0, &self.entries[i].1)
    }

    /// The keys, in insertion order.
    pub fn keys(&self) -> (r: Vec<String>)
        requires
            self.wf(),
        ensures
            r@.len() == self.key_order().len(),
            forall|i: int| 0 <= i < r@.len() ==> (#[trigger] r@[i])@ == self.key_order()[i],
    {
        let mut r: Vec<String> = Vec::new();
        let mut i: usize = 0;
        while i < self.entries.len()
            invariant
                i <= self.entries@.len(),
                self.key_order().len() == self.entries@.len(),
                r@.len() == i,
                forall|j: int| 0 <= j < i ==> (#[trigger] r@[j])@ == self.key_order()[j],
            decreases self.entries@.len() - i,
        {
            r.push(self.entries[i].0.clone());
            i += 1;
        }
        r
    }

    /// The most recently inserted key still present.
    pub fn last_key(&self) -> (r: Option<String>)
        ensures
            match r {
                Some(k) => self.key_order().len() > 0 && k@ == self.key_order().last(),
                None => self.key_order().len() == 0,
            },
    {
        if self.entries.len() == 0 {
            None
        } else {
            Some(self.entries[self.entries.len() - 1].0.clone())
        }
    }

    /// Puts `value` under a key already present and hands back the value it
    /// held; the key order does not change.
    pub fn replace(&mut self, key: &str, value: V) -> (r: V)
        requires
            old(self).wf(),
            old(self)@.contains_key(key@),
        ensures
            final(self).wf(),
            final(self)@ == old(self)@.insert(key@, value@),
            r@ == old(self)@[key@],
            final(self).key_order() == old(self).key_order(),
    {
        proof {
            lemma_as_map_dom(self.entries@, key@);
        }
        let ghost before = self.entries@;
        let ghost ko = self.key_order();
        match self.find(key) {
            Some(i) => {
                proof {
                    lemma_as_map_entry(before, i as int);
                }
                let (k, old_value) = self.entries.remove(i);
                let ghost kv = k@;
                self.entries.insert(i, (k, value));
                assert(self.entries@ =~= before.update(i as int, self.entries@[i as int]));
                proof {
                    lemma_as_map_update(before, i as int, self.entries@[i as int]);
                }
                assert(distinct_keys(self.entries@)) by {
                    assert forall|a: int, b: int|
                        0 <= a < self.entries@.len() && 0 <= b < self.entries@.len() && a
                            != b implies (#[trigger] self.entries@[a]).0@ != (
                        #[trigger] self.entries@[b]).0@ by {
                        assert(self.entries@[a].0@ == before[a].0@);
                        assert(self.entries@[b].0@ == before[b].0@);
                    }
                }
                assert(self.key_order() =~= ko) by {
                    assert forall|j: int| 0 <= j < ko.len() implies #[trigger] self.key_order()[j]
                        == ko[j] by {
                        assert(self.entries@[j].0@ == before[j].0@);
                    }
                }
                old_value
            },
            None => {
                proof {
                    assert(false);
                }
                value
            },
        }
    }

    /// Stores `value` under `key`, replacing any earlier value (`HashMap::insert`).
    pub fn insert(&mut self, key: String, value: V)
        requires
            old(self).wf(),
        ensures
            final(self).wf(),
            final(self)@ == old(self)@.insert(key@, value@),
            final(self).key_order() == if old(self)@.contains_key(key@) {
                old(self).key_order()
            } else {
                old(self).key_order().push(key@)
            },
    {
        proof {
            lemma_as_map_dom(self.entries@, key@);
        }
        let ghost ko = self.key_order();
        match self.find(key.as_str()) {
            Some(i) => {
                proof {
                    lemma_as_map_update(self.entries@, i as int, (key, value));
                }
                let ghost before = self.entries@;
                let ghost kv = key@;
                self.entries.set(i, (key, value));
                assert(self.key_order() =~= ko) by {
                    assert forall|j: int| 0 <= j < ko.len() implies #[trigger] self.key_order()[j] == ko[j] by {
                        if j == i {
                            assert(before[j].0@ == kv);
                        }
                    }
                }
                assert(distinct_keys(self.entries@)) by {
                    assert forall|a: int, b: int|
                        0 <= a < self.entries@.len() && 0 <= b < self.entries@.len() && a
                            != b implies (#[trigger] self.entries@[a]).0@ != (
                        #[trigger] self.entries@[b]).0@ by {
                        assert(self.entries@[a].0@ == before[a].0@);
                        assert(self.entries@[b].0@ == before[b].0@);
                    }
                }
            },
            None => {
                let ghost before = self.entries@;
                let ghost kv = key@;
                self.entries.push((key, value));
                assert(self.entries@.drop_last() =~= before);
                assert(self.key_order() =~= ko.push(kv));
                assert(distinct_keys(self.entries@)) by {
                    assert forall|a: int, b: int|
                        0 <= a < self.entries@.len() && 0 <= b < self.entries@.len() && a
                            != b implies (#[trigger] self.entries@[a]).0@ != (
                        #[trigger] self.entries@[b]).0@ by {
                        if a < before.len() {
                            assert(self.entries@[a] == before[a]);
                        }
                        if b < before.len() {
                            assert(self.entries@[b] == before[b]);
                        }
                    }
                }
            },
        }
    }

    /// Stores `value` under `key` only when `key` has no value yet
    /// (`entry(key).or_insert(value)`).
    pub fn insert_if_absent(&mut self, key: String, value: V)
        requires
            old(self).wf(),
        ensures
            final(self).wf(),
            final(self)@ == if old(self)@.contains_key(key@) {
                old(self)@
            } else {
                old(self)@.insert(key@, value@)
            },
    {
        proof {
            lemma_as_map_dom(self.entries@, key@);
        }
        if !self.contains_key(key.as_str()) {
            self.insert(key, value);
        }
    }

    /// Removes `key` and its value (`HashMap::remove`); the other keys keep
    /// their order.
    pub fn remove(&mut self, key: &str) -> (r: Option<V>)
        requires
            old(self).wf(),
        ensures
            final(self).wf(),
            final(self)@ == old(self)@.remove(key@),
            r is Some <==> old(self)@.contains_key(key@),
            r is Some ==> r->0@ == old(self)@[key@],
            final(self).key_order() == keep(old(self).key_order(), |k: Seq<char>| k != key@),
    {
        proof {
            lemma_as_map_dom(self.entries@, key@);
        }
        let ghost before = self.entries@;
        let ghost ko = self.key_order();
        match self.find(key) {
            Some(i) => {
                proof {
                    lemma_as_map_entry(before, i as int);
                    lemma_as_map_remove(before, i as int);
                    assert forall|j: int| 0 <= j < ko.len() && j != i implies (|k: Seq<char>| k
                        != key@)(#[trigger] ko[j]) by {
                        assert(ko[j] == before[j].0@);
                    }
                    lemma_keep_remove(ko, |k: Seq<char>| k != key@, i as int);
                }
                let e = self.entries.remove(i);
                assert(self.key_order() =~= ko.remove(i as int));
                Some(e.1)
            },
            None => {
                proof {
                    assert(as_map(before).remove(key@) =~= as_map(before));
                    assert forall|j: int| 0 <= j < ko.len() implies (|k: Seq<char>| k != key@)(
                        #[trigger] ko[j]) by {
                        assert(ko[j] == before[j].0@);
                    }
                    lemma_keep_all(ko, |k: Seq<char>| k != key@);
                }
                None
            },
        }
    }
}

} // verus!
