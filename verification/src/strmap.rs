//! A string-keyed map backed by a vector of entries with distinct keys,
//! viewed as a `Map<Seq<char>, V>`.

use vstd::prelude::*;

use crate::strutil::str_eq_str;

verus! {

/// A mutable map from names to values, scoped to one session.
pub struct StrMap<V> {
    entries: Vec<(String, V)>,
}

/// The map described by a sequence of entries; a later entry wins over an
/// earlier one with the same key.
pub open spec fn spec_entries_map<V>(es: Seq<(String, V)>) -> Map<Seq<char>, V>
    decreases es.len(),
{
    if es.len() == 0 {
        Map::empty()
    } else {
        spec_entries_map(es.drop_last()).insert(es.last().0@, es.last().1)
    }
}

/// Whether some entry carries the key `k`.
pub open spec fn spec_has_key<V>(es: Seq<(String, V)>, k: Seq<char>) -> bool {
    exists|i: int| 0 <= i < es.len() && (#[trigger] es[i].0@) == k
}

impl<V> View for StrMap<V> {
    type V = Map<Seq<char>, V>;

    closed spec fn view(&self) -> Map<Seq<char>, V> {
        spec_entries_map(self.entries@)
    }
}

/// The domain of the entry map is exactly the keys of the entries.
proof fn lemma_entries_map_dom<V>(es: Seq<(String, V)>, k: Seq<char>)
    ensures
        spec_entries_map(es).contains_key(k) <==> spec_has_key(es, k),
    decreases es.len(),
{
    if es.len() > 0 {
        lemma_entries_map_dom(es.drop_last(), k);
        if k == es.last().0@ {
            assert((es[es.len() - 1].0@) == k);
            assert(spec_has_key(es, k));
        } else {
            if spec_has_key(es.drop_last(), k) {
                let i = choose|i: int|
                    0 <= i < es.drop_last().len() && (#[trigger] es.drop_last()[i].0@) == k;
                assert(es.drop_last()[i] == es[i]);
                assert(spec_has_key(es, k));
            }
            if spec_has_key(es, k) {
                let i = choose|i: int| 0 <= i < es.len() && (#[trigger] es[i].0@) == k;
                assert(i < es.len() - 1);
                assert(es.drop_last()[i] == es[i]);
                assert(spec_has_key(es.drop_last(), k));
            }
        }
    }
}

/// With distinct keys, the entry at any index gives the map's value at its
/// key.
proof fn lemma_entries_map_at<V>(es: Seq<(String, V)>, i: int)
    requires
        0 <= i < es.len(),
        forall|a: int, b: int|
            0 <= a < b < es.len() ==> (#[trigger] es[a].0@) != (#[trigger] es[b].0@),
    ensures
        spec_entries_map(es).contains_key(es[i].0@),
        spec_entries_map(es)[es[i].0@] == es[i].1,
    decreases es.len(),
{
    if i == es.len() - 1 {
    } else {
        assert(forall|a: int, b: int|
            0 <= a < b < es.drop_last().len() ==> (#[trigger] es.drop_last()[a].0@)
                != (#[trigger] es.drop_last()[b].0@)) by {
            assert(forall|a: int|
                0 <= a < es.drop_last().len() ==> es.drop_last()[a] == #[trigger] es[a]);
        }
        assert(es.drop_last()[i] == es[i]);
        lemma_entries_map_at(es.drop_last(), i);
        assert(es[i].0@ != es.last().0@) by {
            assert(es.last() == es[es.len() - 1]);
        }
    }
}

impl<V> StrMap<V> {
    /// The keys of the stored entries are pairwise distinct.
    pub closed spec fn wf(&self) -> bool {
        forall|a: int, b: int|
            0 <= a < b < self.entries@.len() ==> (#[trigger] self.entries@[a].0@)
                != (#[trigger] self.entries@[b].0@)
    }

    /// An empty map.
    pub fn new() -> (r: StrMap<V>)
        ensures
            r.wf(),
            r@ == Map::<Seq<char>, V>::empty(),
    {
        StrMap { entries: Vec::new() }
    }

    /// The number of entries.
    pub fn len(&self) -> (r: usize)
        requires
            self.wf(),
        ensures
            r == self@.dom().len(),
            self@.dom().finite(),
    {
        proof {
            Self::lemma_len(self.entries@);
        }
        self.entries.len()
    }

    proof fn lemma_len(es: Seq<(String, V)>)
        requires
            forall|a: int, b: int|
                0 <= a < b < es.len() ==> (#[trigger] es[a].0@) != (#[trigger] es[b].0@),
        ensures
            spec_entries_map(es).dom().len() == es.len(),
            spec_entries_map(es).dom().finite(),
        decreases es.len(),
    {
        if es.len() > 0 {
            assert(forall|a: int, b: int|
                0 <= a < b < es.drop_last().len() ==> (#[trigger] es.drop_last()[a].0@)
                    != (#[trigger] es.drop_last()[b].0@)) by {
                assert(forall|a: int|
                    0 <= a < es.drop_last().len() ==> es.drop_last()[a] == #[trigger] es[a]);
            }
            Self::lemma_len(es.drop_last());
            lemma_entries_map_dom(es.drop_last(), es.last().0@);
            assert(!spec_entries_map(es.drop_last()).contains_key(es.last().0@)) by {
                if spec_has_key(es.drop_last(), es.last().0@) {
                    let i = choose|i: int|
                        0 <= i < es.drop_last().len() && (#[trigger] es.drop_last()[i].0@)
                            == es.last().0@;
                    assert(es.drop_last()[i] == es[i]);
                    assert(es[i].0@ == es[es.len() - 1].0@);
                }
            }
            vstd::set::axiom_set_insert_len(spec_entries_map(es.drop_last()).dom(), es.last().0@);
            assert(spec_entries_map(es).dom() =~= spec_entries_map(es.drop_last()).dom().insert(
                es.last().0@,
            ));
        }
    }

    /// Look a key up.
    pub fn get(&self, key: &str) -> (r: Option<&V>)
        requires
            self.wf(),
        ensures
            match r {
                Some(v) => self@.contains_key(key@) && *v == self@[key@],
                None => !self@.contains_key(key@),
            },
    {
        let n = self.entries.len();
        let mut i: usize = 0;
        while i < n
            invariant
                i <= n,
                n == self.entries@.len(),
                self.wf(),
                forall|j: int| 0 <= j < i ==> (#[trigger] self.entries@[j].0@) != key@,
            decreases n - i,
        {
            if str_eq_str(self.entries[i].0.as_str(), key) {
                proof {
                    lemma_entries_map_at(self.entries@, i as int);
                }
                return Some(&self.entries[i].1);
            }
            i += 1;
        }
        proof {
            lemma_entries_map_dom(self.entries@, key@);
        }
        None
    }

    /// Whether a key is present.
    pub fn contains_key(&self, key: &str) -> (r: bool)
        requires
            self.wf(),
        ensures
            r == self@.contains_key(key@),
    {
        match self.get(key) {
            Some(_) => true,
            None => false,
        }
    }

    /// Store a value under a key, replacing any previous value.
    pub fn insert(&mut self, key: String, value: V)
        requires
            old(self).wf(),
        ensures
            final(self).wf(),
            final(self)@ == old(self)@.insert(key@, value),
    {
        let ghost old_map = self@;
        let _removed = self.remove(key.as_str());
        let ghost mid_es = self.entries@;
        self.entries.push((key, value));
        proof {
            assert(self.entries@.drop_last() =~= mid_es);
            assert(self.entries@.last() == self.entries@[self.entries@.len() - 1]);
            lemma_entries_map_dom(mid_es, key@);
            assert(!spec_has_key(mid_es, key@));
            assert(self.wf()) by {
                assert forall|a: int, b: int|
                    0 <= a < b < self.entries@.len() implies (#[trigger] self.entries@[a].0@)
                    != (#[trigger] self.entries@[b].0@) by {
                    if b == self.entries@.len() - 1 {
                        assert(self.entries@[a] == mid_es[a]);
                        if self.entries@[a].0@ == key@ {
                            assert(mid_es[a].0@ == key@);
                            assert(spec_has_key(mid_es, key@));
                        }
                    } else {
                        assert(self.entries@[a] == mid_es[a]);
                        assert(self.entries@[b] == mid_es[b]);
                    }
                }
            }
            assert(self@ == spec_entries_map(mid_es).insert(key@, value));
            assert(self@ =~= old_map.insert(key@, value));
        }
    }

    /// Take a value out of the map.
    pub fn remove(&mut self, key: &str) -> (r: Option<V>)
        requires
            old(self).wf(),
        ensures
            final(self).wf(),
            final(self)@ == old(self)@.remove(key@),
            match r {
                Some(v) => old(self)@.contains_key(key@) && v == old(self)@[key@],
                None => !old(self)@.contains_key(key@),
            },
    {
        let n = self.entries.len();
        let mut i: usize = 0;
        while i < n
            invariant
                i <= n,
                n == self.entries@.len(),
                self.wf(),
                self.entries@ == old(self).entries@,
                forall|j: int| 0 <= j < i ==> (#[trigger] self.entries@[j].0@) != key@,
            decreases n - i,
        {
            if str_eq_str(self.entries[i].0.as_str(), key) {
                proof {
                    lemma_entries_map_at(self.entries@, i as int);
                }
                let ghost old_es = self.entries@;
                let entry = self.entries.remove(i);
                proof {
                    assert(old_es == old(self).entries@);
                    assert(self.entries@ =~= old_es.subrange(0, i as int) + old_es.skip(i + 1));
                    Self::lemma_remove_entry(old_es, i as int);
                    assert(old_es[i as int].0@ == key@);
                    assert(self@ == old(self)@.remove(key@));
                    assert(entry == old_es[i as int]);
                    assert(entry.1 == old(self)@[key@]);
                }
                return Some(entry.1);
            }
            i += 1;
        }
        proof {
            lemma_entries_map_dom(self.entries@, key@);
            assert(self@ =~= self@.remove(key@));
        }
        None
    }

    /// Removing the entry at `i` removes exactly its key from the map.
    proof fn lemma_remove_entry(es: Seq<(String, V)>, i: int)
        requires
            0 <= i < es.len(),
            forall|a: int, b: int|
                0 <= a < b < es.len() ==> (#[trigger] es[a].0@) != (#[trigger] es[b].0@),
        ensures
            ({
                let rest = es.subrange(0, i) + es.skip(i + 1);
                &&& (forall|a: int, b: int|
                    0 <= a < b < rest.len() ==> (#[trigger] rest[a].0@) != (
                    #[trigger] rest[b].0@))
                &&& spec_entries_map(rest) == spec_entries_map(es).remove(es[i].0@)
            }),
        decreases es.len(),
    {
        let rest = es.subrange(0, i) + es.skip(i + 1);
        assert forall|a: int, b: int|
            0 <= a < b < rest.len() implies (#[trigger] rest[a].0@) != (#[trigger] rest[b].0@) by {
            let a2 = if a < i {
                a
            } else {
                a + 1
            };
            let b2 = if b < i {
                b
            } else {
                b + 1
            };
            assert(rest[a] == es[a2] && rest[b] == es[b2]);
        }
        if i == es.len() - 1 {
            assert(rest =~= es.drop_last());
            lemma_entries_map_dom(es.drop_last(), es[i].0@);
            assert(!spec_entries_map(es.drop_last()).contains_key(es[i].0@)) by {
                if spec_has_key(es.drop_last(), es[i].0@) {
                    let j = choose|j: int|
                        0 <= j < es.drop_last().len() && (#[trigger] es.drop_last()[j].0@)
                            == es[i].0@;
                    assert(es.drop_last()[j] == es[j]);
                    assert(es[j].0@ == es[i].0@);
                }
            }
            assert(spec_entries_map(rest) =~= spec_entries_map(es).remove(es[i].0@));
        } else {
            assert(forall|a: int, b: int|
                0 <= a < b < es.drop_last().len() ==> (#[trigger] es.drop_last()[a].0@)
                    != (#[trigger] es.drop_last()[b].0@)) by {
                assert(forall|a: int|
                    0 <= a < es.drop_last().len() ==> es.drop_last()[a] == #[trigger] es[a]);
            }
            Self::lemma_remove_entry(es.drop_last(), i);
            let rest2 = es.drop_last().subrange(0, i) + es.drop_last().skip(i + 1);
            assert(es.drop_last()[i] == es[i]);
            assert(rest.drop_last() =~= rest2);
            assert(rest.last() == es.last()) by {
                assert(rest[rest.len() - 1] == es[es.len() - 1]);
            }
            assert(spec_entries_map(rest) == spec_entries_map(rest2).insert(
                es.last().0@,
                es.last().1,
            ));
            assert(es[i].0@ != es.last().0@) by {
                assert(es.last() == es[es.len() - 1]);
            }
            assert(spec_entries_map(rest) =~= spec_entries_map(es).remove(es[i].0@));
        }
    }
}

} // verus!
