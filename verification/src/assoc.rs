//! A small map from strings to values, kept as a list in which no key
//! occurs twice. Its view is the mathematical map from the characters of a
//! key to the value stored under it.

use vstd::prelude::*;
use crate::text::{to_chars, chars_eq};

verus! {

/// A map keyed by strings.
pub struct StrMap<V> {
    entries: Vec<(String, V)>,
}

/// Whether `list` names every key once.
pub open spec fn keys_distinct<V>(list: Seq<(String, V)>) -> bool {
    forall|i: int, j: int| 0 <= i < j < list.len() ==> (#[trigger] list[i]).0@ != (#[trigger] list[j]).0@
}

/// Whether `list` holds exactly the entries of `map`, each once.
pub open spec fn lists_map<V>(list: Seq<(String, V)>, map: Map<Seq<char>, V>) -> bool {
    &&& keys_distinct(list)
    &&& forall|i: int|
        0 <= i < list.len() ==> map.contains_key((#[trigger] list[i]).0@) && map[list[i].0@]
            == list[i].1
    &&& forall|k: Seq<char>|
        map.contains_key(k) ==> exists|i: int| 0 <= i < list.len() && (#[trigger] list[i]).0@ == k
}

/// Position of key `k` in `list`, where it occurs.
pub open spec fn position_of<V>(list: Seq<(String, V)>, k: Seq<char>) -> int {
    choose|i: int| 0 <= i < list.len() && (#[trigger] list[i]).0@ == k
}

/// The map that `list` spells out.
pub open spec fn map_of<V>(list: Seq<(String, V)>) -> Map<Seq<char>, V> {
    Map::new(
        |k: Seq<char>| exists|i: int| 0 <= i < list.len() && (#[trigger] list[i]).0@ == k,
        |k: Seq<char>| list[position_of(list, k)].1,
    )
}

/// A list without repeated keys lists the map that it spells out.
pub proof fn lemma_map_of<V>(list: Seq<(String, V)>)
    requires
        keys_distinct(list),
    ensures
        lists_map(list, map_of(list)),
{
    let map = map_of(list);
    assert forall|i: int| 0 <= i < list.len() implies map.contains_key((#[trigger] list[i]).0@)
        && map[list[i].0@] == list[i].1 by {
        let k = list[i].0@;
        let p = position_of(list, k);
        assert(0 <= p < list.len() && list[p].0@ == k);
        if p < i {
            assert(list[p].0@ != list[i].0@);
        } else if i < p {
            assert(list[i].0@ != list[p].0@);
        }
    }
}

impl<V> View for StrMap<V> {
    type V = Map<Seq<char>, V>;

    closed spec fn view(&self) -> Map<Seq<char>, V> {
        map_of(self.entries@)
    }
}

impl<V> StrMap<V> {
    #[verifier::type_invariant]
    spec fn inv(self) -> bool {
        keys_distinct(self.entries@)
    }

    /// The empty map.
    pub fn new() -> (out: Self)
        ensures
            out@ == Map::<Seq<char>, V>::empty(),
    {
        let out = StrMap { entries: Vec::new() };
        assert(out@ =~= Map::<Seq<char>, V>::empty());
        out
    }

    /// Where `key` stands in the list, if it does.
    fn find(&self, key: &str) -> (out: Option<usize>)
        ensures
            match out {
                Some(i) => i < self.entries@.len() && self.entries@[i as int].0@ == key@,
                None => forall|i: int|
                    0 <= i < self.entries@.len() ==> (#[trigger] self.entries@[i]).0@ != key@,
            },
    {
        let want = to_chars(key);
        let mut i: usize = 0;
        while i < self.entries.len()
            invariant
                want@ == key@,
                i <= self.entries@.len(),
                forall|k: int| 0 <= k < i ==> (#[trigger] self.entries@[k]).0@ != key@,
            decreases self.entries@.len() - i,
        {
            let have = to_chars(self.entries[i].0.as_str());
            if chars_eq(&have, &want) {
                return Some(i);
            }
            i = i + 1;
        }
        None
    }

    /// The value stored under `key`, if there is one.
    pub fn get(&self, key: &str) -> (out: Option<&V>)
        ensures
            match out {
                Some(v) => self@.contains_key(key@) && *v == self@[key@],
                None => !self@.contains_key(key@),
            },
    {
        proof {
            use_type_invariant(self);
            lemma_map_of(self.entries@);
        }
        match self.find(key) {
            Some(i) => Some(&self.entries[i].1),
            None => None,
        }
    }

    /// Whether a value is stored under `key`.
    pub fn contains_key(&self, key: &str) -> (out: bool)
        ensures
            out == self@.contains_key(key@),
    {
        self.get(key).is_some()
    }

    /// Stores `val` under `key`, in place of what was stored there.
    pub fn insert(&mut self, key: String, val: V)
        ensures
            final(self)@ == old(self)@.insert(key@, val),
    {
        proof {
            use_type_invariant(&*self);
            lemma_map_of(self.entries@);
        }
        let ghost before = self.entries@;
        let found = self.find(key.as_str());
        let mut entries: Vec<(String, V)> = Vec::new();
        std::mem::swap(&mut entries, &mut self.entries);
        if let Some(i) = found {
            let _ = entries.remove(i);
        }
        let ghost kept = entries@;
        assert(keys_distinct(kept)) by {
            assert forall|a: int, b: int| 0 <= a < b < kept.len() implies (#[trigger] kept[a]).0@
                != (#[trigger] kept[b]).0@ by {
                lemma_removed_index(before, found, a);
                lemma_removed_index(before, found, b);
            }
        }
        assert forall|a: int| 0 <= a < kept.len() implies (#[trigger] kept[a]).0@ != key@ by {
            lemma_removed_index(before, found, a);
        }
        entries.push((key, val));
        let ghost after = entries@;
        assert(keys_distinct(after));
        proof {
            lemma_map_of(after);
            assert(map_of(after) =~= map_of(before).insert(key@, val)) by {
                assert forall|k: Seq<char>| map_of(after).contains_key(k) == (k == key@ || map_of(
                    before,
                ).contains_key(k)) by {
                    if map_of(after).contains_key(k) && k != key@ {
                        let p = position_of(after, k);
                        assert(0 <= p < after.len() && after[p].0@ == k);
                        assert(p < kept.len());
                        assert(after[p] == kept[p]);
                        lemma_removed_index(before, found, p);
                        let q = match found {
                            Some(i) => if p < i { p } else { p + 1 },
                            None => p,
                        };
                        assert(before[q].0@ == k);
                    }
                    if map_of(before).contains_key(k) && k != key@ {
                        let p = position_of(before, k);
                        assert(0 <= p < before.len() && before[p].0@ == k);
                        lemma_kept_index(before, found, p);
                        let q = match found {
                            Some(i) => if p < i { p } else { p - 1 },
                            None => p,
                        };
                        assert(after[q] == kept[q]);
                        assert(after[q].0@ == k);
                    }
                    if k == key@ {
                        assert(after[kept.len() as int].0@ == k);
                    }
                }
                assert forall|k: Seq<char>| map_of(after).contains_key(k) implies map_of(after)[k]
                    == map_of(before).insert(key@, val)[k] by {
                    let p = position_of(after, k);
                    assert(0 <= p < after.len() && after[p].0@ == k);
                    if p < kept.len() {
                        assert(after[p] == kept[p]);
                        lemma_removed_index(before, found, p);
                        let q = match found {
                            Some(i) => if p < i { p } else { p + 1 },
                            None => p,
                        };
                        assert(before[q].0@ == k);
                        assert(map_of(before)[k] == before[q].1);
                    }
                }
            }
        }
        self.entries = entries;
    }

    /// Removes what is stored under `key` and hands it out.
    pub fn remove(&mut self, key: &str) -> (out: Option<V>)
        ensures
            final(self)@ == old(self)@.remove(key@),
            match out {
                Some(v) => old(self)@.contains_key(key@) && v == old(self)@[key@],
                None => !old(self)@.contains_key(key@),
            },
    {
        proof {
            use_type_invariant(&*self);
            lemma_map_of(self.entries@);
        }
        let ghost before = self.entries@;
        let found = self.find(key);
        match found {
            None => {
                assert(map_of(before) =~= map_of(before).remove(key@));
                None
            },
            Some(i) => {
                let mut entries: Vec<(String, V)> = Vec::new();
                std::mem::swap(&mut entries, &mut self.entries);
                let gone = entries.remove(i);
                let ghost kept = entries@;
                assert(keys_distinct(kept)) by {
                    assert forall|a: int, b: int| 0 <= a < b < kept.len() implies (
                    #[trigger] kept[a]).0@ != (#[trigger] kept[b]).0@ by {
                        lemma_removed_index(before, found, a);
                        lemma_removed_index(before, found, b);
                    }
                }
                proof {
                    lemma_map_of(kept);
                    assert(map_of(kept) =~= map_of(before).remove(key@)) by {
                        assert forall|k: Seq<char>| map_of(kept).contains_key(k) == map_of(
                            before,
                        ).remove(key@).contains_key(k) by {
                            if map_of(kept).contains_key(k) {
                                let p = position_of(kept, k);
                                assert(0 <= p < kept.len() && kept[p].0@ == k);
                                lemma_removed_index(before, found, p);
                            }
                            if map_of(before).contains_key(k) && k != key@ {
                                let p = position_of(before, k);
                                assert(0 <= p < before.len() && before[p].0@ == k);
                                lemma_kept_index(before, found, p);
                            }
                        }
                        assert forall|k: Seq<char>| map_of(kept).contains_key(k) implies map_of(
                            kept,
                        )[k] == map_of(before).remove(key@)[k] by {
                            let p = position_of(kept, k);
                            assert(0 <= p < kept.len() && kept[p].0@ == k);
                            lemma_removed_index(before, found, p);
                        }
                    }
                }
                self.entries = entries;
                Some(gone.1)
            },
        }
    }

    /// Whether the map holds no entry.
    pub fn is_empty(&self) -> (out: bool)
        ensures
            out == (forall|k: Seq<char>| !self@.contains_key(k)),
    {
        proof {
            use_type_invariant(self);
            lemma_map_of(self.entries@);
            if self.entries@.len() > 0 {
                assert(self@.contains_key(self.entries@[0].0@));
            }
        }
        self.entries.len() == 0
    }

    /// The entries, each once, in no order that callers may rely on.
    pub fn entries(&self) -> (out: &Vec<(String, V)>)
        ensures
            lists_map(out@, self@),
    {
        proof {
            use_type_invariant(self);
            lemma_map_of(self.entries@);
        }
        &self.entries
    }
}

/// What stands at position `a` of a list after the entry at `found` left it.
proof fn lemma_removed_index<V>(before: Seq<(String, V)>, found: Option<usize>, a: int)
    requires
        found matches Some(i) ==> i < before.len(),
        0 <= a < (match found {
            Some(i) => before.remove(i as int),
            None => before,
        }).len(),
    ensures
        ({
            let kept = match found {
                Some(i) => before.remove(i as int),
                None => before,
            };
            match found {
                Some(i) => kept[a] == before[if a < i { a } else { a + 1 }],
                None => kept[a] == before[a],
            }
        }),
{
}

/// Where the entry at position `p` stands after the entry at `found` left
/// the list.
proof fn lemma_kept_index<V>(before: Seq<(String, V)>, found: Option<usize>, p: int)
    requires
        found matches Some(i) ==> i < before.len() && i != p,
        0 <= p < before.len(),
    ensures
        ({
            let kept = match found {
                Some(i) => before.remove(i as int),
                None => before,
            };
            match found {
                Some(i) => if p < i {
                    kept[p] == before[p]
                } else {
                    kept[p - 1] == before[p]
                },
                None => kept[p] == before[p],
            }
        }),
{
}

} // verus!
