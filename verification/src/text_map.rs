//! A map keyed by texts that keeps its keys in order.
use crate::text;
use vstd::prelude::*;

verus! {

/// A map from texts to values. The keys stand in increasing order.
#[verifier::reject_recursive_types(V)]
pub struct TextMap<V> {
    entries: Vec<(String, V)>,
}

/// Whether the texts stand in strictly increasing order.
pub open spec fn increasing(keys: Seq<Seq<char>>) -> bool {
    forall|i: int, j: int| 0 <= i < j < keys.len() ==> text::before(#[trigger] keys[i], #[trigger] keys[j])
}

impl<V> View for TextMap<V> {
    type V = Map<Seq<char>, V>;

    closed spec fn view(&self) -> Map<Seq<char>, V> {
        Map::new(
            |k: Seq<char>| self.keys().contains(k),
            |k: Seq<char>| self.entries@[self.keys().index_of(k)].1,
        )
    }
}

impl<V> TextMap<V> {
    /// The keys in the order in which they stand.
    pub closed spec fn keys(&self) -> Seq<Seq<char>> {
        self.entries@.map_values(|e: (String, V)| e.0@)
    }

    /// The values in the order of their keys.
    pub closed spec fn values(&self) -> Seq<V> {
        self.entries@.map_values(|e: (String, V)| e.1)
    }

    /// The keys are in order, so none occurs twice.
    pub open spec fn wf(&self) -> bool {
        increasing(self.keys())
    }

    /// The map holds exactly its keys, each with the value at the same place.
    pub proof fn lemma_contents(&self)
        requires
            self.wf(),
        ensures
            self.keys().len() == self.values().len(),
            self.keys().no_duplicates(),
            self@.dom() == self.keys().to_set(),
            self@.dom().finite(),
            self@.dom().len() == self.keys().len(),
            forall|i: int|
                0 <= i < self.keys().len() ==> self@.dom().contains(#[trigger] self.keys()[i])
                    && self@[self.keys()[i]] == self.values()[i],
    {
        let keys = self.keys();
        assert forall|i: int, j: int| 0 <= i < keys.len() && 0 <= j < keys.len() && i != j implies keys[i]
            != keys[j] by {
            if i < j {
                assert(text::before(keys[i], keys[j]));
            } else {
                assert(text::before(keys[j], keys[i]));
            }
            text::lemma_before_irreflexive(keys[i]);
        }
        assert(keys.no_duplicates());
        assert(self@.dom() =~= keys.to_set());
        keys.unique_seq_to_set();
        assert forall|i: int| 0 <= i < keys.len() implies self@.dom().contains(#[trigger] keys[i])
            && self@[keys[i]] == self.values()[i] by {
            assert(keys.contains(keys[i]));
            let k = keys.index_of(keys[i]);
            assert(0 <= k < keys.len() && keys[k] == keys[i]);
            assert(k == i);
        }
    }

    /// Two maps with the same keys and the same values in order are the same map.
    proof fn lemma_view_from(&self, m: Map<Seq<char>, V>)
        requires
            self.wf(),
            forall|k: Seq<char>| m.dom().contains(k) <==> self.keys().contains(k),
            forall|i: int| 0 <= i < self.keys().len() ==> m[#[trigger] self.keys()[i]] == self.values()[i],
        ensures
            self@ == m,
    {
        self.lemma_contents();
        assert forall|k: Seq<char>| self@.dom().contains(k) implies self@[k] == m[k] by {
            let i = self.keys().index_of(k);
            assert(self.keys().contains(k));
            assert(self.keys()[i] == k);
        }
        assert(self@ =~= m);
    }

    /// A map without entries.
    pub fn new() -> (r: Self)
        ensures
            r.wf(),
            r.keys() == Seq::<Seq<char>>::empty(),
            r@ == Map::<Seq<char>, V>::empty(),
    {
        let r = TextMap { entries: Vec::new() };
        proof {
            assert(r.keys() =~= Seq::empty());
            assert(r@ =~= Map::empty());
        }
        r
    }

    /// How many entries there are.
    pub fn len(&self) -> (r: usize)
        requires
            self.wf(),
        ensures
            r == self.keys().len(),
            r == self@.dom().len(),
    {
        proof {
            self.lemma_contents();
        }
        self.entries.len()
    }

    /// Whether there is no entry.
    pub fn is_empty(&self) -> (r: bool)
        requires
            self.wf(),
        ensures
            r == (self@.dom().len() == 0),
            r == (self.keys().len() == 0),
    {
        proof {
            self.lemma_contents();
        }
        self.entries.len() == 0
    }

    /// The key at place `i`.
    pub fn key_at(&self, i: usize) -> (r: &String)
        requires
            i < self.keys().len(),
        ensures
            r@ == self.keys()[i as int],
    {
        &self.entries[i].0
    }

    /// The value at place `i`.
    pub fn value_at(&self, i: usize) -> (r: &V)
        requires
            i < self.keys().len(),
        ensures
            *r == self.values()[i as int],
    {
        &self.entries[i].1
    }

    /// The place of `key`, or the place where it would stand.
    fn seek(&self, key: &str) -> (pos: usize)
        requires
            self.wf(),
        ensures
            pos <= self.keys().len(),
            forall|i: int| 0 <= i < pos ==> text::before(#[trigger] self.keys()[i], key@),
            forall|i: int| pos <= i < self.keys().len() ==> !text::before(#[trigger] self.keys()[i], key@),
            self.keys().contains(key@) <==> pos < self.keys().len() && self.keys()[pos as int] == key@,
    {
        let mut low: usize = 0;
        let mut high: usize = self.entries.len();
        while low < high
            invariant
                self.wf(),
                low <= high <= self.keys().len(),
                self.keys().len() == self.entries@.len(),
                forall|i: int| 0 <= i < low ==> text::before(#[trigger] self.keys()[i], key@),
                forall|i: int|
                    high <= i < self.keys().len() ==> !text::before(#[trigger] self.keys()[i], key@),
            decreases high - low,
        {
            let mid: usize = low + (high - low) / 2;
            let ghost keys = self.keys();
            assert(self.entries@[mid as int].0@ == keys[mid as int]);
            if text::text_before(self.entries[mid].0.as_str(), key) {
                proof {
                    assert forall|i: int| 0 <= i < mid + 1 implies text::before(#[trigger] keys[i], key@) by {
                        if i < mid {
                            text::lemma_before_transitive(keys[i], keys[mid as int], key@);
                        }
                    }
                }
                low = mid + 1;
            } else {
                proof {
                    assert forall|i: int| mid <= i < keys.len() implies !text::before(
                        #[trigger] keys[i],
                        key@,
                    ) by {
                        if i > mid && text::before(keys[i], key@) {
                            text::lemma_before_transitive(keys[mid as int], keys[i], key@);
                        }
                    }
                }
                high = mid;
            }
        }
        proof {
            let keys = self.keys();
            if keys.contains(key@) {
                let k = choose|k: int| 0 <= k < keys.len() && keys[k] == key@;
                text::lemma_before_irreflexive(key@);
                assert(k >= low);
                if k > low {
                    assert(text::before(keys[low as int], keys[k]));
                    assert(false);
                }
            }
        }
        low
    }

    /// Whether `key` has an entry.
    pub fn contains_key(&self, key: &str) -> (r: bool)
        requires
            self.wf(),
        ensures
            r == self@.dom().contains(key@),
    {
        let pos: usize = self.seek(key);
        pos < self.entries.len() && text::same_text(self.entries[pos].0.as_str(), key)
    }

    /// The value of `key`.
    pub fn get(&self, key: &str) -> (r: Option<&V>)
        requires
            self.wf(),
        ensures
            r is Some <==> self@.dom().contains(key@),
            r matches Some(v) ==> *v == self@[key@],
    {
        let pos: usize = self.seek(key);
        proof {
            self.lemma_contents();
        }
        if pos < self.entries.len() && text::same_text(self.entries[pos].0.as_str(), key) {
            assert(self.keys()[pos as int] == key@);
            Some(&self.entries[pos].1)
        } else {
            None
        }
    }

    /// Gives `key` the value, in place of one that it may have had.
    pub fn insert(&mut self, key: String, value: V)
        requires
            old(self).wf(),
        ensures
            final(self).wf(),
            final(self)@ == old(self)@.insert(key@, value),
    {
        let pos: usize = self.seek(key.as_str());
        let ghost was = *self;
        let ghost name = key@;
        let ghost target = self@.insert(key@, value);
        proof {
            self.lemma_contents();
        }
        if pos < self.entries.len() && text::same_text(self.entries[pos].0.as_str(), key.as_str()) {
            self.entries.set(pos, (key, value));
            proof {
                let keys = self.keys();
                assert(keys =~= was.keys());
                assert forall|i: int| 0 <= i < keys.len() implies target[#[trigger] keys[i]]
                    == self.values()[i] by {
                    assert(keys[i] == was.keys()[i]);
                }
                assert forall|k: Seq<char>| target.dom().contains(k) <==> keys.contains(k) by {
                    assert(keys[pos as int] == name);
                }
                self.lemma_view_from(target);
            }
        } else {
            self.entries.insert(pos, (key, value));
            proof {
                let keys = self.keys();
                assert(keys =~= was.keys().insert(pos as int, name));
                assert forall|i: int, j: int| 0 <= i < j < keys.len() implies text::before(
                    #[trigger] keys[i],
                    #[trigger] keys[j],
                ) by {
                    if j == pos {
                        assert(keys[i] == was.keys()[i]);
                    } else if i == pos {
                        let other = was.keys()[j - 1];
                        assert(keys[j] == other);
                        text::lemma_before_total(name, other);
                        assert(was.keys().contains(other));
                    } else {
                        let a = if i < pos { i } else { i - 1 };
                        let b = if j < pos { j } else { j - 1 };
                        assert(keys[i] == was.keys()[a] && keys[j] == was.keys()[b]);
                    }
                }
                assert forall|k: Seq<char>| target.dom().contains(k) <==> keys.contains(k) by {
                    assert(keys[pos as int] == name);
                    if was.keys().contains(k) {
                        let i = was.keys().index_of(k);
                        assert(was.keys()[i] == k);
                        assert(keys[if i < pos { i } else { i + 1 }] == k);
                    }
                    if keys.contains(k) && k != name {
                        let i = keys.index_of(k);
                        assert(keys[i] == k);
                        assert(was.keys()[if i < pos { i } else { i - 1 }] == k);
                    }
                }
                assert forall|i: int| 0 <= i < keys.len() implies target[#[trigger] keys[i]]
                    == self.values()[i] by {
                    if i != pos {
                        let a = if i < pos { i } else { i - 1 };
                        assert(keys[i] == was.keys()[a]);
                        assert(was.keys().contains(was.keys()[a]));
                    }
                }
                self.lemma_view_from(target);
            }
        }
    }

    /// Takes the entry of `key` out, if there is one.
    pub fn remove(&mut self, key: &str)
        requires
            old(self).wf(),
        ensures
            final(self).wf(),
            final(self)@ == old(self)@.remove(key@),
    {
        let pos: usize = self.seek(key);
        let ghost was = *self;
        let ghost target = self@.remove(key@);
        proof {
            self.lemma_contents();
        }
        if pos < self.entries.len() && text::same_text(self.entries[pos].0.as_str(), key) {
            let _ = self.entries.remove(pos);
            proof {
                let keys = self.keys();
                assert(keys =~= was.keys().remove(pos as int));
                assert forall|i: int, j: int| 0 <= i < j < keys.len() implies text::before(
                    #[trigger] keys[i],
                    #[trigger] keys[j],
                ) by {
                    let a = if i < pos { i } else { i + 1 };
                    let b = if j < pos { j } else { j + 1 };
                    assert(keys[i] == was.keys()[a] && keys[j] == was.keys()[b]);
                }
                assert forall|k: Seq<char>| target.dom().contains(k) <==> keys.contains(k) by {
                    if was.keys().contains(k) && k != key@ {
                        let i = was.keys().index_of(k);
                        assert(was.keys()[i] == k);
                        assert(keys[if i < pos { i } else { i - 1 }] == k);
                    }
                    if keys.contains(k) {
                        let i = keys.index_of(k);
                        let a = if i < pos { i } else { i + 1 };
                        assert(keys[i] == k);
                        assert(was.keys()[a] == k);
                        assert(was.keys()[pos as int] == key@);
                    }
                }
                assert forall|i: int| 0 <= i < keys.len() implies target[#[trigger] keys[i]]
                    == self.values()[i] by {
                    let a = if i < pos { i } else { i + 1 };
                    assert(keys[i] == was.keys()[a]);
                    assert(was.keys()[pos as int] == key@);
                }
                self.lemma_view_from(target);
            }
        } else {
            proof {
                assert(!self@.dom().contains(key@));
                assert(self@ =~= target);
            }
        }
    }
}

} // verus!
