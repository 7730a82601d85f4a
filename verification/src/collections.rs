//! Ordered string-keyed collections. Entries are kept strictly increasing by
//! key in code point order, which is the iteration order of `BTreeMap<String, _>`
//! and `BTreeSet<String>`.
use vstd::prelude::*;
use crate::order::{
    compare_text, lemma_sorted_index_of, lemma_text_lt_irreflexive, lemma_text_lt_transitive, text_lt, texts_sorted,
    TextOrder,
};

verus! {

/// A set of strings iterated in increasing order.
#[derive(Debug)]
pub struct StrSet {
    items: Vec<String>,
}

/// A map from strings to values iterated in increasing key order.
#[derive(Debug)]
pub struct StrMap<V> {
    entries: Vec<(String, V)>,
}

impl StrSet {
    /// The elements in increasing order.
    pub closed spec fn item_seq(&self) -> Seq<String> {
        self.items@
    }

    /// The character views of the elements, in increasing order.
    pub open spec fn elems(&self) -> Seq<Seq<char>> {
        self.item_seq().map_values(|s: String| s@)
    }

    /// The elements as a mathematical set.
    pub open spec fn elem_set(&self) -> Set<Seq<char>> {
        self.elems().to_set()
    }

    /// Elements are strictly increasing.
    #[verifier::type_invariant]
    pub closed spec fn sorted(&self) -> bool {
        texts_sorted(self.items@.map_values(|s: String| s@))
    }

    /// Reveal the invariant of an executable set.
    pub fn proof_sorted(&self)
        ensures
            texts_sorted(self.elems()),
    {
        proof {
            use_type_invariant(self);
        }
    }

    /// An empty set.
    pub fn new() -> (r: Self)
        ensures
            r.elems() == Seq::<Seq<char>>::empty(),
    {
        StrSet { items: Vec::new() }
    }

    /// Number of elements.
    pub fn len(&self) -> (r: usize)
        ensures
            r == self.elems().len(),
    {
        self.items.len()
    }

    /// Element at a position in increasing order.
    pub fn item_at(&self, i: usize) -> (r: &String)
        requires
            i < self.elems().len(),
        ensures
            r@ == self.elems()[i as int],
    {
        &self.items[i]
    }

    /// Position at which `key` is or would be stored.
    fn position(&self, key: &str) -> (r: (usize, bool))
        ensures
            r.0 <= self.elems().len(),
            forall|j: int| 0 <= j < r.0 ==> text_lt(#[trigger] self.elems()[j], key@),
            r.1 == (r.0 < self.elems().len() && self.elems()[r.0 as int] == key@),
            !r.1 ==> forall|j: int| r.0 <= j < self.elems().len() ==> text_lt(key@, #[trigger] self.elems()[j]),
    {
        proof {
            use_type_invariant(self);
        }
        let mut i: usize = 0;
        while i < self.items.len()
            invariant
                i <= self.elems().len(),
                self.elems().len() == self.items@.len(),
                texts_sorted(self.elems()),
                forall|j: int| 0 <= j < i ==> text_lt(#[trigger] self.elems()[j], key@),
            decreases self.items@.len() - i,
        {
            let o = compare_text(self.items[i].as_str(), key);
            match o {
                TextOrder::Less => {},
                TextOrder::Equal => {
                    return (i, true);
                },
                TextOrder::Greater => {
                    proof {
                        assert forall|j: int| i <= j < self.elems().len() implies text_lt(key@, #[trigger] self.elems()[j]) by {
                            if j > i {
                                lemma_text_lt_transitive(key@, self.elems()[i as int], self.elems()[j]);
                            }
                        }
                    }
                    return (i, false);
                },
            }
            i = i + 1;
        }
        (i, false)
    }

    /// Whether `key` is an element.
    pub fn contains(&self, key: &str) -> (r: bool)
        ensures
            r == self.elems().contains(key@),
    {
        let (i, found) = self.position(key);
        proof {
            if !found && self.elems().contains(key@) {
                let j = self.elems().index_of(key@);
                if j < i {
                    lemma_text_lt_irreflexive(key@);
                } else {
                    lemma_text_lt_irreflexive(key@);
                }
            }
        }
        found
    }

    /// Insert an element; returns whether it was absent before.
    pub fn insert(&mut self, key: String) -> (r: bool)
        ensures
            r == !old(self).elems().contains(key@),
            final(self).elem_set() == old(self).elem_set().insert(key@),
            r ==> final(self).elems().len() == old(self).elems().len() + 1,
            !r ==> final(self).elems() == old(self).elems(),
    {
        proof {
            use_type_invariant(&*self);
        }
        let (i, found) = self.position(key.as_str());
        if found {
            proof {
                assert(self.elems().contains(key@));
                assert(self.elem_set().insert(key@) =~= self.elem_set());
            }
            return false;
        }
        proof {
            if self.elems().contains(key@) {
                let j = self.elems().index_of(key@);
                lemma_text_lt_irreflexive(key@);
            }
        }
        let ghost old_elems = self.elems();
        let ghost kv = key@;
        let mut items = Vec::new();
        std::mem::swap(&mut items, &mut self.items);
        items.insert(i, key);
        proof {
            let e = items@.map_values(|s: String| s@);
            assert(e =~= old_elems.insert(i as int, kv));
            assert forall|a: int, b: int| 0 <= a < b < e.len() implies text_lt(
                #[trigger] e[a],
                #[trigger] e[b],
            ) by {
                if a < i && b > i {
                    lemma_text_lt_transitive(e[a], kv, e[b]);
                }
            }
        }
        self.items = items;
        proof {
            assert(self.elems() =~= old_elems.insert(i as int, kv));
            assert forall|a: int, b: int| 0 <= a < b < self.elems().len() implies text_lt(
                #[trigger] self.elems()[a],
                #[trigger] self.elems()[b],
            ) by {
                if b < i {
                } else if a < i && b == i {
                } else if a < i && b > i {
                    lemma_text_lt_transitive(self.elems()[a], kv, self.elems()[b]);
                } else if a == i {
                } else {
                }
            }
            assert(self.elem_set() =~= old_elems.to_set().insert(kv)) by {
                assert forall|x: Seq<char>| self.elem_set().contains(x) <==> old_elems.to_set().insert(kv).contains(x) by {
                    if self.elem_set().contains(x) {
                        let k = self.elems().index_of(x);
                        if k < i {
                            assert(old_elems[k] == x);
                        } else if k > i {
                            assert(old_elems[k - 1] == x);
                        }
                    }
                    if old_elems.contains(x) {
                        let k = old_elems.index_of(x);
                        if k < i {
                            assert(self.elems()[k] == x);
                        } else {
                            assert(self.elems()[k + 1] == x);
                        }
                    }
                    if x == kv {
                        assert(self.elems()[i as int] == x);
                    }
                }
            }
        }
        true
    }
}

impl<V> StrMap<V> {
    /// The entries in increasing key order.
    pub closed spec fn entry_seq(&self) -> Seq<(String, V)> {
        self.entries@
    }

    /// The character views of the keys, in increasing order.
    pub open spec fn keys(&self) -> Seq<Seq<char>> {
        self.entry_seq().map_values(|e: (String, V)| e.0@)
    }

    /// Whether `key` has an entry.
    pub open spec fn has(&self, key: Seq<char>) -> bool {
        self.keys().contains(key)
    }

    /// The value stored under `key`.
    pub open spec fn spec_get(&self, key: Seq<char>) -> Option<V> {
        if self.has(key) {
            Some(self.entry_seq()[self.keys().index_of(key)].1)
        } else {
            None
        }
    }

    /// Keys are strictly increasing.
    #[verifier::type_invariant]
    pub closed spec fn sorted(&self) -> bool {
        texts_sorted(self.entries@.map_values(|e: (String, V)| e.0@))
    }

    /// Reveal the invariant of an executable map.
    pub fn proof_sorted(&self)
        ensures
            texts_sorted(self.keys()),
    {
        proof {
            use_type_invariant(self);
        }
    }

    /// An empty map.
    pub fn new() -> (r: Self)
        ensures
            r.entry_seq() == Seq::<(String, V)>::empty(),
    {
        StrMap { entries: Vec::new() }
    }

    /// Number of entries.
    pub fn len(&self) -> (r: usize)
        ensures
            r == self.entry_seq().len(),
    {
        self.entries.len()
    }

    /// The entries in increasing key order, by value.
    pub fn into_entries(self) -> (r: Vec<(String, V)>)
        ensures
            r@ == self.entry_seq(),
    {
        self.entries
    }

    /// Entry at a position in increasing key order.
    pub fn entry_at(&self, i: usize) -> (r: &(String, V))
        requires
            i < self.entry_seq().len(),
        ensures
            *r == self.entry_seq()[i as int],
    {
        &self.entries[i]
    }

    /// Position at which `key` is or would be stored.
    fn position(&self, key: &str) -> (r: (usize, bool))
        ensures
            r.0 <= self.keys().len(),
            forall|j: int| 0 <= j < r.0 ==> text_lt(#[trigger] self.keys()[j], key@),
            r.1 == (r.0 < self.keys().len() && self.keys()[r.0 as int] == key@),
            !r.1 ==> forall|j: int| r.0 <= j < self.keys().len() ==> text_lt(key@, #[trigger] self.keys()[j]),
    {
        proof {
            use_type_invariant(self);
        }
        let mut i: usize = 0;
        while i < self.entries.len()
            invariant
                i <= self.keys().len(),
                self.keys().len() == self.entries@.len(),
                texts_sorted(self.keys()),
                forall|j: int| 0 <= j < i ==> text_lt(#[trigger] self.keys()[j], key@),
            decreases self.entries@.len() - i,
        {
            let o = compare_text(self.entries[i].0.as_str(), key);
            match o {
                TextOrder::Less => {},
                TextOrder::Equal => {
                    return (i, true);
                },
                TextOrder::Greater => {
                    proof {
                        assert forall|j: int| i <= j < self.keys().len() implies text_lt(key@, #[trigger] self.keys()[j]) by {
                            if j > i {
                                lemma_text_lt_transitive(key@, self.keys()[i as int], self.keys()[j]);
                            }
                        }
                    }
                    return (i, false);
                },
            }
            i = i + 1;
        }
        (i, false)
    }

    /// Index of `key` when it has an entry.
    pub fn find(&self, key: &str) -> (r: Option<usize>)
        ensures
            r.is_some() == self.has(key@),
            r matches Some(i) ==> i < self.keys().len() && self.keys()[i as int] == key@ && i
                == self.keys().index_of(key@),
    {
        proof {
            use_type_invariant(self);
        }
        let (i, found) = self.position(key);
        proof {
            if self.has(key@) {
                let j = self.keys().index_of(key@);
                lemma_text_lt_irreflexive(key@);
                if found && j != i {
                    if j < i {
                        lemma_text_lt_irreflexive(key@);
                    } else {
                        assert(text_lt(self.keys()[i as int], self.keys()[j]));
                    }
                }
            }
        }
        if found {
            Some(i)
        } else {
            None
        }
    }

    /// Whether `key` has an entry.
    pub fn contains_key(&self, key: &str) -> (r: bool)
        ensures
            r == self.has(key@),
    {
        self.find(key).is_some()
    }

    /// The value stored under `key`.
    pub fn get(&self, key: &str) -> (r: Option<&V>)
        ensures
            r.is_some() == self.has(key@),
            r matches Some(v) ==> self.spec_get(key@) == Some(*v),
    {
        match self.find(key) {
            Some(i) => Some(&self.entries[i].1),
            None => None,
        }
    }

    /// Insert or replace the value under `key`.
    pub fn insert(&mut self, key: String, value: V)
        ensures
            final(self).has(key@),
            final(self).spec_get(key@) == Some(value),
            forall|k: Seq<char>| k != key@ ==> final(self).spec_get(k) == old(self).spec_get(k),
            final(self).keys().to_set() == old(self).keys().to_set().insert(key@),
    {
        proof {
            use_type_invariant(&*self);
        }
        let ghost old_keys = self.keys();
        let ghost old_entries = self.entry_seq();
        let ghost kv = key@;
        let (i, found) = self.position(key.as_str());
        if found {
            let mut entries = Vec::new();
            std::mem::swap(&mut entries, &mut self.entries);
            entries.set(i, (key, value));
            proof {
                assert(entries@.map_values(|e: (String, V)| e.0@) =~= old_keys);
            }
            self.entries = entries;
            proof {
                assert(self.keys() =~= old_keys);
                lemma_sorted_index_of(old_keys, i as int);
                assert forall|k: Seq<char>| k != kv implies self.spec_get(k) == old(self).spec_get(k) by {
                    if self.has(k) {
                        let j = self.keys().index_of(k);
                        assert(j != i);
                    }
                }
                assert(old_keys.to_set().insert(kv) =~= old_keys.to_set());
            }
            return;
        }
        proof {
            if old_keys.contains(kv) {
                let j = old_keys.index_of(kv);
                lemma_text_lt_irreflexive(kv);
            }
        }
        let mut entries = Vec::new();
        std::mem::swap(&mut entries, &mut self.entries);
        entries.insert(i, (key, value));
        proof {
            let e = entries@.map_values(|e: (String, V)| e.0@);
            assert(e =~= old_keys.insert(i as int, kv));
            assert forall|a: int, b: int| 0 <= a < b < e.len() implies text_lt(
                #[trigger] e[a],
                #[trigger] e[b],
            ) by {
                if a < i && b > i {
                    lemma_text_lt_transitive(e[a], kv, e[b]);
                }
            }
        }
        self.entries = entries;
        proof {
            assert(self.keys() =~= old_keys.insert(i as int, kv));
            assert forall|a: int, b: int| 0 <= a < b < self.keys().len() implies text_lt(
                #[trigger] self.keys()[a],
                #[trigger] self.keys()[b],
            ) by {
                if a < i && b > i {
                    lemma_text_lt_transitive(self.keys()[a], kv, self.keys()[b]);
                }
            }
            lemma_sorted_index_of(self.keys(), i as int);
            assert forall|k: Seq<char>| k != kv implies self.spec_get(k) == old(self).spec_get(k) by {
                if self.has(k) {
                    let j = self.keys().index_of(k);
                    lemma_sorted_index_of(self.keys(), j);
                    if j < i {
                        assert(old_keys[j] == k);
                        lemma_sorted_index_of(old_keys, j);
                    } else {
                        assert(j > i);
                        assert(old_keys[j - 1] == k);
                        lemma_sorted_index_of(old_keys, j - 1);
                    }
                } else if old(self).has(k) {
                    let m = old_keys.index_of(k);
                    assert(self.keys()[if m < i { m } else { m + 1 }] == k);
                }
            }
            assert(self.keys().to_set() =~= old_keys.to_set().insert(kv)) by {
                assert forall|x: Seq<char>| self.keys().to_set().contains(x) <==> old_keys.to_set().insert(kv).contains(x) by {
                    if self.keys().contains(x) {
                        let k = self.keys().index_of(x);
                        if k < i {
                            assert(old_keys[k] == x);
                        } else if k > i {
                            assert(old_keys[k - 1] == x);
                        }
                    }
                    if old_keys.contains(x) {
                        let k = old_keys.index_of(x);
                        assert(self.keys()[if k < i { k } else { k + 1 }] == x);
                    }
                    if x == kv {
                        assert(self.keys()[i as int] == x);
                    }
                }
            }
        }
    }
    /// Replace the value at a position, keeping the keys; returns the value it held.
    pub fn replace_value_at(&mut self, i: usize, value: V) -> (r: V)
        requires
            i < old(self).entry_seq().len(),
        ensures
            r == old(self).entry_seq()[i as int].1,
            final(self).entry_seq() == old(self).entry_seq().update(i as int, (old(self).entry_seq()[i as int].0, value)),
            final(self).keys() == old(self).keys(),
    {
        proof {
            use_type_invariant(&*self);
        }
        let ghost old_entries = self.entry_seq();
        let ghost old_keys = self.keys();
        let mut entries = Vec::new();
        std::mem::swap(&mut entries, &mut self.entries);
        let (k, held) = entries.remove(i);
        entries.insert(i, (k, value));
        proof {
            assert(entries@ =~= old_entries.update(i as int, (old_entries[i as int].0, value)));
            assert(entries@.map_values(|e: (String, V)| e.0@) =~= old_keys);
        }
        self.entries = entries;
        proof {
            assert(self.keys() =~= old_keys);
        }
        held
    }
}

} // verus!
