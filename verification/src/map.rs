//! A map from names to items that is walked in the order of the names.

use vstd::prelude::*;

use crate::order;
use crate::values;

verus! {

/// A map from names to items. The names stand in ascending order, so that each of them
/// occurs once and is found by halving; the item of a name has the same position.
#[derive(Debug)]
pub struct StringMap<V> {
    keys: Vec<String>,
    items: Vec<V>,
}

impl<V> View for StringMap<V> {
    type V = Map<Seq<char>, V>;

    open spec fn view(&self) -> Map<Seq<char>, V> {
        Map::new(
            |k: Seq<char>| self.names().contains(k),
            |k: Seq<char>| self.listed()[self.names().index_of(k)],
        )
    }
}

impl<V> StringMap<V> {
    /// The names, in the order in which the map is walked.
    pub closed spec fn names(self) -> Seq<Seq<char>> {
        values::strings(self.keys@)
    }

    /// The items, in the order in which the map is walked.
    pub closed spec fn listed(self) -> Seq<V> {
        self.items@
    }

    /// The names are in ascending order, and each has an item.
    #[verifier::type_invariant]
    pub closed spec fn wf(self) -> bool {
        &&& values::ascending(self.names())
        &&& self.names().len() == self.listed().len()
    }

    /// What the map holds, by position.
    pub proof fn lemma_listed(self)
        requires
            self.wf(),
        ensures
            values::ascending(self.names()),
            self.names().no_duplicates(),
            self.names().len() == self.listed().len(),
            forall|i: int|
                0 <= i < self.names().len() ==> {
                    &&& self@.contains_key(#[trigger] self.names()[i])
                    &&& self@[self.names()[i]] == self.listed()[i]
                },
            forall|k: Seq<char>| #[trigger] self@.contains_key(k) <==> self.names().contains(k),
    {
        values::lemma_ascending_is_sorted(self.names());
        assert forall|i: int| 0 <= i < self.names().len() implies {
            &&& self@.contains_key(#[trigger] self.names()[i])
            &&& self@[self.names()[i]] == self.listed()[i]
        } by {
            let k = self.names()[i];
            assert(self.names().contains(k));
            let j = self.names().index_of(k);
            assert(self.names()[j] == k);
        }
    }

    /// The map has as many names as there are positions.
    pub proof fn lemma_number(self)
        requires
            self.wf(),
        ensures
            self@.dom().finite(),
            self@.dom().len() == self.names().len(),
    {
        self.lemma_listed();
        self.names().unique_seq_to_set();
        assert(self@.dom() =~= self.names().to_set());
    }

    /// A map whose names and items are those of `m`, with one more at position `p`.
    proof fn lemma_inserted(self, m: Self, p: int, key: Seq<char>, item: V)
        requires
            m.wf(),
            !m.names().contains(key),
            p == values::place(m.names(), key),
            self.names() == m.names().insert(p, key),
            self.listed() == m.listed().insert(p, item),
        ensures
            self.wf(),
            self@ == m@.insert(key, item),
    {
        let n = m.names();
        let r = self.names();
        m.lemma_listed();
        values::lemma_insert_ascending(n, key);
        self.lemma_listed();
        assert forall|k: Seq<char>| #[trigger] self@.contains_key(k) <==> m@.insert(
            key,
            item,
        ).contains_key(k) by {
            if r.contains(k) {
                let i = r.index_of(k);
                if i < p {
                    assert(n[i] == k);
                } else if i > p {
                    assert(n[i - 1] == k);
                }
            }
            if n.contains(k) {
                let i = n.index_of(k);
                let j = if i < p { i } else { i + 1 };
                assert(r[j] == k);
            }
            assert(r[p] == key);
        }
        assert forall|k: Seq<char>| #[trigger] self@.contains_key(k) implies self@[k] == m@.insert(
            key,
            item,
        )[k] by {
            let i = r.index_of(k);
            if i < p {
                assert(n[i] == k);
                assert(m.listed()[i] == self.listed()[i]);
            } else if i > p {
                assert(n[i - 1] == k);
                assert(m.listed()[i - 1] == self.listed()[i]);
            }
        }
        assert(self@ =~= m@.insert(key, item));
    }

    /// A map whose names and items are those of `m`, without those at position `p`.
    proof fn lemma_removed(self, m: Self, p: int)
        requires
            m.wf(),
            0 <= p < m.names().len(),
            self.names() == m.names().remove(p),
            self.listed() == m.listed().remove(p),
        ensures
            self.wf(),
            self@ == m@.remove(m.names()[p]),
    {
        let n = m.names();
        let r = self.names();
        let key = n[p];
        m.lemma_listed();
        values::lemma_remove_ascending(n, p);
        self.lemma_listed();
        assert forall|k: Seq<char>| #[trigger] self@.contains_key(k) <==> m@.remove(
            key,
        ).contains_key(k) by {
            if r.contains(k) {
                let i = r.index_of(k);
                let j = if i < p { i } else { i + 1 };
                assert(n[j] == k);
                assert(n[j] != n[p]);
            }
            if n.contains(k) && k != key {
                let i = n.index_of(k);
                let j = if i < p { i } else { i - 1 };
                assert(r[j] == k);
            }
        }
        assert forall|k: Seq<char>| #[trigger] self@.contains_key(k) implies self@[k] == m@[k] by {
            let i = r.index_of(k);
            let j = if i < p { i } else { i + 1 };
            assert(n[j] == k);
            assert(m.listed()[j] == self.listed()[i]);
        }
        assert(self@ =~= m@.remove(key));
    }

    /// A map whose names are those of `m` and whose items are too, but at position `p`.
    proof fn lemma_replaced(self, m: Self, p: int, item: V)
        requires
            m.wf(),
            0 <= p < m.names().len(),
            self.names() == m.names(),
            self.listed() == m.listed().update(p, item),
        ensures
            self.wf(),
            self@ == m@.insert(m.names()[p], item),
    {
        m.lemma_listed();
        self.lemma_listed();
        let n = m.names();
        assert forall|k: Seq<char>| #[trigger] self@.contains_key(k) implies self@[k] == m@.insert(
            n[p],
            item,
        )[k] by {
            let i = n.index_of(k);
            assert(n[i] == k);
            if i != p {
                assert(n[i] != n[p]);
            }
        }
        assert(self@ =~= m@.insert(n[p], item));
    }

    /// The map that holds nothing.
    pub fn new() -> (r: Self)
        ensures
            r@ == Map::<Seq<char>, V>::empty(),
            r.names().len() == 0,
    {
        let r = StringMap { keys: Vec::new(), items: Vec::new() };
        assert(r@ =~= Map::<Seq<char>, V>::empty());
        r
    }

    /// The number of names.
    pub fn len(&self) -> (n: usize)
        ensures
            n == self.names().len(),
            n == self.listed().len(),
            self@.dom().finite(),
            n == self@.dom().len(),
            forall|k: Seq<char>| #[trigger] self@.contains_key(k) ==> self.names().contains(k),
    {
        proof {
            use_type_invariant(self);
            self.lemma_listed();
            self.lemma_number();
        }
        self.keys.len()
    }

    /// The name at position `i`.
    pub fn name_at(&self, i: usize) -> (r: &String)
        requires
            i < self.names().len(),
        ensures
            r@ == self.names()[i as int],
            self@.contains_key(r@),
            forall|j: int| 0 <= j < i ==> order::str_lt(#[trigger] self.names()[j], r@),
    {
        proof {
            use_type_invariant(self);
            self.lemma_listed();
        }
        &self.keys[i]
    }

    /// The item at position `i`.
    pub fn item_at(&self, i: usize) -> (r: &V)
        requires
            i < self.names().len(),
        ensures
            *r == self.listed()[i as int],
            *r == self@[self.names()[i as int]],
    {
        proof {
            use_type_invariant(self);
            self.lemma_listed();
        }
        &self.items[i]
    }

    /// The name at position `i`, with its item to change.
    pub fn entry_mut(&mut self, i: usize) -> (r: (&String, &mut V))
        requires
            i < old(self).names().len(),
        ensures
            r.0@ == old(self).names()[i as int],
            *r.1 == old(self).listed()[i as int],
            final(self).names() == old(self).names(),
            final(self).listed() == old(self).listed().update(i as int, *final(r.1)),
            final(self)@ == old(self)@.insert(old(self).names()[i as int], *final(r.1)),
    {
        proof {
            use_type_invariant(&*self);
        }
        let ghost before = *self;
        proof {
            assert forall|after: Self, item: V|
                #![trigger after@, before.listed().update(i as int, item)]
                after.names() == before.names() && after.listed() == before.listed().update(
                    i as int,
                    item,
                ) implies after@ == before@.insert(before.names()[i as int], item) by {
                after.lemma_replaced(before, i as int, item);
            }
        }
        (&self.keys[i], &mut self.items[i])
    }

    /// The position of a name, or where it would be put.
    fn position(&self, key: &str) -> (r: Result<usize, usize>)
        ensures
            match r {
                Ok(i) => {
                    &&& i < self.names().len()
                    &&& self.names()[i as int] == key@
                },
                Err(i) => {
                    &&& i == values::place(self.names(), key@)
                    &&& i <= self.names().len()
                    &&& !self.names().contains(key@)
                },
            },
    {
        proof {
            use_type_invariant(self);
            values::lemma_ascending_is_sorted(self.names());
        }
        values::search(&self.keys, key)
    }

    /// The item of a name.
    pub fn get(&self, key: &str) -> (r: Option<&V>)
        ensures
            match r {
                Some(item) => self@.contains_key(key@) && *item == self@[key@],
                None => !self@.contains_key(key@),
            },
    {
        proof {
            use_type_invariant(self);
            self.lemma_listed();
        }
        match self.position(key) {
            Ok(i) => Some(&self.items[i]),
            Err(_) => None,
        }
    }

    /// The item of a name, to change.
    pub fn get_mut(&mut self, key: &str) -> (r: Option<&mut V>)
        ensures
            match r {
                Some(item) => {
                    &&& old(self)@.contains_key(key@)
                    &&& *item == old(self)@[key@]
                    &&& final(self)@ == old(self)@.insert(key@, *final(item))
                },
                None => !old(self)@.contains_key(key@) && final(self)@ == old(self)@,
            },
    {
        proof {
            use_type_invariant(&*self);
            self.lemma_listed();
        }
        match self.position(key) {
            Ok(i) => {
                let (_, item) = self.entry_mut(i);
                Some(item)
            },
            Err(_) => None,
        }
    }

    /// Tells whether a name has an item.
    pub fn contains_key(&self, key: &str) -> (r: bool)
        ensures
            r == self@.contains_key(key@),
    {
        self.get(key).is_some()
    }

    /// Gives a name an item, in place of the one that it had, which is returned.
    pub fn insert(&mut self, key: String, item: V) -> (r: Option<V>)
        ensures
            final(self)@ == old(self)@.insert(key@, item),
            match r {
                Some(old_item) => old(self)@.contains_key(key@) && old_item == old(self)@[key@],
                None => !old(self)@.contains_key(key@),
            },
    {
        proof {
            use_type_invariant(&*self);
            self.lemma_listed();
        }
        let ghost before = *self;
        let at = self.position(key.as_str());
        let mut taken = StringMap { keys: Vec::new(), items: Vec::new() };
        std::mem::swap(self, &mut taken);
        let StringMap { keys: mut keys, items: mut items } = taken;
        let ghost k = key@;
        match at {
            Ok(i) => {
                let old_item = items.remove(i);
                items.insert(i, item);
                proof {
                    let after = StringMap { keys, items };
                    assert(after.listed() =~= before.listed().update(i as int, item));
                    after.lemma_replaced(before, i as int, item);
                }
                *self = StringMap { keys, items };
                Some(old_item)
            },
            Err(i) => {
                keys.insert(i, key);
                items.insert(i, item);
                proof {
                    let after = StringMap { keys, items };
                    assert(after.names() =~= before.names().insert(i as int, k));
                    after.lemma_inserted(before, i as int, k, item);
                }
                *self = StringMap { keys, items };
                None
            },
        }
    }

    /// Takes a name and its item out. The item is returned.
    pub fn remove(&mut self, key: &str) -> (r: Option<V>)
        ensures
            final(self)@ == old(self)@.remove(key@),
            match r {
                Some(item) => old(self)@.contains_key(key@) && item == old(self)@[key@],
                None => !old(self)@.contains_key(key@),
            },
    {
        proof {
            use_type_invariant(&*self);
            self.lemma_listed();
        }
        let ghost before = *self;
        match self.position(key) {
            Ok(i) => {
                let mut taken = StringMap { keys: Vec::new(), items: Vec::new() };
                std::mem::swap(self, &mut taken);
                let StringMap { keys: mut keys, items: mut items } = taken;
                keys.remove(i);
                let item = items.remove(i);
                proof {
                    let after = StringMap { keys, items };
                    assert(after.names() =~= before.names().remove(i as int));
                    after.lemma_removed(before, i as int);
                }
                *self = StringMap { keys, items };
                Some(item)
            },
            Err(_) => {
                assert(self@.remove(key@) =~= self@);
                None
            },
        }
    }
}

} // verus!
