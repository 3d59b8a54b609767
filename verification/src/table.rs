//! Records kept under a 128-bit key, in the order in which the keys came.

use vstd::prelude::*;

verus! {

/// The contents of a table: its keys in the order in which they came, and the
/// record under each.
#[verifier::ext_equal]
pub struct Rows<M> {
    pub keys: Seq<u128>,
    pub map: Map<u128, M>,
}

impl<M> Rows<M> {
    /// A table without records.
    pub open spec fn none() -> Rows<M> {
        Rows { keys: Seq::empty(), map: Map::empty() }
    }

    /// Each key comes once and has a record.
    pub open spec fn wf(self) -> bool {
        &&& self.keys.no_duplicates()
        &&& forall|k: u128| #[trigger] self.map.contains_key(k) <==> self.keys.contains(k)
    }

    /// Whether there is a record under a key.
    pub open spec fn has(self, key: u128) -> bool {
        self.map.contains_key(key)
    }

    /// The record under a key.
    pub open spec fn get(self, key: u128) -> Option<M> {
        if self.map.contains_key(key) {
            Some(self.map[key])
        } else {
            None
        }
    }

    /// The table with `value` under `key`; a new key comes last.
    pub open spec fn put(self, key: u128, value: M) -> Rows<M> {
        Rows {
            keys: if self.map.contains_key(key) {
                self.keys
            } else {
                self.keys.push(key)
            },
            map: self.map.insert(key, value),
        }
    }

    /// The table with `f` applied to each record.
    pub open spec fn each(self, f: spec_fn(M) -> M) -> Rows<M> {
        Rows { keys: self.keys, map: self.map.map_values(f) }
    }

    /// The records in the order of their keys.
    pub open spec fn list(self) -> Seq<M> {
        self.keys.map_values(|k: u128| self.map[k])
    }

    /// How many records `p` holds of.
    pub open spec fn count(self, p: spec_fn(M) -> bool) -> nat {
        self.list().filter(p).len()
    }
}

/// A put keeps a table sound.
pub proof fn lemma_put_wf<M>(rows: Rows<M>, key: u128, value: M)
    requires
        rows.wf(),
    ensures
        rows.put(key, value).wf(),
{
    let after = rows.put(key, value);
    assert forall|k: u128| #[trigger] after.map.contains_key(k) <==> after.keys.contains(k) by {
        if rows.map.contains_key(key) {
        } else if k == key {
            assert(after.keys[rows.keys.len() as int] == key);
        } else {
            if rows.keys.contains(k) {
                let i = choose|i: int| 0 <= i < rows.keys.len() && rows.keys[i] == k;
                assert(after.keys[i] == k);
            }
            if after.keys.contains(k) {
                let i = choose|i: int| 0 <= i < after.keys.len() && after.keys[i] == k;
                assert(rows.keys[i] == k);
            }
        }
    }
}

/// A put over an existing key changes one record of the list.
pub proof fn lemma_put_list<M>(rows: Rows<M>, i: int, value: M)
    requires
        rows.wf(),
        0 <= i < rows.keys.len(),
    ensures
        rows.put(rows.keys[i], value).list() == rows.list().update(i, value),
{
    assert(rows.keys.contains(rows.keys[i]));
    assert(rows.put(rows.keys[i], value).list() =~= rows.list().update(i, value));
}

/// The list of a table holds the record under each key, and nothing else.
pub proof fn lemma_list_is_the_table<M>(rows: Rows<M>)
    requires
        rows.wf(),
    ensures
        forall|k: u128| rows.has(k) ==> rows.list().contains(#[trigger] rows.map[k]),
        forall|x: M|
            #[trigger] rows.list().contains(x) ==> exists|k: u128|
                rows.has(k) && #[trigger] rows.map[k] == x,
{
    assert forall|k: u128| rows.has(k) implies rows.list().contains(#[trigger] rows.map[k]) by {
        assert(rows.keys.contains(k));
        let i = choose|i: int| 0 <= i < rows.keys.len() && rows.keys[i] == k;
        assert(rows.list()[i] == rows.map[k]);
    }
    assert forall|x: M| #[trigger] rows.list().contains(x) implies exists|k: u128|
        rows.has(k) && #[trigger] rows.map[k] == x by {
        let i = choose|i: int| 0 <= i < rows.list().len() && rows.list()[i] == x;
        let k = rows.keys[i];
        assert(rows.keys.contains(k));
        assert(rows.has(k) && rows.map[k] == x);
    }
}

/// Where each record names its key, the list of a table holds no record twice.
pub proof fn lemma_list_is_distinct<M>(rows: Rows<M>, id: spec_fn(M) -> u128)
    requires
        rows.wf(),
        forall|k: u128| rows.has(k) ==> id(#[trigger] rows.map[k]) == k,
    ensures
        rows.list().no_duplicates(),
{
    assert forall|i: int, j: int|
        0 <= i < rows.list().len() && 0 <= j < rows.list().len() && i != j implies rows.list()[i]
        != rows.list()[j] by {
        assert(rows.keys.contains(rows.keys[i]) && rows.keys.contains(rows.keys[j]));
        assert(rows.has(rows.keys[i]) && rows.has(rows.keys[j]));
        assert(id(rows.map[rows.keys[i]]) == rows.keys[i]);
        assert(id(rows.map[rows.keys[j]]) == rows.keys[j]);
    }
}

/// What is left of a list without repetitions has none.
pub proof fn lemma_filter_is_distinct<M>(list: Seq<M>, p: spec_fn(M) -> bool)
    requires
        list.no_duplicates(),
    ensures
        list.filter(p).no_duplicates(),
    decreases list.len(),
{
    reveal(Seq::filter);
    if list.len() > 0 {
        let shorter = list.drop_last();
        let before = shorter.filter(p);
        lemma_filter_is_distinct(shorter, p);
        assert forall|i: int| 0 <= i < before.len() implies #[trigger] before[i] != list.last() by {
            assert(before.contains(before[i]));
            shorter.lemma_filter_contains_rev(p, before[i]);
            let k = choose|k: int| 0 <= k < shorter.len() && shorter[k] == before[i];
            assert(list[k] == before[i]);
            assert(list[list.len() - 1] == list.last());
        }
    }
}

/// A table whose records have views.
#[derive(Debug)]
pub struct Table<T> {
    keys: Vec<u128>,
    values: Vec<T>,
}

impl<T: View> View for Table<T> {
    type V = Rows<T::V>;

    closed spec fn view(&self) -> Rows<T::V> {
        Rows {
            keys: self.keys@,
            map: Map::new(
                |k: u128| self.keys@.contains(k),
                |k: u128| self.values@[self.keys@.index_of(k)]@,
            ),
        }
    }
}

impl<T: View> Table<T> {
    /// The two columns belong together.
    pub closed spec fn wf(&self) -> bool {
        &&& self.keys@.len() == self.values@.len()
        &&& self.keys@.no_duplicates()
    }

    proof fn lemma_at(&self, i: int)
        requires
            self.wf(),
            0 <= i < self.keys@.len(),
        ensures
            self@.map.contains_key(self.keys@[i]),
            self@.map[self.keys@[i]] == self.values@[i]@,
    {
        assert(self.keys@.contains(self.keys@[i]));
    }

    /// A table without records.
    pub fn new() -> (table: Table<T>)
        ensures
            table.wf(),
            table@ == Rows::<T::V>::none(),
    {
        let table = Table { keys: Vec::new(), values: Vec::new() };
        assert(table@.map =~= Map::<u128, T::V>::empty());
        table
    }

    /// How many records there are.
    pub fn len(&self) -> (count: usize)
        requires
            self.wf(),
        ensures
            count == self@.keys.len(),
            self@.wf(),
    {
        self.keys.len()
    }

    /// The key that came as number `i`.
    pub fn key_at(&self, i: usize) -> (key: u128)
        requires
            self.wf(),
            i < self@.keys.len(),
        ensures
            key == self@.keys[i as int],
            self@.map.contains_key(key),
    {
        proof {
            self.lemma_at(i as int);
        }
        self.keys[i]
    }

    /// The record whose key came as number `i`.
    pub fn value_at(&self, i: usize) -> (value: &T)
        requires
            self.wf(),
            i < self@.keys.len(),
        ensures
            value@ == self@.map[self@.keys[i as int]],
            value@ == self@.list()[i as int],
    {
        proof {
            self.lemma_at(i as int);
        }
        &self.values[i]
    }

    /// Where a key stands.
    pub fn position(&self, key: u128) -> (at: Option<usize>)
        requires
            self.wf(),
        ensures
            match at {
                Some(i) => i < self@.keys.len() && self@.keys[i as int] == key && self@.has(key),
                None => !self@.has(key),
            },
    {
        let mut i: usize = 0;
        while i < self.keys.len()
            invariant
                self.wf(),
                i <= self.keys@.len(),
                forall|j: int| 0 <= j < i ==> self.keys@[j] != key,
            decreases self.keys@.len() - i,
        {
            if self.keys[i] == key {
                proof {
                    self.lemma_at(i as int);
                }
                return Some(i);
            }
            i += 1;
        }
        None
    }

    /// The record under a key.
    pub fn get(&self, key: u128) -> (value: Option<&T>)
        requires
            self.wf(),
        ensures
            match value {
                Some(v) => self@.has(key) && v@ == self@.map[key],
                None => !self@.has(key),
            },
    {
        match self.position(key) {
            Some(i) => Some(self.value_at(i)),
            None => None,
        }
    }

    /// Puts another record in the place of number `i`.
    pub fn replace_at(&mut self, i: usize, value: T)
        requires
            old(self).wf(),
            i < old(self)@.keys.len(),
        ensures
            final(self).wf(),
            final(self)@ == old(self)@.put(old(self)@.keys[i as int], value@),
            final(self)@.list() == old(self)@.list().update(i as int, value@),
    {
        let ghost before = *self;
        proof {
            before.lemma_at(i as int);
        }
        self.values.set(i, value);
        proof {
            let key = before.keys@[i as int];
            assert forall|k: u128| #[trigger] self@.map.contains_key(k) implies self@.map[k]
                == before@.put(key, value@).map[k] by {
                let j = before.keys@.index_of(k);
                assert(before.keys@[j] == k);
                if k == key {
                    assert(j == i);
                }
            }
            assert(self@.map =~= before@.put(key, value@).map);
            lemma_put_list(before@, i as int, value@);
        }
    }

    /// Puts a record under a key, in the place of the one that was there.
    pub fn put(&mut self, key: u128, value: T)
        requires
            old(self).wf(),
        ensures
            final(self).wf(),
            final(self)@ == old(self)@.put(key, value@),
            final(self)@.wf(),
    {
        match self.position(key) {
            Some(i) => {
                self.replace_at(i, value);
            },
            None => {
                let ghost before = *self;
                self.keys.push(key);
                self.values.push(value);
                proof {
                    assert(self.keys@ =~= before.keys@.push(key));
                    lemma_put_wf(before@, key, value@);
                    assert forall|k: u128| #[trigger] self@.map.contains_key(k) implies self@.map[k]
                        == before@.put(key, value@).map[k] by {
                        let j = self.keys@.index_of(k);
                        assert(self.keys@[j] == k);
                        if k == key {
                            assert(self.keys@[before.keys@.len() as int] == key);
                            assert(self.keys@.no_duplicates());
                            assert(j == before.keys@.len());
                        } else {
                            before.lemma_at(j);
                        }
                    }
                    assert(self@.map =~= before@.put(key, value@).map);
                }
            },
        }
    }
}

/// What is put under a key is found there, and what stands under other keys stays. A new key
/// comes behind all others; the record under a known one is replaced where it stands.
pub proof fn law_put_and_get<M>(rows: Rows<M>, key: u128, value: M, other: u128)
    ensures
        ({
            let after = rows.put(key, value);
            &&& after.has(key)
            &&& after.get(key) == Some(value)
            &&& other != key ==> after.has(other) == rows.has(other) && after.get(other)
                == rows.get(other)
            &&& rows.has(key) ==> after.keys == rows.keys
            &&& !rows.has(key) ==> after.keys == rows.keys + seq![key]
            &&& rows.get(other) is Some <==> rows.has(other)
            &&& rows.has(other) <==> rows.map.contains_key(other)
            &&& rows.has(other) ==> rows.get(other) == Some(rows.map[other])
            &&& !Rows::<M>::none().has(other)
        }),
{
    if !rows.has(key) {
        assert(rows.put(key, value).keys =~= rows.keys + seq![key]);
    }
}

/// The list of a table holds the records in the order in which their keys came, and counts each
/// that is to be counted.
pub proof fn law_list_follows_the_keys<M>(rows: Rows<M>, i: int, p: spec_fn(M) -> bool)
    requires
        0 <= i < rows.keys.len(),
    ensures
        rows.list().len() == rows.keys.len(),
        rows.list()[i] == rows.map[rows.keys[i]],
        rows.count(p) == rows.list().filter(p).len(),
{
}

} // verus!
