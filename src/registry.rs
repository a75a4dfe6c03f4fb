use vstd::prelude::*;

verus! {

/// A key whose equality is that of its view.
pub trait Key: View + Sized {
    fn key_eq(&self, other: &Self) -> (r: bool)
        ensures
            r == (self@ == other@),
    ;
}

impl Key for String {
    fn key_eq(&self, other: &Self) -> (r: bool) {
        *self == *other
    }
}

/// The map that inserting `keys[i] -> vals[i]` in order gives.
pub open spec fn map_of<K: View, V>(keys: Seq<K>, vals: Seq<V>) -> Map<K::V, V>
    decreases keys.len(),
{
    if keys.len() == 0 || vals.len() == 0 {
        Map::empty()
    } else {
        map_of(keys.drop_last(), vals.drop_last()).insert(keys.last()@, vals.last())
    }
}

/// No two keys of `keys` have the same view.
pub open spec fn keys_unique<K: View>(keys: Seq<K>) -> bool {
    forall|i: int, j: int| 0 <= i < j < keys.len() ==> (#[trigger] keys[i])@ != (#[trigger] keys[j])@
}

proof fn lemma_map_of_domain<K: View, V>(keys: Seq<K>, vals: Seq<V>, k: K::V)
    requires
        keys.len() == vals.len(),
    ensures
        map_of(keys, vals).contains_key(k) <==> exists|i: int| 0 <= i < keys.len() && (#[trigger] keys[i])@ == k,
    decreases keys.len(),
{
    if keys.len() > 0 {
        let ks = keys.drop_last();
        lemma_map_of_domain(ks, vals.drop_last(), k);
        if map_of(keys, vals).contains_key(k) && keys.last()@ != k {
            let i = choose|i: int| 0 <= i < ks.len() && (#[trigger] ks[i])@ == k;
            assert(keys[i] == ks[i]);
        }
        if exists|i: int| 0 <= i < keys.len() && (#[trigger] keys[i])@ == k {
            let i = choose|i: int| 0 <= i < keys.len() && (#[trigger] keys[i])@ == k;
            if i < ks.len() {
                assert(ks[i] == keys[i]);
            }
        }
    }
}

proof fn lemma_map_of_value<K: View, V>(keys: Seq<K>, vals: Seq<V>, i: int)
    requires
        keys.len() == vals.len(),
        keys_unique(keys),
        0 <= i < keys.len(),
    ensures
        map_of(keys, vals).contains_key(keys[i]@),
        map_of(keys, vals)[keys[i]@] == vals[i],
    decreases keys.len(),
{
    let ks = keys.drop_last();
    let vs = vals.drop_last();
    if i < keys.len() - 1 {
        assert(ks[i] == keys[i] && vs[i] == vals[i]);
        assert(keys_unique(ks)) by {
            assert forall|a: int, b: int| 0 <= a < b < ks.len() implies (#[trigger] ks[a])@ != (
            #[trigger] ks[b])@ by {
                assert(ks[a] == keys[a] && ks[b] == keys[b]);
            }
        }
        lemma_map_of_value(ks, vs, i);
        assert(keys[i]@ != keys[keys.len() - 1]@);
    }
}

proof fn lemma_map_of_update<K: View, V>(keys: Seq<K>, vals: Seq<V>, i: int, v: V)
    requires
        keys.len() == vals.len(),
        keys_unique(keys),
        0 <= i < keys.len(),
    ensures
        map_of(keys, vals.update(i, v)) == map_of(keys, vals).insert(keys[i]@, v),
    decreases keys.len(),
{
    let ks = keys.drop_last();
    let vs = vals.drop_last();
    let n = keys.len() - 1;
    if i < n {
        assert(keys_unique(ks)) by {
            assert forall|a: int, b: int| 0 <= a < b < ks.len() implies (#[trigger] ks[a])@ != (
            #[trigger] ks[b])@ by {
                assert(ks[a] == keys[a] && ks[b] == keys[b]);
            }
        }
        lemma_map_of_update(ks, vs, i, v);
        assert(vals.update(i, v).drop_last() =~= vs.update(i, v));
        assert(ks[i] == keys[i]);
        assert(keys[i]@ != keys[n]@);
        assert(map_of(keys, vals.update(i, v)) =~= map_of(keys, vals).insert(keys[i]@, v));
    } else {
        assert(vals.update(i, v).drop_last() =~= vs);
        assert(map_of(keys, vals.update(i, v)) =~= map_of(keys, vals).insert(keys[i]@, v));
    }
}

proof fn lemma_map_of_len<K: View, V>(keys: Seq<K>, vals: Seq<V>)
    requires
        keys.len() == vals.len(),
        keys_unique(keys),
    ensures
        map_of(keys, vals).len() == keys.len(),
        map_of(keys, vals).dom().finite(),
    decreases keys.len(),
{
    if keys.len() > 0 {
        let ks = keys.drop_last();
        let vs = vals.drop_last();
        assert(keys_unique(ks)) by {
            assert forall|a: int, b: int| 0 <= a < b < ks.len() implies (#[trigger] ks[a])@ != (
            #[trigger] ks[b])@ by {
                assert(ks[a] == keys[a] && ks[b] == keys[b]);
            }
        }
        lemma_map_of_len(ks, vs);
        lemma_map_of_domain(ks, vs, keys.last()@);
        if map_of(ks, vs).contains_key(keys.last()@) {
            let i = choose|i: int| 0 <= i < ks.len() && (#[trigger] ks[i])@ == keys.last()@;
            assert(keys[i] == ks[i]);
        }
    }
}

/// A map from keys to copyable values, kept as two parallel lists with no key twice.
pub struct Registry<K, V> {
    keys: Vec<K>,
    vals: Vec<V>,
}

impl<K: Key, V> View for Registry<K, V> {
    type V = Map<K::V, V>;

    closed spec fn view(&self) -> Map<K::V, V> {
        map_of(self.keys@, self.vals@)
    }
}

impl<K: Key, V> Registry<K, V> {
    /// The two lists have one length and no key occurs twice.
    pub closed spec fn wf(&self) -> bool {
        self.keys@.len() == self.vals@.len() && keys_unique(self.keys@)
    }

    /// An empty registry.
    pub fn new() -> (r: Self)
        ensures
            r.wf(),
            r@ == Map::<K::V, V>::empty(),
    {
        Registry { keys: Vec::new(), vals: Vec::new() }
    }

    fn position(&self, key: &K) -> (r: Option<usize>)
        requires
            self.wf(),
        ensures
            match r {
                Some(i) => i < self.keys@.len() && self.keys@[i as int]@ == key@,
                None => forall|i: int| 0 <= i < self.keys@.len() ==> (#[trigger] self.keys@[i])@ != key@,
            },
    {
        let mut i: usize = 0;
        while i < self.keys.len()
            invariant
                i <= self.keys@.len(),
                forall|j: int| 0 <= j < i ==> (#[trigger] self.keys@[j])@ != key@,
            decreases self.keys@.len() - i,
        {
            if self.keys[i].key_eq(key) {
                return Some(i);
            }
            i += 1;
        }
        None
    }

    /// The value under `key`, if any, for reading in place.
    pub fn get_ref(&self, key: &K) -> (r: Option<&V>)
        requires
            self.wf(),
        ensures
            r is Some <==> self@.contains_key(key@),
            r is Some ==> *r->Some_0 == self@[key@],
    {
        proof {
            lemma_map_of_domain(self.keys@, self.vals@, key@);
        }
        match self.position(key) {
            Some(i) => {
                proof {
                    lemma_map_of_value(self.keys@, self.vals@, i as int);
                }
                Some(&self.vals[i])
            },
            None => None,
        }
    }

    /// Whether `key` has a value.
    pub fn contains(&self, key: &K) -> (r: bool)
        requires
            self.wf(),
        ensures
            r == self@.contains_key(key@),
    {
        proof {
            lemma_map_of_domain(self.keys@, self.vals@, key@);
        }
        self.position(key).is_some()
    }

    /// The keys, in the registry's own order.
    pub closed spec fn key_seq(&self) -> Seq<K::V> {
        self.keys@.map_values(|k: K| k@)
    }

    /// The values, in the registry's own order: `value_seq()[i]` is stored under `key_seq()[i]`.
    pub closed spec fn value_seq(&self) -> Seq<V> {
        self.vals@
    }

    /// The two orders list every entry of the map exactly once.
    pub proof fn lemma_entries(&self)
        requires
            self.wf(),
        ensures
            self.key_seq().len() == self.value_seq().len(),
            self.key_seq().len() == self@.len(),
            forall|i: int, j: int|
                0 <= i < j < self.key_seq().len() ==> self.key_seq()[i] != self.key_seq()[j],
            forall|i: int|
                0 <= i < self.key_seq().len() ==> #[trigger] self@.contains_key(self.key_seq()[i])
                    && self@[self.key_seq()[i]] == self.value_seq()[i],
            forall|k: K::V| #[trigger] self@.contains_key(k) ==> self.key_seq().contains(k),
    {
        lemma_map_of_len(self.keys@, self.vals@);
        assert forall|i: int| 0 <= i < self.key_seq().len() implies #[trigger] self@.contains_key(
            self.key_seq()[i],
        ) && self@[self.key_seq()[i]] == self.value_seq()[i] by {
            lemma_map_of_value(self.keys@, self.vals@, i);
        }
        assert forall|k: K::V| #[trigger] self@.contains_key(k) implies self.key_seq().contains(k) by {
            lemma_map_of_domain(self.keys@, self.vals@, k);
            let i = choose|i: int| 0 <= i < self.keys@.len() && (#[trigger] self.keys@[i])@ == k;
            assert(self.key_seq()[i] == k);
        }
    }

    /// The number of keys.
    pub fn len(&self) -> (r: usize)
        requires
            self.wf(),
        ensures
            r == self@.len(),
            r == self.value_seq().len(),
    {
        proof {
            lemma_map_of_len(self.keys@, self.vals@);
        }
        self.keys.len()
    }

    /// Removes every key.
    pub fn clear(&mut self)
        ensures
            final(self).wf(),
            final(self)@ == Map::<K::V, V>::empty(),
    {
        self.keys.clear();
        self.vals.clear();
    }

    /// Sets the value under `key`, replacing the one it had.
    pub fn insert(&mut self, key: K, val: V)
        requires
            old(self).wf(),
        ensures
            final(self).wf(),
            final(self)@ == old(self)@.insert(key@, val),
    {
        match self.position(&key) {
            Some(i) => {
                proof {
                    lemma_map_of_update(self.keys@, self.vals@, i as int, val);
                }
                self.vals.set(i, val);
            },
            None => {
                let ghost ks = self.keys@;
                let ghost vs = self.vals@;
                self.keys.push(key);
                self.vals.push(val);
                proof {
                    assert(self.keys@.drop_last() =~= ks);
                    assert(self.vals@.drop_last() =~= vs);
                    assert forall|a: int, b: int| 0 <= a < b < self.keys@.len() implies (
                    #[trigger] self.keys@[a])@ != (#[trigger] self.keys@[b])@ by {
                        if b < ks.len() {
                            assert(self.keys@[a] == ks[a] && self.keys@[b] == ks[b]);
                        } else {
                            assert(self.keys@[a] == ks[a]);
                        }
                    }
                }
            },
        }
    }
}

impl<K: Key, V: Copy> Registry<K, V> {
    /// The value under `key`, if any.
    pub fn get(&self, key: &K) -> (r: Option<V>)
        requires
            self.wf(),
        ensures
            r == (if self@.contains_key(key@) {
                Some(self@[key@])
            } else {
                None
            }),
    {
        proof {
            lemma_map_of_domain(self.keys@, self.vals@, key@);
        }
        match self.position(key) {
            Some(i) => {
                proof {
                    lemma_map_of_value(self.keys@, self.vals@, i as int);
                }
                Some(self.vals[i])
            },
            None => None,
        }
    }

    /// The value at position `i` of the registry's own order.
    pub fn value_at(&self, i: usize) -> (r: V)
        requires
            self.wf(),
            i < self.value_seq().len(),
        ensures
            r == self.value_seq()[i as int],
    {
        self.vals[i]
    }
}

} // verus!
