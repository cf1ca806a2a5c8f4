//! A finite map kept as a vector of entries, with no key occurring twice.
//!
//! Entries keep the order in which their keys were first inserted, so walking a
//! map is deterministic: every replica that performs the same operations walks
//! its maps in the same order.
use vstd::prelude::*;

verus! {

/// A key with an executable equality that agrees with equality of its model.
pub trait Keyed: Sized {
    type Model;

    spec fn key_model(&self) -> Self::Model;

    fn same_key(&self, other: &Self) -> (b: bool)
        ensures
            b == (self.key_model() == other.key_model()),
    ;
}

/// A key that belongs to a sequence number of the protocol.
pub trait Sequenced: Keyed {
    spec fn seq_of(k: Self::Model) -> usize;

    fn seq_num(&self) -> (r: usize)
        ensures
            r == Self::seq_of(self.key_model()),
    ;
}

/// Byte strings are equal exactly when their sequences are.
pub fn bytes_eq(a: &Vec<u8>, b: &Vec<u8>) -> (r: bool)
    ensures
        r == (a@ == b@),
{
    if a.len() != b.len() {
        return false;
    }
    let mut i: usize = 0;
    while i < a.len()
        invariant
            a@.len() == b@.len(),
            i <= a@.len(),
            forall|j: int| 0 <= j < i ==> a@[j] == b@[j],
        decreases a@.len() - i,
    {
        if a[i] != b[i] {
            return false;
        }
        i = i + 1;
    }
    assert(a@ =~= b@);
    true
}

impl Keyed for usize {
    type Model = usize;

    open spec fn key_model(&self) -> usize {
        *self
    }

    fn same_key(&self, other: &Self) -> (b: bool) {
        *self == *other
    }
}

impl Sequenced for usize {
    open spec fn seq_of(k: usize) -> usize {
        k
    }

    fn seq_num(&self) -> (r: usize) {
        *self
    }
}

impl Keyed for (usize, usize) {
    type Model = (usize, usize);

    open spec fn key_model(&self) -> (usize, usize) {
        *self
    }

    fn same_key(&self, other: &Self) -> (b: bool) {
        self.0 == other.0 && self.1 == other.1
    }
}

/// A `(view, sequence number)` pair.
impl Sequenced for (usize, usize) {
    open spec fn seq_of(k: (usize, usize)) -> usize {
        k.1
    }

    fn seq_num(&self) -> (r: usize) {
        self.1
    }
}

impl Keyed for (usize, Vec<u8>) {
    type Model = (usize, Seq<u8>);

    open spec fn key_model(&self) -> (usize, Seq<u8>) {
        (self.0, self.1@)
    }

    fn same_key(&self, other: &Self) -> (b: bool) {
        self.0 == other.0 && bytes_eq(&self.1, &other.1)
    }
}

/// A `(sequence number, digest)` pair.
impl Sequenced for (usize, Vec<u8>) {
    open spec fn seq_of(k: (usize, Seq<u8>)) -> usize {
        k.0
    }

    fn seq_num(&self) -> (r: usize) {
        self.0
    }
}

impl Keyed for String {
    type Model = Seq<char>;

    open spec fn key_model(&self) -> Seq<char> {
        self@
    }

    fn same_key(&self, other: &Self) -> (b: bool) {
        *self == *other
    }
}

/// A map from keys to values held as a vector of `(key, value)` entries.
#[derive(Default)]
pub struct VecMap<K, V> {
    pub entries: Vec<(K, V)>,
}

/// The model of the key of the `i`-th entry of `s`.
pub open spec fn entry_key<K: Keyed, V>(s: Seq<(K, V)>, i: int) -> K::Model {
    s[i].0.key_model()
}

/// Does some entry of `s` carry key `k`?
pub open spec fn entries_have<K: Keyed, V>(s: Seq<(K, V)>, k: K::Model) -> bool {
    exists|i: int| 0 <= i < s.len() && #[trigger] entry_key(s, i) == k
}

/// An entry of `s` that carries key `k`.
pub open spec fn entries_index<K: Keyed, V>(s: Seq<(K, V)>, k: K::Model) -> int {
    choose|i: int| 0 <= i < s.len() && #[trigger] entry_key(s, i) == k
}

/// The map that a list of entries stands for.
pub open spec fn entries_map<K: Keyed, V: View>(s: Seq<(K, V)>) -> Map<K::Model, V::V> {
    Map::new(|k: K::Model| entries_have(s, k), |k: K::Model| s[entries_index(s, k)].1@)
}

/// Maps `k` to `v` in a list of `(key, value)` pairs: an entry of `k` keeps its
/// place, a new entry comes last.
pub open spec fn model_insert<KM, VV>(m: Seq<(KM, VV)>, k: KM, v: VV) -> Seq<(KM, VV)> {
    if exists|i: int| 0 <= i < m.len() && (#[trigger] m[i]).0 == k {
        let i = choose|i: int| 0 <= i < m.len() && (#[trigger] m[i]).0 == k;
        m.update(i, (k, v))
    } else {
        m.push((k, v))
    }
}

impl<K: Keyed, V: View> View for VecMap<K, V> {
    type V = Map<K::Model, V::V>;

    open spec fn view(&self) -> Map<K::Model, V::V> {
        self.to_map()
    }
}

impl<K: Keyed, V: View> VecMap<K, V> {
    /// The model of the key of the `i`-th entry.
    #[verifier::inline]
    pub open spec fn key_at(&self, i: int) -> K::Model {
        entry_key(self.entries@, i)
    }

    /// Does some entry carry key `k`?
    #[verifier::inline]
    pub open spec fn has(&self, k: K::Model) -> bool {
        entries_have(self.entries@, k)
    }

    /// The entry that carries key `k`.
    #[verifier::inline]
    pub open spec fn index_of(&self, k: K::Model) -> int {
        entries_index(self.entries@, k)
    }

    /// No key occurs in two entries.
    pub open spec fn wf(&self) -> bool {
        forall|i: int, j: int|
            0 <= i < self.entries@.len() && 0 <= j < self.entries@.len() && i != j
                ==> #[trigger] self.key_at(i) != #[trigger] self.key_at(j)
    }

    /// The map that the entries stand for.
    pub open spec fn to_map(&self) -> Map<K::Model, V::V> {
        entries_map(self.entries@)
    }

    /// The values in entry order.
    pub open spec fn values(&self) -> Seq<V::V> {
        self.entries@.map_values(|e: (K, V)| e.1@)
    }

    /// The key models in entry order.
    pub open spec fn keys(&self) -> Seq<K::Model> {
        self.entries@.map_values(|e: (K, V)| e.0.key_model())
    }

    /// The entries' keys and values, in order.
    pub open spec fn model(&self) -> Seq<(K::Model, V::V)> {
        self.entries@.map_values(|e: (K, V)| (e.0.key_model(), e.1@))
    }

    /// Keys, values and model line up with the entries.
    pub proof fn lemma_views(self)
        ensures
            self.keys().len() == self.entries@.len(),
            self.values().len() == self.entries@.len(),
            self.model().len() == self.entries@.len(),
            forall|i: int| 0 <= i < self.entries@.len() ==> #[trigger] self.keys()[i] == self.key_at(i),
            forall|i: int| 0 <= i < self.entries@.len() ==> #[trigger] self.values()[i] == self.entries@[i].1@,
            forall|i: int| 0 <= i < self.entries@.len() ==> #[trigger] self.model()[i] == (self.key_at(i), self.entries@[i].1@),
    {
    }

    /// An insertion, seen on the entries' keys and values.
    pub proof fn lemma_inserted_model(self, new: Self, k: K::Model, v: V::V)
        requires
            self.wf(),
            self.inserted(new, k, v),
        ensures
            new.model() == model_insert(self.model(), k, v),
    {
        self.lemma_views();
        new.lemma_views();
        let m = self.model();
        if self.to_map().dom().contains(k) {
            let j = self.index_of(k);
            assert(self.key_at(j) == k);
            assert(m[j].0 == k);
            let i = choose|i: int| 0 <= i < m.len() && (#[trigger] m[i]).0 == k;
            assert(self.key_at(i) == k);
            assert(i == j);
            assert(new.keys().len() == self.keys().len());
            assert forall|a: int| 0 <= a < new.model().len() implies #[trigger] new.model()[a] == m.update(i, (k, v))[a] by {
                assert(new.keys()[a] == self.keys()[a]);
                assert(new.values()[a] == self.values().update(i, v)[a]);
                assert(new.model()[a] == (new.keys()[a], new.values()[a]));
                if a != i {
                    assert(new.values()[a] == self.values()[a]);
                    assert(m[a] == (self.keys()[a], self.values()[a]));
                }
            }
            assert(new.model() =~= m.update(i, (k, v)));
        } else {
            assert forall|i: int| 0 <= i < m.len() implies (#[trigger] m[i]).0 != k by {
                assert(self.key_at(i) == m[i].0);
                if m[i].0 == k {
                    assert(self.has(k));
                }
            }
            assert(new.keys().len() == self.keys().len() + 1);
            assert forall|a: int| 0 <= a < new.model().len() implies #[trigger] new.model()[a] == m.push((k, v))[a] by {
                assert(new.keys()[a] == self.keys().push(k)[a]);
                assert(new.values()[a] == self.values().push(v)[a]);
            }
            assert(new.model() =~= m.push((k, v)));
        }
    }

    /// `new` is `self` with `k` mapped to `v`: an entry of `k` keeps its place,
    /// a new entry comes last.
    pub open spec fn inserted(self, new: Self, k: K::Model, v: V::V) -> bool {
        &&& new.wf()
        &&& new.to_map() == self.to_map().insert(k, v)
        &&& new.keys() == if self.to_map().dom().contains(k) {
            self.keys()
        } else {
            self.keys().push(k)
        }
        &&& new.values() == if self.to_map().dom().contains(k) {
            self.values().update(self.index_of(k), v)
        } else {
            self.values().push(v)
        }
    }

    /// `new` is `self` without the entry of `k`; the other entries keep their order.
    pub open spec fn removed(self, new: Self, k: K::Model) -> bool {
        &&& new.wf()
        &&& new.to_map() == self.to_map().remove(k)
        &&& new.keys() == if self.to_map().dom().contains(k) {
            self.keys().remove(self.index_of(k))
        } else {
            self.keys()
        }
        &&& new.values() == if self.to_map().dom().contains(k) {
            self.values().remove(self.index_of(k))
        } else {
            self.values()
        }
    }

    /// Inserting twice under the same key is inserting the second value.
    pub proof fn lemma_inserted_twice(self, mid: Self, new: Self, k: K::Model, v1: V::V, v2: V::V)
        requires
            self.wf(),
            self.inserted(mid, k, v1),
            mid.inserted(new, k, v2),
        ensures
            self.inserted(new, k, v2),
    {
        self.lemma_views();
        mid.lemma_views();
        new.lemma_views();
        assert(mid.to_map().dom().contains(k));
        assert(new.to_map() =~= self.to_map().insert(k, v2));
        if self.to_map().dom().contains(k) {
            let i = self.index_of(k);
            assert(self.key_at(i) == k);
            assert(mid.keys() == self.keys());
            assert(mid.keys()[i] == k);
            assert(mid.key_at(i) == k);
            mid.lemma_entry_in_map(i);
            assert(new.values() =~= self.values().update(i, v2));
        } else {
            let n = self.entries@.len() as int;
            assert(mid.keys()[n] == k);
            assert(mid.key_at(n) == k);
            mid.lemma_entry_in_map(n);
            assert(new.values() =~= self.values().push(v2));
            assert(new.keys() =~= self.keys().push(k));
        }
    }

    pub proof fn lemma_entry_in_map(&self, i: int)
        requires
            self.wf(),
            0 <= i < self.entries@.len(),
        ensures
            self.to_map().dom().contains(self.key_at(i)),
            self.to_map()[self.key_at(i)] == self.entries@[i].1@,
            self.index_of(self.key_at(i)) == i,
    {
        let k = self.key_at(i);
        assert(self.has(k));
        let j = self.index_of(k);
        assert(self.key_at(j) == k);
    }

    pub fn new() -> (m: Self)
        ensures
            m.wf(),
            m.to_map() == Map::<K::Model, V::V>::empty(),
            m.entries@.len() == 0,
    {
        let m = VecMap { entries: Vec::new() };
        assert(m.to_map() =~= Map::<K::Model, V::V>::empty());
        m
    }

    pub fn len(&self) -> (n: usize)
        requires
            self.wf(),
        ensures
            n == self.to_map().len(),
            n == self.entries@.len(),
    {
        proof {
            self.lemma_len();
        }
        self.entries.len()
    }

    pub proof fn lemma_len(&self)
        requires
            self.wf(),
        ensures
            self.to_map().dom().finite(),
            self.to_map().len() == self.entries@.len(),
    {
        let n = self.entries@.len() as int;
        self.lemma_prefix_keys(n);
        let s = Set::new(|k: K::Model| exists|i: int| 0 <= i < n && #[trigger] self.key_at(i) == k);
        assert(self.to_map().dom() =~= s);
    }

    proof fn lemma_prefix_keys(&self, m: int)
        requires
            self.wf(),
            0 <= m <= self.entries@.len(),
        ensures
            ({
                let s = Set::new(
                    |k: K::Model| exists|i: int| 0 <= i < m && #[trigger] self.key_at(i) == k,
                );
                s.finite() && s.len() == m
            }),
        decreases m,
    {
        let s = Set::new(|k: K::Model| exists|i: int| 0 <= i < m && #[trigger] self.key_at(i) == k);
        if m == 0 {
            assert(s =~= Set::empty());
        } else {
            self.lemma_prefix_keys(m - 1);
            let s0 = Set::new(
                |k: K::Model| exists|i: int| 0 <= i < m - 1 && #[trigger] self.key_at(i) == k,
            );
            assert(s =~= s0.insert(self.key_at(m - 1))) by {
                assert forall|k: K::Model| s.contains(k) implies #[trigger] s0.insert(
                    self.key_at(m - 1),
                ).contains(k) by {
                    let i = choose|i: int| 0 <= i < m && #[trigger] self.key_at(i) == k;
                    if i < m - 1 {
                        assert(s0.contains(k));
                    }
                }
            }
            assert(!s0.contains(self.key_at(m - 1)));
        }
    }

    /// Position of the entry that carries `k`, if any.
    pub fn find(&self, k: &K) -> (r: Option<usize>)
        requires
            self.wf(),
        ensures
            r is None <==> !self.to_map().dom().contains(k.key_model()),
            r matches Some(i) ==> i < self.entries@.len() && self.key_at(i as int) == k.key_model(),
    {
        let mut i: usize = 0;
        while i < self.entries.len()
            invariant
                i <= self.entries@.len(),
                forall|j: int| 0 <= j < i ==> self.key_at(j) != k.key_model(),
            decreases self.entries@.len() - i,
        {
            if self.entries[i].0.same_key(k) {
                assert(self.key_at(i as int) == k.key_model());
                assert(self.has(k.key_model()));
                return Some(i);
            }
            i = i + 1;
        }
        None
    }

    pub fn contains_key(&self, k: &K) -> (r: bool)
        requires
            self.wf(),
        ensures
            r == self.to_map().dom().contains(k.key_model()),
    {
        self.find(k).is_some()
    }

    pub fn get(&self, k: &K) -> (r: Option<&V>)
        requires
            self.wf(),
        ensures
            r is Some == self.to_map().dom().contains(k.key_model()),
            r matches Some(v) ==> v@ == self.to_map()[k.key_model()],
    {
        match self.find(k) {
            Some(i) => {
                proof {
                    self.lemma_entry_in_map(i as int);
                }
                Some(&self.entries[i].1)
            },
            None => None,
        }
    }

    /// Maps `k` to `v`, replacing the value that `k` had.
    pub fn insert(&mut self, k: K, v: V)
        requires
            old(self).wf(),
        ensures
            final(self).wf(),
            final(self).to_map() == old(self).to_map().insert(k.key_model(), v@),
            old(self).to_map().dom().contains(k.key_model()) ==> final(self).entries@
                == old(self).entries@.update(old(self).index_of(k.key_model()), (k, v)),
            old(self).to_map().dom().contains(k.key_model()) ==> final(self).keys() == old(self).keys(),
            !old(self).to_map().dom().contains(k.key_model()) ==> final(self).keys()
                == old(self).keys().push(k.key_model()),
            !old(self).to_map().dom().contains(k.key_model()) ==> final(self).entries@
                == old(self).entries@.push((k, v)),
            old(self).inserted(*final(self), k.key_model(), v@),
    {
        let ghost km = k.key_model();
        let ghost vv = v@;
        let ghost pre = *self;
        match self.find(&k) {
            Some(i) => {
                proof {
                    pre.lemma_entry_in_map(i as int);
                }
                self.entries.set(i, (k, v));
                proof {
                    assert(self.keys() =~= pre.keys());
                    assert(self.values() =~= pre.values().update(i as int, vv));
                    assert forall|a: int, b: int|
                        0 <= a < self.entries@.len() && 0 <= b < self.entries@.len() && a
                            != b implies #[trigger] self.key_at(a) != #[trigger] self.key_at(
                        b,
                    ) by {
                        assert(self.key_at(a) == pre.key_at(a));
                        assert(self.key_at(b) == pre.key_at(b));
                    }
                    assert forall|a: int| 0 <= a < self.entries@.len() implies #[trigger] self.key_at(
                        a,
                    ) == pre.key_at(a) by {}
                    assert(self.to_map() =~= pre.to_map().insert(km, vv)) by {
                        assert forall|key: K::Model| #[trigger]
                            self.to_map().dom().contains(key) == pre.to_map().insert(
                                km,
                                vv,
                            ).dom().contains(key) by {
                            if self.has(key) {
                                let j = choose|j: int|
                                    0 <= j < self.entries@.len() && #[trigger] self.key_at(j)
                                        == key;
                                assert(pre.key_at(j) == key);
                            }
                            if pre.has(key) {
                                let j = choose|j: int|
                                    0 <= j < pre.entries@.len() && #[trigger] pre.key_at(j) == key;
                                assert(self.key_at(j) == key);
                            }
                            if key == km {
                                assert(self.key_at(i as int) == key);
                            }
                        }
                        assert forall|key: K::Model| #[trigger]
                            self.to_map().dom().contains(key) implies self.to_map()[key]
                            == pre.to_map().insert(km, vv)[key] by {
                            let j = choose|j: int|
                                0 <= j < self.entries@.len() && #[trigger] self.key_at(j) == key;
                            self.lemma_entry_in_map(j);
                            if key != km {
                                pre.lemma_entry_in_map(j);
                            }
                        }
                    }
                }
            },
            None => {
                self.entries.push((k, v));
                proof {
                    assert(self.keys() =~= pre.keys().push(km));
                    assert(self.values() =~= pre.values().push(vv));
                    let n = pre.entries@.len() as int;
                    assert forall|a: int| 0 <= a < n implies #[trigger] self.key_at(a) == pre.key_at(
                        a,
                    ) by {}
                    assert forall|a: int| 0 <= a < n implies #[trigger] pre.key_at(a) != km by {
                        pre.lemma_entry_in_map(a);
                    }
                    assert forall|a: int, b: int|
                        0 <= a < self.entries@.len() && 0 <= b < self.entries@.len() && a
                            != b implies #[trigger] self.key_at(a) != #[trigger] self.key_at(
                        b,
                    ) by {
                        if a < n {
                            assert(self.key_at(a) == pre.key_at(a));
                        }
                        if b < n {
                            assert(self.key_at(b) == pre.key_at(b));
                        }
                    }
                    assert(self.to_map() =~= pre.to_map().insert(km, vv)) by {
                        assert forall|key: K::Model| #[trigger]
                            self.to_map().dom().contains(key) == pre.to_map().insert(
                                km,
                                vv,
                            ).dom().contains(key) by {
                            if self.has(key) {
                                let j = choose|j: int|
                                    0 <= j < self.entries@.len() && #[trigger] self.key_at(j)
                                        == key;
                                if j < n {
                                    assert(pre.key_at(j) == key);
                                }
                            }
                            if pre.has(key) {
                                let j = choose|j: int|
                                    0 <= j < pre.entries@.len() && #[trigger] pre.key_at(j) == key;
                                assert(self.key_at(j) == key);
                            }
                            if key == km {
                                assert(self.key_at(n) == key);
                            }
                        }
                        assert forall|key: K::Model| #[trigger]
                            self.to_map().dom().contains(key) implies self.to_map()[key]
                            == pre.to_map().insert(km, vv)[key] by {
                            let j = choose|j: int|
                                0 <= j < self.entries@.len() && #[trigger] self.key_at(j) == key;
                            self.lemma_entry_in_map(j);
                            if j < n {
                                pre.lemma_entry_in_map(j);
                            }
                        }
                    }
                }
            },
        }
    }

    /// Replaces the value of the `i`-th entry, keeping its key and place, and
    /// hands back the value it had.
    pub fn replace_value(&mut self, i: usize, v: V) -> (r: V)
        requires
            old(self).wf(),
            i < old(self).entries@.len(),
        ensures
            final(self).wf(),
            final(self).entries@.len() == old(self).entries@.len(),
            forall|j: int| 0 <= j < old(self).entries@.len() && j != i ==> #[trigger] final(self).entries@[j] == old(self).entries@[j],
            final(self).entries@[i as int].1 == v,
            final(self).entries@[i as int].0 == old(self).entries@[i as int].0,
            r == old(self).entries@[i as int].1,
            old(self).index_of(old(self).key_at(i as int)) == i,
            old(self).inserted(*final(self), old(self).key_at(i as int), v@),
    {
        let ghost pre = *self;
        let ghost vv = v@;
        proof {
            pre.lemma_entry_in_map(i as int);
        }
        let (k, old_v) = self.entries.remove(i);
        self.entries.insert(i, (k, v));
        proof {
            let km = pre.key_at(i as int);
            assert(self.entries@ =~= pre.entries@.update(i as int, (k, v)));
            assert forall|a: int| 0 <= a < self.entries@.len() implies #[trigger] self.key_at(a) == pre.key_at(a) by {}
            assert forall|a: int, b: int|
                0 <= a < self.entries@.len() && 0 <= b < self.entries@.len() && a != b
                    implies #[trigger] self.key_at(a) != #[trigger] self.key_at(b) by {
                assert(self.key_at(a) == pre.key_at(a));
                assert(self.key_at(b) == pre.key_at(b));
            }
            assert(self.keys() =~= pre.keys());
            assert(self.values() =~= pre.values().update(i as int, vv));
            assert(self.to_map() =~= pre.to_map().insert(km, vv)) by {
                assert forall|key: K::Model| #[trigger] self.to_map().dom().contains(key)
                    == pre.to_map().insert(km, vv).dom().contains(key) by {
                    if self.has(key) {
                        let j = choose|j: int| 0 <= j < self.entries@.len() && #[trigger] self.key_at(j) == key;
                        assert(pre.key_at(j) == key);
                    }
                    if pre.has(key) {
                        let j = choose|j: int| 0 <= j < pre.entries@.len() && #[trigger] pre.key_at(j) == key;
                        assert(self.key_at(j) == key);
                    }
                    if key == km {
                        assert(self.key_at(i as int) == key);
                    }
                }
                assert forall|key: K::Model| #[trigger] self.to_map().dom().contains(key)
                    implies self.to_map()[key] == pre.to_map().insert(km, vv)[key] by {
                    let j = choose|j: int| 0 <= j < self.entries@.len() && #[trigger] self.key_at(j) == key;
                    self.lemma_entry_in_map(j);
                    if key != km {
                        pre.lemma_entry_in_map(j);
                    }
                }
            }
        }
        old_v
    }

    /// Removes the `i`-th entry, handing it back; the other entries keep their
    /// order.
    pub fn remove_at(&mut self, i: usize) -> (r: (K, V))
        requires
            old(self).wf(),
            i < old(self).entries@.len(),
        ensures
            final(self).wf(),
            r == old(self).entries@[i as int],
            final(self).entries@ == old(self).entries@.remove(i as int),
            final(self).to_map() == old(self).to_map().remove(old(self).key_at(i as int)),
            final(self).keys() == old(self).keys().remove(i as int),
            final(self).values() == old(self).values().remove(i as int),
    {
        let ghost pre = *self;
        let ghost km = pre.key_at(i as int);
        proof {
            pre.lemma_entry_in_map(i as int);
        }
        let e = self.entries.remove(i);
        proof {
            assert(self.keys() =~= pre.keys().remove(i as int));
            assert(self.values() =~= pre.values().remove(i as int));
            assert forall|a: int| 0 <= a < self.entries@.len() implies #[trigger] self.key_at(a)
                == pre.key_at(if a < i { a } else { a + 1 }) by {}
            assert forall|a: int, b: int|
                0 <= a < self.entries@.len() && 0 <= b < self.entries@.len() && a
                    != b implies #[trigger] self.key_at(a) != #[trigger] self.key_at(b) by {
                assert(self.key_at(a) == pre.key_at(if a < i { a } else { a + 1 }));
                assert(self.key_at(b) == pre.key_at(if b < i { b } else { b + 1 }));
            }
            assert(self.to_map() =~= pre.to_map().remove(km)) by {
                assert forall|key: K::Model| #[trigger]
                    self.to_map().dom().contains(key) == pre.to_map().remove(km).dom().contains(key) by {
                    if self.has(key) {
                        let j = choose|j: int|
                            0 <= j < self.entries@.len() && #[trigger] self.key_at(j) == key;
                        let jj = if j < i { j } else { j + 1 };
                        assert(pre.key_at(jj) == key);
                        assert(jj != i);
                    }
                    if pre.has(key) && key != km {
                        let j = choose|j: int|
                            0 <= j < pre.entries@.len() && #[trigger] pre.key_at(j) == key;
                        assert(j != i);
                        let jj = if j < i { j } else { j - 1 };
                        assert(self.key_at(jj) == key);
                    }
                }
                assert forall|key: K::Model| #[trigger]
                    self.to_map().dom().contains(key) implies self.to_map()[key]
                    == pre.to_map().remove(km)[key] by {
                    let j = choose|j: int|
                        0 <= j < self.entries@.len() && #[trigger] self.key_at(j) == key;
                    self.lemma_entry_in_map(j);
                    pre.lemma_entry_in_map(if j < i { j } else { j + 1 });
                }
            }
        }
        e
    }

    /// Removes the entry of `k`, handing back its value.
    pub fn remove(&mut self, k: &K) -> (r: Option<V>)
        requires
            old(self).wf(),
        ensures
            final(self).wf(),
            final(self).to_map() == old(self).to_map().remove(k.key_model()),
            r is Some == old(self).to_map().dom().contains(k.key_model()),
            r matches Some(v) ==> v@ == old(self).to_map()[k.key_model()],
            old(self).removed(*final(self), k.key_model()),
    {
        let ghost km = k.key_model();
        let ghost pre = *self;
        match self.find(k) {
            Some(i) => {
                proof {
                    pre.lemma_entry_in_map(i as int);
                }
                let e = self.remove_at(i);
                Some(e.1)
            },
            None => {
                proof {
                    assert(pre.to_map().remove(km) =~= pre.to_map());
                    assert(self.keys() == pre.keys());
                }
                None
            },
        }
    }

    /// Removes every entry.
    pub fn clear(&mut self)
        ensures
            final(self).wf(),
            final(self).to_map() == Map::<K::Model, V::V>::empty(),
            final(self).entries@.len() == 0,
    {
        self.entries = Vec::new();
        assert(self.to_map() =~= Map::<K::Model, V::V>::empty());
    }
}

impl<K: Sequenced, V: View> VecMap<K, V> {
    /// Drops every entry whose key belongs to a sequence number below `bound`;
    /// the other entries keep their order.
    pub fn drop_below(&mut self, bound: usize)
        requires
            old(self).wf(),
        ensures
            final(self).wf(),
            final(self).to_map() == old(self).to_map().restrict(Set::new(|k: K::Model| K::seq_of(k) >= bound)),
    {
        let ghost pre = *self;
        let mut i: usize = 0;
        while i < self.entries.len()
            invariant
                self.wf(),
                pre.wf(),
                i <= self.entries@.len(),
                forall|k: K::Model| #[trigger] self.to_map().dom().contains(k) ==> pre.to_map().dom().contains(k)
                    && self.to_map()[k] == pre.to_map()[k],
                forall|k: K::Model| #[trigger] pre.to_map().dom().contains(k) && K::seq_of(k) >= bound
                    ==> self.to_map().dom().contains(k),
                forall|j: int| 0 <= j < i ==> K::seq_of(#[trigger] self.key_at(j)) >= bound,
            decreases self.entries@.len() - i,
        {
            let s = self.entries[i].0.seq_num();
            if s < bound {
                let ghost before = *self;
                self.remove_at(i);
                proof {
                    assert forall|j: int| 0 <= j < i implies K::seq_of(#[trigger] self.key_at(j)) >= bound by {
                        assert(self.entries@[j] == before.entries@[j]);
                        assert(before.key_at(j) == self.key_at(j));
                    }
                }
            } else {
                i = i + 1;
            }
        }
        proof {
            let keep = Set::new(|k: K::Model| K::seq_of(k) >= bound);
            assert forall|k: K::Model| #[trigger] self.to_map().dom().contains(k) implies K::seq_of(k) >= bound by {
                let j = choose|j: int| 0 <= j < self.entries@.len() && #[trigger] entry_key(self.entries@, j) == k;
                assert(self.key_at(j) == k);
            }
            assert(self.to_map() =~= pre.to_map().restrict(keep));
        }
    }
}

} // verus!
