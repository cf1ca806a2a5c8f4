//! The order in which a store's entries are hashed: by key, comparing keys
//! character by character, a key before every longer key that extends it.
//! Listing a store in this order makes its digest depend on what it holds,
//! not on the order in which its keys were written.
use vstd::prelude::*;

use vstd::string::StrSliceExecFns;

use crate::crypto::pairs_model;
use crate::vec_map::VecMap;
use crate::Value;

verus! {

/// Does `a` come before `b`, given that they agree before position `i`?
pub open spec fn key_lt_from(a: Seq<char>, b: Seq<char>, i: int) -> bool
    decreases a.len() - i,
{
    if i >= a.len() {
        b.len() > i
    } else if i >= b.len() {
        false
    } else if a[i] != b[i] {
        a[i] < b[i]
    } else {
        key_lt_from(a, b, i + 1)
    }
}

/// Does key `a` come before key `b`?
pub open spec fn key_lt(a: Seq<char>, b: Seq<char>) -> bool {
    key_lt_from(a, b, 0)
}

/// Are the keys of `s` strictly increasing?
pub open spec fn keys_increasing(s: Seq<(Seq<char>, Value)>) -> bool {
    forall|i: int, j: int| 0 <= i < j < s.len() ==> key_lt(#[trigger] s[i].0, #[trigger] s[j].0)
}

/// Does `s` list the entries of `m`: each pair of `s` is an entry of `m`, and
/// each key of `m` occurs in `s`?
pub open spec fn lists(s: Seq<(Seq<char>, Value)>, m: Map<Seq<char>, Value>) -> bool {
    &&& forall|i: int| 0 <= i < s.len() ==> #[trigger] m.dom().contains(s[i].0) && m[s[i].0] == s[i].1
    &&& forall|k: Seq<char>| #[trigger] m.dom().contains(k) ==> exists|i: int| 0 <= i < s.len() && #[trigger] s[i].0 == k
}

/// The entries of `m` in increasing order of their keys.
pub open spec fn ordered_entries(m: Map<Seq<char>, Value>) -> Seq<(Seq<char>, Value)> {
    choose|s: Seq<(Seq<char>, Value)>| keys_increasing(s) && lists(s, m)
}

/// A coming before b, given agreement before `i`, means that `b` is longer
/// than `i`.
proof fn lemma_lt_from_longer(a: Seq<char>, b: Seq<char>, i: int)
    requires
        0 <= i,
        key_lt_from(a, b, i),
    ensures
        b.len() > i,
    decreases a.len() - i,
{
    if i < a.len() && i < b.len() && a[i] == b[i] {
        lemma_lt_from_longer(a, b, i + 1);
    }
}

proof fn lemma_lt_from_irreflexive(a: Seq<char>, i: int)
    requires
        0 <= i,
    ensures
        !key_lt_from(a, a, i),
    decreases a.len() - i,
{
    if i < a.len() {
        lemma_lt_from_irreflexive(a, i + 1);
    }
}

proof fn lemma_lt_from_transitive(a: Seq<char>, b: Seq<char>, c: Seq<char>, i: int)
    requires
        0 <= i,
        key_lt_from(a, b, i),
        key_lt_from(b, c, i),
    ensures
        key_lt_from(a, c, i),
    decreases a.len() - i,
{
    lemma_lt_from_longer(a, b, i);
    lemma_lt_from_longer(b, c, i);
    if i < a.len() && a[i] == b[i] && b[i] == c[i] {
        lemma_lt_from_transitive(a, b, c, i + 1);
    }
}

proof fn lemma_lt_from_total(a: Seq<char>, b: Seq<char>, i: int)
    requires
        0 <= i <= a.len(),
        i <= b.len(),
        !key_lt_from(a, b, i),
        !key_lt_from(b, a, i),
    ensures
        a.len() == b.len(),
        forall|j: int| i <= j < a.len() ==> a[j] == b[j],
    decreases a.len() - i,
{
    if i < a.len() && i < b.len() {
        if a[i] == b[i] {
            lemma_lt_from_total(a, b, i + 1);
        }
    }
}

/// Keys are strictly ordered: no key before itself, before is transitive, and
/// of two different keys one comes before the other.
pub proof fn lemma_key_order(a: Seq<char>, b: Seq<char>, c: Seq<char>)
    ensures
        !key_lt(a, a),
        key_lt(a, b) && key_lt(b, c) ==> key_lt(a, c),
        a != b ==> key_lt(a, b) || key_lt(b, a),
{
    lemma_lt_from_irreflexive(a, 0);
    if key_lt(a, b) && key_lt(b, c) {
        lemma_lt_from_transitive(a, b, c, 0);
    }
    if !key_lt(a, b) && !key_lt(b, a) {
        lemma_lt_from_total(a, b, 0);
        assert(a =~= b);
    }
}

/// Two increasing lists of the same map are the same list.
pub proof fn lemma_listing_unique(s1: Seq<(Seq<char>, Value)>, s2: Seq<(Seq<char>, Value)>, m: Map<Seq<char>, Value>)
    requires
        keys_increasing(s1),
        keys_increasing(s2),
        lists(s1, m),
        lists(s2, m),
    ensures
        s1 == s2,
    decreases s1.len(),
{
    if s1.len() == 0 {
        if s2.len() > 0 {
            assert(m.dom().contains(s2[0].0));
        }
        assert(s1 =~= s2);
    } else {
        assert(m.dom().contains(s1[0].0));
        let k1 = s1[0].0;
        assert(s2.len() > 0);
        let k2 = s2[0].0;
        assert(m.dom().contains(k2));
        // each first key is the least key of the map
        let j1 = choose|j: int| 0 <= j < s1.len() && #[trigger] s1[j].0 == k2;
        let j2 = choose|j: int| 0 <= j < s2.len() && #[trigger] s2[j].0 == k1;
        lemma_key_order(k1, k2, k1);
        if k1 != k2 {
            assert(j1 != 0);
            assert(key_lt(s1[0].0, s1[j1].0));
            assert(j2 != 0);
            assert(key_lt(s2[0].0, s2[j2].0));
            assert(false);
        }
        let t1 = s1.drop_first();
        let t2 = s2.drop_first();
        let rest = m.remove(k1);
        assert forall|i: int| 0 <= i < t1.len() implies #[trigger] rest.dom().contains(t1[i].0) && rest[t1[i].0] == t1[i].1 by {
            assert(t1[i] == s1[i + 1]);
            assert(key_lt(s1[0].0, s1[i + 1].0));
            lemma_key_order(k1, k1, k1);
            assert(s1[i + 1].0 != k1);
            assert(m.dom().contains(s1[i + 1].0) && m[s1[i + 1].0] == s1[i + 1].1);
        }
        assert forall|i: int| 0 <= i < t2.len() implies #[trigger] rest.dom().contains(t2[i].0) && rest[t2[i].0] == t2[i].1 by {
            assert(t2[i] == s2[i + 1]);
            assert(key_lt(s2[0].0, s2[i + 1].0));
            lemma_key_order(k1, k1, k1);
            assert(s2[i + 1].0 != k1);
            assert(m.dom().contains(s2[i + 1].0) && m[s2[i + 1].0] == s2[i + 1].1);
        }
        assert forall|k: Seq<char>| #[trigger] rest.dom().contains(k) implies exists|i: int| 0 <= i < t1.len() && #[trigger] t1[i].0 == k by {
            let j = choose|j: int| 0 <= j < s1.len() && #[trigger] s1[j].0 == k;
            assert(j != 0);
            assert(t1[j - 1].0 == k);
        }
        assert forall|k: Seq<char>| #[trigger] rest.dom().contains(k) implies exists|i: int| 0 <= i < t2.len() && #[trigger] t2[i].0 == k by {
            let j = choose|j: int| 0 <= j < s2.len() && #[trigger] s2[j].0 == k;
            assert(j != 0);
            assert(t2[j - 1].0 == k);
        }
        assert forall|i: int, j: int| 0 <= i < j < t1.len() implies key_lt(#[trigger] t1[i].0, #[trigger] t1[j].0) by {
            assert(t1[i] == s1[i + 1] && t1[j] == s1[j + 1]);
        }
        assert forall|i: int, j: int| 0 <= i < j < t2.len() implies key_lt(#[trigger] t2[i].0, #[trigger] t2[j].0) by {
            assert(t2[i] == s2[i + 1] && t2[j] == s2[j + 1]);
        }
        lemma_listing_unique(t1, t2, rest);
        assert(t1.len() == t2.len());
        assert(s1.len() == s2.len());
        assert(s1[0].1 == m[k1] && s2[0].1 == m[k2]);
        assert(s1 =~= s2) by {
            assert forall|i: int| 0 <= i < s1.len() implies s1[i] == s2[i] by {
                if i > 0 {
                    assert(t1[i - 1] == s1[i]);
                    assert(t2[i - 1] == s2[i]);
                }
            }
        }
    }
}

/// Does key `a` come before key `b`?
pub fn key_less(a: &String, b: &String) -> (r: bool)
    ensures
        r == key_lt(a@, b@),
{
    let la = a.as_str().unicode_len();
    let lb = b.as_str().unicode_len();
    let mut i: usize = 0;
    while i < la && i < lb
        invariant
            la == a@.len(),
            lb == b@.len(),
            i <= la,
            i <= lb,
            key_lt(a@, b@) == key_lt_from(a@, b@, i as int),
        decreases la - i,
    {
        let ca = a.as_str().get_char(i);
        let cb = b.as_str().get_char(i);
        if ca != cb {
            return ca < cb;
        }
        i = i + 1;
    }
    i < lb
}

/// The entries of `store`, in increasing order of their keys.
pub fn ordered_store_entries(store: &VecMap<String, Value>) -> (r: Vec<(String, Value)>)
    requires
        store.wf(),
    ensures
        pairs_model(r@) == ordered_entries(store@),
{
    let mut sorted: Vec<(String, Value)> = Vec::new();
    let n = store.entries.len();
    let mut i: usize = 0;
    while i < n
        invariant
            n == store.entries@.len(),
            i <= n,
            store.wf(),
            keys_increasing(pairs_model(sorted@)),
            forall|x: (Seq<char>, Value)| pairs_model(sorted@).contains(x) <==> #[trigger] store.model().take(i as int).contains(x),
        decreases n - i,
    {
        let key = store.entries[i].0.clone();
        let value = store.entries[i].1;
        let ghost x = (key@, value);
        let ghost before = pairs_model(sorted@);
        proof {
            store.lemma_views();
            assert(store.model()[i as int] == x);
        }
        // find where the entry goes: after every smaller key
        let mut p: usize = 0;
        while p < sorted.len() && !key_less(&key, &sorted[p].0)
            invariant
                p <= sorted@.len(),
                before == pairs_model(sorted@),
                forall|j: int| 0 <= j < p ==> !key_lt(key@, #[trigger] before[j].0),
            decreases sorted@.len() - p,
        {
            p = p + 1;
        }
        proof {
            // the key is new: the keys taken so far are other keys of the store
            assert forall|j: int| 0 <= j < before.len() implies #[trigger] before[j].0 != key@ by {
                assert(before.contains(before[j]));
                assert(store.model().take(i as int).contains(before[j]));
                let a = choose|a: int| 0 <= a < i && store.model().take(i as int)[a] == before[j];
                assert(store.model()[a] == before[j]);
                assert(store.key_at(a) != store.key_at(i as int));
            }
        }
        sorted.insert(p, (key, value));
        proof {
            let after = pairs_model(sorted@);
            assert(after =~= before.insert(p as int, x));
            assert forall|a: int, b: int| 0 <= a < b < after.len() implies key_lt(#[trigger] after[a].0, #[trigger] after[b].0) by {
                if b < p {
                    assert(after[a] == before[a] && after[b] == before[b]);
                } else if b == p {
                    assert(after[a] == before[a]);
                    assert(!key_lt(key@, before[a].0));
                    lemma_key_order(key@, before[a].0, key@);
                } else if a < p {
                    assert(after[a] == before[a] && after[b] == before[b - 1]);
                } else if a == p {
                    assert(after[b] == before[b - 1]);
                    assert(key_lt(key@, before[p as int].0));
                    if b - 1 > p {
                        lemma_key_order(key@, before[p as int].0, before[b - 1].0);
                    }
                } else {
                    assert(after[a] == before[a - 1] && after[b] == before[b - 1]);
                }
            }
            let taken = store.model().take(i + 1);
            assert(taken =~= store.model().take(i as int).push(x));
            assert forall|y: (Seq<char>, Value)| after.contains(y) <==> #[trigger] taken.contains(y) by {
                let prev = store.model().take(i as int);
                if after.contains(y) {
                    let a = choose|a: int| 0 <= a < after.len() && after[a] == y;
                    if a == p {
                        assert(taken[i as int] == x);
                    } else {
                        let b = if a < p { a } else { a - 1 };
                        assert(before[b] == y);
                        assert(before.contains(y));
                        assert(prev.contains(y));
                        let c = choose|c: int| 0 <= c < prev.len() && prev[c] == y;
                        assert(taken[c] == y);
                    }
                    assert(taken.contains(y));
                }
                if taken.contains(y) {
                    let c = choose|c: int| 0 <= c < taken.len() && taken[c] == y;
                    if c == i {
                        assert(after[p as int] == x);
                    } else {
                        assert(prev[c] == y);
                        assert(prev.contains(y));
                        assert(before.contains(y));
                        let a = choose|a: int| 0 <= a < before.len() && before[a] == y;
                        if a < p {
                            assert(after[a] == y);
                        } else {
                            assert(after[a + 1] == y);
                        }
                    }
                    assert(after.contains(y));
                }
            }
        }
        i = i + 1;
    }
    proof {
        let s = pairs_model(sorted@);
        let m = store@;
        store.lemma_views();
        assert(store.model().take(n as int) =~= store.model());
        assert forall|a: int| 0 <= a < s.len() implies #[trigger] m.dom().contains(s[a].0) && m[s[a].0] == s[a].1 by {
            assert(s.contains(s[a]));
            assert(store.model().take(n as int).contains(s[a]));
            assert(store.model().contains(s[a]));
            let b = choose|b: int| 0 <= b < store.model().len() && store.model()[b] == s[a];
            assert(store.model()[b] == (store.key_at(b), store.entries@[b].1@));
            store.lemma_entry_in_map(b);
        }
        assert forall|k: Seq<char>| #[trigger] m.dom().contains(k) implies exists|a: int| 0 <= a < s.len() && #[trigger] s[a].0 == k by {
            assert(store.has(k));
            let b = store.index_of(k);
            store.lemma_entry_in_map(b);
            assert(store.model()[b] == (k, m[k]));
            assert(store.model().contains(store.model()[b]));
            assert(store.model().take(n as int).contains((k, m[k])));
            assert(s.contains((k, m[k])));
            let a = choose|a: int| 0 <= a < s.len() && s[a] == (k, m[k]);
            assert(s[a].0 == k);
        }
        assert(lists(s, m));
        let c = ordered_entries(m);
        assert(keys_increasing(c) && lists(c, m));
        lemma_listing_unique(s, c, m);
    }
    sorted
}

} // verus!
