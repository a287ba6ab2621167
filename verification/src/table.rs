//! Tables: finite maps that are listed in the order of their keys.

use crate::order::{
    before, lemma_before_asymmetric, lemma_before_total, lemma_before_transitive, relate,
    Duplicate, Key, Relation,
};
use vstd::prelude::*;

verus! {

/// Whether every key of `keys` comes before the keys that follow it.
pub open spec fn ascending<K: Key>(keys: Seq<K::V>) -> bool {
    forall|i: int, j: int|
        0 <= i < j < keys.len() ==> before::<K>(#[trigger] keys[i], #[trigger] keys[j])
}

/// Whether `keys` lists the keys in `dom`, each once, in order.
pub open spec fn lists<K: Key>(keys: Seq<K::V>, dom: Set<K::V>) -> bool {
    &&& ascending::<K>(keys)
    &&& forall|k: K::V| #[trigger] dom.contains(k) <==> keys.contains(k)
}

/// The keys in `dom` in order.
pub open spec fn in_order<K: Key>(dom: Set<K::V>) -> Seq<K::V> {
    choose|keys: Seq<K::V>| lists::<K>(keys, dom)
}

/// A map from keys to values that is kept in the order of the keys.
#[derive(Debug, PartialEq, Eq)]
pub struct Table<K: Key, V: View> {
    entries: Vec<(K, V)>,
}

impl<K: Key, V: View> Table<K, V> {
    /// The keys in order.
    pub closed spec fn keys(self) -> Seq<K::V> {
        Seq::new(self.entries@.len(), |i: int| self.entries@[i].0@)
    }

    spec fn values(self) -> Seq<V::V> {
        Seq::new(self.entries@.len(), |i: int| self.entries@[i].1@)
    }

    #[verifier::type_invariant]
    spec fn ordered(self) -> bool {
        ascending::<K>(self.keys())
    }
}

/// The map that sends `keys[i]` to `values[i]`.
spec fn pairing<A, B>(keys: Seq<A>, values: Seq<B>) -> Map<A, B> {
    Map::new(|k: A| keys.contains(k), |k: A| values[keys.index_of(k)])
}

impl<K: Key, V: View> View for Table<K, V> {
    type V = Map<K::V, V::V>;

    closed spec fn view(&self) -> Map<K::V, V::V> {
        pairing(self.keys(), self.values())
    }
}

proof fn lemma_index<K: Key>(keys: Seq<K::V>, i: int)
    requires
        ascending::<K>(keys),
        0 <= i < keys.len(),
    ensures
        keys.contains(keys[i]),
        keys.index_of(keys[i]) == i,
{
    let j = keys.index_of(keys[i]);
    assert(keys.contains(keys[i]));
    assert(0 <= j < keys.len() && keys[j] == keys[i]);
    if j < i {
        lemma_before_asymmetric::<K>(keys[j], keys[i]);
    } else if i < j {
        lemma_before_asymmetric::<K>(keys[i], keys[j]);
    }
}

/// The keys that an ordered listing holds before position `i` are those before the key at `i`.
pub proof fn lemma_listed_before<K: Key>(keys: Seq<K::V>, i: int, k: K::V)
    requires
        ascending::<K>(keys),
        0 <= i < keys.len(),
    ensures
        keys.take(i).contains(k) <==> keys.contains(k) && before::<K>(k, keys[i]),
        keys.skip(i + 1).contains(k) <==> keys.contains(k) && before::<K>(keys[i], k),
{
    if keys.contains(k) {
        let j = keys.index_of(k);
        lemma_before_asymmetric::<K>(k, keys[i]);
        lemma_before_asymmetric::<K>(keys[i], k);
        if j < i {
            assert(keys.take(i)[j] == k);
        } else if j > i {
            assert(keys.skip(i + 1)[j - i - 1] == k);
        }
    }
    if keys.take(i).contains(k) {
        let j = keys.take(i).index_of(k);
        assert(keys[j] == k);
    }
    if keys.skip(i + 1).contains(k) {
        let j = keys.skip(i + 1).index_of(k);
        assert(keys[j + i + 1] == k);
    }
}

/// How the sets of keys up to and from a position of a listing grow by the key at it.
pub proof fn lemma_listed_sets<A>(keys: Seq<A>, i: int)
    requires
        0 <= i < keys.len(),
    ensures
        keys.take(i + 1).to_set() == keys.take(i).to_set().insert(keys[i]),
        keys.skip(i).to_set() == keys.skip(i + 1).to_set().insert(keys[i]),
{
    assert forall|q: A| keys.take(i + 1).to_set().contains(q) == keys.take(i).to_set().insert(
        keys[i],
    ).contains(q) by {
        if keys.take(i).contains(q) {
            let j = keys.take(i).index_of(q);
            assert(keys.take(i + 1)[j] == q);
        }
        if keys.take(i + 1).contains(q) && q != keys[i] {
            let j = keys.take(i + 1).index_of(q);
            assert(keys.take(i)[j] == q);
        }
        assert(keys.take(i + 1)[i] == keys[i]);
    }
    assert forall|q: A| keys.skip(i).to_set().contains(q) == keys.skip(i + 1).to_set().insert(
        keys[i],
    ).contains(q) by {
        if keys.skip(i + 1).contains(q) {
            let j = keys.skip(i + 1).index_of(q);
            assert(keys.skip(i)[j + 1] == q);
        }
        if keys.skip(i).contains(q) && q != keys[i] {
            let j = keys.skip(i).index_of(q);
            assert(keys.skip(i + 1)[j - 1] == q);
        }
        assert(keys.skip(i)[0] == keys[i]);
    }
    assert(keys.take(i + 1).to_set() =~= keys.take(i).to_set().insert(keys[i]));
    assert(keys.skip(i).to_set() =~= keys.skip(i + 1).to_set().insert(keys[i]));
}

/// Two ordered listings of the same keys are equal.
pub proof fn lemma_listing_unique<K: Key>(x: Seq<K::V>, y: Seq<K::V>, dom: Set<K::V>)
    requires
        lists::<K>(x, dom),
        lists::<K>(y, dom),
    ensures
        x == y,
    decreases x.len(),
{
    if x.len() == 0 {
        if y.len() > 0 {
            assert(y.contains(y[0]));
            assert(dom.contains(y[0]));
        }
        assert(x =~= y);
    } else {
        assert(x.contains(x.last()));
        assert(dom.contains(x.last()));
        assert(y.len() > 0);
        assert(y.contains(y.last()));
        assert(dom.contains(y.last()));
        let m = x.len() - 1;
        let n = y.len() - 1;
        if x[m] != y[n] {
            let i = y.index_of(x[m]);
            let j = x.index_of(y[n]);
            assert(before::<K>(y[i], y[n]));
            assert(before::<K>(x[j], x[m]));
            lemma_before_asymmetric::<K>(x[m], y[n]);
        }
        let rest = dom.remove(x[m]);
        let xs = x.drop_last();
        let ys = y.drop_last();
        assert forall|k: K::V| #[trigger] rest.contains(k) <==> xs.contains(k) by {
            lemma_dropped_last::<K>(x, k);
        }
        assert forall|k: K::V| #[trigger] rest.contains(k) <==> ys.contains(k) by {
            lemma_dropped_last::<K>(y, k);
        }
        lemma_listing_unique::<K>(xs, ys, rest);
        assert(x =~= xs.push(x[m]));
        assert(y =~= ys.push(y[n]));
    }
}

/// Of finitely many keys one is the greatest.
proof fn lemma_greatest_exists<K: Key>(dom: Set<K::V>) -> (greatest: K::V)
    requires
        dom.finite(),
        dom.len() > 0,
    ensures
        dom.contains(greatest),
        forall|k: K::V| #[trigger] dom.contains(k) ==> k == greatest || before::<K>(k, greatest),
    decreases dom.len(),
{
    let k = dom.choose();
    let rest = dom.remove(k);
    if rest.len() == 0 {
        assert(dom =~= Set::<K::V>::empty().insert(k));
        k
    } else {
        let m = lemma_greatest_exists::<K>(rest);
        lemma_before_total::<K>(k, m);
        if before::<K>(m, k) {
            assert forall|q: K::V| #[trigger] dom.contains(q) implies q == k || before::<K>(
                q,
                k,
            ) by {
                if q != k {
                    assert(rest.contains(q));
                    if q != m {
                        lemma_before_transitive::<K>(q, m, k);
                    }
                }
            }
            k
        } else {
            assert forall|q: K::V| #[trigger] dom.contains(q) implies q == m || before::<K>(
                q,
                m,
            ) by {
                if q != k {
                    assert(rest.contains(q));
                }
            }
            m
        }
    }
}

/// Finitely many keys can be listed in order.
pub proof fn lemma_in_order<K: Key>(dom: Set<K::V>)
    requires
        dom.finite(),
    ensures
        lists::<K>(in_order::<K>(dom), dom),
        in_order::<K>(dom).len() == dom.len(),
    decreases dom.len(),
{
    let keys = lemma_listing::<K>(dom);
    assert(lists::<K>(keys, dom));
    lemma_listing_unique::<K>(keys, in_order::<K>(dom), dom);
}

proof fn lemma_listing<K: Key>(dom: Set<K::V>) -> (keys: Seq<K::V>)
    requires
        dom.finite(),
    ensures
        lists::<K>(keys, dom),
        keys.len() == dom.len(),
    decreases dom.len(),
{
    if dom.len() == 0 {
        assert(dom =~= Set::<K::V>::empty());
        Seq::empty()
    } else {
        let last = lemma_greatest_exists::<K>(dom);
        let init = lemma_listing::<K>(dom.remove(last));
        let keys = init.push(last);
        assert forall|i: int| 0 <= i < init.len() implies dom.remove(last).contains(
            #[trigger] init[i],
        ) by {
            assert(init.contains(init[i]));
        }
        assert forall|i: int, j: int| 0 <= i < j < keys.len() implies before::<K>(
            #[trigger] keys[i],
            #[trigger] keys[j],
        ) by {
            if j == init.len() {
                assert(dom.contains(init[i]));
            }
        }
        assert forall|k: K::V| #[trigger] dom.contains(k) <==> keys.contains(k) by {
            if dom.contains(k) {
                if k == last {
                    assert(keys[init.len() as int] == k);
                } else {
                    assert(dom.remove(last).contains(k));
                    assert(keys[init.index_of(k)] == k);
                }
            }
            if keys.contains(k) {
                let i = keys.index_of(k);
                if i < init.len() {
                    assert(init[i] == k);
                }
            }
        }
        keys
    }
}

proof fn lemma_dropped_last<K: Key>(x: Seq<K::V>, k: K::V)
    requires
        ascending::<K>(x),
        x.len() > 0,
    ensures
        x.drop_last().contains(k) <==> x.contains(k) && k != x.last(),
{
    let m = x.len() - 1;
    assert(x.drop_last() =~= x.take(m));
    lemma_listed_before::<K>(x, m, k);
    if x.contains(k) && k != x.last() {
        let j = x.index_of(k);
        assert(x[j] == k);
        assert(j < m);
        assert(x.take(m)[j] == k);
    }
    lemma_before_asymmetric::<K>(k, x.last());
}

impl<K: Key, V: View> Table<K, V> {
    proof fn lemma_listed(self)
        requires
            self.ordered(),
        ensures
            lists::<K>(self.keys(), self@.dom()),
            self@.dom().finite(),
            self@.dom().len() == self.keys().len(),
            forall|i: int| #![trigger self.keys()[i]]
                0 <= i < self.keys().len() ==> self@.contains_key(self.keys()[i])
                    && self@[self.keys()[i]] == self.values()[i],
    {
        let keys = self.keys();
        assert forall|i: int| #![trigger keys[i]] 0 <= i < keys.len() implies self@.contains_key(
            keys[i],
        ) && self@[keys[i]] == self.values()[i] by {
            lemma_index::<K>(keys, i);
        }
        assert(self@.dom() =~= keys.to_set());
        assert(keys.no_duplicates()) by {
            assert forall|i: int, j: int|
                0 <= i < keys.len() && 0 <= j < keys.len() && i != j implies keys[i] != keys[j] by {
                if i < j {
                    lemma_before_asymmetric::<K>(keys[i], keys[j]);
                } else {
                    lemma_before_asymmetric::<K>(keys[j], keys[i]);
                }
            }
        }
        keys.unique_seq_to_set();
        vstd::seq_lib::seq_to_set_is_finite(keys);
    }

    /// An empty table.
    pub fn new() -> (table: Self)
        ensures
            table@ == Map::<K::V, V::V>::empty(),
    {
        let table = Table { entries: Vec::new() };
        assert(table@ =~= Map::<K::V, V::V>::empty());
        table
    }

    /// The number of entries.
    pub fn len(&self) -> (n: usize)
        ensures
            n == self.keys().len(),
            n == self@.len(),
            lists::<K>(self.keys(), self@.dom()),
            self.keys() == in_order::<K>(self@.dom()),
            self@.dom().finite(),
    {
        proof {
            use_type_invariant(self);
            self.lemma_listed();
            lemma_listing_unique::<K>(self.keys(), in_order::<K>(self@.dom()), self@.dom());
        }
        self.entries.len()
    }

    /// The key at position `i`.
    pub fn key_at(&self, i: usize) -> (key: &K)
        requires
            i < self.keys().len(),
        ensures
            key@ == self.keys()[i as int],
            self@.contains_key(key@),
    {
        proof {
            use_type_invariant(self);
            self.lemma_listed();
        }
        &self.entries[i].0
    }

    /// The value at position `i`.
    pub fn value_at(&self, i: usize) -> (value: &V)
        requires
            i < self.keys().len(),
        ensures
            value@ == self@[self.keys()[i as int]],
    {
        proof {
            use_type_invariant(self);
            self.lemma_listed();
        }
        &self.entries[i].1
    }

    /// Finds a key: whether it is there, and the position where it is or belongs.
    fn find(&self, key: &K) -> (r: (bool, usize))
        requires
            self.ordered(),
        ensures
            r.1 <= self.keys().len(),
            r.0 ==> r.1 < self.keys().len() && self.keys()[r.1 as int] == key@,
            !r.0 ==> !self.keys().contains(key@),
            forall|j: int|
                0 <= j < r.1 ==> before::<K>(#[trigger] self.keys()[j], key@),
            forall|j: int|
                r.1 <= j < self.keys().len() && !(r.0 && j == r.1) ==> before::<K>(
                    key@,
                    #[trigger] self.keys()[j],
                ),
    {
        let ghost keys = self.keys();
        let mut lo: usize = 0;
        let mut hi: usize = self.entries.len();
        while lo < hi
            invariant
                keys == self.keys(),
                ascending::<K>(keys),
                self.entries@.len() == keys.len(),
                lo <= hi <= keys.len(),
                forall|j: int| 0 <= j < lo ==> before::<K>(#[trigger] keys[j], key@),
                forall|j: int| hi <= j < keys.len() ==> before::<K>(key@, #[trigger] keys[j]),
            decreases hi - lo,
        {
            let mid: usize = lo + (hi - lo) / 2;
            assert(keys[mid as int] == self.entries@[mid as int].0@);
            match relate(&self.entries[mid].0, key) {
                Relation::Before => {
                    assert forall|j: int| 0 <= j < mid + 1 implies before::<K>(
                        #[trigger] keys[j],
                        key@,
                    ) by {
                        if j < mid {
                            lemma_before_transitive::<K>(keys[j], keys[mid as int], key@);
                        }
                    }
                    lo = mid + 1;
                },
                Relation::Same => {
                    return (true, mid);
                },
                Relation::After => {
                    assert forall|j: int| mid <= j < keys.len() implies before::<K>(
                        key@,
                        #[trigger] keys[j],
                    ) by {
                        if mid < j {
                            lemma_before_transitive::<K>(key@, keys[mid as int], keys[j]);
                        }
                    }
                    hi = mid;
                },
            }
        }
        proof {
            if keys.contains(key@) {
                lemma_before_asymmetric::<K>(key@, key@);
            }
        }
        (false, lo)
    }

    /// The value of a key.
    pub fn get(&self, key: &K) -> (value: Option<&V>)
        ensures
            match value {
                Some(v) => self@.contains_key(key@) && v@ == self@[key@],
                None => !self@.contains_key(key@),
            },
    {
        proof {
            use_type_invariant(self);
            self.lemma_listed();
        }
        let (found, i) = self.find(key);
        if found {
            Some(&self.entries[i].1)
        } else {
            None
        }
    }

    /// Whether a key is there.
    pub fn contains(&self, key: &K) -> (b: bool)
        ensures
            b == self@.contains_key(key@),
    {
        self.get(key).is_some()
    }

    /// Sets the value of a key.
    pub fn put(&mut self, key: K, value: V)
        ensures
            final(self)@ == old(self)@.insert(key@, value@),
    {
        proof {
            use_type_invariant(&*self);
            self.lemma_listed();
        }
        let ghost before_put = *self;
        let (found, i) = self.find(&key);
        let mut entries: Vec<(K, V)> = Vec::new();
        std::mem::swap(&mut entries, &mut self.entries);
        let ghost k = key@;
        let ghost v = value@;
        if found {
            let _ = entries.remove(i);
        }
        entries.insert(i, (key, value));
        let ghost after_put = Table::<K, V> { entries };
        proof {
            let x = before_put.keys();
            let y = after_put.keys();
            let shift: int = if found { 0 } else { 1 };
            assert(y.len() == x.len() + shift);
            assert forall|j: int| 0 <= j < y.len() implies #[trigger] y[j] == (if j < i {
                x[j]
            } else if j == i {
                k
            } else {
                x[j - shift]
            }) by {}
            assert(after_put.ordered()) by {
                assert forall|a: int, b: int| 0 <= a < b < y.len() implies before::<K>(
                    #[trigger] y[a],
                    #[trigger] y[b],
                ) by {
                    if a < i && b == i {
                        assert(before::<K>(x[a], k));
                    } else if a < i && b > i {
                        assert(before::<K>(x[a], x[b - shift]));
                    } else if a == i {
                        assert(before::<K>(k, x[b - shift]));
                    } else if a > i {
                        assert(before::<K>(x[a - shift], x[b - shift]));
                    }
                }
            }
            after_put.lemma_listed();
            assert forall|q: K::V| #[trigger] y.contains(q) <==> x.contains(q) || q == k by {
                if x.contains(q) {
                    let j = x.index_of(q);
                    if j < i {
                        assert(y[j] == q);
                    } else if found && j == i {
                        assert(y[i as int] == q);
                    } else {
                        assert(y[j + shift] == q);
                    }
                }
                if y.contains(q) {
                    let j = y.index_of(q);
                    if j < i {
                        assert(x[j] == q);
                    } else if j > i {
                        assert(x[j - shift] == q);
                    }
                }
                assert(y[i as int] == k);
            }
            let m = before_put@.insert(k, v);
            assert(after_put@.dom() =~= m.dom());
            assert forall|q: K::V| after_put@.contains_key(q) implies #[trigger] after_put@[q]
                == m[q] by {
                let j = y.index_of(q);
                assert(y[j] == q);
                assert(after_put@[y[j]] == after_put.values()[j]);
                if j == i {
                } else {
                    let o: int = if j < i { j } else { j - shift };
                    assert(x[o] == q);
                    assert(before_put@[x[o]] == before_put.values()[o]);
                    if q == k {
                        lemma_before_asymmetric::<K>(k, k);
                    }
                }
            }
            assert(after_put@ =~= m);
        }
        self.entries = entries;
    }

    /// Takes out the value of a key.
    pub fn remove(&mut self, key: &K) -> (value: Option<V>)
        ensures
            match value {
                Some(v) => old(self)@.contains_key(key@) && v@ == old(self)@[key@],
                None => !old(self)@.contains_key(key@),
            },
            final(self)@ == old(self)@.remove(key@),
    {
        proof {
            use_type_invariant(&*self);
            self.lemma_listed();
        }
        let ghost before_remove = *self;
        let (found, i) = self.find(key);
        if !found {
            assert(self@ =~= self@.remove(key@));
            return None;
        }
        let mut entries: Vec<(K, V)> = Vec::new();
        std::mem::swap(&mut entries, &mut self.entries);
        let entry = entries.remove(i);
        let ghost after_remove = Table::<K, V> { entries };
        proof {
            lemma_removed(before_remove, after_remove, i as int);
        }
        self.entries = entries;
        Some(entry.1)
    }

    /// Removes a key, and returns whether it was there.
    pub fn delete(&mut self, key: &K) -> (found: bool)
        ensures
            found == old(self)@.contains_key(key@),
            final(self)@ == old(self)@.remove(key@),
    {
        self.remove(key).is_some()
    }

    /// The entry with the last key.
    pub fn last(&self) -> (entry: Option<(&K, &V)>)
        ensures
            match entry {
                Some((k, v)) => {
                    &&& self@.contains_key(k@)
                    &&& self@[k@] == v@
                    &&& forall|q: K::V| #[trigger]
                        self@.contains_key(q) ==> q == k@ || before::<K>(q, k@)
                },
                None => self@ == Map::<K::V, V::V>::empty(),
            },
    {
        proof {
            use_type_invariant(self);
            self.lemma_listed();
        }
        let n = self.entries.len();
        if n == 0 {
            assert(self@ =~= Map::<K::V, V::V>::empty());
            return None;
        }
        let ghost keys = self.keys();
        let entry = &self.entries[n - 1];
        assert(keys[n - 1] == entry.0@);
        assert forall|q: K::V| #[trigger] self@.contains_key(q) implies q == entry.0@ || before::<
            K,
        >(q, entry.0@) by {
            let j = keys.index_of(q);
            assert(keys[j] == q);
        }
        Some((&entry.0, &entry.1))
    }

    /// Whether another table has all keys of this one.
    pub fn is_covered_by<W: View>(&self, other: &Table<K, W>) -> (b: bool)
        ensures
            b == self@.dom().subset_of(other@.dom()),
    {
        let n = self.len();
        let mut i: usize = 0;
        while i < n
            invariant
                n == self.keys().len(),
                lists::<K>(self.keys(), self@.dom()),
                i <= n,
                forall|j: int| 0 <= j < i ==> other@.contains_key(#[trigger] self.keys()[j]),
            decreases n - i,
        {
            if !other.contains(self.key_at(i)) {
                return false;
            }
            i = i + 1;
        }
        true
    }

    /// Whether another table has no key of this one.
    pub fn is_apart_from<W: View>(&self, other: &Table<K, W>) -> (b: bool)
        ensures
            b == self@.dom().disjoint(other@.dom()),
    {
        let n = self.len();
        let mut i: usize = 0;
        while i < n
            invariant
                n == self.keys().len(),
                lists::<K>(self.keys(), self@.dom()),
                i <= n,
                forall|j: int| 0 <= j < i ==> !other@.contains_key(#[trigger] self.keys()[j]),
            decreases n - i,
        {
            if other.contains(self.key_at(i)) {
                return false;
            }
            i = i + 1;
        }
        true
    }

    /// Takes out the entry with the last key.
    pub fn pop_last(&mut self) -> (entry: Option<(K, V)>)
        ensures
            match entry {
                Some((k, v)) => {
                    &&& old(self)@.contains_key(k@)
                    &&& old(self)@[k@] == v@
                    &&& forall|q: K::V| #[trigger]
                        old(self)@.contains_key(q) ==> q == k@ || before::<K>(q, k@)
                    &&& final(self)@ == old(self)@.remove(k@)
                    &&& final(self)@.len() < old(self)@.len()
                },
                None => old(self)@ == Map::<K::V, V::V>::empty() && final(self)@ == old(self)@,
            },
    {
        proof {
            use_type_invariant(&*self);
            self.lemma_listed();
        }
        let ghost before_pop = *self;
        let n = self.entries.len();
        if n == 0 {
            assert(self@ =~= Map::<K::V, V::V>::empty());
            return None;
        }
        let mut entries: Vec<(K, V)> = Vec::new();
        std::mem::swap(&mut entries, &mut self.entries);
        let entry = entries.remove(n - 1);
        let ghost after_pop = Table::<K, V> { entries };
        proof {
            lemma_removed(before_pop, after_pop, n - 1);
            after_pop.lemma_listed();
            let keys = before_pop.keys();
            assert(keys[n - 1] == entry.0@);
            assert forall|q: K::V| #[trigger] before_pop@.contains_key(q) implies q == entry.0@
                || before::<K>(q, entry.0@) by {
                let j = keys.index_of(q);
                assert(keys[j] == q);
            }
        }
        self.entries = entries;
        Some(entry)
    }
}

proof fn lemma_removed<K: Key, V: View>(old_table: Table<K, V>, new_table: Table<K, V>, i: int)
    requires
        old_table.ordered(),
        0 <= i < old_table.entries@.len(),
        new_table.entries@ == old_table.entries@.remove(i),
    ensures
        new_table.ordered(),
        new_table@ == old_table@.remove(old_table.keys()[i]),
{
    let x = old_table.keys();
    let y = new_table.keys();
    let k = x[i];
    old_table.lemma_listed();
    assert forall|j: int| 0 <= j < y.len() implies #[trigger] y[j] == (if j < i {
        x[j]
    } else {
        x[j + 1]
    }) by {}
    new_table.lemma_listed();
    assert forall|q: K::V| #[trigger] y.contains(q) <==> x.contains(q) && q != k by {
        if x.contains(q) && q != k {
            let j = x.index_of(q);
            if j < i {
                assert(y[j] == q);
            } else {
                assert(y[j - 1] == q);
            }
        }
        if y.contains(q) {
            let j = y.index_of(q);
            let o: int = if j < i { j } else { j + 1 };
            assert(x[o] == q);
            lemma_index::<K>(x, o);
            lemma_index::<K>(x, i);
        }
    }
    let m = old_table@.remove(k);
    assert(new_table@.dom() =~= m.dom());
    assert forall|q: K::V| new_table@.contains_key(q) implies #[trigger] new_table@[q] == m[q] by {
        let j = y.index_of(q);
        assert(y[j] == q);
        assert(new_table@[y[j]] == new_table.values()[j]);
        let o: int = if j < i { j } else { j + 1 };
        assert(x[o] == q);
        assert(old_table@[x[o]] == old_table.values()[o]);
    }
    assert(new_table@ =~= m);
}

impl<K: Key + Duplicate, V: Duplicate> Table<K, V> {
    /// Sets the values of all keys of another table.
    pub fn extend(&mut self, other: &Table<K, V>)
        ensures
            final(self)@ == old(self)@.union_prefer_right(other@),
    {
        let ghost m = self@;
        let n = other.len();
        let ghost keys = other.keys();
        let mut i: usize = 0;
        assert(self@ =~= m.union_prefer_right(other@.restrict(keys.take(0).to_set())));
        while i < n
            invariant
                keys == other.keys(),
                n == keys.len(),
                i <= n,
                self@ == m.union_prefer_right(other@.restrict(keys.take(i as int).to_set())),
            decreases n - i,
        {
            let key = other.key_at(i);
            let value = other.value_at(i);
            self.put(key.duplicate(), value.duplicate());
            proof {
                lemma_listed_sets(keys, i as int);
                assert(self@ =~= m.union_prefer_right(
                    other@.restrict(keys.take(i + 1).to_set()),
                ));
            }
            i = i + 1;
        }
        proof {
            assert(keys.take(i as int) =~= keys);
            assert(self@ =~= m.union_prefer_right(other@));
        }
    }
}

impl<K: Key + Duplicate, V: Duplicate> Duplicate for Table<K, V> {
    fn duplicate(&self) -> (copy: Self) {
        let mut copy = Table::new();
        copy.extend(self);
        assert(copy@ =~= self@);
        copy
    }
}

} // verus!
