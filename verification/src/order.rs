//! Keys and their order.
//!
//! Every key has a code, a sequence of integers that identifies it. Keys are ordered as their
//! codes are, lexicographically.

use vstd::prelude::*;

verus! {

/// Whether `a` comes before `b` in lexicographic order.
pub open spec fn lex_before(a: Seq<u64>, b: Seq<u64>) -> bool
    decreases a.len(),
{
    if b.len() == 0 {
        false
    } else if a.len() == 0 {
        true
    } else {
        a[0] < b[0] || (a[0] == b[0] && lex_before(a.drop_first(), b.drop_first()))
    }
}

/// No sequence comes before itself.
pub proof fn lemma_lex_irreflexive(a: Seq<u64>)
    ensures
        !lex_before(a, a),
    decreases a.len(),
{
    if a.len() > 0 {
        lemma_lex_irreflexive(a.drop_first());
    }
}

/// What comes before something that comes before `c` comes before `c`.
pub proof fn lemma_lex_transitive(a: Seq<u64>, b: Seq<u64>, c: Seq<u64>)
    requires
        lex_before(a, b),
        lex_before(b, c),
    ensures
        lex_before(a, c),
    decreases a.len(),
{
    if a.len() > 0 && a[0] == b[0] && b[0] == c[0] {
        lemma_lex_transitive(a.drop_first(), b.drop_first(), c.drop_first());
    }
}

/// Of two different sequences one comes before the other.
pub proof fn lemma_lex_total(a: Seq<u64>, b: Seq<u64>)
    ensures
        a == b || lex_before(a, b) || lex_before(b, a),
    decreases a.len(),
{
    if a.len() == 0 || b.len() == 0 {
        if a.len() == 0 && b.len() == 0 {
            assert(a =~= b);
        }
    } else if a[0] == b[0] {
        lemma_lex_total(a.drop_first(), b.drop_first());
        if a.drop_first() == b.drop_first() {
            assert(a =~= seq![a[0]] + a.drop_first());
            assert(b =~= seq![b[0]] + b.drop_first());
        }
    }
}

/// A value by which a table is ordered.
pub trait Key: View + Sized {
    /// The code of a key.
    spec fn code(key: Self::V) -> Seq<u64>;

    /// Keys with one code are the same key.
    proof fn lemma_code_injective(a: Self::V, b: Self::V)
        requires
            Self::code(a) == Self::code(b),
        ensures
            a == b,
    ;

    /// The length of the code.
    fn code_len(&self) -> (n: usize)
        ensures
            n == Self::code(self@).len(),
    ;

    /// The entry of the code at `i`.
    fn code_at(&self, i: usize) -> (c: u64)
        requires
            i < Self::code(self@).len(),
        ensures
            c == Self::code(self@)[i as int],
    ;
}

/// Whether key `a` comes before key `b`.
pub open spec fn before<K: Key>(a: K::V, b: K::V) -> bool {
    lex_before(K::code(a), K::code(b))
}

/// No key comes before itself, and of two keys at most one comes before the other.
pub proof fn lemma_before_asymmetric<K: Key>(a: K::V, b: K::V)
    ensures
        !before::<K>(a, a),
        before::<K>(a, b) ==> !before::<K>(b, a) && a != b,
{
    lemma_lex_irreflexive(K::code(a));
    if before::<K>(a, b) && before::<K>(b, a) {
        lemma_lex_transitive(K::code(a), K::code(b), K::code(a));
    }
}

/// The order of keys is transitive.
pub proof fn lemma_before_transitive<K: Key>(a: K::V, b: K::V, c: K::V)
    requires
        before::<K>(a, b),
        before::<K>(b, c),
    ensures
        before::<K>(a, c),
{
    lemma_lex_transitive(K::code(a), K::code(b), K::code(c));
}

/// Of two different keys one comes before the other.
pub proof fn lemma_before_total<K: Key>(a: K::V, b: K::V)
    ensures
        a == b || before::<K>(a, b) || before::<K>(b, a),
{
    lemma_lex_total(K::code(a), K::code(b));
    if K::code(a) == K::code(b) {
        K::lemma_code_injective(a, b);
    }
}

/// How one key stands to another.
#[derive(Clone, Copy, Debug)]
pub enum Relation {
    Before,
    Same,
    After,
}

/// Compares two keys.
pub fn relate<K: Key>(a: &K, b: &K) -> (r: Relation)
    ensures
        match r {
            Relation::Before => before::<K>(a@, b@),
            Relation::Same => a@ == b@,
            Relation::After => before::<K>(b@, a@),
        },
{
    let ghost x = K::code(a@);
    let ghost y = K::code(b@);
    let m = a.code_len();
    let n = b.code_len();
    let mut i: usize = 0;
    assert(x.skip(0) =~= x);
    assert(y.skip(0) =~= y);
    while i < m && i < n
        invariant
            m == x.len(),
            n == y.len(),
            x == K::code(a@),
            y == K::code(b@),
            i <= m,
            i <= n,
            x.take(i as int) == y.take(i as int),
            lex_before(x, y) == lex_before(x.skip(i as int), y.skip(i as int)),
            lex_before(y, x) == lex_before(y.skip(i as int), x.skip(i as int)),
        decreases m - i,
    {
        let c = a.code_at(i);
        let d = b.code_at(i);
        if c < d {
            return Relation::Before;
        }
        if c > d {
            return Relation::After;
        }
        proof {
            assert(x.skip(i as int).drop_first() =~= x.skip(i + 1));
            assert(y.skip(i as int).drop_first() =~= y.skip(i + 1));
            assert(x.take(i + 1) =~= x.take(i as int).push(c));
            assert(y.take(i + 1) =~= y.take(i as int).push(d));
        }
        i = i + 1;
    }
    if m == n {
        proof {
            assert(x.take(i as int) =~= x);
            assert(y.take(i as int) =~= y);
            K::lemma_code_injective(a@, b@);
        }
        Relation::Same
    } else if m < n {
        Relation::Before
    } else {
        Relation::After
    }
}

/// Whether two keys are equal.
pub fn same<K: Key>(a: &K, b: &K) -> (equal: bool)
    ensures
        equal == (a@ == b@),
{
    proof {
        lemma_before_asymmetric::<K>(a@, b@);
        lemma_before_asymmetric::<K>(b@, a@);
    }
    match relate(a, b) {
        Relation::Same => true,
        _ => false,
    }
}

/// A value that can be copied by looking at it.
pub trait Duplicate: View + Sized {
    /// Returns a value with the same view.
    fn duplicate(&self) -> (copy: Self)
        ensures
            copy@ == self@,
    ;
}

} // verus!
