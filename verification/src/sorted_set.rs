//! Ordered sets of strings and identifiers.
//!
//! A [`SortedSet`] keeps its elements in strictly ascending lexicographic
//! order of their bytes, the order in which a `BTreeSet` of the same
//! elements yields them. The set is viewed as a mathematical [`Set`]; the
//! order in which it yields its elements is [`ascending`] of that set.

use vstd::prelude::*;

use crate::order::{
    KeyOrder,
    lemma_lex_lt_asymmetric,
    lemma_lex_lt_irreflexive,
    lemma_lex_lt_transitive,
    lex_lt,
    lex_order,
};

verus! {

/// A value that is ordered and identified by a byte string.
pub trait SetKey: View + Sized {
    /// The bytes by which the value is ordered.
    spec fn key_bytes(v: Self::V) -> Seq<u8>;

    /// Distinct values have distinct bytes.
    proof fn lemma_key_bytes_injective(a: Self::V, b: Self::V)
        ensures
            Self::key_bytes(a) == Self::key_bytes(b) ==> a == b,
    ;

    /// The bytes of this value.
    fn key_slice(&self) -> (r: &[u8])
        ensures
            r@ == Self::key_bytes(self@),
    ;

    /// A copy of this value.
    fn copy_key(&self) -> (r: Self)
        ensures
            r@ == self@,
    ;
}

/// Whether two keys are equal, compared by their bytes.
pub fn same_key<K: SetKey>(a: &K, b: &K) -> (r: bool)
    ensures
        r == (a@ == b@),
{
    proof {
        K::lemma_key_bytes_injective(a@, b@);
    }
    lex_order(a.key_slice(), b.key_slice()) == KeyOrder::Equal
}

/// `a` comes strictly before `b`.
pub open spec fn key_lt<K: SetKey>(a: K::V, b: K::V) -> bool {
    lex_lt(K::key_bytes(a), K::key_bytes(b))
}

/// Every element of `s` comes strictly before every later element.
pub open spec fn strictly_ascending<K: SetKey>(s: Seq<K::V>) -> bool {
    forall|i: int, j: int| 0 <= i < j < s.len() ==> #[trigger] key_lt::<K>(s[i], s[j])
}

/// The elements of `set` in ascending order, each once.
pub open spec fn ascending<K: SetKey>(set: Set<K::V>) -> Seq<K::V> {
    choose|s: Seq<K::V>| strictly_ascending::<K>(s) && s.to_set() == set
}

proof fn lemma_key_lt_irreflexive<K: SetKey>(a: K::V)
    ensures
        !key_lt::<K>(a, a),
{
    lemma_lex_lt_irreflexive(K::key_bytes(a));
}

proof fn lemma_key_lt_transitive<K: SetKey>(a: K::V, b: K::V, c: K::V)
    requires
        key_lt::<K>(a, b),
        key_lt::<K>(b, c),
    ensures
        key_lt::<K>(a, c),
{
    lemma_lex_lt_transitive(K::key_bytes(a), K::key_bytes(b), K::key_bytes(c));
}

proof fn lemma_key_lt_asymmetric<K: SetKey>(a: K::V, b: K::V)
    requires
        key_lt::<K>(a, b),
    ensures
        !key_lt::<K>(b, a),
        a != b,
{
    lemma_lex_lt_asymmetric(K::key_bytes(a), K::key_bytes(b));
    lemma_lex_lt_irreflexive(K::key_bytes(a));
}

/// A strictly ascending sequence holds no element twice.
pub proof fn lemma_strictly_ascending_no_duplicates<K: SetKey>(s: Seq<K::V>)
    requires
        strictly_ascending::<K>(s),
    ensures
        s.no_duplicates(),
        s.to_set().len() == s.len(),
        s.to_set().finite(),
{
    assert forall|i: int, j: int| 0 <= i < s.len() && 0 <= j < s.len() && i != j implies s[i]
        != s[j] by {
        if i < j {
            assert(key_lt::<K>(s[i], s[j]));
            lemma_key_lt_asymmetric::<K>(s[i], s[j]);
        } else {
            assert(key_lt::<K>(s[j], s[i]));
            lemma_key_lt_asymmetric::<K>(s[j], s[i]);
        }
    }
    s.unique_seq_to_set();
    vstd::seq_lib::seq_to_set_is_finite(s);
}

/// Two strictly ascending sequences with the same elements are equal.
pub proof fn lemma_strictly_ascending_unique<K: SetKey>(s1: Seq<K::V>, s2: Seq<K::V>)
    requires
        strictly_ascending::<K>(s1),
        strictly_ascending::<K>(s2),
        s1.to_set() == s2.to_set(),
    ensures
        s1 == s2,
    decreases s1.len(),
{
    if s1.len() == 0 {
        if s2.len() > 0 {
            assert(s2.to_set().contains(s2[0]));
        }
        assert(s1 =~= s2);
    } else {
        assert(s1.to_set().contains(s1[0]));
        assert(s2.len() > 0);
        assert(s2.to_set().contains(s1[0]));
        let k = choose|k: int| 0 <= k < s2.len() && s2[k] == s1[0];
        assert(s1.to_set().contains(s2[0]));
        let m = choose|m: int| 0 <= m < s1.len() && s1[m] == s2[0];
        if k > 0 {
            assert(key_lt::<K>(s2[0], s2[k]));
            if m > 0 {
                assert(key_lt::<K>(s1[0], s1[m]));
                lemma_key_lt_asymmetric::<K>(s1[0], s2[0]);
            } else {
                lemma_key_lt_irreflexive::<K>(s1[0]);
            }
        }
        assert(s1[0] == s2[0]);
        let t1 = s1.drop_first();
        let t2 = s2.drop_first();
        lemma_strictly_ascending_no_duplicates::<K>(s1);
        lemma_strictly_ascending_no_duplicates::<K>(s2);
        assert forall|x: K::V| t1.to_set().contains(x) implies t2.to_set().contains(x) by {
            let i = choose|i: int| 0 <= i < t1.len() && t1[i] == x;
            assert(s1[i + 1] == x);
            assert(s2.to_set().contains(x));
            let j = choose|j: int| 0 <= j < s2.len() && s2[j] == x;
            if j == 0 {
                assert(s1[0] == s1[i + 1]);
            }
            assert(t2[j - 1] == x);
        }
        assert forall|x: K::V| t2.to_set().contains(x) implies t1.to_set().contains(x) by {
            let i = choose|i: int| 0 <= i < t2.len() && t2[i] == x;
            assert(s2[i + 1] == x);
            assert(s1.to_set().contains(x));
            let j = choose|j: int| 0 <= j < s1.len() && s1[j] == x;
            if j == 0 {
                assert(s2[0] == s2[i + 1]);
            }
            assert(t1[j - 1] == x);
        }
        assert(t1.to_set() =~= t2.to_set());
        assert(strictly_ascending::<K>(t1)) by {
            assert forall|i: int, j: int| 0 <= i < j < t1.len() implies #[trigger] key_lt::<K>(
                t1[i],
                t1[j],
            ) by {
                assert(key_lt::<K>(s1[i + 1], s1[j + 1]));
            }
        }
        assert(strictly_ascending::<K>(t2)) by {
            assert forall|i: int, j: int| 0 <= i < j < t2.len() implies #[trigger] key_lt::<K>(
                t2[i],
                t2[j],
            ) by {
                assert(key_lt::<K>(s2[i + 1], s2[j + 1]));
            }
        }
        lemma_strictly_ascending_unique::<K>(t1, t2);
        assert(s1 =~= seq![s1[0]] + t1);
        assert(s2 =~= seq![s2[0]] + t2);
    }
}

/// A strictly ascending sequence is the ascending enumeration of its elements.
pub proof fn lemma_ascending_of<K: SetKey>(s: Seq<K::V>)
    requires
        strictly_ascending::<K>(s),
    ensures
        ascending::<K>(s.to_set()) == s,
{
    let t = ascending::<K>(s.to_set());
    assert(strictly_ascending::<K>(t) && t.to_set() == s.to_set());
    lemma_strictly_ascending_unique::<K>(t, s);
}

/// A set whose elements are kept in ascending byte order, each once.
#[derive(Debug)]
pub struct SortedSet<K: SetKey> {
    items: Vec<K>,
}

impl<K: SetKey> View for SortedSet<K> {
    type V = Set<K::V>;

    closed spec fn view(&self) -> Set<K::V> {
        self.elements().to_set()
    }
}

impl<K: SetKey> Clone for SortedSet<K> {
    fn clone(&self) -> (r: Self)
        ensures
            r@ == self@,
    {
        proof {
            use_type_invariant(self);
        }
        let n = self.items.len();
        let mut items: Vec<K> = Vec::new();
        let mut i: usize = 0;
        while i < n
            invariant
                n == self.items@.len(),
                0 <= i <= n,
                items@.map_values(|k: K| k@) == self.elements().take(i as int),
            decreases n - i,
        {
            let k = self.items[i].copy_key();
            let ghost prev = items@;
            items.push(k);
            proof {
                assert(items@ == prev.push(k));
                assert(prev.map_values(|k: K| k@).len() == prev.len());
                assert(prev.len() == i);
                assert(k@ == self.elements()[i as int]);
                let now = items@.map_values(|k: K| k@);
                let want = self.elements().take(i + 1);
                assert forall|j: int| 0 <= j < i + 1 implies #[trigger] now[j] == want[j] by {
                    if j < i {
                        assert(items@[j] == prev[j]);
                        assert(prev.map_values(|k: K| k@)[j] == self.elements().take(i as int)[j]);
                    }
                }
                assert(items@.map_values(|k: K| k@) =~= self.elements().take(i + 1));
            }
            i = i + 1;
        }
        assert(self.elements().take(n as int) =~= self.elements());
        SortedSet { items }
    }
}

impl<K: SetKey> SortedSet<K> {
    /// The elements in the order in which the set keeps them.
    closed spec fn elements(&self) -> Seq<K::V> {
        self.items@.map_values(|k: K| k@)
    }

    #[verifier::type_invariant]
    closed spec fn sorted(&self) -> bool {
        strictly_ascending::<K>(self.elements())
    }

    /// Creates an empty set.
    pub fn new() -> (s: Self)
        ensures
            s@ == Set::<K::V>::empty(),
    {
        let s = SortedSet { items: Vec::new() };
        assert(s.elements() =~= Seq::<K::V>::empty());
        assert(s@ =~= Set::<K::V>::empty());
        s
    }

    /// The number of elements.
    pub fn len(&self) -> (r: usize)
        ensures
            r == self@.len(),
            self@.finite(),
    {
        proof {
            use_type_invariant(self);
            lemma_strictly_ascending_no_duplicates::<K>(self.elements());
        }
        self.items.len()
    }

    /// Whether the set has no element.
    pub fn is_empty(&self) -> (r: bool)
        ensures
            r == (self@.len() == 0),
            r == (self@ == Set::<K::V>::empty()),
            self@.finite(),
    {
        proof {
            use_type_invariant(self);
            lemma_strictly_ascending_no_duplicates::<K>(self.elements());
            if self.items.len() > 0 {
                assert(self@.contains(self.elements()[0]));
            } else {
                assert(self@ =~= Set::<K::V>::empty());
            }
        }
        self.items.len() == 0
    }

    /// The elements in ascending order.
    pub fn items(&self) -> (r: &[K])
        ensures
            r@.map_values(|k: K| k@) == ascending::<K>(self@),
    {
        proof {
            use_type_invariant(self);
            lemma_ascending_of::<K>(self.elements());
        }
        self.items.as_slice()
    }

    /// Whether `k` is an element.
    pub fn contains(&self, k: &K) -> (r: bool)
        ensures
            r == self@.contains(k@),
    {
        proof {
            use_type_invariant(self);
        }
        let n = self.items.len();
        let ghost e = self.elements();
        let mut i: usize = 0;
        while i < n
            invariant
                n == self.items@.len(),
                e == self.items@.map_values(|k: K| k@),
                0 <= i <= n,
                forall|j: int| 0 <= j < i ==> e[j] != k@,
            decreases n - i,
        {
            let o = lex_order(self.items[i].key_slice(), k.key_slice());
            if o == KeyOrder::Equal {
                proof {
                    K::lemma_key_bytes_injective(e[i as int], k@);
                }
                return true;
            }
            i = i + 1;
        }
        proof {
            if e.to_set().contains(k@) {
                let j = choose|j: int| 0 <= j < e.len() && e[j] == k@;
            }
        }
        false
    }

    /// Adds `k`; answers whether it was not an element before. An element
    /// equal to `k` that is already there stays in place.
    pub fn insert(&mut self, k: K) -> (r: bool)
        ensures
            final(self)@ == old(self)@.insert(k@),
            r == !old(self)@.contains(k@),
    {
        proof {
            use_type_invariant(&*self);
        }
        let mut items: Vec<K> = Vec::new();
        std::mem::swap(&mut items, &mut self.items);
        let ghost e = items@.map_values(|x: K| x@);
        assert(e == old(self).elements());
        let n = items.len();
        let mut i: usize = 0;
        while i < n
            invariant_except_break
                n == items@.len(),
                e == items@.map_values(|x: K| x@),
                0 <= i <= n,
                forall|j: int| 0 <= j < i ==> key_lt::<K>(#[trigger] e[j], k@),
            invariant
                self.items@.len() == 0,
                strictly_ascending::<K>(e),
                e == old(self).elements(),
            ensures
                n == items@.len(),
                e == items@.map_values(|x: K| x@),
                0 <= i <= n,
                forall|j: int| 0 <= j < i ==> key_lt::<K>(#[trigger] e[j], k@),
                i < n ==> key_lt::<K>(k@, e[i as int]),
            decreases n - i,
        {
            let o = lex_order(items[i].key_slice(), k.key_slice());
            if o == KeyOrder::Equal {
                proof {
                    K::lemma_key_bytes_injective(e[i as int], k@);
                    assert(e.to_set().insert(k@) =~= e.to_set());
                }
                self.items = items;
                return false;
            } else if o == KeyOrder::Greater {
                break;
            }
            i = i + 1;
        }
        proof {
            assert forall|j: int| 0 <= j < e.len() implies e[j] != k@ by {
                if j < i {
                    lemma_key_lt_asymmetric::<K>(e[j], k@);
                } else {
                    if j > i {
                        assert(key_lt::<K>(e[i as int], e[j]));
                        lemma_key_lt_transitive::<K>(k@, e[i as int], e[j]);
                    }
                    lemma_key_lt_asymmetric::<K>(k@, e[j]);
                }
            }
        }
        let ghost kv = k@;
        items.insert(i, k);
        let ghost e2 = items@.map_values(|x: K| x@);
        proof {
            assert(e2 =~= e.insert(i as int, kv));
            assert forall|a: int, b: int| 0 <= a < b < e2.len() implies #[trigger] key_lt::<K>(
                e2[a],
                e2[b],
            ) by {
                if b < i {
                } else if a < i && b == i {
                } else if a < i && b > i {
                    assert(key_lt::<K>(e[a], kv));
                    assert(key_lt::<K>(kv, e[i as int]));
                    lemma_key_lt_transitive::<K>(e[a], kv, e[i as int]);
                    if b - 1 > i {
                        assert(key_lt::<K>(e[i as int], e[b - 1]));
                        lemma_key_lt_transitive::<K>(e[a], e[i as int], e[b - 1]);
                    }
                } else if a == i {
                    if b - 1 > i {
                        assert(key_lt::<K>(e[i as int], e[b - 1]));
                        lemma_key_lt_transitive::<K>(kv, e[i as int], e[b - 1]);
                    }
                } else {
                    assert(key_lt::<K>(e[a - 1], e[b - 1]));
                }
            }
            assert forall|x: K::V| e2.to_set().contains(x) <==> e.to_set().insert(kv).contains(
                x,
            ) by {
                if e2.to_set().contains(x) {
                    let j = choose|j: int| 0 <= j < e2.len() && e2[j] == x;
                    if j < i {
                        assert(e[j] == x);
                    } else if j > i {
                        assert(e[j - 1] == x);
                    }
                }
                if e.to_set().contains(x) {
                    let j = choose|j: int| 0 <= j < e.len() && e[j] == x;
                    if j < i {
                        assert(e2[j] == x);
                    } else {
                        assert(e2[j + 1] == x);
                    }
                }
                if x == kv {
                    assert(e2[i as int] == x);
                }
            }
            assert(e2.to_set() =~= e.to_set().insert(kv));
        }
        self.items = items;
        true
    }

    /// Removes `k`; answers whether it was an element.
    pub fn remove(&mut self, k: &K) -> (r: bool)
        ensures
            final(self)@ == old(self)@.remove(k@),
            r == old(self)@.contains(k@),
    {
        proof {
            use_type_invariant(&*self);
        }
        let mut items: Vec<K> = Vec::new();
        std::mem::swap(&mut items, &mut self.items);
        let ghost e = items@.map_values(|x: K| x@);
        assert(e == old(self).elements());
        proof {
            lemma_strictly_ascending_no_duplicates::<K>(e);
        }
        let n = items.len();
        let mut i: usize = 0;
        while i < n
            invariant
                n == items@.len(),
                e == items@.map_values(|x: K| x@),
                0 <= i <= n,
                forall|j: int| 0 <= j < i ==> e[j] != k@,
                self.items@.len() == 0,
                strictly_ascending::<K>(e),
                e.no_duplicates(),
                e == old(self).elements(),
            decreases n - i,
        {
            let o = lex_order(items[i].key_slice(), k.key_slice());
            if o == KeyOrder::Equal {
                proof {
                    K::lemma_key_bytes_injective(e[i as int], k@);
                }
                let _removed = items.remove(i);
                let ghost e2 = items@.map_values(|x: K| x@);
                proof {
                    assert(e2 =~= e.remove(i as int));
                    assert forall|a: int, b: int| 0 <= a < b < e2.len() implies #[trigger] key_lt::<
                        K,
                    >(e2[a], e2[b]) by {
                        if b < i {
                        } else if a < i {
                            assert(key_lt::<K>(e[a], e[b + 1]));
                        } else {
                            assert(key_lt::<K>(e[a + 1], e[b + 1]));
                        }
                    }
                    assert forall|x: K::V| e2.to_set().contains(x) <==> e.to_set().remove(
                        k@,
                    ).contains(x) by {
                        if e2.to_set().contains(x) {
                            let j = choose|j: int| 0 <= j < e2.len() && e2[j] == x;
                            if j < i {
                                assert(e[j] == x);
                                assert(j != i);
                            } else {
                                assert(e[j + 1] == x);
                            }
                        }
                        if e.to_set().remove(k@).contains(x) {
                            let j = choose|j: int| 0 <= j < e.len() && e[j] == x;
                            if j < i {
                                assert(e2[j] == x);
                            } else if j > i {
                                assert(e2[j - 1] == x);
                            }
                        }
                    }
                    assert(e2.to_set() =~= e.to_set().remove(k@));
                }
                self.items = items;
                return true;
            }
            i = i + 1;
        }
        proof {
            if e.to_set().contains(k@) {
                let j = choose|j: int| 0 <= j < e.len() && e[j] == k@;
            }
            assert(e.to_set().remove(k@) =~= e.to_set());
        }
        self.items = items;
        false
    }

    /// Collects the elements of `v`, each once, in ascending order.
    pub fn from_vec(v: Vec<K>) -> (s: Self)
        ensures
            s@ == v@.map_values(|k: K| k@).to_set(),
    {
        let ghost orig = v@.map_values(|k: K| k@);
        let mut v = v;
        let mut s = SortedSet::new();
        while v.len() > 0
            invariant
                v@.len() <= orig.len(),
                v@.map_values(|k: K| k@) == orig.take(v@.len() as int),
                s@ == orig.skip(v@.len() as int).to_set(),
            decreases v@.len(),
        {
            let ghost len = v@.len();
            let ghost vv = v@;
            let k = v.pop().unwrap();
            proof {
                assert(vv[len - 1] == k);
                assert(vv.map_values(|k: K| k@)[len - 1] == orig.take(len as int)[len - 1]);
                assert(v@.map_values(|k: K| k@) =~= orig.take(len - 1));
                assert(orig[len - 1] == k@);
                assert(orig.skip(len - 1) =~= seq![k@] + orig.skip(len as int));
                let a = orig.skip(len - 1);
                let b = orig.skip(len as int);
                assert forall|x: K::V| a.to_set().contains(x) implies b.to_set().insert(k@).contains(
                    x,
                ) by {
                    let j = choose|j: int| 0 <= j < a.len() && a[j] == x;
                    if j > 0 {
                        assert(b[j - 1] == x);
                    }
                }
                assert forall|x: K::V| b.to_set().contains(x) implies a.to_set().contains(x) by {
                    let j = choose|j: int| 0 <= j < b.len() && b[j] == x;
                    assert(a[j + 1] == x);
                }
                assert(a[0] == k@);
                assert(a.to_set() =~= b.to_set().insert(k@));
            }
            s.insert(k);
        }
        assert(orig.skip(0) =~= orig);
        s
    }
}

} // verus!
