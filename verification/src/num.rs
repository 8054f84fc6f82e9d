//! Counters, and maps from numbers kept in ascending key order.

use vstd::prelude::*;

verus! {

/// The count after `n`; a counter starts over after the last one.
pub open spec fn next(n: u64) -> u64 {
    if n < u64::MAX {
        (n + 1) as u64
    } else {
        0
    }
}

/// The count after `n`; a counter starts over after the last one.
pub fn bump(n: u64) -> (r: u64)
    ensures
        r == next(n),
{
    if n < u64::MAX {
        n + 1
    } else {
        0
    }
}

/// Strictly ascending numbers.
pub open spec fn ascending(v: Seq<u64>) -> bool {
    forall|i: int, j: int| 0 <= i < j < v.len() ==> #[trigger] v[i] < #[trigger] v[j]
}

/// Whether `v` has `n`.
pub fn among(v: &Vec<u64>, n: u64) -> (r: bool)
    ensures
        r == v@.contains(n),
        r == v@.to_set().contains(n),
{
    let mut i: usize = 0;
    while i < v.len()
        invariant
            i <= v.len(),
            forall|j: int| 0 <= j < i ==> v[j] != n,
        decreases v.len() - i,
    {
        if v[i] == n {
            return true;
        }
        i += 1;
    }
    false
}

/// What a list has once `k` is added.
pub proof fn push_contains(v: Seq<u64>, k: u64, n: u64)
    ensures
        v.push(k).contains(n) == (v.contains(n) || n == k),
{
    if v.contains(n) {
        let j = choose|j: int| 0 <= j < v.len() && v[j] == n;
        assert(v.push(k)[j] == n);
    }
    if v.push(k).contains(n) {
        let j = choose|j: int| 0 <= j < v.len() + 1 && v.push(k)[j] == n;
        if j < v.len() {
            assert(v[j] == n);
        }
    }
    assert(v.push(k)[v.len() as int] == k);
}

/// An ascending list is determined by the set of its members.
pub proof fn ascending_unique(a: Seq<u64>, b: Seq<u64>)
    requires
        ascending(a),
        ascending(b),
        a.to_set() == b.to_set(),
    ensures
        a == b,
    decreases a.len(),
{
    if a.len() == 0 {
        if b.len() > 0 {
            assert(b.to_set().contains(b[0]));
            assert(a.to_set().contains(b[0]));
        }
        assert(a =~= b);
    } else {
        assert(a.to_set().contains(a[0]));
        assert(b.to_set().contains(a[0]));
        let j = choose|j: int| 0 <= j < b.len() && b[j] == a[0];
        assert(b.to_set().contains(b[0]));
        assert(a.to_set().contains(b[0]));
        let i = choose|i: int| 0 <= i < a.len() && a[i] == b[0];
        assert(a[0] == b[0]);
        let ra = a.drop_first();
        let rb = b.drop_first();
        assert forall|x: u64| ra.to_set().contains(x) == rb.to_set().contains(x) by {
            if ra.to_set().contains(x) {
                let p = choose|p: int| 0 <= p < ra.len() && ra[p] == x;
                assert(a[p + 1] == x);
                assert(a.to_set().contains(x));
                assert(b.to_set().contains(x));
                let q = choose|q: int| 0 <= q < b.len() && b[q] == x;
                assert(q > 0);
                assert(rb[q - 1] == x);
            }
            if rb.to_set().contains(x) {
                let p = choose|p: int| 0 <= p < rb.len() && rb[p] == x;
                assert(b[p + 1] == x);
                assert(b.to_set().contains(x));
                assert(a.to_set().contains(x));
                let q = choose|q: int| 0 <= q < a.len() && a[q] == x;
                assert(q > 0);
                assert(ra[q - 1] == x);
            }
        }
        assert(ra.to_set() =~= rb.to_set());
        assert(ascending(ra)) by {
            assert forall|i: int, j: int| 0 <= i < j < ra.len() implies #[trigger] ra[i]
                < #[trigger] ra[j] by {
                assert(a[i + 1] < a[j + 1]);
            }
        }
        assert(ascending(rb)) by {
            assert forall|i: int, j: int| 0 <= i < j < rb.len() implies #[trigger] rb[i]
                < #[trigger] rb[j] by {
                assert(b[i + 1] < b[j + 1]);
            }
        }
        ascending_unique(ra, rb);
        assert(a =~= seq![a[0]] + ra);
        assert(b =~= seq![b[0]] + rb);
    }
}

/// The members of a finite set of numbers in ascending order.
pub open spec fn in_order(s: Set<u64>) -> Seq<u64> {
    choose|v: Seq<u64>| ascending(v) && v.to_set() == s
}

/// Any ascending list of exactly the members of `s` is `in_order(s)`.
pub proof fn in_order_is(s: Set<u64>, v: Seq<u64>)
    requires
        ascending(v),
        v.to_set() == s,
    ensures
        in_order(s) == v,
{
    let w = in_order(s);
    assert(ascending(w) && w.to_set() == s);
    ascending_unique(v, w);
}

proof fn greatest(s: Set<u64>) -> (x: u64)
    requires
        s.finite(),
        s.len() > 0,
    ensures
        s.contains(x),
        forall|y: u64| #[trigger] s.contains(y) ==> y <= x,
    decreases s.len(),
{
    let a = s.choose();
    let rest = s.remove(a);
    if rest.len() == 0 {
        assert forall|y: u64| #[trigger] s.contains(y) implies y <= a by {
            if y != a {
                assert(rest.contains(y));
            }
        }
        a
    } else {
        let b = greatest(rest);
        let x = if a < b {
            b
        } else {
            a
        };
        assert forall|y: u64| #[trigger] s.contains(y) implies y <= x by {
            if y != a {
                assert(rest.contains(y));
            }
        }
        x
    }
}

/// A finite set of numbers has an ascending order.
pub proof fn in_order_sorted(s: Set<u64>)
    requires
        s.finite(),
    ensures
        ascending(in_order(s)),
        in_order(s).to_set() == s,
    decreases s.len(),
{
    if s.len() == 0 {
        let v = Seq::<u64>::empty();
        assert(v.to_set() =~= s);
        assert(ascending(v) && v.to_set() == s);
    } else {
        let x = greatest(s);
        let rest = s.remove(x);
        in_order_sorted(rest);
        let w = in_order(rest);
        let v = w.push(x);
        assert forall|n: u64| v.to_set().contains(n) == s.contains(n) by {
            push_contains(w, x, n);
            assert(w.to_set().contains(n) == rest.contains(n));
        }
        assert(v.to_set() =~= s);
        assert forall|i: int, j: int| 0 <= i < j < v.len() implies #[trigger] v[i]
            < #[trigger] v[j] by {
            if j == w.len() {
                assert(w.to_set().contains(w[i]));
                assert(rest.contains(w[i]));
                assert(s.contains(w[i]));
            }
        }
        assert(ascending(v) && v.to_set() == s);
    }
}

/// A map from numbers to values, in ascending key order.
pub struct NumMap<V> {
    entries: Vec<(u64, V)>,
}

impl<V> NumMap<V> {
    pub closed spec fn key_seq(self) -> Seq<u64> {
        Seq::new(self.entries@.len(), |i: int| self.entries@[i].0)
    }

    #[verifier::type_invariant]
    closed spec fn sorted(self) -> bool {
        ascending(self.key_seq())
    }
}

impl<V: DeepView> View for NumMap<V> {
    type V = Map<u64, V::V>;

    closed spec fn view(&self) -> Map<u64, V::V> {
        Map::new(
            |k: u64| self.key_seq().contains(k),
            |k: u64| self.entries@[self.key_seq().index_of(k)].1.deep_view(),
        )
    }
}

impl<V: DeepView> DeepView for NumMap<V> {
    type V = Map<u64, V::V>;

    open spec fn deep_view(&self) -> Map<u64, V::V> {
        self@
    }
}

proof fn ascending_at(v: Seq<u64>, i: int)
    requires
        ascending(v),
        0 <= i < v.len(),
    ensures
        v.index_of(v[i]) == i,
{
    let j = v.index_of(v[i]);
    assert(0 <= j < v.len() && v[j] == v[i]);
}

impl<V: DeepView> NumMap<V> {
    proof fn lemma_keys(&self)
        requires
            self.sorted(),
        ensures
            in_order(self@.dom()) == self.key_seq(),
            ascending(in_order(self@.dom())),
            in_order(self@.dom()).to_set() == self@.dom(),
            self@.dom().finite(),
            self@.dom().len() == self.entries@.len(),
            forall|i: int|
                0 <= i < self.entries@.len() ==> {
                    &&& #[trigger] self@.dom().contains(self.key_seq()[i])
                    &&& self@[self.key_seq()[i]] == self.entries@[i].1.deep_view()
                },
    {
        let ks = self.key_seq();
        assert(self@.dom() =~= ks.to_set());
        in_order_is(self@.dom(), ks);
        assert(ks.no_duplicates());
        ks.unique_seq_to_set();
        assert forall|i: int| 0 <= i < self.entries@.len() implies {
            &&& #[trigger] self@.dom().contains(ks[i])
            &&& self@[ks[i]] == self.entries@[i].1.deep_view()
        } by {
            assert(ks.contains(ks[i]));
            ascending_at(ks, i);
        }
    }

    /// The empty map.
    pub fn new() -> (r: Self)
        ensures
            r@ == Map::<u64, V::V>::empty(),
    {
        let r = NumMap { entries: Vec::new() };
        assert(r@ =~= Map::<u64, V::V>::empty());
        r
    }

    /// How many keys the map holds.
    pub fn len(&self) -> (r: usize)
        ensures
            r == in_order(self@.dom()).len(),
            r == self@.dom().len(),
            self@.dom().finite(),
            ascending(in_order(self@.dom())),
            in_order(self@.dom()).to_set() == self@.dom(),
    {
        proof {
            use_type_invariant(self);
            self.lemma_keys();
        }
        self.entries.len()
    }

    /// The key at position `i` of the ascending order.
    pub fn key_at(&self, i: usize) -> (r: u64)
        requires
            i < in_order(self@.dom()).len(),
        ensures
            r == in_order(self@.dom())[i as int],
            self@.dom().contains(r),
    {
        proof {
            use_type_invariant(self);
            self.lemma_keys();
            assert(self@.dom().contains(self.key_seq()[i as int]));
        }
        self.entries[i].0
    }

    /// The value at position `i` of the ascending key order.
    pub fn value_at(&self, i: usize) -> (r: &V)
        requires
            i < in_order(self@.dom()).len(),
        ensures
            r.deep_view() == self@[in_order(self@.dom())[i as int]],
            self@.dom().contains(in_order(self@.dom())[i as int]),
    {
        proof {
            use_type_invariant(self);
            self.lemma_keys();
            assert(self@.dom().contains(self.key_seq()[i as int]));
        }
        &self.entries[i].1
    }

    /// The position of `k`, or where it belongs.
    fn find(&self, k: u64) -> (r: (usize, bool))
        requires
            self.sorted(),
        ensures
            r.0 <= self.entries@.len(),
            r.1 ==> r.0 < self.entries@.len() && self.key_seq()[r.0 as int] == k,
            r.1 == self@.dom().contains(k),
            forall|j: int| 0 <= j < r.0 ==> #[trigger] self.key_seq()[j] < k,
            !r.1 ==> forall|j: int|
                r.0 <= j < self.entries@.len() ==> k < #[trigger] self.key_seq()[j],
    {
        let ghost ks = self.key_seq();
        let mut i: usize = 0;
        while i < self.entries.len() && self.entries[i].0 < k
            invariant
                i <= self.entries.len(),
                ks == self.key_seq(),
                forall|j: int| 0 <= j < i ==> #[trigger] ks[j] < k,
            decreases self.entries.len() - i,
        {
            i += 1;
        }
        if i < self.entries.len() && self.entries[i].0 == k {
            assert(ks[i as int] == k);
            assert(ks.contains(k));
            (i, true)
        } else {
            proof {
                assert forall|j: int| i <= j < ks.len() implies k < #[trigger] ks[j] by {
                    assert(ks[i as int] > k);
                }
                assert(!ks.contains(k));
            }
            (i, false)
        }
    }

    /// The value of `k`.
    pub fn get(&self, k: u64) -> (r: Option<&V>)
        ensures
            match r {
                Some(v) => self@.dom().contains(k) && v.deep_view() == self@[k],
                None => !self@.dom().contains(k),
            },
    {
        proof {
            use_type_invariant(self);
            self.lemma_keys();
        }
        let (i, hit) = self.find(k);
        if hit {
            proof {
                assert(self@.dom().contains(self.key_seq()[i as int]));
            }
            Some(&self.entries[i].1)
        } else {
            None
        }
    }

    /// Whether `k` has a value.
    pub fn contains(&self, k: u64) -> (r: bool)
        ensures
            r == self@.dom().contains(k),
    {
        proof {
            use_type_invariant(self);
        }
        self.find(k).1
    }

    /// Sets the value of `k`.
    pub fn insert(&mut self, k: u64, v: V)
        ensures
            final(self)@ == old(self)@.insert(k, v.deep_view()),
    {
        proof {
            use_type_invariant(&*self);
            self.lemma_keys();
        }
        let (i, hit) = self.find(k);
        let ghost before = *self;
        let ghost ks = self.key_seq();
        let mut es: Vec<(u64, V)> = Vec::new();
        std::mem::swap(&mut es, &mut self.entries);
        if hit {
            es.remove(i);
        }
        es.insert(i, (k, v));
        proof {
            let done = NumMap { entries: es };
            let nk = done.key_seq();
            if hit {
                assert(nk =~= ks);
            } else {
                assert(nk =~= ks.insert(i as int, k));
            }
            assert(ascending(nk)) by {
                if !hit {
                    assert forall|a: int, b: int| 0 <= a < b < nk.len() implies #[trigger] nk[a]
                        < #[trigger] nk[b] by {
                        let pa = if a < i { a } else { a - 1 };
                        let pb = if b < i { b } else { b - 1 };
                        if a != i && b != i {
                            assert(ks[pa] < ks[pb]);
                        } else if a == i {
                            assert(k < ks[pb]);
                        } else {
                            assert(ks[pa] < k);
                        }
                    }
                }
            }
            done.lemma_keys();
            assert forall|x: u64| done@.dom().contains(x) == before@.insert(
                k,
                v.deep_view(),
            ).dom().contains(x) by {
                if nk.contains(x) {
                    let p = choose|p: int| 0 <= p < nk.len() && nk[p] == x;
                    if p < i {
                        assert(ks[p] == x);
                        assert(ks.contains(x));
                    } else if p > i {
                        let q = if hit { p } else { p - 1 };
                        assert(ks[q] == x);
                        assert(ks.contains(x));
                    }
                }
                if ks.contains(x) {
                    let p = choose|p: int| 0 <= p < ks.len() && ks[p] == x;
                    let q = if hit || p < i { p } else { p + 1 };
                    assert(nk[q] == x);
                }
                assert(nk[i as int] == k);
            }
            assert forall|x: u64| #[trigger] done@.dom().contains(x) implies done@[x]
                == before@.insert(k, v.deep_view())[x] by {
                let p = choose|p: int| 0 <= p < nk.len() && nk[p] == x;
                assert(done@.dom().contains(nk[p]));
                if p < i {
                    assert(before@.dom().contains(ks[p]));
                } else if p > i {
                    let q = if hit { p } else { p - 1 };
                    assert(before@.dom().contains(ks[q]));
                }
            }
            assert(done@ =~= before@.insert(k, v.deep_view()));
        }
        self.entries = es;
    }

    /// Takes the value of `k` out.
    pub fn remove(&mut self, k: u64) -> (r: Option<V>)
        ensures
            final(self)@ == old(self)@.remove(k),
            match r {
                Some(v) => old(self)@.dom().contains(k) && v.deep_view() == old(self)@[k],
                None => !old(self)@.dom().contains(k),
            },
    {
        proof {
            use_type_invariant(&*self);
            self.lemma_keys();
        }
        let (i, hit) = self.find(k);
        if !hit {
            assert(self@ =~= self@.remove(k));
            return None;
        }
        let ghost before = *self;
        let ghost ks = self.key_seq();
        let mut es: Vec<(u64, V)> = Vec::new();
        std::mem::swap(&mut es, &mut self.entries);
        let e = es.remove(i);
        proof {
            let done = NumMap { entries: es };
            let nk = done.key_seq();
            assert(nk =~= ks.remove(i as int));
            assert(ascending(nk)) by {
                assert forall|a: int, b: int| 0 <= a < b < nk.len() implies #[trigger] nk[a]
                    < #[trigger] nk[b] by {
                    let pa = if a < i { a } else { a + 1 };
                    let pb = if b < i { b } else { b + 1 };
                    assert(ks[pa] < ks[pb]);
                }
            }
            done.lemma_keys();
            assert(before@.dom().contains(ks[i as int]));
            assert forall|x: u64| done@.dom().contains(x) == before@.remove(k).dom().contains(
                x,
            ) by {
                if nk.contains(x) {
                    let p = choose|p: int| 0 <= p < nk.len() && nk[p] == x;
                    let q = if p < i { p } else { p + 1 };
                    assert(ks[q] == x);
                    assert(ks.contains(x));
                }
                if ks.contains(x) && x != k {
                    let p = choose|p: int| 0 <= p < ks.len() && ks[p] == x;
                    let q = if p < i { p } else { p - 1 };
                    assert(nk[q] == x);
                }
            }
            assert forall|x: u64| #[trigger] done@.dom().contains(x) implies done@[x]
                == before@.remove(k)[x] by {
                let p = choose|p: int| 0 <= p < nk.len() && nk[p] == x;
                assert(done@.dom().contains(nk[p]));
                let q = if p < i { p } else { p + 1 };
                assert(before@.dom().contains(ks[q]));
            }
            assert(done@ =~= before@.remove(k));
        }
        self.entries = es;
        Some(e.1)
    }
}

} // verus!
