//! Maps from texts, kept in ascending key order.

use vstd::prelude::*;
use crate::text;
use crate::text::Text;

verus! {

/// A map from texts to values, in ascending key order.
#[derive(Debug)]
pub struct StrMap<V> {
    entries: Vec<(String, V)>,
}

impl<V> StrMap<V> {
    pub closed spec fn key_seq(self) -> Seq<Text> {
        Seq::new(self.entries@.len(), |i: int| self.entries@[i].0@)
    }

    #[verifier::type_invariant]
    closed spec fn sorted(self) -> bool {
        text::ascending(self.key_seq())
    }
}

impl<V: DeepView> View for StrMap<V> {
    type V = Map<Text, V::V>;

    closed spec fn view(&self) -> Map<Text, V::V> {
        Map::new(
            |k: Text| self.key_seq().contains(k),
            |k: Text| self.entries@[self.key_seq().index_of(k)].1.deep_view(),
        )
    }
}

impl<V: DeepView> DeepView for StrMap<V> {
    type V = Map<Text, V::V>;

    open spec fn deep_view(&self) -> Map<Text, V::V> {
        self@
    }
}

proof fn ascending_at(v: Seq<Text>, i: int)
    requires
        text::ascending(v),
        0 <= i < v.len(),
    ensures
        v.index_of(v[i]) == i,
{
    let j = v.index_of(v[i]);
    assert(0 <= j < v.len() && v[j] == v[i]);
    if j < i {
        text::text_lt_asymmetric(v[j], v[i]);
    }
    if i < j {
        text::text_lt_asymmetric(v[i], v[j]);
    }
}

impl<V: DeepView> StrMap<V> {
    /// The keys of a well-formed map, in order, are those of its view.
    proof fn lemma_keys(&self)
        requires
            self.sorted(),
        ensures
            text::in_order(self@.dom()) == self.key_seq(),
            self@.dom().finite(),
            self@.dom().len() == self.entries@.len(),
            forall|i: int|
                0 <= i < self.entries@.len() ==> {
                    &&& #[trigger] self@.dom().contains(self.key_seq()[i])
                    &&& self@[self.key_seq()[i]] == self.entries@[i].1.deep_view()
                },
    {
        let ks = self.key_seq();
        assert(self@.dom() =~= ks.to_set());
        text::in_order_is(self@.dom(), ks);
        assert(ks.no_duplicates()) by {
            assert forall|i: int, j: int|
                0 <= i < ks.len() && 0 <= j < ks.len() && i != j implies ks[i] != ks[j] by {
                if i < j {
                    text::text_lt_asymmetric(ks[i], ks[j]);
                } else {
                    text::text_lt_asymmetric(ks[j], ks[i]);
                }
            }
        }
        ks.unique_seq_to_set();
        assert forall|i: int| 0 <= i < self.entries@.len() implies {
            &&& #[trigger] self@.dom().contains(ks[i])
            &&& self@[ks[i]] == self.entries@[i].1.deep_view()
        } by {
            assert(ks.contains(ks[i]));
            ascending_at(ks, i);
        }
    }

    /// The empty map.
    pub fn new() -> (r: Self)
        ensures
            r@ == Map::<Text, V::V>::empty(),
    {
        let r = StrMap { entries: Vec::new() };
        assert(r@ =~= Map::<Text, V::V>::empty());
        r
    }

    /// How many keys the map holds.
    pub fn len(&self) -> (r: usize)
        ensures
            r == text::in_order(self@.dom()).len(),
            r == self@.dom().len(),
            self@.dom().finite(),
    {
        proof {
            use_type_invariant(self);
            self.lemma_keys();
        }
        self.entries.len()
    }

    /// The key at position `i` of the ascending order.
    pub fn key_at(&self, i: usize) -> (r: &String)
        requires
            i < text::in_order(self@.dom()).len(),
        ensures
            r@ == text::in_order(self@.dom())[i as int],
            self@.dom().contains(r@),
    {
        proof {
            use_type_invariant(self);
            self.lemma_keys();
            assert(self@.dom().contains(self.key_seq()[i as int]));
        }
        &self.entries[i].0
    }

    /// The value at position `i` of the ascending key order.
    pub fn value_at(&self, i: usize) -> (r: &V)
        requires
            i < text::in_order(self@.dom()).len(),
        ensures
            r.deep_view() == self@[text::in_order(self@.dom())[i as int]],
            self@.dom().contains(text::in_order(self@.dom())[i as int]),
    {
        proof {
            use_type_invariant(self);
            self.lemma_keys();
            assert(self@.dom().contains(self.key_seq()[i as int]));
        }
        &self.entries[i].1
    }

    /// The keys in ascending order.
    pub fn keys(&self) -> (r: Vec<String>)
        ensures
            r.deep_view() == text::in_order(self@.dom()),
    {
        proof {
            use_type_invariant(self);
            self.lemma_keys();
        }
        let mut r: Vec<String> = Vec::new();
        let mut i: usize = 0;
        while i < self.entries.len()
            invariant
                i <= self.entries.len(),
                r.len() == i,
                forall|j: int| 0 <= j < i ==> r[j]@ == self.key_seq()[j],
            decreases self.entries.len() - i,
        {
            r.push(self.entries[i].0.clone());
            i += 1;
        }
        assert(r.deep_view() =~= self.key_seq());
        r
    }

    /// The position of `k`, or where it belongs.
    fn find(&self, k: &str) -> (r: (usize, bool))
        requires
            self.sorted(),
        ensures
            r.0 <= self.entries@.len(),
            r.1 ==> r.0 < self.entries@.len() && self.key_seq()[r.0 as int] == k@,
            r.1 == self@.dom().contains(k@),
            forall|j: int| 0 <= j < r.0 ==> text::text_lt(#[trigger] self.key_seq()[j], k@),
            !r.1 ==> forall|j: int|
                r.0 <= j < self.entries@.len() ==> text::text_lt(k@, #[trigger] self.key_seq()[j]),
    {
        let ghost ks = self.key_seq();
        let mut i: usize = 0;
        while i < self.entries.len() && text::less(&self.entries[i].0, k)
            invariant
                i <= self.entries.len(),
                ks == self.key_seq(),
                forall|j: int| 0 <= j < i ==> text::text_lt(#[trigger] ks[j], k@),
            decreases self.entries.len() - i,
        {
            i += 1;
        }
        proof {
            assert forall|j: int| 0 <= j < i implies ks[j] != k@ by {
                text::text_lt_asymmetric(ks[j], k@);
            }
        }
        if i < self.entries.len() && text::same(&self.entries[i].0, k) {
            assert(ks[i as int] == k@);
            assert(ks.contains(k@));
            (i, true)
        } else {
            proof {
                if i < self.entries.len() {
                    text::text_lt_total(ks[i as int], k@);
                    assert(text::text_lt(k@, ks[i as int]));
                    assert forall|j: int| i <= j < ks.len() implies text::text_lt(
                        k@,
                        #[trigger] ks[j],
                    ) by {
                        if j > i {
                            text::text_lt_transitive(k@, ks[i as int], ks[j]);
                        }
                    }
                }
                assert forall|j: int| 0 <= j < ks.len() implies ks[j] != k@ by {
                    if j >= i {
                        text::text_lt_asymmetric(k@, ks[j]);
                    }
                }
                assert(!ks.contains(k@));
            }
            (i, false)
        }
    }

    /// The value of `k`.
    pub fn get(&self, k: &str) -> (r: Option<&V>)
        ensures
            match r {
                Some(v) => self@.dom().contains(k@) && v.deep_view() == self@[k@],
                None => !self@.dom().contains(k@),
            },
    {
        proof {
            use_type_invariant(self);
            self.lemma_keys();
        }
        let (i, hit) = self.find(k);
        if hit {
            proof {
                assert(self@.dom().contains(self.key_seq()[i as int]));
            }
            Some(&self.entries[i].1)
        } else {
            None
        }
    }

    /// Whether `k` has a value.
    pub fn contains(&self, k: &str) -> (r: bool)
        ensures
            r == self@.dom().contains(k@),
    {
        proof {
            use_type_invariant(self);
        }
        self.find(k).1
    }

    /// Sets the value of `k`.
    pub fn insert(&mut self, k: &str, v: V)
        ensures
            final(self)@ == old(self)@.insert(k@, v.deep_view()),
    {
        proof {
            use_type_invariant(&*self);
            self.lemma_keys();
        }
        let (i, hit) = self.find(k);
        let ghost before = *self;
        let ghost ks = self.key_seq();
        let mut es: Vec<(String, V)> = Vec::new();
        std::mem::swap(&mut es, &mut self.entries);
        let ghost old_es = es@;
        if hit {
            es.remove(i);
        }
        es.insert(i, (k.to_owned(), v));
        proof {
            let done = StrMap { entries: es };
            let nk = done.key_seq();
            if hit {
                assert(nk =~= ks);
            } else {
                assert(nk =~= ks.insert(i as int, k@));
            }
            assert(text::ascending(nk)) by {
                if !hit {
                    assert forall|a: int, b: int| 0 <= a < b < nk.len() implies text::text_lt(
                        #[trigger] nk[a],
                        #[trigger] nk[b],
                    ) by {
                        let pa = if a < i { a } else { a - 1 };
                        let pb = if b < i { b } else { b - 1 };
                        if a != i && b != i {
                            assert(text::text_lt(ks[pa], ks[pb]));
                        } else if a == i {
                            assert(text::text_lt(k@, ks[pb]));
                        } else {
                            assert(text::text_lt(ks[pa], k@));
                        }
                    }
                }
            }
            done.lemma_keys();
            assert forall|x: Text| done@.dom().contains(x) == before@.insert(
                k@,
                v.deep_view(),
            ).dom().contains(x) by {
                if nk.contains(x) {
                    let p = choose|p: int| 0 <= p < nk.len() && nk[p] == x;
                    if p < i {
                        assert(ks[p] == x);
                        assert(ks.contains(x));
                    } else if p > i {
                        let q = if hit { p } else { p - 1 };
                        assert(ks[q] == x);
                        assert(ks.contains(x));
                    }
                }
                if ks.contains(x) {
                    let p = choose|p: int| 0 <= p < ks.len() && ks[p] == x;
                    let q = if hit || p < i { p } else { p + 1 };
                    assert(nk[q] == x);
                }
                assert(nk[i as int] == k@);
            }
            assert forall|x: Text| #[trigger] done@.dom().contains(x) implies done@[x]
                == before@.insert(k@, v.deep_view())[x] by {
                let p = choose|p: int| 0 <= p < nk.len() && nk[p] == x;
                assert(done@.dom().contains(nk[p]));
                if p < i {
                    text::text_lt_asymmetric(ks[p], k@);
                    assert(before@.dom().contains(ks[p]));
                } else if p > i {
                    let q = if hit { p } else { p - 1 };
                    assert(before@.dom().contains(ks[q]));
                    if hit {
                        text::text_lt_asymmetric(ks[i as int], ks[p]);
                    } else {
                        text::text_lt_asymmetric(k@, ks[q]);
                    }
                }
            }
            assert(done@ =~= before@.insert(k@, v.deep_view()));
        }
        self.entries = es;
    }

    /// Takes the value of `k` out.
    pub fn remove(&mut self, k: &str) -> (r: Option<V>)
        ensures
            final(self)@ == old(self)@.remove(k@),
            match r {
                Some(v) => old(self)@.dom().contains(k@) && v.deep_view() == old(self)@[k@],
                None => !old(self)@.dom().contains(k@),
            },
    {
        proof {
            use_type_invariant(&*self);
            self.lemma_keys();
        }
        let (i, hit) = self.find(k);
        if !hit {
            assert(self@ =~= self@.remove(k@));
            return None;
        }
        let ghost before = *self;
        let ghost ks = self.key_seq();
        let mut es: Vec<(String, V)> = Vec::new();
        std::mem::swap(&mut es, &mut self.entries);
        let e = es.remove(i);
        proof {
            let done = StrMap { entries: es };
            let nk = done.key_seq();
            assert(nk =~= ks.remove(i as int));
            assert(text::ascending(nk)) by {
                assert forall|a: int, b: int| 0 <= a < b < nk.len() implies text::text_lt(
                    #[trigger] nk[a],
                    #[trigger] nk[b],
                ) by {
                    let pa = if a < i { a } else { a + 1 };
                    let pb = if b < i { b } else { b + 1 };
                    assert(text::text_lt(ks[pa], ks[pb]));
                }
            }
            done.lemma_keys();
            assert(before@.dom().contains(ks[i as int]));
            assert forall|x: Text| done@.dom().contains(x) == before@.remove(k@).dom().contains(
                x,
            ) by {
                if nk.contains(x) {
                    let p = choose|p: int| 0 <= p < nk.len() && nk[p] == x;
                    let q = if p < i { p } else { p + 1 };
                    assert(ks[q] == x);
                    assert(ks.contains(x));
                    if q < i {
                        text::text_lt_asymmetric(ks[q], ks[i as int]);
                    } else {
                        text::text_lt_asymmetric(ks[i as int], ks[q]);
                    }
                }
                if ks.contains(x) && x != k@ {
                    let p = choose|p: int| 0 <= p < ks.len() && ks[p] == x;
                    let q = if p < i { p } else { p - 1 };
                    assert(nk[q] == x);
                }
            }
            assert forall|x: Text| #[trigger] done@.dom().contains(x) implies done@[x]
                == before@.remove(k@)[x] by {
                let p = choose|p: int| 0 <= p < nk.len() && nk[p] == x;
                assert(done@.dom().contains(nk[p]));
                let q = if p < i { p } else { p + 1 };
                assert(before@.dom().contains(ks[q]));
            }
            assert(done@ =~= before@.remove(k@));
        }
        self.entries = es;
        Some(e.1)
    }
}

/// The part of a map whose values satisfy `f`.
pub open spec fn kept<V>(m: Map<Text, V>, f: spec_fn(V) -> bool) -> Map<Text, V> {
    m.restrict(m.dom().filter(|k: Text| f(m[k])))
}

/// Which values of a map stay.
pub trait Keep<V: DeepView> {
    spec fn keeps(&self, v: V::V) -> bool;

    fn keep(&self, v: &V) -> (r: bool)
        ensures
            r == self.keeps(v.deep_view()),
    ;
}

impl<V: DeepView> StrMap<V> {
    /// Drops every value that `p` does not keep; tells how many.
    pub fn retain<P: Keep<V>>(&mut self, p: &P) -> (r: usize)
        ensures
            final(self)@ == kept(old(self)@, |v: V::V| p.keeps(v)),
            r == old(self)@.dom().len() - final(self)@.dom().len(),
            final(self)@.dom().len() <= old(self)@.dom().len(),
    {
        let ghost m = self@;
        let ghost f = |v: V::V| p.keeps(v);
        let ks = self.keys();
        let before = self.len();
        let ghost kseq = ks.deep_view();
        proof {
            text::in_order_sorted(m.dom());
        }
        let mut i: usize = 0;
        while i < ks.len()
            invariant
                i <= ks.len(),
                kseq == ks.deep_view(),
                kseq.to_set() == m.dom(),
                f == (|v: V::V| p.keeps(v)),
                forall|k: Text| #[trigger]
                    self@.dom().contains(k) <==> m.dom().contains(k) && (f(m[k]) || !kseq.take(
                        i as int,
                    ).contains(k)),
                forall|k: Text| #[trigger] self@.dom().contains(k) ==> self@[k] == m[k],
            decreases ks.len() - i,
        {
            let ghost cur = self@;
            let ghost k = kseq[i as int];
            proof {
                assert(k == ks[i as int]@);
                assert(kseq.to_set().contains(k));
                assert forall|x: Text| kseq.take(i + 1).contains(x) == (kseq.take(
                    i as int,
                ).contains(x) || x == k) by {
                    let a = kseq.take(i as int);
                    let b = kseq.take(i + 1);
                    if a.contains(x) {
                        let j = choose|j: int| 0 <= j < a.len() && a[j] == x;
                        assert(b[j] == x);
                    }
                    if b.contains(x) {
                        let j = choose|j: int| 0 <= j < b.len() && b[j] == x;
                        if j < i {
                            assert(a[j] == x);
                        }
                    }
                    assert(b[i as int] == k);
                }
            }
            let drop = match self.get(&ks[i]) {
                Some(v) => !p.keep(v),
                None => false,
            };
            if drop {
                let _ = self.remove(&ks[i]);
            }
            i += 1;
        }
        proof {
            assert(kseq.take(kseq.len() as int) =~= kseq);
            assert forall|k: Text| m.dom().contains(k) implies kseq.contains(k) by {
                assert(kseq.to_set().contains(k));
            }
            assert(self@ =~= kept(m, f));
            m.dom().lemma_len_filter(|k: Text| f(m[k]));
            assert(kept(m, f).dom() =~= m.dom().filter(|k: Text| f(m[k])));
        }
        before - self.len()
    }
}

} // verus!
