//! Topic-based publish/subscribe (`domain.verb`).
//!
//! Subscriptions carry the instance, for selective cleanup and for the
//! rejection of stale generations. `subscribe` and `unsubscribe_fiber` are
//! adapters without identity; new code uses the `*_instance` methods.

use vstd::prelude::*;
use crate::identity::InstanceId;
use crate::strmap::{Keep, StrMap};
use crate::text;
use crate::text::Text;

verus! {

#[derive(Debug)]
struct Sub {
    logical: String,
    instance: u64,
}

/// A subscription; instance 0 is one without identity.
pub struct SubV {
    pub logical: Text,
    pub instance: u64,
}

impl DeepView for Sub {
    type V = SubV;

    closed spec fn deep_view(&self) -> SubV {
        SubV { logical: self.logical@, instance: self.instance }
    }
}

/// The subscriptions by topic, in order of arrival.
pub type Topics = Map<Text, Seq<SubV>>;

/// The subscriptions to a topic.
pub open spec fn subs_of(t: Topics, topic: Text) -> Seq<SubV> {
    if t.dom().contains(topic) {
        t[topic]
    } else {
        Seq::empty()
    }
}

/// `t` with the subscription `s` to `topic`, once.
pub open spec fn subscribed(t: Topics, topic: Text, s: SubV) -> Topics {
    t.insert(
        topic,
        if subs_of(t, topic).contains(s) {
            subs_of(t, topic)
        } else {
            subs_of(t, topic).push(s)
        },
    )
}

/// `t` without the subscriptions to `topic` of `inst` or of nobody in
/// particular.
pub open spec fn unsubscribed(t: Topics, topic: Text, inst: u64) -> Topics {
    if t.dom().contains(topic) {
        t.insert(topic, t[topic].filter(|s: SubV| s.instance != inst && s.instance != 0))
    } else {
        t
    }
}

struct NotFiber<'a>(&'a str);

impl<'a> Keep<Sub> for NotFiber<'a> {
    closed spec fn keeps(&self, v: SubV) -> bool {
        v.logical != self.0@
    }

    fn keep(&self, v: &Sub) -> (r: bool) {
        !text::same(&v.logical, self.0)
    }
}

struct NotInstance(u64);

impl Keep<Sub> for NotInstance {
    closed spec fn keeps(&self, v: SubV) -> bool {
        v.instance != self.0
    }

    fn keep(&self, v: &Sub) -> (r: bool) {
        v.instance != self.0
    }
}

struct NotOwned(u64);

impl Keep<Sub> for NotOwned {
    closed spec fn keeps(&self, v: SubV) -> bool {
        v.instance != self.0 && v.instance != 0
    }

    fn keep(&self, v: &Sub) -> (r: bool) {
        v.instance != self.0 && v.instance != 0
    }
}

/// The subscriptions of `v` that `p` keeps.
fn filtered<P: Keep<Sub>>(v: &Vec<Sub>, p: &P) -> (r: Vec<Sub>)
    ensures
        r.deep_view() == v.deep_view().filter(|s: SubV| p.keeps(s)),
{
    let ghost s = v.deep_view();
    let ghost f = |s: SubV| p.keeps(s);
    let mut out: Vec<Sub> = Vec::new();
    let mut i: usize = 0;
    proof {
        reveal(Seq::filter);
        assert(s.take(0).filter(f) =~= Seq::<SubV>::empty());
        assert(out.deep_view() =~= Seq::<SubV>::empty());
    }
    while i < v.len()
        invariant
            i <= v.len(),
            s == v.deep_view(),
            f == (|s: SubV| p.keeps(s)),
            out.deep_view() == s.take(i as int).filter(f),
        decreases v.len() - i,
    {
        proof {
            reveal(Seq::filter);
            assert(s.take(i + 1).drop_last() =~= s.take(i as int));
            assert(s.take(i + 1).last() == v[i as int].deep_view());
        }
        if p.keep(&v[i]) {
            let ghost before = out.deep_view();
            out.push(Sub { logical: v[i].logical.clone(), instance: v[i].instance });
            proof {
                assert(out.deep_view() =~= before.push(v[i as int].deep_view()));
            }
        }
        i += 1;
    }
    proof {
        assert(s.take(s.len() as int) =~= s);
    }
    out
}

pub struct Bus {
    subs: StrMap<Vec<Sub>>,
}

impl View for Bus {
    type V = Topics;

    closed spec fn view(&self) -> Topics {
        self.subs@
    }
}

impl Bus {
    pub fn new() -> (r: Self)
        ensures
            r@ == Map::<Text, Seq<SubV>>::empty(),
    {
        Bus { subs: StrMap::new() }
    }

    /// Subscribes without instance identity.
    pub fn subscribe(&mut self, fiber: &str, topic: &str)
        ensures
            final(self)@ == subscribed(
                old(self)@,
                topic@,
                SubV { logical: fiber@, instance: 0 },
            ),
    {
        self.subscribe_instance(fiber, InstanceId(0), topic);
    }

    pub fn subscribe_instance(&mut self, logical: &str, inst: InstanceId, topic: &str)
        ensures
            final(self)@ == subscribed(
                old(self)@,
                topic@,
                SubV { logical: logical@, instance: inst.0 },
            ),
    {
        let ghost s = subs_of(self@, topic@);
        let mut v = match self.subs.remove(topic) {
            Some(v) => v,
            None => Vec::new(),
        };
        let ghost sub = SubV { logical: logical@, instance: inst.0 };
        proof {
            assert(v.deep_view() =~= s);
        }
        let mut found = false;
        let mut i: usize = 0;
        while i < v.len() && !found
            invariant
                i <= v.len(),
                s == v.deep_view(),
                sub == (SubV { logical: logical@, instance: inst.0 }),
                !found ==> forall|j: int| 0 <= j < i ==> s[j] != sub,
                found ==> s.contains(sub),
            decreases v.len() - i,
        {
            assert(s[i as int] == v[i as int].deep_view());
            if v[i].instance == inst.0 && text::same(&v[i].logical, logical) {
                found = true;
            }
            i += 1;
        }
        if !found {
            v.push(Sub { logical: logical.to_owned(), instance: inst.0 });
            proof {
                assert(v.deep_view() =~= s.push(sub));
            }
        }
        self.subs.insert(topic, v);
        proof {
            assert(self@ =~= subscribed(old(self)@, topic@, sub));
        }
    }

    fn filter_all<P: Keep<Sub>>(&mut self, p: &P)
        ensures
            final(self)@ == old(self)@.map_values(
                |v: Seq<SubV>| v.filter(|s: SubV| p.keeps(s)),
            ),
    {
        let ghost m = self@;
        let ghost g = |v: Seq<SubV>| v.filter(|s: SubV| p.keeps(s));
        let ks = self.subs.keys();
        let _n = self.subs.len();
        let ghost kseq = ks.deep_view();
        proof {
            text::in_order_sorted(m.dom());
        }
        let mut i: usize = 0;
        while i < ks.len()
            invariant
                i <= ks.len(),
                kseq == ks.deep_view(),
                kseq.to_set() == m.dom(),
                kseq.no_duplicates(),
                g == (|v: Seq<SubV>| v.filter(|s: SubV| p.keeps(s))),
                self@.dom() =~= m.dom(),
                forall|j: int| 0 <= j < i ==> self@[#[trigger] kseq[j]] == g(m[kseq[j]]),
                forall|j: int| i <= j < ks.len() ==> self@[#[trigger] kseq[j]] == m[kseq[j]],
            decreases ks.len() - i,
        {
            let ghost k = kseq[i as int];
            proof {
                assert(k == ks[i as int]@);
                assert(kseq.to_set().contains(k));
            }
            if let Some(v) = self.subs.get(&ks[i]) {
                let w = filtered(v, p);
                self.subs.insert(&ks[i], w);
            }
            i += 1;
        }
        proof {
            assert forall|k: Text| m.dom().contains(k) implies #[trigger] self@[k] == g(m[k]) by {
                assert(kseq.to_set().contains(k));
                let j = choose|j: int| 0 <= j < kseq.len() && kseq[j] == k;
                assert(self@[kseq[j]] == g(m[kseq[j]]));
            }
            assert(self@ =~= m.map_values(g));
        }
    }

    /// Removes by logical name.
    pub fn unsubscribe_fiber(&mut self, fiber: &str)
        ensures
            final(self)@ == old(self)@.map_values(
                |v: Seq<SubV>| v.filter(|s: SubV| s.logical != fiber@),
            ),
    {
        let p = NotFiber(fiber);
        self.filter_all(&p);
        assert((|s: SubV| p.keeps(s)) =~= (|s: SubV| s.logical != fiber@));
    }

    /// Removes only the subscriptions of this instance.
    pub fn unsubscribe_instance(&mut self, inst: InstanceId)
        ensures
            final(self)@ == old(self)@.map_values(
                |v: Seq<SubV>| v.filter(|s: SubV| s.instance != inst.0),
            ),
    {
        let p = NotInstance(inst.0);
        self.filter_all(&p);
        assert((|s: SubV| p.keeps(s)) =~= (|s: SubV| s.instance != inst.0));
    }

    /// Removes the subscriptions to one topic that the instance owns, or
    /// that were made without identity; tells whether there were any.
    pub fn unsubscribe_topic_if_owned(&mut self, inst: InstanceId, topic: &str) -> (r: bool)
        ensures
            final(self)@ == unsubscribed(old(self)@, topic@, inst.0),
            r == (subs_of(final(self)@, topic@).len() != subs_of(old(self)@, topic@).len()),
    {
        match self.subs.get(topic) {
            Some(v) => {
                let before = v.len();
                let p = NotOwned(inst.0);
                let w = filtered(v, &p);
                assert((|s: SubV| p.keeps(s)) =~= (|s: SubV|
                    s.instance != inst.0 && s.instance != 0));
                let after = w.len();
                self.subs.insert(topic, w);
                after != before
            },
            None => false,
        }
    }

    /// The logical ids subscribed to a topic.
    pub fn subscribers(&self, topic: &str) -> (r: Vec<String>)
        ensures
            r.deep_view() == subs_of(self@, topic@).map_values(|s: SubV| s.logical),
    {
        let mut out: Vec<String> = Vec::new();
        let ghost s = subs_of(self@, topic@);
        if let Some(v) = self.subs.get(topic) {
            let mut i: usize = 0;
            while i < v.len()
                invariant
                    i <= v.len(),
                    s == v.deep_view(),
                    out.len() == i,
                    forall|j: int| 0 <= j < i ==> out[j]@ == (#[trigger] s[j]).logical,
                decreases v.len() - i,
            {
                assert(s[i as int] == v[i as int].deep_view());
                out.push(v[i].logical.clone());
                i += 1;
            }
        }
        assert(out.deep_view() =~= s.map_values(|s: SubV| s.logical));
        out
    }

    /// The instances subscribed to a topic.
    pub fn subscriber_instances(&self, topic: &str) -> (r: Vec<InstanceId>)
        ensures
            r@ == instances_of(subs_of(self@, topic@)),
    {
        let mut out: Vec<InstanceId> = Vec::new();
        let ghost s = subs_of(self@, topic@);
        if let Some(v) = self.subs.get(topic) {
            let mut i: usize = 0;
            assert(s.take(0) =~= Seq::<SubV>::empty());
            while i < v.len()
                invariant
                    i <= v.len(),
                    s == v.deep_view(),
                    out@ == instances_of(s.take(i as int)),
                decreases v.len() - i,
            {
                proof {
                    assert(s.take(i + 1).drop_last() =~= s.take(i as int));
                    assert(s.take(i + 1).last() == v[i as int].deep_view());
                }
                if v[i].instance != 0 {
                    out.push(InstanceId(v[i].instance));
                }
                i += 1;
            }
            assert(s.take(s.len() as int) =~= s);
        }
        out
    }
}

/// The instances among subscriptions, in order; those without identity give
/// none.
pub open spec fn instances_of(s: Seq<SubV>) -> Seq<InstanceId>
    decreases s.len(),
{
    if s.len() == 0 {
        Seq::empty()
    } else {
        let rest = instances_of(s.drop_last());
        if s.last().instance != 0 {
            rest.push(InstanceId(s.last().instance))
        } else {
            rest
        }
    }
}

/// Removing what one instance subscribed to leaves the subscriptions of every
/// other instance.
pub proof fn unsubscription_spares_others(t: Topics, topic: Text, inst: u64, other: Text, s: SubV)
    requires
        subs_of(t, other).contains(s),
        s.instance != inst,
        s.instance != 0,
    ensures
        subs_of(unsubscribed(t, topic, inst), other).contains(s),
{
    if other == topic {
        let f = |s: SubV| s.instance != inst && s.instance != 0;
        let i = choose|i: int| 0 <= i < t[topic].len() && t[topic][i] == s;
        t[topic].lemma_filter_contains(f, i);
    }
}

/// Unsubscribing takes from one topic what the instance, or nobody in
/// particular, subscribed to, and nothing else.
pub proof fn unsubscription_is_exact(t: Topics, topic: Text, inst: u64, other: Text, s: SubV)
    ensures
        subs_of(unsubscribed(t, topic, inst), other).contains(s) <==> subs_of(t, other).contains(s)
            && !(other == topic && (s.instance == inst || s.instance == 0)),
{
    if other == topic && t.dom().contains(topic) {
        let f = |s: SubV| s.instance != inst && s.instance != 0;
        let all = t[topic];
        if all.filter(f).contains(s) {
            all.lemma_filter_contains_rev(f, s);
            let i = choose|i: int| 0 <= i < all.filter(f).len() && all.filter(f)[i] == s;
            all.lemma_filter_pred(f, i);
        }
        if all.contains(s) && f(s) {
            let i = choose|i: int| 0 <= i < all.len() && all[i] == s;
            all.lemma_filter_contains(f, i);
        }
    }
}

} // verus!
