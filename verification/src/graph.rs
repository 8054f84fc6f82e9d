//! The dependency graph: candidate providers, cycles, activation order and
//! dependents.

use vstd::prelude::*;
use crate::deps;
use crate::deps::{Requirement, RequirementV};
use crate::strmap::StrMap;
use crate::text;
use crate::text::Text;

verus! {

/// From each logical id to the logical ids it depends on.
pub type Edges = Map<Text, Seq<Text>>;

// ---- candidates and edges ---------------------------------------------

/// Whether one of `caps` satisfies `req`.
pub open spec fn offers(caps: Seq<Text>, req: RequirementV) -> bool {
    exists|i: int| 0 <= i < caps.len() && deps::satisfies(#[trigger] caps[i], req)
}

/// The logical ids that offer what `req` asks for.
pub open spec fn offering(req: RequirementV, provides: Map<Text, Seq<Text>>) -> Set<Text> {
    provides.dom().filter(|l: Text| offers(provides[l], req))
}

/// Whether one of `caps` satisfies `req`.
pub fn any_satisfies(caps: &Vec<String>, req: &Requirement) -> (r: bool)
    ensures
        r == offers(caps.deep_view(), req@),
{
    let mut i: usize = 0;
    while i < caps.len()
        invariant
            i <= caps.len(),
            forall|j: int| 0 <= j < i ==> !deps::satisfies(#[trigger] caps.deep_view()[j], req@),
        decreases caps.len() - i,
    {
        if deps::cap_satisfies(&caps[i], req) {
            assert(deps::satisfies(caps.deep_view()[i as int], req@));
            return true;
        }
        i += 1;
    }
    false
}

/// The logical ids that offer what `req` asks for, in ascending order.
/// `provides_of`: logical id to provided capabilities.
pub fn provider_candidates(req: &Requirement, provides_of: &StrMap<Vec<String>>) -> (r: Vec<String>)
    ensures
        r.deep_view() == text::in_order(offering(req@, provides_of@)),
{
    let ghost ks = text::in_order(provides_of@.dom());
    let mut set: StrMap<bool> = StrMap::new();
    let n = provides_of.len();
    let mut i: usize = 0;
    proof {
        text::in_order_sorted(provides_of@.dom());
    }
    while i < n
        invariant
            i <= n,
            n == ks.len(),
            ks == text::in_order(provides_of@.dom()),
            ks.to_set() == provides_of@.dom(),
            forall|l: Text| #[trigger]
                set@.dom().contains(l) <==> (exists|j: int|
                    0 <= j < i && #[trigger] ks[j] == l && offers(provides_of@[l], req@)),
        decreases n - i,
    {
        if any_satisfies(provides_of.value_at(i), req) {
            set.insert(provides_of.key_at(i), true);
        }
        proof {
            assert forall|l: Text| #[trigger] set@.dom().contains(l) <==> (exists|j: int|
                0 <= j < i + 1 && #[trigger] ks[j] == l && offers(provides_of@[l], req@)) by {
                if exists|j: int|
                    0 <= j < i + 1 && #[trigger] ks[j] == l && offers(provides_of@[l], req@) {
                    let j = choose|j: int|
                        0 <= j < i + 1 && #[trigger] ks[j] == l && offers(provides_of@[l], req@);
                    if j < i {
                        assert(0 <= j < i && ks[j] == l);
                    }
                }
            }
        }
        i += 1;
    }
    proof {
        assert forall|l: Text| set@.dom().contains(l) == offering(req@, provides_of@).contains(l) by {
            if offering(req@, provides_of@).contains(l) {
                assert(ks.to_set().contains(l));
                let j = choose|j: int| 0 <= j < ks.len() && ks[j] == l;
                assert(0 <= j < i && ks[j] == l);
            }
            if set@.dom().contains(l) {
                let j = choose|j: int|
                    0 <= j < i && #[trigger] ks[j] == l && offers(provides_of@[l], req@);
                assert(ks.to_set().contains(l));
            }
        }
        assert(set@.dom() =~= offering(req@, provides_of@));
    }
    set.keys()
}

/// What a consumer with these requirements depends on: the named provider,
/// or else every candidate.
pub open spec fn needed(reqs: Seq<RequirementV>, provides: Map<Text, Seq<Text>>) -> Set<Text> {
    Set::new(|p: Text| exists|i: int| 0 <= i < reqs.len() && needs(#[trigger] reqs[i], provides, p))
}

pub open spec fn needs(req: RequirementV, provides: Map<Text, Seq<Text>>, p: Text) -> bool {
    match req.provider {
        Some(q) => p == q,
        None => offering(req, provides).contains(p),
    }
}

/// The graph of the given declarations; pure providers have no dependency.
pub open spec fn edges_of(
    requires_of: Map<Text, Seq<RequirementV>>,
    provides_of: Map<Text, Seq<Text>>,
) -> Edges {
    Map::new(
        |l: Text| requires_of.dom().contains(l) || provides_of.dom().contains(l),
        |l: Text|
            if requires_of.dom().contains(l) {
                text::in_order(needed(requires_of[l], provides_of))
            } else {
                Seq::empty()
            },
    )
}

fn needed_list(reqs: &Vec<Requirement>, provides_of: &StrMap<Vec<String>>) -> (r: Vec<String>)
    ensures
        r.deep_view() == text::in_order(needed(reqs.deep_view(), provides_of@)),
{
    let mut set: StrMap<bool> = StrMap::new();
    let ghost rs = reqs.deep_view();
    let _n = provides_of.len();
    let mut i: usize = 0;
    while i < reqs.len()
        invariant
            provides_of@.dom().finite(),
            i <= reqs.len(),
            rs == reqs.deep_view(),
            set@.dom() =~= needed(rs.take(i as int), provides_of@),
        decreases reqs.len() - i,
    {
        let req = &reqs[i];
        let ghost before = set@.dom();
        match &req.provider {
            Some(p) => {
                set.insert(p, true);
                assert(set@.dom() =~= before.union(Set::new(|p: Text| needs(req@, provides_of@, p))));
            },
            None => {
                let cands = provider_candidates(req, provides_of);
                let ghost cs = cands.deep_view();
                let mut j: usize = 0;
                while j < cands.len()
                    invariant
                        j <= cands.len(),
                        cs == cands.deep_view(),
                        set@.dom() =~= before.union(cs.take(j as int).to_set()),
                    decreases cands.len() - j,
                {
                    set.insert(&cands[j], true);
                    proof {
                        let a = cs.take(j as int);
                        let b = cs.take(j + 1);
                        assert(b =~= a.push(cs[j as int]));
                        assert forall|x: Text| b.to_set().contains(x) == (a.to_set().contains(x)
                            || x == cs[j as int]) by {
                            if a.to_set().contains(x) {
                                let k = choose|k: int| 0 <= k < a.len() && a[k] == x;
                                assert(b[k] == x);
                            }
                            assert(b[j as int] == cs[j as int]);
                        }
                    }
                    j += 1;
                }
                proof {
                    let o = offering(req@, provides_of@);
                    provides_of@.dom().lemma_len_filter(|l: Text| offers(provides_of@[l], req@));
                    text::in_order_sorted(o);
                    assert(cs.take(cs.len() as int) =~= cs);
                    assert(Set::new(|p: Text| needs(req@, provides_of@, p)) =~= o);
                }
            },
        }
        proof {
            let a = rs.take(i as int);
            let b = rs.take(i + 1);
            assert forall|x: Text| needed(b, provides_of@).contains(x) == (needed(
                a,
                provides_of@,
            ).contains(x) || needs(req@, provides_of@, x)) by {
                if needed(a, provides_of@).contains(x) {
                    let k = choose|k: int|
                        0 <= k < a.len() && needs(#[trigger] a[k], provides_of@, x);
                    assert(b[k] == a[k]);
                }
                if needs(req@, provides_of@, x) {
                    assert(b[i as int] == req@);
                }
                if needed(b, provides_of@).contains(x) && !needs(req@, provides_of@, x) {
                    let k = choose|k: int|
                        0 <= k < b.len() && needs(#[trigger] b[k], provides_of@, x);
                    assert(a[k] == b[k]);
                }
            }
        }
        i += 1;
    }
    proof {
        assert(rs.take(rs.len() as int) =~= rs);
    }
    set.keys()
}

/// Graph edges for cycle and order detection: for each consumer the providers
/// it references (the named one if there is one, otherwise all candidates).
pub fn graph_edges(
    requires_of: &StrMap<Vec<Requirement>>,
    provides_of: &StrMap<Vec<String>>,
) -> (r: StrMap<Vec<String>>)
    ensures
        r@ == edges_of(requires_of@, provides_of@),
{
    let mut edges: StrMap<Vec<String>> = StrMap::new();
    let ghost ks = text::in_order(requires_of@.dom());
    let ghost ps = text::in_order(provides_of@.dom());
    let ghost goal = edges_of(requires_of@, provides_of@);
    let n = requires_of.len();
    let m = provides_of.len();
    proof {
        text::in_order_sorted(requires_of@.dom());
        text::in_order_sorted(provides_of@.dom());
    }
    let mut i: usize = 0;
    while i < n
        invariant
            i <= n,
            n == ks.len(),
            ks == text::in_order(requires_of@.dom()),
            ks.to_set() == requires_of@.dom(),
            goal == edges_of(requires_of@, provides_of@),
            forall|l: Text| #[trigger]
                edges@.dom().contains(l) <==> ks.take(i as int).to_set().contains(l),
            forall|l: Text| #[trigger] edges@.dom().contains(l) ==> edges@[l] == goal[l],
        decreases n - i,
    {
        let list = needed_list(requires_of.value_at(i), provides_of);
        let ghost before = edges@;
        edges.insert(requires_of.key_at(i), list);
        proof {
            text::take_grows(ks, i as int);
            assert(goal.dom().contains(ks[i as int]));
        }
        i += 1;
    }
    proof {
        assert(ks.take(ks.len() as int) =~= ks);
    }
    let mut j: usize = 0;
    while j < m
        invariant
            j <= m,
            m == ps.len(),
            ps == text::in_order(provides_of@.dom()),
            ps.to_set() == provides_of@.dom(),
            goal == edges_of(requires_of@, provides_of@),
            forall|l: Text| #[trigger]
                edges@.dom().contains(l) <==> (requires_of@.dom().contains(l) || ps.take(
                    j as int,
                ).to_set().contains(l)),
            forall|l: Text| #[trigger] edges@.dom().contains(l) ==> edges@[l] == goal[l],
        decreases m - j,
    {
        proof {
            text::take_grows(ps, j as int);
        }
        let l = provides_of.key_at(j);
        if !edges.contains(l) {
            let none: Vec<String> = Vec::new();
            assert(none.deep_view() =~= Seq::<Text>::empty());
            proof {
                assert(goal.dom().contains(l@));
            }
            edges.insert(l, none);
        }
        j += 1;
    }
    proof {
        assert(ps.take(ps.len() as int) =~= ps);
        assert(edges@ =~= goal);
    }
    edges
}

// ---- cycles -----------------------------------------------------------

/// What `n` depends on.
pub open spec fn successors(edges: Edges, n: Text) -> Seq<Text> {
    if edges.dom().contains(n) {
        edges[n]
    } else {
        Seq::empty()
    }
}

/// How a depth-first walk ends: at a cycle, or with the nodes it finished,
/// in finishing order.
pub enum Walk {
    Cycle(Seq<Text>),
    Done(Seq<Text>),
}

/// Visits `node`; `path` leads to it and `done` was finished before.
/// A path is never longer than there are nodes with dependencies.
pub open spec fn walk_node(edges: Edges, node: Text, done: Seq<Text>, path: Seq<Text>) -> Walk
    decreases edges.dom().len() + 1 - path.len(), 0nat,
{
    if path.len() > edges.dom().len() {
        Walk::Done(done)
    } else {
        match walk_list(edges, successors(edges, node), done, path.push(node)) {
            Walk::Cycle(c) => Walk::Cycle(c),
            Walk::Done(d) => Walk::Done(d.push(node)),
        }
    }
}

/// Visits the nodes of `list` in turn, as far as they are not finished.
pub open spec fn walk_list(edges: Edges, list: Seq<Text>, done: Seq<Text>, path: Seq<Text>) -> Walk
    decreases edges.dom().len() + 1 - path.len(), list.len(),
{
    if list.len() == 0 {
        Walk::Done(done)
    } else {
        let n = list[0];
        if path.contains(n) {
            Walk::Cycle(path.skip(path.index_of_first(n)->0).push(n))
        } else if done.contains(n) {
            walk_list(edges, list.drop_first(), done, path)
        } else {
            match walk_node(edges, n, done, path) {
                Walk::Cycle(c) => Walk::Cycle(c),
                Walk::Done(d) => walk_list(edges, list.drop_first(), d, path),
            }
        }
    }
}

/// The first cycle that a depth-first walk meets, starting from each node in
/// ascending order and following dependencies in their listed order.
pub open spec fn first_cycle(edges: Edges) -> Option<Seq<Text>> {
    match walk_list(edges, text::in_order(edges.dom()), Seq::empty(), Seq::empty()) {
        Walk::Cycle(c) => Some(c),
        Walk::Done(_) => None,
    }
}

/// The position of `s` in `v`.
fn position(v: &Vec<String>, s: &str) -> (r: Option<usize>)
    ensures
        match r {
            Some(i) => i < v.len() && v.deep_view().contains(s@) && v.deep_view().index_of_first(s@)
                == Some(i as int),
            None => !v.deep_view().contains(s@),
        },
{
    let ghost t = v.deep_view();
    let mut i: usize = 0;
    while i < v.len()
        invariant
            i <= v.len(),
            t == v.deep_view(),
            forall|j: int| 0 <= j < i ==> t[j] != s@,
        decreases v.len() - i,
    {
        if text::same(&v[i], s) {
            proof {
                assert(t[i as int] == s@);
                t.index_of_first_ensures(s@);
            }
            return Some(i);
        }
        i += 1;
    }
    None
}

fn visit_node(
    edges: &StrMap<Vec<String>>,
    node: &str,
    done: &mut Vec<String>,
    path: &mut Vec<String>,
) -> (r: Option<Vec<String>>)
    ensures
        match r {
            Some(c) => walk_node(edges@, node@, old(done).deep_view(), old(path).deep_view())
                == Walk::Cycle(c.deep_view()),
            None => {
                &&& walk_node(edges@, node@, old(done).deep_view(), old(path).deep_view())
                    == Walk::Done(final(done).deep_view())
                &&& final(path).deep_view() == old(path).deep_view()
            },
        },
    decreases edges@.dom().len() + 1 - old(path)@.len(), 0nat,
{
    if path.len() > edges.len() {
        return None;
    }
    let ghost p0 = path.deep_view();
    path.push(node.to_owned());
    proof {
        assert(path.deep_view() =~= p0.push(node@));
    }
    if let Some(list) = edges.get(node) {
        if let Some(c) = visit_list(edges, list, 0, done, path) {
            proof {
                assert(list.deep_view().skip(0) =~= list.deep_view());
            }
            return Some(c);
        }
        proof {
            assert(list.deep_view().skip(0) =~= list.deep_view());
        }
    }
    let ghost d0 = done.deep_view();
    let ghost p1 = path.deep_view();
    let _ = path.pop();
    done.push(node.to_owned());
    proof {
        assert(path.deep_view() =~= p1.drop_last());
        assert(p1.drop_last() =~= p0);
        assert(done.deep_view() =~= d0.push(node@));
    }
    None
}

fn visit_list(
    edges: &StrMap<Vec<String>>,
    list: &Vec<String>,
    from: usize,
    done: &mut Vec<String>,
    path: &mut Vec<String>,
) -> (r: Option<Vec<String>>)
    requires
        from <= list.len(),
    ensures
        match r {
            Some(c) => walk_list(
                edges@,
                list.deep_view().skip(from as int),
                old(done).deep_view(),
                old(path).deep_view(),
            ) == Walk::Cycle(c.deep_view()),
            None => {
                &&& walk_list(
                    edges@,
                    list.deep_view().skip(from as int),
                    old(done).deep_view(),
                    old(path).deep_view(),
                ) == Walk::Done(final(done).deep_view())
                &&& final(path).deep_view() == old(path).deep_view()
            },
        },
    decreases edges@.dom().len() + 1 - old(path)@.len(), list.len() - from,
{
    let ghost rest = list.deep_view().skip(from as int);
    if from == list.len() {
        return None;
    }
    let n = &list[from];
    proof {
        assert(rest[0] == n@);
        assert(rest.drop_first() =~= list.deep_view().skip(from + 1));
    }
    match position(path, n) {
        Some(at) => {
            let ghost p = path.deep_view();
            let mut c: Vec<String> = Vec::new();
            let mut i: usize = at;
            while i < path.len()
                invariant
                    at <= i <= path.len(),
                    p == path.deep_view(),
                    c.deep_view() =~= p.subrange(at as int, i as int),
                decreases path.len() - i,
            {
                let ghost c1 = c.deep_view();
                c.push(path[i].clone());
                proof {
                    assert(c.deep_view() =~= c1.push(p[i as int]));
                }
                i += 1;
            }
            let ghost c0 = c.deep_view();
            c.push(n.clone());
            proof {
                assert(c0 =~= p.skip(at as int));
                assert(c.deep_view() =~= c0.push(n@));
            }
            Some(c)
        },
        None => {
            if text::contains_text(done, n) {
                return visit_list(edges, list, from + 1, done, path);
            }
            match visit_node(edges, n, done, path) {
                Some(c) => Some(c),
                None => visit_list(edges, list, from + 1, done, path),
            }
        },
    }
}

/// Finds a cycle; returns its `a -> b -> a` path.
pub fn find_cycle(edges: &StrMap<Vec<String>>) -> (r: Option<Vec<String>>)
    ensures
        match r {
            Some(c) => first_cycle(edges@) == Some(c.deep_view()),
            None => first_cycle(edges@) is None,
        },
{
    let nodes = edges.keys();
    let mut done: Vec<String> = Vec::new();
    let mut path: Vec<String> = Vec::new();
    proof {
        assert(done.deep_view() =~= Seq::<Text>::empty());
        assert(path.deep_view() =~= Seq::<Text>::empty());
        assert(nodes.deep_view().skip(0) =~= nodes.deep_view());
    }
    visit_list(edges, &nodes, 0, &mut done, &mut path)
}

// ---- activation order -------------------------------------------------

/// Every logical id that the graph mentions.
pub open spec fn nodes(edges: Edges) -> Set<Text> {
    Set::new(
        |n: Text|
            edges.dom().contains(n) || exists|c: Text| #[trigger]
                edges.dom().contains(c) && edges[c].contains(n),
    )
}

/// A graph of finitely many declarations has finitely many nodes.
pub proof fn nodes_are_finite(edges: Edges)
    requires
        edges.dom().finite(),
    ensures
        nodes(edges).finite(),
    decreases edges.dom().len(),
{
    if edges.dom().len() == 0 {
        assert(edges.dom() =~= Set::empty());
        assert(nodes(edges) =~= Set::<Text>::empty());
    } else {
        let c = edges.dom().choose();
        let rest = edges.remove(c);
        nodes_are_finite(rest);
        vstd::seq_lib::seq_to_set_is_finite(edges[c]);
        let bound = nodes(rest).insert(c).union(edges[c].to_set());
        assert forall|n: Text| nodes(edges).contains(n) implies bound.contains(n) by {
            if edges.dom().contains(n) {
                if n != c {
                    assert(rest.dom().contains(n));
                }
            } else {
                let d = choose|d: Text| #[trigger] edges.dom().contains(d) && edges[d].contains(n);
                if d != c {
                    assert(rest.dom().contains(d) && rest[d].contains(n));
                }
            }
        }
        vstd::set_lib::lemma_set_subset_finite(bound, nodes(edges));
    }
}

/// Whether `n` comes next: not placed yet, with all it depends on placed.
pub open spec fn ready(edges: Edges, placed: Seq<Text>, n: Text) -> bool {
    &&& !placed.contains(n)
    &&& forall|i: int|
        0 <= i < successors(edges, n).len() ==> placed.contains(
            #[trigger] successors(edges, n)[i],
        )
}

/// The nodes that come next.
pub open spec fn ready_set(edges: Edges, placed: Seq<Text>) -> Set<Text> {
    nodes(edges).filter(|n: Text| ready(edges, placed, n))
}

/// Places the least ready node after `placed` until none is ready.
pub open spec fn place(edges: Edges, placed: Seq<Text>) -> Seq<Text>
    decreases nodes(edges).len() - placed.len(),
{
    if placed.len() >= nodes(edges).len() || ready_set(edges, placed) == Set::<Text>::empty() {
        placed
    } else {
        place(edges, placed.push(text::in_order(ready_set(edges, placed))[0]))
    }
}

/// Providers before consumers, the least name first among those that could
/// come next; `None` where not every node can be placed.
pub open spec fn order_of(edges: Edges) -> Option<Seq<Text>> {
    let o = place(edges, Seq::empty());
    if o.len() == nodes(edges).len() {
        Some(o)
    } else {
        None
    }
}

/// Every node, in ascending order.
fn node_list(edges: &StrMap<Vec<String>>) -> (r: Vec<String>)
    ensures
        r.deep_view() == text::in_order(nodes(edges@)),
        nodes(edges@).finite(),
{
    let n = edges.len();
    let ghost ks = text::in_order(edges@.dom());
    proof {
        text::in_order_sorted(edges@.dom());
    }
    let mut set: StrMap<bool> = StrMap::new();
    let mut i: usize = 0;
    while i < n
        invariant
            i <= n,
            n == ks.len(),
            ks == text::in_order(edges@.dom()),
            ks.to_set() == edges@.dom(),
            forall|x: Text| #[trigger]
                set@.dom().contains(x) ==> nodes(edges@).contains(x),
            forall|k: int| 0 <= k < i ==> #[trigger] set@.dom().contains(ks[k]),
            forall|k: int, x: Text|
                0 <= k < i && #[trigger] edges@[ks[k]].contains(x) ==> set@.dom().contains(x),
        decreases n - i,
    {
        let c = edges.key_at(i);
        let list = edges.value_at(i);
        set.insert(c, true);
        let ghost l = list.deep_view();
        let mut j: usize = 0;
        while j < list.len()
            invariant
                j <= list.len(),
                i < n,
                n == ks.len(),
                l == list.deep_view(),
                l == edges@[ks[i as int]],
                edges@.dom().contains(ks[i as int]),
                forall|x: Text| #[trigger]
                    set@.dom().contains(x) ==> nodes(edges@).contains(x),
                forall|k: int| 0 <= k <= i ==> #[trigger] set@.dom().contains(ks[k]),
                forall|k: int, x: Text|
                    0 <= k < i && #[trigger] edges@[ks[k]].contains(x) ==> set@.dom().contains(x),
                forall|k: int| 0 <= k < j ==> set@.dom().contains(#[trigger] l[k]),
            decreases list.len() - j,
        {
            proof {
                assert(l[j as int] == list[j as int]@);
                assert(edges@[ks[i as int]].contains(l[j as int]));
            }
            set.insert(&list[j], true);
            j += 1;
        }
        i += 1;
    }
    let _m = set.len();
    proof {
        assert forall|x: Text| set@.dom().contains(x) == nodes(edges@).contains(x) by {
            if edges@.dom().contains(x) {
                assert(ks.to_set().contains(x));
                let k = choose|k: int| 0 <= k < ks.len() && ks[k] == x;
                assert(set@.dom().contains(ks[k]));
            } else if nodes(edges@).contains(x) {
                let c = choose|c: Text| #[trigger]
                    edges@.dom().contains(c) && edges@[c].contains(x);
                assert(ks.to_set().contains(c));
                let k = choose|k: int| 0 <= k < ks.len() && ks[k] == c;
                assert(edges@[ks[k]].contains(x));
            }
        }
        assert(set@.dom() =~= nodes(edges@));
    }
    set.keys()
}

/// The first member of an ascending list with a property is the least one.
pub proof fn first_is_least(v: Seq<Text>, s: Set<Text>, f: spec_fn(Text) -> bool, i: int)
    requires
        text::ascending(v),
        v.to_set() == s,
        s.finite(),
        0 <= i < v.len(),
        f(v[i]),
        forall|j: int| 0 <= j < i ==> !f(#[trigger] v[j]),
    ensures
        text::in_order(s.filter(f))[0] == v[i],
        s.filter(f).contains(v[i]),
{
    s.lemma_len_filter(f);
    let t = s.filter(f);
    text::in_order_sorted(t);
    let w = text::in_order(t);
    assert(v.to_set().contains(v[i]));
    assert(t.contains(v[i]));
    assert(w.to_set().contains(v[i]));
    let k = choose|k: int| 0 <= k < w.len() && w[k] == v[i];
    assert(w.to_set().contains(w[0]));
    assert(v.to_set().contains(w[0]));
    let j = choose|j: int| 0 <= j < v.len() && v[j] == w[0];
    if k > 0 {
        text::text_lt_asymmetric(w[0], w[k]);
        if j > i {
            text::text_lt_asymmetric(v[i], v[j]);
        }
    }
}

/// Whether all of `list` is in `placed`.
fn all_in(list: &Vec<String>, placed: &Vec<String>) -> (r: bool)
    ensures
        r == (forall|i: int|
            0 <= i < list.deep_view().len() ==> placed.deep_view().contains(
                #[trigger] list.deep_view()[i],
            )),
{
    let ghost l = list.deep_view();
    let mut i: usize = 0;
    while i < list.len()
        invariant
            i <= list.len(),
            l == list.deep_view(),
            forall|j: int| 0 <= j < i ==> placed.deep_view().contains(#[trigger] l[j]),
        decreases list.len() - i,
    {
        if !text::contains_text(placed, &list[i]) {
            assert(!placed.deep_view().contains(l[i as int]));
            return false;
        }
        i += 1;
    }
    true
}

/// What `place` keeps: members of the graph, each once, each after all it
/// depends on.
pub open spec fn settled(edges: Edges, done: Seq<Text>) -> bool {
    forall|i: int, k: int|
        0 <= i < done.len() && 0 <= k < successors(edges, done[i]).len() ==> done.take(i).contains(
            #[trigger] successors(edges, #[trigger] done[i])[k],
        )
}

pub open spec fn partial_order(edges: Edges, placed: Seq<Text>) -> bool {
    &&& placed.no_duplicates()
    &&& placed.to_set().subset_of(nodes(edges))
    &&& settled(edges, placed)
}

proof fn partial_order_bound(edges: Edges, placed: Seq<Text>)
    requires
        nodes(edges).finite(),
        partial_order(edges, placed),
    ensures
        placed.len() <= nodes(edges).len(),
        placed.len() == nodes(edges).len() ==> placed.to_set() == nodes(edges),
{
    placed.unique_seq_to_set();
    vstd::set_lib::lemma_len_subset(placed.to_set(), nodes(edges));
    if placed.len() == nodes(edges).len() {
        vstd::set_lib::lemma_subset_equality(placed.to_set(), nodes(edges));
    }
}

proof fn partial_order_push(edges: Edges, placed: Seq<Text>, n: Text)
    requires
        partial_order(edges, placed),
        nodes(edges).contains(n),
        ready(edges, placed, n),
    ensures
        partial_order(edges, placed.push(n)),
{
    let q = placed.push(n);
    assert forall|x: Text| q.to_set().contains(x) implies nodes(edges).contains(x) by {
        let k = choose|k: int| 0 <= k < q.len() && q[k] == x;
        if k < placed.len() {
            assert(placed.to_set().contains(placed[k]));
        }
    }
    assert forall|i: int, k: int|
        0 <= i < q.len() && 0 <= k < successors(edges, q[i]).len() implies q.take(i).contains(
        #[trigger] successors(edges, #[trigger] q[i])[k],
    ) by {
        if i < placed.len() {
            assert(q[i] == placed[i]);
            assert(q.take(i) =~= placed.take(i));
            assert(placed.take(i).contains(successors(edges, placed[i])[k]));
        } else {
            assert(q.take(i) =~= placed);
        }
    }
}

/// Topological order, providers before consumers. `None` on cycles.
/// Every node of the graph is in it.
pub fn topo_order(edges: &StrMap<Vec<String>>) -> (r: Option<Vec<String>>)
    ensures
        match r {
            Some(o) => order_of(edges@) == Some(o.deep_view()),
            None => order_of(edges@) is None,
        },
{
    let all = node_list(edges);
    let ghost v = all.deep_view();
    proof {
        text::in_order_sorted(nodes(edges@));
    }
    let mut order: Vec<String> = Vec::new();
    proof {
        assert(order.deep_view() =~= Seq::<Text>::empty());
    }
    loop
        invariant_except_break
            place(edges@, order.deep_view()) == place(edges@, Seq::empty()),
        invariant
            v == all.deep_view(),
            v == text::in_order(nodes(edges@)),
            text::ascending(v),
            v.to_set() == nodes(edges@),
            v.len() == nodes(edges@).len(),
            nodes(edges@).finite(),
            partial_order(edges@, order.deep_view()),
        ensures
            order.deep_view() == place(edges@, Seq::empty()),
        decreases nodes(edges@).len() - order.len(),
    {
        let ghost placed = order.deep_view();
        let ghost f = |n: Text| ready(edges@, placed, n);
        proof {
            partial_order_bound(edges@, placed);
        }
        let mut i: usize = 0;
        let mut found = false;
        while i < all.len() && !found
            invariant
                i <= all.len(),
                v == all.deep_view(),
                placed == order.deep_view(),
                f == (|n: Text| ready(edges@, placed, n)),
                forall|j: int| 0 <= j < i ==> !f(#[trigger] v[j]),
                found ==> i < all.len() && f(v[i as int]),
            decreases all.len() - i, (if found { 0nat } else { 1nat }),
        {
            let n = &all[i];
            assert(v[i as int] == n@);
            if !text::contains_text(&order, n) {
                match edges.get(n) {
                    Some(list) => {
                        found = all_in(list, &order);
                        assert(successors(edges@, n@) == list.deep_view());
                    },
                    None => {
                        found = true;
                    },
                }
            }
            if !found {
                assert(!ready(edges@, placed, v[i as int]));
                i += 1;
            }
        }
        if !found {
            proof {
                assert(ready_set(edges@, placed) =~= Set::<Text>::empty()) by {
                    assert forall|x: Text| !ready_set(edges@, placed).contains(x) by {
                        if nodes(edges@).contains(x) {
                            assert(v.to_set().contains(x));
                            let k = choose|k: int| 0 <= k < v.len() && v[k] == x;
                            assert(!f(v[k]));
                        }
                    }
                }
            }
            break;
        }
        proof {
            first_is_least(v, nodes(edges@), f, i as int);
            assert(nodes(edges@).filter(f) == ready_set(edges@, placed));
            if placed.len() == nodes(edges@).len() {
                assert(v.to_set().contains(v[i as int]));
                assert(placed.to_set().contains(v[i as int]));
            }
            partial_order_push(edges@, placed, v[i as int]);
        }
        order.push(all[i].clone());
        proof {
            assert(order.deep_view() =~= placed.push(v[i as int]));
            partial_order_bound(edges@, order.deep_view());
        }
    }
    if order.len() == all.len() {
        Some(order)
    } else {
        None
    }
}

// ---- dependents -------------------------------------------------------

/// Whether each node of `p` but the last depends on the next one.
pub open spec fn is_path(edges: Edges, p: Seq<Text>) -> bool {
    &&& p.len() >= 2
    &&& forall|i: int|
        0 <= i < p.len() - 1 ==> edges.dom().contains(#[trigger] p[i]) && edges[p[i]].contains(
            p[i + 1],
        )
}

/// Whether `c` depends on `target`, directly or through others.
pub open spec fn depends_on(edges: Edges, c: Text, target: Text) -> bool {
    exists|p: Seq<Text>| #[trigger] is_path(edges, p) && p[0] == c && p.last() == target
}

/// Everything but `target` that depends on it.
pub open spec fn dependents(edges: Edges, target: Text) -> Set<Text> {
    edges.dom().filter(|c: Text| c != target && depends_on(edges, c, target))
}

proof fn depends_direct(edges: Edges, c: Text, target: Text)
    requires
        edges.dom().contains(c),
        edges[c].contains(target),
    ensures
        depends_on(edges, c, target),
{
    let p = seq![c, target];
    assert(is_path(edges, p));
    assert(p.last() == target);
}

proof fn depends_further(edges: Edges, c: Text, d: Text, target: Text)
    requires
        edges.dom().contains(c),
        edges[c].contains(d),
        depends_on(edges, d, target),
    ensures
        depends_on(edges, c, target),
{
    let p = choose|p: Seq<Text>| #[trigger] is_path(edges, p) && p[0] == d && p.last() == target;
    let q = seq![c] + p;
    assert forall|i: int| 0 <= i < q.len() - 1 implies edges.dom().contains(#[trigger] q[i])
        && edges[q[i]].contains(q[i + 1]) by {
        if i > 0 {
            assert(q[i] == p[i - 1]);
            assert(q[i + 1] == p[i]);
        }
    }
    assert(is_path(edges, q));
    assert(q.last() == target);
}

proof fn closed_has_path(edges: Edges, seen: Set<Text>, p: Seq<Text>, i: int)
    requires
        is_path(edges, p),
        seen.contains(p.last()),
        forall|c: Text, d: Text|
            #![trigger edges[c].contains(d), seen.contains(c)]
            edges.dom().contains(c) && edges[c].contains(d) && seen.contains(d) ==> seen.contains(
                c,
            ),
        0 <= i < p.len(),
    ensures
        seen.contains(p[i]),
    decreases p.len() - i,
{
    if i < p.len() - 1 {
        closed_has_path(edges, seen, p, i + 1);
        assert(edges.dom().contains(p[i]) && edges[p[i]].contains(p[i + 1]));
    }
}

/// Whether one of `list` is `target` or in `set`.
fn touches(list: &Vec<String>, target: &str, set: &StrMap<bool>) -> (r: bool)
    ensures
        r == (exists|i: int|
            0 <= i < list.deep_view().len() && (#[trigger] list.deep_view()[i] == target@
                || set@.dom().contains(list.deep_view()[i]))),
{
    let ghost l = list.deep_view();
    let mut i: usize = 0;
    while i < list.len()
        invariant
            i <= list.len(),
            l == list.deep_view(),
            forall|j: int|
                0 <= j < i ==> #[trigger] l[j] != target@ && !set@.dom().contains(l[j]),
        decreases list.len() - i,
    {
        assert(l[i as int] == list[i as int]@);
        if text::same(&list[i], target) || set.contains(&list[i]) {
            return true;
        }
        i += 1;
    }
    false
}

/// Transitive consumers of `target` in ascending order, without itself.
pub fn transitive_consumers(target: &str, edges: &StrMap<Vec<String>>) -> (r: Vec<String>)
    ensures
        r.deep_view() == text::in_order(dependents(edges@, target@)),
{
    let n = edges.len();
    let ghost ks = text::in_order(edges@.dom());
    proof {
        text::in_order_sorted(edges@.dom());
    }
    let mut out: StrMap<bool> = StrMap::new();
    let mut grew = true;
    while grew
        invariant
            n == ks.len(),
            ks == text::in_order(edges@.dom()),
            ks.to_set() == edges@.dom(),
            ks.len() == edges@.dom().len(),
            edges@.dom().finite(),
            out@.dom().subset_of(edges@.dom()),
            out@.dom().finite(),
            forall|c: Text| #[trigger]
                out@.dom().contains(c) ==> c != target@ && depends_on(edges@, c, target@),
            !grew ==> forall|k: int, d: Text|
                #![trigger edges@[ks[k]].contains(d)]
                0 <= k < n && edges@[ks[k]].contains(d) && (d == target@ || out@.dom().contains(d))
                    ==> ks[k] == target@ || out@.dom().contains(ks[k]),
        decreases edges@.dom().len() - out@.dom().len(), (if grew { 1nat } else { 0nat }),
    {
        grew = false;
        let ghost start = out@.dom();
        let mut i: usize = 0;
        while i < n
            invariant
                i <= n,
                n == ks.len(),
                ks == text::in_order(edges@.dom()),
                ks.to_set() == edges@.dom(),
                edges@.dom().finite(),
                out@.dom().subset_of(edges@.dom()),
                out@.dom().finite(),
                start.subset_of(out@.dom()),
                start.finite(),
                !grew ==> out@.dom() == start,
                grew ==> out@.dom().len() > start.len(),
                forall|c: Text| #[trigger]
                    out@.dom().contains(c) ==> c != target@ && depends_on(edges@, c, target@),
                !grew ==> forall|k: int, d: Text|
                    #![trigger edges@[ks[k]].contains(d)]
                    0 <= k < i && edges@[ks[k]].contains(d) && (d == target@
                        || out@.dom().contains(d)) ==> ks[k] == target@ || out@.dom().contains(
                        ks[k],
                    ),
            decreases n - i,
        {
            let c = edges.key_at(i);
            let list = edges.value_at(i);
            let known = text::same(c, target) || out.contains(c);
            if !known && touches(list, target, &out) {
                proof {
                    let l = list.deep_view();
                    let j = choose|j: int|
                        0 <= j < l.len() && (#[trigger] l[j] == target@ || out@.dom().contains(
                            l[j],
                        ));
                    assert(edges@[c@].contains(l[j]));
                    if l[j] == target@ {
                        depends_direct(edges@, c@, target@);
                    } else {
                        depends_further(edges@, c@, l[j], target@);
                    }
                    vstd::set_lib::lemma_len_subset(start, out@.dom());
                }
                out.insert(c, true);
                grew = true;
            } else {
                proof {
                    let l = list.deep_view();
                    assert forall|d: Text|
                        edges@[ks[i as int]].contains(d) && (d == target@ || out@.dom().contains(
                            d,
                        )) implies ks[i as int] == target@ || out@.dom().contains(
                        ks[i as int],
                    ) by {
                        let j = choose|j: int| 0 <= j < l.len() && l[j] == d;
                        assert(l[j] == d);
                    }
                }
            }
            i += 1;
        }
        proof {
            vstd::set_lib::lemma_len_subset(out@.dom(), edges@.dom());
            vstd::set_lib::lemma_len_subset(start, edges@.dom());
        }
    }
    proof {
        let goal = dependents(edges@, target@);
        let seen = out@.dom().insert(target@);
        assert forall|c: Text, d: Text|
            #![trigger edges@[c].contains(d), seen.contains(c)]
            edges@.dom().contains(c) && edges@[c].contains(d) && seen.contains(d) implies seen.contains(
            c,
        ) by {
            assert(ks.to_set().contains(c));
            let k = choose|k: int| 0 <= k < ks.len() && ks[k] == c;
            assert(edges@[ks[k]].contains(d));
        }
        assert forall|c: Text| goal.contains(c) implies out@.dom().contains(c) by {
            let p = choose|p: Seq<Text>| #[trigger]
                is_path(edges@, p) && p[0] == c && p.last() == target@;
            closed_has_path(edges@, seen, p, 0);
        }
        assert(out@.dom() =~= goal);
    }
    out.keys()
}

// ---- laws -------------------------------------------------------------

/// A path that ends where it begins and meets no other node twice.
pub open spec fn is_cycle(edges: Edges, p: Seq<Text>) -> bool {
    &&& is_path(edges, p)
    &&& p[0] == p.last()
    &&& p.drop_last().no_duplicates()
}

/// No cycle among the dependencies.
pub open spec fn acyclic(edges: Edges) -> bool {
    forall|p: Seq<Text>| !#[trigger] is_cycle(edges, p)
}

/// The trail of a walk: distinct nodes, each depending on the next.
spec fn trail(edges: Edges, path: Seq<Text>) -> bool {
    &&& path.no_duplicates()
    &&& forall|i: int|
        0 <= i < path.len() - 1 ==> edges.dom().contains(#[trigger] path[i])
            && edges[path[i]].contains(path[i + 1])
}

spec fn walk_ok(edges: Edges, done: Seq<Text>, path: Seq<Text>) -> bool {
    &&& edges.dom().finite()
    &&& trail(edges, path)
    &&& settled(edges, done)
    &&& forall|i: int| 0 <= i < path.len() ==> !done.contains(#[trigger] path[i])
}

proof fn trail_bound(edges: Edges, path: Seq<Text>)
    requires
        edges.dom().finite(),
        path.no_duplicates(),
        forall|i: int| 0 <= i < path.len() ==> edges.dom().contains(#[trigger] path[i]),
    ensures
        path.len() <= edges.dom().len(),
{
    path.unique_seq_to_set();
    assert forall|x: Text| path.to_set().contains(x) implies edges.dom().contains(x) by {
        let k = choose|k: int| 0 <= k < path.len() && path[k] == x;
    }
    vstd::set_lib::lemma_len_subset(path.to_set(), edges.dom());
}

proof fn walk_node_sound(edges: Edges, node: Text, done: Seq<Text>, path: Seq<Text>)
    requires
        walk_ok(edges, done, path),
        !path.contains(node),
        !done.contains(node),
        path.len() > 0 ==> edges.dom().contains(path.last()) && edges[path.last()].contains(node),
    ensures
        match walk_node(edges, node, done, path) {
            Walk::Cycle(c) => is_cycle(edges, c),
            Walk::Done(d) => {
                &&& walk_ok(edges, d, path)
                &&& done.is_prefix_of(d)
                &&& d.contains(node)
            },
        },
    decreases edges.dom().len() + 1 - path.len(), 0nat,
{
    assert forall|i: int| 0 <= i < path.len() implies edges.dom().contains(#[trigger] path[i]) by {
        if i == path.len() - 1 {
            assert(path[i] == path.last());
        }
    }
    trail_bound(edges, path);
    let p = path.push(node);
    assert(trail(edges, p)) by {
        assert forall|i: int| 0 <= i < p.len() - 1 implies edges.dom().contains(#[trigger] p[i])
            && edges[p[i]].contains(p[i + 1]) by {
            if i < path.len() - 1 {
                assert(edges.dom().contains(path[i]) && edges[path[i]].contains(path[i + 1]));
            } else {
                assert(p[i] == path.last());
            }
        }
        assert forall|i: int, j: int| 0 <= i < p.len() && 0 <= j < p.len() && i != j implies p[i]
            != p[j] by {
            if i < path.len() {
                assert(path.contains(path[i]));
            }
            if j < path.len() {
                assert(path.contains(path[j]));
            }
        }
    }
    assert forall|i: int| 0 <= i < p.len() implies !done.contains(#[trigger] p[i]) by {
        if i < path.len() {
            assert(!done.contains(path[i]));
        }
    }
    assert(p.last() == node);
    walk_list_sound(edges, successors(edges, node), done, p);
    if let Walk::Done(d) = walk_list(edges, successors(edges, node), done, p) {
        let e = d.push(node);
        assert(settled(edges, e)) by {
            assert forall|i: int, k: int|
                0 <= i < e.len() && 0 <= k < successors(
                    edges,
                    e[i],
                ).len() implies e.take(i).contains(
                #[trigger] successors(edges, #[trigger] e[i])[k],
            ) by {
                if i < d.len() {
                    assert(e[i] == d[i]);
                    assert(e.take(i) =~= d.take(i));
                    assert(d.take(i).contains(successors(edges, d[i])[k]));
                } else {
                    assert(e.take(i) =~= d);
                    assert(d.contains(successors(edges, node)[k]));
                }
            }
        }
        assert(e[d.len() as int] == node);
        assert forall|i: int| 0 <= i < path.len() implies !e.contains(#[trigger] path[i]) by {
            assert(p[i] == path[i]);
            assert(!d.contains(p[i]));
            assert(path.contains(path[i]));
            if e.contains(path[i]) {
                let k = choose|k: int| 0 <= k < e.len() && e[k] == path[i];
                if k < d.len() {
                    assert(d[k] == path[i]);
                }
            }
        }
        assert(trail(edges, path));
        assert(done.is_prefix_of(e)) by {
            assert(done =~= e.subrange(0, done.len() as int)) by {
                assert(done =~= d.subrange(0, done.len() as int));
            }
        }
    }
}

proof fn walk_list_sound(edges: Edges, list: Seq<Text>, done: Seq<Text>, path: Seq<Text>)
    requires
        walk_ok(edges, done, path),
        path.len() > 0 && list.len() > 0 ==> edges.dom().contains(path.last()) && forall|i: int|
            0 <= i < list.len() ==> edges[path.last()].contains(#[trigger] list[i]),
    ensures
        match walk_list(edges, list, done, path) {
            Walk::Cycle(c) => is_cycle(edges, c),
            Walk::Done(d) => {
                &&& walk_ok(edges, d, path)
                &&& done.is_prefix_of(d)
                &&& forall|i: int| 0 <= i < list.len() ==> d.contains(#[trigger] list[i])
            },
        },
    decreases edges.dom().len() + 1 - path.len(), list.len(),
{
    if list.len() == 0 {
        assert(done =~= done.subrange(0, done.len() as int));
    } else {
        let n = list[0];
        let rest = list.drop_first();
        assert forall|i: int| path.len() > 0 && 0 <= i < rest.len() implies edges[path.last()].contains(
            #[trigger] rest[i],
        ) by {
            assert(edges[path.last()].contains(list[i + 1]));
        }
        if path.contains(n) {
            path.index_of_first_ensures(n);
            let at = path.index_of_first(n)->0;
            let c = path.skip(at).push(n);
            assert forall|i: int| 0 <= i < c.len() - 1 implies edges.dom().contains(
                #[trigger] c[i],
            ) && edges[c[i]].contains(c[i + 1]) by {
                assert(c[i] == path[at + i]);
                if i < c.len() - 2 {
                    assert(c[i + 1] == path[at + i + 1]);
                } else {
                    assert(path[at + i] == path.last());
                    assert(c[i + 1] == n);
                }
            }
            assert(c.drop_last() =~= path.skip(at));
            assert(c[0] == n);
            assert(is_cycle(edges, c));
        } else {
            let d = if done.contains(n) {
                done
            } else {
                walk_node_sound(edges, n, done, path);
                match walk_node(edges, n, done, path) {
                    Walk::Cycle(_) => done,
                    Walk::Done(d) => d,
                }
            };
            let stop = !done.contains(n) && walk_node(edges, n, done, path) is Cycle;
            if !stop {
                walk_list_sound(edges, rest, d, path);
                if let Walk::Done(e) = walk_list(edges, rest, d, path) {
                    assert(done =~= e.subrange(0, done.len() as int)) by {
                        if done.contains(n) {
                        } else {
                            assert(done =~= d.subrange(0, done.len() as int));
                        }
                        assert(d =~= e.subrange(0, d.len() as int));
                    }
                    assert forall|i: int| 0 <= i < list.len() implies e.contains(
                        #[trigger] list[i],
                    ) by {
                        if i == 0 {
                            assert(d.contains(n));
                            let k = choose|k: int| 0 <= k < d.len() && d[k] == n;
                            assert(e[k] == n) by {
                                assert(d =~= e.subrange(0, d.len() as int));
                            }
                        } else {
                            assert(rest[i - 1] == list[i]);
                        }
                    }
                }
            }
        }
    }
}

/// Along a path, the first positions in a settled list go down.
proof fn settled_descends(edges: Edges, done: Seq<Text>, p: Seq<Text>, i: int)
    requires
        settled(edges, done),
        is_path(edges, p),
        done.contains(p[0]),
        0 <= i < p.len(),
    ensures
        done.contains(p[i]),
        done.index_of_first(p[i])->0 + i <= done.index_of_first(p[0])->0,
    decreases i,
{
    if i > 0 {
        settled_descends(edges, done, p, i - 1);
        done.index_of_first_ensures(p[i - 1]);
        let a = done.index_of_first(p[i - 1])->0;
        assert(done[a] == p[i - 1]);
        assert(edges.dom().contains(p[i - 1]) && edges[p[i - 1]].contains(p[i - 1 + 1]));
        let list = edges[p[i - 1]];
        let k = choose|k: int| 0 <= k < list.len() && list[k] == p[i];
        assert(successors(edges, done[a])[k] == p[i]);
        assert(done.take(a).contains(p[i]));
        let b = choose|b: int| 0 <= b < a && done.take(a)[b] == p[i];
        assert(done[b] == p[i]);
        done.index_of_first_ensures(p[i]);
    }
}

proof fn settled_no_cycle(edges: Edges, done: Seq<Text>)
    requires
        settled(edges, done),
        forall|n: Text| edges.dom().contains(n) ==> #[trigger] done.contains(n),
    ensures
        acyclic(edges),
{
    assert forall|p: Seq<Text>| !#[trigger] is_cycle(edges, p) by {
        if is_cycle(edges, p) {
            assert(edges.dom().contains(p[0]));
            settled_descends(edges, done, p, p.len() - 1);
        }
    }
}

proof fn first_walk(edges: Edges)
    requires
        edges.dom().finite(),
    ensures
        match walk_list(edges, text::in_order(edges.dom()), Seq::empty(), Seq::empty()) {
            Walk::Cycle(c) => is_cycle(edges, c),
            Walk::Done(d) => {
                &&& settled(edges, d)
                &&& forall|n: Text| edges.dom().contains(n) ==> #[trigger] d.contains(n)
            },
        },
{
    let ks = text::in_order(edges.dom());
    text::in_order_sorted(edges.dom());
    walk_list_sound(edges, ks, Seq::empty(), Seq::empty());
    if let Walk::Done(d) = walk_list(edges, ks, Seq::empty(), Seq::empty()) {
        assert forall|n: Text| edges.dom().contains(n) implies #[trigger] d.contains(n) by {
            assert(ks.to_set().contains(n));
            let k = choose|k: int| 0 <= k < ks.len() && ks[k] == n;
            assert(d.contains(ks[k]));
        }
    }
}

/// A reported cycle is a cycle, and one is reported wherever there is one.
pub proof fn cycle_found_iff_any(edges: Edges)
    requires
        edges.dom().finite(),
    ensures
        first_cycle(edges) is None <==> acyclic(edges),
        first_cycle(edges) matches Some(p) ==> is_cycle(edges, p),
{
    first_walk(edges);
    match walk_list(edges, text::in_order(edges.dom()), Seq::empty(), Seq::empty()) {
        Walk::Cycle(c) => {
            assert(is_cycle(edges, c));
        },
        Walk::Done(d) => {
            settled_no_cycle(edges, d);
        },
    }
}

proof fn place_ok(edges: Edges, placed: Seq<Text>)
    requires
        nodes(edges).finite(),
        partial_order(edges, placed),
    ensures
        partial_order(edges, place(edges, placed)),
        place(edges, placed).len() == nodes(edges).len() || ready_set(edges, place(edges, placed))
            == Set::<Text>::empty(),
    decreases nodes(edges).len() - placed.len(),
{
    partial_order_bound(edges, placed);
    let rs = ready_set(edges, placed);
    if placed.len() < nodes(edges).len() && rs != Set::<Text>::empty() {
        nodes(edges).lemma_len_filter(|n: Text| ready(edges, placed, n));
        text::in_order_sorted(rs);
        assert(rs.len() > 0) by {
            if rs.len() == 0 {
                assert(rs =~= Set::<Text>::empty());
            }
        }
        let n = text::in_order(rs)[0];
        assert(text::in_order(rs).to_set().contains(n));
        partial_order_push(edges, placed, n);
        place_ok(edges, placed.push(n));
    }
}

/// An order exists exactly where there is no cycle; it holds every node once,
/// each after everything it depends on.
pub proof fn order_iff_acyclic(edges: Edges)
    requires
        edges.dom().finite(),
        nodes(edges).finite(),
    ensures
        order_of(edges) is Some <==> acyclic(edges),
        order_of(edges) matches Some(o) ==> {
            &&& o.no_duplicates()
            &&& o.to_set() == nodes(edges)
            &&& settled(edges, o)
        },
{
    let o = place(edges, Seq::empty());
    assert(partial_order(edges, Seq::<Text>::empty())) by {
        assert(Seq::<Text>::empty().to_set() =~= Set::<Text>::empty());
    }
    place_ok(edges, Seq::empty());
    partial_order_bound(edges, o);
    if o.len() == nodes(edges).len() {
        assert forall|n: Text| edges.dom().contains(n) implies #[trigger] o.contains(n) by {
            assert(nodes(edges).contains(n));
            assert(o.to_set().contains(n));
        }
        settled_no_cycle(edges, o);
    } else if acyclic(edges) {
        first_walk(edges);
        cycle_found_iff_any(edges);
        let d = walk_list(edges, text::in_order(edges.dom()), Seq::empty(), Seq::empty())->Done_0;
        unplaced_is_ready(edges, d, o);
    }
}

/// While some node is not placed, one is ready, if the graph has a settled
/// list of all its nodes.
proof fn unplaced_is_ready(edges: Edges, d: Seq<Text>, o: Seq<Text>)
    requires
        nodes(edges).finite(),
        settled(edges, d),
        forall|n: Text| edges.dom().contains(n) ==> #[trigger] d.contains(n),
        partial_order(edges, o),
        o.len() != nodes(edges).len(),
    ensures
        ready_set(edges, o) != Set::<Text>::empty(),
{
    assert forall|n: Text| nodes(edges).contains(n) implies #[trigger] d.contains(n) by {
        if !edges.dom().contains(n) {
            let c = choose|c: Text| #[trigger] edges.dom().contains(c) && edges[c].contains(n);
            assert(d.contains(c));
            let a = choose|a: int| 0 <= a < d.len() && d[a] == c;
            let k = choose|k: int| 0 <= k < edges[c].len() && edges[c][k] == n;
            assert(successors(edges, d[a])[k] == n);
            assert(d.take(a).contains(n));
            let b = choose|b: int| 0 <= b < a && d.take(a)[b] == n;
            assert(d[b] == n);
        }
    }
    let left = nodes(edges).difference(o.to_set());
    assert(exists|n: Text| left.contains(n)) by {
        if forall|n: Text| !left.contains(n) {
            assert forall|x: Text| nodes(edges).contains(x) implies o.to_set().contains(x) by {
                assert(!left.contains(x));
            }
            assert(o.to_set() =~= nodes(edges));
            o.unique_seq_to_set();
        }
    }
    let n0 = choose|n: Text| left.contains(n);
    d.index_of_first_ensures(n0);
    least_unplaced(edges, d, o, d.index_of_first(n0)->0);
}

proof fn least_unplaced(edges: Edges, d: Seq<Text>, o: Seq<Text>, i: int)
    requires
        settled(edges, d),
        0 <= i < d.len(),
        nodes(edges).contains(d[i]),
        !o.contains(d[i]),
    ensures
        ready_set(edges, o) != Set::<Text>::empty(),
    decreases i,
{
    let n = d[i];
    if ready(edges, o, n) {
        assert(ready_set(edges, o).contains(n));
    } else {
        let k = choose|k: int|
            0 <= k < successors(edges, n).len() && !o.contains(
                #[trigger] successors(edges, n)[k],
            );
        let m = successors(edges, d[i])[k];
        assert(d.take(i).contains(m));
        let b = choose|b: int| 0 <= b < i && d.take(i)[b] == m;
        assert(d[b] == m);
        assert(edges.dom().contains(n) && edges[n].contains(m));
        assert(nodes(edges).contains(m));
        least_unplaced(edges, d, o, b);
    }
}

} // verus!
