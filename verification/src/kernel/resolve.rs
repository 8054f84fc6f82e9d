//! Resolving requirements to bindings, and checking that bindings still hold.

use vstd::prelude::*;
use vstd::string::*;
use crate::context::{ContextRecord, ContextV};
use crate::deps::{Binding, BindingV, Requirement, RequirementV, ResolveError, ResolveErrorV};
use crate::fsm::Fsm;
use crate::graph;
use crate::graph::Edges;
use crate::kernel::{Kernel, KernelV};
use crate::manifest::{ManifestV, StoredManifest};
use crate::strmap::StrMap;
use crate::text;
use crate::text::Text;

verus! {

pub type Definitions = Map<Text, ManifestV>;

/// What each definition provides.
pub open spec fn provides_of(defs: Definitions) -> Map<Text, Seq<Text>> {
    defs.map_values(|d: ManifestV| d.caps)
}

/// What each definition requires.
pub open spec fn requires_of(defs: Definitions) -> Map<Text, Seq<RequirementV>> {
    defs.map_values(|d: ManifestV| d.requires)
}

/// The dependency graph of the definitions.
pub open spec fn edges(defs: Definitions) -> Edges {
    graph::edges_of(requires_of(defs), provides_of(defs))
}

/// A state with its cause, as reasons show it.
pub open spec fn shown_state(c: ContextV) -> Text {
    match c.cause {
        Some(why) => c.state.name() + " ("@ + why + ")"@,
        None => c.state.name(),
    }
}

/// The binding of an interface to the activation of a provider.
pub open spec fn bind_to(interface: Text, provider: Text, states: Map<Text, ContextV>) -> Result<
    BindingV,
    ResolveErrorV,
> {
    if !states.dom().contains(provider) {
        Err(ResolveErrorV::ProviderNotActive { interface, provider, state: "unknown"@ })
    } else if states[provider].state.canon() != Fsm::Active {
        Err(
            ResolveErrorV::ProviderNotActive {
                interface,
                provider,
                state: shown_state(states[provider]),
            },
        )
    } else {
        Ok(
            BindingV {
                interface,
                provider_logical: provider,
                provider_instance: states[provider].instance.0,
                provider_generation: states[provider].generation,
            },
        )
    }
}

/// The binding of one requirement: the named provider, which must exist and
/// offer it, or else the single candidate.
pub open spec fn bind_one(
    req: RequirementV,
    defs: Definitions,
    states: Map<Text, ContextV>,
) -> Result<BindingV, ResolveErrorV> {
    match req.provider {
        Some(p) => if !defs.dom().contains(p) {
            Err(ResolveErrorV::UnknownProvider { interface: req.interface, provider: p })
        } else if !graph::offers(defs[p].caps, req) {
            Err(
                ResolveErrorV::VersionMismatch {
                    interface: req.interface,
                    provider: p,
                    detail: p + " provides ["@ + text::joined(defs[p].caps, ", "@) + "]"@,
                },
            )
        } else {
            bind_to(req.interface, p, states)
        },
        None => {
            let cands = text::in_order(graph::offering(req, provides_of(defs)));
            if cands.len() == 0 {
                Err(ResolveErrorV::Missing { interface: req.interface })
            } else if cands.len() > 1 {
                Err(ResolveErrorV::Ambiguous { interface: req.interface, providers: cands })
            } else {
                bind_to(req.interface, cands[0], states)
            }
        },
    }
}

/// The bindings of requirements in turn; the first failure is reported.
pub open spec fn bind_all(
    reqs: Seq<RequirementV>,
    defs: Definitions,
    states: Map<Text, ContextV>,
) -> Result<Seq<BindingV>, ResolveErrorV>
    decreases reqs.len(),
{
    if reqs.len() == 0 {
        Ok(Seq::empty())
    } else {
        match bind_all(reqs.drop_last(), defs, states) {
            Err(e) => Err(e),
            Ok(bs) => match bind_one(reqs.last(), defs, states) {
                Err(e) => Err(e),
                Ok(b) => Ok(bs.push(b)),
            },
        }
    }
}

/// The bindings of everything that a definition requires.
pub open spec fn resolved(logical: Text, defs: Definitions, states: Map<Text, ContextV>) -> Result<
    Seq<BindingV>,
    ResolveErrorV,
> {
    if !defs.dom().contains(logical) {
        Err(ResolveErrorV::Missing { interface: logical })
    } else {
        bind_all(defs[logical].requires, defs, states)
    }
}

/// Whether a binding points at the provider's current, active activation.
pub open spec fn binding_holds(b: BindingV, states: Map<Text, ContextV>) -> bool {
    &&& states.dom().contains(b.provider_logical)
    &&& states[b.provider_logical].state.canon() == Fsm::Active
    &&& states[b.provider_logical].instance.0 == b.provider_instance
    &&& states[b.provider_logical].generation == b.provider_generation
}

/// The least of the definitions that declare exactly this capability.
pub open spec fn owner_of(defs: Definitions, cap: Text) -> Option<Text> {
    let s = defs.dom().filter(|l: Text| defs[l].caps.contains(cap));
    if s == Set::<Text>::empty() {
        None
    } else {
        Some(text::in_order(s)[0])
    }
}

impl KernelV {
    /// Whether a binding of the latest instance no longer holds.
    pub open spec fn bindings_stale(self, logical: Text, states: Map<Text, ContextV>) -> bool {
        match self.plugin(logical) {
            Some(p) => exists|i: int|
                0 <= i < p.bindings.len() && !binding_holds(#[trigger] p.bindings[i], states),
            None => false,
        }
    }
}

proof fn bind_all_fails(
    reqs: Seq<RequirementV>,
    defs: Definitions,
    states: Map<Text, ContextV>,
    i: int,
)
    requires
        0 <= i <= reqs.len(),
        bind_all(reqs.take(i), defs, states) is Err,
    ensures
        bind_all(reqs, defs, states) == bind_all(reqs.take(i), defs, states),
    decreases reqs.len() - i,
{
    if i < reqs.len() {
        assert(reqs.take(i + 1).drop_last() =~= reqs.take(i));
        bind_all_fails(reqs, defs, states, i + 1);
    } else {
        assert(reqs.take(i) =~= reqs);
    }
}

/// What each definition provides.
pub fn provides_map(defs: &StrMap<StoredManifest>) -> (r: StrMap<Vec<String>>)
    ensures
        r@ == provides_of(defs@),
{
    let mut out: StrMap<Vec<String>> = StrMap::new();
    let n = defs.len();
    let ghost ks = text::in_order(defs@.dom());
    proof {
        text::in_order_sorted(defs@.dom());
    }
    let mut i: usize = 0;
    while i < n
        invariant
            i <= n,
            n == ks.len(),
            ks == text::in_order(defs@.dom()),
            ks.to_set() == defs@.dom(),
            forall|k: Text| #[trigger]
                out@.dom().contains(k) <==> ks.take(i as int).to_set().contains(k),
            forall|k: Text| #[trigger]
                out@.dom().contains(k) ==> defs@.dom().contains(k) && out@[k] == defs@[k].caps,
        decreases n - i,
    {
        proof {
            text::take_grows(ks, i as int);
        }
        out.insert(defs.key_at(i), text::copy_texts(&defs.value_at(i).caps));
        i += 1;
    }
    proof {
        assert(ks.take(ks.len() as int) =~= ks);
        assert(out@ =~= provides_of(defs@));
    }
    out
}

/// What each definition requires.
pub fn requires_map(defs: &StrMap<StoredManifest>) -> (r: StrMap<Vec<Requirement>>)
    ensures
        r@ == requires_of(defs@),
{
    let mut out: StrMap<Vec<Requirement>> = StrMap::new();
    let n = defs.len();
    let ghost ks = text::in_order(defs@.dom());
    proof {
        text::in_order_sorted(defs@.dom());
    }
    let mut i: usize = 0;
    while i < n
        invariant
            i <= n,
            n == ks.len(),
            ks == text::in_order(defs@.dom()),
            ks.to_set() == defs@.dom(),
            forall|k: Text| #[trigger]
                out@.dom().contains(k) <==> ks.take(i as int).to_set().contains(k),
            forall|k: Text| #[trigger]
                out@.dom().contains(k) ==> defs@.dom().contains(k) && out@[k] == defs@[k].requires,
        decreases n - i,
    {
        proof {
            text::take_grows(ks, i as int);
        }
        out.insert(defs.key_at(i), crate::deps::copy_requirements(&defs.value_at(i).requires));
        i += 1;
    }
    proof {
        assert(ks.take(ks.len() as int) =~= ks);
        assert(out@ =~= requires_of(defs@));
    }
    out
}

/// The dependency graph of the definitions.
pub fn definition_edges(defs: &StrMap<StoredManifest>) -> (r: StrMap<Vec<String>>)
    ensures
        r@ == edges(defs@),
{
    graph::graph_edges(&requires_map(defs), &provides_map(defs))
}

/// The outcome of resolving, as the contracts see it.
pub open spec fn resolution(r: Result<Vec<Binding>, ResolveError>) -> Result<
    Seq<BindingV>,
    ResolveErrorV,
> {
    match r {
        Ok(b) => Ok(b.deep_view()),
        Err(e) => Err(e@),
    }
}

fn bind_to_provider(interface: &str, provider: &str, states: &StrMap<ContextRecord>) -> (r: Result<
    Binding,
    ResolveError,
>)
    ensures
        match r {
            Ok(b) => bind_to(interface@, provider@, states@) == Ok::<BindingV, ResolveErrorV>(b@),
            Err(e) => bind_to(interface@, provider@, states@) == Err::<BindingV, ResolveErrorV>(
                e@,
            ),
        },
{
    match states.get(provider) {
        None => Err(
            ResolveError::ProviderNotActive {
                interface: interface.to_owned(),
                provider: provider.to_owned(),
                state: "unknown".to_owned(),
            },
        ),
        Some(st) => {
            if st.state.canonical() != Fsm::Active {
                let mut state = st.state.as_str().to_owned();
                if let Some(c) = &st.cause {
                    state.append(" (");
                    state.append(c);
                    state.append(")");
                }
                return Err(
                    ResolveError::ProviderNotActive {
                        interface: interface.to_owned(),
                        provider: provider.to_owned(),
                        state,
                    },
                );
            }
            Ok(
                Binding {
                    interface: interface.to_owned(),
                    provider_logical: provider.to_owned(),
                    provider_instance: st.instance.0,
                    provider_generation: st.generation,
                },
            )
        },
    }
}

fn bind_requirement(
    req: &Requirement,
    defs: &StrMap<StoredManifest>,
    provides: &StrMap<Vec<String>>,
    states: &StrMap<ContextRecord>,
) -> (r: Result<Binding, ResolveError>)
    requires
        provides@ == provides_of(defs@),
    ensures
        match r {
            Ok(b) => bind_one(req@, defs@, states@) == Ok::<BindingV, ResolveErrorV>(b@),
            Err(e) => bind_one(req@, defs@, states@) == Err::<BindingV, ResolveErrorV>(e@),
        },
{
    match &req.provider {
        Some(p) => match defs.get(p) {
            None => Err(
                ResolveError::UnknownProvider {
                    interface: req.interface.clone(),
                    provider: p.clone(),
                },
            ),
            Some(pdef) => {
                if !graph::any_satisfies(&pdef.caps, req) {
                    let mut detail = text::join2(p, " provides [");
                    let list = text::join(&pdef.caps, ", ");
                    detail.append(&list);
                    detail.append("]");
                    return Err(
                        ResolveError::VersionMismatch {
                            interface: req.interface.clone(),
                            provider: p.clone(),
                            detail,
                        },
                    );
                }
                bind_to_provider(&req.interface, p, states)
            },
        },
        None => {
            let cands = graph::provider_candidates(req, provides);
            if cands.len() == 0 {
                return Err(ResolveError::Missing { interface: req.interface.clone() });
            }
            if cands.len() > 1 {
                return Err(
                    ResolveError::Ambiguous {
                        interface: req.interface.clone(),
                        providers: cands,
                    },
                );
            }
            assert(cands.deep_view()[0] == cands[0]@);
            bind_to_provider(&req.interface, &cands[0], states)
        },
    }
}

/// Resolves the bindings of one logical id against definitions and current
/// states. Ambiguity, versions and absent providers become an error with a
/// visible reason, never "last wins".
pub fn resolve_for(
    logical: &str,
    defs: &StrMap<StoredManifest>,
    states: &StrMap<ContextRecord>,
) -> (r: Result<Vec<Binding>, ResolveError>)
    ensures
        resolution(r) == resolved(logical@, defs@, states@),
{
    let def = match defs.get(logical) {
        Some(d) => d,
        None => return Err(ResolveError::Missing { interface: logical.to_owned() }),
    };
    let provides = provides_map(defs);
    let ghost reqs = def@.requires;
    let mut out: Vec<Binding> = Vec::new();
    let mut i: usize = 0;
    proof {
        assert(reqs.take(0) =~= Seq::<RequirementV>::empty());
        assert(out.deep_view() =~= Seq::<BindingV>::empty());
    }
    while i < def.requires.len()
        invariant
            i <= def.requires.len(),
            reqs == def.requires.deep_view(),
            provides@ == provides_of(defs@),
            resolved(logical@, defs@, states@) == bind_all(reqs, defs@, states@),
            bind_all(reqs.take(i as int), defs@, states@) == Ok::<Seq<BindingV>, ResolveErrorV>(
                out.deep_view(),
            ),
        decreases def.requires.len() - i,
    {
        proof {
            assert(reqs.take(i + 1).drop_last() =~= reqs.take(i as int));
            assert(reqs.take(i + 1).last() == def.requires[i as int]@);
        }
        match bind_requirement(&def.requires[i], defs, &provides, states) {
            Ok(b) => {
                let ghost before = out.deep_view();
                let ghost bv = b@;
                out.push(b);
                assert(out.deep_view() =~= before.push(bv));
            },
            Err(e) => {
                proof {
                    bind_all_fails(reqs, defs@, states@, i + 1);
                }
                return Err(e);
            },
        }
        i += 1;
    }
    proof {
        assert(reqs.take(reqs.len() as int) =~= reqs);
    }
    Ok(out)
}

fn holds(b: &Binding, states: &StrMap<ContextRecord>) -> (r: bool)
    ensures
        r == binding_holds(b@, states@),
{
    match states.get(&b.provider_logical) {
        Some(st) => st.state.canonical() == Fsm::Active && st.instance.0 == b.provider_instance
            && st.generation == b.provider_generation,
        None => false,
    }
}

impl Kernel {
    /// Whether a binding of the latest instance no longer holds.
    pub(crate) fn bindings_stale(&self, logical: &str, states: &StrMap<ContextRecord>) -> (r: bool)
        ensures
            r == self@.bindings_stale(logical@, states@),
    {
        match self.plugins.get(logical) {
            None => false,
            Some(p) => {
                let ghost bs = p@.bindings;
                let mut i: usize = 0;
                while i < p.bindings.len()
                    invariant
                        i <= p.bindings.len(),
                        bs == p.bindings.deep_view(),
                        self@.plugin(logical@) == Some(p@),
                        bs == p@.bindings,
                        forall|j: int| 0 <= j < i ==> binding_holds(#[trigger] bs[j], states@),
                    decreases p.bindings.len() - i,
                {
                    assert(bs[i as int] == p.bindings[i as int]@);
                    if !holds(&p.bindings[i], states) {
                        return true;
                    }
                    i += 1;
                }
                false
            },
        }
    }

    /// The least of the definitions that declare exactly this capability.
    pub(crate) fn owner_of(&self, cap: &str) -> (r: Option<String>)
        ensures
            r.deep_view() == owner_of(self@.definitions, cap@),
    {
        let ghost defs = self@.definitions;
        let ghost f = |l: Text| defs[l].caps.contains(cap@);
        let n = self.definitions.len();
        let ghost ks = text::in_order(defs.dom());
        proof {
            text::in_order_sorted(defs.dom());
        }
        let mut i: usize = 0;
        while i < n
            invariant
                i <= n,
                n == ks.len(),
                defs == self.definitions@,
                ks == text::in_order(defs.dom()),
                ks.to_set() == defs.dom(),
                text::ascending(ks),
                defs.dom().finite(),
                f == (|l: Text| defs[l].caps.contains(cap@)),
                forall|j: int| 0 <= j < i ==> !f(#[trigger] ks[j]),
            decreases n - i,
        {
            if text::contains_text(&self.definitions.value_at(i).caps, cap) {
                proof {
                    graph::first_is_least(ks, defs.dom(), f, i as int);
                }
                return Some(self.definitions.key_at(i).clone());
            }
            i += 1;
        }
        proof {
            assert(defs.dom().filter(f) =~= Set::<Text>::empty()) by {
                assert forall|l: Text| !defs.dom().filter(f).contains(l) by {
                    if defs.dom().contains(l) {
                        assert(ks.to_set().contains(l));
                        let j = choose|j: int| 0 <= j < ks.len() && ks[j] == l;
                        assert(!f(ks[j]));
                    }
                }
            }
        }
        None
    }
}

// ---- laws -------------------------------------------------------------

/// What is resolved holds: every binding points at an active activation of a
/// known definition, one per requirement, in order.
pub proof fn resolved_bindings_hold(
    reqs: Seq<RequirementV>,
    defs: Definitions,
    states: Map<Text, ContextV>,
)
    ensures
        bind_all(reqs, defs, states) matches Ok(bs) ==> {
            &&& bs.len() == reqs.len()
            &&& forall|i: int|
                0 <= i < bs.len() ==> binding_holds(#[trigger] bs[i], states) && bs[i].interface
                    == reqs[i].interface
        },
    decreases reqs.len(),
{
    if reqs.len() > 0 {
        resolved_bindings_hold(reqs.drop_last(), defs, states);
    }
}

/// A requirement without a named provider is never bound while two
/// definitions offer it.
pub proof fn ambiguity_is_never_bound(
    req: RequirementV,
    defs: Definitions,
    states: Map<Text, ContextV>,
    a: Text,
    b: Text,
)
    requires
        defs.dom().finite(),
        req.provider is None,
        a != b,
        graph::offering(req, provides_of(defs)).contains(a),
        graph::offering(req, provides_of(defs)).contains(b),
    ensures
        bind_one(req, defs, states) matches Err(ResolveErrorV::Ambiguous { .. }),
{
    let p = provides_of(defs);
    let s = graph::offering(req, p);
    assert(p.dom() =~= defs.dom());
    p.dom().lemma_len_filter(|l: Text| graph::offers(p[l], req));
    text::in_order_sorted(s);
    let w = text::in_order(s);
    assert(w.to_set().contains(a));
    assert(w.to_set().contains(b));
    let i = choose|i: int| 0 <= i < w.len() && w[i] == a;
    let j = choose|j: int| 0 <= j < w.len() && w[j] == b;
    assert(i != j);
}

} // verus!
