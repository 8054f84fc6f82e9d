//! What the host hears of activations and withdrawals, what a definition
//! depends on, what is kept from one generation to the next, and when a
//! parked instance ends.

use vstd::prelude::*;
use vstd::string::*;
use crate::calls::{TicketId, TicketV, WithdrawPolicy};
use crate::context::ContextV;
use crate::deps;
use crate::deps::{BindingV, RequirementV, ResolveErrorV};
use crate::external::{ExecutionV, LifecycleV};
use crate::fsm::Fsm;
use crate::graph;
use crate::identity::InstanceId;
use crate::json::JsonV;
use crate::kernel::changes;
use crate::kernel::laws;
use crate::kernel::lifetimes;
use crate::kernel::outcomes;
use crate::kernel::resolve;
use crate::kernel::resolve::Definitions;
use crate::kernel::KernelV;
use crate::manifest::ManifestV;
use crate::resources;
use crate::text;
use crate::text::Text;
use crate::time::Instant;

verus! {

// ---- the host ---------------------------------------------------------

/// The host hears of an activation of an external plugin, with its ids and
/// what to start; of one within the process it hears nothing.
pub proof fn hosts_hear_of_activations(
    k: KernelV,
    logical: Text,
    c: ContextV,
    bs: Seq<BindingV>,
    d: ManifestV,
)
    requires
        k.definitions.dom().contains(logical),
        k.definitions[logical] == d,
    ensures
        k.activated(logical, c, bs).events == match d.execution {
            ExecutionV::External { entrypoint, args, timeout_ms } => k.events.push(
                LifecycleV::Activated {
                    logical,
                    instance: c.instance.0,
                    generation: c.generation,
                    entrypoint,
                    args,
                    timeout_ms,
                },
            ),
            ExecutionV::InProcess => k.events,
        },
{
    let k1 = k.log(
        logical,
        "plugin.active"@,
        JsonV::object().with("id"@, crate::json::jstr(logical)).with(
            "instance"@,
            crate::json::jnum(c.instance.0),
        ).with("generation"@, crate::json::jnum(c.generation)).with(
            "bindings"@,
            crate::kernel::lifecycle::binding_entries(bs),
        ),
    ).announce(logical, c);
    if let Some(cur) = k1.contexts.get(c.instance.0) {
        if cur.logical == logical && cur.generation == c.generation {
            handles_make_no_noise(
                KernelV {
                    dep_bindings: crate::strmap::kept(
                        k1.dep_bindings,
                        |b: crate::kernel::DepBindingV| b.consumer_instance != c.instance,
                    ),
                    ..k1
                },
                logical,
                cur,
                bs,
            );
        }
    }
}

proof fn handles_make_no_noise(k: KernelV, logical: Text, cur: ContextV, bs: Seq<BindingV>)
    ensures
        k.issue_each(logical, cur, bs).events == k.events,
    decreases bs.len(),
{
    if bs.len() > 0 {
        handles_make_no_noise(k, logical, cur, bs.drop_last());
    }
}

/// The host hears once of the withdrawal of an activation, when its disposal
/// begins.
pub proof fn hosts_hear_of_withdrawals(k: KernelV, inst: InstanceId, now: Instant)
    requires
        k.begin_dispose(inst, now).1 is Draining,
    ensures
        ({
            let c = k.contexts.get(inst.0)->0;
            &&& k.contexts.get(inst.0) is Some
            &&& k.begin_dispose(inst, now).0.events == k.events.push(
                LifecycleV::Withdrawn {
                    logical: c.logical,
                    instance: inst.0,
                    generation: c.generation,
                },
            )
        }),
{
    let r = k.contexts.get(inst.0)->0;
    let (cs, claim) = k.contexts.claim(inst.0);
    let rec = r.in_state(Fsm::Quiescing, None);
    let k2 = k.with_contexts(cs).plugin_to(rec.logical, inst, Fsm::Quiescing).prune_bindings(
        inst,
    ).event(
        LifecycleV::Withdrawn {
            logical: rec.logical,
            instance: inst.0,
            generation: rec.generation,
        },
    );
    let hs = resources::handles_in(k2.resources.slots, rec.context);
    laws::unpublish_each_only_unpublishes(k2, hs, rec);
    let k3 = k2.unpublish_each(hs, rec);
    calls_make_no_noise(
        k3,
        rec.logical,
        crate::calls::select(k3.calls.tickets, crate::calls::WhichV::Of(inst)),
        now,
    );
}

proof fn calls_make_no_noise(k: KernelV, logical: Text, ts: Seq<TicketV>, now: Instant)
    ensures
        k.withdraw_calls(logical, ts, now).0.events == k.events,
    decreases ts.len(),
{
    if ts.len() > 0 {
        calls_make_no_noise(k, logical, ts.drop_last(), now);
    }
}

/// The host hears of the removal of a definition.
pub proof fn hosts_hear_of_removals(k: KernelV, id: Text)
    ensures
        k.dispose_plugin(id).0.events == k.events.push(LifecycleV::Removed { logical: id }),
        !k.dispose_plugin(id).0.definitions.dom().contains(id),
        !k.dispose_plugin(id).0.remotes.dom().contains(id),
{
}

// ---- dependencies -----------------------------------------------------

/// Whether `p` is what the requirement is about: the provider that it names,
/// or else one of the definitions that offer a capability of it.
pub open spec fn is_wanted(defs: Definitions, r: RequirementV, p: Text) -> bool {
    match r.provider {
        Some(q) => p == q,
        None => defs.dom().contains(p) && exists|j: int|
            0 <= j < defs[p].caps.len() && deps::satisfies(#[trigger] defs[p].caps[j], r),
    }
}

/// A definition depends on exactly what its requirements are about.
pub proof fn edges_lead_to_providers(defs: Definitions, l: Text, p: Text)
    requires
        defs.dom().finite(),
        defs.dom().contains(l),
    ensures
        resolve::edges(defs).dom().contains(l),
        resolve::edges(defs)[l].contains(p) <==> exists|i: int|
            0 <= i < defs[l].requires.len() && is_wanted(
                defs,
                #[trigger] defs[l].requires[i],
                p,
            ),
{
    let provides = resolve::provides_of(defs);
    let reqs = defs[l].requires;
    let s = graph::needed(reqs, provides);
    needs_are_finite(defs, reqs);
    text::in_order_sorted(s);
    assert(resolve::edges(defs)[l] == text::in_order(s));
    assert(text::in_order(s).to_set().contains(p) <==> s.contains(p));
    assert forall|i: int| 0 <= i < reqs.len() implies graph::needs(
        #[trigger] reqs[i],
        provides,
        p,
    ) == is_wanted(defs, reqs[i], p) by {
        wants_are_needs(defs, reqs[i], p);
    }
    if s.contains(p) {
        let i = choose|i: int| 0 <= i < reqs.len() && graph::needs(#[trigger] reqs[i], provides, p);
        assert(is_wanted(defs, reqs[i], p));
    }
    if exists|i: int| 0 <= i < reqs.len() && is_wanted(defs, #[trigger] reqs[i], p) {
        let i = choose|i: int| 0 <= i < reqs.len() && is_wanted(defs, #[trigger] reqs[i], p);
        assert(graph::needs(reqs[i], provides, p));
    }
}

proof fn wants_are_needs(defs: Definitions, r: RequirementV, p: Text)
    ensures
        graph::needs(r, resolve::provides_of(defs), p) == is_wanted(defs, r, p),
{
    let provides = resolve::provides_of(defs);
    if r.provider is None && defs.dom().contains(p) {
        assert(provides[p] == defs[p].caps);
        if graph::offers(provides[p], r) {
            let j = choose|j: int|
                0 <= j < provides[p].len() && deps::satisfies(#[trigger] provides[p][j], r);
            assert(deps::satisfies(defs[p].caps[j], r));
        }
        if exists|j: int|
            0 <= j < defs[p].caps.len() && deps::satisfies(#[trigger] defs[p].caps[j], r) {
            let j = choose|j: int|
                0 <= j < defs[p].caps.len() && deps::satisfies(#[trigger] defs[p].caps[j], r);
            assert(deps::satisfies(provides[p][j], r));
        }
    }
}

proof fn needs_are_finite(defs: Definitions, reqs: Seq<RequirementV>)
    requires
        defs.dom().finite(),
    ensures
        graph::needed(reqs, resolve::provides_of(defs)).finite(),
    decreases reqs.len(),
{
    let provides = resolve::provides_of(defs);
    let s = graph::needed(reqs, provides);
    if reqs.len() == 0 {
        assert(s =~= Set::empty());
    } else {
        let d = reqs.drop_last();
        let r = reqs.last();
        needs_are_finite(defs, d);
        let t = graph::needed(d, provides);
        let more = match r.provider {
            Some(q) => Set::empty().insert(q),
            None => defs.dom(),
        };
        assert(s.subset_of(t.union(more))) by {
            assert forall|p: Text| s.contains(p) implies #[trigger] t.union(more).contains(p) by {
                let i = choose|i: int|
                    0 <= i < reqs.len() && graph::needs(#[trigger] reqs[i], provides, p);
                if i < d.len() {
                    assert(graph::needs(d[i], provides, p));
                } else {
                    wants_are_needs(defs, r, p);
                }
            }
        }
        vstd::set_lib::lemma_set_subset_finite(t.union(more), s);
    }
}

/// Why a requirement is not bound: its provider is not defined, offers no
/// version of it or is not active; or, where it names none, nobody offers it
/// or several do.
pub proof fn unbound_requirements_say_why(
    req: RequirementV,
    defs: Definitions,
    states: Map<Text, ContextV>,
    p: Text,
    q: Text,
)
    requires
        defs.dom().finite(),
    ensures
        ({
            let r = resolve::bind_one(req, defs, states);
            let e = r->Err_0;
            &&& req.provider == Some(p) && !defs.dom().contains(p) ==> r is Err && e
                == (ResolveErrorV::UnknownProvider { interface: req.interface, provider: p })
            &&& req.provider == Some(p) && defs.dom().contains(p) && !changes::offered_by(
                defs,
                p,
                req,
            ) ==> r is Err && e is VersionMismatch
            &&& req.provider == Some(p) && changes::offered_by(defs, p, req) && !(
            states.dom().contains(p) && states[p].state.canon() == Fsm::Active) ==> r is Err
                && e is ProviderNotActive
            &&& req.provider is None && (forall|x: Text| !#[trigger] changes::offered_by(
                defs,
                x,
                req,
            )) ==> r is Err && e == (ResolveErrorV::Missing { interface: req.interface })
            &&& req.provider is None && p != q && changes::offered_by(defs, p, req)
                && changes::offered_by(defs, q, req) ==> {
                &&& r is Err
                &&& e is Ambiguous
                &&& e->Ambiguous_providers.contains(p)
                &&& e->Ambiguous_providers.contains(q)
            }
        }),
{
    let provides = resolve::provides_of(defs);
    assert(provides.dom() =~= defs.dom());
    let s = graph::offering(req, provides);
    text::in_order_sorted(s);
    let cands = text::in_order(s);
    changes::offers_are_versions(defs, p, req);
    changes::offers_are_versions(defs, q, req);
    if req.provider is None {
        if forall|x: Text| !#[trigger] changes::offered_by(defs, x, req) {
            if cands.len() > 0 {
                assert(cands.to_set().contains(cands[0]));
                changes::offers_are_versions(defs, cands[0], req);
                assert(changes::offered_by(defs, cands[0], req));
            }
        }
        if p != q && changes::offered_by(defs, p, req) && changes::offered_by(defs, q, req) {
            assert(cands.to_set().contains(p));
            assert(cands.to_set().contains(q));
            let i = choose|i: int| 0 <= i < cands.len() && cands[i] == p;
            let j = choose|j: int| 0 <= j < cands.len() && cands[j] == q;
            assert(i != j);
        }
    }
}

// ---- generations ------------------------------------------------------

/// A counter and a clock go on where they were, if they counted; every other
/// reducer starts from the state that its definition declares.
pub proof fn counts_are_kept(k: KernelV, logical: Text, def: ManifestV)
    ensures
        ({
            let v = k.preserved(logical, def);
            let p = k.plugins[logical];
            let had = k.plugins.dom().contains(logical);
            &&& def.reducer == "counter"@ && had && p.json_state.get("state"@) is Some ==> v
                == p.json_state
            &&& def.reducer == "clock"@ && had && p.json_state.get("count"@) is Some ==> v
                == p.json_state
            &&& def.reducer != "counter"@ && def.reducer != "clock"@ ==> v == def.init_state
        }),
{
    reveal_strlit("counter");
    reveal_strlit("clock");
    assert("counter"@.len() == 7 && "clock"@.len() == 5);
}

// ---- parked instances -------------------------------------------------

/// A parked instance ends exactly where no call of it is left, nobody else
/// cleans it up, and none of its resources refuses; else it stays parked.
pub proof fn parked_instances_end(k: KernelV, inst: InstanceId)
    requires
        k.calls.wf(),
        k.contexts.get(inst.0) matches Some(c) && c.state.canon() == Fsm::CleanupPending,
    ensures
        ({
            let (k2, done) = k.finalize(inst);
            let c = k.contexts.get(inst.0)->0;
            let busy = exists|id: TicketId| #[trigger] outcomes::runs(k, inst, id);
            let stuck = exists|i: int|
                0 <= i < k.resources.slots.len() && lifetimes::refuses(
                    #[trigger] k.resources.slots[i],
                    c,
                );
            &&& k2.contexts.get(inst.0) is Some
            &&& done ==> k2.contexts.get(inst.0)->0.state == Fsm::Disposed
            &&& !done ==> k2.contexts.get(inst.0)->0.state.canon() == Fsm::CleanupPending
            &&& busy || k.calls.claims.dom().contains(inst.0) ==> !done && k2.resources
                == k.resources && k2.caps == k.caps
            &&& !busy && !k.calls.claims.dom().contains(inst.0) && !stuck ==> done
            &&& k2.calls.tickets == k.calls.tickets
        }),
{
    lifetimes::left_calls_run(k, inst);
    let c = k.contexts.get(inst.0)->0;
    let k1 = k.claim_cleanup(inst);
    let hs = resources::handles_in(k1.resources.slots, c.context);
    laws::clean_back_only_releases(k1, hs, c);
    if k1.clean(c).1.len() > 0 {
        lifetimes::failures_refuse(k1, hs, c);
    }
}

/// An instance that is not parked does not end this way.
pub proof fn only_the_parked_end(k: KernelV, inst: InstanceId)
    requires
        !(k.contexts.get(inst.0) matches Some(c) && c.state.canon() == Fsm::CleanupPending),
    ensures
        k.finalize(inst) == (k, false),
{
}

// ---- policies ---------------------------------------------------------

/// Each policy is read back from its own name.
pub proof fn policies_are_read(p: WithdrawPolicy)
    ensures
        WithdrawPolicy::named(p.name()) == Some(p),
        p == WithdrawPolicy::Drain ==> p.name() == "drain"@,
        p == WithdrawPolicy::Cancel ==> p.name() == "cancel"@,
{
    reveal_strlit("drain");
    reveal_strlit("cancel");
    assert("drain"@.len() == 5 && "cancel"@.len() == 6);
    text::trimmed_fixed(p.name());
    assert(text::lowered("drain"@) =~= "drain"@);
    assert(text::lowered("cancel"@) =~= "cancel"@);
}

/// A text that names a policy is the name of the policy once the
/// space around it is gone and its capitals are small.
pub proof fn named_policies_are_spelled(s: Text, p: WithdrawPolicy)
    requires
        WithdrawPolicy::named(s) == Some(p),
    ensures
        ({
            let t = text::trimmed(s);
            let n = if p == WithdrawPolicy::Drain {
                "drain"@
            } else {
                "cancel"@
            };
            &&& t.len() == n.len()
            &&& forall|i: int|
                0 <= i < n.len() ==> #[trigger] t[i] == n[i] || ('A' <= t[i] <= 'Z' && t[i] as int
                    + 32 == n[i] as int)
        }),
{
    let t = text::trimmed(s);
    let l = text::lowered(t);
    reveal_strlit("drain");
    reveal_strlit("cancel");
    assert("drain"@.len() == 5 && "cancel"@.len() == 6);
    let n = if p == WithdrawPolicy::Drain {
        "drain"@
    } else {
        "cancel"@
    };
    assert(l == n);
    assert(l.len() == t.len());
    assert forall|i: int| 0 <= i < n.len() implies #[trigger] t[i] == n[i] || ('A' <= t[i] <= 'Z'
        && t[i] as int + 32 == n[i] as int) by {
        assert(l[i] == text::lower_char(t[i]));
    }
}

} // verus!
