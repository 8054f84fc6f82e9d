//! What changes of the definitions do: loading, removing, attesting and
//! reloading them, and how their requirements are resolved.

use vstd::prelude::*;
use crate::context::ContextV;
use crate::deps;
use crate::deps::{BindingV, RequirementV, ResolveErrorV};
use crate::external::LifecycleV;
use crate::fsm::Fsm;
use crate::graph;
use crate::identity::InstanceId;
use crate::json;
use crate::json::JsonV;
use crate::kernel::answers;
use crate::kernel::dependency;
use crate::kernel::jobs::{ConclusionV, StageV};
use crate::kernel::operations;
use crate::kernel::operations::FoundV;
use crate::kernel::reload;
use crate::kernel::reload::{ReloadStepV, ReloadV};
use crate::kernel::resolve;
use crate::kernel::resolve::Definitions;
use crate::kernel::{DisposeOutcomeV, KernelV, PluginV};
use crate::manifest;
use crate::manifest::ManifestV;
use crate::text;
use crate::text::Text;

verus! {

// ---- loading and removing ---------------------------------------------

/// A loaded definition is in force under its id; the others stay. An instance
/// that lives is withdrawn first; then the definitions are reconciled. The
/// count of a counter or a clock is kept where the reducer stays the same.
pub proof fn loaded_definitions_are_in_force(k: KernelV, def: ManifestV, other: Text)
    ensures
        ({
            let (k2, job) = k.load(def);
            &&& k2 == (KernelV { definitions: k2.definitions, ..k })
            &&& k2.definitions.dom() == k.definitions.dom().insert(def.id)
            &&& k2.definitions[def.id] == def
            &&& other != def.id && k.definitions.dom().contains(other) ==> k2.definitions[other]
                == k.definitions[other]
            &&& job.reconciles && job.outcome is None
            &&& match k.contexts.current_of(def.id) {
                Some(c) => if c.state.canon() == Fsm::Disposed || c.state.canon() == Fsm::Failed
                    || c.state.canon() == Fsm::CleanupPending {
                    job.stage is Settle
                } else {
                    job.stage == StageV::Dispose(c.instance)
                },
                None => job.stage is Settle,
            }
            &&& job.conclusion matches ConclusionV::Loaded { id, kept } && id == def.id && match kept {
                Some(s) => k.plugins.dom().contains(def.id) && s == k.plugins[def.id].json_state
                    && k.plugins[def.id].reducer == def.reducer && holds_count(def.reducer, s),
                None => k.plugins.dom().contains(def.id) && k.plugins[def.id].reducer
                    == def.reducer ==> !holds_count(def.reducer, k.plugins[def.id].json_state),
            }
        }),
{
    let k2 = k.load(def).0;
    assert(k2.definitions.dom() =~= k.definitions.dom().insert(def.id));
}

/// Whether the state of the reducer holds a count.
pub open spec fn holds_count(reducer: Text, s: JsonV) -> bool {
    ||| reducer == "counter"@ && s.get("state"@) is Some
    ||| reducer == "clock"@ && s.get("count"@) is Some
}

/// A removed definition is gone, with its attestation, and the host hears of
/// it; its instance is discarded and the rest reconciled. Others stay.
pub proof fn removed_definitions_are_gone(k: KernelV, id: Text, other: Text)
    ensures
        ({
            let (k2, job) = k.dispose_plugin(id);
            &&& !k2.definitions.dom().contains(id) && !k2.remotes.dom().contains(id)
            &&& other != id ==> (k2.definitions.dom().contains(other)
                <==> k.definitions.dom().contains(other)) && (k2.remotes.dom().contains(other)
                <==> k.remotes.dom().contains(other))
            &&& other != id && k.definitions.dom().contains(other) ==> k2.definitions[other]
                == k.definitions[other]
            &&& other != id && k.remotes.dom().contains(other) ==> k2.remotes[other]
                == k.remotes[other]
            &&& k2.events.len() == k.events.len() + 1 && k2.events.last() == (
            LifecycleV::Removed { logical: id })
            &&& k2.contexts == k.contexts && k2.calls == k.calls && k2.plugins == k.plugins
            &&& job.reconciles && job.conclusion is Nothing
            &&& match k.contexts.current_of(id) {
                Some(c) => job.stage == StageV::Dispose(c.instance) && job.outcome is None,
                None => job.stage is Settle && job.outcome == Some(
                    DisposeOutcomeV::AlreadyDisposed,
                ),
            }
        }),
{
}

/// An activation on another host is attested if and only if its definition is
/// for another host and the peer has a name, of at most 128 bytes. It is then
/// in force as it was told; the others stay.
pub proof fn attestations_are_kept(
    k: KernelV,
    logical: Text,
    instance: u64,
    generation: u64,
    peer: Text,
    other: Text,
)
    requires
        other != logical,
    ensures
        ({
            let (k2, r) = k.register_remote(logical, instance, generation, peer);
            &&& r is Ok <==> k.definitions.dom().contains(logical)
                && k.definitions[logical].remote && peer.len() > 0
                && vstd::utf8::encode_utf8(peer).len() <= 128
            &&& r is Err ==> k2 == k
            &&& r matches Ok(job) ==> {
                let reg = k2.remotes[logical];
                &&& k2.remotes.dom() == k.remotes.dom().insert(logical)
                &&& reg.logical == logical && reg.instance == instance && reg.generation
                    == generation && reg.peer == peer
                &&& job.stage is Reconcile && job.reconciles
            }
            &&& k.remotes.dom().contains(other) ==> k2.remotes.dom().contains(other)
                && k2.remotes[other] == k.remotes[other]
            &&& k2.definitions == k.definitions && k2.contexts == k.contexts
        }),
{
    let k2 = k.register_remote(logical, instance, generation, peer).0;
    if k.register_remote(logical, instance, generation, peer).1 is Ok {
        assert(k2.remotes.dom() =~= k.remotes.dom().insert(logical));
    }
}

/// An attestation that is withdrawn is gone, with the handles to its
/// provider; the others stay.
pub proof fn attestations_are_withdrawn(k: KernelV, logical: Text, other: Text, b: Text)
    requires
        other != logical,
    ensures
        ({
            let (k2, job) = k.unregister_remote(logical);
            &&& job is Some <==> k.remotes.dom().contains(logical)
            &&& job is None ==> k2 == k
            &&& !k2.remotes.dom().contains(logical)
            &&& k.remotes.dom().contains(other) ==> k2.remotes.dom().contains(other)
                && k2.remotes[other] == k.remotes[other]
            &&& job is Some ==> (k2.dep_bindings.dom().contains(b)
                <==> k.dep_bindings.dom().contains(b) && k.dep_bindings[b].provider_logical
                != logical)
            &&& k2.dep_bindings.dom().contains(b) ==> k2.dep_bindings[b] == k.dep_bindings[b]
            &&& k2.definitions == k.definitions && k2.contexts == k.contexts
        }),
{
}

/// A definition for another host is in force under its id, and has to be
/// attested anew.
pub proof fn installed_definitions_are_unattested(k: KernelV, def: ManifestV, other: Text)
    requires
        other != def.id,
    ensures
        ({
            let (k2, job) = k.install_remote(def);
            &&& k2.definitions.dom().contains(def.id) && k2.definitions[def.id] == def
            &&& !k2.remotes.dom().contains(def.id)
            &&& k.definitions.dom().contains(other) ==> k2.definitions.dom().contains(other)
                && k2.definitions[other] == k.definitions[other]
            &&& k.remotes.dom().contains(other) ==> k2.remotes.dom().contains(other)
                && k2.remotes[other] == k.remotes[other]
            &&& job.stage is Reconcile
        }),
{
}

// ---- resolution -------------------------------------------------------

/// Whether the definition of `p` offers what is required: one of its
/// capabilities has the name, and the version where one is asked for.
pub open spec fn offered_by(defs: Definitions, p: Text, req: RequirementV) -> bool {
    defs.dom().contains(p) && exists|i: int|
        0 <= i < defs[p].caps.len() && is_version_of(#[trigger] defs[p].caps[i], req)
}

/// Whether the capability is what is required.
pub open spec fn is_version_of(cap: Text, req: RequirementV) -> bool {
    deps::split(cap).0 == req.base && (req.major is None || deps::split(cap).1 == req.major)
}

/// Whether `p` is the provider of a requirement: the one that it names, or
/// else the only one that offers it.
pub open spec fn is_provider(defs: Definitions, p: Text, req: RequirementV) -> bool {
    &&& offered_by(defs, p, req)
    &&& match req.provider {
        Some(q) => q == p,
        None => forall|x: Text| #[trigger] offered_by(defs, x, req) ==> x == p,
    }
}

pub(crate) proof fn offers_are_versions(defs: Definitions, p: Text, req: RequirementV)
    ensures
        offered_by(defs, p, req) <==> defs.dom().contains(p) && graph::offers(defs[p].caps, req),
        offered_by(defs, p, req) <==> graph::offering(req, resolve::provides_of(defs)).contains(p),
{
    if defs.dom().contains(p) {
        let caps = defs[p].caps;
        if graph::offers(caps, req) {
            let i = choose|i: int| 0 <= i < caps.len() && deps::satisfies(#[trigger] caps[i], req);
            assert(is_version_of(caps[i], req));
        }
        if offered_by(defs, p, req) {
            let i = choose|i: int| 0 <= i < caps.len() && is_version_of(#[trigger] caps[i], req);
            assert(deps::satisfies(caps[i], req));
        }
    }
}

/// A requirement is bound if and only if it has a provider that is active,
/// and then to the current activation of that provider.
pub proof fn requirements_are_bound(
    req: RequirementV,
    defs: Definitions,
    states: Map<Text, ContextV>,
    p: Text,
)
    requires
        defs.dom().finite(),
    ensures
        resolve::bind_one(req, defs, states) matches Ok(b) ==> {
            &&& is_provider(defs, b.provider_logical, req)
            &&& b.interface == req.interface
            &&& states.dom().contains(b.provider_logical)
            &&& states[b.provider_logical].state.canon() == Fsm::Active
            &&& b.provider_instance == states[b.provider_logical].instance.0
            &&& b.provider_generation == states[b.provider_logical].generation
        },
        is_provider(defs, p, req) && states.dom().contains(p) && states[p].state.canon()
            == Fsm::Active ==> resolve::bind_one(req, defs, states) is Ok,
{
    let provides = resolve::provides_of(defs);
    assert(provides.dom() =~= defs.dom());
    let s = graph::offering(req, provides);
    text::in_order_sorted(s);
    let cands = text::in_order(s);
    offers_are_versions(defs, p, req);
    match req.provider {
        Some(q) => offers_are_versions(defs, q, req),
        None => {
            if resolve::bind_one(req, defs, states) is Ok {
                let b = resolve::bind_one(req, defs, states)->Ok_0;
                assert(cands.to_set().contains(cands[0]));
                offers_are_versions(defs, cands[0], req);
                assert forall|x: Text| #[trigger] offered_by(defs, x, req) implies x
                    == cands[0] by {
                    offers_are_versions(defs, x, req);
                    assert(cands.to_set().contains(x));
                }
            }
            if is_provider(defs, p, req) {
                assert(s =~= set![p]) by {
                    assert forall|x: Text| s.contains(x) == set![p].contains(x) by {
                        offers_are_versions(defs, x, req);
                    }
                }
                assert(cands.len() == 1);
                assert(cands.to_set().contains(cands[0]));
            }
        },
    }
}

/// A definition is resolved if and only if each of its requirements is bound;
/// the bindings are those, in order.
pub proof fn resolution_binds_each(
    reqs: Seq<RequirementV>,
    defs: Definitions,
    states: Map<Text, ContextV>,
)
    ensures
        resolve::bind_all(reqs, defs, states) is Ok <==> forall|i: int|
            0 <= i < reqs.len() ==> resolve::bind_one(#[trigger] reqs[i], defs, states) is Ok,
        resolve::bind_all(reqs, defs, states) matches Ok(bs) ==> bs.len() == reqs.len()
            && forall|i: int|
            0 <= i < reqs.len() ==> resolve::bind_one(#[trigger] reqs[i], defs, states) == Ok::<
                BindingV,
                ResolveErrorV,
            >(bs[i]),
    decreases reqs.len(),
{
    if reqs.len() > 0 {
        let a = reqs.drop_last();
        resolution_binds_each(a, defs, states);
        assert(reqs[reqs.len() - 1] == reqs.last());
        if forall|i: int|
            0 <= i < reqs.len() ==> resolve::bind_one(#[trigger] reqs[i], defs, states) is Ok {
            assert forall|i: int| 0 <= i < a.len() implies resolve::bind_one(
                #[trigger] a[i],
                defs,
                states,
            ) is Ok by {
                assert(a[i] == reqs[i]);
            }
        }
        if let Ok(bs) = resolve::bind_all(reqs, defs, states) {
            assert forall|i: int| 0 <= i < reqs.len() implies resolve::bind_one(
                #[trigger] reqs[i],
                defs,
                states,
            ) == Ok::<BindingV, ResolveErrorV>(bs[i]) by {
                if i < a.len() {
                    assert(a[i] == reqs[i]);
                }
            }
        }
    }
}

// ---- reloading --------------------------------------------------------

/// Whether a found file declares the definition `d`.
pub open spec fn declares(f: FoundV, d: ManifestV) -> bool {
    f.content matches Ok(s) && (json::json_parsed(s) matches Ok(v) && (manifest::declared(
        v,
    ) matches Ok(x) && d == (ManifestV { source: Some(f.path), ..x })))
}

/// A reload loads the files that declare something, in the order in which
/// they were found, and reports the others.
pub proof fn reloads_load_what_declares(fs: Seq<FoundV>)
    ensures
        ({
            let (ds, es) = operations::candidates(fs);
            &&& ds.len() + es.len() == fs.len()
            &&& forall|j: int|
                0 <= j < ds.len() ==> exists|i: int|
                    0 <= i < fs.len() && declares(#[trigger] fs[i], #[trigger] ds[j])
            &&& forall|i: int, d: ManifestV|
                0 <= i < fs.len() && #[trigger] declares(fs[i], d) ==> ds.contains(d)
        }),
    decreases fs.len(),
{
    if fs.len() > 0 {
        let a = fs.drop_last();
        let f = fs.last();
        reloads_load_what_declares(a);
        let (bs, _) = operations::candidates(a);
        let (ds, es) = operations::candidates(fs);
        assert(fs[fs.len() - 1] == f);
        assert forall|j: int| 0 <= j < ds.len() implies exists|i: int|
            0 <= i < fs.len() && declares(#[trigger] fs[i], #[trigger] ds[j]) by {
            if j < bs.len() {
                assert(ds[j] == bs[j]);
                let i = choose|i: int| 0 <= i < a.len() && declares(#[trigger] a[i], bs[j]);
                assert(fs[i] == a[i]);
                assert(declares(fs[i], ds[j]));
            } else {
                assert(declares(fs[fs.len() - 1], ds[j]));
            }
        }
        assert forall|i: int, d: ManifestV|
            0 <= i < fs.len() && #[trigger] declares(fs[i], d) implies ds.contains(d) by {
            if i < a.len() {
                assert(declares(a[i], d));
                let j = choose|j: int| 0 <= j < bs.len() && bs[j] == d;
                assert(ds[j] == d);
            } else {
                assert(ds[ds.len() - 1] == d);
            }
        }
    }
}

/// A reload removes what is out of date: the definitions whose file lies in
/// the watched directory and is gone, or declares another id now. It removes
/// nothing else.
pub proof fn reloads_remove_the_stale(k: KernelV, fs: Seq<FoundV>, under: Seq<Text>, id: Text)
    requires
        k.definitions.dom().finite(),
    ensures
        ({
            let r = k.reload(fs, under);
            let ds = operations::candidates(fs).0;
            r.stale.contains(id) <==> k.definitions.dom().contains(id) && (
            k.definitions[id].source matches Some(src) && under.contains(src) && ((forall|i: int|
                0 <= i < fs.len() ==> (#[trigger] fs[i]).path != src) || (operations::declared_by(
                ds,
                src,
            ) matches Some(other) && other != id)))
        }),
{
    let ids = text::in_order(k.definitions.dom());
    text::in_order_sorted(k.definitions.dom());
    let ds = operations::candidates(fs).0;
    stale_are_picked(k, ids, under, reload::paths_of(fs), ds, id);
    assert(ids.contains(id) <==> k.definitions.dom().contains(id)) by {
        assert(ids.to_set().contains(id) <==> k.definitions.dom().contains(id));
    }
    if k.definitions.dom().contains(id) {
        if let Some(src) = k.definitions[id].source {
            let ps = reload::paths_of(fs);
            if ps.contains(src) {
                let i = choose|i: int| 0 <= i < ps.len() && ps[i] == src;
                assert(fs[i].path == src);
            }
            if exists|i: int| 0 <= i < fs.len() && (#[trigger] fs[i]).path == src {
                let i = choose|i: int| 0 <= i < fs.len() && (#[trigger] fs[i]).path == src;
                assert(ps[i] == src);
            }
        }
    }
}

proof fn stale_are_picked(
    k: KernelV,
    ids: Seq<Text>,
    under: Seq<Text>,
    present: Seq<Text>,
    ds: Seq<ManifestV>,
    id: Text,
)
    ensures
        k.stale_among(ids, under, present, ds).contains(id) <==> ids.contains(id) && k.is_stale(
            id,
            under,
            present,
            ds,
        ),
    decreases ids.len(),
{
    if ids.len() > 0 {
        let a = ids.drop_last();
        stale_are_picked(k, a, under, present, ds, id);
        let rest = k.stale_among(a, under, present, ds);
        let all = k.stale_among(ids, under, present, ds);
        assert(ids[ids.len() - 1] == ids.last());
        if a.contains(id) {
            let i = choose|i: int| 0 <= i < a.len() && a[i] == id;
            assert(ids[i] == id);
        }
        if ids.contains(id) && id != ids.last() {
            let i = choose|i: int| 0 <= i < ids.len() && ids[i] == id;
            assert(a[i] == id);
        }
        if rest.contains(id) {
            let i = choose|i: int| 0 <= i < rest.len() && rest[i] == id;
            assert(all[i] == id);
        }
        if all.len() > rest.len() {
            assert(all[all.len() - 1] == ids.last());
        }
        if all.contains(id) && id != ids.last() {
            let i = choose|i: int| 0 <= i < all.len() && all[i] == id;
            assert(rest[i] == id);
        }
    }
}

/// A file declares the id that the last definition from it has.
pub proof fn files_declare_their_ids(ds: Seq<ManifestV>, path: Text, i: int)
    requires
        0 <= i < ds.len(),
        ds[i].source == Some(path),
        forall|j: int| i < j < ds.len() ==> (#[trigger] ds[j]).source != Some(path),
    ensures
        operations::declared_by(ds, path) == Some(ds[i].id),
    decreases ds.len(),
{
    if i < ds.len() - 1 {
        assert(ds[ds.len() - 1].source != Some(path));
        files_declare_their_ids(ds.drop_last(), path, i);
    }
}

/// A reload asks for its removals first, in order, then for its files, in
/// order; at the end it tells how many of them were loaded.
pub proof fn reloads_go_in_order(r: ReloadV)
    requires
        r.wf(),
    ensures
        ({
            let (s, step) = r.next();
            match step {
                ReloadStepV::Remove(id) => r.removed < r.stale.len() && id
                    == r.stale[r.removed as int] && s.removed == r.removed + 1 && s.tried
                    == r.tried,
                ReloadStepV::Load(p) => r.removed == r.stale.len() && r.tried < r.paths.len() && p
                    == r.paths[r.tried as int] && s.tried == r.tried + 1 && s.removed == r.removed,
                ReloadStepV::Over(n) => r.removed == r.stale.len() && r.tried == r.paths.len() && n
                    == r.reloaded && s == r,
            }
        }),
        r.tried > 0 && r.reloaded < r.tried ==> r.told(true).reloaded == r.reloaded + 1,
        r.told(true).failed == r.failed,
        r.told(false).reloaded == r.reloaded,
        r.tried > 0 ==> r.told(false).failed.len() == r.failed.len() + 1,
{
}

// ---- events -----------------------------------------------------------

/// An event reaches the state of an active, current instance only.
pub proof fn events_reach_the_active(k: KernelV, inst: InstanceId, topic: Text, other: Text)
    requires
        k.contexts.wf(),
    ensures
        ({
            let k2 = k.deliver_to(inst, topic);
            let c = k.contexts.get(inst.0)->0;
            let live = k.contexts.get(inst.0) is Some && c.state.canon() == Fsm::Active
                && k.contexts.current_of(c.logical) == Some(c) && c.logical.len() > 0
                && k.plugins.dom().contains(c.logical) && k.plugins[c.logical].state.canon()
                == Fsm::Active;
            &&& !live ==> k2 == k
            &&& live ==> k2.plugins[c.logical] == (PluginV {
                json_state: k2.plugins[c.logical].json_state,
                ..k.plugins[c.logical]
            })
            &&& live && topic != "sys.tick"@ ==> k2.plugins[c.logical] == k.plugins[c.logical]
            &&& live && topic == "sys.tick"@ && k.plugins[c.logical].reducer == "counter"@
                && answers::counted(k.plugins[c.logical].json_state, "state"@) < i64::MAX
                ==> answers::counts(
                k2.plugins[c.logical].json_state,
                "state"@,
                answers::counted(k.plugins[c.logical].json_state, "state"@) + 1,
            )
            &&& live && topic == "sys.tick"@ && k.plugins[c.logical].reducer == "clock"@
                && answers::counted(k.plugins[c.logical].json_state, "count"@) < i64::MAX
                ==> answers::counts(
                k2.plugins[c.logical].json_state,
                "count"@,
                answers::counted(k.plugins[c.logical].json_state, "count"@) + 1,
            )
            &&& other != c.logical || !live ==> (k.plugins.dom().contains(other)
                ==> k2.plugins[other] == k.plugins[other])
            &&& k2 == (KernelV { plugins: k2.plugins, ..k })
        }),
{
    if let Some(c) = k.contexts.get(inst.0) {
        assert(k.contexts.current.dom().contains(c.logical));
        if k.contexts.current_of(c.logical) is Some {
            let d = k.contexts.current_of(c.logical)->0;
            assert(k.contexts.records[k.contexts.current[c.logical] - 1] == d);
            assert(d.instance.0 == k.contexts.current[c.logical]);
            assert(d.instance.0 == inst.0 ==> d == c);
            assert(c.instance.0 == inst.0);
        }
        if k.plugins.dom().contains(c.logical) {
            let p = k.plugins[c.logical];
            answers::ticks_count(p.reducer, topic, p.json_state);
        }
    }
}

// ---- handles ----------------------------------------------------------

/// The handle that an activation gets for a binding names that activation as
/// the consumer, the bound activation as the provider, and the first
/// capability of the provider that is the bound interface. The other handles
/// stay.
pub proof fn handles_are_of_bindings(k: KernelV, logical: Text, cur: ContextV, b: BindingV, other: Text)
    requires
        k.definitions.dom().contains(b.provider_logical),
        exists|i: int|
            0 <= i < k.definitions[b.provider_logical].caps.len() && is_version_of(
                #[trigger] k.definitions[b.provider_logical].caps[i],
                dependency::binding_requirement(b),
            ),
    ensures
        ({
            let k2 = k.issue_one(logical, cur, b);
            let caps = k.definitions[b.provider_logical].caps;
            let id = (if k.definitions[b.provider_logical].remote {
                "rb-"@
            } else {
                "bind-"@
            }) + text::dec(k.dep_seq as nat);
            let h = k2.dep_bindings[id];
            &&& k2.dep_bindings.dom().contains(id)
            &&& h.id == id
            &&& h.consumer_logical == logical && h.consumer_instance == cur.instance
            &&& h.consumer_generation == cur.generation && h.consumer_context == cur.context
            &&& h.interface == b.interface && h.provider_logical == b.provider_logical
            &&& h.provider_instance.0 == b.provider_instance
            &&& h.provider_generation == b.provider_generation
            &&& caps.contains(h.capability) && is_version_of(
                h.capability,
                dependency::binding_requirement(b),
            )
            &&& k.dep_seq < u64::MAX ==> k2.dep_seq == k.dep_seq + 1
            &&& other != id && k.dep_bindings.dom().contains(other) ==> k2.dep_bindings[other]
                == k.dep_bindings[other]
        }),
{
    let caps = k.definitions[b.provider_logical].caps;
    let req = dependency::binding_requirement(b);
    let i = choose|i: int| 0 <= i < caps.len() && is_version_of(#[trigger] caps[i], req);
    satisfying_is_found(caps, req, i);
}

proof fn satisfying_is_found(caps: Seq<Text>, req: RequirementV, i: int)
    requires
        0 <= i < caps.len(),
        is_version_of(caps[i], req),
    ensures
        dependency::first_satisfying(caps, req) matches Some(c) && caps.contains(c)
            && is_version_of(c, req),
    decreases caps.len(),
{
    let a = caps.drop_last();
    if i < a.len() {
        satisfying_is_found(a, req, i);
        let c = dependency::first_satisfying(a, req)->0;
        let j = choose|j: int| 0 <= j < a.len() && a[j] == c;
        assert(caps[j] == c);
    } else {
        assert(caps[caps.len() - 1] == caps.last());
        first_satisfying_is_one(a, req);
        if let Some(c) = dependency::first_satisfying(a, req) {
            let j = choose|j: int| 0 <= j < a.len() && a[j] == c;
            assert(caps[j] == c);
        }
    }
}

proof fn first_satisfying_is_one(caps: Seq<Text>, req: RequirementV)
    ensures
        dependency::first_satisfying(caps, req) matches Some(c) ==> caps.contains(c)
            && is_version_of(c, req),
    decreases caps.len(),
{
    if caps.len() > 0 {
        first_satisfying_is_one(caps.drop_last(), req);
        assert(caps[caps.len() - 1] == caps.last());
        if let Some(c) = dependency::first_satisfying(caps.drop_last(), req) {
            let j = choose|j: int| 0 <= j < caps.drop_last().len() && caps.drop_last()[j] == c;
            assert(caps[j] == c);
        }
    }
}

} // verus!
