//! Reconciliation within its limit: a round that changes nothing comes before
//! the rounds run out.

use vstd::prelude::*;
use crate::context::ContextV;
use crate::deps::{BindingV, RequirementV, ResolveErrorV};
use crate::fsm::Fsm;
use crate::graph;
use crate::identity::{InstanceId, ResourceHandle};
use crate::json;
use crate::json::JsonV;
use crate::kernel::acquire;
use crate::kernel::jobs;
use crate::kernel::jobs::{ConclusionV, JobV, PassV, StageV};
use crate::kernel::laws;
use crate::kernel::lifecycle;
use crate::kernel::reconcile;
use crate::kernel::reconcile::{ItemV, PlanV};
use crate::kernel::resolve;
use crate::kernel::resolve::Definitions;
use crate::kernel::stable;
use crate::kernel::{DepBindingV, KernelV, PluginV};
use crate::manifest::ManifestV;
use crate::resources::ResourceKindV;
use crate::strmap;
use crate::text;
use crate::text::Text;
use crate::time::Instant;

verus! {

/// What the first of `kinds` that cannot be acquired says.
pub open spec fn first_fault(kinds: Seq<ResourceKindV>) -> Option<Text>
    decreases kinds.len(),
{
    if kinds.len() == 0 {
        None
    } else {
        match first_fault(kinds.drop_last()) {
            Some(e) => Some(e),
            None => match kinds.last().fault() {
                Some(e) => Some(e.message()),
                None => None,
            },
        }
    }
}

impl KernelV {
    /// Why a definition for this host has to wait in the states as they are,
    /// if it has to.
    pub open spec fn wait_reason(self, logical: Text) -> Option<Text> {
        match resolve::resolved(logical, self.definitions, self.states()) {
            Err(e) => Some(e.reason()),
            Ok(_) => match first_fault(acquire::declared_kinds(self.definitions[logical])) {
                Some(e) => Some(stable::acquire_failed(e)),
                None => None,
            },
        }
    }

    /// Whether the instance of `logical` and its entry both give `reason`.
    pub open spec fn shows(self, logical: Text, reason: Text) -> bool {
        &&& self.contexts.current_of(logical) matches Some(c) && c.cause == Some(reason)
        &&& self.plugin(logical) matches Some(p) && p.state.canon() == Fsm::Waiting
            && p.wait_cause == Some(reason)
    }

    /// Whether an activation of `logical` would leave it as it is.
    pub open spec fn settled(self, logical: Text) -> bool {
        match self.definition(logical) {
            None => true,
            Some(d) => d.remote || match self.contexts.current_of(logical) {
                None => false,
                Some(c) => if c.state.is_waiting_like() {
                    match self.wait_reason(logical) {
                        Some(r) => self.shows(logical, r),
                        None => !(self.plugin(logical) matches Some(p) && p.instance_id
                            == c.instance.0),
                    }
                } else {
                    c.state.canon() != Fsm::Disposed
                },
            },
        }
    }

    /// Whether the instance of `logical` gives the right reason and only its
    /// entry is missing.
    pub open spec fn is_bare(self, logical: Text) -> bool {
        &&& self.plugin(logical) is None
        &&& self.contexts.current_of(logical) matches Some(c) && c.state.is_waiting_like()
            && c.cause is Some && c.cause == self.wait_reason(logical)
    }
}

// ---- one activation ---------------------------------------------------

/// Whether an acquisition fails, and with what, depends on the kinds alone.
proof fn kinds_fail_alike(k: KernelV, ctx: ContextV, id: Text, kinds: Seq<ResourceKindV>)
    ensures
        match first_fault(kinds) {
            Some(e) => k.acquire_kinds(ctx, id, kinds).1 == Err::<
                Seq<ResourceHandle>,
                Text,
            >(e),
            None => k.acquire_kinds(ctx, id, kinds).1 is Ok,
        },
    decreases kinds.len(),
{
    if kinds.len() > 0 {
        kinds_fail_alike(k, ctx, id, kinds.drop_last());
    }
}

/// Whether `b` comes from `a` by work on `l` that makes at most `n`
/// activations and takes no entry away.
spec fn touches(a: KernelV, b: KernelV, l: Text, n: nat) -> bool {
    &&& stable::apart(a, b, l)
    &&& b.contexts.wf()
    &&& b.contexts.records.len() <= a.contexts.records.len() + n
    &&& a.plugin(l) is Some ==> b.plugin(l) is Some
}

/// What letting `l` wait leaves of it.
spec fn waits_in(a: KernelV, b: KernelV, l: Text, reason: Text) -> bool {
    &&& b.contexts.current_of(l) matches Some(c) && c.state.is_waiting_like() && c.cause == Some(
        reason,
    )
    &&& {
        ||| b.shows(l, reason) && (b.plugin(l)->0.bindings.len() == 0 || (a.plugin(
            l,
        ) matches Some(p) && b.plugin(l)->0.bindings == p.bindings))
        ||| {
            &&& a.plugin(l) is None
            &&& b.plugin(l) is None
            &&& a.contexts.current_of(l) matches Some(c) && c.state.is_waiting_like() && c.cause
                != Some(reason)
        }
    }
}

proof fn waiting_is_exact(k: KernelV, l: Text, def: ManifestV, reason: Text)
    requires
        k.contexts.wf(),
        k.contexts.records.len() < u64::MAX,
        def.id == l,
    ensures
        ({
            let k2 = k.ensure_waiting(l, def, reason).0;
            &&& touches(k, k2, l, 1)
            &&& match k.contexts.current_of(l) {
                None => waits_in(k, k2, l, reason) && k2.contexts.current_of(l)->0.state
                    == Fsm::Waiting,
                Some(c) => if c.state.is_waiting_like() || c.state.canon() == Fsm::Disposed {
                    waits_in(k, k2, l, reason) && (c.state.canon() == Fsm::Waiting
                        || c.state.canon() == Fsm::Disposed ==> k2.contexts.current_of(
                        l,
                    )->0.state.canon() == Fsm::Waiting)
                } else {
                    k2 == k
                },
            }
        }),
{
    match k.contexts.current_of(l) {
        None => stable::create_stays_apart(k.contexts, l, Fsm::Waiting, Some(reason)),
        Some(st) => {
            assert(k.contexts.records[k.contexts.current[l] - 1].logical == l);
            assert(st.instance.0 == k.contexts.current[l]);
            if st.state.is_waiting_like() {
                stable::put_stays_apart(k.contexts, st.instance.0, Fsm::Waiting, Some(reason), l);
            } else {
                stable::create_stays_apart(k.contexts, l, Fsm::Waiting, Some(reason));
            }
        },
    }
}

/// What a promotion makes of `l`.
proof fn promotion_is_exact(k: KernelV, l: Text, def: ManifestV)
    requires
        k.contexts.wf(),
        k.contexts.records.len() < u64::MAX,
        stable::keyed(k.definitions),
        k.definition(l) == Some(def),
    ensures
        touches(k, k.promote(l, def).0, l, 1),
        k.promote(l, def).1 ==> ({
            let k2 = k.promote(l, def).0;
            &&& k2.contexts.current_of(l) matches Some(c) && c.state == Fsm::Active
            &&& k2.plugin(l) matches Some(p) && resolve::resolved(l, k.definitions, k.states())
                == Ok::<Seq<BindingV>, ResolveErrorV>(p.bindings)
        }),
        k.contexts.current_of(l) matches Some(c) ==> c.state.is_waiting_like()
            && resolve::resolved(l, k.definitions, k.states()) is Ok ==> ({
            let (k2, changed) = k.promote(l, def);
            match first_fault(acquire::declared_kinds(def)) {
                Some(e) => !changed && waits_in(k, k2, l, stable::acquire_failed(e)),
                None => if k.plugin(l) matches Some(p) && p.instance_id == c.instance.0 {
                    changed
                } else {
                    &&& !changed
                    &&& k2.contexts == k.contexts
                    &&& k2.plugins == k.plugins
                },
            }
        }),
{
    if let Some(st) = k.contexts.current_of(l) {
        assert(k.contexts.records[k.contexts.current[l] - 1].logical == l);
        assert(st.instance.0 == k.contexts.current[l]);
        if st.state.is_waiting_like() {
            match resolve::resolved(l, k.definitions, k.states()) {
                Err(e) => waiting_is_exact(k, l, def, e.reason()),
                Ok(bs) => {
                    let (k1, res) = k.acquire_definition(st, def);
                    laws::acquire_kinds_only_acquires(
                        k,
                        st,
                        def.id,
                        acquire::declared_kinds(def),
                    );
                    kinds_fail_alike(k, st, def.id, acquire::declared_kinds(def));
                    match res {
                        Err(e) => waiting_is_exact(k1, l, def, stable::acquire_failed(e)),
                        Ok(hs) => {
                            laws::undo_back_only_releases(k1, st.instance, hs);
                            activation_touches(k1, l, st, bs, hs);
                        },
                    }
                },
            }
        }
    }
}

/// What follows an activation touches no state.
pub(crate) proof fn announcing_touches_no_state(k: KernelV, l: Text, ctx: ContextV, bs: Seq<BindingV>)
    ensures
        ({
            let k2 = k.activated(l, ctx, bs);
            &&& k2.contexts == k.contexts
            &&& k2.plugins == k.plugins
            &&& k2.definitions == k.definitions
            &&& k2.remotes == k.remotes
        }),
{
    let k1 = k.log(
        l,
        "plugin.active"@,
        JsonV::object().with("id"@, json::jstr(l)).with(
            "instance"@,
            json::jnum(ctx.instance.0),
        ).with("generation"@, json::jnum(ctx.generation)).with(
            "bindings"@,
            lifecycle::binding_entries(bs),
        ),
    ).announce(l, ctx);
    assert(k1.contexts == k.contexts && k1.plugins == k.plugins && k1.definitions
        == k.definitions && k1.remotes == k.remotes);
    assert(k.activated(l, ctx, bs) == k1.issue_bindings(l, ctx.instance, ctx.generation, bs));
    if let Some(cur) = k1.contexts.get(ctx.instance.0) {
        laws::issue_each_only_issues(
            KernelV {
                dep_bindings: strmap::kept(
                    k1.dep_bindings,
                    |b: DepBindingV| b.consumer_instance != ctx.instance,
                ),
                ..k1
            },
            l,
            cur,
            bs,
        );
    }
}

/// The entry of `l` and its instance turned active.
spec fn turned(k: KernelV, l: Text, st: ContextV, bs: Seq<BindingV>, hs: Seq<ResourceHandle>) -> KernelV {
    k.with_plugin(
        l,
        PluginV {
            state: Fsm::Active,
            bindings: bs,
            wait_cause: None,
            resources: hs,
            ..k.plugin(l)->0
        },
    ).with_contexts(k.contexts.activate(st.instance.0).0)
}

proof fn activation_touches(
    k: KernelV,
    l: Text,
    st: ContextV,
    bs: Seq<BindingV>,
    hs: Seq<ResourceHandle>,
)
    requires
        k.contexts.wf(),
        k.contexts.current_of(l) == Some(st),
        st.state.is_waiting_like(),
    ensures
        k.contexts.activate(st.instance.0).1,
        ({
            let k2 = turned(k, l, st, bs, hs).activated(l, st, bs);
            &&& touches(k, k2, l, 0)
            &&& k2.contexts.current_of(l) matches Some(c) && c.state == Fsm::Active
            &&& k2.plugin(l) matches Some(p) && p.bindings == bs
        }),
{
    assert(k.contexts.records[k.contexts.current[l] - 1].logical == l);
    assert(st.instance.0 == k.contexts.current[l]);
    stable::put_stays_apart(k.contexts, st.instance.0, Fsm::Active, None, l);
    announcing_touches_no_state(turned(k, l, st, bs, hs), l, st, bs);
}

/// What the creation of an active instance makes of `l`.
proof fn creation_is_exact(
    k: KernelV,
    l: Text,
    def: ManifestV,
    bs: Seq<BindingV>,
    json_state: JsonV,
    now: Instant,
)
    requires
        k.contexts.wf(),
        k.contexts.records.len() + 1 < u64::MAX,
        stable::keyed(k.definitions),
        k.definition(l) == Some(def),
    ensures
        ({
            let (k2, changed) = k.create_active(def, bs, json_state, now);
            &&& touches(k, k2, l, 2)
            &&& match first_fault(acquire::declared_kinds(def)) {
                None => {
                    &&& changed
                    &&& k2.contexts.current_of(l) matches Some(c) && c.state == Fsm::Active
                    &&& k2.plugin(l) matches Some(p) && p.bindings == bs
                },
                Some(e) => {
                    &&& !changed
                    &&& k2.contexts.current_of(l) matches Some(c) && (c.state
                        == Fsm::CleanupPending || c.state.is_waiting_like() && k2.shows(
                        l,
                        stable::acquire_failed(e),
                    ))
                },
            }
        }),
{
    let ctx = k.contexts.fresh(l, Fsm::Active, None);
    stable::create_stays_apart(k.contexts, l, Fsm::Active, None);
    let k0 = k.with_contexts(k.contexts.create(l, Fsm::Active, None));
    let (k1, res) = k0.acquire_definition(ctx, def);
    laws::acquire_kinds_only_acquires(k0, ctx, def.id, acquire::declared_kinds(def));
    kinds_fail_alike(k0, ctx, def.id, acquire::declared_kinds(def));
    match res {
        Ok(hs) => {
            announcing_touches_no_state(
                k1.with_plugin(
                    l,
                    lifecycle::entry(def, ctx, Fsm::Active, bs, None, json_state, hs),
                ),
                l,
                ctx,
                bs,
            );
        },
        Err(e) => {
            stable::withdrawing_stays_apart(k1, ctx.instance, now, l);
            let (k2, b) = k1.begin_dispose(ctx.instance, now);
            let rec = b->rec;
            stable::put_stays_apart(k1.contexts, ctx.instance.0, Fsm::Quiescing, None, l);
            stable::disposing_stays_apart(k2, rec, now, l);
            let k3 = k2.finish_dispose(rec, now).0;
            assert(k3 == k1.dispose_now(ctx.instance, now));
            assert(k3.contexts.current_of(l) == k3.contexts.get(ctx.instance.0));
            waiting_is_exact(k3, l, def, stable::acquire_failed(e));
        },
    }
}

// ---- one position of a pass -------------------------------------------

/// Any activation touches its definition alone.
proof fn activation_is_local(k: KernelV, l: Text, states: Map<Text, ContextV>, now: Instant)
    requires
        k.contexts.wf(),
        k.contexts.records.len() + 1 < u64::MAX,
        stable::keyed(k.definitions),
    ensures
        touches(k, k.activate_one(l, states, now).0, l, 2),
{
    if let Some(def) = k.definition(l) {
        match resolve::resolved(l, k.definitions, states) {
            Ok(bs) => {
                promotion_is_exact(k, l, def);
                creation_is_exact(k, l, def, bs, k.preserved(l, def), now);
            },
            Err(e) => waiting_is_exact(k, l, def, e.reason()),
        }
    }
}

/// Whether the states of `b` are those of `a`.
spec fn alike(a: KernelV, b: KernelV) -> bool {
    &&& b.definitions == a.definitions
    &&& b.remotes == a.remotes
    &&& b.contexts.epoch == a.contexts.epoch
    &&& forall|x: Text| #[trigger] b.contexts.current_of(x) == a.contexts.current_of(x)
    &&& forall|x: Text| #[trigger] b.plugin(x) == a.plugin(x)
}

proof fn alike_states(a: KernelV, b: KernelV)
    requires
        alike(a, b),
    ensures
        b.states() == a.states(),
{
    assert(b.states() =~= a.states());
}

/// Where a definition is settled its activation leaves the states.
proof fn settled_stays(k0: KernelV, k: KernelV, l: Text, now: Instant)
    requires
        alike(k0, k),
        k.contexts.wf(),
        k.contexts.records.len() + 1 < u64::MAX,
        stable::keyed(k.definitions),
        k0.definition(l) matches Some(d) && !d.remote ==> !k0.remote_live(l),
        k0.settled(l),
    ensures
        !k.activate_one(l, k0.states(), now).1,
        alike(k0, k.activate_one(l, k0.states(), now).0),
        touches(k, k.activate_one(l, k0.states(), now).0, l, 2),
{
    alike_states(k0, k);
    activation_is_local(k, l, k0.states(), now);
    let k2 = k.activate_one(l, k0.states(), now).0;
    if let Some(def) = k.definition(l) {
        if !def.remote {
            let c = k.contexts.current_of(l)->0;
            assert(k0.contexts.current_of(l) == k.contexts.current_of(l));
            assert(k0.plugin(l) == k.plugin(l));
            assert(k0.states().dom().contains(l) && k0.states()[l] == c);
            if c.state.is_waiting_like() {
                match resolve::resolved(l, k.definitions, k.states()) {
                    Ok(bs) => {
                        still_waiting(k, l, def);
                        assert(k2 == k.promote(l, def).0);
                    },
                    Err(e) => {},
                }
            }
        }
    }
    assert forall|x: Text| #[trigger] k2.contexts.current_of(x) == k0.contexts.current_of(x) by {
        assert(k.contexts.current_of(x) == k0.contexts.current_of(x));
        if x != l {
            assert(k2.contexts.current_of(x) == k.contexts.current_of(x));
        }
    }
    assert forall|x: Text| #[trigger] k2.plugin(x) == k0.plugin(x) by {
        assert(k.plugin(x) == k0.plugin(x));
        if x != l {
            assert(k2.plugin(x) == k.plugin(x));
        }
    }
}

/// A promotion of what is settled changes nothing.
proof fn still_waiting(k: KernelV, l: Text, def: ManifestV)
    requires
        k.definition(l) == Some(def),
        !def.remote,
        k.settled(l),
        k.contexts.current_of(l) matches Some(c) && c.state.is_waiting_like(),
        resolve::resolved(l, k.definitions, k.states()) is Ok,
    ensures
        !k.promote(l, def).1,
        k.promote(l, def).0.contexts == k.contexts,
        k.promote(l, def).0.plugins == k.plugins,
{
    let st = k.contexts.current_of(l)->0;
    let (k1, res) = k.acquire_definition(st, def);
    laws::acquire_kinds_only_acquires(k, st, def.id, acquire::declared_kinds(def));
    kinds_fail_alike(k, st, def.id, acquire::declared_kinds(def));
    if let Ok(hs) = res {
        laws::undo_back_only_releases(k1, st.instance, hs);
    }
}

/// What an activation leaves of `l` that it found unsettled: an instance that
/// is settled, or one of which only the entry is missing.
spec fn moved(a: KernelV, b: KernelV, l: Text) -> bool {
    b.contexts.current_of(l) matches Some(c) && if c.state.is_waiting_like() {
        a.wait_reason(l) matches Some(r) && c.cause == Some(r) && (b.shows(l, r) || b.plugin(l)
            is None && !a.is_bare(l))
    } else {
        c.state.canon() != Fsm::Disposed
    }
}

proof fn unsettled_moves(k0: KernelV, k: KernelV, l: Text, now: Instant)
    requires
        alike(k0, k),
        k.contexts.wf(),
        k.contexts.records.len() + 1 < u64::MAX,
        stable::keyed(k.definitions),
        k0.definition(l) matches Some(d) && !d.remote ==> !k0.remote_live(l),
        !k0.settled(l),
    ensures
        touches(k, k.activate_one(l, k0.states(), now).0, l, 2),
        moved(k0, k.activate_one(l, k0.states(), now).0, l),
{
    alike_states(k0, k);
    activation_is_local(k, l, k0.states(), now);
    let def = k.definition(l)->0;
    let states = k.states();
    assert(k0.contexts.current_of(l) == k.contexts.current_of(l));
    assert(k0.plugin(l) == k.plugin(l));
    if k.contexts.current_of(l) is Some {
        assert(states.dom().contains(l) && states[l] == k.contexts.current_of(l)->0);
    } else {
        assert(!states.dom().contains(l));
    }
    match resolve::resolved(l, k.definitions, states) {
        Ok(bs) => {
            promotion_is_exact(k, l, def);
            creation_is_exact(k, l, def, bs, k.preserved(l, def), now);
        },
        Err(e) => waiting_is_exact(k, l, def, e.reason()),
    }
}

// ---- what a reason depends on -----------------------------------------

proof fn needed_are_finite(reqs: Seq<RequirementV>, provides: Map<Text, Seq<Text>>)
    requires
        provides.dom().finite(),
    ensures
        graph::needed(reqs, provides).finite(),
    decreases reqs.len(),
{
    let all = graph::needed(reqs, provides);
    if reqs.len() == 0 {
        assert(all =~= Set::empty());
    } else {
        let rest = graph::needed(reqs.drop_last(), provides);
        needed_are_finite(reqs.drop_last(), provides);
        let more = match reqs.last().provider {
            Some(q) => set![q],
            None => graph::offering(reqs.last(), provides),
        };
        assert(all =~= rest.union(more)) by {
            assert forall|p: Text| all.contains(p) == rest.union(more).contains(p) by {
                if all.contains(p) {
                    let i = choose|i: int|
                        0 <= i < reqs.len() && graph::needs(#[trigger] reqs[i], provides, p);
                    if i < reqs.len() - 1 {
                        assert(reqs.drop_last()[i] == reqs[i]);
                    }
                }
                if rest.contains(p) {
                    let i = choose|i: int|
                        0 <= i < reqs.len() - 1 && graph::needs(
                            #[trigger] reqs.drop_last()[i],
                            provides,
                            p,
                        );
                    assert(graph::needs(reqs[i], provides, p));
                }
                if more.contains(p) {
                    assert(graph::needs(reqs[reqs.len() - 1], provides, p));
                }
            }
        }
    }
}

/// Whether `a` and `b` agree on `p`.
spec fn agree(a: Map<Text, ContextV>, b: Map<Text, ContextV>, p: Text) -> bool {
    &&& a.dom().contains(p) == b.dom().contains(p)
    &&& a.dom().contains(p) ==> a[p] == b[p]
}

proof fn bindings_are_local(
    reqs: Seq<RequirementV>,
    defs: Definitions,
    a: Map<Text, ContextV>,
    b: Map<Text, ContextV>,
)
    requires
        defs.dom().finite(),
        forall|p: Text| #[trigger]
            graph::needed(reqs, resolve::provides_of(defs)).contains(p) ==> agree(a, b, p),
    ensures
        resolve::bind_all(reqs, defs, a) == resolve::bind_all(reqs, defs, b),
    decreases reqs.len(),
{
    let provides = resolve::provides_of(defs);
    if reqs.len() > 0 {
        let rest = reqs.drop_last();
        assert forall|p: Text| #[trigger] graph::needed(rest, provides).contains(p) implies agree(
            a,
            b,
            p,
        ) by {
            let i = choose|i: int|
                0 <= i < rest.len() && graph::needs(#[trigger] rest[i], provides, p);
            assert(graph::needs(reqs[i], provides, p));
            assert(graph::needed(reqs, provides).contains(p));
        }
        bindings_are_local(rest, defs, a, b);
        let req = reqs.last();
        assert(req == reqs[reqs.len() - 1]);
        match req.provider {
            Some(p) => {
                assert(graph::needs(reqs[reqs.len() - 1], provides, p));
                assert(graph::needed(reqs, provides).contains(p));
            },
            None => {
                let s = graph::offering(req, provides);
                assert(provides.dom() =~= defs.dom());
                text::in_order_sorted(s);
                let cands = text::in_order(s);
                if cands.len() == 1 {
                    assert(cands.to_set().contains(cands[0]));
                    assert(graph::needs(reqs[reqs.len() - 1], provides, cands[0]));
                    assert(graph::needed(reqs, provides).contains(cands[0]));
                }
            },
        }
    }
}

/// Whether `b` has the definitions and registrations of `a`.
spec fn framed(a: KernelV, b: KernelV) -> bool {
    &&& b.definitions == a.definitions
    &&& b.remotes == a.remotes
    &&& b.contexts.epoch == a.contexts.epoch
}

/// Whether `l` is in `b` as it is in `a`.
spec fn same_at(a: KernelV, b: KernelV, l: Text) -> bool {
    &&& b.contexts.current_of(l) == a.contexts.current_of(l)
    &&& b.plugin(l) == a.plugin(l)
}

/// The reason of a definition depends on the providers it needs alone.
proof fn reasons_are_local(a: KernelV, b: KernelV, l: Text)
    requires
        framed(a, b),
        a.definitions.dom().finite(),
        a.definitions.dom().contains(l),
        forall|p: Text| #[trigger]
            resolve::edges(a.definitions)[l].contains(p) ==> same_at(a, b, p),
    ensures
        b.wait_reason(l) == a.wait_reason(l),
{
    let defs = a.definitions;
    let reqs = defs[l].requires;
    let provides = resolve::provides_of(defs);
    assert(provides.dom() =~= defs.dom());
    needed_are_finite(reqs, provides);
    text::in_order_sorted(graph::needed(reqs, provides));
    assert(resolve::edges(defs)[l] == text::in_order(graph::needed(reqs, provides)));
    assert forall|p: Text| #[trigger] graph::needed(reqs, provides).contains(p) implies agree(
        a.states(),
        b.states(),
        p,
    ) by {
        assert(text::in_order(graph::needed(reqs, provides)).to_set().contains(p));
        assert(resolve::edges(defs)[l].contains(p));
        assert(same_at(a, b, p));
    }
    bindings_are_local(reqs, defs, a.states(), b.states());
}

// ---- one pass of activations ------------------------------------------

/// Whether every registration has a definition for another host.
spec fn no_orphans(k: KernelV) -> bool {
    forall|l: Text| #[trigger]
        k.remotes.dom().contains(l) ==> (k.definition(l) matches Some(d) && d.remote)
}

proof fn settled_prefix(k: KernelV, order: Seq<Text>, f: int, now: Instant)
    requires
        0 <= f <= order.len(),
        k.contexts.wf(),
        stable::keyed(k.definitions),
        no_orphans(k),
        k.contexts.records.len() + 2 * f < u64::MAX,
        forall|j: int| 0 <= j < f ==> k.settled(#[trigger] order[j]),
    ensures
        ({
            let (k2, changed) = k.activate_in(order.take(f), k.states(), now);
            &&& !changed
            &&& alike(k, k2)
            &&& k2.contexts.wf()
            &&& k2.contexts.records.len() <= k.contexts.records.len() + 2 * f
        }),
    decreases f,
{
    if f > 0 {
        settled_prefix(k, order, f - 1, now);
        assert(order.take(f).drop_last() =~= order.take(f - 1));
        assert(order.take(f).last() == order[f - 1]);
        settled_stays(
            k,
            k.activate_in(order.take(f - 1), k.states(), now).0,
            order[f - 1],
            now,
        );
    } else {
        assert(order.take(0) =~= Seq::empty());
    }
}

/// A pass of activations settles, or almost settles, the first position that
/// was not settled, and leaves those before it.
proof fn pass_moves_the_front(k: KernelV, order: Seq<Text>, m: int, f: int, now: Instant)
    requires
        0 <= f < m <= order.len(),
        order.no_duplicates(),
        k.contexts.wf(),
        stable::keyed(k.definitions),
        no_orphans(k),
        k.contexts.records.len() + 2 * m < u64::MAX,
        forall|j: int| 0 <= j < f ==> k.settled(#[trigger] order[j]),
        !k.settled(order[f]),
    ensures
        ({
            let k2 = k.activate_in(order.take(m), k.states(), now).0;
            &&& framed(k, k2)
            &&& k2.contexts.wf()
            &&& k2.contexts.records.len() <= k.contexts.records.len() + 2 * m
            &&& forall|j: int| 0 <= j < f ==> same_at(k, k2, #[trigger] order[j])
            &&& moved(k, k2, order[f])
            &&& forall|x: Text| k.plugin(x) is Some ==> #[trigger] k2.plugin(x) is Some
        }),
    decreases m,
{
    let states = k.states();
    let (k1, changed) = k.activate_in(order.take(m - 1), states, now);
    assert(order.take(m).drop_last() =~= order.take(m - 1));
    assert(order.take(m).last() == order[m - 1]);
    let l = order[m - 1];
    let k2 = k.activate_in(order.take(m), states, now).0;
    if m == f + 1 {
        settled_prefix(k, order, f, now);
        unsettled_moves(k, k1, l, now);
        assert forall|j: int| 0 <= j < f implies same_at(k, k2, #[trigger] order[j]) by {
            assert(order[j] != l);
            assert(k2.contexts.current_of(order[j]) == k1.contexts.current_of(order[j]));
            assert(k2.plugin(order[j]) == k1.plugin(order[j]));
        }
        assert forall|x: Text| k.plugin(x) is Some implies #[trigger] k2.plugin(x) is Some by {
            assert(k1.plugin(x) == k.plugin(x));
            if x != l {
                assert(k2.plugin(x) == k1.plugin(x));
            }
        }
    } else {
        pass_moves_the_front(k, order, m - 1, f, now);
        if !changed {
            activation_is_local(k1, l, states, now);
            assert(order[f] != l);
            assert(same_at(k1, k2, order[f]));
            assert forall|j: int| 0 <= j < f implies same_at(k, k2, #[trigger] order[j]) by {
                assert(order[j] != l);
                assert(same_at(k, k1, order[j]));
                assert(k2.contexts.current_of(order[j]) == k1.contexts.current_of(order[j]));
                assert(k2.plugin(order[j]) == k1.plugin(order[j]));
            }
            assert forall|x: Text| k.plugin(x) is Some implies #[trigger] k2.plugin(x) is Some by {
                assert(k1.plugin(x) is Some);
                if x != l {
                    assert(k2.plugin(x) == k1.plugin(x));
                }
            }
        }
    }
}

/// What is settled stays so while it and the providers before it stay.
proof fn settled_while_providers_stay(a: KernelV, b: KernelV, j: int, f: int)
    requires
        framed(a, b),
        a.definitions.dom().finite(),
        graph::first_cycle(resolve::edges(a.definitions)) is None,
        0 <= j <= f < a.activation_order().len(),
        a.activation_order().no_duplicates(),
        forall|i: int| 0 <= i < f ==> same_at(a, b, #[trigger] a.activation_order()[i]),
        a.definitions.dom().contains(a.activation_order()[j]),
    ensures
        b.wait_reason(a.activation_order()[j]) == a.wait_reason(a.activation_order()[j]),
{
    let order = a.activation_order();
    let l = order[j];
    laws::providers_are_activated_first(a, l);
    assert forall|p: Text| #[trigger]
        resolve::edges(a.definitions)[l].contains(p) implies same_at(a, b, p) by {
        assert(laws::is_before(order, p, l));
        let (x, y) = choose|x: int, y: int|
            0 <= x < y < order.len() && #[trigger] order[x] == p && #[trigger] order[y] == l;
        assert(y == j);
        assert(same_at(a, b, order[x]));
    }
    reasons_are_local(a, b, l);
}

/// After a pass everything up to the front is settled; of the front itself
/// the entry may be missing still.
proof fn the_front_advances(k: KernelV, f: int, now: Instant)
    requires
        k.contexts.wf(),
        stable::keyed(k.definitions),
        no_orphans(k),
        graph::first_cycle(resolve::edges(k.definitions)) is None,
        0 <= f < k.activation_order().len(),
        k.activation_order().no_duplicates(),
        k.contexts.records.len() + 2 * k.activation_order().len() < u64::MAX,
        forall|j: int| 0 <= j < f ==> k.settled(#[trigger] k.activation_order()[j]),
        !k.settled(k.activation_order()[f]),
    ensures
        ({
            let order = k.activation_order();
            let k2 = k.activate(now).0;
            &&& framed(k, k2)
            &&& k2.contexts.wf()
            &&& k2.contexts.records.len() <= k.contexts.records.len() + 2 * order.len()
            &&& forall|j: int| 0 <= j < f ==> k2.settled(#[trigger] order[j])
            &&& k2.settled(order[f]) || k2.is_bare(order[f]) && !k.is_bare(order[f])
            &&& forall|x: Text| k.plugin(x) is Some ==> #[trigger] k2.plugin(x) is Some
        }),
{
    let order = k.activation_order();
    let k2 = k.activate(now).0;
    assert(order.take(order.len() as int) =~= order);
    pass_moves_the_front(k, order, order.len() as int, f, now);
    assert forall|j: int| 0 <= j < f implies k2.settled(#[trigger] order[j]) by {
        assert(k.settled(order[j]));
        assert(same_at(k, k2, order[j]));
        if k.definitions.dom().contains(order[j]) {
            settled_while_providers_stay(k, k2, j, f);
        }
    }
    assert(k.definitions.dom().contains(order[f]));
    settled_while_providers_stay(k, k2, f, f);
}

// ---- activations ask for no withdrawal --------------------------------

/// A pass of activations leaves the definitions for other hosts.
proof fn pass_leaves_the_remote(
    k: KernelV,
    order: Seq<Text>,
    states: Map<Text, ContextV>,
    now: Instant,
    x: Text,
)
    requires
        k.contexts.wf(),
        stable::keyed(k.definitions),
        k.contexts.records.len() + 2 * order.len() < u64::MAX,
        k.definition(x) matches Some(d) && d.remote,
    ensures
        ({
            let k2 = k.activate_in(order, states, now).0;
            &&& framed(k, k2)
            &&& same_at(k, k2, x)
            &&& k2.contexts.wf()
            &&& k2.contexts.records.len() <= k.contexts.records.len() + 2 * order.len()
        }),
    decreases order.len(),
{
    if order.len() > 0 {
        pass_leaves_the_remote(k, order.drop_last(), states, now, x);
        let (k1, changed) = k.activate_in(order.drop_last(), states, now);
        if !changed {
            activation_is_local(k1, order.last(), states, now);
        }
    }
}

/// Whether `b` has the active ones of `a` as they were, and others only where
/// their requirements were met in `a`, bound accordingly.
spec fn grown(a: KernelV, b: KernelV) -> bool {
    &&& framed(a, b)
    &&& forall|x: Text| #[trigger]
        a.is_active(x) ==> b.is_active(x) && b.states()[x] == a.states()[x] && b.plugin(x)
            == a.plugin(x)
    &&& forall|x: Text| #[trigger] b.is_active(x) ==> a.is_active(x) || newly_bound(a, b, x)
}

spec fn newly_bound(a: KernelV, b: KernelV, x: Text) -> bool {
    b.plugin(x) matches Some(p) && resolve::resolved(x, a.definitions, a.states()) == Ok::<
        Seq<BindingV>,
        ResolveErrorV,
    >(p.bindings)
}

proof fn same_active_binds(a: KernelV, b: KernelV, l: Text)
    requires
        stable::same_active(a, b),
        a.definitions.dom().contains(l),
        resolve::resolved(l, a.definitions, a.states()) is Ok,
    ensures
        resolve::resolved(l, b.definitions, b.states()) == resolve::resolved(
            l,
            a.definitions,
            a.states(),
        ),
{
    assert forall|x: Text| #[trigger]
        a.states().dom().contains(x) && a.states()[x].state.canon()
            == Fsm::Active implies b.states().dom().contains(x) && b.states()[x]
        == a.states()[x] by {
        assert(a.is_active(x));
    }
    stable::bound_while_active(a.definitions[l].requires, a.definitions, a.states(), b.states());
}

/// An activation that changes something.
proof fn change_grows(k0: KernelV, k: KernelV, l: Text, now: Instant)
    requires
        stable::same_active(k0, k),
        k.contexts.epoch == k0.contexts.epoch,
        k.contexts.wf(),
        k.contexts.records.len() + 1 < u64::MAX,
        stable::keyed(k.definitions),
        no_orphans(k0),
        k.activate_one(l, k0.states(), now).1,
    ensures
        grown(k0, k.activate_one(l, k0.states(), now).0),
{
    let k2 = k.activate_one(l, k0.states(), now).0;
    let def = k.definition(l)->0;
    activation_is_local(k, l, k0.states(), now);
    assert(!k0.remote_live(l));
    assert(!k0.is_active(l));
    assert(!k.is_active(l));
    match resolve::resolved(l, k.definitions, k0.states()) {
        Ok(bs) => {
            same_active_binds(k0, k, l);
            promotion_is_exact(k, l, def);
            creation_is_exact(k, l, def, bs, k.preserved(l, def), now);
            assert(k2.plugin(l) matches Some(p) && p.bindings == bs);
            assert(newly_bound(k0, k2, l));
            assert forall|x: Text| #[trigger] k0.is_active(x) implies k2.is_active(x)
                && k2.states()[x] == k0.states()[x] && k2.plugin(x) == k0.plugin(x) by {
                assert(x != l);
                assert(k.is_active(x));
                assert(k2.contexts.current_of(x) == k.contexts.current_of(x));
                assert(k2.plugin(x) == k.plugin(x));
            }
            assert forall|x: Text| #[trigger] k2.is_active(x) implies k0.is_active(x)
                || newly_bound(k0, k2, x) by {
                if x != l {
                    assert(k2.contexts.current_of(x) == k.contexts.current_of(x));
                    assert(k.is_active(x));
                }
            }
        },
        Err(e) => {
            waiting_is_exact(k, l, def, e.reason());
            stable::apart_keeps_active(k, k2, l);
            stable::same_active_chains(k0, k, k2);
        },
    }
}

proof fn pass_grows(k: KernelV, order: Seq<Text>, now: Instant)
    requires
        k.contexts.wf(),
        stable::keyed(k.definitions),
        no_orphans(k),
        k.contexts.records.len() + 2 * order.len() < u64::MAX,
    ensures
        ({
            let (k2, changed) = k.activate_in(order, k.states(), now);
            &&& grown(k, k2)
            &&& !changed ==> stable::same_active(k, k2) && k2.contexts.wf()
                && k2.contexts.records.len() <= k.contexts.records.len() + 2 * order.len()
        }),
    decreases order.len(),
{
    if order.len() > 0 {
        let rest = order.drop_last();
        pass_grows(k, rest, now);
        let (k1, changed) = k.activate_in(rest, k.states(), now);
        if !changed {
            if k1.activate_one(order.last(), k.states(), now).1 {
                change_grows(k, k1, order.last(), now);
            } else {
                stable::idle_activation(k, k1, order.last(), now);
            }
        }
    }
}

/// Bindings hold in the states that they come from.
proof fn fresh_bindings_hold(
    reqs: Seq<RequirementV>,
    defs: Definitions,
    states: Map<Text, ContextV>,
    i: int,
)
    requires
        resolve::bind_all(reqs, defs, states) matches Ok(bs) && 0 <= i < bs.len(),
    ensures
        resolve::binding_holds(resolve::bind_all(reqs, defs, states)->Ok_0[i], states),
    decreases reqs.len(),
{
    if reqs.len() > 0 {
        let rest = resolve::bind_all(reqs.drop_last(), defs, states)->Ok_0;
        if i < rest.len() {
            fresh_bindings_hold(reqs.drop_last(), defs, states, i);
        }
    }
}

/// The withdrawal of a definition for `reason`.
spec fn item_of(k: KernelV, l: Text, reason: Text) -> ItemV {
    ItemV { logical: l, def: k.definitions[l], reason }
}

/// Whether every withdrawal that the states ask for finds nothing to do.
spec fn at_ease(k: KernelV) -> bool {
    forall|l: Text|
        (#[trigger] k.withdrawal(l, k.states()) matches Some(r) ==> k.stands(item_of(k, l, r)))
}

/// Whether no definition that is attested on another host requires anything.
pub open spec fn attested_require_nothing(k: KernelV) -> bool {
    forall|l: Text| #[trigger] k.remote_live(l) ==> k.definitions[l].requires.len() == 0
}

proof fn stands_alike(a: KernelV, b: KernelV, item: ItemV)
    requires
        same_at(a, b, item.logical),
    ensures
        b.stands(item) == a.stands(item),
{
}

proof fn staleness_is_old(a: KernelV, b: KernelV, l: Text)
    requires
        grown(a, b),
        b.plugin(l) == a.plugin(l),
        b.bindings_stale(l, b.states()),
    ensures
        a.bindings_stale(l, a.states()),
{
    let p = b.plugin(l)->0;
    let i = choose|i: int|
        0 <= i < p.bindings.len() && !resolve::binding_holds(
            #[trigger] p.bindings[i],
            b.states(),
        );
    if resolve::binding_holds(p.bindings[i], a.states()) {
        assert(a.is_active(p.bindings[i].provider_logical));
    }
    assert(!resolve::binding_holds(p.bindings[i], a.states()));
}

proof fn growth_binds(a: KernelV, b: KernelV, l: Text)
    requires
        grown(a, b),
        a.definitions.dom().contains(l),
        resolve::resolved(l, a.definitions, a.states()) is Ok,
    ensures
        resolve::resolved(l, b.definitions, b.states()) == resolve::resolved(
            l,
            a.definitions,
            a.states(),
        ),
{
    assert forall|x: Text| #[trigger]
        a.states().dom().contains(x) && a.states()[x].state.canon()
            == Fsm::Active implies b.states().dom().contains(x) && b.states()[x]
        == a.states()[x] by {
        assert(a.is_active(x));
    }
    stable::bound_while_active(a.definitions[l].requires, a.definitions, a.states(), b.states());
}

/// What was active before an activation asks for no new withdrawal, and what
/// became active asks for none.
proof fn ease_at(a: KernelV, b: KernelV, l: Text)
    requires
        grown(a, b),
        no_orphans(a),
        attested_require_nothing(a),
        at_ease(a),
        a.remote_live(l) ==> same_at(a, b, l),
        b.withdrawal(l, b.states()) is Some,
    ensures
        b.stands(item_of(b, l, b.withdrawal(l, b.states())->0)),
{
    assert(b.is_active(l));
    if a.remote_live(l) {
        assert(a.states().dom().contains(l) && a.states()[l] == a.remote_state(l));
        assert(a.definitions[l].requires.len() == 0);
        staleness_is_old(a, b, l);
        let r = a.withdrawal(l, a.states())->0;
        assert(a.withdrawal(l, a.states()) is Some);
        assert(a.stands(item_of(a, l, r)));
        stands_alike(a, b, item_of(a, l, r));
    } else if a.is_active(l) {
        assert(a.withdrawal(l, a.states()) is None) by {
            if let Some(r) = a.withdrawal(l, a.states()) {
                assert(a.stands(item_of(a, l, r)));
                assert(a.contexts.current_of(l) == Some(a.states()[l]));
            }
        }
        growth_binds(a, b, l);
        if b.bindings_stale(l, b.states()) {
            staleness_is_old(a, b, l);
        }
    } else {
        assert(newly_bound(a, b, l));
        growth_binds(a, b, l);
        let p = b.plugin(l)->0;
        assert forall|i: int| 0 <= i < p.bindings.len() implies resolve::binding_holds(
            #[trigger] p.bindings[i],
            b.states(),
        ) by {
            fresh_bindings_hold(b.definitions[l].requires, b.definitions, b.states(), i);
        }
        assert(!b.bindings_stale(l, b.states()));
    }
}

proof fn ease_stays(k: KernelV, now: Instant)
    requires
        k.contexts.wf(),
        stable::keyed(k.definitions),
        no_orphans(k),
        attested_require_nothing(k),
        k.contexts.records.len() + 2 * k.activation_order().len() < u64::MAX,
        at_ease(k),
    ensures
        at_ease(k.activate(now).0),
{
    let k2 = k.activate(now).0;
    pass_grows(k, k.activation_order(), now);
    assert forall|l: Text| (#[trigger] k2.withdrawal(l, k2.states()) matches Some(r)
        ==> k2.stands(item_of(k2, l, r))) by {
        if k2.withdrawal(l, k2.states()) is Some {
            if k.remote_live(l) {
                pass_leaves_the_remote(k, k.activation_order(), k.states(), now, l);
            }
            ease_at(k, k2, l);
        }
    }
}

// ---- one pass of withdrawals ------------------------------------------

impl KernelV {
    /// One withdrawal that waits for nothing.
    pub open spec fn withdraw_one(self, item: ItemV, now: Instant) -> (KernelV, bool) {
        match self.contexts.current_of(item.logical) {
            None => (self.create_waiting(item.def, item.reason), true),
            Some(st) => match st.state.canon() {
                Fsm::Active | Fsm::Preparing | Fsm::Registered => (
                    self.dispose_now(st.instance, now).create_waiting(item.def, item.reason),
                    true,
                ),
                Fsm::Waiting => self.ensure_waiting(item.logical, item.def, item.reason),
                Fsm::Disposed => (self.create_waiting(item.def, item.reason), true),
                _ => (self, false),
            },
        }
    }

    /// The withdrawals from `at` on, none of which waits; tells whether
    /// something changed.
    pub open spec fn withdraw_from(self, items: Seq<ItemV>, at: nat, now: Instant) -> (KernelV, bool)
        decreases items.len() - at,
    {
        if at >= items.len() {
            (self, false)
        } else {
            let (k, changed) = self.withdraw_one(items[at as int], now);
            let (k2, more) = k.withdraw_from(items, at + 1, now);
            (k2, changed || more)
        }
    }
}

proof fn apart_chains(a: KernelV, b: KernelV, c: KernelV, l: Text)
    requires
        stable::apart(a, b, l),
        stable::apart(b, c, l),
    ensures
        stable::apart(a, c, l),
{
    assert forall|x: Text| x != l implies #[trigger] c.contexts.current_of(x)
        == a.contexts.current_of(x) by {
        assert(b.contexts.current_of(x) == a.contexts.current_of(x));
    }
    assert forall|x: Text| x != l implies #[trigger] c.plugin(x) == a.plugin(x) by {
        assert(b.plugin(x) == a.plugin(x));
    }
}

/// What a withdrawal makes of its item.
proof fn withdrawal_is_exact(k: KernelV, item: ItemV, now: Instant)
    requires
        k.contexts.wf(),
        k.contexts.records.len() < u64::MAX,
        item.def.id == item.logical,
    ensures
        ({
            let (k2, changed) = k.withdraw_one(item, now);
            &&& touches(k, k2, item.logical, 1)
            &&& changed == !k.stands(item)
            &&& k.stands(item) ==> k2 == k
            &&& !k.stands(item) ==> waits_in(k, k2, item.logical, item.reason)
                && k2.contexts.current_of(item.logical)->0.state.canon() == Fsm::Waiting
        }),
{
    let l = item.logical;
    match k.contexts.current_of(l) {
        None => stable::create_stays_apart(k.contexts, l, Fsm::Waiting, Some(item.reason)),
        Some(st) => {
            assert(k.contexts.records[k.contexts.current[l] - 1].logical == l);
            assert(st.instance.0 == k.contexts.current[l]);
            match st.state.canon() {
                Fsm::Active | Fsm::Preparing | Fsm::Registered => {
                    stable::withdrawing_stays_apart(k, st.instance, now, l);
                    let (k1, b) = k.begin_dispose(st.instance, now);
                    stable::put_stays_apart(k.contexts, st.instance.0, Fsm::Quiescing, None, l);
                    stable::disposing_stays_apart(k1, b->rec, now, l);
                    let k2 = k1.finish_dispose(b->rec, now).0;
                    stable::create_stays_apart(k2.contexts, l, Fsm::Waiting, Some(item.reason));
                    assert(k2 == k.dispose_now(st.instance, now));
                    let k3 = k2.create_waiting(item.def, item.reason);
                    assert(k.withdraw_one(item, now) == (k3, true));
                    assert(stable::apart(k2, k3, l));
                    apart_chains(k, k1, k2, l);
                    apart_chains(k, k2, k3, l);
                    assert(waits_in(k, k3, l, item.reason));
                },
                Fsm::Disposed => stable::create_stays_apart(
                    k.contexts,
                    l,
                    Fsm::Waiting,
                    Some(item.reason),
                ),
                _ => {
                    waiting_is_exact(k, l, item.def, item.reason);
                    stable::idle_waiting_is_idle(k, l, item.def, item.reason);
                },
            }
        },
    }
}

/// Whether the items are distinct, each with its own definition.
spec fn sound_items(items: Seq<ItemV>) -> bool {
    &&& forall|i: int| 0 <= i < items.len() ==> (#[trigger] items[i]).def.id == items[i].logical
    &&& forall|i: int, j: int|
        0 <= i < j < items.len() ==> (#[trigger] items[i]).logical != (
        #[trigger] items[j]).logical
}

/// What a pass of withdrawals makes of each item, and of nothing else.
proof fn pass_is_exact(k: KernelV, items: Seq<ItemV>, at: nat, now: Instant)
    requires
        k.contexts.wf(),
        sound_items(items),
        at <= items.len(),
        k.contexts.records.len() + (items.len() - at) < u64::MAX,
    ensures
        ({
            let (k2, changed) = k.withdraw_from(items, at, now);
            &&& framed(k, k2)
            &&& k2.contexts.wf()
            &&& k2.contexts.records.len() <= k.contexts.records.len() + (items.len() - at)
            &&& forall|x: Text| #[trigger]
                same_at(k, k2, x) || exists|i: int|
                    at <= i < items.len() && (#[trigger] items[i]).logical == x
            &&& forall|i: int|
                at <= i < items.len() ==> if k.stands(#[trigger] items[i]) {
                    same_at(k, k2, items[i].logical)
                } else {
                    waits_in(k, k2, items[i].logical, items[i].reason) && k2.contexts.current_of(
                        items[i].logical,
                    )->0.state.canon() == Fsm::Waiting
                }
            &&& forall|x: Text| k.plugin(x) is Some ==> #[trigger] k2.plugin(x) is Some
            &&& !changed ==> k2 == k && forall|i: int|
                at <= i < items.len() ==> k.stands(#[trigger] items[i])
            &&& changed ==> exists|i: int|
                at <= i < items.len() && !k.stands(#[trigger] items[i])
        }),
    decreases items.len() - at,
{
    let (k2, changed) = k.withdraw_from(items, at, now);
    if at < items.len() {
        let item = items[at as int];
        withdrawal_is_exact(k, item, now);
        let (k1, first) = k.withdraw_one(item, now);
        pass_is_exact(k1, items, at + 1, now);
        let (_, more) = k1.withdraw_from(items, at + 1, now);
        assert forall|i: int| at < i < items.len() implies same_at(
            k,
            k1,
            (#[trigger] items[i]).logical,
        ) && k1.stands(items[i]) == k.stands(items[i]) by {
            assert(items[at as int].logical != items[i].logical);
            assert(k1.contexts.current_of(items[i].logical) == k.contexts.current_of(
                items[i].logical,
            ));
            assert(k1.plugin(items[i].logical) == k.plugin(items[i].logical));
            stands_alike(k, k1, items[i]);
        }
        assert(same_at(k1, k2, item.logical)) by {
            if !same_at(k1, k2, item.logical) {
                let i = choose|i: int|
                    at + 1 <= i < items.len() && (#[trigger] items[i]).logical == item.logical;
                assert(items[at as int].logical != items[i].logical);
            }
        }
        assert forall|x: Text| #[trigger] same_at(k, k2, x) || exists|i: int|
            at <= i < items.len() && (#[trigger] items[i]).logical == x by {
            if x == item.logical {
                assert(items[at as int].logical == x);
            } else {
                assert(k1.contexts.current_of(x) == k.contexts.current_of(x));
                assert(k1.plugin(x) == k.plugin(x));
                assert(same_at(k1, k2, x) || exists|i: int|
                    at + 1 <= i < items.len() && (#[trigger] items[i]).logical == x);
            }
        }
        assert forall|i: int| at <= i < items.len() implies if k.stands(#[trigger] items[i]) {
            same_at(k, k2, items[i].logical)
        } else {
            waits_in(k, k2, items[i].logical, items[i].reason) && k2.contexts.current_of(
                items[i].logical,
            )->0.state.canon() == Fsm::Waiting
        } by {
            if i == at {
                assert(same_at(k1, k2, item.logical));
            } else {
                assert(same_at(k, k1, items[i].logical));
                assert(k1.stands(items[i]) == k.stands(items[i]));
            }
        }
        assert forall|x: Text| k.plugin(x) is Some implies #[trigger] k2.plugin(x) is Some by {
            if x != item.logical {
                assert(k1.plugin(x) == k.plugin(x));
            }
            assert(k1.plugin(x) is Some);
        }
        if changed {
            if first {
                assert(!k.stands(items[at as int]));
            } else {
                let i = choose|i: int|
                    at + 1 <= i < items.len() && !k1.stands(#[trigger] items[i]);
                assert(!k.stands(items[i]));
            }
        }
    }
}

// ---- the pass within a job --------------------------------------------

proof fn step_of_a_pass(k: KernelV, job: JobV, p: PassV, now: Instant)
    requires
        job.stage == StageV::Withdraw(p),
        p.at < p.items.len(),
    ensures
        ({
            let (k2, stage, wait) = k.withdraw_step(p, now);
            k.step(job, now) == (k2, job.to(stage), wait)
        }),
{
    reveal(KernelV::step);
}

proof fn step_of_a_drain(k: KernelV, job: JobV, rec: ContextV, item: ItemV, p: PassV, now: Instant)
    requires
        job.stage == StageV::Drain(rec, item, p),
    ensures
        k.step(job, now) == (
            k.finish_dispose(rec, now).0.create_waiting(item.def, item.reason),
            job.to(StageV::Withdraw(PassV { changed: true, ..p })),
            None::<(InstanceId, Instant)>,
        ),
{
    reveal(KernelV::step);
}

/// A job that does not wait carries its withdrawals out in turn.
proof fn pass_advances(k: KernelV, job: JobV, p: PassV, now: Instant)
    requires
        job.stage == StageV::Withdraw(p),
        p.at <= p.items.len(),
        k.advance(job, now).1 is Done,
    ensures
        ({
            let (k2, changed) = k.withdraw_from(p.items, p.at, now);
            k.advance(job, now) == k2.advance(
                job.to(
                    StageV::Withdraw(
                        PassV { at: p.items.len(), changed: p.changed || changed, ..p },
                    ),
                ),
                now,
            )
        }),
    decreases p.items.len() - p.at,
{
    if p.at < p.items.len() {
        let item = p.items[p.at as int];
        step_of_a_pass(k, job, p, now);
        let (k1, stage, wait) = k.withdraw_step(p, now);
        assert(wait is None);
        stable::advances_by_a_step(k, job, now, k1, job.to(stage));
        let (ko, first) = k.withdraw_one(item, now);
        match stage {
            StageV::Withdraw(q) => {
                assert(k1 == ko);
                assert(q == (PassV { at: p.at + 1, changed: p.changed || first, ..p }));
                pass_advances(k1, job.to(stage), q, now);
            },
            StageV::Drain(rec, it, q) => {
                step_of_a_drain(k1, job.to(stage), rec, it, q, now);
                let q2 = PassV { changed: true, ..q };
                let j2 = job.to(stage).to(StageV::Withdraw(q2));
                let k2 = k1.finish_dispose(rec, now).0.create_waiting(it.def, it.reason);
                assert(k2 == ko);
                stable::advances_by_a_step(k1, job.to(stage), now, k2, j2);
                pass_advances(k2, j2, q2, now);
            },
            _ => {},
        }
    } else {
        assert(job.to(StageV::Withdraw(PassV { at: p.items.len(), changed: p.changed, ..p }))
            == job);
    }
}

// ---- one round within a job -------------------------------------------

/// Whether a job that begins in `k` ends with the round that `k1` begins: the
/// round changes nothing, and the job goes on to its conclusion from the state
/// that it left. The definitions are those of `k`, and nothing is attested
/// on another host that was not in `k`.
pub open spec fn last_round(k: KernelV, job: JobV, now: Instant, k1: KernelV) -> bool {
    &&& !k1.round(now).1
    &&& k.advance(job, now) == k1.round(now).0.advance(job.to(StageV::Conclude), now)
    &&& k1.definitions == k.definitions
    &&& forall|l: Text| #[trigger] k1.remote_live(l) ==> k.remote_live(l)
    &&& k1.contexts.wf()
    &&& k1.contexts.records.len() + 2 * k1.activation_order().len() < u64::MAX
}

spec fn ends_quiet(k: KernelV, job: JobV, now: Instant) -> bool {
    exists|k1: KernelV| last_round(k, job, now, k1)
}

proof fn ends_as(k: KernelV, job: JobV, k2: KernelV, job2: JobV, now: Instant)
    requires
        k.advance(job, now) == k2.advance(job2, now),
        job2.to(StageV::Conclude) == job.to(StageV::Conclude),
        k2.definitions == k.definitions,
        forall|l: Text| #[trigger] k2.remote_live(l) ==> k.remote_live(l),
        ends_quiet(k2, job2, now),
    ensures
        ends_quiet(k, job, now),
{
    let k1 = choose|k1: KernelV| last_round(k2, job2, now, k1);
    assert forall|l: Text| #[trigger] k1.remote_live(l) implies k.remote_live(l) by {
        assert(k2.remote_live(l));
    }
    assert(last_round(k, job, now, k1));
}

proof fn ends_at_once(k: KernelV, job: JobV, left: nat, now: Instant)
    requires
        job.stage == StageV::Reconcile(left),
        left > 0,
        k.contexts.wf(),
        k.contexts.records.len() + 2 * k.activation_order().len() < u64::MAX,
        !k.round(now).1,
    ensures
        ends_quiet(k, job, now),
{
    stable::quiet_rounds_are_the_last(k, job, left, now);
    assert(last_round(k, job, now, k));
}

proof fn standing_pass(k: KernelV, p: PassV, now: Instant)
    requires
        forall|i: int| p.at <= i < p.items.len() ==> k.stands(#[trigger] p.items[i]),
    ensures
        k.withdraw_all(p, now) == (k, p.changed),
    decreases p.items.len() - p.at,
{
    if p.at < p.items.len() {
        stable::step_at_rest(k, p, now);
        assert(k.stands(p.items[p.at as int]));
        standing_pass(k, PassV { at: p.at + 1, ..p }, now);
    }
}

proof fn step_after_changes(k: KernelV, job: JobV, p: PassV, now: Instant)
    requires
        job.stage == StageV::Withdraw(p),
        p.at >= p.items.len(),
        p.changed,
    ensures
        k.step(job, now) == (
            k,
            job.to(StageV::Reconcile(p.left)),
            None::<(InstanceId, Instant)>,
        ),
{
    reveal(KernelV::step);
}

proof fn step_to_an_activation(k: KernelV, job: JobV, p: PassV, now: Instant)
    requires
        job.stage == StageV::Withdraw(p),
        p.at >= p.items.len(),
        !p.changed,
        !p.cycle,
        k.activate(now).1,
    ensures
        k.step(job, now) == (
            k.activate(now).0,
            job.to(StageV::Reconcile(p.left)),
            None::<(InstanceId, Instant)>,
        ),
{
    reveal(KernelV::step);
}

/// How a job that does not wait goes through a round.
proof fn round_advances(
    k: KernelV,
    job: JobV,
    left: nat,
    now: Instant,
    cycle: bool,
    items: Seq<ItemV>,
)
    requires
        job.stage == StageV::Reconcile(left),
        left > 0,
        k.plan() == (PlanV::Withdraw { cycle, items }),
        k.contexts.wf(),
        sound_items(items),
        k.contexts.records.len() + items.len() < u64::MAX,
        k.advance(job, now).1 is Done,
    ensures
        ({
            let (k2, changed) = k.withdraw_from(items, 0, now);
            let next = job.to(StageV::Reconcile((left - 1) as nat));
            &&& changed ==> k.advance(job, now) == k2.advance(next, now)
            &&& !changed && cycle ==> !k.round(now).1
            &&& !changed && !cycle && !k.activate(now).1 ==> !k.round(now).1
            &&& !changed && !cycle && k.activate(now).1 ==> k.advance(job, now) == k.activate(
                now,
            ).0.advance(next, now)
        }),
{
    let next = job.to(StageV::Reconcile((left - 1) as nat));
    let p = PassV { left: (left - 1) as nat, cycle, items, at: 0, changed: false };
    let j1 = job.to(StageV::Withdraw(p));
    stable::step_to_a_pass(k, job, left, now);
    stable::advances_by_a_step(k, job, now, k, j1);
    pass_advances(k, j1, p, now);
    pass_is_exact(k, items, 0, now);
    let (k2, changed) = k.withdraw_from(items, 0, now);
    let end = PassV { at: items.len(), changed, ..p };
    let j2 = j1.to(StageV::Withdraw(end));
    if changed {
        step_after_changes(k2, j2, end, now);
        stable::advances_by_a_step(k2, j2, now, k2, next);
    } else {
        let p0 = PassV { left: 0, cycle, items, at: 0, changed: false };
        assert forall|i: int| p0.at <= i < p0.items.len() implies k.stands(
            #[trigger] p0.items[i],
        ) by {
            assert(k.stands(items[i]));
        }
        standing_pass(k, p0, now);
        if !cycle && k.activate(now).1 {
            step_to_an_activation(k2, j2, end, now);
            stable::advances_by_a_step(k2, j2, now, k.activate(now).0, next);
        }
    }
}

// ---- the items of a round ---------------------------------------------

/// Whether `items` are the withdrawals that the states ask for in `order`.
spec fn items_for(k: KernelV, items: Seq<ItemV>, order: Seq<Text>) -> bool {
    &&& items.len() <= order.len()
    &&& sound_items(items)
    &&& forall|i: int|
        0 <= i < items.len() ==> {
            let it = #[trigger] items[i];
            &&& order.contains(it.logical)
            &&& k.withdrawal(it.logical, k.states()) == Some(it.reason)
            &&& it == item_of(k, it.logical, it.reason)
        }
}

proof fn withdrawals_are_sound(k: KernelV, order: Seq<Text>)
    requires
        stable::keyed(k.definitions),
        order.no_duplicates(),
    ensures
        items_for(k, k.withdrawals(order, k.states()), order),
    decreases order.len(),
{
    if order.len() > 0 {
        let a = order.drop_last();
        withdrawals_are_sound(k, a);
        let rest = k.withdrawals(a, k.states());
        let items = k.withdrawals(order, k.states());
        assert forall|x: Text| #[trigger] a.contains(x) implies order.contains(x) && x
            != order.last() by {
            let j = choose|j: int| 0 <= j < a.len() && a[j] == x;
            assert(order[j] == x);
        }
        assert(order[order.len() - 1] == order.last());
        if k.withdrawal(order.last(), k.states()) is Some {
            assert forall|i: int| 0 <= i < items.len() implies {
                let it = #[trigger] items[i];
                &&& order.contains(it.logical)
                &&& k.withdrawal(it.logical, k.states()) == Some(it.reason)
                &&& it == item_of(k, it.logical, it.reason)
                &&& it.def.id == it.logical
                &&& i > 0 ==> it.logical != order.last()
            } by {
                if i > 0 {
                    assert(items[i] == rest[i - 1]);
                    assert(a.contains(rest[i - 1].logical));
                }
            }
            assert forall|i: int, j: int| 0 <= i < j < items.len() implies (
            #[trigger] items[i]).logical != (#[trigger] items[j]).logical by {
                assert(items[j] == rest[j - 1]);
                if i > 0 {
                    assert(items[i] == rest[i - 1]);
                }
            }
        }
    }
}

/// Whether `items` are the withdrawals that the cycle `path` asks for.
spec fn items_of_cycle(defs: Definitions, items: Seq<ItemV>, names: Seq<Text>) -> bool {
    &&& sound_items(items)
    &&& forall|i: int|
        0 <= i < items.len() ==> names.contains((#[trigger] items[i]).logical)
            && defs.dom().contains(items[i].logical)
}

proof fn cycle_items_are_sound(defs: Definitions, path: Seq<Text>, names: Seq<Text>)
    requires
        stable::keyed(defs),
        names.no_duplicates(),
    ensures
        items_of_cycle(defs, reconcile::cycle_items(defs, path, names), names),
    decreases names.len(),
{
    if names.len() > 0 {
        let a = names.drop_last();
        cycle_items_are_sound(defs, path, a);
        assert(names[names.len() - 1] == names.last());
        assert forall|x: Text| #[trigger] a.contains(x) implies names.contains(x) && x
            != names.last() by {
            let j = choose|j: int| 0 <= j < a.len() && a[j] == x;
            assert(names[j] == x);
        }
    }
}

/// Distinct items are no more than there are definitions.
proof fn items_are_few(defs: Definitions, items: Seq<ItemV>)
    requires
        defs.dom().finite(),
        sound_items(items),
        forall|i: int| 0 <= i < items.len() ==> defs.dom().contains((#[trigger] items[i]).logical),
    ensures
        items.len() <= defs.dom().len(),
{
    let ls = items.map_values(|it: ItemV| it.logical);
    assert(ls.no_duplicates()) by {
        assert forall|i: int, j: int| 0 <= i < ls.len() && 0 <= j < ls.len() && i != j implies ls[i]
            != ls[j] by {
            if i < j {
                assert(items[i].logical != items[j].logical);
            } else {
                assert(items[j].logical != items[i].logical);
            }
        }
    }
    ls.unique_seq_to_set();
    assert(ls.to_set().subset_of(defs.dom())) by {
        assert forall|x: Text| ls.to_set().contains(x) implies defs.dom().contains(x) by {
            let i = choose|i: int| 0 <= i < ls.len() && ls[i] == x;
            assert(items[i].logical == x);
        }
    }
    vstd::set_lib::lemma_len_subset(ls.to_set(), defs.dom());
}

// ---- the rounds that activate -----------------------------------------

/// How many activations a round makes at most.
pub open spec fn round_room(k: KernelV) -> nat {
    2 * k.activation_order().len() + k.definitions.dom().len()
}

/// What the rounds that are left start from.
spec fn ready(k: KernelV, left: nat) -> bool {
    &&& k.contexts.wf()
    &&& stable::keyed(k.definitions)
    &&& k.definitions.dom().len() > 0
    &&& no_orphans(k)
    &&& attested_require_nothing(k)
    &&& k.contexts.records.len() + left * round_room(k) < u64::MAX
}

proof fn room_left(k: KernelV, k2: KernelV, left: nat)
    requires
        left > 0,
        ready(k, left),
        framed(k, k2),
        k2.contexts.wf(),
        k2.contexts.records.len() <= k.contexts.records.len() + round_room(k),
    ensures
        ready(k2, (left - 1) as nat),
        k.contexts.records.len() + round_room(k) < u64::MAX,
{
    let r = round_room(k);
    assert(round_room(k2) == r);
    assert(left * r == (left - 1) * r + r) by (nonlinear_arith)
        requires
            left > 0,
    ;
    assert((left - 1) * r >= 0) by (nonlinear_arith)
        requires
            left > 0,
            r >= 0,
    ;
    assert forall|l: Text| #[trigger]
        k2.remotes.dom().contains(l) implies (k2.definition(l) matches Some(d) && d.remote) by {
        assert(k.remotes.dom().contains(l));
    }
    assert forall|l: Text| #[trigger] k2.remote_live(l) implies k2.definitions[l].requires.len()
        == 0 by {
        assert(k.remote_live(l));
    }
}

proof fn room_now(k: KernelV, left: nat)
    requires
        left > 0,
        ready(k, left),
    ensures
        k.contexts.records.len() + round_room(k) < u64::MAX,
{
    room_left(k, k, left);
}

proof fn plan_without_orphans(k: KernelV)
    requires
        no_orphans(k),
        k.remotes.dom().finite(),
        k.definitions.dom().len() > 0,
    ensures
        k.plan() is Withdraw,
{
    let ks = text::in_order(k.remotes.dom());
    text::in_order_sorted(k.remotes.dom());
    assert forall|i: int| 0 <= i < ks.len() implies !k.is_orphan(#[trigger] ks[i]) by {
        assert(ks.to_set().contains(ks[i]));
        assert(k.remotes.dom().contains(ks[i]));
    }
    none_orphaned(k, ks);
}

proof fn none_orphaned(k: KernelV, ks: Seq<Text>)
    requires
        forall|i: int| 0 <= i < ks.len() ==> !k.is_orphan(#[trigger] ks[i]),
    ensures
        k.orphans(ks).len() == 0,
    decreases ks.len(),
{
    if ks.len() > 0 {
        let a = ks.drop_last();
        assert forall|i: int| 0 <= i < a.len() implies !k.is_orphan(#[trigger] a[i]) by {
            assert(a[i] == ks[i]);
        }
        none_orphaned(k, a);
        assert(ks[ks.len() - 1] == ks.last());
    }
}

/// The definitions that do not stand before position `s`.
spec fn ahead(k: KernelV, s: int) -> Set<Text> {
    k.definitions.dom().difference(k.activation_order().take(s).to_set())
}

/// Those of them without an entry.
spec fn ahead_bare(k: KernelV, s: int) -> Set<Text> {
    ahead(k, s).filter(|l: Text| k.plugin(l) is None)
}

/// The first unsettled position from `s` on.
proof fn next_unsettled(k: KernelV, s: int) -> (f: int)
    requires
        0 <= s <= k.activation_order().len(),
        forall|j: int| 0 <= j < s ==> k.settled(#[trigger] k.activation_order()[j]),
    ensures
        s <= f <= k.activation_order().len(),
        forall|j: int| 0 <= j < f ==> k.settled(#[trigger] k.activation_order()[j]),
        f < k.activation_order().len() ==> !k.settled(k.activation_order()[f]),
    decreases k.activation_order().len() - s,
{
    if s == k.activation_order().len() || !k.settled(k.activation_order()[s]) {
        s
    } else {
        next_unsettled(k, s + 1)
    }
}

/// What is ahead shrinks as the front goes on.
proof fn less_is_ahead(k: KernelV, k2: KernelV, s: int, f: int)
    requires
        framed(k, k2),
        k.definitions.dom().finite(),
        0 <= s <= f < k.activation_order().len(),
        k.activation_order().no_duplicates(),
        k.definitions.dom().contains(k.activation_order()[f]),
        forall|x: Text| k.plugin(x) is Some ==> #[trigger] k2.plugin(x) is Some,
    ensures
        ahead(k2, f).len() <= ahead(k, s).len(),
        ahead_bare(k2, f).len() <= ahead_bare(k, s).len(),
        ahead(k2, f + 1).len() + 1 <= ahead(k, s).len(),
        ahead_bare(k2, f + 1).len() <= ahead_bare(k, s).len(),
        k.plugin(k.activation_order()[f]) is None ==> ahead_bare(k2, f + 1).len() + 1
            <= ahead_bare(k, s).len(),
{
    let order = k.activation_order();
    let l = order[f];
    assert forall|x: Text| ahead(k2, f).contains(x) implies ahead(k, s).contains(x) by {
        if order.take(s).to_set().contains(x) {
            let i = choose|i: int| 0 <= i < order.take(s).len() && order.take(s)[i] == x;
            assert(order.take(f)[i] == x);
        }
    }
    assert(order.take(f + 1)[f] == l);
    assert(!order.take(f).to_set().contains(l)) by {
        if order.take(f).to_set().contains(l) {
            let i = choose|i: int| 0 <= i < order.take(f).len() && order.take(f)[i] == l;
            assert(order[i] == l);
        }
    }
    assert forall|x: Text| ahead(k2, f + 1).contains(x) implies ahead(k2, f).contains(x) && x
        != l by {
        if order.take(f).to_set().contains(x) {
            let i = choose|i: int| 0 <= i < order.take(f).len() && order.take(f)[i] == x;
            assert(order.take(f + 1)[i] == x);
        }
    }
    assert(ahead(k2, f).contains(l));
    let whole = ahead(k, s);
    let bare = ahead_bare(k, s);
    assert forall|x: Text| ahead_bare(k2, f).contains(x) implies bare.contains(x) by {
        assert(k2.plugin(x) is None);
        assert(k.plugin(x) is None);
    }
    vstd::set_lib::lemma_len_subset(ahead(k2, f), whole);
    vstd::set_lib::lemma_len_subset(ahead_bare(k2, f), bare);
    vstd::set_lib::lemma_len_subset(ahead(k2, f + 1), whole.remove(l));
    assert(ahead_bare(k2, f + 1).subset_of(bare.remove(l))) by {
        assert forall|x: Text| ahead_bare(k2, f + 1).contains(x) implies bare.remove(
            l,
        ).contains(x) by {
            assert(ahead_bare(k2, f).contains(x));
        }
    }
    vstd::set_lib::lemma_len_subset(ahead_bare(k2, f + 1), bare.remove(l));
}

proof fn ease_stands(k: KernelV, items: Seq<ItemV>, order: Seq<Text>)
    requires
        at_ease(k),
        items_for(k, items, order),
    ensures
        forall|i: int| 0 <= i < items.len() ==> k.stands(#[trigger] items[i]),
{
    assert forall|i: int| 0 <= i < items.len() implies k.stands(#[trigger] items[i]) by {
        let it = items[i];
        assert(k.withdrawal(it.logical, k.states()) == Some(it.reason));
        assert(k.stands(item_of(k, it.logical, it.reason)));
    }
}

spec fn unit(b: bool) -> int {
    if b {
        1
    } else {
        0
    }
}

/// A round whose withdrawals find nothing to do.
proof fn activation_round(k: KernelV, job: JobV, left: nat, now: Instant)
    requires
        job.stage == StageV::Reconcile(left),
        left > 0,
        ready(k, left),
        k.remotes.dom().finite(),
        graph::first_cycle(resolve::edges(k.definitions)) is None,
        at_ease(k),
        k.advance(job, now).1 is Done,
    ensures
        k.activation_order().no_duplicates(),
        !k.activate(now).1 ==> ends_quiet(k, job, now),
        k.activate(now).1 ==> k.advance(job, now) == k.activate(now).0.advance(
            job.to(StageV::Reconcile((left - 1) as nat)),
            now,
        ),
{
    let order = k.activation_order();
    let items = k.withdrawals(order, k.states());
    let some = k.definitions.dom().choose();
    assert(k.definitions.dom().contains(some));
    laws::providers_are_activated_first(k, some);
    plan_without_orphans(k);
    assert(k.plan() == (PlanV::Withdraw { cycle: false, items }));
    withdrawals_are_sound(k, order);
    room_now(k, left);
    round_advances(k, job, left, now, false, items);
    ease_stands(k, items, order);
    pass_is_exact(k, items, 0, now);
    assert(!k.withdraw_from(items, 0, now).1);
    if !k.activate(now).1 {
        ends_at_once(k, job, left, now);
    }
}

/// What an activation that changes something leaves ahead, where the front is
/// at `f`.
proof fn activation_advances(k: KernelV, left: nat, now: Instant, s: int) -> (f: int)
    requires
        left > 0,
        ready(k, left),
        graph::first_cycle(resolve::edges(k.definitions)) is None,
        k.activation_order().no_duplicates(),
        at_ease(k),
        0 <= s <= k.activation_order().len(),
        forall|j: int| 0 <= j < s ==> k.settled(#[trigger] k.activation_order()[j]),
        k.activate(now).1,
    ensures
        ({
            let order = k.activation_order();
            let k2 = k.activate(now).0;
            &&& s <= f < order.len()
            &&& s < f ==> k.settled(order[s])
            &&& ready(k2, (left - 1) as nat)
            &&& framed(k, k2)
            &&& at_ease(k2)
            &&& forall|j: int| 0 <= j < f ==> k2.settled(#[trigger] order[j])
            &&& k2.settled(order[f]) || k2.is_bare(order[f]) && !k.is_bare(order[f])
            &&& 1 <= ahead(k2, f).len() <= ahead(k, s).len()
            &&& ahead_bare(k2, f).len() <= ahead_bare(k, s).len()
            &&& ahead(k2, f + 1).len() + 1 <= ahead(k, s).len()
            &&& ahead_bare(k2, f + 1).len() <= ahead_bare(k, s).len()
            &&& k.plugin(order[f]) is None ==> ahead_bare(k2, f + 1).len() + 1 <= ahead_bare(
                k,
                s,
            ).len()
        }),
{
    let order = k.activation_order();
    let k2 = k.activate(now).0;
    room_now(k, left);
    let f = next_unsettled(k, s);
    if f == order.len() {
        settled_prefix(k, order, f, now);
        assert(order.take(f) =~= order);
    }
    the_front_advances(k, f, now);
    ease_stays(k, now);
    room_left(k, k2, left);
    less_is_ahead(k, k2, s, f);
    assert(ahead(k2, f).contains(order[f])) by {
        if order.take(f).to_set().contains(order[f]) {
            let i = choose|i: int| 0 <= i < order.take(f).len() && order.take(f)[i] == order[f];
            assert(order[i] == order[f]);
        }
    }
    vstd::set_lib::lemma_len_subset(set![order[f]], ahead(k2, f));
    f
}

/// Once withdrawals find nothing to do, a quiet round comes: each round that
/// changes something settles a further position, or gives the right reason to
/// one without an entry. `half` tells that this happened at position `s`.
proof fn activations_end(k: KernelV, job: JobV, left: nat, now: Instant, s: int, half: bool)
    requires
        job.stage == StageV::Reconcile(left),
        left > 0,
        ready(k, left),
        k.remotes.dom().finite(),
        graph::first_cycle(resolve::edges(k.definitions)) is None,
        at_ease(k),
        0 <= s <= k.activation_order().len(),
        forall|j: int| 0 <= j < s ==> k.settled(#[trigger] k.activation_order()[j]),
        half ==> s < k.activation_order().len() && k.is_bare(k.activation_order()[s])
            && !k.settled(k.activation_order()[s]),
        left >= ahead(k, s).len() + ahead_bare(k, s).len() - unit(half) + 1,
        k.advance(job, now).1 is Done,
    ensures
        ends_quiet(k, job, now),
    decreases left,
{
    activation_round(k, job, left, now);
    if k.activate(now).1 {
        let order = k.activation_order();
        let k2 = k.activate(now).0;
        let f = activation_advances(k, left, now, s);
        let next = job.to(StageV::Reconcile((left - 1) as nat));
        assert(k2.activation_order() == order);
        if k2.settled(order[f]) {
            activations_end(k2, next, (left - 1) as nat, now, f + 1, false);
        } else {
            activations_end(k2, next, (left - 1) as nat, now, f, true);
        }
        ends_as(k, job, k2, next, now);
    }
}

// ---- the rounds that withdraw -----------------------------------------

/// Why an instance is withdrawn whose requirements are met.
spec fn stale() -> Text {
    "stale-binding: provider replaced; rebinding"@
}

/// Whether no further withdrawal of `l` changes anything, as long as nothing
/// is activated.
spec fn withdrawn(k: KernelV, l: Text) -> bool {
    if k.remote_live(l) {
        k.plugin(l) matches Some(p) && (p.bindings.len() == 0 || k.shows(l, stale())
            && k.contexts.current_of(l)->0.state.canon() == Fsm::Waiting)
    } else {
        !k.is_active(l) && k.plugin(l) is Some
    }
}

spec fn all_withdrawn(k: KernelV) -> Set<Text> {
    k.definitions.dom().filter(|l: Text| withdrawn(k, l))
}

/// The reason of an attested definition that requires nothing.
proof fn attested_are_stale(k: KernelV, l: Text)
    requires
        attested_require_nothing(k),
        k.remote_live(l),
        k.withdrawal(l, k.states()) is Some,
    ensures
        k.withdrawal(l, k.states()) == Some(stale()),
        k.bindings_stale(l, k.states()),
{
    assert(k.definitions[l].requires.len() == 0);
}

proof fn withdrawn_are_left(k: KernelV, items: Seq<ItemV>, order: Seq<Text>, now: Instant, l: Text)
    requires
        k.contexts.wf(),
        attested_require_nothing(k),
        items_for(k, items, order),
        k.contexts.records.len() + items.len() < u64::MAX,
        k.definitions.dom().contains(l),
        withdrawn(k, l),
    ensures
        withdrawn(k.withdraw_from(items, 0, now).0, l),
        forall|i: int| 0 <= i < items.len() && (#[trigger] items[i]).logical == l ==> k.stands(
            items[i],
        ),
{
    let k2 = k.withdraw_from(items, 0, now).0;
    pass_is_exact(k, items, 0, now);
    assert forall|i: int| 0 <= i < items.len() && (#[trigger] items[i]).logical == l implies k.stands(
        items[i],
    ) by {
        assert(k.withdrawal(l, k.states()) == Some(items[i].reason));
        assert(k.is_active(l));
        assert(k.remote_live(l));
        attested_are_stale(k, l);
    }
    assert(same_at(k, k2, l)) by {
        if !same_at(k, k2, l) {
            let i = choose|i: int| 0 <= i < items.len() && (#[trigger] items[i]).logical == l;
            assert(k.stands(items[i]));
        }
    }
}

proof fn withdrawals_withdraw(k: KernelV, items: Seq<ItemV>, order: Seq<Text>, now: Instant, i: int)
    requires
        k.contexts.wf(),
        attested_require_nothing(k),
        items_for(k, items, order),
        k.contexts.records.len() + items.len() < u64::MAX,
        0 <= i < items.len(),
        !k.stands(items[i]),
    ensures
        !withdrawn(k, items[i].logical),
        withdrawn(k.withdraw_from(items, 0, now).0, items[i].logical),
        k.definitions.dom().contains(items[i].logical),
{
    let l = items[i].logical;
    let k2 = k.withdraw_from(items, 0, now).0;
    assert(k.withdrawal(l, k.states()) == Some(items[i].reason));
    if withdrawn(k, l) {
        withdrawn_are_left(k, items, order, now, l);
        assert(k.stands(items[i]));
    }
    pass_is_exact(k, items, 0, now);
    assert(waits_in(k, k2, l, items[i].reason));
    if k.remote_live(l) {
        attested_are_stale(k, l);
    } else {
        assert(k.contexts.current_of(l) == Some(k.states()[l]));
        assert(!k2.is_active(l));
    }
}

proof fn more_are_withdrawn(k: KernelV, items: Seq<ItemV>, order: Seq<Text>, now: Instant)
    requires
        k.contexts.wf(),
        k.definitions.dom().finite(),
        attested_require_nothing(k),
        items_for(k, items, order),
        k.contexts.records.len() + items.len() < u64::MAX,
        k.withdraw_from(items, 0, now).1,
    ensures
        all_withdrawn(k.withdraw_from(items, 0, now).0).len() >= all_withdrawn(k).len() + 1,
{
    let k2 = k.withdraw_from(items, 0, now).0;
    pass_is_exact(k, items, 0, now);
    let i = choose|i: int| 0 <= i < items.len() && !k.stands(#[trigger] items[i]);
    withdrawals_withdraw(k, items, order, now, i);
    let l = items[i].logical;
    let a = all_withdrawn(k);
    let b = all_withdrawn(k2);
    assert forall|x: Text| a.insert(l).contains(x) implies b.contains(x) by {
        if x != l {
            withdrawn_are_left(k, items, order, now, x);
        }
    }
    assert(!a.contains(l));
    vstd::set_lib::lemma_len_subset(a.insert(l), b);
}

proof fn ease_of_standing(k: KernelV, items: Seq<ItemV>)
    requires
        items == k.withdrawals(k.activation_order(), k.states()),
        items_for(k, items, k.activation_order()),
        k.definitions.dom().finite(),
        graph::first_cycle(resolve::edges(k.definitions)) is None,
        forall|i: int| 0 <= i < items.len() ==> k.stands(#[trigger] items[i]),
    ensures
        at_ease(k),
{
    assert forall|l: Text| (#[trigger] k.withdrawal(l, k.states()) matches Some(r) ==> k.stands(
        item_of(k, l, r),
    )) by {
        if k.withdrawal(l, k.states()) is Some {
            laws::providers_are_activated_first(k, l);
            laws::withdrawals_members(k, k.activation_order(), k.states(), l);
            let i = choose|i: int| 0 <= i < items.len() && (#[trigger] items[i]).logical == l;
            assert(k.stands(items[i]));
        }
    }
}

/// Each round that withdraws something withdraws a definition for good, as
/// long as nothing is activated; then the activations follow.
proof fn withdrawals_end(k: KernelV, job: JobV, left: nat, now: Instant)
    requires
        job.stage == StageV::Reconcile(left),
        ready(k, left),
        k.remotes.dom().finite(),
        graph::first_cycle(resolve::edges(k.definitions)) is None,
        left >= 2 * k.definitions.dom().len() - all_withdrawn(k).len() + 1,
        k.advance(job, now).1 is Done,
    ensures
        ends_quiet(k, job, now),
    decreases left,
{
    let order = k.activation_order();
    let items = k.withdrawals(order, k.states());
    let n = k.definitions.dom().len();
    let some = k.definitions.dom().choose();
    assert(k.definitions.dom().contains(some));
    laws::providers_are_activated_first(k, some);
    plan_without_orphans(k);
    assert(k.plan() == (PlanV::Withdraw { cycle: false, items }));
    withdrawals_are_sound(k, order);
    vstd::set_lib::lemma_len_subset(all_withdrawn(k), k.definitions.dom());
    room_now(k, left);
    round_advances(k, job, left, now, false, items);
    pass_is_exact(k, items, 0, now);
    let (k2, changed) = k.withdraw_from(items, 0, now);
    if changed {
        more_are_withdrawn(k, items, order, now);
        room_left(k, k2, left);
        let next = job.to(StageV::Reconcile((left - 1) as nat));
        withdrawals_end(k2, next, (left - 1) as nat, now);
        ends_as(k, job, k2, next, now);
    } else {
        ease_of_standing(k, items);
        assert(order.take(0).to_set() =~= Set::empty());
        assert(ahead(k, 0) =~= k.definitions.dom());
        let bare = ahead_bare(k, 0);
        let done = all_withdrawn(k);
        assert(bare.disjoint(done));
        vstd::set_lib::lemma_set_disjoint_lens(bare, done);
        vstd::set_lib::lemma_len_subset(bare.union(done), k.definitions.dom());
        activations_end(k, job, left, now, 0, false);
    }
}

// ---- the rounds of a cycle --------------------------------------------

/// Whether the item stands, but for a missing entry.
spec fn almost_stands(k: KernelV, item: ItemV) -> bool {
    k.stands(item) || {
        &&& k.plugin(item.logical) is None
        &&& k.contexts.current_of(item.logical) matches Some(c) && c.state.canon() == Fsm::Waiting
            && c.cause == Some(item.reason)
    }
}

/// The members of a cycle wait after one round, all with an entry after two.
proof fn cycle_ends(
    k: KernelV,
    job: JobV,
    left: nat,
    now: Instant,
    path: Seq<Text>,
    items: Seq<ItemV>,
    more: nat,
)
    requires
        job.stage == StageV::Reconcile(left),
        ready(k, left),
        k.remotes.dom().finite(),
        graph::first_cycle(resolve::edges(k.definitions)) == Some(path),
        more <= 2,
        left >= more + 1,
        items == reconcile::cycle_items(k.definitions, path, text::in_order(path.to_set())),
        more == 1 ==> forall|i: int|
            0 <= i < items.len() ==> almost_stands(k, #[trigger] items[i]),
        more == 0 ==> forall|i: int| 0 <= i < items.len() ==> k.stands(#[trigger] items[i]),
        k.advance(job, now).1 is Done,
    ensures
        ends_quiet(k, job, now),
    decreases more,
{
    let names = text::in_order(path.to_set());
    plan_without_orphans(k);
    assert(k.plan() == (PlanV::Withdraw { cycle: true, items }));
    vstd::seq_lib::seq_to_set_is_finite(path);
    text::in_order_sorted(path.to_set());
    cycle_items_are_sound(k.definitions, path, names);
    items_are_few(k.definitions, items);
    room_now(k, left);
    round_advances(k, job, left, now, true, items);
    pass_is_exact(k, items, 0, now);
    let (k2, changed) = k.withdraw_from(items, 0, now);
    if !changed {
        ends_at_once(k, job, left, now);
    } else {
        room_left(k, k2, left);
        plan_without_orphans(k2);
        assert(k2.plan() == (PlanV::Withdraw { cycle: true, items }));
        let next = job.to(StageV::Reconcile((left - 1) as nat));
        assert(more > 0);
        assert forall|i: int| 0 <= i < items.len() implies almost_stands(k2, #[trigger] items[i])
            && (more == 1 ==> k2.stands(items[i])) by {
            let it = items[i];
            if k.stands(items[i]) {
                stands_alike(k, k2, it);
            } else {
                assert(waits_in(k, k2, it.logical, it.reason));
                assert(k2.contexts.current_of(it.logical)->0.state.canon() == Fsm::Waiting);
                if k2.shows(it.logical, it.reason) {
                    assert(k2.stands(it));
                }
            }
        }
        cycle_ends(k2, next, (left - 1) as nat, now, path, items, (more - 1) as nat);
        ends_as(k, job, k2, next, now);
    }
}

// ---- registrations without a definition -------------------------------

proof fn orphans_are_found(k: KernelV, ks: Seq<Text>, l: Text)
    ensures
        k.orphans(ks).contains(l) <==> ks.contains(l) && k.is_orphan(l),
    decreases ks.len(),
{
    if ks.len() > 0 {
        let a = ks.drop_last();
        let rest = k.orphans(a);
        orphans_are_found(k, a, l);
        assert(ks[ks.len() - 1] == ks.last());
        if a.contains(l) {
            let i = choose|i: int| 0 <= i < a.len() && a[i] == l;
            assert(ks[i] == l);
        }
        if ks.contains(l) && l != ks.last() {
            let i = choose|i: int| 0 <= i < ks.len() && ks[i] == l;
            assert(a[i] == l);
        }
        let all = k.orphans(ks);
        if k.is_orphan(ks.last()) {
            assert(all == rest.push(ks.last()));
            assert(all[all.len() - 1] == ks.last());
            if rest.contains(l) {
                let i = choose|i: int| 0 <= i < rest.len() && rest[i] == l;
                assert(all[i] == l);
            }
            if all.contains(l) && l != ks.last() {
                let i = choose|i: int| 0 <= i < all.len() && all[i] == l;
                assert(rest[i] == l);
            }
        }
    }
}

proof fn drops_only_drop(k: KernelV, ls: Seq<Text>)
    ensures
        ({
            let k2 = k.drop_remotes(ls);
            &&& k2.definitions == k.definitions
            &&& k2.contexts == k.contexts
            &&& k2.plugins == k.plugins
            &&& k2.remotes.submap_of(k.remotes)
            &&& forall|l: Text| ls.contains(l) ==> !(#[trigger] k2.remotes.dom().contains(l))
        }),
    decreases ls.len(),
{
    if ls.len() > 0 {
        let a = ls.drop_last();
        drops_only_drop(k, a);
        let k2 = k.drop_remotes(ls);
        assert forall|l: Text| ls.contains(l) implies !(#[trigger] k2.remotes.dom().contains(
            l,
        )) by {
            if l != ls.last() {
                let i = choose|i: int| 0 <= i < ls.len() && ls[i] == l;
                assert(a[i] == l);
                assert(!k.drop_remotes(a).remotes.dom().contains(l));
            }
        }
    }
}

proof fn step_to_a_drop(k: KernelV, job: JobV, left: nat, now: Instant)
    requires
        job.stage == StageV::Reconcile(left),
        left > 0,
    ensures
        k.plan() matches PlanV::Drop(ls) ==> k.step(job, now) == (
            k.drop_remotes(ls),
            job.to(StageV::Reconcile((left - 1) as nat)),
            None::<(InstanceId, Instant)>,
        ),
{
    reveal(KernelV::step);
}

/// The rounds without orphaned registrations.
proof fn rounds_end(k: KernelV, job: JobV, left: nat, now: Instant)
    requires
        job.stage == StageV::Reconcile(left),
        ready(k, left),
        k.remotes.dom().finite(),
        left >= 2 * k.definitions.dom().len() + 1,
        k.advance(job, now).1 is Done,
    ensures
        ends_quiet(k, job, now),
{
    match graph::first_cycle(resolve::edges(k.definitions)) {
        Some(path) => {
            let items = reconcile::cycle_items(
                k.definitions,
                path,
                text::in_order(path.to_set()),
            );
            cycle_ends(k, job, left, now, path, items, 2);
        },
        None => withdrawals_end(k, job, left, now),
    }
}

proof fn no_orphans_without_finding(k: KernelV, k2: KernelV, ls: Seq<Text>)
    requires
        k.remotes.dom().finite(),
        ls == k.orphans(text::in_order(k.remotes.dom())),
        k2.definitions == k.definitions,
        k2.remotes.submap_of(k.remotes),
        forall|l: Text| ls.contains(l) ==> !(#[trigger] k2.remotes.dom().contains(l)),
    ensures
        no_orphans(k2),
{
    let ks = text::in_order(k.remotes.dom());
    text::in_order_sorted(k.remotes.dom());
    assert forall|l: Text| #[trigger]
        k2.remotes.dom().contains(l) implies (k2.definition(l) matches Some(d) && d.remote) by {
        assert(k.remotes.dom().contains(l));
        assert(ks.to_set().contains(l));
        orphans_are_found(k, ks, l);
    }
}

// ---- laws -------------------------------------------------------------

/// What a reconciliation within its limit starts from: well-formed tables,
/// room in the counters for the activations of its rounds, and no requirement
/// of a definition that is attested on another host, which is what manifests
/// for other hosts have to say of theirs.
pub open spec fn can_reconcile(k: KernelV) -> bool {
    let n = k.definitions.dom().len();
    &&& k.contexts.wf()
    &&& stable::keyed(k.definitions)
    &&& k.remotes.dom().finite()
    &&& attested_require_nothing(k)
    &&& 2 * n + 4 <= usize::MAX
    &&& k.contexts.records.len() + jobs::rounds(n) * round_room(k) < u64::MAX
}

/// Reconciling goes on until stable: where no withdrawal has to be waited
/// for, a round that changes nothing comes before the rounds run out, and it
/// is the last one.
pub proof fn reconciliations_end_quiet(k: KernelV, job: JobV, now: Instant)
    requires
        can_reconcile(k),
        job.stage == StageV::Reconcile(jobs::rounds(k.definitions.dom().len())),
        k.advance(job, now).1 is Done,
    ensures
        exists|k1: KernelV| last_round(k, job, now, k1),
{
    let n = k.definitions.dom().len();
    let left = jobs::rounds(n);
    let ls = k.orphans(text::in_order(k.remotes.dom()));
    let r = round_room(k);
    assert(left * r == (left - 1) * r + r && (left - 1) * r >= r) by (nonlinear_arith)
        requires
            left >= 2,
            r >= 0,
    ;
    if n == 0 {
        ends_at_once(k, job, left, now);
    } else if ls.len() == 0 {
        no_orphans_without_finding(k, k, ls);
        rounds_end(k, job, left, now);
    } else {
        let k2 = k.drop_remotes(ls);
        let next = job.to(StageV::Reconcile((left - 1) as nat));
        drops_only_drop(k, ls);
        no_orphans_without_finding(k, k2, ls);
        step_to_a_drop(k, job, left, now);
        stable::advances_by_a_step(k, job, now, k2, next);
        vstd::set_lib::lemma_len_subset(k2.remotes.dom(), k.remotes.dom());
        assert forall|l: Text| #[trigger] k2.remote_live(l) implies k2.definitions[l].requires.len()
            == 0 by {
            assert(k.remote_live(l));
        }
        rounds_end(k2, next, (left - 1) as nat, now);
        ends_as(k, job, k2, next, now);
    }
}

proof fn conclusions_end(k: KernelV, job: JobV, now: Instant)
    requires
        job.stage is Conclude,
    ensures
        k.advance(job, now).0 == k.conclude(job.conclusion),
{
    reveal(KernelV::step);
    let (k2, next, wait) = k.step(job, now);
    assert(wait is None && next.stage is Done && k2 == k.conclude(job.conclusion));
    stable::advances_by_a_step(k, job, now, k2, next);
}

/// Whether `b` has the states and bindings of `a`.
spec fn concluded(a: KernelV, b: KernelV, l: Text) -> bool {
    &&& b.definitions == a.definitions
    &&& b.remotes == a.remotes
    &&& b.contexts == a.contexts
    &&& match (a.plugin(l), b.plugin(l)) {
        (None, None) => true,
        (Some(p), Some(q)) => q.bindings == p.bindings && q.instance_id == p.instance_id,
        _ => false,
    }
}

proof fn conclusions_keep_states(k: KernelV, c: ConclusionV, l: Text)
    ensures
        concluded(k, k.conclude(c), l),
{
}

/// What a reconciliation that ends without waiting leaves is stable. Where
/// the graph has no cycle, an id that is not attested on another host and is
/// active has its requirements met and is bound to the current, active
/// activations of its providers; and a definition for this host whose
/// requirements are met is active, unless it is held back.
pub proof fn reconciliations_leave_it_stable(k: KernelV, job: JobV, now: Instant, l: Text)
    requires
        can_reconcile(k),
        job.stage == StageV::Reconcile(jobs::rounds(k.definitions.dom().len())),
        k.advance(job, now).1 is Done,
        graph::first_cycle(resolve::edges(k.definitions)) is None,
        k.definitions.dom().contains(l),
        !k.remote_live(l),
    ensures
        ({
            let k2 = k.advance(job, now).0;
            let met = resolve::resolved(l, k2.definitions, k2.states()) is Ok;
            &&& k2.definitions == k.definitions
            &&& k2.is_active(l) ==> met && (k2.plugin(l) matches Some(p) ==> forall|i: int|
                0 <= i < p.bindings.len() ==> resolve::binding_holds(
                    #[trigger] p.bindings[i],
                    k2.states(),
                ))
            &&& !k2.definitions[l].remote && met ==> k2.is_active(l) || k2.held_back(l)
        }),
{
    reconciliations_end_quiet(k, job, now);
    let k1 = choose|k1: KernelV| last_round(k, job, now, k1);
    let r = k1.round(now).0;
    let k2 = r.conclude(job.conclusion);
    conclusions_end(r, job.to(StageV::Conclude), now);
    conclusions_keep_states(r, job.conclusion, l);
    assert(k2.states() =~= r.states());
    assert(!k1.remote_live(l));
    quiet_rounds_keep_definitions(k1, now);
    if r.is_active(l) {
        stable::quiet_rounds_leave_the_active_bound(k1, now, l);
    }
    if !k.definitions[l].remote && resolve::resolved(l, r.definitions, r.states()) is Ok {
        stable::quiet_rounds_leave_nothing_waiting(k1, now, l);
    }
}

proof fn quiet_rounds_keep_definitions(k: KernelV, now: Instant)
    requires
        k.contexts.wf(),
        stable::keyed(k.definitions),
        k.contexts.records.len() + 2 * k.activation_order().len() < u64::MAX,
        !k.round(now).1,
    ensures
        k.round(now).0.definitions == k.definitions,
{
    if let PlanV::Withdraw { cycle, items } = k.plan() {
        let p0 = PassV { left: 0, cycle, items, at: 0, changed: false };
        stable::quiet_pass(k, p0, now);
        if !cycle {
            stable::idle_activations(k, k.activation_order(), now);
        }
    }
}

} // verus!
