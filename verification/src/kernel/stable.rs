//! Rounds of reconciliation as a whole: what holds once one changes nothing.

use vstd::prelude::*;
use crate::calls;
use crate::calls::{TicketState, WhichV};
use crate::context;
use crate::context::{ContextV, ContextsV};
use crate::deps::{BindingV, RequirementV};
use crate::external::LifecycleV;
use crate::fsm::Fsm;
use crate::graph;
use crate::identity::InstanceId;
use crate::json::JsonV;
use crate::kernel::acquire;
use crate::kernel::jobs::{JobV, PassV, StageV};
use crate::kernel::laws;
use crate::kernel::lifecycle::BegunV;
use crate::kernel::reconcile::{ItemV, PlanV};
use crate::kernel::resolve;
use crate::kernel::resolve::Definitions;
use crate::kernel::tickets;
use crate::kernel::KernelV;
use crate::manifest::ManifestV;
use crate::resources;
use crate::text;
use crate::text::Text;
use crate::time::Instant;

verus! {

/// Whether there are finitely many definitions, each under its own id.
pub open spec fn keyed(defs: Definitions) -> bool {
    &&& defs.dom().finite()
    &&& forall|l: Text| #[trigger] defs.dom().contains(l) ==> defs[l].id == l
}

impl KernelV {
    /// The withdrawals of a pass in turn, up to the first that has to drain;
    /// tells whether something changed.
    pub open spec fn withdraw_all(self, p: PassV, now: Instant) -> (KernelV, bool)
        decreases p.items.len() - p.at,
    {
        if p.at >= p.items.len() {
            (self, p.changed)
        } else {
            match self.withdraw_step(p, now) {
                (k, StageV::Withdraw(q), _) => k.withdraw_all(q, now),
                (k, _, _) => (k, true),
            }
        }
    }

    /// One round of reconciliation, up to the first drain; tells whether it
    /// changed something.
    pub open spec fn round(self, now: Instant) -> (KernelV, bool) {
        match self.plan() {
            PlanV::Stop => (self, false),
            PlanV::Drop(ls) => (self.drop_remotes(ls), true),
            PlanV::Withdraw { cycle, items } => {
                let (k, changed) = self.withdraw_all(
                    PassV { left: 0, cycle, items, at: 0, changed: false },
                    now,
                );
                if changed || cycle {
                    (k, changed)
                } else {
                    k.activate(now)
                }
            },
        }
    }

    /// Whether a withdrawal finds nothing to do.
    pub open spec fn stands(self, item: ItemV) -> bool {
        match self.contexts.current_of(item.logical) {
            None => false,
            Some(st) => match st.state.canon() {
                Fsm::Active | Fsm::Preparing | Fsm::Registered | Fsm::Disposed => false,
                Fsm::Waiting => !self.ensure_waiting(item.logical, item.def, item.reason).1,
                _ => true,
            },
        }
    }

    /// Whether `logical` takes calls, here or on another host.
    pub open spec fn is_active(self, logical: Text) -> bool {
        self.states().dom().contains(logical) && self.states()[logical].state.canon()
            == Fsm::Active
    }

    /// Whether a registration covers an instance of the same id that is
    /// itself parked, failed or waiting, and whose entry is to be withdrawn:
    /// there is no active instance here that a round could withdraw.
    pub open spec fn is_covered(self, logical: Text) -> bool {
        &&& self.remote_live(logical)
        &&& self.withdrawal(logical, self.states()) is Some
        &&& self.contexts.current_of(logical) matches Some(c) && !(c.state.canon() == Fsm::Active
            || c.state.canon() == Fsm::Preparing || c.state.canon() == Fsm::Registered
            || c.state.canon() == Fsm::Disposed)
    }
}

// ---- the withdrawals of a quiet round ---------------------------------

pub(crate) proof fn idle_waiting_is_idle(k: KernelV, logical: Text, def: ManifestV, reason: Text)
    ensures
        !k.ensure_waiting(logical, def, reason).1 ==> k.ensure_waiting(logical, def, reason).0 == k,
{
}

pub(crate) proof fn step_at_rest(k: KernelV, p: PassV, now: Instant)
    requires
        p.at < p.items.len(),
    ensures
        k.stands(p.items[p.at as int]) ==> k.withdraw_step(p, now) == (
            k,
            StageV::Withdraw(PassV { at: p.at + 1, ..p }),
            None::<(InstanceId, Instant)>,
        ),
        !k.stands(p.items[p.at as int]) ==> (k.withdraw_step(p, now).1 is Drain || (k.withdraw_step(
            p,
            now,
        ).1 matches StageV::Withdraw(q) && q.changed)),
        p.changed ==> (k.withdraw_step(p, now).1 matches StageV::Withdraw(q) ==> q.changed),
        k.withdraw_step(p, now).1 matches StageV::Withdraw(q) ==> q.items == p.items && q.at == p.at
            + 1 && q.cycle == p.cycle && q.left == p.left,
{
    let item = p.items[p.at as int];
    idle_waiting_is_idle(k, item.logical, item.def, item.reason);
}

proof fn changes_stay(k: KernelV, p: PassV, now: Instant)
    requires
        p.changed,
    ensures
        k.withdraw_all(p, now).1,
    decreases p.items.len() - p.at,
{
    if p.at < p.items.len() {
        step_at_rest(k, p, now);
        if let (k2, StageV::Withdraw(q), _) = k.withdraw_step(p, now) {
            changes_stay(k2, q, now);
        }
    }
}

/// A pass that changes nothing found every one of its items at rest.
pub(crate) proof fn quiet_pass(k: KernelV, p: PassV, now: Instant)
    requires
        !k.withdraw_all(p, now).1,
    ensures
        k.withdraw_all(p, now).0 == k,
        !p.changed,
        forall|i: int| p.at <= i < p.items.len() ==> k.stands(#[trigger] p.items[i]),
    decreases p.items.len() - p.at,
{
    if p.at < p.items.len() {
        step_at_rest(k, p, now);
        if let (k2, StageV::Withdraw(q), _) = k.withdraw_step(p, now) {
            if q.changed {
                changes_stay(k2, q, now);
            }
            quiet_pass(k2, q, now);
            assert forall|i: int| p.at <= i < p.items.len() implies k.stands(
                #[trigger] p.items[i],
            ) by {
                if i > p.at {
                    assert(q.items[i] == p.items[i]);
                }
            }
        }
    }
}

proof fn quiet_pass_advances(k: KernelV, job: JobV, p: PassV, now: Instant)
    requires
        job.stage == StageV::Withdraw(p),
        p.at <= p.items.len(),
        forall|i: int| p.at <= i < p.items.len() ==> k.stands(#[trigger] p.items[i]),
    ensures
        k.advance(job, now) == k.advance(
            job.to(StageV::Withdraw(PassV { at: p.items.len(), ..p })),
            now,
        ),
    decreases p.items.len() - p.at,
{
    if p.at < p.items.len() {
        reveal(KernelV::step);
        step_at_rest(k, p, now);
        let q = PassV { at: p.at + 1, ..p };
        assert(k.stands(p.items[p.at as int]));
        assert(k.step(job, now) == (
            k,
            job.to(StageV::Withdraw(q)),
            None::<(InstanceId, Instant)>,
        ));
        quiet_pass_advances(k, job.to(StageV::Withdraw(q)), q, now);
    } else {
        assert(job.to(StageV::Withdraw(PassV { at: p.items.len(), ..p })) == job);
    }
}

pub(crate) proof fn advances_by_a_step(k: KernelV, job: JobV, now: Instant, k2: KernelV, next: JobV)
    requires
        !(job.stage is Done),
        k.step(job, now) == (k2, next, None::<(InstanceId, Instant)>),
    ensures
        k.advance(job, now) == k2.advance(next, now),
{
}

pub(crate) proof fn step_to_a_pass(k: KernelV, job: JobV, left: nat, now: Instant)
    requires
        job.stage == StageV::Reconcile(left),
        left > 0,
    ensures
        k.plan() is Stop ==> k.step(job, now) == (
            k,
            job.to(StageV::Conclude),
            None::<(InstanceId, Instant)>,
        ),
        k.plan() matches PlanV::Withdraw { cycle, items } ==> k.step(job, now) == (
            k,
            job.to(
                StageV::Withdraw(
                    PassV { left: (left - 1) as nat, cycle, items, at: 0, changed: false },
                ),
            ),
            None::<(InstanceId, Instant)>,
        ),
{
    reveal(KernelV::step);
}

proof fn step_from_a_pass(k: KernelV, job: JobV, p: PassV, now: Instant)
    requires
        job.stage == StageV::Withdraw(p),
        p.at >= p.items.len(),
        !p.changed,
        p.cycle || !k.activate(now).1,
    ensures
        k.step(job, now) == (
            if p.cycle {
                k
            } else {
                k.activate(now).0
            },
            job.to(StageV::Conclude),
            None::<(InstanceId, Instant)>,
        ),
{
    reveal(KernelV::step);
}

/// A round that changes nothing is the last one: the job goes on to its end
/// from the state that the round left.
pub proof fn quiet_rounds_are_the_last(k: KernelV, job: JobV, left: nat, now: Instant)
    requires
        job.stage == StageV::Reconcile(left),
        left > 0,
        !k.round(now).1,
    ensures
        k.advance(job, now) == k.round(now).0.advance(job.to(StageV::Conclude), now),
{
    step_to_a_pass(k, job, left, now);
    match k.plan() {
        PlanV::Withdraw { cycle, items } => {
            let p0 = PassV { left: 0, cycle, items, at: 0, changed: false };
            assert(!k.withdraw_all(p0, now).1);
            quiet_pass(k, p0, now);
            let p = PassV { left: (left - 1) as nat, cycle, items, at: 0, changed: false };
            let j1 = job.to(StageV::Withdraw(p));
            advances_by_a_step(k, job, now, k, j1);
            assert forall|i: int| p.at <= i < p.items.len() implies k.stands(
                #[trigger] p.items[i],
            ) by {
                assert(p0.items[i] == p.items[i]);
            }
            quiet_pass_advances(k, j1, p, now);
            let end = PassV { at: p.items.len(), ..p };
            let j2 = j1.to(StageV::Withdraw(end));
            step_from_a_pass(k, j2, end, now);
            advances_by_a_step(k, j2, now, k.round(now).0, job.to(StageV::Conclude));
        },
        PlanV::Stop => {
            advances_by_a_step(k, job, now, k, job.to(StageV::Conclude));
        },
        PlanV::Drop(_) => {},
    }
}

// ---- the activations of a quiet round ---------------------------------

/// Whether `b` differs from `a`, as far as states go, in `l` alone.
pub open spec fn apart(a: KernelV, b: KernelV, l: Text) -> bool {
    &&& b.definitions == a.definitions
    &&& b.remotes == a.remotes
    &&& b.contexts.epoch == a.contexts.epoch
    &&& forall|x: Text| x != l ==> #[trigger] b.contexts.current_of(x) == a.contexts.current_of(x)
    &&& forall|x: Text| x != l ==> #[trigger] b.plugin(x) == a.plugin(x)
}

/// Whether `b` has the active ones of `a`, as they were, and no others.
pub open spec fn same_active(a: KernelV, b: KernelV) -> bool {
    &&& b.definitions == a.definitions
    &&& b.remotes == a.remotes
    &&& forall|x: Text| #[trigger]
        a.is_active(x) ==> b.is_active(x) && b.states()[x] == a.states()[x] && b.plugin(x)
            == a.plugin(x)
    &&& forall|x: Text| #[trigger] b.is_active(x) ==> a.is_active(x)
}

/// Whether no instance of `l` is active here.
pub open spec fn at_rest(c: ContextsV, l: Text) -> bool {
    c.current_of(l) matches Some(r) ==> r.state.canon() != Fsm::Active
}

pub(crate) proof fn apart_keeps_active(a: KernelV, b: KernelV, l: Text)
    requires
        apart(a, b, l),
        !a.is_active(l),
        at_rest(b.contexts, l),
    ensures
        same_active(a, b),
{
    assert forall|x: Text| #[trigger] a.is_active(x) implies b.is_active(x) && b.states()[x]
        == a.states()[x] && b.plugin(x) == a.plugin(x) by {
        assert(x != l);
        assert(b.contexts.current_of(x) == a.contexts.current_of(x));
        assert(b.plugin(x) == a.plugin(x));
    }
    assert forall|x: Text| #[trigger] b.is_active(x) implies a.is_active(x) by {
        if x != l {
            assert(b.contexts.current_of(x) == a.contexts.current_of(x));
        }
    }
}

pub(crate) proof fn put_stays_apart(c: ContextsV, inst: u64, state: Fsm, cause: Option<Text>, l: Text)
    requires
        c.wf(),
        c.has(inst),
        c.records[inst - 1].logical == l,
    ensures
        c.put(inst, state, cause).wf(),
        c.put(inst, state, cause).epoch == c.epoch,
        c.put(inst, state, cause).records.len() == c.records.len(),
        c.put(inst, state, cause).current == c.current,
        forall|x: Text|
            x != l ==> #[trigger] c.put(inst, state, cause).current_of(x) == c.current_of(x),
        c.put(inst, state, cause).get(inst) == Some(
            c.records[inst - 1].in_state(state, cause),
        ),
{
    context::put_keeps_wf(c, inst, state, cause);
    let d = c.put(inst, state, cause);
    assert forall|x: Text| x != l implies #[trigger] d.current_of(x) == c.current_of(x) by {
        if c.current.dom().contains(x) {
            assert(c.records[c.current[x] - 1].logical == x);
        }
    }
}

pub(crate) proof fn create_stays_apart(c: ContextsV, l: Text, state: Fsm, cause: Option<Text>)
    requires
        c.wf(),
        c.records.len() < u64::MAX,
    ensures
        c.create(l, state, cause).wf(),
        c.create(l, state, cause).epoch == c.epoch,
        c.create(l, state, cause).records.len() == c.records.len() + 1,
        forall|x: Text|
            x != l ==> #[trigger] c.create(l, state, cause).current_of(x) == c.current_of(x),
        c.create(l, state, cause).current_of(l) == Some(c.fresh(l, state, cause)),
        c.create(l, state, cause).get(c.fresh(l, state, cause).instance.0) == Some(
            c.fresh(l, state, cause),
        ),
{
    context::create_keeps_wf(c, l, state, cause);
    let d = c.create(l, state, cause);
    assert forall|x: Text| x != l implies #[trigger] d.current_of(x) == c.current_of(x) by {
        if c.current.dom().contains(x) {
            assert(c.records[c.current[x] - 1].logical == x);
        }
    }
}

/// Letting `l` wait touches `l` alone.
proof fn waiting_stays_apart(k: KernelV, l: Text, def: ManifestV, reason: Text)
    requires
        k.contexts.wf(),
        k.contexts.records.len() < u64::MAX,
        def.id == l,
        at_rest(k.contexts, l),
    ensures
        ({
            let k2 = k.ensure_waiting(l, def, reason).0;
            &&& apart(k, k2, l)
            &&& at_rest(k2.contexts, l)
            &&& k2.contexts.wf()
            &&& k2.contexts.records.len() <= k.contexts.records.len() + 1
        }),
{
    match k.contexts.current_of(l) {
        None => create_stays_apart(k.contexts, l, Fsm::Waiting, Some(reason)),
        Some(st) => {
            assert(k.contexts.records[k.contexts.current[l] - 1].logical == l);
            assert(st.instance.0 == k.contexts.current[l]);
            if st.state.is_waiting_like() {
                put_stays_apart(k.contexts, st.instance.0, Fsm::Waiting, Some(reason), l);
            } else {
                create_stays_apart(k.contexts, l, Fsm::Waiting, Some(reason));
            }
        },
    }
}

/// A promotion that fails touches `l` alone, and leaves it inactive.
proof fn failed_promotions_stay_apart(k: KernelV, l: Text, def: ManifestV)
    requires
        k.contexts.wf(),
        k.contexts.records.len() < u64::MAX,
        keyed(k.definitions),
        k.definition(l) == Some(def),
        at_rest(k.contexts, l),
    ensures
        !k.promote(l, def).1 ==> ({
            let k2 = k.promote(l, def).0;
            &&& apart(k, k2, l)
            &&& at_rest(k2.contexts, l)
            &&& k2.contexts.wf()
            &&& k2.contexts.records.len() <= k.contexts.records.len() + 1
        }),
{
    if let Some(st) = k.contexts.current_of(l) {
        assert(k.contexts.records[k.contexts.current[l] - 1].logical == l);
        assert(st.instance.0 == k.contexts.current[l]);
        if st.state.is_waiting_like() {
            match resolve::resolved(l, k.definitions, k.states()) {
                Err(e) => waiting_stays_apart(k, l, def, e.reason()),
                Ok(bs) => {
                    let (k1, res) = k.acquire_definition(st, def);
                    laws::acquire_kinds_only_acquires(
                        k,
                        st,
                        def.id,
                        acquire::declared_kinds(def),
                    );
                    match res {
                        Err(e) => waiting_stays_apart(k1, l, def, "acquire failed: "@ + e),
                        Ok(hs) => {
                            laws::undo_back_only_releases(k1, st.instance, hs);
                        },
                    }
                },
            }
        }
    }
}

/// The beginning of a disposal touches the instance's id alone.
pub(crate) proof fn withdrawing_stays_apart(k: KernelV, inst: InstanceId, now: Instant, l: Text)
    requires
        k.contexts.wf(),
        k.contexts.has(inst.0),
        k.contexts.records[inst.0 - 1].logical == l,
        k.contexts.records[inst.0 - 1].state.canon() == Fsm::Active
            || k.contexts.records[inst.0 - 1].state.is_waiting_like(),
    ensures
        ({
            let (k2, b) = k.begin_dispose(inst, now);
            &&& apart(k, k2, l)
            &&& k.plugin(l) is Some ==> k2.plugin(l) is Some
            &&& k2.contexts == k.contexts.put(inst.0, Fsm::Quiescing, None)
            &&& b matches BegunV::Draining { rec, .. } && rec.instance == inst
                && rec.logical == l
        }),
{
    put_stays_apart(k.contexts, inst.0, Fsm::Quiescing, None, l);
    let r = k.contexts.records[inst.0 - 1];
    let rec = r.in_state(Fsm::Quiescing, None);
    let k1 = k.with_contexts(k.contexts.claim(inst.0).0);
    let k2 = k1.plugin_to(l, inst, Fsm::Quiescing).prune_bindings(inst).event(
        LifecycleV::Withdrawn {
            logical: l,
            instance: inst.0,
            generation: rec.generation,
        },
    );
    let hs = resources::handles_in(k2.resources.slots, rec.context);
    laws::unpublish_each_only_unpublishes(k2, hs, rec);
    let k3 = k2.unpublish_each(hs, rec);
    laws::withdraw_calls_only_ends(
        k3,
        l,
        calls::select(k3.calls.tickets, WhichV::Of(inst)),
        now,
    );
}

/// The end of a disposal touches the instance's id alone, and leaves the
/// instance parked or disposed.
pub(crate) proof fn disposing_stays_apart(k: KernelV, rec: ContextV, now: Instant, l: Text)
    requires
        k.contexts.wf(),
        k.contexts.has(rec.instance.0),
        k.contexts.records[rec.instance.0 - 1].logical == l,
        rec.logical == l,
    ensures
        ({
            let k2 = k.finish_dispose(rec, now).0;
            &&& apart(k, k2, l)
            &&& k.plugin(l) is Some ==> k2.plugin(l) is Some
            &&& k2.contexts.wf()
            &&& k2.contexts.records.len() == k.contexts.records.len()
            &&& k2.contexts.current == k.contexts.current
            &&& k2.contexts.get(rec.instance.0) matches Some(r) && (r.state == Fsm::Disposed
                || r.state == Fsm::CleanupPending)
        }),
{
    let k2 = laws::finish_dispose_parts(k, rec, now);
    assert(k2.contexts == k.contexts);
    let k0 = k.cancel_all(WhichV::AskedBy(rec.instance), "consumer-withdraw"@);
    laws::cancel_all_only_cancels(k, WhichV::AskedBy(rec.instance), "consumer-withdraw"@);
    let k1 = k0.with_calls(
        k0.calls.end_all(
            WhichV::Overdue(now),
            TicketState::Expired,
            "drain-exceeded"@,
        ),
    );
    let ids = calls::ids_of(k0.calls.tickets, WhichV::Overdue(now));
    laws::log_expired_only_cancels(k1, rec.logical, ids);
    let kl = k1.log_expired(rec.logical, ids);
    laws::clean_back_only_releases(
        kl,
        resources::handles_in(kl.resources.slots, rec.context),
        rec,
    );
    put_stays_apart(k.contexts, rec.instance.0, Fsm::Disposed, None, l);
    let pending = calls::ids_of(kl.calls.tickets, WhichV::Of(rec.instance));
    let reason = if pending.len() > 0 {
        tickets::inflight_prefix() + text::listed(pending)
    } else {
        text::joined(kl.clean(rec).1, "; "@)
    };
    put_stays_apart(k.contexts, rec.instance.0, Fsm::CleanupPending, Some(reason), l);
}

/// An activation that fails touches the definition's id alone, and leaves it
/// inactive.
proof fn failed_activations_stay_apart(
    k: KernelV,
    l: Text,
    def: ManifestV,
    bs: Seq<BindingV>,
    json_state: JsonV,
    now: Instant,
)
    requires
        k.contexts.wf(),
        k.contexts.records.len() + 1 < u64::MAX,
        keyed(k.definitions),
        k.definition(l) == Some(def),
    ensures
        !k.create_active(def, bs, json_state, now).1 ==> ({
            let k2 = k.create_active(def, bs, json_state, now).0;
            &&& apart(k, k2, l)
            &&& at_rest(k2.contexts, l)
            &&& k2.contexts.wf()
            &&& k2.contexts.records.len() <= k.contexts.records.len() + 2
        }),
{
    let ctx = k.contexts.fresh(l, Fsm::Active, None);
    create_stays_apart(k.contexts, l, Fsm::Active, None);
    let k0 = k.with_contexts(k.contexts.create(l, Fsm::Active, None));
    let (k1, res) = k0.acquire_definition(ctx, def);
    laws::acquire_kinds_only_acquires(k0, ctx, def.id, acquire::declared_kinds(def));
    assert(apart(k, k1, l));
    if let Err(e) = res {
        withdrawing_stays_apart(k1, ctx.instance, now, l);
        let (k2, b) = k1.begin_dispose(ctx.instance, now);
        let rec = b->rec;
        put_stays_apart(k1.contexts, ctx.instance.0, Fsm::Quiescing, None, l);
        disposing_stays_apart(k2, rec, now, l);
        let k3 = k2.finish_dispose(rec, now).0;
        assert(k3 == k1.dispose_now(ctx.instance, now));
        assert(k3.contexts.current_of(l) == k3.contexts.get(ctx.instance.0));
        waiting_stays_apart(k3, l, def, "acquire failed: "@ + e);
    }
}

// ---- a quiet pass of activations --------------------------------------

pub(crate) proof fn same_active_chains(a: KernelV, b: KernelV, c: KernelV)
    requires
        same_active(a, b),
        same_active(b, c),
    ensures
        same_active(a, c),
{
    assert forall|x: Text| #[trigger] a.is_active(x) implies c.is_active(x) && c.states()[x]
        == a.states()[x] && c.plugin(x) == a.plugin(x) by {
        assert(b.is_active(x));
    }
    assert forall|x: Text| #[trigger] c.is_active(x) implies a.is_active(x) by {
        assert(b.is_active(x));
    }
}

/// An activation that changes nothing leaves the active ones as they were.
pub(crate) proof fn idle_activation(
    k0: KernelV,
    k: KernelV,
    l: Text,
    now: Instant,
)
    requires
        same_active(k0, k),
        k.contexts.wf(),
        k.contexts.records.len() + 1 < u64::MAX,
        keyed(k.definitions),
        !k.activate_one(l, k0.states(), now).1,
    ensures
        ({
            let k2 = k.activate_one(l, k0.states(), now).0;
            &&& same_active(k0, k2)
            &&& apart(k, k2, l)
            &&& k2.contexts.wf()
            &&& k2.contexts.records.len() <= k.contexts.records.len() + 2
        }),
{
    let states = k0.states();
    let k2 = k.activate_one(l, states, now).0;
    if let Some(def) = k.definition(l) {
        if !def.remote && !k0.is_active(l) {
            assert(!k.is_active(l));
            if k.remote_live(l) {
                assert(k.states().dom().contains(l));
                assert(k.states()[l] == k.remote_state(l));
            } else if k.contexts.current_of(l) is Some {
                assert(k.states().dom().contains(l));
                assert(k.states()[l] == k.contexts.current_of(l)->0);
            }
            match resolve::resolved(l, k.definitions, states) {
                Ok(bs) => {
                    if states.dom().contains(l) && states[l].state.is_waiting_like() {
                        failed_promotions_stay_apart(k, l, def);
                    } else {
                        failed_activations_stay_apart(
                            k,
                            l,
                            def,
                            bs,
                            k.preserved(l, def),
                            now,
                        );
                    }
                },
                Err(e) => idle_waiting_is_idle(k, l, def, e.reason()),
            }
            if k2 != k {
                assert(apart(k, k2, l));
                apart_keeps_active(k, k2, l);
                same_active_chains(k0, k, k2);
            }
        }
    }
}

pub(crate) proof fn idle_activations(k: KernelV, order: Seq<Text>, now: Instant)
    requires
        k.contexts.wf(),
        keyed(k.definitions),
        k.contexts.records.len() + 2 * order.len() < u64::MAX,
        !k.activate_in(order, k.states(), now).1,
    ensures
        ({
            let k2 = k.activate_in(order, k.states(), now).0;
            &&& same_active(k, k2)
            &&& k2.contexts.wf()
            &&& k2.contexts.records.len() <= k.contexts.records.len() + 2 * order.len()
        }),
    decreases order.len(),
{
    if order.len() > 0 {
        idle_activations(k, order.drop_last(), now);
        idle_activation(
            k,
            k.activate_in(order.drop_last(), k.states(), now).0,
            order.last(),
            now,
        );
    }
}

/// Requirements that are met stay met while the active ones stay.
pub(crate) proof fn bound_while_active(
    reqs: Seq<RequirementV>,
    defs: Definitions,
    a: Map<Text, ContextV>,
    b: Map<Text, ContextV>,
)
    requires
        resolve::bind_all(reqs, defs, a) is Ok,
        forall|x: Text| #[trigger]
            a.dom().contains(x) && a[x].state.canon() == Fsm::Active ==> b.dom().contains(x)
                && b[x] == a[x],
    ensures
        resolve::bind_all(reqs, defs, b) == resolve::bind_all(reqs, defs, a),
    decreases reqs.len(),
{
    if reqs.len() > 0 {
        bound_while_active(reqs.drop_last(), defs, a, b);
        let req = reqs.last();
        let p = match req.provider {
            Some(p) => p,
            None => text::in_order(graph::offering(req, resolve::provides_of(defs)))[0],
        };
        assert(a.dom().contains(p) && a[p].state.canon() == Fsm::Active);
    }
}

// ---- what waits although it could run ---------------------------------

impl KernelV {
    /// Whether the instance of `logical` is not to be activated: it failed, is
    /// parked or drains, could not acquire what it declares, or has no entry.
    pub open spec fn held_back(self, logical: Text) -> bool {
        match self.contexts.current_of(logical) {
            None => false,
            Some(c) => {
                ||| c.state.canon() == Fsm::Failed
                ||| c.state.canon() == Fsm::CleanupPending
                ||| c.state.canon() == Fsm::Quiescing
                ||| c.state.is_waiting_like() && exists|e: Text|
                    c.cause == Some(#[trigger] acquire_failed(e))
                ||| !(self.plugin(logical) matches Some(p) && p.instance_id == c.instance.0)
            },
        }
    }
}

/// The reason of an instance that could not acquire what it declares.
pub open spec fn acquire_failed(e: Text) -> Text {
    "acquire failed: "@ + e
}

proof fn waits_for(k: KernelV, l: Text, def: ManifestV, e: Text)
    requires
        k.contexts.wf(),
        k.contexts.records.len() < u64::MAX,
        k.definition(l) == Some(def),
        def.id == l,
        k.contexts.current_of(l) matches Some(c) && (c.state.is_waiting_like() || c.state
            == Fsm::Disposed || c.state == Fsm::CleanupPending),
    ensures
        k.park(l, acquire_failed(e)).held_back(l),
{
    let reason = acquire_failed(e);
    let st = k.contexts.current_of(l)->0;
    assert(k.contexts.records[k.contexts.current[l] - 1].logical == l);
    assert(st.instance.0 == k.contexts.current[l]);
    if st.state.is_waiting_like() {
        put_stays_apart(k.contexts, st.instance.0, Fsm::Waiting, Some(reason), l);
    } else if st.state == Fsm::Disposed {
        create_stays_apart(k.contexts, l, Fsm::Waiting, Some(reason));
    }
    let c = k.park(l, reason).contexts.current_of(l)->0;
    assert(c.state == Fsm::CleanupPending || c.cause == Some(acquire_failed(e)));
}

proof fn failed_promotions_are_held_back(k: KernelV, l: Text, def: ManifestV)
    requires
        k.contexts.wf(),
        k.contexts.records.len() < u64::MAX,
        keyed(k.definitions),
        k.definition(l) == Some(def),
        k.contexts.current_of(l) matches Some(c) && c.state.is_waiting_like(),
        resolve::resolved(l, k.definitions, k.states()) is Ok,
        !k.promote(l, def).1,
    ensures
        k.promote(l, def).0.held_back(l),
{
    let st = k.contexts.current_of(l)->0;
    assert(k.contexts.records[k.contexts.current[l] - 1].logical == l);
    assert(st.instance.0 == k.contexts.current[l]);
    let (k1, res) = k.acquire_definition(st, def);
    laws::acquire_kinds_only_acquires(k, st, def.id, acquire::declared_kinds(def));
    match res {
        Err(e) => waits_for(k1, l, def, e),
        Ok(hs) => laws::undo_back_only_releases(k1, st.instance, hs),
    }
}

proof fn failed_activations_are_held_back(
    k: KernelV,
    l: Text,
    def: ManifestV,
    bs: Seq<BindingV>,
    json_state: JsonV,
    now: Instant,
)
    requires
        k.contexts.wf(),
        k.contexts.records.len() + 1 < u64::MAX,
        keyed(k.definitions),
        k.definition(l) == Some(def),
        !k.create_active(def, bs, json_state, now).1,
    ensures
        k.create_active(def, bs, json_state, now).0.held_back(l),
{
    let ctx = k.contexts.fresh(l, Fsm::Active, None);
    create_stays_apart(k.contexts, l, Fsm::Active, None);
    let k0 = k.with_contexts(k.contexts.create(l, Fsm::Active, None));
    let (k1, res) = k0.acquire_definition(ctx, def);
    laws::acquire_kinds_only_acquires(k0, ctx, def.id, acquire::declared_kinds(def));
    let e = res->Err_0;
    withdrawing_stays_apart(k1, ctx.instance, now, l);
    let (k2, b) = k1.begin_dispose(ctx.instance, now);
    let rec = b->rec;
    put_stays_apart(k1.contexts, ctx.instance.0, Fsm::Quiescing, None, l);
    disposing_stays_apart(k2, rec, now, l);
    let k3 = k2.finish_dispose(rec, now).0;
    assert(k3 == k1.dispose_now(ctx.instance, now));
    assert(k3.contexts.current_of(l) == k3.contexts.get(ctx.instance.0));
    waits_for(k3, l, def, e);
}

/// What an activation that changes nothing leaves of an id that could run.
proof fn idle_activation_holds_back(k0: KernelV, k: KernelV, l: Text, now: Instant)
    requires
        same_active(k0, k),
        k.contexts.current_of(l) == k0.contexts.current_of(l),
        k.contexts.wf(),
        k.contexts.records.len() + 1 < u64::MAX,
        keyed(k.definitions),
        k.definition(l) matches Some(d) && !d.remote,
        !k0.remote_live(l),
        resolve::resolved(l, k.definitions, k0.states()) is Ok,
        !k.activate_one(l, k0.states(), now).1,
    ensures
        k0.is_active(l) || k.activate_one(l, k0.states(), now).0.held_back(l),
{
    let def = k.definition(l)->0;
    let states = k0.states();
    assert forall|x: Text| #[trigger]
        states.dom().contains(x) && states[x].state.canon()
            == Fsm::Active implies k.states().dom().contains(x) && k.states()[x] == states[x] by {
        assert(k0.is_active(x));
    }
    bound_while_active(def.requires, k.definitions, states, k.states());
    if !k0.is_active(l) {
        let bs = resolve::resolved(l, k.definitions, states)->Ok_0;
        if k.contexts.current_of(l) is Some {
            assert(states.dom().contains(l));
            assert(states[l] == k.contexts.current_of(l)->0);
            if states[l].state.is_waiting_like() {
                failed_promotions_are_held_back(k, l, def);
            } else if states[l].state.canon() == Fsm::Disposed {
                failed_activations_are_held_back(k, l, def, bs, k.preserved(l, def), now);
            }
        } else {
            assert(!states.dom().contains(l));
            failed_activations_are_held_back(k, l, def, bs, k.preserved(l, def), now);
        }
    }
}

proof fn idle_activations_hold_back(k: KernelV, order: Seq<Text>, now: Instant, l: Text)
    requires
        k.contexts.wf(),
        keyed(k.definitions),
        k.contexts.records.len() + 2 * order.len() < u64::MAX,
        !k.activate_in(order, k.states(), now).1,
        order.no_duplicates(),
        k.definition(l) matches Some(d) && !d.remote,
        !k.remote_live(l),
        resolve::resolved(l, k.definitions, k.states()) is Ok,
    ensures
        ({
            let k2 = k.activate_in(order, k.states(), now).0;
            &&& !order.contains(l) ==> k2.contexts.current_of(l) == k.contexts.current_of(l)
            &&& order.contains(l) ==> k.is_active(l) || k2.held_back(l)
        }),
    decreases order.len(),
{
    if order.len() > 0 {
        let a = order.drop_last();
        let x = order.last();
        let k1 = k.activate_in(a, k.states(), now).0;
        idle_activations(k, a, now);
        idle_activations_hold_back(k, a, now, l);
        idle_activation(k, k1, x, now);
        let k2 = k1.activate_one(x, k.states(), now).0;
        assert(order[order.len() - 1] == x);
        if order.contains(l) {
            let j = choose|j: int| 0 <= j < order.len() && order[j] == l;
            if j < a.len() {
                assert(a[j] == l);
                assert(x != l);
            }
        }
        if a.contains(l) {
            let j = choose|j: int| 0 <= j < a.len() && a[j] == l;
            assert(order[j] == l);
            assert(k2.contexts.current_of(l) == k1.contexts.current_of(l));
            assert(k2.plugin(l) == k1.plugin(l));
        } else if x == l {
            idle_activation_holds_back(k, k1, l, now);
        } else {
            assert(k2.contexts.current_of(l) == k1.contexts.current_of(l));
        }
    }
}

// ---- laws -------------------------------------------------------------

/// Once a round of reconciliation changes nothing, what is active is bound:
/// the requirements of every active definition are met, and each binding of
/// its instance names the current, active activation of its provider. An id
/// that is active on another host while an instance of it is parked or failed
/// here has no active instance to withdraw and is left out, as are graphs
/// with a cycle, whose members a round lets wait.
pub proof fn quiet_rounds_leave_the_active_bound(k: KernelV, now: Instant, l: Text)
    requires
        k.contexts.wf(),
        keyed(k.definitions),
        graph::first_cycle(resolve::edges(k.definitions)) is None,
        k.contexts.records.len() + 2 * k.activation_order().len() < u64::MAX,
        !k.round(now).1,
        k.definitions.dom().contains(l),
        k.round(now).0.is_active(l),
        !k.is_covered(l),
    ensures
        ({
            let k2 = k.round(now).0;
            &&& resolve::resolved(l, k2.definitions, k2.states()) is Ok
            &&& k2.plugin(l) matches Some(p) ==> forall|i: int|
                0 <= i < p.bindings.len() ==> resolve::binding_holds(
                    #[trigger] p.bindings[i],
                    k2.states(),
                )
        }),
{
    if k.definitions.dom().len() == 0 {
        assert(k.definitions.dom() =~= Set::empty());
    }
    let items = k.withdrawals(k.activation_order(), k.states());
    let p0 = PassV { left: 0, cycle: false, items, at: 0, changed: false };
    assert(k.plan() == (PlanV::Withdraw { cycle: false, items }));
    quiet_pass(k, p0, now);
    idle_activations(k, k.activation_order(), now);
    let k2 = k.round(now).0;
    assert(k2 == k.activate(now).0);
    assert(k.is_active(l));
    if k.withdrawal(l, k.states()) is Some {
        laws::providers_are_activated_first(k, l);
        laws::withdrawals_members(k, k.activation_order(), k.states(), l);
        let i = choose|i: int| 0 <= i < items.len() && (#[trigger] items[i]).logical == l;
        assert(p0.items[i] == items[i]);
        assert(k.stands(p0.items[i]));
    }
    assert forall|x: Text| #[trigger]
        k.states().dom().contains(x) && k.states()[x].state.canon()
            == Fsm::Active implies k2.states().dom().contains(x) && k2.states()[x]
        == k.states()[x] by {
        assert(k.is_active(x));
    }
    bound_while_active(k.definitions[l].requires, k.definitions, k.states(), k2.states());
    if let Some(p) = k2.plugin(l) {
        assert(k.plugin(l) == Some(p));
        assert forall|i: int| 0 <= i < p.bindings.len() implies resolve::binding_holds(
            #[trigger] p.bindings[i],
            k2.states(),
        ) by {
            assert(resolve::binding_holds(p.bindings[i], k.states()));
            assert(k.states().dom().contains(p.bindings[i].provider_logical));
        }
    }
}

/// Once a round of reconciliation changes nothing, no member of the cycle it
/// found has an active instance here.
pub proof fn quiet_rounds_leave_no_cycle_active(k: KernelV, now: Instant, path: Seq<Text>, m: Text)
    requires
        k.definitions.dom().finite(),
        graph::first_cycle(resolve::edges(k.definitions)) == Some(path),
        path.contains(m),
        k.definitions.dom().contains(m),
        !k.round(now).1,
    ensures
        k.round(now).0 == k,
        k.contexts.current_of(m) matches Some(c) && c.state.canon() != Fsm::Active,
{
    if k.definitions.dom().len() == 0 {
        assert(k.definitions.dom() =~= Set::empty());
    }
    laws::cycles_are_withdrawn(k, path, m);
    let items = k.plan()->items;
    let p0 = PassV { left: 0, cycle: true, items, at: 0, changed: false };
    quiet_pass(k, p0, now);
    let i = choose|i: int| 0 <= i < items.len() && (#[trigger] items[i]).logical == m;
    assert(p0.items[i] == items[i]);
    assert(k.stands(p0.items[i]));
}

/// Once a round of reconciliation changes nothing, what can run runs: a
/// definition for this host whose requirements are met is active, unless its
/// instance failed, is parked or drains, could not acquire what it declares,
/// or has no entry.
pub proof fn quiet_rounds_leave_nothing_waiting(k: KernelV, now: Instant, l: Text)
    requires
        k.contexts.wf(),
        keyed(k.definitions),
        graph::first_cycle(resolve::edges(k.definitions)) is None,
        k.contexts.records.len() + 2 * k.activation_order().len() < u64::MAX,
        !k.round(now).1,
        k.definition(l) matches Some(d) && !d.remote,
        resolve::resolved(l, k.definitions, k.round(now).0.states()) is Ok,
    ensures
        k.round(now).0.is_active(l) || k.round(now).0.held_back(l),
{
    if k.definitions.dom().len() == 0 {
        assert(k.definitions.dom() =~= Set::empty());
    }
    let order = k.activation_order();
    let items = k.withdrawals(order, k.states());
    let p0 = PassV { left: 0, cycle: false, items, at: 0, changed: false };
    assert(k.plan() == (PlanV::Withdraw { cycle: false, items }));
    quiet_pass(k, p0, now);
    idle_activations(k, order, now);
    let k2 = k.round(now).0;
    assert(k2 == k.activate(now).0);
    if k.remote_live(l) {
        assert(k2.states().dom().contains(l));
        assert(k2.states()[l] == k2.remote_state(l));
    } else {
        assert forall|x: Text| #[trigger]
            k2.states().dom().contains(x) && k2.states()[x].state.canon()
                == Fsm::Active implies k.states().dom().contains(x) && k.states()[x]
            == k2.states()[x] by {
            assert(k2.is_active(x));
            assert(k.is_active(x));
        }
        bound_while_active(k.definitions[l].requires, k.definitions, k2.states(), k.states());
        laws::providers_are_activated_first(k, l);
        idle_activations_hold_back(k, order, now, l);
    }
}

} // verus!
