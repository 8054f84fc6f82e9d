//! What the operations of the kernel are for: their results in terms of what
//! they were given.

use vstd::prelude::*;
use crate::calls;
use crate::calls::{CallPolicy, CallsV, TicketId, TicketState, TicketV, WhichV, WithdrawPolicy};
use crate::context::{ContextV, DisposeClaimV};
use crate::declarations;
use crate::external::{ExecutionV, ForwardErrorV, ForwardOutcomeV, ForwardRequestV, LifecycleV};
use crate::fsm::Fsm;
use crate::identity::{InstanceId, InstanceRefV, ResourceHandle};
use crate::json;
use crate::json::JsonV;
use crate::kernel::dependency::{DepAdmitV, DepDenyV};
use crate::kernel::jobs::JobV;
use crate::kernel::laws;
use crate::kernel::lifecycle::BegunV;
use crate::kernel::resolve;
use crate::kernel::tickets;
use crate::kernel::{DepBindingV, KernelV};
use crate::num;
use crate::resources;
use crate::resources::ResourceState;
use crate::text::Text;
use crate::time::Instant;

verus! {

/// Whether `u` is `ms` milliseconds after `now`, or the last reading of the
/// clock where that is not representable.
pub open spec fn is_after(u: Instant, now: Instant, ms: u64) -> bool {
    ||| u.nanos == now.nanos + ms * 1_000_000
    ||| u.nanos == u128::MAX && now.nanos + ms * 1_000_000 > u128::MAX
}

// ---- withdrawal -------------------------------------------------------

/// What a withdrawal makes of the ticket `t` of the withdrawn instance.
pub open spec fn revoked(t: TicketV, r: TicketV, now: Instant) -> bool {
    if t.state != TicketState::Admitted {
        r == t
    } else {
        match t.policy.on_withdraw {
            WithdrawPolicy::Cancel => {
                &&& r.state == TicketState::Cancelled
                &&& r.cancel
                &&& r.cancel_reason == Some("withdraw"@)
                &&& r == (TicketV {
                    state: r.state,
                    cancel: r.cancel,
                    cancel_reason: r.cancel_reason,
                    ..t
                })
            },
            WithdrawPolicy::Drain => {
                &&& r.drain_until matches Some(u) && is_after(u, now, t.policy.drain_ms)
                &&& r == (TicketV { drain_until: r.drain_until, ..t })
            },
        }
    }
}

/// Whether `t` is a call that may drain, until `u`.
pub open spec fn drains_until(t: TicketV, u: Instant, now: Instant) -> bool {
    t.policy.on_withdraw == WithdrawPolicy::Drain && is_after(u, now, t.policy.drain_ms)
}

spec fn withdrawn_one(c: CallsV, t: TicketV, now: Instant) -> CallsV {
    match t.policy.on_withdraw {
        WithdrawPolicy::Cancel => c.end(t.id, TicketState::Cancelled, "withdraw"@),
        WithdrawPolicy::Drain => c.set_drain_until(t.id, now.later(t.policy.drain_ms)),
    }
}

spec fn withdrawn(c: CallsV, ts: Seq<TicketV>, now: Instant) -> CallsV
    decreases ts.len(),
{
    if ts.len() == 0 {
        c
    } else {
        withdrawn_one(withdrawn(c, ts.drop_last(), now), ts.last(), now)
    }
}

proof fn withdrawals_in_turn(k: KernelV, logical: Text, ts: Seq<TicketV>, now: Instant)
    ensures
        k.withdraw_calls(logical, ts, now).0.calls == withdrawn(k.calls, ts, now),
    decreases ts.len(),
{
    if ts.len() > 0 {
        withdrawals_in_turn(k, logical, ts.drop_last(), now);
    }
}

proof fn one_is_withdrawn(c: CallsV, t: TicketV, now: Instant)
    requires
        c.get(t.id) == Some(t),
    ensures
        ({
            let d = withdrawn_one(c, t, now);
            &&& d.get(t.id) matches Some(r) && revoked(t, r, now)
            &&& forall|id: TicketId| id != t.id ==> #[trigger] d.get(id) == c.get(id)
        }),
{
    let d = withdrawn_one(c, t, now);
    assert forall|id: TicketId| id != t.id implies #[trigger] d.get(id) == c.get(id) by {
        assert(id.0 != t.id.0);
    }
}

/// Whether the tickets of `ts` are distinct ones of `c`.
pub open spec fn tickets_of(c: CallsV, ts: Seq<TicketV>) -> bool {
    &&& forall|i: int| 0 <= i < ts.len() ==> c.get((#[trigger] ts[i]).id) == Some(ts[i])
    &&& forall|i: int, j: int| 0 <= i < j < ts.len() ==> (#[trigger] ts[i]).id != (
    #[trigger] ts[j]).id
}

/// Whether `id` is the ticket of none of `ts`.
spec fn is_none_of(id: TicketId, ts: Seq<TicketV>) -> bool {
    forall|i: int| 0 <= i < ts.len() ==> (#[trigger] ts[i]).id != id
}

proof fn others_are_left(c: CallsV, ts: Seq<TicketV>, now: Instant, id: TicketId)
    requires
        is_none_of(id, ts),
    ensures
        withdrawn(c, ts, now).get(id) == c.get(id),
    decreases ts.len(),
{
    if ts.len() > 0 {
        assert(ts[ts.len() - 1] == ts.last());
        assert forall|i: int| 0 <= i < ts.drop_last().len() implies (
        #[trigger] ts.drop_last()[i]).id != id by {
            assert(ts[i].id != id);
        }
        others_are_left(c, ts.drop_last(), now, id);
        assert(id.0 != ts.last().id.0);
    }
}

proof fn each_is_withdrawn(c: CallsV, ts: Seq<TicketV>, now: Instant, i: int)
    requires
        tickets_of(c, ts),
        0 <= i < ts.len(),
    ensures
        withdrawn(c, ts, now).get(ts[i].id) matches Some(r) && revoked(ts[i], r, now),
    decreases ts.len(),
{
    let a = ts.drop_last();
    let t = ts.last();
    let n = ts.len() - 1;
    assert(t == ts[n]);
    assert(tickets_of(c, a)) by {
        assert forall|j: int| 0 <= j < a.len() implies c.get((#[trigger] a[j]).id) == Some(
            a[j],
        ) by {
            assert(a[j] == ts[j]);
        }
        assert forall|x: int, y: int| 0 <= x < y < a.len() implies (#[trigger] a[x]).id != (
        #[trigger] a[y]).id by {
            assert(ts[x].id != ts[y].id);
        }
    }
    assert(is_none_of(t.id, a)) by {
        assert forall|j: int| 0 <= j < a.len() implies (#[trigger] a[j]).id != t.id by {
            assert(ts[j].id != ts[n].id);
        }
    }
    others_are_left(c, a, now, t.id);
    one_is_withdrawn(withdrawn(c, a, now), t, now);
    if i < n {
        assert(a[i] == ts[i]);
        assert(ts[i].id != ts[n].id);
        each_is_withdrawn(c, a, now, i);
    }
}

proof fn no_drain_is_cut(k: KernelV, logical: Text, ts: Seq<TicketV>, now: Instant, i: int, u: Instant)
    requires
        0 <= i < ts.len(),
        drains_until(ts[i], u, now),
    ensures
        k.withdraw_calls(logical, ts, now).1 matches Some(e) && u.nanos <= e.nanos,
    decreases ts.len(),
{
    if i < ts.len() - 1 {
        assert(ts.drop_last()[i] == ts[i]);
        no_drain_is_cut(k, logical, ts.drop_last(), now, i, u);
    } else {
        assert(now.later(ts.last().policy.drain_ms).nanos == u.nanos);
    }
}

proof fn the_end_is_a_drain(k: KernelV, logical: Text, ts: Seq<TicketV>, now: Instant) -> (i: int)
    requires
        k.withdraw_calls(logical, ts, now).1 is Some,
    ensures
        0 <= i < ts.len(),
        drains_until(ts[i], k.withdraw_calls(logical, ts, now).1->0, now),
    decreases ts.len(),
{
    let before = k.withdraw_calls(logical, ts.drop_last(), now).1;
    let until = k.withdraw_calls(logical, ts, now).1;
    if before == until {
        let i = the_end_is_a_drain(k, logical, ts.drop_last(), now);
        assert(ts.drop_last()[i] == ts[i]);
        i
    } else {
        assert(until == Some(now.later(ts.last().policy.drain_ms)));
        ts.len() - 1
    }
}

/// Whether `id` is a ticket that `inst` executes.
pub open spec fn runs(k: KernelV, inst: InstanceId, id: TicketId) -> bool {
    k.calls.tickets.dom().contains(id.0) && k.calls.tickets[id.0].instance == inst
}

pub(crate) proof fn selection_is_exact(k: KernelV, inst: InstanceId)
    requires
        k.calls.wf(),
    ensures
        ({
            let ts = calls::select(k.calls.tickets, WhichV::Of(inst));
            &&& tickets_of(k.calls, ts)
            &&& forall|i: int| 0 <= i < ts.len() ==> (#[trigger] ts[i]).instance == inst
            &&& forall|id: TicketId| #[trigger]
                runs(k, inst, id) ==> exists|i: int|
                    0 <= i < ts.len() && #[trigger] ts[i] == k.calls.tickets[id.0]
        }),
{
    let m = k.calls.tickets;
    let w = WhichV::Of(inst);
    let all = num::in_order(m.dom());
    let ids = calls::ids_of(m, w);
    let ts = calls::select(m, w);
    num::in_order_sorted(m.dom());
    calls::picked_members(all, m, w);
    assert forall|i: int| 0 <= i < ts.len() implies k.calls.get((#[trigger] ts[i]).id) == Some(
        ts[i],
    ) && ts[i].instance == inst && ts[i].id.0 == ids[i] by {
        assert(all.contains(ids[i]));
        assert(all.to_set().contains(ids[i]));
        assert(m.dom().contains(ids[i]));
    }
    assert forall|id: TicketId| #[trigger] runs(k, inst, id) implies exists|i: int|
        0 <= i < ts.len() && #[trigger] ts[i] == m[id.0] by {
        assert(all.to_set().contains(id.0));
        let j = choose|j: int| 0 <= j < all.len() && all[j] == id.0;
        assert(ids.contains(all[j]));
        let i = choose|i: int| 0 <= i < ids.len() && ids[i] == id.0;
        assert(ts[i] == m[id.0]);
    }
}

pub(crate) proof fn selected_run(k: KernelV, inst: InstanceId, i: int)
    requires
        k.calls.wf(),
        0 <= i < calls::select(k.calls.tickets, WhichV::Of(inst)).len(),
    ensures
        ({
            let t = calls::select(k.calls.tickets, WhichV::Of(inst))[i];
            runs(k, inst, t.id) && k.calls.tickets[t.id.0] == t
        }),
{
    selection_is_exact(k, inst);
    let ts = calls::select(k.calls.tickets, WhichV::Of(inst));
    assert(k.calls.get(ts[i].id) == Some(ts[i]));
}

pub(crate) proof fn running_is_selected(k: KernelV, inst: InstanceId, id: TicketId) -> (i: int)
    requires
        k.calls.wf(),
        runs(k, inst, id),
    ensures
        0 <= i < calls::select(k.calls.tickets, WhichV::Of(inst)).len(),
        calls::select(k.calls.tickets, WhichV::Of(inst))[i] == k.calls.tickets[id.0],
{
    selection_is_exact(k, inst);
    let ts = calls::select(k.calls.tickets, WhichV::Of(inst));
    choose|i: int| 0 <= i < ts.len() && #[trigger] ts[i] == k.calls.tickets[id.0]
}

/// The calls are withdrawn last.
proof fn disposal_begins(k: KernelV, inst: InstanceId, now: Instant) -> (r: (KernelV, ContextV))
    requires
        k.contexts.wf(),
        k.begin_dispose(inst, now).1 is Draining,
    ensures
        ({
            let (k3, rec) = r;
            let (k4, until) = k3.withdraw_calls(
                rec.logical,
                calls::select(k.calls.tickets, WhichV::Of(inst)),
                now,
            );
            &&& k3.calls == k.calls
            &&& k.begin_dispose(inst, now) == (k4, BegunV::Draining { rec, until })
            &&& rec.instance == inst
            &&& rec.state == Fsm::Quiescing
            &&& k4.contexts.get(inst.0) == Some(rec)
        }),
{
    let (cs, claim) = k.contexts.claim(inst.0);
    let k1 = k.with_contexts(cs);
    let rec = claim->Ok_0->Fresh_0;
    assert(claim matches Ok(DisposeClaimV::Fresh(_)));
    let k2 = k1.plugin_to(rec.logical, inst, Fsm::Quiescing).prune_bindings(inst).event(
        LifecycleV::Withdrawn {
            logical: rec.logical,
            instance: inst.0,
            generation: rec.generation,
        },
    );
    let hs = resources::handles_in(k2.resources.slots, rec.context);
    laws::unpublish_each_only_unpublishes(k2, hs, rec);
    let k3 = k2.unpublish_each(hs, rec);
    assert(k3.calls == k.calls);
    laws::withdraw_calls_only_ends(
        k3,
        rec.logical,
        calls::select(k.calls.tickets, WhichV::Of(inst)),
        now,
    );
    (k3, rec)
}

/// From the moment that a disposal begins, the instance drains. Every call
/// that it executes loses its authority according to the policy of that call:
/// one to be cancelled is cancelled, one that may drain gets its budget from
/// now on. The calls of other instances stay as they are. The disposal waits
/// for the last of the drains: until none of them is over before the end that
/// it gives, and the end is that of one of them.
pub proof fn disposal_waits_for_the_last_drain(k: KernelV, inst: InstanceId, now: Instant)
    requires
        k.contexts.wf(),
        k.calls.wf(),
        k.begin_dispose(inst, now).1 is Draining,
    ensures
        ({
            let (k2, b) = k.begin_dispose(inst, now);
            let until = b->until;
            &&& b->rec.instance == inst
            &&& k2.contexts.get(inst.0) == Some(b->rec) && b->rec.state == Fsm::Quiescing
            &&& forall|id: TicketId| #[trigger]
                runs(k, inst, id) ==> (k2.calls.get(id) matches Some(r) && revoked(
                    k.calls.tickets[id.0],
                    r,
                    now,
                ))
            &&& forall|id: TicketId|
                !runs(k, inst, id) ==> #[trigger] k2.calls.get(id) == k.calls.get(id)
            &&& forall|id: TicketId, u: Instant| #[trigger]
                runs(k, inst, id) && #[trigger] drains_until(k.calls.tickets[id.0], u, now)
                    ==> (until matches Some(e) && u.nanos <= e.nanos)
            &&& until matches Some(e) ==> exists|id: TicketId|
                #![trigger runs(k, inst, id)]
                runs(k, inst, id) && drains_until(k.calls.tickets[id.0], e, now)
        }),
{
    let (k3, rec) = disposal_begins(k, inst, now);
    let ts = calls::select(k.calls.tickets, WhichV::Of(inst));
    selection_is_exact(k, inst);
    let (k4, until) = k3.withdraw_calls(rec.logical, ts, now);
    withdrawals_in_turn(k3, rec.logical, ts, now);
    assert forall|id: TicketId| #[trigger] runs(k, inst, id) implies (k4.calls.get(id) matches Some(r)
        && revoked(k.calls.tickets[id.0], r, now)) by {
        let i = choose|i: int| 0 <= i < ts.len() && #[trigger] ts[i] == k.calls.tickets[id.0];
        each_is_withdrawn(k.calls, ts, now, i);
    }
    assert forall|id: TicketId| !runs(k, inst, id) implies #[trigger] k4.calls.get(id)
        == k.calls.get(id) by {
        assert forall|i: int| 0 <= i < ts.len() implies (#[trigger] ts[i]).id != id by {
            assert(k.calls.get(ts[i].id) == Some(ts[i]));
        }
        others_are_left(k.calls, ts, now, id);
    }
    assert forall|id: TicketId, u: Instant| #[trigger]
        runs(k, inst, id) && #[trigger] drains_until(k.calls.tickets[id.0], u, now) implies (
    until matches Some(e) && u.nanos <= e.nanos) by {
        let i = choose|i: int| 0 <= i < ts.len() && #[trigger] ts[i] == k.calls.tickets[id.0];
        no_drain_is_cut(k3, rec.logical, ts, now, i, u);
    }
    if let Some(e) = until {
        let i = the_end_is_a_drain(k3, rec.logical, ts, now);
        assert(k.calls.get(ts[i].id) == Some(ts[i]));
        assert(runs(k, inst, ts[i].id));
    }
}

// ---- commits ----------------------------------------------------------

/// An effect that is committed is the last one of the ledger: under the
/// number that is given back, with the ticket and the activation that it was
/// committed for, and with the kind and the payload that were given. The
/// effects before it stay, up to the bound of the ledger, and only the ticket
/// changes, from admitted to committed.
pub proof fn committed_effects_are_recorded(
    k: KernelV,
    id: TicketId,
    kind: Text,
    payload: JsonV,
    now: Instant,
    at_ms: u64,
)
    requires
        k.calls.wf(),
        k.commit_effect(id, kind, payload, now, at_ms).1 is Ok,
    ensures
        ({
            let (k2, r) = k.commit_effect(id, kind, payload, now, at_ms);
            let t = k.calls.tickets[id.0];
            let es = k2.calls.effects;
            &&& k.calls.tickets.dom().contains(id.0)
            &&& es.len() > 0
            &&& es.last().seq == r->Ok_0
            &&& es.last().seq == k.calls.next_effect
            &&& es.last().ticket == id
            &&& es.last().logical == t.logical
            &&& es.last().instance == t.instance
            &&& es.last().generation == t.generation
            &&& es.last().kind == kind
            &&& es.last().payload == payload
            &&& es.last().at_ms == at_ms
            &&& es.len() == if k.calls.effects.len() < 1024 {
                k.calls.effects.len() + 1
            } else {
                1024
            }
            &&& forall|i: int|
                1 <= i < es.len() ==> #[trigger] es[es.len() - 1 - i]
                    == k.calls.effects[k.calls.effects.len() - i]
            &&& t.state == TicketState::Admitted
            &&& k2.calls.tickets == k.calls.tickets.insert(
                id.0,
                TicketV { state: TicketState::Committed, ..t },
            )
        }),
{
    let t = k.calls.tickets[id.0];
    assert(k.chain_check(t, kind, now) == (k, None::<JsonV>));
    assert(k.provider_check(t, kind, now) == (k, None::<JsonV>));
}

// ---- dependency calls -------------------------------------------------

/// The deadline of an admitted child is the earliest of three: what it asked
/// for, what the policy of its caller allows, and the deadline of its parent,
/// where that has one. It is none of them later, and it is one of them.
pub proof fn child_deadlines_are_the_earliest(k: KernelV, req: DepAdmitV, now: Instant)
    requires
        k.dependency_admit(req, now).1 is Ok,
    ensures
        ({
            let (k2, r) = k.dependency_admit(req, now);
            let l = k.definitions[req.caller_logical].outbound->0.limits;
            let p = k.calls.tickets[req.parent.0];
            let u = k2.calls.tickets[r->Ok_0.0].drain_until->0;
            &&& k2.calls.tickets.dom().contains(r->Ok_0.0)
            &&& k2.calls.tickets[r->Ok_0.0].drain_until is Some
            &&& u.nanos <= now.nanos + req.timeout_ms * 1_000_000
            &&& u.nanos <= now.nanos + l.max_deadline_ms * 1_000_000
            &&& p.drain_until matches Some(v) ==> u.nanos <= v.nanos
            &&& {
                ||| is_after(u, now, req.timeout_ms)
                ||| is_after(u, now, l.max_deadline_ms)
                ||| p.drain_until == Some(u)
            }
        }),
{
}

// ---- invocation -------------------------------------------------------

/// What is forwarded to an external plugin is what was invoked: the same
/// capability and input, for the activation that admits the capability, with
/// the time that the execution of the plugin allows, under a new ticket.
pub proof fn forwarded_calls_are_those_invoked(
    k: KernelV,
    cap: Text,
    input: JsonV,
    expected: Option<InstanceRefV>,
    now: Instant,
)
    requires
        k.contexts.wf(),
        k.invoke(cap, input, expected, now).1 is Forward,
    ensures
        ({
            let (k2, i) = k.invoke(cap, input, expected, now);
            let r = i->Forward_0;
            let c = k.contexts.current_of(r.logical)->0;
            &&& r.cap == cap
            &&& r.input == input
            &&& k.contexts.current_of(r.logical) is Some
            &&& c.state.canon() == Fsm::Active
            &&& r.instance == c.instance
            &&& r.generation == c.generation
            &&& k.caps.dom().contains(cap)
            &&& k.caps[cap].instance == r.instance.0 || k.caps[cap].instance == 0
                && k.caps[cap].logical == r.logical
            &&& k.plugins.dom().contains(r.logical)
            &&& k.plugins[r.logical].execution matches ExecutionV::External { timeout_ms, .. }
                && timeout_ms == r.timeout_ms
            &&& r.ticket.0 == k.calls.next_ticket
            &&& k2.calls.tickets.dom().contains(r.ticket.0)
            &&& ({
                let t = k2.calls.tickets[r.ticket.0];
                &&& t.id == r.ticket
                &&& t.cap == cap
                &&& t.logical == r.logical
                &&& t.instance == r.instance
                &&& t.generation == r.generation
                &&& t.state == TicketState::Admitted
                &&& t.opened_at == now
                &&& t.dep is None
            })
            &&& expected matches Some(e) ==> e.logical == r.logical && e.instance == r.instance.0
                && e.generation == r.generation && e.context == c.context.0 && e.epoch
                == k.contexts.epoch
        }),
{
}

// ---- opening a call ---------------------------------------------------

/// Whether `c` is the activation that takes calls of `cap`: published under
/// it, current and active, with an active entry and bindings that hold.
pub open spec fn takes_calls(k: KernelV, cap: Text, c: ContextV) -> bool {
    &&& k.caps.dom().contains(cap)
    &&& k.caps[cap].instance == c.instance.0 || k.caps[cap].instance == 0 && k.caps[cap].logical
        == c.logical
    &&& k.contexts.current_of(c.logical) == Some(c)
    &&& c.state.canon() == Fsm::Active
    &&& k.plugins.dom().contains(c.logical)
    &&& k.plugins[c.logical].state.canon() == Fsm::Active
    &&& forall|i: int|
        0 <= i < k.plugins[c.logical].bindings.len() ==> resolve::binding_holds(
            #[trigger] k.plugins[c.logical].bindings[i],
            k.states(),
        )
}

/// A capability is admitted if and only if an activation takes its calls, and
/// it is that activation.
pub proof fn admission_is_owed(k: KernelV, cap: Text, c: ContextV)
    requires
        k.contexts.wf(),
    ensures
        k.admission(cap) == Ok::<ContextV, JsonV>(c) <==> takes_calls(k, cap, c),
{
    if takes_calls(k, cap, c) {
        assert(k.contexts.get(c.instance.0) == Some(c)) by {
            assert(k.contexts.records[k.contexts.current[c.logical] - 1].instance.0
                == k.contexts.current[c.logical]);
        }
        assert(!k.bindings_stale(c.logical, k.states()));
    }
    if k.admission(cap) == Ok::<ContextV, JsonV>(c) {
        laws::only_the_active_are_admitted(k, cap);
    }
}

/// Whether the pin is a live resource of the activation.
pub open spec fn may_pin(k: KernelV, h: ResourceHandle, c: ContextV) -> bool {
    k.resources.get(h) matches Some(r) && r.state == ResourceState::Active && r.owner_instance
        == c.instance && r.generation == c.generation
}

/// A call is opened if and only if there is room for it, an activation takes
/// calls of the capability, and the pins are live resources of that
/// activation.
pub proof fn opening_is_owed(
    k: KernelV,
    cap: Text,
    input: JsonV,
    policy: Option<CallPolicy>,
    pins: Seq<ResourceHandle>,
    now: Instant,
    c: ContextV,
)
    requires
        k.contexts.wf(),
        takes_calls(k, cap, c),
    ensures
        k.call_open(cap, input, policy, pins, now).1 is Ok <==> k.calls.tickets.dom().len() < 256
            && forall|i: int| 0 <= i < pins.len() ==> may_pin(k, #[trigger] pins[i], c),
{
    admission_is_owed(k, cap, c);
    pins_are_checked(k, pins, c);
}

proof fn pins_are_checked(k: KernelV, pins: Seq<ResourceHandle>, c: ContextV)
    ensures
        k.bad_pin(pins, c) is None <==> forall|i: int|
            0 <= i < pins.len() ==> may_pin(k, #[trigger] pins[i], c),
    decreases pins.len(),
{
    if pins.len() > 0 {
        let a = pins.drop_last();
        pins_are_checked(k, a, c);
        assert(pins[pins.len() - 1] == pins.last());
        if forall|i: int| 0 <= i < pins.len() ==> may_pin(k, #[trigger] pins[i], c) {
            assert forall|i: int| 0 <= i < a.len() implies may_pin(k, #[trigger] a[i], c) by {
                assert(a[i] == pins[i]);
            }
        }
        if k.bad_pin(pins, c) is None {
            assert forall|i: int| 0 <= i < pins.len() implies may_pin(k, #[trigger] pins[i], c) by {
                if i < a.len() {
                    assert(a[i] == pins[i]);
                }
            }
        }
    }
}

/// An opened call has a ticket of its own, bound to the activation that takes
/// the calls of the capability, with the given pins, under the given policy
/// or else under that of the operation, which is to cancel where none is
/// declared. The other tickets stay.
pub proof fn opened_calls_are_bound(
    k: KernelV,
    cap: Text,
    input: JsonV,
    policy: Option<CallPolicy>,
    pins: Seq<ResourceHandle>,
    now: Instant,
)
    requires
        k.contexts.wf(),
        k.call_open(cap, input, policy, pins, now).1 is Ok,
    ensures
        ({
            let (k2, r) = k.call_open(cap, input, policy, pins, now);
            let o = r->Ok_0;
            let t = k2.calls.tickets[o.ticket.0];
            let c = k.contexts.current_of(t.logical)->0;
            let p = k.plugins[t.logical];
            &&& takes_calls(k, cap, c)
            &&& o.ticket.0 == k.calls.next_ticket
            &&& o.cap == cap && o.logical == c.logical && o.instance == c.instance
            &&& o.generation == c.generation && o.context == c.context && o.policy == t.policy
            &&& k2.calls.tickets.dom() == k.calls.tickets.dom().insert(o.ticket.0)
            &&& forall|id: u64|
                id != o.ticket.0 && k.calls.tickets.dom().contains(id)
                    ==> #[trigger] k2.calls.tickets[id] == k.calls.tickets[id]
            &&& t.id == o.ticket && t.cap == cap && t.logical == c.logical
            &&& t.instance == c.instance && t.generation == c.generation
            &&& t.context == c.context && t.epoch == c.epoch
            &&& t.state == TicketState::Admitted && !t.cancel && t.pins == pins
            &&& t.opened_at == now && t.drain_until is None && t.dep is None
            &&& match policy {
                Some(x) => t.policy == x,
                None => if p.calls.dom().contains(cap) {
                    t.policy == p.calls[cap]
                } else {
                    t.policy.on_withdraw == WithdrawPolicy::Cancel && t.policy.drain_ms == 0
                },
            }
            &&& k2.calls.effects == k.calls.effects
        }),
{
    let c = k.admission(cap)->Ok_0;
    admission_is_owed(k, cap, c);
    let (k2, r) = k.call_open(cap, input, policy, pins, now);
    assert(k2.calls.tickets.dom() =~= k.calls.tickets.dom().insert(k.calls.next_ticket));
}

// ---- commits are owed -------------------------------------------------

/// An admitted root call of the current, active activation commits.
pub proof fn commits_are_owed(
    k: KernelV,
    id: TicketId,
    kind: Text,
    payload: JsonV,
    now: Instant,
    at_ms: u64,
)
    requires
        k.calls.tickets.dom().contains(id.0),
        ({
            let t = k.calls.tickets[id.0];
            &&& t.state == TicketState::Admitted
            &&& t.dep is None
            &&& t.epoch == k.contexts.epoch
            &&& k.contexts.get(t.instance.0) matches Some(c) && k.contexts.current_of(t.logical)
                == Some(c) && c.instance == t.instance && c.logical == t.logical && c.generation
                == t.generation && (c.state.canon() == Fsm::Active || c.state.canon()
                == Fsm::Quiescing && t.policy.on_withdraw == WithdrawPolicy::Drain && (
            t.drain_until matches Some(u) && now.nanos <= u.nanos))
        }),
    ensures
        k.commit_effect(id, kind, payload, now, at_ms).1 is Ok,
{
}

/// A dependency call whose deadline is not over, whose parent is admitted,
/// whose consumer is current and whose grant is that of its admission commits
/// and is accepted, as long as its provider is there: the current, active
/// activation, or the attested one of another host.
pub proof fn children_are_owed(
    k: KernelV,
    id: TicketId,
    kind: Text,
    payload: JsonV,
    now: Instant,
    at_ms: u64,
)
    requires
        k.calls.tickets.dom().contains(id.0),
        ({
            let t = k.calls.tickets[id.0];
            let d = t.dep->0;
            &&& t.id == id
            &&& t.state == TicketState::Admitted
            &&& t.dep is Some
            &&& t.drain_until matches Some(u) ==> now.nanos < u.nanos
            &&& k.calls.tickets.dom().contains(d.parent.0)
            &&& k.calls.tickets[d.parent.0].state == TicketState::Admitted
            &&& k.contexts.get(d.consumer.0) matches Some(c) && c.state.canon() == Fsm::Active && (
            k.contexts.current_of(c.logical) matches Some(x) && x.instance == d.consumer)
            &&& k.grants.dom().contains(d.grant_consumer)
            &&& k.grants[d.grant_consumer].dom().contains(d.grant_cap)
            &&& k.grants[d.grant_consumer][d.grant_cap] == d.grant_rev
        }),
    ensures
        k.dependency_accept(id, now).1 is Ok,
        k.dependency_accept(id, now).0.calls.tickets == k.calls.tickets.insert(
            id.0,
            TicketV { state: TicketState::Committed, ..k.calls.tickets[id.0] },
        ),
        ({
            let t = k.calls.tickets[id.0];
            let local = t.epoch == k.contexts.epoch && (k.contexts.get(
                t.instance.0,
            ) matches Some(c) && c.state.canon() == Fsm::Active && c.logical == t.logical
                && c.generation == t.generation && c.instance == t.instance
                && k.contexts.current_of(t.logical) == Some(c));
            let remote = k.remotes.dom().contains(t.logical) && k.remotes[t.logical].instance
                == t.instance.0 && k.remotes[t.logical].generation == t.generation
                && k.definitions.dom().contains(t.logical) && k.definitions[t.logical].remote;
            (if t.dep->0.remote_peer is None {
                local
            } else {
                remote
            }) ==> k.commit_effect(id, kind, payload, now, at_ms).1 is Ok
        }),
{
}

/// The result of a child is not accepted once its deadline is over, its
/// parent or its consumer is gone, its grant has another revision, or its own
/// authority ended.
pub proof fn stale_children_are_not_accepted(k: KernelV, id: TicketId, now: Instant)
    requires
        k.dependency_accept(id, now).1 is Ok,
    ensures
        k.calls.tickets.dom().contains(id.0),
        k.calls.tickets[id.0].state == TicketState::Admitted,
        k.calls.tickets[id.0].dep matches Some(d) ==> {
            let t = k.calls.tickets[id.0];
            &&& t.drain_until matches Some(u) ==> now.nanos < u.nanos
            &&& k.calls.tickets.dom().contains(d.parent.0)
            &&& k.calls.tickets[d.parent.0].state == TicketState::Admitted
            &&& k.contexts.get(d.consumer.0) matches Some(c) && c.state.canon() == Fsm::Active
            &&& k.grants.dom().contains(d.grant_consumer)
            &&& k.grants[d.grant_consumer].dom().contains(d.grant_cap)
            &&& k.grants[d.grant_consumer][d.grant_cap] == d.grant_rev
        },
{
}

// ---- dependency calls are owed ----------------------------------------

/// The admitted children of the ticket `p`.
pub open spec fn children(k: KernelV, p: TicketId) -> Set<u64> {
    k.calls.tickets.dom().filter(
        |i: u64|
            k.calls.tickets[i].state == TicketState::Admitted && (
            k.calls.tickets[i].dep matches Some(d) && d.parent == p),
    )
}

proof fn children_are_counted(k: KernelV, p: TicketId)
    requires
        k.calls.tickets.dom().finite(),
    ensures
        calls::ids_of(k.calls.tickets, WhichV::ChildrenOf(p)).len() == children(k, p).len(),
{
    let m = k.calls.tickets;
    let w = WhichV::ChildrenOf(p);
    let all = num::in_order(m.dom());
    let ids = calls::ids_of(m, w);
    num::in_order_sorted(m.dom());
    calls::picked_members(all, m, w);
    assert(ids.to_set() =~= children(k, p)) by {
        assert forall|i: u64| ids.to_set().contains(i) == children(k, p).contains(i) by {
            if ids.contains(i) {
                let x = choose|x: int| 0 <= x < ids.len() && ids[x] == i;
                assert(all.contains(ids[x]));
                assert(all.to_set().contains(i));
            }
            if children(k, p).contains(i) {
                assert(all.to_set().contains(i));
                let x = choose|x: int| 0 <= x < all.len() && all[x] == i;
                assert(ids.contains(all[x]));
            }
        }
    }
    ids.unique_seq_to_set();
}

/// How many calls of a session are admitted.
pub open spec fn in_session(k: KernelV, session: Text) -> u64 {
    if k.usage.per_session.dom().contains(session) {
        k.usage.per_session[session]
    } else {
        0
    }
}

/// Whether the caller executes the parent of the call and is itself the
/// current, active activation of its id.
pub open spec fn may_ask(k: KernelV, req: DepAdmitV) -> bool {
    let p = k.calls.tickets[req.parent.0];
    &&& k.calls.tickets.dom().contains(req.parent.0)
    &&& p.state == TicketState::Admitted
    &&& p.logical == req.caller_logical
    &&& p.instance.0 == req.caller_instance
    &&& p.generation == req.caller_generation
    &&& k.contexts.current_of(req.caller_logical) matches Some(c) && c.instance.0
        == req.caller_instance && c.generation == req.caller_generation && c.state.canon()
        == Fsm::Active
}

/// Whether the binding is one of the caller, to a provider that is there: the
/// current, active activation of the id here, or the attested one.
pub open spec fn is_bound(k: KernelV, req: DepAdmitV) -> bool {
    let b = k.dep_bindings[req.binding];
    &&& k.dep_bindings.dom().contains(req.binding)
    &&& b.consumer_logical == req.caller_logical
    &&& b.consumer_instance.0 == req.caller_instance
    &&& b.consumer_generation == req.caller_generation
    &&& match k.contexts.current_of(b.provider_logical) {
        Some(c) => c.instance == b.provider_instance && c.generation == b.provider_generation
            && c.state.canon() == Fsm::Active,
        None => k.remotes.dom().contains(b.provider_logical)
            && k.remotes[b.provider_logical].instance == b.provider_instance.0
            && k.remotes[b.provider_logical].generation == b.provider_generation
            && k.definitions.dom().contains(b.provider_logical)
            && k.definitions[b.provider_logical].remote,
    }
}

/// The depth of a child: one more than that of its parent.
pub open spec fn child_depth(k: KernelV, req: DepAdmitV) -> int {
    match k.calls.tickets[req.parent.0].dep {
        Some(d) => d.depth + 1,
        None => 1,
    }
}

/// Whether the caller's own limits and the room for calls allow a child.
pub open spec fn has_quota(k: KernelV, req: DepAdmitV) -> bool {
    let l = k.definitions[req.caller_logical].outbound->0.limits;
    &&& k.definitions.dom().contains(req.caller_logical)
    &&& k.definitions[req.caller_logical].outbound is Some
    &&& child_depth(k, req) <= l.max_depth
    &&& children(k, req.parent).len() < l.max_children_per_parent
    &&& in_session(k, req.session) < l.max_calls_per_session
    &&& k.usage.global < l.max_calls_global
    &&& k.calls.tickets.dom().len() < 256
}

/// A dependency call is admitted if and only if it is well formed, its caller
/// may ask, its binding is current, its quotas have room, and the operator
/// granted the capability to the caller.
pub proof fn child_admission_is_owed(k: KernelV, req: DepAdmitV, now: Instant)
    requires
        k.calls.wf(),
        k.calls.get(req.parent) matches Some(p) ==> (p.dep matches Some(d) ==> d.depth
            < u32::MAX),
    ensures
        k.dependency_admit(req, now).1 is Ok <==> {
            &&& req.timeout_ms > 0
            &&& req.session.len() > 0
            &&& req.binding.len() > 0
            &&& may_ask(k, req)
            &&& is_bound(k, req)
            &&& has_quota(k, req)
            &&& k.grants.dom().contains(req.caller_logical)
            &&& k.grants[req.caller_logical].dom().contains(
                k.dep_bindings[req.binding].capability,
            )
        },
{
    children_are_counted(k, req.parent);
    assert(k.session_use(req.session) == in_session(k, req.session));
    let ok = {
        &&& req.timeout_ms > 0
        &&& req.session.len() > 0
        &&& req.binding.len() > 0
    };
    assert(k.parent_of(req) is Ok && k.consumer_for(req) is Ok <==> may_ask(k, req)) by {
        let p = k.calls.tickets[req.parent.0];
        assert(p.instance == InstanceId(req.caller_instance) <==> p.instance.0
            == req.caller_instance);
        if let Some(c) = k.contexts.current_of(req.caller_logical) {
            assert(c.instance == InstanceId(req.caller_instance) <==> c.instance.0
                == req.caller_instance);
        }
    }
    if k.consumer_for(req) is Ok {
        let b = k.dep_bindings[req.binding];
        assert(b.consumer_instance == InstanceId(req.caller_instance) <==> b.consumer_instance.0
            == req.caller_instance);
        assert(k.binding_for(req) is Ok && k.provider_for(b, k.consumer_for(req)->Ok_0) is Ok
            <==> is_bound(k, req));
    }
}

/// An admitted child runs the bound capability at the bound provider, linked
/// to its parent, its caller, its session and the grant in force. It takes
/// one of the calls of its session and one of all; the other tickets and
/// sessions stay.
pub proof fn admitted_children_are_linked(k: KernelV, req: DepAdmitV, now: Instant)
    requires
        k.calls.wf(),
        k.dependency_admit(req, now).1 is Ok,
    ensures
        ({
            let (k2, r) = k.dependency_admit(req, now);
            let id = r->Ok_0;
            let t = k2.calls.tickets[id.0];
            let d = t.dep->0;
            let b = k.dep_bindings[req.binding];
            &&& id.0 == k.calls.next_ticket
            &&& k2.calls.tickets.dom() == k.calls.tickets.dom().insert(id.0)
            &&& forall|i: u64|
                i != id.0 && k.calls.tickets.dom().contains(i) ==> #[trigger] k2.calls.tickets[i]
                    == k.calls.tickets[i]
            &&& t.id == id && t.state == TicketState::Admitted && !t.cancel
            &&& t.cap == b.capability && t.logical == b.provider_logical
            &&& t.instance == b.provider_instance && t.generation == b.provider_generation
            &&& t.epoch == k.contexts.epoch && t.opened_at == now && t.pins.len() == 0
            &&& t.policy.on_withdraw == WithdrawPolicy::Cancel
            &&& t.dep is Some
            &&& d.parent == req.parent && d.binding == b.id
            &&& d.consumer.0 == req.caller_instance && d.session == req.session
            &&& d.grant_consumer == req.caller_logical && d.grant_cap == b.capability
            &&& d.grant_rev == k.grants[req.caller_logical][b.capability]
            &&& d.depth == child_depth(k, req) || child_depth(k, req) > u32::MAX
            &&& match k.contexts.current_of(b.provider_logical) {
                Some(c) => d.remote_peer is None && t.context == c.context,
                None => d.remote_peer == Some(k.remotes[b.provider_logical].peer),
            }
            &&& in_session(k2, req.session) == in_session(k, req.session) + 1
            &&& k2.usage.global == k.usage.global + 1
            &&& forall|s: Text|
                s != req.session ==> #[trigger] in_session(k2, s) == in_session(k, s)
            &&& k2.grants == k.grants && k2.calls.effects == k.calls.effects
        }),
{
    let (k2, r) = k.dependency_admit(req, now);
    assert(k2.calls.tickets.dom() =~= k.calls.tickets.dom().insert(k.calls.next_ticket));
    assert(k.session_use(req.session) == in_session(k, req.session));
    let b = k.dep_bindings[req.binding];
    assert(k.binding_for(req) == Ok::<DepBindingV, DepDenyV>(b));
}

// ---- grants -----------------------------------------------------------

/// Whether the ticket runs under the grant of `cap` to `consumer`.
pub open spec fn runs_under(t: TicketV, consumer: Text, cap: Text) -> bool {
    t.state == TicketState::Admitted && (t.dep matches Some(d) && d.grant_consumer == consumer
        && d.grant_cap == cap)
}

/// Whether `r` is `t`, cancelled for `reason`.
pub open spec fn cancelled_for(t: TicketV, r: TicketV, reason: Text) -> bool {
    &&& r.state == TicketState::Cancelled
    &&& r.cancel
    &&& r.cancel_reason == Some(reason)
    &&& r == (TicketV {
        state: r.state,
        cancel: r.cancel,
        cancel_reason: r.cancel_reason,
        ..t
    })
}

/// A grant gives the capability to the consumer, under a revision of its own;
/// other grants stay. The calls under its earlier revisions are cancelled,
/// and no others.
pub proof fn grants_are_given(
    k: KernelV,
    consumer: Text,
    cap: Text,
    other: Text,
    cap2: Text,
    id: u64,
)
    ensures
        ({
            let k2 = k.grant_outbound(consumer, cap);
            &&& k2.grant(consumer, cap) == Some(k.grant_seq)
            &&& k.grant_seq < u64::MAX ==> k2.grant_seq == k.grant_seq + 1
            &&& other != consumer || cap2 != cap ==> k2.grant(other, cap2) == k.grant(other, cap2)
            &&& k2.calls.tickets.dom() == k.calls.tickets.dom()
            &&& k.calls.tickets.dom().contains(id) ==> {
                let t = k.calls.tickets[id];
                let r = k2.calls.tickets[id];
                if runs_under(t, consumer, cap) && t.dep->0.grant_rev != k.grant_seq {
                    cancelled_for(t, r, "grant-superseded"@)
                } else {
                    r == t
                }
            }
        }),
{
    let rev = k.grant_seq;
    let per = if k.grants.dom().contains(consumer) {
        k.grants[consumer]
    } else {
        Map::empty()
    };
    let k1 = KernelV {
        grant_seq: num::next(rev),
        grants: k.grants.insert(consumer, per.insert(cap, rev)),
        ..k
    };
    let w = WhichV::Granted { consumer, cap, keep_rev: Some(rev) };
    laws::cancel_all_only_cancels(k1, w, "grant-superseded"@);
    assert(k.grant_outbound(consumer, cap).calls.tickets.dom() =~= k.calls.tickets.dom());
}

/// A revocation takes the capability from the consumer; other grants stay.
/// The calls under the grant are cancelled, and no others.
pub proof fn grants_are_revoked(
    k: KernelV,
    consumer: Text,
    cap: Text,
    other: Text,
    cap2: Text,
    id: u64,
)
    ensures
        ({
            let k2 = k.revoke_outbound(consumer, cap);
            &&& k2.grant(consumer, cap) is None
            &&& k2.grant_seq == k.grant_seq
            &&& other != consumer || cap2 != cap ==> k2.grant(other, cap2) == k.grant(other, cap2)
            &&& k2.calls.tickets.dom() == k.calls.tickets.dom()
            &&& k.calls.tickets.dom().contains(id) ==> {
                let t = k.calls.tickets[id];
                let r = k2.calls.tickets[id];
                if runs_under(t, consumer, cap) {
                    cancelled_for(t, r, "grant-revoked"@)
                } else {
                    r == t
                }
            }
        }),
{
    let k1 = KernelV {
        grants: if k.grants.dom().contains(consumer) {
            k.grants.insert(consumer, k.grants[consumer].remove(cap))
        } else {
            k.grants
        },
        ..k
    };
    let w = WhichV::Granted { consumer, cap, keep_rev: None };
    laws::cancel_all_only_cancels(k1, w, "grant-revoked"@);
    assert(k.revoke_outbound(consumer, cap).calls.tickets.dom() =~= k.calls.tickets.dom());
}

// ---- the end of a call ------------------------------------------------

/// A cancellation takes the authority of an admitted ticket, for the given
/// reason, and that of the calls that descend from it; the other tickets stay.
/// It tells whether the ticket was admitted, and does nothing where it was
/// not.
pub proof fn cancellations_cancel(k: KernelV, id: TicketId, reason: Text, other: u64)
    requires
        k.calls.wf(),
    ensures
        ({
            let (k2, done) = k.call_cancel(id, reason);
            &&& done <==> k.calls.tickets.dom().contains(id.0) && k.calls.tickets[id.0].state
                == TicketState::Admitted
            &&& !done ==> k2 == k
            &&& k2.calls.tickets.dom() == k.calls.tickets.dom()
            &&& done ==> cancelled_for(k.calls.tickets[id.0], k2.calls.tickets[id.0], reason)
            &&& other != id.0 && k.calls.tickets.dom().contains(other) ==> {
                let t = k.calls.tickets[other];
                let r = k2.calls.tickets[other];
                if done && t.state == TicketState::Admitted && calls::descends(
                    k.calls.tickets,
                    other,
                    id.0,
                ) {
                    cancelled_for(t, r, "parent-cancelled"@)
                } else {
                    r == t
                }
            }
        }),
{
    let (k2, done) = k.call_cancel(id, reason);
    if done {
        let t = k.calls.tickets[id.0];
        let c = k.calls.end(id, TicketState::Cancelled, reason);
        let k1 = k.with_calls(c).log(
            t.logical,
            "call.cancelled"@,
            tickets::ticket_reason(id, reason),
        );
        laws::cancel_all_only_cancels(k1, k1.calls.heirs(id), "parent-cancelled"@);
        assert(c.tickets.dom() =~= k.calls.tickets.dom());
        calls::tickets_only_end(
            k.calls,
            id,
            WhichV::All,
            TicketState::Cancelled,
            reason,
            Instant { nanos: 0 },
            arbitrary(),
        );
        calls::narrowing_keeps_wf(k.calls, c);
        calls::heirs_descend(c, id, TicketId(other), "parent-cancelled"@);
        calls::heirs_descend(c, id, id, "parent-cancelled"@);
        calls::same_lines(k.calls.tickets, c.tickets, other, id.0);
        assert(k2.calls.tickets.dom() =~= k.calls.tickets.dom());
    } else {
        assert(k2 == k);
    }
}

/// What the end of the ticket `id` makes of the others: the calls that
/// descend from it are cancelled, the rest stays.
pub open spec fn ended_without(a: KernelV, b: KernelV, id: TicketId) -> bool {
    &&& b.calls.tickets.dom() == a.calls.tickets.dom().remove(id.0)
    &&& forall|i: u64|
        #![trigger b.calls.tickets[i]]
        i != id.0 && a.calls.tickets.dom().contains(i) ==> {
            let t = a.calls.tickets[i];
            let gone = a.calls.tickets.remove(id.0);
            if t.state == TicketState::Admitted && calls::descends(gone, i, id.0) {
                cancelled_for(t, b.calls.tickets[i], "parent-ended"@)
            } else {
                b.calls.tickets[i] == t
            }
        }
    &&& b.calls.effects == a.calls.effects
}

proof fn endings_end(k: KernelV, k1: KernelV, id: TicketId)
    requires
        k.calls.wf(),
        k.calls.tickets.dom().contains(id.0),
        k1.calls == k.calls.remove(id),
    ensures
        ended_without(k, k1.after_ticket(k.calls.tickets[id.0]).0, id),
{
    let t = k.calls.tickets[id.0];
    let k2 = k1.after_ticket(t).0;
    laws::after_ticket_ends_children(k1, t);
    calls::tickets_only_end(
        k.calls,
        id,
        WhichV::All,
        TicketState::Cancelled,
        Seq::empty(),
        Instant { nanos: 0 },
        arbitrary(),
    );
    calls::narrowing_keeps_wf(k.calls, k1.calls);
    assert(k2.calls.tickets.dom() =~= k.calls.tickets.dom().remove(id.0));
    assert forall|i: u64|
        #![trigger k2.calls.tickets[i]]
        i != id.0 && k.calls.tickets.dom().contains(i) implies {
        let t = k.calls.tickets[i];
        let gone = k.calls.tickets.remove(id.0);
        if t.state == TicketState::Admitted && calls::descends(gone, i, id.0) {
            cancelled_for(t, k2.calls.tickets[i], "parent-ended"@)
        } else {
            k2.calls.tickets[i] == t
        }
    } by {
        calls::heirs_descend(k1.calls, id, TicketId(i), "parent-ended"@);
    }
    laws::cancel_all_only_cancels(k1, k1.calls.heirs(t.id), "parent-ended"@);
    let k3 = k1.cancel_heirs(t.id, "parent-ended"@);
    let k4 = match t.dep {
        Some(d) => k3.dep_release(d.session),
        None => k3,
    };
    finalizing_keeps_effects(k4, t.instance);
}

proof fn finalizing_keeps_effects(k: KernelV, inst: InstanceId)
    ensures
        k.finalize(inst).0.calls.effects == k.calls.effects,
{
    if let Some(rec) = k.contexts.get(inst.0) {
        let k1 = k.claim_cleanup(inst);
        laws::clean_back_only_releases(
            k1,
            resources::handles_in(k1.resources.slots, rec.context),
            rec,
        );
    }
}

/// A call that is closed is gone, with the authority of what descends from
/// it.
pub proof fn closed_calls_are_gone(k: KernelV, id: TicketId)
    requires
        k.calls.wf(),
    ensures
        k.calls.tickets.dom().contains(id.0) ==> ended_without(k, k.call_close(id).0, id),
        !k.calls.tickets.dom().contains(id.0) ==> k.call_close(id) == (k, None::<JobV>),
{
    if k.calls.tickets.dom().contains(id.0) {
        let t = k.calls.tickets[id.0];
        let k1 = k.with_calls(k.calls.remove(id)).log(
            t.logical,
            "call.closed"@,
            JsonV::object().with("ticket"@, json::jnum(id.0)).with(
                "state"@,
                json::jstr(t.state.name()),
            ),
        );
        endings_end(k, k1, id);
    }
}

/// A call whose authority ended can be reaped, and is then gone; one that
/// still has authority cannot.
pub proof fn only_the_revoked_are_reaped(k: KernelV, id: TicketId, reason: Text)
    requires
        k.calls.wf(),
    ensures
        ({
            let (k2, done, job) = k.call_reap(id, reason);
            &&& done <==> k.calls.tickets.dom().contains(id.0) && k.calls.tickets[id.0].state
                != TicketState::Admitted
            &&& done ==> ended_without(k, k2, id)
            &&& !done ==> k2 == k && job is None
        }),
{
    if k.calls.tickets.dom().contains(id.0) {
        endings_end(k, k.with_calls(k.calls.remove(id)), id);
    }
}

// ---- answers ----------------------------------------------------------

/// What an external plugin replied is the answer of the call, unless its
/// ticket was revoked meanwhile; a refusal or failure gives its code, and a
/// call that was revoked is cancelled. Its ticket is gone.
pub proof fn replies_are_answers(k: KernelV, req: ForwardRequestV, out: ForwardOutcomeV)
    requires
        k.calls.wf(),
    ensures
        ({
            let (k2, i) = k.forwarded(req, out);
            let a = i->Answered_0;
            let live = k.calls.tickets.dom().contains(req.ticket.0)
                && k.calls.tickets[req.ticket.0].state == TicketState::Admitted;
            &&& i is Answered
            &&& k.calls.tickets.dom().contains(req.ticket.0) ==> ended_without(
                k,
                k2,
                req.ticket,
            )
            &&& match out {
                ForwardOutcomeV::Replied(v) => if live {
                    a.ok && a.value == v
                } else {
                    !a.ok && a.value.get("code"@) == Some(JsonV::Str("cancelled"@))
                },
                ForwardOutcomeV::Refused { code, message } => {
                    &&& !a.ok
                    &&& a.value.get("error"@) == Some(JsonV::Str(message))
                    &&& a.value.get("code"@) == Some(
                        JsonV::Str(
                            if live {
                                code
                            } else {
                                "cancelled"@
                            },
                        ),
                    )
                },
                ForwardOutcomeV::Failed(e) => !a.ok && a.value.get("code"@) == Some(
                    JsonV::Str(
                        match e {
                            ForwardErrorV::Cancelled => "cancelled"@,
                            ForwardErrorV::Timeout => "deadline-exceeded"@,
                            ForwardErrorV::Gone(_) => "outcome-unknown"@,
                            ForwardErrorV::Protocol(_) => "internal"@,
                        },
                    ),
                ),
            }
        }),
{
    if k.calls.tickets.dom().contains(req.ticket.0) {
        endings_end(k, k.with_calls(k.calls.remove(req.ticket)), req.ticket);
    }
    match out {
        ForwardOutcomeV::Replied(_) => failures_have_codes("ticket revoked"@, "cancelled"@),
        ForwardOutcomeV::Refused { code, message } => {
            failures_have_codes(message, code);
            failures_have_codes(message, "cancelled"@);
        },
        ForwardOutcomeV::Failed(e) => failures_have_codes(
            "forward failed: "@ + e.shown(),
            e.code(),
        ),
    }
}

/// A failure holds its message and its code.
pub proof fn failures_have_codes(error: Text, code: Text)
    ensures
        tickets::failure(error, code).get("error"@) == Some(JsonV::Str(error)),
        tickets::failure(error, code).get("code"@) == Some(JsonV::Str(code)),
{
    reveal_strlit("error");
    reveal_strlit("code");
    assert("error"@.len() != "code"@.len());
    one_member("error"@, JsonV::Str(error));
    let ms = seq![("error"@, JsonV::Str(error))];
    assert(JsonV::object().with("error"@, JsonV::Str(error)) == JsonV::Object(ms));
    declarations::written_members_are_read(ms, "code"@, JsonV::Str(code), "error"@);
}

/// An object with one member.
proof fn one_member(k: Text, v: JsonV)
    ensures
        JsonV::object().with(k, v) == JsonV::Object(seq![(k, v)]),
        json::ordered_members(seq![(k, v)]),
        JsonV::object().with(k, v).get(k) == Some(v),
{
    let e = Seq::<(Text, JsonV)>::empty();
    assert(json::place(e, k) == 0);
    assert(e.insert(0, (k, v)) =~= seq![(k, v)]);
    json::with_keeps_order(e, k, v);
}

} // verus!
