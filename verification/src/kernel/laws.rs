//! What holds of the kernel as a whole, across its operations.

use vstd::prelude::*;
use crate::calls;
use crate::calls::{TicketId, TicketState, TicketV, WhichV, WithdrawPolicy, MAX_INFLIGHT_CALLS};
use crate::context::ContextV;
use crate::deps::BindingV;
use crate::external::{ForwardOutcomeV, ForwardRequestV};
use crate::fsm::Fsm;
use crate::graph;
use crate::identity::{ContextId, InstanceId, InstanceRefV, ResourceHandle};
use crate::journal::EntryV;
use crate::json::JsonV;
use crate::kernel::dependency::DepAdmitV;
use crate::kernel::dispatch::InvocationV;
use crate::kernel::lifecycle::BegunV;
use crate::kernel::reconcile;
use crate::kernel::resolve;
use crate::kernel::tickets;
use crate::kernel::validity;
use crate::kernel::{DisposeOutcomeV, KernelV};
use crate::manifest::ManifestV;
use crate::resources;
use crate::resources::{ResourceKindV, ResourceState, ResourceV, ResourcesV};
use crate::text;
use crate::text::Text;
use crate::time::Instant;

verus! {

// ---- what the parts leave alone --------------------------------------

proof fn log_cancelled_only_logs(k: KernelV, ts: Seq<TicketV>, reason: Text)
    ensures
        k.log_cancelled(ts, reason) == (KernelV {
            journal: k.log_cancelled(ts, reason).journal,
            ..k
        }),
    decreases ts.len(),
{
    if ts.len() > 0 {
        log_cancelled_only_logs(k, ts.drop_last(), reason);
    }
}

/// Cancelling tickets changes them and the journal.
pub(crate) proof fn cancel_all_only_cancels(k: KernelV, w: WhichV, reason: Text)
    ensures
        ({
            let k2 = k.cancel_all(w, reason);
            k2 == KernelV {
                calls: k.calls.end_all(w, TicketState::Cancelled, reason),
                journal: k2.journal,
                ..k
            }
        }),
{
    log_cancelled_only_logs(
        k.with_calls(k.calls.end_all(w, TicketState::Cancelled, reason)),
        k.calls.ended_list(w, TicketState::Cancelled, reason),
        reason,
    );
}

/// Cleaning up changes resources and publications.
pub(crate) proof fn clean_back_only_releases(k: KernelV, hs: Seq<ResourceHandle>, ctx: ContextV)
    ensures
        ({
            let k2 = k.clean_back(hs, ctx).0;
            k2 == KernelV {
                resources: k2.resources,
                caps: k2.caps,
                topics: k2.topics,
                ..k
            }
        }),
    decreases hs.len(),
{
    if hs.len() > 0 {
        clean_back_only_releases(k.clean_one(hs.last(), ctx).0, hs.drop_last(), ctx);
    }
}

pub(crate) proof fn unpublish_each_only_unpublishes(k: KernelV, hs: Seq<ResourceHandle>, rec: ContextV)
    ensures
        ({
            let k2 = k.unpublish_each(hs, rec);
            k2 == KernelV { caps: k2.caps, topics: k2.topics, ..k }
        }),
    decreases hs.len(),
{
    if hs.len() > 0 {
        unpublish_each_only_unpublishes(k, hs.drop_last(), rec);
    }
}

pub(crate) proof fn withdraw_calls_only_ends(k: KernelV, logical: Text, ts: Seq<TicketV>, now: Instant)
    ensures
        ({
            let k2 = k.withdraw_calls(logical, ts, now).0;
            &&& k2 == KernelV { calls: k2.calls, journal: k2.journal, ..k }
            &&& k2.calls.effects == k.calls.effects
            &&& k2.calls.tickets.dom() == k.calls.tickets.dom()
        }),
    decreases ts.len(),
{
    if ts.len() > 0 {
        withdraw_calls_only_ends(k, logical, ts.drop_last(), now);
        let k1 = k.withdraw_calls(logical, ts.drop_last(), now).0;
        assert(k.withdraw_calls(logical, ts, now).0.calls.tickets.dom()
            =~= k1.calls.tickets.dom());
    }
}

pub(crate) proof fn log_expired_only_cancels(k: KernelV, logical: Text, ids: Seq<u64>)
    ensures
        ({
            let k2 = k.log_expired(logical, ids);
            &&& k2 == KernelV { calls: k2.calls, journal: k2.journal, ..k }
            &&& k2.calls.effects == k.calls.effects
        }),
    decreases ids.len(),
{
    if ids.len() > 0 {
        log_expired_only_cancels(k, logical, ids.drop_last());
        let k1 = k.log_expired(logical, ids.drop_last()).log(
            logical,
            "call.expired"@,
            tickets::ticket_reason(TicketId(ids.last()), "drain-exceeded"@),
        );
        cancel_all_only_cancels(
            k1,
            k1.calls.heirs(TicketId(ids.last())),
            "parent-expired"@,
        );
    }
}

pub(crate) proof fn finalize_keeps_tickets(k: KernelV, inst: InstanceId)
    ensures
        k.finalize(inst).0.calls.tickets == k.calls.tickets,
        k.finalize(inst).0.usage == k.usage,
        k.finalize(inst).0.calls.effects == k.calls.effects,
{
    match k.contexts.get(inst.0) {
        Some(rec) => {
            clean_back_only_releases(
                k.claim_cleanup(inst),
                resources::handles_in(k.claim_cleanup(inst).resources.slots, rec.context),
                rec,
            );
        },
        None => {},
    }
}

pub(crate) proof fn undo_back_only_releases(k: KernelV, inst: InstanceId, hs: Seq<ResourceHandle>)
    ensures
        ({
            let k2 = k.undo_back(inst, hs);
            k2 == KernelV {
                resources: k2.resources,
                caps: k2.caps,
                topics: k2.topics,
                ..k
            }
        }),
    decreases hs.len(),
{
    if hs.len() > 0 {
        let (rs, res) = k.resources.release(hs.last());
        let k1 = k.with_resources(rs);
        let k2 = match res {
            Ok(c) => k1.unpublish(c.kind, inst),
            Err(_) => k1,
        };
        undo_back_only_releases(k2, inst, hs.drop_last());
    }
}

pub(crate) proof fn acquire_kinds_only_acquires(
    k: KernelV,
    ctx: ContextV,
    id: Text,
    kinds: Seq<ResourceKindV>,
)
    ensures
        ({
            let k2 = k.acquire_kinds(ctx, id, kinds).0;
            k2 == KernelV {
                resources: k2.resources,
                caps: k2.caps,
                topics: k2.topics,
                ..k
            }
        }),
    decreases kinds.len(),
{
    if kinds.len() > 0 {
        acquire_kinds_only_acquires(k, ctx, id, kinds.drop_last());
        let (k1, res) = k.acquire_kinds(ctx, id, kinds.drop_last());
        if res is Ok {
            let (rs, r) = k1.resources.register(
                ctx.context,
                ctx.instance,
                id,
                ctx.generation,
                kinds.last(),
                None,
            );
            undo_back_only_releases(k1.with_resources(rs), ctx.instance, res->Ok_0);
        }
    }
}

pub(crate) proof fn issue_each_only_issues(k: KernelV, logical: Text, cur: ContextV, bs: Seq<BindingV>)
    ensures
        ({
            let k2 = k.issue_each(logical, cur, bs);
            k2 == KernelV { dep_bindings: k2.dep_bindings, dep_seq: k2.dep_seq, ..k }
        }),
    decreases bs.len(),
{
    if bs.len() > 0 {
        issue_each_only_issues(k, logical, cur, bs.drop_last());
    }
}

// ---- admission --------------------------------------------------------

/// What is admitted is published, active, and bound to providers that are
/// active: nothing else takes calls.
pub proof fn only_the_active_are_admitted(k: KernelV, cap: Text)
    requires
        k.contexts.wf(),
    ensures
        k.admission(cap) matches Ok(ctx) ==> {
            &&& k.caps.dom().contains(cap)
            &&& ctx.state.canon() == Fsm::Active
            &&& k.contexts.current_of(ctx.logical) == Some(ctx)
            &&& k.plugin(ctx.logical) matches Some(p) && p.state.canon() == Fsm::Active
                && forall|i: int|
                    0 <= i < p.bindings.len() ==> resolve::binding_holds(
                        #[trigger] p.bindings[i],
                        k.states(),
                    )
        },
{
}

/// Registering a call does not change what is admitted: what was checked
/// before it holds after it.
pub proof fn tickets_do_not_change_admission(k: KernelV, t: TicketV, cap: Text)
    ensures
        k.with_calls(k.calls.issue(t)).admission(cap) == k.admission(cap),
{
    let k2 = k.with_calls(k.calls.issue(t));
    assert(k2.states() =~= k.states());
}

/// Registering a resource does not change whether its owner admits.
pub proof fn resources_do_not_change_the_gate(k: KernelV, rs: ResourcesV, logical: Text)
    ensures
        k.with_resources(rs).gate(logical) == k.gate(logical),
{
}

/// Calls in flight stay within their bound.
pub proof fn calls_in_flight_are_bounded(
    k: KernelV,
    cap: Text,
    input: JsonV,
    policy: Option<calls::CallPolicy>,
    pins: Seq<ResourceHandle>,
    now: Instant,
)
    requires
        k.calls.wf(),
    ensures
        ({
            let (k2, r) = k.call_open(cap, input, policy, pins, now);
            &&& r is Ok ==> k2.calls.tickets.dom().len() <= MAX_INFLIGHT_CALLS
            &&& r is Err ==> k2 == k
        }),
{
}

/// Ending a ticket that was just issued gives back the tickets before it.
proof fn issued_and_settled(k: KernelV, t: TicketV)
    requires
        k.calls.wf(),
        t.id.0 == k.calls.next_ticket,
    ensures
        k.with_calls(k.calls.issue(t)).settle(t.id).0.calls.tickets == k.calls.tickets,
{
    let k1 = k.with_calls(k.calls.issue(t));
    let k2 = k1.with_calls(k1.calls.remove(t.id));
    assert(k2.calls.tickets =~= k.calls.tickets);
    after_ticket_ends_children(k2, t);
    assert forall|i: u64| #[trigger] k2.calls.tickets.dom().contains(i) implies !(k2.calls.heirs(
        t.id,
    ).has(k2.calls.tickets[i])) by {
        if let Some(d) = k2.calls.tickets[i].dep {
            calls::childless(k2.calls.tickets, d.parent.0, t.id.0);
        }
    }
    assert(k1.settle(t.id).0.calls.tickets =~= k.calls.tickets);
}

/// An invocation that is answered leaves no ticket behind, whether a certain
/// activation was asked for or not.
pub proof fn answered_invocations_leave_no_ticket(
    k: KernelV,
    cap: Text,
    input: JsonV,
    expected: Option<InstanceRefV>,
    now: Instant,
)
    requires
        k.calls.wf(),
    ensures
        k.invoke(cap, input, expected, now).1 is Answered ==> k.invoke(
            cap,
            input,
            expected,
            now,
        ).0.calls.tickets == k.calls.tickets,
{
    if k.calls.tickets.dom().len() < MAX_INFLIGHT_CALLS {
        if let Ok(ctx) = k.admission(cap) {
            let t = k.ticket_for(cap, ctx, k.policy_for(ctx.logical, cap), Seq::empty(), now);
            issued_and_settled(k, t);
        }
    }
}

/// A reply from outside ends its ticket, whatever it is.
proof fn replies_settle(k: KernelV, req: ForwardRequestV, out: ForwardOutcomeV)
    ensures
        k.forwarded(req, out).1 is Answered,
        k.forwarded(req, out).0.calls == k.settle(req.ticket).0.calls,
{
}

/// What is forwarded runs under the ticket that was just issued.
proof fn forwarding_issues(
    k: KernelV,
    cap: Text,
    input: JsonV,
    expected: Option<InstanceRefV>,
    now: Instant,
)
    ensures
        k.invoke(cap, input, expected, now).1 matches InvocationV::Forward(r) ==> {
            let ctx = k.admission(cap)->Ok_0;
            let t = k.ticket_for(cap, ctx, k.policy_for(ctx.logical, cap), Seq::empty(), now);
            &&& r.ticket == t.id
            &&& k.invoke(cap, input, expected, now).0 == k.with_calls(k.calls.issue(t))
        },
{
}

/// A reply from outside is answered, and its ticket is gone. Where nothing
/// happened since the invocation, the tickets are those before it.
pub proof fn forwarded_invocations_leave_no_ticket(
    k: KernelV,
    cap: Text,
    input: JsonV,
    expected: Option<InstanceRefV>,
    now: Instant,
    req: ForwardRequestV,
    out: ForwardOutcomeV,
)
    requires
        k.calls.wf(),
    ensures
        k.forwarded(req, out).1 is Answered,
        k.forwarded(req, out).0.calls.get(req.ticket) is None,
        k.invoke(cap, input, expected, now).1 matches InvocationV::Forward(r) ==> k.invoke(
            cap,
            input,
            expected,
            now,
        ).0.forwarded(r, out).0.calls.tickets == k.calls.tickets,
{
    replies_settle(k, req, out);
    if let Some(t) = k.calls.get(req.ticket) {
        after_ticket_ends_children(k.with_calls(k.calls.remove(req.ticket)), t);
    }
    forwarding_issues(k, cap, input, expected, now);
    let (k1, i) = k.invoke(cap, input, expected, now);
    if let InvocationV::Forward(r) = i {
        let ctx = k.admission(cap)->Ok_0;
        let t = k.ticket_for(cap, ctx, k.policy_for(ctx.logical, cap), Seq::empty(), now);
        issued_and_settled(k, t);
        replies_settle(k1, r, out);
    }
}

// ---- commits ----------------------------------------------------------

/// An effect is committed only under an admitted ticket. A dependency call
/// besides needs its deadline, an admitted parent, a current consumer and the
/// grant it was admitted under. The ticket is committed with it.
pub proof fn commits_need_authority(
    k: KernelV,
    id: TicketId,
    kind: Text,
    payload: JsonV,
    now: Instant,
    at_ms: u64,
)
    requires
        k.calls.wf(),
    ensures
        ({
            let (k2, r) = k.commit_effect(id, kind, payload, now, at_ms);
            &&& r is Ok ==> k.calls.admitted(id)
            &&& r is Ok ==> (k.calls.get(id)->0.dep matches Some(d) ==> {
                &&& k.calls.get(id)->0.drain_until matches Some(u) ==> now.nanos < u.nanos
                &&& k.calls.admitted(d.parent)
                &&& k.consumer_current(d.consumer)
                &&& k.grant(d.grant_consumer, d.grant_cap) == Some(d.grant_rev)
            })
            &&& r is Ok ==> (k2.calls.get(id) matches Some(t) && t.state
                == TicketState::Committed)
            &&& r is Err ==> k2.calls.effects == k.calls.effects
        }),
{
}

/// No ticket commits twice: the second attempt is refused and changes
/// nothing.
pub proof fn no_second_commit(
    k: KernelV,
    id: TicketId,
    kind: Text,
    payload: JsonV,
    now: Instant,
    at_ms: u64,
    kind2: Text,
    payload2: JsonV,
    later: Instant,
    later_ms: u64,
)
    requires
        k.calls.wf(),
        k.commit_effect(id, kind, payload, now, at_ms).1 is Ok,
    ensures
        ({
            let k2 = k.commit_effect(id, kind, payload, now, at_ms).0;
            let (k3, r) = k2.commit_effect(id, kind2, payload2, later, later_ms);
            k3 == k2 && r == Err::<u64, JsonV>(
                tickets::failure_at("already committed"@, "already-committed"@, id),
            )
        }),
{
}

/// A local ticket commits only for the current activation of its plugin, and
/// a withdrawn one only while a drain of it runs.
pub proof fn stale_generations_never_commit(
    k: KernelV,
    id: TicketId,
    kind: Text,
    payload: JsonV,
    now: Instant,
    at_ms: u64,
)
    requires
        k.commit_effect(id, kind, payload, now, at_ms).1 is Ok,
        !(k.calls.get(id)->0.dep matches Some(d) && d.remote_peer is Some),
    ensures
        ({
            let t = k.calls.get(id)->0;
            &&& t.epoch == k.contexts.epoch
            &&& k.contexts.get(t.instance.0) matches Some(owner) && {
                &&& owner.logical == t.logical
                &&& owner.generation == t.generation
                &&& owner.state.canon() == Fsm::Active || owner.state.canon() == Fsm::Quiescing
                    && t.policy.on_withdraw == WithdrawPolicy::Drain && (
                t.drain_until matches Some(u) && now.nanos <= u.nanos)
            }
            &&& k.contexts.current_of(t.logical) matches Some(cur) ==> cur.instance
                == t.instance
        }),
{
}

/// A commit that is refused is in the journal: under a ticket that has not
/// been committed yet, the refusal is one entry more, a rejection or, where a
/// deadline passed, an expiry; nothing is applied.
pub proof fn refused_commits_are_journaled(
    k: KernelV,
    id: TicketId,
    kind: Text,
    payload: JsonV,
    now: Instant,
    at_ms: u64,
)
    requires
        k.calls.get(id) matches Some(t) && t.state != TicketState::Committed,
        k.commit_effect(id, kind, payload, now, at_ms).1 is Err,
    ensures
        ({
            let k2 = k.commit_effect(id, kind, payload, now, at_ms).0;
            let t = k.calls.get(id)->0;
            &&& k2.calls.effects == k.calls.effects
            &&& exists|what: Text, args: JsonV|
                (what == "call.rejected"@ || what == "call.expired"@) && k2.journal
                    == #[trigger] k.journal.append(t.logical, what, args, JsonV::Null)
        }),
{
}

// ---- dependency calls -------------------------------------------------

/// A denied dependency call leaves nothing behind.
pub proof fn denial_leaves_nothing(k: KernelV, req: DepAdmitV, now: Instant)
    ensures
        k.dependency_admit(req, now).1 is Err ==> k.dependency_admit(req, now).0 == k,
{
}

/// Without the operator's grant for the bound capability nothing is
/// admitted.
pub proof fn no_grant_no_admission(k: KernelV, req: DepAdmitV, now: Instant)
    requires
        !k.dep_bindings.dom().contains(req.binding) || k.grant(
            req.caller_logical,
            k.dep_bindings[req.binding].capability,
        ) is None,
    ensures
        k.dependency_admit(req, now).1 is Err,
{
}

/// An admitted child keeps the caller's policy: its depth, the children of
/// its parent, and the calls of its session, of all sessions and in flight
/// are within their bounds.
pub proof fn admission_keeps_quotas(k: KernelV, req: DepAdmitV, now: Instant)
    requires
        k.calls.wf(),
    ensures
        ({
            let (k2, r) = k.dependency_admit(req, now);
            r matches Ok(id) ==> {
                let l = k.definition(req.caller_logical)->0.outbound->0.limits;
                &&& k.definition(req.caller_logical) matches Some(d) && d.outbound is Some
                &&& k2.calls.get(id) matches Some(t) && t.dep matches Some(dep) && dep.depth
                    <= l.max_depth
                &&& calls::ids_of(k.calls.tickets, WhichV::ChildrenOf(req.parent)).len()
                    < l.max_children_per_parent
                &&& k2.session_use(req.session) <= l.max_calls_per_session
                &&& k2.usage.global <= l.max_calls_global
                &&& k2.calls.tickets.dom().len() <= MAX_INFLIGHT_CALLS
            }
        }),
{
}

/// An admitted child ends no later than its parent's deadline, its own
/// timeout and the longest one that the policy allows.
pub proof fn children_end_with_their_parent(k: KernelV, req: DepAdmitV, now: Instant)
    ensures
        ({
            let (k2, r) = k.dependency_admit(req, now);
            r matches Ok(id) ==> {
                let p = k.calls.get(req.parent)->0;
                &&& k.calls.admitted(req.parent)
                &&& k2.calls.get(id) matches Some(t) && t.drain_until matches Some(u) && {
                    &&& u.nanos <= now.later(req.timeout_ms).nanos
                    &&& u.nanos <= now.later(
                        k.definition(req.caller_logical)->0.outbound->0.limits.max_deadline_ms,
                    ).nanos
                    &&& p.drain_until matches Some(v) ==> u.nanos <= v.nanos
                }
            }
        }),
{
}

/// The reservation of an admitted child is returned when it ends.
pub proof fn reservations_return(k: KernelV, req: DepAdmitV, now: Instant)
    requires
        k.dependency_admit(req, now).1 is Ok,
    ensures
        ({
            let (k2, r) = k.dependency_admit(req, now);
            let k3 = k2.settle(r->Ok_0).0;
            &&& k3.usage.global == k.usage.global
            &&& k3.session_use(req.session) == k.session_use(req.session)
            &&& forall|s: Text|
                s != req.session ==> #[trigger] k3.session_use(s) == k.session_use(s)
        }),
{
    let (k2, r) = k.dependency_admit(req, now);
    let id = r->Ok_0;
    let t = k2.calls.get(id)->0;
    let k3 = k2.with_calls(k2.calls.remove(id));
    cancel_all_only_cancels(k3, k3.calls.heirs(t.id), "parent-ended"@);
    let k4 = k3.cancel_heirs(t.id, "parent-ended"@).dep_release(req.session);
    finalize_keeps_tickets(k4, t.instance);
}

/// A withdrawn grant is gone, and no child keeps authority under it.
pub proof fn withdrawn_grants_end_children(k: KernelV, consumer: Text, cap: Text, id: TicketId)
    ensures
        ({
            let k2 = k.revoke_outbound(consumer, cap);
            &&& k2.grant(consumer, cap) is None
            &&& k2.calls.get(id) matches Some(t) ==> (t.open() ==> !(t.dep matches Some(d)
                && d.grant_consumer == consumer && d.grant_cap == cap))
        }),
{
    let k1 = KernelV {
        grants: if k.grants.dom().contains(consumer) {
            k.grants.insert(consumer, k.grants[consumer].remove(cap))
        } else {
            k.grants
        },
        ..k
    };
    cancel_all_only_cancels(
        k1,
        WhichV::Granted { consumer, cap, keep_rev: None },
        "grant-revoked"@,
    );
}

/// A renewed grant has a revision of its own, and no child keeps authority
/// under an earlier one.
pub proof fn renewed_grants_end_earlier_children(
    k: KernelV,
    consumer: Text,
    cap: Text,
    id: TicketId,
)
    ensures
        ({
            let k2 = k.grant_outbound(consumer, cap);
            &&& k2.grant(consumer, cap) == Some(k.grant_seq)
            &&& k2.calls.get(id) matches Some(t) ==> (t.open() ==> (t.dep matches Some(d) ==> (
            d.grant_consumer == consumer && d.grant_cap == cap ==> d.grant_rev == k.grant_seq)))
        }),
{
    let rev = k.grant_seq;
    let per = if k.grants.dom().contains(consumer) {
        k.grants[consumer]
    } else {
        Map::empty()
    };
    let k1 = KernelV {
        grant_seq: crate::num::next(rev),
        grants: k.grants.insert(consumer, per.insert(cap, rev)),
        ..k
    };
    cancel_all_only_cancels(
        k1,
        WhichV::Granted { consumer, cap, keep_rev: Some(rev) },
        "grant-superseded"@,
    );
}

/// A ticket that ends, by whatever way, takes the authority of all that
/// descend from it with it.
pub proof fn ended_parents_end_descendants(
    k: KernelV,
    parent: TicketId,
    id: TicketId,
    reason: Text,
)
    requires
        k.calls.wf(),
        k.calls.get(parent) is Some,
    ensures
        k.settle(parent).0.calls.get(parent) is None,
        k.settle(parent).0.calls.admitted(id) ==> !calls::descends(
            k.settle(parent).0.calls.tickets,
            id.0,
            parent.0,
        ),
        k.close(parent).0.calls.get(parent) is None,
        k.close(parent).0.calls.admitted(id) ==> !calls::descends(
            k.close(parent).0.calls.tickets,
            id.0,
            parent.0,
        ),
        k.calls.admitted(parent) ==> ({
            let c = k.call_cancel(parent, reason).0.calls;
            c.admitted(id) ==> id != parent && !calls::descends(c.tickets, id.0, parent.0)
        }),
        k.calls.admitted(parent) ==> ({
            let c = k.dependency_timeout(parent).0.calls;
            c.admitted(id) ==> id != parent && !calls::descends(c.tickets, id.0, parent.0)
        }),
{
    let t = k.calls.get(parent)->0;
    let a = k.with_calls(k.calls.remove(parent));
    after_ticket_ends_children(a, t);
    let b = a.log(
        t.logical,
        "call.closed"@,
        JsonV::object().with("ticket"@, crate::json::jnum(parent.0)).with(
            "state"@,
            crate::json::jstr(t.state.name()),
        ),
    );
    after_ticket_ends_children(b, t);
    calls::heirs_descend(a.calls, parent, id, "parent-ended"@);
    if k.calls.admitted(parent) {
        let c = k.with_calls(k.calls.end(parent, TicketState::Cancelled, reason));
        assert(c.calls.tickets.dom() =~= k.calls.tickets.dom());
        calls::heirs_descend(c.calls, parent, id, "parent-cancelled"@);
        let c = c.log(t.logical, "call.cancelled"@, tickets::ticket_reason(parent, reason));
        cancel_all_only_cancels(c, c.calls.heirs(parent), "parent-cancelled"@);
        let e = k.with_calls(k.calls.end(parent, TicketState::Expired, "deadline-exceeded"@));
        assert(e.calls.tickets.dom() =~= k.calls.tickets.dom());
        calls::heirs_descend(e.calls, parent, id, "parent-expired"@);
        let e = e.log(
            t.logical,
            "call.expired"@,
            tickets::ticket_reason(parent, "deadline-exceeded"@),
        );
        cancel_all_only_cancels(e, e.calls.heirs(parent), "parent-expired"@);
    }
}

pub(crate) proof fn after_ticket_ends_children(k: KernelV, t: TicketV)
    ensures
        k.after_ticket(t).0.calls.tickets == calls::ended(
            k.calls.tickets,
            k.calls.heirs(t.id),
            TicketState::Cancelled,
            "parent-ended"@,
        ),
{
    cancel_all_only_cancels(k, k.calls.heirs(t.id), "parent-ended"@);
    let k1 = k.cancel_heirs(t.id, "parent-ended"@);
    let k2 = match t.dep {
        Some(d) => k1.dep_release(d.session),
        None => k1,
    };
    finalize_keeps_tickets(k2, t.instance);
}

// ---- acquisition ------------------------------------------------------

proof fn batch_adds(
    k: KernelV,
    logical: Text,
    items: Seq<(ResourceKindV, Option<Text>)>,
    h: ResourceHandle,
)
    requires
        k.resources.slots.len() + items.len() <= u64::MAX,
        forall|i: int| 0 <= i < items.len() ==> !((#[trigger] items[i]).0 is FailRelease),
    ensures
        ({
            let (k2, r) = k.acquire_batch(logical, items);
            r matches Ok(hs) ==> {
                &&& k2.calls == k.calls
                &&& k.resources.slots.len() <= k2.resources.slots.len()
                    <= k.resources.slots.len() + items.len()
                &&& h.0 <= k.resources.slots.len() ==> k2.resources.get(h) == k.resources.get(h)
                    && !hs.contains(h)
                &&& h.0 > k.resources.slots.len() ==> (k2.resources.get(h) matches Some(q)
                    ==> hs.contains(h) && !(q.kind is FailRelease))
            }
        }),
    decreases items.len(),
{
    if items.len() > 0 {
        let a = items.drop_last();
        assert forall|i: int| 0 <= i < a.len() implies !((#[trigger] a[i]).0 is FailRelease) by {
            assert(items[i] == a[i]);
        }
        batch_adds(k, logical, a, h);
        let (k1, r) = k.acquire_batch(logical, a);
        if let Ok(hs) = r {
            let last = items[items.len() - 1];
            assert(last == items.last());
            let (k2, r2) = k1.acquire(logical, last.0, last.1);
            if let Ok(g) = r2 {
                let all = hs.push(g);
                assert(g == k1.resources.next_handle());
                assert(all.contains(h) <==> hs.contains(h) || h == g) by {
                    if hs.contains(h) {
                        let j = choose|j: int| 0 <= j < hs.len() && hs[j] == h;
                        assert(all[j] == h);
                    }
                    if h == g {
                        assert(all[hs.len() as int] == h);
                    }
                }
            }
        }
    }
}

proof fn release_back_releases(k: KernelV, hs: Seq<ResourceHandle>, h: ResourceHandle)
    requires
        forall|i: int|
            0 <= i < hs.len() ==> {
                &&& forall|o: InstanceId| !(#[trigger] k.pinned(o, hs[i]))
                &&& k.resources.get(#[trigger] hs[i]) matches Some(q) ==> !(q.kind is FailRelease)
            },
    ensures
        ({
            let k2 = k.release_back(hs);
            &&& hs.contains(h) ==> !resources::is_active(k2.resources.get(h))
            &&& !hs.contains(h) ==> k2.resources.get(h) == k.resources.get(h)
        }),
    decreases hs.len(),
{
    if hs.len() > 0 {
        let l = hs[hs.len() - 1];
        let rest = hs.drop_last();
        let k1 = k.release(l).0;
        assert(k1.calls == k.calls);
        assert forall|i: int| 0 <= i < rest.len() implies {
            &&& forall|o: InstanceId| !(#[trigger] k1.pinned(o, rest[i]))
            &&& k1.resources.get(#[trigger] rest[i]) matches Some(q) ==> !(q.kind is FailRelease)
        } by {
            assert(rest[i] == hs[i]);
            assert forall|o: InstanceId| !(#[trigger] k1.pinned(o, rest[i])) by {
                assert(!k.pinned(o, hs[i]));
            }
            if rest[i] != l {
                resources::release_spares_others(k.resources, l, rest[i]);
            }
        }
        release_back_releases(k1, rest, h);
        if h != l {
            resources::release_spares_others(k.resources, l, h);
            if hs.contains(h) {
                let j = choose|j: int| 0 <= j < hs.len() && hs[j] == h;
                assert(rest[j] == h);
            }
            if rest.contains(h) {
                let j = choose|j: int| 0 <= j < rest.len() && rest[j] == h;
                assert(hs[j] == h);
            }
        } else {
            assert(hs.contains(h));
            assert(!k.pinned(k.resources.get(l)->0.owner_instance, hs[hs.len() - 1]));
            assert(!resources::is_active(k1.resources.get(h)));
            if !rest.contains(h) {
                assert(k1.release_back(rest).resources.get(h) == k1.resources.get(h));
            }
        }
    }
}

/// A batch that fails halfway leaves no orphan and takes nothing away: what
/// is active after it was so before it, and what was active before it still
/// is. A resource that refuses its release is not undone, so no item of the
/// batch is one.
pub proof fn failed_batches_leave_no_orphan(
    k: KernelV,
    logical: Text,
    items: Seq<(ResourceKindV, Option<Text>)>,
    h: ResourceHandle,
)
    requires
        k.resources.slots.len() + items.len() <= u64::MAX,
        forall|i: int| 0 <= i < items.len() ==> !((#[trigger] items[i]).0 is FailRelease),
        k.valid(),
    ensures
        ({
            let (k2, r) = k.acquire_batch(logical, items);
            r is Err && (resources::is_active(k2.resources.get(h)) || resources::is_active(
                k.resources.get(h),
            )) ==> k2.resources.get(h) == k.resources.get(h)
        }),
    decreases items.len(),
{
    if items.len() > 0 {
        let a = items.drop_last();
        assert forall|i: int| 0 <= i < a.len() implies !((#[trigger] a[i]).0 is FailRelease) by {
            assert(items[i] == a[i]);
        }
        failed_batches_leave_no_orphan(k, logical, a, h);
        let (k1, r) = k.acquire_batch(logical, a);
        if let Ok(hs) = r {
            let (k2, r2) = k1.acquire(logical, items.last().0, items.last().1);
            if r2 is Err {
                assert(k2.calls == k1.calls);
                assert forall|i: int| 0 <= i < hs.len() implies {
                    &&& forall|o: InstanceId| !(#[trigger] k2.pinned(o, hs[i]))
                    &&& k2.resources.get(#[trigger] hs[i]) matches Some(q) ==> !(
                    q.kind is FailRelease)
                } by {
                    batch_adds(k, logical, a, hs[i]);
                    assert(hs.contains(hs[i]));
                    assert(hs[i].0 > k.resources.slots.len());
                    assert forall|o: InstanceId| !(#[trigger] k2.pinned(o, hs[i])) by {
                        assert(k2.pinned(o, hs[i]) == k.pinned(o, hs[i]));
                        if k.pinned(o, hs[i]) {
                            validity::pins_are_given_out(k, o, hs[i]);
                        }
                    }
                }
                release_back_releases(k2, hs, h);
                batch_adds(k, logical, a, h);
            }
        }
    }
}

// ---- disposal ---------------------------------------------------------

proof fn unpublish_each_spares(k: KernelV, hs: Seq<ResourceHandle>, rec: ContextV, cap: Text)
    requires
        k.caps.dom().contains(cap),
        k.caps[cap].instance != rec.instance.0,
        k.caps[cap].instance != 0,
    ensures
        ({
            let k2 = k.unpublish_each(hs, rec);
            k2.caps.dom().contains(cap) && k2.caps[cap] == k.caps[cap]
        }),
    decreases hs.len(),
{
    if hs.len() > 0 {
        unpublish_each_spares(k, hs.drop_last(), rec, cap);
    }
}

proof fn clean_back_spares(
    k: KernelV,
    hs: Seq<ResourceHandle>,
    ctx: ContextV,
    cap: Text,
    h: ResourceHandle,
)
    ensures
        ({
            let k2 = k.clean_back(hs, ctx).0;
            &&& k.caps.dom().contains(cap) && k.caps[cap].instance != ctx.instance.0
                && k.caps[cap].instance != 0 ==> k2.caps.dom().contains(cap) && k2.caps[cap]
                == k.caps[cap]
            &&& k.resources.get(h) matches Some(r) ==> (r.owner_context != ctx.context
                ==> k2.resources.get(h) == Some(r))
        }),
    decreases hs.len(),
{
    if hs.len() > 0 {
        let k1 = k.clean_one(hs.last(), ctx).0;
        clean_back_spares(k1, hs.drop_last(), ctx, cap, h);
        if h != hs.last() {
            resources::release_spares_others(k.resources, hs.last(), h);
        }
    }
}

proof fn begin_dispose_parts(k: KernelV, inst: InstanceId, now: Instant)
    ensures
        ({
            let k2 = k.begin_dispose(inst, now).0;
            &&& k2.contexts == k.contexts.claim(inst.0).0 || k2 == k
            &&& k2.resources == k.resources
            &&& k2.calls.effects == k.calls.effects
            &&& k2.definitions == k.definitions
            &&& k.begin_dispose(inst, now).1 is Draining ==> k2.contexts == k.contexts.claim(
                inst.0,
            ).0 && k.contexts.claim(inst.0).1 is Ok
        }),
{
    let (cs, claim) = k.contexts.claim(inst.0);
    let k1 = k.with_contexts(cs);
    if let Ok(crate::context::DisposeClaimV::Fresh(rec)) = claim {
        let k2 = k1.plugin_to(rec.logical, inst, Fsm::Quiescing).prune_bindings(inst).event(
            crate::external::LifecycleV::Withdrawn {
                logical: rec.logical,
                instance: inst.0,
                generation: rec.generation,
            },
        );
        let hs = resources::handles_in(k2.resources.slots, rec.context);
        unpublish_each_only_unpublishes(k2, hs, rec);
        let k3 = k2.unpublish_each(hs, rec);
        withdraw_calls_only_ends(
            k3,
            rec.logical,
            calls::select(k3.calls.tickets, WhichV::Of(inst)),
            now,
        );
    }
}

/// From the moment an instance is withdrawn no handle for dependency calls
/// names it, as consumer or as provider; attested providers of other hosts
/// have instance numbers of their own.
pub proof fn withdrawal_ends_handles(k: KernelV, inst: InstanceId, now: Instant, id: Text)
    requires
        k.begin_dispose(inst, now).1 is Draining,
    ensures
        ({
            let k2 = k.begin_dispose(inst, now).0;
            k2.dep_bindings.dom().contains(id) ==> {
                let b = k2.dep_bindings[id];
                &&& b.consumer_instance != inst
                &&& b.provider_instance != inst || k.remotes.dom().contains(b.provider_logical)
            }
        }),
{
    let (cs, claim) = k.contexts.claim(inst.0);
    let rec = claim->Ok_0->Fresh_0;
    let k2 = k.with_contexts(cs).plugin_to(rec.logical, inst, Fsm::Quiescing).prune_bindings(
        inst,
    ).event(
        crate::external::LifecycleV::Withdrawn {
            logical: rec.logical,
            instance: inst.0,
            generation: rec.generation,
        },
    );
    let hs = resources::handles_in(k2.resources.slots, rec.context);
    unpublish_each_only_unpublishes(k2, hs, rec);
    let k3 = k2.unpublish_each(hs, rec);
    withdraw_calls_only_ends(
        k3,
        rec.logical,
        calls::select(k3.calls.tickets, WhichV::Of(inst)),
        now,
    );
}

/// Withdrawing one instance leaves the capabilities, the resources and the
/// records of every other one as they were.
pub proof fn withdrawal_spares_others(
    k: KernelV,
    inst: InstanceId,
    now: Instant,
    cap: Text,
    other: u64,
)
    requires
        k.contexts.wf(),
        k.caps.dom().contains(cap),
        k.caps[cap].instance != inst.0,
        k.caps[cap].instance != 0,
        other != inst.0,
    ensures
        ({
            let k2 = k.begin_dispose(inst, now).0;
            &&& k2.caps.dom().contains(cap) && k2.caps[cap] == k.caps[cap]
            &&& k2.contexts.get(other) == k.contexts.get(other)
            &&& k2.resources == k.resources
            &&& k2.calls.effects == k.calls.effects
        }),
{
    begin_dispose_parts(k, inst, now);
    let (cs, claim) = k.contexts.claim(inst.0);
    let k1 = k.with_contexts(cs);
    if let Ok(crate::context::DisposeClaimV::Fresh(rec)) = claim {
        assert(rec.instance == inst);
        let k2 = k1.plugin_to(rec.logical, inst, Fsm::Quiescing).prune_bindings(inst).event(
            crate::external::LifecycleV::Withdrawn {
                logical: rec.logical,
                instance: inst.0,
                generation: rec.generation,
            },
        );
        let hs = resources::handles_in(k2.resources.slots, rec.context);
        unpublish_each_only_unpublishes(k2, hs, rec);
        unpublish_each_spares(k2, hs, rec, cap);
        let k3 = k2.unpublish_each(hs, rec);
        withdraw_calls_only_ends(
            k3,
            rec.logical,
            calls::select(k3.calls.tickets, WhichV::Of(inst)),
            now,
        );
    }
}

/// The state in which the end of a disposal decides: children of the consumer
/// cancelled, overdue drains expired.
pub(crate) proof fn finish_dispose_parts(k: KernelV, rec: ContextV, now: Instant) -> (k2: KernelV)
    ensures
        k2 == (KernelV { calls: k2.calls, journal: k2.journal, ..k }),
        k2.calls.effects == k.calls.effects,
        calls::ids_of(k2.calls.tickets, WhichV::Of(rec.instance)).len() > 0 ==> k.finish_dispose(
            rec,
            now,
        ).0 == k2.park_cleanup(
            rec,
            tickets::inflight_prefix() + text::listed(
                calls::ids_of(k2.calls.tickets, WhichV::Of(rec.instance)),
            ),
        ) && k.finish_dispose(rec, now).1 is CleanupPending,
        calls::ids_of(k2.calls.tickets, WhichV::Of(rec.instance)).len() == 0 ==> ({
            let (k3, failures) = k2.clean(rec);
            let (k4, o) = k.finish_dispose(rec, now);
            &&& o is Disposed <==> failures.len() == 0
            &&& !(o is AlreadyDisposed)
            &&& k4.caps == k3.caps
            &&& k4.topics == k3.topics
            &&& k4.resources == k3.resources
            &&& k4.calls == k3.calls
        }),
{
    let k0 = k.cancel_all(WhichV::AskedBy(rec.instance), "consumer-withdraw"@);
    cancel_all_only_cancels(k, WhichV::AskedBy(rec.instance), "consumer-withdraw"@);
    let k1 = k0.with_calls(
        k0.calls.end_all(WhichV::Overdue(now), TicketState::Expired, "drain-exceeded"@),
    );
    let ids = calls::ids_of(k0.calls.tickets, WhichV::Overdue(now));
    log_expired_only_cancels(k1, rec.logical, ids);
    k1.log_expired(rec.logical, ids)
}

/// Ending the disposal of one instance leaves the capabilities and the
/// resources of every other one as they were, and every effect.
pub proof fn cleanup_spares_others(
    k: KernelV,
    rec: ContextV,
    now: Instant,
    cap: Text,
    h: ResourceHandle,
)
    ensures
        ({
            let k2 = k.finish_dispose(rec, now).0;
            &&& k.caps.dom().contains(cap) && k.caps[cap].instance != rec.instance.0
                && k.caps[cap].instance != 0 ==> k2.caps.dom().contains(cap) && k2.caps[cap]
                == k.caps[cap]
            &&& k.resources.get(h) matches Some(r) ==> (r.owner_context != rec.context
                ==> k2.resources.get(h) == Some(r))
            &&& k2.calls.effects == k.calls.effects
        }),
{
    let k2 = finish_dispose_parts(k, rec, now);
    let hs = resources::handles_in(k2.resources.slots, rec.context);
    clean_back_spares(k2, hs, rec, cap, h);
    clean_back_only_releases(k2, hs, rec);
}

/// Live work keeps the resources of a withdrawn instance: nothing is released
/// early.
pub proof fn live_work_keeps_resources(k: KernelV, rec: ContextV, now: Instant)
    ensures
        ({
            let (k2, o) = k.finish_dispose(rec, now);
            calls::ids_of(k2.calls.tickets, WhichV::Of(rec.instance)).len() > 0
                ==> o is CleanupPending && k2.resources == k.resources && k2.caps == k.caps
        }),
{
    let k2 = finish_dispose_parts(k, rec, now);
    let hs = resources::handles_in(k2.resources.slots, rec.context);
    clean_back_only_releases(k2, hs, rec);
}

pub(crate) proof fn handles_in_complete(slots: Seq<Option<ResourceV>>, owner: ContextId, i: int)
    requires
        0 <= i < slots.len() <= u64::MAX,
        slots[i] matches Some(r) && r.owner_context == owner,
    ensures
        resources::handles_in(slots, owner).contains(ResourceHandle((i + 1) as u64)),
    decreases slots.len(),
{
    let rest = resources::handles_in(slots.drop_last(), owner);
    let all = resources::handles_in(slots, owner);
    if i < slots.len() - 1 {
        assert(slots.drop_last()[i] == slots[i]);
        handles_in_complete(slots.drop_last(), owner, i);
        let j = choose|j: int| 0 <= j < rest.len() && rest[j] == ResourceHandle((i + 1) as u64);
        assert(all[j] == rest[j]);
    } else {
        assert(all[all.len() - 1] == ResourceHandle((i + 1) as u64));
    }
}

/// What a cleanup without failures leaves of a resource.
proof fn clean_back_releases(k: KernelV, hs: Seq<ResourceHandle>, ctx: ContextV, h: ResourceHandle)
    requires
        k.clean_back(hs, ctx).1.len() == 0,
    ensures
        ({
            let k2 = k.clean_back(hs, ctx).0;
            &&& k2.resources.slots.len() == k.resources.slots.len()
            &&& k2.resources.get(h) matches Some(r) ==> {
                &&& k.resources.get(h) matches Some(q) && q.owner_context == r.owner_context
                &&& r.owner_context == ctx.context && hs.contains(h) ==> r.state
                    != ResourceState::Active
                &&& r.state == ResourceState::Active ==> k.resources.get(h) == Some(r)
            }
        }),
    decreases hs.len(),
{
    if hs.len() > 0 {
        let l = hs.last();
        let (k1, f) = k.clean_one(l, ctx);
        clean_back_releases(k1, hs.drop_last(), ctx, h);
        if h != l {
            resources::release_spares_others(k.resources, l, h);
            if hs.contains(h) {
                let j = choose|j: int| 0 <= j < hs.len() && hs[j] == h;
                assert(hs.drop_last()[j] == h);
            }
        }
    }
}

/// An instance is disposed only when it has no live call and owns no active
/// resource any more.
pub proof fn the_disposed_are_quiet(k: KernelV, rec: ContextV, now: Instant, h: ResourceHandle)
    requires
        k.resources.slots.len() <= u64::MAX,
    ensures
        ({
            let (k2, o) = k.finish_dispose(rec, now);
            o is Disposed ==> {
                &&& calls::ids_of(k2.calls.tickets, WhichV::Of(rec.instance)).len() == 0
                &&& k2.resources.get(h) matches Some(r) ==> (r.owner_context == rec.context
                    ==> r.state != ResourceState::Active)
            }
        }),
{
    let k2 = finish_dispose_parts(k, rec, now);
    let hs = resources::handles_in(k2.resources.slots, rec.context);
    clean_back_only_releases(k2, hs, rec);
    if k.finish_dispose(rec, now).1 is Disposed {
        clean_back_releases(k2, hs, rec, h);
        let k3 = k2.clean(rec).0;
        if let Some(r) = k3.resources.get(h) {
            if r.owner_context == rec.context {
                handles_in_complete(k2.resources.slots, rec.context, h.0 - 1);
            }
        }
    }
}

/// Only one disposal of an instance passes: while it drains, another one sees
/// it in progress and changes nothing.
pub proof fn disposal_is_exclusive(k: KernelV, inst: InstanceId, now: Instant, later: Instant)
    requires
        k.begin_dispose(inst, now).1 is Draining,
    ensures
        ({
            let k2 = k.begin_dispose(inst, now).0;
            &&& k2.begin_dispose(inst, later) == (
                k2,
                BegunV::Over(
                    DisposeOutcomeV::CleanupPending { reason: "dispose in progress"@ },
                ),
            )
            &&& k2.contexts.admissible(inst.0) is Err
        }),
{
    begin_dispose_parts(k, inst, now);
    crate::context::claim_is_exclusive(k.contexts, inst.0);
    let k2 = k.begin_dispose(inst, now).0;
    assert(k2.contexts.get(inst.0)->0.state == Fsm::Quiescing);
}

/// A discarded instance stays discarded: disposing it again changes nothing.
pub proof fn disposal_is_idempotent(k: KernelV, inst: InstanceId, now: Instant)
    requires
        k.contexts.get(inst.0) matches Some(r) && (r.state.canon() == Fsm::Disposed
            || r.state.canon() == Fsm::Failed),
    ensures
        k.begin_dispose(inst, now) == (k, BegunV::Over(DisposeOutcomeV::AlreadyDisposed)),
        k.finalize(inst) == (k, false),
{
}

// ---- activation -------------------------------------------------------

/// A promoted instance is active, and every one of its bindings holds.
pub proof fn the_promoted_are_bound(k: KernelV, logical: Text, def: ManifestV)
    requires
        k.contexts.wf(),
        k.promote(logical, def).1,
    ensures
        ({
            let k2 = k.promote(logical, def).0;
            &&& k2.contexts.current_of(logical) matches Some(c) && c.state == Fsm::Active
            &&& k2.plugin(logical) matches Some(p) && p.state == Fsm::Active && forall|i: int|
                0 <= i < p.bindings.len() ==> resolve::binding_holds(
                    #[trigger] p.bindings[i],
                    k.states(),
                )
        }),
{
    let st = k.contexts.current_of(logical)->0;
    let bs = resolve::resolved(logical, k.definitions, k.states())->Ok_0;
    resolve::resolved_bindings_hold(
        k.definitions[logical].requires,
        k.definitions,
        k.states(),
    );
    let (k1, res) = k.acquire_definition(st, def);
    acquire_kinds_only_acquires(
        k,
        st,
        def.id,
        crate::kernel::acquire::declared_kinds(def),
    );
    let p = k1.plugin(logical)->0;
    let k2 = k1.with_plugin(
        logical,
        crate::kernel::PluginV {
            state: Fsm::Active,
            bindings: bs,
            wait_cause: None,
            resources: res->Ok_0,
            ..p
        },
    );
    let k3 = k2.with_contexts(k2.contexts.activate(st.instance.0).0);
    let k4 = k3.log(
        logical,
        "plugin.active"@,
        JsonV::object().with("id"@, crate::json::jstr(logical)).with(
            "instance"@,
            crate::json::jnum(st.instance.0),
        ).with("generation"@, crate::json::jnum(st.generation)).with(
            "bindings"@,
            crate::kernel::lifecycle::binding_entries(bs),
        ),
    ).announce(logical, st);
    if let Some(cur) = k4.contexts.get(st.instance.0) {
        issue_each_only_issues(
            KernelV {
                dep_bindings: crate::strmap::kept(
                    k4.dep_bindings,
                    |b: crate::kernel::DepBindingV| b.consumer_instance != st.instance,
                ),
                ..k4
            },
            logical,
            cur,
            bs,
        );
    }
    assert(k.contexts.records[st.instance.0 - 1].logical == logical);
}

/// A definition for another host is never activated here, and satisfies
/// requirements only while an activation of it is attested.
pub proof fn remote_definitions_stay_remote(
    k: KernelV,
    l: Text,
    states: Map<Text, ContextV>,
    now: Instant,
    interface: Text,
)
    requires
        k.definition(l) matches Some(d) && d.remote,
        k.contexts.current_of(l) is None,
    ensures
        k.activate_one(l, states, now) == (k, false),
        resolve::bind_to(interface, l, k.states()) is Ok <==> k.remotes.dom().contains(l),
{
}

/// Letting a definition wait publishes nothing and acquires nothing.
pub proof fn the_waiting_publish_nothing(k: KernelV, logical: Text, def: ManifestV, reason: Text)
    ensures
        ({
            let k2 = k.ensure_waiting(logical, def, reason).0;
            k2.caps == k.caps && k2.topics == k.topics && k2.resources == k.resources && k2.calls
                == k.calls
        }),
{
}

proof fn cycle_items_complete(
    defs: resolve::Definitions,
    path: Seq<Text>,
    names: Seq<Text>,
    m: Text,
)
    requires
        names.contains(m),
        defs.dom().contains(m),
    ensures
        exists|i: int|
            0 <= i < reconcile::cycle_items(defs, path, names).len() && (
            #[trigger] reconcile::cycle_items(defs, path, names)[i]).logical == m,
    decreases names.len(),
{
    let all = reconcile::cycle_items(defs, path, names);
    let rest = reconcile::cycle_items(defs, path, names.drop_last());
    let j = choose|j: int| 0 <= j < names.len() && names[j] == m;
    if j < names.len() - 1 {
        assert(names.drop_last()[j] == m);
        cycle_items_complete(defs, path, names.drop_last(), m);
        let i = choose|i: int| 0 <= i < rest.len() && (#[trigger] rest[i]).logical == m;
        assert(all[i] == rest[i]);
    } else {
        assert(all[all.len() - 1].logical == m);
    }
}

/// Every defined member of a dependency cycle is withdrawn with the path as
/// its reason, and nothing is activated in that round.
pub proof fn cycles_are_withdrawn(k: KernelV, path: Seq<Text>, m: Text)
    requires
        graph::first_cycle(resolve::edges(k.definitions)) == Some(path),
        k.orphans(text::in_order(k.remotes.dom())).len() == 0,
        k.definitions.dom().finite(),
        path.contains(m),
        k.definitions.dom().contains(m),
    ensures
        k.plan() is Withdraw,
        k.plan()->cycle,
        exists|i: int|
            0 <= i < k.plan()->items.len() && (#[trigger] k.plan()->items[i]).logical == m,
{
    let names = text::in_order(path.to_set());
    vstd::seq_lib::seq_to_set_is_finite(path);
    text::in_order_sorted(path.to_set());
    assert(names.to_set().contains(m));
    cycle_items_complete(k.definitions, path, names, m);
    if k.definitions.dom().len() == 0 {
        assert(k.definitions.dom() =~= Set::empty());
    }
    let items = reconcile::cycle_items(k.definitions, path, names);
    assert(k.plan() == (reconcile::PlanV::Withdraw { cycle: true, items }));
    let i = choose|i: int| 0 <= i < items.len() && (#[trigger] items[i]).logical == m;
    assert(k.plan()->items[i].logical == m);
}

/// How the withdrawals of a list come from those of the list without its end.
proof fn withdrawals_step(k: KernelV, order: Seq<Text>, states: Map<Text, ContextV>) -> (shift: int)
    requires
        order.len() > 0,
    ensures
        ({
            let rest = k.withdrawals(order.drop_last(), states);
            let items = k.withdrawals(order, states);
            &&& shift == if k.withdrawal(order.last(), states) is Some {
                1int
            } else {
                0
            }
            &&& items.len() == rest.len() + shift
            &&& forall|i: int| shift <= i < items.len() ==> #[trigger] items[i] == rest[i - shift]
            &&& shift == 1 ==> items[0].logical == order.last() && Some(items[0].reason)
                == k.withdrawal(order.last(), states)
        }),
{
    if k.withdrawal(order.last(), states) is Some {
        1
    } else {
        0
    }
}

/// The withdrawals of a list are those of its members.
pub(crate) proof fn withdrawals_members(k: KernelV, order: Seq<Text>, states: Map<Text, ContextV>, m: Text)
    ensures
        (order.contains(m) && k.withdrawal(m, states) is Some) <==> exists|i: int|
            0 <= i < k.withdrawals(order, states).len() && (#[trigger] k.withdrawals(
                order,
                states,
            )[i]).logical == m,
    decreases order.len(),
{
    let items = k.withdrawals(order, states);
    if order.len() > 0 {
        let a = order.drop_last();
        let rest = k.withdrawals(a, states);
        withdrawals_members(k, a, states, m);
        let shift = withdrawals_step(k, order, states);
        assert(order[order.len() - 1] == order.last());
        if a.contains(m) {
            let x = choose|x: int| 0 <= x < a.len() && a[x] == m;
            assert(order[x] == m);
        }
        if order.contains(m) && m != order.last() {
            let x = choose|x: int| 0 <= x < order.len() && order[x] == m;
            assert(a[x] == m);
        }
        if order.contains(m) && k.withdrawal(m, states) is Some {
            if m == order.last() {
                assert(items[0].logical == m);
            } else {
                let i = choose|i: int| 0 <= i < rest.len() && (#[trigger] rest[i]).logical == m;
                assert(items[i + shift].logical == m);
            }
        }
        if exists|i: int| 0 <= i < items.len() && (#[trigger] items[i]).logical == m {
            let i = choose|i: int| 0 <= i < items.len() && (#[trigger] items[i]).logical == m;
            if i >= shift {
                assert(rest[i - shift].logical == m);
            }
        }
    }
}

/// The withdrawals of a list come from its end.
proof fn withdrawals_reverse(
    k: KernelV,
    order: Seq<Text>,
    states: Map<Text, ContextV>,
    i: int,
    j: int,
)
    requires
        0 <= i < j < k.withdrawals(order, states).len(),
    ensures
        is_before(
            order,
            k.withdrawals(order, states)[j].logical,
            k.withdrawals(order, states)[i].logical,
        ),
    decreases order.len(),
{
    let a = order.drop_last();
    let items = k.withdrawals(order, states);
    let rest = k.withdrawals(a, states);
    let shift = withdrawals_step(k, order, states);
    assert(items[j] == rest[j - shift]);
    let later = items[j].logical;
    if i < shift {
        withdrawals_members(k, a, states, later);
        assert(rest[j - shift].logical == later);
        let x = choose|x: int| 0 <= x < a.len() && a[x] == later;
        assert(order[x] == later && order[order.len() - 1] == items[i].logical);
    } else {
        assert(items[i] == rest[i - shift]);
        withdrawals_reverse(k, a, states, i - shift, j - shift);
        let (x, y) = choose|x: int, y: int|
            0 <= x < y < a.len() && #[trigger] a[x] == later && #[trigger] a[y]
                == items[i].logical;
        assert(order[x] == later && order[y] == items[i].logical);
    }
}

/// Whether `a` stands somewhere before `b`.
pub open spec fn is_before(order: Seq<Text>, a: Text, b: Text) -> bool {
    exists|x: int, y: int|
        0 <= x < y < order.len() && #[trigger] order[x] == a && #[trigger] order[y] == b
}

/// Without a cycle the order of activation holds every definition once, each
/// after the providers it depends on.
pub proof fn providers_are_activated_first(k: KernelV, l: Text)
    requires
        k.definitions.dom().finite(),
        graph::first_cycle(resolve::edges(k.definitions)) is None,
        k.definitions.dom().contains(l),
    ensures
        k.activation_order().no_duplicates(),
        k.activation_order().contains(l),
        forall|p: Text| #[trigger]
            resolve::edges(k.definitions)[l].contains(p) ==> is_before(k.activation_order(), p, l),
{
    let edges = resolve::edges(k.definitions);
    assert(edges.dom() =~= k.definitions.dom());
    graph::nodes_are_finite(edges);
    graph::cycle_found_iff_any(edges);
    graph::order_iff_acyclic(edges);
    let o = graph::order_of(edges)->0;
    assert(graph::nodes(edges).contains(l));
    assert(o.to_set().contains(l));
    let y = choose|y: int| 0 <= y < o.len() && o[y] == l;
    assert forall|p: Text| #[trigger] edges[l].contains(p) implies is_before(o, p, l) by {
        let c = choose|c: int| 0 <= c < edges[l].len() && edges[l][c] == p;
        assert(graph::successors(edges, o[y])[c] == p);
        assert(o.take(y).contains(p));
        let x = choose|x: int| 0 <= x < y && o.take(y)[x] == p;
        assert(o[x] == p && o[y] == l);
    }
}

/// A round of reconciliation without a cycle withdraws exactly the active
/// definitions whose requirements are not met or whose bindings are stale:
/// what stays active is bound to live providers.
pub proof fn withdrawal_is_exact(k: KernelV, l: Text)
    requires
        k.definitions.dom().finite(),
        k.definitions.dom().contains(l),
        k.plan() matches reconcile::PlanV::Withdraw { cycle, .. } && !cycle,
    ensures
        (exists|i: int|
            0 <= i < k.plan()->items.len() && (#[trigger] k.plan()->items[i]).logical == l) <==> (
        k.states().dom().contains(l) && k.states()[l].state.canon() == Fsm::Active && (
        resolve::resolved(l, k.definitions, k.states()) is Err || k.bindings_stale(
            l,
            k.states(),
        ))),
{
    providers_are_activated_first(k, l);
    withdrawals_members(k, k.activation_order(), k.states(), l);
    assert(k.plan()->items == k.withdrawals(k.activation_order(), k.states()));
}

/// Consumers are withdrawn before the providers they depend on.
pub proof fn consumers_are_withdrawn_first(k: KernelV, i: int, j: int)
    requires
        k.definitions.dom().finite(),
        k.plan() matches reconcile::PlanV::Withdraw { cycle, .. } && !cycle,
        0 <= i < k.plan()->items.len(),
        0 <= j < k.plan()->items.len(),
        resolve::edges(k.definitions)[k.plan()->items[i].logical].contains(
            k.plan()->items[j].logical,
        ),
    ensures
        i < j,
{
    let order = k.activation_order();
    let items = k.plan()->items;
    assert(items == k.withdrawals(order, k.states()));
    withdrawals_members(k, order, k.states(), items[i].logical);
    providers_are_activated_first(k, items[i].logical);
    let (x, y) = choose|x: int, y: int|
        0 <= x < y < order.len() && #[trigger] order[x] == items[j].logical && #[trigger] order[y]
            == items[i].logical;
    if j <= i {
        if j < i {
            withdrawals_reverse(k, order, k.states(), j, i);
            let (u, v) = choose|u: int, v: int|
                0 <= u < v < order.len() && #[trigger] order[u] == items[i].logical
                    && #[trigger] order[v] == items[j].logical;
            assert(u == y && v == x);
        }
    }
}

/// A file that is there and cannot be read keeps its live generation: a
/// reload does not remove its definition.
pub proof fn invalid_candidates_keep_the_live(
    k: KernelV,
    id: Text,
    under: Seq<Text>,
    present: Seq<Text>,
    ds: Seq<ManifestV>,
    src: Text,
)
    requires
        k.definitions[id].source == Some(src),
        present.contains(src),
        crate::kernel::operations::declared_by(ds, src) is None,
    ensures
        !k.is_stale(id, under, present, ds),
{
}

/// Replaying an emitted tick does to the counter what its delivery did.
pub proof fn replay_repeats_delivery(k: KernelV, inst: InstanceId, e: EntryV)
    requires
        k.contexts.admissible(inst.0) matches Ok(r) && r.logical == "counter"@,
        k.plugin("counter"@) matches Some(p) && p.reducer == "counter"@,
        e.kind == "evt.emit"@,
        e.args.str_at("topic"@) == Some("sys.tick"@),
    ensures
        k.replay(seq![e]).0.plugins == k.deliver_to(inst, "sys.tick"@).plugins,
{
    reveal_with_fuel(KernelV::replay, 2);
    reveal_strlit("counter");
    assert(seq![e].drop_last() =~= Seq::<EntryV>::empty());
    assert(seq![e].last() == e);
}

/// An event reaches only active, current instances.
pub proof fn stale_subscribers_get_nothing(k: KernelV, inst: InstanceId, topic: Text)
    requires
        k.contexts.admissible(inst.0) is Err,
    ensures
        k.deliver_to(inst, topic) == k,
{
}

} // verus!
