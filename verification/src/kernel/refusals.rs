//! Why something is refused: which code goes with which cause.

use vstd::prelude::*;
use vstd::string::*;
use crate::calls::{TicketId, TicketState, TicketV, WithdrawPolicy};
use crate::context::ContextV;
use crate::conversation;
use crate::fsm::Fsm;
use crate::identity::{InstanceId, ResourceHandle};
use crate::json;
use crate::json::JsonV;
use crate::kernel::dependency;
use crate::kernel::dependency::DepAdmitV;
use crate::kernel::holdings;
use crate::kernel::outcomes;
use crate::kernel::resolve;
use crate::kernel::tickets;
use crate::kernel::KernelV;
use crate::resources;
use crate::resources::{ResourceKindV, ResourceState};
use crate::text::Text;
use crate::time::Instant;

verus! {

/// Whether a refusal carries the code.
pub open spec fn has_code(v: JsonV, code: Text) -> bool {
    v.get("code"@) == Some(JsonV::Str(code))
}

proof fn failures_are_read(error: Text, code: Text)
    ensures
        conversation::is_record(tickets::failure(error, code)),
        tickets::failure(error, code).get("error"@) == Some(JsonV::Str(error)),
        has_code(tickets::failure(error, code), code),
{
    conversation::blank_record();
    reveal_strlit("error");
    reveal_strlit("code");
    assert("error"@.len() == 5 && "code"@.len() == 4);
    let e = JsonV::object().with("error"@, json::jstr(error));
    conversation::added(JsonV::object(), "error"@, json::jstr(error));
    conversation::added(e, "code"@, json::jstr(code));
}

/// A failure carries its message and its code, and the logical id or the
/// ticket that it is about.
pub proof fn failures_say_what_they_are_about(error: Text, code: Text, logical: Text, t: TicketId)
    ensures
        ({
            let f = tickets::failure(error, code);
            f.get("error"@) == Some(JsonV::Str(error)) && has_code(f, code)
        }),
        ({
            let f = tickets::failure_of(error, code, logical);
            &&& f.get("error"@) == Some(JsonV::Str(error))
            &&& has_code(f, code)
            &&& f.get("logical"@) == Some(JsonV::Str(logical))
        }),
        ({
            let f = tickets::failure_at(error, code, t);
            &&& f.get("error"@) == Some(JsonV::Str(error))
            &&& has_code(f, code)
            &&& f.get("ticket"@) == Some(JsonV::Unsigned(t.0))
        }),
{
    about_one(error, code, logical);
    failures_are_read(error, code);
    reveal_strlit("error");
    reveal_strlit("code");
    reveal_strlit("ticket");
    assert("error"@.len() == 5 && "code"@.len() == 4 && "ticket"@.len() == 6);
    conversation::added(tickets::failure(error, code), "ticket"@, json::jnum(t.0));
}

proof fn about_one(error: Text, code: Text, logical: Text)
    ensures
        conversation::is_record(tickets::failure_of(error, code, logical)),
        tickets::failure_of(error, code, logical).get("error"@) == Some(JsonV::Str(error)),
        has_code(tickets::failure_of(error, code, logical), code),
        tickets::failure_of(error, code, logical).get("logical"@) == Some(JsonV::Str(logical)),
{
    failures_are_read(error, code);
    reveal_strlit("error");
    reveal_strlit("code");
    reveal_strlit("logical");
    assert("error"@.len() == 5 && "code"@.len() == 4 && "logical"@.len() == 7);
    conversation::added(tickets::failure(error, code), "logical"@, json::jstr(logical));
}

// ---- resources --------------------------------------------------------

/// A logical id without an activation is not loaded; one whose activation is
/// not active is refused as such.
pub proof fn gates_say_why(k: KernelV, logical: Text)
    requires
        k.contexts.wf(),
    ensures
        k.contexts.current_of(logical) is None ==> k.gate(logical) == Err::<ContextV, Text>(
            "plugin-not-loaded"@,
        ),
        k.contexts.current_of(logical) matches Some(c) ==> if c.state.canon() == Fsm::Active {
            k.gate(logical) == Ok::<ContextV, Text>(c)
        } else {
            k.gate(logical) == Err::<ContextV, Text>("context-not-active"@)
        },
{
    if let Some(c) = k.contexts.current_of(logical) {
        assert(k.contexts.records[k.contexts.current[logical] - 1].instance.0
            == k.contexts.current[logical]);
    }
}

/// A resource for an external plugin is refused to an id that is not loaded,
/// to another activation than the current one, to one that is not active, and
/// beyond sixty-four.
pub proof fn external_acquisitions_say_why(
    k: KernelV,
    logical: Text,
    kind: ResourceKindV,
    inst: InstanceId,
    generation: u64,
    start: Option<Text>,
)
    requires
        k.contexts.wf(),
        k.resources.slots.len() < u64::MAX,
    ensures
        ({
            let r = k.acquire_external(logical, kind, inst, generation, start).1;
            match k.contexts.current_of(logical) {
                None => r == Err::<ResourceHandle, Text>("plugin-not-loaded"@),
                Some(c) => if c.instance != inst || c.generation != generation {
                    r == Err::<ResourceHandle, Text>("stale-generation"@)
                } else if c.state.canon() != Fsm::Active {
                    r == Err::<ResourceHandle, Text>("context-not-active"@)
                } else if holdings::can_be_acquired(kind, start) && resources::active_in(
                    k.resources.slots,
                    Some(c.context),
                ) >= 64 {
                    r == Err::<ResourceHandle, Text>("resource-exhausted"@)
                } else {
                    true
                },
            }
        }),
{
    gates_say_why(k, logical);
    if let Some(c) = k.contexts.current_of(logical) {
        let (rs, res) = k.resources.register(
            c.context,
            c.instance,
            c.logical,
            c.generation,
            kind,
            start,
        );
        if res is Ok {
            assert(rs.slots.drop_last() =~= k.resources.slots);
        }
    }
}

/// A release is refused for a handle that nothing has, for a resource that a
/// call in flight uses, and for one that is released already.
pub proof fn releases_say_why(k: KernelV, h: ResourceHandle)
    requires
        k.calls.wf(),
    ensures
        ({
            let r = k.release(h).1;
            match k.resources.get(h) {
                None => r == Err::<(), Text>("unknown-handle"@),
                Some(x) => if x.state == ResourceState::Released {
                    r == Err::<(), Text>("already-released"@)
                } else if holdings::is_in_use(k, x.owner_instance, h) {
                    r == Err::<(), Text>("resource-pinned"@)
                } else {
                    r is Ok || x.kind is FailRelease
                },
            }
        }),
{
    holdings::pins_are_uses_of(k, h);
}

// ---- calls ------------------------------------------------------------

/// A call finds no room once 256 are in flight, and nothing to call where
/// nobody provides the capability; a pin that is no live resource of the
/// activation is named.
pub proof fn openings_say_why(
    k: KernelV,
    cap: Text,
    input: JsonV,
    policy: Option<crate::calls::CallPolicy>,
    pins: Seq<ResourceHandle>,
    now: Instant,
    c: ContextV,
)
    requires
        k.contexts.wf(),
    ensures
        ({
            let r = k.call_open(cap, input, policy, pins, now).1;
            &&& k.calls.tickets.dom().len() >= 256 ==> r is Err && has_code(
                r->Err_0,
                "resource-exhausted"@,
            )
            &&& k.calls.tickets.dom().len() < 256 && !k.caps.dom().contains(cap)
                && resolve::owner_of(k.definitions, cap) is None ==> r is Err && has_code(
                r->Err_0,
                "no-such-capability"@,
            )
            &&& k.calls.tickets.dom().len() < 256 && outcomes::takes_calls(k, cap, c) && r is Err
                ==> has_code(r->Err_0, "invalid-pin"@)
        }),
{
    failures_are_read("too many in-flight calls"@, "resource-exhausted"@);
    failures_are_read("no such capability"@, "no-such-capability"@);
    if outcomes::takes_calls(k, cap, c) {
        outcomes::admission_is_owed(k, cap, c);
        if let Some(h) = k.bad_pin(pins, c) {
            failures_are_read("invalid pin "@ + h.text_of(), "invalid-pin"@);
        }
    }
}

/// A capability that is declared but not published is refused for what its
/// owner waits for, while it waits, and as inactive once it is on its way
/// out.
pub proof fn unpublished_capabilities_say_why(k: KernelV, cap: Text)
    requires
        !k.caps.dom().contains(cap),
        resolve::owner_of(k.definitions, cap) is Some,
    ensures
        ({
            let o = resolve::owner_of(k.definitions, cap)->0;
            let e = k.admission(cap)->Err_0;
            &&& k.admission(cap) is Err
            &&& match k.contexts.current_of(o) {
                None => has_code(e, "no-such-capability"@),
                Some(c) => if c.state.is_waiting_like() {
                    &&& has_code(e, "dependency-unavailable"@)
                    &&& e.get("logical"@) == Some(JsonV::Str(o))
                    &&& c.cause matches Some(why) ==> e.get("error"@) == Some(JsonV::Str(why))
                } else if c.state.canon() == Fsm::Active {
                    has_code(e, "no-such-capability"@)
                } else {
                    has_code(e, "context-not-active"@) && e.get("logical"@) == Some(JsonV::Str(o))
                },
            }
        }),
{
    let o = resolve::owner_of(k.definitions, cap)->0;
    failures_are_read("no such capability"@, "no-such-capability"@);
    about_one("plugin not available"@, "context-not-active"@, o);
    if let Some(c) = k.contexts.current_of(o) {
        about_one(
            match c.cause {
                Some(c) => c,
                None => "dependency unavailable"@,
            },
            "dependency-unavailable"@,
            o,
        );
    }
}

/// A commit is refused for a ticket that nobody has, and for one that
/// committed, was cancelled or expired.
pub proof fn closed_tickets_say_why(
    k: KernelV,
    id: TicketId,
    kind: Text,
    payload: JsonV,
    now: Instant,
    at_ms: u64,
)
    ensures
        ({
            let r = k.commit_effect(id, kind, payload, now, at_ms).1;
            match k.calls.get(id) {
                None => r is Err && has_code(r->Err_0, "unknown-ticket"@),
                Some(t) => {
                    &&& t.state == TicketState::Committed ==> r is Err && has_code(
                        r->Err_0,
                        "already-committed"@,
                    )
                    &&& t.state == TicketState::Cancelled ==> r is Err && has_code(
                        r->Err_0,
                        "cancelled"@,
                    )
                    &&& t.state == TicketState::Expired ==> r is Err && has_code(
                        r->Err_0,
                        "deadline-exceeded"@,
                    )
                },
            }
        }),
{
    failures_are_read("unknown ticket "@ + id.text_of(), "unknown-ticket"@);
    if let Some(t) = k.calls.get(id) {
        failures_say_what_they_are_about("already committed"@, "already-committed"@, t.cap, t.id);
        failures_say_what_they_are_about("ticket cancelled"@, "cancelled"@, t.cap, t.id);
        failures_say_what_they_are_about(
            "drain deadline exceeded"@,
            "deadline-exceeded"@,
            t.cap,
            t.id,
        );
    }
}

/// Why the chain of an admitted dependency call does not hold, in this order:
/// its deadline is over, its parent ended, its consumer is gone, or its grant
/// has another revision. Only the first of these changes a ticket: it expires.
pub proof fn broken_chains_say_why(k: KernelV, t: TicketV, kind: Text, now: Instant)
    requires
        t.dep is Some,
    ensures
        ({
            let (k2, e) = k.chain_check(t, kind, now);
            let d = t.dep->0;
            let over = t.drain_until matches Some(u) && u.nanos <= now.nanos;
            let parent = k.calls.tickets.dom().contains(d.parent.0)
                && k.calls.tickets[d.parent.0].state == TicketState::Admitted;
            let consumer = k.contexts.get(d.consumer.0) matches Some(c) && c.state.canon()
                == Fsm::Active && (k.contexts.current_of(c.logical) matches Some(x) && x.instance
                == d.consumer);
            let granted = k.grants.dom().contains(d.grant_consumer)
                && k.grants[d.grant_consumer].dom().contains(d.grant_cap)
                && k.grants[d.grant_consumer][d.grant_cap] == d.grant_rev;
            &&& e is None <==> !over && parent && consumer && granted
            &&& over ==> has_code(e->0, "deadline-exceeded"@)
            &&& !over && !parent ==> has_code(e->0, "cancelled"@)
            &&& !over && parent && !consumer ==> has_code(e->0, "stale-generation"@)
            &&& !over && parent && consumer && !granted ==> has_code(e->0, "permission-denied"@)
            &&& over ==> (k.calls.get(t.id) is Some ==> k2.calls.tickets == k.calls.tickets.insert(
                t.id.0,
                TicketV { state: TicketState::Expired, ..k.calls.tickets[t.id.0] },
            ))
            &&& !over ==> k2.calls == k.calls
        }),
{
    failures_say_what_they_are_about(
        "dependency deadline exceeded"@,
        "deadline-exceeded"@,
        t.cap,
        t.id,
    );
    failures_say_what_they_are_about("parent revoked"@, "cancelled"@, t.cap, t.id);
    failures_say_what_they_are_about("consumer withdrawn"@, "stale-generation"@, t.cap, t.id);
    failures_say_what_they_are_about("operator grant revoked"@, "permission-denied"@, t.cap, t.id);
}

/// Why a provider may not commit: it is not the current activation, its
/// attestation is gone, it drains no more, or it is not active.
pub proof fn stale_providers_say_why(k: KernelV, t: TicketV, kind: Text, now: Instant)
    ensures
        ({
            let (k2, e) = k.provider_check(t, kind, now);
            let remote = t.dep matches Some(d) && d.remote_peer is Some;
            let attested = k.remotes.dom().contains(t.logical) && k.remotes[t.logical].instance
                == t.instance.0 && k.remotes[t.logical].generation == t.generation
                && k.definitions.dom().contains(t.logical) && k.definitions[t.logical].remote;
            let owned = t.epoch == k.contexts.epoch && (k.contexts.get(
                t.instance.0,
            ) matches Some(c) && c.logical == t.logical && c.generation == t.generation) && (
            k.contexts.current_of(t.logical) matches Some(x) ==> x.instance == t.instance);
            let state = k.contexts.get(t.instance.0)->0.state.canon();
            let drains = t.policy.on_withdraw == WithdrawPolicy::Drain && (
            t.drain_until matches Some(u) && now.nanos <= u.nanos);
            &&& remote ==> (e is None <==> attested)
            &&& remote && !attested ==> has_code(e->0, "stale-generation"@)
            &&& !remote && !owned ==> e is Some && has_code(e->0, "stale-generation"@)
            &&& !remote && owned ==> (e is None <==> state == Fsm::Active || state
                == Fsm::Quiescing && drains)
            &&& !remote && owned && state == Fsm::Quiescing && !drains ==> has_code(
                e->0,
                "cancelled"@,
            )
            &&& !remote && owned && state != Fsm::Active && state != Fsm::Quiescing ==> has_code(
                e->0,
                "context-not-active"@,
            )
            &&& k2.calls == k.calls && k2.contexts == k.contexts
        }),
{
    about_one("stale generation"@, "stale-generation"@, t.logical);
    about_one("remote provider withdrawn"@, "stale-generation"@, t.logical);
    about_one("context not active"@, "context-not-active"@, t.logical);
    failures_say_what_they_are_about("ticket revoked"@, "cancelled"@, t.logical, t.id);
}

// ---- dependency calls -------------------------------------------------

/// Why a dependency call is denied, by the first of these that holds: it is
/// malformed, its caller does not run the parent, its binding is unknown, its
/// caller is not there, its provider is not there, its caller may call nobody,
/// it is too deep, or the operator did not grant it.
pub proof fn denials_say_why(k: KernelV, req: DepAdmitV, now: Instant)
    ensures
        ({
            let r = k.dependency_admit(req, now).1;
            let formed = req.timeout_ms > 0 && req.session.len() > 0 && req.binding.len() > 0;
            let p = k.calls.tickets[req.parent.0];
            let asks = k.calls.tickets.dom().contains(req.parent.0) && p.state
                == TicketState::Admitted && p.logical == req.caller_logical && p.instance.0
                == req.caller_instance && p.generation == req.caller_generation;
            let known = k.dep_bindings.dom().contains(req.binding);
            let b = k.dep_bindings[req.binding];
            let own = b.consumer_logical == req.caller_logical && b.consumer_instance.0
                == req.caller_instance && b.consumer_generation == req.caller_generation;
            &&& !formed ==> r is Err && r->Err_0.code == "invalid-message"@
            &&& formed && !asks ==> r is Err && r->Err_0.code == "invalid-parent"@
            &&& formed && asks && !known ==> r is Err && r->Err_0.code == "dependency-unavailable"@
            &&& formed && asks && known && !own ==> r is Err && r->Err_0.code == "invalid-parent"@
            &&& formed && asks && known && own ==> match k.contexts.current_of(req.caller_logical) {
                None => r is Err && r->Err_0.code == "plugin-not-loaded"@,
                Some(c) => if c.instance.0 != req.caller_instance || c.state.canon()
                    != Fsm::Active {
                    r is Err && r->Err_0.code == "context-not-active"@
                } else if c.generation != req.caller_generation {
                    r is Err && r->Err_0.code == "stale-generation"@
                } else if !outcomes::is_bound(k, req) {
                    r is Err && r->Err_0.code == "dependency-unavailable"@
                } else if !(k.definitions.dom().contains(req.caller_logical)
                    && k.definitions[req.caller_logical].outbound is Some) {
                    r is Err && r->Err_0.code == "permission-denied"@
                } else if p.dep matches Some(d) && d.depth == u32::MAX {
                    true
                } else if outcomes::child_depth(k, req)
                    > k.definitions[req.caller_logical].outbound->0.limits.max_depth {
                    r is Err && r->Err_0.code == "resource-exhausted"@
                } else if !(k.grants.dom().contains(req.caller_logical)
                    && k.grants[req.caller_logical].dom().contains(b.capability)) {
                    r is Err && r->Err_0.code == "permission-denied"@
                } else {
                    r is Ok || r->Err_0.code == "resource-exhausted"@
                },
            }
        }),
{
    let p = k.calls.tickets[req.parent.0];
    let b = k.dep_bindings[req.binding];
    assert(p.instance == InstanceId(req.caller_instance) <==> p.instance.0 == req.caller_instance);
    assert(b.consumer_instance == InstanceId(req.caller_instance) <==> b.consumer_instance.0
        == req.caller_instance);
    if let Some(c) = k.contexts.current_of(req.caller_logical) {
        assert(c.instance == InstanceId(req.caller_instance) <==> c.instance.0
            == req.caller_instance);
    }
}

/// The result of a child that nobody knows is refused as an internal error;
/// one whose chain does not hold, with the code of its chain; and one that
/// lost its own authority, as cancelled.
pub proof fn refused_results_say_why(k: KernelV, id: TicketId, now: Instant)
    requires
        k.calls.wf(),
    ensures
        ({
            let r = k.dependency_accept(id, now).1;
            match k.calls.get(id) {
                None => r is Err && r->Err_0.code == "internal"@,
                Some(t) => match k.chain_check(t, "result"@, now).1 {
                    Some(v) => r is Err && has_code(v, r->Err_0.code),
                    None => if t.state == TicketState::Admitted {
                        r is Ok
                    } else {
                        r is Err && r->Err_0.code == "cancelled"@
                    },
                },
            }
        }),
{
    if let Some(t) = k.calls.get(id) {
        if t.dep is Some {
            broken_chains_say_why(k, t, "result"@, now);
        }
    }
}

/// A child whose time is over expires exactly where it was still admitted; its
/// descendants are cancelled with it, and no other call changes.
pub proof fn timeouts_expire(k: KernelV, id: TicketId, other: u64)
    requires
        k.calls.wf(),
        other != id.0,
    ensures
        ({
            let (k2, done) = k.dependency_timeout(id);
            let t = k.calls.tickets[id.0];
            &&& done <==> k.calls.tickets.dom().contains(id.0) && t.state == TicketState::Admitted
            &&& !done ==> k2 == k
            &&& done ==> k2.calls.tickets.dom() == k.calls.tickets.dom()
            &&& done ==> k2.calls.tickets[id.0] == (TicketV {
                state: TicketState::Expired,
                cancel: true,
                cancel_reason: Some("deadline-exceeded"@),
                ..t
            })
            &&& done && k.calls.tickets.dom().contains(other) && !crate::calls::descends(
                k.calls.tickets,
                other,
                id.0,
            ) ==> k2.calls.tickets[other] == k.calls.tickets[other]
            &&& done && k.calls.tickets.dom().contains(other) && crate::calls::descends(
                k.calls.tickets,
                other,
                id.0,
            ) && k.calls.tickets[other].state == TicketState::Admitted
                ==> outcomes::cancelled_for(
                k.calls.tickets[other],
                k2.calls.tickets[other],
                "parent-expired"@,
            )
        }),
{
    if k.calls.admitted(id) {
        expired_heirs(k, id, other);
    }
}

proof fn expired_heirs(k: KernelV, id: TicketId, other: u64)
    requires
        k.calls.wf(),
        k.calls.admitted(id),
        other != id.0,
    ensures
        ({
            let k2 = k.dependency_timeout(id).0;
            let t = k.calls.tickets[id.0];
            &&& k2.calls.tickets.dom() == k.calls.tickets.dom()
            &&& k2.calls.tickets[id.0] == t.ended(TicketState::Expired, "deadline-exceeded"@)
            &&& k.calls.tickets.dom().contains(other) && !crate::calls::descends(
                k.calls.tickets,
                other,
                id.0,
            ) ==> k2.calls.tickets[other] == k.calls.tickets[other]
            &&& k.calls.tickets.dom().contains(other) && crate::calls::descends(
                k.calls.tickets,
                other,
                id.0,
            ) && k.calls.tickets[other].state == TicketState::Admitted
                ==> outcomes::cancelled_for(
                k.calls.tickets[other],
                k2.calls.tickets[other],
                "parent-expired"@,
            )
        }),
{
    let c = k.calls.end(id, TicketState::Expired, "deadline-exceeded"@);
    let k1 = k.with_calls(c).log(
        k.calls.get(id)->0.logical,
        "call.expired"@,
        tickets::ticket_reason(id, "deadline-exceeded"@),
    );
    let w = c.heirs(id);
    let d = c.end_all(w, TicketState::Cancelled, "parent-expired"@);
    logging_cancels_nothing(
        k1.with_calls(d),
        c.ended_list(w, TicketState::Cancelled, "parent-expired"@),
        "parent-expired"@,
    );
    assert(k.dependency_timeout(id).0.calls == d);
    assert(d.tickets.dom() =~= k.calls.tickets.dom());
    assert(c.tickets.dom() =~= k.calls.tickets.dom());
    if k.calls.tickets.dom().contains(other) {
        same_descent(k.calls.tickets, c.tickets, other, id.0);
        if w.has(c.tickets[other]) {
            let q = c.tickets[other].dep->0.parent.0;
            same_descent(k.calls.tickets, c.tickets, q, id.0);
            assert(q == id.0 || crate::calls::descends(c.tickets, q, id.0));
            assert(crate::calls::descends(c.tickets, other, id.0));
        }
    }
}

proof fn same_descent(m: crate::calls::Tickets, n: crate::calls::Tickets, a: u64, p: u64)
    requires
        m.dom() == n.dom(),
        forall|i: u64| #[trigger] m.dom().contains(i) ==> m[i].dep == n[i].dep,
    ensures
        crate::calls::descends(m, a, p) == crate::calls::descends(n, a, p),
    decreases a,
{
    if m.dom().contains(a) {
        if let Some(d) = m[a].dep {
            if d.parent.0 < a {
                same_descent(m, n, d.parent.0, p);
            }
        }
    }
}

proof fn logging_cancels_nothing(k: KernelV, ts: Seq<TicketV>, reason: Text)
    ensures
        k.log_cancelled(ts, reason).calls == k.calls,
    decreases ts.len(),
{
    if ts.len() > 0 {
        logging_cancels_nothing(k, ts.drop_last(), reason);
    }
}

} // verus!
