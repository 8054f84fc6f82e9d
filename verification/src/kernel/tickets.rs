//! Calls in flight: admission, mediated commits, cancellation and the end of
//! a ticket.

use vstd::prelude::*;
use vstd::string::*;
use crate::calls;
use crate::calls::{
    CallPolicy, CallsV, TicketId, TicketRecord, TicketState, TicketV, WhichV, WithdrawPolicy,
    MAX_INFLIGHT_CALLS,
};
use crate::context::{ContextError, ContextErrorV, ContextRecord, ContextV};
use crate::fsm::Fsm;
use crate::identity::{ContextId, InstanceId, ResourceHandle};
use crate::json;
use crate::json::{Json, JsonV};
use crate::kernel::resolve;
use crate::kernel::{Kernel, KernelV, PluginV, UsageV};
use crate::text;
use crate::text::Text;
use crate::time::Instant;

verus! {

/// Admitted call in progress.
#[derive(Debug)]
pub struct OpenCall {
    pub ticket: TicketId,
    pub cap: String,
    pub logical: String,
    pub instance: InstanceId,
    pub generation: u64,
    pub context: ContextId,
    pub policy: CallPolicy,
}

pub struct OpenCallV {
    pub ticket: TicketId,
    pub cap: Text,
    pub logical: Text,
    pub instance: InstanceId,
    pub generation: u64,
    pub context: ContextId,
    pub policy: CallPolicy,
}

impl View for OpenCall {
    type V = OpenCallV;

    open spec fn view(&self) -> OpenCallV {
        OpenCallV {
            ticket: self.ticket,
            cap: self.cap@,
            logical: self.logical@,
            instance: self.instance,
            generation: self.generation,
            context: self.context,
            policy: self.policy,
        }
    }
}

/// An error with its code.
pub open spec fn failure(error: Text, code: Text) -> JsonV {
    JsonV::object().with("error"@, json::jstr(error)).with("code"@, json::jstr(code))
}

/// An error with its code and the logical id it is about.
pub open spec fn failure_of(error: Text, code: Text, logical: Text) -> JsonV {
    failure(error, code).with("logical"@, json::jstr(logical))
}

/// An error with its code and the ticket it is about.
pub open spec fn failure_at(error: Text, code: Text, t: TicketId) -> JsonV {
    failure(error, code).with("ticket"@, json::jnum(t.0))
}

pub(crate) fn fail(error: &str, code: &str) -> (r: Json)
    ensures
        r@ == failure(error@, code@),
{
    Json::object().with("error", Json::str(error)).with("code", Json::str(code))
}

pub(crate) fn fail_of(error: &str, code: &str, logical: &str) -> (r: Json)
    ensures
        r@ == failure_of(error@, code@, logical@),
{
    fail(error, code).with("logical", Json::str(logical))
}

pub(crate) fn fail_at(error: &str, code: &str, t: TicketId) -> (r: Json)
    ensures
        r@ == failure_at(error@, code@, t),
{
    fail(error, code).with("ticket", Json::num(t.0))
}

/// A ticket and why something happened to it.
pub open spec fn ticket_reason(t: TicketId, reason: Text) -> JsonV {
    JsonV::object().with("ticket"@, json::jnum(t.0)).with("reason"@, json::jstr(reason))
}

pub(crate) fn ticket_reason_json(t: TicketId, reason: &str) -> (r: Json)
    ensures
        r@ == ticket_reason(t, reason@),
{
    Json::object().with("ticket", Json::num(t.0)).with("reason", Json::str(reason))
}

/// How the cause of a parked instance with calls in flight begins.
pub open spec fn inflight_prefix() -> Text {
    "in-flight calls pending: "@
}

impl KernelV {
    /// The admission of a capability without a registration: why it is not
    /// available.
    pub open spec fn unpublished(self, cap: Text) -> JsonV {
        let unknown = failure("no such capability"@, "no-such-capability"@);
        match resolve::owner_of(self.definitions, cap) {
            None => unknown,
            Some(o) => match self.contexts.current_of(o) {
                None => unknown,
                Some(st) => if st.state.is_waiting_like() {
                    failure_of(
                        match st.cause {
                            Some(c) => c,
                            None => "dependency unavailable"@,
                        },
                        "dependency-unavailable"@,
                        o,
                    )
                } else if st.state.canon() == Fsm::Active {
                    unknown
                } else {
                    failure_of("plugin not available"@, "context-not-active"@, o)
                },
            },
        }
    }

    /// The activation that an admitted capability belongs to: active,
    /// current, with bindings that hold. Otherwise why there is none.
    pub open spec fn admission(self, cap: Text) -> Result<ContextV, JsonV> {
        if !self.caps.dom().contains(cap) {
            Err(self.unpublished(cap))
        } else {
            let e = self.caps[cap];
            if e.instance == 0 && self.contexts.current_of(e.logical) is None {
                Err(failure("plugin not available"@, "plugin-not-loaded"@))
            } else {
                let inst = if e.instance == 0 {
                    self.contexts.current_of(e.logical)->0.instance.0
                } else {
                    e.instance
                };
                match self.contexts.admissible(inst) {
                    Ok(ctx) => match self.plugin(ctx.logical) {
                        Some(p) if p.state.canon() == Fsm::Active => if self.bindings_stale(
                            ctx.logical,
                            self.states(),
                        ) {
                            Err(
                                failure_of(
                                    "dependency-unavailable: binding obsoleto"@,
                                    "dependency-unavailable"@,
                                    ctx.logical,
                                ),
                            )
                        } else {
                            Ok(ctx)
                        },
                        _ => Err(failure("plugin not available"@, "context-not-active"@)),
                    },
                    Err(ContextErrorV::NotActive { logical, state }) => Err(
                        failure_of("context not active"@, "context-not-active"@, logical).with(
                            "state"@,
                            json::jstr(state),
                        ),
                    ),
                    Err(ContextErrorV::StaleGeneration { logical, expected, got }) => Err(
                        failure_of("stale generation"@, "stale-generation"@, logical).with(
                            "expected"@,
                            json::jnum(expected),
                        ).with("got"@, json::jnum(got)),
                    ),
                    Err(_) => Err(failure("stale generation"@, "stale-generation"@)),
                }
            }
        }
    }

    /// The first pin that the activation may not use.
    pub open spec fn bad_pin(self, pins: Seq<ResourceHandle>, ctx: ContextV) -> Option<
        ResourceHandle,
    >
        decreases pins.len(),
    {
        if pins.len() == 0 {
            None
        } else {
            match self.bad_pin(pins.drop_last(), ctx) {
                Some(h) => Some(h),
                None => if self.resources.validate(pins.last(), ctx.instance, ctx.generation)
                    is Ok {
                    None
                } else {
                    Some(pins.last())
                },
            }
        }
    }

    /// The ticket that an admitted call gets.
    pub open spec fn ticket_for(
        self,
        cap: Text,
        ctx: ContextV,
        policy: CallPolicy,
        pins: Seq<ResourceHandle>,
        now: Instant,
    ) -> TicketV {
        self.calls.fresh(
            cap,
            ctx.logical,
            ctx.instance,
            ctx.generation,
            ctx.context,
            ctx.epoch,
            policy,
            pins,
            now,
        )
    }

    /// Opens a call.
    pub open spec fn call_open(
        self,
        cap: Text,
        input: JsonV,
        policy_override: Option<CallPolicy>,
        pins: Seq<ResourceHandle>,
        now: Instant,
    ) -> (KernelV, Result<OpenCallV, JsonV>) {
        if self.calls.tickets.dom().len() >= MAX_INFLIGHT_CALLS {
            (self, Err(failure("too many in-flight calls"@, "resource-exhausted"@)))
        } else {
            match self.admission(cap) {
                Err(e) => (self, Err(e)),
                Ok(ctx) => match self.bad_pin(pins, ctx) {
                    Some(h) => (
                        self,
                        Err(failure("invalid pin "@ + h.text_of(), "invalid-pin"@)),
                    ),
                    None => {
                        let policy = match policy_override {
                            Some(p) => p,
                            None => self.policy_for(ctx.logical, cap),
                        };
                        let t = self.ticket_for(cap, ctx, policy, pins, now);
                        (
                            self.with_calls(self.calls.issue(t)).log(
                                ctx.logical,
                                "call.open"@,
                                JsonV::object().with("ticket"@, json::jnum(t.id.0)).with(
                                    "cap"@,
                                    json::jstr(cap),
                                ).with("input"@, input).with(
                                    "instance"@,
                                    json::jnum(ctx.instance.0),
                                ).with("generation"@, json::jnum(ctx.generation)).with(
                                    "policy"@,
                                    json::jstr(policy.on_withdraw.name()),
                                ).with("drain_ms"@, json::jnum(policy.drain_ms)),
                            ),
                            Ok(
                                OpenCallV {
                                    ticket: t.id,
                                    cap,
                                    logical: ctx.logical,
                                    instance: ctx.instance,
                                    generation: ctx.generation,
                                    context: ctx.context,
                                    policy,
                                },
                            ),
                        )
                    },
                },
            }
        }
    }

    /// A rejected commit in the journal.
    pub open spec fn reject(self, t: TicketV, reason: Text, kind: Text) -> KernelV {
        self.log(
            t.logical,
            "call.rejected"@,
            ticket_reason(t.id, reason).with("kind"@, json::jstr(kind)),
        )
    }

    /// Whether an instance is active and the current one of its logical id.
    pub open spec fn consumer_current(self, inst: InstanceId) -> bool {
        match self.contexts.get(inst.0) {
            Some(c) => c.state.canon() == Fsm::Active && (self.contexts.current_of(
                c.logical,
            ) matches Some(cur) && cur.instance == inst),
            None => false,
        }
    }

    /// The chain of a dependency call at a terminal boundary: live deadline,
    /// admitted parent, current consumer, grant at the captured revision.
    pub open spec fn chain_check(self, t: TicketV, kind: Text, now: Instant) -> (
        KernelV,
        Option<JsonV>,
    ) {
        match t.dep {
            None => (self, None),
            Some(dep) => if t.drain_until matches Some(u) && now.nanos >= u.nanos {
                (
                    self.with_calls(self.calls.set_state(t.id, TicketState::Expired)).log(
                        t.logical,
                        "call.expired"@,
                        ticket_reason(t.id, "deadline-exceeded"@),
                    ),
                    Some(
                        failure_at("dependency deadline exceeded"@, "deadline-exceeded"@, t.id),
                    ),
                )
            } else if !self.calls.admitted(dep.parent) {
                (
                    self.reject(t, "parent-revoked"@, kind),
                    Some(failure_at("parent revoked"@, "cancelled"@, t.id)),
                )
            } else if !self.consumer_current(dep.consumer) {
                (
                    self.reject(t, "consumer-withdrawn"@, kind),
                    Some(failure_at("consumer withdrawn"@, "stale-generation"@, t.id)),
                )
            } else if self.grant(dep.grant_consumer, dep.grant_cap) != Some(dep.grant_rev) {
                (
                    self.reject(t, "grant-revoked"@, kind),
                    Some(failure_at("operator grant revoked"@, "permission-denied"@, t.id)),
                )
            } else {
                (self, None)
            },
        }
    }

    /// Whether the ticket's remote provider is still attested as it was.
    pub open spec fn remote_leg_live(self, t: TicketV) -> bool {
        &&& self.remotes.dom().contains(t.logical)
        &&& self.remotes[t.logical].instance == t.instance.0
        &&& self.remotes[t.logical].generation == t.generation
        &&& self.definition(t.logical) matches Some(d) && d.remote
    }

    /// The provider's side of a commit: a remote leg has to be attested; a
    /// local one runs on the current activation, which is active or drains
    /// within the ticket's deadline.
    pub open spec fn provider_check(self, t: TicketV, kind: Text, now: Instant) -> (
        KernelV,
        Option<JsonV>,
    ) {
        let stale = failure_of("stale generation"@, "stale-generation"@, t.logical);
        if t.dep matches Some(d) && d.remote_peer is Some {
            if self.remote_leg_live(t) {
                (self, None)
            } else {
                (
                    self.reject(t, "remote-withdrawn"@, kind),
                    Some(
                        failure_of(
                            "remote provider withdrawn"@,
                            "stale-generation"@,
                            t.logical,
                        ),
                    ),
                )
            }
        } else if t.epoch != self.contexts.epoch {
            (self.reject(t, "stale-generation"@, kind), Some(stale))
        } else {
            match self.contexts.get(t.instance.0) {
                None => (self.reject(t, "stale-generation"@, kind), Some(stale)),
                Some(owner) => if owner.logical != t.logical || owner.generation != t.generation {
                    (self.reject(t, "stale-generation"@, kind), Some(stale))
                } else if self.contexts.current_of(t.logical) matches Some(cur) && cur.instance
                    != t.instance {
                    (self.reject(t, "stale-generation"@, kind), Some(stale))
                } else if owner.state.canon() == Fsm::Active {
                    (self, None)
                } else if owner.state.canon() == Fsm::Quiescing {
                    if t.policy.on_withdraw == WithdrawPolicy::Drain && (t.drain_until matches Some(
                        u,
                    ) && now.nanos <= u.nanos) {
                        (self, None)
                    } else {
                        (
                            self.reject(t, "revoked"@, kind),
                            Some(failure_at("ticket revoked"@, "cancelled"@, t.id)),
                        )
                    }
                } else {
                    (
                        self.reject(t, "context-not-active"@, kind),
                        Some(
                            failure_of("context not active"@, "context-not-active"@, t.logical),
                        ),
                    )
                },
            }
        }
    }

    /// The effect applied and the ticket committed.
    pub open spec fn apply_effect(self, t: TicketV, kind: Text, payload: JsonV, at_ms: u64) -> (
        KernelV,
        u64,
    ) {
        let e = self.calls.effect(t, kind, payload, at_ms);
        (
            self.with_calls(
                self.calls.record(e).set_state(t.id, TicketState::Committed),
            ).log(
                t.logical,
                "call.committed"@,
                JsonV::object().with("ticket"@, json::jnum(t.id.0)).with(
                    "effect"@,
                    json::jnum(e.seq),
                ).with("kind"@, json::jstr(kind)).with(
                    "instance"@,
                    json::jnum(t.instance.0),
                ).with("generation"@, json::jnum(t.generation)),
            ),
            e.seq,
        )
    }

    /// Commits an effect under a ticket.
    pub open spec fn commit_effect(
        self,
        id: TicketId,
        kind: Text,
        payload: JsonV,
        now: Instant,
        at_ms: u64,
    ) -> (KernelV, Result<u64, JsonV>) {
        match self.calls.get(id) {
            None => (
                self,
                Err(failure("unknown ticket "@ + id.text_of(), "unknown-ticket"@)),
            ),
            Some(t) => match t.state {
                TicketState::Committed => (
                    self,
                    Err(failure_at("already committed"@, "already-committed"@, t.id)),
                ),
                TicketState::Cancelled => (
                    self.reject(t, "cancelled"@, kind),
                    Err(failure_at("ticket cancelled"@, "cancelled"@, t.id)),
                ),
                TicketState::Expired => (
                    self.reject(t, "drain-exceeded"@, kind),
                    Err(failure_at("drain deadline exceeded"@, "deadline-exceeded"@, t.id)),
                ),
                TicketState::Admitted => {
                    let (k, e) = self.chain_check(t, kind, now);
                    match e {
                        Some(v) => (k, Err(v)),
                        None => {
                            let (k2, e2) = k.provider_check(t, kind, now);
                            match e2 {
                                Some(v) => (k2, Err(v)),
                                None => {
                                    let (k3, seq) = k2.apply_effect(t, kind, payload, at_ms);
                                    (k3, Ok(seq))
                                },
                            }
                        },
                    }
                },
            },
        }
    }

    /// Revoked tickets in the journal.
    pub open spec fn log_cancelled(self, ts: Seq<TicketV>, reason: Text) -> KernelV
        decreases ts.len(),
    {
        if ts.len() == 0 {
            self
        } else {
            self.log_cancelled(ts.drop_last(), reason).log(
                ts.last().logical,
                "call.cancelled"@,
                ticket_reason(ts.last().id, reason),
            )
        }
    }

    /// The tickets of `w` cancelled, each in the journal.
    pub open spec fn cancel_all(self, w: WhichV, reason: Text) -> KernelV {
        self.with_calls(self.calls.end_all(w, TicketState::Cancelled, reason)).log_cancelled(
            self.calls.ended_list(w, TicketState::Cancelled, reason),
            reason,
        )
    }

    /// The admitted descendants of a ticket cancelled.
    pub open spec fn cancel_heirs(self, id: TicketId, reason: Text) -> KernelV {
        self.cancel_all(self.calls.heirs(id), reason)
    }

    /// Cancels an admitted ticket and its descendants.
    pub open spec fn call_cancel(self, id: TicketId, reason: Text) -> (KernelV, bool) {
        if self.calls.admitted(id) {
            let t = self.calls.get(id)->0;
            (
                self.with_calls(self.calls.end(id, TicketState::Cancelled, reason)).log(
                    t.logical,
                    "call.cancelled"@,
                    ticket_reason(id, reason),
                ).cancel_heirs(id, "parent-cancelled"@),
                true,
            )
        } else {
            (self, false)
        }
    }

    /// The reservation of a finished child released.
    pub open spec fn dep_release(self, session: Text) -> KernelV {
        let u = self.usage;
        let per_session = if u.per_session.dom().contains(session) {
            if u.per_session[session] <= 1 {
                u.per_session.remove(session)
            } else {
                u.per_session.insert(session, (u.per_session[session] - 1) as u64)
            }
        } else {
            u.per_session
        };
        KernelV {
            usage: UsageV {
                per_session,
                global: if u.global > 0 {
                    (u.global - 1) as u64
                } else {
                    0
                },
            },
            ..self
        }
    }

    /// The cause of a parked instance brought up to date: it names only
    /// tickets that exist. Other causes stay.
    pub open spec fn refresh_cause(self, inst: InstanceId) -> KernelV {
        match self.contexts.get(inst.0) {
            Some(r) if r.state.canon() == Fsm::CleanupPending && (r.cause matches Some(c)
                && inflight_prefix().is_prefix_of(c)) => self.with_contexts(
                self.contexts.put(
                    inst.0,
                    Fsm::CleanupPending,
                    Some(
                        inflight_prefix() + text::listed(
                            calls::ids_of(self.calls.tickets, WhichV::Of(inst)),
                        ),
                    ),
                ),
            ),
            _ => self,
        }
    }

    /// The entry of a disposed instance.
    pub open spec fn plugin_disposed(self, logical: Text, inst: InstanceId) -> KernelV {
        match self.plugin(logical) {
            Some(p) if p.instance_id == inst.0 => self.with_plugin(
                logical,
                PluginV { state: Fsm::Disposed, leases: Seq::empty(), ..p },
            ),
            _ => self,
        }
    }

    /// What the journal says of an unloaded instance.
    pub open spec fn unloaded_args(c: ContextV) -> JsonV {
        JsonV::object().with("id"@, json::jstr(c.logical)).with(
            "instance"@,
            json::jnum(c.instance.0),
        ).with("context"@, json::jnum(c.context.0)).with("generation"@, json::jnum(c.generation))
    }

    pub open spec fn claim_cleanup(self, inst: InstanceId) -> KernelV {
        self.with_calls(
            CallsV { claims: self.calls.claims.insert(inst.0, true), ..self.calls },
        )
    }

    pub open spec fn unclaim_cleanup(self, inst: InstanceId) -> KernelV {
        self.with_calls(CallsV { claims: self.calls.claims.remove(inst.0), ..self.calls })
    }

    /// A parked instance with no more live work releases its resources and
    /// is disposed; tells whether it was. It is never reactivated.
    pub open spec fn finalize(self, inst: InstanceId) -> (KernelV, bool) {
        match self.contexts.get(inst.0) {
            Some(rec) if rec.state.canon() == Fsm::CleanupPending => if calls::ids_of(
                self.calls.tickets,
                WhichV::Of(inst),
            ).len() > 0 {
                (self.refresh_cause(inst), false)
            } else if self.calls.claims.dom().contains(inst.0) {
                (self.claim_cleanup(inst), false)
            } else {
                let (k, failures) = self.claim_cleanup(inst).clean(rec);
                if failures.len() == 0 {
                    (
                        k.with_contexts(
                            k.contexts.put(inst.0, Fsm::Disposed, None),
                        ).plugin_disposed(rec.logical, inst).log(
                            rec.logical,
                            "plugin.unloaded"@,
                            Self::unloaded_args(rec).with(
                                "after"@,
                                json::jstr("cleanup-settled"@),
                            ),
                        ).unclaim_cleanup(inst),
                        true,
                    )
                } else {
                    (
                        k.with_contexts(
                            k.contexts.put(
                                inst.0,
                                Fsm::CleanupPending,
                                Some(text::joined(failures, "; "@)),
                            ),
                        ).unclaim_cleanup(inst),
                        false,
                    )
                }
            },
            _ => (self, false),
        }
    }

    /// What follows the removal of a ticket: its descendants lose authority, a
    /// child returns its reservation, and a parked owner may be finalized.
    pub open spec fn after_ticket(self, t: TicketV) -> (KernelV, bool) {
        let k = self.cancel_heirs(t.id, "parent-ended"@);
        let k2 = match t.dep {
            Some(d) => k.dep_release(d.session),
            None => k,
        };
        k2.finalize(t.instance)
    }

    /// The end of a ticket, without a journal entry of its own.
    pub open spec fn settle(self, id: TicketId) -> (KernelV, bool) {
        match self.calls.get(id) {
            None => (self, false),
            Some(t) => self.with_calls(self.calls.remove(id)).after_ticket(t),
        }
    }

    /// The end of a ticket that its opener closes.
    pub open spec fn close(self, id: TicketId) -> (KernelV, bool) {
        match self.calls.get(id) {
            None => (self, false),
            Some(t) => self.with_calls(self.calls.remove(id)).log(
                t.logical,
                "call.closed"@,
                JsonV::object().with("ticket"@, json::jnum(id.0)).with(
                    "state"@,
                    json::jstr(t.state.name()),
                ),
            ).after_ticket(t),
        }
    }
}

/// The outcome of a step whose error is a value, as the contracts see it.
pub open spec fn seq_outcome(r: Result<u64, Json>) -> Result<u64, JsonV> {
    match r {
        Ok(n) => Ok(n),
        Err(e) => Err(e@),
    }
}

/// The outcome of opening a call, as the contracts see it.
pub open spec fn open_outcome(r: Result<OpenCall, Json>) -> Result<OpenCallV, JsonV> {
    match r {
        Ok(c) => Ok(c@),
        Err(e) => Err(e@),
    }
}

impl Kernel {
    fn unpublished(&self, cap: &str) -> (r: Json)
        ensures
            r@ == self@.unpublished(cap@),
    {
        if let Some(o) = self.owner_of(cap) {
            if let Some(st) = self.contexts.current(&o) {
                if st.state.waiting_like() {
                    let reason = match st.cause {
                        Some(c) => c,
                        None => "dependency unavailable".to_owned(),
                    };
                    return fail_of(&reason, "dependency-unavailable", &o);
                }
                if st.state.canonical() != Fsm::Active {
                    return fail_of("plugin not available", "context-not-active", &o);
                }
            }
        }
        fail("no such capability", "no-such-capability")
    }

    /// The activation that an admitted capability belongs to, or why there
    /// is none.
    pub(crate) fn admission_record(&self, cap: &str) -> (r: Result<ContextRecord, Json>)
        ensures
            match r {
                Ok(c) => self@.admission(cap@) == Ok::<ContextV, JsonV>(c@),
                Err(e) => self@.admission(cap@) == Err::<ContextV, JsonV>(e@),
            },
    {
        let e = match self.caps.resolve_ref(cap) {
            Some(e) => e,
            None => return Err(self.unpublished(cap)),
        };
        let inst = if e.instance == 0 {
            match self.contexts.current(&e.logical) {
                Some(c) => c.instance,
                None => return Err(fail("plugin not available", "plugin-not-loaded")),
            }
        } else {
            InstanceId(e.instance)
        };
        match self.contexts.require_active(inst) {
            Ok(ctx) => {
                let active = match self.plugins.get(&ctx.logical) {
                    Some(p) => p.state.canonical() == Fsm::Active,
                    None => false,
                };
                if !active {
                    return Err(fail("plugin not available", "context-not-active"));
                }
                let states = self.current_all_merged();
                if self.bindings_stale(&ctx.logical, &states) {
                    return Err(
                        fail_of(
                            "dependency-unavailable: binding obsoleto",
                            "dependency-unavailable",
                            &ctx.logical,
                        ),
                    );
                }
                Ok(ctx)
            },
            Err(ContextError::NotActive { logical, state }) => Err(
                fail_of("context not active", "context-not-active", &logical).with(
                    "state",
                    Json::str(&state),
                ),
            ),
            Err(ContextError::StaleGeneration { logical, expected, got }) => Err(
                fail_of("stale generation", "stale-generation", &logical).with(
                    "expected",
                    Json::num(expected),
                ).with("got", Json::num(got)),
            ),
            Err(_) => Err(fail("stale generation", "stale-generation")),
        }
    }

    fn bad_pin(&self, pins: &Vec<ResourceHandle>, ctx: &ContextRecord) -> (r: Option<
        ResourceHandle,
    >)
        ensures
            r == self@.bad_pin(pins@, ctx@),
    {
        let mut i: usize = 0;
        proof {
            assert(pins@.take(0) =~= Seq::<ResourceHandle>::empty());
        }
        while i < pins.len()
            invariant
                i <= pins.len(),
                self@.bad_pin(pins@.take(i as int), ctx@) is None,
            decreases pins.len() - i,
        {
            proof {
                assert(pins@.take(i + 1).drop_last() =~= pins@.take(i as int));
                assert(pins@.take(i + 1).last() == pins[i as int]);
            }
            if self.resources.validate(pins[i], ctx.instance, ctx.generation).is_err() {
                proof {
                    bad_pin_stays(self@, pins@, ctx@, i + 1);
                }
                return Some(pins[i]);
            }
            i += 1;
        }
        proof {
            assert(pins@.take(pins@.len() as int) =~= pins@);
        }
        None
    }

    /// Opens a call: issues a ticket bound to instance, generation, context
    /// and epoch. Admission and registration are one step, so a withdraw
    /// comes before both and the call is rejected, or after both and it finds
    /// the ticket.
    pub fn call_open(
        &mut self,
        cap: &str,
        input: &Json,
        policy_override: Option<CallPolicy>,
        pins: &Vec<ResourceHandle>,
        now: Instant,
    ) -> (r: Result<OpenCall, Json>)
        ensures
            ({
                let s = old(self)@.call_open(cap@, input@, policy_override, pins@, now);
                &&& final(self)@ == s.0
                &&& open_outcome(r) == s.1
            }),
    {
        if self.calls.inflight_count() >= MAX_INFLIGHT_CALLS {
            return Err(fail("too many in-flight calls", "resource-exhausted"));
        }
        let ctx = match self.admission_record(cap) {
            Ok(c) => c,
            Err(e) => return Err(e),
        };
        if let Some(h) = self.bad_pin(pins, &ctx) {
            let t = h.to_text();
            let m = text::join2("invalid pin ", &t);
            return Err(fail(&m, "invalid-pin"));
        }
        let policy = match policy_override {
            Some(p) => p,
            None => self.policy_for(&ctx.logical, cap),
        };
        let id = self.calls.issue(
            cap,
            &ctx.logical,
            ctx.instance,
            ctx.generation,
            ctx.context,
            ctx.epoch,
            policy,
            calls::copy_handles(pins),
            now,
        );
        let args = Json::object().with("ticket", Json::num(id.0)).with("cap", Json::str(cap)).with(
            "input",
            input.copy(),
        ).with("instance", Json::num(ctx.instance.0)).with(
            "generation",
            Json::num(ctx.generation),
        ).with("policy", Json::str(policy.on_withdraw.as_str())).with(
            "drain_ms",
            Json::num(policy.drain_ms),
        );
        self.log(&ctx.logical, "call.open", args);
        Ok(
            OpenCall {
                ticket: id,
                cap: cap.to_owned(),
                logical: ctx.logical,
                instance: ctx.instance,
                generation: ctx.generation,
                context: ctx.context,
                policy,
            },
        )
    }

    fn reject(&mut self, t: &TicketRecord, reason: &str, kind: &str)
        ensures
            final(self)@ == old(self)@.reject(t@, reason@, kind@),
    {
        let args = ticket_reason_json(t.id, reason).with("kind", Json::str(kind));
        self.log(&t.logical, "call.rejected", args);
    }

    fn consumer_current(&self, inst: InstanceId) -> (r: bool)
        ensures
            r == self@.consumer_current(inst),
    {
        match self.contexts.get_by_instance(inst) {
            Some(c) => c.state.canonical() == Fsm::Active && match self.contexts.current(
                &c.logical,
            ) {
                Some(cur) => cur.instance == inst,
                None => false,
            },
            None => false,
        }
    }

    /// The operator's grant of `cap` to `consumer`.
    pub fn grant_of(&self, consumer: &str, cap: &str) -> (r: Option<u64>)
        ensures
            r == self@.grant(consumer@, cap@),
    {
        match self.outbound_grants.get(consumer) {
            Some(m) => match m.get(cap) {
                Some(n) => Some(*n),
                None => None,
            },
            None => None,
        }
    }

    pub(crate) fn dep_chain_check(&mut self, t: &TicketRecord, kind: &str, now: Instant) -> (r:
        Option<Json>)
        ensures
            final(self)@ == old(self)@.chain_check(t@, kind@, now).0,
            r.deep_view() == old(self)@.chain_check(t@, kind@, now).1,
    {
        let dep = match &t.dep {
            None => return None,
            Some(d) => d,
        };
        let over = match t.drain_until {
            Some(u) => now.nanos >= u.nanos,
            None => false,
        };
        if over {
            let _ = self.calls.set_state(t.id, TicketState::Expired);
            self.log(
                &t.logical,
                "call.expired",
                ticket_reason_json(t.id, "deadline-exceeded"),
            );
            return Some(fail_at("dependency deadline exceeded", "deadline-exceeded", t.id));
        }
        if !self.calls.is_admitted(dep.parent) {
            self.reject(t, "parent-revoked", kind);
            return Some(fail_at("parent revoked", "cancelled", t.id));
        }
        if !self.consumer_current(dep.consumer) {
            self.reject(t, "consumer-withdrawn", kind);
            return Some(fail_at("consumer withdrawn", "stale-generation", t.id));
        }
        let granted = match self.grant_of(&dep.grant_consumer, &dep.grant_cap) {
            Some(n) => n == dep.grant_rev,
            None => false,
        };
        if !granted {
            self.reject(t, "grant-revoked", kind);
            return Some(fail_at("operator grant revoked", "permission-denied", t.id));
        }
        None
    }

    fn remote_leg_live(&self, t: &TicketRecord) -> (r: bool)
        ensures
            r == self@.remote_leg_live(t@),
    {
        let attested = match self.remote_providers.get(&t.logical) {
            Some(g) => g.instance == t.instance.0 && g.generation == t.generation,
            None => false,
        };
        attested && match self.definitions.get(&t.logical) {
            Some(d) => d.remote,
            None => false,
        }
    }

    fn provider_check(&mut self, t: &TicketRecord, kind: &str, now: Instant) -> (r: Option<Json>)
        ensures
            final(self)@ == old(self)@.provider_check(t@, kind@, now).0,
            r.deep_view() == old(self)@.provider_check(t@, kind@, now).1,
    {
        let remote = match &t.dep {
            Some(d) => d.remote_peer.is_some(),
            None => false,
        };
        if remote {
            if self.remote_leg_live(t) {
                return None;
            }
            self.reject(t, "remote-withdrawn", kind);
            return Some(
                fail_of("remote provider withdrawn", "stale-generation", &t.logical),
            );
        }
        if t.epoch != self.contexts.epoch() {
            self.reject(t, "stale-generation", kind);
            return Some(fail_of("stale generation", "stale-generation", &t.logical));
        }
        let owner = match self.contexts.get_by_instance(t.instance) {
            Some(o) => o,
            None => {
                self.reject(t, "stale-generation", kind);
                return Some(fail_of("stale generation", "stale-generation", &t.logical));
            },
        };
        if !text::same(&owner.logical, &t.logical) || owner.generation != t.generation {
            self.reject(t, "stale-generation", kind);
            return Some(fail_of("stale generation", "stale-generation", &t.logical));
        }
        if let Some(cur) = self.contexts.current(&t.logical) {
            if cur.instance != t.instance {
                self.reject(t, "stale-generation", kind);
                return Some(fail_of("stale generation", "stale-generation", &t.logical));
            }
        }
        match owner.state.canonical() {
            Fsm::Active => None,
            Fsm::Quiescing => {
                let within = t.policy.on_withdraw == WithdrawPolicy::Drain && match t.drain_until {
                    Some(u) => now.nanos <= u.nanos,
                    None => false,
                };
                if within {
                    None
                } else {
                    self.reject(t, "revoked", kind);
                    Some(fail_at("ticket revoked", "cancelled", t.id))
                }
            },
            _ => {
                self.reject(t, "context-not-active", kind);
                Some(fail_of("context not active", "context-not-active", &t.logical))
            },
        }
    }

    /// Applies an effect under a ticket: rejects a revoked or expired one, a
    /// stale generation, and a context that is not active or draining in
    /// time. A late attempt is rejected and journaled.
    pub fn commit_effect(
        &mut self,
        ticket: TicketId,
        kind: &str,
        payload: &Json,
        now: Instant,
        at_ms: u64,
    ) -> (r: Result<u64, Json>)
        ensures
            ({
                let s = old(self)@.commit_effect(ticket, kind@, payload@, now, at_ms);
                &&& final(self)@ == s.0
                &&& seq_outcome(r) == s.1
            }),
    {
        let t = match self.calls.get(ticket) {
            Some(t) => t,
            None => {
                let n = ticket.to_text();
                let m = text::join2("unknown ticket ", &n);
                return Err(fail(&m, "unknown-ticket"));
            },
        };
        match t.state {
            TicketState::Committed => {
                return Err(fail_at("already committed", "already-committed", t.id));
            },
            TicketState::Cancelled => {
                self.reject(&t, "cancelled", kind);
                return Err(fail_at("ticket cancelled", "cancelled", t.id));
            },
            TicketState::Expired => {
                self.reject(&t, "drain-exceeded", kind);
                return Err(fail_at("drain deadline exceeded", "deadline-exceeded", t.id));
            },
            TicketState::Admitted => {},
        }
        if let Some(e) = self.dep_chain_check(&t, kind, now) {
            return Err(e);
        }
        if let Some(e) = self.provider_check(&t, kind, now) {
            return Err(e);
        }
        let e = self.calls.push_effect(
            t.id,
            &t.logical,
            t.instance,
            t.generation,
            kind,
            payload.copy(),
            at_ms,
        );
        let _ = self.calls.set_state(t.id, TicketState::Committed);
        let args = Json::object().with("ticket", Json::num(t.id.0)).with(
            "effect",
            Json::num(e.seq),
        ).with("kind", Json::str(kind)).with("instance", Json::num(t.instance.0)).with(
            "generation",
            Json::num(t.generation),
        );
        self.log(&t.logical, "call.committed", args);
        Ok(e.seq)
    }

    pub(crate) fn log_cancelled(&mut self, ts: &Vec<TicketRecord>, reason: &str)
        ensures
            final(self)@ == old(self)@.log_cancelled(ts.deep_view(), reason@),
    {
        let ghost s = ts.deep_view();
        let ghost k0 = self@;
        let mut i: usize = 0;
        proof {
            assert(s.take(0) =~= Seq::<TicketV>::empty());
        }
        while i < ts.len()
            invariant
                i <= ts.len(),
                s == ts.deep_view(),
                self@ == k0.log_cancelled(s.take(i as int), reason@),
            decreases ts.len() - i,
        {
            proof {
                assert(s.take(i + 1).drop_last() =~= s.take(i as int));
                assert(s.take(i + 1).last() == ts[i as int]@);
            }
            self.log(&ts[i].logical, "call.cancelled", ticket_reason_json(ts[i].id, reason));
            i += 1;
        }
        proof {
            assert(s.take(s.len() as int) =~= s);
        }
    }

    /// Revokes the open descendants of a ticket and journals them.
    pub(crate) fn revoke_ticket_descendants(&mut self, parent: TicketId, reason: &str)
        ensures
            final(self)@ == old(self)@.cancel_heirs(parent, reason@),
    {
        let ts = self.calls.revoke_descendants(parent, reason);
        self.log_cancelled(&ts, reason);
    }

    /// Explicit cooperative cancellation; tells whether the ticket was open.
    /// Its open descendants lose their authority with it.
    pub fn call_cancel(&mut self, ticket: TicketId, reason: &str) -> (r: bool)
        ensures
            final(self)@ == old(self)@.call_cancel(ticket, reason@).0,
            r == old(self)@.call_cancel(ticket, reason@).1,
    {
        let t = match self.calls.get(ticket) {
            Some(t) => t,
            None => return false,
        };
        if self.calls.cancel(ticket, reason) {
            self.log(&t.logical, "call.cancelled", ticket_reason_json(ticket, reason));
            self.revoke_ticket_descendants(ticket, "parent-cancelled");
            true
        } else {
            false
        }
    }

    pub(crate) fn dep_release(&mut self, session: &str)
        ensures
            final(self)@ == old(self)@.dep_release(session@),
    {
        if let Some(n) = self.dep_usage.per_session.get(session) {
            let n: u64 = *n;
            if n <= 1 {
                let _ = self.dep_usage.per_session.remove(session);
            } else {
                self.dep_usage.per_session.insert(session, n - 1);
            }
        }
        if self.dep_usage.global > 0 {
            self.dep_usage.global = self.dep_usage.global - 1;
        }
    }

    /// The numbers of the tickets that an instance executes.
    pub(crate) fn ticket_numbers(&self, inst: InstanceId) -> (r: Vec<u64>)
        ensures
            r@ == calls::ids_of(self@.calls.tickets, WhichV::Of(inst)),
    {
        self.calls.ids(&calls::Which::Of(inst))
    }

    fn refresh_cleanup_cause(&mut self, inst: InstanceId)
        ensures
            final(self)@ == old(self)@.refresh_cause(inst),
    {
        let rec = match self.contexts.get_by_instance(inst) {
            Some(r) => r,
            None => return ,
        };
        if rec.state.canonical() != Fsm::CleanupPending {
            return ;
        }
        let inflight = match &rec.cause {
            Some(c) => text::starts_with(c, "in-flight calls pending: "),
            None => false,
        };
        if !inflight {
            return ;
        }
        let ids = self.ticket_numbers(inst);
        let list = text::list_text(&ids);
        self.contexts.mark_cleanup_pending(
            inst,
            text::join2("in-flight calls pending: ", &list),
        );
    }

    pub(crate) fn plugin_disposed(&mut self, logical: &str, inst: InstanceId)
        ensures
            final(self)@ == old(self)@.plugin_disposed(logical@, inst),
    {
        if let Some(p) = self.plugins.get(logical) {
            if p.instance_id == inst.0 {
                let mut p = p.copy();
                p.state = Fsm::Disposed;
                p.leases = Vec::new();
                self.plugins.insert(logical, p);
            }
        }
    }

    /// Finalizes a parked instance with no more live work; tells whether it
    /// was disposed, after which the definitions have to be reconciled.
    pub(crate) fn maybe_finalize(&mut self, inst: InstanceId) -> (r: bool)
        ensures
            final(self)@ == old(self)@.finalize(inst).0,
            r == old(self)@.finalize(inst).1,
    {
        let rec = match self.contexts.get_by_instance(inst) {
            Some(r) => r,
            None => return false,
        };
        if rec.state.canonical() != Fsm::CleanupPending {
            return false;
        }
        if self.calls.pending_count(inst) > 0 {
            self.refresh_cleanup_cause(inst);
            return false;
        }
        if !self.calls.try_claim_cleanup(inst) {
            return false;
        }
        let failures = self.release_context_resources(&rec);
        let settled = failures.len() == 0;
        if settled {
            self.contexts.mark_disposed(inst);
            self.plugin_disposed(&rec.logical, inst);
            let args = unloaded_json(&rec).with("after", Json::str("cleanup-settled"));
            self.log(&rec.logical, "plugin.unloaded", args);
        } else {
            self.contexts.mark_cleanup_pending(inst, text::join(&failures, "; "));
        }
        self.calls.release_cleanup_claim(inst);
        settled
    }

    fn after_ticket(&mut self, t: &TicketRecord) -> (r: bool)
        ensures
            final(self)@ == old(self)@.after_ticket(t@).0,
            r == old(self)@.after_ticket(t@).1,
    {
        self.revoke_ticket_descendants(t.id, "parent-ended");
        if let Some(d) = &t.dep {
            self.dep_release(&d.session);
        }
        self.maybe_finalize(t.instance)
    }

    /// Ends a ticket; tells whether that disposed its parked owner.
    pub(crate) fn settle_ticket(&mut self, id: TicketId) -> (r: bool)
        ensures
            final(self)@ == old(self)@.settle(id).0,
            r == old(self)@.settle(id).1,
    {
        match self.calls.remove(id) {
            Some(t) => self.after_ticket(&t),
            None => {
                assert(self@.calls.tickets =~= old(self)@.calls.tickets);
                false
            },
        }
    }

    /// Ends a ticket that its opener closes; tells whether that disposed its
    /// parked owner.
    pub(crate) fn close_ticket(&mut self, id: TicketId) -> (r: bool)
        ensures
            final(self)@ == old(self)@.close(id).0,
            r == old(self)@.close(id).1,
    {
        match self.calls.remove(id) {
            Some(t) => {
                let args = Json::object().with("ticket", Json::num(id.0)).with(
                    "state",
                    Json::str(t.state.as_str()),
                );
                self.log(&t.logical, "call.closed", args);
                self.after_ticket(&t)
            },
            None => {
                assert(self@.calls.tickets =~= old(self)@.calls.tickets);
                false
            },
        }
    }
}

pub(crate) fn unloaded_json(c: &ContextRecord) -> (r: Json)
    ensures
        r@ == KernelV::unloaded_args(c@),
{
    Json::object().with("id", Json::str(&c.logical)).with("instance", Json::num(c.instance.0)).with(
        "context",
        Json::num(c.context.0),
    ).with("generation", Json::num(c.generation))
}

proof fn bad_pin_stays(k: KernelV, pins: Seq<ResourceHandle>, ctx: ContextV, i: int)
    requires
        0 <= i <= pins.len(),
        k.bad_pin(pins.take(i), ctx) is Some,
    ensures
        k.bad_pin(pins, ctx) == k.bad_pin(pins.take(i), ctx),
    decreases pins.len() - i,
{
    if i < pins.len() {
        assert(pins.take(i + 1).drop_last() =~= pins.take(i));
        bad_pin_stays(k, pins, ctx, i + 1);
    } else {
        assert(pins.take(i) =~= pins);
    }
}

} // verus!
