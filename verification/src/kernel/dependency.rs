//! Calls across components: bindings, operator grants, and the admission and
//! acceptance of dependency calls.
//!
//! A child is admitted only under an admitted parent that the caller
//! executes, a binding of the caller's current activation to the provider's,
//! the operator's grant, and free quota. A denial leaves nothing behind.

use vstd::prelude::*;
use vstd::string::*;
use crate::calls;
use crate::calls::{DepChild, DepChildV, TicketId, TicketRecord, TicketState, TicketV, WhichV, MAX_INFLIGHT_CALLS};
use crate::context::{ContextRecord, ContextV};
use crate::deps;
use crate::deps::{Binding, BindingV, Requirement, RequirementV};
use crate::fsm::Fsm;
use crate::identity::{ContextId, InstanceId};
use crate::json;
use crate::json::{Json, JsonV};
use crate::kernel::{DepBinding, DepBindingV, Kernel, KernelV, RemoteProvider, UsageV};
use crate::manifest::OutboundLimits;
use crate::num;
use crate::strmap;
use crate::strmap::{Keep, StrMap};
use crate::text;
use crate::text::Text;
use crate::time::Instant;

verus! {

/// Request to admit a dependency call. The caller's session and activation
/// arrive authenticated.
#[derive(Debug)]
pub struct DepAdmit {
    pub parent: TicketId,
    pub binding: String,
    pub caller_logical: String,
    pub caller_instance: u64,
    pub caller_generation: u64,
    pub session: String,
    pub timeout_ms: u64,
}

pub struct DepAdmitV {
    pub parent: TicketId,
    pub binding: Text,
    pub caller_logical: Text,
    pub caller_instance: u64,
    pub caller_generation: u64,
    pub session: Text,
    pub timeout_ms: u64,
}

impl View for DepAdmit {
    type V = DepAdmitV;

    open spec fn view(&self) -> DepAdmitV {
        DepAdmitV {
            parent: self.parent,
            binding: self.binding@,
            caller_logical: self.caller_logical@,
            caller_instance: self.caller_instance,
            caller_generation: self.caller_generation,
            session: self.session@,
            timeout_ms: self.timeout_ms,
        }
    }
}

/// Denial of a dependency call, with its code.
#[derive(Debug)]
pub struct DepDeny {
    pub code: &'static str,
    pub reason: String,
}

pub struct DepDenyV {
    pub code: Text,
    pub reason: Text,
}

impl View for DepDeny {
    type V = DepDenyV;

    open spec fn view(&self) -> DepDenyV {
        DepDenyV { code: self.code@, reason: self.reason@ }
    }
}

pub open spec fn denied(code: Text, reason: Text) -> DepDenyV {
    DepDenyV { code, reason }
}

fn deny(code: &'static str, reason: &str) -> (r: DepDeny)
    ensures
        r@ == denied(code@, reason@),
{
    DepDeny { code, reason: reason.to_owned() }
}

/// The requirement that a binding's interface spells, of its provider.
pub open spec fn binding_requirement(b: BindingV) -> RequirementV {
    let (base, major) = deps::split(b.interface);
    RequirementV { interface: b.interface, base, major, provider: Some(b.provider_logical) }
}

/// The first capability that satisfies a requirement.
pub open spec fn first_satisfying(caps: Seq<Text>, req: RequirementV) -> Option<Text>
    decreases caps.len(),
{
    if caps.len() == 0 {
        None
    } else {
        match first_satisfying(caps.drop_last(), req) {
            Some(c) => Some(c),
            None => if deps::satisfies(caps.last(), req) {
                Some(caps.last())
            } else {
                None
            },
        }
    }
}

proof fn first_satisfying_stays(caps: Seq<Text>, req: RequirementV, i: int)
    requires
        0 <= i <= caps.len(),
        first_satisfying(caps.take(i), req) is Some,
    ensures
        first_satisfying(caps, req) == first_satisfying(caps.take(i), req),
    decreases caps.len() - i,
{
    if i < caps.len() {
        assert(caps.take(i + 1).drop_last() =~= caps.take(i));
        first_satisfying_stays(caps, req, i + 1);
    } else {
        assert(caps.take(i) =~= caps);
    }
}

/// The position of the first capability that satisfies a requirement.
fn find_satisfying(caps: &Vec<String>, req: &Requirement) -> (r: Option<usize>)
    ensures
        match r {
            Some(i) => i < caps.len() && first_satisfying(caps.deep_view(), req@) == Some(
                caps.deep_view()[i as int],
            ),
            None => first_satisfying(caps.deep_view(), req@) is None,
        },
{
    let ghost s = caps.deep_view();
    let mut i: usize = 0;
    proof {
        assert(s.take(0) =~= Seq::<Text>::empty());
    }
    while i < caps.len()
        invariant
            i <= caps.len(),
            s == caps.deep_view(),
            first_satisfying(s.take(i as int), req@) is None,
        decreases caps.len() - i,
    {
        proof {
            assert(s.take(i + 1).drop_last() =~= s.take(i as int));
            assert(s.take(i + 1).last() == caps[i as int]@);
        }
        if deps::cap_satisfies(&caps[i], req) {
            proof {
                first_satisfying_stays(s, req@, i + 1);
            }
            return Some(i);
        }
        i += 1;
    }
    proof {
        assert(s.take(s.len() as int) =~= s);
    }
    None
}

impl KernelV {
    /// The handle issued for one binding of an activation; none where the
    /// provider's definition no longer offers it.
    pub open spec fn issue_one(self, logical: Text, cur: ContextV, b: BindingV) -> KernelV {
        match self.definition(b.provider_logical) {
            None => self,
            Some(d) => match first_satisfying(d.caps, binding_requirement(b)) {
                None => self,
                Some(capability) => {
                    let id = (if d.remote {
                        "rb-"@
                    } else {
                        "bind-"@
                    }) + text::dec(self.dep_seq as nat);
                    KernelV {
                        dep_seq: num::next(self.dep_seq),
                        dep_bindings: self.dep_bindings.insert(
                            id,
                            DepBindingV {
                                id,
                                consumer_logical: logical,
                                consumer_instance: cur.instance,
                                consumer_generation: cur.generation,
                                consumer_context: cur.context,
                                interface: b.interface,
                                capability,
                                provider_logical: b.provider_logical,
                                provider_instance: InstanceId(b.provider_instance),
                                provider_generation: b.provider_generation,
                            },
                        ),
                        ..self
                    }
                },
            },
        }
    }

    pub open spec fn issue_each(self, logical: Text, cur: ContextV, bs: Seq<BindingV>) -> KernelV
        decreases bs.len(),
    {
        if bs.len() == 0 {
            self
        } else {
            self.issue_each(logical, cur, bs.drop_last()).issue_one(logical, cur, bs.last())
        }
    }

    /// One opaque handle per binding of an activation that became active;
    /// earlier handles of the activation go.
    pub open spec fn issue_bindings(
        self,
        logical: Text,
        inst: InstanceId,
        generation: u64,
        bs: Seq<BindingV>,
    ) -> KernelV {
        match self.contexts.get(inst.0) {
            Some(cur) if cur.logical == logical && cur.generation == generation => KernelV {
                dep_bindings: strmap::kept(
                    self.dep_bindings,
                    |b: DepBindingV| b.consumer_instance != inst,
                ),
                ..self
            }.issue_each(logical, cur, bs),
            _ => self,
        }
    }

    /// The handles without those that involve a discarded instance. Remote
    /// providers carry instance numbers of another host, so theirs stay.
    pub open spec fn prune_bindings(self, inst: InstanceId) -> KernelV {
        KernelV {
            dep_bindings: strmap::kept(
                self.dep_bindings,
                |b: DepBindingV|
                    b.consumer_instance != inst && (self.remotes.dom().contains(
                        b.provider_logical,
                    ) || b.provider_instance != inst),
            ),
            ..self
        }
    }

    /// The handles without those to one provider.
    pub open spec fn prune_provider(self, logical: Text) -> KernelV {
        KernelV {
            dep_bindings: strmap::kept(
                self.dep_bindings,
                |b: DepBindingV| b.provider_logical != logical,
            ),
            ..self
        }
    }

    /// The handles of the consumer's current activation, by ascending id.
    pub open spec fn own_binding(self, logical: Text, b: DepBindingV) -> bool {
        match self.contexts.current_of(logical) {
            Some(cur) => b.consumer_logical == logical && b.consumer_instance == cur.instance
                && b.consumer_generation == cur.generation,
            None => false,
        }
    }

    /// A grant given: the revision rotates and children of older revisions
    /// lose their authority.
    pub open spec fn grant_outbound(self, consumer: Text, cap: Text) -> KernelV {
        let rev = self.grant_seq;
        let per = if self.grants.dom().contains(consumer) {
            self.grants[consumer]
        } else {
            Map::empty()
        };
        KernelV {
            grant_seq: num::next(rev),
            grants: self.grants.insert(consumer, per.insert(cap, rev)),
            ..self
        }.cancel_all(
            WhichV::Granted { consumer, cap, keep_rev: Some(rev) },
            "grant-superseded"@,
        )
    }

    /// A grant withdrawn, and all children under it.
    pub open spec fn revoke_outbound(self, consumer: Text, cap: Text) -> KernelV {
        KernelV {
            grants: if self.grants.dom().contains(consumer) {
                self.grants.insert(consumer, self.grants[consumer].remove(cap))
            } else {
                self.grants
            },
            ..self
        }.cancel_all(WhichV::Granted { consumer, cap, keep_rev: None }, "grant-revoked"@)
    }

    /// The parent of a dependency call: known, admitted, and executed by the
    /// caller.
    pub open spec fn parent_of(self, req: DepAdmitV) -> Result<TicketV, DepDenyV> {
        match self.calls.get(req.parent) {
            None => Err(
                denied(
                    "invalid-parent"@,
                    "unknown parent tkt-"@ + text::dec(req.parent.0 as nat),
                ),
            ),
            Some(p) => if p.state != TicketState::Admitted {
                Err(
                    denied(
                        "invalid-parent"@,
                        "parent "@ + text::dec(req.parent.0 as nat) + " is "@ + p.state.name(),
                    ),
                )
            } else if p.logical != req.caller_logical || p.instance != InstanceId(
                req.caller_instance,
            ) || p.generation != req.caller_generation {
                Err(denied("invalid-parent"@, "parent owned by another activation"@))
            } else {
                Ok(p)
            },
        }
    }

    /// The binding of a dependency call: known, and of the caller's
    /// activation.
    pub open spec fn binding_for(self, req: DepAdmitV) -> Result<DepBindingV, DepDenyV> {
        if !self.dep_bindings.dom().contains(req.binding) {
            Err(denied("dependency-unavailable"@, "unknown binding"@))
        } else {
            let b = self.dep_bindings[req.binding];
            if b.consumer_logical != req.caller_logical || b.consumer_instance != InstanceId(
                req.caller_instance,
            ) || b.consumer_generation != req.caller_generation {
                Err(denied("invalid-parent"@, "binding of another activation"@))
            } else {
                Ok(b)
            }
        }
    }

    /// The consumer of a dependency call: current and active.
    pub open spec fn consumer_for(self, req: DepAdmitV) -> Result<ContextV, DepDenyV> {
        match self.contexts.current_of(req.caller_logical) {
            None => Err(
                denied("plugin-not-loaded"@, "consumer "@ + req.caller_logical + " gone"@),
            ),
            Some(c) => if c.instance != InstanceId(req.caller_instance) || c.state.canon()
                != Fsm::Active {
                Err(denied("context-not-active"@, "consumer not active"@))
            } else if c.generation != req.caller_generation {
                Err(denied("stale-generation"@, "consumer superseded"@))
            } else {
                Ok(c)
            },
        }
    }

    /// The provider of a dependency call: the bound local activation, or an
    /// attested remote one. Gives the context that accounts for the call and
    /// the peer of a remote leg.
    pub open spec fn provider_for(self, b: DepBindingV, consumer: ContextV) -> Result<
        (ContextId, Option<Text>),
        DepDenyV,
    > {
        let gone = denied("dependency-unavailable"@, "provider reintroduced; binding stale"@);
        match self.contexts.current_of(b.provider_logical) {
            Some(p) => if p.instance != b.provider_instance || p.generation
                != b.provider_generation || p.state.canon() != Fsm::Active {
                Err(gone)
            } else {
                Ok((p.context, None))
            },
            None => if !self.remotes.dom().contains(b.provider_logical) {
                Err(
                    denied(
                        "dependency-unavailable"@,
                        "provider "@ + b.provider_logical + " gone"@,
                    ),
                )
            } else {
                let reg = self.remotes[b.provider_logical];
                if reg.instance != b.provider_instance.0 || reg.generation
                    != b.provider_generation {
                    Err(gone)
                } else if !(self.definition(b.provider_logical) matches Some(d) && d.remote) {
                    Err(denied("dependency-unavailable"@, "remote definition withdrawn"@))
                } else {
                    Ok((consumer.context, Some(reg.peer)))
                }
            },
        }
    }

    pub open spec fn session_use(self, session: Text) -> u64 {
        if self.usage.per_session.dom().contains(session) {
            self.usage.per_session[session]
        } else {
            0
        }
    }

    /// Whether the quotas have room for one more child, or which has not.
    pub open spec fn quota(self, req: DepAdmitV, l: OutboundLimits) -> Option<DepDenyV> {
        if calls::ids_of(self.calls.tickets, WhichV::ChildrenOf(req.parent)).len()
            >= l.max_children_per_parent {
            Some(denied("resource-exhausted"@, "too many children of parent"@))
        } else if self.session_use(req.session) >= l.max_calls_per_session {
            Some(denied("resource-exhausted"@, "too many dependency calls in session"@))
        } else if self.usage.global >= l.max_calls_global {
            Some(denied("resource-exhausted"@, "too many dependency calls"@))
        } else if self.calls.tickets.dom().len() >= MAX_INFLIGHT_CALLS {
            Some(denied("resource-exhausted"@, "too many in-flight calls"@))
        } else {
            None
        }
    }

    /// What an admissible dependency call runs under.
    pub open spec fn dep_authority(self, req: DepAdmitV) -> Result<DepAuthority, DepDenyV> {
        if req.timeout_ms == 0 {
            Err(denied("invalid-message"@, "timeout must be positive"@))
        } else if req.session.len() == 0 || req.binding.len() == 0 {
            Err(denied("invalid-message"@, "session and binding required"@))
        } else {
            match self.parent_of(req) {
                Err(e) => Err(e),
                Ok(parent) => match self.binding_for(req) {
                    Err(e) => Err(e),
                    Ok(binding) => match self.consumer_for(req) {
                        Err(e) => Err(e),
                        Ok(consumer) => match self.provider_for(binding, consumer) {
                            Err(e) => Err(e),
                            Ok((context, peer)) => match self.definition(req.caller_logical) {
                                Some(d) if d.outbound is Some => {
                                    let limits = d.outbound->0.limits;
                                    let depth: u32 = match parent.dep {
                                        Some(p) => if p.depth < u32::MAX {
                                            (p.depth + 1) as u32
                                        } else {
                                            0
                                        },
                                        None => 1,
                                    };
                                    if depth > limits.max_depth {
                                        Err(
                                            denied(
                                                "resource-exhausted"@,
                                                "max depth exceeded"@,
                                            ),
                                        )
                                    } else {
                                        match self.grant(
                                            req.caller_logical,
                                            binding.capability,
                                        ) {
                                            None => Err(
                                                denied(
                                                    "permission-denied"@,
                                                    "no operator grant for "@ + req.caller_logical
                                                        + " on "@ + binding.capability,
                                                ),
                                            ),
                                            Some(rev) => match self.quota(req, limits) {
                                                Some(e) => Err(e),
                                                None => Ok(
                                                    DepAuthority {
                                                        parent,
                                                        binding,
                                                        context,
                                                        peer,
                                                        limits,
                                                        depth,
                                                        rev,
                                                    },
                                                ),
                                            },
                                        }
                                    }
                                },
                                _ => Err(denied("permission-denied"@, "no outbound policy"@)),
                            },
                        },
                    },
                },
            }
        }
    }

    /// The deadline of a child: the earliest of the policy's, the request's
    /// and the parent's.
    pub open spec fn child_deadline(req: DepAdmitV, a: DepAuthority, now: Instant) -> Instant {
        let own = now.later(a.limits.max_deadline_ms).min(now.later(req.timeout_ms));
        match a.parent.drain_until {
            Some(u) => own.min(u),
            None => own,
        }
    }

    /// The ticket of an admitted child.
    pub open spec fn child_ticket(self, req: DepAdmitV, a: DepAuthority, now: Instant) -> TicketV {
        TicketV {
            drain_until: Some(Self::child_deadline(req, a, now)),
            dep: Some(
                DepChildV {
                    parent: req.parent,
                    binding: a.binding.id,
                    consumer: InstanceId(req.caller_instance),
                    session: req.session,
                    grant_consumer: req.caller_logical,
                    grant_cap: a.binding.capability,
                    grant_rev: a.rev,
                    depth: a.depth,
                    remote_peer: a.peer,
                },
            ),
            ..self.calls.fresh(
                a.binding.capability,
                a.binding.provider_logical,
                a.binding.provider_instance,
                a.binding.provider_generation,
                a.context,
                self.contexts.epoch,
                calls::cancel_policy(),
                Seq::empty(),
                now,
            )
        }
    }

    /// Admits a dependency call, or denies it and changes nothing.
    pub open spec fn dependency_admit(self, req: DepAdmitV, now: Instant) -> (
        KernelV,
        Result<TicketId, DepDenyV>,
    ) {
        match self.dep_authority(req) {
            Err(e) => (self, Err(e)),
            Ok(a) => {
                let t = self.child_ticket(req, a, now);
                (
                    KernelV {
                        usage: UsageV {
                            per_session: self.usage.per_session.insert(
                                req.session,
                                (self.session_use(req.session) + 1) as u64,
                            ),
                            global: (self.usage.global + 1) as u64,
                        },
                        calls: self.calls.issue(t),
                        ..self
                    }.log(
                        req.caller_logical,
                        "dependency.admitted"@,
                        JsonV::object().with("ticket"@, json::jnum(t.id.0)).with(
                            "parent"@,
                            json::jnum(req.parent.0),
                        ).with("binding"@, json::jstr(a.binding.id)).with(
                            "capability"@,
                            json::jstr(a.binding.capability),
                        ).with("provider"@, json::jstr(a.binding.provider_logical)).with(
                            "depth"@,
                            json::jnum(a.depth as u64),
                        ).with("grant_rev"@, json::jnum(a.rev)).with(
                            "remote"@,
                            JsonV::Bool(a.peer is Some),
                        ).with(
                            "peer"@,
                            json::jstr(
                                match a.peer {
                                    Some(p) => p,
                                    None => Seq::empty(),
                                },
                            ),
                        ),
                    ),
                    Ok(t.id),
                )
            },
        }
    }

    /// Accepts the result of a child: its chain has to hold, and it is
    /// accepted once.
    pub open spec fn dependency_accept(self, id: TicketId, now: Instant) -> (
        KernelV,
        Result<(), DepDenyV>,
    ) {
        match self.calls.get(id) {
            None => (
                self,
                Err(denied("internal"@, "unknown child tkt-"@ + text::dec(id.0 as nat))),
            ),
            Some(t) => {
                let (k, e) = self.chain_check(t, "result"@, now);
                match e {
                    Some(v) => (k, Err(chain_denial(v))),
                    None => if k.calls.admitted(id) {
                        (k.with_calls(k.calls.commit(id)), Ok(()))
                    } else {
                        (
                            k,
                            Err(
                                denied(
                                    "cancelled"@,
                                    "child tkt-"@ + text::dec(id.0 as nat)
                                        + " revoked during accept"@,
                                ),
                            ),
                        )
                    },
                }
            },
        }
    }

    /// Expires an admitted child whose deadline passed, with its descendants.
    pub open spec fn dependency_timeout(self, id: TicketId) -> (KernelV, bool) {
        if self.calls.admitted(id) {
            (
                self.with_calls(
                    self.calls.end(id, TicketState::Expired, "deadline-exceeded"@),
                ).log(
                    self.calls.get(id)->0.logical,
                    "call.expired"@,
                    crate::kernel::tickets::ticket_reason(id, "deadline-exceeded"@),
                ).cancel_heirs(id, "parent-expired"@),
                true,
            )
        } else {
            (self, false)
        }
    }
}

/// What an admissible dependency call runs under.
pub struct DepAuthority {
    pub parent: TicketV,
    pub binding: DepBindingV,
    pub context: ContextId,
    pub peer: Option<Text>,
    pub limits: OutboundLimits,
    pub depth: u32,
    pub rev: u64,
}

/// A failed chain as a denial.
pub open spec fn chain_denial(v: JsonV) -> DepDenyV {
    let code = match v.str_at("code"@) {
        Some(c) => c,
        None => "internal"@,
    };
    denied(
        if code == "cancelled"@ || code == "deadline-exceeded"@ || code == "permission-denied"@
            || code == "stale-generation"@ || code == "context-not-active"@ {
            code
        } else {
            "internal"@
        },
        match v.str_at("error"@) {
            Some(e) => e,
            None => "chain rejected"@,
        },
    )
}

fn chain_denial_of(v: &Json) -> (r: DepDeny)
    ensures
        r@ == chain_denial(v@),
{
    let code = match v.str_at("code") {
        Some(c) => c.clone(),
        None => "internal".to_owned(),
    };
    let code: &'static str = if text::same(&code, "cancelled") {
        "cancelled"
    } else if text::same(&code, "deadline-exceeded") {
        "deadline-exceeded"
    } else if text::same(&code, "permission-denied") {
        "permission-denied"
    } else if text::same(&code, "stale-generation") {
        "stale-generation"
    } else if text::same(&code, "context-not-active") {
        "context-not-active"
    } else {
        "internal"
    };
    let reason = match v.str_at("error") {
        Some(e) => e.clone(),
        None => "chain rejected".to_owned(),
    };
    DepDeny { code, reason }
}

struct NotConsumer(InstanceId);

impl Keep<DepBinding> for NotConsumer {
    closed spec fn keeps(&self, b: DepBindingV) -> bool {
        b.consumer_instance != self.0
    }

    fn keep(&self, b: &DepBinding) -> (r: bool) {
        b.consumer_instance != self.0
    }
}

struct NotProvider<'a>(&'a str);

impl<'a> Keep<DepBinding> for NotProvider<'a> {
    closed spec fn keeps(&self, b: DepBindingV) -> bool {
        b.provider_logical != self.0@
    }

    fn keep(&self, b: &DepBinding) -> (r: bool) {
        !text::same(&b.provider_logical, self.0)
    }
}

struct NotInvolved<'a> {
    inst: InstanceId,
    remotes: &'a StrMap<RemoteProvider>,
}

impl<'a> Keep<DepBinding> for NotInvolved<'a> {
    closed spec fn keeps(&self, b: DepBindingV) -> bool {
        b.consumer_instance != self.inst && (self.remotes@.dom().contains(b.provider_logical)
            || b.provider_instance != self.inst)
    }

    fn keep(&self, b: &DepBinding) -> (r: bool) {
        b.consumer_instance != self.inst && (self.remotes.contains(&b.provider_logical)
            || b.provider_instance != self.inst)
    }
}

/// The outcome of an admission, as the contracts see it.
pub open spec fn admit_outcome(r: Result<TicketId, DepDeny>) -> Result<TicketId, DepDenyV> {
    match r {
        Ok(t) => Ok(t),
        Err(e) => Err(e@),
    }
}

/// The outcome of an acceptance, as the contracts see it.
pub open spec fn accept_outcome(r: Result<(), DepDeny>) -> Result<(), DepDenyV> {
    match r {
        Ok(_) => Ok(()),
        Err(e) => Err(e@),
    }
}

impl Kernel {
    fn issue_one(&mut self, logical: &str, cur: &ContextRecord, b: &Binding)
        ensures
            final(self)@ == old(self)@.issue_one(logical@, cur@, b@),
    {
        let (base, major) = deps::split_cap(&b.interface);
        let req = Requirement {
            interface: b.interface.clone(),
            base,
            major,
            provider: Some(b.provider_logical.clone()),
        };
        assert(req@ == binding_requirement(b@));
        let (capability, remote) = match self.definitions.get(&b.provider_logical) {
            None => return ,
            Some(d) => match find_satisfying(&d.caps, &req) {
                None => return ,
                Some(i) => {
                    assert(d.caps.deep_view()[i as int] == d.caps[i as int]@);
                    (d.caps[i].clone(), d.remote)
                },
            },
        };
        let n: u64 = self.dep_seq;
        let id = text::numbered(
            if remote {
                "rb-"
            } else {
                "bind-"
            },
            n,
        );
        self.dep_seq = num::bump(n);
        self.dep_bindings.insert(
            &id,
            DepBinding {
                id: id.clone(),
                consumer_logical: logical.to_owned(),
                consumer_instance: cur.instance,
                consumer_generation: cur.generation,
                consumer_context: cur.context,
                interface: b.interface.clone(),
                capability,
                provider_logical: b.provider_logical.clone(),
                provider_instance: InstanceId(b.provider_instance),
                provider_generation: b.provider_generation,
            },
        );
    }

    /// Issues one opaque handle per binding of an activation that became
    /// active.
    pub(crate) fn issue_dep_bindings(
        &mut self,
        logical: &str,
        inst: InstanceId,
        generation: u64,
        bindings: &Vec<Binding>,
    )
        ensures
            final(self)@ == old(self)@.issue_bindings(
                logical@,
                inst,
                generation,
                bindings.deep_view(),
            ),
    {
        let cur = match self.contexts.get_by_instance(inst) {
            Some(c) => c,
            None => return ,
        };
        if !text::same(&cur.logical, logical) || cur.generation != generation {
            return ;
        }
        let p = NotConsumer(inst);
        let _ = self.dep_bindings.retain(&p);
        assert((|b: DepBindingV| p.keeps(b)) =~= (|b: DepBindingV| b.consumer_instance != inst));
        let ghost bs = bindings.deep_view();
        let ghost k0 = self@;
        let mut i: usize = 0;
        proof {
            assert(bs.take(0) =~= Seq::<BindingV>::empty());
        }
        while i < bindings.len()
            invariant
                i <= bindings.len(),
                bs == bindings.deep_view(),
                self@ == k0.issue_each(logical@, cur@, bs.take(i as int)),
            decreases bindings.len() - i,
        {
            proof {
                assert(bs.take(i + 1).drop_last() =~= bs.take(i as int));
                assert(bs.take(i + 1).last() == bindings[i as int]@);
            }
            self.issue_one(logical, &cur, &bindings[i]);
            i += 1;
        }
        proof {
            assert(bs.take(bs.len() as int) =~= bs);
        }
    }

    pub(crate) fn prune_dep_bindings(&mut self, inst: InstanceId)
        ensures
            final(self)@ == old(self)@.prune_bindings(inst),
    {
        let p = NotInvolved { inst, remotes: &self.remote_providers };
        let ghost remotes = self@.remotes;
        let _ = self.dep_bindings.retain(&p);
        assert((|b: DepBindingV| p.keeps(b)) =~= (|b: DepBindingV|
            b.consumer_instance != inst && (remotes.dom().contains(b.provider_logical)
                || b.provider_instance != inst)));
    }

    pub(crate) fn prune_provider(&mut self, logical: &str)
        ensures
            final(self)@ == old(self)@.prune_provider(logical@),
    {
        let p = NotProvider(logical);
        let _ = self.dep_bindings.retain(&p);
        assert((|b: DepBindingV| p.keeps(b)) =~= (|b: DepBindingV|
            b.provider_logical != logical@));
    }

    /// The opaque handles of the consumer's current activation.
    pub fn dependency_bindings_of(&self, logical: &str) -> (r: Vec<DepBinding>)
        ensures
            forall|i: int|
                0 <= i < r.len() ==> self@.own_binding(logical@, (#[trigger] r[i])@)
                    && exists|k: Text| #[trigger]
                    self@.dep_bindings.dom().contains(k) && self@.dep_bindings[k] == r[i]@,
            forall|k: Text| #[trigger]
                self@.dep_bindings.dom().contains(k) && self@.own_binding(
                    logical@,
                    self@.dep_bindings[k],
                ) ==> r.deep_view().contains(self@.dep_bindings[k]),
            r.deep_view() == own_list(
                self@,
                logical@,
                text::in_order(self@.dep_bindings.dom()),
            ),
    {
        let n = self.dep_bindings.len();
        let ghost m = self@.dep_bindings;
        let ghost ks = text::in_order(m.dom());
        proof {
            text::in_order_sorted(m.dom());
            assert(ks.take(0) =~= Seq::<Text>::empty());
        }
        let cur = self.contexts.current(logical);
        let mut out: Vec<DepBinding> = Vec::new();
        let mut i: usize = 0;
        assert(out.deep_view() =~= Seq::<DepBindingV>::empty());
        while i < n
            invariant
                i <= n,
                n == ks.len(),
                m == self.dep_bindings@,
                ks == text::in_order(m.dom()),
                cur.deep_view() == self@.contexts.current_of(logical@),
                out.deep_view() == own_list(self@, logical@, ks.take(i as int)),
            decreases n - i,
        {
            proof {
                assert(ks.take(i + 1).drop_last() =~= ks.take(i as int));
                assert(ks.take(i + 1).last() == ks[i as int]);
            }
            let b = self.dep_bindings.value_at(i);
            let own = match &cur {
                Some(c) => text::same(&b.consumer_logical, logical) && b.consumer_instance
                    == c.instance && b.consumer_generation == c.generation,
                None => false,
            };
            if own {
                let ghost before = out.deep_view();
                out.push(b.copy());
                assert(out.deep_view() =~= before.push(b@));
            }
            i += 1;
        }
        proof {
            assert(ks.take(ks.len() as int) =~= ks);
            own_list_members(self@, logical@, ks);
            let s = out.deep_view();
            assert forall|i: int| 0 <= i < out.len() implies self@.own_binding(
                logical@,
                (#[trigger] out[i])@,
            ) && exists|k: Text| #[trigger] m.dom().contains(k) && m[k] == out[i]@ by {
                assert(s[i] == out[i]@);
                let k = choose|k: Text| ks.contains(k) && #[trigger] m[k] == s[i];
                assert(ks.to_set().contains(k));
                assert(m.dom().contains(k) && m[k] == out[i]@);
            }
            assert forall|k: Text| #[trigger]
                m.dom().contains(k) && self@.own_binding(logical@, m[k]) implies s.contains(
                m[k],
            ) by {
                assert(ks.to_set().contains(k));
            }
        }
        out
    }

    /// Grants `cap` to `consumer`. A new grant rotates the revision and
    /// revokes the children of older ones; returns the revision and what was
    /// revoked.
    pub fn grant_outbound(&mut self, consumer: &str, cap: &str) -> (r: (u64, Vec<TicketRecord>))
        ensures
            final(self)@ == old(self)@.grant_outbound(consumer@, cap@),
            r.0 == old(self)@.grant_seq,
            r.1.deep_view() == old(self)@.calls.ended_list(
                WhichV::Granted { consumer: consumer@, cap: cap@, keep_rev: Some(r.0) },
                TicketState::Cancelled,
                "grant-superseded"@,
            ),
    {
        let rev: u64 = self.grant_seq;
        self.grant_seq = num::bump(rev);
        let mut per: StrMap<u64> = match self.outbound_grants.remove(consumer) {
            Some(m) => m,
            None => StrMap::new(),
        };
        per.insert(cap, rev);
        self.outbound_grants.insert(consumer, per);
        proof {
            assert(self@.grants =~= old(self)@.grants.insert(
                consumer@,
                (if old(self)@.grants.dom().contains(consumer@) {
                    old(self)@.grants[consumer@]
                } else {
                    Map::empty()
                }).insert(cap@, rev),
            ));
        }
        let revoked = self.calls.revoke_grant_children(
            consumer,
            cap,
            Some(rev),
            "grant-superseded",
        );
        self.log_cancelled(&revoked, "grant-superseded");
        (rev, revoked)
    }

    /// Withdraws a grant and revokes the children under it; returns them.
    pub fn revoke_outbound(&mut self, consumer: &str, cap: &str) -> (r: Vec<TicketRecord>)
        ensures
            final(self)@ == old(self)@.revoke_outbound(consumer@, cap@),
            r.deep_view() == old(self)@.calls.ended_list(
                WhichV::Granted { consumer: consumer@, cap: cap@, keep_rev: None },
                TicketState::Cancelled,
                "grant-revoked"@,
            ),
    {
        if let Some(m) = self.outbound_grants.remove(consumer) {
            let mut m = m;
            let _ = m.remove(cap);
            self.outbound_grants.insert(consumer, m);
        }
        proof {
            assert(self@.grants =~= (if old(self)@.grants.dom().contains(consumer@) {
                old(self)@.grants.insert(consumer@, old(self)@.grants[consumer@].remove(cap@))
            } else {
                old(self)@.grants
            }));
        }
        let revoked = self.calls.revoke_grant_children(consumer, cap, None, "grant-revoked");
        self.log_cancelled(&revoked, "grant-revoked");
        revoked
    }

    fn parent_for(&self, req: &DepAdmit) -> (r: Result<TicketRecord, DepDeny>)
        ensures
            match r {
                Ok(t) => self@.parent_of(req@) == Ok::<TicketV, DepDenyV>(t@),
                Err(e) => self@.parent_of(req@) == Err::<TicketV, DepDenyV>(e@),
            },
    {
        let p = match self.calls.get(req.parent) {
            Some(p) => p,
            None => {
                let m = text::numbered("unknown parent tkt-", req.parent.0);
                return Err(deny("invalid-parent", &m));
            },
        };
        if p.state != TicketState::Admitted {
            let mut m = text::numbered("parent ", req.parent.0);
            m.append(" is ");
            m.append(p.state.as_str());
            return Err(deny("invalid-parent", &m));
        }
        if !text::same(&p.logical, &req.caller_logical) || p.instance != InstanceId(
            req.caller_instance,
        ) || p.generation != req.caller_generation {
            return Err(deny("invalid-parent", "parent owned by another activation"));
        }
        Ok(p)
    }

    fn binding_for(&self, req: &DepAdmit) -> (r: Result<DepBinding, DepDeny>)
        ensures
            match r {
                Ok(b) => self@.binding_for(req@) == Ok::<DepBindingV, DepDenyV>(b@),
                Err(e) => self@.binding_for(req@) == Err::<DepBindingV, DepDenyV>(e@),
            },
    {
        let b = match self.dep_bindings.get(&req.binding) {
            Some(b) => b.copy(),
            None => return Err(deny("dependency-unavailable", "unknown binding")),
        };
        if !text::same(&b.consumer_logical, &req.caller_logical) || b.consumer_instance
            != InstanceId(req.caller_instance) || b.consumer_generation
            != req.caller_generation {
            return Err(deny("invalid-parent", "binding of another activation"));
        }
        Ok(b)
    }

    fn consumer_for(&self, req: &DepAdmit) -> (r: Result<ContextRecord, DepDeny>)
        ensures
            match r {
                Ok(c) => self@.consumer_for(req@) == Ok::<ContextV, DepDenyV>(c@),
                Err(e) => self@.consumer_for(req@) == Err::<ContextV, DepDenyV>(e@),
            },
    {
        let c = match self.contexts.current(&req.caller_logical) {
            Some(c) => c,
            None => {
                let mut m = text::join2("consumer ", &req.caller_logical);
                m.append(" gone");
                return Err(deny("plugin-not-loaded", &m));
            },
        };
        if c.instance != InstanceId(req.caller_instance) || c.state.canonical() != Fsm::Active {
            return Err(deny("context-not-active", "consumer not active"));
        }
        if c.generation != req.caller_generation {
            return Err(deny("stale-generation", "consumer superseded"));
        }
        Ok(c)
    }

    fn provider_for(&self, b: &DepBinding, consumer: &ContextRecord) -> (r: Result<
        (ContextId, Option<String>),
        DepDeny,
    >)
        ensures
            match r {
                Ok(x) => self@.provider_for(b@, consumer@) == Ok::<
                    (ContextId, Option<Text>),
                    DepDenyV,
                >((x.0, x.1.deep_view())),
                Err(e) => self@.provider_for(b@, consumer@) == Err::<
                    (ContextId, Option<Text>),
                    DepDenyV,
                >(e@),
            },
    {
        if let Some(p) = self.contexts.current(&b.provider_logical) {
            if p.instance != b.provider_instance || p.generation != b.provider_generation
                || p.state.canonical() != Fsm::Active {
                return Err(
                    deny("dependency-unavailable", "provider reintroduced; binding stale"),
                );
            }
            return Ok((p.context, None));
        }
        let reg = match self.remote_providers.get(&b.provider_logical) {
            Some(g) => g,
            None => {
                let mut m = text::join2("provider ", &b.provider_logical);
                m.append(" gone");
                return Err(deny("dependency-unavailable", &m));
            },
        };
        if reg.instance != b.provider_instance.0 || reg.generation != b.provider_generation {
            return Err(deny("dependency-unavailable", "provider reintroduced; binding stale"));
        }
        let remote = match self.definitions.get(&b.provider_logical) {
            Some(d) => d.remote,
            None => false,
        };
        if !remote {
            return Err(deny("dependency-unavailable", "remote definition withdrawn"));
        }
        Ok((consumer.context, Some(reg.peer.clone())))
    }

    fn session_use(&self, session: &str) -> (r: u64)
        ensures
            r == self@.session_use(session@),
    {
        match self.dep_usage.per_session.get(session) {
            Some(n) => *n,
            None => 0,
        }
    }

    fn quota(&self, req: &DepAdmit, l: OutboundLimits) -> (r: Option<DepDeny>)
        ensures
            match r {
                Some(e) => self@.quota(req@, l) == Some(e@),
                None => self@.quota(req@, l) is None,
            },
    {
        if self.calls.ids(&calls::Which::ChildrenOf(req.parent)).len() as u64
            >= l.max_children_per_parent {
            return Some(deny("resource-exhausted", "too many children of parent"));
        }
        if self.session_use(&req.session) >= l.max_calls_per_session {
            return Some(deny("resource-exhausted", "too many dependency calls in session"));
        }
        if self.dep_usage.global >= l.max_calls_global {
            return Some(deny("resource-exhausted", "too many dependency calls"));
        }
        if self.calls.inflight_count() >= MAX_INFLIGHT_CALLS {
            return Some(deny("resource-exhausted", "too many in-flight calls"));
        }
        None
    }

    /// Admits a dependency call. Checks the parent (admitted, executed by
    /// the caller), the binding, both activations, the consumer's policy and
    /// depth, the operator's grant and the quotas; then reserves and
    /// registers in the same step. A denial changes nothing.
    pub fn dependency_admit(&mut self, req: &DepAdmit, now: Instant) -> (r: Result<
        TicketId,
        DepDeny,
    >)
        ensures
            final(self)@ == old(self)@.dependency_admit(req@, now).0,
            admit_outcome(r) == old(self)@.dependency_admit(req@, now).1,
    {
        if req.timeout_ms == 0 {
            return Err(deny("invalid-message", "timeout must be positive"));
        }
        if req.session.as_str().is_empty() || req.binding.as_str().is_empty() {
            return Err(deny("invalid-message", "session and binding required"));
        }
        let parent = match self.parent_for(req) {
            Ok(p) => p,
            Err(e) => return Err(e),
        };
        let b = match self.binding_for(req) {
            Ok(b) => b,
            Err(e) => return Err(e),
        };
        let consumer = match self.consumer_for(req) {
            Ok(c) => c,
            Err(e) => return Err(e),
        };
        let (context, peer) = match self.provider_for(&b, &consumer) {
            Ok(x) => x,
            Err(e) => return Err(e),
        };
        let limits = match self.definitions.get(&req.caller_logical) {
            Some(d) => match &d.outbound {
                Some(o) => o.limits,
                None => return Err(deny("permission-denied", "no outbound policy")),
            },
            None => return Err(deny("permission-denied", "no outbound policy")),
        };
        let depth: u32 = match &parent.dep {
            Some(p) => if p.depth < u32::MAX {
                p.depth + 1
            } else {
                0
            },
            None => 1,
        };
        if depth as u64 > limits.max_depth {
            return Err(deny("resource-exhausted", "max depth exceeded"));
        }
        let rev: u64 = match self.grant_of(&req.caller_logical, &b.capability) {
            Some(n) => n,
            None => {
                let mut m = text::join2("no operator grant for ", &req.caller_logical);
                m.append(" on ");
                m.append(&b.capability);
                return Err(deny("permission-denied", &m));
            },
        };
        if let Some(e) = self.quota(req, limits) {
            return Err(e);
        }
        let ghost a = DepAuthority {
            parent: parent@,
            binding: b@,
            context,
            peer: peer.deep_view(),
            limits,
            depth,
            rev,
        };
        assert(self@.dep_authority(req@) == Ok::<DepAuthority, DepDenyV>(a));
        let used: u64 = self.session_use(&req.session);
        self.dep_usage.per_session.insert(&req.session, used + 1);
        self.dep_usage.global = self.dep_usage.global + 1;
        let own = now.after_ms(limits.max_deadline_ms).earlier(now.after_ms(req.timeout_ms));
        let deadline = match parent.drain_until {
            Some(u) => own.earlier(u),
            None => own,
        };
        let epoch = self.contexts.epoch();
        let pins: Vec<crate::identity::ResourceHandle> = Vec::new();
        let id = self.calls.issue(
            &b.capability,
            &b.provider_logical,
            b.provider_instance,
            b.provider_generation,
            context,
            epoch,
            calls::CallPolicy::cancel(),
            pins,
            now,
        );
        let _ = self.calls.set_drain_until(id, deadline);
        let _ = self.calls.set_dep_meta(
            id,
            DepChild {
                parent: req.parent,
                binding: b.id.clone(),
                consumer: InstanceId(req.caller_instance),
                session: req.session.clone(),
                grant_consumer: req.caller_logical.clone(),
                grant_cap: b.capability.clone(),
                grant_rev: rev,
                depth,
                remote_peer: text::copy_opt(&peer),
            },
        );
        proof {
            let k = old(self)@;
            let t = k.child_ticket(req@, a, now);
            assert(pins@ =~= Seq::empty());
            assert(self@.calls.tickets =~= k.calls.issue(t).tickets);
        }
        let peer_name = match &peer {
            Some(p) => p.clone(),
            None => String::new(),
        };
        let args = Json::object().with("ticket", Json::num(id.0)).with(
            "parent",
            Json::num(req.parent.0),
        ).with("binding", Json::str(&b.id)).with("capability", Json::str(&b.capability)).with(
            "provider",
            Json::str(&b.provider_logical),
        ).with("depth", Json::num(depth as u64)).with("grant_rev", Json::num(rev)).with(
            "remote",
            Json::flag(peer.is_some()),
        ).with("peer", Json::str(&peer_name));
        self.log(&req.caller_logical, "dependency.admitted", args);
        Ok(id)
    }

    /// Accepts the result of a dependency call: checks its chain and commits
    /// it, once.
    pub fn dependency_accept(&mut self, child: TicketId, now: Instant) -> (r: Result<(), DepDeny>)
        ensures
            final(self)@ == old(self)@.dependency_accept(child, now).0,
            accept_outcome(r) == old(self)@.dependency_accept(child, now).1,
    {
        let t = match self.calls.get(child) {
            Some(t) => t,
            None => {
                let m = text::numbered("unknown child tkt-", child.0);
                return Err(deny("internal", &m));
            },
        };
        if let Some(e) = self.dep_chain_check(&t, "result", now) {
            return Err(chain_denial_of(&e));
        }
        if !self.calls.mark_committed_if_admitted(child) {
            let mut m = text::numbered("child tkt-", child.0);
            m.append(" revoked during accept");
            return Err(deny("cancelled", &m));
        }
        Ok(())
    }

    /// Expires an admitted child whose deadline passed, revokes its
    /// children, and tells whether it was admitted.
    pub fn dependency_timeout(&mut self, child: TicketId) -> (r: bool)
        ensures
            final(self)@ == old(self)@.dependency_timeout(child).0,
            r == old(self)@.dependency_timeout(child).1,
    {
        let logical = match self.calls.get(child) {
            Some(t) => t.logical,
            None => return false,
        };
        if !self.calls.expire_ticket(child) {
            return false;
        }
        self.log(
            &logical,
            "call.expired",
            crate::kernel::tickets::ticket_reason_json(child, "deadline-exceeded"),
        );
        self.revoke_ticket_descendants(child, "parent-expired");
        true
    }
}

/// The handles among `ks` that belong to the consumer's current activation.
pub open spec fn own_list(k: KernelV, logical: Text, ks: Seq<Text>) -> Seq<DepBindingV>
    decreases ks.len(),
{
    if ks.len() == 0 {
        Seq::empty()
    } else {
        let rest = own_list(k, logical, ks.drop_last());
        if k.own_binding(logical, k.dep_bindings[ks.last()]) {
            rest.push(k.dep_bindings[ks.last()])
        } else {
            rest
        }
    }
}

proof fn own_list_members(k: KernelV, logical: Text, ks: Seq<Text>)
    ensures
        forall|i: int|
            0 <= i < own_list(k, logical, ks).len() ==> k.own_binding(
                logical,
                #[trigger] own_list(k, logical, ks)[i],
            ) && exists|x: Text|
                ks.contains(x) && #[trigger] k.dep_bindings[x] == own_list(k, logical, ks)[i],
        forall|x: Text| #[trigger]
            ks.contains(x) && k.own_binding(logical, k.dep_bindings[x]) ==> own_list(
                k,
                logical,
                ks,
            ).contains(k.dep_bindings[x]),
    decreases ks.len(),
{
    if ks.len() > 0 {
        let a = ks.drop_last();
        let r = own_list(k, logical, a);
        let s = own_list(k, logical, ks);
        own_list_members(k, logical, a);
        assert forall|i: int| 0 <= i < s.len() implies k.own_binding(logical, #[trigger] s[i])
            && exists|x: Text| ks.contains(x) && #[trigger] k.dep_bindings[x] == s[i] by {
            if i < r.len() {
                assert(s[i] == r[i]);
                let x = choose|x: Text| a.contains(x) && #[trigger] k.dep_bindings[x] == r[i];
                let j = choose|j: int| 0 <= j < a.len() && a[j] == x;
                assert(ks[j] == x);
                assert(ks.contains(x) && k.dep_bindings[x] == s[i]);
            } else {
                assert(ks[ks.len() - 1] == ks.last());
                assert(ks.contains(ks.last()) && k.dep_bindings[ks.last()] == s[i]);
            }
        }
        assert forall|x: Text| #[trigger]
            ks.contains(x) && k.own_binding(logical, k.dep_bindings[x]) implies s.contains(
            k.dep_bindings[x],
        ) by {
            let j = choose|j: int| 0 <= j < ks.len() && ks[j] == x;
            if j < a.len() {
                assert(a[j] == x);
                assert(a.contains(x));
                let q = choose|q: int| 0 <= q < r.len() && r[q] == k.dep_bindings[x];
                assert(s[q] == k.dep_bindings[x]);
            } else {
                assert(s[s.len() - 1] == k.dep_bindings[x]);
            }
        }
    }
}

} // verus!
