//! The life of one instance: waiting with a visible reason, activation, and
//! withdrawal with bounded drains.

use vstd::prelude::*;
use vstd::string::*;
use crate::calls;
use crate::calls::{TicketId, TicketRecord, TicketState, TicketV, WhichV, WithdrawPolicy};
use crate::context::{ContextRecord, ContextV, DisposeClaim, DisposeClaimV};
use crate::deps;
use crate::deps::{Binding, BindingV, RequirementV};
use crate::external::{ExecutionKind, ExecutionV, LifecycleEvent, LifecycleV};
use crate::fsm::Fsm;
use crate::identity::{InstanceId, ResourceHandle};
use crate::json;
use crate::json::{Json, JsonV};
use crate::kernel::acquire;
use crate::kernel::resolve;
use crate::kernel::tickets;
use crate::kernel::{DisposeOutcome, DisposeOutcomeV, Kernel, KernelV, Plugin, PluginV};
use crate::manifest;
use crate::manifest::{ManifestV, StoredManifest};
use crate::resources;
use crate::text;
use crate::text::Text;
use crate::time::Instant;

verus! {

/// The state that a reducer starts in.
pub open spec fn initial_state(reducer: Text, init: JsonV) -> JsonV {
    if reducer == "counter"@ {
        JsonV::object().with("state"@, json::jnum(0))
    } else if reducer == "clock"@ {
        JsonV::object().with("count"@, json::jnum(0))
    } else {
        init
    }
}

pub(crate) fn initial_json_state(reducer: &str, init: &Json) -> (r: Json)
    ensures
        r@ == initial_state(reducer@, init@),
{
    if text::same(reducer, "counter") {
        Json::object().with("state", Json::num(0))
    } else if text::same(reducer, "clock") {
        Json::object().with("count", Json::num(0))
    } else {
        init.copy()
    }
}

/// Whether a state is worth keeping for the next generation of a reducer.
pub open spec fn keepsake(reducer: Text, state: JsonV) -> bool {
    ||| reducer == "counter"@ && state.get("state"@) is Some
    ||| reducer == "clock"@ && state.get("count"@) is Some
}

pub(crate) fn is_keepsake(reducer: &str, state: &Json) -> (r: bool)
    ensures
        r == keepsake(reducer@, state@),
{
    text::same(reducer, "counter") && state.get("state").is_some() || text::same(
        reducer,
        "clock",
    ) && state.get("count").is_some()
}

/// The interfaces of a requirement list.
pub open spec fn interfaces(reqs: Seq<RequirementV>) -> Seq<Text> {
    reqs.map_values(|r: RequirementV| r.interface)
}

fn interface_list(def: &StoredManifest) -> (r: Vec<String>)
    ensures
        r.deep_view() == interfaces(def@.requires),
{
    let ghost reqs = def@.requires;
    let mut out: Vec<String> = Vec::new();
    let mut i: usize = 0;
    while i < def.requires.len()
        invariant
            i <= def.requires.len(),
            reqs == def.requires.deep_view(),
            out.deep_view() == interfaces(reqs.take(i as int)),
        decreases def.requires.len() - i,
    {
        let ghost before = out.deep_view();
        out.push(def.requires[i].interface.clone());
        proof {
            assert(out.deep_view() =~= before.push(reqs[i as int].interface));
            assert(interfaces(reqs.take(i + 1)) =~= interfaces(reqs.take(i as int)).push(
                reqs[i as int].interface,
            ));
        }
        i += 1;
    }
    proof {
        assert(reqs.take(reqs.len() as int) =~= reqs);
    }
    out
}

/// One binding in the journal and in answers.
pub open spec fn binding_entry(b: BindingV) -> JsonV {
    JsonV::object().with("interface"@, json::jstr(b.interface)).with(
        "provider"@,
        json::jstr(b.provider_logical),
    ).with("instance"@, json::jnum(b.provider_instance)).with(
        "generation"@,
        json::jnum(b.provider_generation),
    )
}

pub open spec fn binding_entries(bs: Seq<BindingV>) -> JsonV {
    JsonV::Array(bs.map_values(|b: BindingV| binding_entry(b)))
}

pub(crate) fn binding_list(bs: &Vec<Binding>) -> (r: Json)
    ensures
        r@ == binding_entries(bs.deep_view()),
{
    let ghost s = bs.deep_view();
    let mut out: Vec<Json> = Vec::new();
    let mut i: usize = 0;
    while i < bs.len()
        invariant
            i <= bs.len(),
            s == bs.deep_view(),
            out.deep_view() == s.take(i as int).map_values(|b: BindingV| binding_entry(b)),
        decreases bs.len() - i,
    {
        let b = &bs[i];
        let ghost before = out.deep_view();
        let e = Json::object().with("interface", Json::str(&b.interface)).with(
            "provider",
            Json::str(&b.provider_logical),
        ).with("instance", Json::num(b.provider_instance)).with(
            "generation",
            Json::num(b.provider_generation),
        );
        out.push(e);
        proof {
            assert(out.deep_view() =~= before.push(binding_entry(s[i as int])));
            assert(s.take(i + 1).map_values(|b: BindingV| binding_entry(b)) =~= s.take(
                i as int,
            ).map_values(|b: BindingV| binding_entry(b)).push(binding_entry(s[i as int])));
        }
        i += 1;
    }
    proof {
        assert(s.take(s.len() as int) =~= s);
    }
    Json::list(out)
}

/// The entry of an instance of a definition.
pub open spec fn entry(
    def: ManifestV,
    ctx: ContextV,
    state: Fsm,
    bindings: Seq<BindingV>,
    cause: Option<Text>,
    json_state: JsonV,
    hs: Seq<ResourceHandle>,
) -> PluginV {
    PluginV {
        id: def.id,
        state,
        tier: def.tier,
        trust: def.trust,
        generation: ctx.generation,
        restart_policy: def.restart,
        caps: def.caps,
        subs: def.subs,
        requires: def.requires,
        bindings,
        calls: def.calls,
        execution: def.execution,
        wait_cause: cause,
        reducer: def.reducer,
        init_state: def.init_state,
        json_state,
        leases: Seq::empty(),
        panic_count: 0,
        restart_times: Seq::empty(),
        instance_id: ctx.instance.0,
        context_id: ctx.context.0,
        epoch: ctx.epoch,
        resources: hs,
    }
}

fn make_entry(
    def: &StoredManifest,
    ctx: &ContextRecord,
    state: Fsm,
    bindings: Vec<Binding>,
    cause: Option<String>,
    json_state: Json,
    hs: Vec<ResourceHandle>,
) -> (r: Plugin)
    ensures
        r@ == entry(
            def@,
            ctx@,
            state,
            bindings.deep_view(),
            cause.deep_view(),
            json_state@,
            hs@,
        ),
{
    let p = Plugin {
        id: def.id.clone(),
        state,
        tier: def.tier.clone(),
        trust: def.trust.clone(),
        generation: ctx.generation,
        restart_policy: def.restart.clone(),
        caps: text::copy_texts(&def.caps),
        subs: text::copy_texts(&def.subs),
        requires: deps::copy_requirements(&def.requires),
        bindings,
        calls: manifest::copy_policies(&def.calls),
        execution: def.execution.copy(),
        wait_cause: cause,
        reducer: def.reducer.clone(),
        init_state: def.init_state.copy(),
        json_state,
        leases: Vec::new(),
        panic_count: 0,
        restart_times: Vec::new(),
        instance_id: ctx.instance.0,
        context_id: ctx.context.0,
        epoch: ctx.epoch,
        resources: hs,
    };
    assert(p@.leases =~= Seq::empty());
    assert(p@.restart_times =~= Seq::empty());
    p
}

/// How a disposal begins: it is over, or drains have to be waited for.
pub enum Begun {
    Over(DisposeOutcome),
    Draining { rec: ContextRecord, until: Option<Instant> },
}

pub enum BegunV {
    Over(DisposeOutcomeV),
    Draining { rec: ContextV, until: Option<Instant> },
}

impl View for Begun {
    type V = BegunV;

    open spec fn view(&self) -> BegunV {
        match self {
            Begun::Over(o) => BegunV::Over(o@),
            Begun::Draining { rec, until } => BegunV::Draining { rec: rec@, until: *until },
        }
    }
}

impl KernelV {
    /// A waiting instance of a definition. It publishes nothing.
    pub open spec fn create_waiting(self, def: ManifestV, reason: Text) -> KernelV {
        let ctx = self.contexts.fresh(def.id, Fsm::Waiting, Some(reason));
        self.with_contexts(
            self.contexts.create(def.id, Fsm::Waiting, Some(reason)),
        ).with_plugin(
            def.id,
            entry(
                def,
                ctx,
                Fsm::Waiting,
                Seq::empty(),
                Some(reason),
                initial_state(def.reducer, def.init_state),
                Seq::empty(),
            ),
        ).log(
            def.id,
            "plugin.waiting"@,
            JsonV::object().with("id"@, json::jstr(def.id)).with(
                "instance"@,
                json::jnum(ctx.instance.0),
            ).with("context"@, json::jnum(ctx.context.0)).with(
                "generation"@,
                json::jnum(ctx.generation),
            ).with("reason"@, json::jstr(reason)).with(
                "requires"@,
                json::str_list(interfaces(def.requires)),
            ),
        )
    }

    /// The waiting instance with its reason: its entry rebuilt where it
    /// diverged, its reason renewed where another one holds.
    pub open spec fn keep_waiting(
        self,
        logical: Text,
        def: ManifestV,
        st: ContextV,
        reason: Text,
    ) -> (KernelV, bool) {
        if st.cause == Some(reason) {
            match self.plugin(logical) {
                Some(p) if p.state.canon() == Fsm::Waiting && p.wait_cause == Some(reason) => (
                    self,
                    false,
                ),
                _ => (
                    self.with_plugin(
                        logical,
                        entry(
                            def,
                            st,
                            Fsm::Waiting,
                            Seq::empty(),
                            Some(reason),
                            initial_state(def.reducer, def.init_state),
                            Seq::empty(),
                        ),
                    ),
                    true,
                ),
            }
        } else {
            let k = self.with_contexts(self.contexts.wait(st.instance.0, reason).0);
            let k2 = match k.plugin(logical) {
                Some(p) => k.with_plugin(
                    logical,
                    PluginV { state: Fsm::Waiting, wait_cause: Some(reason), ..p },
                ),
                None => k,
            };
            (
                k2.log(
                    logical,
                    "plugin.waiting"@,
                    JsonV::object().with("id"@, json::jstr(logical)).with(
                        "instance"@,
                        json::jnum(st.instance.0),
                    ).with("generation"@, json::jnum(st.generation)).with(
                        "reason"@,
                        json::jstr(reason),
                    ),
                ),
                true,
            )
        }
    }

    /// `logical` waiting for `reason`; an active, failed or parked instance
    /// stays as it is. Tells whether something changed.
    pub open spec fn ensure_waiting(self, logical: Text, def: ManifestV, reason: Text) -> (
        KernelV,
        bool,
    ) {
        match self.contexts.current_of(logical) {
            None => (self.create_waiting(def, reason), true),
            Some(st) => if st.state.is_waiting_like() {
                self.keep_waiting(logical, def, st, reason)
            } else if st.state.canon() == Fsm::Disposed {
                (self.create_waiting(def, reason), true)
            } else {
                (self, false)
            },
        }
    }

    /// `ensure_waiting` for the definition in force.
    pub open spec fn park(self, logical: Text, reason: Text) -> KernelV {
        match self.definition(logical) {
            None => self,
            Some(def) => self.ensure_waiting(logical, def, reason).0,
        }
    }

    /// The host hears of an activation that runs outside.
    pub open spec fn announce(self, logical: Text, ctx: ContextV) -> KernelV {
        match self.definition(logical) {
            Some(d) => match d.execution {
                ExecutionV::External { entrypoint, args, timeout_ms } => self.event(
                    LifecycleV::Activated {
                        logical,
                        instance: ctx.instance.0,
                        generation: ctx.generation,
                        entrypoint,
                        args,
                        timeout_ms,
                    },
                ),
                _ => self,
            },
            None => self,
        }
    }

    /// What follows the moment an instance became active.
    pub open spec fn activated(self, logical: Text, ctx: ContextV, bs: Seq<BindingV>) -> KernelV {
        self.log(
            logical,
            "plugin.active"@,
            JsonV::object().with("id"@, json::jstr(logical)).with(
                "instance"@,
                json::jnum(ctx.instance.0),
            ).with("generation"@, json::jnum(ctx.generation)).with(
                "bindings"@,
                binding_entries(bs),
            ),
        ).announce(logical, ctx).issue_bindings(logical, ctx.instance, ctx.generation, bs)
    }

    /// A waiting instance made active: resolved against the states at this
    /// moment, with all it declares acquired and published, or nothing.
    pub open spec fn promote(self, logical: Text, def: ManifestV) -> (KernelV, bool) {
        match self.contexts.current_of(logical) {
            Some(st) if st.state.is_waiting_like() => match resolve::resolved(
                logical,
                self.definitions,
                self.states(),
            ) {
                Err(e) => (self.park(logical, e.reason()), false),
                Ok(bs) => {
                    let (k, res) = self.acquire_definition(st, def);
                    match res {
                        Err(e) => (k.park(logical, "acquire failed: "@ + e), false),
                        Ok(hs) => match k.plugin(logical) {
                            Some(p) if p.instance_id == st.instance.0 => {
                                let k2 = k.with_plugin(
                                    logical,
                                    PluginV {
                                        state: Fsm::Active,
                                        bindings: bs,
                                        wait_cause: None,
                                        resources: hs,
                                        ..p
                                    },
                                );
                                let (cs, ok) = k2.contexts.activate(st.instance.0);
                                let k3 = k2.with_contexts(cs);
                                if ok {
                                    (k3.activated(logical, st, bs), true)
                                } else {
                                    (k3, false)
                                }
                            },
                            _ => (k.undo_back(st.instance, hs), false),
                        },
                    }
                },
            },
            _ => (self, false),
        }
    }

    /// A new active instance of a definition; where its resources cannot be
    /// acquired it is discarded, and a waiting one says why.
    pub open spec fn create_active(
        self,
        def: ManifestV,
        bs: Seq<BindingV>,
        json_state: JsonV,
        now: Instant,
    ) -> (KernelV, bool) {
        let ctx = self.contexts.fresh(def.id, Fsm::Active, None);
        let (k, res) = self.with_contexts(
            self.contexts.create(def.id, Fsm::Active, None),
        ).acquire_definition(ctx, def);
        match res {
            Ok(hs) => (
                k.with_plugin(
                    def.id,
                    entry(def, ctx, Fsm::Active, bs, None, json_state, hs),
                ).activated(def.id, ctx, bs),
                true,
            ),
            Err(e) => (
                k.dispose_now(ctx.instance, now).park(def.id, "acquire failed: "@ + e),
                false,
            ),
        }
    }

    /// What is left of a reducer's state for a new instance.
    pub open spec fn preserved(self, logical: Text, def: ManifestV) -> JsonV {
        match self.plugin(logical) {
            Some(p) if keepsake(def.reducer, p.json_state) => p.json_state,
            _ => initial_state(def.reducer, def.init_state),
        }
    }

    /// The publications of resources revoked; the ownership stays.
    pub open spec fn unpublish_each(self, hs: Seq<ResourceHandle>, rec: ContextV) -> KernelV
        decreases hs.len(),
    {
        if hs.len() == 0 {
            self
        } else {
            let k = self.unpublish_each(hs.drop_last(), rec);
            match self.resources.get(hs.last()) {
                Some(r) if r.owner_context == rec.context => k.unpublish(r.kind, rec.instance),
                _ => k,
            }
        }
    }

    /// The calls of a withdrawn instance: cancelled, or given until the end
    /// of their drain. Gives the latest such end.
    pub open spec fn withdraw_calls(self, logical: Text, ts: Seq<TicketV>, now: Instant) -> (
        KernelV,
        Option<Instant>,
    )
        decreases ts.len(),
    {
        if ts.len() == 0 {
            (self, None)
        } else {
            let (k, until) = self.withdraw_calls(logical, ts.drop_last(), now);
            let t = ts.last();
            match t.policy.on_withdraw {
                WithdrawPolicy::Cancel => (
                    if k.calls.admitted(t.id) {
                        k.with_calls(
                            k.calls.end(t.id, TicketState::Cancelled, "withdraw"@),
                        ).log(
                            logical,
                            "call.cancelled"@,
                            tickets::ticket_reason(t.id, "withdraw"@),
                        )
                    } else {
                        k
                    },
                    until,
                ),
                WithdrawPolicy::Drain => {
                    let u = now.later(t.policy.drain_ms);
                    (
                        k.with_calls(k.calls.set_drain_until(t.id, u)).log(
                            logical,
                            "call.draining"@,
                            JsonV::object().with("ticket"@, json::jnum(t.id.0)).with(
                                "drain_ms"@,
                                json::jnum(t.policy.drain_ms),
                            ),
                        ),
                        Some(
                            match until {
                                Some(x) => x.max(u),
                                None => u,
                            },
                        ),
                    )
                },
            }
        }
    }

    /// Begins to discard an instance: from here on nothing new is admitted.
    /// Only one disposal passes; others see it in progress or over.
    pub open spec fn begin_dispose(self, inst: InstanceId, now: Instant) -> (KernelV, BegunV) {
        match self.contexts.get(inst.0) {
            None => (self, BegunV::Over(DisposeOutcomeV::AlreadyDisposed)),
            Some(r) => match r.state.canon() {
                Fsm::Disposed | Fsm::Failed => (
                    self,
                    BegunV::Over(DisposeOutcomeV::AlreadyDisposed),
                ),
                Fsm::CleanupPending => (
                    self,
                    BegunV::Over(
                        DisposeOutcomeV::CleanupPending {
                            reason: match r.cause {
                                Some(c) => c,
                                None => "cleanup pending"@,
                            },
                        },
                    ),
                ),
                _ => {
                    let (cs, claim) = self.contexts.claim(inst.0);
                    let k = self.with_contexts(cs);
                    match claim {
                        Ok(DisposeClaimV::Fresh(rec)) => {
                            let k2 = k.plugin_to(
                                rec.logical,
                                inst,
                                Fsm::Quiescing,
                            ).prune_bindings(inst).event(
                                LifecycleV::Withdrawn {
                                    logical: rec.logical,
                                    instance: inst.0,
                                    generation: rec.generation,
                                },
                            );
                            let k3 = k2.unpublish_each(
                                resources::handles_in(k2.resources.slots, rec.context),
                                rec,
                            );
                            let (k4, until) = k3.withdraw_calls(
                                rec.logical,
                                calls::select(k3.calls.tickets, WhichV::Of(inst)),
                                now,
                            );
                            (k4, BegunV::Draining { rec, until })
                        },
                        Ok(DisposeClaimV::InFlight { .. }) => (
                            k,
                            BegunV::Over(
                                DisposeOutcomeV::CleanupPending {
                                    reason: "dispose in progress"@,
                                },
                            ),
                        ),
                        Err(_) => (k, BegunV::Over(DisposeOutcomeV::AlreadyDisposed)),
                    }
                },
            },
        }
    }

    /// Expired drains in the journal, each with its descendants revoked.
    pub open spec fn log_expired(self, logical: Text, ids: Seq<u64>) -> KernelV
        decreases ids.len(),
    {
        if ids.len() == 0 {
            self
        } else {
            self.log_expired(logical, ids.drop_last()).log(
                logical,
                "call.expired"@,
                tickets::ticket_reason(TicketId(ids.last()), "drain-exceeded"@),
            ).cancel_heirs(TicketId(ids.last()), "parent-expired"@)
        }
    }

    /// Parks an instance that cannot be disposed yet.
    pub open spec fn park_cleanup(self, rec: ContextV, reason: Text) -> KernelV {
        self.with_contexts(
            self.contexts.put(rec.instance.0, Fsm::CleanupPending, Some(reason)),
        ).plugin_to(rec.logical, rec.instance, Fsm::CleanupPending).log(
            rec.logical,
            "plugin.cleanup_pending"@,
            JsonV::object().with("id"@, json::jstr(rec.logical)).with(
                "instance"@,
                json::jnum(rec.instance.0),
            ).with("generation"@, json::jnum(rec.generation)).with(
                "reason"@,
                json::jstr(reason),
            ),
        )
    }

    /// Ends the disposal of an instance once its drains settled or are
    /// overdue. Live work parks it with its resources; else they are
    /// released, and it is disposed unless a release failed.
    pub open spec fn finish_dispose(self, rec: ContextV, now: Instant) -> (
        KernelV,
        DisposeOutcomeV,
    ) {
        let k = self.cancel_all(WhichV::AskedBy(rec.instance), "consumer-withdraw"@);
        let k2 = k.with_calls(
            k.calls.end_all(WhichV::Overdue(now), TicketState::Expired, "drain-exceeded"@),
        ).log_expired(rec.logical, calls::ids_of(k.calls.tickets, WhichV::Overdue(now)));
        let pending = calls::ids_of(k2.calls.tickets, WhichV::Of(rec.instance));
        if pending.len() > 0 {
            let reason = tickets::inflight_prefix() + text::listed(pending);
            (k2.park_cleanup(rec, reason), DisposeOutcomeV::CleanupPending { reason })
        } else {
            let (k3, failures) = k2.clean(rec);
            if failures.len() == 0 {
                (
                    k3.with_contexts(
                        k3.contexts.put(rec.instance.0, Fsm::Disposed, None),
                    ).plugin_disposed(rec.logical, rec.instance).log(
                        rec.logical,
                        "plugin.unloaded"@,
                        Self::unloaded_args(rec),
                    ),
                    DisposeOutcomeV::Disposed,
                )
            } else {
                let reason = text::joined(failures, "; "@);
                (k3.park_cleanup(rec, reason), DisposeOutcomeV::CleanupPending { reason })
            }
        }
    }

    /// A disposal that waits for nothing.
    pub open spec fn dispose_now(self, inst: InstanceId, now: Instant) -> KernelV {
        let (k, b) = self.begin_dispose(inst, now);
        match b {
            BegunV::Over(_) => k,
            BegunV::Draining { rec, .. } => k.finish_dispose(rec, now).0,
        }
    }
}

impl Kernel {
    /// Creates a waiting instance and its entry. It publishes nothing.
    pub(crate) fn create_waiting_instance(&mut self, def: &StoredManifest, reason: &str) -> (r:
        ContextRecord)
        ensures
            final(self)@ == old(self)@.create_waiting(def@, reason@),
            r@ == old(self)@.contexts.fresh(def@.id, Fsm::Waiting, Some(reason@)),
    {
        let ctx = self.contexts.create_waiting(&def.id, reason.to_owned());
        let bindings: Vec<Binding> = Vec::new();
        let hs: Vec<ResourceHandle> = Vec::new();
        assert(bindings.deep_view() =~= Seq::<BindingV>::empty());
        let p = make_entry(
            def,
            &ctx,
            Fsm::Waiting,
            bindings,
            Some(reason.to_owned()),
            initial_json_state(&def.reducer, &def.init_state),
            hs,
        );
        self.plugins.insert(&def.id, p);
        let needs = interface_list(def);
        let args = Json::object().with("id", Json::str(&def.id)).with(
            "instance",
            Json::num(ctx.instance.0),
        ).with("context", Json::num(ctx.context.0)).with(
            "generation",
            Json::num(ctx.generation),
        ).with("reason", Json::str(reason)).with("requires", Json::str_list(&needs));
        self.log(&def.id, "plugin.waiting", args);
        ctx
    }

    fn keep_waiting(
        &mut self,
        logical: &str,
        def: &StoredManifest,
        st: &ContextRecord,
        reason: &str,
    ) -> (r: bool)
        ensures
            final(self)@ == old(self)@.keep_waiting(logical@, def@, st@, reason@).0,
            r == old(self)@.keep_waiting(logical@, def@, st@, reason@).1,
    {
        let same = match &st.cause {
            Some(c) => text::same(c, reason),
            None => false,
        };
        if same {
            let synced = match self.plugins.get(logical) {
                Some(p) => p.state.canonical() == Fsm::Waiting && match &p.wait_cause {
                    Some(c) => text::same(c, reason),
                    None => false,
                },
                None => false,
            };
            if synced {
                return false;
            }
            let bindings: Vec<Binding> = Vec::new();
            let hs: Vec<ResourceHandle> = Vec::new();
            assert(bindings.deep_view() =~= Seq::<BindingV>::empty());
            let p = make_entry(
                def,
                st,
                Fsm::Waiting,
                bindings,
                Some(reason.to_owned()),
                initial_json_state(&def.reducer, &def.init_state),
                hs,
            );
            self.plugins.insert(logical, p);
            return true;
        }
        let _ = self.contexts.mark_waiting(st.instance, reason.to_owned());
        if let Some(p) = self.plugins.get(logical) {
            let mut p = p.copy();
            p.state = Fsm::Waiting;
            p.wait_cause = Some(reason.to_owned());
            self.plugins.insert(logical, p);
        }
        let args = Json::object().with("id", Json::str(logical)).with(
            "instance",
            Json::num(st.instance.0),
        ).with("generation", Json::num(st.generation)).with("reason", Json::str(reason));
        self.log(logical, "plugin.waiting", args);
        true
    }

    /// Makes `logical` wait for `reason`, unless it is active, failed or
    /// parked; tells whether something changed.
    pub(crate) fn ensure_waiting(&mut self, logical: &str, def: &StoredManifest, reason: &str) -> (r:
        bool)
        ensures
            final(self)@ == old(self)@.ensure_waiting(logical@, def@, reason@).0,
            r == old(self)@.ensure_waiting(logical@, def@, reason@).1,
    {
        match self.contexts.current(logical) {
            None => {
                let _ = self.create_waiting_instance(def, reason);
                true
            },
            Some(st) => {
                if st.state.waiting_like() {
                    self.keep_waiting(logical, def, &st, reason)
                } else if st.state.canonical() == Fsm::Disposed {
                    let _ = self.create_waiting_instance(def, reason);
                    true
                } else {
                    false
                }
            },
        }
    }

    fn park(&mut self, logical: &str, reason: &str)
        ensures
            final(self)@ == old(self)@.park(logical@, reason@),
    {
        if let Some(d) = self.definitions.get(logical) {
            let d = d.copy();
            let _ = self.ensure_waiting(logical, &d, reason);
        }
    }

    fn announce(&mut self, logical: &str, ctx: &ContextRecord)
        ensures
            final(self)@ == old(self)@.announce(logical@, ctx@),
    {
        let ev = match self.definitions.get(logical) {
            None => return ,
            Some(d) => match &d.execution {
                ExecutionKind::External { entrypoint, args, timeout_ms } => {
                    LifecycleEvent::Activated {
                        logical: logical.to_owned(),
                        instance: ctx.instance.0,
                        generation: ctx.generation,
                        entrypoint: entrypoint.clone(),
                        args: text::copy_texts(args),
                        timeout_ms: *timeout_ms,
                    }
                },
                _ => return ,
            },
        };
        self.emit_hook(ev);
    }

    fn activated(&mut self, logical: &str, ctx: &ContextRecord, bs: &Vec<Binding>)
        ensures
            final(self)@ == old(self)@.activated(logical@, ctx@, bs.deep_view()),
    {
        let args = Json::object().with("id", Json::str(logical)).with(
            "instance",
            Json::num(ctx.instance.0),
        ).with("generation", Json::num(ctx.generation)).with("bindings", binding_list(bs));
        self.log(logical, "plugin.active", args);
        self.announce(logical, ctx);
        self.issue_dep_bindings(logical, ctx.instance, ctx.generation, bs);
    }

    /// Promotes a waiting instance to active with resolved bindings: acquires,
    /// publishes and commits, or leaves a visible reason.
    pub(crate) fn promote_waiting(&mut self, logical: &str, def: &StoredManifest) -> (r: bool)
        ensures
            final(self)@ == old(self)@.promote(logical@, def@).0,
            r == old(self)@.promote(logical@, def@).1,
    {
        let st = match self.contexts.current(logical) {
            Some(c) => c,
            None => return false,
        };
        if !st.state.waiting_like() {
            return false;
        }
        let fresh = self.current_all_merged();
        let bs = match resolve::resolve_for(logical, &self.definitions, &fresh) {
            Ok(b) => b,
            Err(e) => {
                let reason = e.reason();
                self.park(logical, &reason);
                return false;
            },
        };
        let hs = match self.acquire_definition_resources(&st, def) {
            Ok(h) => h,
            Err(e) => {
                let reason = text::join2("acquire failed: ", &e);
                self.park(logical, &reason);
                return false;
            },
        };
        let p = match self.plugins.get(logical) {
            Some(p) => if p.instance_id == st.instance.0 {
                Some(p.copy())
            } else {
                None
            },
            None => None,
        };
        match p {
            None => {
                self.rollback_acquired(st.instance, &hs);
                false
            },
            Some(mut p) => {
                p.state = Fsm::Active;
                p.bindings = deps::copy_bindings(&bs);
                p.wait_cause = None;
                p.resources = hs;
                self.plugins.insert(logical, p);
                if self.contexts.mark_active(st.instance) {
                    self.activated(logical, &st, &bs);
                    true
                } else {
                    false
                }
            },
        }
    }

    /// Creates and activates a new instance.
    pub(crate) fn create_active(
        &mut self,
        def: &StoredManifest,
        bs: &Vec<Binding>,
        json_state: Json,
        now: Instant,
    ) -> (r: bool)
        ensures
            final(self)@ == old(self)@.create_active(def@, bs.deep_view(), json_state@, now).0,
            r == old(self)@.create_active(def@, bs.deep_view(), json_state@, now).1,
    {
        let ctx = self.contexts.create(&def.id);
        match self.acquire_definition_resources(&ctx, def) {
            Ok(hs) => {
                let p = make_entry(
                    def,
                    &ctx,
                    Fsm::Active,
                    deps::copy_bindings(bs),
                    None,
                    json_state,
                    hs,
                );
                self.plugins.insert(&def.id, p);
                self.activated(&def.id, &ctx, bs);
                true
            },
            Err(e) => {
                self.dispose_now(ctx.instance, now);
                let reason = text::join2("acquire failed: ", &e);
                self.park(&def.id, &reason);
                false
            },
        }
    }

    /// What is left of a reducer's state for a new instance.
    pub(crate) fn preserved_json_state(&self, logical: &str, def: &StoredManifest) -> (r: Json)
        ensures
            r@ == self@.preserved(logical@, def@),
    {
        if let Some(p) = self.plugins.get(logical) {
            if is_keepsake(&def.reducer, &p.json_state) {
                return p.json_state.copy();
            }
        }
        initial_json_state(&def.reducer, &def.init_state)
    }

    fn unpublish_each(&mut self, handles: &Vec<ResourceHandle>, rec: &ContextRecord)
        ensures
            final(self)@ == old(self)@.unpublish_each(handles@, rec@),
    {
        let ghost hs = handles@;
        let ghost k0 = self@;
        let mut i: usize = 0;
        proof {
            assert(hs.take(0) =~= Seq::<ResourceHandle>::empty());
        }
        while i < handles.len()
            invariant
                i <= handles.len(),
                hs == handles@,
                self@ == k0.unpublish_each(hs.take(i as int), rec@),
                self@.resources == k0.resources,
            decreases handles.len() - i,
        {
            proof {
                assert(hs.take(i + 1).drop_last() =~= hs.take(i as int));
            }
            if let Some(r) = self.resources.record(handles[i]) {
                if r.owner_context == rec.context {
                    self.unpublish(&r.kind, rec.instance);
                }
            }
            i += 1;
        }
        proof {
            assert(hs.take(hs.len() as int) =~= hs);
        }
    }

    fn withdraw_calls(&mut self, logical: &str, ts: &Vec<TicketRecord>, now: Instant) -> (r: Option<
        Instant,
    >)
        ensures
            final(self)@ == old(self)@.withdraw_calls(logical@, ts.deep_view(), now).0,
            r == old(self)@.withdraw_calls(logical@, ts.deep_view(), now).1,
    {
        let ghost s = ts.deep_view();
        let ghost k0 = self@;
        let mut until: Option<Instant> = None;
        let mut i: usize = 0;
        proof {
            assert(s.take(0) =~= Seq::<TicketV>::empty());
        }
        while i < ts.len()
            invariant
                i <= ts.len(),
                s == ts.deep_view(),
                self@ == k0.withdraw_calls(logical@, s.take(i as int), now).0,
                until == k0.withdraw_calls(logical@, s.take(i as int), now).1,
            decreases ts.len() - i,
        {
            proof {
                assert(s.take(i + 1).drop_last() =~= s.take(i as int));
                assert(s.take(i + 1).last() == ts[i as int]@);
            }
            let id = ts[i].id;
            match ts[i].policy.on_withdraw {
                WithdrawPolicy::Cancel => {
                    let ghost before = self@.calls;
                    if self.calls.cancel(id, "withdraw") {
                        self.log(
                            logical,
                            "call.cancelled",
                            tickets::ticket_reason_json(id, "withdraw"),
                        );
                    } else {
                        assert(before.end(id, TicketState::Cancelled, "withdraw"@) == before);
                    }
                },
                WithdrawPolicy::Drain => {
                    let drain_ms: u64 = ts[i].policy.drain_ms;
                    let u = now.after_ms(drain_ms);
                    let _ = self.calls.set_drain_until(id, u);
                    let args = Json::object().with("ticket", Json::num(id.0)).with(
                        "drain_ms",
                        Json::num(drain_ms),
                    );
                    self.log(logical, "call.draining", args);
                    until = Some(
                        match until {
                            Some(x) => x.later_of(u),
                            None => u,
                        },
                    );
                },
            }
            i += 1;
        }
        proof {
            assert(s.take(s.len() as int) =~= s);
        }
        until
    }

    /// Begins to discard an instance: claims it, revokes its publications and
    /// its bindings, and cancels or drains its calls.
    pub(crate) fn begin_dispose(&mut self, inst: InstanceId, now: Instant) -> (r: Begun)
        ensures
            final(self)@ == old(self)@.begin_dispose(inst, now).0,
            r@ == old(self)@.begin_dispose(inst, now).1,
    {
        let rec = match self.contexts.get_by_instance(inst) {
            Some(r) => r,
            None => return Begun::Over(DisposeOutcome::AlreadyDisposed),
        };
        match rec.state.canonical() {
            Fsm::Disposed | Fsm::Failed => return Begun::Over(DisposeOutcome::AlreadyDisposed),
            Fsm::CleanupPending => {
                let reason = match rec.cause {
                    Some(c) => c,
                    None => "cleanup pending".to_owned(),
                };
                return Begun::Over(DisposeOutcome::CleanupPending { reason });
            },
            _ => {},
        }
        let rec = match self.contexts.claim_dispose(inst) {
            Ok(DisposeClaim::Fresh(r)) => r,
            Ok(DisposeClaim::InFlight { .. }) => {
                return Begun::Over(
                    DisposeOutcome::CleanupPending { reason: "dispose in progress".to_owned() },
                );
            },
            Err(_) => return Begun::Over(DisposeOutcome::AlreadyDisposed),
        };
        self.plugin_to(&rec.logical, inst, Fsm::Quiescing);
        self.prune_dep_bindings(inst);
        self.emit_hook(
            LifecycleEvent::Withdrawn {
                logical: rec.logical.clone(),
                instance: inst.0,
                generation: rec.generation,
            },
        );
        let handles = self.resources.handles_for(rec.context);
        self.unpublish_each(&handles, &rec);
        let ts = self.calls.pending_for(inst);
        let until = self.withdraw_calls(&rec.logical, &ts, now);
        Begun::Draining { rec, until }
    }

    fn log_expired(&mut self, logical: &str, ids: &Vec<TicketId>, Ghost(ns): Ghost<Seq<u64>>)
        requires
            ids@ == ns.map_values(|n: u64| TicketId(n)),
        ensures
            final(self)@ == old(self)@.log_expired(logical@, ns),
    {
        let ghost k0 = self@;
        let mut i: usize = 0;
        proof {
            assert(ns.take(0) =~= Seq::<u64>::empty());
        }
        while i < ids.len()
            invariant
                i <= ids.len(),
                ids@ == ns.map_values(|n: u64| TicketId(n)),
                self@ == k0.log_expired(logical@, ns.take(i as int)),
            decreases ids.len() - i,
        {
            proof {
                assert(ns.take(i + 1).drop_last() =~= ns.take(i as int));
                assert(ids[i as int] == TicketId(ns[i as int]));
            }
            self.log(
                logical,
                "call.expired",
                tickets::ticket_reason_json(ids[i], "drain-exceeded"),
            );
            self.revoke_ticket_descendants(ids[i], "parent-expired");
            i += 1;
        }
        proof {
            assert(ns.take(ns.len() as int) =~= ns);
        }
    }

    fn park_cleanup(&mut self, rec: &ContextRecord, reason: &str)
        ensures
            final(self)@ == old(self)@.park_cleanup(rec@, reason@),
    {
        self.contexts.mark_cleanup_pending(rec.instance, reason.to_owned());
        self.plugin_to(&rec.logical, rec.instance, Fsm::CleanupPending);
        let args = Json::object().with("id", Json::str(&rec.logical)).with(
            "instance",
            Json::num(rec.instance.0),
        ).with("generation", Json::num(rec.generation)).with("reason", Json::str(reason));
        self.log(&rec.logical, "plugin.cleanup_pending", args);
    }

    /// Ends the disposal of an instance once its drains settled or are
    /// overdue.
    pub(crate) fn finish_dispose(&mut self, rec: &ContextRecord, now: Instant) -> (r:
        DisposeOutcome)
        ensures
            final(self)@ == old(self)@.finish_dispose(rec@, now).0,
            r@ == old(self)@.finish_dispose(rec@, now).1,
    {
        let revoked = self.calls.revoke_children_of_consumer(rec.instance, "consumer-withdraw");
        self.log_cancelled(&revoked, "consumer-withdraw");
        let ghost ns = calls::ids_of(self@.calls.tickets, WhichV::Overdue(now));
        let expired = self.calls.expire_overdue(now);
        self.log_expired(&rec.logical, &expired, Ghost(ns));
        let pending = self.ticket_numbers(rec.instance);
        if pending.len() > 0 {
            let list = text::list_text(&pending);
            let reason = text::join2("in-flight calls pending: ", &list);
            self.park_cleanup(rec, &reason);
            return DisposeOutcome::CleanupPending { reason };
        }
        let failures = self.release_context_resources(rec);
        if failures.len() == 0 {
            self.contexts.mark_disposed(rec.instance);
            self.plugin_disposed(&rec.logical, rec.instance);
            let args = tickets::unloaded_json(rec);
            self.log(&rec.logical, "plugin.unloaded", args);
            DisposeOutcome::Disposed
        } else {
            let reason = text::join(&failures, "; ");
            self.park_cleanup(rec, &reason);
            DisposeOutcome::CleanupPending { reason }
        }
    }

    /// A disposal that waits for nothing: for an instance that no call has
    /// reached.
    pub(crate) fn dispose_now(&mut self, inst: InstanceId, now: Instant)
        ensures
            final(self)@ == old(self)@.dispose_now(inst, now),
    {
        if let Begun::Draining { rec, .. } = self.begin_dispose(inst, now) {
            let _ = self.finish_dispose(&rec, now);
        }
    }
}

} // verus!
