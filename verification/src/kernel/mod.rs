//! The kernel: local composition with reactive dependencies.
//!
//! - Identity per instance: instance, context, generation, epoch.
//! - Owned resources with exactly-once disposal.
//! - Reactive requirements: `Waiting` while dependencies are missing,
//!   activation in topological order, rejection of cycles and ambiguity,
//!   withdraw of consumers and reactivation in new instances when a provider
//!   returns.
//! - Calls under tickets, dependency calls under operator grants.
//!
//! Every operation is one step of a state machine: it takes the state, the
//! clock reading and what was observed outside, and leaves the next state.
//! Whoever shares a kernel between threads runs the steps one at a time, so
//! what a step checks still holds when it acts. Work that has to wait for
//! calls to drain is a [`jobs::Job`], advanced step by step.

use vstd::prelude::*;
use vstd::string::*;
use crate::bus::{Bus, Topics};
use crate::calls;
use crate::calls::{CallPolicy, CallsTable, CallsV, CommittedEffect, TicketRecord, WhichV};
use crate::context::{ContextRecord, ContextTable, ContextV, ContextsV};
use crate::deps;
use crate::deps::{Binding, BindingV, Requirement, RequirementV};
use crate::external::{ExecutionKind, ExecutionV, LifecycleEvent, LifecycleV};
use crate::fsm::Fsm;
use crate::identity::{ContextId, InstanceId, InstanceRef, InstanceRefV, ResourceHandle};
use crate::journal::{Journal, JournalV};
use crate::json::{Json, JsonV};
use crate::leases::Lease;
use crate::manifest;
use crate::manifest::{ManifestV, OutboundPolicy, StoredManifest};
use crate::registry::{Caps, Registry};
use crate::resources;
use crate::resources::{ResourceTable, ResourcesV};
use crate::strmap::StrMap;
use crate::text;
use crate::text::Text;
use crate::time::Instant;

pub mod accounts;
pub mod acquire;
pub mod answers;
pub mod bounded;
pub mod changes;
pub mod dependency;
pub mod dispatch;
pub mod holdings;
pub mod inventory;
pub mod jobs;
pub mod laws;
pub mod lifecycle;
pub mod lifetimes;
pub mod notices;
pub mod operations;
pub mod outcomes;
pub mod queries;
pub mod reconcile;
pub mod refusals;
pub mod reload;
pub mod resolve;
pub mod showing;
pub mod stable;
pub mod tickets;
pub mod validity;

pub use crate::manifest::parse_manifest_value;
pub use dependency::{DepAdmit, DepDeny};
pub use tickets::OpenCall;

verus! {

/// Cap on the resources of one context, those of its activation included.
pub const MAX_EXTERNAL_RESOURCES_PER_CONTEXT: usize = 64;

/// Opaque binding handle issued at activation.
///
/// It binds the consumer's complete activation to the resolved requirement
/// and the provider's complete activation, with the exact capability. The id
/// (`bind-N` local, `rb-N` remote) carries no semantics: knowing it
/// authorizes nothing, since admission checks everything again. A new
/// activation on either side invalidates the handle.
#[derive(Debug)]
pub struct DepBinding {
    pub id: String,
    pub consumer_logical: String,
    pub consumer_instance: InstanceId,
    pub consumer_generation: u64,
    pub consumer_context: ContextId,
    pub interface: String,
    pub capability: String,
    pub provider_logical: String,
    pub provider_instance: InstanceId,
    pub provider_generation: u64,
}

pub struct DepBindingV {
    pub id: Text,
    pub consumer_logical: Text,
    pub consumer_instance: InstanceId,
    pub consumer_generation: u64,
    pub consumer_context: ContextId,
    pub interface: Text,
    pub capability: Text,
    pub provider_logical: Text,
    pub provider_instance: InstanceId,
    pub provider_generation: u64,
}

impl View for DepBinding {
    type V = DepBindingV;

    open spec fn view(&self) -> DepBindingV {
        DepBindingV {
            id: self.id@,
            consumer_logical: self.consumer_logical@,
            consumer_instance: self.consumer_instance,
            consumer_generation: self.consumer_generation,
            consumer_context: self.consumer_context,
            interface: self.interface@,
            capability: self.capability@,
            provider_logical: self.provider_logical@,
            provider_instance: self.provider_instance,
            provider_generation: self.provider_generation,
        }
    }
}

impl DeepView for DepBinding {
    type V = DepBindingV;

    open spec fn deep_view(&self) -> DepBindingV {
        self@
    }
}

impl DepBinding {
    pub fn copy(&self) -> (r: DepBinding)
        ensures
            r@ == self@,
    {
        DepBinding {
            id: self.id.clone(),
            consumer_logical: self.consumer_logical.clone(),
            consumer_instance: self.consumer_instance,
            consumer_generation: self.consumer_generation,
            consumer_context: self.consumer_context,
            interface: self.interface.clone(),
            capability: self.capability.clone(),
            provider_logical: self.provider_logical.clone(),
            provider_instance: self.provider_instance,
            provider_generation: self.provider_generation,
        }
    }
}

/// Reservations of child quotas by session and in all. What a parent has
/// open follows from the tickets.
pub struct DepUsage {
    pub per_session: StrMap<u64>,
    pub global: u64,
}

#[verifier::ext_equal]
pub struct UsageV {
    pub per_session: Map<Text, u64>,
    pub global: u64,
}

impl View for DepUsage {
    type V = UsageV;

    open spec fn view(&self) -> UsageV {
        UsageV { per_session: self.per_session@, global: self.global }
    }
}

/// Registration of a remote provider: the attested activation on the
/// executor's side for a remote-only definition.
#[derive(Debug)]
pub struct RemoteProvider {
    pub logical: String,
    pub instance: u64,
    pub generation: u64,
    /// Route key: name of the executor peer.
    pub peer: String,
}

pub struct RemoteV {
    pub logical: Text,
    pub instance: u64,
    pub generation: u64,
    pub peer: Text,
}

impl View for RemoteProvider {
    type V = RemoteV;

    open spec fn view(&self) -> RemoteV {
        RemoteV {
            logical: self.logical@,
            instance: self.instance,
            generation: self.generation,
            peer: self.peer@,
        }
    }
}

impl DeepView for RemoteProvider {
    type V = RemoteV;

    open spec fn deep_view(&self) -> RemoteV {
        self@
    }
}

impl RemoteProvider {
    pub fn copy(&self) -> (r: RemoteProvider)
        ensures
            r@ == self@,
    {
        RemoteProvider {
            logical: self.logical.clone(),
            instance: self.instance,
            generation: self.generation,
            peer: self.peer.clone(),
        }
    }
}

/// What the kernel knows of a logical id's latest instance.
pub struct Plugin {
    pub id: String,
    pub state: Fsm,
    pub tier: String,
    pub trust: String,
    pub generation: u64,
    pub restart_policy: String,
    pub caps: Vec<String>,
    pub subs: Vec<String>,
    /// Declared requirements, as in the definition.
    pub requires: Vec<Requirement>,
    /// Bindings resolved for the current instance.
    pub bindings: Vec<Binding>,
    /// Per-operation policy in force on this instance.
    pub calls: StrMap<CallPolicy>,
    pub execution: ExecutionKind,
    /// Visible reason while `Waiting`.
    pub wait_cause: Option<String>,
    pub reducer: String,
    pub init_state: Json,
    pub json_state: Json,
    /// Kept for adapters; ownership lives in the resource table.
    pub leases: Vec<Lease>,
    pub panic_count: u32,
    pub restart_times: Vec<Instant>,
    pub instance_id: u64,
    pub context_id: u64,
    pub epoch: u64,
    /// Handles acquired by the instance, in acquisition order.
    pub resources: Vec<ResourceHandle>,
}

pub struct PluginV {
    pub id: Text,
    pub state: Fsm,
    pub tier: Text,
    pub trust: Text,
    pub generation: u64,
    pub restart_policy: Text,
    pub caps: Seq<Text>,
    pub subs: Seq<Text>,
    pub requires: Seq<RequirementV>,
    pub bindings: Seq<BindingV>,
    pub calls: Map<Text, CallPolicy>,
    pub execution: ExecutionV,
    pub wait_cause: Option<Text>,
    pub reducer: Text,
    pub init_state: JsonV,
    pub json_state: JsonV,
    pub leases: Seq<Lease>,
    pub panic_count: u32,
    pub restart_times: Seq<Instant>,
    pub instance_id: u64,
    pub context_id: u64,
    pub epoch: u64,
    pub resources: Seq<ResourceHandle>,
}

impl View for Plugin {
    type V = PluginV;

    open spec fn view(&self) -> PluginV {
        PluginV {
            id: self.id@,
            state: self.state,
            tier: self.tier@,
            trust: self.trust@,
            generation: self.generation,
            restart_policy: self.restart_policy@,
            caps: self.caps.deep_view(),
            subs: self.subs.deep_view(),
            requires: self.requires.deep_view(),
            bindings: self.bindings.deep_view(),
            calls: self.calls@,
            execution: self.execution@,
            wait_cause: self.wait_cause.deep_view(),
            reducer: self.reducer@,
            init_state: self.init_state@,
            json_state: self.json_state@,
            leases: self.leases@,
            panic_count: self.panic_count,
            restart_times: self.restart_times@,
            instance_id: self.instance_id,
            context_id: self.context_id,
            epoch: self.epoch,
            resources: self.resources@,
        }
    }
}

impl DeepView for Plugin {
    type V = PluginV;

    open spec fn deep_view(&self) -> PluginV {
        self@
    }
}

fn copy_leases(v: &Vec<Lease>) -> (r: Vec<Lease>)
    ensures
        r@ == v@,
{
    let mut r: Vec<Lease> = Vec::new();
    let mut i: usize = 0;
    while i < v.len()
        invariant
            i <= v.len(),
            r@ =~= v@.take(i as int),
        decreases v.len() - i,
    {
        r.push(v[i].copy());
        i += 1;
    }
    r
}

/// A copy of a list of clock readings.
pub fn copy_instants(v: &Vec<Instant>) -> (r: Vec<Instant>)
    ensures
        r@ == v@,
{
    let mut r: Vec<Instant> = Vec::new();
    let mut i: usize = 0;
    while i < v.len()
        invariant
            i <= v.len(),
            r@ =~= v@.take(i as int),
        decreases v.len() - i,
    {
        r.push(v[i]);
        i += 1;
    }
    r
}

impl PluginV {
    pub open spec fn instance_ref(self) -> InstanceRefV {
        InstanceRefV {
            epoch: self.epoch,
            instance: self.instance_id,
            context: self.context_id,
            logical: self.id,
            generation: self.generation,
        }
    }
}

impl Plugin {
    pub fn restart_policy_str(&self) -> (r: &str)
        ensures
            r@ == self@.restart_policy,
    {
        &self.restart_policy
    }

    pub fn instance_ref(&self) -> (r: InstanceRef)
        ensures
            r@ == self@.instance_ref(),
    {
        InstanceRef::new(
            self.epoch,
            self.instance_id,
            self.context_id,
            &self.id,
            self.generation,
        )
    }

    pub fn copy(&self) -> (r: Plugin)
        ensures
            r@ == self@,
    {
        Plugin {
            id: self.id.clone(),
            state: self.state,
            tier: self.tier.clone(),
            trust: self.trust.clone(),
            generation: self.generation,
            restart_policy: self.restart_policy.clone(),
            caps: text::copy_texts(&self.caps),
            subs: text::copy_texts(&self.subs),
            requires: deps::copy_requirements(&self.requires),
            bindings: deps::copy_bindings(&self.bindings),
            calls: manifest::copy_policies(&self.calls),
            execution: self.execution.copy(),
            wait_cause: text::copy_opt(&self.wait_cause),
            reducer: self.reducer.clone(),
            init_state: self.init_state.copy(),
            json_state: self.json_state.copy(),
            leases: copy_leases(&self.leases),
            panic_count: self.panic_count,
            restart_times: copy_instants(&self.restart_times),
            instance_id: self.instance_id,
            context_id: self.context_id,
            epoch: self.epoch,
            resources: calls::copy_handles(&self.resources),
        }
    }
}

/// How a disposal ended.
#[derive(Debug)]
pub enum DisposeOutcome {
    Disposed,
    AlreadyDisposed,
    CleanupPending { reason: String },
}

pub enum DisposeOutcomeV {
    Disposed,
    AlreadyDisposed,
    CleanupPending { reason: Text },
}

impl View for DisposeOutcome {
    type V = DisposeOutcomeV;

    open spec fn view(&self) -> DisposeOutcomeV {
        match self {
            DisposeOutcome::Disposed => DisposeOutcomeV::Disposed,
            DisposeOutcome::AlreadyDisposed => DisposeOutcomeV::AlreadyDisposed,
            DisposeOutcome::CleanupPending { reason } => DisposeOutcomeV::CleanupPending {
                reason: reason@,
            },
        }
    }
}

impl DeepView for DisposeOutcome {
    type V = DisposeOutcomeV;

    open spec fn deep_view(&self) -> DisposeOutcomeV {
        self@
    }
}

impl DisposeOutcome {
    pub fn as_str(&self) -> (r: &'static str)
        ensures
            r@ == match self@ {
                DisposeOutcomeV::Disposed => "Disposed"@,
                DisposeOutcomeV::AlreadyDisposed => "AlreadyDisposed"@,
                DisposeOutcomeV::CleanupPending { .. } => "CleanupPending"@,
            },
    {
        match self {
            DisposeOutcome::Disposed => "Disposed",
            DisposeOutcome::AlreadyDisposed => "AlreadyDisposed",
            DisposeOutcome::CleanupPending { .. } => "CleanupPending",
        }
    }
}

/// Operator grants: consumer to capability to revision.
pub type Grants = Map<Text, Map<Text, u64>>;

pub struct Kernel {
    pub plugins: StrMap<Plugin>,
    pub caps: Registry,
    pub bus: Bus,
    pub journal: Journal,
    pub dry_run: bool,
    pub contexts: ContextTable,
    pub resources: ResourceTable,
    /// Desired definitions. A cascading withdraw keeps them; explicit removal
    /// deletes them.
    pub definitions: StrMap<StoredManifest>,
    /// In-flight calls and confirmed effects.
    pub calls: CallsTable,
    /// Whether a deliverer of external calls is registered.
    pub forwarder: bool,
    /// Opaque binding handles by id.
    pub dep_bindings: StrMap<DepBinding>,
    /// Sequence of binding ids.
    pub dep_seq: u64,
    /// Operator grants: consumer to capability to revision. Independent of
    /// what a manifest requests.
    pub outbound_grants: StrMap<StrMap<u64>>,
    /// Attested activations of remote-only definitions.
    pub remote_providers: StrMap<RemoteProvider>,
    /// Sequence of grant revisions.
    pub grant_seq: u64,
    /// Reservations of child quotas.
    pub dep_usage: DepUsage,
    /// Lifecycle events for the host, oldest first.
    pub events: Vec<LifecycleEvent>,
}

/// The kernel's state.
#[verifier::ext_equal]
pub struct KernelV {
    pub plugins: Map<Text, PluginV>,
    pub caps: Caps,
    pub topics: Topics,
    pub journal: JournalV,
    pub dry_run: bool,
    pub contexts: ContextsV,
    pub resources: ResourcesV,
    pub definitions: Map<Text, ManifestV>,
    pub calls: CallsV,
    pub forwarder: bool,
    pub dep_bindings: Map<Text, DepBindingV>,
    pub dep_seq: u64,
    pub grants: Grants,
    pub remotes: Map<Text, RemoteV>,
    pub grant_seq: u64,
    pub usage: UsageV,
    pub events: Seq<LifecycleV>,
}

impl View for Kernel {
    type V = KernelV;

    open spec fn view(&self) -> KernelV {
        KernelV {
            plugins: self.plugins@,
            caps: self.caps@,
            topics: self.bus@,
            journal: self.journal@,
            dry_run: self.dry_run,
            contexts: self.contexts@,
            resources: self.resources@,
            definitions: self.definitions@,
            calls: self.calls@,
            forwarder: self.forwarder,
            dep_bindings: self.dep_bindings@,
            dep_seq: self.dep_seq,
            grants: self.outbound_grants@,
            remotes: self.remote_providers@,
            grant_seq: self.grant_seq,
            usage: self.dep_usage@,
            events: self.events.deep_view(),
        }
    }
}

impl KernelV {
    pub open spec fn log(self, fiber: Text, kind: Text, args: JsonV) -> KernelV {
        KernelV { journal: self.journal.append(fiber, kind, args, JsonV::Null), ..self }
    }

    pub open spec fn event(self, ev: LifecycleV) -> KernelV {
        KernelV { events: self.events.push(ev), ..self }
    }

    pub open spec fn with_contexts(self, c: ContextsV) -> KernelV {
        KernelV { contexts: c, ..self }
    }

    pub open spec fn with_calls(self, c: CallsV) -> KernelV {
        KernelV { calls: c, ..self }
    }

    pub open spec fn with_resources(self, r: ResourcesV) -> KernelV {
        KernelV { resources: r, ..self }
    }

    pub open spec fn with_plugin(self, id: Text, p: PluginV) -> KernelV {
        KernelV { plugins: self.plugins.insert(id, p), ..self }
    }

    pub open spec fn plugin(self, id: Text) -> Option<PluginV> {
        if self.plugins.dom().contains(id) {
            Some(self.plugins[id])
        } else {
            None
        }
    }

    pub open spec fn definition(self, id: Text) -> Option<ManifestV> {
        if self.definitions.dom().contains(id) {
            Some(self.definitions[id])
        } else {
            None
        }
    }

    /// The operator's grant of `cap` to `consumer`.
    pub open spec fn grant(self, consumer: Text, cap: Text) -> Option<u64> {
        if self.grants.dom().contains(consumer) && self.grants[consumer].dom().contains(cap) {
            Some(self.grants[consumer][cap])
        } else {
            None
        }
    }

    /// The entry of `logical` moved to `state`, if it is of instance `inst`.
    pub open spec fn plugin_to(self, logical: Text, inst: InstanceId, state: Fsm) -> KernelV {
        match self.plugin(logical) {
            Some(p) if p.instance_id == inst.0 => self.with_plugin(
                logical,
                PluginV { state, ..p },
            ),
            _ => self,
        }
    }

    /// The policy in force for an operation.
    pub open spec fn policy_for(self, logical: Text, cap: Text) -> CallPolicy {
        match self.plugin(logical) {
            Some(p) if p.calls.dom().contains(cap) => p.calls[cap],
            _ => calls::cancel_policy(),
        }
    }

    /// Whether a definition for another host is attested.
    pub open spec fn remote_live(self, logical: Text) -> bool {
        self.remotes.dom().contains(logical) && self.definitions.dom().contains(logical)
    }

    /// The record that stands for an attested remote provider: active, with
    /// no lifecycle of its own here.
    pub open spec fn remote_state(self, logical: Text) -> ContextV {
        let reg = self.remotes[logical];
        ContextV {
            context: ContextId(u64::MAX),
            instance: InstanceId(reg.instance),
            logical: reg.logical,
            generation: reg.generation,
            epoch: self.contexts.epoch,
            state: Fsm::Active,
            parent: None,
            cause: None,
        }
    }

    /// The current activations, with the attested remote ones.
    pub open spec fn states(self) -> Map<Text, ContextV> {
        Map::new(
            |l: Text| self.remote_live(l) || self.contexts.current_of(l) is Some,
            |l: Text|
                if self.remote_live(l) {
                    self.remote_state(l)
                } else {
                    self.contexts.current_of(l)->0
                },
        )
    }
}

impl Kernel {
    /// A kernel without definitions, in a fresh epoch.
    pub fn new(journal: Journal, dry_run: bool, epoch: u64) -> (r: Self)
        ensures
            r@ == (KernelV {
                plugins: Map::empty(),
                caps: Map::empty(),
                topics: Map::empty(),
                journal: journal@,
                dry_run,
                contexts: ContextsV {
                    epoch,
                    records: Seq::empty(),
                    current: Map::empty(),
                    generations: Map::empty(),
                },
                resources: ResourcesV {
                    slots: Seq::empty(),
                    total_releases: 0,
                    double_release_attempts: 0,
                },
                definitions: Map::empty(),
                calls: CallsV {
                    next_ticket: 1,
                    next_effect: 1,
                    tickets: Map::empty(),
                    effects: Seq::empty(),
                    claims: Map::empty(),
                },
                forwarder: false,
                dep_bindings: Map::empty(),
                dep_seq: 1,
                grants: Map::empty(),
                remotes: Map::empty(),
                grant_seq: 1,
                usage: UsageV { per_session: Map::empty(), global: 0 },
                events: Seq::empty(),
            }),
            r@.contexts.wf(),
            r@.valid(),
    {
        let events: Vec<LifecycleEvent> = Vec::new();
        assert(events.deep_view() =~= Seq::<LifecycleV>::empty());
        Kernel {
            plugins: StrMap::new(),
            caps: Registry::new(),
            bus: Bus::new(),
            journal,
            dry_run,
            contexts: ContextTable::new(epoch),
            resources: ResourceTable::new(),
            definitions: StrMap::new(),
            calls: CallsTable::new(),
            forwarder: false,
            dep_bindings: StrMap::new(),
            dep_seq: 1,
            outbound_grants: StrMap::new(),
            remote_providers: StrMap::new(),
            grant_seq: 1,
            dep_usage: DepUsage { per_session: StrMap::new(), global: 0 },
            events,
        }
    }

    pub(crate) fn log(&mut self, fiber: &str, kind: &str, args: Json)
        ensures
            final(self)@ == old(self)@.log(fiber@, kind@, args@),
    {
        let _ = self.journal.append(fiber, kind, args, Json::Null);
    }

    /// Queues a lifecycle event for the host.
    pub(crate) fn emit_hook(&mut self, ev: LifecycleEvent)
        ensures
            final(self)@ == old(self)@.event(ev@),
    {
        let ghost before = self.events.deep_view();
        let ghost e = ev@;
        self.events.push(ev);
        assert(self.events.deep_view() =~= before.push(e));
    }

    /// Takes the queued lifecycle events out, oldest first.
    pub fn take_events(&mut self) -> (r: Vec<LifecycleEvent>)
        ensures
            r.deep_view() == old(self)@.events,
            final(self)@ == (KernelV { events: Seq::empty(), ..old(self)@ }),
    {
        let mut out: Vec<LifecycleEvent> = Vec::new();
        std::mem::swap(&mut out, &mut self.events);
        assert(self.events.deep_view() =~= Seq::<LifecycleV>::empty());
        out
    }

    pub(crate) fn plugin_to(&mut self, logical: &str, inst: InstanceId, state: Fsm)
        ensures
            final(self)@ == old(self)@.plugin_to(logical@, inst, state),
    {
        if let Some(p) = self.plugins.get(logical) {
            if p.instance_id == inst.0 {
                let mut p = p.copy();
                p.state = state;
                self.plugins.insert(logical, p);
            }
        }
    }

    /// The current activations, with the attested remote ones.
    pub(crate) fn current_all_merged(&self) -> (r: StrMap<ContextRecord>)
        ensures
            r@ == self@.states(),
    {
        let mut out = self.contexts.current_all();
        let n = self.remote_providers.len();
        let ghost base = out@;
        let ghost ks = text::in_order(self@.remotes.dom());
        proof {
            text::in_order_sorted(self@.remotes.dom());
        }
        let epoch = self.contexts.epoch();
        let mut i: usize = 0;
        while i < n
            invariant
                i <= n,
                n == ks.len(),
                epoch == self@.contexts.epoch,
                ks == text::in_order(self@.remotes.dom()),
                ks.to_set() == self@.remotes.dom(),
                base == self@.contexts.current_all(),
                forall|l: Text| #[trigger]
                    out@.dom().contains(l) <==> base.dom().contains(l) || (self@.remote_live(l)
                        && ks.take(i as int).to_set().contains(l)),
                forall|l: Text| #[trigger]
                    out@.dom().contains(l) ==> out@[l] == if self@.remote_live(l) && ks.take(
                        i as int,
                    ).to_set().contains(l) {
                        self@.remote_state(l)
                    } else {
                        base[l]
                    },
            decreases n - i,
        {
            proof {
                text::take_grows(ks, i as int);
            }
            let l = self.remote_providers.key_at(i);
            if self.definitions.contains(l) {
                let reg = self.remote_providers.value_at(i);
                out.insert(
                    l,
                    ContextRecord {
                        context: ContextId(u64::MAX),
                        instance: InstanceId(reg.instance),
                        logical: reg.logical.clone(),
                        generation: reg.generation,
                        epoch,
                        state: Fsm::Active,
                        parent: None,
                        cause: None,
                    },
                );
            }
            i += 1;
        }
        proof {
            assert(ks.take(ks.len() as int) =~= ks);
            assert(out@ =~= self@.states());
        }
        out
    }

    // ---- inspection ---------------------------------------------------

    pub fn epoch(&self) -> (r: u64)
        ensures
            r == self@.contexts.epoch,
    {
        self.contexts.epoch()
    }

    /// Registers a capability without instance identity.
    pub fn provide(&mut self, cap: &str, fiber: &str)
        ensures
            final(self)@ == (KernelV {
                caps: old(self)@.caps.insert(
                    cap@,
                    crate::registry::EntryV {
                        logical: fiber@,
                        instance: 0,
                        generation: 0,
                        epoch: 0,
                    },
                ),
                ..old(self)@
            }),
    {
        self.caps.provide(cap, fiber);
    }

    pub fn instance_ref_of(&self, logical: &str) -> (r: Option<InstanceRef>)
        ensures
            r.deep_view() == match self@.contexts.current_of(logical@) {
                Some(c) => Some(c.reference()),
                None => None,
            },
    {
        match self.contexts.current(logical) {
            Some(c) => Some(c.reference()),
            None => None,
        }
    }

    pub fn instance_of(&self, logical: &str) -> (r: Option<InstanceId>)
        ensures
            r == match self@.contexts.current_of(logical@) {
                Some(c) => Some(c.instance),
                None => None,
            },
    {
        match self.contexts.current(logical) {
            Some(c) => Some(c.instance),
            None => None,
        }
    }

    pub fn waiting_reason_of(&self, logical: &str) -> (r: Option<String>)
        ensures
            r.deep_view() == match self@.contexts.current_of(logical@) {
                Some(c) => c.cause,
                None => None,
            },
    {
        match self.contexts.current(logical) {
            Some(c) => c.cause,
            None => None,
        }
    }

    pub fn bindings_of(&self, logical: &str) -> (r: Vec<Binding>)
        ensures
            r.deep_view() == match self@.plugin(logical@) {
                Some(p) => p.bindings,
                None => Seq::empty(),
            },
    {
        match self.plugins.get(logical) {
            Some(p) => deps::copy_bindings(&p.bindings),
            None => {
                let none: Vec<Binding> = Vec::new();
                assert(none.deep_view() =~= Seq::<BindingV>::empty());
                none
            },
        }
    }

    /// The policy in force for an operation.
    pub fn policy_for(&self, logical: &str, cap: &str) -> (r: CallPolicy)
        ensures
            r == self@.policy_for(logical@, cap@),
    {
        match self.plugins.get(logical) {
            Some(p) => match p.calls.get(cap) {
                Some(c) => *c,
                None => CallPolicy::cancel(),
            },
            None => CallPolicy::cancel(),
        }
    }

    /// The outbound policy that a component declares. Absent means disabled;
    /// present is not an authorization.
    pub fn outbound_policy_of(&self, logical: &str) -> (r: Option<OutboundPolicy>)
        ensures
            r.deep_view() == match self@.definition(logical@) {
                Some(d) => d.outbound,
                None => None,
            },
    {
        match self.definitions.get(logical) {
            Some(d) => match &d.outbound {
                Some(o) => Some(o.copy()),
                None => None,
            },
            None => None,
        }
    }

    /// Topics declared in the manifest.
    pub fn subscriptions_of(&self, logical: &str) -> (r: Vec<String>)
        ensures
            r.deep_view() == match self@.definition(logical@) {
                Some(d) => d.subs,
                None => Seq::empty(),
            },
    {
        match self.definitions.get(logical) {
            Some(d) => text::copy_texts(&d.subs),
            None => {
                let none: Vec<String> = Vec::new();
                assert(none.deep_view() =~= Seq::<Text>::empty());
                none
            },
        }
    }

    /// In-flight calls by ascending ticket.
    pub fn pending_calls(&self) -> (r: Vec<TicketRecord>)
        ensures
            r.deep_view() == calls::select(self@.calls.tickets, WhichV::All),
    {
        self.calls.snapshot()
    }

    /// Confirmed effects of one logical id, or all.
    pub fn committed_effects(&self, logical: Option<&str>) -> (r: Vec<CommittedEffect>)
        ensures
            r.deep_view() == calls::effects_of(
                self@.calls.effects,
                match logical {
                    Some(l) => Some(l@),
                    None => None,
                },
            ),
    {
        self.calls.effects_for(logical)
    }

    /// How many resources the current activation holds.
    pub fn active_resources_for(&self, logical: &str) -> (r: usize)
        ensures
            r == match self@.contexts.current_of(logical@) {
                Some(c) => resources::active_in(self@.resources.slots, Some(c.context)),
                None => 0,
            },
    {
        match self.contexts.current(logical) {
            Some(c) => self.resources.active_for(c.context),
            None => 0,
        }
    }

    pub fn context_state_of(&self, logical: &str) -> (r: Option<String>)
        ensures
            r.deep_view() == match self@.contexts.current_of(logical@) {
                Some(c) => Some(c.state.name()),
                None => None,
            },
    {
        match self.contexts.current(logical) {
            Some(c) => Some(c.state.as_str().to_owned()),
            None => None,
        }
    }
}

} // verus!
