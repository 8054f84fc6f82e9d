//! Acquiring and releasing resources.
//!
//! Ownership is recorded before the effect is published; a failure part way
//! rolls back what was acquired. Release happens once, and revokes a
//! publication only where the releasing instance still owns it.

use vstd::prelude::*;
use vstd::string::*;
use crate::bus;
use crate::bus::SubV;
use crate::calls;
use crate::calls::WhichV;
use crate::context::{ContextError, ContextErrorV, ContextRecord, ContextV};
use crate::identity::{InstanceId, ResourceHandle};
use crate::json;
use crate::json::{Json, JsonV};
use crate::kernel::{Kernel, KernelV, PluginV, MAX_EXTERNAL_RESOURCES_PER_CONTEXT};
use crate::manifest::{ManifestV, StoredManifest};
use crate::registry;
use crate::resources;
use crate::resources::{
    AcquireErrorV, ReleaseError, ReleaseErrorV, ResourceKind, ResourceKindV, ResourceState,
};
use crate::text;
use crate::text::Text;

verus! {

/// The kinds of the resources that a definition declares: its capabilities,
/// then its subscriptions.
pub open spec fn declared_kinds(def: ManifestV) -> Seq<ResourceKindV> {
    def.caps.map_values(|c: Text| ResourceKindV::Cap { name: c }) + def.subs.map_values(
        |t: Text| ResourceKindV::Sub { topic: t },
    )
}

/// What the error of an inactive context is called.
pub open spec fn gate_code(e: ContextErrorV) -> Text {
    match e {
        ContextErrorV::NotActive { .. } => "context-not-active"@,
        ContextErrorV::StaleGeneration { .. } => "stale-generation"@,
        _ => "plugin-not-loaded"@,
    }
}

/// What a failed release is called.
pub open spec fn release_code(e: ReleaseErrorV) -> Text {
    match e {
        ReleaseErrorV::AlreadyReleased(_) => "already-released"@,
        ReleaseErrorV::UnknownHandle(_) => "unknown-handle"@,
        ReleaseErrorV::CleanupFailed { reason, .. } => reason,
    }
}

impl KernelV {
    /// The effect of a resource published for an activation.
    pub open spec fn publish(self, kind: ResourceKindV, ctx: ContextV, logical: Text) -> KernelV {
        match kind {
            ResourceKindV::Cap { name } => KernelV {
                caps: self.caps.insert(name, registry::entry_of(ctx.reference())),
                ..self
            },
            ResourceKindV::Sub { topic } => KernelV {
                topics: bus::subscribed(
                    self.topics,
                    topic,
                    SubV { logical, instance: ctx.instance.0 },
                ),
                ..self
            },
            _ => self,
        }
    }

    /// The effect of a resource revoked, where `inst` still owns it.
    pub open spec fn unpublish(self, kind: ResourceKindV, inst: InstanceId) -> KernelV {
        match kind {
            ResourceKindV::Cap { name } => KernelV {
                caps: registry::revoked(self.caps, name, inst.0),
                ..self
            },
            ResourceKindV::Sub { topic } => KernelV {
                topics: bus::unsubscribed(self.topics, topic, inst.0),
                ..self
            },
            _ => self,
        }
    }

    /// The current activation of `logical` if it admits, or what is wrong.
    pub open spec fn gate(self, logical: Text) -> Result<ContextV, Text> {
        match self.contexts.current_of(logical) {
            None => Err("plugin-not-loaded"@),
            Some(c) => match self.contexts.admissible(c.instance.0) {
                Ok(_) => Ok(c),
                Err(e) => Err(gate_code(e)),
            },
        }
    }

    /// The handle noted in the entry of the activation that acquired it.
    pub open spec fn note_handle(self, logical: Text, ctx: ContextV, h: ResourceHandle) -> KernelV {
        match self.plugin(logical) {
            Some(p) if p.instance_id == ctx.instance.0 && p.generation == ctx.generation =>
                self.with_plugin(logical, PluginV { resources: p.resources.push(h), ..p }),
            _ => self,
        }
    }

    /// What the journal says of an acquisition.
    pub open spec fn acquired_args(kind: ResourceKindV, ctx: ContextV, h: ResourceHandle) -> JsonV {
        JsonV::object().with("handle"@, json::jnum(h.0)).with(
            "kind"@,
            json::jstr(kind.kind_name()),
        ).with("label"@, json::jstr(kind.label())).with(
            "instance"@,
            json::jnum(ctx.instance.0),
        ).with("context"@, json::jnum(ctx.context.0)).with(
            "generation"@,
            json::jnum(ctx.generation),
        )
    }

    /// Acquires a resource for the current activation of `logical`.
    pub open spec fn acquire(self, logical: Text, kind: ResourceKindV, start: Option<Text>) -> (
        KernelV,
        Result<ResourceHandle, Text>,
    ) {
        match self.gate(logical) {
            Err(e) => (self, Err(e)),
            Ok(ctx) => {
                let (rs, res) = self.resources.register(
                    ctx.context,
                    ctx.instance,
                    ctx.logical,
                    ctx.generation,
                    kind,
                    start,
                );
                let k = self.with_resources(rs);
                match res {
                    Err(e) => (k, Err(e.message())),
                    Ok(h) => (
                        k.publish(kind, ctx, ctx.logical).note_handle(logical, ctx, h).log(
                            logical,
                            "resource.acquired"@,
                            Self::acquired_args(kind, ctx, h),
                        ),
                        Ok(h),
                    ),
                }
            },
        }
    }

    /// Acquires a resource for exactly the activation that the caller was
    /// authenticated for, within the cap of its context.
    pub open spec fn acquire_external(
        self,
        logical: Text,
        kind: ResourceKindV,
        inst: InstanceId,
        generation: u64,
        start: Option<Text>,
    ) -> (KernelV, Result<ResourceHandle, Text>) {
        match self.contexts.current_of(logical) {
            None => (self, Err("plugin-not-loaded"@)),
            Some(ctx) => if ctx.instance != inst || ctx.generation != generation {
                (self, Err("stale-generation"@))
            } else {
                match self.gate(logical) {
                    Err(e) => (self, Err(e)),
                    Ok(_) => {
                        let (rs, res) = self.resources.register(
                            ctx.context,
                            ctx.instance,
                            ctx.logical,
                            ctx.generation,
                            kind,
                            start,
                        );
                        let k = self.with_resources(rs);
                        match res {
                            Err(e) => (k, Err(e.message())),
                            Ok(h) => if resources::active_in(rs.slots, Some(ctx.context))
                                > MAX_EXTERNAL_RESOURCES_PER_CONTEXT {
                                (
                                    self.with_resources(rs.rollback(h)),
                                    Err("resource-exhausted"@),
                                )
                            } else {
                                (
                                    k.publish(kind, ctx, ctx.logical).note_handle(
                                        logical,
                                        ctx,
                                        h,
                                    ).log(
                                        logical,
                                        "resource.acquired"@,
                                        Self::acquired_args(kind, ctx, h).with(
                                            "external"@,
                                            JsonV::Bool(true),
                                        ),
                                    ),
                                    Ok(h),
                                )
                            },
                        }
                    },
                }
            },
        }
    }

    /// Whether a call in flight of the owner uses the resource.
    pub open spec fn pinned(self, owner: InstanceId, h: ResourceHandle) -> bool {
        let ts = calls::select(self.calls.tickets, WhichV::Of(owner));
        exists|i: int| 0 <= i < ts.len() && (#[trigger] ts[i]).pins.contains(h)
    }

    /// Releases a resource.
    pub open spec fn release(self, h: ResourceHandle) -> (KernelV, Result<(), Text>) {
        match self.resources.get(h) {
            None => (self, Err("unknown-handle"@)),
            Some(rec) => if rec.state == ResourceState::Active && self.pinned(
                rec.owner_instance,
                h,
            ) {
                (self, Err("resource-pinned"@))
            } else {
                let (rs, res) = self.resources.release(h);
                let k = self.with_resources(rs);
                match res {
                    Err(e) => (k, Err(release_code(e))),
                    Ok(c) => (
                        k.unpublish(c.kind, rec.owner_instance).log(
                            rec.owner_logical,
                            "resource.released"@,
                            JsonV::object().with("handle"@, json::jnum(h.0)).with(
                                "instance"@,
                                json::jnum(rec.owner_instance.0),
                            ).with("generation"@, json::jnum(rec.generation)),
                        ),
                        Ok(()),
                    ),
                }
            },
        }
    }

    /// Releases handles from the last to the first.
    pub open spec fn release_back(self, hs: Seq<ResourceHandle>) -> KernelV
        decreases hs.len(),
    {
        if hs.len() == 0 {
            self
        } else {
            self.release(hs.last()).0.release_back(hs.drop_last())
        }
    }

    /// Acquires resources in turn; where one fails, the earlier ones are
    /// released in reverse order.
    pub open spec fn acquire_batch(
        self,
        logical: Text,
        items: Seq<(ResourceKindV, Option<Text>)>,
    ) -> (KernelV, Result<Seq<ResourceHandle>, Text>)
        decreases items.len(),
    {
        if items.len() == 0 {
            (self, Ok(Seq::empty()))
        } else {
            let (k, res) = self.acquire_batch(logical, items.drop_last());
            match res {
                Err(e) => (k, Err(e)),
                Ok(hs) => {
                    let (k2, r) = k.acquire(logical, items.last().0, items.last().1);
                    match r {
                        Ok(h) => (k2, Ok(hs.push(h))),
                        Err(e) => (k2.release_back(hs), Err(e)),
                    }
                },
            }
        }
    }

    /// Releases one resource of a context that is being cleaned up; a refusal
    /// is a failure.
    pub open spec fn clean_one(self, h: ResourceHandle, ctx: ContextV) -> (KernelV, Option<Text>) {
        match self.resources.get(h) {
            Some(r) if r.state == ResourceState::Active && r.owner_context == ctx.context => {
                let (rs, res) = self.resources.release(h);
                let k = self.with_resources(rs);
                match res {
                    Ok(c) => (k.unpublish(c.kind, ctx.instance), None),
                    Err(ReleaseErrorV::CleanupFailed { reason, .. }) => (k, Some(reason)),
                    Err(_) => (k, None),
                }
            },
            _ => (self, None),
        }
    }

    /// Releases resources of a context from the last to the first, and
    /// collects the failures.
    pub open spec fn clean_back(self, hs: Seq<ResourceHandle>, ctx: ContextV) -> (
        KernelV,
        Seq<Text>,
    )
        decreases hs.len(),
    {
        if hs.len() == 0 {
            (self, Seq::empty())
        } else {
            let (k, f) = self.clean_one(hs.last(), ctx);
            let (k2, fs) = k.clean_back(hs.drop_last(), ctx);
            (
                k2,
                match f {
                    Some(e) => seq![e] + fs,
                    None => fs,
                },
            )
        }
    }

    /// Releases what a context owns, in reverse order of acquisition.
    pub open spec fn clean(self, ctx: ContextV) -> (KernelV, Seq<Text>) {
        self.clean_back(resources::handles_in(self.resources.slots, ctx.context), ctx)
    }

    /// Undoes acquisitions from the last to the first.
    pub open spec fn undo_back(self, inst: InstanceId, hs: Seq<ResourceHandle>) -> KernelV
        decreases hs.len(),
    {
        if hs.len() == 0 {
            self
        } else {
            let (rs, res) = self.resources.release(hs.last());
            let k = self.with_resources(rs);
            let k2 = match res {
                Ok(c) => k.unpublish(c.kind, inst),
                Err(_) => k,
            };
            k2.undo_back(inst, hs.drop_last())
        }
    }

    /// Acquires and publishes resources for an activation in turn; where one
    /// fails, the earlier ones are undone.
    pub open spec fn acquire_kinds(
        self,
        ctx: ContextV,
        id: Text,
        kinds: Seq<ResourceKindV>,
    ) -> (KernelV, Result<Seq<ResourceHandle>, Text>)
        decreases kinds.len(),
    {
        if kinds.len() == 0 {
            (self, Ok(Seq::empty()))
        } else {
            let (k, res) = self.acquire_kinds(ctx, id, kinds.drop_last());
            match res {
                Err(e) => (k, Err(e)),
                Ok(hs) => {
                    let (rs, r) = k.resources.register(
                        ctx.context,
                        ctx.instance,
                        id,
                        ctx.generation,
                        kinds.last(),
                        None,
                    );
                    let k2 = k.with_resources(rs);
                    match r {
                        Ok(h) => (k2.publish(kinds.last(), ctx, id), Ok(hs.push(h))),
                        Err(e) => (k2.undo_back(ctx.instance, hs), Err(e.message())),
                    }
                },
            }
        }
    }

    /// Acquires what a definition declares for an activation.
    pub open spec fn acquire_definition(self, ctx: ContextV, def: ManifestV) -> (
        KernelV,
        Result<Seq<ResourceHandle>, Text>,
    ) {
        self.acquire_kinds(ctx, def.id, declared_kinds(def))
    }
}

fn gate_code_of(e: &ContextError) -> (r: String)
    ensures
        r@ == gate_code(e@),
{
    match e {
        ContextError::NotActive { .. } => "context-not-active".to_owned(),
        ContextError::StaleGeneration { .. } => "stale-generation".to_owned(),
        _ => "plugin-not-loaded".to_owned(),
    }
}

fn release_code_of(e: ReleaseError) -> (r: String)
    ensures
        r@ == release_code(e@),
{
    match e {
        ReleaseError::AlreadyReleased(_) => "already-released".to_owned(),
        ReleaseError::UnknownHandle(_) => "unknown-handle".to_owned(),
        ReleaseError::CleanupFailed { reason, .. } => reason,
    }
}

/// The outcome of an acquisition, as the contracts see it.
pub open spec fn handle_outcome(r: Result<ResourceHandle, String>) -> Result<ResourceHandle, Text> {
    match r {
        Ok(h) => Ok(h),
        Err(e) => Err(e@),
    }
}

/// The outcome of several acquisitions, as the contracts see it.
pub open spec fn handles_outcome(r: Result<Vec<ResourceHandle>, String>) -> Result<
    Seq<ResourceHandle>,
    Text,
> {
    match r {
        Ok(h) => Ok(h@),
        Err(e) => Err(e@),
    }
}

/// An outcome without a value, as the contracts see it.
pub open spec fn unit_outcome(r: Result<(), String>) -> Result<(), Text> {
    match r {
        Ok(_) => Ok(()),
        Err(e) => Err(e@),
    }
}

fn acquired_json(kind: &ResourceKind, ctx: &ContextRecord, h: ResourceHandle) -> (r: Json)
    ensures
        r@ == KernelV::acquired_args(kind@, ctx@, h),
{
    Json::object().with("handle", Json::num(h.0)).with("kind", Json::str(kind.kind_name())).with(
        "label",
        Json::str(kind.label()),
    ).with("instance", Json::num(ctx.instance.0)).with("context", Json::num(ctx.context.0)).with(
        "generation",
        Json::num(ctx.generation),
    )
}

impl Kernel {
    pub(crate) fn publish(&mut self, kind: &ResourceKind, ctx: &ContextRecord, logical: &str)
        ensures
            final(self)@ == old(self)@.publish(kind@, ctx@, logical@),
    {
        match kind {
            ResourceKind::Cap { name } => {
                let r = ctx.reference();
                self.caps.provide_instance(name, &r);
            },
            ResourceKind::Sub { topic } => {
                self.bus.subscribe_instance(logical, ctx.instance, topic);
            },
            _ => {},
        }
    }

    pub(crate) fn unpublish(&mut self, kind: &ResourceKind, inst: InstanceId)
        ensures
            final(self)@ == old(self)@.unpublish(kind@, inst),
    {
        match kind {
            ResourceKind::Cap { name } => {
                let _ = self.caps.revoke_cap_if_owned(name, inst);
            },
            ResourceKind::Sub { topic } => {
                let _ = self.bus.unsubscribe_topic_if_owned(inst, topic);
            },
            _ => {},
        }
    }

    /// The current activation of `logical` if it admits, or what is wrong.
    pub fn gate(&self, logical: &str) -> (r: Result<ContextRecord, String>)
        ensures
            match r {
                Ok(c) => self@.gate(logical@) == Ok::<ContextV, Text>(c@),
                Err(e) => self@.gate(logical@) == Err::<ContextV, Text>(e@),
            },
    {
        match self.contexts.current(logical) {
            None => Err("plugin-not-loaded".to_owned()),
            Some(c) => match self.contexts.require_active(c.instance) {
                Ok(_) => Ok(c),
                Err(e) => Err(gate_code_of(&e)),
            },
        }
    }

    fn note_handle(&mut self, logical: &str, ctx: &ContextRecord, h: ResourceHandle)
        ensures
            final(self)@ == old(self)@.note_handle(logical@, ctx@, h),
    {
        if let Some(p) = self.plugins.get(logical) {
            if p.instance_id == ctx.instance.0 && p.generation == ctx.generation {
                let mut p = p.copy();
                p.resources.push(h);
                self.plugins.insert(logical, p);
            }
        }
    }

    /// Acquires a resource for the current activation of `logical`. Rejects
    /// where the context does not admit. `start` holds the error of a timer
    /// or task whose worker could not be started.
    pub fn acquire(&mut self, logical: &str, kind: ResourceKind, start: Option<String>) -> (r:
        Result<ResourceHandle, String>)
        ensures
            final(self)@ == old(self)@.acquire(logical@, kind@, start.deep_view()).0,
            handle_outcome(r) == old(self)@.acquire(logical@, kind@, start.deep_view()).1,
    {
        let ctx = match self.gate(logical) {
            Ok(c) => c,
            Err(e) => return Err(e),
        };
        let h = match self.resources.register(
            ctx.context,
            ctx.instance,
            &ctx.logical,
            ctx.generation,
            kind.copy(),
            start,
        ) {
            Ok(h) => h,
            Err(e) => return Err(e.message()),
        };
        self.publish(&kind, &ctx, &ctx.logical);
        self.note_handle(logical, &ctx, h);
        self.log(logical, "resource.acquired", acquired_json(&kind, &ctx, h));
        Ok(h)
    }

    /// Acquires a resource for an external component from its bound session.
    /// The caller passes the exact activation it was authenticated for, so a
    /// stale session never lands on a new generation. Above the cap of the
    /// context nothing is published and nothing stays.
    pub fn acquire_external(
        &mut self,
        logical: &str,
        kind: ResourceKind,
        caller_instance: InstanceId,
        caller_generation: u64,
        start: Option<String>,
    ) -> (r: Result<ResourceHandle, String>)
        ensures
            ({
                let s = old(self)@.acquire_external(
                    logical@,
                    kind@,
                    caller_instance,
                    caller_generation,
                    start.deep_view(),
                );
                &&& final(self)@ == s.0
                &&& handle_outcome(r) == s.1
            }),
    {
        let ctx = match self.contexts.current(logical) {
            Some(c) => c,
            None => return Err("plugin-not-loaded".to_owned()),
        };
        if ctx.instance != caller_instance || ctx.generation != caller_generation {
            return Err("stale-generation".to_owned());
        }
        if let Err(e) = self.gate(logical) {
            return Err(e);
        }
        let h = match self.resources.register(
            ctx.context,
            ctx.instance,
            &ctx.logical,
            ctx.generation,
            kind.copy(),
            start,
        ) {
            Ok(h) => h,
            Err(e) => return Err(e.message()),
        };
        if self.resources.active_for(ctx.context) > MAX_EXTERNAL_RESOURCES_PER_CONTEXT {
            self.resources.rollback_register(h);
            return Err("resource-exhausted".to_owned());
        }
        self.publish(&kind, &ctx, &ctx.logical);
        self.note_handle(logical, &ctx, h);
        let args = acquired_json(&kind, &ctx, h).with("external", Json::flag(true));
        self.log(logical, "resource.acquired", args);
        Ok(h)
    }

    /// Acquires resources in turn: where one fails, the earlier ones are
    /// released in reverse order.
    pub fn acquire_batch(&mut self, logical: &str, items: &Vec<(ResourceKind, Option<String>)>) -> (r:
        Result<Vec<ResourceHandle>, String>)
        ensures
            final(self)@ == old(self)@.acquire_batch(logical@, items.deep_view()).0,
            handles_outcome(r) == old(self)@.acquire_batch(logical@, items.deep_view()).1,
    {
        let ghost its = items.deep_view();
        let ghost k0 = self@;
        let mut out: Vec<ResourceHandle> = Vec::new();
        let mut i: usize = 0;
        proof {
            assert(its.take(0) =~= Seq::<(ResourceKindV, Option<Text>)>::empty());
        }
        while i < items.len()
            invariant
                i <= items.len(),
                its == items.deep_view(),
                k0.acquire_batch(logical@, its.take(i as int)) == (
                    self@,
                    Ok::<Seq<ResourceHandle>, Text>(out@),
                ),
                k0 == old(self)@,
            decreases items.len() - i,
        {
            proof {
                assert(its.take(i + 1).drop_last() =~= its.take(i as int));
                assert(its.take(i + 1).last() == its[i as int]);
            }
            match self.acquire(logical, items[i].0.copy(), text::copy_opt(&items[i].1)) {
                Ok(h) => out.push(h),
                Err(e) => {
                    let ghost k1 = self@;
                    let ghost hs = out@;
                    let mut j: usize = out.len();
                    proof {
                        assert(hs.take(hs.len() as int) =~= hs);
                    }
                    while j > 0
                        invariant
                            j <= out.len(),
                            hs == out@,
                            self@.release_back(hs.take(j as int)) == k1.release_back(hs),
                        decreases j,
                    {
                        proof {
                            assert(hs.take(j as int).drop_last() =~= hs.take(j - 1));
                            assert(hs.take(j as int).last() == hs[j - 1]);
                        }
                        let _ = self.release(out[j - 1]);
                        j -= 1;
                    }
                    proof {
                        batch_fails(k0, logical@, its, i + 1);
                    }
                    return Err(e);
                },
            }
            i += 1;
        }
        proof {
            assert(its.take(its.len() as int) =~= its);
        }
        Ok(out)
    }

    fn is_pinned(&self, owner: InstanceId, h: ResourceHandle) -> (r: bool)
        ensures
            r == self@.pinned(owner, h),
    {
        let ts = self.calls.pending_for(owner);
        let ghost s = ts.deep_view();
        let mut i: usize = 0;
        while i < ts.len()
            invariant
                i <= ts.len(),
                s == ts.deep_view(),
                s == calls::select(self@.calls.tickets, WhichV::Of(owner)),
                forall|j: int| 0 <= j < i ==> !(#[trigger] s[j]).pins.contains(h),
            decreases ts.len() - i,
        {
            assert(s[i as int] == ts[i as int]@);
            let pins = &ts[i].pins;
            let mut j: usize = 0;
            while j < pins.len()
                invariant
                    j <= pins.len(),
                    i < ts.len(),
                    s == ts.deep_view(),
                    pins@ == s[i as int].pins,
                    forall|q: int| 0 <= q < j ==> pins[q] != h,
                    s == calls::select(self@.calls.tickets, WhichV::Of(owner)),
                decreases pins.len() - j,
            {
                if pins[j] == h {
                    assert(s[i as int].pins.contains(h));
                    return true;
                }
                j += 1;
            }
            i += 1;
        }
        false
    }

    /// Releases a resource. A second release is an error without effect, and
    /// what a call in flight uses cannot be released.
    pub fn release(&mut self, handle: ResourceHandle) -> (r: Result<(), String>)
        ensures
            final(self)@ == old(self)@.release(handle).0,
            unit_outcome(r) == old(self)@.release(handle).1,
    {
        let rec = match self.resources.record(handle) {
            Some(x) => x,
            None => return Err("unknown-handle".to_owned()),
        };
        if rec.state == ResourceState::Active && self.is_pinned(rec.owner_instance, handle) {
            return Err("resource-pinned".to_owned());
        }
        let claim = match self.resources.begin_release(handle) {
            Ok(c) => c,
            Err(e) => return Err(release_code_of(e)),
        };
        self.unpublish(&claim.kind, rec.owner_instance);
        let args = Json::object().with("handle", Json::num(handle.0)).with(
            "instance",
            Json::num(rec.owner_instance.0),
        ).with("generation", Json::num(rec.generation));
        self.log(&rec.owner_logical, "resource.released", args);
        Ok(())
    }

    /// Whether the handle may be used by the current activation.
    pub fn validate_handle(&self, handle: ResourceHandle, logical: &str) -> (r: Result<
        (),
        String,
    >)
        ensures
            unit_outcome(r) == match self@.contexts.current_of(logical@) {
                None => Err("plugin-not-loaded"@),
                Some(c) => match self@.resources.validate(handle, c.instance, c.generation) {
                    Ok(_) => Ok(()),
                    Err(ReleaseErrorV::AlreadyReleased(_)) => Err("stale-handle"@),
                    Err(e) => Err(release_code(e)),
                },
            },
    {
        let cur = match self.contexts.current(logical) {
            Some(c) => c,
            None => return Err("plugin-not-loaded".to_owned()),
        };
        match self.resources.validate(handle, cur.instance, cur.generation) {
            Ok(_) => Ok(()),
            Err(e) => match e {
                ReleaseError::AlreadyReleased(_) => Err("stale-handle".to_owned()),
                _ => Err(release_code_of(e)),
            },
        }
    }

    fn clean_one(&mut self, h: ResourceHandle, ctx: &ContextRecord) -> (r: Option<String>)
        ensures
            final(self)@ == old(self)@.clean_one(h, ctx@).0,
            r.deep_view() == old(self)@.clean_one(h, ctx@).1,
    {
        let owned = match self.resources.record(h) {
            Some(x) => x.state == ResourceState::Active && x.owner_context == ctx.context,
            None => false,
        };
        if !owned {
            return None;
        }
        match self.resources.begin_release(h) {
            Ok(c) => {
                self.unpublish(&c.kind, ctx.instance);
                None
            },
            Err(ReleaseError::CleanupFailed { reason, .. }) => Some(reason),
            Err(_) => None,
        }
    }

    /// Releases what a context owns, in reverse order of acquisition, and
    /// returns the failures.
    pub(crate) fn release_context_resources(&mut self, ctx: &ContextRecord) -> (r: Vec<String>)
        ensures
            final(self)@ == old(self)@.clean(ctx@).0,
            r.deep_view() == old(self)@.clean(ctx@).1,
    {
        let handles = self.resources.handles_for(ctx.context);
        let ghost hs = handles@;
        let ghost k0 = self@;
        let mut failures: Vec<String> = Vec::new();
        let mut j: usize = handles.len();
        proof {
            assert(hs.take(hs.len() as int) =~= hs);
            assert(failures.deep_view() =~= Seq::<Text>::empty());
            let rest = self@.clean_back(hs.take(j as int), ctx@);
            assert(failures.deep_view() + rest.1 =~= rest.1);
        }
        while j > 0
            invariant
                j <= handles.len(),
                hs == handles@,
                ({
                    let rest = self@.clean_back(hs.take(j as int), ctx@);
                    k0.clean_back(hs, ctx@) == (rest.0, failures.deep_view() + rest.1)
                }),
            decreases j,
        {
            let ghost before = failures.deep_view();
            let ghost k1 = self@;
            proof {
                assert(hs.take(j as int).drop_last() =~= hs.take(j - 1));
                assert(hs.take(j as int).last() == hs[j - 1]);
            }
            match self.clean_one(handles[j - 1], ctx) {
                Some(e) => {
                    let ghost ev = e@;
                    failures.push(e);
                    proof {
                        let rest = self@.clean_back(hs.take(j - 1), ctx@);
                        assert(failures.deep_view() =~= before.push(ev));
                        assert(before + (seq![ev] + rest.1) =~= failures.deep_view() + rest.1);
                    }
                },
                None => {},
            }
            j -= 1;
        }
        proof {
            assert(hs.take(0) =~= Seq::<ResourceHandle>::empty());
            assert(failures.deep_view() + Seq::<Text>::empty() =~= failures.deep_view());
        }
        failures
    }

    /// Undoes acquisitions from the last to the first.
    pub(crate) fn rollback_acquired(&mut self, inst: InstanceId, acquired: &Vec<ResourceHandle>)
        ensures
            final(self)@ == old(self)@.undo_back(inst, acquired@),
    {
        let ghost hs = acquired@;
        let ghost k0 = self@;
        let mut j: usize = acquired.len();
        proof {
            assert(hs.take(hs.len() as int) =~= hs);
        }
        while j > 0
            invariant
                j <= acquired.len(),
                hs == acquired@,
                self@.undo_back(inst, hs.take(j as int)) == k0.undo_back(inst, hs),
            decreases j,
        {
            proof {
                assert(hs.take(j as int).drop_last() =~= hs.take(j - 1));
                assert(hs.take(j as int).last() == hs[j - 1]);
            }
            if let Ok(c) = self.resources.begin_release(acquired[j - 1]) {
                self.unpublish(&c.kind, inst);
            }
            j -= 1;
        }
        proof {
            assert(hs.take(0) =~= Seq::<ResourceHandle>::empty());
        }
    }

    fn acquire_kind(
        &mut self,
        ctx: &ContextRecord,
        id: &str,
        kind: &ResourceKind,
        acquired: &Vec<ResourceHandle>,
    ) -> (r: Result<ResourceHandle, String>)
        ensures
            ({
                let k = old(self)@;
                let (rs, x) = k.resources.register(
                    ctx.context,
                    ctx.instance,
                    id@,
                    ctx.generation,
                    kind@,
                    None,
                );
                let k2 = k.with_resources(rs);
                match r {
                    Ok(h) => x == Ok::<ResourceHandle, AcquireErrorV>(h) && final(self)@
                        == k2.publish(kind@, ctx@, id@),
                    Err(e) => x is Err && e@ == x->Err_0.message() && final(self)@ == k2.undo_back(
                        ctx.instance,
                        acquired@,
                    ),
                }
            }),
    {
        match self.resources.register(
            ctx.context,
            ctx.instance,
            id,
            ctx.generation,
            kind.copy(),
            None,
        ) {
            Ok(h) => {
                self.publish(kind, ctx, id);
                Ok(h)
            },
            Err(e) => {
                self.rollback_acquired(ctx.instance, acquired);
                Err(e.message())
            },
        }
    }

    /// Acquires and publishes what a definition declares; a failure undoes
    /// what was acquired.
    pub(crate) fn acquire_definition_resources(
        &mut self,
        ctx: &ContextRecord,
        def: &StoredManifest,
    ) -> (r: Result<Vec<ResourceHandle>, String>)
        ensures
            final(self)@ == old(self)@.acquire_definition(ctx@, def@).0,
            handles_outcome(r) == old(self)@.acquire_definition(ctx@, def@).1,
    {
        let ghost kinds = declared_kinds(def@);
        let ghost k0 = self@;
        let mut acquired: Vec<ResourceHandle> = Vec::new();
        let n: usize = def.caps.len();
        let mut i: usize = 0;
        proof {
            assert(kinds.take(0) =~= Seq::<ResourceKindV>::empty());
        }
        while i < n
            invariant
                i <= n,
                n == def.caps.len(),
                k0 == old(self)@,
                kinds == declared_kinds(def@),
                kinds.len() >= n,
                k0.acquire_kinds(ctx@, def.id@, kinds.take(i as int)) == (
                    self@,
                    Ok::<Seq<ResourceHandle>, Text>(acquired@),
                ),
            decreases n - i,
        {
            let kind = ResourceKind::Cap { name: def.caps[i].clone() };
            proof {
                assert(kinds.take(i + 1).drop_last() =~= kinds.take(i as int));
                assert(kinds.take(i + 1).last() == kind@);
            }
            match self.acquire_kind(ctx, &def.id, &kind, &acquired) {
                Ok(h) => acquired.push(h),
                Err(e) => {
                    proof {
                        kinds_fail(k0, ctx@, def.id@, kinds, i + 1);
                    }
                    return Err(e);
                },
            }
            i += 1;
        }
        let m: usize = def.subs.len();
        let mut j: usize = 0;
        while j < m
            invariant
                j <= m,
                n == def.caps.len(),
                m == def.subs.len(),
                k0 == old(self)@,
                kinds == declared_kinds(def@),
                kinds.len() == n + m,
                k0.acquire_kinds(ctx@, def.id@, kinds.take(n + j)) == (
                    self@,
                    Ok::<Seq<ResourceHandle>, Text>(acquired@),
                ),
            decreases m - j,
        {
            let kind = ResourceKind::Sub { topic: def.subs[j].clone() };
            proof {
                assert(kinds.take(n + j + 1).drop_last() =~= kinds.take(n + j));
                assert(kinds.take(n + j + 1).last() == kind@);
            }
            match self.acquire_kind(ctx, &def.id, &kind, &acquired) {
                Ok(h) => acquired.push(h),
                Err(e) => {
                    proof {
                        kinds_fail(k0, ctx@, def.id@, kinds, n + j + 1);
                    }
                    return Err(e);
                },
            }
            j += 1;
        }
        proof {
            assert(kinds.take(kinds.len() as int) =~= kinds);
        }
        Ok(acquired)
    }
}

proof fn batch_fails(
    k: KernelV,
    logical: Text,
    items: Seq<(ResourceKindV, Option<Text>)>,
    i: int,
)
    requires
        0 <= i <= items.len(),
        k.acquire_batch(logical, items.take(i)).1 is Err,
    ensures
        k.acquire_batch(logical, items) == k.acquire_batch(logical, items.take(i)),
    decreases items.len() - i,
{
    if i < items.len() {
        assert(items.take(i + 1).drop_last() =~= items.take(i));
        batch_fails(k, logical, items, i + 1);
    } else {
        assert(items.take(i) =~= items);
    }
}

proof fn kinds_fail(k: KernelV, ctx: ContextV, id: Text, kinds: Seq<ResourceKindV>, i: int)
    requires
        0 <= i <= kinds.len(),
        k.acquire_kinds(ctx, id, kinds.take(i)).1 is Err,
    ensures
        k.acquire_kinds(ctx, id, kinds) == k.acquire_kinds(ctx, id, kinds.take(i)),
    decreases kinds.len() - i,
{
    if i < kinds.len() {
        assert(kinds.take(i + 1).drop_last() =~= kinds.take(i));
        kinds_fail(k, ctx, id, kinds, i + 1);
    } else {
        assert(kinds.take(i) =~= kinds);
    }
}

} // verus!
