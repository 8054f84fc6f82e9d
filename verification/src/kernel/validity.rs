//! What every operation of the kernel keeps: the tickets are in order, no
//! call pins a resource that does not exist, every definition stands under its
//! own id, and what an instance publishes is one of its resources.

use vstd::prelude::*;
use crate::bus;
use crate::bus::SubV;
use crate::calls;
use crate::calls::{TicketId, TicketState, TicketV, WhichV};
use crate::context::{ContextV, ContextsV, DisposeClaimV};
use crate::deps::BindingV;
use crate::external::{ForwardOutcomeV, ForwardRequestV, LifecycleV};
use crate::fsm::Fsm;
use crate::identity::{InstanceId, InstanceRefV, ResourceHandle};
use crate::journal::EntryV;
use crate::json;
use crate::json::JsonV;
use crate::kernel::acquire;
use crate::kernel::dependency::DepAdmitV;
use crate::kernel::dispatch::InvocationV;
use crate::kernel::jobs;
use crate::kernel::jobs::{ConclusionV, JobV, PassV, StageV};
use crate::kernel::laws;
use crate::kernel::lifecycle;
use crate::kernel::lifecycle::BegunV;
use crate::kernel::reconcile::PlanV;
use crate::kernel::resolve;
use crate::kernel::stable;
use crate::kernel::tickets;
use crate::kernel::{DepBindingV, KernelV, PluginV};
use crate::manifest::ManifestV;
use crate::num;
use crate::registry;
use crate::resources;
use crate::resources::{ResourceKindV, ResourceV, ResourcesV};
use crate::strmap;
use crate::text::Text;
use crate::time::Instant;

verus! {

impl KernelV {
    /// Whether every pin of a ticket names a resource that was given out.
    pub open spec fn pins_known(self) -> bool {
        forall|k: u64, i: int|
            self.calls.tickets.dom().contains(k) && 0 <= i < self.calls.tickets[k].pins.len()
                ==> (#[trigger] self.calls.tickets[k].pins[i]).0 <= self.resources.slots.len()
    }

    /// Whether a resource of the instance stands behind a publication.
    pub open spec fn backed(self, kind: ResourceKindV, inst: u64) -> bool {
        backing(self.resources.slots, kind, inst)
    }

    /// Whether every capability and subscription of an instance is one of its
    /// resources.
    pub open spec fn publications_backed(self) -> bool {
        &&& forall|c: Text| #[trigger]
            self.caps.dom().contains(c) && self.caps[c].instance != 0 ==> self.backed(
                ResourceKindV::Cap { name: c },
                self.caps[c].instance,
            )
        &&& forall|t: Text, s: SubV| #[trigger]
            bus::subs_of(self.topics, t).contains(s) && s.instance != 0 ==> self.backed(
                ResourceKindV::Sub { topic: t },
                s.instance,
            )
    }

    /// What holds of a new kernel and is kept by every operation.
    pub open spec fn valid(self) -> bool {
        &&& self.calls.wf()
        &&& self.pins_known()
        &&& stable::keyed(self.definitions)
        &&& paired(self.contexts)
        &&& self.publications_backed()
    }
}

/// Whether some slot holds a resource of this kind for the activation `inst`.
pub open spec fn backing(slots: Seq<Option<ResourceV>>, kind: ResourceKindV, inst: u64) -> bool {
    exists|i: int| 0 <= i < slots.len() && #[trigger] holds(slots[i], kind, inst)
}

pub open spec fn holds(slot: Option<ResourceV>, kind: ResourceKindV, inst: u64) -> bool {
    slot matches Some(r) && r.kind == kind && r.owner_context.0 == inst
}

/// Whether every activation has the context of the same number.
pub open spec fn paired(c: ContextsV) -> bool {
    forall|i: int|
        0 <= i < c.records.len() ==> (#[trigger] c.records[i]).context.0 == c.records[i].instance.0
}

/// Whether the resources of `a` are still there in `b`, in whatever state.
pub open spec fn persists(a: Seq<Option<ResourceV>>, b: Seq<Option<ResourceV>>) -> bool {
    &&& a.len() <= b.len()
    &&& forall|i: int, kind: ResourceKindV, inst: u64|
        0 <= i < a.len() && #[trigger] holds(a[i], kind, inst) ==> holds(b[i], kind, inst)
}

/// Whether what is published in `b` was published in `a` or is backed.
pub open spec fn publishes(a: KernelV, b: KernelV) -> bool {
    &&& forall|c: Text| #[trigger]
        b.caps.dom().contains(c) && b.caps[c].instance != 0 ==> a.caps.dom().contains(c)
            && a.caps[c].instance == b.caps[c].instance || b.backed(
            ResourceKindV::Cap { name: c },
            b.caps[c].instance,
        )
    &&& forall|t: Text, s: SubV| #[trigger]
        bus::subs_of(b.topics, t).contains(s) && s.instance != 0 ==> bus::subs_of(
            a.topics,
            t,
        ).contains(s) || b.backed(ResourceKindV::Sub { topic: t }, s.instance)
}

/// Whether `b` has no other tickets than `a`, all of its resources, no
/// publication without one, and keeps definitions under their ids.
pub open spec fn kept(a: KernelV, b: KernelV) -> bool {
    &&& a.calls.narrows_to(b.calls)
    &&& persists(a.resources.slots, b.resources.slots)
    &&& stable::keyed(a.definitions) ==> stable::keyed(b.definitions)
    &&& paired(a.contexts) ==> paired(b.contexts) && publishes(a, b)
}

proof fn backing_persists(
    a: Seq<Option<ResourceV>>,
    b: Seq<Option<ResourceV>>,
    kind: ResourceKindV,
    inst: u64,
)
    requires
        persists(a, b),
        backing(a, kind, inst),
    ensures
        backing(b, kind, inst),
{
    let i = choose|i: int| 0 <= i < a.len() && #[trigger] holds(a[i], kind, inst);
    assert(holds(b[i], kind, inst));
}

proof fn kept_stays_valid(a: KernelV, b: KernelV)
    requires
        a.valid(),
        kept(a, b),
    ensures
        b.valid(),
{
    calls::narrowing_keeps_wf(a.calls, b.calls);
    assert forall|k: u64, i: int|
        b.calls.tickets.dom().contains(k) && 0 <= i < b.calls.tickets[k].pins.len() implies (
    #[trigger] b.calls.tickets[k].pins[i]).0 <= b.resources.slots.len() by {
        assert(a.calls.tickets[k].pins[i] == b.calls.tickets[k].pins[i]);
    }
    assert forall|c: Text| #[trigger]
        b.caps.dom().contains(c) && b.caps[c].instance != 0 implies b.backed(
        ResourceKindV::Cap { name: c },
        b.caps[c].instance,
    ) by {
        if a.caps.dom().contains(c) && a.caps[c].instance == b.caps[c].instance {
            backing_persists(
                a.resources.slots,
                b.resources.slots,
                ResourceKindV::Cap { name: c },
                b.caps[c].instance,
            );
        }
    }
    assert forall|t: Text, s: SubV| #[trigger]
        bus::subs_of(b.topics, t).contains(s) && s.instance != 0 implies b.backed(
        ResourceKindV::Sub { topic: t },
        s.instance,
    ) by {
        if bus::subs_of(a.topics, t).contains(s) {
            backing_persists(
                a.resources.slots,
                b.resources.slots,
                ResourceKindV::Sub { topic: t },
                s.instance,
            );
        }
    }
}

proof fn kept_chains(a: KernelV, b: KernelV, c: KernelV)
    requires
        kept(a, b),
        kept(b, c),
    ensures
        kept(a, c),
{
    let (x, y, z) = (a.resources.slots, b.resources.slots, c.resources.slots);
    assert forall|i: int, kind: ResourceKindV, inst: u64|
        0 <= i < x.len() && #[trigger] holds(x[i], kind, inst) implies holds(z[i], kind, inst) by {
        assert(holds(y[i], kind, inst));
    }
    if paired(a.contexts) {
        assert forall|n: Text| #[trigger]
            c.caps.dom().contains(n) && c.caps[n].instance != 0 implies a.caps.dom().contains(n)
            && a.caps[n].instance == c.caps[n].instance || c.backed(
            ResourceKindV::Cap { name: n },
            c.caps[n].instance,
        ) by {
            let kind = ResourceKindV::Cap { name: n };
            if b.caps.dom().contains(n) && b.caps[n].instance == c.caps[n].instance && b.backed(
                kind,
                c.caps[n].instance,
            ) {
                backing_persists(y, z, kind, c.caps[n].instance);
            }
        }
        assert forall|t: Text, s: SubV| #[trigger]
            bus::subs_of(c.topics, t).contains(s) && s.instance != 0 implies bus::subs_of(
            a.topics,
            t,
        ).contains(s) || c.backed(ResourceKindV::Sub { topic: t }, s.instance) by {
            let kind = ResourceKindV::Sub { topic: t };
            if bus::subs_of(b.topics, t).contains(s) && b.backed(kind, s.instance) {
                backing_persists(y, z, kind, s.instance);
            }
        }
    }
}

/// What leaves calls, resources, definitions, activations and publications
/// alone keeps the kernel valid.
pub proof fn other_changes_keep_validity(a: KernelV, b: KernelV)
    requires
        a.valid(),
        b.calls == a.calls,
        b.resources == a.resources,
        b.definitions == a.definitions,
        b.contexts == a.contexts,
        b.caps == a.caps,
        b.topics == a.topics,
    ensures
        b.valid(),
{
    kept_stays_valid(a, b);
}

/// No call in flight pins a resource that is still to be given out.
pub proof fn pins_are_given_out(k: KernelV, owner: InstanceId, h: ResourceHandle)
    requires
        k.valid(),
        k.pinned(owner, h),
    ensures
        h.0 <= k.resources.slots.len(),
{
    let m = k.calls.tickets;
    let w = WhichV::Of(owner);
    let ts = calls::select(m, w);
    let i = choose|i: int| 0 <= i < ts.len() && (#[trigger] ts[i]).pins.contains(h);
    let ids = num::in_order(m.dom());
    num::in_order_sorted(m.dom());
    calls::picked_members(ids, m, w);
    let n = calls::ids_of(m, w)[i];
    assert(ids.contains(n));
    assert(ids.to_set().contains(n));
    let j = choose|j: int| 0 <= j < ts[i].pins.len() && ts[i].pins[j] == h;
    assert(m[n].pins[j] == h);
}

/// A kernel without calls, definitions, activations and publications is valid.
pub proof fn fresh_kernels_are_valid(k: KernelV)
    requires
        k.calls.tickets == Map::<u64, TicketV>::empty(),
        k.definitions == Map::<Text, ManifestV>::empty(),
        k.contexts.records == Seq::<ContextV>::empty(),
        k.caps == Map::<Text, registry::EntryV>::empty(),
        k.topics == Map::<Text, Seq<SubV>>::empty(),
    ensures
        k.valid(),
{
}

/// Whether `b` is `a` after some work: definitions stay as they are.
spec fn works(a: KernelV, b: KernelV) -> bool {
    kept(a, b) && b.definitions == a.definitions
}

proof fn works_chain(a: KernelV, b: KernelV, c: KernelV)
    requires
        works(a, b),
        works(b, c),
    ensures
        works(a, c),
{
    kept_chains(a, b, c);
}

// ---- resources --------------------------------------------------------

proof fn unpublish_keeps(k: KernelV, kind: ResourceKindV, inst: InstanceId)
    ensures
        works(k, k.unpublish(kind, inst)),
{
    let k2 = k.unpublish(kind, inst);
    if let ResourceKindV::Sub { topic } = kind {
        assert forall|t: Text, s: SubV| #[trigger]
            bus::subs_of(k2.topics, t).contains(s) implies bus::subs_of(k.topics, t).contains(
            s,
        ) by {
            bus::unsubscription_is_exact(k.topics, topic, inst.0, t, s);
        }
    }
}

proof fn publish_keeps(k: KernelV, kind: ResourceKindV, ctx: ContextV, logical: Text)
    requires
        paired(k.contexts) ==> k.backed(kind, ctx.instance.0),
    ensures
        works(k, k.publish(kind, ctx, logical)),
{
    let k2 = k.publish(kind, ctx, logical);
    if let ResourceKindV::Sub { topic } = kind {
        let new = SubV { logical, instance: ctx.instance.0 };
        assert forall|t: Text, s: SubV| #[trigger]
            bus::subs_of(k2.topics, t).contains(s) implies bus::subs_of(k.topics, t).contains(s)
            || t == topic && s == new by {
            if t == topic {
                let all = bus::subs_of(k2.topics, t);
                let i = choose|i: int| 0 <= i < all.len() && all[i] == s;
                if i < bus::subs_of(k.topics, t).len() {
                    assert(bus::subs_of(k.topics, t)[i] == s);
                }
            }
        }
    }
}

proof fn releasing_persists(rs: ResourcesV, h: ResourceHandle)
    ensures
        persists(rs.slots, rs.release(h).0.slots),
        rs.release(h).0.slots.len() == rs.slots.len(),
{
    let after = rs.release(h).0.slots;
    assert forall|i: int, kind: ResourceKindV, inst: u64|
        0 <= i < rs.slots.len() && #[trigger] holds(rs.slots[i], kind, inst) implies holds(
        after[i],
        kind,
        inst,
    ) by {}
}

proof fn registering_persists(
    rs: ResourcesV,
    ctx: ContextV,
    logical: Text,
    kind: ResourceKindV,
    start: Option<Text>,
)
    ensures
        ({
            let (rs2, r) = rs.register(
                ctx.context,
                ctx.instance,
                logical,
                ctx.generation,
                kind,
                start,
            );
            &&& persists(rs.slots, rs2.slots)
            &&& r is Ok ==> backing(rs2.slots, kind, ctx.context.0)
        }),
{
    let (rs2, r) = rs.register(
        ctx.context,
        ctx.instance,
        logical,
        ctx.generation,
        kind,
        start,
    );
    assert forall|i: int, x: ResourceKindV, inst: u64|
        0 <= i < rs.slots.len() && #[trigger] holds(rs.slots[i], x, inst) implies holds(
        rs2.slots[i],
        x,
        inst,
    ) by {}
    if r is Ok {
        assert(holds(rs2.slots[rs.slots.len() as int], kind, ctx.context.0));
    }
}

proof fn resources_keep(k: KernelV, rs: ResourcesV)
    requires
        persists(k.resources.slots, rs.slots),
    ensures
        works(k, k.with_resources(rs)),
{
}

proof fn clean_back_keeps(k: KernelV, hs: Seq<ResourceHandle>, ctx: ContextV)
    ensures
        works(k, k.clean_back(hs, ctx).0),
    decreases hs.len(),
{
    if hs.len() > 0 {
        let h = hs.last();
        let k1 = k.clean_one(h, ctx).0;
        releasing_persists(k.resources, h);
        let (rs, res) = k.resources.release(h);
        resources_keep(k, rs);
        if let Ok(c) = res {
            unpublish_keeps(k.with_resources(rs), c.kind, ctx.instance);
            works_chain(
                k,
                k.with_resources(rs),
                k.with_resources(rs).unpublish(c.kind, ctx.instance),
            );
        }
        assert(works(k, k1));
        clean_back_keeps(k1, hs.drop_last(), ctx);
        works_chain(k, k1, k.clean_back(hs, ctx).0);
    }
}

proof fn undo_back_keeps(k: KernelV, inst: InstanceId, hs: Seq<ResourceHandle>)
    ensures
        works(k, k.undo_back(inst, hs)),
    decreases hs.len(),
{
    if hs.len() > 0 {
        let (rs, res) = k.resources.release(hs.last());
        releasing_persists(k.resources, hs.last());
        let k1 = k.with_resources(rs);
        resources_keep(k, rs);
        let k2 = match res {
            Ok(c) => k1.unpublish(c.kind, inst),
            Err(_) => k1,
        };
        if let Ok(c) = res {
            unpublish_keeps(k1, c.kind, inst);
            works_chain(k, k1, k2);
        }
        undo_back_keeps(k2, inst, hs.drop_last());
        works_chain(k, k2, k.undo_back(inst, hs));
    }
}

proof fn acquire_kinds_keeps(k: KernelV, ctx: ContextV, id: Text, kinds: Seq<ResourceKindV>)
    requires
        paired(k.contexts) ==> ctx.context.0 == ctx.instance.0,
    ensures
        works(k, k.acquire_kinds(ctx, id, kinds).0),
    decreases kinds.len(),
{
    if kinds.len() > 0 {
        acquire_kinds_keeps(k, ctx, id, kinds.drop_last());
        let (k1, res) = k.acquire_kinds(ctx, id, kinds.drop_last());
        laws::acquire_kinds_only_acquires(k, ctx, id, kinds.drop_last());
        if let Ok(hs) = res {
            let kind = kinds.last();
            let (rs, r) = k1.resources.register(
                ctx.context,
                ctx.instance,
                id,
                ctx.generation,
                kind,
                None,
            );
            registering_persists(k1.resources, ctx, id, kind, None);
            let k2 = k1.with_resources(rs);
            resources_keep(k1, rs);
            works_chain(k, k1, k2);
            if r is Ok {
                publish_keeps(k2, kind, ctx, id);
                works_chain(k, k2, k2.publish(kind, ctx, id));
            } else {
                undo_back_keeps(k2, ctx.instance, hs);
                works_chain(k, k2, k2.undo_back(ctx.instance, hs));
            }
        }
    }
}

proof fn release_keeps(k: KernelV, h: ResourceHandle)
    ensures
        works(k, k.release(h).0),
{
    if let Some(rec) = k.resources.get(h) {
        releasing_persists(k.resources, h);
        let (rs, res) = k.resources.release(h);
        let k1 = k.with_resources(rs);
        resources_keep(k, rs);
        if let Ok(c) = res {
            unpublish_keeps(k1, c.kind, rec.owner_instance);
            works_chain(k, k1, k1.unpublish(c.kind, rec.owner_instance));
        }
    }
}

proof fn release_back_keeps(k: KernelV, hs: Seq<ResourceHandle>)
    ensures
        works(k, k.release_back(hs)),
    decreases hs.len(),
{
    if hs.len() > 0 {
        release_keeps(k, hs.last());
        release_back_keeps(k.release(hs.last()).0, hs.drop_last());
        works_chain(k, k.release(hs.last()).0, k.release_back(hs));
    }
}

proof fn acquire_keeps(k: KernelV, logical: Text, kind: ResourceKindV, start: Option<Text>)
    ensures
        works(k, k.acquire(logical, kind, start).0),
{
    if let Ok(ctx) = k.gate(logical) {
        registering_persists(k.resources, ctx, ctx.logical, kind, start);
        let (rs, res) = k.resources.register(
            ctx.context,
            ctx.instance,
            ctx.logical,
            ctx.generation,
            kind,
            start,
        );
        let k1 = k.with_resources(rs);
        resources_keep(k, rs);
        if res is Ok {
            publish_keeps(k1, kind, ctx, ctx.logical);
            works_chain(k, k1, k1.publish(kind, ctx, ctx.logical));
        }
    }
}

proof fn acquire_external_keeps(
    k: KernelV,
    logical: Text,
    kind: ResourceKindV,
    inst: InstanceId,
    generation: u64,
    start: Option<Text>,
)
    requires
        k.resources.slots.len() < u64::MAX,
    ensures
        works(k, k.acquire_external(logical, kind, inst, generation, start).0),
{
    if let Some(ctx) = k.contexts.current_of(logical) {
        registering_persists(k.resources, ctx, ctx.logical, kind, start);
        let (rs, res) = k.resources.register(
            ctx.context,
            ctx.instance,
            ctx.logical,
            ctx.generation,
            kind,
            start,
        );
        let k1 = k.with_resources(rs);
        resources_keep(k, rs);
        if let Ok(h) = res {
            publish_keeps(k1, kind, ctx, ctx.logical);
            works_chain(k, k1, k1.publish(kind, ctx, ctx.logical));
            let back = rs.rollback(h).slots;
            let slots = k.resources.slots;
            assert forall|i: int, x: ResourceKindV, n: u64|
                0 <= i < slots.len() && #[trigger] holds(slots[i], x, n) implies holds(
                back[i],
                x,
                n,
            ) by {
                assert(holds(rs.slots[i], x, n));
            }
            resources_keep(k, rs.rollback(h));
        }
    }
}

proof fn acquire_batch_keeps(
    k: KernelV,
    logical: Text,
    items: Seq<(ResourceKindV, Option<Text>)>,
)
    ensures
        works(k, k.acquire_batch(logical, items).0),
    decreases items.len(),
{
    if items.len() > 0 {
        acquire_batch_keeps(k, logical, items.drop_last());
        let (k1, r) = k.acquire_batch(logical, items.drop_last());
        if let Ok(hs) = r {
            let (k2, r2) = k1.acquire(logical, items.last().0, items.last().1);
            acquire_keeps(k1, logical, items.last().0, items.last().1);
            works_chain(k, k1, k2);
            if r2 is Err {
                release_back_keeps(k2, hs);
                works_chain(k, k2, k2.release_back(hs));
            }
        }
    }
}

/// Acquiring and releasing resources keeps the kernel valid while handles are
/// left.
pub proof fn acquisition_keeps_validity(
    k: KernelV,
    logical: Text,
    kind: ResourceKindV,
    start: Option<Text>,
    items: Seq<(ResourceKindV, Option<Text>)>,
    inst: InstanceId,
    generation: u64,
    h: ResourceHandle,
)
    requires
        k.valid(),
        k.resources.slots.len() < u64::MAX,
    ensures
        k.acquire(logical, kind, start).0.valid(),
        k.acquire_external(logical, kind, inst, generation, start).0.valid(),
        k.acquire_batch(logical, items).0.valid(),
        k.release(h).0.valid(),
{
    acquire_keeps(k, logical, kind, start);
    kept_stays_valid(k, k.acquire(logical, kind, start).0);
    acquire_external_keeps(k, logical, kind, inst, generation, start);
    kept_stays_valid(k, k.acquire_external(logical, kind, inst, generation, start).0);
    acquire_batch_keeps(k, logical, items);
    kept_stays_valid(k, k.acquire_batch(logical, items).0);
    release_keeps(k, h);
    kept_stays_valid(k, k.release(h).0);
}

// ---- tickets ----------------------------------------------------------

proof fn cancel_all_keeps(k: KernelV, w: WhichV, reason: Text)
    ensures
        works(k, k.cancel_all(w, reason)),
{
    laws::cancel_all_only_cancels(k, w, reason);
}

proof fn finalize_keeps(k: KernelV, inst: InstanceId)
    ensures
        works(k, k.finalize(inst).0),
{
    if let Some(rec) = k.contexts.get(inst.0) {
        let k1 = k.claim_cleanup(inst);
        let hs = resources::handles_in(k1.resources.slots, rec.context);
        clean_back_keeps(k1, hs, rec);
        laws::clean_back_only_releases(k1, hs, rec);
        let k2 = k1.clean_back(hs, rec).0;
        works_chain(k, k1, k2);
        assert(works(k2, k.finalize(inst).0) || k.finalize(inst).0 == k1 || k.finalize(inst).0
            == k.refresh_cause(inst) || k.finalize(inst).0 == k);
        if works(k2, k.finalize(inst).0) {
            works_chain(k, k2, k.finalize(inst).0);
        }
    }
}

proof fn after_ticket_keeps(k: KernelV, t: TicketV)
    ensures
        works(k, k.after_ticket(t).0),
{
    cancel_all_keeps(k, k.calls.heirs(t.id), "parent-ended"@);
    let k1 = k.cancel_heirs(t.id, "parent-ended"@);
    let k2 = match t.dep {
        Some(d) => k1.dep_release(d.session),
        None => k1,
    };
    finalize_keeps(k2, t.instance);
}

proof fn settle_keeps(k: KernelV, id: TicketId)
    ensures
        works(k, k.settle(id).0),
        works(k, k.close(id).0),
{
    if let Some(t) = k.calls.get(id) {
        let k1 = k.with_calls(k.calls.remove(id));
        after_ticket_keeps(k1, t);
        let k2 = k1.log(
            t.logical,
            "call.closed"@,
            JsonV::object().with("ticket"@, json::jnum(id.0)).with(
                "state"@,
                json::jstr(t.state.name()),
            ),
        );
        after_ticket_keeps(k2, t);
    }
}

proof fn conclude_keeps(k: KernelV, c: ConclusionV)
    ensures
        works(k, k.conclude(c)),
{
}

proof fn answer_keeps(k: KernelV, id: TicketId, c: ConclusionV, value: JsonV, ok: bool)
    ensures
        works(k, k.answer(id, c, value, ok).0),
{
    settle_keeps(k, id);
    let (k1, settled) = k.settle(id);
    conclude_keeps(k1, c);
}

proof fn fault_keeps(k: KernelV, fiber: Text, mode: Text, now: Instant)
    ensures
        works(k, k.fault(fiber, mode, now).0),
{
}

proof fn dispatch_keeps(k: KernelV, t: TicketV, input: JsonV, now: Instant)
    ensures
        works(k, k.dispatch(t, input, now).0),
{
    match k.dispatch(t, input, now).1 {
        InvocationV::Forward(_) => {},
        InvocationV::Answered(a) => {
            settle_keeps(k, t.id);
            let (k1, settled) = k.settle(t.id);
            let mode = match input.str_at("mode"@) {
                Some(m) => m,
                None => "panic"@,
            };
            fault_keeps(k1, t.logical, mode, now);
        },
    }
}

proof fn issued_stays_valid(k: KernelV, k2: KernelV, t: TicketV)
    requires
        k.valid(),
        k.calls.next_ticket < u64::MAX,
        t.id.0 == k.calls.next_ticket,
        t.dep matches Some(d) ==> d.parent.0 < k.calls.next_ticket,
        forall|i: int|
            0 <= i < t.pins.len() ==> (#[trigger] t.pins[i]).0 <= k.resources.slots.len(),
        k2.calls == k.calls.issue(t),
        k2.resources == k.resources,
        k2.definitions == k.definitions,
        k2.contexts == k.contexts,
        k2.caps == k.caps,
        k2.topics == k.topics,
    ensures
        k2.valid(),
{
    calls::tickets_are_fresh(k.calls, t);
    assert forall|n: u64, i: int|
        k2.calls.tickets.dom().contains(n) && 0 <= i < k2.calls.tickets[n].pins.len() implies (
    #[trigger] k2.calls.tickets[n].pins[i]).0 <= k2.resources.slots.len() by {
        if n == t.id.0 {
            assert(t.pins[i].0 <= k.resources.slots.len());
        } else {
            assert(k.calls.tickets[n].pins[i].0 <= k.resources.slots.len());
        }
    }
}

proof fn good_pins_exist(k: KernelV, pins: Seq<ResourceHandle>, ctx: ContextV)
    requires
        k.bad_pin(pins, ctx) is None,
    ensures
        forall|i: int|
            0 <= i < pins.len() ==> (#[trigger] pins[i]).0 <= k.resources.slots.len(),
    decreases pins.len(),
{
    if pins.len() > 0 {
        let rest = pins.drop_last();
        good_pins_exist(k, rest, ctx);
        assert forall|i: int| 0 <= i < pins.len() implies (#[trigger] pins[i]).0
            <= k.resources.slots.len() by {
            if i < rest.len() {
                assert(rest[i] == pins[i]);
            }
        }
    }
}

/// Opening a call, with whatever pins, keeps the kernel valid while ticket
/// numbers are left.
pub proof fn opening_keeps_validity(
    k: KernelV,
    cap: Text,
    input: JsonV,
    policy: Option<calls::CallPolicy>,
    pins: Seq<ResourceHandle>,
    now: Instant,
)
    requires
        k.valid(),
        k.calls.next_ticket < u64::MAX,
    ensures
        k.call_open(cap, input, policy, pins, now).0.valid(),
{
    let (k2, r) = k.call_open(cap, input, policy, pins, now);
    if r is Ok {
        let ctx = k.admission(cap)->Ok_0;
        good_pins_exist(k, pins, ctx);
        let policy = match policy {
            Some(p) => p,
            None => k.policy_for(ctx.logical, cap),
        };
        issued_stays_valid(k, k2, k.ticket_for(cap, ctx, policy, pins, now));
    }
}

/// So does an invocation, of a given activation or of any.
pub proof fn invoking_keeps_validity(
    k: KernelV,
    cap: Text,
    input: JsonV,
    expected: Option<InstanceRefV>,
    now: Instant,
)
    requires
        k.valid(),
        k.calls.next_ticket < u64::MAX,
    ensures
        k.invoke(cap, input, expected, now).0.valid(),
{
    if k.calls.tickets.dom().len() < calls::MAX_INFLIGHT_CALLS {
        if let Ok(ctx) = k.admission(cap) {
            let t = k.ticket_for(cap, ctx, k.policy_for(ctx.logical, cap), Seq::empty(), now);
            let k1 = k.with_calls(k.calls.issue(t));
            issued_stays_valid(k, k1, t);
            dispatch_keeps(k1, t, input, now);
            answer_keeps(
                k1,
                t.id,
                ConclusionV::Nothing,
                JsonV::object().with("code"@, json::jstr("stale-generation"@)),
                false,
            );
            kept_stays_valid(k1, k.invoke(cap, input, expected, now).0);
        }
    }
}

/// So does the admission of a dependency call.
pub proof fn admission_keeps_validity(k: KernelV, req: DepAdmitV, now: Instant)
    requires
        k.valid(),
        k.calls.next_ticket < u64::MAX,
    ensures
        k.dependency_admit(req, now).0.valid(),
{
    if let Ok(a) = k.dep_authority(req) {
        let t = k.child_ticket(req, a, now);
        assert(k.calls.tickets.dom().contains(req.parent.0));
        issued_stays_valid(k, k.dependency_admit(req, now).0, t);
    }
}

/// What ends, cancels, commits or answers calls keeps the kernel valid.
pub proof fn calls_keep_validity(
    k: KernelV,
    id: TicketId,
    kind: Text,
    payload: JsonV,
    now: Instant,
    at_ms: u64,
    reason: Text,
    req: ForwardRequestV,
    out: ForwardOutcomeV,
)
    requires
        k.valid(),
    ensures
        k.commit_effect(id, kind, payload, now, at_ms).0.valid(),
        k.call_cancel(id, reason).0.valid(),
        k.call_close(id).0.valid(),
        k.call_reap(id, reason).0.valid(),
        k.forwarded(req, out).0.valid(),
        k.dependency_accept(id, now).0.valid(),
        k.dependency_timeout(id).0.valid(),
{
    commits_keep(k, id, kind, payload, now, at_ms);
    kept_stays_valid(k, k.commit_effect(id, kind, payload, now, at_ms).0);
    kept_stays_valid(k, k.dependency_accept(id, now).0);
    cancels_keep(k, id, reason);
    kept_stays_valid(k, k.call_cancel(id, reason).0);
    kept_stays_valid(k, k.dependency_timeout(id).0);
    settle_keeps(k, id);
    kept_stays_valid(k, k.call_close(id).0);
    kept_stays_valid(k, k.call_reap(id, reason).0);
    forwarded_keeps(k, req, out);
    kept_stays_valid(k, k.forwarded(req, out).0);
}

proof fn commits_keep(
    k: KernelV,
    id: TicketId,
    kind: Text,
    payload: JsonV,
    now: Instant,
    at_ms: u64,
)
    ensures
        works(k, k.commit_effect(id, kind, payload, now, at_ms).0),
        works(k, k.dependency_accept(id, now).0),
{
}

proof fn cancels_keep(k: KernelV, id: TicketId, reason: Text)
    ensures
        works(k, k.call_cancel(id, reason).0),
        works(k, k.dependency_timeout(id).0),
{
    if k.calls.admitted(id) {
        let t = k.calls.get(id)->0;
        let a = k.with_calls(k.calls.end(id, TicketState::Cancelled, reason)).log(
            t.logical,
            "call.cancelled"@,
            tickets::ticket_reason(id, reason),
        );
        cancel_all_keeps(a, a.calls.heirs(id), "parent-cancelled"@);
        let b = k.with_calls(k.calls.end(id, TicketState::Expired, "deadline-exceeded"@)).log(
            t.logical,
            "call.expired"@,
            tickets::ticket_reason(id, "deadline-exceeded"@),
        );
        cancel_all_keeps(b, b.calls.heirs(id), "parent-expired"@);
    }
}

proof fn forwarded_keeps(
    k: KernelV,
    req: ForwardRequestV,
    out: ForwardOutcomeV,
)
    ensures
        works(k, k.forwarded(req, out).0),
{
    settle_keeps(k, req.ticket);
}

/// Giving and withdrawing grants keeps the kernel valid.
pub proof fn grants_keep_validity(k: KernelV, consumer: Text, cap: Text)
    requires
        k.valid(),
    ensures
        k.grant_outbound(consumer, cap).valid(),
        k.revoke_outbound(consumer, cap).valid(),
{
    let rev = k.grant_seq;
    laws::cancel_all_only_cancels(
        KernelV {
            grant_seq: num::next(rev),
            grants: k.grants.insert(
                consumer,
                (if k.grants.dom().contains(consumer) {
                    k.grants[consumer]
                } else {
                    Map::empty()
                }).insert(cap, rev),
            ),
            ..k
        },
        WhichV::Granted { consumer, cap, keep_rev: Some(rev) },
        "grant-superseded"@,
    );
    kept_stays_valid(k, k.grant_outbound(consumer, cap));
    laws::cancel_all_only_cancels(
        KernelV {
            grants: if k.grants.dom().contains(consumer) {
                k.grants.insert(consumer, k.grants[consumer].remove(cap))
            } else {
                k.grants
            },
            ..k
        },
        WhichV::Granted { consumer, cap, keep_rev: None },
        "grant-revoked"@,
    );
    kept_stays_valid(k, k.revoke_outbound(consumer, cap));
}

// ---- jobs -------------------------------------------------------------

proof fn withdraw_calls_keeps(k: KernelV, logical: Text, ts: Seq<TicketV>, now: Instant)
    ensures
        works(k, k.withdraw_calls(logical, ts, now).0),
    decreases ts.len(),
{
    if ts.len() > 0 {
        withdraw_calls_keeps(k, logical, ts.drop_last(), now);
        let k1 = k.withdraw_calls(logical, ts.drop_last(), now).0;
        assert(works(k1, k.withdraw_calls(logical, ts, now).0));
        works_chain(k, k1, k.withdraw_calls(logical, ts, now).0);
    }
}

proof fn log_expired_keeps(k: KernelV, logical: Text, ids: Seq<u64>)
    ensures
        works(k, k.log_expired(logical, ids)),
    decreases ids.len(),
{
    if ids.len() > 0 {
        log_expired_keeps(k, logical, ids.drop_last());
        let k1 = k.log_expired(logical, ids.drop_last()).log(
            logical,
            "call.expired"@,
            tickets::ticket_reason(TicketId(ids.last()), "drain-exceeded"@),
        );
        cancel_all_keeps(k1, k1.calls.heirs(TicketId(ids.last())), "parent-expired"@);
        works_chain(k, k1, k.log_expired(logical, ids));
    }
}

proof fn begin_dispose_keeps(k: KernelV, inst: InstanceId, now: Instant)
    ensures
        works(k, k.begin_dispose(inst, now).0),
{
    let (cs, claim) = k.contexts.claim(inst.0);
    let k1 = k.with_contexts(cs);
    if let Ok(DisposeClaimV::Fresh(rec)) = claim {
        let k2 = k1.plugin_to(rec.logical, inst, Fsm::Quiescing).prune_bindings(inst).event(
            LifecycleV::Withdrawn {
                logical: rec.logical,
                instance: inst.0,
                generation: rec.generation,
            },
        );
        assert(works(k, k2));
        let hs = resources::handles_in(k2.resources.slots, rec.context);
        unpublish_each_keeps(k2, hs, rec);
        let k3 = k2.unpublish_each(hs, rec);
        works_chain(k, k2, k3);
        let ts = calls::select(k3.calls.tickets, WhichV::Of(inst));
        withdraw_calls_keeps(k3, rec.logical, ts, now);
        works_chain(k, k3, k3.withdraw_calls(rec.logical, ts, now).0);
    }
}

proof fn unpublish_each_keeps(k: KernelV, hs: Seq<ResourceHandle>, rec: ContextV)
    ensures
        works(k, k.unpublish_each(hs, rec)),
    decreases hs.len(),
{
    if hs.len() > 0 {
        let k1 = k.unpublish_each(hs.drop_last(), rec);
        unpublish_each_keeps(k, hs.drop_last(), rec);
        if let Some(r) = k.resources.get(hs.last()) {
            unpublish_keeps(k1, r.kind, rec.instance);
            works_chain(k, k1, k1.unpublish(r.kind, rec.instance));
        }
    }
}

proof fn finish_dispose_keeps(k: KernelV, rec: ContextV, now: Instant)
    ensures
        works(k, k.finish_dispose(rec, now).0),
{
    let k0 = k.cancel_all(WhichV::AskedBy(rec.instance), "consumer-withdraw"@);
    cancel_all_keeps(k, WhichV::AskedBy(rec.instance), "consumer-withdraw"@);
    let k1 = k0.with_calls(
        k0.calls.end_all(WhichV::Overdue(now), TicketState::Expired, "drain-exceeded"@),
    );
    assert(works(k0, k1));
    let ids = calls::ids_of(k0.calls.tickets, WhichV::Overdue(now));
    log_expired_keeps(k1, rec.logical, ids);
    let k2 = k1.log_expired(rec.logical, ids);
    works_chain(k, k0, k1);
    works_chain(k, k1, k2);
    let hs = resources::handles_in(k2.resources.slots, rec.context);
    clean_back_keeps(k2, hs, rec);
    let k3 = k2.clean_back(hs, rec).0;
    let k4 = k.finish_dispose(rec, now).0;
    if calls::ids_of(k2.calls.tickets, WhichV::Of(rec.instance)).len() > 0 {
        assert(works(k2, k4));
        works_chain(k, k2, k4);
    } else {
        works_chain(k, k2, k3);
        assert(works(k3, k4));
        works_chain(k, k3, k4);
    }
}

proof fn waiting_keeps(k: KernelV, logical: Text, def: ManifestV, reason: Text)
    ensures
        works(k, k.create_waiting(def, reason)),
        works(k, k.ensure_waiting(logical, def, reason).0),
        works(k, k.park(logical, reason)),
{
}

proof fn activated_keeps(k: KernelV, logical: Text, ctx: ContextV, bs: Seq<BindingV>)
    ensures
        works(k, k.activated(logical, ctx, bs)),
{
    let k1 = k.log(
        logical,
        "plugin.active"@,
        JsonV::object().with("id"@, json::jstr(logical)).with(
            "instance"@,
            json::jnum(ctx.instance.0),
        ).with("generation"@, json::jnum(ctx.generation)).with(
            "bindings"@,
            lifecycle::binding_entries(bs),
        ),
    ).announce(logical, ctx);
    if let Some(cur) = k1.contexts.get(ctx.instance.0) {
        laws::issue_each_only_issues(
            KernelV {
                dep_bindings: strmap::kept(
                    k1.dep_bindings,
                    |b: DepBindingV| b.consumer_instance != ctx.instance,
                ),
                ..k1
            },
            logical,
            cur,
            bs,
        );
    }
}

proof fn promote_keeps(k: KernelV, logical: Text, def: ManifestV)
    ensures
        works(k, k.promote(logical, def).0),
{
    if let Some(st) = k.contexts.current_of(logical) {
        if st.state.is_waiting_like() {
            match resolve::resolved(logical, k.definitions, k.states()) {
                Err(e) => waiting_keeps(k, logical, def, e.reason()),
                Ok(bs) => {
                    let (k1, res) = k.acquire_definition(st, def);
                    acquire_kinds_keeps(k, st, def.id, acquire::declared_kinds(def));
                    match res {
                        Err(e) => {
                            waiting_keeps(k1, logical, def, "acquire failed: "@ + e);
                            works_chain(k, k1, k1.park(logical, "acquire failed: "@ + e));
                        },
                        Ok(hs) => match k1.plugin(logical) {
                            Some(p) if p.instance_id == st.instance.0 => {
                                let k2 = k1.with_plugin(
                                    logical,
                                    PluginV {
                                        state: Fsm::Active,
                                        bindings: bs,
                                        wait_cause: None,
                                        resources: hs,
                                        ..p
                                    },
                                );
                                let k3 = k2.with_contexts(
                                    k2.contexts.activate(st.instance.0).0,
                                );
                                assert(works(k, k3));
                                activated_keeps(k3, logical, st, bs);
                                works_chain(k, k3, k3.activated(logical, st, bs));
                            },
                            _ => {
                                undo_back_keeps(k1, st.instance, hs);
                                works_chain(k, k1, k1.undo_back(st.instance, hs));
                            },
                        },
                    }
                },
            }
        }
    }
}

proof fn create_active_keeps(
    k: KernelV,
    def: ManifestV,
    bs: Seq<BindingV>,
    json_state: JsonV,
    now: Instant,
)
    ensures
        works(k, k.create_active(def, bs, json_state, now).0),
{
    let ctx = k.contexts.fresh(def.id, Fsm::Active, None);
    let k0 = k.with_contexts(k.contexts.create(def.id, Fsm::Active, None));
    let (k1, res) = k0.acquire_definition(ctx, def);
    acquire_kinds_keeps(k0, ctx, def.id, acquire::declared_kinds(def));
    assert(works(k, k1));
    match res {
        Ok(hs) => {
            let k2 = k1.with_plugin(
                def.id,
                lifecycle::entry(def, ctx, Fsm::Active, bs, None, json_state, hs),
            );
            assert(works(k, k2));
            activated_keeps(k2, def.id, ctx, bs);
            works_chain(k, k2, k2.activated(def.id, ctx, bs));
        },
        Err(e) => {
            begin_dispose_keeps(k1, ctx.instance, now);
            let (k2, b) = k1.begin_dispose(ctx.instance, now);
            works_chain(k, k1, k2);
            let k3 = k1.dispose_now(ctx.instance, now);
            if let BegunV::Draining { rec, .. } = b {
                finish_dispose_keeps(k2, rec, now);
                works_chain(k, k2, k3);
            }
            waiting_keeps(k3, def.id, def, "acquire failed: "@ + e);
            works_chain(k, k3, k3.park(def.id, "acquire failed: "@ + e));
        },
    }
}

proof fn activate_in_keeps(
    k: KernelV,
    order: Seq<Text>,
    states: Map<Text, ContextV>,
    now: Instant,
)
    ensures
        works(k, k.activate_in(order, states, now).0),
    decreases order.len(),
{
    if order.len() > 0 {
        activate_in_keeps(k, order.drop_last(), states, now);
        let (k1, changed) = k.activate_in(order.drop_last(), states, now);
        if !changed {
            let l = order.last();
            if let Some(def) = k1.definition(l) {
                promote_keeps(k1, l, def);
                match resolve::resolved(l, k1.definitions, states) {
                    Ok(bs) => create_active_keeps(k1, def, bs, k1.preserved(l, def), now),
                    Err(e) => waiting_keeps(k1, l, def, e.reason()),
                }
            }
            assert(works(k1, k1.activate_one(l, states, now).0));
            works_chain(k, k1, k1.activate_one(l, states, now).0);
        }
    }
}

proof fn drop_remotes_keeps(k: KernelV, ls: Seq<Text>)
    ensures
        works(k, k.drop_remotes(ls)),
    decreases ls.len(),
{
    if ls.len() > 0 {
        drop_remotes_keeps(k, ls.drop_last());
    }
}

proof fn withdraw_step_keeps(k: KernelV, p: PassV, now: Instant)
    ensures
        works(k, k.withdraw_step(p, now).0),
{
    let item = p.items[p.at as int];
    waiting_keeps(k, item.logical, item.def, item.reason);
    if let Some(st) = k.contexts.current_of(item.logical) {
        begin_dispose_keeps(k, st.instance, now);
        let k1 = k.begin_dispose(st.instance, now).0;
        waiting_keeps(k1, item.logical, item.def, item.reason);
        works_chain(k, k1, k1.create_waiting(item.def, item.reason));
    }
}

proof fn step_keeps(k: KernelV, job: JobV, now: Instant)
    ensures
        works(k, k.step(job, now).0),
{
    reveal(KernelV::step);
    match job.stage {
        StageV::Dispose(inst) => begin_dispose_keeps(k, inst, now),
        StageV::Finish(rec) => finish_dispose_keeps(k, rec, now),
        StageV::Settle => {},
        StageV::Reconcile(_) => if let PlanV::Drop(ls) = k.plan() {
            drop_remotes_keeps(k, ls);
        },
        StageV::Withdraw(p) => {
            withdraw_step_keeps(k, p, now);
            activate_in_keeps(k, k.activation_order(), k.states(), now);
        },
        StageV::Drain(rec, item, _) => {
            finish_dispose_keeps(k, rec, now);
            let k1 = k.finish_dispose(rec, now).0;
            waiting_keeps(k1, item.logical, item.def, item.reason);
            works_chain(k, k1, k1.create_waiting(item.def, item.reason));
        },
        StageV::Conclude => conclude_keeps(k, job.conclusion),
        StageV::Done => {},
    }
}

proof fn advance_keeps(k: KernelV, job: JobV, now: Instant)
    ensures
        works(k, k.advance(job, now).0),
    decreases job.rank(), job.rounds_left(), job.items_left(),
{
    if !(job.stage is Done) {
        step_keeps(k, job, now);
        let (k1, j, w) = k.step(job, now);
        jobs::step_descends(k, job, now);
        if w is None {
            advance_keeps(k1, j, now);
            works_chain(k, k1, k1.advance(j, now).0);
        }
    }
}

/// A job taken further, be it a disposal or a reconciliation, keeps the
/// kernel valid.
pub proof fn jobs_keep_validity(k: KernelV, job: JobV, now: Instant)
    requires
        k.valid(),
    ensures
        k.advance(job, now).0.valid(),
{
    advance_keeps(k, job, now);
    kept_stays_valid(k, k.advance(job, now).0);
}

/// A job deletes no definition and changes none: what is withdrawn can come
/// back.
pub proof fn jobs_keep_definitions(k: KernelV, job: JobV, now: Instant)
    ensures
        k.advance(job, now).0.definitions == k.definitions,
{
    advance_keeps(k, job, now);
}

// ---- definitions and events -------------------------------------------

/// Loading, removing and registering definitions keeps the kernel valid.
pub proof fn definitions_keep_validity(
    k: KernelV,
    def: ManifestV,
    id: Text,
    instance: u64,
    generation: u64,
    peer: Text,
)
    requires
        k.valid(),
    ensures
        k.load(def).0.valid(),
        k.install_remote(def).0.valid(),
        k.dispose_plugin(id).0.valid(),
        k.register_remote(id, instance, generation, peer).0.valid(),
        k.unregister_remote(id).0.valid(),
        (KernelV { definitions: k.definitions.remove(id), ..k }).valid(),
{
    assert(kept(k, k.load(def).0));
    kept_stays_valid(k, k.load(def).0);
    assert(kept(k, k.install_remote(def).0));
    kept_stays_valid(k, k.install_remote(def).0);
    assert(kept(k, k.dispose_plugin(id).0));
    kept_stays_valid(k, k.dispose_plugin(id).0);
    kept_stays_valid(k, k.register_remote(id, instance, generation, peer).0);
    kept_stays_valid(k, k.unregister_remote(id).0);
    kept_stays_valid(k, KernelV { definitions: k.definitions.remove(id), ..k });
}

proof fn deliver_each_keeps(k: KernelV, insts: Seq<InstanceId>, topic: Text)
    ensures
        works(k, k.deliver_each(insts, topic)),
    decreases insts.len(),
{
    if insts.len() > 0 {
        deliver_each_keeps(k, insts.drop_last(), topic);
    }
}

proof fn deliver_names_keeps(k: KernelV, names: Seq<Text>, topic: Text)
    ensures
        works(k, k.deliver_names(names, topic)),
    decreases names.len(),
{
    if names.len() > 0 {
        deliver_names_keeps(k, names.drop_last(), topic);
    }
}

proof fn replay_keeps(k: KernelV, es: Seq<EntryV>)
    ensures
        works(k, k.replay(es).0),
    decreases es.len(),
{
    if es.len() > 0 {
        replay_keeps(k, es.drop_last());
    }
}

proof fn release_workers_keeps(k: KernelV, rs: Seq<ResourceV>)
    ensures
        works(k, k.release_workers(rs)),
    decreases rs.len(),
{
    if rs.len() > 0 {
        release_workers_keeps(k, rs.drop_last());
        let k1 = k.release_workers(rs.drop_last());
        release_keeps(k1, rs.last().handle);
        works_chain(k, k1, k.release_workers(rs));
    }
}

/// Events, faults, replays and the clearing of the bench keep the kernel
/// valid.
pub proof fn events_keep_validity(
    k: KernelV,
    topic: Text,
    fiber: Text,
    mode: Text,
    now: Instant,
    es: Seq<EntryV>,
    rs: Seq<ResourceV>,
)
    requires
        k.valid(),
    ensures
        k.deliver(topic).valid(),
        k.fault(fiber, mode, now).0.valid(),
        k.replay(es).0.valid(),
        k.release_workers(rs).valid(),
{
    let insts = bus::instances_of(bus::subs_of(k.topics, topic));
    let k1 = k.deliver_each(insts, topic);
    deliver_each_keeps(k, insts, topic);
    let names = bus::subs_of(k.topics, topic).map_values(|s: SubV| s.logical);
    deliver_names_keeps(k1, names, topic);
    works_chain(k, k1, k.deliver(topic));
    kept_stays_valid(k, k.deliver(topic));
    fault_keeps(k, fiber, mode, now);
    kept_stays_valid(k, k.fault(fiber, mode, now).0);
    replay_keeps(k, es);
    kept_stays_valid(k, k.replay(es).0);
    release_workers_keeps(k, rs);
    kept_stays_valid(k, k.release_workers(rs));
}

/// Registering a capability without an instance keeps the kernel valid.
pub proof fn providing_keeps_validity(k: KernelV, cap: Text, e: registry::EntryV)
    requires
        k.valid(),
        e.instance == 0,
    ensures
        (KernelV { caps: k.caps.insert(cap, e), ..k }).valid(),
{
    kept_stays_valid(k, KernelV { caps: k.caps.insert(cap, e), ..k });
}

// ---- withdrawal -------------------------------------------------------

/// What is revoked with each of `hs` is published no more.
proof fn unpublish_each_revokes(
    k: KernelV,
    hs: Seq<ResourceHandle>,
    rec: ContextV,
    h: ResourceHandle,
    s: SubV,
)
    requires
        hs.contains(h),
        k.resources.get(h) matches Some(r) && r.owner_context == rec.context,
        s.instance == rec.instance.0,
    ensures
        ({
            let k2 = k.unpublish_each(hs, rec);
            match k.resources.get(h)->0.kind {
                ResourceKindV::Cap { name } => !(k2.caps.dom().contains(name)
                    && k2.caps[name].instance == rec.instance.0),
                ResourceKindV::Sub { topic } => !bus::subs_of(k2.topics, topic).contains(s),
                _ => true,
            }
        }),
    decreases hs.len(),
{
    let rest = hs.drop_last();
    let l = hs[hs.len() - 1];
    let k1 = k.unpublish_each(rest, rec);
    if h != l {
        let j = choose|j: int| 0 <= j < hs.len() && hs[j] == h;
        assert(rest[j] == h);
        unpublish_each_revokes(k, rest, rec, h, s);
    }
    if let Some(r) = k.resources.get(l) {
        if let ResourceKindV::Sub { topic } = r.kind {
            if let ResourceKindV::Sub { topic: t } = k.resources.get(h)->0.kind {
                bus::unsubscription_is_exact(k1.topics, topic, rec.instance.0, t, s);
            }
        }
    }
}

/// Revoking adds no publication.
proof fn unpublish_each_narrows(
    k: KernelV,
    hs: Seq<ResourceHandle>,
    rec: ContextV,
    cap: Text,
    topic: Text,
    s: SubV,
)
    ensures
        ({
            let k2 = k.unpublish_each(hs, rec);
            &&& k2.caps.dom().contains(cap) ==> k.caps.dom().contains(cap) && k2.caps[cap]
                == k.caps[cap]
            &&& bus::subs_of(k2.topics, topic).contains(s) ==> bus::subs_of(
                k.topics,
                topic,
            ).contains(s)
        }),
    decreases hs.len(),
{
    if hs.len() > 0 {
        unpublish_each_narrows(k, hs.drop_last(), rec, cap, topic, s);
        let k1 = k.unpublish_each(hs.drop_last(), rec);
        if let Some(r) = k.resources.get(hs.last()) {
            if let ResourceKindV::Sub { topic: t } = r.kind {
                bus::unsubscription_is_exact(k1.topics, t, rec.instance.0, topic, s);
            }
        }
    }
}

/// From the moment an instance is withdrawn no capability and no subscription
/// names it.
pub proof fn the_withdrawn_publish_nothing(
    k: KernelV,
    inst: InstanceId,
    now: Instant,
    cap: Text,
    topic: Text,
    s: SubV,
)
    requires
        k.valid(),
        k.contexts.wf(),
        k.resources.slots.len() <= u64::MAX,
        k.begin_dispose(inst, now).1 is Draining,
    ensures
        ({
            let k2 = k.begin_dispose(inst, now).0;
            &&& k2.caps.dom().contains(cap) ==> k2.caps[cap].instance != inst.0
            &&& bus::subs_of(k2.topics, topic).contains(s) ==> s.instance != inst.0
        }),
{
    let (cs, claim) = k.contexts.claim(inst.0);
    let k1 = k.with_contexts(cs);
    let rec = claim->Ok_0->Fresh_0;
    assert(rec == k.contexts.records[inst.0 - 1].in_state(Fsm::Quiescing, None));
    assert(rec.instance == inst && rec.context.0 == inst.0);
    let k2 = k1.plugin_to(rec.logical, inst, Fsm::Quiescing).prune_bindings(inst).event(
        LifecycleV::Withdrawn {
            logical: rec.logical,
            instance: inst.0,
            generation: rec.generation,
        },
    );
    let slots = k.resources.slots;
    let hs = resources::handles_in(slots, rec.context);
    let k3 = k2.unpublish_each(hs, rec);
    laws::withdraw_calls_only_ends(
        k3,
        rec.logical,
        calls::select(k3.calls.tickets, WhichV::Of(inst)),
        now,
    );
    unpublish_each_narrows(k2, hs, rec, cap, topic, s);
    if k3.caps.dom().contains(cap) && k3.caps[cap].instance == inst.0 {
        let kind = ResourceKindV::Cap { name: cap };
        assert(k.backed(kind, inst.0));
        let i = choose|i: int| 0 <= i < slots.len() && #[trigger] holds(slots[i], kind, inst.0);
        laws::handles_in_complete(slots, rec.context, i);
        unpublish_each_revokes(
            k2,
            hs,
            rec,
            ResourceHandle((i + 1) as u64),
            SubV { instance: inst.0, ..s },
        );
    }
    if bus::subs_of(k3.topics, topic).contains(s) && s.instance == inst.0 {
        let kind = ResourceKindV::Sub { topic };
        assert(k.backed(kind, inst.0));
        let i = choose|i: int| 0 <= i < slots.len() && #[trigger] holds(slots[i], kind, inst.0);
        laws::handles_in_complete(slots, rec.context, i);
        unpublish_each_revokes(k2, hs, rec, ResourceHandle((i + 1) as u64), s);
    }
}

} // verus!
