//! What becomes of an instance: how it is activated, and how its disposal
//! ends.

use vstd::prelude::*;
use crate::bus;
use crate::bus::{SubV, Topics};
use crate::calls;
use crate::calls::{TicketId, TicketState, TicketV, WhichV};
use crate::context;
use crate::context::ContextV;
use crate::deps::{BindingV, ResolveErrorV};
use crate::fsm::Fsm;
use crate::identity::{InstanceId, ResourceHandle};
use crate::json;
use crate::json::JsonV;
use crate::kernel::acquire;
use crate::kernel::bounded;
use crate::kernel::jobs;
use crate::kernel::jobs::{JobV, ProgressV, StageV};
use crate::kernel::laws;
use crate::kernel::lifecycle;
use crate::kernel::outcomes;
use crate::kernel::resolve;
use crate::kernel::stable;
use crate::kernel::tickets;
use crate::kernel::{DepBindingV, KernelV, PluginV};
use crate::manifest::ManifestV;
use crate::num;
use crate::resources;
use crate::resources::{ResourceKindV, ResourceState, ResourceV};
use crate::strmap;
use crate::text::Text;
use crate::time::Instant;

verus! {

// ---- the end of a disposal --------------------------------------------

/// Whether `r` is `t`, expired because its drain is over.
pub open spec fn expired(t: TicketV, r: TicketV) -> bool {
    &&& r.state == TicketState::Expired
    &&& r.cancel
    &&& r.cancel_reason == Some("drain-exceeded"@)
    &&& r == (TicketV {
        state: r.state,
        cancel: r.cancel,
        cancel_reason: r.cancel_reason,
        ..t
    })
}

/// What the end of the disposal of `inst` makes of the ticket `t`: what the
/// instance asked of others is cancelled, an admitted call whose deadline is
/// over expires, and the calls that descend from such a one are cancelled.
/// All others stay.
pub open spec fn settled(t: TicketV, r: TicketV, inst: InstanceId, now: Instant) -> bool {
    if t.state != TicketState::Admitted {
        r == t
    } else if t.dep matches Some(d) && d.consumer == inst {
        outcomes::cancelled_for(t, r, "consumer-withdraw"@)
    } else if t.drain_until matches Some(u) && u.nanos <= now.nanos {
        expired(t, r)
    } else {
        r == t || t.dep is Some && outcomes::cancelled_for(t, r, "parent-expired"@)
    }
}

/// Whether `b` has the tickets of `a`, except that children may be cancelled.
spec fn only_heirs_end(a: KernelV, b: KernelV) -> bool {
    &&& b.calls.tickets.dom() == a.calls.tickets.dom()
    &&& forall|i: u64|
        #![trigger b.calls.tickets[i]]
        a.calls.tickets.dom().contains(i) ==> {
            let t = a.calls.tickets[i];
            let r = b.calls.tickets[i];
            r == t || t.state == TicketState::Admitted && t.dep is Some
                && outcomes::cancelled_for(t, r, "parent-expired"@)
        }
}

proof fn expiries_end_heirs(k: KernelV, logical: Text, ids: Seq<u64>)
    ensures
        only_heirs_end(k, k.log_expired(logical, ids)),
    decreases ids.len(),
{
    if ids.len() > 0 {
        expiries_end_heirs(k, logical, ids.drop_last());
        let k1 = k.log_expired(logical, ids.drop_last()).log(
            logical,
            "call.expired"@,
            tickets::ticket_reason(TicketId(ids.last()), "drain-exceeded"@),
        );
        let w = k1.calls.heirs(TicketId(ids.last()));
        laws::cancel_all_only_cancels(k1, w, "parent-expired"@);
        let k2 = k.log_expired(logical, ids);
        assert(k2.calls.tickets.dom() =~= k.calls.tickets.dom());
        assert forall|i: u64|
            #![trigger k2.calls.tickets[i]]
            k.calls.tickets.dom().contains(i) implies {
            let t = k.calls.tickets[i];
            let r = k2.calls.tickets[i];
            r == t || t.state == TicketState::Admitted && t.dep is Some
                && outcomes::cancelled_for(t, r, "parent-expired"@)
        } by {
            let m = k1.calls.tickets[i];
            assert(k1.calls.tickets.dom().contains(i));
            if w.has(m) {
                assert(m.open());
            }
        }
    }
}

/// The state in which the end of a disposal looks for calls that are left.
spec fn after_expiry(k: KernelV, rec: ContextV, now: Instant) -> KernelV {
    let k1 = k.cancel_all(WhichV::AskedBy(rec.instance), "consumer-withdraw"@);
    k1.with_calls(
        k1.calls.end_all(WhichV::Overdue(now), TicketState::Expired, "drain-exceeded"@),
    ).log_expired(rec.logical, calls::ids_of(k1.calls.tickets, WhichV::Overdue(now)))
}

proof fn expiry_settles(k: KernelV, rec: ContextV, now: Instant)
    ensures
        ({
            let k2 = after_expiry(k, rec, now);
            &&& k2.calls.tickets.dom() == k.calls.tickets.dom()
            &&& forall|i: u64|
                #![trigger k2.calls.tickets[i]]
                k.calls.tickets.dom().contains(i) ==> settled(
                    k.calls.tickets[i],
                    k2.calls.tickets[i],
                    rec.instance,
                    now,
                )
            &&& k2 == (KernelV { calls: k2.calls, journal: k2.journal, ..k })
            &&& k2.calls.effects == k.calls.effects
        }),
{
    let k1 = k.cancel_all(WhichV::AskedBy(rec.instance), "consumer-withdraw"@);
    laws::cancel_all_only_cancels(k, WhichV::AskedBy(rec.instance), "consumer-withdraw"@);
    let c = k1.with_calls(
        k1.calls.end_all(WhichV::Overdue(now), TicketState::Expired, "drain-exceeded"@),
    );
    let ids = calls::ids_of(k1.calls.tickets, WhichV::Overdue(now));
    expiries_end_heirs(c, rec.logical, ids);
    laws::log_expired_only_cancels(c, rec.logical, ids);
    let k2 = after_expiry(k, rec, now);
    assert(k2.calls.tickets.dom() =~= k.calls.tickets.dom());
    assert forall|i: u64|
        #![trigger k2.calls.tickets[i]]
        k.calls.tickets.dom().contains(i) implies settled(
        k.calls.tickets[i],
        k2.calls.tickets[i],
        rec.instance,
        now,
    ) by {
        assert(c.calls.tickets.dom().contains(i));
        assert(k1.calls.tickets.dom().contains(i));
        let m = c.calls.tickets[i];
        let r = k2.calls.tickets[i];
        assert(r == m || m.state == TicketState::Admitted && m.dep is Some
            && outcomes::cancelled_for(m, r, "parent-expired"@));
    }
}

pub(crate) proof fn left_calls_run(k: KernelV, inst: InstanceId)
    requires
        k.calls.tickets.dom().finite(),
    ensures
        calls::ids_of(k.calls.tickets, WhichV::Of(inst)).len() > 0 <==> exists|id: TicketId|
            #[trigger] outcomes::runs(k, inst, id),
{
    let m = k.calls.tickets;
    let w = WhichV::Of(inst);
    let all = num::in_order(m.dom());
    let ids = calls::ids_of(m, w);
    num::in_order_sorted(m.dom());
    calls::picked_members(all, m, w);
    if ids.len() > 0 {
        assert(all.contains(ids[0]));
        assert(all.to_set().contains(ids[0]));
        assert(outcomes::runs(k, inst, TicketId(ids[0])));
    }
    if exists|id: TicketId| #[trigger] outcomes::runs(k, inst, id) {
        let id = choose|id: TicketId| #[trigger] outcomes::runs(k, inst, id);
        assert(all.to_set().contains(id.0));
        let j = choose|j: int| 0 <= j < all.len() && all[j] == id.0;
        assert(ids.contains(all[j]));
    }
}

/// A disposal ends with the calls settled. Where the instance executes calls
/// that have not been closed, it is parked and keeps what it owns; else its
/// resources are released, and unless one of them refuses it is disposed.
pub proof fn disposals_end(k: KernelV, rec: ContextV, now: Instant)
    requires
        k.calls.wf(),
        k.contexts.has(rec.instance.0),
    ensures
        ({
            let (k2, o) = k.finish_dispose(rec, now);
            let busy = exists|id: TicketId| #[trigger] outcomes::runs(k, rec.instance, id);
            let s = k2.contexts.get(rec.instance.0)->0.state;
            &&& k2.contexts.get(rec.instance.0) is Some
            &&& k2.calls.tickets.dom() == k.calls.tickets.dom()
            &&& forall|i: u64|
                #![trigger k2.calls.tickets[i]]
                k.calls.tickets.dom().contains(i) ==> settled(
                    k.calls.tickets[i],
                    k2.calls.tickets[i],
                    rec.instance,
                    now,
                )
            &&& busy ==> o is CleanupPending && s == Fsm::CleanupPending && k2.resources
                == k.resources && k2.caps == k.caps && k2.topics == k.topics
            &&& !busy ==> (o is Disposed && s == Fsm::Disposed || o is CleanupPending && s
                == Fsm::CleanupPending && exists|i: int|
                0 <= i < k.resources.slots.len() && refuses(#[trigger] k.resources.slots[i], rec))
            &&& k2.calls.effects == k.calls.effects
        }),
{
    expiry_settles(k, rec, now);
    let k1 = after_expiry(k, rec, now);
    let (k2, o) = k.finish_dispose(rec, now);
    left_calls_run(k1, rec.instance);
    assert(k1.calls.tickets.dom() == k.calls.tickets.dom());
    let busy = exists|id: TicketId| #[trigger] outcomes::runs(k, rec.instance, id);
    assert(busy <==> exists|id: TicketId| #[trigger] outcomes::runs(k1, rec.instance, id)) by {
        if busy {
            let id = choose|id: TicketId| #[trigger] outcomes::runs(k, rec.instance, id);
            let r = k1.calls.tickets[id.0];
            assert(settled(k.calls.tickets[id.0], r, rec.instance, now));
            assert(outcomes::runs(k1, rec.instance, id));
        }
        if exists|id: TicketId| #[trigger] outcomes::runs(k1, rec.instance, id) {
            let id = choose|id: TicketId| #[trigger] outcomes::runs(k1, rec.instance, id);
            let r = k1.calls.tickets[id.0];
            assert(settled(k.calls.tickets[id.0], r, rec.instance, now));
            assert(outcomes::runs(k, rec.instance, id));
        }
    }
    let hs = resources::handles_in(k1.resources.slots, rec.context);
    laws::clean_back_only_releases(k1, hs, rec);
    if !busy && k1.clean(rec).1.len() > 0 {
        failures_refuse(k1, hs, rec);
    }
}

/// Whether the resource is an active one of the context that refuses to be
/// released.
pub open spec fn refuses(s: Option<ResourceV>, ctx: ContextV) -> bool {
    s matches Some(r) && r.state == ResourceState::Active && r.owner_context == ctx.context
        && r.kind is FailRelease
}

pub(crate) proof fn failures_refuse(k: KernelV, hs: Seq<ResourceHandle>, ctx: ContextV)
    requires
        k.clean_back(hs, ctx).1.len() > 0,
    ensures
        exists|i: int|
            0 <= i < k.resources.slots.len() && refuses(#[trigger] k.resources.slots[i], ctx),
    decreases hs.len(),
{
    if hs.len() > 0 {
        let (k1, f) = k.clean_one(hs.last(), ctx);
        if f is Some {
            assert(refuses(k.resources.slots[hs.last().0 - 1], ctx));
        } else {
            failures_refuse(k1, hs.drop_last(), ctx);
            let i = choose|i: int|
                0 <= i < k1.resources.slots.len() && refuses(
                    #[trigger] k1.resources.slots[i],
                    ctx,
                );
            assert(refuses(k.resources.slots[i], ctx));
        }
    }
}

// ---- waiting for drains -----------------------------------------------

/// A drain that is not over is waited for, until its end and no further; one
/// that is over, or none, is not.
pub proof fn drains_are_waited_for(inst: InstanceId, until: Option<Instant>, now: Instant)
    ensures
        match jobs::wait_for(inst, until, now) {
            Some((i, u)) => i == inst && until == Some(u) && u.nanos > now.nanos,
            None => until matches Some(u) ==> u.nanos <= now.nanos,
        },
{
}

/// A disposal whose drains are not over stops there: it asks to be resumed at
/// the end that the drains give. Resumed, it goes on with the end of the
/// disposal at the time of the resumption, and its outcome is that of the
/// job.
pub proof fn disposals_are_resumed(
    k: KernelV,
    job: JobV,
    inst: InstanceId,
    now: Instant,
    later: Instant,
    k3: KernelV,
)
    requires
        job.stage == StageV::Dispose(inst),
        k.begin_dispose(inst, now).1 is Draining,
    ensures
        ({
            let (k2, b) = k.begin_dispose(inst, now);
            let left = job.to(StageV::Finish(b->rec));
            let (k4, o) = k3.finish_dispose(b->rec, later);
            &&& match b->until {
                Some(u) if u.nanos > now.nanos => k.advance(job, now) == (
                    k2,
                    ProgressV::Wait { job: left, instance: inst, until: u },
                ),
                _ => k.advance(job, now) == k2.advance(left, now),
            }
            &&& k3.advance(left, later) == k4.advance(
                JobV { stage: StageV::Settle, outcome: Some(o), ..job },
                later,
            )
        }),
{
    let (k2, b) = k.begin_dispose(inst, now);
    let left = job.to(StageV::Finish(b->rec));
    disposal_steps(k, job, inst, now);
    finishing_steps(k3, left, b->rec, later);
    let (k4, o) = k3.finish_dispose(b->rec, later);
    stable::advances_by_a_step(
        k3,
        left,
        later,
        k4,
        JobV { stage: StageV::Settle, outcome: Some(o), ..left },
    );
    if !(b->until matches Some(u) && u.nanos > now.nanos) {
        stable::advances_by_a_step(k, job, now, k2, left);
    }
}

proof fn disposal_steps(k: KernelV, job: JobV, inst: InstanceId, now: Instant)
    requires
        job.stage == StageV::Dispose(inst),
        k.begin_dispose(inst, now).1 is Draining,
    ensures
        ({
            let (k2, b) = k.begin_dispose(inst, now);
            k.step(job, now) == (
                k2,
                job.to(StageV::Finish(b->rec)),
                jobs::wait_for(inst, b->until, now),
            )
        }),
{
    reveal(KernelV::step);
}

proof fn finishing_steps(k: KernelV, job: JobV, rec: ContextV, now: Instant)
    requires
        job.stage == StageV::Finish(rec),
    ensures
        ({
            let (k2, o) = k.finish_dispose(rec, now);
            k.step(job, now) == (
                k2,
                JobV { stage: StageV::Settle, outcome: Some(o), ..job },
                None::<(InstanceId, Instant)>,
            )
        }),
{
    reveal(KernelV::step);
}

// ---- activation -------------------------------------------------------

/// Whether `p` is the entry of an instance of `def`: what the definition says
/// of it, for the activation `c`.
pub open spec fn is_entry(p: PluginV, def: ManifestV, c: ContextV) -> bool {
    &&& p.id == def.id
    &&& p.instance_id == c.instance.0
    &&& p.context_id == c.context.0
    &&& p.generation == c.generation
    &&& p.epoch == c.epoch
    &&& p.caps == def.caps
    &&& p.subs == def.subs
    &&& p.requires == def.requires
    &&& p.calls == def.calls
    &&& p.execution == def.execution
    &&& p.reducer == def.reducer
    &&& p.init_state == def.init_state
    &&& p.tier == def.tier
    &&& p.trust == def.trust
    &&& p.restart_policy == def.restart
    &&& p.panic_count == 0
    &&& p.restart_times.len() == 0
}

/// Whether every capability of `def` is published for the activation `c`.
pub open spec fn all_published(k: KernelV, caps: Seq<Text>, c: ContextV) -> bool {
    forall|i: int|
        0 <= i < caps.len() ==> k.caps.dom().contains(#[trigger] caps[i])
            && k.caps[caps[i]].instance == c.instance.0 && k.caps[caps[i]].generation
            == c.generation && k.caps[caps[i]].logical == c.logical
}

/// Whether the activation `c` subscribes to every topic.
pub open spec fn all_subscribed(k: KernelV, subs: Seq<Text>, c: ContextV) -> bool {
    forall|i: int|
        0 <= i < subs.len() ==> subscribes(k.topics, #[trigger] subs[i], c.instance.0)
}

/// Whether the instance subscribes to the topic.
pub open spec fn subscribes(t: Topics, topic: Text, inst: u64) -> bool {
    exists|s: SubV| #[trigger] bus::subs_of(t, topic).contains(s) && s.instance == inst
}

spec fn has_all(k: KernelV, kinds: Seq<ResourceKindV>, c: ContextV) -> bool {
    forall|i: int| 0 <= i < kinds.len() ==> has_one(k, #[trigger] kinds[i], c)
}

spec fn has_one(k: KernelV, kind: ResourceKindV, c: ContextV) -> bool {
    match kind {
        ResourceKindV::Cap { name } => k.caps.dom().contains(name) && k.caps[name].instance
            == c.instance.0 && k.caps[name].generation == c.generation && k.caps[name].logical
            == c.logical,
        ResourceKindV::Sub { topic } => subscribes(k.topics, topic, c.instance.0),
        _ => true,
    }
}

proof fn publishing_keeps(k: KernelV, kind: ResourceKindV, c: ContextV, id: Text, other: ResourceKindV)
    ensures
        has_one(k.publish(kind, c, id), kind, c),
        has_one(k, other, c) ==> has_one(k.publish(kind, c, id), other, c),
{
    let k2 = k.publish(kind, c, id);
    if let ResourceKindV::Sub { topic } = kind {
        let s = SubV { logical: id, instance: c.instance.0 };
        let old = bus::subs_of(k.topics, topic);
        let new = bus::subs_of(k2.topics, topic);
        if !old.contains(s) {
            assert(new[new.len() - 1] == s);
        }
        assert(new.contains(s));
        if let ResourceKindV::Sub { topic: t } = other {
            if has_one(k, other, c) && t == topic {
                let x = choose|x: SubV|
                    #[trigger] bus::subs_of(k.topics, t).contains(x) && x.instance
                        == c.instance.0;
                let i = choose|i: int| 0 <= i < old.len() && old[i] == x;
                assert(new[i] == x);
                assert(bus::subs_of(k2.topics, t).contains(x));
            } else if has_one(k, other, c) {
                let x = choose|x: SubV|
                    #[trigger] bus::subs_of(k.topics, t).contains(x) && x.instance
                        == c.instance.0;
                assert(bus::subs_of(k2.topics, t).contains(x));
            }
        }
    }
}

proof fn acquiring_publishes(k: KernelV, c: ContextV, id: Text, kinds: Seq<ResourceKindV>)
    requires
        k.acquire_kinds(c, id, kinds).1 is Ok,
    ensures
        has_all(k.acquire_kinds(c, id, kinds).0, kinds, c),
    decreases kinds.len(),
{
    if kinds.len() > 0 {
        let a = kinds.drop_last();
        acquiring_publishes(k, c, id, a);
        let k1 = k.acquire_kinds(c, id, a).0;
        let kind = kinds.last();
        assert(kinds[kinds.len() - 1] == kind);
        let (rs, r) = k1.resources.register(c.context, c.instance, id, c.generation, kind, None);
        let k2 = k1.with_resources(rs);
        let k3 = k.acquire_kinds(c, id, kinds).0;
        assert(k3 == k2.publish(kind, c, id));
        assert forall|i: int| 0 <= i < kinds.len() implies has_one(k3, #[trigger] kinds[i], c) by {
            if i < a.len() {
                assert(a[i] == kinds[i]);
                assert(has_one(k1, a[i], c));
                assert(has_one(k2, kinds[i], c));
                publishing_keeps(k2, kind, c, id, kinds[i]);
            } else {
                publishing_keeps(k2, kind, c, id, kind);
            }
        }
    }
}

proof fn declared_are_published(k: KernelV, def: ManifestV, c: ContextV)
    requires
        has_all(k, acquire::declared_kinds(def), c),
    ensures
        all_published(k, def.caps, c),
        all_subscribed(k, def.subs, c),
{
    let kinds = acquire::declared_kinds(def);
    assert forall|i: int| 0 <= i < def.caps.len() implies k.caps.dom().contains(
        #[trigger] def.caps[i],
    ) && k.caps[def.caps[i]].instance == c.instance.0 && k.caps[def.caps[i]].generation
        == c.generation && k.caps[def.caps[i]].logical == c.logical by {
        assert(kinds[i] == (ResourceKindV::Cap { name: def.caps[i] }));
        assert(has_one(k, kinds[i], c));
    }
    assert forall|i: int| 0 <= i < def.subs.len() implies subscribes(
        k.topics,
        #[trigger] def.subs[i],
        c.instance.0,
    ) by {
        let j = def.caps.len() + i;
        assert(kinds[j] == (ResourceKindV::Sub { topic: def.subs[i] }));
        assert(has_one(k, kinds[j], c));
    }
}

/// A definition that is activated anew has an instance of its own, the next
/// one in its generation, which is current and active; an entry that says
/// what the definition says, with the bindings and the state that were given;
/// and all that it declares is published for it.
pub proof fn activations_are_complete(
    k: KernelV,
    def: ManifestV,
    bs: Seq<BindingV>,
    json_state: JsonV,
    now: Instant,
)
    requires
        k.contexts.wf(),
        k.contexts.records.len() < u64::MAX,
        k.create_active(def, bs, json_state, now).1,
    ensures
        ({
            let k2 = k.create_active(def, bs, json_state, now).0;
            let c = k2.contexts.current_of(def.id)->0;
            let p = k2.plugins[def.id];
            &&& k2.contexts.current_of(def.id) is Some
            &&& c.state == Fsm::Active && c.logical == def.id && c.cause is None
            &&& c.instance.0 == k.contexts.records.len() + 1
            &&& c.generation == if k.contexts.generations.dom().contains(def.id) {
                k.contexts.generations[def.id] + 1
            } else {
                1
            }
            &&& k2.plugins.dom().contains(def.id)
            &&& is_entry(p, def, c)
            &&& p.state == Fsm::Active && p.bindings == bs && p.json_state == json_state
            &&& p.wait_cause is None
            &&& all_published(k2, def.caps, c)
            &&& all_subscribed(k2, def.subs, c)
        }),
{
    let ctx = k.contexts.fresh(def.id, Fsm::Active, None);
    stable::create_stays_apart(k.contexts, def.id, Fsm::Active, None);
    let k0 = k.with_contexts(k.contexts.create(def.id, Fsm::Active, None));
    let kinds = acquire::declared_kinds(def);
    let (k1, res) = k0.acquire_definition(ctx, def);
    laws::acquire_kinds_only_acquires(k0, ctx, def.id, kinds);
    acquiring_publishes(k0, ctx, def.id, kinds);
    let k2 = k1.with_plugin(
        def.id,
        lifecycle::entry(def, ctx, Fsm::Active, bs, None, json_state, res->Ok_0),
    );
    bounded::announcing_touches_no_state(k2, def.id, ctx, bs);
    announcing_keeps_publications(k2, def.id, ctx, bs);
    declared_are_published(k1, def, ctx);
    let k3 = k2.activated(def.id, ctx, bs);
    assert(all_published(k3, def.caps, ctx));
    assert(k3.topics == k1.topics);
    assert(all_subscribed(k3, def.subs, ctx));
}

proof fn announcing_keeps_publications(k: KernelV, l: Text, ctx: ContextV, bs: Seq<BindingV>)
    ensures
        k.activated(l, ctx, bs).caps == k.caps,
        k.activated(l, ctx, bs).topics == k.topics,
{
    let k1 = k.log(
        l,
        "plugin.active"@,
        JsonV::object().with("id"@, json::jstr(l)).with(
            "instance"@,
            json::jnum(ctx.instance.0),
        ).with("generation"@, json::jnum(ctx.generation)).with(
            "bindings"@,
            lifecycle::binding_entries(bs),
        ),
    ).announce(l, ctx);
    assert(k1.caps == k.caps && k1.topics == k.topics);
    if let Some(cur) = k1.contexts.get(ctx.instance.0) {
        laws::issue_each_only_issues(
            KernelV {
                dep_bindings: strmap::kept(
                    k1.dep_bindings,
                    |b: DepBindingV| b.consumer_instance != ctx.instance,
                ),
                ..k1
            },
            l,
            cur,
            bs,
        );
    }
}

/// A waiting instance that is promoted becomes active as it is, with bindings
/// to its providers, and all that its definition declares is published for
/// it; its state stays.
pub proof fn promotions_are_complete(k: KernelV, logical: Text, def: ManifestV)
    requires
        k.contexts.wf(),
        def.id == logical,
        k.promote(logical, def).1,
    ensures
        ({
            let k2 = k.promote(logical, def).0;
            let b = k.contexts.current_of(logical)->0;
            let c = k2.contexts.current_of(logical)->0;
            let p = k.plugins[logical];
            let q = k2.plugins[logical];
            &&& k.contexts.current_of(logical) is Some && k2.contexts.current_of(logical) is Some
            &&& b.state.is_waiting_like() && c.state == Fsm::Active && c.cause is None
            &&& c.instance == b.instance && c.generation == b.generation && c.context == b.context
            &&& k.plugins.dom().contains(logical) && k2.plugins.dom().contains(logical)
            &&& q.state == Fsm::Active && q.wait_cause is None && q.json_state == p.json_state
            &&& q.instance_id == c.instance.0
            &&& resolve::resolved(logical, k.definitions, k.states()) == Ok::<
                Seq<BindingV>,
                ResolveErrorV,
            >(q.bindings)
            &&& all_published(k2, def.caps, c)
            &&& all_subscribed(k2, def.subs, c)
        }),
{
    let st = k.contexts.current_of(logical)->0;
    assert(k.contexts.records[k.contexts.current[logical] - 1].logical == logical);
    assert(st.instance.0 == k.contexts.current[logical]);
    let bs = resolve::resolved(logical, k.definitions, k.states())->Ok_0;
    let kinds = acquire::declared_kinds(def);
    let (k1, res) = k.acquire_definition(st, def);
    laws::acquire_kinds_only_acquires(k, st, def.id, kinds);
    acquiring_publishes(k, st, def.id, kinds);
    declared_are_published(k1, def, st);
    let p = k1.plugin(logical)->0;
    let k2 = k1.with_plugin(
        logical,
        PluginV {
            state: Fsm::Active,
            bindings: bs,
            wait_cause: None,
            resources: res->Ok_0,
            ..p
        },
    );
    stable::put_stays_apart(k2.contexts, st.instance.0, Fsm::Active, None, logical);
    let k3 = k2.with_contexts(k2.contexts.activate(st.instance.0).0);
    bounded::announcing_touches_no_state(k3, logical, st, bs);
    announcing_keeps_publications(k3, logical, st, bs);
    let k4 = k3.activated(logical, st, bs);
    let c = k4.contexts.current_of(logical)->0;
    assert(all_published(k4, def.caps, c)) by {
        assert(all_published(k1, def.caps, st));
    }
    assert(k4.topics == k1.topics);
    assert(all_subscribed(k4, def.subs, c));
}

/// A waiting instance is a new one with an entry that says what the definition
/// says and why it waits; it has no bindings.
pub proof fn the_waiting_say_why(k: KernelV, def: ManifestV, reason: Text)
    requires
        k.contexts.wf(),
        k.contexts.records.len() < u64::MAX,
    ensures
        ({
            let k2 = k.create_waiting(def, reason);
            let c = k2.contexts.current_of(def.id)->0;
            let p = k2.plugins[def.id];
            &&& k2.contexts.current_of(def.id) is Some
            &&& c.state == Fsm::Waiting && c.cause == Some(reason)
            &&& c.instance.0 == k.contexts.records.len() + 1
            &&& k2.plugins.dom().contains(def.id)
            &&& is_entry(p, def, c)
            &&& p.state == Fsm::Waiting && p.wait_cause == Some(reason) && p.bindings.len() == 0
            &&& p.json_state == if def.reducer == "counter"@ {
                JsonV::Object(seq![("state"@, JsonV::Unsigned(0))])
            } else if def.reducer == "clock"@ {
                JsonV::Object(seq![("count"@, JsonV::Unsigned(0))])
            } else {
                def.init_state
            }
            &&& k2.caps == k.caps && k2.topics == k.topics && k2.resources == k.resources
        }),
{
    stable::create_stays_apart(k.contexts, def.id, Fsm::Waiting, Some(reason));
    let e = Seq::<(Text, JsonV)>::empty();
    assert(json::place(e, "state"@) == 0 && json::place(e, "count"@) == 0);
    assert(e.insert(0, ("state"@, json::jnum(0))) =~= seq![("state"@, JsonV::Unsigned(0))]);
    assert(e.insert(0, ("count"@, json::jnum(0))) =~= seq![("count"@, JsonV::Unsigned(0))]);
}

} // verus!
