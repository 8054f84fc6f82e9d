//! What activations own: how resources are acquired, published, released and
//! cleaned up, and what the journal says.

use vstd::prelude::*;
use crate::bus;
use crate::bus::SubV;
use crate::calls;
use crate::calls::{TicketId, WhichV};
use crate::context::ContextV;
use crate::fsm::Fsm;
use crate::identity::{ContextId, InstanceId, ResourceHandle};
use crate::json::JsonV;
use crate::kernel::outcomes;
use crate::kernel::KernelV;
use crate::resources;
use crate::resources::{ResourceKindV, ResourceState, ResourceV};
use crate::text;
use crate::text::Text;

verus! {

// ---- acquiring --------------------------------------------------------

/// What a resource is called.
pub open spec fn name_of(kind: ResourceKindV) -> Text {
    match kind {
        ResourceKindV::Cap { name } => name,
        ResourceKindV::Sub { topic } => topic,
        ResourceKindV::Timer { label, .. } => label,
        ResourceKindV::Task { label } => label,
        ResourceKindV::FailAcquire { label } => label,
        ResourceKindV::FailRelease { label } => label,
    }
}

/// Whether the resource can be acquired: it has a name, a timer a period of
/// at most a minute, and the worker of a timer or task started.
pub open spec fn can_be_acquired(kind: ResourceKindV, start: Option<Text>) -> bool {
    &&& !(kind is FailAcquire)
    &&& text::trimmed(name_of(kind)).len() > 0
    &&& kind matches ResourceKindV::Timer { interval_ms, .. } ==> 1 <= interval_ms <= 60_000
    &&& kind is Timer || kind is Task ==> start is None
}

/// Whether `r` is a new, active resource of the activation `c`.
pub open spec fn is_owned(r: ResourceV, h: ResourceHandle, kind: ResourceKindV, c: ContextV) -> bool {
    &&& r.handle == h
    &&& r.kind == kind
    &&& r.owner_context == c.context
    &&& r.owner_instance == c.instance
    &&& r.owner_logical == c.logical
    &&& r.generation == c.generation
    &&& r.state == ResourceState::Active
}

/// Whether what is published in `b` is what was in `a` and the resource of
/// the activation `c`: a capability names it, a topic has it as subscriber.
pub open spec fn publishes(a: KernelV, b: KernelV, kind: ResourceKindV, c: ContextV) -> bool {
    &&& match kind {
        ResourceKindV::Cap { name } => {
            &&& b.caps.dom() == a.caps.dom().insert(name)
            &&& b.caps[name].logical == c.logical
            &&& b.caps[name].instance == c.instance.0
            &&& b.caps[name].generation == c.generation
            &&& b.caps[name].epoch == c.epoch
            &&& forall|x: Text|
                x != name && a.caps.dom().contains(x) ==> #[trigger] b.caps[x] == a.caps[x]
        },
        _ => b.caps == a.caps,
    }
    &&& match kind {
        ResourceKindV::Sub { topic } => {
            &&& bus::subs_of(b.topics, topic).contains(
                SubV { logical: c.logical, instance: c.instance.0 },
            )
            &&& forall|s: SubV|
                bus::subs_of(a.topics, topic).contains(s) ==> #[trigger] bus::subs_of(
                    b.topics,
                    topic,
                ).contains(s)
            &&& forall|x: Text|
                x != topic ==> #[trigger] bus::subs_of(b.topics, x) == bus::subs_of(a.topics, x)
        },
        _ => b.topics == a.topics,
    }
}

proof fn publications_are_exact(k: KernelV, kind: ResourceKindV, c: ContextV)
    ensures
        publishes(k, k.publish(kind, c, c.logical), kind, c),
{
    let k2 = k.publish(kind, c, c.logical);
    match kind {
        ResourceKindV::Cap { name } => {
            assert(k2.caps.dom() =~= k.caps.dom().insert(name));
        },
        ResourceKindV::Sub { topic } => {
            let s = SubV { logical: c.logical, instance: c.instance.0 };
            let old = bus::subs_of(k.topics, topic);
            let new = bus::subs_of(k2.topics, topic);
            if !old.contains(s) {
                assert(new[new.len() - 1] == s);
                assert forall|x: SubV| old.contains(x) implies #[trigger] new.contains(x) by {
                    let i = choose|i: int| 0 <= i < old.len() && old[i] == x;
                    assert(new[i] == x);
                }
            }
        },
        _ => {},
    }
}

/// A resource is acquired if and only if its owner is there, current and
/// active, and the resource can be acquired. It then belongs to that
/// activation, under a handle of its own; what was there before stays, and
/// what it stands for is published.
pub proof fn acquired_resources_are_owned(
    k: KernelV,
    logical: Text,
    kind: ResourceKindV,
    start: Option<Text>,
)
    requires
        k.contexts.wf(),
        k.resources.slots.len() < u64::MAX,
    ensures
        ({
            let (k2, r) = k.acquire(logical, kind, start);
            let c = k.contexts.current_of(logical)->0;
            let n = k.resources.slots.len();
            &&& r is Ok <==> k.contexts.current_of(logical) is Some && c.state.canon()
                == Fsm::Active && can_be_acquired(kind, start)
            &&& r matches Ok(h) ==> {
                &&& h.0 == n + 1
                &&& k2.resources.slots.len() == n + 1
                &&& k2.resources.slots[n as int] matches Some(x) && is_owned(x, h, kind, c)
                &&& forall|i: int|
                    0 <= i < n ==> #[trigger] k2.resources.slots[i] == k.resources.slots[i]
                &&& publishes(k, k2, kind, c)
                &&& k2.contexts == k.contexts && k2.calls == k.calls
            }
            &&& r is Err ==> k2.caps == k.caps && k2.topics == k.topics && forall|i: int|
                0 <= i < k2.resources.slots.len() ==> #[trigger] k2.resources.slots[i] == if i < n {
                    k.resources.slots[i]
                } else {
                    None
                }
        }),
{
    if let Some(c) = k.contexts.current_of(logical) {
        assert(k.contexts.records[k.contexts.current[logical] - 1].instance.0
            == k.contexts.current[logical]);
        publications_are_exact(k, kind, c);
        let (rs, res) = k.resources.register(
            c.context,
            c.instance,
            c.logical,
            c.generation,
            kind,
            start,
        );
        publications_are_exact(k.with_resources(rs), kind, c);
    }
}

/// A resource for an external plugin besides needs the caller to be the very
/// activation, and at most sixty-four active resources in its context.
pub proof fn external_resources_are_bounded(
    k: KernelV,
    logical: Text,
    kind: ResourceKindV,
    inst: InstanceId,
    generation: u64,
    start: Option<Text>,
)
    requires
        k.contexts.wf(),
        k.resources.slots.len() < u64::MAX,
    ensures
        ({
            let (k2, r) = k.acquire_external(logical, kind, inst, generation, start);
            let c = k.contexts.current_of(logical)->0;
            let n = k.resources.slots.len();
            let held = resources::active_in(k.resources.slots, Some(c.context));
            &&& r is Ok <==> k.contexts.current_of(logical) is Some && c.instance == inst
                && c.generation == generation && c.state.canon() == Fsm::Active
                && can_be_acquired(kind, start) && held < 64
            &&& r matches Ok(h) ==> {
                &&& h.0 == n + 1
                &&& k2.resources.slots.len() == n + 1
                &&& k2.resources.slots[n as int] matches Some(x) && is_owned(x, h, kind, c)
                &&& publishes(k, k2, kind, c)
            }
            &&& r is Err ==> k2.caps == k.caps && k2.topics == k.topics
            &&& forall|i: int|
                0 <= i < n ==> #[trigger] k2.resources.slots[i] == k.resources.slots[i]
        }),
{
    if let Some(c) = k.contexts.current_of(logical) {
        assert(k.contexts.records[k.contexts.current[logical] - 1].instance.0
            == k.contexts.current[logical]);
        let (rs, res) = k.resources.register(
            c.context,
            c.instance,
            c.logical,
            c.generation,
            kind,
            start,
        );
        publications_are_exact(k.with_resources(rs), kind, c);
        if res is Ok {
            assert(rs.slots.drop_last() =~= k.resources.slots);
        }
    }
}

/// The positions of the active resources of one owner, or of all.
pub open spec fn active_places(slots: Seq<Option<ResourceV>>, owner: Option<ContextId>) -> Set<int> {
    Set::new(
        |i: int|
            0 <= i < slots.len() && (slots[i] matches Some(r) && r.state == ResourceState::Active
                && (owner is None || owner == Some(r.owner_context))),
    )
}

/// The active resources are counted, each once.
pub proof fn active_resources_are_counted(slots: Seq<Option<ResourceV>>, owner: Option<ContextId>)
    ensures
        active_places(slots, owner).finite(),
        resources::active_in(slots, owner) == active_places(slots, owner).len(),
    decreases slots.len(),
{
    let all = active_places(slots, owner);
    if slots.len() == 0 {
        assert(all =~= Set::empty());
    } else {
        let n = slots.len() - 1;
        let rest = active_places(slots.drop_last(), owner);
        active_resources_are_counted(slots.drop_last(), owner);
        if all.contains(n) {
            assert(all =~= rest.insert(n));
        } else {
            assert(all =~= rest);
        }
    }
}

// ---- releasing --------------------------------------------------------

/// Whether a call that `owner` executes declared the resource as used.
pub open spec fn is_in_use(k: KernelV, owner: InstanceId, h: ResourceHandle) -> bool {
    exists|id: TicketId| #[trigger]
        outcomes::runs(k, owner, id) && k.calls.tickets[id.0].pins.contains(h)
}

proof fn pins_are_uses(k: KernelV, owner: InstanceId, h: ResourceHandle)
    requires
        k.calls.wf(),
    ensures
        k.pinned(owner, h) <==> is_in_use(k, owner, h),
{
    let ts = calls::select(k.calls.tickets, WhichV::Of(owner));
    outcomes::selection_is_exact(k, owner);
    if k.pinned(owner, h) {
        let i = choose|i: int| 0 <= i < ts.len() && (#[trigger] ts[i]).pins.contains(h);
        outcomes::selected_run(k, owner, i);
        assert(outcomes::runs(k, owner, ts[i].id));
    }
    if is_in_use(k, owner, h) {
        let id = choose|id: TicketId| #[trigger]
            outcomes::runs(k, owner, id) && k.calls.tickets[id.0].pins.contains(h);
        let i = outcomes::running_is_selected(k, owner, id);
        assert(ts[i].pins.contains(h));
    }
}

pub(crate) proof fn pins_are_uses_of(k: KernelV, h: ResourceHandle)
    requires
        k.calls.wf(),
    ensures
        k.resources.get(h) matches Some(r) ==> k.pinned(r.owner_instance, h) == is_in_use(
            k,
            r.owner_instance,
            h,
        ),
{
    if let Some(r) = k.resources.get(h) {
        pins_are_uses(k, r.owner_instance, h);
    }
}

/// A resource is released if and only if it is active, no call in flight of
/// its owner uses it, and it does not refuse. It is then released for good,
/// and what its owner published with it is gone; other resources stay.
pub proof fn releases_release(k: KernelV, h: ResourceHandle)
    requires
        k.calls.wf(),
    ensures
        ({
            let (k2, res) = k.release(h);
            let r = k.resources.get(h)->0;
            &&& res is Ok <==> k.resources.get(h) is Some && r.state == ResourceState::Active
                && !is_in_use(k, r.owner_instance, h) && !(r.kind is FailRelease)
            &&& res is Ok ==> {
                &&& k2.resources.get(h) == Some(
                    ResourceV { state: ResourceState::Released, ..r },
                )
                &&& r.kind matches ResourceKindV::Cap { name } ==> (k2.caps.dom().contains(name)
                    ==> k2.caps[name].instance != r.owner_instance.0 && k2.caps[name]
                    == k.caps[name])
                &&& !(r.kind is Cap) ==> k2.caps == k.caps
                &&& r.kind matches ResourceKindV::Sub { topic } ==> forall|s: SubV| #[trigger]
                    bus::subs_of(k2.topics, topic).contains(s) ==> s.instance
                        != r.owner_instance.0 && bus::subs_of(k.topics, topic).contains(s)
                &&& !(r.kind is Sub) ==> k2.topics == k.topics
            }
            &&& res is Err ==> k2.resources.slots == k.resources.slots && k2.caps == k.caps
                && k2.topics == k.topics
            &&& k2.resources.slots.len() == k.resources.slots.len()
            &&& forall|i: int|
                0 <= i < k.resources.slots.len() && i != h.0 - 1
                    ==> #[trigger] k2.resources.slots[i] == k.resources.slots[i]
            &&& forall|x: Text| #[trigger]
                k.caps.dom().contains(x) && !(k.resources.get(h) is Some && r.kind
                    == (ResourceKindV::Cap { name: x })) ==> k2.caps.dom().contains(x)
                    && k2.caps[x] == k.caps[x]
        }),
{
    if let Some(r) = k.resources.get(h) {
        pins_are_uses(k, r.owner_instance, h);
        if let ResourceKindV::Sub { topic } = r.kind {
            let inst = r.owner_instance.0;
            let f = |s: SubV| s.instance != inst && s.instance != 0;
            let k2 = k.release(h).0;
            if k.release(h).1 is Ok && k.topics.dom().contains(topic) {
                let old = k.topics[topic];
                let new = old.filter(f);
                assert(bus::subs_of(k2.topics, topic) == new);
                assert forall|s: SubV| #[trigger] new.contains(s) implies s.instance != inst
                    && old.contains(s) by {
                    let i = choose|i: int| 0 <= i < new.len() && new[i] == s;
                    old.lemma_filter_pred(f, i);
                    old.lemma_filter_contains_rev(f, s);
                }
            }
        }
    }
}

// ---- the journal ------------------------------------------------------

/// An entry of the journal is the last one, with what was given, under the
/// number that follows that of the journal; the entries before it stay.
pub proof fn entries_are_appended(k: KernelV, fiber: Text, kind: Text, args: JsonV)
    requires
        k.journal.seq < u64::MAX,
    ensures
        ({
            let j = k.log(fiber, kind, args).journal;
            let n = k.journal.pending.len();
            &&& j.seq == k.journal.seq + 1
            &&& j.pending.len() == n + 1
            &&& j.pending[n as int].seq == j.seq
            &&& j.pending[n as int].fiber == fiber
            &&& j.pending[n as int].kind == kind
            &&& j.pending[n as int].args == args
            &&& j.pending[n as int].undo == JsonV::Null
            &&& forall|i: int| 0 <= i < n ==> #[trigger] j.pending[i] == k.journal.pending[i]
            &&& k.log(fiber, kind, args) == (KernelV { journal: j, ..k })
        }),
{
}

} // verus!
