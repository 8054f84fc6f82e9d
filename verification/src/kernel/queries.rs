//! What is asked of the kernel and what is done to all of something: who gets
//! an event, whom a peer routes, who depends on whom, and which workers a
//! reset ends.

use vstd::prelude::*;
use vstd::string::*;
use crate::bus;
use crate::bus::SubV;
use crate::conversation;
use crate::identity::{InstanceId, ResourceHandle};
use crate::json;
use crate::json::JsonV;
use crate::kernel::accounts;
use crate::kernel::changes;
use crate::kernel::holdings;
use crate::kernel::outcomes;
use crate::kernel::showing;
use crate::kernel::KernelV;
use crate::resources::{ResourceState, ResourceV};
use crate::text::Text;

verus! {

// ---- subscribers ------------------------------------------------------

/// The instances that subscribed are those of the subscriptions, without the
/// subscriptions of nobody in particular.
pub proof fn subscribed_instances_are_listed(ss: Seq<SubV>, n: u64)
    ensures
        bus::instances_of(ss).contains(InstanceId(n)) <==> n != 0 && exists|i: int|
            0 <= i < ss.len() && (#[trigger] ss[i]).instance == n,
    decreases ss.len(),
{
    if ss.len() > 0 {
        let d = ss.drop_last();
        let rest = bus::instances_of(d);
        let all = bus::instances_of(ss);
        let x = InstanceId(n);
        subscribed_instances_are_listed(d, n);
        if all.contains(x) {
            let i = choose|i: int| 0 <= i < all.len() && all[i] == x;
            if i < rest.len() {
                assert(rest[i] == x);
                let j = choose|j: int| 0 <= j < d.len() && (#[trigger] d[j]).instance == n;
                assert(ss[j].instance == n);
            } else {
                assert(ss[ss.len() - 1].instance == n);
            }
        }
        if n != 0 && exists|i: int| 0 <= i < ss.len() && (#[trigger] ss[i]).instance == n {
            let i = choose|i: int| 0 <= i < ss.len() && (#[trigger] ss[i]).instance == n;
            if i < d.len() {
                assert(d[i].instance == n);
                let j = choose|j: int| 0 <= j < rest.len() && rest[j] == x;
                assert(all[j] == x);
            } else {
                assert(all[all.len() - 1] == x);
            }
        }
    }
}

/// Whether one of the instances is an activation of `logical`.
pub open spec fn is_among(k: KernelV, insts: Seq<InstanceId>, logical: Text) -> bool {
    exists|i: int|
        0 <= i < insts.len() && (k.contexts.get((#[trigger] insts[i]).0) matches Some(c)
            && c.logical == logical)
}

/// An event changes no entry but that of a subscriber, and nothing but
/// entries.
pub proof fn events_spare_the_others(k: KernelV, topic: Text, other: Text)
    requires
        k.contexts.wf(),
        ({
            let subs = bus::subs_of(k.topics, topic);
            &&& !is_among(k, bus::instances_of(subs), other)
            &&& forall|i: int| 0 <= i < subs.len() ==> (#[trigger] subs[i]).logical != other
        }),
        k.plugins.dom().contains(other),
    ensures
        k.deliver(topic).plugins.dom().contains(other),
        k.deliver(topic).plugins[other] == k.plugins[other],
        k.deliver(topic) == (KernelV { plugins: k.deliver(topic).plugins, ..k }),
{
    let subs = bus::subs_of(k.topics, topic);
    let insts = bus::instances_of(subs);
    let names = subs.map_values(|s: SubV| s.logical);
    each_spares(k, insts, topic, other);
    let k1 = k.deliver_each(insts, topic);
    assert forall|i: int| 0 <= i < names.len() implies #[trigger] names[i] != other by {
        assert(names[i] == subs[i].logical);
    }
    names_spare(k1, names, topic, other);
}

proof fn each_spares(k: KernelV, insts: Seq<InstanceId>, topic: Text, other: Text)
    requires
        k.contexts.wf(),
        !is_among(k, insts, other),
        k.plugins.dom().contains(other),
    ensures
        ({
            let k2 = k.deliver_each(insts, topic);
            &&& k2.plugins.dom().contains(other)
            &&& k2.plugins[other] == k.plugins[other]
            &&& k2 == (KernelV { plugins: k2.plugins, ..k })
        }),
    decreases insts.len(),
{
    if insts.len() > 0 {
        let d = insts.drop_last();
        assert(!is_among(k, d, other)) by {
            if is_among(k, d, other) {
                let i = choose|i: int|
                    0 <= i < d.len() && (k.contexts.get((#[trigger] d[i]).0) matches Some(c)
                        && c.logical == other);
                assert(insts[i] == d[i]);
            }
        }
        each_spares(k, d, topic, other);
        let k1 = k.deliver_each(d, topic);
        let last = insts.last();
        changes::events_reach_the_active(k1, last, topic, other);
        if let Some(c) = k.contexts.get(last.0) {
            assert(insts[insts.len() - 1] == last);
            assert(c.logical != other);
        }
    }
}

proof fn names_spare(k: KernelV, names: Seq<Text>, topic: Text, other: Text)
    requires
        forall|i: int| 0 <= i < names.len() ==> #[trigger] names[i] != other,
        k.plugins.dom().contains(other),
    ensures
        ({
            let k2 = k.deliver_names(names, topic);
            &&& k2.plugins.dom().contains(other)
            &&& k2.plugins[other] == k.plugins[other]
            &&& k2 == (KernelV { plugins: k2.plugins, ..k })
        }),
    decreases names.len(),
{
    if names.len() > 0 {
        let d = names.drop_last();
        assert forall|i: int| 0 <= i < d.len() implies #[trigger] d[i] != other by {
            assert(names[i] == d[i]);
        }
        names_spare(k, d, topic, other);
        assert(names[names.len() - 1] == names.last());
    }
}

/// An event that is emitted is noted with its topic and what it carries.
pub proof fn emitted_events_are_noted(k: KernelV, topic: Text, payload: JsonV)
    ensures
        ({
            let args = JsonV::object().with("topic"@, json::jstr(topic)).with("payload"@, payload);
            &&& showing::shows_text(args, "topic"@, topic)
            &&& args.get("payload"@) == Some(payload)
            &&& accounts::notes(k, k.log("cli"@, "evt.emit"@, args), "cli"@, "evt.emit"@)
        }),
{
    conversation::blank_record();
    reveal_strlit("topic");
    reveal_strlit("payload");
    assert("topic"@.len() == 5 && "payload"@.len() == 7);
    let t = JsonV::object().with("topic"@, json::jstr(topic));
    conversation::added(JsonV::object(), "topic"@, json::jstr(topic));
    conversation::added(t, "payload"@, payload);
    let args = t.with("payload"@, payload);
    assert(k.log("cli"@, "evt.emit"@, args).journal.pending.drop_last() =~= k.journal.pending);
}

// ---- peers and dependents ---------------------------------------------

/// Whether the peer routes the registration under `key`, and it is that of
/// `logical`.
pub open spec fn is_routed(k: KernelV, peer: Text, key: Text, logical: Text) -> bool {
    k.remotes[key].peer == peer && k.remotes[key].logical == logical
}

/// A peer routes exactly the registrations that name it.
pub proof fn peers_route_theirs(k: KernelV, peer: Text, ks: Seq<Text>, logical: Text)
    ensures
        k.routed_by(peer, ks).contains(logical) <==> exists|i: int|
            0 <= i < ks.len() && is_routed(k, peer, #[trigger] ks[i], logical),
    decreases ks.len(),
{
    if ks.len() > 0 {
        let d = ks.drop_last();
        let rest = k.routed_by(peer, d);
        let all = k.routed_by(peer, ks);
        peers_route_theirs(k, peer, d, logical);
        if all.contains(logical) {
            let i = choose|i: int| 0 <= i < all.len() && all[i] == logical;
            if i < rest.len() {
                assert(rest[i] == logical);
                let j = choose|j: int|
                    0 <= j < d.len() && is_routed(k, peer, #[trigger] d[j], logical);
                assert(is_routed(k, peer, ks[j], logical));
            } else {
                assert(is_routed(k, peer, ks[ks.len() - 1], logical));
            }
        }
        if exists|i: int| 0 <= i < ks.len() && is_routed(k, peer, #[trigger] ks[i], logical) {
            let i = choose|i: int|
                0 <= i < ks.len() && is_routed(k, peer, #[trigger] ks[i], logical);
            if i < d.len() {
                assert(is_routed(k, peer, d[i], logical));
                let j = choose|j: int| 0 <= j < rest.len() && rest[j] == logical;
                assert(all[j] == logical);
            } else {
                assert(all[all.len() - 1] == logical);
            }
        }
    }
}

/// Of a list of logical ids the defined ones are given, in their order.
pub proof fn the_defined_are_given(k: KernelV, ls: Seq<Text>)
    ensures
        k.defined(ls) == ls.filter(|l: Text| k.definitions.dom().contains(l)),
    decreases ls.len(),
{
    reveal(Seq::filter);
    if ls.len() > 0 {
        the_defined_are_given(k, ls.drop_last());
    }
}

// ---- workers ----------------------------------------------------------

/// Whether the record is that of a worker under the handle `h`.
pub open spec fn is_worker(r: ResourceV, h: ResourceHandle) -> bool {
    r.handle == h && (r.kind is Timer || r.kind is Task)
}

/// Whether a worker under the handle `h` is among the records.
pub open spec fn has_worker(rs: Seq<ResourceV>, h: ResourceHandle) -> bool {
    exists|i: int| 0 <= i < rs.len() && is_worker(#[trigger] rs[i], h)
}

/// A reset ends each worker among the records that is active and that no call
/// uses; it ends nothing else.
pub proof fn resets_end_the_workers(k: KernelV, rs: Seq<ResourceV>, h: ResourceHandle)
    requires
        k.calls.wf(),
        k.resources.get(h) is Some,
    ensures
        ({
            let k2 = k.release_workers(rs);
            let r = k.resources.get(h)->0;
            let ends = has_worker(rs, h) && r.state == ResourceState::Active
                && !holdings::is_in_use(k, r.owner_instance, h) && !(r.kind is FailRelease);
            &&& k2.calls == k.calls
            &&& k2.resources.get(h) == Some(
                if ends {
                    ResourceV { state: ResourceState::Released, ..r }
                } else {
                    r
                },
            )
        }),
    decreases rs.len(),
{
    if rs.len() > 0 {
        let d = rs.drop_last();
        let last = rs.last();
        let k1 = k.release_workers(d);
        let r = k.resources.get(h)->0;
        resets_end_the_workers(k, d, h);
        assert(has_worker(rs, h) <==> has_worker(d, h) || is_worker(last, h)) by {
            if has_worker(d, h) {
                let i = choose|i: int| 0 <= i < d.len() && is_worker(#[trigger] d[i], h);
                assert(is_worker(rs[i], h));
            }
            if is_worker(last, h) {
                assert(is_worker(rs[rs.len() - 1], h));
            }
            if has_worker(rs, h) && !is_worker(last, h) {
                let i = choose|i: int| 0 <= i < rs.len() && is_worker(#[trigger] rs[i], h);
                assert(is_worker(d[i], h));
            }
        }
        uses_are_of_calls(k, k1, r.owner_instance, h);
        if last.kind is Timer || last.kind is Task {
            holdings::releases_release(k1, last.handle);
            if last.handle != h {
                assert(last.handle.0 != h.0);
                assert(k1.release(last.handle).0.resources.slots[h.0 - 1]
                    == k1.resources.slots[h.0 - 1]);
            } else {
                assert(k1.resources.get(h) is Some);
            }
        }
    }
}

proof fn uses_are_of_calls(a: KernelV, b: KernelV, owner: InstanceId, h: ResourceHandle)
    requires
        a.calls == b.calls,
    ensures
        holdings::is_in_use(a, owner, h) == holdings::is_in_use(b, owner, h),
{
    if holdings::is_in_use(a, owner, h) {
        let id = choose|id: crate::calls::TicketId| #[trigger]
            outcomes::runs(a, owner, id) && a.calls.tickets[id.0].pins.contains(h);
        assert(outcomes::runs(b, owner, id));
    }
    if holdings::is_in_use(b, owner, h) {
        let id = choose|id: crate::calls::TicketId| #[trigger]
            outcomes::runs(b, owner, id) && b.calls.tickets[id.0].pins.contains(h);
        assert(outcomes::runs(a, owner, id));
    }
}

} // verus!
