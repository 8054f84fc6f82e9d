//! What the tables of the kernel say of an activation, a capability, a
//! subscription or a resource, and what each change makes of it.

use vstd::prelude::*;
use vstd::string::*;
use crate::bus;
use crate::bus::{SubV, Topics};
use crate::context;
use crate::context::{ContextV, ContextsV, DisposeClaimV};
use crate::external;
use crate::fsm::Fsm;
use crate::identity::{ContextId, InstanceId, ResourceHandle};
use crate::journal;
use crate::json::JsonV;
use crate::registry;
use crate::registry::{Caps, EntryV};
use crate::resources;
use crate::resources::{ResourceKindV, ResourceState, ResourceV, ResourcesV};
use crate::text;
use crate::text::Text;
use crate::time::Instant;

verus! {

// ---- time -------------------------------------------------------------

/// A reading so many milliseconds later is that much later, and that many
/// whole milliseconds lie between the two; of two readings the earlier comes
/// before both and the later behind both.
pub proof fn readings_are_apart(t: Instant, ms: u64, u: Instant)
    requires
        t.nanos + ms * 1_000_000 <= u128::MAX,
    ensures
        t.later(ms).nanos == t.nanos + ms * 1_000_000,
        t.later(ms).ms_since(t) == ms,
        t.ms_since(t.later(ms)) == 0,
        t.min(u).nanos <= t.nanos && t.min(u).nanos <= u.nanos,
        t.min(u) == t || t.min(u) == u,
        t.max(u).nanos >= t.nanos && t.max(u).nanos >= u.nanos,
        t.max(u) == t || t.max(u) == u,
{
}

/// Whole milliseconds are counted: a millisecond is counted once it is over.
pub proof fn milliseconds_are_whole(t: Instant, u: Instant)
    requires
        u.nanos <= t.nanos,
    ensures
        t.ms_since(u) * 1_000_000 <= t.nanos - u.nanos < (t.ms_since(u) + 1) * 1_000_000,
{
}

// ---- states -----------------------------------------------------------

/// Each state has a name of its own.
pub proof fn names_tell_states_apart(a: Fsm, b: Fsm)
    requires
        a.name() == b.name(),
    ensures
        a == b,
{
    reveal_strlit("Registered");
    reveal_strlit("Waiting");
    reveal_strlit("Preparing");
    reveal_strlit("Active");
    reveal_strlit("Quiescing");
    reveal_strlit("CleanupPending");
    reveal_strlit("Disposed");
    reveal_strlit("Failed");
    reveal_strlit("Pending");
    reveal_strlit("Loading");
    reveal_strlit("Unloading");
    assert("Registered"@.len() == 10 && "CleanupPending"@.len() == 14 && "Disposed"@.len() == 8);
    assert("Waiting"@.len() == 7 && "Pending"@.len() == 7 && "Loading"@.len() == 7);
    assert("Waiting"@[0] == 'W' && "Pending"@[0] == 'P' && "Loading"@[0] == 'L');
    assert("Active"@.len() == 6 && "Failed"@.len() == 6);
    assert("Active"@[0] == 'A' && "Failed"@[0] == 'F');
    assert("Preparing"@.len() == 9 && "Quiescing"@.len() == 9 && "Unloading"@.len() == 9);
    assert("Preparing"@[0] == 'P' && "Quiescing"@[0] == 'Q' && "Unloading"@[0] == 'U');
}

// ---- activations ------------------------------------------------------

/// Whether the activation `inst` of `d` is as it was in `c`.
pub open spec fn is_kept(c: ContextsV, d: ContextsV, inst: u64) -> bool {
    c.get(inst) is Some && d.get(inst) == c.get(inst)
}

/// A new activation has an id that none had, the generation after the last
/// one of its logical id, and is its current one from then on; every other
/// activation, and the current one of every other logical id, stays.
pub proof fn activations_are_new(
    c: ContextsV,
    logical: Text,
    state: Fsm,
    cause: Option<Text>,
    inst: u64,
    other: Text,
)
    requires
        c.wf(),
        c.records.len() < u64::MAX,
        other != logical,
    ensures
        ({
            let d = c.create(logical, state, cause);
            let r = c.fresh(logical, state, cause);
            &&& c.get(r.instance.0) is None
            &&& d.get(r.instance.0) == Some(r)
            &&& d.current_of(logical) == Some(r)
            &&& r.logical == logical && r.state == state && r.cause == cause
            &&& r.epoch == c.epoch
            &&& r.context.0 == r.instance.0
            &&& match c.current_of(logical) {
                Some(p) => r.generation == p.generation + 1,
                None => r.generation == 1,
            }
            &&& c.get(inst) is Some ==> is_kept(c, d, inst)
            &&& d.current_of(other) == c.current_of(other)
        }),
{
    if c.current.dom().contains(other) {
        assert(1 <= c.current[other] <= c.records.len());
    }
    if c.current.dom().contains(logical) {
        assert(c.generations.dom().contains(logical));
        assert(c.records[c.current[logical] - 1].generation == c.generations[logical]);
        assert(c.generations[logical] <= c.current[logical]);
    } else {
        assert(!c.generations.dom().contains(logical));
    }
}

/// A change of state gives the activation the state and the cause, leaves the
/// rest of it, and leaves every other activation.
pub proof fn states_are_put(
    c: ContextsV,
    inst: u64,
    state: Fsm,
    cause: Option<Text>,
    other: u64,
    logical: Text,
)
    requires
        c.wf(),
        c.get(inst) is Some,
        other != inst,
    ensures
        ({
            let d = c.put(inst, state, cause);
            let r = d.get(inst)->0;
            let q = c.get(inst)->0;
            &&& d.get(inst) is Some
            &&& r.state == state && r.cause == cause
            &&& r.logical == q.logical && r.generation == q.generation && r.epoch == q.epoch
            &&& r.instance == q.instance && r.context == q.context && r.parent == q.parent
            &&& c.get(other) is Some ==> is_kept(c, d, other)
            &&& d.current == c.current
            &&& d.generation_of(logical) == c.generation_of(logical)
        }),
{
}

/// An activation may be used exactly where it is active and no other one of
/// its logical id came after it.
pub proof fn the_active_and_current_are_admissible(c: ContextsV, inst: u64)
    requires
        c.wf(),
    ensures
        c.admissible(inst) is Ok <==> {
            &&& c.get(inst) is Some
            &&& c.get(inst)->0.state == Fsm::Active
            &&& c.current_of(c.get(inst)->0.logical) == c.get(inst)
        },
        c.admissible(inst) is Ok ==> c.get(inst) == Some(c.admissible(inst)->Ok_0),
{
    if let Some(r) = c.get(inst) {
        assert(c.records[inst - 1] == r);
        assert(c.generations.dom().contains(r.logical));
        assert(c.current.dom().contains(r.logical));
        let n = c.current[r.logical];
        assert(1 <= n <= c.records.len());
        assert(c.records[n - 1].instance.0 == n);
    }
}

/// The first claim to dispose of an activation makes it quiesce, and only one
/// that is not on its way out yet can be claimed first.
pub proof fn claims_make_it_quiesce(c: ContextsV, inst: u64, other: u64)
    requires
        c.wf(),
        c.get(inst) is Some,
        other != inst,
    ensures
        ({
            let (d, r) = c.claim(inst);
            let s = c.get(inst)->0.state;
            &&& r is Ok && r->Ok_0 is Fresh <==> s == Fsm::Registered || s == Fsm::Waiting || s
                == Fsm::Preparing || s == Fsm::Active || s == Fsm::Pending || s == Fsm::Loading
            &&& r is Err <==> s == Fsm::Disposed || s == Fsm::Failed
            &&& r is Ok && r->Ok_0 is Fresh ==> {
                &&& d.get(inst) is Some
                &&& d.get(inst)->0.state == Fsm::Quiescing
                &&& r->Ok_0 == DisposeClaimV::Fresh(d.get(inst)->0)
            }
            &&& !(r is Ok && r->Ok_0 is Fresh) ==> d == c
            &&& c.get(other) is Some ==> is_kept(c, d, other)
        }),
{
}

/// An activation becomes active exactly where it waits for it and is current;
/// one that is active stays so, and no other one changes.
pub proof fn the_waiting_become_active(c: ContextsV, inst: u64, other: u64)
    requires
        c.wf(),
        c.get(inst) is Some,
        other != inst,
    ensures
        ({
            let (d, done) = c.activate(inst);
            let q = c.get(inst)->0;
            let s = q.state;
            let current = c.current_of(q.logical) == c.get(inst);
            let waits = s == Fsm::Registered || s == Fsm::Waiting || s == Fsm::Preparing || s
                == Fsm::Pending || s == Fsm::Loading;
            &&& done <==> current && (waits || s == Fsm::Active)
            &&& done ==> d.get(inst) is Some && d.get(inst)->0.state == Fsm::Active
            &&& !done ==> d == c
            &&& c.get(other) is Some ==> is_kept(c, d, other)
        }),
{
    let r = c.get(inst)->0;
    assert(c.records[inst - 1] == r);
    assert(c.generations.dom().contains(r.logical));
    assert(c.current.dom().contains(r.logical));
    let n = c.current[r.logical];
    assert(1 <= n <= c.records.len());
    assert(c.records[n - 1].instance.0 == n);
}

/// A new reason is given exactly to an activation that was not active yet,
/// which then waits for that reason.
pub proof fn the_waiting_get_reasons(c: ContextsV, inst: u64, cause: Text, other: u64)
    requires
        c.get(inst) is Some,
        other != inst,
    ensures
        ({
            let (d, done) = c.wait(inst, cause);
            let s = c.get(inst)->0.state;
            &&& done <==> s == Fsm::Registered || s == Fsm::Waiting || s == Fsm::Preparing || s
                == Fsm::Pending || s == Fsm::Loading
            &&& done ==> d.get(inst) is Some && d.get(inst)->0.state == Fsm::Waiting
                && d.get(inst)->0.cause == Some(cause)
            &&& !done ==> d == c
            &&& c.get(other) is Some ==> is_kept(c, d, other)
        }),
{
}

/// Whether `b` may stand behind `a` in a snapshot.
pub open spec fn may_follow(a: ContextV, b: ContextV) -> bool {
    text::text_lt(a.logical, b.logical) || (a.logical == b.logical && a.generation <= b.generation)
}

proof fn following_is_transitive(a: ContextV, b: ContextV, c: ContextV)
    requires
        may_follow(a, b),
        may_follow(b, c),
    ensures
        may_follow(a, c),
{
    if text::text_lt(a.logical, b.logical) && text::text_lt(b.logical, c.logical) {
        text::text_lt_transitive(a.logical, b.logical, c.logical);
    }
}

proof fn insertion_orders(v: Seq<ContextV>, r: ContextV)
    requires
        forall|i: int, j: int| 0 <= i < j < v.len() ==> may_follow(#[trigger] v[i], #[trigger] v[j]),
    ensures
        ({
            let w = context::name_insert(v, r);
            &&& w.len() == v.len() + 1
            &&& w.to_multiset() =~= v.to_multiset().insert(r)
            &&& forall|i: int, j: int|
                0 <= i < j < w.len() ==> may_follow(#[trigger] w[i], #[trigger] w[j])
        }),
    decreases v.len(),
{
    broadcast use vstd::seq_lib::group_to_multiset_ensures;

    let w = context::name_insert(v, r);
    if v.len() == 0 || !context::comes_after(v.last(), r) {
        if v.len() > 0 {
            let l = v.last();
            text::text_lt_total(l.logical, r.logical);
            assert(may_follow(l, r));
            assert forall|i: int, j: int| 0 <= i < j < w.len() implies may_follow(
                #[trigger] w[i],
                #[trigger] w[j],
            ) by {
                if j == v.len() && i < v.len() - 1 {
                    assert(may_follow(v[i], v[v.len() - 1]));
                    following_is_transitive(v[i], l, r);
                }
            }
        }
    } else {
        let d = v.drop_last();
        let l = v.last();
        insertion_orders(d, r);
        let x = context::name_insert(d, r);
        assert(w == x.push(l));
        assert(v =~= d.push(l));
        assert(may_follow(r, l));
        assert forall|i: int, j: int| 0 <= i < j < w.len() implies may_follow(
            #[trigger] w[i],
            #[trigger] w[j],
        ) by {
            if j == x.len() {
                assert(x.to_multiset().count(x[i]) > 0) by {
                    assert(x.contains(x[i]));
                }
                if x[i] != r {
                    assert(d.to_multiset().count(x[i]) > 0);
                    assert(d.contains(x[i]));
                    let k = choose|k: int| 0 <= k < d.len() && d[k] == x[i];
                    assert(may_follow(v[k], v[v.len() - 1]));
                }
            }
        }
        assert(w.to_multiset() =~= v.to_multiset().insert(r));
    }
}

/// A snapshot holds every activation once, by logical id and, within one, by
/// generation.
pub proof fn snapshots_are_ordered(rs: Seq<ContextV>)
    ensures
        context::by_name(rs).to_multiset() == rs.to_multiset(),
        forall|i: int, j: int|
            0 <= i < j < context::by_name(rs).len() ==> may_follow(
                #[trigger] context::by_name(rs)[i],
                #[trigger] context::by_name(rs)[j],
            ),
    decreases rs.len(),
{
    broadcast use vstd::seq_lib::group_to_multiset_ensures;

    if rs.len() > 0 {
        let d = rs.drop_last();
        snapshots_are_ordered(d);
        insertion_orders(context::by_name(d), rs.last());
        assert(rs =~= d.push(rs.last()));
        assert(context::by_name(rs).to_multiset() =~= rs.to_multiset());
    }
}

// ---- capabilities -----------------------------------------------------

/// The withdrawal of a capability takes it exactly from the activation that
/// owns it, or from nobody in particular, and touches no other capability.
pub proof fn only_owners_lose_capabilities(caps: Caps, cap: Text, inst: u64, other: Text)
    requires
        other != cap,
        caps.dom().contains(cap),
    ensures
        registry::revoked(caps, cap, inst).dom().contains(cap) <==> caps[cap].instance != inst
            && caps[cap].instance != 0,
        registry::revoked(caps, cap, inst).dom().contains(other) <==> caps.dom().contains(other),
        caps.dom().contains(other) ==> registry::revoked(caps, cap, inst)[other] == caps[other],
        registry::revoked(caps, cap, inst).dom().contains(cap) ==> registry::revoked(
            caps,
            cap,
            inst,
        )[cap] == caps[cap],
{
}

/// A capability that an activation provides resolves to that activation.
pub proof fn provided_capabilities_resolve(r: crate::identity::InstanceRefV)
    ensures
        ({
            let x = registry::entry_of(r).reference();
            &&& x.logical == r.logical
            &&& x.instance == r.instance
            &&& x.generation == r.generation
            &&& x.epoch == r.epoch
        }),
{
}

// ---- subscriptions ----------------------------------------------------

/// A subscription is there once it is made, once only, behind those that were
/// there; the subscriptions to other topics stay.
pub proof fn subscriptions_are_made(t: Topics, topic: Text, s: SubV, other: Text)
    requires
        other != topic,
    ensures
        ({
            let before = bus::subs_of(t, topic);
            let after = bus::subs_of(bus::subscribed(t, topic, s), topic);
            &&& after.contains(s)
            &&& before.contains(s) ==> after == before
            &&& !before.contains(s) ==> after.len() == before.len() + 1 && after.last() == s
                && after.drop_last() == before
            &&& bus::subs_of(bus::subscribed(t, topic, s), other) == bus::subs_of(t, other)
        }),
{
    let before = bus::subs_of(t, topic);
    let after = bus::subs_of(bus::subscribed(t, topic, s), topic);
    if !before.contains(s) {
        assert(after[before.len() as int] == s);
        assert(after.drop_last() =~= before);
    }
}

// ---- resources --------------------------------------------------------

/// Whether a label says something.
pub open spec fn says_something(label: Text) -> bool {
    text::trimmed(label).len() > 0
}

/// A resource can be acquired exactly where its label says something and, if
/// it is a timer, its interval lies between one millisecond and a minute; the
/// kind that fails on purpose never can.
pub proof fn sound_resources_are_acquirable(k: ResourceKindV)
    ensures
        k.fault() is None <==> match k {
            ResourceKindV::FailAcquire { .. } => false,
            ResourceKindV::Timer { label, interval_ms } => says_something(label) && 1 <= interval_ms
                <= 60_000,
            ResourceKindV::Cap { name } => says_something(name),
            ResourceKindV::Sub { topic } => says_something(topic),
            ResourceKindV::Task { label } => says_something(label),
            ResourceKindV::FailRelease { label } => says_something(label),
        },
{
}

/// A handle is good exactly where its resource is there, is not released, and
/// belongs to the activation and the generation that use it.
pub proof fn owners_use_their_handles(
    t: ResourcesV,
    h: ResourceHandle,
    inst: InstanceId,
    generation: u64,
)
    ensures
        t.validate(h, inst, generation) is Ok <==> {
            &&& t.get(h) is Some
            &&& t.get(h)->0.state == ResourceState::Active
            &&& t.get(h)->0.owner_instance == inst
            &&& t.get(h)->0.generation == generation
        },
        t.validate(h, inst, generation) is Ok ==> t.get(h) == Some(
            t.validate(h, inst, generation)->Ok_0,
        ),
{
}

/// An acquisition that is taken back leaves nothing of the resource; one that
/// was released before stays released, and no other resource changes.
pub proof fn rollbacks_leave_nothing(t: ResourcesV, h: ResourceHandle, other: ResourceHandle)
    requires
        other != h,
    ensures
        t.get(h) is Some && t.get(h)->0.state == ResourceState::Active ==> t.rollback(h).get(
            h,
        ) is None,
        !(t.get(h) is Some && t.get(h)->0.state == ResourceState::Active) ==> t.rollback(h) == t,
        t.rollback(h).get(other) == t.get(other),
        t.rollback(h).total_releases == t.total_releases,
{
}

/// The handles of an owner are those of its resources, in the order in which
/// they were acquired.
pub proof fn handles_are_those_owned(slots: Seq<Option<ResourceV>>, owner: ContextId, n: u64)
    requires
        slots.len() <= u64::MAX,
    ensures
        resources::handles_in(slots, owner).contains(ResourceHandle(n)) <==> {
            &&& 1 <= n <= slots.len()
            &&& slots[n - 1] is Some
            &&& slots[n - 1]->0.owner_context == owner
        },
        forall|i: int, j: int|
            0 <= i < j < resources::handles_in(slots, owner).len() ==> (
            #[trigger] resources::handles_in(slots, owner)[i]).0 < (
            #[trigger] resources::handles_in(slots, owner)[j]).0,
    decreases slots.len(),
{
    handles_are_within(slots, owner);
    if slots.len() > 0 {
        let d = slots.drop_last();
        let rest = resources::handles_in(d, owner);
        let all = resources::handles_in(slots, owner);
        handles_are_those_owned(d, owner, n);
        handles_are_within(d, owner);
        let m = ResourceHandle(slots.len() as u64);
        if all.len() > rest.len() {
            assert(all == rest.push(m));
            assert(all[rest.len() as int] == m);
            if rest.contains(ResourceHandle(n)) {
                let i = choose|i: int| 0 <= i < rest.len() && rest[i] == ResourceHandle(n);
                assert(all[i] == ResourceHandle(n));
            }
            if all.contains(ResourceHandle(n)) && n != slots.len() {
                let i = choose|i: int| 0 <= i < all.len() && all[i] == ResourceHandle(n);
                assert(rest[i] == ResourceHandle(n));
            }
            assert forall|i: int, j: int| 0 <= i < j < all.len() implies (#[trigger] all[i]).0 < (
            #[trigger] all[j]).0 by {
                if j == rest.len() {
                    assert(rest[i].0 <= d.len());
                }
            }
        }
    }
}

proof fn handles_are_within(slots: Seq<Option<ResourceV>>, owner: ContextId)
    requires
        slots.len() <= u64::MAX,
    ensures
        forall|i: int|
            0 <= i < resources::handles_in(slots, owner).len() ==> 1 <= (
            #[trigger] resources::handles_in(slots, owner)[i]).0 <= slots.len(),
    decreases slots.len(),
{
    if slots.len() > 0 {
        let rest = resources::handles_in(slots.drop_last(), owner);
        let all = resources::handles_in(slots, owner);
        handles_are_within(slots.drop_last(), owner);
        assert forall|i: int| 0 <= i < all.len() implies 1 <= (#[trigger] all[i]).0 <= slots.len() by {
            if i < rest.len() {
                assert(all[i] == rest[i]);
            }
        }
    }
}

/// Whether `b` may stand behind `a` in an inventory.
pub open spec fn is_behind(a: ResourceV, b: ResourceV) -> bool {
    a.owner_context.0 <= b.owner_context.0
}

proof fn owners_stay_ordered(v: Seq<ResourceV>, r: ResourceV)
    requires
        forall|i: int, j: int| 0 <= i < j < v.len() ==> is_behind(#[trigger] v[i], #[trigger] v[j]),
    ensures
        ({
            let w = resources::owner_insert(v, r);
            &&& w.to_multiset() =~= v.to_multiset().insert(r)
            &&& forall|i: int, j: int|
                0 <= i < j < w.len() ==> is_behind(#[trigger] w[i], #[trigger] w[j])
        }),
    decreases v.len(),
{
    broadcast use vstd::seq_lib::group_to_multiset_ensures;

    let w = resources::owner_insert(v, r);
    if v.len() == 0 || v.last().owner_context.0 <= r.owner_context.0 {
        assert forall|i: int, j: int| 0 <= i < j < w.len() implies is_behind(
            #[trigger] w[i],
            #[trigger] w[j],
        ) by {
            if j == v.len() && i < v.len() - 1 {
                assert(is_behind(v[i], v[v.len() - 1]));
            }
        }
    } else {
        let d = v.drop_last();
        let l = v.last();
        owners_stay_ordered(d, r);
        let x = resources::owner_insert(d, r);
        assert(w == x.push(l));
        assert(v =~= d.push(l));
        assert forall|i: int, j: int| 0 <= i < j < w.len() implies is_behind(
            #[trigger] w[i],
            #[trigger] w[j],
        ) by {
            if j == x.len() {
                assert(x.contains(x[i]));
                assert(x.to_multiset().count(x[i]) > 0);
                if x[i] != r {
                    assert(d.to_multiset().count(x[i]) > 0);
                    assert(d.contains(x[i]));
                    let k = choose|k: int| 0 <= k < d.len() && d[k] == x[i];
                    assert(is_behind(v[k], v[v.len() - 1]));
                }
            }
        }
        assert(w.to_multiset() =~= v.to_multiset().insert(r));
    }
}

/// An inventory holds every resource that there is, and goes by owner.
pub proof fn inventories_go_by_owner(slots: Seq<Option<ResourceV>>, r: ResourceV)
    ensures
        resources::by_owner(slots).contains(r) <==> slots.contains(Some(r)),
        forall|i: int, j: int|
            0 <= i < j < resources::by_owner(slots).len() ==> is_behind(
                #[trigger] resources::by_owner(slots)[i],
                #[trigger] resources::by_owner(slots)[j],
            ),
    decreases slots.len(),
{
    broadcast use vstd::seq_lib::group_to_multiset_ensures;

    if slots.len() > 0 {
        let d = slots.drop_last();
        let rest = resources::by_owner(d);
        let all = resources::by_owner(slots);
        inventories_go_by_owner(d, r);
        assert(slots.contains(Some(r)) <==> d.contains(Some(r)) || slots.last() == Some(r)) by {
            if d.contains(Some(r)) {
                let i = choose|i: int| 0 <= i < d.len() && d[i] == Some(r);
                assert(slots[i] == Some(r));
            }
            assert(slots[slots.len() - 1] == slots.last());
            if slots.contains(Some(r)) && slots.last() != Some(r) {
                let i = choose|i: int| 0 <= i < slots.len() && slots[i] == Some(r);
                assert(d[i] == Some(r));
            }
        }
        if let Some(x) = slots.last() {
            owners_stay_ordered(rest, x);
            assert(all.to_multiset().count(r) > 0 <==> rest.to_multiset().count(r) > 0 || r == x);
        }
    }
}

// ---- journal ----------------------------------------------------------

/// An entry is read exactly where one of the lines spells it.
pub proof fn entries_are_those_spelled(lines: Seq<Text>, e: journal::EntryV)
    ensures
        journal::entries_of(lines).contains(e) <==> exists|i: int|
            0 <= i < lines.len() && journal::read_line(#[trigger] lines[i]) == Some(e),
    decreases lines.len(),
{
    if lines.len() > 0 {
        let d = lines.drop_last();
        let n = lines.len() - 1;
        entries_are_those_spelled(d, e);
        if let Some(x) = journal::read_line(lines.last()) {
            insertion_adds(journal::entries_of(d), x, e);
        }
        if exists|i: int| 0 <= i < lines.len() && journal::read_line(#[trigger] lines[i]) == Some(e) {
            let i = choose|i: int|
                0 <= i < lines.len() && journal::read_line(#[trigger] lines[i]) == Some(e);
            if i < n {
                assert(journal::read_line(d[i]) == Some(e));
            }
        }
        if exists|i: int| 0 <= i < d.len() && journal::read_line(#[trigger] d[i]) == Some(e) {
            let i = choose|i: int|
                0 <= i < d.len() && journal::read_line(#[trigger] d[i]) == Some(e);
            assert(journal::read_line(lines[i]) == Some(e));
        }
        if journal::read_line(lines.last()) == Some(e) {
            assert(journal::read_line(lines[n]) == Some(e));
        }
    }
}

proof fn insertion_adds(es: Seq<journal::EntryV>, x: journal::EntryV, e: journal::EntryV)
    ensures
        journal::seq_insert(es, x).contains(e) <==> e == x || es.contains(e),
    decreases es.len(),
{
    let w = journal::seq_insert(es, x);
    if es.len() == 0 || es.last().seq <= x.seq {
        assert(w == es.push(x));
        assert(w[es.len() as int] == x);
        if es.contains(e) {
            let i = choose|i: int| 0 <= i < es.len() && es[i] == e;
            assert(w[i] == e);
        }
    } else {
        let d = es.drop_last();
        let y = journal::seq_insert(d, x);
        insertion_adds(d, x, e);
        assert(w == y.push(es.last()));
        assert(w[y.len() as int] == es.last());
        if y.contains(e) {
            let i = choose|i: int| 0 <= i < y.len() && y[i] == e;
            assert(w[i] == e);
        }
        if es.contains(e) && e != es.last() {
            let i = choose|i: int| 0 <= i < es.len() && es[i] == e;
            assert(d[i] == e);
        }
        if w.contains(e) && e != es.last() {
            let i = choose|i: int| 0 <= i < w.len() && w[i] == e;
            assert(y[i] == e);
        }
        if d.contains(e) {
            let i = choose|i: int| 0 <= i < d.len() && d[i] == e;
            assert(es[i] == e);
        }
        assert(es[es.len() - 1] == es.last());
    }
}

/// A journal goes on after the highest number among its entries.
pub proof fn journals_go_on(lines: Seq<Text>, i: int)
    requires
        0 <= i < journal::entries_of(lines).len(),
    ensures
        journal::entries_of(lines)[i].seq <= journal::last_seq(journal::entries_of(lines)),
        exists|j: int|
            0 <= j < journal::entries_of(lines).len() && (#[trigger] journal::entries_of(
                lines,
            )[j]).seq == journal::last_seq(journal::entries_of(lines)),
{
    journal::entries_are_ordered(lines);
    let es = journal::entries_of(lines);
    assert(es[i].seq <= es[es.len() - 1].seq);
    assert(es[es.len() - 1].seq == journal::last_seq(es));
}

/// An entry is written in the second version of the format exactly where the
/// journal is told to, else in the first; it carries what it was given.
pub proof fn entries_are_versioned(
    j: journal::JournalV,
    fiber: Text,
    kind: Text,
    args: JsonV,
    undo: JsonV,
)
    requires
        j.seq < u64::MAX,
    ensures
        ({
            let l = j.append(fiber, kind, args, undo).pending.last();
            &&& l.v == if j.core_v2 {
                2u64
            } else {
                1u64
            }
            &&& l.seq == j.seq + 1
            &&& l.fiber == fiber && l.kind == kind && l.args == args && l.undo == undo
        }),
{
}

/// The digit of a number below ten.
pub open spec fn figure(n: int) -> char {
    ('0' as int + n) as char
}

/// A stamp holds the seconds, a point, and the milliseconds in three digits.
pub proof fn stamps_have_three_digits(secs: u64, millis: u32)
    requires
        millis < 1000,
    ensures
        journal::stamp(secs, millis) == text::dec(secs as nat) + seq![
            '.',
            figure(millis as int / 100),
            figure(millis as int / 10 % 10),
            figure(millis as int % 10),
        ],
{
    reveal_strlit(".");
    reveal_strlit("00");
    reveal_strlit("0");
    reveal_strlit("");
    reveal_with_fuel(text::dec, 3);
    let m = millis as nat;
    assert(m / 10 / 10 == m / 100);
    assert(journal::stamp(secs, millis) =~= text::dec(secs as nat) + seq![
        '.',
        figure(millis as int / 100),
        figure(millis as int / 10 % 10),
        figure(millis as int % 10),
    ]);
}

// ---- arguments --------------------------------------------------------

/// Whether `pat` stands in `s` at `i`.
pub open spec fn occurs_at(s: Text, pat: Text, i: int) -> bool {
    0 <= i && i + pat.len() <= s.len() && s.subrange(i, i + pat.len()) == pat
}

/// Replacing puts the other text where the pattern stands first, and goes on
/// behind it; a text without the pattern stays.
pub proof fn patterns_are_replaced(s: Text, pat: Text, by: Text, i: int)
    requires
        pat.len() > 0,
    ensures
        (forall|j: int| !(#[trigger] occurs_at(s, pat, j))) ==> text::replaced(s, pat, by) == s,
        occurs_at(s, pat, i) && (forall|j: int| 0 <= j < i ==> !(#[trigger] occurs_at(s, pat, j)))
            ==> text::replaced(s, pat, by) == s.take(i) + by + text::replaced(
            s.skip(i + pat.len()),
            pat,
            by,
        ),
    decreases s.len(),
{
    if s.len() >= pat.len() {
        assert(s.take(pat.len() as int) =~= s.subrange(0, pat.len() as int));
        let d = s.drop_first();
        if s.take(pat.len() as int) == pat {
            assert(occurs_at(s, pat, 0));
            if i == 0 {
                assert(s.take(0) + by + text::replaced(s.skip(pat.len() as int), pat, by) =~= by
                    + text::replaced(s.skip(pat.len() as int), pat, by));
            }
        } else {
            assert(!occurs_at(s, pat, 0));
            patterns_are_replaced(d, pat, by, i - 1);
            assert forall|j: int| 0 <= j implies #[trigger] occurs_at(d, pat, j) == occurs_at(
                s,
                pat,
                j + 1,
            ) by {
                if j + pat.len() <= d.len() {
                    assert(d.subrange(j, j + pat.len()) =~= s.subrange(j + 1, j + 1 + pat.len()));
                }
            }
            if forall|j: int| !(#[trigger] occurs_at(s, pat, j)) {
                assert forall|j: int| !(#[trigger] occurs_at(d, pat, j)) by {
                    assert(!occurs_at(s, pat, j + 1));
                }
                assert(seq![s[0]] + d =~= s);
            }
            if occurs_at(s, pat, i) && (forall|j: int|
                0 <= j < i ==> !(#[trigger] occurs_at(s, pat, j))) {
                assert(i > 0);
                assert(occurs_at(d, pat, i - 1));
                assert forall|j: int| 0 <= j < i - 1 implies !(#[trigger] occurs_at(d, pat, j)) by {
                    assert(!occurs_at(s, pat, j + 1));
                }
                assert(d.skip(i - 1 + pat.len()) =~= s.skip(i + pat.len()));
                assert(seq![s[0]] + d.take(i - 1) =~= s.take(i));
                let rest = text::replaced(s.skip(i + pat.len()), pat, by);
                assert(seq![s[0]] + (d.take(i - 1) + by + rest) =~= s.take(i) + by + rest);
            }
        }
    } else {
        assert(!occurs_at(s, pat, i));
    }
}

/// An argument that asks for nothing is passed on as it is; `{sock}` alone
/// becomes the socket, where that asks for nothing, and `{id}` alone the id.
pub proof fn arguments_are_filled_in(arg: Text, sock: Text, id: Text)
    ensures
        (forall|j: int| !(#[trigger] occurs_at(arg, "{sock}"@, j))) && (forall|j: int|
            !(#[trigger] occurs_at(arg, "{id}"@, j))) ==> external::expanded(arg, sock, id) == arg,
        (forall|j: int| !(#[trigger] occurs_at(sock, "{id}"@, j))) ==> external::expanded(
            "{sock}"@,
            sock,
            id,
        ) == sock,
        external::expanded("{id}"@, sock, id) == id,
{
    reveal_strlit("{sock}");
    reveal_strlit("{id}");
    let a = "{sock}"@;
    let b = "{id}"@;
    assert(a.len() == 6 && b.len() == 4);
    patterns_are_replaced(arg, a, sock, 0);
    patterns_are_replaced(arg, b, id, 0);
    patterns_are_replaced(sock, b, id, 0);
    assert(a.take(6) =~= a);
    assert(b.take(4) =~= b);
    assert(text::replaced(a.skip(6), a, sock) =~= Seq::<char>::empty());
    assert(text::replaced(b.skip(4), b, id) =~= Seq::<char>::empty());
    assert(text::replaced(a, a, sock) =~= sock);
    assert(text::replaced(b, a, sock) == b);
    assert(text::replaced(b, b, id) =~= id);
}

} // verus!
