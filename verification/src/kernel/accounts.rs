//! What the journal says of each change, what is made of a journal that is
//! played back, and what batches and resets leave.

use vstd::prelude::*;
use vstd::string::*;
use crate::calls::{CallPolicy, TicketId, TicketState};
use crate::conversation;
use crate::fsm::Fsm;
use crate::identity::ResourceHandle;
use crate::journal::{EntryV, LineV};
use crate::json;
use crate::json::JsonV;
use crate::kernel::answers;
use crate::kernel::dependency::DepAdmitV;
use crate::kernel::dispatch;
use crate::kernel::holdings;
use crate::kernel::showing;
use crate::kernel::tickets;
use crate::kernel::{KernelV, PluginV};
use crate::resources::ResourceKindV;
use crate::text::Text;
use crate::time::Instant;

verus! {

/// The last entry of the journal that is not written yet.
pub open spec fn last_entry(k: KernelV) -> LineV {
    k.journal.pending.last()
}

/// Whether `b` has one entry more than `a`, of this kind and fiber.
pub open spec fn notes(a: KernelV, b: KernelV, fiber: Text, kind: Text) -> bool {
    &&& b.journal.pending.len() == a.journal.pending.len() + 1
    &&& b.journal.pending.drop_last() == a.journal.pending
    &&& last_entry(b).fiber == fiber
    &&& last_entry(b).kind == kind
}

proof fn noted(k: KernelV, fiber: Text, kind: Text, args: JsonV)
    ensures
        notes(k, k.log(fiber, kind, args), fiber, kind),
        last_entry(k.log(fiber, kind, args)).args == args,
{
    let ps = k.log(fiber, kind, args).journal.pending;
    assert(ps.drop_last() =~= k.journal.pending);
}

// ---- resources --------------------------------------------------------

/// An acquisition is noted with the handle, what was acquired, and the
/// activation that holds it.
pub proof fn acquisitions_are_noted(
    k: KernelV,
    logical: Text,
    kind: ResourceKindV,
    start: Option<Text>,
)
    requires
        k.contexts.wf(),
        k.acquire(logical, kind, start).1 is Ok,
    ensures
        ({
            let (k2, r) = k.acquire(logical, kind, start);
            let c = k.contexts.current_of(logical)->0;
            let m = last_entry(k2).args;
            &&& notes(k, k2, logical, "resource.acquired"@)
            &&& showing::shows_number(m, "handle"@, r->Ok_0.0)
            &&& showing::shows_text(m, "kind"@, kind.kind_name())
            &&& showing::shows_text(m, "label"@, holdings::name_of(kind))
            &&& showing::shows_number(m, "instance"@, c.instance.0)
            &&& showing::shows_number(m, "context"@, c.context.0)
            &&& showing::shows_number(m, "generation"@, c.generation)
        }),
{
    let (k2, res) = k.acquire(logical, kind, start);
    let h = res->Ok_0;
    let c = k.contexts.current_of(logical)->0;
    let (rs, _) = k.resources.register(c.context, c.instance, c.logical, c.generation, kind, start);
    let k1 = k.with_resources(rs).publish(kind, c, c.logical).note_handle(logical, c, h);
    assert(k1.journal == k.journal);
    noted(k1, logical, "resource.acquired"@, KernelV::acquired_args(kind, c, h));
    conversation::blank_record();
    reveal_strlit("handle");
    reveal_strlit("kind");
    reveal_strlit("label");
    reveal_strlit("instance");
    reveal_strlit("context");
    reveal_strlit("generation");
    assert("handle"@.len() == 6);
    assert("kind"@.len() == 4);
    assert("label"@.len() == 5);
    assert("instance"@.len() == 8);
    assert("context"@.len() == 7);
    assert("generation"@.len() == 10);
    let m0 = JsonV::object().with("handle"@, json::jnum(h.0));
    let m1 = m0.with("kind"@, json::jstr(kind.kind_name()));
    let m2 = m1.with("label"@, json::jstr(kind.label()));
    let m3 = m2.with("instance"@, json::jnum(c.instance.0));
    let m4 = m3.with("context"@, json::jnum(c.context.0));
    let m5 = m4.with("generation"@, json::jnum(c.generation));
    conversation::added(JsonV::object(), "handle"@, json::jnum(h.0));
    conversation::added(m0, "kind"@, json::jstr(kind.kind_name()));
    conversation::added(m1, "label"@, json::jstr(kind.label()));
    conversation::added(m2, "instance"@, json::jnum(c.instance.0));
    conversation::added(m3, "context"@, json::jnum(c.context.0));
    conversation::added(m4, "generation"@, json::jnum(c.generation));
}

/// A release is noted with the handle and the activation that held it.
pub proof fn releases_are_noted(k: KernelV, h: ResourceHandle)
    requires
        k.release(h).1 is Ok,
    ensures
        ({
            let k2 = k.release(h).0;
            let r = k.resources.get(h)->0;
            let m = last_entry(k2).args;
            &&& notes(k, k2, r.owner_logical, "resource.released"@)
            &&& showing::shows_number(m, "handle"@, h.0)
            &&& showing::shows_number(m, "instance"@, r.owner_instance.0)
            &&& showing::shows_number(m, "generation"@, r.generation)
        }),
{
    let r = k.resources.get(h)->0;
    let (rs, res) = k.resources.release(h);
    let k1 = k.with_resources(rs).unpublish(res->Ok_0.kind, r.owner_instance);
    assert(k1.journal == k.journal);
    conversation::blank_record();
    reveal_strlit("handle");
    reveal_strlit("instance");
    reveal_strlit("generation");
    assert("handle"@.len() == 6);
    assert("instance"@.len() == 8);
    assert("generation"@.len() == 10);
    let m0 = JsonV::object().with("handle"@, json::jnum(h.0));
    let m1 = m0.with("instance"@, json::jnum(r.owner_instance.0));
    let m2 = m1.with("generation"@, json::jnum(r.generation));
    conversation::added(JsonV::object(), "handle"@, json::jnum(h.0));
    conversation::added(m0, "instance"@, json::jnum(r.owner_instance.0));
    conversation::added(m1, "generation"@, json::jnum(r.generation));
    noted(k1, r.owner_logical, "resource.released"@, m2);
}

/// Each kind of resource has a name of its own.
pub proof fn kinds_are_named(kind: ResourceKindV)
    ensures
        kind is Cap ==> kind.kind_name() == "cap"@,
        kind is Sub ==> kind.kind_name() == "sub"@,
        kind is Timer ==> kind.kind_name() == "timer"@,
        kind is Task ==> kind.kind_name() == "task"@,
        kind is FailAcquire ==> kind.kind_name() == "fail-acquire"@,
        kind is FailRelease ==> kind.kind_name() == "fail-release"@,
        kind.label() == holdings::name_of(kind),
{
}

// ---- calls ------------------------------------------------------------

/// An opened call is noted with its ticket, its capability, its input, the
/// activation that takes it and its policy.
pub proof fn opened_calls_are_noted(
    k: KernelV,
    cap: Text,
    input: JsonV,
    policy: Option<CallPolicy>,
    pins: Seq<ResourceHandle>,
    now: Instant,
)
    requires
        k.call_open(cap, input, policy, pins, now).1 is Ok,
    ensures
        ({
            let (k2, r) = k.call_open(cap, input, policy, pins, now);
            let o = r->Ok_0;
            let m = last_entry(k2).args;
            &&& notes(k, k2, o.logical, "call.open"@)
            &&& showing::shows_number(m, "ticket"@, o.ticket.0)
            &&& showing::shows_text(m, "cap"@, cap)
            &&& m.get("input"@) == Some(input)
            &&& showing::shows_number(m, "instance"@, o.instance.0)
            &&& showing::shows_number(m, "generation"@, o.generation)
            &&& showing::shows_text(m, "policy"@, o.policy.on_withdraw.name())
            &&& showing::shows_number(m, "drain_ms"@, o.policy.drain_ms)
        }),
{
    let c = k.admission(cap)->Ok_0;
    let used = match policy {
        Some(p) => p,
        None => k.policy_for(c.logical, cap),
    };
    let t = k.ticket_for(cap, c, used, pins, now);
    conversation::blank_record();
    reveal_strlit("ticket");
    reveal_strlit("cap");
    reveal_strlit("input");
    reveal_strlit("instance");
    reveal_strlit("generation");
    reveal_strlit("policy");
    reveal_strlit("drain_ms");
    assert("ticket"@.len() == 6 && "ticket"@[0] == 't');
    assert("cap"@.len() == 3);
    assert("input"@.len() == 5);
    assert("instance"@.len() == 8 && "instance"@[0] == 'i');
    assert("generation"@.len() == 10);
    assert("policy"@.len() == 6 && "policy"@[0] == 'p');
    assert("drain_ms"@.len() == 8 && "drain_ms"@[0] == 'd');
    let m0 = JsonV::object().with("ticket"@, json::jnum(t.id.0));
    let m1 = m0.with("cap"@, json::jstr(cap));
    let m2 = m1.with("input"@, input);
    let m3 = m2.with("instance"@, json::jnum(c.instance.0));
    let m4 = m3.with("generation"@, json::jnum(c.generation));
    let m5 = m4.with("policy"@, json::jstr(t.policy.on_withdraw.name()));
    let m6 = m5.with("drain_ms"@, json::jnum(t.policy.drain_ms));
    conversation::added(JsonV::object(), "ticket"@, json::jnum(t.id.0));
    conversation::added(m0, "cap"@, json::jstr(cap));
    conversation::added(m1, "input"@, input);
    conversation::added(m2, "instance"@, json::jnum(c.instance.0));
    conversation::added(m3, "generation"@, json::jnum(c.generation));
    conversation::added(m4, "policy"@, json::jstr(t.policy.on_withdraw.name()));
    conversation::added(m5, "drain_ms"@, json::jnum(t.policy.drain_ms));
    noted(k.with_calls(k.calls.issue(t)), c.logical, "call.open"@, m6);
}

/// A committed effect is noted with its ticket, its number, its kind and the
/// activation that committed it.
pub proof fn commits_are_noted(
    k: KernelV,
    id: TicketId,
    kind: Text,
    payload: JsonV,
    now: Instant,
    at_ms: u64,
)
    requires
        k.commit_effect(id, kind, payload, now, at_ms).1 is Ok,
    ensures
        ({
            let (k2, r) = k.commit_effect(id, kind, payload, now, at_ms);
            let t = k.calls.tickets[id.0];
            let m = last_entry(k2).args;
            &&& notes(k, k2, t.logical, "call.committed"@)
            &&& showing::shows_number(m, "ticket"@, t.id.0)
            &&& showing::shows_number(m, "effect"@, r->Ok_0)
            &&& showing::shows_text(m, "kind"@, kind)
            &&& showing::shows_number(m, "instance"@, t.instance.0)
            &&& showing::shows_number(m, "generation"@, t.generation)
        }),
{
    let t = k.calls.tickets[id.0];
    let n = k.calls.next_effect;
    assert(k.chain_check(t, kind, now) == (k, None::<JsonV>));
    assert(k.provider_check(t, kind, now) == (k, None::<JsonV>));
    conversation::blank_record();
    reveal_strlit("ticket");
    reveal_strlit("effect");
    reveal_strlit("kind");
    reveal_strlit("instance");
    reveal_strlit("generation");
    assert("ticket"@.len() == 6 && "ticket"@[0] == 't');
    assert("effect"@.len() == 6 && "effect"@[0] == 'e');
    assert("kind"@.len() == 4);
    assert("instance"@.len() == 8);
    assert("generation"@.len() == 10);
    let m0 = JsonV::object().with("ticket"@, json::jnum(t.id.0));
    let m1 = m0.with("effect"@, json::jnum(n));
    let m2 = m1.with("kind"@, json::jstr(kind));
    let m3 = m2.with("instance"@, json::jnum(t.instance.0));
    let m4 = m3.with("generation"@, json::jnum(t.generation));
    conversation::added(JsonV::object(), "ticket"@, json::jnum(t.id.0));
    conversation::added(m0, "effect"@, json::jnum(n));
    conversation::added(m1, "kind"@, json::jstr(kind));
    conversation::added(m2, "instance"@, json::jnum(t.instance.0));
    conversation::added(m3, "generation"@, json::jnum(t.generation));
    let c = k.calls.record(k.calls.effect(t, kind, payload, at_ms)).set_state(
        t.id,
        TicketState::Committed,
    );
    noted(k.with_calls(c), t.logical, "call.committed"@, m4);
}

/// An admitted dependency call is noted with its ticket, its parent, the
/// binding, the capability, the provider, its depth and the revision of its
/// grant, and whether it leaves this host.
pub proof fn admissions_are_noted(k: KernelV, req: DepAdmitV, now: Instant)
    requires
        k.dependency_admit(req, now).1 is Ok,
    ensures
        ({
            let (k2, r) = k.dependency_admit(req, now);
            let t = k2.calls.tickets[r->Ok_0.0];
            let d = t.dep->0;
            let m = last_entry(k2).args;
            &&& notes(k, k2, req.caller_logical, "dependency.admitted"@)
            &&& showing::shows_number(m, "ticket"@, r->Ok_0.0)
            &&& showing::shows_number(m, "parent"@, req.parent.0)
            &&& showing::shows_text(m, "binding"@, d.binding)
            &&& showing::shows_text(m, "capability"@, t.cap)
            &&& showing::shows_text(m, "provider"@, t.logical)
            &&& showing::shows_number(m, "depth"@, d.depth as u64)
            &&& showing::shows_number(m, "grant_rev"@, d.grant_rev)
            &&& m.get("remote"@) == Some(JsonV::Bool(d.remote_peer is Some))
            &&& d.remote_peer matches Some(p) ==> showing::shows_text(m, "peer"@, p)
        }),
{
    let a = k.dep_authority(req)->Ok_0;
    let peer = match a.peer {
        Some(p) => p,
        None => Seq::empty(),
    };
    let k2 = k.dependency_admit(req, now).0;
    conversation::blank_record();
    reveal_strlit("ticket");
    reveal_strlit("parent");
    reveal_strlit("binding");
    reveal_strlit("capability");
    reveal_strlit("provider");
    reveal_strlit("depth");
    reveal_strlit("grant_rev");
    reveal_strlit("remote");
    reveal_strlit("peer");
    assert("ticket"@.len() == 6 && "ticket"@[0] == 't');
    assert("parent"@.len() == 6 && "parent"@[0] == 'p');
    assert("binding"@.len() == 7);
    assert("capability"@.len() == 10);
    assert("provider"@.len() == 8);
    assert("depth"@.len() == 5);
    assert("grant_rev"@.len() == 9);
    assert("remote"@.len() == 6 && "remote"@[0] == 'r');
    assert("peer"@.len() == 4);
    let m0 = JsonV::object().with("ticket"@, json::jnum(k.calls.next_ticket));
    let m1 = m0.with("parent"@, json::jnum(req.parent.0));
    let m2 = m1.with("binding"@, json::jstr(a.binding.id));
    let m3 = m2.with("capability"@, json::jstr(a.binding.capability));
    let m4 = m3.with("provider"@, json::jstr(a.binding.provider_logical));
    let m5 = m4.with("depth"@, json::jnum(a.depth as u64));
    let m6 = m5.with("grant_rev"@, json::jnum(a.rev));
    let m7 = m6.with("remote"@, JsonV::Bool(a.peer is Some));
    let m8 = m7.with("peer"@, json::jstr(peer));
    conversation::added(JsonV::object(), "ticket"@, json::jnum(k.calls.next_ticket));
    conversation::added(m0, "parent"@, json::jnum(req.parent.0));
    conversation::added(m1, "binding"@, json::jstr(a.binding.id));
    conversation::added(m2, "capability"@, json::jstr(a.binding.capability));
    conversation::added(m3, "provider"@, json::jstr(a.binding.provider_logical));
    conversation::added(m4, "depth"@, json::jnum(a.depth as u64));
    conversation::added(m5, "grant_rev"@, json::jnum(a.rev));
    conversation::added(m6, "remote"@, JsonV::Bool(a.peer is Some));
    conversation::added(m7, "peer"@, json::jstr(peer));
    noted(KernelV { journal: k.journal, ..k2 }, req.caller_logical, "dependency.admitted"@, m8);
}

/// An invocation is noted with its capability and its input.
pub proof fn invocations_are_noted(k: KernelV, fiber: Text, cap: Text, input: JsonV)
    ensures
        ({
            let k2 = k.conclude(dispatch::invoked(fiber, cap, input));
            let m = last_entry(k2).args;
            &&& notes(k, k2, fiber, "cap.invoke"@)
            &&& showing::shows_text(m, "cap"@, cap)
            &&& m.get("input"@) == Some(input)
        }),
{
    conversation::blank_record();
    reveal_strlit("cap");
    reveal_strlit("input");
    assert("cap"@.len() == 3);
    assert("input"@.len() == 5);
    let m0 = JsonV::object().with("cap"@, json::jstr(cap));
    let m1 = m0.with("input"@, input);
    conversation::added(JsonV::object(), "cap"@, json::jstr(cap));
    conversation::added(m0, "input"@, input);
    noted(k, fiber, "cap.invoke"@, m1);
}

/// What is noted of a ticket names it and says why.
pub proof fn tickets_are_noted(t: TicketId, reason: Text)
    ensures
        showing::shows_number(tickets::ticket_reason(t, reason), "ticket"@, t.0),
        showing::shows_text(tickets::ticket_reason(t, reason), "reason"@, reason),
{
    conversation::blank_record();
    reveal_strlit("ticket");
    reveal_strlit("reason");
    assert("ticket"@.len() == 6 && "ticket"@[0] == 't');
    assert("reason"@.len() == 6 && "reason"@[0] == 'r');
    let m0 = JsonV::object().with("ticket"@, json::jnum(t.0));
    let m1 = m0.with("reason"@, json::jstr(reason));
    conversation::added(JsonV::object(), "ticket"@, json::jnum(t.0));
    conversation::added(m0, "reason"@, json::jstr(reason));
}

// ---- batches ----------------------------------------------------------

/// A batch that is acquired gives one handle for each of its items, in their
/// order, and each of them is an active resource of that kind.
pub proof fn batches_are_acquired_in_order(
    k: KernelV,
    logical: Text,
    items: Seq<(ResourceKindV, Option<Text>)>,
    i: int,
)
    requires
        k.contexts.wf(),
        k.resources.slots.len() + items.len() < u64::MAX,
        k.acquire_batch(logical, items).1 is Ok,
        0 <= i < items.len(),
    ensures
        ({
            let (k2, r) = k.acquire_batch(logical, items);
            let hs = r->Ok_0;
            let n = k.resources.slots.len();
            let c = k.contexts.current_of(logical)->0;
            &&& hs.len() == items.len()
            &&& k2.resources.slots.len() == n + items.len()
            &&& k2.contexts == k.contexts
            &&& hs[i].0 == n + 1 + i
            &&& holdings::can_be_acquired(items[i].0, items[i].1)
            &&& k2.resources.slots[n + i] matches Some(x) && holdings::is_owned(
                x,
                hs[i],
                items[i].0,
                c,
            )
        }),
    decreases items.len(),
{
    let d = items.drop_last();
    let (k1, r1) = k.acquire_batch(logical, d);
    batches_grow(k, logical, d);
    holdings::acquired_resources_are_owned(k1, logical, items.last().0, items.last().1);
    if i < d.len() {
        batches_are_acquired_in_order(k, logical, d, i);
    }
}

proof fn batches_grow(k: KernelV, logical: Text, items: Seq<(ResourceKindV, Option<Text>)>)
    requires
        k.contexts.wf(),
        k.resources.slots.len() + items.len() < u64::MAX,
        k.acquire_batch(logical, items).1 is Ok,
    ensures
        ({
            let (k2, r) = k.acquire_batch(logical, items);
            &&& r->Ok_0.len() == items.len()
            &&& k2.resources.slots.len() == k.resources.slots.len() + items.len()
            &&& k2.contexts == k.contexts
        }),
    decreases items.len(),
{
    if items.len() > 0 {
        let d = items.drop_last();
        batches_grow(k, logical, d);
        let k1 = k.acquire_batch(logical, d).0;
        holdings::acquired_resources_are_owned(k1, logical, items.last().0, items.last().1);
    }
}

/// A batch is acquired exactly where its owner is loaded and active and each
/// of its items can be acquired.
pub proof fn batches_are_owed(
    k: KernelV,
    logical: Text,
    items: Seq<(ResourceKindV, Option<Text>)>,
)
    requires
        k.contexts.wf(),
        k.resources.slots.len() + items.len() < u64::MAX,
        k.contexts.current_of(logical) matches Some(c) && c.state.canon() == Fsm::Active,
    ensures
        k.acquire_batch(logical, items).1 is Ok <==> forall|i: int|
            0 <= i < items.len() ==> #[trigger] is_acquirable(items, i),
    decreases items.len(),
{
    if items.len() > 0 {
        let d = items.drop_last();
        let n = items.len() - 1;
        batches_are_owed(k, logical, d);
        if k.acquire_batch(logical, d).1 is Ok {
            batches_grow(k, logical, d);
            let k1 = k.acquire_batch(logical, d).0;
            holdings::acquired_resources_are_owned(k1, logical, items.last().0, items.last().1);
            assert(is_acquirable(items, n) <==> k.acquire_batch(logical, items).1 is Ok);
            assert forall|i: int| 0 <= i < n implies #[trigger] is_acquirable(items, i) by {
                assert(is_acquirable(d, i));
            }
        } else {
            let i = choose|i: int| 0 <= i < d.len() && !(#[trigger] is_acquirable(d, i));
            assert(!is_acquirable(items, i));
        }
    }
}

/// Whether the item `i` can be acquired.
pub open spec fn is_acquirable(items: Seq<(ResourceKindV, Option<Text>)>, i: int) -> bool {
    holdings::can_be_acquired(items[i].0, items[i].1)
}

// ---- playing back -----------------------------------------------------

/// Whether an entry is a tick that was emitted.
pub open spec fn is_tick(e: EntryV) -> bool {
    e.kind == "evt.emit"@ && e.args.get("topic"@) == Some(JsonV::Str("sys.tick"@))
}

/// Playing a journal back counts each tick in it once, where the counter is
/// active, and changes nothing else.
pub proof fn playing_back_counts_the_ticks(k: KernelV, es: Seq<EntryV>)
    requires
        k.plugins.dom().contains("counter"@),
        k.plugins["counter"@].state.canon() == Fsm::Active,
        answers::counted(k.plugins["counter"@].json_state, "state"@) + es.len() < i64::MAX,
    ensures
        ({
            let (k2, n) = k.replay(es);
            let p = k.plugins["counter"@];
            let q = k2.plugins["counter"@];
            &&& n == es.filter(|e: EntryV| is_tick(e)).len()
            &&& answers::counted(q.json_state, "state"@) == answers::counted(p.json_state, "state"@)
                + n
            &&& q == (PluginV { json_state: q.json_state, ..p })
            &&& k2.plugins == k.plugins.insert("counter"@, q)
            &&& k2 == (KernelV { plugins: k2.plugins, ..k })
        }),
    decreases es.len(),
{
    reveal(Seq::filter);
    let p = k.plugins["counter"@];
    if es.len() > 0 {
        let d = es.drop_last();
        playing_back_counts_the_ticks(k, d);
        let (k1, n1) = k.replay(d);
        let q = k1.plugins["counter"@];
        ticks_are_fewer(d);
        answers::ticks_count("counter"@, "sys.tick"@, q.json_state);
        assert(k1.replays(es.last()) == is_tick(es.last()));
        if is_tick(es.last()) {
            let k2 = k.replay(es).0;
            assert(k2.plugins =~= k.plugins.insert("counter"@, k2.plugins["counter"@]));
        }
    } else {
        assert(k.plugins =~= k.plugins.insert("counter"@, p));
    }
}

proof fn ticks_are_fewer(es: Seq<EntryV>)
    ensures
        es.filter(|e: EntryV| is_tick(e)).len() <= es.len(),
    decreases es.len(),
{
    reveal(Seq::filter);
    if es.len() > 0 {
        ticks_are_fewer(es.drop_last());
    }
}

/// Without an active counter playing back does nothing.
pub proof fn playing_back_needs_the_counter(k: KernelV, es: Seq<EntryV>)
    requires
        !(k.plugins.dom().contains("counter"@) && k.plugins["counter"@].state.canon()
            == Fsm::Active),
    ensures
        k.replay(es) == (k, 0nat),
    decreases es.len(),
{
    if es.len() > 0 {
        playing_back_needs_the_counter(k, es.drop_last());
    }
}

// ---- resetting --------------------------------------------------------

/// A reset takes an active entry back to its first state: no faults, a
/// counter and a clock at nothing, another reducer in the state it was
/// declared with. An entry that is not active stays.
pub proof fn resets_start_over(p: PluginV)
    ensures
        ({
            let q = dispatch::fresh_entry(p);
            &&& p.state.canon() != Fsm::Active ==> q == p
            &&& p.state.canon() == Fsm::Active ==> {
                &&& q.panic_count == 0
                &&& q.restart_times.len() == 0
                &&& p.reducer == "counter"@ ==> answers::counts(q.json_state, "state"@, 0)
                &&& p.reducer == "clock"@ ==> answers::counts(q.json_state, "count"@, 0)
                &&& p.reducer == "crasher"@ ==> q.json_state == p.json_state
                &&& p.reducer != "counter"@ && p.reducer != "clock"@ && p.reducer != "crasher"@
                    ==> q.json_state == p.init_state
                &&& q == (PluginV {
                    panic_count: q.panic_count,
                    restart_times: q.restart_times,
                    json_state: q.json_state,
                    ..p
                })
            }
        }),
{
    answers::reducers_differ();
    conversation::blank_record();
    conversation::added(JsonV::object(), "state"@, json::jnum(0));
    conversation::added(JsonV::object(), "count"@, json::jnum(0));
    reveal_strlit("crasher");
    reveal_strlit("counter");
    reveal_strlit("clock");
    assert("crasher"@.len() == 7 && "counter"@.len() == 7 && "clock"@.len() == 5);
    assert("crasher"@[1] == 'r' && "counter"@[1] == 'o');
}

/// The bench components are those whose names begin with `gen`.
pub proof fn bench_components_are_found(ks: Seq<Text>, x: Text)
    ensures
        KernelV::bench_names(ks).contains(x) <==> ks.contains(x) && x.len() >= 3 && x[0] == 'g'
            && x[1] == 'e' && x[2] == 'n',
    decreases ks.len(),
{
    reveal_strlit("gen");
    assert("gen"@.len() == 3 && "gen"@[0] == 'g' && "gen"@[1] == 'e' && "gen"@[2] == 'n');
    let all = KernelV::bench_names(ks);
    if ks.len() > 0 {
        let d = ks.drop_last();
        let rest = KernelV::bench_names(d);
        bench_components_are_found(d, x);
        assert(ks =~= d.push(ks.last()));
        assert(ks.contains(x) <==> d.contains(x) || x == ks.last()) by {
            if d.contains(x) {
                let i = choose|i: int| 0 <= i < d.len() && d[i] == x;
                assert(ks[i] == x);
            }
            if ks.contains(x) && x != ks.last() {
                let i = choose|i: int| 0 <= i < ks.len() && ks[i] == x;
                assert(d[i] == x);
            }
            assert(ks[ks.len() - 1] == ks.last());
        }
        let l = ks.last();
        assert("gen"@.is_prefix_of(l) <==> l.len() >= 3 && l[0] == 'g' && l[1] == 'e' && l[2]
            == 'n') by {
            if l.len() >= 3 && l[0] == 'g' && l[1] == 'e' && l[2] == 'n' {
                assert("gen"@ =~= l.subrange(0, 3));
            }
            if "gen"@.is_prefix_of(l) {
                assert("gen"@ =~= l.subrange(0, 3));
                assert(l.subrange(0, 3)[0] == l[0] && l.subrange(0, 3)[1] == l[1] && l.subrange(
                    0,
                    3,
                )[2] == l[2]);
            }
        }
        if "gen"@.is_prefix_of(l) {
            assert(all == rest.push(l));
            assert(all[rest.len() as int] == l);
            if rest.contains(x) {
                let i = choose|i: int| 0 <= i < rest.len() && rest[i] == x;
                assert(all[i] == x);
            }
            if all.contains(x) && x != l {
                let i = choose|i: int| 0 <= i < all.len() && all[i] == x;
                assert(rest[i] == x);
            }
        }
    }
}

} // verus!
