//! What an inspection of the kernel shows, member by member.

use vstd::prelude::*;
use vstd::string::*;
use crate::calls;
use crate::calls::{CommittedEffect, DepChildV, EffectV, TicketState, TicketV, WhichV, WithdrawPolicy};
use crate::context;
use crate::context::ContextV;
use crate::conversation;
use crate::deps::Requirement;
use crate::graph;
use crate::identity::{InstanceId, ResourceHandle};
use crate::json;
use crate::json::JsonV;
use crate::kernel::inventory;
use crate::kernel::inventory::Row;
use crate::kernel::lifecycle;
use crate::kernel::resolve;
use crate::kernel::{DepBinding, DepBindingV, KernelV, RemoteProvider, RemoteV};
use crate::manifest::{ManifestV, StoredManifest};
use crate::registry::Caps;
use crate::resources;
use crate::resources::{ResourceRecord, ResourceState, ResourceV};
use crate::text;
use crate::text::Text;
use crate::time::Instant;

verus! {

/// Whether the member `k` of `m` is the number `n`.
pub open spec fn shows_number(m: JsonV, k: Text, n: u64) -> bool {
    m.get(k) == Some(JsonV::Unsigned(n))
}

/// Whether the member `k` of `m` is the text `s`.
pub open spec fn shows_text(m: JsonV, k: Text, s: Text) -> bool {
    m.get(k) == Some(JsonV::Str(s))
}

/// Whether the member `k` of `m` is the text `s`, null where there is none.
pub open spec fn shows_optional(m: JsonV, k: Text, s: Option<Text>) -> bool {
    m.get(k) == Some(
        match s {
            Some(x) => JsonV::Str(x),
            None => JsonV::Null,
        },
    )
}

/// A resource shows its handle, kind, label, owner and state.
pub proof fn resources_are_shown(r: ResourceV)
    ensures
        ({
            let m = <ResourceRecord as Row>::row(r);
            &&& shows_number(m, "handle"@, r.handle.0)
            &&& shows_text(m, "kind"@, r.kind.kind_name())
            &&& shows_text(m, "label"@, r.kind.label())
            &&& shows_text(m, "owner"@, r.owner_logical)
            &&& shows_number(m, "instance"@, r.owner_instance.0)
            &&& shows_number(m, "context"@, r.owner_context.0)
            &&& shows_number(m, "generation"@, r.generation)
            &&& r.state == ResourceState::Active ==> shows_text(m, "state"@, "Active"@)
            &&& r.state == ResourceState::Released ==> shows_text(m, "state"@, "Released"@)
            &&& shows_number(m, "seq"@, r.seq)
        }),
{
    let state = match r.state {
        ResourceState::Active => "Active"@,
        ResourceState::Released => "Released"@,
    };
    conversation::blank_record();
    reveal_strlit("handle");
    reveal_strlit("kind");
    reveal_strlit("label");
    reveal_strlit("owner");
    reveal_strlit("instance");
    reveal_strlit("context");
    reveal_strlit("generation");
    reveal_strlit("state");
    reveal_strlit("seq");
    assert("handle"@.len() == 6);
    assert("kind"@.len() == 4);
    assert("label"@.len() == 5 && "label"@[0] == 'l');
    assert("owner"@.len() == 5 && "owner"@[0] == 'o');
    assert("instance"@.len() == 8);
    assert("context"@.len() == 7);
    assert("generation"@.len() == 10);
    assert("state"@.len() == 5 && "state"@[0] == 's');
    assert("seq"@.len() == 3);
    let m0 = JsonV::object().with("handle"@, json::jnum(r.handle.0));
    let m1 = m0.with("kind"@, json::jstr(r.kind.kind_name()));
    let m2 = m1.with("label"@, json::jstr(r.kind.label()));
    let m3 = m2.with("owner"@, json::jstr(r.owner_logical));
    let m4 = m3.with("instance"@, json::jnum(r.owner_instance.0));
    let m5 = m4.with("context"@, json::jnum(r.owner_context.0));
    let m6 = m5.with("generation"@, json::jnum(r.generation));
    let m7 = m6.with("state"@, json::jstr(state));
    let m8 = m7.with("seq"@, json::jnum(r.seq));
    conversation::added(JsonV::object(), "handle"@, json::jnum(r.handle.0));
    conversation::added(m0, "kind"@, json::jstr(r.kind.kind_name()));
    conversation::added(m1, "label"@, json::jstr(r.kind.label()));
    conversation::added(m2, "owner"@, json::jstr(r.owner_logical));
    conversation::added(m3, "instance"@, json::jnum(r.owner_instance.0));
    conversation::added(m4, "context"@, json::jnum(r.owner_context.0));
    conversation::added(m5, "generation"@, json::jnum(r.generation));
    conversation::added(m6, "state"@, json::jstr(state));
    conversation::added(m7, "seq"@, json::jnum(r.seq));
}

/// An effect shows its number, the call and the activation that committed it,
/// its kind and what it carries.
pub proof fn effects_are_shown(e: EffectV)
    ensures
        ({
            let m = <CommittedEffect as Row>::row(e);
            &&& shows_number(m, "seq"@, e.seq)
            &&& shows_number(m, "ticket"@, e.ticket.0)
            &&& shows_text(m, "logical"@, e.logical)
            &&& shows_number(m, "instance"@, e.instance.0)
            &&& shows_number(m, "generation"@, e.generation)
            &&& shows_text(m, "kind"@, e.kind)
            &&& m.get("payload"@) == Some(e.payload)
        }),
{
    conversation::blank_record();
    reveal_strlit("seq");
    reveal_strlit("ticket");
    reveal_strlit("logical");
    reveal_strlit("instance");
    reveal_strlit("generation");
    reveal_strlit("kind");
    reveal_strlit("payload");
    assert("seq"@.len() == 3);
    assert("ticket"@.len() == 6);
    assert("logical"@.len() == 7 && "logical"@[0] == 'l');
    assert("instance"@.len() == 8);
    assert("generation"@.len() == 10);
    assert("kind"@.len() == 4);
    assert("payload"@.len() == 7 && "payload"@[0] == 'p');
    let m0 = JsonV::object().with("seq"@, json::jnum(e.seq));
    let m1 = m0.with("ticket"@, json::jnum(e.ticket.0));
    let m2 = m1.with("logical"@, json::jstr(e.logical));
    let m3 = m2.with("instance"@, json::jnum(e.instance.0));
    let m4 = m3.with("generation"@, json::jnum(e.generation));
    let m5 = m4.with("kind"@, json::jstr(e.kind));
    let m6 = m5.with("payload"@, e.payload);
    conversation::added(JsonV::object(), "seq"@, json::jnum(e.seq));
    conversation::added(m0, "ticket"@, json::jnum(e.ticket.0));
    conversation::added(m1, "logical"@, json::jstr(e.logical));
    conversation::added(m2, "instance"@, json::jnum(e.instance.0));
    conversation::added(m3, "generation"@, json::jnum(e.generation));
    conversation::added(m4, "kind"@, json::jstr(e.kind));
    conversation::added(m5, "payload"@, e.payload);
}

/// A definition shows its id, what it provides, whether it is remote and what
/// it requires.
pub proof fn definitions_are_shown(d: ManifestV, i: int)
    ensures
        ({
            let m = <StoredManifest as Row>::row(d);
            &&& shows_text(m, "id"@, d.id)
            &&& m.get("provides"@) matches Some(JsonV::Array(cs)) && cs.len() == d.caps.len() && (0 <= i
                < cs.len() ==> cs[i] == JsonV::Str(d.caps[i]))
            &&& m.get("remote"@) == Some(JsonV::Bool(d.remote))
            &&& m.get("requires"@) matches Some(JsonV::Array(rs)) && rs.len() == d.requires.len() && (0
                <= i < rs.len() ==> rs[i] == <Requirement as Row>::row(d.requires[i]))
        }),
{
    conversation::blank_record();
    reveal_strlit("id");
    reveal_strlit("provides");
    reveal_strlit("remote");
    reveal_strlit("requires");
    assert("id"@.len() == 2);
    assert("provides"@.len() == 8 && "provides"@[0] == 'p');
    assert("remote"@.len() == 6);
    assert("requires"@.len() == 8 && "requires"@[0] == 'r');
    let m0 = JsonV::object().with("id"@, json::jstr(d.id));
    let m1 = m0.with("provides"@, json::str_list(d.caps));
    let m2 = m1.with("remote"@, JsonV::Bool(d.remote));
    let m3 = m2.with("requires"@, inventory::rows::<Requirement>(d.requires));
    conversation::added(JsonV::object(), "id"@, json::jstr(d.id));
    conversation::added(m0, "provides"@, json::str_list(d.caps));
    conversation::added(m1, "remote"@, JsonV::Bool(d.remote));
    conversation::added(m2, "requires"@, inventory::rows::<Requirement>(d.requires));
}

/// A remote provider shows its logical id, its instance, its generation and
/// its peer.
pub proof fn remote_providers_are_shown(r: RemoteV)
    ensures
        ({
            let m = <RemoteProvider as Row>::row(r);
            &&& shows_text(m, "logical"@, r.logical)
            &&& shows_number(m, "instance"@, r.instance)
            &&& shows_number(m, "generation"@, r.generation)
            &&& shows_text(m, "peer"@, r.peer)
        }),
{
    conversation::blank_record();
    reveal_strlit("logical");
    reveal_strlit("instance");
    reveal_strlit("generation");
    reveal_strlit("peer");
    assert("logical"@.len() == 7);
    assert("instance"@.len() == 8);
    assert("generation"@.len() == 10);
    assert("peer"@.len() == 4);
    let m0 = JsonV::object().with("logical"@, json::jstr(r.logical));
    let m1 = m0.with("instance"@, json::jnum(r.instance));
    let m2 = m1.with("generation"@, json::jnum(r.generation));
    let m3 = m2.with("peer"@, json::jstr(r.peer));
    conversation::added(JsonV::object(), "logical"@, json::jstr(r.logical));
    conversation::added(m0, "instance"@, json::jnum(r.instance));
    conversation::added(m1, "generation"@, json::jnum(r.generation));
    conversation::added(m2, "peer"@, json::jstr(r.peer));
}

/// A handle shows its id, the interface, the capability and the provider.
pub proof fn handles_are_shown(b: DepBindingV)
    ensures
        ({
            let m = <DepBinding as Row>::row(b);
            &&& shows_text(m, "id"@, b.id)
            &&& shows_text(m, "interface"@, b.interface)
            &&& shows_text(m, "capability"@, b.capability)
            &&& shows_text(m, "provider"@, b.provider_logical)
        }),
{
    conversation::blank_record();
    reveal_strlit("id");
    reveal_strlit("interface");
    reveal_strlit("capability");
    reveal_strlit("provider");
    assert("id"@.len() == 2);
    assert("interface"@.len() == 9);
    assert("capability"@.len() == 10);
    assert("provider"@.len() == 8);
    let m0 = JsonV::object().with("id"@, json::jstr(b.id));
    let m1 = m0.with("interface"@, json::jstr(b.interface));
    let m2 = m1.with("capability"@, json::jstr(b.capability));
    let m3 = m2.with("provider"@, json::jstr(b.provider_logical));
    conversation::added(JsonV::object(), "id"@, json::jstr(b.id));
    conversation::added(m0, "interface"@, json::jstr(b.interface));
    conversation::added(m1, "capability"@, json::jstr(b.capability));
    conversation::added(m2, "provider"@, json::jstr(b.provider_logical));
}

spec fn grant(d: DepChildV) -> JsonV {
    JsonV::object().with("consumer"@, json::jstr(d.grant_consumer)).with(
        "cap"@,
        json::jstr(d.grant_cap),
    ).with("rev"@, json::jnum(d.grant_rev))
}

proof fn grants_are_shown(d: DepChildV)
    ensures
        shows_text(grant(d), "consumer"@, d.grant_consumer),
        shows_text(grant(d), "cap"@, d.grant_cap),
        shows_number(grant(d), "rev"@, d.grant_rev),
{
    conversation::blank_record();
    reveal_strlit("consumer");
    reveal_strlit("cap");
    reveal_strlit("rev");
    assert("consumer"@.len() == 8);
    assert("cap"@.len() == 3 && "cap"@[0] == 'c');
    assert("rev"@.len() == 3 && "rev"@[0] == 'r');
    let m0 = JsonV::object().with("consumer"@, json::jstr(d.grant_consumer));
    let m1 = m0.with("cap"@, json::jstr(d.grant_cap));
    let m2 = m1.with("rev"@, json::jnum(d.grant_rev));
    conversation::added(JsonV::object(), "consumer"@, json::jstr(d.grant_consumer));
    conversation::added(m0, "cap"@, json::jstr(d.grant_cap));
    conversation::added(m1, "rev"@, json::jnum(d.grant_rev));
}

/// The lineage of a dependency call shows its parent, its binding, its
/// consumer, its depth, the grant it was admitted under and its peer.
pub proof fn lineages_are_shown(d: DepChildV)
    ensures
        ({
            let m = inventory::lineage(d);
            let g = m.get("grant"@)->0;
            &&& shows_number(m, "parent"@, d.parent.0)
            &&& shows_text(m, "binding"@, d.binding)
            &&& shows_number(m, "consumer"@, d.consumer.0)
            &&& shows_number(m, "depth"@, d.depth as u64)
            &&& m.get("grant"@) is Some
            &&& shows_text(g, "consumer"@, d.grant_consumer)
            &&& shows_text(g, "cap"@, d.grant_cap)
            &&& shows_number(g, "rev"@, d.grant_rev)
            &&& shows_optional(m, "remote_peer"@, d.remote_peer)
        }),
{
    grants_are_shown(d);
    conversation::blank_record();
    reveal_strlit("parent");
    reveal_strlit("binding");
    reveal_strlit("consumer");
    reveal_strlit("depth");
    reveal_strlit("grant");
    reveal_strlit("remote_peer");
    assert("parent"@.len() == 6);
    assert("binding"@.len() == 7);
    assert("consumer"@.len() == 8);
    assert("depth"@.len() == 5 && "depth"@[0] == 'd');
    assert("grant"@.len() == 5 && "grant"@[0] == 'g');
    assert("remote_peer"@.len() == 11);
    let m0 = JsonV::object().with("parent"@, json::jnum(d.parent.0));
    let m1 = m0.with("binding"@, json::jstr(d.binding));
    let m2 = m1.with("consumer"@, json::jnum(d.consumer.0));
    let m3 = m2.with("depth"@, json::jnum(d.depth as u64));
    let m4 = m3.with("grant"@, grant(d));
    let m5 = m4.with("remote_peer"@, json::opt_str(d.remote_peer));
    conversation::added(JsonV::object(), "parent"@, json::jnum(d.parent.0));
    conversation::added(m0, "binding"@, json::jstr(d.binding));
    conversation::added(m1, "consumer"@, json::jnum(d.consumer.0));
    conversation::added(m2, "depth"@, json::jnum(d.depth as u64));
    conversation::added(m3, "grant"@, grant(d));
    conversation::added(m4, "remote_peer"@, json::opt_str(d.remote_peer));
}

/// A call in flight shows its ticket, its capability, the activation that
/// runs it, its state, its policy, how long it has been open, how long it may
/// still drain, its pins, why it was cancelled and its lineage.
pub proof fn calls_are_shown(t: TicketV, now: Instant, i: int)
    ensures
        ({
            let m = inventory::call_row(t, now);
            &&& shows_number(m, "ticket"@, t.id.0)
            &&& shows_text(m, "cap"@, t.cap)
            &&& shows_text(m, "logical"@, t.logical)
            &&& shows_number(m, "instance"@, t.instance.0)
            &&& shows_number(m, "generation"@, t.generation)
            &&& t.state == TicketState::Admitted ==> shows_text(m, "state"@, "Admitted"@)
            &&& t.state == TicketState::Committed ==> shows_text(m, "state"@, "Committed"@)
            &&& t.state == TicketState::Cancelled ==> shows_text(m, "state"@, "Cancelled"@)
            &&& t.state == TicketState::Expired ==> shows_text(m, "state"@, "Expired"@)
            &&& t.policy.on_withdraw == WithdrawPolicy::Drain ==> shows_text(m, "policy"@, "drain"@)
            &&& t.policy.on_withdraw == WithdrawPolicy::Cancel ==> shows_text(
                m,
                "policy"@,
                "cancel"@,
            )
            &&& shows_number(m, "drain_ms"@, t.policy.drain_ms)
            &&& forall|n: u64|
                t.opened_at.nanos + n * 1_000_000 <= now.nanos < t.opened_at.nanos + (n + 1)
                    * 1_000_000 ==> #[trigger] shows_number(m, "elapsed_ms"@, n)
            &&& t.drain_until matches Some(u) ==> forall|n: u64|
                now.nanos + n * 1_000_000 <= u.nanos < now.nanos + (n + 1) * 1_000_000
                    ==> #[trigger] shows_number(m, "drain_left_ms"@, n)
            &&& t.drain_until is None ==> m.get("drain_left_ms"@) == Some(JsonV::Null)
            &&& m.get("pins"@) matches Some(JsonV::Array(ps)) && ps.len() == t.pins.len() && (0 <= i
                < ps.len() ==> ps[i] == JsonV::Unsigned(t.pins[i].0))
            &&& shows_optional(m, "cancel_reason"@, t.cancel_reason)
            &&& t.dep matches Some(d) ==> m.get("dep"@) == Some(inventory::lineage(d))
            &&& t.dep is None ==> m.get("dep"@) == Some(JsonV::Null)
        }),
{
    let left = match t.drain_left(now) {
        Some(n) => inventory::millis(n),
        None => JsonV::Null,
    };
    let pins = JsonV::Array(t.pins.map_values(|h: ResourceHandle| json::jnum(h.0)));
    let dep = match t.dep {
        Some(d) => inventory::lineage(d),
        None => JsonV::Null,
    };
    conversation::blank_record();
    reveal_strlit("ticket");
    reveal_strlit("cap");
    reveal_strlit("logical");
    reveal_strlit("instance");
    reveal_strlit("generation");
    reveal_strlit("state");
    reveal_strlit("policy");
    reveal_strlit("drain_ms");
    reveal_strlit("elapsed_ms");
    reveal_strlit("drain_left_ms");
    reveal_strlit("pins");
    reveal_strlit("cancel_reason");
    reveal_strlit("dep");
    assert("ticket"@.len() == 6 && "ticket"@[0] == 't');
    assert("cap"@.len() == 3 && "cap"@[0] == 'c');
    assert("logical"@.len() == 7);
    assert("instance"@.len() == 8 && "instance"@[0] == 'i');
    assert("generation"@.len() == 10 && "generation"@[0] == 'g');
    assert("state"@.len() == 5);
    assert("policy"@.len() == 6 && "policy"@[0] == 'p');
    assert("drain_ms"@.len() == 8 && "drain_ms"@[0] == 'd');
    assert("elapsed_ms"@.len() == 10 && "elapsed_ms"@[0] == 'e');
    assert("drain_left_ms"@.len() == 13 && "drain_left_ms"@[0] == 'd');
    assert("pins"@.len() == 4);
    assert("cancel_reason"@.len() == 13 && "cancel_reason"@[0] == 'c');
    assert("dep"@.len() == 3 && "dep"@[0] == 'd');
    let m0 = JsonV::object().with("ticket"@, json::jnum(t.id.0));
    let m1 = m0.with("cap"@, json::jstr(t.cap));
    let m2 = m1.with("logical"@, json::jstr(t.logical));
    let m3 = m2.with("instance"@, json::jnum(t.instance.0));
    let m4 = m3.with("generation"@, json::jnum(t.generation));
    let m5 = m4.with("state"@, json::jstr(t.state.name()));
    let m6 = m5.with("policy"@, json::jstr(t.policy.on_withdraw.name()));
    let m7 = m6.with("drain_ms"@, json::jnum(t.policy.drain_ms));
    let m8 = m7.with("elapsed_ms"@, inventory::millis(now.ms_since(t.opened_at)));
    let m9 = m8.with("drain_left_ms"@, left);
    let m10 = m9.with("pins"@, pins);
    let m11 = m10.with("cancel_reason"@, json::opt_str(t.cancel_reason));
    let m12 = m11.with("dep"@, dep);
    conversation::added(JsonV::object(), "ticket"@, json::jnum(t.id.0));
    conversation::added(m0, "cap"@, json::jstr(t.cap));
    conversation::added(m1, "logical"@, json::jstr(t.logical));
    conversation::added(m2, "instance"@, json::jnum(t.instance.0));
    conversation::added(m3, "generation"@, json::jnum(t.generation));
    conversation::added(m4, "state"@, json::jstr(t.state.name()));
    conversation::added(m5, "policy"@, json::jstr(t.policy.on_withdraw.name()));
    conversation::added(m6, "drain_ms"@, json::jnum(t.policy.drain_ms));
    conversation::added(m7, "elapsed_ms"@, inventory::millis(now.ms_since(t.opened_at)));
    conversation::added(m8, "drain_left_ms"@, left);
    conversation::added(m9, "pins"@, pins);
    conversation::added(m10, "cancel_reason"@, json::opt_str(t.cancel_reason));
    conversation::added(m11, "dep"@, dep);
    assert(inventory::call_row(t, now) == m12);
}

/// An activation shows its ids, its generation, its epoch, its state, why it
/// is in it, and how many resources it holds.
pub proof fn activations_are_shown(k: KernelV, c: ContextV)
    ensures
        ({
            let m = k.instance_row(c);
            &&& shows_text(m, "logical"@, c.logical)
            &&& shows_number(m, "instance"@, c.instance.0)
            &&& shows_number(m, "context"@, c.context.0)
            &&& shows_number(m, "generation"@, c.generation)
            &&& shows_number(m, "epoch"@, c.epoch)
            &&& shows_text(m, "state"@, c.state.name())
            &&& shows_optional(m, "cause"@, c.cause)
            &&& shows_optional(m, "waiting_reason"@, c.cause)
            &&& shows_number(
                m,
                "active_resources"@,
                resources::active_in(k.resources.slots, Some(c.context)) as u64,
            )
            &&& m.get("dep_bindings"@) == Some(
                inventory::rows::<DepBinding>(
                    k.handles_of(c.instance, text::in_order(k.dep_bindings.dom())),
                ),
            )
        }),
{
    let needs = json::str_list(
        match k.definition(c.logical) {
            Some(d) => inventory::shown_needs(d.requires),
            None => Seq::empty(),
        },
    );
    let bindings = lifecycle::binding_entries(
        match k.plugin(c.logical) {
            Some(p) if p.instance_id == c.instance.0 => p.bindings,
            _ => Seq::empty(),
        },
    );
    let handles = inventory::rows::<DepBinding>(
        k.handles_of(c.instance, text::in_order(k.dep_bindings.dom())),
    );
    let active = json::jnum(resources::active_in(k.resources.slots, Some(c.context)) as u64);
    conversation::blank_record();
    reveal_strlit("logical");
    reveal_strlit("instance");
    reveal_strlit("context");
    reveal_strlit("generation");
    reveal_strlit("epoch");
    reveal_strlit("state");
    reveal_strlit("cause");
    reveal_strlit("waiting_reason");
    reveal_strlit("requires");
    reveal_strlit("bindings");
    reveal_strlit("dep_bindings");
    reveal_strlit("active_resources");
    assert("logical"@.len() == 7 && "logical"@[0] == 'l');
    assert("instance"@.len() == 8 && "instance"@[0] == 'i');
    assert("context"@.len() == 7 && "context"@[0] == 'c');
    assert("generation"@.len() == 10);
    assert("epoch"@.len() == 5 && "epoch"@[0] == 'e');
    assert("state"@.len() == 5 && "state"@[0] == 's');
    assert("cause"@.len() == 5 && "cause"@[0] == 'c');
    assert("waiting_reason"@.len() == 14);
    assert("requires"@.len() == 8 && "requires"@[0] == 'r');
    assert("bindings"@.len() == 8 && "bindings"@[0] == 'b');
    assert("dep_bindings"@.len() == 12);
    assert("active_resources"@.len() == 16);
    let m0 = JsonV::object().with("logical"@, json::jstr(c.logical));
    let m1 = m0.with("instance"@, json::jnum(c.instance.0));
    let m2 = m1.with("context"@, json::jnum(c.context.0));
    let m3 = m2.with("generation"@, json::jnum(c.generation));
    let m4 = m3.with("epoch"@, json::jnum(c.epoch));
    let m5 = m4.with("state"@, json::jstr(c.state.name()));
    let m6 = m5.with("cause"@, json::opt_str(c.cause));
    let m7 = m6.with("waiting_reason"@, json::opt_str(c.cause));
    let m8 = m7.with("requires"@, needs);
    let m9 = m8.with("bindings"@, bindings);
    let m10 = m9.with("dep_bindings"@, handles);
    let m11 = m10.with("active_resources"@, active);
    conversation::added(JsonV::object(), "logical"@, json::jstr(c.logical));
    conversation::added(m0, "instance"@, json::jnum(c.instance.0));
    conversation::added(m1, "context"@, json::jnum(c.context.0));
    conversation::added(m2, "generation"@, json::jnum(c.generation));
    conversation::added(m3, "epoch"@, json::jnum(c.epoch));
    conversation::added(m4, "state"@, json::jstr(c.state.name()));
    conversation::added(m5, "cause"@, json::opt_str(c.cause));
    conversation::added(m6, "waiting_reason"@, json::opt_str(c.cause));
    conversation::added(m7, "requires"@, needs);
    conversation::added(m8, "bindings"@, bindings);
    conversation::added(m9, "dep_bindings"@, handles);
    conversation::added(m10, "active_resources"@, active);
}

/// The handles that an activation shows are its own, and all of them.
pub proof fn shown_handles_are_its_own(k: KernelV, inst: InstanceId, ks: Seq<Text>, b: DepBindingV)
    ensures
        k.handles_of(inst, ks).contains(b) <==> exists|i: int|
            0 <= i < ks.len() && k.dep_bindings[#[trigger] ks[i]] == b && b.consumer_instance
                == inst,
    decreases ks.len(),
{
    if ks.len() > 0 {
        let d = ks.drop_last();
        let n = ks.len() - 1;
        let rest = k.handles_of(inst, d);
        let all = k.handles_of(inst, ks);
        shown_handles_are_its_own(k, inst, d, b);
        if all.contains(b) {
            let i = choose|i: int| 0 <= i < all.len() && all[i] == b;
            if i < rest.len() {
                assert(rest[i] == b);
                let j = choose|j: int|
                    0 <= j < d.len() && k.dep_bindings[#[trigger] d[j]] == b && b.consumer_instance
                        == inst;
                assert(k.dep_bindings[ks[j]] == b);
            } else {
                assert(k.dep_bindings[ks[n]] == b);
            }
        }
        if exists|i: int|
            0 <= i < ks.len() && k.dep_bindings[#[trigger] ks[i]] == b && b.consumer_instance
                == inst {
            let i = choose|i: int|
                0 <= i < ks.len() && k.dep_bindings[#[trigger] ks[i]] == b && b.consumer_instance
                    == inst;
            if i < n {
                assert(k.dep_bindings[d[i]] == b);
                let j = choose|j: int| 0 <= j < rest.len() && rest[j] == b;
                assert(all[j] == b);
            } else {
                assert(all[all.len() - 1] == b);
            }
        }
    }
}

/// An inspection shows the epoch, the release counts, every activation, every
/// definition, every remote provider, every call in flight, every effect and
/// every resource, each under its own name.
pub proof fn inspections_are_complete(k: KernelV, now: Instant)
    ensures
        ({
            let m = k.inventory(now);
            &&& shows_number(m, "epoch"@, k.contexts.epoch)
            &&& shows_number(m, "total_releases"@, k.resources.total_releases)
            &&& shows_number(m, "double_release_attempts"@, k.resources.double_release_attempts)
            &&& shows_number(
                m,
                "active_resources"@,
                resources::active_in(k.resources.slots, None) as u64,
            )
            &&& m.get("instances"@) == Some(
                k.instance_rows(context::by_name(k.contexts.records)),
            )
            &&& m.get("definitions"@) == Some(inventory::table::<StoredManifest>(k.definitions))
            &&& m.get("remotes"@) == Some(inventory::table::<RemoteProvider>(k.remotes))
            &&& m.get("calls"@) == Some(
                inventory::call_rows(calls::select(k.calls.tickets, WhichV::All), now),
            )
            &&& m.get("effects"@) == Some(
                inventory::rows::<CommittedEffect>(calls::effects_of(k.calls.effects, None)),
            )
            &&& m.get("resources"@) == Some(
                inventory::rows::<ResourceRecord>(resources::by_owner(k.resources.slots)),
            )
            &&& m.get("capabilities"@) == Some(
                inventory::owners(k.caps, text::in_order(k.caps.dom())),
            )
        }),
{
    let instances = k.instance_rows(context::by_name(k.contexts.records));
    let definitions = inventory::table::<StoredManifest>(k.definitions);
    let remotes = inventory::table::<RemoteProvider>(k.remotes);
    let cycle = json::str_list(
        match graph::first_cycle(resolve::edges(k.definitions)) {
            Some(p) => p,
            None => Seq::empty(),
        },
    );
    let calls = inventory::call_rows(calls::select(k.calls.tickets, WhichV::All), now);
    let effects = inventory::rows::<CommittedEffect>(calls::effects_of(k.calls.effects, None));
    let resources = inventory::rows::<ResourceRecord>(resources::by_owner(k.resources.slots));
    let active = json::jnum(resources::active_in(k.resources.slots, None) as u64);
    let caps = inventory::owners(k.caps, text::in_order(k.caps.dom()));
    conversation::blank_record();
    reveal_strlit("epoch");
    reveal_strlit("instances");
    reveal_strlit("definitions");
    reveal_strlit("remotes");
    reveal_strlit("cycle");
    reveal_strlit("calls");
    reveal_strlit("effects");
    reveal_strlit("resources");
    reveal_strlit("active_resources");
    reveal_strlit("total_releases");
    reveal_strlit("double_release_attempts");
    reveal_strlit("capabilities");
    assert("epoch"@.len() == 5 && "epoch"@[0] == 'e');
    assert("instances"@.len() == 9 && "instances"@[0] == 'i');
    assert("definitions"@.len() == 11);
    assert("remotes"@.len() == 7 && "remotes"@[0] == 'r');
    assert("cycle"@.len() == 5 && "cycle"@[0] == 'c' && "cycle"@[1] == 'y');
    assert("calls"@.len() == 5 && "calls"@[0] == 'c' && "calls"@[1] == 'a');
    assert("effects"@.len() == 7 && "effects"@[0] == 'e');
    assert("resources"@.len() == 9 && "resources"@[0] == 'r');
    assert("active_resources"@.len() == 16);
    assert("total_releases"@.len() == 14);
    assert("double_release_attempts"@.len() == 23);
    assert("capabilities"@.len() == 12);
    let m0 = JsonV::object().with("epoch"@, json::jnum(k.contexts.epoch));
    let m1 = m0.with("instances"@, instances);
    let m2 = m1.with("definitions"@, definitions);
    let m3 = m2.with("remotes"@, remotes);
    let m4 = m3.with("cycle"@, cycle);
    let m5 = m4.with("calls"@, calls);
    let m6 = m5.with("effects"@, effects);
    let m7 = m6.with("resources"@, resources);
    let m8 = m7.with("active_resources"@, active);
    let m9 = m8.with("total_releases"@, json::jnum(k.resources.total_releases));
    let m10 = m9.with("double_release_attempts"@, json::jnum(k.resources.double_release_attempts));
    let m11 = m10.with("capabilities"@, caps);
    conversation::added(JsonV::object(), "epoch"@, json::jnum(k.contexts.epoch));
    conversation::added(m0, "instances"@, instances);
    conversation::added(m1, "definitions"@, definitions);
    conversation::added(m2, "remotes"@, remotes);
    conversation::added(m3, "cycle"@, cycle);
    conversation::added(m4, "calls"@, calls);
    conversation::added(m5, "effects"@, effects);
    conversation::added(m6, "resources"@, resources);
    conversation::added(m7, "active_resources"@, active);
    conversation::added(m8, "total_releases"@, json::jnum(k.resources.total_releases));
    conversation::added(m9, "double_release_attempts"@, json::jnum(k.resources.double_release_attempts));
    conversation::added(m10, "capabilities"@, caps);
}

/// Each capability is shown with the logical id of its owner.
pub proof fn owners_are_shown(caps: Caps, ks: Seq<Text>, i: int)
    requires
        text::ascending(ks),
        0 <= i < ks.len(),
    ensures
        conversation::is_record(inventory::owners(caps, ks)),
        shows_text(inventory::owners(caps, ks), ks[i], caps[ks[i]].logical),
    decreases ks.len(),
{
    let d = ks.drop_last();
    conversation::blank_record();
    assert(text::ascending(d));
    if d.len() > 0 {
        owners_are_shown(caps, d, if i < d.len() { i } else { 0 });
    }
    conversation::added(
        inventory::owners(caps, d),
        ks.last(),
        json::jstr(caps[ks.last()].logical),
    );
    if i < d.len() {
        assert(text::text_lt(ks[i], ks[ks.len() - 1]));
        text::text_lt_irreflexive(ks[i]);
    }
}

} // verus!
