//! Inspection: instances, definitions, calls, effects and resources by owner.

use vstd::prelude::*;
use vstd::string::*;
use crate::calls;
use crate::calls::{CommittedEffect, EffectV, TicketRecord, TicketV, WhichV};
use crate::context;
use crate::context::{ContextRecord, ContextV};
use crate::deps::{Requirement, RequirementV};
use crate::graph;
use crate::identity::InstanceId;
use crate::json;
use crate::json::{Json, JsonV};
use crate::kernel::lifecycle;
use crate::kernel::resolve;
use crate::kernel::{DepBinding, DepBindingV, Kernel, KernelV, RemoteProvider, RemoteV};
use crate::manifest::{ManifestV, StoredManifest};
use crate::registry::Caps;
use crate::resources;
use crate::resources::{ResourceRecord, ResourceState, ResourceV};
use crate::strmap::StrMap;
use crate::text;
use crate::text::Text;
use crate::time::Instant;

verus! {

/// Something that is one row of the inventory.
pub trait Row: DeepView {
    spec fn row(v: Self::V) -> JsonV;

    fn show(&self) -> (r: Json)
        ensures
            r@ == Self::row(self.deep_view()),
    ;
}

/// The rows of a list.
pub open spec fn rows<T: Row>(vs: Seq<T::V>) -> JsonV {
    JsonV::Array(vs.map_values(|v: T::V| T::row(v)))
}

fn show_all<T: Row>(v: &Vec<T>) -> (r: Json)
    ensures
        r@ == rows::<T>(v.deep_view()),
{
    let ghost s = v.deep_view();
    let mut out: Vec<Json> = Vec::new();
    let mut i: usize = 0;
    while i < v.len()
        invariant
            i <= v.len(),
            s == v.deep_view(),
            out.deep_view() == s.take(i as int).map_values(|x: T::V| T::row(x)),
        decreases v.len() - i,
    {
        let ghost before = out.deep_view();
        out.push(v[i].show());
        proof {
            assert(s[i as int] == v[i as int].deep_view());
            assert(out.deep_view() =~= before.push(T::row(s[i as int])));
            assert(s.take(i + 1).map_values(|x: T::V| T::row(x)) =~= s.take(
                i as int,
            ).map_values(|x: T::V| T::row(x)).push(T::row(s[i as int])));
        }
        i += 1;
    }
    proof {
        assert(s.take(s.len() as int) =~= s);
    }
    Json::list(out)
}

impl Row for ResourceRecord {
    open spec fn row(r: ResourceV) -> JsonV {
        JsonV::object().with("handle"@, json::jnum(r.handle.0)).with(
            "kind"@,
            json::jstr(r.kind.kind_name()),
        ).with("label"@, json::jstr(r.kind.label())).with("owner"@, json::jstr(r.owner_logical)).with(
            "instance"@,
            json::jnum(r.owner_instance.0),
        ).with("context"@, json::jnum(r.owner_context.0)).with(
            "generation"@,
            json::jnum(r.generation),
        ).with(
            "state"@,
            json::jstr(
                match r.state {
                    ResourceState::Active => "Active"@,
                    ResourceState::Released => "Released"@,
                },
            ),
        ).with("seq"@, json::jnum(r.seq))
    }

    fn show(&self) -> (r: Json) {
        let state = match self.state {
            ResourceState::Active => "Active",
            ResourceState::Released => "Released",
        };
        Json::object().with("handle", Json::num(self.handle.0)).with(
            "kind",
            Json::str(self.kind.kind_name()),
        ).with("label", Json::str(self.kind.label())).with(
            "owner",
            Json::str(&self.owner_logical),
        ).with("instance", Json::num(self.owner_instance.0)).with(
            "context",
            Json::num(self.owner_context.0),
        ).with("generation", Json::num(self.generation)).with("state", Json::str(state)).with(
            "seq",
            Json::num(self.seq),
        )
    }
}

impl Row for CommittedEffect {
    open spec fn row(e: EffectV) -> JsonV {
        JsonV::object().with("seq"@, json::jnum(e.seq)).with("ticket"@, json::jnum(e.ticket.0)).with(
            "logical"@,
            json::jstr(e.logical),
        ).with("instance"@, json::jnum(e.instance.0)).with(
            "generation"@,
            json::jnum(e.generation),
        ).with("kind"@, json::jstr(e.kind)).with("payload"@, e.payload)
    }

    fn show(&self) -> (r: Json) {
        Json::object().with("seq", Json::num(self.seq)).with("ticket", Json::num(self.ticket.0)).with(
            "logical",
            Json::str(&self.logical),
        ).with("instance", Json::num(self.instance.0)).with(
            "generation",
            Json::num(self.generation),
        ).with("kind", Json::str(&self.kind)).with("payload", self.payload.copy())
    }
}

impl Row for Requirement {
    open spec fn row(r: RequirementV) -> JsonV {
        JsonV::object().with("interface"@, json::jstr(r.interface)).with(
            "provider"@,
            json::opt_str(r.provider),
        )
    }

    fn show(&self) -> (r: Json) {
        Json::object().with("interface", Json::str(&self.interface)).with(
            "provider",
            Json::opt_str(&self.provider),
        )
    }
}

impl Row for StoredManifest {
    open spec fn row(d: ManifestV) -> JsonV {
        JsonV::object().with("id"@, json::jstr(d.id)).with("provides"@, json::str_list(d.caps)).with(
            "remote"@,
            JsonV::Bool(d.remote),
        ).with("requires"@, rows::<Requirement>(d.requires))
    }

    fn show(&self) -> (r: Json) {
        Json::object().with("id", Json::str(&self.id)).with(
            "provides",
            Json::str_list(&self.caps),
        ).with("remote", Json::flag(self.remote)).with("requires", show_all(&self.requires))
    }
}

impl Row for RemoteProvider {
    open spec fn row(r: RemoteV) -> JsonV {
        JsonV::object().with("logical"@, json::jstr(r.logical)).with(
            "instance"@,
            json::jnum(r.instance),
        ).with("generation"@, json::jnum(r.generation)).with("peer"@, json::jstr(r.peer))
    }

    fn show(&self) -> (r: Json) {
        Json::object().with("logical", Json::str(&self.logical)).with(
            "instance",
            Json::num(self.instance),
        ).with("generation", Json::num(self.generation)).with("peer", Json::str(&self.peer))
    }
}

impl Row for DepBinding {
    open spec fn row(b: DepBindingV) -> JsonV {
        JsonV::object().with("id"@, json::jstr(b.id)).with("interface"@, json::jstr(b.interface)).with(
            "capability"@,
            json::jstr(b.capability),
        ).with("provider"@, json::jstr(b.provider_logical))
    }

    fn show(&self) -> (r: Json) {
        Json::object().with("id", Json::str(&self.id)).with(
            "interface",
            Json::str(&self.interface),
        ).with("capability", Json::str(&self.capability)).with(
            "provider",
            Json::str(&self.provider_logical),
        )
    }
}

/// The rows of a table by ascending key.
pub open spec fn table<T: Row>(m: Map<Text, T::V>) -> JsonV {
    JsonV::Array(text::in_order(m.dom()).map_values(|k: Text| T::row(m[k])))
}

fn show_table<T: Row>(m: &StrMap<T>) -> (r: Json)
    ensures
        r@ == table::<T>(m@),
{
    let n = m.len();
    let ghost ks = text::in_order(m@.dom());
    proof {
        text::in_order_sorted(m@.dom());
    }
    let mut out: Vec<Json> = Vec::new();
    let mut i: usize = 0;
    while i < n
        invariant
            i <= n,
            n == ks.len(),
            ks == text::in_order(m@.dom()),
            out.deep_view() == ks.take(i as int).map_values(|k: Text| T::row(m@[k])),
        decreases n - i,
    {
        let ghost before = out.deep_view();
        out.push(m.value_at(i).show());
        proof {
            assert(out.deep_view() =~= before.push(T::row(m@[ks[i as int]])));
            assert(ks.take(i + 1).map_values(|k: Text| T::row(m@[k])) =~= ks.take(
                i as int,
            ).map_values(|k: Text| T::row(m@[k])).push(T::row(m@[ks[i as int]])));
        }
        i += 1;
    }
    proof {
        assert(ks.take(ks.len() as int) =~= ks);
    }
    Json::list(out)
}

/// A duration as a number; the longest representable one if it is longer.
pub open spec fn millis(n: u128) -> JsonV {
    json::jnum(
        if n <= u64::MAX {
            n as u64
        } else {
            u64::MAX
        },
    )
}

fn show_millis(n: u128) -> (r: Json)
    ensures
        r@ == millis(n),
{
    Json::num(
        if n <= u64::MAX as u128 {
            n as u64
        } else {
            u64::MAX
        },
    )
}

/// The lineage of a dependency call.
pub open spec fn lineage(d: calls::DepChildV) -> JsonV {
    JsonV::object().with("parent"@, json::jnum(d.parent.0)).with("binding"@, json::jstr(d.binding)).with(
        "consumer"@,
        json::jnum(d.consumer.0),
    ).with("depth"@, json::jnum(d.depth as u64)).with(
        "grant"@,
        JsonV::object().with("consumer"@, json::jstr(d.grant_consumer)).with(
            "cap"@,
            json::jstr(d.grant_cap),
        ).with("rev"@, json::jnum(d.grant_rev)),
    ).with("remote_peer"@, json::opt_str(d.remote_peer))
}

fn show_lineage(d: &calls::DepChild) -> (r: Json)
    ensures
        r@ == lineage(d@),
{
    let grant = Json::object().with("consumer", Json::str(&d.grant_consumer)).with(
        "cap",
        Json::str(&d.grant_cap),
    ).with("rev", Json::num(d.grant_rev));
    Json::object().with("parent", Json::num(d.parent.0)).with(
        "binding",
        Json::str(&d.binding),
    ).with("consumer", Json::num(d.consumer.0)).with("depth", Json::num(d.depth as u64)).with(
        "grant",
        grant,
    ).with("remote_peer", Json::opt_str(&d.remote_peer))
}

/// A call in flight.
pub open spec fn call_row(t: TicketV, now: Instant) -> JsonV {
    JsonV::object().with("ticket"@, json::jnum(t.id.0)).with("cap"@, json::jstr(t.cap)).with(
        "logical"@,
        json::jstr(t.logical),
    ).with("instance"@, json::jnum(t.instance.0)).with("generation"@, json::jnum(t.generation)).with(
        "state"@,
        json::jstr(t.state.name()),
    ).with("policy"@, json::jstr(t.policy.on_withdraw.name())).with(
        "drain_ms"@,
        json::jnum(t.policy.drain_ms),
    ).with("elapsed_ms"@, millis(now.ms_since(t.opened_at))).with(
        "drain_left_ms"@,
        match t.drain_left(now) {
            Some(n) => millis(n),
            None => JsonV::Null,
        },
    ).with(
        "pins"@,
        JsonV::Array(t.pins.map_values(|h: crate::identity::ResourceHandle| json::jnum(h.0))),
    ).with("cancel_reason"@, json::opt_str(t.cancel_reason)).with(
        "dep"@,
        match t.dep {
            Some(d) => lineage(d),
            None => JsonV::Null,
        },
    )
}

fn show_call(t: &TicketRecord, now: Instant) -> (r: Json)
    ensures
        r@ == call_row(t@, now),
{
    let ghost f = |h: crate::identity::ResourceHandle| json::jnum(h.0);
    let mut pins: Vec<Json> = Vec::new();
    let mut i: usize = 0;
    while i < t.pins.len()
        invariant
            i <= t.pins.len(),
            f == |h: crate::identity::ResourceHandle| json::jnum(h.0),
            pins.deep_view() == t.pins@.take(i as int).map_values(f),
        decreases t.pins.len() - i,
    {
        let ghost before = pins.deep_view();
        pins.push(Json::num(t.pins[i].0));
        proof {
            assert(pins.deep_view() =~= before.push(f(t.pins@[i as int])));
            assert(t.pins@.take(i + 1).map_values(f) =~= t.pins@.take(i as int).map_values(
                f,
            ).push(f(t.pins@[i as int])));
        }
        i += 1;
    }
    proof {
        assert(t.pins@.take(t.pins@.len() as int) =~= t.pins@);
    }
    let left = match t.drain_left_ms(now) {
        Some(n) => show_millis(n),
        None => Json::Null,
    };
    let dep = match &t.dep {
        Some(d) => show_lineage(d),
        None => Json::Null,
    };
    Json::object().with("ticket", Json::num(t.id.0)).with("cap", Json::str(&t.cap)).with(
        "logical",
        Json::str(&t.logical),
    ).with("instance", Json::num(t.instance.0)).with("generation", Json::num(t.generation)).with(
        "state",
        Json::str(t.state.as_str()),
    ).with("policy", Json::str(t.policy.on_withdraw.as_str())).with(
        "drain_ms",
        Json::num(t.policy.drain_ms),
    ).with("elapsed_ms", show_millis(t.elapsed_ms(now))).with("drain_left_ms", left).with(
        "pins",
        Json::list(pins),
    ).with("cancel_reason", Json::opt_str(&t.cancel_reason)).with("dep", dep)
}

/// The calls in flight.
pub open spec fn call_rows(ts: Seq<TicketV>, now: Instant) -> JsonV {
    JsonV::Array(ts.map_values(|t: TicketV| call_row(t, now)))
}

fn show_calls(ts: &Vec<TicketRecord>, now: Instant) -> (r: Json)
    ensures
        r@ == call_rows(ts.deep_view(), now),
{
    let ghost s = ts.deep_view();
    let ghost f = |t: TicketV| call_row(t, now);
    let mut out: Vec<Json> = Vec::new();
    let mut i: usize = 0;
    while i < ts.len()
        invariant
            i <= ts.len(),
            s == ts.deep_view(),
            f == |t: TicketV| call_row(t, now),
            out.deep_view() == s.take(i as int).map_values(f),
        decreases ts.len() - i,
    {
        let ghost before = out.deep_view();
        out.push(show_call(&ts[i], now));
        proof {
            assert(out.deep_view() =~= before.push(f(s[i as int])));
            assert(s.take(i + 1).map_values(f) =~= s.take(i as int).map_values(f).push(
                f(s[i as int]),
            ));
        }
        i += 1;
    }
    proof {
        assert(s.take(s.len() as int) =~= s);
    }
    Json::list(out)
}

/// A requirement as it is shown: its interface, and the provider it names.
pub open spec fn shown_need(r: RequirementV) -> Text {
    match r.provider {
        Some(p) => r.interface + "@"@ + p,
        None => r.interface,
    }
}

/// The requirements of a definition as they are shown.
pub open spec fn shown_needs(reqs: Seq<RequirementV>) -> Seq<Text> {
    reqs.map_values(|r: RequirementV| shown_need(r))
}

fn show_needs(reqs: &Vec<Requirement>) -> (r: Vec<String>)
    ensures
        r.deep_view() == shown_needs(reqs.deep_view()),
{
    let ghost s = reqs.deep_view();
    let ghost f = |r: RequirementV| shown_need(r);
    let mut out: Vec<String> = Vec::new();
    let mut i: usize = 0;
    while i < reqs.len()
        invariant
            i <= reqs.len(),
            s == reqs.deep_view(),
            f == |r: RequirementV| shown_need(r),
            out.deep_view() == s.take(i as int).map_values(f),
        decreases reqs.len() - i,
    {
        let mut shown = reqs[i].interface.clone();
        if let Some(p) = &reqs[i].provider {
            shown.append("@");
            shown.append(p);
        }
        let ghost before = out.deep_view();
        let ghost v = shown@;
        assert(v == f(s[i as int]));
        out.push(shown);
        proof {
            assert(out.deep_view() =~= before.push(v));
            assert(s.take(i + 1).map_values(f) =~= s.take(i as int).map_values(f).push(
                f(s[i as int]),
            ));
        }
        i += 1;
    }
    proof {
        assert(s.take(s.len() as int) =~= s);
    }
    out
}

/// Each capability with its owner.
pub open spec fn owners(caps: Caps, ks: Seq<Text>) -> JsonV
    decreases ks.len(),
{
    if ks.len() == 0 {
        JsonV::object()
    } else {
        owners(caps, ks.drop_last()).with(ks.last(), json::jstr(caps[ks.last()].logical))
    }
}

impl KernelV {
    /// The handles of the consumer `inst` among `ks`.
    pub open spec fn handles_of(self, inst: InstanceId, ks: Seq<Text>) -> Seq<DepBindingV>
        decreases ks.len(),
    {
        if ks.len() == 0 {
            Seq::empty()
        } else {
            let rest = self.handles_of(inst, ks.drop_last());
            if self.dep_bindings[ks.last()].consumer_instance == inst {
                rest.push(self.dep_bindings[ks.last()])
            } else {
                rest
            }
        }
    }

    /// An instance.
    pub open spec fn instance_row(self, c: ContextV) -> JsonV {
        JsonV::object().with("logical"@, json::jstr(c.logical)).with(
            "instance"@,
            json::jnum(c.instance.0),
        ).with("context"@, json::jnum(c.context.0)).with("generation"@, json::jnum(c.generation)).with(
            "epoch"@,
            json::jnum(c.epoch),
        ).with("state"@, json::jstr(c.state.name())).with("cause"@, json::opt_str(c.cause)).with(
            "waiting_reason"@,
            json::opt_str(c.cause),
        ).with(
            "requires"@,
            json::str_list(
                match self.definition(c.logical) {
                    Some(d) => shown_needs(d.requires),
                    None => Seq::empty(),
                },
            ),
        ).with(
            "bindings"@,
            lifecycle::binding_entries(
                match self.plugin(c.logical) {
                    Some(p) if p.instance_id == c.instance.0 => p.bindings,
                    _ => Seq::empty(),
                },
            ),
        ).with(
            "dep_bindings"@,
            rows::<DepBinding>(
                self.handles_of(c.instance, text::in_order(self.dep_bindings.dom())),
            ),
        ).with(
            "active_resources"@,
            json::jnum(resources::active_in(self.resources.slots, Some(c.context)) as u64),
        )
    }

    pub open spec fn instance_rows(self, cs: Seq<ContextV>) -> JsonV {
        JsonV::Array(cs.map_values(|c: ContextV| self.instance_row(c)))
    }

    /// Everything for inspection at `now`.
    pub open spec fn inventory(self, now: Instant) -> JsonV {
        JsonV::object().with("epoch"@, json::jnum(self.contexts.epoch)).with(
            "instances"@,
            self.instance_rows(context::by_name(self.contexts.records)),
        ).with("definitions"@, table::<StoredManifest>(self.definitions)).with(
            "remotes"@,
            table::<RemoteProvider>(self.remotes),
        ).with(
            "cycle"@,
            json::str_list(
                match graph::first_cycle(resolve::edges(self.definitions)) {
                    Some(p) => p,
                    None => Seq::empty(),
                },
            ),
        ).with("calls"@, call_rows(calls::select(self.calls.tickets, WhichV::All), now)).with(
            "effects"@,
            rows::<CommittedEffect>(calls::effects_of(self.calls.effects, None)),
        ).with("resources"@, rows::<ResourceRecord>(resources::by_owner(self.resources.slots))).with(
            "active_resources"@,
            json::jnum(resources::active_in(self.resources.slots, None) as u64),
        ).with("total_releases"@, json::jnum(self.resources.total_releases)).with(
            "double_release_attempts"@,
            json::jnum(self.resources.double_release_attempts),
        ).with("capabilities"@, owners(self.caps, text::in_order(self.caps.dom())))
    }
}

impl Kernel {
    fn handles_of(&self, inst: InstanceId) -> (r: Vec<DepBinding>)
        ensures
            r.deep_view() == self@.handles_of(
                inst,
                text::in_order(self@.dep_bindings.dom()),
            ),
    {
        let n = self.dep_bindings.len();
        let ghost m = self@.dep_bindings;
        let ghost ks = text::in_order(m.dom());
        proof {
            text::in_order_sorted(m.dom());
            assert(ks.take(0) =~= Seq::<Text>::empty());
        }
        let mut out: Vec<DepBinding> = Vec::new();
        let mut i: usize = 0;
        assert(out.deep_view() =~= Seq::<DepBindingV>::empty());
        while i < n
            invariant
                i <= n,
                n == ks.len(),
                m == self.dep_bindings@,
                ks == text::in_order(m.dom()),
                out.deep_view() == self@.handles_of(inst, ks.take(i as int)),
            decreases n - i,
        {
            proof {
                assert(ks.take(i + 1).drop_last() =~= ks.take(i as int));
                assert(ks.take(i + 1).last() == ks[i as int]);
            }
            let b = self.dep_bindings.value_at(i);
            if b.consumer_instance == inst {
                let ghost before = out.deep_view();
                out.push(b.copy());
                assert(out.deep_view() =~= before.push(b@));
            }
            i += 1;
        }
        proof {
            assert(ks.take(ks.len() as int) =~= ks);
        }
        out
    }

    fn show_instance(&self, c: &ContextRecord) -> (r: Json)
        ensures
            r@ == self@.instance_row(c@),
    {
        let none: Vec<String> = Vec::new();
        assert(none.deep_view() =~= Seq::<Text>::empty());
        let needs = match self.definitions.get(&c.logical) {
            Some(d) => show_needs(&d.requires),
            None => none,
        };
        let empty: Vec<crate::deps::Binding> = Vec::new();
        assert(empty.deep_view() =~= Seq::<crate::deps::BindingV>::empty());
        let bindings = match self.plugins.get(&c.logical) {
            Some(p) => if p.instance_id == c.instance.0 {
                lifecycle::binding_list(&p.bindings)
            } else {
                lifecycle::binding_list(&empty)
            },
            None => lifecycle::binding_list(&empty),
        };
        let handles = self.handles_of(c.instance);
        let active = self.resources.active_for(c.context);
        Json::object().with("logical", Json::str(&c.logical)).with(
            "instance",
            Json::num(c.instance.0),
        ).with("context", Json::num(c.context.0)).with("generation", Json::num(c.generation)).with(
            "epoch",
            Json::num(c.epoch),
        ).with("state", Json::str(c.state.as_str())).with("cause", Json::opt_str(&c.cause)).with(
            "waiting_reason",
            Json::opt_str(&c.cause),
        ).with("requires", Json::str_list(&needs)).with("bindings", bindings).with(
            "dep_bindings",
            show_all(&handles),
        ).with("active_resources", Json::num(active as u64))
    }

    fn show_instances(&self, cs: &Vec<ContextRecord>) -> (r: Json)
        ensures
            r@ == self@.instance_rows(cs.deep_view()),
    {
        let ghost s = cs.deep_view();
        let ghost f = |c: ContextV| self@.instance_row(c);
        let mut out: Vec<Json> = Vec::new();
        let mut i: usize = 0;
        while i < cs.len()
            invariant
                i <= cs.len(),
                s == cs.deep_view(),
                f == |c: ContextV| self@.instance_row(c),
                out.deep_view() == s.take(i as int).map_values(f),
            decreases cs.len() - i,
        {
            let ghost before = out.deep_view();
            out.push(self.show_instance(&cs[i]));
            proof {
                assert(out.deep_view() =~= before.push(f(s[i as int])));
                assert(s.take(i + 1).map_values(f) =~= s.take(i as int).map_values(f).push(
                    f(s[i as int]),
                ));
            }
            i += 1;
        }
        proof {
            assert(s.take(s.len() as int) =~= s);
        }
        Json::list(out)
    }

    fn show_owners(&self) -> (r: Json)
        ensures
            r@ == owners(self@.caps, text::in_order(self@.caps.dom())),
    {
        let caps = self.caps.snapshot();
        let n = caps.len();
        let ghost m = self@.caps;
        let ghost ks = text::in_order(m.dom());
        proof {
            assert(caps@.dom() =~= m.dom());
            text::in_order_sorted(m.dom());
            assert(ks.take(0) =~= Seq::<Text>::empty());
        }
        let mut out = Json::object();
        let mut i: usize = 0;
        while i < n
            invariant
                i <= n,
                n == ks.len(),
                ks == text::in_order(caps@.dom()),
                ks.to_set() == m.dom(),
                caps@ == m.map_values(|e: crate::registry::EntryV| e.logical),
                out@ == owners(m, ks.take(i as int)),
            decreases n - i,
        {
            proof {
                assert(ks.take(i + 1).drop_last() =~= ks.take(i as int));
                assert(ks.take(i + 1).last() == ks[i as int]);
                assert(ks.to_set().contains(ks[i as int]));
            }
            out = out.with(caps.key_at(i), Json::str(caps.value_at(i)));
            i += 1;
        }
        proof {
            assert(ks.take(ks.len() as int) =~= ks);
        }
        out
    }

    /// Everything for inspection: instances and generations, requirements,
    /// bindings, calls, effects, resources by owner, and a cycle where there
    /// is one.
    pub fn inventory(&self, now: Instant) -> (r: Json)
        ensures
            r@ == self@.inventory(now),
    {
        let cs = self.contexts.snapshot();
        let instances = self.show_instances(&cs);
        let definitions = show_table(&self.definitions);
        let remotes = show_table(&self.remote_providers);
        let edges = resolve::definition_edges(&self.definitions);
        let none: Vec<String> = Vec::new();
        assert(none.deep_view() =~= Seq::<Text>::empty());
        let cycle = match graph::find_cycle(&edges) {
            Some(p) => p,
            None => none,
        };
        let ts = self.calls.snapshot();
        let calls = show_calls(&ts, now);
        let es = self.calls.effects_for(None);
        let effects = show_all(&es);
        let rs = self.resources.inventory();
        let held = show_all(&rs);
        let active = self.resources.active_count();
        let capabilities = self.show_owners();
        Json::object().with("epoch", Json::num(self.contexts.epoch())).with(
            "instances",
            instances,
        ).with("definitions", definitions).with("remotes", remotes).with(
            "cycle",
            Json::str_list(&cycle),
        ).with("calls", calls).with("effects", effects).with("resources", held).with(
            "active_resources",
            Json::num(active as u64),
        ).with("total_releases", Json::num(self.resources.total_releases())).with(
            "double_release_attempts",
            Json::num(self.resources.double_release_attempts()),
        ).with("capabilities", capabilities)
    }
}

} // verus!
