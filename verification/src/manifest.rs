//! Manifests: the desired definition of a plugin, read from JSON.

use vstd::prelude::*;
use vstd::string::*;
use crate::calls;
use crate::calls::{CallPolicy, WithdrawPolicy};
use crate::deps;
use crate::deps::{Requirement, RequirementV};
use crate::external;
use crate::external::{ExecutionKind, ExecutionV};
use crate::json::{Json, JsonV};
use crate::strmap::StrMap;
use crate::text;
use crate::text::Text;

verus! {

/// Finite limits of an outbound policy: all required and positive.
#[derive(Debug, Clone, Copy, PartialEq, Eq, Structural)]
pub struct OutboundLimits {
    /// Maximum chain depth (a root call is at 0).
    pub max_depth: u64,
    /// Simultaneous children per parent ticket.
    pub max_children_per_parent: u64,
    /// Child calls per session.
    pub max_calls_per_session: u64,
    /// Child calls of the whole kernel.
    pub max_calls_global: u64,
    /// Seen requests retained per session.
    pub max_seen_requests: u64,
    /// Queued bytes per session.
    pub max_queued_bytes: u64,
    /// Maximum deadline of a child, in milliseconds.
    pub max_deadline_ms: u64,
}

/// Outbound policy declared in the manifest: requested capabilities and
/// finite limits. Declaring authorizes nothing; the operator's grant is
/// checked at admission.
#[derive(Debug)]
pub struct OutboundPolicy {
    /// Requested versioned capabilities (`name@major`).
    pub requested: Vec<String>,
    pub limits: OutboundLimits,
}

pub struct OutboundV {
    pub requested: Seq<Text>,
    pub limits: OutboundLimits,
}

impl View for OutboundPolicy {
    type V = OutboundV;

    open spec fn view(&self) -> OutboundV {
        OutboundV { requested: self.requested.deep_view(), limits: self.limits }
    }
}

impl DeepView for OutboundPolicy {
    type V = OutboundV;

    open spec fn deep_view(&self) -> OutboundV {
        self@
    }
}

impl OutboundPolicy {
    pub fn copy(&self) -> (r: OutboundPolicy)
        ensures
            r@ == self@,
    {
        OutboundPolicy { requested: text::copy_texts(&self.requested), limits: self.limits }
    }
}

/// Registered definition. It survives a cascading withdraw, to allow
/// reactivation; explicit removal deletes it.
#[derive(Debug)]
pub struct StoredManifest {
    pub id: String,
    pub caps: Vec<String>,
    pub requires: Vec<Requirement>,
    pub subs: Vec<String>,
    /// Per-operation policy.
    pub calls: StrMap<CallPolicy>,
    pub reducer: String,
    pub init_state: Json,
    pub tier: String,
    pub trust: String,
    pub restart: String,
    /// Source file, for reload to reconcile removals.
    pub source: Option<String>,
    /// How to execute: in process or as an external process.
    pub execution: ExecutionKind,
    /// A provider that executes on another host. It never activates locally;
    /// only an explicit registration satisfies it.
    pub remote: bool,
    /// Dependency-call policy; absent means disabled.
    pub outbound: Option<OutboundPolicy>,
}

pub struct ManifestV {
    pub id: Text,
    pub caps: Seq<Text>,
    pub requires: Seq<RequirementV>,
    pub subs: Seq<Text>,
    pub calls: Map<Text, CallPolicy>,
    pub reducer: Text,
    pub init_state: JsonV,
    pub tier: Text,
    pub trust: Text,
    pub restart: Text,
    pub source: Option<Text>,
    pub execution: ExecutionV,
    pub remote: bool,
    pub outbound: Option<OutboundV>,
}

impl View for StoredManifest {
    type V = ManifestV;

    open spec fn view(&self) -> ManifestV {
        ManifestV {
            id: self.id@,
            caps: self.caps.deep_view(),
            requires: self.requires.deep_view(),
            subs: self.subs.deep_view(),
            calls: self.calls@,
            reducer: self.reducer@,
            init_state: self.init_state@,
            tier: self.tier@,
            trust: self.trust@,
            restart: self.restart@,
            source: self.source.deep_view(),
            execution: self.execution@,
            remote: self.remote,
            outbound: self.outbound.deep_view(),
        }
    }
}

impl DeepView for StoredManifest {
    type V = ManifestV;

    open spec fn deep_view(&self) -> ManifestV {
        self@
    }
}

/// A copy of a map of policies.
pub fn copy_policies(m: &StrMap<CallPolicy>) -> (r: StrMap<CallPolicy>)
    ensures
        r@ == m@,
{
    let mut out: StrMap<CallPolicy> = StrMap::new();
    let n = m.len();
    let ghost ks = text::in_order(m@.dom());
    proof {
        text::in_order_sorted(m@.dom());
    }
    let mut i: usize = 0;
    while i < n
        invariant
            i <= n,
            n == ks.len(),
            ks == text::in_order(m@.dom()),
            ks.to_set() == m@.dom(),
            forall|k: Text| #[trigger]
                out@.dom().contains(k) <==> ks.take(i as int).to_set().contains(k),
            forall|k: Text| #[trigger] out@.dom().contains(k) ==> out@[k] == m@[k],
        decreases n - i,
    {
        proof {
            text::take_grows(ks, i as int);
        }
        out.insert(m.key_at(i), *m.value_at(i));
        i += 1;
    }
    proof {
        assert(ks.take(ks.len() as int) =~= ks);
        assert(out@ =~= m@);
    }
    out
}

impl StoredManifest {
    pub fn copy(&self) -> (r: StoredManifest)
        ensures
            r@ == self@,
    {
        StoredManifest {
            id: self.id.clone(),
            caps: text::copy_texts(&self.caps),
            requires: deps::copy_requirements(&self.requires),
            subs: text::copy_texts(&self.subs),
            calls: copy_policies(&self.calls),
            reducer: self.reducer.clone(),
            init_state: self.init_state.copy(),
            tier: self.tier.clone(),
            trust: self.trust.clone(),
            restart: self.restart.clone(),
            source: text::copy_opt(&self.source),
            execution: self.execution.copy(),
            remote: self.remote,
            outbound: match &self.outbound {
                Some(o) => Some(o.copy()),
                None => None,
            },
        }
    }
}

// ---- lists of names ---------------------------------------------------

/// Whether every value is a string that is not blank.
pub open spec fn all_named(vs: Seq<JsonV>) -> bool {
    forall|i: int|
        0 <= i < vs.len() ==> ((#[trigger] vs[i]).str_of() matches Some(s) && text::trimmed(
            s,
        ).len() > 0)
}

/// The names that the strings spell.
pub open spec fn names(vs: Seq<JsonV>) -> Seq<Text> {
    vs.map_values(|v: JsonV| text::trimmed(v.str_of()->0))
}

/// The names, if every value is a string that is not blank.
fn named_list(a: &Vec<Json>) -> (r: Option<Vec<String>>)
    ensures
        match r {
            Some(v) => all_named(a.deep_view()) && v.deep_view() == names(a.deep_view()),
            None => !all_named(a.deep_view()),
        },
{
    let ghost vs = a.deep_view();
    let mut out: Vec<String> = Vec::new();
    let mut i: usize = 0;
    while i < a.len()
        invariant
            i <= a.len(),
            vs == a.deep_view(),
            out.len() == i,
            forall|j: int|
                0 <= j < i ==> ((#[trigger] vs[j]).str_of() matches Some(s) && text::trimmed(
                    s,
                ).len() > 0 && out[j]@ == text::trimmed(s)),
        decreases a.len() - i,
    {
        assert(vs[i as int] == a[i as int]@);
        match a[i].as_str() {
            Some(s) => {
                let t = text::trim(s);
                if t.as_str().is_empty() {
                    return None;
                }
                out.push(t);
            },
            None => return None,
        }
        i += 1;
    }
    assert(out.deep_view() =~= names(vs));
    Some(out)
}

// ---- outbound ---------------------------------------------------------

/// Whether `c` is a name, one `@`, and a decimal version.
pub open spec fn versioned(c: Text) -> bool {
    let at = text::last_index(c, '@');
    &&& 1 <= at < c.len() - 1
    &&& forall|j: int| 0 <= j < at ==> #[trigger] c[j] != '@'
    &&& forall|j: int| at < j < c.len() ==> '0' <= #[trigger] c[j] <= '9'
}

/// The first text that is not versioned.
pub open spec fn first_unversioned(cs: Seq<Text>) -> Option<Text>
    decreases cs.len(),
{
    if cs.len() == 0 {
        None
    } else {
        match first_unversioned(cs.drop_last()) {
            Some(c) => Some(c),
            None => if versioned(cs.last()) {
                None
            } else {
                Some(cs.last())
            },
        }
    }
}

/// The positive limit called `k`.
pub open spec fn limit(l: JsonV, k: Text) -> Result<u64, Text> {
    match l.u64_at(k) {
        Some(n) if n > 0 => Ok(n),
        _ => Err("'outbound.limits."@ + k + "' must be a positive integer"@),
    }
}

/// All seven limits; the first missing one is reported.
pub open spec fn limits(l: JsonV) -> Result<OutboundLimits, Text> {
    match limit(l, "max_depth"@) {
        Err(e) => Err(e),
        Ok(max_depth) => match limit(l, "max_children_per_parent"@) {
            Err(e) => Err(e),
            Ok(max_children_per_parent) => match limit(l, "max_calls_per_session"@) {
                Err(e) => Err(e),
                Ok(max_calls_per_session) => match limit(l, "max_calls_global"@) {
                    Err(e) => Err(e),
                    Ok(max_calls_global) => match limit(l, "max_seen_requests"@) {
                        Err(e) => Err(e),
                        Ok(max_seen_requests) => match limit(l, "max_queued_bytes"@) {
                            Err(e) => Err(e),
                            Ok(max_queued_bytes) => match limit(l, "max_deadline_ms"@) {
                                Err(e) => Err(e),
                                Ok(max_deadline_ms) => Ok(
                                    OutboundLimits {
                                        max_depth,
                                        max_children_per_parent,
                                        max_calls_per_session,
                                        max_calls_global,
                                        max_seen_requests,
                                        max_queued_bytes,
                                        max_deadline_ms,
                                    },
                                ),
                            },
                        },
                    },
                },
            },
        },
    }
}

/// What the manifest member `outbound` declares, or what is wrong with it.
pub open spec fn declared_outbound(v: Option<JsonV>) -> Result<Option<OutboundV>, Text> {
    match v {
        None => Ok(None),
        Some(o) => if o.object_of() is None {
            Err("'outbound' deve ser objeto"@)
        } else {
            match o.get("request"@) {
                Some(JsonV::Array(a)) => if !all_named(a) {
                    Err("'outbound.request' requires non-empty strings"@)
                } else {
                    match first_unversioned(names(a)) {
                        Some(c) => Err(
                            "invalid versioned capability in outbound.request: "@ + text::quoted(
                                c,
                            ),
                        ),
                        None => match o.get("limits"@) {
                            Some(JsonV::Object(ms)) => match limits(JsonV::Object(ms)) {
                                Ok(l) => Ok(Some(OutboundV { requested: names(a), limits: l })),
                                Err(e) => Err(e),
                            },
                            _ => Err("'outbound.limits' is required with all finite limits"@),
                        },
                    }
                },
                _ => Err(
                    "'outbound.request' deve ser array de capabilities versionadas solicitadas"@,
                ),
            }
        },
    }
}

fn is_versioned(c: &str) -> (r: bool)
    ensures
        r == versioned(c@),
{
    let v = text::chars_of(c);
    match text::rfind(&v, '@') {
        None => false,
        Some(at) => {
            if at == 0 || at == v.len() - 1 {
                return false;
            }
            let mut i: usize = 0;
            while i < v.len()
                invariant
                    i <= v.len(),
                    at < v.len(),
                    v@ == c@,
                    at == text::last_index(v@, '@'),
                    forall|j: int| 0 <= j < at && j < i ==> #[trigger] v@[j] != '@',
                    forall|j: int| at < j < i ==> '0' <= #[trigger] v@[j] <= '9',
                decreases v.len() - i,
            {
                if i < at && v[i] == '@' {
                    return false;
                }
                if i > at && !('0' <= v[i] && v[i] <= '9') {
                    return false;
                }
                i += 1;
            }
            true
        },
    }
}

fn read_limit(l: &Json, k: &str) -> (r: Result<u64, String>)
    ensures
        match r {
            Ok(n) => limit(l@, k@) == Ok::<u64, Text>(n),
            Err(e) => limit(l@, k@) == Err::<u64, Text>(e@),
        },
{
    match l.u64_at(k) {
        Some(n) if n > 0 => Ok(n),
        _ => {
            let mut e = text::join2("'outbound.limits.", k);
            e.append("' must be a positive integer");
            Err(e)
        },
    }
}

fn read_limits(l: &Json) -> (r: Result<OutboundLimits, String>)
    ensures
        match r {
            Ok(n) => limits(l@) == Ok::<OutboundLimits, Text>(n),
            Err(e) => limits(l@) == Err::<OutboundLimits, Text>(e@),
        },
{
    let max_depth: u64 = match read_limit(l, "max_depth") {
        Ok(n) => n,
        Err(e) => return Err(e),
    };
    let max_children_per_parent: u64 = match read_limit(l, "max_children_per_parent") {
        Ok(n) => n,
        Err(e) => return Err(e),
    };
    let max_calls_per_session: u64 = match read_limit(l, "max_calls_per_session") {
        Ok(n) => n,
        Err(e) => return Err(e),
    };
    let max_calls_global: u64 = match read_limit(l, "max_calls_global") {
        Ok(n) => n,
        Err(e) => return Err(e),
    };
    let max_seen_requests: u64 = match read_limit(l, "max_seen_requests") {
        Ok(n) => n,
        Err(e) => return Err(e),
    };
    let max_queued_bytes: u64 = match read_limit(l, "max_queued_bytes") {
        Ok(n) => n,
        Err(e) => return Err(e),
    };
    let max_deadline_ms: u64 = match read_limit(l, "max_deadline_ms") {
        Ok(n) => n,
        Err(e) => return Err(e),
    };
    Ok(
        OutboundLimits {
            max_depth,
            max_children_per_parent,
            max_calls_per_session,
            max_calls_global,
            max_seen_requests,
            max_queued_bytes,
            max_deadline_ms,
        },
    )
}

fn find_unversioned(cs: &Vec<String>) -> (r: Option<usize>)
    ensures
        match r {
            Some(i) => i < cs.len() && first_unversioned(cs.deep_view()) == Some(
                cs.deep_view()[i as int],
            ),
            None => first_unversioned(cs.deep_view()) is None,
        },
{
    let ghost s = cs.deep_view();
    let mut i: usize = 0;
    proof {
        assert(s.take(0) =~= Seq::<Text>::empty());
    }
    while i < cs.len()
        invariant
            i <= cs.len(),
            s == cs.deep_view(),
            first_unversioned(s.take(i as int)) is None,
        decreases cs.len() - i,
    {
        proof {
            assert(s.take(i + 1).drop_last() =~= s.take(i as int));
            assert(s.take(i + 1).last() == cs[i as int]@);
        }
        if !is_versioned(&cs[i]) {
            proof {
                first_unversioned_stays(s, i + 1);
            }
            return Some(i);
        }
        i += 1;
    }
    proof {
        assert(s.take(s.len() as int) =~= s);
    }
    None
}

proof fn first_unversioned_stays(s: Seq<Text>, i: int)
    requires
        0 <= i <= s.len(),
        first_unversioned(s.take(i)) is Some,
    ensures
        first_unversioned(s) == first_unversioned(s.take(i)),
    decreases s.len() - i,
{
    if i < s.len() {
        assert(s.take(i + 1).drop_last() =~= s.take(i));
        first_unversioned_stays(s, i + 1);
    } else {
        assert(s.take(i) =~= s);
    }
}

/// Reads the manifest member `outbound`.
pub fn parse_outbound(v: Option<&Json>) -> (r: Result<Option<OutboundPolicy>, String>)
    ensures
        deps::outcome(r) == declared_outbound(deps::opt_json(v)),
{
    let v = match v {
        None => return Ok(None),
        Some(v) => v,
    };
    if v.as_object().is_none() {
        return Err("'outbound' deve ser objeto".to_owned());
    }
    let arr = match v.get("request") {
        Some(a) => a.as_array(),
        None => None,
    };
    let arr = match arr {
        Some(a) => a,
        None => return Err(
            "'outbound.request' deve ser array de capabilities versionadas solicitadas".to_owned(),
        ),
    };
    let requested = match named_list(arr) {
        Some(l) => l,
        None => return Err("'outbound.request' requires non-empty strings".to_owned()),
    };
    if let Some(i) = find_unversioned(&requested) {
        let q = text::quote(&requested[i]);
        return Err(text::join2("invalid versioned capability in outbound.request: ", &q));
    }
    let lim = match v.get("limits") {
        Some(l) => l,
        None => return Err("'outbound.limits' is required with all finite limits".to_owned()),
    };
    if lim.as_object().is_none() {
        return Err("'outbound.limits' is required with all finite limits".to_owned());
    }
    match read_limits(lim) {
        Ok(limits) => Ok(Some(OutboundPolicy { requested, limits })),
        Err(e) => Err(e),
    }
}

// ---- call policies ----------------------------------------------------

/// The policy that one member of `calls` declares.
pub open spec fn policy_of(cap: Text, v: JsonV) -> Result<CallPolicy, Text> {
    if text::trimmed(cap).len() == 0 {
        Err("cap vazia em 'calls'"@)
    } else {
        let on_withdraw = match v.str_at("on_withdraw"@) {
            Some(o) => WithdrawPolicy::named(o),
            None => Some(WithdrawPolicy::Cancel),
        };
        if on_withdraw is None {
            Err(
                "invalid on_withdraw in '"@ + cap + "': "@ + text::quoted(
                    v.str_at("on_withdraw"@)->0,
                ),
            )
        } else {
            match v.get("drain_ms"@) {
                None => Ok(CallPolicy { on_withdraw: on_withdraw->0, drain_ms: 0 }),
                Some(JsonV::Unsigned(n)) => Ok(
                    CallPolicy { on_withdraw: on_withdraw->0, drain_ms: n },
                ),
                Some(_) => Err("invalid drain_ms in '"@ + cap + "'"@),
            }
        }
    }
}

/// The policies of the members of `calls`; the first faulty one is reported.
pub open spec fn policies_of(ms: Seq<(Text, JsonV)>) -> Result<Map<Text, CallPolicy>, Text>
    decreases ms.len(),
{
    if ms.len() == 0 {
        Ok(Map::empty())
    } else {
        match policies_of(ms.drop_last()) {
            Err(e) => Err(e),
            Ok(m) => match policy_of(ms.last().0, ms.last().1) {
                Err(e) => Err(e),
                Ok(p) => Ok(m.insert(ms.last().0, p)),
            },
        }
    }
}

/// What the manifest member `calls` declares, or what is wrong with it.
pub open spec fn declared_calls(v: Option<JsonV>) -> Result<Map<Text, CallPolicy>, Text> {
    match v {
        None => Ok(Map::empty()),
        Some(JsonV::Object(ms)) => policies_of(ms),
        Some(_) => Err("'calls' must be a cap\u{2192}policy object"@),
    }
}

proof fn policies_fail(ms: Seq<(Text, JsonV)>, i: int)
    requires
        0 <= i <= ms.len(),
        policies_of(ms.take(i)) is Err,
    ensures
        policies_of(ms) == policies_of(ms.take(i)),
    decreases ms.len() - i,
{
    if i < ms.len() {
        assert(ms.take(i + 1).drop_last() =~= ms.take(i));
        policies_fail(ms, i + 1);
    } else {
        assert(ms.take(i) =~= ms);
    }
}

fn read_policy(cap: &str, v: &Json) -> (r: Result<CallPolicy, String>)
    ensures
        deps::outcome(r) == policy_of(cap@, v@),
{
    if text::blank(cap) {
        return Err("cap vazia em 'calls'".to_owned());
    }
    let mut pol = CallPolicy::cancel();
    if let Some(o) = v.str_at("on_withdraw") {
        match WithdrawPolicy::parse(o) {
            Some(p) => {
                pol.on_withdraw = p;
            },
            None => {
                let mut e = text::join2("invalid on_withdraw in '", cap);
                e.append("': ");
                let q = text::quote(o);
                e.append(&q);
                return Err(e);
            },
        }
    }
    if let Some(d) = v.get("drain_ms") {
        match d.as_u64() {
            Some(n) => {
                pol.drain_ms = n;
            },
            None => {
                let mut e = text::join2("invalid drain_ms in '", cap);
                e.append("'");
                return Err(e);
            },
        }
    }
    Ok(pol)
}

/// Reads the manifest member `calls`: `{cap: {on_withdraw, drain_ms}}`.
pub fn parse_call_policies(v: Option<&Json>) -> (r: Result<StrMap<CallPolicy>, String>)
    ensures
        deps::outcome(r) == declared_calls(deps::opt_json(v)),
{
    let decl = match v {
        None => return Ok(StrMap::new()),
        Some(d) => d,
    };
    let obj = match decl.as_object() {
        Some(o) => o,
        None => return Err("'calls' must be a cap\u{2192}policy object".to_owned()),
    };
    let ghost ms = obj.deep_view();
    let mut out: StrMap<CallPolicy> = StrMap::new();
    let mut i: usize = 0;
    proof {
        assert(ms.take(0) =~= Seq::<(Text, JsonV)>::empty());
    }
    while i < obj.len()
        invariant
            i <= obj.len(),
            ms == obj.deep_view(),
            declared_calls(deps::opt_json(v)) == policies_of(ms),
            policies_of(ms.take(i as int)) == Ok::<Map<Text, CallPolicy>, Text>(out@),
        decreases obj.len() - i,
    {
        proof {
            assert(ms.take(i + 1).drop_last() =~= ms.take(i as int));
            assert(ms.take(i + 1).last() == (obj[i as int].0@, obj[i as int].1@));
        }
        match read_policy(&obj[i].0, &obj[i].1) {
            Ok(p) => {
                out.insert(&obj[i].0, p);
            },
            Err(e) => {
                proof {
                    policies_fail(ms, i + 1);
                }
                return Err(e);
            },
        }
        i += 1;
    }
    proof {
        assert(ms.take(ms.len() as int) =~= ms);
    }
    Ok(out)
}

// ---- the manifest -----------------------------------------------------

/// `a` followed by what is new in `b`, each once, in order of first appearance.
pub open spec fn merged(a: Seq<Text>, b: Seq<Text>) -> Seq<Text>
    decreases b.len(),
{
    if b.len() == 0 {
        a
    } else {
        let m = merged(a, b.drop_last());
        if m.contains(b.last()) {
            m
        } else {
            m.push(b.last())
        }
    }
}

/// The string member `k`, or `d`.
pub open spec fn str_or(v: JsonV, k: Text, d: Text) -> Text {
    match v.str_at(k) {
        Some(s) => s,
        None => d,
    }
}

/// An optional list of names: its values, and whether it is no list.
pub open spec fn name_list(v: JsonV, k: Text) -> Seq<JsonV> {
    match v.get(k) {
        Some(JsonV::Array(a)) => a,
        _ => Seq::empty(),
    }
}

pub open spec fn not_a_list(v: JsonV, k: Text) -> bool {
    v.get(k) matches Some(x) && x.array_of() is None
}

/// The definition that a manifest declares, or the first thing that is wrong
/// with it.
pub open spec fn declared(v: JsonV) -> Result<ManifestV, Text> {
    let id = str_or(v, "id"@, Seq::empty());
    let caps = name_list(v, "capabilities"@);
    let subs = name_list(v, "subscriptions"@);
    let remote = match v.get("remote"@) {
        Some(JsonV::Bool(b)) => b,
        _ => false,
    };
    if text::trimmed(id).len() == 0 {
        Err("manifest without id"@)
    } else if not_a_list(v, "capabilities"@) {
        Err("'capabilities' deve ser array de strings"@)
    } else {
        match deps::declared_provides(v.get("provides"@)) {
            Err(e) => Err(e),
            Ok(extra) => match deps::declared_requires(v.get("requires"@)) {
                Err(e) => Err(e),
                Ok(needs) => if not_a_list(v, "subscriptions"@) {
                    Err("'subscriptions' deve ser array de strings"@)
                } else if !all_named(caps) {
                    Err("capability vazia"@)
                } else if !all_named(subs) {
                    Err("subscription vazia"@)
                } else {
                    match declared_calls(v.get("calls"@)) {
                        Err(e) => Err(e),
                        Ok(calls) => match external::declared_execution(v.get("execution"@)) {
                            Err(e) => Err(e),
                            Ok(execution) => match declared_outbound(v.get("outbound"@)) {
                                Err(e) => Err(e),
                                Ok(outbound) => if remote && name_list(v, "requires"@).len() > 0 {
                                    Err("remote definitions provide only; requires must be empty"@)
                                } else {
                                    Ok(
                                        ManifestV {
                                            id,
                                            caps: merged(merged(Seq::empty(), names(caps)), extra),
                                            requires: needs,
                                            subs: names(subs),
                                            calls,
                                            reducer: str_or(v, "reducer"@, "noop"@),
                                            init_state: match v.get("init_state"@) {
                                                Some(s) => s,
                                                None => JsonV::object(),
                                            },
                                            tier: str_or(v, "tier"@, "inproc"@),
                                            trust: str_or(v, "trust"@, "trusted"@),
                                            restart: str_or(v, "restart"@, "permanent"@),
                                            source: None,
                                            execution,
                                            remote,
                                            outbound,
                                        },
                                    )
                                },
                            },
                        },
                    }
                },
            },
        }
    }
}

/// What is declared as capability or as provided interface is listed once.
pub proof fn merged_lists_each_once(a: Seq<Text>, b: Seq<Text>)
    requires
        a.no_duplicates(),
    ensures
        merged(a, b).no_duplicates(),
        forall|t: Text| merged(a, b).contains(t) <==> a.contains(t) || b.contains(t),
    decreases b.len(),
{
    if b.len() > 0 {
        merged_lists_each_once(a, b.drop_last());
        let m = merged(a, b.drop_last());
        let x = b.last();
        assert forall|t: Text| b.contains(t) <==> b.drop_last().contains(t) || t == x by {
            if b.contains(t) {
                let i = choose|i: int| 0 <= i < b.len() && b[i] == t;
                if i < b.len() - 1 {
                    assert(b.drop_last()[i] == t);
                }
            }
            if b.drop_last().contains(t) {
                let i = choose|i: int| 0 <= i < b.drop_last().len() && b.drop_last()[i] == t;
                assert(b[i] == t);
            }
            assert(b[b.len() - 1] == x);
        }
        assert forall|t: Text| m.push(x).contains(t) <==> m.contains(t) || t == x by {
            let w = m.push(x);
            if m.contains(t) {
                let i = choose|i: int| 0 <= i < m.len() && m[i] == t;
                assert(w[i] == t);
            }
            assert(w[m.len() as int] == x);
            if w.contains(t) {
                let i = choose|i: int| 0 <= i < w.len() && w[i] == t;
                if i < m.len() {
                    assert(m[i] == t);
                }
            }
        }
    }
}

fn merge(a: Vec<String>, b: &Vec<String>) -> (r: Vec<String>)
    ensures
        r.deep_view() == merged(a.deep_view(), b.deep_view()),
{
    let ghost sa = a.deep_view();
    let ghost sb = b.deep_view();
    let mut out = a;
    let mut i: usize = 0;
    proof {
        assert(sb.take(0) =~= Seq::<Text>::empty());
    }
    while i < b.len()
        invariant
            i <= b.len(),
            sb == b.deep_view(),
            out.deep_view() == merged(sa, sb.take(i as int)),
        decreases b.len() - i,
    {
        proof {
            assert(sb.take(i + 1).drop_last() =~= sb.take(i as int));
            assert(sb.take(i + 1).last() == b[i as int]@);
        }
        if !text::contains_text(&out, &b[i]) {
            let ghost before = out.deep_view();
            out.push(b[i].clone());
            assert(out.deep_view() =~= before.push(sb[i as int]));
        }
        i += 1;
    }
    proof {
        assert(sb.take(sb.len() as int) =~= sb);
    }
    out
}

fn read_str(v: &Json, k: &str, d: &str) -> (r: String)
    ensures
        r@ == str_or(v@, k@, d@),
{
    match v.str_at(k) {
        Some(s) => s.clone(),
        None => d.to_owned(),
    }
}

/// The names under `k`, if they are all named; an absent list is empty.
fn read_names(v: &Json, k: &str) -> (r: Option<Vec<String>>)
    ensures
        match r {
            Some(l) => all_named(name_list(v@, k@)) && l.deep_view() == names(name_list(v@, k@)),
            None => !all_named(name_list(v@, k@)),
        },
{
    let none: Vec<String> = Vec::new();
    assert(none.deep_view() =~= names(Seq::empty()));
    match v.get(k) {
        Some(x) => match x.as_array() {
            Some(a) => named_list(a),
            None => Some(none),
        },
        None => Some(none),
    }
}

fn no_list(v: &Json, k: &str) -> (r: bool)
    ensures
        r == not_a_list(v@, k@),
{
    match v.get(k) {
        Some(x) => x.as_array().is_none(),
        None => false,
    }
}

/// A definition lists no capability twice.
pub proof fn capabilities_are_distinct(v: JsonV)
    requires
        declared(v) is Ok,
    ensures
        declared(v)->Ok_0.caps.no_duplicates(),
{
    let caps = names(name_list(v, "capabilities"@));
    merged_lists_each_once(Seq::empty(), caps);
    merged_lists_each_once(
        merged(Seq::empty(), caps),
        deps::declared_provides(v.get("provides"@))->Ok_0,
    );
}

/// Reads a manifest.
pub fn parse_manifest_value(v: &Json) -> (r: Result<StoredManifest, String>)
    ensures
        deps::outcome(r) == declared(v@),
{
    let id = read_str(v, "id", "");
    proof {
        reveal_strlit("");
        assert(""@ =~= Seq::<char>::empty());
    }
    if text::blank(&id) {
        return Err("manifest without id".to_owned());
    }
    if no_list(v, "capabilities") {
        return Err("'capabilities' deve ser array de strings".to_owned());
    }
    let extra = match deps::parse_provides(v.get("provides")) {
        Ok(e) => e,
        Err(e) => return Err(e),
    };
    let needs = match deps::parse_requires(v.get("requires")) {
        Ok(q) => q,
        Err(e) => return Err(e),
    };
    if no_list(v, "subscriptions") {
        return Err("'subscriptions' deve ser array de strings".to_owned());
    }
    let caps = match read_names(v, "capabilities") {
        Some(l) => l,
        None => return Err("capability vazia".to_owned()),
    };
    let subs = match read_names(v, "subscriptions") {
        Some(l) => l,
        None => return Err("subscription vazia".to_owned()),
    };
    let calls = match parse_call_policies(v.get("calls")) {
        Ok(c) => c,
        Err(e) => return Err(e),
    };
    let execution = match external::parse_execution(v.get("execution")) {
        Ok(x) => x,
        Err(e) => return Err(e),
    };
    let outbound = match parse_outbound(v.get("outbound")) {
        Ok(o) => o,
        Err(e) => return Err(e),
    };
    let remote = match v.get("remote") {
        Some(b) => match b.as_bool() {
            Some(b) => b,
            None => false,
        },
        None => false,
    };
    let declares_requires = match v.get("requires") {
        Some(q) => match q.as_array() {
            Some(a) => a.len() > 0,
            None => false,
        },
        None => false,
    };
    if remote && declares_requires {
        return Err("remote definitions provide only; requires must be empty".to_owned());
    }
    let init_state = match v.get("init_state") {
        Some(s) => s.copy(),
        None => Json::object(),
    };
    let none: Vec<String> = Vec::new();
    assert(none.deep_view() =~= Seq::<Text>::empty());
    Ok(
        StoredManifest {
            id,
            caps: merge(merge(none, &caps), &extra),
            requires: needs,
            subs,
            calls,
            reducer: read_str(v, "reducer", "noop"),
            init_state,
            tier: read_str(v, "tier", "inproc"),
            trust: read_str(v, "trust", "trusted"),
            restart: read_str(v, "restart", "permanent"),
            source: None,
            execution,
            remote,
            outbound,
        },
    )
}

} // verus!
