//! What a manifest declares, member by member, and where it is found in the
//! definition that is read from it.

use vstd::prelude::*;
use crate::calls::WithdrawPolicy;
use crate::deps;
use crate::deps::RequirementV;
use crate::external;
use crate::external::ExecutionV;
use crate::json;
use crate::json::JsonV;
use crate::manifest;
use crate::text;
use crate::text::Text;

verus! {

// ---- members ----------------------------------------------------------

/// Whether `ms[i]` is the first member called `k`.
pub open spec fn first_called(ms: Seq<(Text, JsonV)>, k: Text, i: int) -> bool {
    &&& 0 <= i < ms.len()
    &&& ms[i].0 == k
    &&& forall|j: int| 0 <= j < i ==> (#[trigger] ms[j]).0 != k
}

proof fn first_is_indexed(ms: Seq<(Text, JsonV)>, k: Text, i: int)
    requires
        first_called(ms, k, i),
    ensures
        json::member_index(ms, k) == i,
    decreases ms.len(),
{
    if i < ms.len() - 1 {
        assert(first_called(ms.drop_last(), k, i)) by {
            assert forall|j: int| 0 <= j < i implies (#[trigger] ms.drop_last()[j]).0 != k by {
                assert(ms[j].0 != k);
            }
        }
        first_is_indexed(ms.drop_last(), k, i);
    } else {
        json::member_index_bound(ms.drop_last(), k);
        let x = json::member_index(ms.drop_last(), k);
        if x >= 0 {
            assert(ms[x].0 == k);
        }
    }
}

/// A member is found under its name, and nothing under a name that no member
/// has.
pub proof fn members_are_found_by_name(ms: Seq<(Text, JsonV)>, k: Text, i: int)
    ensures
        first_called(ms, k, i) ==> JsonV::Object(ms).get(k) == Some(ms[i].1),
        (forall|j: int| 0 <= j < ms.len() ==> (#[trigger] ms[j]).0 != k) ==> JsonV::Object(ms).get(
            k,
        ) is None,
{
    json::member_index_bound(ms, k);
    if first_called(ms, k, i) {
        first_is_indexed(ms, k, i);
    }
}

/// What is written into an object under a name is read under that name, and
/// what it held under other names stays.
pub proof fn written_members_are_read(ms: Seq<(Text, JsonV)>, k: Text, v: JsonV, other: Text)
    requires
        json::ordered_members(ms),
        other != k,
    ensures
        JsonV::Object(ms).with(k, v).get(k) == Some(v),
        JsonV::Object(ms).with(k, v).get(other) == JsonV::Object(ms).get(other),
{
    json::with_keeps_order(ms, k, v);
    json::member_index_bound(ms, k);
    json::member_index_bound(ms, other);
    let i = json::member_index(ms, k);
    let p = json::place(ms, k);
    let w = JsonV::Object(ms).with(k, v)->Object_0;
    let x = json::member_index(ms, other);
    place_is_within(ms, k);
    if i >= 0 {
        assert(w == ms.update(i, (k, v)));
        if x >= 0 {
            json::member_at(w, x);
            assert(w[x].0 == other);
        }
    } else {
        assert(w == ms.insert(p, (k, v)));
        if x >= 0 {
            let y = if x < p { x } else { x + 1 };
            assert(w[y] == ms[x]);
            json::member_at(w, y);
        }
    }
    if x < 0 {
        json::member_index_bound(w, other);
        let z = json::member_index(w, other);
        if z >= 0 {
            assert(w[z].0 == other);
            if i >= 0 {
                assert(z == i || ms[z].0 == other);
            } else if z < p {
                assert(ms[z].0 == other);
            } else if z > p {
                assert(ms[z - 1].0 == other);
            }
        }
    }
}

proof fn place_is_within(ms: Seq<(Text, JsonV)>, k: Text)
    ensures
        0 <= json::place(ms, k) <= ms.len(),
    decreases ms.len(),
{
    if ms.len() > 0 {
        place_is_within(ms.drop_last(), k);
    }
}

// ---- outbound policy --------------------------------------------------

/// Whether the member `k` of `m` is the positive number `n`.
pub open spec fn holds_positive(m: JsonV, k: Text, n: u64) -> bool {
    m.get(k) == Some(JsonV::Unsigned(n)) && n > 0
}

/// Each limit of a definition is the member of `outbound.limits` of the same
/// name, and positive.
pub proof fn limits_are_read_by_name(v: JsonV)
    requires
        manifest::declared(v) matches Ok(d) && d.outbound is Some,
    ensures
        ({
            let l = manifest::declared(v)->Ok_0.outbound->0.limits;
            let m = v.get("outbound"@)->0.get("limits"@)->0;
            &&& v.get("outbound"@) is Some
            &&& v.get("outbound"@)->0.get("limits"@) is Some
            &&& holds_positive(m, "max_depth"@, l.max_depth)
            &&& holds_positive(m, "max_children_per_parent"@, l.max_children_per_parent)
            &&& holds_positive(m, "max_calls_per_session"@, l.max_calls_per_session)
            &&& holds_positive(m, "max_calls_global"@, l.max_calls_global)
            &&& holds_positive(m, "max_seen_requests"@, l.max_seen_requests)
            &&& holds_positive(m, "max_queued_bytes"@, l.max_queued_bytes)
            &&& holds_positive(m, "max_deadline_ms"@, l.max_deadline_ms)
        }),
{
}

/// The capabilities that an outbound policy requests are those listed under
/// `outbound.request`, each a name, one `@` and a decimal version, in the
/// order of the list. Without the member there is no policy.
pub proof fn requests_are_those_listed(v: JsonV)
    requires
        manifest::declared(v) is Ok,
    ensures
        ({
            let o = manifest::declared(v)->Ok_0.outbound;
            &&& o is Some <==> v.get("outbound"@) is Some
            &&& o matches Some(p) ==> (v.get("outbound"@)->0.get(
                "request"@,
            ) matches Some(JsonV::Array(a)) && {
                &&& p.requested.len() == a.len()
                &&& forall|i: int|
                    0 <= i < a.len() ==> {
                        &&& #[trigger] a[i] is Str
                        &&& p.requested[i] == text::trimmed(a[i]->Str_0)
                        &&& manifest::versioned(p.requested[i])
                    }
            })
        }),
{
    if let Some(o) = v.get("outbound"@) {
        if let Some(JsonV::Array(a)) = o.get("request"@) {
            let cs = manifest::names(a);
            assert forall|i: int| 0 <= i < cs.len() implies manifest::versioned(cs[i]) by {
                all_are_versioned(cs, i);
            }
            assert forall|i: int| 0 <= i < a.len() implies #[trigger] a[i] is Str by {
                assert(a[i].str_of() is Some);
            }
        }
    }
}

proof fn all_are_versioned(cs: Seq<Text>, i: int)
    requires
        manifest::first_unversioned(cs) is None,
        0 <= i < cs.len(),
    ensures
        manifest::versioned(cs[i]),
    decreases cs.len(),
{
    if i < cs.len() - 1 {
        all_are_versioned(cs.drop_last(), i);
    }
}

// ---- call policies ----------------------------------------------------

/// Whether no member after `i` has the name of `ms[i]`.
pub open spec fn last_called(ms: Seq<(Text, JsonV)>, i: int) -> bool {
    &&& 0 <= i < ms.len()
    &&& forall|j: int| i < j < ms.len() ==> (#[trigger] ms[j]).0 != ms[i].0
}

/// The policy of an operation is what its member of `calls` says: whether a
/// withdrawal drains or cancels it, the latter where nothing is said, and for
/// how long it may drain, not at all where nothing is said. Operations that
/// are no member have no policy.
pub proof fn policies_are_read_by_name(v: JsonV, i: int, cap: Text)
    requires
        manifest::declared(v) is Ok,
    ensures
        ({
            let calls = manifest::declared(v)->Ok_0.calls;
            &&& v.get("calls"@) is None ==> calls.dom() == Set::<Text>::empty()
            &&& v.get("calls"@) matches Some(x) ==> (x matches JsonV::Object(ms) && {
                &&& calls.dom().contains(cap) <==> exists|j: int|
                    0 <= j < ms.len() && (#[trigger] ms[j]).0 == cap
                &&& last_called(ms, i) ==> {
                    let p = calls[ms[i].0];
                    &&& ms[i].1.get("drain_ms"@) == Some(JsonV::Unsigned(p.drain_ms))
                        || ms[i].1.get("drain_ms"@) is None && p.drain_ms == 0
                    &&& match ms[i].1.get("on_withdraw"@) {
                        Some(JsonV::Str(s)) => text::lowered(text::trimmed(s)) == match p.on_withdraw {
                            WithdrawPolicy::Drain => "drain"@,
                            WithdrawPolicy::Cancel => "cancel"@,
                        },
                        _ => p.on_withdraw == WithdrawPolicy::Cancel,
                    }
                }
            })
        }),
{
    if let Some(x) = v.get("calls"@) {
        if let JsonV::Object(ms) = x {
            policies_in_turn(ms, i, cap);
        }
    } else {
        assert(manifest::declared(v)->Ok_0.calls.dom() =~= Set::<Text>::empty());
    }
}

proof fn policies_in_turn(ms: Seq<(Text, JsonV)>, i: int, cap: Text)
    requires
        manifest::policies_of(ms) is Ok,
    ensures
        manifest::policies_of(ms)->Ok_0.dom().contains(cap) <==> exists|j: int|
            0 <= j < ms.len() && (#[trigger] ms[j]).0 == cap,
        last_called(ms, i) ==> manifest::policy_of(ms[i].0, ms[i].1) == Ok::<
            crate::calls::CallPolicy,
            Text,
        >(manifest::policies_of(ms)->Ok_0[ms[i].0]),
    decreases ms.len(),
{
    if ms.len() > 0 {
        let a = ms.drop_last();
        policies_in_turn(a, i, cap);
        assert(ms[ms.len() - 1] == ms.last());
        if exists|j: int| 0 <= j < a.len() && (#[trigger] a[j]).0 == cap {
            let j = choose|j: int| 0 <= j < a.len() && (#[trigger] a[j]).0 == cap;
            assert(ms[j].0 == cap);
        }
        if exists|j: int| 0 <= j < ms.len() && (#[trigger] ms[j]).0 == cap {
            let j = choose|j: int| 0 <= j < ms.len() && (#[trigger] ms[j]).0 == cap;
            if j < a.len() {
                assert(a[j].0 == cap);
            }
        }
        if last_called(ms, i) && i < a.len() {
            assert(last_called(a, i)) by {
                assert forall|j: int| i < j < a.len() implies (#[trigger] a[j]).0 != a[i].0 by {
                    assert(ms[j].0 != ms[i].0);
                }
            }
            assert(ms[ms.len() - 1].0 != ms[i].0);
            policies_in_turn(a, i, ms[i].0);
        }
    }
}

// ---- execution --------------------------------------------------------

/// How a definition is executed is what `execution` says: within the process
/// where it is absent or says so, else by the entry point, the arguments and
/// the time that the object gives, five seconds where it gives none.
pub proof fn executions_are_those_declared(v: JsonV)
    requires
        manifest::declared(v) is Ok,
    ensures
        match manifest::declared(v)->Ok_0.execution {
            ExecutionV::InProcess => v.get("execution"@) matches Some(x) ==> {
                let kind = match x {
                    JsonV::Str(s) => Some(s),
                    _ => x.str_at("kind"@),
                };
                &&& x is Str || x is Object
                &&& kind matches Some(s) ==> s == "inprocess"@ || s == "in-process"@
            },
            ExecutionV::External { entrypoint, args, timeout_ms } => {
                let o = v.get("execution"@)->0;
                &&& v.get("execution"@) is Some
                &&& o is Object
                &&& o.get("kind"@) == Some(JsonV::Str("process"@))
                &&& o.get("entrypoint"@) matches Some(JsonV::Str(e)) && text::trimmed(e)
                    == entrypoint && entrypoint.len() > 0
                &&& match o.get("timeout_ms"@) {
                    Some(JsonV::Unsigned(n)) => timeout_ms == n,
                    _ => timeout_ms == 5000,
                }
                &&& 1 <= timeout_ms <= 300_000
                &&& match o.get("args"@) {
                    Some(JsonV::Array(a)) => (forall|i: int| 0 <= i < a.len() ==> #[trigger] a[i]
                        is Str) ==> args.len() == a.len() && forall|i: int|
                        0 <= i < a.len() ==> a[i] == JsonV::Str(#[trigger] args[i]),
                    _ => args.len() == 0,
                }
            },
        },
{
    if let Some(o) = v.get("execution"@) {
        if let Some(JsonV::Array(a)) = o.get("args"@) {
            if forall|i: int| 0 <= i < a.len() ==> #[trigger] a[i] is Str {
                strings_are_kept(a);
            }
        }
    }
}

proof fn strings_are_kept(a: Seq<JsonV>)
    requires
        forall|i: int| 0 <= i < a.len() ==> #[trigger] a[i] is Str,
    ensures
        external::strings_of(a).len() == a.len(),
        forall|i: int| 0 <= i < a.len() ==> a[i] == JsonV::Str(#[trigger] external::strings_of(a)[i]),
    decreases a.len(),
{
    if a.len() > 0 {
        assert(a[a.len() - 1] == a.last());
        assert forall|i: int| 0 <= i < a.drop_last().len() implies #[trigger] a.drop_last()[i]
            is Str by {
            assert(a[i] is Str);
        }
        strings_are_kept(a.drop_last());
        assert forall|i: int| 0 <= i < a.len() implies a[i] == JsonV::Str(
            #[trigger] external::strings_of(a)[i],
        ) by {
            if i < a.len() - 1 {
                assert(a.drop_last()[i] == a[i]);
                assert(external::strings_of(a)[i] == external::strings_of(a.drop_last())[i]);
            }
        }
    }
}

// ---- names and plain members ------------------------------------------

/// Whether `d` is the text of the member `k` of `v`, or `default` where that
/// is no text.
pub open spec fn text_or(v: JsonV, k: Text, default: Text, d: Text) -> bool {
    match v.get(k) {
        Some(JsonV::Str(s)) => d == s,
        _ => d == default,
    }
}

/// The plain members of a definition are those of the manifest, under their
/// own names, or the defaults where it says nothing.
pub proof fn plain_members_are_read_by_name(v: JsonV)
    requires
        manifest::declared(v) is Ok,
    ensures
        ({
            let d = manifest::declared(v)->Ok_0;
            &&& v.get("id"@) == Some(JsonV::Str(d.id))
            &&& text::trimmed(d.id).len() > 0
            &&& text_or(v, "reducer"@, "noop"@, d.reducer)
            &&& text_or(v, "tier"@, "inproc"@, d.tier)
            &&& text_or(v, "trust"@, "trusted"@, d.trust)
            &&& text_or(v, "restart"@, "permanent"@, d.restart)
            &&& match v.get("init_state"@) {
                Some(s) => d.init_state == s,
                None => d.init_state == JsonV::Object(Seq::empty()),
            }
            &&& d.remote <==> v.get("remote"@) == Some(JsonV::Bool(true))
            &&& d.source is None
            &&& match v.get("subscriptions"@) {
                Some(s) => s matches JsonV::Array(a) && d.subs.len() == a.len() && forall|i: int|
                    0 <= i < a.len() ==> (#[trigger] a[i] matches JsonV::Str(t) && d.subs[i]
                        == text::trimmed(t) && d.subs[i].len() > 0),
                None => d.subs.len() == 0,
            }
            &&& d.remote ==> d.requires.len() == 0
        }),
{
    let d = manifest::declared(v)->Ok_0;
    if v.get("id"@) is None || !(v.get("id"@)->0 is Str) {
        assert(d.id =~= Seq::empty());
        text::trimmed_fixed(d.id);
    }
    if let Some(JsonV::Array(a)) = v.get("subscriptions"@) {
        assert forall|i: int| 0 <= i < a.len() implies (#[trigger] a[i] matches JsonV::Str(t)
            && d.subs[i] == text::trimmed(t) && d.subs[i].len() > 0) by {
            assert(a[i].str_of() is Some);
        }
    }
}

// ---- versions ---------------------------------------------------------

/// Trimming takes the white space off both ends, and nothing else.
pub proof fn trimming_is_exact(s: Text) -> (r: (int, int))
    ensures
        0 <= r.0 <= r.1 <= s.len(),
        text::trimmed(s) == s.subrange(r.0, r.1),
        forall|x: int| 0 <= x < r.0 || r.1 <= x < s.len() ==> text::is_white(#[trigger] s[x]),
        r.0 < r.1 ==> !text::is_white(s[r.0]) && !text::is_white(s[r.1 - 1]),
{
    let i = starts_at(s);
    let t = s.skip(i);
    assert(text::trimmed_start(s) == t);
    let n = ends_at(t);
    assert(t.take(n) =~= s.subrange(i, i + n));
    assert forall|x: int| 0 <= x < i || i + n <= x < s.len() implies text::is_white(
        #[trigger] s[x],
    ) by {
        if x >= i + n {
            assert(t[x - i] == s[x]);
        }
    }
    if n > 0 {
        assert(t[0] == s[i]);
        assert(t[n - 1] == s[i + n - 1]);
    }
    (i, i + n)
}

proof fn starts_at(s: Text) -> (i: int)
    ensures
        0 <= i <= s.len(),
        text::trimmed_start(s) == s.skip(i),
        forall|x: int| 0 <= x < i ==> text::is_white(#[trigger] s[x]),
        i < s.len() ==> !text::is_white(s[i]),
    decreases s.len(),
{
    if s.len() > 0 && text::is_white(s[0]) {
        let d = s.drop_first();
        let i = starts_at(d);
        assert(d.skip(i) =~= s.skip(i + 1));
        assert forall|x: int| 0 <= x < i + 1 implies text::is_white(#[trigger] s[x]) by {
            if x > 0 {
                assert(d[x - 1] == s[x]);
            }
        }
        if i < d.len() {
            assert(d[i] == s[i + 1]);
        }
        i + 1
    } else {
        assert(s.skip(0) =~= s);
        0
    }
}

proof fn ends_at(s: Text) -> (n: int)
    ensures
        0 <= n <= s.len(),
        text::trimmed_end(s) == s.take(n),
        forall|x: int| n <= x < s.len() ==> text::is_white(#[trigger] s[x]),
        n > 0 ==> !text::is_white(s[n - 1]),
    decreases s.len(),
{
    if s.len() > 0 && text::is_white(s.last()) {
        let d = s.drop_last();
        let n = ends_at(d);
        assert(d.take(n) =~= s.take(n));
        assert forall|x: int| n <= x < s.len() implies text::is_white(#[trigger] s[x]) by {
            if x < d.len() {
                assert(d[x] == s[x]);
            }
        }
        n
    } else {
        assert(s.take(s.len() as int) =~= s);
        s.len() as int
    }
}

/// The name of a capability with a version is read as the name and the
/// version; a name without one has none.
pub proof fn versions_are_read(base: Text, n: u64)
    requires
        base.len() > 0,
        !text::is_white(base[0]),
    ensures
        deps::split(base + seq!['@'] + text::dec(n as nat)) == (base, Some(n)),
        !base.contains('@') && !text::is_white(base.last()) ==> deps::split(base) == (
            base,
            None::<u64>,
        ),
{
    let d = text::dec(n as nat);
    let s = base + seq!['@'] + d;
    let at = base.len() as int;
    text::parse_of_dec(n);
    assert(s[0] == base[0]);
    assert(s.last() == d[d.len() - 1]);
    assert('0' <= d[d.len() - 1] <= '9');
    text::trimmed_fixed(s);
    assert forall|j: int| at < j < s.len() implies #[trigger] s[j] != '@' by {
        assert(s[j] == d[j - at - 1]);
        assert('0' <= d[j - at - 1] <= '9');
    }
    assert(s[at] == '@');
    text::last_index_is(s, '@', at);
    assert(s.skip(at + 1) =~= d);
    assert(s.take(at) =~= base);
    if !base.contains('@') && !text::is_white(base.last()) {
        text::trimmed_fixed(base);
        text::last_index_is(base, '@', -1);
    }
}

/// A capability satisfies what asks for its name, in its version where one is
/// asked for, and nothing else.
pub proof fn versions_have_to_match(base: Text, n: u64, req: RequirementV)
    requires
        base.len() > 0,
        !text::is_white(base[0]),
    ensures
        deps::satisfies(base + seq!['@'] + text::dec(n as nat), req) <==> req.base == base && (
        req.major is None || req.major == Some(n)),
{
    versions_are_read(base, n);
}

/// Whether `c` spells the name `base` and, where there is one, the version.
pub open spec fn spells(c: Text, base: Text, major: Option<u64>) -> bool {
    match major {
        Some(m) => c == base + seq!['@'] + text::dec(m as nat),
        None => c == base,
    }
}

/// The version that an item of `requires` or `provides` asks for: its own
/// member, or else the one within the name.
pub open spec fn asked_major(x: JsonV, name: Text) -> Option<u64> {
    match x.get("major"@) {
        Some(JsonV::Unsigned(m)) => Some(m),
        _ => deps::split(name).1,
    }
}

/// The requirements of a definition are the items of `requires`, in order:
/// each with the interface that it names, the version that it asks for, and
/// the provider that it is bound to, where it names one.
pub proof fn requirements_are_those_listed(v: JsonV, i: int)
    requires
        manifest::declared(v) is Ok,
    ensures
        ({
            let rs = manifest::declared(v)->Ok_0.requires;
            match v.get("requires"@) {
                None => rs.len() == 0,
                Some(x) => x matches JsonV::Array(a) && rs.len() == a.len() && (0 <= i < a.len()
                    ==> {
                    &&& spells(rs[i].interface, rs[i].base, rs[i].major)
                    &&& rs[i].base.len() > 0
                    &&& match a[i] {
                        JsonV::Str(s) => {
                            &&& rs[i].base == deps::split(s).0
                            &&& rs[i].major == deps::split(s).1
                            &&& rs[i].provider is None
                        },
                        JsonV::Object(_) => {
                            &&& a[i].get("interface"@) matches Some(JsonV::Str(f)) && rs[i].base
                                == deps::split(text::trimmed(f)).0 && rs[i].major == asked_major(
                                a[i],
                                text::trimmed(f),
                            )
                            &&& match a[i].get("provider"@) {
                                Some(JsonV::Str(p)) => if text::trimmed(p).len() > 0 {
                                    rs[i].provider == Some(text::trimmed(p))
                                } else {
                                    rs[i].provider is None
                                },
                                _ => rs[i].provider is None,
                            }
                        },
                        _ => false,
                    }
                }),
            }
        }),
{
    at_sign();
    if let Some(JsonV::Array(a)) = v.get("requires"@) {
        requirements_in_turn(a, i);
        if 0 <= i < a.len() {
            let x = a[i];
            if x.get("interface"@) is None || !(x.get("interface"@)->0 is Str) {
                assert(x.str_at("interface"@) is None);
            }
        }
    }
}

proof fn at_sign()
    ensures
        "@"@ == seq!['@'],
{
    reveal_strlit("@");
    assert("@"@ =~= seq!['@']);
}

proof fn requirements_in_turn(a: Seq<JsonV>, i: int)
    requires
        deps::required_all(a) is Ok,
    ensures
        deps::required_all(a)->Ok_0.len() == a.len(),
        0 <= i < a.len() ==> deps::required(a[i]) == Ok::<RequirementV, Text>(
            deps::required_all(a)->Ok_0[i],
        ),
    decreases a.len(),
{
    if a.len() > 0 {
        requirements_in_turn(a.drop_last(), i);
    }
}

/// What a definition provides is what is listed under `capabilities` and
/// under `provides`, and nothing else.
pub proof fn capabilities_are_those_listed(v: JsonV, cap: Text)
    requires
        manifest::declared(v) is Ok,
    ensures
        manifest::declared(v)->Ok_0.caps.contains(cap) <==> {
            ||| v.get("capabilities"@) matches Some(JsonV::Array(a)) && exists|i: int|
                0 <= i < a.len() && is_named(#[trigger] a[i], cap)
            ||| v.get("provides"@) matches Some(JsonV::Array(a)) && exists|i: int|
                0 <= i < a.len() && provides_as(#[trigger] a[i], cap)
        },
{
    at_sign();
    let a = manifest::name_list(v, "capabilities"@);
    let ns = manifest::names(a);
    let extra = deps::declared_provides(v.get("provides"@))->Ok_0;
    manifest::merged_lists_each_once(Seq::empty(), ns);
    manifest::merged_lists_each_once(manifest::merged(Seq::empty(), ns), extra);
    assert(ns.contains(cap) <==> exists|i: int| 0 <= i < a.len() && is_named(#[trigger] a[i], cap))
        by {
        if ns.contains(cap) {
            let i = choose|i: int| 0 <= i < ns.len() && ns[i] == cap;
            assert(a[i].str_of() is Some);
            assert(is_named(a[i], cap));
        }
        if exists|i: int| 0 <= i < a.len() && is_named(#[trigger] a[i], cap) {
            let i = choose|i: int| 0 <= i < a.len() && is_named(#[trigger] a[i], cap);
            assert(ns[i] == cap);
        }
    }
    if let Some(JsonV::Array(b)) = v.get("provides"@) {
        if extra.contains(cap) {
            let i = choose|i: int| 0 <= i < extra.len() && extra[i] == cap;
            provisions_in_turn(b, i);
            assert(provides_as(b[i], cap));
        }
        if exists|i: int| 0 <= i < b.len() && provides_as(#[trigger] b[i], cap) {
            let i = choose|i: int| 0 <= i < b.len() && provides_as(#[trigger] b[i], cap);
            provisions_in_turn(b, i);
            assert(extra[i] == cap);
        }
    }
}

/// Whether `x` is a text that names `cap`.
pub open spec fn is_named(x: JsonV, cap: Text) -> bool {
    x matches JsonV::Str(s) && text::trimmed(s) == cap
}

/// Whether the item `x` of `provides` provides `cap`.
pub open spec fn provides_as(x: JsonV, cap: Text) -> bool {
    match x {
        JsonV::Str(s) => spells(cap, deps::split(s).0, deps::split(s).1),
        JsonV::Object(_) => x.get("interface"@) matches Some(JsonV::Str(f)) && spells(
            cap,
            deps::split(text::trimmed(f)).0,
            asked_major(x, text::trimmed(f)),
        ),
        _ => false,
    }
}

proof fn provisions_in_turn(a: Seq<JsonV>, i: int)
    requires
        deps::provided_all(a) is Ok,
    ensures
        deps::provided_all(a)->Ok_0.len() == a.len(),
        0 <= i < a.len() ==> deps::provided(a[i]) == Ok::<Text, Text>(
            deps::provided_all(a)->Ok_0[i],
        ),
    decreases a.len(),
{
    if a.len() > 0 {
        provisions_in_turn(a.drop_last(), i);
    }
}

// ---- what is accepted -------------------------------------------------

/// Whether the member `k` is absent, or a list of texts that are not blank.
pub open spec fn lists_names(v: JsonV, k: Text) -> bool {
    match v.get(k) {
        None => true,
        Some(JsonV::Array(a)) => forall|i: int|
            0 <= i < a.len() ==> (#[trigger] a[i] matches JsonV::Str(s) && text::trimmed(s).len()
                > 0),
        Some(_) => false,
    }
}

/// Whether `x` names an interface, as a text or as an object.
pub open spec fn names_interface(x: JsonV, base_needed: bool) -> bool {
    match x {
        JsonV::Str(s) => text::trimmed(s).len() > 0 && (base_needed ==> deps::split(s).0.len() > 0),
        JsonV::Object(_) => x.get("interface"@) matches Some(JsonV::Str(f)) && text::trimmed(
            f,
        ).len() > 0 && deps::split(text::trimmed(f)).0.len() > 0,
        _ => false,
    }
}

/// Whether the member `k` is absent, or a list of interfaces.
pub open spec fn lists_interfaces(v: JsonV, k: Text, base_needed: bool) -> bool {
    match v.get(k) {
        None => true,
        Some(JsonV::Array(a)) => forall|i: int|
            0 <= i < a.len() ==> names_interface(#[trigger] a[i], base_needed),
        Some(_) => false,
    }
}

/// Whether a member of `calls` is a policy.
pub open spec fn is_policy(cap: Text, x: JsonV) -> bool {
    &&& text::trimmed(cap).len() > 0
    &&& x.get("on_withdraw"@) matches Some(JsonV::Str(s)) ==> {
        let t = text::lowered(text::trimmed(s));
        t == "drain"@ || t == "cancel"@
    }
    &&& x.get("drain_ms"@) matches Some(n) ==> n is Unsigned
}

pub open spec fn has_policies(v: JsonV) -> bool {
    match v.get("calls"@) {
        None => true,
        Some(JsonV::Object(ms)) => forall|i: int|
            0 <= i < ms.len() ==> is_policy((#[trigger] ms[i]).0, ms[i].1),
        Some(_) => false,
    }
}

/// Whether `execution` is absent or says how to execute.
pub open spec fn is_executable(v: JsonV) -> bool {
    match v.get("execution"@) {
        None => true,
        Some(x) => {
            let kind = match x {
                JsonV::Str(s) => Some(s),
                _ => x.str_at("kind"@),
            };
            &&& x is Str || x is Object
            &&& {
                ||| kind is None
                ||| kind == Some("inprocess"@)
                ||| kind == Some("in-process"@)
                ||| {
                    &&& kind == Some("process"@)
                    &&& x is Object
                    &&& x.get("entrypoint"@) matches Some(JsonV::Str(e)) && text::trimmed(e).len()
                        > 0
                    &&& x.get("timeout_ms"@) matches Some(JsonV::Unsigned(n)) ==> 1 <= n
                        <= 300_000
                }
            }
        },
    }
}

/// Whether the member `k` is a positive number.
pub open spec fn has_positive(m: JsonV, k: Text) -> bool {
    m.get(k) matches Some(JsonV::Unsigned(n)) && n > 0
}

/// Whether `outbound` is absent or a policy with all of its limits.
pub open spec fn has_outbound(v: JsonV) -> bool {
    match v.get("outbound"@) {
        None => true,
        Some(o) => {
            &&& o is Object
            &&& o.get("request"@) matches Some(JsonV::Array(a)) && forall|i: int|
                0 <= i < a.len() ==> (#[trigger] a[i] matches JsonV::Str(s) && text::trimmed(
                    s,
                ).len() > 0 && manifest::versioned(text::trimmed(s)))
            &&& o.get("limits"@) matches Some(m) && m is Object && {
                &&& has_positive(m, "max_depth"@)
                &&& has_positive(m, "max_children_per_parent"@)
                &&& has_positive(m, "max_calls_per_session"@)
                &&& has_positive(m, "max_calls_global"@)
                &&& has_positive(m, "max_seen_requests"@)
                &&& has_positive(m, "max_queued_bytes"@)
                &&& has_positive(m, "max_deadline_ms"@)
            }
        },
    }
}

/// A manifest is accepted if and only if it has an id, lists names and
/// interfaces where it lists some, has policies, an execution and limits that
/// are well formed, and requires nothing where it is for another host.
pub proof fn well_formed_manifests_are_accepted(v: JsonV)
    ensures
        manifest::declared(v) is Ok <==> {
            &&& v.get("id"@) matches Some(JsonV::Str(s)) && text::trimmed(s).len() > 0
            &&& lists_names(v, "capabilities"@)
            &&& lists_names(v, "subscriptions"@)
            &&& lists_interfaces(v, "provides"@, false)
            &&& lists_interfaces(v, "requires"@, true)
            &&& has_policies(v)
            &&& is_executable(v)
            &&& has_outbound(v)
            &&& v.get("remote"@) == Some(JsonV::Bool(true)) ==> !(v.get(
                "requires"@,
            ) matches Some(JsonV::Array(a)) && a.len() > 0)
        },
{
    assert(text::trimmed(Seq::<char>::empty()) == Seq::<char>::empty()) by {
        text::trimmed_fixed(Seq::<char>::empty());
    }
    names_are_listed(v, "capabilities"@);
    names_are_listed(v, "subscriptions"@);
    interfaces_are_listed(v);
    policies_are_listed(v);
    outbound_is_listed(v);
    assert(is_executable(v) <==> external::declared_execution(v.get("execution"@)) is Ok);
}

proof fn names_are_listed(v: JsonV, k: Text)
    ensures
        lists_names(v, k) <==> !manifest::not_a_list(v, k) && manifest::all_named(
            manifest::name_list(v, k),
        ),
{
    if let Some(JsonV::Array(a)) = v.get(k) {
        if manifest::all_named(a) {
            assert forall|i: int| 0 <= i < a.len() implies (#[trigger] a[i] matches JsonV::Str(s)
                && text::trimmed(s).len() > 0) by {
                assert(a[i].str_of() is Some);
            }
        }
    }
}

proof fn interfaces_are_listed(v: JsonV)
    ensures
        lists_interfaces(v, "provides"@, false) <==> deps::declared_provides(v.get("provides"@))
            is Ok,
        lists_interfaces(v, "requires"@, true) <==> deps::declared_requires(v.get("requires"@))
            is Ok,
{
    if let Some(JsonV::Array(a)) = v.get("provides"@) {
        all_provide(a);
    }
    if let Some(JsonV::Array(a)) = v.get("requires"@) {
        all_require(a);
    }
}

proof fn all_provide(a: Seq<JsonV>)
    ensures
        deps::provided_all(a) is Ok <==> forall|i: int|
            0 <= i < a.len() ==> names_interface(#[trigger] a[i], false),
    decreases a.len(),
{
    if a.len() > 0 {
        let b = a.drop_last();
        all_provide(b);
        assert(a[a.len() - 1] == a.last());
        assert(deps::provided(a.last()) is Ok <==> names_interface(a.last(), false));
        if forall|i: int| 0 <= i < a.len() ==> names_interface(#[trigger] a[i], false) {
            assert forall|i: int| 0 <= i < b.len() implies names_interface(#[trigger] b[i], false) by {
                assert(b[i] == a[i]);
            }
        }
        if deps::provided_all(a) is Ok {
            assert forall|i: int| 0 <= i < a.len() implies names_interface(#[trigger] a[i], false) by {
                if i < b.len() {
                    assert(b[i] == a[i]);
                }
            }
        }
    }
}

proof fn all_require(a: Seq<JsonV>)
    ensures
        deps::required_all(a) is Ok <==> forall|i: int|
            0 <= i < a.len() ==> names_interface(#[trigger] a[i], true),
    decreases a.len(),
{
    if a.len() > 0 {
        let b = a.drop_last();
        all_require(b);
        assert(a[a.len() - 1] == a.last());
        assert(deps::required(a.last()) is Ok <==> names_interface(a.last(), true));
        if forall|i: int| 0 <= i < a.len() ==> names_interface(#[trigger] a[i], true) {
            assert forall|i: int| 0 <= i < b.len() implies names_interface(#[trigger] b[i], true) by {
                assert(b[i] == a[i]);
            }
        }
        if deps::required_all(a) is Ok {
            assert forall|i: int| 0 <= i < a.len() implies names_interface(#[trigger] a[i], true) by {
                if i < b.len() {
                    assert(b[i] == a[i]);
                }
            }
        }
    }
}

proof fn policies_are_listed(v: JsonV)
    ensures
        has_policies(v) <==> manifest::declared_calls(v.get("calls"@)) is Ok,
{
    if let Some(JsonV::Object(ms)) = v.get("calls"@) {
        all_are_policies(ms);
    }
}

proof fn all_are_policies(ms: Seq<(Text, JsonV)>)
    ensures
        manifest::policies_of(ms) is Ok <==> forall|i: int|
            0 <= i < ms.len() ==> is_policy((#[trigger] ms[i]).0, ms[i].1),
    decreases ms.len(),
{
    if ms.len() > 0 {
        let b = ms.drop_last();
        all_are_policies(b);
        assert(ms[ms.len() - 1] == ms.last());
        assert(manifest::policy_of(ms.last().0, ms.last().1) is Ok <==> is_policy(
            ms.last().0,
            ms.last().1,
        ));
        if forall|i: int| 0 <= i < ms.len() ==> is_policy((#[trigger] ms[i]).0, ms[i].1) {
            assert forall|i: int| 0 <= i < b.len() implies is_policy(
                (#[trigger] b[i]).0,
                b[i].1,
            ) by {
                assert(b[i] == ms[i]);
            }
        }
        if manifest::policies_of(ms) is Ok {
            assert forall|i: int| 0 <= i < ms.len() implies is_policy(
                (#[trigger] ms[i]).0,
                ms[i].1,
            ) by {
                if i < b.len() {
                    assert(b[i] == ms[i]);
                }
            }
        }
    }
}

proof fn outbound_is_listed(v: JsonV)
    ensures
        has_outbound(v) <==> manifest::declared_outbound(v.get("outbound"@)) is Ok,
{
    if let Some(o) = v.get("outbound"@) {
        if let Some(JsonV::Array(a)) = o.get("request"@) {
            let cs = manifest::names(a);
            if manifest::all_named(a) {
                if manifest::first_unversioned(cs) is None {
                    assert forall|i: int| 0 <= i < a.len() implies (
                    #[trigger] a[i] matches JsonV::Str(s) && text::trimmed(s).len() > 0
                        && manifest::versioned(text::trimmed(s))) by {
                        assert(a[i].str_of() is Some);
                        all_are_versioned(cs, i);
                    }
                } else {
                    let i = one_is_unversioned(cs);
                    assert(a[i].str_of() is Some);
                }
            }
        }
    }
}

proof fn one_is_unversioned(cs: Seq<Text>) -> (i: int)
    requires
        manifest::first_unversioned(cs) is Some,
    ensures
        0 <= i < cs.len(),
        !manifest::versioned(cs[i]),
    decreases cs.len(),
{
    if manifest::first_unversioned(cs.drop_last()) is Some {
        one_is_unversioned(cs.drop_last())
    } else {
        cs.len() - 1
    }
}

} // verus!
