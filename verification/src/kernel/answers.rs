//! What invocations are answered, and what events, faults and replays do to
//! the state of a plugin.

use vstd::prelude::*;
use crate::context::ContextV;
use crate::declarations;
use crate::external::ExecutionV;
use crate::fsm::Fsm;
use crate::identity::InstanceRefV;
use crate::json;
use crate::json::JsonV;
use crate::kernel::dispatch;
use crate::kernel::dispatch::InvocationV;
use crate::kernel::outcomes;
use crate::kernel::tickets;
use crate::kernel::KernelV;
use crate::text::Text;
use crate::time::Instant;

verus! {

/// Whether `v` holds the number `n` under `k`.
pub open spec fn counts(v: JsonV, k: Text, n: int) -> bool {
    match v.get(k) {
        Some(JsonV::Unsigned(m)) => m == n,
        Some(JsonV::Negative(m)) => m == n,
        _ => false,
    }
}

/// The count that the state holds under `k`; none counts as nothing.
pub open spec fn counted(v: JsonV, k: Text) -> int {
    match v.get(k) {
        Some(JsonV::Unsigned(m)) => if m <= i64::MAX {
            m as int
        } else {
            0
        },
        Some(JsonV::Negative(m)) => m as int,
        _ => 0,
    }
}

/// Whether `v` is what the reducer answers to `input` in `state`.
pub open spec fn answers(reducer: Text, input: JsonV, state: JsonV, v: JsonV) -> bool {
    &&& reducer == "echo"@ ==> v == JsonV::Object(seq![("echo"@, input)])
    &&& reducer == "ancient"@ ==> v == JsonV::Object(seq![("out"@, JsonV::Unsigned(42))])
    &&& reducer == "noop"@ ==> v == JsonV::Object(seq![("ok"@, JsonV::Bool(true))])
    &&& reducer == "model"@ ==> v.get("in"@) == Some(input) && v.get("text"@) == Some(
        JsonV::Str("canned-response"@),
    )
    &&& reducer == "counter"@ ==> counts(v, "state"@, counted(state, "state"@))
    &&& reducer == "clock"@ ==> counts(v, "count"@, counted(state, "count"@))
}

/// Whether the library knows the reducer.
pub open spec fn is_known(reducer: Text) -> bool {
    ||| reducer == "echo"@
    ||| reducer == "ancient"@
    ||| reducer == "noop"@
    ||| reducer == "model"@
    ||| reducer == "counter"@
    ||| reducer == "clock"@
}

pub(crate) proof fn reducers_differ()
    ensures
        "echo"@.len() == 4,
        "ancient"@.len() == 7,
        "counter"@.len() == 7,
        "clock"@.len() == 5,
        "model"@.len() == 5,
        "noop"@.len() == 4,
        "crasher"@.len() == 7,
        "echo"@[0] == 'e',
        "noop"@[0] == 'n',
        "clock"@[0] == 'c',
        "model"@[0] == 'm',
        "ancient"@[0] == 'a',
        "counter"@[0] == 'c',
        "counter"@[1] == 'o',
        "crasher"@[0] == 'c',
        "crasher"@[1] == 'r',
{
    reveal_strlit("echo");
    reveal_strlit("ancient");
    reveal_strlit("counter");
    reveal_strlit("clock");
    reveal_strlit("model");
    reveal_strlit("noop");
    reveal_strlit("crasher");
}

/// The object with one member.
proof fn single(k: Text, v: JsonV)
    ensures
        JsonV::object().with(k, v) == JsonV::Object(seq![(k, v)]),
        json::ordered_members(seq![(k, v)]),
        JsonV::object().with(k, v).get(k) == Some(v),
{
    let e = Seq::<(Text, JsonV)>::empty();
    assert(json::place(e, k) == 0);
    assert(e.insert(0, (k, v)) =~= seq![(k, v)]);
    json::with_keeps_order(e, k, v);
}

/// A reducer that is known answers, each in its own way; others do not.
pub proof fn reducers_answer(reducer: Text, input: JsonV, state: JsonV)
    ensures
        match dispatch::reduced(reducer, input, state) {
            Some(v) => is_known(reducer) && answers(reducer, input, state, v),
            None => !is_known(reducer),
        },
{
    reducers_differ();
    single("echo"@, input);
    single("out"@, json::jnum(42));
    single("ok"@, JsonV::Bool(true));
    single("state"@, json::signed(dispatch::count_at(state, "state"@)));
    single("count"@, json::signed(dispatch::count_at(state, "count"@)));
    let canned = json::jstr("canned-response"@);
    single("text"@, canned);
    reveal_strlit("in");
    reveal_strlit("text");
    assert("in"@.len() != "text"@.len());
    declarations::written_members_are_read(seq![("text"@, canned)], "in"@, input, "text"@);
    assert(counted(state, "state"@) == dispatch::count_at(state, "state"@));
    assert(counted(state, "count"@) == dispatch::count_at(state, "count"@));
}

/// Whether the entry of `c` is that of this very activation.
pub open spec fn has_entry(k: KernelV, c: ContextV) -> bool {
    &&& k.plugins.dom().contains(c.logical)
    &&& k.plugins[c.logical].instance_id == c.instance.0
    &&& k.plugins[c.logical].generation == c.generation
}

/// Whether `e` asks for the activation `c`.
pub open spec fn asks_for(k: KernelV, e: InstanceRefV, c: ContextV) -> bool {
    &&& e.logical == c.logical
    &&& e.instance == c.instance.0
    &&& e.context == c.context.0
    &&& e.generation == c.generation
    &&& e.epoch == k.contexts.epoch
}

/// What an invocation of a capability gives, where there is room and an
/// activation takes its calls. A call for another activation is stale. An
/// external plugin gets the call; without a host the call fails. A reducer
/// within the process answers, an unknown one is missing, and the one that
/// crashes is contained.
pub proof fn invocations_are_answered(
    k: KernelV,
    cap: Text,
    input: JsonV,
    expected: Option<InstanceRefV>,
    now: Instant,
    c: ContextV,
)
    requires
        k.contexts.wf(),
        outcomes::takes_calls(k, cap, c),
        has_entry(k, c),
        k.calls.tickets.dom().len() < 256,
    ensures
        ({
            let i = k.invoke(cap, input, expected, now).1;
            let p = k.plugins[c.logical];
            let a = i->Answered_0;
            if expected matches Some(e) && !asks_for(k, e, c) {
                i is Answered && !a.ok && a.value.get("code"@) == Some(
                    JsonV::Str("stale-generation"@),
                )
            } else {
                match p.execution {
                    ExecutionV::External { .. } => if k.forwarder {
                        i is Forward
                    } else {
                        i is Answered && !a.ok && a.value.get("code"@) == Some(
                            JsonV::Str("internal"@),
                        )
                    },
                    ExecutionV::InProcess => {
                        &&& i is Answered
                        &&& a.ok <==> is_known(p.reducer)
                        &&& a.ok ==> answers(p.reducer, input, p.json_state, a.value)
                        &&& !a.ok ==> a.value.get("code"@) == Some(
                            JsonV::Str(
                                if p.reducer == "crasher"@ {
                                    "plugin-panicked"@
                                } else {
                                    "reducer-missing"@
                                },
                            ),
                        )
                    },
                }
            }
        }),
{
    outcomes::admission_is_owed(k, cap, c);
    let p = k.plugins[c.logical];
    reducers_differ();
    reducers_answer(p.reducer, input, p.json_state);
    single("code"@, json::jstr("stale-generation"@));
    outcomes::failures_have_codes("external plugin without host"@, "internal"@);
    outcomes::failures_have_codes("unknown reducer"@, "reducer-missing"@);
    outcomes::failures_have_codes("injected fault"@, "plugin-panicked"@);
    let t = k.ticket_for(cap, c, k.policy_for(c.logical, cap), Seq::empty(), now);
    let k1 = k.with_calls(k.calls.issue(t));
    assert(k1.plugin(c.logical) == Some(p));
    let mode = match input.str_at("mode"@) {
        Some(m) => m,
        None => "panic"@,
    };
    let info = k1.settle(t.id).0.fault(c.logical, mode, now).1;
    panics_have_codes(info);
    if let Some(e) = expected {
        let held = InstanceRefV {
            epoch: k.contexts.epoch,
            instance: c.instance.0,
            context: c.context.0,
            logical: c.logical,
            generation: c.generation,
        };
        assert(e == held <==> asks_for(k, e, c));
    }
}

proof fn panics_have_codes(info: JsonV)
    ensures
        tickets::failure("injected fault"@, "plugin-panicked"@).with("fault"@, info).get("code"@)
            == Some(JsonV::Str("plugin-panicked"@)),
{
    reveal_strlit("error");
    reveal_strlit("code");
    reveal_strlit("fault");
    assert("fault"@[0] == 'f' && "code"@[0] == 'c' && "error"@[0] == 'e');
    let e = JsonV::Str("injected fault"@);
    let c = JsonV::Str("plugin-panicked"@);
    single("error"@, e);
    let ms = seq![("error"@, e)];
    json::with_keeps_order(ms, "code"@, c);
    let ms2 = JsonV::Object(ms).with("code"@, c)->Object_0;
    declarations::written_members_are_read(ms2, "fault"@, info, "code"@);
}

/// A call that finds no room, or a capability that nothing takes calls of, is
/// refused and changes nothing.
pub proof fn refusals_change_nothing(
    k: KernelV,
    cap: Text,
    input: JsonV,
    expected: Option<InstanceRefV>,
    now: Instant,
)
    requires
        k.contexts.wf(),
        k.calls.tickets.dom().len() >= 256 || forall|c: ContextV| !#[trigger] outcomes::takes_calls(
            k,
            cap,
            c,
        ),
    ensures
        k.invoke(cap, input, expected, now).0 == k,
        k.invoke(cap, input, expected, now).1 matches InvocationV::Answered(a) && !a.ok,
{
    if k.calls.tickets.dom().len() < 256 {
        if let Ok(c) = k.admission(cap) {
            outcomes::admission_is_owed(k, cap, c);
        }
    }
}

// ---- faults -----------------------------------------------------------

/// How many of the faults are less than ten seconds ago.
pub open spec fn recent_faults(ts: Seq<Instant>, now: Instant) -> nat
    decreases ts.len(),
{
    if ts.len() == 0 {
        0
    } else {
        recent_faults(ts.drop_last(), now) + if now.nanos < ts.last().nanos + 10_000_000_000 {
            1nat
        } else {
            0nat
        }
    }
}

proof fn recent_are_counted(ts: Seq<Instant>, now: Instant)
    ensures
        dispatch::recent(ts, now).len() == recent_faults(ts, now),
    decreases ts.len(),
{
    if ts.len() > 0 {
        recent_are_counted(ts.drop_last(), now);
        let t = ts.last();
        assert(now.ms_since(t) < 10_000 <==> now.nanos < t.nanos + 10_000_000_000) by {
            if now.nanos > t.nanos {
                let d = now.nanos - t.nanos;
                assert(d / 1_000_000 < 10_000 <==> d < 10_000_000_000) by (nonlinear_arith)
                    requires
                        d >= 0,
                ;
            }
        }
    }
}

/// A fault is contained: it is counted, and the plugin goes on. The sixth
/// within ten seconds fails it, entry and instance. Others are not touched.
pub proof fn faults_are_contained(k: KernelV, fiber: Text, mode: Text, now: Instant, other: Text)
    requires
        k.plugins.dom().contains(fiber),
        other != fiber,
    ensures
        ({
            let k2 = k.fault(fiber, mode, now).0;
            let p = k.plugins[fiber];
            let q = k2.plugins[fiber];
            let failed = recent_faults(p.restart_times, now) >= 5;
            &&& k2.plugins.dom() == k.plugins.dom()
            &&& q.state == if failed {
                Fsm::Failed
            } else {
                p.state
            }
            &&& q.restart_times.len() == recent_faults(p.restart_times, now) + 1
            &&& q.restart_times.last() == now
            &&& p.panic_count < u32::MAX ==> q.panic_count == p.panic_count + 1
            &&& q.json_state == p.json_state && q.bindings == p.bindings
            &&& k.plugins.dom().contains(other) ==> k2.plugins[other] == k.plugins[other]
            &&& !failed ==> k2.contexts == k.contexts
            &&& failed && k.contexts.wf() ==> (k.contexts.current_of(fiber) matches Some(c) ==> (
            k2.contexts.current_of(fiber) matches Some(d) && d.state == Fsm::Failed && d.instance
                == c.instance))
            &&& k2.calls == k.calls && k2.caps == k.caps && k2.resources == k.resources
        }),
{
    let p = k.plugins[fiber];
    recent_are_counted(p.restart_times, now);
    let k2 = k.fault(fiber, mode, now).0;
    assert(k2.plugins.dom() =~= k.plugins.dom());
    if let Some(c) = k.contexts.current_of(fiber) {
        if k.contexts.wf() {
            assert(k.contexts.records[k.contexts.current[fiber] - 1].instance.0
                == k.contexts.current[fiber]);
        }
    }
}

// ---- events -----------------------------------------------------------

/// What an event on the topic makes of the state of an active plugin: a tick
/// counts one up, from nothing where no count is held; other topics and other
/// reducers leave the state.
pub proof fn ticks_count(reducer: Text, topic: Text, state: JsonV)
    ensures
        ({
            let v = dispatch::ticked(reducer, topic, state);
            &&& topic != "sys.tick"@ ==> v == state
            &&& reducer != "counter"@ && reducer != "clock"@ ==> v == state
            &&& topic == "sys.tick"@ && reducer == "counter"@ && counted(state, "state"@)
                < i64::MAX ==> counts(v, "state"@, counted(state, "state"@) + 1)
            &&& topic == "sys.tick"@ && reducer == "clock"@ && counted(state, "count"@)
                < i64::MAX ==> counts(v, "count"@, counted(state, "count"@) + 1)
        }),
{
    reducers_differ();
    assert(counted(state, "state"@) == dispatch::count_at(state, "state"@));
    assert(counted(state, "count"@) == dispatch::count_at(state, "count"@));
    single(
        "state"@,
        json::signed(dispatch::count_up(dispatch::count_at(state, "state"@))),
    );
    single(
        "count"@,
        json::signed(dispatch::count_up(dispatch::count_at(state, "count"@))),
    );
}

} // verus!
