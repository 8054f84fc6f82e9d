//! Invocation, events, replay and the return to a clean bench.

use vstd::prelude::*;
use vstd::string::*;
use crate::bus;
use crate::calls::{TicketId, TicketV, MAX_INFLIGHT_CALLS};
use crate::external::{ExecutionKind, ExecutionV, ForwardOutcome, ForwardOutcomeV, ForwardRequest, ForwardRequestV};
use crate::fsm::Fsm;
use crate::identity::{InstanceId, InstanceRef, InstanceRefV, ResourceHandle};
use crate::journal::{Entry, EntryV};
use crate::json;
use crate::json::{Json, JsonV};
use crate::kernel::jobs::{Conclusion, ConclusionV, Job, JobV, StageV};
use crate::kernel::tickets;
use crate::kernel::{Kernel, KernelV, Plugin, PluginV};
use crate::resources;
use crate::resources::{ResourceKind, ResourceKindV, ResourceRecord, ResourceV};
use crate::text;
use crate::text::Text;
use crate::time::Instant;

verus! {

/// The answer to an invocation, and what is left to do after it.
pub struct Answer {
    pub value: Json,
    pub ok: bool,
    pub job: Option<Job>,
}

pub struct AnswerV {
    pub value: JsonV,
    pub ok: bool,
    pub job: Option<JobV>,
}

impl View for Answer {
    type V = AnswerV;

    open spec fn view(&self) -> AnswerV {
        AnswerV { value: self.value@, ok: self.ok, job: self.job.deep_view() }
    }
}

/// An invocation: answered, or to be delivered to an external plugin, whose
/// reply [`Kernel::forwarded`] takes.
pub enum Invocation {
    Answered(Answer),
    Forward(ForwardRequest),
}

pub enum InvocationV {
    Answered(AnswerV),
    Forward(ForwardRequestV),
}

impl View for Invocation {
    type V = InvocationV;

    open spec fn view(&self) -> InvocationV {
        match self {
            Invocation::Answered(a) => InvocationV::Answered(a@),
            Invocation::Forward(r) => InvocationV::Forward(r@),
        }
    }
}

/// The answer of a reducer; none for an unknown one.
pub open spec fn reduced(reducer: Text, input: JsonV, state: JsonV) -> Option<JsonV> {
    if reducer == "echo"@ {
        Some(JsonV::object().with("echo"@, input))
    } else if reducer == "ancient"@ {
        Some(JsonV::object().with("out"@, json::jnum(42)))
    } else if reducer == "counter"@ {
        Some(JsonV::object().with("state"@, json::signed(count_at(state, "state"@))))
    } else if reducer == "clock"@ {
        Some(JsonV::object().with("count"@, json::signed(count_at(state, "count"@))))
    } else if reducer == "model"@ {
        Some(
            JsonV::object().with("text"@, json::jstr("canned-response"@)).with("in"@, input),
        )
    } else if reducer == "noop"@ {
        Some(JsonV::object().with("ok"@, JsonV::Bool(true)))
    } else {
        None
    }
}

/// The count that a state holds.
pub open spec fn count_at(state: JsonV, k: Text) -> i64 {
    match state.i64_at(k) {
        Some(n) => n,
        None => 0,
    }
}

/// The count after one more; it starts over after the last one.
pub open spec fn count_up(n: i64) -> i64 {
    if n < i64::MAX {
        (n + 1) as i64
    } else {
        i64::MIN
    }
}

fn read_count(state: &Json, k: &str) -> (r: i64)
    ensures
        r == count_at(state@, k@),
{
    match state.i64_at(k) {
        Some(n) => n,
        None => 0,
    }
}

fn step_count(n: i64) -> (r: i64)
    ensures
        r == count_up(n),
{
    if n < i64::MAX {
        n + 1
    } else {
        i64::MIN
    }
}

fn reduce(reducer: &str, input: &Json, state: &Json) -> (r: Option<Json>)
    ensures
        r.deep_view() == reduced(reducer@, input@, state@),
{
    if text::same(reducer, "echo") {
        Some(Json::object().with("echo", input.copy()))
    } else if text::same(reducer, "ancient") {
        Some(Json::object().with("out", Json::num(42)))
    } else if text::same(reducer, "counter") {
        Some(Json::object().with("state", Json::signed(read_count(state, "state"))))
    } else if text::same(reducer, "clock") {
        Some(Json::object().with("count", Json::signed(read_count(state, "count"))))
    } else if text::same(reducer, "model") {
        Some(
            Json::object().with("text", Json::str("canned-response")).with("in", input.copy()),
        )
    } else if text::same(reducer, "noop") {
        Some(Json::object().with("ok", Json::flag(true)))
    } else {
        None
    }
}

/// The state of a reducer after an event on `topic`.
pub open spec fn ticked(reducer: Text, topic: Text, state: JsonV) -> JsonV {
    if topic != "sys.tick"@ {
        state
    } else if reducer == "counter"@ {
        JsonV::object().with("state"@, json::signed(count_up(count_at(state, "state"@))))
    } else if reducer == "clock"@ {
        JsonV::object().with("count"@, json::signed(count_up(count_at(state, "count"@))))
    } else {
        state
    }
}

fn tick(reducer: &str, topic: &str, state: &Json) -> (r: Json)
    ensures
        r@ == ticked(reducer@, topic@, state@),
{
    if !text::same(topic, "sys.tick") {
        state.copy()
    } else if text::same(reducer, "counter") {
        Json::object().with("state", Json::signed(step_count(read_count(state, "state"))))
    } else if text::same(reducer, "clock") {
        Json::object().with("count", Json::signed(step_count(read_count(state, "count"))))
    } else {
        state.copy()
    }
}

/// The faults within the last ten seconds.
pub open spec fn recent(ts: Seq<Instant>, now: Instant) -> Seq<Instant>
    decreases ts.len(),
{
    if ts.len() == 0 {
        Seq::empty()
    } else if now.ms_since(ts.last()) < 10_000 {
        recent(ts.drop_last(), now).push(ts.last())
    } else {
        recent(ts.drop_last(), now)
    }
}

fn recent_times(ts: &Vec<Instant>, now: Instant) -> (r: Vec<Instant>)
    ensures
        r@ == recent(ts@, now),
{
    let mut out: Vec<Instant> = Vec::new();
    let mut i: usize = 0;
    proof {
        assert(ts@.take(0) =~= Seq::<Instant>::empty());
    }
    while i < ts.len()
        invariant
            i <= ts.len(),
            out@ == recent(ts@.take(i as int), now),
        decreases ts.len() - i,
    {
        proof {
            assert(ts@.take(i + 1).drop_last() =~= ts@.take(i as int));
        }
        if now.millis_since(ts[i]) < 10_000 {
            out.push(ts[i]);
        }
        i += 1;
    }
    proof {
        assert(ts@.take(ts@.len() as int) =~= ts@);
    }
    out
}

/// The code for a plugin that cannot take a call, by the state of its entry.
pub open spec fn refusal(p: Option<PluginV>) -> Text {
    match p {
        Some(p) => match p.state.canon() {
            Fsm::Failed | Fsm::Disposed => "plugin-not-active"@,
            Fsm::Quiescing | Fsm::CleanupPending => "context-not-active"@,
            Fsm::Waiting | Fsm::Preparing | Fsm::Registered => "dependency-unavailable"@,
            _ => "plugin-not-loaded"@,
        },
        None => "plugin-not-loaded"@,
    }
}

/// The journal's record of an invocation.
pub open spec fn invoked(fiber: Text, cap: Text, input: JsonV) -> ConclusionV {
    ConclusionV::Note {
        fiber,
        kind: "cap.invoke"@,
        args: JsonV::object().with("cap"@, json::jstr(cap)).with("input"@, input),
    }
}

/// The journal's record of a reply that came too late.
pub open spec fn late_reply(req: ForwardRequestV) -> ConclusionV {
    ConclusionV::Note {
        fiber: req.logical,
        kind: "call.rejected"@,
        args: JsonV::object().with("ticket"@, json::jnum(req.ticket.0)).with(
            "reason"@,
            json::jstr("revoked-during-forward"@),
        ).with("cap"@, json::jstr(req.cap)),
    }
}

impl KernelV {
    /// A contained fault: the sixth within ten seconds fails the plugin.
    pub open spec fn fault(self, fiber: Text, mode: Text, now: Instant) -> (KernelV, JsonV) {
        let (k, failed) = match self.plugin(fiber) {
            Some(p) => {
                let times = recent(p.restart_times, now).push(now);
                let failed = times.len() > 5;
                (
                    self.with_plugin(
                        fiber,
                        PluginV {
                            restart_times: times,
                            panic_count: if p.panic_count < u32::MAX {
                                (p.panic_count + 1) as u32
                            } else {
                                0
                            },
                            state: if failed {
                                Fsm::Failed
                            } else {
                                p.state
                            },
                            ..p
                        },
                    ),
                    failed,
                )
            },
            None => (self, false),
        };
        let k2 = match k.contexts.current_of(fiber) {
            Some(cur) if failed => k.with_contexts(
                k.contexts.put(
                    cur.instance.0,
                    Fsm::Failed,
                    Some("fault budget exceeded ("@ + mode + ")"@),
                ),
            ),
            _ => k,
        };
        let info = JsonV::object().with("mode"@, json::jstr(mode)).with(
            "contained"@,
            JsonV::Bool(true),
        ).with("failed"@, JsonV::Bool(failed));
        (k2.log(fiber, "sys.fault"@, info), info)
    }

    /// A ticket ended with an answer.
    pub open spec fn answer(self, id: TicketId, c: ConclusionV, value: JsonV, ok: bool) -> (
        KernelV,
        InvocationV,
    ) {
        let (k, settled) = self.settle(id);
        let (k2, job) = k.after_settling(settled, c);
        (k2, InvocationV::Answered(AnswerV { value, ok, job }))
    }

    /// An admitted invocation dispatched, under the ticket `t`.
    pub open spec fn dispatch(self, t: TicketV, input: JsonV, now: Instant) -> (
        KernelV,
        InvocationV,
    ) {
        match self.plugin(t.logical) {
            Some(p) if p.state.canon() == Fsm::Active && p.instance_id == t.instance.0
                && p.generation == t.generation => match p.execution {
                ExecutionV::External { timeout_ms, .. } => if self.forwarder {
                    (
                        self,
                        InvocationV::Forward(
                            ForwardRequestV {
                                ticket: t.id,
                                cap: t.cap,
                                input,
                                logical: t.logical,
                                instance: t.instance,
                                generation: t.generation,
                                timeout_ms,
                            },
                        ),
                    )
                } else {
                    self.answer(
                        t.id,
                        ConclusionV::Nothing,
                        tickets::failure("external plugin without host"@, "internal"@),
                        false,
                    )
                },
                ExecutionV::InProcess => if p.reducer == "crasher"@ {
                    let (k, settled) = self.settle(t.id);
                    let mode = match input.str_at("mode"@) {
                        Some(m) => m,
                        None => "panic"@,
                    };
                    let (k2, info) = k.fault(t.logical, mode, now);
                    let (k3, job) = k2.after_settling(settled, ConclusionV::Nothing);
                    (
                        k3,
                        InvocationV::Answered(
                            AnswerV {
                                value: tickets::failure(
                                    "injected fault"@,
                                    "plugin-panicked"@,
                                ).with("fault"@, info),
                                ok: false,
                                job,
                            },
                        ),
                    )
                } else {
                    match reduced(p.reducer, input, p.json_state) {
                        Some(v) => self.answer(
                            t.id,
                            if self.dry_run {
                                ConclusionV::Nothing
                            } else {
                                invoked(t.logical, t.cap, input)
                            },
                            v,
                            true,
                        ),
                        None => self.answer(
                            t.id,
                            ConclusionV::Nothing,
                            tickets::failure("unknown reducer"@, "reducer-missing"@),
                            false,
                        ),
                    }
                },
            },
            p => self.answer(
                t.id,
                ConclusionV::Nothing,
                tickets::failure("plugin not available"@, refusal(p)),
                false,
            ),
        }
    }

    /// Invokes a capability, of the activation `expected` where one is given.
    pub open spec fn invoke(
        self,
        cap: Text,
        input: JsonV,
        expected: Option<InstanceRefV>,
        now: Instant,
    ) -> (KernelV, InvocationV) {
        if self.calls.tickets.dom().len() >= MAX_INFLIGHT_CALLS {
            (
                self,
                InvocationV::Answered(
                    AnswerV {
                        value: tickets::failure(
                            "too many in-flight calls"@,
                            "resource-exhausted"@,
                        ),
                        ok: false,
                        job: None,
                    },
                ),
            )
        } else {
            match self.admission(cap) {
                Err(value) => (
                    self,
                    InvocationV::Answered(AnswerV { value, ok: false, job: None }),
                ),
                Ok(ctx) => {
                    let t = self.ticket_for(
                        cap,
                        ctx,
                        self.policy_for(ctx.logical, cap),
                        Seq::empty(),
                        now,
                    );
                    let k = self.with_calls(self.calls.issue(t));
                    let held = InstanceRefV {
                        epoch: self.contexts.epoch,
                        instance: ctx.instance.0,
                        context: ctx.context.0,
                        logical: ctx.logical,
                        generation: ctx.generation,
                    };
                    if expected matches Some(r) && r != held {
                        k.answer(
                            t.id,
                            ConclusionV::Nothing,
                            JsonV::object().with("code"@, json::jstr("stale-generation"@)),
                            false,
                        )
                    } else {
                        k.dispatch(t, input, now)
                    }
                },
            }
        }
    }

    /// What the reply of an external plugin gives: a ticket revoked meanwhile
    /// turns it into a cancellation.
    pub open spec fn forwarded(self, req: ForwardRequestV, out: ForwardOutcomeV) -> (
        KernelV,
        InvocationV,
    ) {
        let admitted = self.calls.admitted(req.ticket);
        match out {
            ForwardOutcomeV::Replied(v) => if admitted {
                self.answer(
                    req.ticket,
                    if self.dry_run {
                        ConclusionV::Nothing
                    } else {
                        invoked(req.logical, req.cap, req.input)
                    },
                    v,
                    true,
                )
            } else {
                self.answer(
                    req.ticket,
                    late_reply(req),
                    tickets::failure("ticket revoked"@, "cancelled"@),
                    false,
                )
            },
            ForwardOutcomeV::Refused { code, message } => if admitted {
                self.answer(
                    req.ticket,
                    ConclusionV::Nothing,
                    tickets::failure(message, code),
                    false,
                )
            } else {
                self.answer(
                    req.ticket,
                    late_reply(req),
                    tickets::failure(message, "cancelled"@),
                    false,
                )
            },
            ForwardOutcomeV::Failed(e) => self.answer(
                req.ticket,
                ConclusionV::Nothing,
                tickets::failure("forward failed: "@ + e.shown(), e.code()),
                false,
            ),
        }
    }

    /// An event for the active entry of `logical`.
    pub open spec fn tick_entry(self, logical: Text, topic: Text) -> KernelV {
        match self.plugin(logical) {
            Some(p) if p.state.canon() == Fsm::Active => self.with_plugin(
                logical,
                PluginV { json_state: ticked(p.reducer, topic, p.json_state), ..p },
            ),
            _ => self,
        }
    }

    /// An event for one subscribed instance: only an active, current one
    /// gets it.
    pub open spec fn deliver_to(self, inst: InstanceId, topic: Text) -> KernelV {
        match self.contexts.admissible(inst.0) {
            Ok(r) if r.logical.len() > 0 => self.tick_entry(r.logical, topic),
            _ => self,
        }
    }

    pub open spec fn deliver_each(self, insts: Seq<InstanceId>, topic: Text) -> KernelV
        decreases insts.len(),
    {
        if insts.len() == 0 {
            self
        } else {
            self.deliver_each(insts.drop_last(), topic).deliver_to(insts.last(), topic)
        }
    }

    /// An event for subscribers that are no instances.
    pub open spec fn deliver_names(self, names: Seq<Text>, topic: Text) -> KernelV
        decreases names.len(),
    {
        if names.len() == 0 {
            self
        } else {
            let k = self.deliver_names(names.drop_last(), topic);
            match k.plugin(names.last()) {
                Some(p) if p.instance_id == 0 => k.tick_entry(names.last(), topic),
                _ => k,
            }
        }
    }

    /// An event delivered to the subscribers of its topic.
    pub open spec fn deliver(self, topic: Text) -> KernelV {
        let subs = bus::subs_of(self.topics, topic);
        self.deliver_each(bus::instances_of(subs), topic).deliver_names(
            subs.map_values(|s: bus::SubV| s.logical),
            topic,
        )
    }

    /// Whether replaying an entry moves the counter.
    pub open spec fn replays(self, e: EntryV) -> bool {
        &&& e.kind == "evt.emit"@
        &&& e.args.str_at("topic"@) == Some("sys.tick"@)
        &&& self.plugin("counter"@) matches Some(p) && p.state.canon() == Fsm::Active
    }

    /// The journal folded back into the counter; gives how many entries
    /// applied.
    pub open spec fn replay(self, es: Seq<EntryV>) -> (KernelV, nat)
        decreases es.len(),
    {
        if es.len() == 0 {
            (self, 0)
        } else {
            let (k, n) = self.replay(es.drop_last());
            if k.replays(es.last()) {
                let p = k.plugins["counter"@];
                (
                    k.with_plugin(
                        "counter"@,
                        PluginV { json_state: ticked("counter"@, "sys.tick"@, p.json_state), ..p },
                    ),
                    n + 1,
                )
            } else {
                (k, n)
            }
        }
    }

    /// The names among `ks` that bench components have.
    pub open spec fn bench_names(ks: Seq<Text>) -> Seq<Text>
        decreases ks.len(),
    {
        if ks.len() == 0 {
            Seq::empty()
        } else if "gen"@.is_prefix_of(ks.last()) {
            Self::bench_names(ks.drop_last()).push(ks.last())
        } else {
            Self::bench_names(ks.drop_last())
        }
    }

    /// Timers and tasks among `rs` released.
    pub open spec fn release_workers(self, rs: Seq<ResourceV>) -> KernelV
        decreases rs.len(),
    {
        if rs.len() == 0 {
            self
        } else {
            let k = self.release_workers(rs.drop_last());
            match rs.last().kind {
                ResourceKindV::Timer { .. } | ResourceKindV::Task { .. } => k.release(
                    rs.last().handle,
                ).0,
                _ => k,
            }
        }
    }

    /// Active entries back in their first state.
    pub open spec fn refreshed(self) -> Map<Text, PluginV> {
        self.plugins.map_values(|p: PluginV| fresh_entry(p))
    }
}

/// An active entry back in its first state.
pub open spec fn fresh_entry(p: PluginV) -> PluginV {
    if p.state.canon() == Fsm::Active {
        PluginV {
            panic_count: 0,
            restart_times: Seq::empty(),
            json_state: if p.reducer == "counter"@ {
                JsonV::object().with("state"@, json::jnum(0))
            } else if p.reducer == "clock"@ {
                JsonV::object().with("count"@, json::jnum(0))
            } else if p.reducer != "crasher"@ {
                p.init_state
            } else {
                p.json_state
            },
            ..p
        }
    } else {
        p
    }
}

fn late_note(req: &ForwardRequest) -> (r: Conclusion)
    ensures
        r@ == late_reply(req@),
{
    let args = Json::object().with("ticket", Json::num(req.ticket.0)).with(
        "reason",
        Json::str("revoked-during-forward"),
    ).with("cap", Json::str(&req.cap));
    Conclusion::Note { fiber: req.logical.clone(), kind: "call.rejected".to_owned(), args }
}

fn invoke_note(dry_run: bool, fiber: &str, cap: &str, input: &Json) -> (r: Conclusion)
    ensures
        r@ == if dry_run {
            ConclusionV::Nothing
        } else {
            invoked(fiber@, cap@, input@)
        },
{
    if dry_run {
        Conclusion::Nothing
    } else {
        let args = Json::object().with("cap", Json::str(cap)).with("input", input.copy());
        Conclusion::Note { fiber: fiber.to_owned(), kind: "cap.invoke".to_owned(), args }
    }
}

fn refusal_code(p: Option<&Plugin>) -> (r: &'static str)
    ensures
        r@ == refusal(
            match p {
                Some(p) => Some(p@),
                None => None,
            },
        ),
{
    match p {
        Some(p) => match p.state.canonical() {
            Fsm::Failed | Fsm::Disposed => "plugin-not-active",
            Fsm::Quiescing | Fsm::CleanupPending => "context-not-active",
            Fsm::Waiting | Fsm::Preparing | Fsm::Registered => "dependency-unavailable",
            _ => "plugin-not-loaded",
        },
        None => "plugin-not-loaded",
    }
}

/// What a caller expects to reach, as the contracts see it.
pub open spec fn expectation(r: Option<&InstanceRef>) -> Option<InstanceRefV> {
    match r {
        Some(r) => Some(r@),
        None => None,
    }
}

impl Kernel {
    /// A contained fault of a plugin; the sixth within ten seconds fails it.
    pub fn fault(&mut self, fiber: &str, mode: &str, now: Instant) -> (r: Json)
        ensures
            (final(self)@, r@) == old(self)@.fault(fiber@, mode@, now),
    {
        let mut failed = false;
        if let Some(p) = self.plugins.get(fiber) {
            let mut p = p.copy();
            let mut times = recent_times(&p.restart_times, now);
            times.push(now);
            failed = times.len() > 5;
            p.restart_times = times;
            p.panic_count = if p.panic_count < u32::MAX {
                p.panic_count + 1
            } else {
                0
            };
            if failed {
                p.state = Fsm::Failed;
            }
            self.plugins.insert(fiber, p);
        }
        if failed {
            if let Some(cur) = self.contexts.current(fiber) {
                let mut cause = text::join2("fault budget exceeded (", mode);
                cause.append(")");
                self.contexts.mark_failed(cur.instance, cause);
            }
        }
        let info = Json::object().with("mode", Json::str(mode)).with(
            "contained",
            Json::flag(true),
        ).with("failed", Json::flag(failed));
        self.log(fiber, "sys.fault", info.copy());
        info
    }

    fn answer(&mut self, id: TicketId, c: Conclusion, value: Json, ok: bool) -> (r: Invocation)
        ensures
            (final(self)@, r@) == old(self)@.answer(id, c@, value@, ok),
    {
        let settled = self.settle_ticket(id);
        let job = self.after_settling(settled, c);
        Invocation::Answered(Answer { value, ok, job })
    }

    fn dispatch(&mut self, t: &tickets::OpenCall, input: &Json, now: Instant, Ghost(tv): Ghost<
        TicketV,
    >) -> (r: Invocation)
        requires
            tv.id == t.ticket,
            tv.cap == t.cap@,
            tv.logical == t.logical@,
            tv.instance == t.instance,
            tv.generation == t.generation,
        ensures
            (final(self)@, r@) == old(self)@.dispatch(tv, input@, now),
    {
        let p = match self.plugins.get(&t.logical) {
            Some(p) => {
                if p.state.canonical() == Fsm::Active && p.instance_id == t.instance.0
                    && p.generation == t.generation {
                    p.copy()
                } else {
                    let code = refusal_code(Some(p));
                    return self.answer(
                        t.ticket,
                        Conclusion::Nothing,
                        tickets::fail("plugin not available", code),
                        false,
                    );
                }
            },
            None => {
                return self.answer(
                    t.ticket,
                    Conclusion::Nothing,
                    tickets::fail("plugin not available", refusal_code(None)),
                    false,
                );
            },
        };
        if let ExecutionKind::External { timeout_ms, .. } = &p.execution {
            if !self.forwarder {
                return self.answer(
                    t.ticket,
                    Conclusion::Nothing,
                    tickets::fail("external plugin without host", "internal"),
                    false,
                );
            }
            return Invocation::Forward(
                ForwardRequest {
                    ticket: t.ticket,
                    cap: t.cap.clone(),
                    input: input.copy(),
                    logical: t.logical.clone(),
                    instance: t.instance,
                    generation: t.generation,
                    timeout_ms: *timeout_ms,
                },
            );
        }
        if text::same(&p.reducer, "crasher") {
            let settled = self.settle_ticket(t.ticket);
            let mode = match input.str_at("mode") {
                Some(m) => m.clone(),
                None => "panic".to_owned(),
            };
            let info = self.fault(&t.logical, &mode, now);
            let job = self.after_settling(settled, Conclusion::Nothing);
            let value = tickets::fail("injected fault", "plugin-panicked").with("fault", info);
            return Invocation::Answered(Answer { value, ok: false, job });
        }
        match reduce(&p.reducer, input, &p.json_state) {
            Some(v) => {
                let note = invoke_note(self.dry_run, &t.logical, &t.cap, input);
                self.answer(t.ticket, note, v, true)
            },
            None => self.answer(
                t.ticket,
                Conclusion::Nothing,
                tickets::fail("unknown reducer", "reducer-missing"),
                false,
            ),
        }
    }

    fn invoke_bound(
        &mut self,
        cap: &str,
        input: &Json,
        expected: Option<&InstanceRef>,
        now: Instant,
    ) -> (r: Invocation)
        ensures
            (final(self)@, r@) == old(self)@.invoke(cap@, input@, expectation(expected), now),
    {
        if self.calls.inflight_count() >= MAX_INFLIGHT_CALLS {
            return Invocation::Answered(
                Answer {
                    value: tickets::fail("too many in-flight calls", "resource-exhausted"),
                    ok: false,
                    job: None,
                },
            );
        }
        let ctx = match self.admission_record(cap) {
            Ok(c) => c,
            Err(value) => {
                return Invocation::Answered(Answer { value, ok: false, job: None });
            },
        };
        let policy = self.policy_for(&ctx.logical, cap);
        let pins: Vec<ResourceHandle> = Vec::new();
        let ghost tv = self@.ticket_for(cap@, ctx@, policy, Seq::empty(), now);
        assert(pins@ =~= Seq::empty());
        let epoch = self.contexts.epoch();
        let id = self.calls.issue(
            cap,
            &ctx.logical,
            ctx.instance,
            ctx.generation,
            ctx.context,
            ctx.epoch,
            policy,
            pins,
            now,
        );
        if let Some(e) = expected {
            if e.epoch != epoch || e.instance != ctx.instance.0 || e.context != ctx.context.0
                || e.generation != ctx.generation || !text::same(&e.logical, &ctx.logical) {
                return self.answer(
                    id,
                    Conclusion::Nothing,
                    Json::object().with("code", Json::str("stale-generation")),
                    false,
                );
            }
        }
        let open = tickets::OpenCall {
            ticket: id,
            cap: cap.to_owned(),
            logical: ctx.logical,
            instance: ctx.instance,
            generation: ctx.generation,
            context: ctx.context,
            policy,
        };
        self.dispatch(&open, input, now, Ghost(tv))
    }

    /// Invokes a capability on an ephemeral ticket: it leaves no open or
    /// close entry, and a withdraw finds it like any other.
    pub fn invoke(&mut self, cap: &str, input: &Json, now: Instant) -> (r: Invocation)
        ensures
            (final(self)@, r@) == old(self)@.invoke(cap@, input@, None, now),
    {
        self.invoke_bound(cap, input, None, now)
    }

    /// Invokes a capability of one authenticated activation: a replacement
    /// generation never gets the call.
    pub fn invoke_for_ref(
        &mut self,
        expected: &InstanceRef,
        cap: &str,
        input: &Json,
        now: Instant,
    ) -> (r: Invocation)
        ensures
            (final(self)@, r@) == old(self)@.invoke(cap@, input@, Some(expected@), now),
    {
        self.invoke_bound(cap, input, Some(expected), now)
    }

    /// Takes the reply of an external plugin to a delivered request.
    pub fn forwarded(&mut self, req: &ForwardRequest, out: ForwardOutcome) -> (r: Invocation)
        ensures
            (final(self)@, r@) == old(self)@.forwarded(req@, out@),
    {
        let admitted = self.calls.is_admitted(req.ticket);
        match out {
            ForwardOutcome::Replied(v) => if admitted {
                let note = invoke_note(self.dry_run, &req.logical, &req.cap, &req.input);
                self.answer(req.ticket, note, v, true)
            } else {
                self.answer(
                    req.ticket,
                    late_note(req),
                    tickets::fail("ticket revoked", "cancelled"),
                    false,
                )
            },
            ForwardOutcome::Refused { code, message } => if admitted {
                self.answer(
                    req.ticket,
                    Conclusion::Nothing,
                    tickets::fail(&message, &code),
                    false,
                )
            } else {
                self.answer(
                    req.ticket,
                    late_note(req),
                    tickets::fail(&message, "cancelled"),
                    false,
                )
            },
            ForwardOutcome::Failed(e) => {
                let shown = e.shown();
                let m = text::join2("forward failed: ", &shown);
                self.answer(
                    req.ticket,
                    Conclusion::Nothing,
                    tickets::fail(&m, e.code()),
                    false,
                )
            },
        }
    }

    fn tick_entry(&mut self, logical: &str, topic: &str)
        ensures
            final(self)@ == old(self)@.tick_entry(logical@, topic@),
    {
        if let Some(p) = self.plugins.get(logical) {
            if p.state.canonical() == Fsm::Active {
                let mut p = p.copy();
                p.json_state = tick(&p.reducer, topic, &p.json_state);
                self.plugins.insert(logical, p);
            }
        }
    }

    fn deliver_each(&mut self, insts: &Vec<InstanceId>, topic: &str)
        ensures
            final(self)@ == old(self)@.deliver_each(insts@, topic@),
    {
        let ghost k0 = self@;
        let mut i: usize = 0;
        proof {
            assert(insts@.take(0) =~= Seq::<InstanceId>::empty());
        }
        while i < insts.len()
            invariant
                i <= insts.len(),
                self@ == k0.deliver_each(insts@.take(i as int), topic@),
            decreases insts.len() - i,
        {
            proof {
                assert(insts@.take(i + 1).drop_last() =~= insts@.take(i as int));
            }
            if let Ok(r) = self.contexts.require_active(insts[i]) {
                if !r.logical.as_str().is_empty() {
                    self.tick_entry(&r.logical, topic);
                }
            }
            i += 1;
        }
        proof {
            assert(insts@.take(insts@.len() as int) =~= insts@);
        }
    }

    fn deliver_names(&mut self, names: &Vec<String>, topic: &str)
        ensures
            final(self)@ == old(self)@.deliver_names(names.deep_view(), topic@),
    {
        let ghost k0 = self@;
        let ghost ns = names.deep_view();
        let mut i: usize = 0;
        proof {
            assert(ns.take(0) =~= Seq::<Text>::empty());
        }
        while i < names.len()
            invariant
                i <= names.len(),
                ns == names.deep_view(),
                self@ == k0.deliver_names(ns.take(i as int), topic@),
            decreases names.len() - i,
        {
            proof {
                assert(ns.take(i + 1).drop_last() =~= ns.take(i as int));
                assert(ns.take(i + 1).last() == names[i as int]@);
            }
            let plain = match self.plugins.get(&names[i]) {
                Some(p) => p.instance_id == 0,
                None => false,
            };
            if plain {
                self.tick_entry(&names[i], topic);
            }
            i += 1;
        }
        proof {
            assert(ns.take(ns.len() as int) =~= ns);
        }
    }

    /// Delivers an event to the active, current subscribers of its topic. The
    /// reducers here count topics and do not look at payloads.
    pub fn deliver_evt(&mut self, topic: &str, _payload: &Json)
        ensures
            final(self)@ == old(self)@.deliver(topic@),
    {
        let insts = self.bus.subscriber_instances(topic);
        let names = self.bus.subscribers(topic);
        self.deliver_each(&insts, topic);
        self.deliver_names(&names, topic);
    }

    /// Records an event and delivers it; returns the number of its entry.
    pub fn emit(&mut self, topic: &str, payload: &Json) -> (r: u64)
        ensures
            final(self)@ == old(self)@.log(
                "cli"@,
                "evt.emit"@,
                JsonV::object().with("topic"@, json::jstr(topic@)).with("payload"@, payload@),
            ).deliver(topic@),
            r == old(self)@.log(
                "cli"@,
                "evt.emit"@,
                JsonV::object().with("topic"@, json::jstr(topic@)).with("payload"@, payload@),
            ).journal.seq,
    {
        let args = Json::object().with("topic", Json::str(topic)).with(
            "payload",
            payload.copy(),
        );
        let seq: u64 = self.journal.append("cli", "evt.emit", args, Json::Null);
        self.deliver_evt(topic, payload);
        seq
    }

    /// Folds a journal back into the counter; returns how many entries
    /// applied, and how many there are.
    pub fn replay(&mut self, entries: &Vec<Entry>) -> (r: (usize, usize))
        ensures
            (final(self)@, r.0 as nat) == old(self)@.replay(entries.deep_view()),
            r.1 == entries.len(),
    {
        let ghost k0 = self@;
        let ghost es = entries.deep_view();
        let mut applied: usize = 0;
        let mut i: usize = 0;
        proof {
            assert(es.take(0) =~= Seq::<EntryV>::empty());
        }
        while i < entries.len()
            invariant
                i <= entries.len(),
                applied <= i,
                es == entries.deep_view(),
                (self@, applied as nat) == k0.replay(es.take(i as int)),
            decreases entries.len() - i,
        {
            proof {
                assert(es.take(i + 1).drop_last() =~= es.take(i as int));
                assert(es.take(i + 1).last() == entries[i as int]@);
            }
            let e = &entries[i];
            let ticks = text::same(&e.kind, "evt.emit") && match e.args.str_at("topic") {
                Some(t) => text::same(t, "sys.tick"),
                None => false,
            };
            if ticks {
                if let Some(p) = self.plugins.get("counter") {
                    if p.state.canonical() == Fsm::Active {
                        let mut p = p.copy();
                        p.json_state = tick("counter", "sys.tick", &p.json_state);
                        self.plugins.insert("counter", p);
                        applied += 1;
                    }
                }
            }
            i += 1;
        }
        proof {
            assert(es.take(es.len() as int) =~= es);
        }
        (applied, entries.len())
    }

    /// Begins to clear the bench: starts the journal over and returns the
    /// names of the bench components, each to be discarded with
    /// [`Kernel::reset_discard`] before [`Kernel::reset_finish`].
    pub fn reset_bench(&mut self) -> (r: Vec<String>)
        ensures
            final(self)@ == (KernelV {
                journal: crate::journal::JournalV {
                    seq: 0,
                    pending: Seq::empty(),
                    ..old(self)@.journal
                },
                ..old(self)@
            }),
            r.deep_view() == KernelV::bench_names(text::in_order(old(self)@.plugins.dom())),
    {
        self.journal.reset();
        let keys = self.plugins.keys();
        let ghost ks = keys.deep_view();
        let mut out: Vec<String> = Vec::new();
        let mut i: usize = 0;
        proof {
            assert(ks.take(0) =~= Seq::<Text>::empty());
            assert(out.deep_view() =~= Seq::<Text>::empty());
        }
        while i < keys.len()
            invariant
                i <= keys.len(),
                ks == keys.deep_view(),
                out.deep_view() == KernelV::bench_names(ks.take(i as int)),
            decreases keys.len() - i,
        {
            proof {
                assert(ks.take(i + 1).drop_last() =~= ks.take(i as int));
                assert(ks.take(i + 1).last() == keys[i as int]@);
            }
            if text::starts_with(&keys[i], "gen") {
                let ghost before = out.deep_view();
                out.push(keys[i].clone());
                assert(out.deep_view() =~= before.push(keys[i as int]@));
            }
            i += 1;
        }
        proof {
            assert(ks.take(ks.len() as int) =~= ks);
        }
        out
    }

    /// Forgets the definition of a bench component; its instance, if there
    /// is one, is to be discarded without a reconciliation.
    pub fn reset_discard(&mut self, id: &str) -> (r: Option<Job>)
        ensures
            final(self)@ == (KernelV {
                definitions: old(self)@.definitions.remove(id@),
                ..old(self)@
            }),
            r.deep_view() == match old(self)@.contexts.current_of(id@) {
                Some(cur) => Some(
                    JobV {
                        stage: StageV::Dispose(cur.instance),
                        reconciles: false,
                        conclusion: ConclusionV::Nothing,
                        outcome: None,
                    },
                ),
                None => None,
            },
    {
        let _ = self.definitions.remove(id);
        match self.contexts.current(id) {
            Some(cur) => Some(Job::disposal(cur.instance, false)),
            None => None,
        }
    }

    fn release_workers(&mut self, rs: &Vec<ResourceRecord>)
        ensures
            final(self)@ == old(self)@.release_workers(rs.deep_view()),
    {
        let ghost k0 = self@;
        let ghost s = rs.deep_view();
        let mut i: usize = 0;
        proof {
            assert(s.take(0) =~= Seq::<ResourceV>::empty());
        }
        while i < rs.len()
            invariant
                i <= rs.len(),
                s == rs.deep_view(),
                self@ == k0.release_workers(s.take(i as int)),
            decreases rs.len() - i,
        {
            proof {
                assert(s.take(i + 1).drop_last() =~= s.take(i as int));
                assert(s.take(i + 1).last() == rs[i as int]@);
            }
            match &rs[i].kind {
                ResourceKind::Timer { .. } | ResourceKind::Task { .. } => {
                    let _ = self.release(rs[i].handle);
                },
                _ => {},
            }
            i += 1;
        }
        proof {
            assert(s.take(s.len() as int) =~= s);
        }
    }

    fn refresh_entries(&mut self)
        ensures
            final(self)@ == (KernelV { plugins: old(self)@.refreshed(), ..old(self)@ }),
    {
        let n = self.plugins.len();
        let keys = self.plugins.keys();
        let ghost ks = keys.deep_view();
        let ghost m = self@.plugins;
        proof {
            text::in_order_sorted(m.dom());
        }
        let mut i: usize = 0;
        while i < n
            invariant
                i <= n,
                n == keys.len(),
                ks == keys.deep_view(),
                ks.to_set() == m.dom(),
                ks.no_duplicates(),
                self@ == (KernelV { plugins: self@.plugins, ..old(self)@ }),
                self@.plugins.dom() == m.dom(),
                forall|j: int|
                    0 <= j < i ==> self@.plugins[#[trigger] ks[j]] == fresh_entry(m[ks[j]]),
                forall|j: int| i <= j < ks.len() ==> self@.plugins[#[trigger] ks[j]] == m[ks[j]],
            decreases n - i,
        {
            let ghost before = self@.plugins;
            assert(ks[i as int] == keys[i as int]@);
            assert(ks.to_set().contains(ks[i as int]));
            if let Some(p) = self.plugins.get(&keys[i]) {
                if p.state.canonical() == Fsm::Active {
                    let mut p = p.copy();
                    p.panic_count = 0;
                    p.restart_times = Vec::new();
                    if text::same(&p.reducer, "counter") {
                        p.json_state = Json::object().with("state", Json::num(0));
                    } else if text::same(&p.reducer, "clock") {
                        p.json_state = Json::object().with("count", Json::num(0));
                    } else if !text::same(&p.reducer, "crasher") {
                        p.json_state = p.init_state.copy();
                    }
                    proof {
                        assert(p@.restart_times =~= Seq::empty());
                    }
                    self.plugins.insert(&keys[i], p);
                    assert(self@.plugins.dom() =~= before.dom());
                }
            }
            i += 1;
        }
        proof {
            assert forall|k: Text| m.dom().contains(k) implies self@.plugins[k] == fresh_entry(
                m[k],
            ) by {
                assert(ks.to_set().contains(k));
                let j = choose|j: int| 0 <= j < ks.len() && ks[j] == k;
                assert(self@.plugins[ks[j]] == fresh_entry(m[ks[j]]));
            }
            assert(self@.plugins =~= old(self)@.refreshed());
        }
    }

    /// Ends the clearing of the bench: releases timers and tasks, puts
    /// active entries back in their first state, and reconciles.
    pub fn reset_finish(&mut self) -> (r: Job)
        ensures
            ({
                let k = old(self)@.release_workers(
                    resources::by_owner(old(self)@.resources.slots),
                );
                let k2 = KernelV { plugins: k.refreshed(), ..k };
                final(self)@ == k2 && r@ == k2.reconciling(ConclusionV::Nothing)
            }),
    {
        let rs = self.resources.inventory();
        self.release_workers(&rs);
        self.refresh_entries();
        self.reconcile()
    }
}

} // verus!
