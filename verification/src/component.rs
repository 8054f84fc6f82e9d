//! The component's side of the session with its host: what is sent, and what
//! each message of the host asks for. The kernel keeps deciding composition
//! and lifecycle; a component answers.

use vstd::prelude::*;
use vstd::string::*;
use crate::json;
use crate::json::{Json, JsonV};
use crate::text;
use crate::text::Text;
use crate::time::Instant;

verus! {

/// The extension that allows dependency calls.
pub open spec fn dependency_calls() -> Text {
    "dependency-calls/1"@
}

/// How many events and stream chunks wait for a component at most.
pub const EVENT_QUEUE_CAP: usize = 64;

/// The result of a call, as a component gives it.
#[derive(Debug)]
pub enum CallOutcome {
    Replied(Json),
    Refused { code: String, message: String },
}

pub enum CallOutcomeV {
    Replied(JsonV),
    Refused { code: Text, message: Text },
}

impl View for CallOutcome {
    type V = CallOutcomeV;

    open spec fn view(&self) -> CallOutcomeV {
        match self {
            CallOutcome::Replied(v) => CallOutcomeV::Replied(v@),
            CallOutcome::Refused { code, message } => CallOutcomeV::Refused {
                code: code@,
                message: message@,
            },
        }
    }
}

/// Opaque handle for dependency calls.
#[derive(Debug)]
pub struct DepBinding {
    pub id: String,
    pub capability: String,
}

pub struct DepBindingV {
    pub id: Text,
    pub capability: Text,
}

impl View for DepBinding {
    type V = DepBindingV;

    open spec fn view(&self) -> DepBindingV {
        DepBindingV { id: self.id@, capability: self.capability@ }
    }
}

impl DeepView for DepBinding {
    type V = DepBindingV;

    open spec fn deep_view(&self) -> DepBindingV {
        self@
    }
}

/// The code and the message of an error.
pub struct WireErrorV {
    pub code: Text,
    pub message: Text,
}

pub open spec fn wire_error(code: Text, message: Text) -> WireErrorV {
    WireErrorV { code, message }
}

impl WireErrorV {
    pub open spec fn shown(self) -> Text {
        self.code + ": "@ + self.message
    }
}

fn show_error(code: &str, message: &str) -> (r: String)
    ensures
        r@ == wire_error(code@, message@).shown(),
{
    let mut s = text::join2(code, ": ");
    s.append(message);
    s
}

/// Error of an activation resource.
#[derive(Debug)]
pub struct ResError {
    pub code: String,
    pub message: String,
}

impl View for ResError {
    type V = WireErrorV;

    open spec fn view(&self) -> WireErrorV {
        WireErrorV { code: self.code@, message: self.message@ }
    }
}

impl ResError {
    pub fn new(code: &str, message: &str) -> (r: Self)
        ensures
            r@ == wire_error(code@, message@),
    {
        ResError { code: code.to_owned(), message: message.to_owned() }
    }

    /// The error as it is shown.
    pub fn shown(&self) -> (r: String)
        ensures
            r@ == self@.shown(),
    {
        show_error(&self.code, &self.message)
    }
}

/// Error of a dependency call, with its code from the wire.
#[derive(Debug)]
pub struct DepError {
    pub code: String,
    pub message: String,
}

impl View for DepError {
    type V = WireErrorV;

    open spec fn view(&self) -> WireErrorV {
        WireErrorV { code: self.code@, message: self.message@ }
    }
}

impl DepError {
    pub fn new(code: &str, message: &str) -> (r: Self)
        ensures
            r@ == wire_error(code@, message@),
    {
        DepError { code: code.to_owned(), message: message.to_owned() }
    }

    /// The error as it is shown.
    pub fn shown(&self) -> (r: String)
        ensures
            r@ == self@.shown(),
    {
        show_error(&self.code, &self.message)
    }
}

/// The outcome of a dependency call, as the contracts see it.
pub open spec fn dep_outcome(r: Result<Json, DepError>) -> Result<JsonV, WireErrorV> {
    match r {
        Ok(v) => Ok(v@),
        Err(e) => Err(e@),
    }
}

/// The outcome of a resource request, as the contracts see it.
pub open spec fn res_outcome(r: Result<Json, ResError>) -> Result<JsonV, WireErrorV> {
    match r {
        Ok(v) => Ok(v@),
        Err(e) => Err(e@),
    }
}

// ---- events -----------------------------------------------------------

/// An event or a stream chunk for the component.
#[derive(Debug)]
#[allow(inconsistent_fields)]
pub enum DepEvent {
    Event { topic: String, payload: Json },
    Stream { stream_id: String, seq: u64, payload: String },
}

#[allow(inconsistent_fields)]
pub enum DepEventV {
    Event { topic: Text, payload: JsonV },
    Stream { stream_id: Text, seq: u64, payload: Text },
}

impl View for DepEvent {
    type V = DepEventV;

    open spec fn view(&self) -> DepEventV {
        match self {
            DepEvent::Event { topic, payload } => DepEventV::Event {
                topic: topic@,
                payload: payload@,
            },
            DepEvent::Stream { stream_id, seq, payload } => DepEventV::Stream {
                stream_id: stream_id@,
                seq: *seq,
                payload: payload@,
            },
        }
    }
}

impl DeepView for DepEvent {
    type V = DepEventV;

    open spec fn deep_view(&self) -> DepEventV {
        self@
    }
}

/// Bounded queue of events: a full one drops its oldest item and counts the
/// loss.
pub struct EventQueue {
    queue: Vec<DepEvent>,
    cap: usize,
    dropped: u64,
}

pub struct EventQueueV {
    pub queue: Seq<DepEventV>,
    pub cap: nat,
    pub dropped: u64,
}

impl View for EventQueue {
    type V = EventQueueV;

    closed spec fn view(&self) -> EventQueueV {
        EventQueueV {
            queue: self.queue.deep_view(),
            cap: self.cap as nat,
            dropped: self.dropped,
        }
    }
}

/// How many stream chunks a queue holds.
pub open spec fn streams_in(q: Seq<DepEventV>) -> nat
    decreases q.len(),
{
    if q.len() == 0 {
        0
    } else {
        streams_in(q.drop_last()) + (if q.last() is Stream {
            1nat
        } else {
            0nat
        })
    }
}

impl EventQueueV {
    pub open spec fn push(self, ev: DepEventV) -> EventQueueV {
        if self.queue.len() >= self.cap {
            EventQueueV {
                queue: (if self.queue.len() > 0 {
                    self.queue.drop_first()
                } else {
                    self.queue
                }).push(ev),
                dropped: if self.dropped < u64::MAX {
                    (self.dropped + 1) as u64
                } else {
                    u64::MAX
                },
                ..self
            }
        } else {
            EventQueueV { queue: self.queue.push(ev), ..self }
        }
    }
}

impl EventQueue {
    pub fn new(cap: usize) -> (r: Self)
        ensures
            r@ == (EventQueueV { queue: Seq::empty(), cap: cap as nat, dropped: 0 }),
    {
        let r = EventQueue { queue: Vec::new(), cap, dropped: 0 };
        assert(r@.queue =~= Seq::empty());
        r
    }

    pub fn push(&mut self, ev: DepEvent)
        ensures
            final(self)@ == old(self)@.push(ev@),
    {
        let ghost q0 = self.queue.deep_view();
        let ghost e = ev@;
        if self.queue.len() >= self.cap {
            if self.queue.len() > 0 {
                let _ = self.queue.remove(0);
                assert(self.queue.deep_view() =~= q0.drop_first());
            }
            if self.dropped < u64::MAX {
                self.dropped = self.dropped + 1;
            }
        }
        let ghost q1 = self.queue.deep_view();
        self.queue.push(ev);
        assert(self.queue.deep_view() =~= q1.push(e));
    }

    /// Takes everything out, oldest first.
    pub fn drain(&mut self) -> (r: Vec<DepEvent>)
        ensures
            r.deep_view() == old(self)@.queue,
            final(self)@ == (EventQueueV { queue: Seq::empty(), ..old(self)@ }),
    {
        let mut out: Vec<DepEvent> = Vec::new();
        std::mem::swap(&mut out, &mut self.queue);
        assert(self.queue.deep_view() =~= Seq::<DepEventV>::empty());
        out
    }

    /// Stream chunks that wait: the host withholds credit while there are
    /// many.
    pub fn pending_streams(&self) -> (r: usize)
        ensures
            r == streams_in(self@.queue),
    {
        let ghost q = self.queue.deep_view();
        let mut n: usize = 0;
        let mut i: usize = 0;
        proof {
            assert(q.take(0) =~= Seq::<DepEventV>::empty());
        }
        while i < self.queue.len()
            invariant
                i <= self.queue.len(),
                n <= i,
                q == self.queue.deep_view(),
                n == streams_in(q.take(i as int)),
            decreases self.queue.len() - i,
        {
            proof {
                assert(q.take(i + 1).drop_last() =~= q.take(i as int));
                assert(q.take(i + 1).last() == self.queue[i as int]@);
            }
            if let DepEvent::Stream { .. } = &self.queue[i] {
                n += 1;
            }
            i += 1;
        }
        proof {
            assert(q.take(q.len() as int) =~= q);
        }
        n
    }

    /// How many items were lost.
    pub fn dropped(&self) -> (r: u64)
        ensures
            r == self@.dropped,
    {
        self.dropped
    }
}

/// A queue never outgrows its bound, the newest item is always in it, and
/// what it keeps stays in order.
pub proof fn queue_is_bounded(q: EventQueueV, ev: DepEventV)
    requires
        0 < q.cap,
        q.queue.len() <= q.cap,
    ensures
        q.push(ev).queue.len() <= q.cap,
        q.push(ev).queue.last() == ev,
        q.push(ev).queue.drop_last() == q.queue || q.push(ev).queue.drop_last()
            == q.queue.drop_first(),
        q.queue.len() < q.cap ==> q.push(ev).dropped == q.dropped,
{
    let after = q.push(ev).queue;
    if q.queue.len() >= q.cap {
        assert(after.drop_last() =~= q.queue.drop_first());
    } else {
        assert(after.drop_last() =~= q.queue);
    }
}

// ---- messages of the component ---------------------------------------

/// The name and the version of the protocol.
#[derive(Debug)]
pub struct Wire {
    pub protocol: String,
    pub version: Json,
}

pub struct WireV {
    pub protocol: Text,
    pub version: JsonV,
}

impl View for Wire {
    type V = WireV;

    open spec fn view(&self) -> WireV {
        WireV { protocol: self.protocol@, version: self.version@ }
    }
}

/// The activation that a session is bound to.
#[derive(Debug)]
pub struct Bound {
    pub session_id: String,
    pub instance_id: String,
    pub generation: u64,
}

pub struct BoundV {
    pub session_id: Text,
    pub instance_id: Text,
    pub generation: u64,
}

impl View for Bound {
    type V = BoundV;

    open spec fn view(&self) -> BoundV {
        BoundV {
            session_id: self.session_id@,
            instance_id: self.instance_id@,
            generation: self.generation,
        }
    }
}

impl WireV {
    pub open spec fn message(self, ty: Text, message_id: Text) -> JsonV {
        JsonV::object().with("protocol"@, json::jstr(self.protocol)).with(
            "version"@,
            self.version,
        ).with("type"@, json::jstr(ty)).with("message_id"@, json::jstr(message_id))
    }

    /// A message of the activation `b`.
    pub open spec fn bound(self, b: BoundV, ty: Text, message_id: Text) -> JsonV {
        self.message(ty, message_id).with("session_id"@, json::jstr(b.session_id)).with(
            "instance_id"@,
            json::jstr(b.instance_id),
        ).with("generation"@, json::jstr(text::dec(b.generation as nat)))
    }

    /// An answer of the activation `b`.
    pub open spec fn envelope(
        self,
        b: BoundV,
        ty: Text,
        message_id: Text,
        request_id: Option<Text>,
        body: JsonV,
    ) -> JsonV {
        self.bound(b, ty, message_id).with("request_id"@, json::opt_str(request_id)).with(
            "body"@,
            body,
        )
    }

    pub open spec fn hello(self, token: Text, max_frame: u64) -> JsonV {
        self.message("hello"@, "h1"@).with(
            "body"@,
            JsonV::object().with("launch_token"@, json::jstr(token)).with(
                "versions"@,
                json::str_list(seq!["0.1"@]),
            ).with("max_frame"@, json::jnum(max_frame)).with(
                "client"@,
                json::jstr("matrix-component"@),
            ).with("features"@, json::str_list(seq![dependency_calls()])),
        )
    }

    pub open spec fn register(self, session_id: Text, logical: Text) -> JsonV {
        self.message("component.register"@, "reg1"@).with(
            "session_id"@,
            json::jstr(session_id),
        ).with(
            "body"@,
            JsonV::object().with(
                "manifest"@,
                JsonV::object().with("id"@, json::jstr(logical)),
            ),
        )
    }

    pub open spec fn stream_data(self, b: BoundV, stream_id: Text, seq: u64, payload: Text) -> JsonV {
        self.bound(
            b,
            "stream.data"@,
            "m-"@ + stream_id + "-"@ + text::dec(seq as nat),
        ).with(
            "body"@,
            JsonV::object().with("stream_id"@, json::jstr(stream_id)).with(
                "seq"@,
                json::jstr(text::dec(seq as nat)),
            ).with("payload"@, json::jstr(payload)),
        )
    }

    pub open spec fn dependency_open(
        self,
        b: BoundV,
        n: u64,
        ticket: Text,
        binding: Text,
        timeout_ms: u64,
        input: JsonV,
    ) -> JsonV {
        self.envelope(
            b,
            "dependency.open"@,
            "m-dep-"@ + text::dec(n as nat),
            Some("r-dep-"@ + text::dec(n as nat)),
            JsonV::object().with("parent_ticket"@, json::jstr(ticket)).with(
                "binding_id"@,
                json::jstr(binding),
            ).with("timeout_ms"@, json::jnum(timeout_ms)).with("input"@, input),
        )
    }

    pub open spec fn dependency_cancel(self, b: BoundV, n: u64, target: Text) -> JsonV {
        self.envelope(
            b,
            "dependency.cancel"@,
            "m-dep-cancel-"@ + text::dec(n as nat),
            Some("r-dep-cancel-"@ + text::dec(n as nat)),
            JsonV::object().with("target_request_id"@, json::jstr(target)),
        )
    }

    /// A request for an activation resource: `fields` join its operation id.
    pub open spec fn resource_request(
        self,
        b: BoundV,
        n: u64,
        operation: Text,
        fields: Seq<(Text, JsonV)>,
    ) -> JsonV {
        self.envelope(
            b,
            "resource."@ + operation,
            "m-res-"@ + text::dec(n as nat),
            Some("r-res-"@ + text::dec(n as nat)),
            with_all(
                JsonV::object().with(
                    "operation_id"@,
                    json::jstr("op-res-"@ + text::dec(n as nat)),
                ),
                fields,
            ),
        )
    }

    /// The answer to a step of the lifecycle. `message_id` is `lc1` during
    /// the handshake.
    pub open spec fn lifecycle_result(
        self,
        b: BoundV,
        message_id: Text,
        op: JsonV,
        request_id: Option<Text>,
    ) -> JsonV {
        self.envelope(
            b,
            "lifecycle.result"@,
            message_id,
            request_id,
            JsonV::object().with("operation_id"@, op).with("status"@, json::jstr("ok"@)).with(
                "pending"@,
                JsonV::Array(Seq::empty()),
            ),
        )
    }

    pub open spec fn call_result(
        self,
        b: BoundV,
        ticket: Text,
        out: CallOutcomeV,
        request_id: Option<Text>,
    ) -> JsonV {
        let body = JsonV::object().with("ticket"@, json::jstr(ticket));
        self.envelope(
            b,
            "call.result"@,
            "m-call-"@ + ticket,
            request_id,
            match out {
                CallOutcomeV::Replied(v) => body.with("status"@, json::jstr("ok"@)).with(
                    "output"@,
                    v,
                ),
                CallOutcomeV::Refused { code, message } => body.with(
                    "status"@,
                    json::jstr("error"@),
                ).with(
                    "error"@,
                    JsonV::object().with("code"@, json::jstr(code)).with(
                        "message"@,
                        json::jstr(message),
                    ),
                ),
            },
        )
    }
}

/// An object with further members.
pub open spec fn with_all(v: JsonV, ms: Seq<(Text, JsonV)>) -> JsonV
    decreases ms.len(),
{
    if ms.len() == 0 {
        v
    } else {
        with_all(v, ms.drop_last()).with(ms.last().0, ms.last().1)
    }
}

/// The message id of the answer to a step of the lifecycle.
pub open spec fn lifecycle_id(op: JsonV) -> Text {
    "m-lc-"@ + match op.str_of() {
        Some(s) => s,
        None => "op"@,
    }
}

impl Wire {
    fn message(&self, ty: &str, message_id: &str) -> (r: Json)
        ensures
            r@ == self@.message(ty@, message_id@),
    {
        Json::object().with("protocol", Json::str(&self.protocol)).with(
            "version",
            self.version.copy(),
        ).with("type", Json::str(ty)).with("message_id", Json::str(message_id))
    }

    fn bound(&self, b: &Bound, ty: &str, message_id: &str) -> (r: Json)
        ensures
            r@ == self@.bound(b@, ty@, message_id@),
    {
        let g = text::dec_text(b.generation);
        self.message(ty, message_id).with("session_id", Json::str(&b.session_id)).with(
            "instance_id",
            Json::str(&b.instance_id),
        ).with("generation", Json::str(&g))
    }

    fn envelope(
        &self,
        b: &Bound,
        ty: &str,
        message_id: &str,
        request_id: &Option<String>,
        body: Json,
    ) -> (r: Json)
        ensures
            r@ == self@.envelope(b@, ty@, message_id@, request_id.deep_view(), body@),
    {
        self.bound(b, ty, message_id).with("request_id", Json::opt_str(request_id)).with(
            "body",
            body,
        )
    }

    /// The first message of a session.
    pub fn hello(&self, token: &str, max_frame: u64) -> (r: Json)
        ensures
            r@ == self@.hello(token@, max_frame),
    {
        let mut versions: Vec<String> = Vec::new();
        versions.push("0.1".to_owned());
        let mut features: Vec<String> = Vec::new();
        features.push("dependency-calls/1".to_owned());
        proof {
            assert(versions.deep_view() =~= seq!["0.1"@]);
            assert(features.deep_view() =~= seq![dependency_calls()]);
        }
        let body = Json::object().with("launch_token", Json::str(token)).with(
            "versions",
            Json::str_list(&versions),
        ).with("max_frame", Json::num(max_frame)).with(
            "client",
            Json::str("matrix-component"),
        ).with("features", Json::str_list(&features));
        self.message("hello", "h1").with("body", body)
    }

    /// Registers the component under its logical id.
    pub fn register(&self, session_id: &str, logical: &str) -> (r: Json)
        ensures
            r@ == self@.register(session_id@, logical@),
    {
        let manifest = Json::object().with("id", Json::str(logical));
        self.message("component.register", "reg1").with(
            "session_id",
            Json::str(session_id),
        ).with("body", Json::object().with("manifest", manifest))
    }

    /// One chunk of a stream.
    pub fn stream_data(&self, b: &Bound, stream_id: &str, seq: u64, payload: &str) -> (r: Json)
        ensures
            r@ == self@.stream_data(b@, stream_id@, seq, payload@),
    {
        let n = text::dec_text(seq);
        let mut id = text::join2("m-", stream_id);
        id.append("-");
        id.append(&n);
        let body = Json::object().with("stream_id", Json::str(stream_id)).with(
            "seq",
            Json::str(&n),
        ).with("payload", Json::str(payload));
        self.bound(b, "stream.data", &id).with("body", body)
    }

    /// Asks for a dependency call, under the ticket of the call at hand.
    pub fn dependency_open(
        &self,
        b: &Bound,
        n: u64,
        ticket: &str,
        binding: &str,
        timeout_ms: u64,
        input: Json,
    ) -> (r: Json)
        ensures
            r@ == self@.dependency_open(b@, n, ticket@, binding@, timeout_ms, input@),
    {
        let body = Json::object().with("parent_ticket", Json::str(ticket)).with(
            "binding_id",
            Json::str(binding),
        ).with("timeout_ms", Json::num(timeout_ms)).with("input", input);
        let id = text::numbered("m-dep-", n);
        let rid = text::numbered("r-dep-", n);
        self.envelope(b, "dependency.open", &id, &Some(rid), body)
    }

    /// Cancels a dependency call.
    pub fn dependency_cancel(&self, b: &Bound, n: u64, target: &str) -> (r: Json)
        ensures
            r@ == self@.dependency_cancel(b@, n, target@),
    {
        let id = text::numbered("m-dep-cancel-", n);
        let rid = text::numbered("r-dep-cancel-", n);
        let body = Json::object().with("target_request_id", Json::str(target));
        self.envelope(b, "dependency.cancel", &id, &Some(rid), body)
    }

    /// Asks for an activation resource: a timer comes with its interval.
    pub fn acquire_request(
        &self,
        b: &Bound,
        n: u64,
        kind: &str,
        label: &str,
        interval_ms: Option<u64>,
    ) -> (r: Json)
        ensures
            r@ == self@.resource_request(
                b@,
                n,
                "acquire"@,
                acquire_fields(kind@, label@, interval_ms),
            ),
    {
        let op = text::numbered("op-res-", n);
        let body = Json::object().with("operation_id", Json::str(&op)).with(
            "kind",
            Json::str(kind),
        ).with("label", Json::str(label));
        let body = match interval_ms {
            Some(ms) => body.with("interval_ms", Json::num(ms)),
            None => body,
        };
        proof {
            reveal_with_fuel(with_all, 4);
            let two = seq![("kind"@, json::jstr(kind@)), ("label"@, json::jstr(label@))];
            assert(two.drop_last() =~= seq![("kind"@, json::jstr(kind@))]);
            assert(two.drop_last().drop_last() =~= Seq::<(Text, JsonV)>::empty());
            if interval_ms is Some {
                let three = acquire_fields(kind@, label@, interval_ms);
                assert(three.drop_last() =~= two);
            }
        }
        let id = text::numbered("m-res-", n);
        let rid = text::numbered("r-res-", n);
        let ty = text::join2("resource.", "acquire");
        self.envelope(b, &ty, &id, &Some(rid), body)
    }

    /// Gives an activation resource back.
    pub fn release_request(&self, b: &Bound, n: u64, handle: u64) -> (r: Json)
        ensures
            r@ == self@.resource_request(
                b@,
                n,
                "release"@,
                seq![("handle"@, json::jstr(text::dec(handle as nat)))],
            ),
    {
        let op = text::numbered("op-res-", n);
        let h = text::dec_text(handle);
        let body = Json::object().with("operation_id", Json::str(&op)).with(
            "handle",
            Json::str(&h),
        );
        proof {
            reveal_with_fuel(with_all, 3);
            let one = seq![("handle"@, json::jstr(text::dec(handle as nat)))];
            assert(one.drop_last() =~= Seq::<(Text, JsonV)>::empty());
        }
        let id = text::numbered("m-res-", n);
        let rid = text::numbered("r-res-", n);
        let ty = text::join2("resource.", "release");
        self.envelope(b, &ty, &id, &Some(rid), body)
    }

    fn lifecycle_body(op: Json) -> (r: Json)
        ensures
            r@ == JsonV::object().with("operation_id"@, op@).with(
                "status"@,
                json::jstr("ok"@),
            ).with("pending"@, JsonV::Array(Seq::empty())),
    {
        let none: Vec<Json> = Vec::new();
        assert(none.deep_view() =~= Seq::<JsonV>::empty());
        Json::object().with("operation_id", op).with("status", Json::str("ok")).with(
            "pending",
            Json::list(none),
        )
    }

    /// Confirms the activation during the handshake.
    pub fn activated(&self, b: &Bound, op: Json, request_id: &Option<String>) -> (r: Json)
        ensures
            r@ == self@.lifecycle_result(b@, "lc1"@, op@, request_id.deep_view()),
    {
        self.envelope(b, "lifecycle.result", "lc1", request_id, Self::lifecycle_body(op))
    }

    /// Confirms a later step of the lifecycle.
    pub fn lifecycle_result(&self, b: &Bound, op: Json, request_id: &Option<String>) -> (r: Json)
        ensures
            r@ == self@.lifecycle_result(b@, lifecycle_id(op@), op@, request_id.deep_view()),
    {
        let id = match op.as_str() {
            Some(s) => text::join2("m-lc-", s),
            None => text::join2("m-lc-", "op"),
        };
        self.envelope(b, "lifecycle.result", &id, request_id, Self::lifecycle_body(op))
    }

    /// The result of a call.
    pub fn call_result(
        &self,
        b: &Bound,
        ticket: &str,
        out: CallOutcome,
        request_id: &Option<String>,
    ) -> (r: Json)
        ensures
            r@ == self@.call_result(b@, ticket@, out@, request_id.deep_view()),
    {
        let body = Json::object().with("ticket", Json::str(ticket));
        let body = match out {
            CallOutcome::Replied(v) => body.with("status", Json::str("ok")).with("output", v),
            CallOutcome::Refused { code, message } => {
                let e = Json::object().with("code", Json::str(&code)).with(
                    "message",
                    Json::str(&message),
                );
                body.with("status", Json::str("error")).with("error", e)
            },
        };
        let id = text::join2("m-call-", ticket);
        self.envelope(b, "call.result", &id, request_id, body)
    }
}

/// The fields of a request for a resource.
pub open spec fn acquire_fields(kind: Text, label: Text, interval_ms: Option<u64>) -> Seq<
    (Text, JsonV),
> {
    let two = seq![("kind"@, json::jstr(kind)), ("label"@, json::jstr(label))];
    match interval_ms {
        Some(ms) => two.push(("interval_ms"@, json::jnum(ms))),
        None => two,
    }
}

// ---- messages of the host --------------------------------------------

/// A message of the host, taken apart.
#[derive(Debug)]
pub struct Envelope {
    pub ty: String,
    pub session_id: Option<String>,
    pub instance_id: Option<String>,
    pub generation: Option<u64>,
    pub request_id: Option<String>,
    pub body: Json,
}

pub struct EnvelopeV {
    pub ty: Text,
    pub session_id: Option<Text>,
    pub instance_id: Option<Text>,
    pub generation: Option<u64>,
    pub request_id: Option<Text>,
    pub body: JsonV,
}

impl View for Envelope {
    type V = EnvelopeV;

    open spec fn view(&self) -> EnvelopeV {
        EnvelopeV {
            ty: self.ty@,
            session_id: self.session_id.deep_view(),
            instance_id: self.instance_id.deep_view(),
            generation: self.generation,
            request_id: self.request_id.deep_view(),
            body: self.body@,
        }
    }
}

/// The string member `k`, or `d` where there is none.
pub open spec fn str_or(v: JsonV, k: Text, d: Text) -> Text {
    match v.str_at(k) {
        Some(s) => s,
        None => d,
    }
}

fn read_str(v: &Json, k: &str, d: &str) -> (r: String)
    ensures
        r@ == str_or(v@, k@, d@),
{
    match v.str_at(k) {
        Some(s) => s.clone(),
        None => d.to_owned(),
    }
}

/// The member `k`, or `d` where there is none.
pub open spec fn member_or(v: JsonV, k: Text, d: JsonV) -> JsonV {
    match v.get(k) {
        Some(x) => x,
        None => d,
    }
}

fn read_member(v: &Json, k: &str, d: Json) -> (r: Json)
    ensures
        r@ == member_or(v@, k@, d@),
{
    match v.get(k) {
        Some(x) => x.copy(),
        None => d,
    }
}

/// What the host's welcome settles.
#[derive(Debug)]
pub struct Welcome {
    pub session_id: String,
    pub max_frame: u64,
    pub features: Vec<String>,
}

pub struct WelcomeV {
    pub session_id: Text,
    pub max_frame: u64,
    pub features: Seq<Text>,
}

impl View for Welcome {
    type V = WelcomeV;

    open spec fn view(&self) -> WelcomeV {
        WelcomeV {
            session_id: self.session_id@,
            max_frame: self.max_frame,
            features: self.features.deep_view(),
        }
    }
}

/// The strings among a list of values.
pub open spec fn strings_of(vs: Seq<JsonV>) -> Seq<Text>
    decreases vs.len(),
{
    if vs.len() == 0 {
        Seq::empty()
    } else {
        match vs.last() {
            JsonV::Str(s) => strings_of(vs.drop_last()).push(s),
            _ => strings_of(vs.drop_last()),
        }
    }
}

fn read_strings(a: &Vec<Json>) -> (r: Vec<String>)
    ensures
        r.deep_view() == strings_of(a.deep_view()),
{
    let ghost vs = a.deep_view();
    let mut out: Vec<String> = Vec::new();
    let mut i: usize = 0;
    proof {
        assert(vs.take(0) =~= Seq::<JsonV>::empty());
        assert(out.deep_view() =~= Seq::<Text>::empty());
    }
    while i < a.len()
        invariant
            i <= a.len(),
            vs == a.deep_view(),
            out.deep_view() == strings_of(vs.take(i as int)),
        decreases a.len() - i,
    {
        proof {
            assert(vs.take(i + 1).drop_last() =~= vs.take(i as int));
            assert(vs.take(i + 1).last() == a[i as int]@);
        }
        if let Some(s) = a[i].as_str() {
            let ghost before = out.deep_view();
            out.push(s.clone());
            assert(out.deep_view() =~= before.push(s@));
        }
        i += 1;
    }
    proof {
        assert(vs.take(vs.len() as int) =~= vs);
    }
    out
}

/// The list member `k`; empty where there is none.
pub open spec fn list_at(v: JsonV, k: Text) -> Seq<JsonV> {
    match v.get(k) {
        Some(JsonV::Array(a)) => a,
        _ => Seq::empty(),
    }
}

/// The handles that an activation announces: those with an id and a
/// capability.
pub open spec fn announced(vs: Seq<JsonV>) -> Seq<DepBindingV>
    decreases vs.len(),
{
    if vs.len() == 0 {
        Seq::empty()
    } else {
        let rest = announced(vs.drop_last());
        match (vs.last().str_at("binding_id"@), vs.last().str_at("capability"@)) {
            (Some(id), Some(capability)) => if id.len() > 0 && capability.len() > 0 {
                rest.push(DepBindingV { id, capability })
            } else {
                rest
            },
            _ => rest,
        }
    }
}

fn read_announced(a: &Vec<Json>) -> (r: Vec<DepBinding>)
    ensures
        r.deep_view() == announced(a.deep_view()),
{
    let ghost vs = a.deep_view();
    let mut out: Vec<DepBinding> = Vec::new();
    let mut i: usize = 0;
    proof {
        assert(vs.take(0) =~= Seq::<JsonV>::empty());
        assert(out.deep_view() =~= Seq::<DepBindingV>::empty());
    }
    while i < a.len()
        invariant
            i <= a.len(),
            vs == a.deep_view(),
            out.deep_view() == announced(vs.take(i as int)),
        decreases a.len() - i,
    {
        proof {
            assert(vs.take(i + 1).drop_last() =~= vs.take(i as int));
            assert(vs.take(i + 1).last() == a[i as int]@);
        }
        if let Some(id) = a[i].str_at("binding_id") {
            if let Some(capability) = a[i].str_at("capability") {
                if !id.as_str().is_empty() && !capability.as_str().is_empty() {
                    let b = DepBinding { id: id.clone(), capability: capability.clone() };
                    let ghost before = out.deep_view();
                    let ghost v = b@;
                    out.push(b);
                    assert(out.deep_view() =~= before.push(v));
                }
            }
        }
        i += 1;
    }
    proof {
        assert(vs.take(vs.len() as int) =~= vs);
    }
    out
}

/// What a call of the component may wait for.
#[derive(Debug, Clone, Copy, PartialEq, Eq, Structural)]
pub enum Awaited {
    Dependency,
    Resource,
}

/// What to do while an answer is awaited.
#[derive(Debug)]
pub enum Wait {
    /// Give up; `cancel` says whether the host is told.
    GiveUp { code: &'static str, message: &'static str, cancel: bool },
    /// Wait for so many nanoseconds and look again.
    For(u128),
}

pub enum WaitV {
    GiveUp { code: Text, message: Text, cancel: bool },
    For(u128),
}

impl View for Wait {
    type V = WaitV;

    open spec fn view(&self) -> WaitV {
        match self {
            Wait::GiveUp { code, message, cancel } => WaitV::GiveUp {
                code: code@,
                message: message@,
                cancel: *cancel,
            },
            Wait::For(n) => WaitV::For(*n),
        }
    }
}

/// What a local wait adds to the time that a call asked for: the way there
/// and back, and the whole time of a resource request.
pub const SLACK_NANOS: u128 = 10_000_000_000;

/// When an answer is given up: a dependency call has its own time besides.
pub fn wait_until(what: Awaited, now: Instant, timeout_nanos: u128) -> (r: Instant)
    requires
        now.nanos + timeout_nanos + SLACK_NANOS <= u128::MAX,
    ensures
        r.nanos == now.nanos + SLACK_NANOS + match what {
            Awaited::Dependency => timeout_nanos,
            Awaited::Resource => 0,
        },
{
    match what {
        Awaited::Dependency => Instant { nanos: now.nanos + timeout_nanos + SLACK_NANOS },
        Awaited::Resource => Instant { nanos: now.nanos + SLACK_NANOS },
    }
}

/// What to do while an answer is awaited until `until`.
pub open spec fn waiting(what: Awaited, cancelled: bool, now: Instant, until: Instant) -> WaitV {
    if cancelled {
        WaitV::GiveUp {
            code: "cancelled"@,
            message: "parent cancelled"@,
            cancel: what == Awaited::Dependency,
        }
    } else if now.nanos >= until.nanos {
        WaitV::GiveUp {
            code: "outcome-unknown"@,
            message: match what {
                Awaited::Dependency => "sdk wait timeout"@,
                Awaited::Resource => "resource wait timeout"@,
            },
            cancel: what == Awaited::Dependency,
        }
    } else {
        WaitV::For(
            if until.nanos - now.nanos < 50_000_000 {
                (until.nanos - now.nanos) as u128
            } else {
                50_000_000
            },
        )
    }
}

/// What to do while an answer is awaited: the parent's cancellation and the
/// local deadline end the wait, else it goes on in short turns.
pub fn next_wait(what: Awaited, cancelled: bool, now: Instant, until: Instant) -> (r: Wait)
    ensures
        r@ == waiting(what, cancelled, now, until),
{
    let dep = what == Awaited::Dependency;
    if cancelled {
        Wait::GiveUp { code: "cancelled", message: "parent cancelled", cancel: dep }
    } else if now.nanos >= until.nanos {
        let message: &'static str = if dep {
            "sdk wait timeout"
        } else {
            "resource wait timeout"
        };
        Wait::GiveUp { code: "outcome-unknown", message, cancel: dep }
    } else {
        let left: u128 = until.nanos - now.nanos;
        Wait::For(
            if left < 50_000_000 {
                left
            } else {
                50_000_000
            },
        )
    }
}

/// Why a dependency call is refused before anything is sent.
pub open spec fn dependency_refusal(features: Seq<Text>, timeout_ms: u64, on_reader: bool) -> Option<
    WireErrorV,
> {
    if !features.contains(dependency_calls()) {
        Some(wire_error("unsupported-feature"@, "dependency calls not negotiated"@))
    } else if timeout_ms == 0 {
        Some(wire_error("invalid-message"@, "timeout must be positive"@))
    } else if on_reader {
        Some(wire_error("internal"@, "blocking call on reader thread"@))
    } else {
        None
    }
}

/// Checks a dependency call before anything is sent: the extension has to be
/// negotiated, and the caller must not be the thread that reads the answer.
pub fn check_dependency(features: &Vec<String>, timeout_ms: u64, on_reader: bool) -> (r: Result<
    (),
    DepError,
>)
    ensures
        match dependency_refusal(features.deep_view(), timeout_ms, on_reader) {
            Some(e) => r matches Err(x) && x@ == e,
            None => r is Ok,
        },
{
    if !text::contains_text(features, "dependency-calls/1") {
        return Err(DepError::new("unsupported-feature", "dependency calls not negotiated"));
    }
    if timeout_ms == 0 {
        return Err(DepError::new("invalid-message", "timeout must be positive"));
    }
    if on_reader {
        return Err(DepError::new("internal", "blocking call on reader thread"));
    }
    Ok(())
}

/// Checks a resource call before anything is sent: the caller must not be
/// the thread that reads the answer.
pub fn check_resource(on_reader: bool) -> (r: Result<(), ResError>)
    ensures
        on_reader ==> (r matches Err(e) && e@ == wire_error(
            "internal"@,
            "blocking call on reader thread"@,
        )),
        !on_reader ==> r is Ok,
{
    if on_reader {
        return Err(ResError::new("internal", "blocking call on reader thread"));
    }
    Ok(())
}

/// The handle that the host gave for a resource.
pub fn handle_in(extra: &Json) -> (r: Result<u64, ResError>)
    ensures
        match extra@.str_at("handle"@) {
            Some(s) => match text::parsed_u64(s) {
                Some(n) => r matches Ok(h) && h == n,
                None => r matches Err(e) && e@ == wire_error("internal"@, "missing handle"@),
            },
            None => r matches Err(e) && e@ == wire_error("internal"@, "missing handle"@),
        },
{
    if let Some(s) = extra.str_at("handle") {
        if let Some(n) = text::parse_u64(s) {
            return Ok(n);
        }
    }
    Err(ResError::new("internal", "missing handle"))
}

/// What a message of the host asks for.
#[derive(Debug)]
#[allow(inconsistent_fields)]
pub enum Action {
    Ignore,
    /// Confirm a step of the lifecycle; the last one ends the session.
    Confirm { operation_id: Json, last: bool },
    /// Run a call.
    Call { ticket: String, capability: String, input: Json },
    /// Signal a running call.
    Cancel { ticket: String },
    /// Hand the result to whoever asked for the dependency call.
    Dependency { request_id: String, result: Result<Json, DepError> },
    /// Hand the result to whoever asked for the resource.
    Resource { request_id: String, result: Result<Json, ResError> },
    /// Queue an event or a chunk.
    Queue(DepEvent),
}

#[allow(inconsistent_fields)]
pub enum ActionV {
    Ignore,
    Confirm { operation_id: JsonV, last: bool },
    Call { ticket: Text, capability: Text, input: JsonV },
    Cancel { ticket: Text },
    Dependency { request_id: Text, result: Result<JsonV, WireErrorV> },
    Resource { request_id: Text, result: Result<JsonV, WireErrorV> },
    Queue(DepEventV),
}

impl View for Action {
    type V = ActionV;

    open spec fn view(&self) -> ActionV {
        match self {
            Action::Ignore => ActionV::Ignore,
            Action::Confirm { operation_id, last } => ActionV::Confirm {
                operation_id: operation_id@,
                last: *last,
            },
            Action::Call { ticket, capability, input } => ActionV::Call {
                ticket: ticket@,
                capability: capability@,
                input: input@,
            },
            Action::Cancel { ticket } => ActionV::Cancel { ticket: ticket@ },
            Action::Dependency { request_id, result } => ActionV::Dependency {
                request_id: request_id@,
                result: dep_outcome(*result),
            },
            Action::Resource { request_id, result } => ActionV::Resource {
                request_id: request_id@,
                result: res_outcome(*result),
            },
            Action::Queue(ev) => ActionV::Queue(ev@),
        }
    }
}

/// The members of an object other than the operation id and the status.
pub open spec fn extras(ms: Seq<(Text, JsonV)>) -> JsonV
    decreases ms.len(),
{
    if ms.len() == 0 {
        JsonV::object()
    } else {
        let rest = extras(ms.drop_last());
        let k = ms.last().0;
        if k != "operation_id"@ && k != "status"@ {
            rest.with(k, ms.last().1)
        } else {
            rest
        }
    }
}

fn read_extras(ms: &Vec<(String, Json)>) -> (r: Json)
    ensures
        r@ == extras(ms.deep_view()),
{
    let ghost s = ms.deep_view();
    let mut out = Json::object();
    let mut i: usize = 0;
    proof {
        assert(s.take(0) =~= Seq::<(Text, JsonV)>::empty());
    }
    while i < ms.len()
        invariant
            i <= ms.len(),
            s == ms.deep_view(),
            out@ == extras(s.take(i as int)),
        decreases ms.len() - i,
    {
        proof {
            assert(s.take(i + 1).drop_last() =~= s.take(i as int));
            assert(s.take(i + 1).last() == (ms[i as int].0@, ms[i as int].1@));
        }
        let k = &ms[i].0;
        if !text::same(k, "operation_id") && !text::same(k, "status") {
            out = out.with(k, ms[i].1.copy());
        }
        i += 1;
    }
    proof {
        assert(s.take(s.len() as int) =~= s);
    }
    out
}

impl EnvelopeV {
    /// Whether the message is for the activation `b`: its session has to be
    /// named, its instance and generation must not be others.
    pub open spec fn is_for(self, b: BoundV) -> bool {
        &&& self.session_id == Some(b.session_id)
        &&& self.instance_id matches Some(i) ==> i == b.instance_id
        &&& self.generation matches Some(g) ==> g == b.generation
    }

    /// What the welcome settles.
    pub open spec fn welcome(self, default_frame: u64) -> Result<WelcomeV, Text> {
        if self.ty != "welcome"@ {
            Err("esperava welcome, veio "@ + self.ty)
        } else {
            match self.session_id {
                None => Err("welcome without session"@),
                Some(session_id) => Ok(
                    WelcomeV {
                        session_id,
                        max_frame: match self.body.u64_at("max_frame"@) {
                            Some(n) => n,
                            None => default_frame,
                        },
                        features: strings_of(list_at(self.body, "features"@)),
                    },
                ),
            }
        }
    }

    /// The activation that the registration gives. `shown` is its body as
    /// shown in messages.
    pub open spec fn registered(self, session_id: Text, shown: Text) -> Result<BoundV, Text> {
        if self.ty != "registered"@ {
            Err("registro rejeitado: "@ + shown)
        } else {
            match (self.instance_id, self.generation) {
                (None, _) => Err("registered without instance"@),
                (_, None) => Err("registered without generation"@),
                (Some(instance_id), Some(generation)) => Ok(
                    BoundV { session_id, instance_id, generation },
                ),
            }
        }
    }

    /// The operation of the step of the lifecycle.
    pub open spec fn operation(self) -> JsonV {
        member_or(self.body, "operation_id"@, json::jstr("op?"@))
    }

    /// The operation and the handles of the activation.
    pub open spec fn activation(self) -> Result<(JsonV, Seq<DepBindingV>), Text> {
        if self.ty != "lifecycle.activate"@ {
            Err("esperava activate, veio "@ + self.ty)
        } else {
            Ok((self.operation(), announced(list_at(self.body, "dependency_bindings"@))))
        }
    }

    /// The result of a dependency call.
    pub open spec fn dependency_result(self) -> Result<JsonV, WireErrorV> {
        if str_or(self.body, "status"@, Seq::empty()) == "ok"@ {
            Ok(member_or(self.body, "output"@, JsonV::Null))
        } else {
            let e = member_or(self.body, "error"@, JsonV::object());
            Err(
                wire_error(
                    str_or(e, "code"@, "internal"@),
                    str_or(e, "message"@, "remote error"@),
                ),
            )
        }
    }

    /// The result of a resource request.
    pub open spec fn resource_result(self) -> Result<JsonV, WireErrorV> {
        if str_or(self.body, "status"@, Seq::empty()) == "ok"@ {
            Ok(
                match self.body.object_of() {
                    Some(ms) => extras(ms),
                    None => JsonV::object(),
                },
            )
        } else {
            Err(
                wire_error(
                    str_or(self.body, "code"@, "internal"@),
                    str_or(self.body, "message"@, "remote error"@),
                ),
            )
        }
    }

    /// The chunk of a stream; one without a number is none.
    pub open spec fn chunk(self) -> ActionV {
        let stream_id = str_or(self.body, "stream_id"@, Seq::empty());
        match self.body.str_at("seq"@) {
            Some(s) => match text::parsed_u64(s) {
                Some(seq) => if stream_id.len() > 0 && seq != u64::MAX {
                    ActionV::Queue(
                        DepEventV::Stream {
                            stream_id,
                            seq,
                            payload: str_or(self.body, "payload"@, Seq::empty()),
                        },
                    )
                } else {
                    ActionV::Ignore
                },
                None => ActionV::Ignore,
            },
            None => ActionV::Ignore,
        }
    }

    /// What the message asks of the activation `b`.
    pub open spec fn action(self, b: BoundV) -> ActionV {
        if !self.is_for(b) {
            ActionV::Ignore
        } else if self.ty == "lifecycle.prepare"@ || self.ty == "lifecycle.activate"@ {
            ActionV::Confirm { operation_id: self.operation(), last: false }
        } else if self.ty == "lifecycle.quiesce"@ || self.ty == "lifecycle.dispose"@ {
            ActionV::Confirm { operation_id: self.operation(), last: true }
        } else if self.ty == "call.open"@ {
            ActionV::Call {
                ticket: str_or(self.body, "ticket"@, Seq::empty()),
                capability: str_or(self.body, "capability"@, Seq::empty()),
                input: member_or(self.body, "input"@, JsonV::Null),
            }
        } else if self.ty == "call.cancel"@ {
            ActionV::Cancel { ticket: str_or(self.body, "ticket"@, Seq::empty()) }
        } else if self.ty == "dependency.result"@ {
            match self.request_id {
                Some(request_id) => ActionV::Dependency {
                    request_id,
                    result: self.dependency_result(),
                },
                None => ActionV::Ignore,
            }
        } else if self.ty == "resource.result"@ {
            match self.request_id {
                Some(request_id) => ActionV::Resource {
                    request_id,
                    result: self.resource_result(),
                },
                None => ActionV::Ignore,
            }
        } else if self.ty == "event.deliver"@ {
            let topic = str_or(self.body, "topic"@, Seq::empty());
            if topic.len() > 0 {
                ActionV::Queue(
                    DepEventV::Event {
                        topic,
                        payload: member_or(self.body, "payload"@, JsonV::Null),
                    },
                )
            } else {
                ActionV::Ignore
            }
        } else if self.ty == "stream.data"@ {
            self.chunk()
        } else {
            ActionV::Ignore
        }
    }
}

fn empty_list() -> (r: Vec<Json>)
    ensures
        r.deep_view() == Seq::<JsonV>::empty(),
{
    let r: Vec<Json> = Vec::new();
    assert(r.deep_view() =~= Seq::<JsonV>::empty());
    r
}

impl Envelope {
    fn is_for(&self, b: &Bound) -> (r: bool)
        ensures
            r == self@.is_for(b@),
    {
        let session = match &self.session_id {
            Some(s) => text::same(s, &b.session_id),
            None => false,
        };
        let instance = match &self.instance_id {
            Some(i) => text::same(i, &b.instance_id),
            None => true,
        };
        let generation = match self.generation {
            Some(g) => g == b.generation,
            None => true,
        };
        session && instance && generation
    }

    /// Reads the host's welcome.
    pub fn welcome(&self, default_frame: u64) -> (r: Result<Welcome, String>)
        ensures
            match self@.welcome(default_frame) {
                Ok(w) => r matches Ok(x) && x@ == w,
                Err(e) => r matches Err(m) && m@ == e,
            },
    {
        if !text::same(&self.ty, "welcome") {
            return Err(text::join2("esperava welcome, veio ", &self.ty));
        }
        let session_id = match &self.session_id {
            Some(s) => s.clone(),
            None => return Err("welcome without session".to_owned()),
        };
        let max_frame: u64 = match self.body.u64_at("max_frame") {
            Some(n) => n,
            None => default_frame,
        };
        let none = empty_list();
        let features = match self.body.get("features") {
            Some(v) => match v.as_array() {
                Some(a) => read_strings(a),
                None => read_strings(&none),
            },
            None => read_strings(&none),
        };
        Ok(Welcome { session_id, max_frame, features })
    }

    /// Reads the answer to the registration.
    pub fn registered(&self, session_id: &str, shown: &str) -> (r: Result<Bound, String>)
        ensures
            match self@.registered(session_id@, shown@) {
                Ok(b) => r matches Ok(x) && x@ == b,
                Err(e) => r matches Err(m) && m@ == e,
            },
    {
        if !text::same(&self.ty, "registered") {
            return Err(text::join2("registro rejeitado: ", shown));
        }
        let instance_id = match &self.instance_id {
            Some(s) => s.clone(),
            None => return Err("registered without instance".to_owned()),
        };
        match self.generation {
            Some(generation) => Ok(
                Bound { session_id: session_id.to_owned(), instance_id, generation },
            ),
            None => Err("registered without generation".to_owned()),
        }
    }

    fn operation(&self) -> (r: Json)
        ensures
            r@ == self@.operation(),
    {
        read_member(&self.body, "operation_id", Json::str("op?"))
    }

    /// Reads the activation: its operation and its handles.
    pub fn activation(&self) -> (r: Result<(Json, Vec<DepBinding>), String>)
        ensures
            match self@.activation() {
                Ok(a) => r matches Ok(x) && x.0@ == a.0 && x.1.deep_view() == a.1,
                Err(e) => r matches Err(m) && m@ == e,
            },
    {
        if !text::same(&self.ty, "lifecycle.activate") {
            return Err(text::join2("esperava activate, veio ", &self.ty));
        }
        let none = empty_list();
        let handles = match self.body.get("dependency_bindings") {
            Some(v) => match v.as_array() {
                Some(a) => read_announced(a),
                None => read_announced(&none),
            },
            None => read_announced(&none),
        };
        Ok((self.operation(), handles))
    }

    fn dependency_result(&self) -> (r: Result<Json, DepError>)
        ensures
            dep_outcome(r) == self@.dependency_result(),
    {
        let status = read_str(&self.body, "status", "");
        proof {
            reveal_strlit("");
            assert(""@ =~= Seq::<char>::empty());
        }
        if text::same(&status, "ok") {
            return Ok(read_member(&self.body, "output", Json::Null));
        }
        let e = read_member(&self.body, "error", Json::object());
        Err(
            DepError {
                code: read_str(&e, "code", "internal"),
                message: read_str(&e, "message", "remote error"),
            },
        )
    }

    fn resource_result(&self) -> (r: Result<Json, ResError>)
        ensures
            res_outcome(r) == self@.resource_result(),
    {
        let status = read_str(&self.body, "status", "");
        proof {
            reveal_strlit("");
            assert(""@ =~= Seq::<char>::empty());
        }
        if text::same(&status, "ok") {
            return match self.body.as_object() {
                Some(ms) => Ok(read_extras(ms)),
                None => Ok(Json::object()),
            };
        }
        Err(
            ResError {
                code: read_str(&self.body, "code", "internal"),
                message: read_str(&self.body, "message", "remote error"),
            },
        )
    }

    fn chunk(&self) -> (r: Action)
        ensures
            r@ == self@.chunk(),
    {
        proof {
            reveal_strlit("");
            assert(""@ =~= Seq::<char>::empty());
        }
        let stream_id = read_str(&self.body, "stream_id", "");
        if let Some(s) = self.body.str_at("seq") {
            if let Some(seq) = text::parse_u64(s) {
                if !stream_id.as_str().is_empty() && seq != u64::MAX {
                    let payload = read_str(&self.body, "payload", "");
                    return Action::Queue(DepEvent::Stream { stream_id, seq, payload });
                }
            }
        }
        Action::Ignore
    }

    /// What the message asks of the activation `b`. A message for another
    /// session, instance or generation asks for nothing.
    pub fn action(&self, b: &Bound) -> (r: Action)
        ensures
            r@ == self@.action(b@),
    {
        proof {
            reveal_strlit("");
            assert(""@ =~= Seq::<char>::empty());
        }
        if !self.is_for(b) {
            return Action::Ignore;
        }
        let ty = &self.ty;
        if text::same(ty, "lifecycle.prepare") || text::same(ty, "lifecycle.activate") {
            Action::Confirm { operation_id: self.operation(), last: false }
        } else if text::same(ty, "lifecycle.quiesce") || text::same(ty, "lifecycle.dispose") {
            Action::Confirm { operation_id: self.operation(), last: true }
        } else if text::same(ty, "call.open") {
            Action::Call {
                ticket: read_str(&self.body, "ticket", ""),
                capability: read_str(&self.body, "capability", ""),
                input: read_member(&self.body, "input", Json::Null),
            }
        } else if text::same(ty, "call.cancel") {
            Action::Cancel { ticket: read_str(&self.body, "ticket", "") }
        } else if text::same(ty, "dependency.result") {
            match &self.request_id {
                Some(rid) => Action::Dependency {
                    request_id: rid.clone(),
                    result: self.dependency_result(),
                },
                None => Action::Ignore,
            }
        } else if text::same(ty, "resource.result") {
            match &self.request_id {
                Some(rid) => Action::Resource {
                    request_id: rid.clone(),
                    result: self.resource_result(),
                },
                None => Action::Ignore,
            }
        } else if text::same(ty, "event.deliver") {
            let topic = read_str(&self.body, "topic", "");
            if topic.as_str().is_empty() {
                Action::Ignore
            } else {
                let payload = read_member(&self.body, "payload", Json::Null);
                Action::Queue(DepEvent::Event { topic, payload })
            }
        } else if text::same(ty, "stream.data") {
            self.chunk()
        } else {
            Action::Ignore
        }
    }
}

/// A message for another session, instance or generation never reaches the
/// component.
pub proof fn stale_messages_are_ignored(e: EnvelopeV, b: BoundV)
    requires
        e.session_id != Some(b.session_id) || (e.instance_id matches Some(i) && i
            != b.instance_id) || (e.generation matches Some(g) && g != b.generation),
    ensures
        e.action(b) == ActionV::Ignore,
{
}

} // verus!
