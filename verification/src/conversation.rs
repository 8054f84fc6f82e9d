//! What a component and its host say to each other: which member of a message
//! holds what, and what is taken from a message that arrives.

use vstd::prelude::*;
use vstd::string::*;
use crate::component;
use crate::component::{
    ActionV, Awaited, BoundV, CallOutcomeV, DepBindingV, DepEventV, EnvelopeV, EventQueueV,
    WaitV, WireErrorV, WireV,
};
use crate::declarations;
use crate::json;
use crate::json::JsonV;
use crate::text;
use crate::text::Text;
use crate::time::Instant;

verus! {

// ---- building messages ------------------------------------------------

/// Whether a value is an object with ascending names.
pub open spec fn is_record(v: JsonV) -> bool {
    v is Object && json::ordered_members(v->Object_0)
}

pub(crate) proof fn blank_record()
    ensures
        is_record(JsonV::object()),
        forall|o: Text| #[trigger] JsonV::object().get(o) is None,
{
    let ks = Seq::new(0, |i: int| Seq::<(Text, JsonV)>::empty()[i].0);
    assert(text::ascending(ks));
    assert(json::ordered_members(Seq::empty()));
}

/// A member that is set is found, and the others stay.
pub(crate) proof fn added(v: JsonV, k: Text, x: JsonV)
    requires
        is_record(v),
    ensures
        is_record(v.with(k, x)),
        v.with(k, x).get(k) == Some(x),
        forall|o: Text| o != k ==> #[trigger] v.with(k, x).get(o) == v.get(o),
{
    json::with_keeps_order(v->Object_0, k, x);
    assert forall|o: Text| o != k implies #[trigger] v.with(k, x).get(o) == v.get(o) by {
        declarations::written_members_are_read(v->Object_0, k, x, o);
    }
}

/// The names of the members of every message differ.
proof fn names_differ()
    ensures
        "protocol"@.len() == 8,
        "version"@.len() == 7,
        "type"@.len() == 4 && "type"@[0] == 't',
        "body"@.len() == 4 && "body"@[0] == 'b',
        "instance_id"@.len() == 11,
        "message_id"@.len() == 10 && "message_id"@[0] == 'm',
        "session_id"@.len() == 10 && "session_id"@[0] == 's',
        "generation"@.len() == 10 && "generation"@[0] == 'g',
        "request_id"@.len() == 10 && "request_id"@[0] == 'r',
{
    reveal_strlit("protocol");
    reveal_strlit("version");
    reveal_strlit("type");
    reveal_strlit("body");
    reveal_strlit("instance_id");
    reveal_strlit("message_id");
    reveal_strlit("session_id");
    reveal_strlit("generation");
    reveal_strlit("request_id");
}

/// Whether a message names the protocol, its version, its type and itself.
pub open spec fn is_named(m: JsonV, w: WireV, ty: Text, message_id: Text) -> bool {
    &&& m.get("protocol"@) == Some(JsonV::Str(w.protocol))
    &&& m.get("version"@) == Some(w.version)
    &&& m.get("type"@) == Some(JsonV::Str(ty))
    &&& m.get("message_id"@) == Some(JsonV::Str(message_id))
}

/// Whether a message names the session, the instance and the generation `b`.
pub open spec fn is_bound(m: JsonV, b: BoundV) -> bool {
    &&& m.get("session_id"@) == Some(JsonV::Str(b.session_id))
    &&& m.get("instance_id"@) == Some(JsonV::Str(b.instance_id))
    &&& m.get("generation"@) == Some(JsonV::Str(text::dec(b.generation as nat)))
}

/// Whether a message answers or makes the request `request_id`.
pub open spec fn is_request(m: JsonV, request_id: Option<Text>) -> bool {
    m.get("request_id"@) == Some(
        match request_id {
            Some(r) => JsonV::Str(r),
            None => JsonV::Null,
        },
    )
}

proof fn messages_are_named(w: WireV, ty: Text, message_id: Text)
    ensures
        is_record(w.message(ty, message_id)),
        is_named(w.message(ty, message_id), w, ty, message_id),
{
    names_differ();
    blank_record();
    let a = JsonV::object().with("protocol"@, json::jstr(w.protocol));
    let b = a.with("version"@, w.version);
    let c = b.with("type"@, json::jstr(ty));
    added(JsonV::object(), "protocol"@, json::jstr(w.protocol));
    added(a, "version"@, w.version);
    added(b, "type"@, json::jstr(ty));
    added(c, "message_id"@, json::jstr(message_id));
}

proof fn bound_messages_are_bound(w: WireV, b: BoundV, ty: Text, message_id: Text)
    ensures
        is_record(w.bound(b, ty, message_id)),
        is_named(w.bound(b, ty, message_id), w, ty, message_id),
        is_bound(w.bound(b, ty, message_id), b),
{
    names_differ();
    messages_are_named(w, ty, message_id);
    let m = w.message(ty, message_id);
    let s = m.with("session_id"@, json::jstr(b.session_id));
    let i = s.with("instance_id"@, json::jstr(b.instance_id));
    added(m, "session_id"@, json::jstr(b.session_id));
    added(s, "instance_id"@, json::jstr(b.instance_id));
    added(i, "generation"@, json::jstr(text::dec(b.generation as nat)));
}

/// Every answer and every request of an activation names the protocol, the
/// type, itself, its session, its instance, its generation and its request,
/// each under its own name, and carries its body.
pub proof fn messages_say_whose_they_are(
    w: WireV,
    b: BoundV,
    ty: Text,
    message_id: Text,
    request_id: Option<Text>,
    body: JsonV,
)
    ensures
        ({
            let m = w.envelope(b, ty, message_id, request_id, body);
            &&& is_named(m, w, ty, message_id)
            &&& is_bound(m, b)
            &&& is_request(m, request_id)
            &&& m.get("body"@) == Some(body)
        }),
{
    names_differ();
    bound_messages_are_bound(w, b, ty, message_id);
    let m = w.bound(b, ty, message_id);
    added(m, "request_id"@, json::opt_str(request_id));
    added(m.with("request_id"@, json::opt_str(request_id)), "body"@, body);
}

/// The first message shows the token, the largest frame that is taken, the
/// version 0.1 and the extension for dependency calls.
pub proof fn greetings_show_the_token(w: WireV, token: Text, max_frame: u64)
    ensures
        ({
            let m = w.hello(token, max_frame);
            let body = m.get("body"@)->0;
            &&& is_named(m, w, "hello"@, "h1"@)
            &&& m.get("body"@) is Some
            &&& body.get("launch_token"@) == Some(JsonV::Str(token))
            &&& body.get("max_frame"@) == Some(JsonV::Unsigned(max_frame))
            &&& body.get("versions"@) == Some(JsonV::Array(seq![JsonV::Str("0.1"@)]))
            &&& body.get("features"@) == Some(
                JsonV::Array(seq![JsonV::Str("dependency-calls/1"@)]),
            )
        }),
{
    names_differ();
    messages_are_named(w, "hello"@, "h1"@);
    blank_record();
    reveal_strlit("launch_token");
    reveal_strlit("versions");
    reveal_strlit("max_frame");
    reveal_strlit("client");
    reveal_strlit("features");
    let vs = json::str_list(seq!["0.1"@]);
    let fs = json::str_list(seq![component::dependency_calls()]);
    let t = JsonV::object().with("launch_token"@, json::jstr(token));
    let v = t.with("versions"@, vs);
    let f = v.with("max_frame"@, json::jnum(max_frame));
    let c = f.with("client"@, json::jstr("matrix-component"@));
    added(JsonV::object(), "launch_token"@, json::jstr(token));
    added(t, "versions"@, vs);
    added(v, "max_frame"@, json::jnum(max_frame));
    added(f, "client"@, json::jstr("matrix-component"@));
    added(c, "features"@, fs);
    assert("versions"@[0] != "features"@[0]);
    assert(vs->Array_0 =~= seq![JsonV::Str("0.1"@)]);
    assert(fs->Array_0 =~= seq![JsonV::Str("dependency-calls/1"@)]);
    added(w.message("hello"@, "h1"@), "body"@, c.with("features"@, fs));
}

/// A registration names the session and, in its body, the logical id of the
/// component.
pub proof fn registrations_name_the_component(w: WireV, session_id: Text, logical: Text)
    ensures
        ({
            let m = w.register(session_id, logical);
            &&& is_named(m, w, "component.register"@, "reg1"@)
            &&& m.get("session_id"@) == Some(JsonV::Str(session_id))
            &&& m.get("body"@) is Some
            &&& m.get("body"@)->0.get("manifest"@) is Some
            &&& m.get("body"@)->0.get("manifest"@)->0.get("id"@) == Some(JsonV::Str(logical))
        }),
{
    names_differ();
    messages_are_named(w, "component.register"@, "reg1"@);
    blank_record();
    let m = w.message("component.register"@, "reg1"@);
    let manifest = JsonV::object().with("id"@, json::jstr(logical));
    let body = JsonV::object().with("manifest"@, manifest);
    added(JsonV::object(), "id"@, json::jstr(logical));
    added(JsonV::object(), "manifest"@, manifest);
    added(m, "session_id"@, json::jstr(session_id));
    added(m.with("session_id"@, json::jstr(session_id)), "body"@, body);
}

/// A chunk names its stream, its number and what it carries.
pub proof fn chunks_are_numbered(w: WireV, b: BoundV, stream_id: Text, seq: u64, payload: Text)
    ensures
        ({
            let m = w.stream_data(b, stream_id, seq, payload);
            let body = m.get("body"@)->0;
            &&& m.get("type"@) == Some(JsonV::Str("stream.data"@))
            &&& is_bound(m, b)
            &&& m.get("body"@) is Some
            &&& body.get("stream_id"@) == Some(JsonV::Str(stream_id))
            &&& body.get("seq"@) == Some(JsonV::Str(text::dec(seq as nat)))
            &&& body.get("payload"@) == Some(JsonV::Str(payload))
        }),
{
    names_differ();
    blank_record();
    reveal_strlit("stream_id");
    reveal_strlit("seq");
    reveal_strlit("payload");
    let id = "m-"@ + stream_id + "-"@ + text::dec(seq as nat);
    bound_messages_are_bound(w, b, "stream.data"@, id);
    let s = JsonV::object().with("stream_id"@, json::jstr(stream_id));
    let n = s.with("seq"@, json::jstr(text::dec(seq as nat)));
    added(JsonV::object(), "stream_id"@, json::jstr(stream_id));
    added(s, "seq"@, json::jstr(text::dec(seq as nat)));
    added(n, "payload"@, json::jstr(payload));
    let body = n.with("payload"@, json::jstr(payload));
    assert("stream_id"@.len() == 9 && "seq"@.len() == 3 && "payload"@.len() == 7);
    assert(body.get("stream_id"@) == Some(JsonV::Str(stream_id)));
    assert("type"@[0] != "body"@[0]);
    added(w.bound(b, "stream.data"@, id), "body"@, n.with("payload"@, json::jstr(payload)));
}

/// A dependency call names the call it is made for, the binding, its time and
/// its input; one that is given up names the request to end.
pub proof fn dependency_calls_are_described(
    w: WireV,
    b: BoundV,
    n: u64,
    ticket: Text,
    binding: Text,
    timeout_ms: u64,
    input: JsonV,
    target: Text,
)
    ensures
        ({
            let m = w.dependency_open(b, n, ticket, binding, timeout_ms, input);
            let body = m.get("body"@)->0;
            &&& m.get("type"@) == Some(JsonV::Str("dependency.open"@))
            &&& is_bound(m, b)
            &&& is_request(m, Some("r-dep-"@ + text::dec(n as nat)))
            &&& m.get("body"@) is Some
            &&& body.get("parent_ticket"@) == Some(JsonV::Str(ticket))
            &&& body.get("binding_id"@) == Some(JsonV::Str(binding))
            &&& body.get("timeout_ms"@) == Some(JsonV::Unsigned(timeout_ms))
            &&& body.get("input"@) == Some(input)
        }),
        ({
            let m = w.dependency_cancel(b, n, target);
            &&& m.get("type"@) == Some(JsonV::Str("dependency.cancel"@))
            &&& is_bound(m, b)
            &&& m.get("body"@) is Some
            &&& m.get("body"@)->0.get("target_request_id"@) == Some(JsonV::Str(target))
        }),
{
    blank_record();
    reveal_strlit("parent_ticket");
    reveal_strlit("binding_id");
    reveal_strlit("timeout_ms");
    reveal_strlit("input");
    let p = JsonV::object().with("parent_ticket"@, json::jstr(ticket));
    let d = p.with("binding_id"@, json::jstr(binding));
    let t = d.with("timeout_ms"@, json::jnum(timeout_ms));
    added(JsonV::object(), "parent_ticket"@, json::jstr(ticket));
    added(p, "binding_id"@, json::jstr(binding));
    added(d, "timeout_ms"@, json::jnum(timeout_ms));
    added(t, "input"@, input);
    assert("binding_id"@[0] != "timeout_ms"@[0]);
    messages_say_whose_they_are(
        w,
        b,
        "dependency.open"@,
        "m-dep-"@ + text::dec(n as nat),
        Some("r-dep-"@ + text::dec(n as nat)),
        t.with("input"@, input),
    );
    added(JsonV::object(), "target_request_id"@, json::jstr(target));
    messages_say_whose_they_are(
        w,
        b,
        "dependency.cancel"@,
        "m-dep-cancel-"@ + text::dec(n as nat),
        Some("r-dep-cancel-"@ + text::dec(n as nat)),
        JsonV::object().with("target_request_id"@, json::jstr(target)),
    );
}

/// A request for a resource names its kind, its label and, where it has one,
/// its interval; a request to give one back names its handle.
pub proof fn resource_requests_are_described(
    w: WireV,
    b: BoundV,
    n: u64,
    kind: Text,
    label: Text,
    interval_ms: Option<u64>,
    handle: u64,
)
    ensures
        ({
            let m = w.resource_request(
                b,
                n,
                "acquire"@,
                component::acquire_fields(kind, label, interval_ms),
            );
            let body = m.get("body"@)->0;
            &&& m.get("type"@) == Some(JsonV::Str("resource."@ + "acquire"@))
            &&& is_bound(m, b)
            &&& is_request(m, Some("r-res-"@ + text::dec(n as nat)))
            &&& m.get("body"@) is Some
            &&& body.get("kind"@) == Some(JsonV::Str(kind))
            &&& body.get("label"@) == Some(JsonV::Str(label))
            &&& body.get("interval_ms"@) == match interval_ms {
                Some(ms) => Some(JsonV::Unsigned(ms)),
                None => None,
            }
        }),
        ({
            let m = w.resource_request(
                b,
                n,
                "release"@,
                seq![("handle"@, json::jstr(text::dec(handle as nat)))],
            );
            &&& m.get("type"@) == Some(JsonV::Str("resource."@ + "release"@))
            &&& is_bound(m, b)
            &&& is_request(m, Some("r-res-"@ + text::dec(n as nat)))
            &&& m.get("body"@) is Some
            &&& m.get("body"@)->0.get("handle"@) == Some(JsonV::Str(text::dec(handle as nat)))
        }),
{
    blank_record();
    reveal_strlit("operation_id");
    reveal_strlit("kind");
    reveal_strlit("label");
    reveal_strlit("interval_ms");
    let id = "m-res-"@ + text::dec(n as nat);
    let rid = Some("r-res-"@ + text::dec(n as nat));
    let o = JsonV::object().with("operation_id"@, json::jstr("op-res-"@ + text::dec(n as nat)));
    let k = o.with("kind"@, json::jstr(kind));
    let l = k.with("label"@, json::jstr(label));
    added(JsonV::object(), "operation_id"@, json::jstr("op-res-"@ + text::dec(n as nat)));
    added(o, "kind"@, json::jstr(kind));
    added(k, "label"@, json::jstr(label));
    let fields = component::acquire_fields(kind, label, interval_ms);
    let two = seq![("kind"@, json::jstr(kind)), ("label"@, json::jstr(label))];
    reveal_with_fuel(component::with_all, 4);
    assert(two.drop_last() =~= seq![("kind"@, json::jstr(kind))]);
    assert(two.drop_last().drop_last() =~= Seq::<(Text, JsonV)>::empty());
    assert(component::with_all(o, two) == l);
    if interval_ms is Some {
        assert(fields.drop_last() =~= two);
        added(l, "interval_ms"@, json::jnum(interval_ms->0));
    }
    messages_say_whose_they_are(
        w,
        b,
        "resource."@ + "acquire"@,
        id,
        rid,
        component::with_all(o, fields),
    );
    let h = json::jstr(text::dec(handle as nat));
    let one = seq![("handle"@, h)];
    assert(one.drop_last() =~= Seq::<(Text, JsonV)>::empty());
    assert(component::with_all(o, one) == o.with("handle"@, h));
    added(o, "handle"@, h);
    messages_say_whose_they_are(
        w,
        b,
        "resource."@ + "release"@,
        id,
        rid,
        component::with_all(o, one),
    );
}

/// The confirmation of a step of the lifecycle names the operation that was
/// asked for, and says that nothing is pending.
pub proof fn steps_are_confirmed(
    w: WireV,
    b: BoundV,
    message_id: Text,
    op: JsonV,
    request_id: Option<Text>,
)
    ensures
        ({
            let m = w.lifecycle_result(b, message_id, op, request_id);
            let body = m.get("body"@)->0;
            &&& m.get("type"@) == Some(JsonV::Str("lifecycle.result"@))
            &&& is_bound(m, b)
            &&& is_request(m, request_id)
            &&& m.get("body"@) is Some
            &&& body.get("operation_id"@) == Some(op)
            &&& body.get("status"@) == Some(JsonV::Str("ok"@))
            &&& body.get("pending"@) == Some(JsonV::Array(Seq::empty()))
        }),
{
    blank_record();
    reveal_strlit("operation_id");
    reveal_strlit("status");
    reveal_strlit("pending");
    let o = JsonV::object().with("operation_id"@, op);
    let s = o.with("status"@, json::jstr("ok"@));
    let body = s.with("pending"@, JsonV::Array(Seq::empty()));
    added(JsonV::object(), "operation_id"@, op);
    added(o, "status"@, json::jstr("ok"@));
    added(s, "pending"@, JsonV::Array(Seq::empty()));
    messages_say_whose_they_are(w, b, "lifecycle.result"@, message_id, request_id, body);
}

/// The result of a call names its ticket, and carries the output of a reply or
/// the code and the message of a refusal.
pub proof fn results_are_told(
    w: WireV,
    b: BoundV,
    ticket: Text,
    out: CallOutcomeV,
    request_id: Option<Text>,
)
    ensures
        ({
            let m = w.call_result(b, ticket, out, request_id);
            let body = m.get("body"@)->0;
            let e = body.get("error"@)->0;
            &&& m.get("type"@) == Some(JsonV::Str("call.result"@))
            &&& is_bound(m, b)
            &&& is_request(m, request_id)
            &&& m.get("body"@) is Some
            &&& body.get("ticket"@) == Some(JsonV::Str(ticket))
            &&& match out {
                CallOutcomeV::Replied(v) => {
                    &&& body.get("status"@) == Some(JsonV::Str("ok"@))
                    &&& body.get("output"@) == Some(v)
                },
                CallOutcomeV::Refused { code, message } => {
                    &&& body.get("status"@) == Some(JsonV::Str("error"@))
                    &&& body.get("error"@) is Some
                    &&& e.get("code"@) == Some(JsonV::Str(code))
                    &&& e.get("message"@) == Some(JsonV::Str(message))
                },
            }
        }),
{
    blank_record();
    reveal_strlit("ticket");
    reveal_strlit("status");
    reveal_strlit("output");
    reveal_strlit("error");
    reveal_strlit("code");
    reveal_strlit("message");
    assert("ticket"@[0] == 't' && "status"@[0] == 's' && "output"@[0] == 'o');
    let t = JsonV::object().with("ticket"@, json::jstr(ticket));
    added(JsonV::object(), "ticket"@, json::jstr(ticket));
    let id = "m-call-"@ + ticket;
    match out {
        CallOutcomeV::Replied(v) => {
            let s = t.with("status"@, json::jstr("ok"@));
            added(t, "status"@, json::jstr("ok"@));
            added(s, "output"@, v);
            messages_say_whose_they_are(w, b, "call.result"@, id, request_id, s.with("output"@, v));
        },
        CallOutcomeV::Refused { code, message } => {
            let s = t.with("status"@, json::jstr("error"@));
            let c = JsonV::object().with("code"@, json::jstr(code));
            let e = c.with("message"@, json::jstr(message));
            added(t, "status"@, json::jstr("error"@));
            added(JsonV::object(), "code"@, json::jstr(code));
            added(c, "message"@, json::jstr(message));
            assert("code"@.len() == 4 && "message"@.len() == 7);
            assert(e.get("code"@) == c.get("code"@));
            added(s, "error"@, e);
            messages_say_whose_they_are(w, b, "call.result"@, id, request_id, s.with("error"@, e));
        },
    }
}

// ---- taking messages --------------------------------------------------

/// The types of the messages of a host differ.
proof fn types_differ()
    ensures
        "lifecycle.prepare"@.len() == 17 && "lifecycle.prepare"@[10] == 'p',
        "lifecycle.activate"@.len() == 18,
        "lifecycle.quiesce"@.len() == 17 && "lifecycle.quiesce"@[10] == 'q',
        "lifecycle.dispose"@.len() == 17 && "lifecycle.dispose"@[10] == 'd',
        "call.open"@.len() == 9,
        "call.cancel"@.len() == 11 && "call.cancel"@[0] == 'c',
        "dependency.result"@.len() == 17 && "dependency.result"@[10] == '.',
        "resource.result"@.len() == 15,
        "event.deliver"@.len() == 13,
        "stream.data"@.len() == 11 && "stream.data"@[0] == 's',
{
    reveal_strlit("lifecycle.prepare");
    reveal_strlit("lifecycle.activate");
    reveal_strlit("lifecycle.quiesce");
    reveal_strlit("lifecycle.dispose");
    reveal_strlit("call.open");
    reveal_strlit("call.cancel");
    reveal_strlit("dependency.result");
    reveal_strlit("resource.result");
    reveal_strlit("event.deliver");
    reveal_strlit("stream.data");
}

/// Whether a message is for the activation `b`: it names its session, and no
/// other instance and no other generation.
pub open spec fn concerns(e: EnvelopeV, b: BoundV) -> bool {
    &&& e.session_id == Some(b.session_id)
    &&& e.instance_id is None || e.instance_id == Some(b.instance_id)
    &&& e.generation is None || e.generation == Some(b.generation)
}

/// A call of the host reaches the component with the ticket, the capability
/// and the input that the host sent, and a cancellation with its ticket.
pub proof fn calls_arrive_whole(e: EnvelopeV, b: BoundV, ticket: Text, capability: Text, input: JsonV)
    requires
        concerns(e, b),
        e.body.get("ticket"@) == Some(JsonV::Str(ticket)),
        e.body.get("capability"@) == Some(JsonV::Str(capability)),
        e.body.get("input"@) == Some(input),
    ensures
        e.ty == "call.open"@ ==> e.action(b) == (ActionV::Call { ticket, capability, input }),
        e.ty == "call.cancel"@ ==> e.action(b) == (ActionV::Cancel { ticket }),
{
    types_differ();
}

/// Each step of the lifecycle is confirmed with the operation that the host
/// named, and quiescing and disposal end the session.
pub proof fn steps_arrive(e: EnvelopeV, b: BoundV, op: JsonV)
    requires
        concerns(e, b),
        e.body.get("operation_id"@) == Some(op),
    ensures
        e.ty == "lifecycle.prepare"@ || e.ty == "lifecycle.activate"@ ==> e.action(b) == (
        ActionV::Confirm { operation_id: op, last: false }),
        e.ty == "lifecycle.quiesce"@ || e.ty == "lifecycle.dispose"@ ==> e.action(b) == (
        ActionV::Confirm { operation_id: op, last: true }),
{
    types_differ();
}

/// The result of a dependency call goes to the request that it answers: its
/// output where it went well, its code and its message where it did not.
pub proof fn dependency_results_arrive(e: EnvelopeV, b: BoundV, request_id: Text, err: JsonV)
    requires
        concerns(e, b),
        e.ty == "dependency.result"@,
        e.request_id == Some(request_id),
    ensures
        forall|v: JsonV|
            e.body.get("status"@) == Some(JsonV::Str("ok"@)) && e.body.get("output"@) == Some(v)
                ==> e.action(b) == (#[trigger] dependency_gave(request_id, v)),
        forall|code: Text, message: Text|
            e.body.get("status"@) == Some(JsonV::Str("error"@)) && e.body.get("error"@) == Some(err)
                && err.get("code"@) == Some(JsonV::Str(code)) && err.get("message"@) == Some(
                JsonV::Str(message),
            ) ==> e.action(b) == (#[trigger] dependency_failed(request_id, code, message)),
{
    types_differ();
    reveal_strlit("ok");
    reveal_strlit("error");
    assert("ok"@.len() != "error"@.len());
}

/// The output `v` for whoever made the request.
pub open spec fn dependency_gave(request_id: Text, v: JsonV) -> ActionV {
    ActionV::Dependency { request_id, result: Ok(v) }
}

/// An error for whoever made the request.
pub open spec fn dependency_failed(request_id: Text, code: Text, message: Text) -> ActionV {
    ActionV::Dependency { request_id, result: Err(WireErrorV { code, message }) }
}

/// The refusal of a resource goes to the request that it answers, with its
/// code and its message.
pub proof fn resource_refusals_arrive(
    e: EnvelopeV,
    b: BoundV,
    request_id: Text,
    code: Text,
    message: Text,
)
    requires
        concerns(e, b),
        e.ty == "resource.result"@,
        e.request_id == Some(request_id),
        e.body.get("status"@) == Some(JsonV::Str("error"@)),
        e.body.get("code"@) == Some(JsonV::Str(code)),
        e.body.get("message"@) == Some(JsonV::Str(message)),
    ensures
        e.action(b) == (ActionV::Resource {
            request_id,
            result: Err(WireErrorV { code, message }),
        }),
{
    types_differ();
    reveal_strlit("ok");
    reveal_strlit("error");
    assert("ok"@.len() != "error"@.len());
}

/// What comes with a resource goes to the request that it answers, each
/// member under its name, without the operation and the status.
pub proof fn resource_results_arrive(e: EnvelopeV, b: BoundV, request_id: Text, k: Text)
    requires
        concerns(e, b),
        e.ty == "resource.result"@,
        e.request_id == Some(request_id),
        is_record(e.body),
        e.body.get("status"@) == Some(JsonV::Str("ok"@)),
    ensures
        ({
            &&& e.action(b) is Resource
            &&& e.action(b)->Resource_request_id == request_id
            &&& e.action(b)->Resource_result is Ok
            &&& e.action(b)->Resource_result->Ok_0.get(k) == if k == "operation_id"@ || k
                == "status"@ {
                None
            } else {
                e.body.get(k)
            }
        }),
{
    types_differ();
    extras_are_the_rest(e.body->Object_0, k);
}

proof fn prefixes_stay_ordered(ms: Seq<(Text, JsonV)>)
    requires
        ms.len() > 0,
        json::ordered_members(ms),
    ensures
        json::ordered_members(ms.drop_last()),
{
    let ks = Seq::new(ms.len(), |i: int| ms[i].0);
    let d = ms.drop_last();
    let ds = Seq::new(d.len(), |i: int| d[i].0);
    assert forall|a: int, b: int| 0 <= a < b < ds.len() implies text::text_lt(
        #[trigger] ds[a],
        #[trigger] ds[b],
    ) by {
        assert(ds[a] == ks[a] && ds[b] == ks[b]);
    }
}

proof fn extras_are_the_rest(ms: Seq<(Text, JsonV)>, k: Text)
    requires
        json::ordered_members(ms),
    ensures
        is_record(component::extras(ms)),
        component::extras(ms).get(k) == if k == "operation_id"@ || k == "status"@ {
            None
        } else {
            JsonV::Object(ms).get(k)
        },
    decreases ms.len(),
{
    blank_record();
    if ms.len() > 0 {
        let d = ms.drop_last();
        let last = ms.last();
        prefixes_stay_ordered(ms);
        extras_are_the_rest(d, k);
        json::member_at(ms, ms.len() - 1);
        json::member_index_bound(d, k);
        if last.0 != "operation_id"@ && last.0 != "status"@ {
            added(component::extras(d), last.0, last.1);
        }
        if k == last.0 {
            assert(json::member_index(ms, k) == ms.len() - 1);
        } else {
            assert(json::member_index(ms, k) == json::member_index(d, k));
        }
    }
}

/// An event arrives with its topic and what it carries.
pub proof fn events_arrive_whole(e: EnvelopeV, b: BoundV, topic: Text, payload: JsonV)
    requires
        concerns(e, b),
        e.ty == "event.deliver"@,
        e.body.get("topic"@) == Some(JsonV::Str(topic)),
        e.body.get("payload"@) == Some(payload),
        topic.len() > 0,
    ensures
        e.action(b) == ActionV::Queue(DepEventV::Event { topic, payload }),
{
    types_differ();
}

/// A chunk that was sent arrives with its stream, its number and what it
/// carries.
pub proof fn chunks_arrive_whole(
    e: EnvelopeV,
    b: BoundV,
    w: WireV,
    from: BoundV,
    stream_id: Text,
    seq: u64,
    payload: Text,
)
    requires
        concerns(e, b),
        e.ty == "stream.data"@,
        w.stream_data(from, stream_id, seq, payload).get("body"@) == Some(e.body),
        stream_id.len() > 0,
        seq < u64::MAX,
    ensures
        e.action(b) == ActionV::Queue(DepEventV::Stream { stream_id, seq, payload }),
{
    types_differ();
    chunks_are_numbered(w, from, stream_id, seq, payload);
    text::parse_of_dec(seq);
}

/// The handle that the host wrote is the one that is read.
pub proof fn handles_are_read(h: u64)
    ensures
        text::parsed_u64(text::dec(h as nat)) == Some(h),
{
    text::parse_of_dec(h);
}

/// A welcome gives the session, the largest frame that the host takes, the
/// default where it names none, and the extensions that it named.
pub proof fn welcomes_settle_the_session(e: EnvelopeV, default_frame: u64, session_id: Text)
    requires
        e.ty == "welcome"@,
        e.session_id == Some(session_id),
    ensures
        ({
            let r = e.welcome(default_frame);
            &&& r is Ok
            &&& r->Ok_0.session_id == session_id
            &&& e.body.get("max_frame"@) matches Some(JsonV::Unsigned(n)) ==> r->Ok_0.max_frame == n
            &&& e.body.get("max_frame"@) is None ==> r->Ok_0.max_frame == default_frame
            &&& forall|fs: Seq<Text>|
                e.body.get("features"@) == Some(#[trigger] json::str_list(fs))
                    ==> r->Ok_0.features == fs
        }),
{
    assert forall|fs: Seq<Text>|
        e.body.get("features"@) == Some(#[trigger] json::str_list(fs)) implies e.welcome(
        default_frame,
    )->Ok_0.features == fs by {
        listed_strings_are_read(fs);
    }
}

proof fn listed_strings_are_read(fs: Seq<Text>)
    ensures
        component::strings_of(json::str_list(fs)->Array_0) == fs,
    decreases fs.len(),
{
    let a = json::str_list(fs)->Array_0;
    if fs.len() > 0 {
        listed_strings_are_read(fs.drop_last());
        assert(a.drop_last() =~= json::str_list(fs.drop_last())->Array_0);
        assert(component::strings_of(a) =~= fs);
    } else {
        assert(component::strings_of(a) =~= fs);
    }
}

/// A registration gives the instance and the generation that the host named,
/// in the session of the welcome.
pub proof fn registrations_bind(
    e: EnvelopeV,
    session_id: Text,
    shown: Text,
    instance_id: Text,
    generation: u64,
)
    ensures
        e.registered(session_id, shown) is Ok <==> e.ty == "registered"@ && e.instance_id is Some
            && e.generation is Some,
        e.ty == "registered"@ && e.instance_id == Some(instance_id) && e.generation == Some(
            generation,
        ) ==> e.registered(session_id, shown) == Ok::<BoundV, Text>(
            BoundV { session_id, instance_id, generation },
        ),
{
}

/// Whether a value announces the handle `d`.
pub open spec fn announces(v: JsonV, d: DepBindingV) -> bool {
    &&& v.get("binding_id"@) == Some(JsonV::Str(d.id))
    &&& v.get("capability"@) == Some(JsonV::Str(d.capability))
    &&& d.id.len() > 0
    &&& d.capability.len() > 0
}

/// An activation gives its operation, and a handle exactly where one of its
/// bindings announces it, with its id and its capability.
pub proof fn activations_announce_handles(e: EnvelopeV, op: JsonV, vs: Seq<JsonV>, d: DepBindingV)
    requires
        e.ty == "lifecycle.activate"@,
        e.body.get("operation_id"@) == Some(op),
        e.body.get("dependency_bindings"@) == Some(JsonV::Array(vs)),
    ensures
        e.activation() is Ok,
        e.activation()->Ok_0.0 == op,
        e.activation()->Ok_0.1.contains(d) <==> exists|i: int|
            0 <= i < vs.len() && announces(#[trigger] vs[i], d),
{
    announced_are_those_listed(vs, d);
}

proof fn announced_are_those_listed(vs: Seq<JsonV>, d: DepBindingV)
    ensures
        component::announced(vs).contains(d) <==> exists|i: int|
            0 <= i < vs.len() && announces(#[trigger] vs[i], d),
    decreases vs.len(),
{
    let all = component::announced(vs);
    if vs.len() > 0 {
        let rest = vs.drop_last();
        let before = component::announced(rest);
        let n = vs.len() - 1;
        announced_are_those_listed(rest, d);
        if all.contains(d) {
            let i = choose|i: int| 0 <= i < all.len() && all[i] == d;
            if i < before.len() {
                assert(before[i] == d);
                let j = choose|j: int| 0 <= j < rest.len() && announces(#[trigger] rest[j], d);
                assert(announces(vs[j], d));
            } else {
                assert(announces(vs[n], d));
            }
        }
        if exists|i: int| 0 <= i < vs.len() && announces(#[trigger] vs[i], d) {
            let i = choose|i: int| 0 <= i < vs.len() && announces(#[trigger] vs[i], d);
            if i < n {
                assert(announces(rest[i], d));
                let j = choose|j: int| 0 <= j < before.len() && before[j] == d;
                assert(all[j] == d);
            } else {
                assert(all[all.len() - 1] == d);
            }
        }
    }
}

// ---- waiting ----------------------------------------------------------

/// A wait goes on only before its end and while its parent runs, at most to
/// its end and at most for 50 milliseconds at a time; a dependency call that
/// is given up is cancelled at the host, a resource request is not.
pub proof fn waits_are_bounded(what: Awaited, cancelled: bool, now: Instant, until: Instant)
    ensures
        match component::waiting(what, cancelled, now, until) {
            WaitV::For(n) => {
                &&& !cancelled
                &&& 0 < n
                &&& now.nanos + n <= until.nanos
                &&& n <= 50_000_000
                &&& n == 50_000_000 || now.nanos + n == until.nanos
            },
            WaitV::GiveUp { code, message, cancel } => {
                &&& cancelled || until.nanos <= now.nanos
                &&& code == if cancelled {
                    "cancelled"@
                } else {
                    "outcome-unknown"@
                }
                &&& cancel <==> what == Awaited::Dependency
            },
        },
{
}

/// A dependency call is sent exactly where its extension was negotiated, it
/// has some time, and its caller is not the reader of the answers.
pub proof fn dependency_calls_are_checked(features: Seq<Text>, timeout_ms: u64, on_reader: bool)
    ensures
        component::dependency_refusal(features, timeout_ms, on_reader) is None <==> features.contains(
            "dependency-calls/1"@,
        ) && timeout_ms > 0 && !on_reader,
{
}

// ---- queueing ---------------------------------------------------------

/// A full queue gives up its oldest item for a new one and counts it; another
/// takes the new one behind all the others and counts nothing.
pub proof fn queues_keep_the_newest(q: EventQueueV, ev: DepEventV)
    requires
        0 < q.cap,
        q.queue.len() <= q.cap,
        q.dropped < u64::MAX,
    ensures
        q.queue.len() == q.cap ==> {
            &&& q.push(ev).queue == q.queue.skip(1).push(ev)
            &&& q.push(ev).dropped == q.dropped + 1
        },
        q.queue.len() < q.cap ==> {
            &&& q.push(ev).queue == q.queue.push(ev)
            &&& q.push(ev).dropped == q.dropped
        },
        q.push(ev).cap == q.cap,
{
    if q.queue.len() == q.cap {
        assert(q.queue.drop_first() =~= q.queue.skip(1));
    }
}

/// The chunks that wait are those among the queued items.
pub proof fn waiting_chunks_are_counted(q: Seq<DepEventV>)
    ensures
        component::streams_in(q) == q.filter(|e: DepEventV| e is Stream).len(),
    decreases q.len(),
{
    reveal(Seq::filter);
    if q.len() > 0 {
        waiting_chunks_are_counted(q.drop_last());
    }
}

} // verus!
