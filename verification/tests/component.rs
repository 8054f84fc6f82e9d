use matrix_core::component::{
    check_dependency, check_resource, handle_in, next_wait, wait_until, Action, Awaited, Bound, CallOutcome, DepEvent, Envelope,
    EventQueue, Wait, Wire, EVENT_QUEUE_CAP,
};
use matrix_core::{Instant, Json};

fn wire() -> Wire {
    Wire { protocol: "matrix.component".to_string(), version: Json::str("0.1") }
}

fn bound() -> Bound {
    Bound { session_id: "s1".to_string(), instance_id: "i7".to_string(), generation: 3 }
}

fn envelope(ty: &str, body: &str) -> Envelope {
    Envelope {
        ty: ty.to_string(),
        session_id: Some("s1".to_string()),
        instance_id: Some("i7".to_string()),
        generation: Some(3),
        request_id: Some("r-1".to_string()),
        body: Json::read(body).unwrap(),
    }
}

fn event(n: u64) -> DepEvent {
    DepEvent::Event { topic: "t".to_string(), payload: Json::num(n) }
}

fn chunk(seq: u64) -> DepEvent {
    DepEvent::Stream { stream_id: "x".to_string(), seq, payload: "p".to_string() }
}

#[test]
fn queue_drops_the_oldest_and_counts() {
    let mut q = EventQueue::new(3);
    q.push(chunk(0));
    q.push(event(1));
    q.push(chunk(2));
    assert_eq!((q.pending_streams(), q.dropped()), (2, 0));
    q.push(event(3));
    assert_eq!((q.pending_streams(), q.dropped()), (1, 1));
    let drained = q.drain();
    assert_eq!(drained.len(), 3);
    assert!(matches!(&drained[0], DepEvent::Event { payload, .. } if payload == &Json::num(1)));
    assert!(matches!(&drained[1], DepEvent::Stream { seq: 2, .. }));
    assert!(matches!(&drained[2], DepEvent::Event { payload, .. } if payload == &Json::num(3)));
    assert_eq!((q.drain().len(), q.pending_streams(), q.dropped()), (0, 0, 1));
}

#[test]
fn queue_is_bounded_under_load() {
    let mut q = EventQueue::new(EVENT_QUEUE_CAP);
    for i in 0..1000 {
        q.push(event(i));
    }
    assert_eq!(q.dropped(), 936);
    let left = q.drain();
    assert_eq!(left.len(), 64);
    assert!(matches!(&left[0], DepEvent::Event { payload, .. } if payload == &Json::num(936)));
}

#[test]
fn handshake_messages() {
    assert_eq!(
        wire().hello("tok", 1024).text(),
        "{\"body\":{\"client\":\"matrix-component\",\"features\":[\"dependency-calls/1\"],\"launch_token\":\"tok\",\"max_frame\":1024,\"versions\":[\"0.1\"]},\"message_id\":\"h1\",\"protocol\":\"matrix.component\",\"type\":\"hello\",\"version\":\"0.1\"}"
    );
    assert_eq!(
        wire().register("s1", "echo").text(),
        "{\"body\":{\"manifest\":{\"id\":\"echo\"}},\"message_id\":\"reg1\",\"protocol\":\"matrix.component\",\"session_id\":\"s1\",\"type\":\"component.register\",\"version\":\"0.1\"}"
    );
    assert_eq!(
        wire().activated(&bound(), Json::str("op-1"), &None).text(),
        "{\"body\":{\"operation_id\":\"op-1\",\"pending\":[],\"status\":\"ok\"},\"generation\":\"3\",\"instance_id\":\"i7\",\"message_id\":\"lc1\",\"protocol\":\"matrix.component\",\"request_id\":null,\"session_id\":\"s1\",\"type\":\"lifecycle.result\",\"version\":\"0.1\"}"
    );
}

#[test]
fn bound_messages() {
    let v = wire().stream_data(&bound(), "x", 12, "data");
    assert_eq!(v.str_at("message_id").unwrap(), "m-x-12");
    assert_eq!(v.str_at("generation").unwrap(), "3");
    assert_eq!(v.get("body").unwrap().text(), "{\"payload\":\"data\",\"seq\":\"12\",\"stream_id\":\"x\"}");
    let v = wire().dependency_open(&bound(), 4, "tkt-9", "bind-1", 250, Json::num(5));
    assert_eq!(v.str_at("type").unwrap(), "dependency.open");
    assert_eq!(v.str_at("message_id").unwrap(), "m-dep-4");
    assert_eq!(v.str_at("request_id").unwrap(), "r-dep-4");
    assert_eq!(
        v.get("body").unwrap().text(),
        "{\"binding_id\":\"bind-1\",\"input\":5,\"parent_ticket\":\"tkt-9\",\"timeout_ms\":250}"
    );
    let v = wire().dependency_cancel(&bound(), 5, "r-dep-4");
    assert_eq!(v.str_at("request_id").unwrap(), "r-dep-cancel-5");
    assert_eq!(v.get("body").unwrap().text(), "{\"target_request_id\":\"r-dep-4\"}");
    let v = wire().acquire_request(&bound(), 6, "timer", "beat", Some(20));
    assert_eq!(v.str_at("type").unwrap(), "resource.acquire");
    assert_eq!(
        v.get("body").unwrap().text(),
        "{\"interval_ms\":20,\"kind\":\"timer\",\"label\":\"beat\",\"operation_id\":\"op-res-6\"}"
    );
    let v = wire().acquire_request(&bound(), 6, "task", "beat", None);
    assert!(v.get("body").unwrap().get("interval_ms").is_none());
    let v = wire().release_request(&bound(), 7, 42);
    assert_eq!(v.str_at("type").unwrap(), "resource.release");
    assert_eq!(v.get("body").unwrap().text(), "{\"handle\":\"42\",\"operation_id\":\"op-res-7\"}");
}

#[test]
fn answers_keep_their_request() {
    let rid = Some("r-1".to_string());
    let v = wire().lifecycle_result(&bound(), Json::str("op-2"), &rid);
    assert_eq!(v.str_at("message_id").unwrap(), "m-lc-op-2");
    assert_eq!(v.str_at("request_id").unwrap(), "r-1");
    assert_eq!(wire().lifecycle_result(&bound(), Json::num(2), &rid).str_at("message_id").unwrap(), "m-lc-op");
    let v = wire().call_result(&bound(), "tkt-1", CallOutcome::Replied(Json::num(1)), &rid);
    assert_eq!(v.get("body").unwrap().text(), "{\"output\":1,\"status\":\"ok\",\"ticket\":\"tkt-1\"}");
    let refused = CallOutcome::Refused { code: "c".to_string(), message: "m".to_string() };
    let v = wire().call_result(&bound(), "tkt-1", refused, &None);
    assert_eq!(
        v.get("body").unwrap().text(),
        "{\"error\":{\"code\":\"c\",\"message\":\"m\"},\"status\":\"error\",\"ticket\":\"tkt-1\"}"
    );
}

#[test]
fn welcome_settles_frames_and_features() {
    let w = envelope("welcome", "{\"max_frame\":99,\"features\":[\"a\",1,\"b\"]}").welcome(1024).unwrap();
    assert_eq!((w.session_id.as_str(), w.max_frame), ("s1", 99));
    assert_eq!(w.features, vec!["a".to_string(), "b".to_string()]);
    let w = envelope("welcome", "{}").welcome(1024).unwrap();
    assert_eq!((w.max_frame, w.features.len()), (1024, 0));
    assert_eq!(envelope("error", "{}").welcome(1024).unwrap_err(), "esperava welcome, veio error");
    let mut e = envelope("welcome", "{}");
    e.session_id = None;
    assert_eq!(e.welcome(1024).unwrap_err(), "welcome without session");
}

#[test]
fn registration_gives_the_activation() {
    let b = envelope("registered", "{}").registered("s9", "").unwrap();
    assert_eq!((b.session_id.as_str(), b.instance_id.as_str(), b.generation), ("s9", "i7", 3));
    assert_eq!(envelope("error", "{}").registered("s9", "{}").unwrap_err(), "registro rejeitado: {}");
    let mut e = envelope("registered", "{}");
    e.generation = None;
    assert_eq!(e.registered("s9", "").unwrap_err(), "registered without generation");
    e.instance_id = None;
    assert_eq!(e.registered("s9", "").unwrap_err(), "registered without instance");
}

#[test]
fn activation_announces_handles() {
    let body = "{\"operation_id\":\"op-1\",\"dependency_bindings\":[{\"binding_id\":\"bind-1\",\"capability\":\"c@1\"},{\"binding_id\":\"\",\"capability\":\"c@1\"},{\"binding_id\":\"bind-2\"},7]}";
    let (op, handles) = envelope("lifecycle.activate", body).activation().unwrap();
    assert_eq!(op, Json::str("op-1"));
    assert_eq!(handles.len(), 1);
    assert_eq!((handles[0].id.as_str(), handles[0].capability.as_str()), ("bind-1", "c@1"));
    let (op, handles) = envelope("lifecycle.activate", "{}").activation().unwrap();
    assert_eq!((op, handles.len()), (Json::str("op?"), 0));
    assert_eq!(envelope("x", "{}").activation().unwrap_err(), "esperava activate, veio x");
}

#[test]
fn lifecycle_steps_are_confirmed() {
    for ty in ["lifecycle.prepare", "lifecycle.activate"] {
        let a = envelope(ty, "{\"operation_id\":\"op-1\"}").action(&bound());
        assert!(matches!(&a, Action::Confirm { operation_id, last: false } if operation_id == &Json::str("op-1")));
    }
    let a = envelope("lifecycle.quiesce", "{\"operation_id\":\"op1\"}").action(&bound());
    assert!(matches!(&a, Action::Confirm { operation_id, last: true } if operation_id == &Json::str("op1")));
    let a = envelope("lifecycle.dispose", "{}").action(&bound());
    assert!(matches!(&a, Action::Confirm { operation_id, last: true } if operation_id == &Json::str("op?")));
}

#[test]
fn calls_and_cancellations_are_routed() {
    let a = envelope("call.open", "{\"ticket\":\"tkt-1\",\"capability\":\"c@1\",\"input\":5}").action(&bound());
    match a {
        Action::Call { ticket, capability, input } => {
            assert_eq!((ticket.as_str(), capability.as_str(), input), ("tkt-1", "c@1", Json::num(5)))
        }
        other => panic!("{:?}", other),
    }
    let a = envelope("call.open", "{}").action(&bound());
    assert!(matches!(a, Action::Call { ticket, capability, input: Json::Null } if ticket.is_empty() && capability.is_empty()));
    let a = envelope("call.cancel", "{\"ticket\":\"tkt-1\"}").action(&bound());
    assert!(matches!(a, Action::Cancel { ticket } if ticket == "tkt-1"));
}

#[test]
fn results_are_routed_to_their_request() {
    let a = envelope("dependency.result", "{\"status\":\"ok\",\"output\":5}").action(&bound());
    match a {
        Action::Dependency { request_id, result } => {
            assert_eq!((request_id.as_str(), result.unwrap()), ("r-1", Json::num(5)))
        }
        other => panic!("{:?}", other),
    }
    let a = envelope("dependency.result", "{\"status\":\"error\",\"error\":{\"code\":\"c\"}}").action(&bound());
    match a {
        Action::Dependency { result, .. } => assert_eq!(result.unwrap_err().shown(), "c: remote error"),
        other => panic!("{:?}", other),
    }
    let a = envelope("resource.result", "{\"status\":\"ok\",\"operation_id\":\"o\",\"handle\":\"12\"}").action(&bound());
    match a {
        Action::Resource { request_id, result } => {
            let extra = result.unwrap();
            assert_eq!(request_id, "r-1");
            assert_eq!(extra.text(), "{\"handle\":\"12\"}");
            assert_eq!(handle_in(&extra).unwrap(), 12);
        }
        other => panic!("{:?}", other),
    }
    let a = envelope("resource.result", "{\"message\":\"full\"}").action(&bound());
    match a {
        Action::Resource { result, .. } => assert_eq!(result.unwrap_err().shown(), "internal: full"),
        other => panic!("{:?}", other),
    }
    let mut e = envelope("resource.result", "{\"status\":\"ok\"}");
    e.request_id = None;
    assert!(matches!(e.action(&bound()), Action::Ignore));
    assert_eq!(handle_in(&Json::object()).unwrap_err().shown(), "internal: missing handle");
    assert!(handle_in(&Json::object().with("handle", Json::str("x"))).is_err());
}

#[test]
fn events_and_chunks_are_queued() {
    let a = envelope("event.deliver", "{\"topic\":\"t\",\"payload\":1}").action(&bound());
    assert!(matches!(a, Action::Queue(DepEvent::Event { topic, payload }) if topic == "t" && payload == Json::num(1)));
    assert!(matches!(envelope("event.deliver", "{\"payload\":1}").action(&bound()), Action::Ignore));
    let a = envelope("stream.data", "{\"stream_id\":\"x\",\"seq\":\"4\",\"payload\":\"p\"}").action(&bound());
    assert!(matches!(a, Action::Queue(DepEvent::Stream { stream_id, seq: 4, payload }) if stream_id == "x" && payload == "p"));
    for body in [
        "{\"seq\":\"4\"}",
        "{\"stream_id\":\"x\"}",
        "{\"stream_id\":\"x\",\"seq\":4}",
        "{\"stream_id\":\"x\",\"seq\":\"18446744073709551615\"}",
    ] {
        assert!(matches!(envelope("stream.data", body).action(&bound()), Action::Ignore));
    }
}

#[test]
fn messages_of_another_activation_are_ignored() {
    let cancel = |f: fn(&mut Envelope)| {
        let mut e = envelope("call.cancel", "{\"ticket\":\"t\"}");
        f(&mut e);
        e.action(&bound())
    };
    assert!(matches!(cancel(|e| e.generation = Some(2)), Action::Ignore));
    assert!(matches!(cancel(|e| e.instance_id = Some("i8".to_string())), Action::Ignore));
    assert!(matches!(cancel(|e| e.session_id = Some("s2".to_string())), Action::Ignore));
    assert!(matches!(cancel(|e| e.session_id = None), Action::Ignore));
    assert!(matches!(
        cancel(|e| {
            e.generation = None;
            e.instance_id = None;
        }),
        Action::Cancel { .. }
    ));
    assert!(matches!(envelope("dependency.accepted", "{}").action(&bound()), Action::Ignore));
}

#[test]
fn waits_end_by_cancellation_or_deadline() {
    let at = Instant::from_millis;
    match next_wait(Awaited::Dependency, true, at(0), at(10)) {
        Wait::GiveUp { code, message, cancel } => {
            assert_eq!((code, message, cancel), ("cancelled", "parent cancelled", true))
        }
        other => panic!("{:?}", other),
    }
    match next_wait(Awaited::Resource, false, at(10), at(10)) {
        Wait::GiveUp { code, message, cancel } => {
            assert_eq!((code, message, cancel), ("outcome-unknown", "resource wait timeout", false))
        }
        other => panic!("{:?}", other),
    }
    match next_wait(Awaited::Dependency, false, at(11), at(10)) {
        Wait::GiveUp { message, .. } => assert_eq!(message, "sdk wait timeout"),
        other => panic!("{:?}", other),
    }
    assert!(matches!(next_wait(Awaited::Resource, false, at(0), at(10)), Wait::For(10_000_000)));
    assert!(matches!(next_wait(Awaited::Resource, false, at(0), at(1000)), Wait::For(50_000_000)));
    assert_eq!(wait_until(Awaited::Dependency, at(1), 2_000_000), at(10_003));
    assert_eq!(wait_until(Awaited::Resource, at(1), 2_000_000), at(10_001));
}

#[test]
fn dependency_calls_are_checked_before_sending() {
    let on = vec!["dependency-calls/1".to_string()];
    assert!(check_dependency(&on, 1, false).is_ok());
    let e = check_dependency(&vec![], 0, true).unwrap_err();
    assert_eq!(e.shown(), "unsupported-feature: dependency calls not negotiated");
    assert_eq!(check_dependency(&on, 0, true).unwrap_err().shown(), "invalid-message: timeout must be positive");
    assert_eq!(check_dependency(&on, 1, true).unwrap_err().shown(), "internal: blocking call on reader thread");
}

#[test]
fn resource_calls_are_checked_before_sending() {
    assert!(check_resource(false).is_ok());
    assert_eq!(check_resource(true).unwrap_err().shown(), "internal: blocking call on reader thread");
}

#[test]
fn serving_ends_at_quiesce() {
    let inbox = [
        envelope("lifecycle.quiesce", "{\"operation_id\":\"op1\"}"),
        envelope("call.open", "{\"ticket\":\"tkt-1\"}"),
    ];
    let (mut confirmed, mut calls) = (0, 0);
    for e in &inbox {
        match e.action(&bound()) {
            Action::Confirm { last, .. } => {
                confirmed += 1;
                if last {
                    break;
                }
            }
            Action::Call { .. } => calls += 1,
            other => panic!("{:?}", other),
        }
    }
    assert_eq!((confirmed, calls), (1, 0));
}
