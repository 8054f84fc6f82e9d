use matrix_core::calls::CallPolicy;
use matrix_core::deps::{cap_satisfies, norm_cap, parse_provides, parse_requires, split_cap, ResolveError};
use matrix_core::external::{expand_args, parse_execution, ExecutionKind, ForwardError};
use matrix_core::kernel::operations::read_manifest;
use matrix_core::manifest::{parse_manifest_value, parse_outbound};
use matrix_core::{Json, WithdrawPolicy};

fn json(s: &str) -> Json {
    Json::read(s).unwrap()
}

#[test]
fn capabilities_split_at_the_last_mark() {
    assert_eq!(split_cap(" ns.name@3 "), ("ns.name".to_string(), Some(3)));
    assert_eq!(split_cap("a@b@4"), ("a@b".to_string(), Some(4)));
    assert_eq!(split_cap("ns.name"), ("ns.name".to_string(), None));
    assert_eq!(split_cap("ns.name@x"), ("ns.name@x".to_string(), None));
    assert_eq!(split_cap("n@+5"), ("n".to_string(), Some(5)));
    assert_eq!(split_cap("n@18446744073709551616"), ("n@18446744073709551616".to_string(), None));
    assert_eq!(norm_cap("n", Some(3)), "n@3");
    assert_eq!(norm_cap("n", None), "n");
}

#[test]
fn majors_must_agree_when_asked_for() {
    let r = &parse_requires(Some(&json("[\"x@1\"]"))).unwrap()[0];
    assert!(cap_satisfies("x@1", r));
    assert!(!cap_satisfies("x@2", r));
    assert!(!cap_satisfies("x", r));
    assert!(!cap_satisfies("y@1", r));
    let any = &parse_requires(Some(&json("[\"x\"]"))).unwrap()[0];
    assert!(cap_satisfies("x@1", any));
    assert!(cap_satisfies("x", any));
}

#[test]
fn requirements_come_as_names_or_objects() {
    let v = json("[\" x@1 \",{\"interface\":\"y@1\",\"major\":2,\"provider\":\" p \"},{\"interface\":\"z\",\"provider\":\" \"}]");
    let r = parse_requires(Some(&v)).unwrap();
    assert_eq!((r[0].interface.as_str(), r[0].base.as_str(), r[0].major), ("x@1", "x", Some(1)));
    assert!(r[0].provider.is_none());
    assert_eq!((r[1].interface.as_str(), r[1].major), ("y@2", Some(2)));
    assert_eq!(r[1].provider.as_deref(), Some("p"));
    assert_eq!((r[2].interface.as_str(), r[2].major), ("z", None));
    assert!(r[2].provider.is_none());
    assert!(parse_requires(None).unwrap().is_empty());
    let fails = |s: &str| parse_requires(Some(&json(s))).unwrap_err();
    assert_eq!(fails("{}"), "'requires' deve ser array");
    assert_eq!(fails("[\" \"]"), "requires entry vazio");
    assert_eq!(fails("[\"@1\"]"), "invalid requires: \"@1\"");
    assert_eq!(fails("[{}]"), "requires sem 'interface'");
    assert_eq!(fails("[{\"interface\":\"@2\"}]"), "invalid requires: \"@2\"");
    assert_eq!(fails("[3]"), "requires deve ser string ou objeto");
}

#[test]
fn provided_interfaces_are_normalized() {
    let v = json("[\" x@1 \",{\"interface\":\"y\",\"major\":2}]");
    assert_eq!(parse_provides(Some(&v)).unwrap(), vec!["x@1", "y@2"]);
    let v = json("[\"x.y@01\",{\"interface\":\"x.y\",\"major\":1}]");
    assert_eq!(parse_provides(Some(&v)).unwrap(), vec!["x.y@1", "x.y@1"]);
    let v = json("[\"x.y\",\"x.y@beta\",\"@2\"]");
    assert_eq!(parse_provides(Some(&v)).unwrap(), vec!["x.y", "x.y@beta", "@2"]);
    let fails = |s: &str| parse_provides(Some(&json(s))).unwrap_err();
    assert_eq!(fails("1"), "'provides' deve ser array");
    assert_eq!(fails("[\"\"]"), "provides/capability vazio");
    assert_eq!(fails("[{}]"), "provides sem 'interface'");
    assert_eq!(fails("[{\"interface\":\"@1\"}]"), "invalid provides: \"@1\"");
    assert_eq!(fails("[null]"), "provides deve ter strings ou objetos");
}

#[test]
fn resolution_errors_are_explained() {
    let i = || "x@1".to_string();
    let p = || "p".to_string();
    assert_eq!(
        ResolveError::Missing { interface: i() }.reason(),
        "dependency-unavailable: no definition provides x@1"
    );
    assert_eq!(
        ResolveError::Ambiguous { interface: i(), providers: vec![p(), "q".to_string()] }.reason(),
        "ambiguous-provider: x@1 provided by [p, q]; use an explicit binding"
    );
    assert_eq!(
        ResolveError::VersionMismatch { interface: i(), provider: p(), detail: "d".to_string() }.reason(),
        "dependency-unavailable: x@1 at p is incompatible (d)"
    );
    assert_eq!(
        ResolveError::UnknownProvider { interface: i(), provider: p() }.reason(),
        "dependency-unavailable: provider 'p' of x@1 is unknown"
    );
    assert_eq!(
        ResolveError::ProviderNotActive { interface: i(), provider: p(), state: "Failed".to_string() }.reason(),
        "dependency-unavailable: provider 'p' of x@1 is Failed"
    );
    assert_eq!(ResolveError::Cycle { path: vec![p(), "q".to_string(), p()] }.reason(), "cycle: p -> q -> p");
}

#[test]
fn execution_is_in_process_unless_a_process_is_asked_for() {
    assert!(!parse_execution(None).unwrap().is_external());
    assert!(!parse_execution(Some(&json("\"in-process\""))).unwrap().is_external());
    assert!(!parse_execution(Some(&json("{}"))).unwrap().is_external());
    let v = json("{\"kind\":\"process\",\"entrypoint\":\" /bin/x \",\"args\":[\"a\",1]}");
    match parse_execution(Some(&v)).unwrap() {
        ExecutionKind::External { entrypoint, args, timeout_ms } => {
            assert_eq!(entrypoint, "/bin/x");
            assert_eq!(args, vec!["a"]);
            assert_eq!(timeout_ms, 5000);
        }
        other => panic!("{:?}", other),
    }
    let fails = |s: &str| parse_execution(Some(&json(s))).unwrap_err();
    assert_eq!(fails("\"process\""), "'execution: process' exige objeto com entrypoint");
    assert_eq!(fails("\"x\""), "execution desconhecido: \"x\"");
    assert_eq!(fails("3"), "'execution' deve ser string ou objeto");
    assert_eq!(fails("{\"kind\":\"process\"}"), "execution.process exige 'entrypoint'");
    assert_eq!(fails("{\"kind\":\"vm\"}"), "execution.kind desconhecido: \"vm\"");
    for t in ["0", "300001"] {
        let s = format!("{{\"kind\":\"process\",\"entrypoint\":\"x\",\"timeout_ms\":{}}}", t);
        assert_eq!(fails(&s), "timeout_ms fora de [1, 300000]");
    }
}

#[test]
fn arguments_name_socket_and_id() {
    let args = vec!["--sock={sock}".to_string(), "{id}{id}".to_string(), "plain".to_string()];
    assert_eq!(expand_args(&args, "/run/h", "echo"), vec!["--sock=/run/h", "echoecho", "plain"]);
    // The id is put in after the socket.
    assert_eq!(expand_args(&vec!["{sock}".to_string()], "/run/{id}", "echo"), vec!["/run/echo"]);
}

#[test]
fn delivery_failures_have_codes() {
    assert_eq!(ForwardError::Cancelled.code(), "cancelled");
    assert_eq!(ForwardError::Timeout.code(), "deadline-exceeded");
    assert_eq!(ForwardError::Gone("x".to_string()).code(), "outcome-unknown");
    assert_eq!(ForwardError::Protocol("x".to_string()).code(), "internal");
}

#[test]
fn outbound_needs_versions_and_every_limit() {
    assert!(parse_outbound(None).unwrap().is_none());
    let limits = "\"max_depth\":1,\"max_children_per_parent\":2,\"max_calls_per_session\":3,\"max_calls_global\":4,\"max_seen_requests\":5,\"max_queued_bytes\":6,\"max_deadline_ms\":7";
    let good = format!("{{\"request\":[\" a@1 \"],\"limits\":{{{}}}}}", limits);
    let p = parse_outbound(Some(&json(&good))).unwrap().unwrap();
    assert_eq!(p.requested, vec!["a@1"]);
    assert_eq!((p.limits.max_depth, p.limits.max_deadline_ms), (1, 7));
    let fails = |s: &str| parse_outbound(Some(&json(s))).unwrap_err();
    assert_eq!(fails("1"), "'outbound' deve ser objeto");
    assert_eq!(fails("{}"), "'outbound.request' deve ser array de capabilities versionadas solicitadas");
    assert_eq!(fails("{\"request\":[\"\"]}"), "'outbound.request' requires non-empty strings");
    for bad in ["a", "a@", "@1", "a@1@2", "a@x"] {
        let s = format!("{{\"request\":[\"{}\"]}}", bad);
        assert_eq!(fails(&s), format!("invalid versioned capability in outbound.request: \"{}\"", bad));
    }
    assert_eq!(
        fails("{\"request\":[\"a@1\"]}"),
        "'outbound.limits' is required with all finite limits"
    );
    let zero = good.replace("\"max_calls_global\":4", "\"max_calls_global\":0");
    assert_eq!(fails(&zero), "'outbound.limits.max_calls_global' must be a positive integer");
}

#[test]
fn manifests_have_defaults() {
    let d = parse_manifest_value(&json("{\"id\":\"a\"}")).unwrap();
    assert!(d.caps.is_empty() && d.requires.is_empty() && d.subs.is_empty());
    assert_eq!((d.reducer.as_str(), d.tier.as_str()), ("noop", "inproc"));
    assert_eq!((d.trust.as_str(), d.restart.as_str()), ("trusted", "permanent"));
    assert_eq!(d.init_state, Json::object());
    assert!(d.outbound.is_none() && !d.remote && d.source.is_none());
}

#[test]
fn manifests_unite_old_and_new_capabilities() {
    let v = json("{\"id\":\"a\",\"capabilities\":[\"x@1\",\" y@1 \"],\"provides\":[\"y@1\",{\"interface\":\"z\",\"major\":1}]}");
    assert_eq!(parse_manifest_value(&v).unwrap().caps, vec!["x@1", "y@1", "z@1"]);
}

#[test]
fn malformed_manifests_are_refused() {
    let fails = |s: &str| parse_manifest_value(&json(s)).unwrap_err();
    assert_eq!(fails("{}"), "manifest without id");
    assert_eq!(fails("{\"id\":\" \"}"), "manifest without id");
    assert_eq!(fails("{\"id\":\"a\",\"capabilities\":1}"), "'capabilities' deve ser array de strings");
    assert_eq!(fails("{\"id\":\"a\",\"capabilities\":[1]}"), "capability vazia");
    assert_eq!(fails("{\"id\":\"a\",\"subscriptions\":\"t\"}"), "'subscriptions' deve ser array de strings");
    assert_eq!(fails("{\"id\":\"a\",\"subscriptions\":[\" \"]}"), "subscription vazia");
    assert_eq!(fails("{\"id\":\"a\",\"calls\":[]}"), "'calls' must be a cap\u{2192}policy object");
    assert_eq!(fails("{\"id\":\"a\",\"calls\":{\" \":{}}}"), "cap vazia em 'calls'");
    assert_eq!(
        fails("{\"id\":\"a\",\"calls\":{\"c\":{\"on_withdraw\":\"x\"}}}"),
        "invalid on_withdraw in 'c': \"x\""
    );
    assert_eq!(fails("{\"id\":\"a\",\"calls\":{\"c\":{\"drain_ms\":-1}}}"), "invalid drain_ms in 'c'");
    assert_eq!(
        fails("{\"id\":\"a\",\"remote\":true,\"requires\":[\"x\"]}"),
        "remote definitions provide only; requires must be empty"
    );
}

#[test]
fn call_policies_start_from_the_default() {
    let d = parse_manifest_value(&json("{\"id\":\"a\",\"calls\":{\"c\":{},\"d\":{\"drain_ms\":7}}}")).unwrap();
    assert_eq!(*d.calls.get("c").unwrap(), CallPolicy::default());
    assert_eq!(d.calls.get("d").unwrap().drain_ms, 7);
    assert_eq!(d.calls.get("d").unwrap().on_withdraw, CallPolicy::default().on_withdraw);
    assert_eq!(WithdrawPolicy::parse("drain"), Some(WithdrawPolicy::Drain));
    assert_eq!(WithdrawPolicy::parse("x"), None);
}

#[test]
fn definitions_remember_their_file() {
    let d = read_manifest("/p/a.json", "{\"id\":\"a\"}").unwrap();
    assert_eq!(d.source.as_deref(), Some("/p/a.json"));
    assert!(read_manifest("/p/a.json", "{").is_err());
    assert!(read_manifest("/p/a.json", "{}").is_err());
}

#[test]
fn capabilities_are_listed_once() {
    let v = json("{\"id\":\"a\",\"capabilities\":[\"x@1\",\"x@1\"],\"provides\":[\"x@1\",\"y@1\"]}");
    assert_eq!(parse_manifest_value(&v).unwrap().caps, vec!["x@1", "y@1"]);
    let v = json("{\"id\":\"a\",\"capabilities\":[\"b@1\",\"a@1\",\" b@1\"],\"provides\":[\"c@1\",\"a@1\",\"c@01\"]}");
    assert_eq!(parse_manifest_value(&v).unwrap().caps, vec!["b@1", "a@1", "c@1"]);
}
