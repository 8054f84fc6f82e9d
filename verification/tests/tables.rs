use matrix_core::bus::Bus;
use matrix_core::registry::Registry;
use matrix_core::resources::ResourceTable;
use matrix_core::{
    ContextId, ContextTable, DisposeClaim, Fsm, InstanceId, InstanceRef, ResourceHandle, ResourceKind,
};

#[test]
fn states_have_names_and_aliases() {
    assert_eq!(Fsm::CleanupPending.as_str(), "CleanupPending");
    assert_eq!(Fsm::Loading.canonical(), Fsm::Preparing);
    assert_eq!(Fsm::Pending.canonical(), Fsm::Registered);
    assert_eq!(Fsm::Unloading.canonical(), Fsm::Quiescing);
    assert_eq!(Fsm::Unloading.canonical().canonical(), Fsm::Quiescing);
    assert!(Fsm::Active.admits_calls());
    assert!(!Fsm::Quiescing.admits_calls());
    assert!(Fsm::Disposed.is_terminal_like());
    assert!(Fsm::Waiting.waiting_like());
}

#[test]
fn generations_grow_by_logical_id() {
    let mut t = ContextTable::new(5);
    let a1 = t.create("a");
    let a2 = t.create("a");
    let b1 = t.create_waiting("b", "why".to_string());
    assert_eq!((a1.generation, a2.generation, b1.generation), (1, 2, 1));
    assert_eq!((a1.epoch, t.epoch()), (5, 5));
    assert_ne!(a1.instance, a2.instance);
    assert_eq!(t.current("a").unwrap().instance, a2.instance);
    assert_eq!(t.generation_of("a"), 2);
    assert_eq!(t.generation_of("zz"), 0);
    // A superseded instance stays but admits nothing.
    assert!(t.require_active(a1.instance).is_err());
    assert!(t.require_active(a2.instance).is_ok());
    assert!(t.require_active(b1.instance).is_err());
    assert!(t.require_active(InstanceId(999)).is_err());
    assert_eq!(b1.cause.as_deref(), Some("why"));
    assert_eq!(t.snapshot().len(), 3);
}

#[test]
fn one_claim_wins_a_disposal() {
    let mut t = ContextTable::new(1);
    let a = t.create("a").instance;
    assert!(matches!(t.claim_dispose(a), Ok(DisposeClaim::Fresh(_))));
    assert_eq!(t.get_by_instance(a).unwrap().state, Fsm::Quiescing);
    assert!(matches!(t.claim_dispose(a), Ok(DisposeClaim::InFlight { .. })));
    t.mark_disposed(a);
    assert!(t.claim_dispose(a).is_err());
    // The discarded never comes back.
    assert!(!t.mark_active(a));
    assert!(!t.mark_waiting(a, "x".to_string()));
    assert_eq!(t.get_by_instance(a).unwrap().state, Fsm::Disposed);
}

#[test]
fn a_superseded_instance_is_not_promoted() {
    let mut t = ContextTable::new(1);
    let r1 = t.create_waiting("a", "x".to_string());
    let r2 = t.create_waiting("a", "y".to_string());
    assert!(!t.mark_active(r1.instance));
    let old = t.get_by_instance(r1.instance).unwrap();
    assert_eq!((old.state, old.cause.as_deref()), (Fsm::Waiting, Some("x")));
    assert!(t.mark_active(r2.instance));
    assert_eq!(t.get_by_instance(r2.instance).unwrap().state, Fsm::Active);
    // Active already, and still the current one.
    assert!(t.mark_active(r2.instance));
    t.create("a");
    assert!(!t.mark_active(r2.instance));
}

fn register(t: &mut ResourceTable, ctx: u64, label: &str) -> ResourceHandle {
    t.register(
        ContextId(ctx),
        InstanceId(ctx),
        "a",
        1,
        ResourceKind::Task { label: label.to_string() },
        None,
    )
    .unwrap()
}

#[test]
fn resources_are_released_once() {
    let mut t = ResourceTable::new();
    let h1 = register(&mut t, 1, "x");
    let h2 = register(&mut t, 2, "y");
    assert_ne!(h1, h2);
    assert!(t.begin_release(h1).is_ok());
    assert!(!t.is_live(h1));
    assert!(t.is_live(h2));
    assert_eq!((t.total_releases(), t.double_release_attempts()), (1, 0));
    assert!(t.begin_release(h1).is_err());
    assert_eq!((t.total_releases(), t.double_release_attempts()), (1, 1));
    assert!(t.begin_release(ResourceHandle(99)).is_err());
    assert_eq!(t.handles_for(ContextId(2)), vec![h2]);
    assert_eq!((t.active_count(), t.active_for(ContextId(1)), t.active_for(ContextId(2))), (1, 0, 1));
    assert!(t.validate(h2, InstanceId(2), 1).is_ok());
    assert!(t.validate(h2, InstanceId(2), 2).is_err());
    assert!(t.validate(h2, InstanceId(1), 1).is_err());
    assert!(t.validate(h1, InstanceId(1), 1).is_err());
}

#[test]
fn a_failed_start_registers_nothing() {
    let mut t = ResourceTable::new();
    let kind = || ResourceKind::Timer { label: "t".to_string(), interval_ms: 5 };
    let e = t.register(ContextId(1), InstanceId(1), "a", 1, kind(), Some("no thread".to_string()));
    assert!(e.is_err());
    assert_eq!(t.active_count(), 0);
    assert!(ResourceTable::validate_kind(&ResourceKind::Task { label: " ".to_string() }).is_err());
    assert!(ResourceTable::validate_kind(&ResourceKind::FailAcquire { label: "x".to_string() }).is_err());
    assert!(ResourceTable::validate_kind(&kind()).is_ok());
}

#[test]
fn revocation_spares_other_instances() {
    let mut r = Registry::new();
    r.provide_instance("a@1", &InstanceRef::new(1, 1, 1, "p", 1));
    r.provide_instance("b@1", &InstanceRef::new(1, 2, 2, "q", 1));
    assert!(!r.revoke_cap_if_owned("a@1", InstanceId(2)));
    assert_eq!(r.resolve("a@1").as_deref(), Some("p"));
    assert_eq!(r.resolve_instance("a@1"), Some(InstanceId(1)));
    assert_eq!(r.revoke_instance(InstanceId(1)), 1);
    assert!(r.resolve("a@1").is_none());
    assert_eq!(r.resolve("b@1").as_deref(), Some("q"));
    assert!(r.revoke_cap_if_owned("b@1", InstanceId(2)));
    assert_eq!(r.len(), 0);
    r.provide("c@1", "old");
    assert_eq!(r.resolve("c@1").as_deref(), Some("old"));
    r.revoke_fiber("old");
    assert_eq!(r.len(), 0);
}

#[test]
fn subscriptions_are_owned_by_instances() {
    let mut b = Bus::new();
    b.subscribe_instance("p", InstanceId(1), "t");
    b.subscribe_instance("p", InstanceId(1), "t");
    b.subscribe_instance("q", InstanceId(2), "t");
    b.subscribe_instance("q", InstanceId(2), "u");
    assert_eq!(b.subscribers("t"), vec!["p", "q"]);
    assert_eq!(b.subscriber_instances("t"), vec![InstanceId(1), InstanceId(2)]);
    b.unsubscribe_instance(InstanceId(1));
    assert_eq!(b.subscribers("t"), vec!["q"]);
    assert!(b.unsubscribe_topic_if_owned(InstanceId(2), "t"));
    assert!(!b.unsubscribe_topic_if_owned(InstanceId(2), "t"));
    assert!(b.subscribers("t").is_empty());
    assert_eq!(b.subscribers("u"), vec!["q"]);
    b.unsubscribe_fiber("q");
    assert!(b.subscribers("u").is_empty());
}
