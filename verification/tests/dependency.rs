use matrix_core::kernel::operations::read_manifest;
use matrix_core::kernel::parse_manifest_value;
use matrix_core::{
    CallPolicy, DepAdmit, DepDeny, DisposeOutcome, InstanceId, Instant, Invocation, Job, Journal, Json, Kernel,
    Progress, ResourceHandle, ResourceKind, TicketId, TicketState,
};
use matrix_core::journal::Line;

/// A kernel with a clock of its own and manifest files in memory.
struct Rig {
    k: Kernel,
    now: Instant,
    files: Vec<(String, String)>,
    lines: Vec<Line>,
}

impl Rig {
    fn new() -> Rig {
        Rig {
            k: Kernel::new(Journal::open(&vec![], false), false, 77),
            now: Instant::from_millis(1_000_000),
            files: vec![],
            lines: vec![],
        }
    }

    /// Advances a job to its end; drains that nothing ends run out.
    fn run(&mut self, job: Job) -> Option<DisposeOutcome> {
        let mut job = job;
        loop {
            match self.k.advance(job, self.now) {
                Progress::Done(out) => return out,
                Progress::Wait { job: left, until, .. } => {
                    self.now = until;
                    job = left;
                }
            }
        }
    }

    fn finish(&mut self, job: Option<Job>) {
        if let Some(j) = job {
            self.run(j);
        }
    }

    fn write(&mut self, id: &str, body: String) -> String {
        let path = format!("/home/plugins/{}.json", id);
        self.files.retain(|f| f.0 != path);
        self.files.push((path.clone(), body));
        self.files.sort();
        path
    }

    fn load(&mut self, path: &str) -> Result<String, String> {
        let body = self.files.iter().find(|f| f.0 == path).unwrap().1.clone();
        let (id, job) = self.k.load_manifest(path, &body)?;
        self.run(job);
        Ok(id)
    }

    /// Writes and loads.
    fn put(&mut self, id: &str, body: String) -> String {
        let path = self.write(id, body);
        self.load(&path).unwrap();
        path
    }

    fn dispose(&mut self, id: &str) -> DisposeOutcome {
        let job = self.k.dispose_plugin(id);
        self.run(job).unwrap()
    }

    fn dispose_instance(&mut self, inst: u64) -> DisposeOutcome {
        let job = self.k.dispose_instance(InstanceId(inst));
        self.run(job).unwrap()
    }

    fn invoke(&mut self, cap: &str, input: &Json) -> (Json, bool) {
        match self.k.invoke(cap, input, self.now) {
            Invocation::Answered(a) => {
                self.finish(a.job);
                (a.value, a.ok)
            }
            Invocation::Forward(_) => panic!("nothing runs outside here"),
        }
    }

    fn ok(&mut self, cap: &str) -> bool {
        self.invoke(cap, &Json::object()).1
    }

    fn open(&mut self, cap: &str, policy: Option<CallPolicy>, pins: Vec<ResourceHandle>) -> Result<TicketId, Json> {
        self.k.call_open(cap, &Json::object(), policy, &pins, self.now).map(|o| o.ticket)
    }

    fn commit(&mut self, t: TicketId, kind: &str, payload: Json) -> Result<u64, Json> {
        self.k.commit_effect(t, kind, &payload, self.now, 0)
    }

    fn close(&mut self, t: TicketId) -> bool {
        let (known, job) = self.k.call_close(t);
        self.finish(job);
        known
    }

    fn reap(&mut self, t: TicketId, reason: &str) -> bool {
        let (done, job) = self.k.call_reap(t, reason);
        self.finish(job);
        done
    }

    fn acquire(&mut self, id: &str, kind: ResourceKind) -> Result<ResourceHandle, String> {
        self.k.acquire(id, kind, None)
    }

    fn state(&self, logical: &str) -> String {
        self.k.context_state_of(logical).unwrap_or_else(|| "<none>".to_string())
    }

    fn generation(&self, logical: &str) -> u64 {
        self.k.instance_ref_of(logical).unwrap().generation
    }

    fn instance(&self, logical: &str) -> u64 {
        self.k.instance_ref_of(logical).unwrap().instance
    }

    fn state_of_instance(&self, inst: u64) -> String {
        self.k.contexts.get_by_instance(InstanceId(inst)).unwrap().state.as_str().to_string()
    }

    fn published(&self, cap: &str) -> Option<String> {
        self.k.caps.resolve(cap)
    }

    /// How many entries of a kind the journal holds.
    fn journaled(&mut self, kind: &str) -> usize {
        let fresh = self.k.journal.take_pending();
        self.lines.extend(fresh);
        self.lines.iter().filter(|l| l.kind == kind).count()
    }
}

fn timer(label: &str) -> ResourceKind {
    ResourceKind::Timer { label: label.into(), interval_ms: 5 }
}

fn task(label: &str) -> ResourceKind {
    ResourceKind::Task { label: label.into() }
}

fn quoted(names: &[&str]) -> String {
    names.iter().map(|n| format!("\"{}\"", n)).collect::<Vec<_>>().join(",")
}

/// A manifest with further members, each starting with a comma.
fn manifest(id: &str, caps: &[&str], reducer: &str, more: &str) -> String {
    format!(
        "{{\"id\":\"{}\",\"version\":\"1.0.0\",\"capabilities\":[{}],\"reducer\":\"{}\",\"init_state\":{{}},\"tier\":\"inproc\",\"trust\":\"trusted\",\"restart\":\"permanent\"{}}}",
        id, quoted(caps), reducer, more
    )
}

fn basic(id: &str, caps: &[&str], reducer: &str) -> String {
    manifest(id, caps, reducer, ",\"subscriptions\":[]")
}

fn requiring(id: &str, caps: &[&str], interface: &str, provider: &str) -> String {
    manifest(
        id,
        caps,
        "noop",
        &format!(",\"requires\":[{{\"interface\":\"{}\",\"provider\":\"{}\"}}]", interface, provider),
    )
}

fn code_of(v: &Json) -> String {
    v.str_at("code").cloned().unwrap_or_default()
}

fn limits(max_seen: u64, max_depth: u64, max_kids: u64) -> String {
    format!(
        "{{\"max_depth\":{},\"max_children_per_parent\":{},\"max_calls_per_session\":16,\"max_calls_global\":64,\"max_seen_requests\":{},\"max_queued_bytes\":65536,\"max_deadline_ms\":5000}}",
        max_depth, max_kids, max_seen
    )
}

fn calling(id: &str, cap: &str, interface: &str, provider: &str, limits: String) -> String {
    manifest(
        id,
        &[cap],
        "noop",
        &format!(
            ",\"subscriptions\":[],\"requires\":[{{\"interface\":\"{}\",\"provider\":\"{}\"}}],\"outbound\":{{\"request\":[\"{}\"],\"limits\":{}}}",
            interface, provider, interface, limits
        ),
    )
}

fn consumer() -> String {
    calling("consumer", "cons.cap@1", "prov.api@1", "provider", limits(32, 3, 4))
}

fn provider() -> String {
    basic("provider", &["prov.api@1"], "noop")
}

impl Rig {
    fn pair() -> Rig {
        let mut r = Rig::new();
        r.put("provider", provider());
        r.put("consumer", consumer());
        assert_eq!(r.state("provider"), "Active");
        assert_eq!(r.state("consumer"), "Active");
        r
    }

    fn granted() -> Rig {
        let mut r = Rig::pair();
        r.k.grant_outbound("consumer", "prov.api@1");
        r
    }

    fn binding(&self) -> String {
        let bs = self.k.dependency_bindings_of("consumer");
        assert_eq!(bs.len(), 1);
        assert_eq!(bs[0].capability, "prov.api@1");
        assert!(bs[0].id.starts_with("bind-"), "{}", bs[0].id);
        bs[0].id.clone()
    }

    fn parent(&mut self) -> TicketId {
        self.open("cons.cap@1", Some(CallPolicy::cancel()), vec![]).expect("parent opens")
    }

    fn admit_as(
        &mut self,
        logical: &str,
        parent: TicketId,
        binding: &str,
        timeout_ms: u64,
    ) -> Result<TicketId, DepDeny> {
        let c = self.k.instance_ref_of(logical).unwrap();
        self.k.dependency_admit(
            &DepAdmit {
                parent,
                binding: binding.to_string(),
                caller_logical: logical.to_string(),
                caller_instance: c.instance,
                caller_generation: c.generation,
                session: "s1".to_string(),
                timeout_ms,
            },
            self.now,
        )
    }

    fn child_of(&mut self, parent: TicketId, binding: &str) -> Result<TicketId, DepDeny> {
        self.admit_as("consumer", parent, binding, 5000)
    }

    fn usage(&self) -> (u64, u64) {
        let u = &self.k.dep_usage;
        (u.per_session.get("s1").copied().unwrap_or(0), u.global)
    }

    fn ticket_state(&self, t: TicketId) -> Option<TicketState> {
        self.k.calls.get(t).map(|x| x.state)
    }
}

#[test]
fn happy_admit_commit_close_releases() {
    let mut r = Rig::pair();
    let (rev, _) = r.k.grant_outbound("consumer", "prov.api@1");
    assert!(rev >= 1);
    let b = r.binding();
    let parent = r.parent();
    let child = r.child_of(parent, &b).expect("admits");
    assert_eq!(r.usage(), (1, 1));
    assert!(r.commit(child, "test", Json::object().with("v", Json::num(1))).is_ok());
    assert!(r.close(child));
    assert_eq!(r.usage(), (0, 0));
    assert!(r.close(parent));
    assert!(r.k.pending_calls().is_empty());
}

#[test]
fn no_grant_no_admission_no_residue() {
    let mut r = Rig::pair();
    let b = r.binding();
    let parent = r.parent();
    let e = r.child_of(parent, &b).expect_err("no grant of the operator");
    assert_eq!(e.code, "permission-denied", "{}", e.reason);
    assert_eq!(r.usage(), (0, 0));
    assert!(r.k.pending_calls().iter().all(|t| t.dep.is_none()));
    assert!(r.close(parent));
}

#[test]
fn foreign_parent_and_stale_binding_denied() {
    let mut r = Rig::granted();
    let b = r.binding();
    let cons_gen = r.generation("consumer");
    // The provider ticket used as parent by the consumer.
    let alien = r.open("prov.api@1", Some(CallPolicy::cancel()), vec![]).unwrap();
    let e = r.admit_as("consumer", alien, &b, 100).expect_err("foreign parent");
    assert_eq!(e.code, "invalid-parent", "{}", e.reason);
    assert!(r.close(alien));
    let parent = r.parent();
    let e = r.admit_as("consumer", TicketId(999_999), &b, 100).expect_err("unknown parent");
    assert_eq!(e.code, "invalid-parent");
    // Reintroduces the provider: the cascade withdraws the consumer.
    let prov_gen = r.generation("provider");
    r.dispose("provider");
    r.put("provider", provider());
    assert!(r.generation("provider") > prov_gen);
    assert!(r.generation("consumer") > cons_gen, "consumer reactivated in a new generation");
    let parent2 = r.parent();
    let e = r.admit_as("consumer", parent2, &b, 100).expect_err("dead-activation handle");
    assert_eq!(e.code, "dependency-unavailable", "{} {}", e.code, e.reason);
    // Handle of another consumer with this parent and caller: authorizes nothing.
    r.put("consumer2", calling("consumer2", "cons2.cap@1", "prov.api@1", "provider", limits(32, 3, 4)));
    let bx = r.k.dependency_bindings_of("consumer2");
    assert_eq!(bx.len(), 1);
    let e = r.admit_as("consumer", parent2, &bx[0].id, 100).expect_err("foreign handle");
    assert_eq!(e.code, "invalid-parent", "{} {}", e.code, e.reason);
    let b2 = r.binding();
    assert_ne!(b2, b, "reactivation issues a new handle");
    let child = r.admit_as("consumer", parent2, &b2, 100).expect("new handle admits");
    assert!(r.close(child));
    assert!(r.close(parent2));
    assert!(r.close(parent));
    assert_eq!(r.usage(), (0, 0));
}

#[test]
fn grant_revoke_invalidates_child() {
    let mut r = Rig::granted();
    let b = r.binding();
    let parent = r.parent();
    let child = r.child_of(parent, &b).expect("admits");
    let revoked = r.k.revoke_outbound("consumer", "prov.api@1");
    assert_eq!(revoked.len(), 1);
    assert_eq!(revoked[0].id, child);
    assert_eq!(r.ticket_state(child), Some(TicketState::Cancelled));
    let e = r.commit(child, "test", Json::object()).expect_err("grant revoked");
    assert_eq!(code_of(&e), "cancelled", "{:?}", e);
    assert!(r.reap(child, "test-cleanup"));
    assert_eq!(r.usage(), (0, 0));
    assert!(r.close(parent));
    assert!(r.k.pending_calls().is_empty());
}

#[test]
fn parent_end_revokes_child() {
    let mut r = Rig::granted();
    let b = r.binding();
    let parent = r.parent();
    let child = r.child_of(parent, &b).expect("admits");
    assert!(r.close(parent));
    assert_eq!(r.ticket_state(child), Some(TicketState::Cancelled));
    assert!(r.commit(child, "test", Json::object()).is_err());
    assert!(r.close(child));
    assert_eq!(r.usage(), (0, 0));
}

#[test]
fn consumer_withdraw_revokes_child() {
    let mut r = Rig::granted();
    let b = r.binding();
    let parent = r.parent();
    let child = r.child_of(parent, &b).expect("admits");
    let inst = r.instance("consumer");
    assert_eq!(r.dispose_instance(inst).as_str(), "CleanupPending");
    assert_eq!(r.ticket_state(child), Some(TicketState::Cancelled));
    assert!(r.close(parent));
    assert!(r.reap(child, "test-cleanup"));
    assert_eq!(r.usage(), (0, 0));
}

#[test]
fn expired_child_rejects_commit_and_settles() {
    let mut r = Rig::granted();
    let b = r.binding();
    let parent = r.parent();
    let child = r.admit_as("consumer", parent, &b, 1).expect("admits");
    r.now = r.now.after_ms(5);
    r.k.calls.expire_overdue(r.now);
    let e = r.commit(child, "test", Json::object()).expect_err("expired");
    assert_eq!(code_of(&e), "deadline-exceeded", "{:?}", e);
    assert!(r.close(child));
    assert!(r.close(parent));
    assert_eq!(r.usage(), (0, 0));
}

#[test]
fn accepting_needs_a_live_chain() {
    let mut r = Rig::granted();
    let b = r.binding();
    let parent = r.parent();
    let child = r.child_of(parent, &b).expect("admits");
    let other = r.child_of(parent, &b).expect("admits");
    assert!(r.k.dependency_accept(child, r.now).is_ok());
    assert_eq!(r.ticket_state(child), Some(TicketState::Committed));
    // Accepted once.
    assert_eq!(r.k.dependency_accept(child, r.now).expect_err("again").code, "cancelled");
    r.k.revoke_outbound("consumer", "prov.api@1");
    assert_eq!(r.k.dependency_accept(other, r.now).expect_err("revoked").code, "permission-denied");
    assert_eq!(r.k.dependency_accept(TicketId(999_999), r.now).expect_err("unknown").code, "internal");
    assert!(r.close(parent));
    assert_eq!(r.k.dependency_accept(other, r.now).expect_err("no parent").code, "cancelled");
    assert!(r.close(child));
    assert!(r.reap(other, "test-cleanup"));
    assert_eq!(r.usage(), (0, 0));
}

#[test]
fn timeouts_revoke_only_the_admitted() {
    let mut r = Rig::granted();
    let b = r.binding();
    let parent = r.parent();
    let child = r.child_of(parent, &b).expect("admits");
    assert!(r.k.dependency_timeout(child));
    assert_eq!(r.ticket_state(child), Some(TicketState::Expired));
    assert!(!r.k.dependency_timeout(child));
    assert!(!r.k.dependency_timeout(TicketId(999_999)));
}

#[test]
fn renewed_grant_ends_earlier_children() {
    let mut r = Rig::granted();
    let b = r.binding();
    let parent = r.parent();
    let child = r.child_of(parent, &b).expect("admits");
    let (_, revoked) = r.k.grant_outbound("consumer", "prov.api@1");
    assert_eq!(revoked.len(), 1);
    assert_eq!(revoked[0].id, child);
    assert_eq!(r.ticket_state(child), Some(TicketState::Cancelled));
    let next = r.child_of(parent, &b).expect("the renewed grant admits");
    assert!(r.commit(next, "test", Json::object()).is_ok());
}

#[test]
fn depth_bounded_along_chain() {
    // Chain l1, l2, l3 (root at 0): a child at depth 1, a grandchild at 2.
    let mut r = Rig::new();
    r.put("l3", basic("l3", &["l3.api@1"], "noop"));
    r.put("l2", calling("l2", "l2.api@1", "l3.api@1", "l3", limits(32, 1, 4)));
    r.put("l1", calling("l1", "l1.cap@1", "l2.api@1", "l2", limits(32, 3, 4)));
    r.k.grant_outbound("l1", "l2.api@1");
    r.k.grant_outbound("l2", "l3.api@1");
    let b1 = r.k.dependency_bindings_of("l1");
    assert_eq!(b1.len(), 1);
    let root = r.open("l1.cap@1", Some(CallPolicy::cancel()), vec![]).unwrap();
    let c1 = r.admit_as("l1", root, &b1[0].id, 5000).expect("depth 1 admits");
    let b2 = r.k.dependency_bindings_of("l2");
    assert_eq!(b2.len(), 1);
    let e = r.admit_as("l2", c1, &b2[0].id, 5000).expect_err("depth 2 past the cap");
    assert_eq!(e.code, "resource-exhausted", "{} {}", e.code, e.reason);
    assert!(r.close(c1));
    assert!(r.close(root));
    assert_eq!(r.usage(), (0, 0));
}

#[test]
fn depth_two_is_admitted_where_allowed() {
    let mut r = Rig::new();
    r.put("l3", basic("l3", &["l3.api@1"], "noop"));
    r.put("l2", calling("l2", "l2.api@1", "l3.api@1", "l3", limits(32, 2, 4)));
    r.put("l1", calling("l1", "l1.cap@1", "l2.api@1", "l2", limits(32, 3, 4)));
    r.k.grant_outbound("l1", "l2.api@1");
    r.k.grant_outbound("l2", "l3.api@1");
    let b1 = r.k.dependency_bindings_of("l1")[0].id.clone();
    let b2 = r.k.dependency_bindings_of("l2")[0].id.clone();
    let root = r.open("l1.cap@1", Some(CallPolicy::cancel()), vec![]).unwrap();
    let c1 = r.admit_as("l1", root, &b1, 5000).expect("depth 1 admits");
    let c2 = r.admit_as("l2", c1, &b2, 5000).expect("depth 2 admits");
    assert_eq!(r.k.calls.get(c2).unwrap().dep.unwrap().depth, 2);
    assert_eq!(r.usage(), (2, 2));
    // The end of the root ends the whole chain.
    assert!(r.close(root));
    assert_eq!(r.ticket_state(c1), Some(TicketState::Cancelled));
    assert_eq!(r.ticket_state(c2), Some(TicketState::Cancelled));
}

/// Sixty schedules of twenty admissions against twenty revocations: each
/// admission is denied cleanly, or the revocation finds the child.
fn interleave(revoker: fn(&mut Rig, u64)) {
    for i in 0..60u64 {
        let mut r = Rig::granted();
        let b = r.binding();
        let parent = r.parent();
        let inst = r.instance("consumer");
        let gen = r.generation("consumer");
        let mut held: Option<TicketId> = None;
        let (mut admits, mut revokes) = (0, 0);
        let mut state = i;
        while admits < 20 || revokes < 20 {
            state = state.wrapping_mul(6364136223846793005).wrapping_add(1442695040888963407);
            if revokes == 20 || (admits < 20 && (state >> 40) % 2 == 0) {
                // The owner closes what it admitted on its next turn.
                match held.take() {
                    Some(t) => {
                        r.close(t);
                        admits += 1;
                    }
                    None => {
                        let res = r.k.dependency_admit(
                            &DepAdmit {
                                parent,
                                binding: b.clone(),
                                caller_logical: "consumer".into(),
                                caller_instance: inst,
                                caller_generation: gen,
                                session: "s1".into(),
                                timeout_ms: 5000,
                            },
                            r.now,
                        );
                        match res {
                            Ok(t) => held = Some(t),
                            Err(_) => admits += 1,
                        }
                    }
                }
            } else {
                revoker(&mut r, inst);
                revokes += 1;
            }
        }
        if let Some(t) = held {
            r.close(t);
        }
        for t in r.k.pending_calls() {
            if t.dep.is_some() {
                assert_eq!(t.state, TicketState::Admitted);
                assert!(r.commit(t.id, "probe", Json::object()).is_ok(), "survivor has a valid chain");
                assert!(r.close(t.id));
            } else if t.id == parent {
                assert!(r.close(t.id));
            } else {
                panic!("unexpected ticket: {:?}", t.id);
            }
        }
        assert_eq!(r.usage(), (0, 0), "quotas return to zero (iter {})", i);
    }
}

#[test]
fn interleave_provider_withdraw_vs_admit() {
    interleave(|r, _| {
        if let Some(cur) = r.k.instance_ref_of("provider") {
            r.dispose_instance(cur.instance);
        }
        r.put("provider", provider());
    });
}

#[test]
fn interleave_grant_revoke_vs_admit() {
    interleave(|r, _| {
        r.k.revoke_outbound("consumer", "prov.api@1");
        r.k.grant_outbound("consumer", "prov.api@1");
    });
}

#[test]
fn interleave_consumer_withdraw_vs_admit() {
    interleave(|r, inst| {
        if r.state("consumer") == "Active" {
            r.dispose_instance(inst);
        }
    });
}

#[test]
fn quota_per_parent_atomic_under_concurrency() {
    let mut r = Rig::new();
    r.put("provider", provider());
    r.put("consumer", calling("consumer", "cons.cap@1", "prov.api@1", "provider", limits(32, 3, 1)));
    r.k.grant_outbound("consumer", "prov.api@1");
    let b = r.binding();
    let parent = r.parent();
    let outs: Vec<Result<TicketId, DepDeny>> = (0..8).map(|_| r.child_of(parent, &b)).collect();
    assert_eq!(outs.iter().filter(|o| o.is_ok()).count(), 1, "exactly one wins");
    for e in outs.iter().filter_map(|o| o.as_ref().err()) {
        assert_eq!(e.code, "resource-exhausted", "{} {}", e.code, e.reason);
    }
    for t in r.k.pending_calls() {
        if t.dep.is_some() {
            assert!(r.close(t.id));
        }
    }
    assert!(r.close(parent));
    assert_eq!(r.usage(), (0, 0));
}

#[test]
fn acquire_external_rejects_foreign_generation() {
    let mut r = Rig::pair();
    let c = r.k.instance_ref_of("consumer").unwrap();
    let t = || ResourceKind::Timer { label: "t".into(), interval_ms: 10 };
    assert_eq!(
        r.k.acquire_external("consumer", t(), InstanceId(c.instance), c.generation + 1, None).unwrap_err(),
        "stale-generation"
    );
    assert_eq!(
        r.k.acquire_external("consumer", t(), InstanceId(c.instance + 999), c.generation, None).unwrap_err(),
        "stale-generation"
    );
    let h = r.k.acquire_external("consumer", t(), InstanceId(c.instance), c.generation, None).expect("current");
    assert!(r.k.validate_handle(h, "consumer").is_ok());
    r.dispose("consumer");
    r.put("consumer", consumer());
    assert!(r.generation("consumer") > c.generation);
    assert!(r.k.acquire_external("consumer", t(), InstanceId(c.instance), c.generation, None).is_err());
    assert!(r.k.release(h).is_err(), "dead-generation handle never releases");
}

#[test]
fn acquire_external_withdraw_race_leaves_no_residue() {
    for cut in 0..31 {
        let mut r = Rig::pair();
        let mut got = vec![];
        for i in 0..30 {
            if i == cut {
                let inst = r.instance("consumer");
                r.dispose_instance(inst);
            }
            let c = r.k.instance_ref_of("consumer").unwrap();
            let sub = ResourceKind::Sub { topic: "test.topic".into() };
            got.push(r.k.acquire_external("consumer", sub, InstanceId(c.instance), c.generation, None));
        }
        for h in got.into_iter().flatten() {
            let rec = r.k.resources.record(h).expect("handle recorded");
            if r.k.resources.is_live(h) {
                assert_eq!(r.state_of_instance(rec.owner_instance.0), "Active");
            }
        }
    }
}

// ---- remote providers ----

fn remote_consumer() -> String {
    calling("consumer", "cons.cap@1", "prov.api@1", "rprov", limits(32, 3, 4))
}

fn remote_def(more: &str) -> String {
    manifest("rprov", &["prov.api@1"], "noop", &format!(",\"subscriptions\":[],\"remote\":true{}", more))
}

fn local_provider() -> String {
    basic("localprov", &["local.api@1"], "noop")
}

impl Rig {
    fn register(&mut self, logical: &str, instance: u64, generation: u64, peer: &str) -> Result<(), String> {
        let job = self.k.register_remote_provider(logical, instance, generation, peer)?;
        self.run(job);
        Ok(())
    }

    fn unregister(&mut self, logical: &str) -> bool {
        match self.k.unregister_remote_provider(logical) {
            Some(job) => {
                self.run(job);
                true
            }
            None => false,
        }
    }

    fn remote() -> Rig {
        let mut r = Rig::new();
        r.put("consumer", remote_consumer());
        r.put("rprov", remote_def(""));
        r
    }

    fn handle(&self) -> String {
        self.k.dependency_bindings_of("consumer")[0].id.clone()
    }
}

#[test]
fn register_fails_closed_without_remote_definition() {
    let mut r = Rig::new();
    assert!(r.register("ghost", 7, 1, "exec-A").is_err());
    // Local definition: hijack refused.
    r.put("localprov", local_provider());
    assert!(r.register("localprov", 7, 1, "exec-A").is_err());
    assert!(r.k.remote_provider_of("localprov").is_none());
    // Remote definition carrying requires: manifest rejected.
    assert!(read_manifest("rprov.json", &remote_def("")).is_ok());
    assert!(read_manifest("rprov.json", &remote_def(",\"requires\":[{\"interface\":\"x@1\"}]")).is_err());
    let def = Json::object()
        .with("id", Json::str("rprov"))
        .with("capabilities", Json::list(vec![Json::str("prov.api@1")]))
        .with("remote", Json::flag(true));
    assert!(parse_manifest_value(&def).is_ok());
    let bad = def.with("requires", Json::list(vec![Json::object().with("interface", Json::str("x@1"))]));
    assert!(parse_manifest_value(&bad).is_err());
}

#[test]
fn consumer_waits_until_registered_then_binds_remote() {
    let mut r = Rig::remote();
    assert_eq!(r.k.context_state_of("consumer").as_deref(), Some("Waiting"));
    // The remote definition itself never activates locally.
    assert!(r.k.context_state_of("rprov").is_none());
    assert!(r.k.dependency_bindings_of("consumer").is_empty());

    r.register("rprov", 7, 3, "exec-A").expect("register");
    assert_eq!(r.k.context_state_of("consumer").as_deref(), Some("Active"));
    let bs = r.k.dependency_bindings_of("consumer");
    assert_eq!(bs.len(), 1);
    assert_eq!(bs[0].capability, "prov.api@1");
    assert_eq!(bs[0].provider_logical, "rprov");
    assert_eq!(bs[0].provider_instance.0, 7);
    assert_eq!(bs[0].provider_generation, 3);
    assert!(bs[0].id.starts_with("rb-"), "remote handles are rb-N: {}", bs[0].id);
}

#[test]
fn remote_admit_happy_path_with_peer_on_ticket() {
    let mut r = Rig::remote();
    r.register("rprov", 7, 3, "exec-A").unwrap();
    r.k.grant_outbound("consumer", "prov.api@1");
    let b = r.handle();
    let parent = r.parent();
    let child = r.child_of(parent, &b).expect("remote child");
    let rec = r.k.calls.get(child).expect("ticket");
    assert_eq!(rec.dep.as_ref().unwrap().remote_peer.as_deref(), Some("exec-A"));
    assert_eq!(rec.instance.0, 7, "attested executor instance on ticket");
    assert!(r.commit(child, "test", Json::object().with("v", Json::num(1))).is_ok());
    assert!(r.close(child));
    assert!(r.close(parent));
    assert!(r.k.pending_calls().is_empty());
}

#[test]
fn reregister_stales_old_bindings() {
    let mut r = Rig::remote();
    r.register("rprov", 7, 3, "exec-A").unwrap();
    r.k.grant_outbound("consumer", "prov.api@1");
    let c = r.k.instance_ref_of("consumer").unwrap();
    let old = r.handle();
    r.register("rprov", 7, 4, "exec-A").unwrap();
    let c2 = r.k.instance_ref_of("consumer").unwrap();
    assert_ne!(c2.generation, c.generation, "consumer re-activated");
    let fresh = r.handle();
    assert_ne!(old, fresh, "handles never reused");
    let parent = r.parent();
    let e = r
        .k
        .dependency_admit(
            &DepAdmit {
                parent,
                binding: old,
                caller_logical: "consumer".into(),
                caller_instance: c.instance,
                caller_generation: c.generation,
                session: "s1".into(),
                timeout_ms: 5000,
            },
            r.now,
        )
        .expect_err("stale binding");
    assert!(
        e.code == "dependency-unavailable" || e.code == "invalid-parent",
        "stale activation denied, got {}",
        e.code
    );
    let child = r.child_of(parent, &fresh).expect("fresh admits");
    assert!(r.close(child));
    assert!(r.close(parent));
}

#[test]
fn unregister_withdraws_and_denies() {
    let mut r = Rig::remote();
    r.register("rprov", 7, 3, "exec-A").unwrap();
    assert_eq!(r.k.context_state_of("consumer").as_deref(), Some("Active"));
    assert!(r.unregister("rprov"));
    assert_eq!(r.k.context_state_of("consumer").as_deref(), Some("Waiting"));
    assert!(r.k.dependency_bindings_of("consumer").is_empty());
    assert!(!r.unregister("rprov"), "idempotent");
}

#[test]
fn dispose_remote_definition_unregisters() {
    let mut r = Rig::remote();
    r.register("rprov", 7, 3, "exec-A").unwrap();
    r.dispose("rprov");
    assert!(r.k.remote_provider_of("rprov").is_none());
    let inv = r.k.inventory(r.now);
    assert!(inv.get("remotes").unwrap().as_array().unwrap().is_empty());
    assert_eq!(r.k.context_state_of("consumer").as_deref(), Some("Waiting"));
}

#[test]
fn grant_revoke_and_parent_end_cancel_remote_leg() {
    let mut r = Rig::remote();
    r.register("rprov", 7, 3, "exec-A").unwrap();
    r.k.grant_outbound("consumer", "prov.api@1");
    let b = r.handle();
    let parent = r.parent();
    let child = r.child_of(parent, &b).expect("leg");
    let cancelled = r.k.revoke_outbound("consumer", "prov.api@1");
    assert!(cancelled.iter().any(|t| t.id == child));
    // Revocation already moved it to Cancelled, so the owner reaps it.
    assert!(r.reap(child, "owner died"));
    assert!(r.close(parent));
}

#[test]
fn remote_instance_collision_with_local_is_harmless() {
    let mut r = Rig::new();
    r.put("localprov", local_provider());
    r.put("consumer", remote_consumer());
    r.put("rprov", remote_def(""));
    let local = r.instance("localprov");
    r.register("rprov", local, 3, "exec-A").unwrap();
    r.k.grant_outbound("consumer", "prov.api@1");
    let b = r.handle();
    assert_eq!(r.k.context_state_of("consumer").as_deref(), Some("Active"));
    // Disposing the unrelated local provider must not prune remote bindings.
    r.dispose("localprov");
    assert_eq!(r.k.context_state_of("consumer").as_deref(), Some("Active"));
    assert_eq!(r.k.dependency_bindings_of("consumer").len(), 1);
    let parent = r.parent();
    let child = r.child_of(parent, &b).expect("still admits");
    assert!(r.close(child));
    assert!(r.close(parent));
}

#[test]
fn inventory_exposes_remote_state() {
    let mut r = Rig::remote();
    r.register("rprov", 7, 3, "exec-A").unwrap();
    let inv = r.k.inventory(r.now);
    let remotes = inv.get("remotes").unwrap().as_array().unwrap();
    assert_eq!(remotes.len(), 1);
    assert_eq!(remotes[0].str_at("logical").unwrap(), "rprov");
    assert_eq!(remotes[0].str_at("peer").unwrap(), "exec-A");
    let defs = inv.get("definitions").unwrap().as_array().unwrap();
    let rd = defs.iter().find(|d| d.str_at("id").unwrap() == "rprov").unwrap();
    assert_eq!(rd.get("remote").unwrap(), &Json::flag(true));
    assert_eq!(r.k.remote_providers_of_peer("exec-A"), vec!["rprov".to_string()]);
    assert!(r.k.remote_providers_of_peer("exec-B").is_empty());
}
