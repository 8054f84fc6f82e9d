use matrix_core::journal::Line;
use matrix_core::kernel::operations::{read_candidates, Found};
use matrix_core::{
    CallPolicy, DisposeOutcome, InstanceId, Instant, Invocation, Job, Journal, Json, Kernel, Progress,
    ReloadStep, ResourceHandle, ResourceKind, ResourceState, TicketId,
};

/// A kernel with a clock of its own and manifest files in memory.
struct Rig {
    k: Kernel,
    now: Instant,
    files: Vec<(String, String)>,
    lines: Vec<Line>,
}

impl Rig {
    fn new() -> Rig {
        Rig {
            k: Kernel::new(Journal::open(&vec![], false), false, 77),
            now: Instant::from_millis(1_000_000),
            files: vec![],
            lines: vec![],
        }
    }

    /// Advances a job to its end; drains that nothing ends run out.
    fn run(&mut self, job: Job) -> Option<DisposeOutcome> {
        let mut job = job;
        loop {
            match self.k.advance(job, self.now) {
                Progress::Done(out) => return out,
                Progress::Wait { job: left, until, .. } => {
                    self.now = until;
                    job = left;
                }
            }
        }
    }

    fn finish(&mut self, job: Option<Job>) {
        if let Some(j) = job {
            self.run(j);
        }
    }

    fn write(&mut self, id: &str, body: String) -> String {
        let path = format!("/home/plugins/{}.json", id);
        self.files.retain(|f| f.0 != path);
        self.files.push((path.clone(), body));
        self.files.sort();
        path
    }

    fn load(&mut self, path: &str) -> Result<String, String> {
        let body = self.files.iter().find(|f| f.0 == path).unwrap().1.clone();
        let (id, job) = self.k.load_manifest(path, &body)?;
        self.run(job);
        Ok(id)
    }

    /// Writes and loads.
    fn put(&mut self, id: &str, body: String) -> String {
        let path = self.write(id, body);
        self.load(&path).unwrap();
        path
    }

    fn dispose(&mut self, id: &str) -> DisposeOutcome {
        let job = self.k.dispose_plugin(id);
        self.run(job).unwrap()
    }

    fn dispose_instance(&mut self, inst: u64) -> DisposeOutcome {
        let job = self.k.dispose_instance(InstanceId(inst));
        self.run(job).unwrap()
    }

    fn invoke(&mut self, cap: &str, input: &Json) -> (Json, bool) {
        match self.k.invoke(cap, input, self.now) {
            Invocation::Answered(a) => {
                self.finish(a.job);
                (a.value, a.ok)
            }
            Invocation::Forward(_) => panic!("nothing runs outside here"),
        }
    }

    fn ok(&mut self, cap: &str) -> bool {
        self.invoke(cap, &Json::object()).1
    }

    fn open(&mut self, cap: &str, policy: Option<CallPolicy>, pins: Vec<ResourceHandle>) -> Result<TicketId, Json> {
        self.k.call_open(cap, &Json::object(), policy, &pins, self.now).map(|o| o.ticket)
    }

    fn commit(&mut self, t: TicketId, kind: &str, payload: Json) -> Result<u64, Json> {
        self.k.commit_effect(t, kind, &payload, self.now, 0)
    }

    fn close(&mut self, t: TicketId) -> bool {
        let (known, job) = self.k.call_close(t);
        self.finish(job);
        known
    }

    fn reap(&mut self, t: TicketId, reason: &str) -> bool {
        let (done, job) = self.k.call_reap(t, reason);
        self.finish(job);
        done
    }

    fn acquire(&mut self, id: &str, kind: ResourceKind) -> Result<ResourceHandle, String> {
        self.k.acquire(id, kind, None)
    }

    fn state(&self, logical: &str) -> String {
        self.k.context_state_of(logical).unwrap_or_else(|| "<none>".to_string())
    }

    fn generation(&self, logical: &str) -> u64 {
        self.k.instance_ref_of(logical).unwrap().generation
    }

    fn instance(&self, logical: &str) -> u64 {
        self.k.instance_ref_of(logical).unwrap().instance
    }

    fn state_of_instance(&self, inst: u64) -> String {
        self.k.contexts.get_by_instance(InstanceId(inst)).unwrap().state.as_str().to_string()
    }

    fn published(&self, cap: &str) -> Option<String> {
        self.k.caps.resolve(cap)
    }

    /// How many entries of a kind the journal holds.
    fn journaled(&mut self, kind: &str) -> usize {
        let fresh = self.k.journal.take_pending();
        self.lines.extend(fresh);
        self.lines.iter().filter(|l| l.kind == kind).count()
    }
}

fn timer(label: &str) -> ResourceKind {
    ResourceKind::Timer { label: label.into(), interval_ms: 5 }
}

fn task(label: &str) -> ResourceKind {
    ResourceKind::Task { label: label.into() }
}

fn quoted(names: &[&str]) -> String {
    names.iter().map(|n| format!("\"{}\"", n)).collect::<Vec<_>>().join(",")
}

/// A manifest with further members, each starting with a comma.
fn manifest(id: &str, caps: &[&str], reducer: &str, more: &str) -> String {
    format!(
        "{{\"id\":\"{}\",\"version\":\"1.0.0\",\"capabilities\":[{}],\"reducer\":\"{}\",\"init_state\":{{}},\"tier\":\"inproc\",\"trust\":\"trusted\",\"restart\":\"permanent\"{}}}",
        id, quoted(caps), reducer, more
    )
}

fn basic(id: &str, caps: &[&str], reducer: &str) -> String {
    manifest(id, caps, reducer, ",\"subscriptions\":[]")
}

fn requiring(id: &str, caps: &[&str], interface: &str, provider: &str) -> String {
    manifest(
        id,
        caps,
        "noop",
        &format!(",\"requires\":[{{\"interface\":\"{}\",\"provider\":\"{}\"}}]", interface, provider),
    )
}

fn code_of(v: &Json) -> String {
    v.str_at("code").cloned().unwrap_or_default()
}

impl Rig {
    fn reload(&mut self) -> usize {
        self.reload_under(|_| ())
    }

    /// Reloads, with other work between the steps.
    fn reload_under(&mut self, mut work: impl FnMut(&mut Rig)) -> usize {
        let files: Vec<Found> = self
            .files
            .iter()
            .map(|f| Found { path: f.0.clone(), content: Ok(f.1.clone()) })
            .collect();
        let mut under = vec![];
        for i in 0..self.k.definitions.len() {
            if let Some(s) = &self.k.definitions.value_at(i).source {
                under.push(s.clone());
            }
        }
        let mut r = self.k.reload(&files, &under);
        loop {
            work(self);
            match self.k.reload_step(&mut r) {
                ReloadStep::Remove(id) => {
                    self.dispose(&id);
                }
                ReloadStep::Load(path) => r.told(self.load(&path).is_ok()),
                ReloadStep::Over(n) => return n,
            }
        }
    }

    fn delete(&mut self, id: &str) {
        let path = format!("/home/plugins/{}.json", id);
        self.files.retain(|f| f.0 != path);
    }

    /// Every published capability belongs to the current, active instance of
    /// its owner.
    fn registry_is_current(&self) {
        let caps = self.k.caps.snapshot();
        for i in 0..caps.len() {
            let cap = caps.key_at(i);
            let r = self.k.caps.resolve_ref(cap).unwrap();
            let cur = self.k.contexts.current(caps.value_at(i)).unwrap();
            assert_eq!(r.instance, cur.instance.0);
            assert_eq!(cur.state.as_str(), "Active");
        }
    }

    fn no_leftovers(&self, logical: &str) {
        let cur = self.k.contexts.current(logical).map(|c| c.generation).unwrap_or(0);
        let bad = self
            .k
            .resources
            .inventory()
            .into_iter()
            .filter(|r| r.owner_logical == logical && r.state == ResourceState::Active && r.generation != cur)
            .count();
        assert_eq!(bad, 0);
    }

    /// Active resources of these owners in the inventory.
    fn leaked(&self, owners: &[&str]) -> usize {
        let inv = self.k.inventory(self.now);
        inv.get("resources")
            .unwrap()
            .as_array()
            .unwrap()
            .iter()
            .filter(|r| {
                owners.iter().any(|o| r.str_at("owner").unwrap() == o) && r.str_at("state").unwrap() == "Active"
            })
            .count()
    }
}

fn ping() -> Json {
    Json::object().with("ping", Json::flag(true))
}

fn samples() -> Rig {
    let mut r = Rig::new();
    r.put("ancient", basic("ancient", &["ancient.api@1"], "ancient"));
    r.put("clock", manifest("clock", &["clock.now@1"], "clock", ",\"subscriptions\":[\"sys.tick\"]"));
    r.put("counter", manifest("counter", &["count.state@1"], "counter", ",\"subscriptions\":[\"sys.tick\"]"));
    r.put("crasher", basic("crasher", &["crash.inject@1"], "crasher"));
    r.put("echo", basic("echo", &["echo.msg@1"], "echo"));
    r.put("model", basic("model", &["model.chat@1"], "model"));
    r
}

// ---- dispatch ----

#[test]
fn reload_under_load_no_orphans_no_mixed_generations() {
    let mut r = Rig::new();
    r.write("workspace", basic("workspace", &["workspace.fs@1"], "noop"));
    r.write("search", requiring("search", &["search.query@1"], "workspace.fs@1", "workspace"));
    r.write("echo", basic("echo", &["echo.msg@1"], "echo"));
    assert_eq!(r.reload(), 3);
    let ws1 = r.generation("workspace");

    // a call open on the first generation; the reload revokes it
    let t = r.open("search.query@1", Some(CallPolicy::cancel()), vec![]).unwrap();
    r.write("workspace", basic("workspace", &["workspace.fs@1"], "noop"));
    let mut served = 0;
    r.reload_under(|r| {
        assert!(r.ok("echo.msg@1"));
        served += 1;
    });
    assert_eq!(served, 4);

    let ws_now = r.k.instance_ref_of("workspace").unwrap();
    assert!(ws_now.generation > ws1, "provider on a new generation");
    r.registry_is_current();

    assert!(r.commit(t, "w", Json::object()).is_err(), "old-generation commit rejected");
    assert!(r.close(t));
    r.no_leftovers("search");
    r.no_leftovers("workspace");
    r.registry_is_current();
    let bs = r.k.bindings_of("search");
    assert_eq!(bs.len(), 1);
    assert_eq!(bs[0].provider_instance, ws_now.instance, "binding on the new generation");
    assert!(r.ok("search.query@1"));
    assert!(r.ok("echo.msg@1"));
}

#[test]
fn echo_roundtrip() {
    let mut r = samples();
    let (v, ok) = r.invoke("echo.msg@1", &ping());
    assert!(ok);
    assert_eq!(v.get("echo").unwrap().get("ping").unwrap(), &Json::flag(true));
}

#[test]
fn ancient_frozen_contract() {
    let mut r = samples();
    let (v, ok) = r.invoke("ancient.api@1", &Json::object().with("in", Json::num(41)));
    assert!(ok);
    assert_eq!(v.get("out").unwrap(), &Json::num(42));
}

#[test]
fn counter_ticks_via_emit() {
    let mut r = samples();
    r.k.emit("sys.tick", &Json::object());
    r.k.emit("sys.tick", &Json::object());
    r.k.emit("sys.tick", &Json::object());
    let (v, ok) = r.invoke("count.state@1", &Json::object());
    assert!(ok);
    assert_eq!(v.get("state").unwrap(), &Json::num(3));
    let (v, ok) = r.invoke("clock.now@1", &Json::object());
    assert!(ok);
    assert_eq!(v.get("count").unwrap(), &Json::num(3));
}

#[test]
fn reload_preserves_counter_and_bumps_generation() {
    let mut r = samples();
    r.k.emit("sys.tick", &Json::object());
    let before = r.k.plugins.get("counter").unwrap().generation;
    r.reload();
    let p = r.k.plugins.get("counter").unwrap();
    assert_eq!(p.json_state.get("state").unwrap(), &Json::num(1));
    assert!(p.generation > before);
}

#[test]
fn crasher_panic_contained_echo_survives() {
    let mut r = samples();
    let (v, ok) = r.invoke("crash.inject@1", &Json::object().with("mode", Json::str("panic")));
    assert!(!ok);
    assert_eq!(code_of(&v), "plugin-panicked");
    let (v, ok) = r.invoke("echo.msg@1", &ping());
    assert!(ok);
    assert_eq!(v.get("echo").unwrap().get("ping").unwrap(), &Json::flag(true));
}

#[test]
fn unknown_cap_has_code() {
    let mut r = samples();
    let (v, ok) = r.invoke("nope.missing@1", &Json::object());
    assert!(!ok);
    assert_eq!(v.get("code").unwrap(), &Json::str("no-such-capability"));
}

#[test]
fn sixth_fault_in_ten_seconds_fails_the_plugin() {
    let mut r = samples();
    for i in 0..6u64 {
        let (v, ok) = r.invoke("crash.inject@1", &Json::object());
        assert!(!ok);
        let failed = v.get("fault").unwrap().get("failed").unwrap().as_bool().unwrap();
        assert_eq!(failed, i == 5);
        r.now = r.now.after_ms(1500);
    }
    assert_eq!(r.state("crasher"), "Failed");
    assert_eq!(
        r.k.contexts.current("crasher").unwrap().cause.as_deref(),
        Some("fault budget exceeded (panic)")
    );
    assert_eq!(code_of(&r.invoke("crash.inject@1", &Json::object()).0), "context-not-active");
}

#[test]
fn spread_faults_do_not_fail_the_plugin() {
    let mut r = samples();
    for _ in 0..20 {
        r.invoke("crash.inject@1", &Json::object().with("mode", Json::str("oops")));
        r.now = r.now.after_ms(2500);
    }
    assert_eq!(r.state("crasher"), "Active");
    assert_eq!(r.k.plugins.get("crasher").unwrap().panic_count, 20);
}

#[test]
fn unknown_reducer_is_refused() {
    let mut r = Rig::new();
    r.put("odd", basic("odd", &["odd.cap@1"], "wat"));
    let (v, ok) = r.invoke("odd.cap@1", &Json::object());
    assert!(!ok);
    assert_eq!(code_of(&v), "reducer-missing");
    assert!(r.k.pending_calls().is_empty());
}

#[test]
fn a_dry_run_journals_no_invocation() {
    let mut r = Rig::new();
    r.put("echo", basic("echo", &["echo.msg@1"], "echo"));
    assert!(r.ok("echo.msg@1"));
    assert_eq!(r.journaled("cap.invoke"), 1);
    r.k.dry_run = true;
    assert!(r.ok("echo.msg@1"));
    assert_eq!(r.journaled("cap.invoke"), 1);
}

#[test]
fn invoke_for_ref_never_reaches_a_replacement() {
    let mut r = Rig::new();
    let m = r.put("echo", basic("echo", &["echo.msg@1"], "echo"));
    let old = r.k.instance_ref_of("echo").unwrap();
    match r.k.invoke_for_ref(&old, "echo.msg@1", &ping(), r.now) {
        Invocation::Answered(a) => assert!(a.ok),
        Invocation::Forward(_) => panic!("runs here"),
    }
    r.load(&m).unwrap();
    match r.k.invoke_for_ref(&old, "echo.msg@1", &ping(), r.now) {
        Invocation::Answered(a) => {
            assert!(!a.ok);
            assert_eq!(code_of(&a.value), "stale-generation");
        }
        Invocation::Forward(_) => panic!("runs here"),
    }
    assert!(r.k.pending_calls().is_empty());
}

#[test]
fn replay_restores_the_counter() {
    let mut r = samples();
    r.k.emit("sys.tick", &Json::object());
    r.k.emit("other.topic", &Json::object());
    r.k.emit("sys.tick", &Json::object());
    let lines: Vec<String> =
        r.k.journal.take_pending().iter().map(|l| Journal::line_text(l, "1704067200.000")).collect();
    let entries = Journal::read_all(&lines);
    assert_eq!(entries.len(), lines.len());
    let mut fresh = samples();
    let (applied, total) = fresh.k.replay(&entries);
    assert_eq!(applied, 2);
    assert_eq!(total, entries.len());
    let (v, _) = fresh.invoke("count.state@1", &Json::object());
    assert_eq!(v.get("state").unwrap(), &Json::num(2));
}

#[test]
fn reset_clears_the_bench() {
    let mut r = samples();
    r.put("gen-1", basic("gen-1", &["gen.cap@1"], "noop"));
    r.k.emit("sys.tick", &Json::object());
    let t = r.acquire("echo", timer("t")).unwrap();
    let names = r.k.reset_bench();
    assert_eq!(names, vec!["gen-1".to_string()]);
    for n in &names {
        let job = r.k.reset_discard(n);
        r.finish(job);
    }
    let job = r.k.reset_finish();
    r.run(job);
    assert!(r.published("gen.cap@1").is_none());
    assert!(!r.k.resources.is_live(t));
    let (v, _) = r.invoke("count.state@1", &Json::object());
    assert_eq!(v.get("state").unwrap(), &Json::num(0));
    assert!(r.ok("echo.msg@1"));
}

// ---- identity and resources ----

#[test]
fn c01_stale_handles_rejected_after_reuse() {
    let mut r = Rig::new();
    let m = r.put("echo", basic("echo", &["echo.msg@1"], "echo"));
    let ref1 = r.k.instance_ref_of("echo").expect("ref gen1");
    assert_eq!(ref1.generation, 1);

    let h = r.acquire("echo", timer("c01-t")).expect("acquire timer gen1");
    assert!(r.k.validate_handle(h, "echo").is_ok());

    let out = r.dispose("echo");
    assert_eq!(out.as_str(), "Disposed");

    // Reuses the logical id: new generation, new instance.
    r.load(&m).unwrap();
    let ref2 = r.k.instance_ref_of("echo").expect("ref gen2");
    assert!(ref2.generation > ref1.generation);
    assert_ne!(ref2.instance, ref1.instance);

    // An old handle never validates again.
    assert!(r.k.validate_handle(h, "echo").is_err());
    assert!(r.k.release(h).is_err());

    // Disposing the old instance never touches the new one.
    let out_old = r.dispose_instance(ref1.instance);
    assert_eq!(out_old.as_str(), "AlreadyDisposed");
    let (v, ok) = r.invoke("echo.msg@1", &ping());
    assert!(ok, "new generation stays active: {:?}", v);
}

#[test]
fn c02_inventory_returns_to_baseline_after_cleanup() {
    let mut r = Rig::new();
    r.put("worker", basic("worker", &[], "noop"));
    let base = r.k.inventory(r.now).u64_at("active_resources").unwrap();

    let h_cap = r.acquire("worker", ResourceKind::Cap { name: "test.cap@1".into() }).unwrap();
    let h_sub = r.acquire("worker", ResourceKind::Sub { topic: "test.topic".into() }).unwrap();
    let h_timer = r.acquire("worker", timer("t")).unwrap();
    let h_task = r.acquire("worker", task("j")).unwrap();

    assert!(r.published("test.cap@1").is_some());
    assert!(r.k.bus.subscribers("test.topic").contains(&"worker".to_string()));
    assert!(r.k.resources.is_live(h_timer));
    assert!(r.k.resources.is_live(h_task));
    assert_eq!(r.k.inventory(r.now).u64_at("active_resources").unwrap(), base + 4);

    for h in [h_task, h_timer, h_sub, h_cap] {
        r.k.release(h).expect("release ok");
    }
    assert!(!r.k.resources.is_live(h_timer));
    assert!(!r.k.resources.is_live(h_task));
    assert!(r.published("test.cap@1").is_none());
    assert!(!r.k.bus.subscribers("test.topic").contains(&"worker".to_string()));
    let end = r.k.inventory(r.now).u64_at("active_resources").unwrap();
    assert_eq!(end, base, "inventory returns to baseline");

    assert_eq!(r.dispose("worker").as_str(), "Disposed");
    assert_eq!(r.k.active_resources_for("worker"), 0);
}

#[test]
fn c03_double_dispose_and_partial_failure_no_orphans() {
    let mut r = Rig::new();
    let m = r.put("w", basic("w", &[], "noop"));
    let rel_before = r.k.resources.total_releases();

    // Idempotent dispose: no double release.
    assert_eq!(r.dispose("w").as_str(), "Disposed");
    let rel_after_first = r.k.resources.total_releases();
    assert!(rel_after_first >= rel_before);
    assert_eq!(r.dispose("w").as_str(), "AlreadyDisposed");
    assert_eq!(r.k.resources.total_releases(), rel_after_first);

    // Reactivates for the partial failure.
    r.load(&m).unwrap();
    let active_before = r.k.resources.active_count();

    // A failure midway undoes the first item.
    let res = r.k.acquire_batch(
        "w",
        &vec![
            (timer("keep"), None),
            (ResourceKind::FailAcquire { label: "boom".into() }, None),
            (task("never"), None),
        ],
    );
    assert!(res.is_err());
    assert_eq!(r.k.resources.active_count(), active_before, "no orphans after partial failure");

    // Double-releasing one handle never duplicates cleanup.
    let h = r.acquire("w", timer("once")).unwrap();
    let rel0 = r.k.resources.total_releases();
    assert!(r.k.release(h).is_ok());
    assert_eq!(r.k.resources.total_releases(), rel0 + 1);
    assert!(r.k.release(h).is_err());
    assert_eq!(r.k.resources.total_releases(), rel0 + 1);
    assert!(r.k.resources.double_release_attempts() >= 1);
}

#[test]
fn c03_cleanup_pending_never_false_disposed() {
    let mut r = Rig::new();
    r.put("sticky", basic("sticky", &[], "noop"));
    let _h = r.acquire("sticky", ResourceKind::FailRelease { label: "stuck".into() }).unwrap();
    match r.dispose("sticky") {
        DisposeOutcome::CleanupPending { .. } => {}
        other => panic!("esperava CleanupPending, obteve {:?}", other),
    }
    assert_eq!(r.k.context_state_of("sticky").as_deref(), Some("CleanupPending"));
    // A second attempt never fakes Disposed.
    assert_eq!(r.dispose("sticky").as_str(), "CleanupPending");
}

#[test]
fn demo_provider_removal_keeps_independent() {
    let mut r = Rig::new();
    let m_ws = r.put("workspace", basic("workspace", &["workspace.fs@1"], "noop"));
    let m_search = r.put("search", basic("search", &["search.query@1"], "noop"));
    r.put("echo", basic("echo", &["echo.msg@1"], "echo"));

    let h_sub = r.acquire("search", ResourceKind::Sub { topic: "workspace.changed".into() }).unwrap();
    let h_timer = r.acquire("search", timer("debounce")).unwrap();
    let h_task = r.acquire("search", task("index")).unwrap();
    let before = r.generation("search");

    assert!(r.ok("workspace.fs@1"));
    assert!(r.ok("search.query@1"));
    assert!(r.invoke("echo.msg@1", &Json::object().with("ping", Json::num(1))).1);

    assert_eq!(r.dispose("workspace").as_str(), "Disposed");
    assert!(r.published("workspace.fs@1").is_none());
    let (v, ok) = r.invoke("workspace.fs@1", &Json::object());
    assert!(!ok, "cap retirada deve rejeitar: {:?}", v);

    assert_eq!(r.dispose("search").as_str(), "Disposed");
    assert!(!r.k.resources.is_live(h_timer));
    assert!(!r.k.resources.is_live(h_task));
    assert!(r.published("search.query@1").is_none());
    assert!(r.k.validate_handle(h_sub, "search").is_err());
    assert!(r.k.validate_handle(h_timer, "search").is_err());
    assert!(r.k.validate_handle(h_task, "search").is_err());

    let (v, ok) = r.invoke("echo.msg@1", &ping());
    assert!(ok);
    assert_eq!(v.get("echo").unwrap().get("ping").unwrap(), &Json::flag(true));

    assert_eq!(r.leaked(&["workspace", "search"]), 0, "no live resources from withdrawn generations");

    r.load(&m_ws).unwrap();
    r.load(&m_search).unwrap();
    assert!(r.generation("search") > before);
    assert!(r.ok("workspace.fs@1"));
    assert!(r.ok("search.query@1"));
    let (v, ok) = r.invoke("echo.msg@1", &Json::object().with("ping", Json::num(2)));
    assert!(ok, "echo sobrevive ao ciclo: {:?}", v);
}

// ---- reactive dependencies ----

#[test]
fn c04_consumer_before_provider_waits_then_activates() {
    let mut r = Rig::new();
    r.put("search", requiring("search", &["search.query@1"], "workspace.fs@1", "workspace"));
    assert_eq!(r.state("search"), "Waiting");
    let reason = r.k.waiting_reason_of("search").expect("visible reason");
    assert!(reason.contains("workspace"), "reason cites the dependency: {}", reason);
    assert!(r.published("search.query@1").is_none(), "Waiting publishes nothing");
    let (v, ok) = r.invoke("search.query@1", &Json::object());
    assert!(!ok, "no admission while Waiting: {:?}", v);
    assert_eq!(v.get("code").unwrap(), &Json::str("dependency-unavailable"));

    r.put("workspace", basic("workspace", &["workspace.fs@1"], "noop"));
    assert_eq!(r.state("workspace"), "Active");
    assert_eq!(r.state("search"), "Active");
    assert_eq!(r.published("search.query@1").as_deref(), Some("search"));
    let bs = r.k.bindings_of("search");
    assert_eq!(bs.len(), 1);
    assert_eq!(bs[0].provider_logical, "workspace");
    assert_eq!(bs[0].interface, "workspace.fs@1");
    let (v, ok) = r.invoke("search.query@1", &Json::object());
    assert!(ok, "consumidor ativo responde: {:?}", v);
}

#[test]
fn c04_consumer_after_provider_active_immediately() {
    let mut r = Rig::new();
    r.put("workspace", basic("workspace", &["workspace.fs@1"], "noop"));
    r.put("search", manifest("search", &["search.query@1"], "noop", ",\"requires\":[\"workspace.fs@1\"]"));
    assert_eq!(r.state("search"), "Active");
    assert!(r.ok("search.query@1"));
}

#[test]
fn c04_chain_activates_in_dependency_order() {
    let mut r = Rig::new();
    r.put("c", requiring("c", &["c.cap@1"], "b.cap@1", "b"));
    assert_eq!(r.state("c"), "Waiting");
    r.put("b", requiring("b", &["b.cap@1"], "a.cap@1", "a"));
    assert_eq!(r.state("b"), "Waiting");
    assert_eq!(r.state("c"), "Waiting");
    r.put("a", basic("a", &["a.cap@1"], "noop"));
    assert_eq!(r.state("a"), "Active");
    assert_eq!(r.state("b"), "Active");
    assert_eq!(r.state("c"), "Active");
    assert!(r.ok("c.cap@1"));
    assert_eq!(r.k.bindings_of("b")[0].provider_logical, "a");
    assert_eq!(r.k.bindings_of("c")[0].provider_logical, "b");
}

#[test]
fn reconciling_goes_on_until_stable() {
    let mut r = Rig::new();
    // consumers first: nothing can run before the first provider is there
    for i in (1..8).rev() {
        let (id, cap) = (format!("p{}", i), format!("p{}.cap@1", i));
        let (on, of) = (format!("p{}.cap@1", i - 1), format!("p{}", i - 1));
        r.put(&id, requiring(&id, &[&cap], &on, &of));
        assert_eq!(r.state(&id), "Waiting");
    }
    let first = r.put("p0", basic("p0", &["p0.cap@1"], "noop"));
    // the whole chain goes down one by one and comes up one by one
    r.load(&first).unwrap();
    for i in 0..8 {
        let id = format!("p{}", i);
        assert_eq!(r.state(&id), "Active");
        if i > 0 {
            let bs = r.k.bindings_of(&id);
            assert_eq!(bs.len(), 1);
            assert_eq!(bs[0].provider_instance, r.instance(&format!("p{}", i - 1)));
        }
    }
    // nothing is left to do
    let before: Vec<u64> = (0..8).map(|i| r.instance(&format!("p{}", i))).collect();
    r.k.journal.take_pending();
    let job = r.k.reconcile();
    assert!(matches!(r.k.advance(job, r.now), Progress::Done(None)));
    let after: Vec<u64> = (0..8).map(|i| r.instance(&format!("p{}", i))).collect();
    assert_eq!(before, after);
    assert!(r.k.journal.take_pending().is_empty());
}

#[test]
fn c05_shared_provider_removal_withdraws_consumers() {
    let mut r = Rig::new();
    let m_ws = r.put("workspace", basic("workspace", &["workspace.fs@1"], "noop"));
    r.put("search", requiring("search", &["search.query@1"], "workspace.fs@1", "workspace"));
    r.put("index", requiring("index", &["index.query@1"], "workspace.fs@1", "workspace"));
    r.put("echo", basic("echo", &["echo.msg@1"], "echo"));
    assert!(r.ok("search.query@1"));
    assert!(r.ok("index.query@1"));

    r.dispose("workspace");
    assert!(r.published("workspace.fs@1").is_none());
    assert!(r.published("search.query@1").is_none(), "search retirada");
    assert!(r.published("index.query@1").is_none(), "index retirada");
    assert_eq!(r.state("search"), "Waiting");
    assert_eq!(r.state("index"), "Waiting");
    let (v, ok) = r.invoke("echo.msg@1", &ping());
    assert!(ok);
    assert_eq!(v.get("echo").unwrap().get("ping").unwrap(), &Json::flag(true));

    r.load(&m_ws).unwrap();
    assert_eq!(r.state("search"), "Active");
    assert_eq!(r.state("index"), "Active");
    assert!(r.ok("search.query@1"));
    assert!(r.ok("index.query@1"));
}

#[test]
fn rejects_cycle_with_path() {
    let mut r = Rig::new();
    r.put("a", requiring("a", &["a.cap@1"], "b.cap@1", "b"));
    r.put("b", requiring("b", &["b.cap@1"], "a.cap@1", "a"));
    assert_eq!(r.state("a"), "Waiting");
    assert_eq!(r.state("b"), "Waiting");
    for id in ["a", "b"] {
        let reason = r.k.waiting_reason_of(id).unwrap_or_default();
        assert!(reason.contains("cycle"), "ciclo explicativo em {}: {}", id, reason);
        assert!(reason.contains("a") && reason.contains("b"), "caminho em {}: {}", id, reason);
    }
    assert!(r.published("a.cap@1").is_none());
    assert!(r.published("b.cap@1").is_none());
    let inv = r.k.inventory(r.now);
    let cyc = inv.get("cycle").unwrap().as_array().unwrap();
    assert!(cyc.len() >= 3, "inventory shows the cycle: {:?}", cyc);
}

#[test]
fn rejects_ambiguity_without_explicit_binding() {
    let mut r = Rig::new();
    r.put("p1", basic("p1", &["x.y@1"], "noop"));
    r.put("p2", basic("p2", &["x.y@1"], "noop"));
    r.put("c", manifest("c", &["c.cap@1"], "noop", ",\"requires\":[\"x.y@1\"]"));
    assert_eq!(r.state("c"), "Waiting");
    let reason = r.k.waiting_reason_of("c").unwrap_or_default();
    assert!(reason.contains("ambiguous-provider"), "reason: {}", reason);
    assert!(reason.contains("p1") && reason.contains("p2"), "lista provedores: {}", reason);
    assert!(r.published("c.cap@1").is_none());
}

#[test]
fn explicit_binding_resolves_ambiguity() {
    let mut r = Rig::new();
    r.put("p1", basic("p1", &["x.y@1"], "noop"));
    r.put("p2", basic("p2", &["x.y@1"], "noop"));
    r.put("c", requiring("c", &["c.cap@1"], "x.y@1", "p2"));
    assert_eq!(r.state("c"), "Active");
    assert_eq!(r.k.bindings_of("c")[0].provider_logical, "p2");
    assert!(r.ok("c.cap@1"));
    r.dispose("p2");
    assert_eq!(r.state("c"), "Waiting");
    assert!(r.published("c.cap@1").is_none());
    let reason = r.k.waiting_reason_of("c").unwrap_or_default();
    assert!(reason.contains("p2"), "reason cites the bound provider: {}", reason);
}

#[test]
fn version_mismatch_stays_waiting() {
    let mut r = Rig::new();
    r.put("workspace", basic("workspace", &["workspace.fs@2"], "noop"));
    r.put("search", manifest("search", &["search.query@1"], "noop", ",\"requires\":[\"workspace.fs@1\"]"));
    assert_eq!(r.state("search"), "Waiting");
    let reason = r.k.waiting_reason_of("search").unwrap_or_default();
    assert!(reason.contains("dependency-unavailable"), "reason: {}", reason);
    assert!(r.published("search.query@1").is_none());
}

#[test]
fn demo_workspace_search_echo_reactive() {
    let mut r = Rig::new();
    let m_ws = r.put("workspace", basic("workspace", &["workspace.fs@1"], "noop"));
    r.put("search", requiring("search", &["search.query@1"], "workspace.fs@1", "workspace"));
    r.put("echo", basic("echo", &["echo.msg@1"], "echo"));
    assert_eq!(r.state("search"), "Active");

    let h_sub = r.acquire("search", ResourceKind::Sub { topic: "workspace.changed".into() }).unwrap();
    let h_timer = r.acquire("search", timer("debounce")).unwrap();
    let h_task = r.acquire("search", task("index")).unwrap();
    let search_before = r.k.instance_ref_of("search").unwrap();
    let ws_before = r.k.instance_ref_of("workspace").unwrap();

    assert!(r.ok("workspace.fs@1"));
    assert!(r.ok("search.query@1"));
    assert!(r.invoke("echo.msg@1", &Json::object().with("ping", Json::num(1))).1);

    assert_eq!(r.dispose("workspace").as_str(), "Disposed");
    assert!(r.published("workspace.fs@1").is_none());
    let (v, ok) = r.invoke("workspace.fs@1", &Json::object());
    assert!(!ok, "cap retirada rejeita: {:?}", v);
    assert!(r.published("search.query@1").is_none(), "search auto-retirada");
    assert_eq!(r.state("search"), "Waiting");
    assert!(!r.k.resources.is_live(h_timer), "timer cancelado");
    assert!(!r.k.resources.is_live(h_task), "task cancelada");
    assert!(r.k.validate_handle(h_sub, "search").is_err());
    assert!(r.k.validate_handle(h_timer, "search").is_err());
    assert!(r.k.validate_handle(h_task, "search").is_err());
    let (v, ok) = r.invoke("search.query@1", &Json::object());
    assert!(!ok, "search fora do ar: {:?}", v);
    assert_eq!(v.get("code").unwrap(), &Json::str("dependency-unavailable"));
    let (v, ok) = r.invoke("echo.msg@1", &ping());
    assert!(ok);
    assert_eq!(v.get("echo").unwrap().get("ping").unwrap(), &Json::flag(true));
    assert_eq!(r.leaked(&["workspace", "search"]), 0, "no live resources from withdrawn generations");

    r.load(&m_ws).unwrap();
    let search_after = r.k.instance_ref_of("search").unwrap();
    let ws_after = r.k.instance_ref_of("workspace").unwrap();
    assert!(search_after.generation > search_before.generation, "consumer new generation");
    assert_ne!(search_after.instance, search_before.instance, "consumer new instance");
    assert!(ws_after.generation > ws_before.generation, "provider new generation");
    assert_eq!(r.state("search"), "Active");
    let bs = r.k.bindings_of("search");
    assert_eq!(bs.len(), 1);
    assert_eq!(bs[0].provider_logical, "workspace");
    assert_eq!(bs[0].provider_instance, ws_after.instance, "binding points at the new instance");
    assert!(r.ok("workspace.fs@1"));
    assert!(r.ok("search.query@1"));
    let (v, ok) = r.invoke("echo.msg@1", &Json::object().with("ping", Json::num(2)));
    assert!(ok, "echo sobrevive ao ciclo: {:?}", v);
}

#[test]
fn provider_reload_rebinds_consumers_to_new_generation() {
    let mut r = Rig::new();
    let m_ws = r.put("workspace", basic("workspace", &["workspace.fs@1"], "noop"));
    r.put("search", requiring("search", &["search.query@1"], "workspace.fs@1", "workspace"));
    let ws1 = r.k.instance_ref_of("workspace").unwrap();
    let s1 = r.k.instance_ref_of("search").unwrap();
    assert_eq!(r.k.bindings_of("search")[0].provider_instance, ws1.instance);

    r.load(&m_ws).unwrap();
    let ws2 = r.k.instance_ref_of("workspace").unwrap();
    let s2 = r.k.instance_ref_of("search").unwrap();
    assert!(ws2.generation > ws1.generation);
    assert!(s2.generation > s1.generation, "consumer rebound on a new generation");
    assert_eq!(r.state("search"), "Active");
    assert_eq!(r.k.bindings_of("search")[0].provider_instance, ws2.instance);
    assert!(r.ok("search.query@1"));
}

#[test]
fn dependents_are_found_through_the_chain() {
    let mut r = Rig::new();
    r.put("a", basic("a", &["a.cap@1"], "noop"));
    r.put("b", requiring("b", &["b.cap@1"], "a.cap@1", "a"));
    r.put("c", requiring("c", &["c.cap@1"], "b.cap@1", "b"));
    r.put("d", basic("d", &["d.cap@1"], "noop"));
    assert_eq!(r.k.transitive_dependents("a"), vec!["b".to_string(), "c".to_string()]);
    assert!(r.k.transitive_dependents("d").is_empty());
}

// ---- reload ----

#[test]
fn reload_removes_deleted_manifest() {
    let mut r = Rig::new();
    r.write("workspace", basic("workspace", &["workspace.fs@1"], "noop"));
    r.write("search", requiring("search", &["search.query@1"], "workspace.fs@1", "workspace"));
    r.write("echo", basic("echo", &["echo.msg@1"], "echo"));
    assert_eq!(r.reload(), 3);
    assert!(r.ok("search.query@1"));

    r.delete("search");
    assert_eq!(r.reload(), 2, "only the present ones reload");
    assert!(r.k.definitions.get("search").is_none(), "definition reconciled");
    assert!(r.published("search.query@1").is_none());
    assert_eq!(code_of(&r.invoke("search.query@1", &Json::object()).0), "no-such-capability");
    assert!(r.ok("workspace.fs@1"));
    assert!(r.ok("echo.msg@1"));
    r.registry_is_current();
}

#[test]
fn reload_removed_provider_cascades_to_waiting() {
    let mut r = Rig::new();
    r.write("workspace", basic("workspace", &["workspace.fs@1"], "noop"));
    r.write("search", requiring("search", &["search.query@1"], "workspace.fs@1", "workspace"));
    r.reload();
    assert_eq!(r.state("search"), "Active");

    r.delete("workspace");
    r.reload();
    assert!(r.k.definitions.get("workspace").is_none());
    assert!(r.k.definitions.get("search").is_some(), "consumidor persiste");
    assert_eq!(r.state("search"), "Waiting");
    assert!(r.published("workspace.fs@1").is_none());

    r.write("workspace", basic("workspace", &["workspace.fs@1"], "noop"));
    r.reload();
    assert_eq!(r.state("search"), "Active");
    assert!(r.ok("search.query@1"));
}

#[test]
fn c07_reload_removes_capability_and_failed_candidate_recovers() {
    let mut r = Rig::new();
    r.write("dual", basic("dual", &["a.cap@1", "b.cap@1"], "noop"));
    r.reload();
    assert!(r.ok("a.cap@1"));
    assert!(r.ok("b.cap@1"));
    let gen1 = r.generation("dual");

    r.write("dual", basic("dual", &["a.cap@1"], "noop"));
    r.reload();
    let gen2 = r.generation("dual");
    assert!(gen2 > gen1);
    assert!(r.ok("a.cap@1"));
    assert_eq!(code_of(&r.invoke("b.cap@1", &Json::object()).0), "no-such-capability");
    r.no_leftovers("dual");
    r.registry_is_current();

    // An invalid candidate leaves the live generation serving.
    r.write("dual", "{invalid json".to_string());
    assert_eq!(r.reload(), 0, "nothing publishable");
    assert_eq!(r.generation("dual"), gen2);
    assert!(r.ok("a.cap@1"));
    r.write("dual", basic("dual", &["a.cap@1"], "noop"));
    r.reload();
    assert!(r.generation("dual") > gen2);
    assert!(r.ok("a.cap@1"));
}

#[test]
fn reload_renamed_id_cleans_old() {
    let mut r = Rig::new();
    r.write("svc", basic("svc", &["svc.cap@1"], "noop"));
    r.reload();
    assert!(r.ok("svc.cap@1"));
    // The same file now declares another id: old leaves, new enters.
    r.write("svc", basic("svc2", &["svc2.cap@1"], "noop"));
    r.reload();
    assert!(r.published("svc.cap@1").is_none(), "registro antigo limpo");
    assert!(r.ok("svc2.cap@1"));
    r.registry_is_current();
}

#[test]
fn reload_journal_audits_removed_and_failed() {
    let mut r = Rig::new();
    r.write("a", basic("a", &["a.cap@1"], "noop"));
    r.reload();
    r.write("broken", "not json".to_string());
    r.delete("a");
    r.write("b", basic("b", &["b.cap@1"], "noop"));
    r.reload();
    r.journaled("sys.reload");
    let last = r.lines.iter().rev().find(|l| l.kind == "sys.reload").expect("sys.reload");
    assert_eq!(last.args.u64_at("reloaded"), Some(1));
    assert_eq!(last.args.u64_at("removed"), Some(1));
    let failed = last.args.get("failed").unwrap().as_array().unwrap();
    assert_eq!(failed.len(), 1);
    assert!(failed[0].as_str().unwrap().starts_with("/home/plugins/broken.json: "));
    assert!(r.ok("b.cap@1"));
    assert!(r.published("a.cap@1").is_none());
}

#[test]
fn unreadable_file_is_named() {
    let (defs, failed) = read_candidates(&vec![Found {
        path: "/p/x.json".to_string(),
        content: Err("denied".to_string()),
    }]);
    assert!(defs.is_empty());
    assert_eq!(failed, vec!["/p/x.json: denied".to_string()]);
}

#[test]
fn a_file_that_fails_to_load_is_named() {
    let mut r = Rig::new();
    let files = vec![
        Found { path: "/home/plugins/a.json".to_string(), content: Ok(basic("a", &["a.cap@1"], "noop")) },
        Found { path: "/home/plugins/b.json".to_string(), content: Ok(basic("b", &["b.cap@1"], "noop")) },
    ];
    r.write("b", basic("b", &["b.cap@1"], "noop"));
    let mut reload = r.k.reload(&files, &vec![]);
    assert!(matches!(r.k.reload_step(&mut reload), ReloadStep::Load(p) if p == "/home/plugins/a.json"));
    reload.told(false);
    assert!(matches!(r.k.reload_step(&mut reload), ReloadStep::Load(p) if p == "/home/plugins/b.json"));
    reload.told(r.load("/home/plugins/b.json").is_ok());
    assert!(matches!(r.k.reload_step(&mut reload), ReloadStep::Over(1)));
    r.journaled("sys.reload");
    let last = r.lines.iter().rev().find(|l| l.kind == "sys.reload").unwrap();
    assert_eq!(
        last.args.text(),
        "{\"failed\":[\"/home/plugins/a.json: activation failed\"],\"reloaded\":1,\"removed\":0}"
    );
}

#[test]
fn a_quiet_kernel_is_bound() {
    let mut r = Rig::new();
    r.put("ws", basic("ws", &["ws.read@1"], "echo"));
    r.put("search", requiring("search", &["search.query@1"], "ws.read@1", "ws"));
    r.put("ws", basic("ws", &["ws.read@1"], "echo"));
    for id in ["ws", "search"] {
        assert_eq!(r.state(id), "Active");
        for b in r.k.bindings_of(id) {
            let p = r.k.instance_ref_of(&b.provider_logical).unwrap();
            assert_eq!((b.provider_instance, b.provider_generation), (p.instance, p.generation));
        }
    }
    assert_eq!(r.k.bindings_of("search").len(), 1);
    // Another reconciliation changes nothing.
    let (ws, search) = (r.instance("ws"), r.instance("search"));
    let job = r.k.reconcile();
    r.run(job);
    assert_eq!((r.instance("ws"), r.instance("search")), (ws, search));
}

#[test]
fn a_failed_batch_leaves_the_rest_active() {
    let mut r = Rig::new();
    r.put("w", basic("w", &["w.x@1"], "echo"));
    let kept = r.acquire("w", timer("kept")).unwrap();
    let before: Vec<ResourceHandle> =
        r.k.resources.inventory().iter().map(|x| x.handle).filter(|h| r.k.resources.is_live(*h)).collect();
    let t = r.open("w.x@1", None, vec![kept]).unwrap();
    let items = vec![(timer("a"), None), (task("b"), Some("no threads".to_string()))];
    assert_eq!(r.k.acquire_batch("w", &items).unwrap_err(), "injected acquire failure: task spawn failed: no threads");
    let after: Vec<ResourceHandle> =
        r.k.resources.inventory().iter().map(|x| x.handle).filter(|h| r.k.resources.is_live(*h)).collect();
    assert_eq!(after, before);
    assert!(after.contains(&kept));
    assert!(r.close(t));
}

#[test]
fn unknown_pins_are_refused() {
    let mut r = Rig::new();
    r.put("w", basic("w", &["w.x@1"], "echo"));
    let next = r.k.resources.inventory().len() as u64 + 1;
    let e = r.open("w.x@1", None, vec![ResourceHandle(next)]).unwrap_err();
    assert_eq!(code_of(&e), "invalid-pin");
    assert!(r.k.pending_calls().is_empty());
}
