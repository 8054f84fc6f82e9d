use matrix_core::calls::{CallsTable, MAX_EFFECTS};
use matrix_core::journal::Line;
use matrix_core::{
    CallPolicy, ContextId, DisposeOutcome, ForwardOutcome, ForwardRequest, InstanceId, Instant, Invocation, Job, Journal,
    Json, Kernel, Progress, ResourceHandle, ResourceKind, TicketId, TicketState, WithdrawPolicy,
    MAX_INFLIGHT_CALLS,
};

/// A kernel with a clock of its own and manifest files in memory.
struct Rig {
    k: Kernel,
    now: Instant,
    files: Vec<(String, String)>,
    lines: Vec<Line>,
}

impl Rig {
    fn new() -> Rig {
        Rig {
            k: Kernel::new(Journal::open(&vec![], false), false, 77),
            now: Instant::from_millis(1_000_000),
            files: vec![],
            lines: vec![],
        }
    }

    /// Advances a job to its end; drains that nothing ends run out.
    fn run(&mut self, job: Job) -> Option<DisposeOutcome> {
        let mut job = job;
        loop {
            match self.k.advance(job, self.now) {
                Progress::Done(out) => return out,
                Progress::Wait { job: left, until, .. } => {
                    self.now = until;
                    job = left;
                }
            }
        }
    }

    fn finish(&mut self, job: Option<Job>) {
        if let Some(j) = job {
            self.run(j);
        }
    }

    fn write(&mut self, id: &str, body: String) -> String {
        let path = format!("/home/plugins/{}.json", id);
        self.files.retain(|f| f.0 != path);
        self.files.push((path.clone(), body));
        self.files.sort();
        path
    }

    fn load(&mut self, path: &str) -> Result<String, String> {
        let body = self.files.iter().find(|f| f.0 == path).unwrap().1.clone();
        let (id, job) = self.k.load_manifest(path, &body)?;
        self.run(job);
        Ok(id)
    }

    /// Writes and loads.
    fn put(&mut self, id: &str, body: String) -> String {
        let path = self.write(id, body);
        self.load(&path).unwrap();
        path
    }

    fn dispose(&mut self, id: &str) -> DisposeOutcome {
        let job = self.k.dispose_plugin(id);
        self.run(job).unwrap()
    }

    fn dispose_instance(&mut self, inst: u64) -> DisposeOutcome {
        let job = self.k.dispose_instance(InstanceId(inst));
        self.run(job).unwrap()
    }

    fn invoke(&mut self, cap: &str, input: &Json) -> (Json, bool) {
        match self.k.invoke(cap, input, self.now) {
            Invocation::Answered(a) => {
                self.finish(a.job);
                (a.value, a.ok)
            }
            Invocation::Forward(_) => panic!("nothing runs outside here"),
        }
    }

    fn ok(&mut self, cap: &str) -> bool {
        self.invoke(cap, &Json::object()).1
    }

    fn open(&mut self, cap: &str, policy: Option<CallPolicy>, pins: Vec<ResourceHandle>) -> Result<TicketId, Json> {
        self.k.call_open(cap, &Json::object(), policy, &pins, self.now).map(|o| o.ticket)
    }

    fn commit(&mut self, t: TicketId, kind: &str, payload: Json) -> Result<u64, Json> {
        self.k.commit_effect(t, kind, &payload, self.now, 0)
    }

    fn close(&mut self, t: TicketId) -> bool {
        let (known, job) = self.k.call_close(t);
        self.finish(job);
        known
    }

    fn reap(&mut self, t: TicketId, reason: &str) -> bool {
        let (done, job) = self.k.call_reap(t, reason);
        self.finish(job);
        done
    }

    fn acquire(&mut self, id: &str, kind: ResourceKind) -> Result<ResourceHandle, String> {
        self.k.acquire(id, kind, None)
    }

    fn state(&self, logical: &str) -> String {
        self.k.context_state_of(logical).unwrap_or_else(|| "<none>".to_string())
    }

    fn generation(&self, logical: &str) -> u64 {
        self.k.instance_ref_of(logical).unwrap().generation
    }

    fn instance(&self, logical: &str) -> u64 {
        self.k.instance_ref_of(logical).unwrap().instance
    }

    fn state_of_instance(&self, inst: u64) -> String {
        self.k.contexts.get_by_instance(InstanceId(inst)).unwrap().state.as_str().to_string()
    }

    fn published(&self, cap: &str) -> Option<String> {
        self.k.caps.resolve(cap)
    }

    /// How many entries of a kind the journal holds.
    fn journaled(&mut self, kind: &str) -> usize {
        let fresh = self.k.journal.take_pending();
        self.lines.extend(fresh);
        self.lines.iter().filter(|l| l.kind == kind).count()
    }
}

fn timer(label: &str) -> ResourceKind {
    ResourceKind::Timer { label: label.into(), interval_ms: 5 }
}

fn task(label: &str) -> ResourceKind {
    ResourceKind::Task { label: label.into() }
}

fn quoted(names: &[&str]) -> String {
    names.iter().map(|n| format!("\"{}\"", n)).collect::<Vec<_>>().join(",")
}

/// A manifest with further members, each starting with a comma.
fn manifest(id: &str, caps: &[&str], reducer: &str, more: &str) -> String {
    format!(
        "{{\"id\":\"{}\",\"version\":\"1.0.0\",\"capabilities\":[{}],\"reducer\":\"{}\",\"init_state\":{{}},\"tier\":\"inproc\",\"trust\":\"trusted\",\"restart\":\"permanent\"{}}}",
        id, quoted(caps), reducer, more
    )
}

fn basic(id: &str, caps: &[&str], reducer: &str) -> String {
    manifest(id, caps, reducer, ",\"subscriptions\":[]")
}

fn requiring(id: &str, caps: &[&str], interface: &str, provider: &str) -> String {
    manifest(
        id,
        caps,
        "noop",
        &format!(",\"requires\":[{{\"interface\":\"{}\",\"provider\":\"{}\"}}]", interface, provider),
    )
}

fn code_of(v: &Json) -> String {
    v.str_at("code").cloned().unwrap_or_default()
}

impl Rig {
    /// A provider, its consumer and a bystander.
    fn three() -> Rig {
        let mut r = Rig::new();
        r.put("workspace", basic("workspace", &["workspace.fs@1"], "noop"));
        r.put("search", requiring("search", &["search.query@1"], "workspace.fs@1", "workspace"));
        r.put("echo", basic("echo", &["echo.msg@1"], "echo"));
        r
    }

    fn rewrite_workspace(&mut self) {
        self.load("/home/plugins/workspace.json").unwrap();
    }

    /// Advances a job up to its first wait.
    fn until_wait(&mut self, job: Job) -> (Job, InstanceId, Instant) {
        match self.k.advance(job, self.now) {
            Progress::Wait { job, instance, until } => (job, instance, until),
            Progress::Done(out) => panic!("ended at once: {:?}", out),
        }
    }

    fn calls_in_state(&self, ticket: TicketId, state: &str) -> usize {
        let inv = self.k.inventory(self.now);
        inv.get("calls")
            .unwrap()
            .as_array()
            .unwrap()
            .iter()
            .filter(|c| c.u64_at("ticket") == Some(ticket.0) && c.str_at("state").unwrap() == state)
            .count()
    }

    fn pending_cause(&self) -> String {
        let inv = self.k.inventory(self.now);
        inv.get("instances")
            .unwrap()
            .as_array()
            .unwrap()
            .iter()
            .find(|e| e.str_at("state").unwrap() == "CleanupPending")
            .unwrap()
            .str_at("cause")
            .unwrap()
            .clone()
    }
}

fn rejected(r: Result<u64, Json>) -> String {
    code_of(&r.unwrap_err())
}

#[test]
fn demo_blocked_call_late_commit_rejected() {
    let mut r = Rig::three();
    assert_eq!(r.state("search"), "Active");
    let h_task = r.acquire("search", task("index")).unwrap();
    let gen1 = r.k.instance_ref_of("search").unwrap();
    let t = r.open("search.query@1", Some(CallPolicy::cancel()), vec![h_task]).expect("admission with search Active");
    assert_eq!(r.calls_in_state(t, "Admitted"), 1, "in-flight ticket visible");

    // Withdraws the provider during the call: no manual touch on search.
    r.dispose("workspace");
    assert!(r.k.calls.get(t).unwrap().cancel, "cancellation signalled");
    assert!(r.published("search.query@1").is_none());
    assert_eq!(r.state("search"), "Waiting");
    assert_eq!(r.state_of_instance(gen1.instance), "CleanupPending", "live work keeps the cleanup pending");
    let denied = r.open("search.query@1", None, vec![]);
    assert_eq!(code_of(&denied.unwrap_err()), "dependency-unavailable");
    assert!(r.k.resources.is_live(h_task), "resources never leave early");
    assert!(r.ok("echo.msg@1"));

    // The late effect is rejected, then the close settles.
    assert_eq!(rejected(r.commit(t, "index.write", Json::object())), "cancelled");
    assert!(r.close(t));
    assert!(r.k.committed_effects(Some("search")).is_empty(), "late effect never applied");
    assert_eq!(r.state("search"), "Waiting");
    assert_eq!(r.state_of_instance(gen1.instance), "Disposed");
    assert!(!r.k.resources.is_live(h_task));
    let left = r
        .k
        .resources
        .inventory()
        .into_iter()
        .filter(|x| x.owner_instance.0 == gen1.instance && r.k.resources.is_live(x.handle))
        .count();
    assert_eq!(left, 0, "no live resources from the withdrawn generation");
    assert_eq!(r.journaled("call.rejected"), 1);

    // Reintroduces: new generation works; old ticket stays invalid.
    r.rewrite_workspace();
    assert_eq!(r.state("search"), "Active");
    let gen2 = r.k.instance_ref_of("search").unwrap();
    assert_ne!(gen2.instance, gen1.instance);
    assert!(gen2.generation > gen1.generation);
    assert_eq!(rejected(r.commit(t, "index.write", Json::object())), "unknown-ticket");
    let t2 = r.open("search.query@1", None, vec![]).expect("new generation admits");
    let seq = r.commit(t2, "index.write", Json::object().with("q", Json::str("y"))).expect("commit on the new generation");
    assert!(r.close(t2));
    let effects = r.k.committed_effects(Some("search"));
    assert_eq!(effects.len(), 1);
    assert_eq!(effects[0].seq, seq);
    assert!(r.ok("echo.msg@1"));
}

#[test]
fn c06_commit_after_withdraw_rejected() {
    let mut r = Rig::three();
    let t = r.open("search.query@1", None, vec![]).unwrap();
    r.dispose("workspace");
    assert_eq!(rejected(r.commit(t, "w", Json::object())), "cancelled");
    assert!(r.k.committed_effects(Some("search")).is_empty());
    assert!(r.close(t));
    // Closed ticket: invalid forever.
    assert_eq!(rejected(r.commit(t, "w", Json::object())), "unknown-ticket");
}

#[test]
fn admission_dispose_race_no_unauthorized_commit() {
    // Four callers take turns with a provider that comes and goes; a caller's
    // three steps are spread over the turns.
    let mut r = Rig::three();
    let mut open: Vec<Option<TicketId>> = vec![None, None, None, None];
    let mut done: Vec<bool> = vec![false, false, false, false];
    let (mut opened, mut committed, mut refused) = (0u32, 0u32, 0u32);
    let mut state = 1u64;
    for turn in 0..960u64 {
        state = state.wrapping_mul(6364136223846793005).wrapping_add(1442695040888963407);
        let who = ((state >> 33) % 4) as usize;
        match (open[who], done[who]) {
            (None, _) => {
                if let Ok(t) = r.open("search.query@1", None, vec![]) {
                    opened += 1;
                    open[who] = Some(t);
                    done[who] = false;
                }
            }
            (Some(t), false) => {
                match r.commit(t, "race.write", Json::object().with("n", Json::num(turn))) {
                    Ok(_) => committed += 1,
                    Err(_) => refused += 1,
                }
                done[who] = true;
            }
            (Some(t), true) => {
                assert!(r.close(t));
                open[who] = None;
            }
        }
        if turn % 160 == 40 {
            r.dispose("workspace");
        }
        if turn % 160 == 48 {
            r.rewrite_workspace();
        }
    }
    for t in open.into_iter().flatten() {
        r.close(t);
    }
    let total = committed + refused;
    assert!(opened >= total, "every commit came from an admitted ticket");
    assert!(committed > 0 && refused > 0);
    assert_eq!(r.k.calls.pending_count(r.k.instance_of("search").unwrap()), 0);
    assert_eq!(r.state("search"), "Active");
    assert!(r.ok("search.query@1"));
    let effects = r.k.committed_effects(Some("search"));
    let mut seqs: Vec<u64> = effects.iter().map(|e| e.seq).collect();
    seqs.sort_unstable();
    seqs.dedup();
    assert_eq!(seqs.len(), effects.len(), "no effect twice");
    assert_eq!(effects.len() as u32, committed);
}

#[test]
fn drain_policy_commits_during_quiescing() {
    let mut r = Rig::three();
    let inst = r.instance("search");
    let t = r.open("search.query@1", Some(CallPolicy::drain(2000)), vec![]).unwrap();
    let t0 = r.now;
    let job = r.k.dispose_plugin("workspace");
    let (job, waits_on, until) = r.until_wait(job);
    assert_eq!(waits_on.0, inst);
    assert_eq!(until, t0.after_ms(2000));
    assert_eq!(r.state_of_instance(inst), "Quiescing");
    assert!(r.open("search.query@1", None, vec![]).is_err(), "no admission while quiescing");

    r.now = t0.after_ms(50);
    assert!(r.commit(t, "index.write", Json::object()).is_ok(), "commit accepted while draining");
    assert!(r.close(t));
    assert!(r.k.calls.is_settled(waits_on));
    r.run(job);
    assert_eq!(r.now, t0.after_ms(50), "within the deadline");
    // Effects finished before final revocation stay recorded.
    assert_eq!(r.k.committed_effects(Some("search")).len(), 1);
    assert_eq!(r.state_of_instance(inst), "Disposed");
}

#[test]
fn c09_drain_expiry_keeps_pending_then_settles() {
    let mut r = Rig::three();
    let gen1 = r.k.instance_ref_of("search").unwrap();
    let t = r.open("search.query@1", Some(CallPolicy::drain(120)), vec![]).unwrap();
    let t0 = r.now;
    r.dispose("workspace");
    // Deadline honored even with a blocked callback.
    assert!(r.now.millis_since(t0) >= 120);
    assert!(r.now.millis_since(t0) < 5000);
    // Visible pending, never fake Disposed.
    assert_eq!(r.state_of_instance(gen1.instance), "CleanupPending");
    assert_eq!(r.calls_in_state(t, "Expired"), 1, "visible pending call");
    assert_eq!(rejected(r.commit(t, "w", Json::object())), "deadline-exceeded");
    assert!(r.close(t));
    assert_eq!(r.state_of_instance(gen1.instance), "Disposed", "settled by the close");
    assert!(r.k.committed_effects(Some("search")).is_empty());
}

#[test]
fn cancel_policy_cooperative_worker_closes() {
    let mut r = Rig::three();
    let t = r.open("search.query@1", Some(CallPolicy::cancel()), vec![]).unwrap();
    assert!(!r.k.calls.get(t).unwrap().cancel);
    r.dispose("workspace");
    assert!(r.k.calls.get(t).unwrap().cancel);
    assert!(r.close(t), "the worker closes on the signal");
    assert!(r.k.committed_effects(Some("search")).is_empty());
    assert_eq!(r.state("search"), "Waiting");
}

#[test]
fn c08_interleaved_effects_survive_provider_removal() {
    let mut r = Rig::new();
    let m_a = r.put("alpha", basic("alpha", &["alpha.cap@1"], "echo"));
    r.put("beta", basic("beta", &["beta.cap@1"], "echo"));

    let oa = r.open("alpha.cap@1", None, vec![]).unwrap();
    let ob = r.open("beta.cap@1", None, vec![]).unwrap();
    r.commit(oa, "write", Json::object().with("by", Json::str("alpha"))).unwrap();
    r.commit(ob, "write", Json::object().with("by", Json::str("beta"))).unwrap();
    r.close(oa);
    r.close(ob);

    r.dispose("alpha");
    let be = r.k.committed_effects(Some("beta"));
    assert_eq!(be.len(), 1);
    assert_eq!(be[0].payload.get("by").unwrap(), &Json::str("beta"));
    assert!(r.ok("beta.cap@1"));
    assert!(r.k.committed_effects(Some("alpha")).len() == 1, "A ledger never wiped");
    assert_eq!(rejected(r.commit(oa, "write", Json::object())), "unknown-ticket");
    r.load(&m_a).unwrap();
    assert!(r.ok("alpha.cap@1"));
}

#[test]
fn ticket_state_machine_no_double_commit() {
    let mut r = Rig::three();
    let t = r.open("search.query@1", None, vec![]).unwrap();
    assert!(r.commit(t, "w", Json::object()).is_ok());
    assert_eq!(rejected(r.commit(t, "w", Json::object())), "already-committed");
    assert!(r.close(t));
    assert!(!r.close(t), "idempotent close reports absence");
    assert_eq!(rejected(r.commit(t, "w", Json::object())), "unknown-ticket");

    let t2 = r.open("search.query@1", None, vec![]).unwrap();
    assert!(r.k.call_cancel(t2, "teste"));
    assert!(!r.k.call_cancel(t2, "teste"), "cancel duplo informa");
    assert_eq!(rejected(r.commit(t2, "w", Json::object())), "cancelled");
    assert!(r.close(t2));
    assert_eq!(rejected(r.commit(TicketId(999999), "w", Json::object())), "unknown-ticket");
}

#[test]
fn pinned_resource_rejects_early_release() {
    let mut r = Rig::new();
    r.put("workspace", basic("workspace", &["workspace.fs@1"], "noop"));
    r.put("search", requiring("search", &["search.query@1"], "workspace.fs@1", "workspace"));
    let h = r.acquire("search", timer("p")).unwrap();

    let t = r.open("search.query@1", None, vec![h]).unwrap();
    assert_eq!(r.k.release(h).unwrap_err(), "resource-pinned");
    assert!(r.close(t));
    assert!(r.k.release(h).is_ok(), "releases after close");

    // Invalid pin: foreign handle.
    r.acquire("search", timer("q")).unwrap();
    let o2 = r.open("search.query@1", None, vec![ResourceHandle(424242)]).unwrap_err();
    assert_eq!(code_of(&o2), "invalid-pin");
    // Another instance's pin on a search call.
    r.put("echo", basic("echo", &["echo.msg@1"], "echo"));
    let he = r.acquire("echo", timer("e")).unwrap();
    let o3 = r.open("search.query@1", None, vec![he]).unwrap_err();
    assert_eq!(code_of(&o3), "invalid-pin");
}

#[test]
fn inflight_calls_bounded() {
    let mut r = Rig::new();
    r.put("echo", basic("echo", &["echo.msg@1"], "echo"));
    let mut ids = vec![];
    for _ in 0..MAX_INFLIGHT_CALLS {
        ids.push(r.open("echo.msg@1", None, vec![]).unwrap());
    }
    let err = r.open("echo.msg@1", None, vec![]).unwrap_err();
    assert_eq!(code_of(&err), "resource-exhausted");
    for id in &ids {
        assert!(r.close(*id));
    }
    // After closing, admits again.
    let t = r.open("echo.msg@1", None, vec![]).unwrap();
    assert!(r.close(t));
}

#[test]
fn disposed_instance_never_reactivated() {
    let mut r = Rig::three();
    let gen1 = r.instance("search");
    // Cascading withdraw: gen1 Disposed, definition persists, gen2 Waiting.
    r.dispose("workspace");
    assert_eq!(r.state_of_instance(gen1), "Disposed");
    let waiting = r.instance("search");
    assert_ne!(waiting, gen1);

    r.rewrite_workspace();
    let gen2 = r.instance("search");
    assert_eq!(gen2, waiting);
    assert_eq!(r.state_of_instance(gen1), "Disposed");

    r.dispose("workspace");
    assert_eq!(r.state_of_instance(gen2), "Disposed");
    assert_eq!(r.state_of_instance(gen1), "Disposed");
    r.rewrite_workspace();
    let gen3 = r.instance("search");
    assert_ne!(gen3, gen1);
    assert_ne!(gen3, gen2);
    assert_eq!(r.state("search"), "Active");
}

#[test]
fn manifest_call_policy_applies() {
    let mut r = Rig::new();
    r.put("workspace", basic("workspace", &["workspace.fs@1"], "noop"));
    r.put(
        "search",
        manifest(
            "search",
            &["search.query@1"],
            "noop",
            ",\"requires\":[{\"interface\":\"workspace.fs@1\",\"provider\":\"workspace\"}],\"calls\":{\"search.query@1\":{\"on_withdraw\":\"drain\",\"drain_ms\":500}}",
        ),
    );
    let pol = r.k.policy_for("search", "search.query@1");
    assert_eq!(pol.on_withdraw, WithdrawPolicy::Drain);
    assert_eq!(pol.drain_ms, 500);
    // The override at opening wins over the manifest.
    let o = r
        .k
        .call_open("search.query@1", &Json::object(), Some(CallPolicy::cancel()), &vec![], r.now)
        .unwrap();
    assert_eq!(o.policy.on_withdraw, WithdrawPolicy::Cancel);
    assert!(r.close(o.ticket));
    // Invalid calls manifests are rejected at load.
    let bad = r.write(
        "bad",
        manifest("bad", &["bad.cap@1"], "noop", ",\"calls\":{\"bad.cap@1\":{\"on_withdraw\":\"explode\"}}"),
    );
    assert!(r.load(&bad).is_err());
    assert!(r.k.context_state_of("bad").is_none());
}

// ---- disposal ----

fn echo_rig() -> Rig {
    let mut r = Rig::new();
    r.put("echo", basic("echo", &["echo.msg@1"], "echo"));
    r
}

#[test]
fn t1_concurrent_dispose_single_transition() {
    let mut r = echo_rig();
    let inst = r.instance("echo");
    // Eight disposals of one instance, all made before any of them runs.
    let jobs: Vec<Job> = (0..8).map(|_| r.k.dispose_instance(InstanceId(inst))).collect();
    let mut outs = vec![];
    for j in jobs {
        outs.push(r.run(j).unwrap().as_str().to_string());
    }
    assert_eq!(outs.iter().filter(|o| *o == "Disposed").count(), 1, "{:?}", outs);
    assert!(outs.iter().all(|o| o == "Disposed" || o == "AlreadyDisposed" || o == "CleanupPending"));
    assert_eq!(r.journaled("plugin.unloaded"), 1);
    for x in r.k.resources.inventory() {
        assert!(x.owner_instance.0 != inst || !r.k.resources.is_live(x.handle));
    }
}

fn external_rig() -> Rig {
    let mut r = Rig::new();
    r.put(
        "ext",
        "{\"id\":\"ext\",\"version\":\"1.0.0\",\"capabilities\":[\"ext.call@1\"],\"subscriptions\":[],\"reducer\":\"external\",\"init_state\":{},\"tier\":\"process\",\"trust\":\"trusted\",\"restart\":\"permanent\",\"execution\":{\"kind\":\"process\",\"entrypoint\":\"/bin/true\",\"args\":[],\"timeout_ms\":5000}}".to_string(),
    );
    r.k.forwarder = true;
    r
}

fn forward_of(r: &mut Rig) -> ForwardRequest {
    match r.k.invoke("ext.call@1", &Json::object(), r.now) {
        Invocation::Forward(req) => req,
        Invocation::Answered(a) => panic!("answered here: {:?}", a.value),
    }
}

fn answer(r: &mut Rig, req: &ForwardRequest, out: ForwardOutcome) -> (Json, bool) {
    match r.k.forwarded(req, out) {
        Invocation::Answered(a) => {
            r.finish(a.job);
            (a.value, a.ok)
        }
        Invocation::Forward(_) => panic!("forwarded twice"),
    }
}

#[test]
fn t2_ephemeral_invoke_settles_after_withdraw() {
    let mut r = external_rig();
    let req = forward_of(&mut r);
    let cur = r.k.instance_ref_of("ext").unwrap();
    assert_eq!(r.dispose_instance(cur.instance).as_str(), "CleanupPending");
    // Late answers never become false successes...
    let (v, ok) = answer(&mut r, &req, ForwardOutcome::Replied(Json::object().with("late", Json::flag(true))));
    assert!(!ok);
    assert_eq!(code_of(&v), "cancelled");
    // ...and the end of the ticket settles the withdrawal.
    assert!(r.generation("ext") > cur.generation);
    assert_eq!(r.journaled("call.rejected"), 1);
}

#[test]
fn forwarded_reply_is_the_answer() {
    let mut r = external_rig();
    let req = forward_of(&mut r);
    assert_eq!(req.cap, "ext.call@1");
    assert_eq!(req.timeout_ms, 5000);
    let (v, ok) = answer(&mut r, &req, ForwardOutcome::Replied(Json::num(9)));
    assert!(ok);
    assert_eq!(v, Json::num(9));
    assert!(r.k.pending_calls().is_empty());
}

#[test]
fn forwarded_refusal_keeps_its_code() {
    let mut r = external_rig();
    let req = forward_of(&mut r);
    let out = ForwardOutcome::Refused { code: "nope".to_string(), message: "not now".to_string() };
    let (v, ok) = answer(&mut r, &req, out);
    assert!(!ok);
    assert_eq!(code_of(&v), "nope");
    assert!(r.k.pending_calls().is_empty());
}

#[test]
fn nothing_is_forwarded_without_a_forwarder() {
    let mut r = external_rig();
    r.k.forwarder = false;
    let (v, ok) = r.invoke("ext.call@1", &Json::object());
    assert!(!ok);
    assert_eq!(code_of(&v), "internal");
    assert!(r.k.pending_calls().is_empty());
}

#[test]
fn t3_cleanup_cause_cites_only_live_tickets() {
    let mut r = echo_rig();
    let inst = r.instance("echo");
    let t1 = r.open("echo.msg@1", Some(CallPolicy::cancel()), vec![]).unwrap();
    let t2 = r.open("echo.msg@1", Some(CallPolicy::cancel()), vec![]).unwrap();
    assert_eq!(r.dispose_instance(inst).as_str(), "CleanupPending");
    assert!(r.close(t1));
    assert_eq!(r.k.context_state_of("echo"), Some("CleanupPending".to_string()));
    let cause = r.pending_cause();
    assert!(cause.contains(&t2.0.to_string()), "{}", cause);
    assert!(!cause.contains(&t1.0.to_string()), "{}", cause);
    assert!(r.close(t2));
    assert!(r.generation("echo") > 1);
}

#[test]
fn t4_dead_worker_opener_still_closes() {
    let mut r = echo_rig();
    let inst = r.instance("echo");
    let t = r.open("echo.msg@1", Some(CallPolicy::cancel()), vec![]).unwrap();
    assert_eq!(r.dispose_instance(inst).as_str(), "CleanupPending");
    assert!(r.k.calls.get(t).unwrap().cancel, "cancel signalled");
    assert!(r.close(t));
    assert!(r.generation("echo") > 1);
}

#[test]
fn t6_owner_reaps_revoked_ticket_of_dead_owner() {
    let mut r = echo_rig();
    let inst = r.instance("echo");
    // `Admitted` still holds authority: reap refused (cancel first).
    let live = r.open("echo.msg@1", Some(CallPolicy::cancel()), vec![]).unwrap();
    assert!(!r.reap(live, "x"));
    assert!(!r.reap(TicketId(999_999), "x"));
    // Owner abandons the ticket; dispose parks.
    let left = r.open("echo.msg@1", Some(CallPolicy::drain(0)), vec![]).unwrap();
    assert_eq!(r.dispose_instance(inst).as_str(), "CleanupPending");
    let state = r.k.calls.get(left).unwrap().state;
    assert!(state == TicketState::Expired || state == TicketState::Cancelled);
    assert!(r.reap(left, "owner-cleanup"));
    assert_eq!(r.journaled("call.reaped"), 1);
    assert!(!r.reap(left, "again"));
    // Only the live one remains: the cause cites just it; closing settles.
    assert!(r.pending_cause().contains(&live.0.to_string()));
    assert!(r.close(live));
    assert!(r.generation("echo") > 1);
}

#[test]
fn t5_acquire_withdraw_never_publishes_dead_instance() {
    for i in 0..60u64 {
        let mut r = echo_rig();
        let mut state = i;
        for _ in 0..60 {
            state = state.wrapping_mul(6364136223846793005).wrapping_add(1442695040888963407);
            if (state >> 40) % 2 == 0 {
                let _ = r.acquire("echo", ResourceKind::Cap { name: "echo.msg@1".into() });
            } else if (state >> 41) % 2 == 0 {
                let inst = r.instance("echo");
                r.dispose_instance(inst);
            } else {
                r.load("/home/plugins/echo.json").unwrap();
            }
        }
        if let Some(id) = r.k.caps.resolve_instance("echo.msg@1") {
            assert_eq!(r.state_of_instance(id.0), "Active");
        }
        for x in r.k.resources.inventory() {
            if r.k.resources.is_live(x.handle) {
                assert_ne!(r.state_of_instance(x.owner_instance.0), "Disposed");
            }
        }
    }
}

#[test]
fn a_waiting_disposal_holds_off_another() {
    let mut r = Rig::three();
    let inst = r.instance("search");
    let t = r.open("search.query@1", Some(CallPolicy::drain(300)), vec![]).unwrap();
    let job = r.k.dispose_instance(InstanceId(inst));
    let (job, _, _) = r.until_wait(job);
    assert_eq!(r.dispose_instance(inst).as_str(), "CleanupPending");
    assert!(r.close(t));
    assert_eq!(r.run(job).unwrap().as_str(), "Disposed");
    assert_eq!(r.dispose_instance(inst).as_str(), "AlreadyDisposed");
}

#[test]
fn the_withdrawn_publish_nothing() {
    let mut r = Rig::new();
    let body = "{\"id\":\"s\",\"capabilities\":[\"s.x@1\"],\"subscriptions\":[\"sys.tick\"],\"reducer\":\"echo\"}";
    r.put("s", body.to_string());
    let inst = InstanceId(r.instance("s"));
    assert_eq!(r.k.bus.subscriber_instances("sys.tick"), vec![inst]);
    assert!(r.k.caps.resolve_ref("s.x@1").is_some());
    let t = r.open("s.x@1", Some(CallPolicy::drain(1_000)), vec![]).unwrap();
    let job = r.k.dispose_instance(inst);
    // The disposal waits for the call to drain; it publishes nothing already.
    assert!(matches!(r.k.advance(job, r.now), Progress::Wait { .. }));
    assert!(r.k.bus.subscriber_instances("sys.tick").is_empty());
    assert!(r.k.caps.resolve_ref("s.x@1").is_none());
    assert!(r.close(t));
}

#[test]
fn answered_invocations_leave_no_ticket() {
    let mut r = external_rig();
    let held = r.k.instance_ref_of("ext").unwrap();
    let req = match r.k.invoke_for_ref(&held, "ext.call@1", &Json::object(), r.now) {
        Invocation::Forward(req) => req,
        Invocation::Answered(a) => panic!("answered here: {:?}", a.value),
    };
    assert_eq!(r.k.pending_calls().len(), 1);
    let (v, ok) = answer(&mut r, &req, ForwardOutcome::Replied(Json::num(1)));
    assert_eq!((v, ok), (Json::num(1), true));
    assert!(r.k.pending_calls().is_empty());
    // A second reply finds no ticket and changes nothing.
    let (v, ok) = answer(&mut r, &req, ForwardOutcome::Replied(Json::num(2)));
    assert_eq!((code_of(&v), ok), ("cancelled".to_string(), false));
    assert!(r.k.pending_calls().is_empty());
}

#[test]
fn the_ledger_keeps_the_newest() {
    let mut t = CallsTable::new();
    for i in 0..(MAX_EFFECTS as u64 + 10) {
        let e = t.push_effect(TicketId(i), "a", InstanceId(1), 1, "k", Json::num(i), 0);
        assert_eq!(e.seq, i + 1);
    }
    let es = t.effects_for(None);
    assert_eq!(es.len(), MAX_EFFECTS);
    assert_eq!((es[0].seq, es[MAX_EFFECTS - 1].seq), (11, MAX_EFFECTS as u64 + 10));
    for i in 1..es.len() {
        assert_eq!(es[i].seq, es[i - 1].seq + 1);
    }
}

#[test]
fn commits_of_a_foreign_epoch_are_journaled() {
    let mut r = echo_rig();
    let own = r.k.instance_ref_of("echo").unwrap();
    let foreign = |r: &mut Rig, epoch: u64, instance: u64, generation: u64| {
        r.k.calls.issue(
            "echo.msg@1",
            "echo",
            InstanceId(instance),
            generation,
            ContextId(instance),
            epoch,
            CallPolicy::cancel(),
            vec![],
            r.now,
        )
    };
    let tickets = [
        foreign(&mut r, own.epoch + 1, own.instance, own.generation),
        foreign(&mut r, own.epoch, own.instance + 50, own.generation),
        foreign(&mut r, own.epoch, own.instance, own.generation + 1),
    ];
    for (i, t) in tickets.into_iter().enumerate() {
        assert_eq!(rejected(r.commit(t, "w", Json::object())), "stale-generation");
        assert_eq!(r.journaled("call.rejected"), i + 1);
    }
    assert!(r.k.committed_effects(None).is_empty());
}
