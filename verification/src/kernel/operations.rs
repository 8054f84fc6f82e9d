//! Loading, removing and reloading definitions, remote registrations, and the
//! ends of tickets. What an operation leaves to be done is a [`Job`].

use vstd::prelude::*;
use vstd::string::*;
use vstd::utf8::*;
use crate::calls::{TicketId, TicketState};
use crate::external::{LifecycleEvent, LifecycleV};
use crate::fsm::Fsm;
use crate::graph;
use crate::identity::InstanceId;
use crate::json;
use crate::json::{Json, JsonV};
use crate::kernel::jobs;
use crate::kernel::jobs::{Conclusion, ConclusionV, Job, JobV, Stage, StageV};
use crate::kernel::lifecycle;
use crate::kernel::resolve;
use crate::kernel::{DisposeOutcome, DisposeOutcomeV, Kernel, KernelV, RemoteProvider, RemoteV};
use crate::manifest;
use crate::manifest::{ManifestV, StoredManifest};
use crate::text;
use crate::text::Text;

verus! {

/// The longest name of a peer, in bytes.
pub const MAX_PEER_LEN: usize = 128;

/// A definition read from the value of a manifest file.
pub open spec fn definition_at(path: Text, v: JsonV) -> Result<ManifestV, Text> {
    match manifest::declared(v) {
        Ok(d) => Ok(ManifestV { source: Some(path), ..d }),
        Err(e) => Err(e),
    }
}

/// A definition read from the text of a manifest file.
pub open spec fn definition_in(path: Text, content: Text) -> Result<ManifestV, Text> {
    match json::json_parsed(content) {
        Ok(v) => definition_at(path, v),
        Err(e) => Err(e),
    }
}

/// The outcome of reading a definition, as the contracts see it.
pub open spec fn reading(r: Result<StoredManifest, String>) -> Result<ManifestV, Text> {
    match r {
        Ok(d) => Ok(d@),
        Err(e) => Err(e@),
    }
}

/// Reads a definition from the value of the manifest file at `path`.
pub fn manifest_at(path: &str, v: &Json) -> (r: Result<StoredManifest, String>)
    ensures
        reading(r) == definition_at(path@, v@),
{
    match manifest::parse_manifest_value(v) {
        Ok(d) => {
            let mut d = d;
            d.source = Some(path.to_owned());
            Ok(d)
        },
        Err(e) => Err(e),
    }
}

/// Reads a definition from the text of the manifest file at `path`.
pub fn read_manifest(path: &str, content: &str) -> (r: Result<StoredManifest, String>)
    ensures
        reading(r) == definition_in(path@, content@),
{
    match json::parse_json(content) {
        Ok(v) => manifest_at(path, &v),
        Err(e) => Err(e),
    }
}

/// A manifest file that was found: its path, and its text or why it could
/// not be read.
pub struct Found {
    pub path: String,
    pub content: Result<String, String>,
}

pub struct FoundV {
    pub path: Text,
    pub content: Result<Text, Text>,
}

impl View for Found {
    type V = FoundV;

    open spec fn view(&self) -> FoundV {
        FoundV {
            path: self.path@,
            content: match self.content {
                Ok(s) => Ok(s@),
                Err(e) => Err(e@),
            },
        }
    }
}

impl DeepView for Found {
    type V = FoundV;

    open spec fn deep_view(&self) -> FoundV {
        self@
    }
}

/// What a found file declares.
pub open spec fn candidate(f: FoundV) -> Result<ManifestV, Text> {
    match f.content {
        Ok(s) => definition_in(f.path, s),
        Err(e) => Err(e),
    }
}

/// The valid candidates among found files, and what is wrong with the others.
pub open spec fn candidates(fs: Seq<FoundV>) -> (Seq<ManifestV>, Seq<Text>)
    decreases fs.len(),
{
    if fs.len() == 0 {
        (Seq::empty(), Seq::empty())
    } else {
        let (ds, es) = candidates(fs.drop_last());
        match candidate(fs.last()) {
            Ok(d) => (ds.push(d), es),
            Err(e) => (ds, es.push(fs.last().path + ": "@ + e)),
        }
    }
}

/// Validates found files without publishing anything: the valid candidates,
/// and what is wrong with the others.
pub fn read_candidates(files: &Vec<Found>) -> (r: (Vec<StoredManifest>, Vec<String>))
    ensures
        (r.0.deep_view(), r.1.deep_view()) == candidates(files.deep_view()),
{
    let ghost fs = files.deep_view();
    let mut defs: Vec<StoredManifest> = Vec::new();
    let mut failed: Vec<String> = Vec::new();
    let mut i: usize = 0;
    proof {
        assert(fs.take(0) =~= Seq::<FoundV>::empty());
        assert(defs.deep_view() =~= Seq::<ManifestV>::empty());
        assert(failed.deep_view() =~= Seq::<Text>::empty());
    }
    while i < files.len()
        invariant
            i <= files.len(),
            fs == files.deep_view(),
            (defs.deep_view(), failed.deep_view()) == candidates(fs.take(i as int)),
        decreases files.len() - i,
    {
        proof {
            assert(fs.take(i + 1).drop_last() =~= fs.take(i as int));
            assert(fs.take(i + 1).last() == files[i as int]@);
        }
        let f = &files[i];
        let read = match &f.content {
            Ok(s) => read_manifest(&f.path, s),
            Err(e) => Err(e.clone()),
        };
        match read {
            Ok(d) => {
                let ghost before = defs.deep_view();
                let ghost v = d@;
                defs.push(d);
                assert(defs.deep_view() =~= before.push(v));
            },
            Err(e) => {
                let mut m = text::join2(&f.path, ": ");
                m.append(&e);
                let ghost before = failed.deep_view();
                let ghost v = m@;
                failed.push(m);
                assert(failed.deep_view() =~= before.push(v));
            },
        }
        i += 1;
    }
    proof {
        assert(fs.take(fs.len() as int) =~= fs);
    }
    (defs, failed)
}

/// The id that the last candidate from `path` declares.
pub open spec fn declared_by(ds: Seq<ManifestV>, path: Text) -> Option<Text>
    decreases ds.len(),
{
    if ds.len() == 0 {
        None
    } else if ds.last().source == Some(path) {
        Some(ds.last().id)
    } else {
        declared_by(ds.drop_last(), path)
    }
}

fn id_from(ds: &Vec<StoredManifest>, path: &str) -> (r: Option<String>)
    ensures
        r.deep_view() == declared_by(ds.deep_view(), path@),
{
    let ghost s = ds.deep_view();
    let mut j: usize = ds.len();
    proof {
        assert(s.take(s.len() as int) =~= s);
    }
    while j > 0
        invariant
            j <= ds.len(),
            s == ds.deep_view(),
            declared_by(s.take(j as int), path@) == declared_by(s, path@),
        decreases j,
    {
        proof {
            assert(s.take(j as int).drop_last() =~= s.take(j - 1));
            assert(s.take(j as int).last() == ds[j - 1]@);
        }
        j -= 1;
        let here = match &ds[j].source {
            Some(p) => text::same(p, path),
            None => false,
        };
        if here {
            return Some(ds[j].id.clone());
        }
    }
    None
}

impl KernelV {
    /// Whether a definition from a file under the watched directory is out
    /// of date: its file is gone, or declares another id now.
    pub open spec fn is_stale(
        self,
        id: Text,
        under: Seq<Text>,
        present: Seq<Text>,
        ds: Seq<ManifestV>,
    ) -> bool {
        match self.definitions[id].source {
            Some(src) => under.contains(src) && (!present.contains(src) || (declared_by(
                ds,
                src,
            ) matches Some(other) && other != id)),
            None => false,
        }
    }

    /// The definitions among `ids` that are out of date.
    pub open spec fn stale_among(
        self,
        ids: Seq<Text>,
        under: Seq<Text>,
        present: Seq<Text>,
        ds: Seq<ManifestV>,
    ) -> Seq<Text>
        decreases ids.len(),
    {
        if ids.len() == 0 {
            Seq::empty()
        } else {
            let rest = self.stale_among(ids.drop_last(), under, present, ds);
            if self.is_stale(ids.last(), under, present, ds) {
                rest.push(ids.last())
            } else {
                rest
            }
        }
    }

    /// The job that reconciles, and then concludes.
    pub open spec fn reconciling(self, conclusion: ConclusionV) -> JobV {
        JobV {
            stage: StageV::Reconcile(jobs::rounds(self.definitions.dom().len())),
            reconciles: true,
            conclusion,
            outcome: None,
        }
    }

    /// What the removal of a ticket leaves to do: where it disposed a parked
    /// owner, a reconciliation; else the conclusion at once.
    pub open spec fn after_settling(self, settled: bool, c: ConclusionV) -> (
        KernelV,
        Option<JobV>,
    ) {
        if settled {
            (self, Some(self.reconciling(c)))
        } else {
            (self.conclude(c), None)
        }
    }

    /// The end of a ticket that its opener closes.
    pub open spec fn call_close(self, id: TicketId) -> (KernelV, Option<JobV>) {
        let (k, settled) = self.close(id);
        k.after_settling(settled, ConclusionV::Nothing)
    }

    /// The end of a ticket whose authority ended before.
    pub open spec fn call_reap(self, id: TicketId, reason: Text) -> (KernelV, bool, Option<JobV>) {
        match self.calls.get(id) {
            Some(t) if t.state != TicketState::Admitted => {
                let (k, settled) = self.settle(id);
                let (k2, job) = k.after_settling(
                    settled,
                    ConclusionV::Note {
                        fiber: t.logical,
                        kind: "call.reaped"@,
                        args: JsonV::object().with("ticket"@, json::jnum(id.0)).with(
                            "state"@,
                            json::jstr(t.state.name()),
                        ).with("reason"@, json::jstr(reason)),
                    },
                );
                (k2, true, job)
            },
            _ => (self, false, None),
        }
    }

    /// A definition in force: the previous generation is withdrawn before it
    /// is replaced, and a counter or clock keeps its state.
    pub open spec fn load(self, def: ManifestV) -> (KernelV, JobV) {
        let kept = match self.plugin(def.id) {
            Some(p) if p.reducer == def.reducer && lifecycle::keepsake(
                def.reducer,
                p.json_state,
            ) => Some(p.json_state),
            _ => None,
        };
        let k = KernelV { definitions: self.definitions.insert(def.id, def), ..self };
        (
            k,
            JobV {
                stage: match k.contexts.current_of(def.id) {
                    Some(cur) => match cur.state.canon() {
                        Fsm::Disposed | Fsm::Failed | Fsm::CleanupPending => StageV::Settle,
                        _ => StageV::Dispose(cur.instance),
                    },
                    None => StageV::Settle,
                },
                reconciles: true,
                conclusion: ConclusionV::Loaded { id: def.id, kept },
                outcome: None,
            },
        )
    }

    /// A definition removed, with its registration; its instance is to be
    /// discarded and its consumers withdrawn.
    pub open spec fn dispose_plugin(self, id: Text) -> (KernelV, JobV) {
        let k = if self.remotes.dom().contains(id) {
            self.drop_remote(id, Some("definition-disposed"@))
        } else {
            self
        };
        let k2 = KernelV { definitions: k.definitions.remove(id), ..k }.event(
            LifecycleV::Removed { logical: id },
        );
        (
            k2,
            match k2.contexts.current_of(id) {
                Some(cur) => JobV {
                    stage: StageV::Dispose(cur.instance),
                    reconciles: true,
                    conclusion: ConclusionV::Nothing,
                    outcome: None,
                },
                None => JobV {
                    stage: StageV::Settle,
                    reconciles: true,
                    conclusion: ConclusionV::Nothing,
                    outcome: Some(DisposeOutcomeV::AlreadyDisposed),
                },
            },
        )
    }

    /// A remote activation attested; only for a definition for another host.
    pub open spec fn register_remote(
        self,
        logical: Text,
        instance: u64,
        generation: u64,
        peer: Text,
    ) -> (KernelV, Result<JobV, Text>) {
        if self.is_orphan(logical) {
            (self, Err("not a remote definition"@))
        } else if peer.len() == 0 || encode_utf8(peer).len() > MAX_PEER_LEN {
            (self, Err("invalid peer"@))
        } else {
            let k = KernelV {
                remotes: self.remotes.insert(
                    logical,
                    RemoteV { logical, instance, generation, peer },
                ),
                ..self
            }.log(
                logical,
                "remote.registered"@,
                JsonV::object().with("instance"@, json::jnum(instance)).with(
                    "generation"@,
                    json::jnum(generation),
                ).with("peer"@, json::jstr(peer)),
            );
            (k, Ok(k.reconciling(ConclusionV::Nothing)))
        }
    }

    /// A remote registration removed.
    pub open spec fn unregister_remote(self, logical: Text) -> (KernelV, Option<JobV>) {
        if self.remotes.dom().contains(logical) {
            let k = self.drop_remote(logical, None);
            (k, Some(k.reconciling(ConclusionV::Nothing)))
        } else {
            (self, None)
        }
    }

    /// A definition for another host in force; an attested activation of an
    /// earlier one has to be attested again.
    pub open spec fn install_remote(self, def: ManifestV) -> (KernelV, JobV) {
        let k = KernelV { definitions: self.definitions.insert(def.id, def), ..self };
        let k2 = if k.remotes.dom().contains(def.id) {
            k.drop_remote(def.id, Some("definition-reprovisioned"@))
        } else {
            k
        };
        (k2, k2.reconciling(ConclusionV::Nothing))
    }

    /// The registrations among `ks` that a peer routes.
    pub open spec fn routed_by(self, peer: Text, ks: Seq<Text>) -> Seq<Text>
        decreases ks.len(),
    {
        if ks.len() == 0 {
            Seq::empty()
        } else {
            let rest = self.routed_by(peer, ks.drop_last());
            if self.remotes[ks.last()].peer == peer {
                rest.push(self.remotes[ks.last()].logical)
            } else {
                rest
            }
        }
    }

    /// The defined ones among `ls`.
    pub open spec fn defined(self, ls: Seq<Text>) -> Seq<Text>
        decreases ls.len(),
    {
        if ls.len() == 0 {
            Seq::empty()
        } else {
            let rest = self.defined(ls.drop_last());
            if self.definitions.dom().contains(ls.last()) {
                rest.push(ls.last())
            } else {
                rest
            }
        }
    }
}

/// The outcome of a registration, as the contracts see it.
pub open spec fn job_outcome(r: Result<Job, String>) -> Result<JobV, Text> {
    match r {
        Ok(j) => Ok(j@),
        Err(e) => Err(e@),
    }
}

impl Kernel {
    fn reconciling(&self, conclusion: Conclusion) -> (r: Job)
        ensures
            r@ == self@.reconciling(conclusion@),
    {
        Job {
            stage: Stage::Reconcile(jobs::round_limit(self.definitions.len())),
            reconciles: true,
            conclusion,
            outcome: None,
        }
    }

    /// Reconciles the definitions: withdraws consumers before providers and
    /// activates providers before consumers, until stable.
    pub fn reconcile(&self) -> (r: Job)
        ensures
            r@ == self@.reconciling(ConclusionV::Nothing),
    {
        self.reconciling(Conclusion::Nothing)
    }

    pub(crate) fn after_settling(&mut self, settled: bool, c: Conclusion) -> (r: Option<Job>)
        ensures
            (final(self)@, r.deep_view()) == old(self)@.after_settling(settled, c@),
    {
        if settled {
            Some(self.reconciling(c))
        } else {
            self.conclude(c);
            None
        }
    }

    /// Closes a ticket, once; tells whether it was there. Its children lose
    /// their authority, a child returns its reservation, and a parked owner
    /// without other live work is disposed.
    pub fn call_close(&mut self, ticket: TicketId) -> (r: (bool, Option<Job>))
        ensures
            (final(self)@, r.1.deep_view()) == old(self)@.call_close(ticket),
            r.0 == (old(self)@.calls.get(ticket) is Some),
    {
        let known = self.calls.get(ticket).is_some();
        let settled = self.close_ticket(ticket);
        (known, self.after_settling(settled, Conclusion::Nothing))
    }

    /// Ends a ticket whose authority was revoked before, for an owner whose
    /// opener died; refuses one that still holds authority.
    pub fn call_reap(&mut self, ticket: TicketId, reason: &str) -> (r: (bool, Option<Job>))
        ensures
            (final(self)@, r.0, r.1.deep_view()) == old(self)@.call_reap(ticket, reason@),
    {
        let t = match self.calls.get(ticket) {
            Some(t) => t,
            None => return (false, None),
        };
        if t.state == TicketState::Admitted {
            return (false, None);
        }
        let settled = self.settle_ticket(ticket);
        let args = Json::object().with("ticket", Json::num(ticket.0)).with(
            "state",
            Json::str(t.state.as_str()),
        ).with("reason", Json::str(reason));
        let note = Conclusion::Note {
            fiber: t.logical,
            kind: "call.reaped".to_owned(),
            args,
        };
        (true, self.after_settling(settled, note))
    }

    /// Puts a definition in force.
    pub fn load_definition(&mut self, def: StoredManifest) -> (r: Job)
        ensures
            (final(self)@, r@) == old(self)@.load(def@),
    {
        let id = def.id.clone();
        let kept = match self.plugins.get(&id) {
            Some(p) => if text::same(&p.reducer, &def.reducer) && lifecycle::is_keepsake(
                &def.reducer,
                &p.json_state,
            ) {
                Some(p.json_state.copy())
            } else {
                None
            },
            None => None,
        };
        self.definitions.insert(&id, def);
        let stage = match self.contexts.current(&id) {
            Some(cur) => match cur.state.canonical() {
                Fsm::Disposed | Fsm::Failed | Fsm::CleanupPending => Stage::Settle,
                _ => Stage::Dispose(cur.instance),
            },
            None => Stage::Settle,
        };
        Job {
            stage,
            reconciles: true,
            conclusion: Conclusion::Loaded { id, kept },
            outcome: None,
        }
    }

    /// Loads the manifest file at `path`. An invalid one changes nothing.
    pub fn load_manifest(&mut self, path: &str, content: &str) -> (r: Result<(String, Job), String>)
        ensures
            match definition_in(path@, content@) {
                Ok(d) => r matches Ok(x) && x.0@ == d.id && (final(self)@, x.1@) == old(
                    self,
                )@.load(d),
                Err(e) => r matches Err(m) && m@ == e && final(self)@ == old(self)@,
            },
    {
        match read_manifest(path, content) {
            Ok(d) => {
                let id = d.id.clone();
                Ok((id, self.load_definition(d)))
            },
            Err(e) => Err(e),
        }
    }

    /// Removes a definition, discards its instance and withdraws its
    /// consumers, which keep their definitions and wait.
    pub fn dispose_plugin(&mut self, id: &str) -> (r: Job)
        ensures
            (final(self)@, r@) == old(self)@.dispose_plugin(id@),
    {
        if self.remote_providers.contains(id) {
            self.drop_remote(id, Some("definition-disposed"));
        }
        let _ = self.definitions.remove(id);
        self.emit_hook(LifecycleEvent::Removed { logical: id.to_owned() });
        match self.contexts.current(id) {
            Some(cur) => Job::disposal(cur.instance, true),
            None => Job {
                stage: Stage::Settle,
                reconciles: true,
                conclusion: Conclusion::Nothing,
                outcome: Some(DisposeOutcome::AlreadyDisposed),
            },
        }
    }

    /// Discards one instance, whatever generation is current, and reconciles
    /// its dependents. Definitions stay.
    pub fn dispose_instance(&self, inst: InstanceId) -> (r: Job)
        ensures
            r@ == (JobV {
                stage: StageV::Dispose(inst),
                reconciles: true,
                conclusion: ConclusionV::Nothing,
                outcome: None,
            }),
    {
        Job::disposal(inst, true)
    }

    /// Registers a remote activation for a definition for another host. A
    /// new attestation replaces an earlier one.
    pub fn register_remote_provider(
        &mut self,
        logical: &str,
        instance: u64,
        generation: u64,
        peer: &str,
    ) -> (r: Result<Job, String>)
        ensures
            (final(self)@, job_outcome(r)) == old(self)@.register_remote(
                logical@,
                instance,
                generation,
                peer@,
            ),
    {
        let remote = match self.definitions.get(logical) {
            Some(d) => d.remote,
            None => false,
        };
        if !remote {
            return Err("not a remote definition".to_owned());
        }
        if peer.is_empty() || peer.as_bytes().len() > MAX_PEER_LEN {
            return Err("invalid peer".to_owned());
        }
        self.remote_providers.insert(
            logical,
            RemoteProvider {
                logical: logical.to_owned(),
                instance,
                generation,
                peer: peer.to_owned(),
            },
        );
        let args = Json::object().with("instance", Json::num(instance)).with(
            "generation",
            Json::num(generation),
        ).with("peer", Json::str(peer));
        self.log(logical, "remote.registered", args);
        Ok(self.reconcile())
    }

    /// Removes a remote registration; `None` where there was none.
    pub fn unregister_remote_provider(&mut self, logical: &str) -> (r: Option<Job>)
        ensures
            (final(self)@, r.deep_view()) == old(self)@.unregister_remote(logical@),
    {
        if !self.remote_providers.contains(logical) {
            return None;
        }
        self.drop_remote(logical, None);
        Some(self.reconcile())
    }

    /// Installs a validated definition for another host.
    pub fn install_remote_definition(&mut self, def: StoredManifest) -> (r: Job)
        requires
            def.remote,
        ensures
            (final(self)@, r@) == old(self)@.install_remote(def@),
    {
        let id = def.id.clone();
        self.definitions.insert(&id, def);
        if self.remote_providers.contains(&id) {
            self.drop_remote(&id, Some("definition-reprovisioned"));
        }
        self.reconcile()
    }

    pub fn remote_provider_of(&self, logical: &str) -> (r: Option<RemoteProvider>)
        ensures
            r.deep_view() == if self@.remotes.dom().contains(logical@) {
                Some(self@.remotes[logical@])
            } else {
                None
            },
    {
        match self.remote_providers.get(logical) {
            Some(p) => Some(p.copy()),
            None => None,
        }
    }

    /// The logical ids that a peer routes.
    pub fn remote_providers_of_peer(&self, peer: &str) -> (r: Vec<String>)
        ensures
            r.deep_view() == self@.routed_by(peer@, text::in_order(self@.remotes.dom())),
    {
        let n = self.remote_providers.len();
        let ghost ks = text::in_order(self@.remotes.dom());
        proof {
            text::in_order_sorted(self@.remotes.dom());
        }
        let mut out: Vec<String> = Vec::new();
        let mut i: usize = 0;
        proof {
            assert(ks.take(0) =~= Seq::<Text>::empty());
            assert(out.deep_view() =~= Seq::<Text>::empty());
        }
        while i < n
            invariant
                i <= n,
                n == ks.len(),
                ks == text::in_order(self.remote_providers@.dom()),
                out.deep_view() == self@.routed_by(peer@, ks.take(i as int)),
            decreases n - i,
        {
            proof {
                assert(ks.take(i + 1).drop_last() =~= ks.take(i as int));
                assert(ks.take(i + 1).last() == ks[i as int]);
            }
            let p = self.remote_providers.value_at(i);
            if text::same(&p.peer, peer) {
                let ghost before = out.deep_view();
                out.push(p.logical.clone());
                assert(out.deep_view() =~= before.push(p@.logical));
            }
            i += 1;
        }
        proof {
            assert(ks.take(ks.len() as int) =~= ks);
        }
        out
    }

    /// The defined consumers of `logical`, direct and indirect.
    pub fn transitive_dependents(&self, logical: &str) -> (r: Vec<String>)
        ensures
            r.deep_view() == self@.defined(
                text::in_order(
                    graph::dependents(resolve::edges(self@.definitions), logical@),
                ),
            ),
    {
        let edges = resolve::definition_edges(&self.definitions);
        let all = graph::transitive_consumers(logical, &edges);
        let ghost s = all.deep_view();
        let mut out: Vec<String> = Vec::new();
        let mut i: usize = 0;
        proof {
            assert(s.take(0) =~= Seq::<Text>::empty());
            assert(out.deep_view() =~= Seq::<Text>::empty());
        }
        while i < all.len()
            invariant
                i <= all.len(),
                s == all.deep_view(),
                out.deep_view() == self@.defined(s.take(i as int)),
            decreases all.len() - i,
        {
            proof {
                assert(s.take(i + 1).drop_last() =~= s.take(i as int));
                assert(s.take(i + 1).last() == all[i as int]@);
            }
            if self.definitions.contains(&all[i]) {
                let ghost before = out.deep_view();
                out.push(all[i].clone());
                assert(out.deep_view() =~= before.push(all[i as int]@));
            }
            i += 1;
        }
        proof {
            assert(s.take(s.len() as int) =~= s);
        }
        out
    }

    /// The definitions from files under the watched directory that a reload
    /// removes: their file is gone, or was read and declares another id. A
    /// file that is there and invalid keeps its live generation.
    pub fn stale_definitions(
        &self,
        under: &Vec<String>,
        present: &Vec<String>,
        candidates: &Vec<StoredManifest>,
    ) -> (r: Vec<String>)
        ensures
            r.deep_view() == self@.stale_among(
                text::in_order(self@.definitions.dom()),
                under.deep_view(),
                present.deep_view(),
                candidates.deep_view(),
            ),
    {
        let n = self.definitions.len();
        let ghost ks = text::in_order(self@.definitions.dom());
        let ghost us = under.deep_view();
        let ghost ps = present.deep_view();
        let ghost cs = candidates.deep_view();
        proof {
            text::in_order_sorted(self@.definitions.dom());
        }
        let mut out: Vec<String> = Vec::new();
        let mut i: usize = 0;
        proof {
            assert(ks.take(0) =~= Seq::<Text>::empty());
            assert(out.deep_view() =~= Seq::<Text>::empty());
        }
        while i < n
            invariant
                i <= n,
                n == ks.len(),
                ks == text::in_order(self.definitions@.dom()),
                us == under.deep_view(),
                ps == present.deep_view(),
                cs == candidates.deep_view(),
                out.deep_view() == self@.stale_among(ks.take(i as int), us, ps, cs),
            decreases n - i,
        {
            proof {
                assert(ks.take(i + 1).drop_last() =~= ks.take(i as int));
                assert(ks.take(i + 1).last() == ks[i as int]);
            }
            let id = self.definitions.key_at(i);
            let d = self.definitions.value_at(i);
            let stale = match &d.source {
                Some(src) => text::contains_text(under, src) && (!text::contains_text(
                    present,
                    src,
                ) || match id_from(candidates, src) {
                    Some(other) => !text::same(&other, id),
                    None => false,
                }),
                None => false,
            };
            if stale {
                let ghost before = out.deep_view();
                out.push(id.clone());
                assert(out.deep_view() =~= before.push(id@));
            }
            i += 1;
        }
        proof {
            assert(ks.take(ks.len() as int) =~= ks);
        }
        out
    }
}

} // verus!
