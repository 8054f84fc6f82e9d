//! Work that may have to wait for calls to drain.
//!
//! A [`Job`] is what is left of an operation. [`Kernel::advance`] takes it as
//! far as it can without waiting; where a withdrawn instance still drains, it
//! hands the job back with what to wait for. The caller waits, with the
//! kernel free for others, until the instance is settled or the time is over,
//! and advances the job again.

use vstd::prelude::*;
use vstd::string::*;
use crate::context::{ContextRecord, ContextV};
use crate::fsm::Fsm;
use crate::identity::InstanceId;
use crate::json;
use crate::json::{Json, JsonV};
use crate::kernel::lifecycle::{Begun, BegunV};
use crate::kernel::reconcile::{Item, ItemV, Plan, PlanV};
use crate::kernel::{DisposeOutcome, DisposeOutcomeV, Kernel, KernelV, PluginV};
use crate::text::Text;
use crate::time::Instant;

verus! {

/// A round of reconciliation under way: its withdrawals up to `at` are done.
pub struct Pass {
    /// Rounds left after this one.
    pub left: usize,
    pub cycle: bool,
    pub items: Vec<Item>,
    pub at: usize,
    pub changed: bool,
}

pub struct PassV {
    pub left: nat,
    pub cycle: bool,
    pub items: Seq<ItemV>,
    pub at: nat,
    pub changed: bool,
}

impl View for Pass {
    type V = PassV;

    open spec fn view(&self) -> PassV {
        PassV {
            left: self.left as nat,
            cycle: self.cycle,
            items: self.items.deep_view(),
            at: self.at as nat,
            changed: self.changed,
        }
    }
}

/// Where a job stands.
pub enum Stage {
    /// The instance is to be withdrawn.
    Dispose(InstanceId),
    /// The instance is withdrawn and drains.
    Finish(ContextRecord),
    /// The withdrawal is over.
    Settle,
    /// Rounds of reconciliation are left.
    Reconcile(usize),
    Withdraw(Pass),
    /// An instance of the round is withdrawn and drains.
    Drain(ContextRecord, Item, Pass),
    /// Only the conclusion is left.
    Conclude,
    Done,
}

pub enum StageV {
    Dispose(InstanceId),
    Finish(ContextV),
    Settle,
    Reconcile(nat),
    Withdraw(PassV),
    Drain(ContextV, ItemV, PassV),
    Conclude,
    Done,
}

impl View for Stage {
    type V = StageV;

    open spec fn view(&self) -> StageV {
        match self {
            Stage::Dispose(i) => StageV::Dispose(*i),
            Stage::Finish(r) => StageV::Finish(r@),
            Stage::Settle => StageV::Settle,
            Stage::Reconcile(n) => StageV::Reconcile(*n as nat),
            Stage::Withdraw(p) => StageV::Withdraw(p@),
            Stage::Drain(r, i, p) => StageV::Drain(r@, i@, p@),
            Stage::Conclude => StageV::Conclude,
            Stage::Done => StageV::Done,
        }
    }
}

/// What concludes a job.
pub enum Conclusion {
    Nothing,
    /// A definition was loaded; the state that its new instance keeps.
    Loaded { id: String, kept: Option<Json> },
    /// An entry for the journal.
    Note { fiber: String, kind: String, args: Json },
}

pub enum ConclusionV {
    Nothing,
    Loaded { id: Text, kept: Option<JsonV> },
    Note { fiber: Text, kind: Text, args: JsonV },
}

impl View for Conclusion {
    type V = ConclusionV;

    open spec fn view(&self) -> ConclusionV {
        match self {
            Conclusion::Nothing => ConclusionV::Nothing,
            Conclusion::Loaded { id, kept } => ConclusionV::Loaded {
                id: id@,
                kept: kept.deep_view(),
            },
            Conclusion::Note { fiber, kind, args } => ConclusionV::Note {
                fiber: fiber@,
                kind: kind@,
                args: args@,
            },
        }
    }
}

/// What is left of an operation.
pub struct Job {
    pub stage: Stage,
    /// Whether the definitions are reconciled after a withdrawal.
    pub reconciles: bool,
    pub conclusion: Conclusion,
    /// How the withdrawal ended, once it did.
    pub outcome: Option<DisposeOutcome>,
}

pub struct JobV {
    pub stage: StageV,
    pub reconciles: bool,
    pub conclusion: ConclusionV,
    pub outcome: Option<DisposeOutcomeV>,
}

impl View for Job {
    type V = JobV;

    open spec fn view(&self) -> JobV {
        JobV {
            stage: self.stage@,
            reconciles: self.reconciles,
            conclusion: self.conclusion@,
            outcome: self.outcome.deep_view(),
        }
    }
}

impl DeepView for Job {
    type V = JobV;

    open spec fn deep_view(&self) -> JobV {
        self@
    }
}

/// How far a job came: to its end, or to a wait for `instance` to settle,
/// until `until` at most.
pub enum Progress {
    Done(Option<DisposeOutcome>),
    Wait { job: Job, instance: InstanceId, until: Instant },
}

pub enum ProgressV {
    Done(Option<DisposeOutcomeV>),
    Wait { job: JobV, instance: InstanceId, until: Instant },
}

impl View for Progress {
    type V = ProgressV;

    open spec fn view(&self) -> ProgressV {
        match self {
            Progress::Done(o) => ProgressV::Done(o.deep_view()),
            Progress::Wait { job, instance, until } => ProgressV::Wait {
                job: job@,
                instance: *instance,
                until: *until,
            },
        }
    }
}

/// The rounds that the reconciliation of `n` definitions takes at most.
pub open spec fn rounds(n: nat) -> nat {
    if 2 * n + 4 <= usize::MAX {
        2 * n + 4
    } else {
        usize::MAX as nat
    }
}

pub(crate) fn round_limit(n: usize) -> (r: usize)
    ensures
        r == rounds(n as nat),
{
    if n <= (usize::MAX - 4) / 2 {
        n * 2 + 4
    } else {
        usize::MAX
    }
}

impl JobV {
    pub open spec fn to(self, stage: StageV) -> JobV {
        JobV { stage, ..self }
    }

    /// How many parts of the job are ahead.
    pub open spec fn rank(self) -> nat {
        match self.stage {
            StageV::Dispose(_) => 5,
            StageV::Finish(_) => 4,
            StageV::Settle => 3,
            StageV::Reconcile(_) => 2,
            StageV::Withdraw(_) => 2,
            StageV::Drain(_, _, _) => 2,
            StageV::Conclude => 1,
            StageV::Done => 0,
        }
    }

    /// How many rounds are ahead.
    pub open spec fn rounds_left(self) -> nat {
        match self.stage {
            StageV::Reconcile(n) => n,
            StageV::Withdraw(p) => p.left,
            StageV::Drain(_, _, p) => p.left,
            _ => 0,
        }
    }

    /// How much of the round is ahead.
    pub open spec fn items_left(self) -> int {
        match self.stage {
            StageV::Withdraw(p) => if p.at <= p.items.len() {
                1 + 2 * (p.items.len() - p.at)
            } else {
                1
            },
            StageV::Drain(_, _, p) => if p.at <= p.items.len() {
                2 + 2 * (p.items.len() - p.at)
            } else {
                2
            },
            _ => 0,
        }
    }
}

/// The wait for an instance whose drains end at `until`, if they are not
/// over.
pub open spec fn wait_for(inst: InstanceId, until: Option<Instant>, now: Instant) -> Option<
    (InstanceId, Instant),
> {
    match until {
        Some(u) if u.nanos > now.nanos => Some((inst, u)),
        _ => None,
    }
}

fn waits(inst: InstanceId, until: Option<Instant>, now: Instant) -> (r: Option<
    (InstanceId, Instant),
>)
    ensures
        r == wait_for(inst, until, now),
{
    match until {
        Some(u) => if u.nanos > now.nanos {
            Some((inst, u))
        } else {
            None
        },
        None => None,
    }
}

impl KernelV {
    /// A withdrawn generation that stopped with live work gets a waiting
    /// substitute where a new definition was loaded.
    pub open spec fn substitute(self, c: ConclusionV) -> KernelV {
        match c {
            ConclusionV::Loaded { id, .. } => match (
                self.contexts.current_of(id),
                self.definition(id),
            ) {
                (Some(r), Some(d)) => if r.state.canon() == Fsm::CleanupPending {
                    self.create_waiting(d, "reload: awaiting activation"@)
                } else {
                    self
                },
                _ => self,
            },
            _ => self,
        }
    }

    /// The end of a job.
    pub open spec fn conclude(self, c: ConclusionV) -> KernelV {
        match c {
            ConclusionV::Nothing => self,
            ConclusionV::Note { fiber, kind, args } => self.log(fiber, kind, args),
            ConclusionV::Loaded { id, kept } => {
                let k = match (kept, self.plugin(id)) {
                    (Some(s), Some(p)) => self.with_plugin(
                        id,
                        PluginV { json_state: s, ..p },
                    ),
                    _ => self,
                };
                match k.contexts.current_of(id) {
                    None => k,
                    Some(cur) => k.log(
                        id,
                        "plugin.loaded"@,
                        JsonV::object().with("id"@, json::jstr(id)).with(
                            "instance"@,
                            json::jnum(cur.instance.0),
                        ).with("context"@, json::jnum(cur.context.0)).with(
                            "generation"@,
                            json::jnum(cur.generation),
                        ).with("epoch"@, json::jnum(cur.epoch)).with(
                            "state"@,
                            json::jstr(cur.state.name()),
                        ),
                    ),
                }
            },
        }
    }

    /// The next withdrawal of a round begun.
    pub open spec fn withdraw_step(self, p: PassV, now: Instant) -> (
        KernelV,
        StageV,
        Option<(InstanceId, Instant)>,
    ) {
        let item = p.items[p.at as int];
        let next = PassV { at: p.at + 1, ..p };
        let moved = StageV::Withdraw(PassV { changed: true, ..next });
        match self.contexts.current_of(item.logical) {
            None => (self.create_waiting(item.def, item.reason), moved, None),
            Some(st) => match st.state.canon() {
                Fsm::Active | Fsm::Preparing | Fsm::Registered => {
                    let (k, b) = self.begin_dispose(st.instance, now);
                    match b {
                        BegunV::Over(_) => (
                            k.create_waiting(item.def, item.reason),
                            moved,
                            None,
                        ),
                        BegunV::Draining { rec, until } => (
                            k,
                            StageV::Drain(rec, item, next),
                            wait_for(st.instance, until, now),
                        ),
                    }
                },
                Fsm::Waiting => {
                    let (k, changed) = self.ensure_waiting(
                        item.logical,
                        item.def,
                        item.reason,
                    );
                    (
                        k,
                        StageV::Withdraw(PassV { changed: p.changed || changed, ..next }),
                        None,
                    )
                },
                Fsm::Disposed => (self.create_waiting(item.def, item.reason), moved, None),
                _ => (self, StageV::Withdraw(next), None),
            },
        }
    }

    /// One step of a job, and what it has to wait for after it.
    #[verifier::opaque]
    pub open spec fn step(self, job: JobV, now: Instant) -> (
        KernelV,
        JobV,
        Option<(InstanceId, Instant)>,
    ) {
        match job.stage {
            StageV::Dispose(inst) => {
                let (k, b) = self.begin_dispose(inst, now);
                match b {
                    BegunV::Over(o) => (
                        k,
                        JobV { stage: StageV::Settle, outcome: Some(o), ..job },
                        None,
                    ),
                    BegunV::Draining { rec, until } => (
                        k,
                        job.to(StageV::Finish(rec)),
                        wait_for(inst, until, now),
                    ),
                }
            },
            StageV::Finish(rec) => {
                let (k, o) = self.finish_dispose(rec, now);
                (k, JobV { stage: StageV::Settle, outcome: Some(o), ..job }, None)
            },
            StageV::Settle => {
                let k = self.substitute(job.conclusion);
                (
                    k,
                    job.to(
                        if job.reconciles {
                            StageV::Reconcile(rounds(k.definitions.dom().len()))
                        } else {
                            StageV::Conclude
                        },
                    ),
                    None,
                )
            },
            StageV::Reconcile(left) => if left == 0 {
                (self, job.to(StageV::Conclude), None)
            } else {
                match self.plan() {
                    PlanV::Stop => (self, job.to(StageV::Conclude), None),
                    PlanV::Drop(ls) => (
                        self.drop_remotes(ls),
                        job.to(StageV::Reconcile((left - 1) as nat)),
                        None,
                    ),
                    PlanV::Withdraw { cycle, items } => (
                        self,
                        job.to(
                            StageV::Withdraw(
                                PassV {
                                    left: (left - 1) as nat,
                                    cycle,
                                    items,
                                    at: 0,
                                    changed: false,
                                },
                            ),
                        ),
                        None,
                    ),
                }
            },
            StageV::Withdraw(p) => if p.at < p.items.len() {
                let (k, stage, wait) = self.withdraw_step(p, now);
                (k, job.to(stage), wait)
            } else if p.changed {
                (self, job.to(StageV::Reconcile(p.left)), None)
            } else if p.cycle {
                (self, job.to(StageV::Conclude), None)
            } else {
                let (k, changed) = self.activate(now);
                (
                    k,
                    job.to(
                        if changed {
                            StageV::Reconcile(p.left)
                        } else {
                            StageV::Conclude
                        },
                    ),
                    None,
                )
            },
            StageV::Drain(rec, item, p) => (
                self.finish_dispose(rec, now).0.create_waiting(item.def, item.reason),
                job.to(StageV::Withdraw(PassV { changed: true, ..p })),
                None,
            ),
            StageV::Conclude => (
                self.conclude(job.conclusion),
                JobV { stage: StageV::Done, conclusion: ConclusionV::Nothing, ..job },
                None,
            ),
            StageV::Done => (self, job, None),
        }
    }

    /// A job taken as far as it goes without waiting.
    pub open spec fn advance(self, job: JobV, now: Instant) -> (KernelV, ProgressV)
        decreases job.rank(), job.rounds_left(), job.items_left(),
    {
        if job.stage is Done {
            (self, ProgressV::Done(job.outcome))
        } else {
            let (k, j, w) = self.step(job, now);
            proof {
                step_descends(self, job, now);
            }
            match w {
                Some((instance, until)) => (
                    k,
                    ProgressV::Wait { job: j, instance, until },
                ),
                None => k.advance(j, now),
            }
        }
    }
}

/// Every step brings a job nearer to its end.
#[verifier::rlimit(60)]
pub proof fn step_descends(k: KernelV, job: JobV, now: Instant)
    requires
        !(job.stage is Done),
    ensures
        ({
            let j = k.step(job, now).1;
            ||| j.rank() < job.rank()
            ||| j.rank() == job.rank() && j.rounds_left() < job.rounds_left()
            ||| j.rank() == job.rank() && j.rounds_left() == job.rounds_left() && 0
                <= j.items_left() < job.items_left()
        }),
{
    reveal(KernelV::step);
    let j = k.step(job, now).1;
    match job.stage {
        StageV::Dispose(_) => assert(j.stage is Settle || j.stage is Finish),
        StageV::Finish(_) => assert(j.stage is Settle),
        StageV::Settle => assert(j.stage is Reconcile || j.stage is Conclude),
        StageV::Reconcile(n) => assert(j.stage is Conclude || j.rank() == 2
            && j.rounds_left() < n),
        StageV::Withdraw(p) => if p.at < p.items.len() {
            let s = k.withdraw_step(p, now).1;
            assert(j.stage == s);
            assert(s matches StageV::Withdraw(q) ==> q.left == p.left && q.items == p.items
                && q.at == p.at + 1);
            assert(s matches StageV::Drain(_, _, q) ==> q.left == p.left && q.items == p.items
                && q.at == p.at + 1);
            assert(s is Withdraw || s is Drain);
        } else {
            assert(j.stage is Conclude || j.stage == StageV::Reconcile(p.left));
        },
        StageV::Drain(_, _, p) => assert(j.stage == StageV::Withdraw(
            PassV { changed: true, ..p },
        )),
        _ => assert(j.stage is Done),
    }
}

impl Job {
    /// A job that begins with the withdrawal of an instance.
    pub(crate) fn disposal(inst: InstanceId, reconciles: bool) -> (r: Job)
        ensures
            r@ == (JobV {
                stage: StageV::Dispose(inst),
                reconciles,
                conclusion: ConclusionV::Nothing,
                outcome: None,
            }),
    {
        Job {
            stage: Stage::Dispose(inst),
            reconciles,
            conclusion: Conclusion::Nothing,
            outcome: None,
        }
    }
}

impl Kernel {
    fn substitute(&mut self, c: &Conclusion)
        ensures
            final(self)@ == old(self)@.substitute(c@),
    {
        if let Conclusion::Loaded { id, .. } = c {
            let parked = match self.contexts.current(id) {
                Some(r) => r.state.canonical() == Fsm::CleanupPending,
                None => false,
            };
            if parked {
                if let Some(d) = self.definitions.get(id) {
                    let d = d.copy();
                    let _ = self.create_waiting_instance(&d, "reload: awaiting activation");
                }
            }
        }
    }

    pub(crate) fn conclude(&mut self, c: Conclusion)
        ensures
            final(self)@ == old(self)@.conclude(c@),
    {
        match c {
            Conclusion::Nothing => {},
            Conclusion::Note { fiber, kind, args } => self.log(&fiber, &kind, args),
            Conclusion::Loaded { id, kept } => {
                if let Some(s) = kept {
                    if let Some(p) = self.plugins.get(&id) {
                        let mut p = p.copy();
                        p.json_state = s;
                        self.plugins.insert(&id, p);
                    }
                }
                if let Some(cur) = self.contexts.current(&id) {
                    let args = Json::object().with("id", Json::str(&id)).with(
                        "instance",
                        Json::num(cur.instance.0),
                    ).with("context", Json::num(cur.context.0)).with(
                        "generation",
                        Json::num(cur.generation),
                    ).with("epoch", Json::num(cur.epoch)).with(
                        "state",
                        Json::str(cur.state.as_str()),
                    );
                    self.log(&id, "plugin.loaded", args);
                }
            },
        }
    }

    fn withdraw_step(&mut self, p: Pass, now: Instant) -> (r: (
        Stage,
        Option<(InstanceId, Instant)>,
    ))
        requires
            p.at < p.items.len(),
        ensures
            (final(self)@, r.0@, r.1) == old(self)@.withdraw_step(p@, now),
    {
        let mut p = p;
        let item = p.items[p.at].copy();
        assert(p.items.deep_view()[p.at as int] == item@);
        p.at = p.at + 1;
        match self.contexts.current(&item.logical) {
            None => {
                let _ = self.create_waiting_instance(&item.def, &item.reason);
                p.changed = true;
            },
            Some(st) => match st.state.canonical() {
                Fsm::Active | Fsm::Preparing | Fsm::Registered => {
                    match self.begin_dispose(st.instance, now) {
                        Begun::Over(_) => {
                            let _ = self.create_waiting_instance(&item.def, &item.reason);
                            p.changed = true;
                        },
                        Begun::Draining { rec, until } => {
                            return (Stage::Drain(rec, item, p), waits(st.instance, until, now));
                        },
                    }
                },
                Fsm::Waiting => {
                    let changed = self.ensure_waiting(&item.logical, &item.def, &item.reason);
                    p.changed = p.changed || changed;
                },
                Fsm::Disposed => {
                    let _ = self.create_waiting_instance(&item.def, &item.reason);
                    p.changed = true;
                },
                _ => {},
            },
        }
        (Stage::Withdraw(p), None)
    }

    /// One step of a job, and what it has to wait for after it.
    fn step(&mut self, job: Job, now: Instant) -> (r: (Job, Option<(InstanceId, Instant)>))
        ensures
            (final(self)@, r.0@, r.1) == old(self)@.step(job@, now),
    {
        reveal(KernelV::step);
        let Job { stage, reconciles, conclusion, outcome } = job;
        let mut outcome = outcome;
        let mut wait: Option<(InstanceId, Instant)> = None;
        let mut conclusion = conclusion;
        let next = match stage {
            Stage::Dispose(inst) => match self.begin_dispose(inst, now) {
                Begun::Over(o) => {
                    outcome = Some(o);
                    Stage::Settle
                },
                Begun::Draining { rec, until } => {
                    wait = waits(inst, until, now);
                    Stage::Finish(rec)
                },
            },
            Stage::Finish(rec) => {
                let o = self.finish_dispose(&rec, now);
                outcome = Some(o);
                Stage::Settle
            },
            Stage::Settle => {
                self.substitute(&conclusion);
                if reconciles {
                    Stage::Reconcile(round_limit(self.definitions.len()))
                } else {
                    Stage::Conclude
                }
            },
            Stage::Reconcile(left) => if left == 0 {
                Stage::Conclude
            } else {
                match self.plan() {
                    Plan::Stop => Stage::Conclude,
                    Plan::Drop(ls) => {
                        self.drop_remotes(&ls);
                        Stage::Reconcile(left - 1)
                    },
                    Plan::Withdraw { cycle, items } => Stage::Withdraw(
                        Pass { left: left - 1, cycle, items, at: 0, changed: false },
                    ),
                }
            },
            Stage::Withdraw(p) => if p.at < p.items.len() {
                let (s, w) = self.withdraw_step(p, now);
                wait = w;
                s
            } else if p.changed {
                Stage::Reconcile(p.left)
            } else if p.cycle {
                Stage::Conclude
            } else if self.activate_pass(now) {
                Stage::Reconcile(p.left)
            } else {
                Stage::Conclude
            },
            Stage::Drain(rec, item, p) => {
                let _ = self.finish_dispose(&rec, now);
                let _ = self.create_waiting_instance(&item.def, &item.reason);
                let mut p = p;
                p.changed = true;
                Stage::Withdraw(p)
            },
            Stage::Conclude => {
                let mut done = Conclusion::Nothing;
                std::mem::swap(&mut done, &mut conclusion);
                self.conclude(done);
                Stage::Done
            },
            Stage::Done => Stage::Done,
        };
        (Job { stage: next, reconciles, conclusion, outcome }, wait)
    }

    /// Takes a job as far as it goes without waiting.
    pub fn advance(&mut self, job: Job, now: Instant) -> (r: Progress)
        ensures
            final(self)@ == old(self)@.advance(job@, now).0,
            r@ == old(self)@.advance(job@, now).1,
    {
        let ghost j0 = job@;
        let mut cur = job;
        loop
            invariant
                j0 == job@,
                self@.advance(cur@, now) == old(self)@.advance(j0, now),
            decreases cur@.rank(), cur@.rounds_left(), cur@.items_left(),
        {
            if let Stage::Done = &cur.stage {
                return Progress::Done(cur.outcome);
            }
            proof {
                step_descends(self@, cur@, now);
            }
            let (next, wait) = self.step(cur, now);
            if let Some((instance, until)) = wait {
                return Progress::Wait { job: next, instance, until };
            }
            cur = next;
        }
    }
}

} // verus!
