//! Contexts and instance identity.
//!
//! An instance is one concrete activation of a logical id; its context is the
//! scope of authority and ownership of that activation. The generation grows
//! with every activation of a logical id, and reusing the id never
//! revalidates old references.

use vstd::prelude::*;
use vstd::string::*;
use crate::fsm::Fsm;
use crate::identity::{ContextId, InstanceId, InstanceRef, InstanceRefV};
use crate::strmap::StrMap;
use crate::text;
use crate::text::Text;

verus! {

#[derive(Debug)]
pub struct ContextRecord {
    pub context: ContextId,
    pub instance: InstanceId,
    pub logical: String,
    pub generation: u64,
    pub epoch: u64,
    pub state: Fsm,
    pub parent: Option<ContextId>,
    /// Why the instance waits, failed, or cannot be cleaned up yet.
    pub cause: Option<String>,
}

pub struct ContextV {
    pub context: ContextId,
    pub instance: InstanceId,
    pub logical: Text,
    pub generation: u64,
    pub epoch: u64,
    pub state: Fsm,
    pub parent: Option<ContextId>,
    pub cause: Option<Text>,
}

impl View for ContextRecord {
    type V = ContextV;

    open spec fn view(&self) -> ContextV {
        ContextV {
            context: self.context,
            instance: self.instance,
            logical: self.logical@,
            generation: self.generation,
            epoch: self.epoch,
            state: self.state,
            parent: self.parent,
            cause: self.cause.deep_view(),
        }
    }
}

impl DeepView for ContextRecord {
    type V = ContextV;

    open spec fn deep_view(&self) -> ContextV {
        self@
    }
}

impl ContextV {
    pub open spec fn reference(self) -> InstanceRefV {
        InstanceRefV {
            epoch: self.epoch,
            instance: self.instance.0,
            context: self.context.0,
            logical: self.logical,
            generation: self.generation,
        }
    }

    /// The record in another state.
    pub open spec fn in_state(self, state: Fsm, cause: Option<Text>) -> ContextV {
        ContextV { state, cause, ..self }
    }
}

impl ContextRecord {
    pub fn reference(&self) -> (r: InstanceRef)
        ensures
            r@ == self@.reference(),
    {
        InstanceRef::new(
            self.epoch,
            self.instance.0,
            self.context.0,
            &self.logical,
            self.generation,
        )
    }

    pub fn copy(&self) -> (r: ContextRecord)
        ensures
            r@ == self@,
    {
        ContextRecord {
            context: self.context,
            instance: self.instance,
            logical: self.logical.clone(),
            generation: self.generation,
            epoch: self.epoch,
            state: self.state,
            parent: self.parent,
            cause: text::copy_opt(&self.cause),
        }
    }
}

#[derive(Debug)]
pub enum ContextError {
    UnknownInstance(u64),
    UnknownContext(u64),
    NotActive { logical: String, state: String },
    StaleGeneration { logical: String, expected: u64, got: u64 },
    AlreadyDisposed { logical: String },
}

pub enum ContextErrorV {
    UnknownInstance(u64),
    UnknownContext(u64),
    NotActive { logical: Text, state: Text },
    StaleGeneration { logical: Text, expected: u64, got: u64 },
    AlreadyDisposed { logical: Text },
}

impl View for ContextError {
    type V = ContextErrorV;

    open spec fn view(&self) -> ContextErrorV {
        match self {
            ContextError::UnknownInstance(i) => ContextErrorV::UnknownInstance(*i),
            ContextError::UnknownContext(c) => ContextErrorV::UnknownContext(*c),
            ContextError::NotActive { logical, state } => ContextErrorV::NotActive {
                logical: logical@,
                state: state@,
            },
            ContextError::StaleGeneration { logical, expected, got } =>
                ContextErrorV::StaleGeneration {
                logical: logical@,
                expected: *expected,
                got: *got,
            },
            ContextError::AlreadyDisposed { logical } => ContextErrorV::AlreadyDisposed {
                logical: logical@,
            },
        }
    }
}

impl ContextErrorV {
    pub open spec fn message(self) -> Text {
        match self {
            ContextErrorV::UnknownInstance(i) => "unknown instance inst-"@ + text::dec(i as nat),
            ContextErrorV::UnknownContext(c) => "unknown context ctx-"@ + text::dec(c as nat),
            ContextErrorV::NotActive { logical, state } => {
                "context-not-active: "@ + logical + " is "@ + state
            },
            ContextErrorV::StaleGeneration { logical, expected, got } => {
                "stale-generation: "@ + logical + " expected #"@ + text::dec(expected as nat)
                    + " got #"@ + text::dec(got as nat)
            },
            ContextErrorV::AlreadyDisposed { logical } => "already disposed: "@ + logical,
        }
    }
}

impl ContextError {
    pub fn message(&self) -> (r: String)
        ensures
            r@ == self@.message(),
    {
        match self {
            ContextError::UnknownInstance(i) => text::numbered("unknown instance inst-", *i),
            ContextError::UnknownContext(c) => text::numbered("unknown context ctx-", *c),
            ContextError::NotActive { logical, state } => {
                let mut r = text::join2("context-not-active: ", logical);
                r.append(" is ");
                r.append(state);
                r
            },
            ContextError::StaleGeneration { logical, expected, got } => {
                let mut r = text::join2("stale-generation: ", logical);
                r.append(" expected #");
                r.append(&text::dec_text(*expected));
                r.append(" got #");
                r.append(&text::dec_text(*got));
                r
            },
            ContextError::AlreadyDisposed { logical } => text::join2("already disposed: ", logical),
        }
    }
}

/// Result of the dispose claim.
#[derive(Debug)]
pub enum DisposeClaim {
    /// This caller won: it performed the transition to `Quiescing`.
    Fresh(ContextRecord),
    /// Another dispose already began and is in flight.
    InFlight { logical: String },
}

pub enum DisposeClaimV {
    Fresh(ContextV),
    InFlight { logical: Text },
}

impl View for DisposeClaim {
    type V = DisposeClaimV;

    open spec fn view(&self) -> DisposeClaimV {
        match self {
            DisposeClaim::Fresh(r) => DisposeClaimV::Fresh(r@),
            DisposeClaim::InFlight { logical } => DisposeClaimV::InFlight { logical: logical@ },
        }
    }
}

/// Every activation there ever was, the current one of each logical id, and
/// the last generation of each logical id.
#[verifier::ext_equal]
pub struct ContextsV {
    pub epoch: u64,
    /// The activation with instance id `i + 1` is at position `i`.
    pub records: Seq<ContextV>,
    pub current: Map<Text, u64>,
    pub generations: Map<Text, u64>,
}

impl ContextsV {
    /// Ids follow the order of creation; generations never exceed the last
    /// one of their logical id, which the current activation carries.
    pub open spec fn wf(self) -> bool {
        &&& forall|i: int|
            0 <= i < self.records.len() ==> {
                let r = #[trigger] self.records[i];
                &&& r.instance.0 == i + 1
                &&& r.context.0 == i + 1
                &&& r.epoch == self.epoch
                &&& self.generations.dom().contains(r.logical)
                &&& 1 <= r.generation <= self.generations[r.logical]
            }
        &&& self.current.dom() == self.generations.dom()
        &&& forall|l: Text| #[trigger]
            self.current.dom().contains(l) ==> {
                &&& 1 <= self.current[l] <= self.records.len()
                &&& self.records[self.current[l] - 1].logical == l
                &&& self.records[self.current[l] - 1].generation == self.generations[l]
                &&& self.generations[l] <= self.current[l]
            }
        &&& forall|i: int, j: int|
            0 <= i < j < self.records.len() && self.records[i].logical == self.records[j].logical
                ==> (#[trigger] self.records[i]).generation < (
            #[trigger] self.records[j]).generation
    }

    pub open spec fn has(self, inst: u64) -> bool {
        1 <= inst <= self.records.len()
    }

    /// The activation with this instance id.
    pub open spec fn get(self, inst: u64) -> Option<ContextV> {
        if self.has(inst) {
            Some(self.records[inst - 1])
        } else {
            None
        }
    }

    /// The current activation of a logical id.
    pub open spec fn current_of(self, logical: Text) -> Option<ContextV> {
        if self.current.dom().contains(logical) {
            self.get(self.current[logical])
        } else {
            None
        }
    }

    /// The current activation of every logical id that has one.
    pub open spec fn current_all(self) -> Map<Text, ContextV> {
        Map::new(
            |l: Text| self.current_of(l) is Some,
            |l: Text| self.current_of(l)->0,
        )
    }

    pub open spec fn generation_of(self, logical: Text) -> u64 {
        if self.generations.dom().contains(logical) {
            self.generations[logical]
        } else {
            0
        }
    }

    /// The record that `create` adds.
    pub open spec fn fresh(self, logical: Text, state: Fsm, cause: Option<Text>) -> ContextV {
        ContextV {
            context: ContextId((self.records.len() + 1) as u64),
            instance: InstanceId((self.records.len() + 1) as u64),
            logical,
            generation: (self.generation_of(logical) + 1) as u64,
            epoch: self.epoch,
            state,
            parent: None,
            cause,
        }
    }

    /// A new activation of `logical`, which becomes its current one.
    pub open spec fn create(self, logical: Text, state: Fsm, cause: Option<Text>) -> ContextsV {
        let r = self.fresh(logical, state, cause);
        ContextsV {
            epoch: self.epoch,
            records: self.records.push(r),
            current: self.current.insert(logical, r.instance.0),
            generations: self.generations.insert(logical, r.generation),
        }
    }

    /// The activation `inst` in another state; nothing where there is none.
    pub open spec fn put(self, inst: u64, state: Fsm, cause: Option<Text>) -> ContextsV {
        if self.has(inst) {
            ContextsV {
                records: self.records.update(
                    inst - 1,
                    self.records[inst - 1].in_state(state, cause),
                ),
                ..self
            }
        } else {
            self
        }
    }

    /// The activation `inst` if it is active and current, or why it is not
    /// admissible.
    pub open spec fn admissible(self, inst: u64) -> Result<ContextV, ContextErrorV> {
        match self.get(inst) {
            None => Err(ContextErrorV::UnknownInstance(inst)),
            Some(r) => if r.state.canon() != Fsm::Active {
                Err(ContextErrorV::NotActive { logical: r.logical, state: r.state.name() })
            } else {
                match self.current_of(r.logical) {
                    Some(c) if c.instance.0 != inst => Err(
                        ContextErrorV::StaleGeneration {
                            logical: r.logical,
                            expected: c.generation,
                            got: r.generation,
                        },
                    ),
                    _ => Ok(r),
                }
            },
        }
    }

    /// What the dispose claim on `inst` gives, and the state after it.
    pub open spec fn claim(self, inst: u64) -> (ContextsV, Result<DisposeClaimV, ContextErrorV>) {
        match self.get(inst) {
            None => (self, Err(ContextErrorV::UnknownInstance(inst))),
            Some(r) => match r.state.canon() {
                Fsm::Disposed | Fsm::Failed => (
                    self,
                    Err(ContextErrorV::AlreadyDisposed { logical: r.logical }),
                ),
                Fsm::Quiescing | Fsm::CleanupPending => (
                    self,
                    Ok(DisposeClaimV::InFlight { logical: r.logical }),
                ),
                _ => (
                    self.put(inst, Fsm::Quiescing, None),
                    Ok(DisposeClaimV::Fresh(r.in_state(Fsm::Quiescing, None))),
                ),
            },
        }
    }

    /// Whether a newer activation of its logical id replaced `inst`.
    pub open spec fn superseded(self, inst: u64) -> bool {
        self.get(inst) matches Some(r) && self.current_of(r.logical) matches Some(c)
            && c.instance.0 != inst
    }

    /// Activates `inst` if it has not been active yet and is current.
    pub open spec fn activate(self, inst: u64) -> (ContextsV, bool) {
        match self.get(inst) {
            None => (self, false),
            Some(r) => if self.superseded(inst) {
                (self, false)
            } else if r.state.is_waiting_like() {
                (self.put(inst, Fsm::Active, None), true)
            } else {
                (self, r.state.canon() == Fsm::Active)
            },
        }
    }

    /// Gives the waiting instance `inst` another reason.
    pub open spec fn wait(self, inst: u64, cause: Text) -> (ContextsV, bool) {
        match self.get(inst) {
            None => (self, false),
            Some(r) => if r.state.is_waiting_like() {
                (self.put(inst, Fsm::Waiting, Some(cause)), true)
            } else {
                (self, false)
            },
        }
    }
}

pub struct ContextTable {
    epoch: u64,
    records: Vec<ContextRecord>,
    current: StrMap<u64>,
    generations: StrMap<u64>,
}

impl View for ContextTable {
    type V = ContextsV;

    closed spec fn view(&self) -> ContextsV {
        ContextsV {
            epoch: self.epoch,
            records: self.records.deep_view(),
            current: self.current@,
            generations: self.generations@,
        }
    }
}

impl ContextTable {
    #[verifier::type_invariant]
    closed spec fn inv(self) -> bool {
        self@.wf()
    }

    /// No activation yet, in a fresh epoch.
    pub fn new(epoch: u64) -> (r: Self)
        ensures
            r@ == (ContextsV {
                epoch,
                records: Seq::empty(),
                current: Map::empty(),
                generations: Map::empty(),
            }),
            r@.wf(),
    {
        let records: Vec<ContextRecord> = Vec::new();
        assert(records.deep_view() =~= Seq::<ContextV>::empty());
        ContextTable { epoch, records, current: StrMap::new(), generations: StrMap::new() }
    }

    pub fn epoch(&self) -> (r: u64)
        ensures
            r == self@.epoch,
            self@.wf(),
    {
        proof {
            use_type_invariant(self);
        }
        self.epoch
    }

    /// Creates an active activation: next generation, fresh ids.
    pub fn create(&mut self, logical: &str) -> (r: ContextRecord)
        ensures
            final(self)@ == old(self)@.create(logical@, Fsm::Active, None),
            r@ == old(self)@.fresh(logical@, Fsm::Active, None),
            final(self)@.wf(),
    {
        self.create_in(logical, Fsm::Active, None)
    }

    /// Creates an activation in `state`: next generation, fresh ids that are
    /// never used again.
    pub fn create_in(&mut self, logical: &str, state: Fsm, cause: Option<String>) -> (r:
        ContextRecord)
        ensures
            final(self)@ == old(self)@.create(logical@, state, cause.deep_view()),
            r@ == old(self)@.fresh(logical@, state, cause.deep_view()),
            final(self)@.wf(),
    {
        proof {
            use_type_invariant(&*self);
        }
        let ghost before = self@;
        let epoch = self.epoch;
        let last: u64 = match self.generations.get(logical) {
            Some(g) => *g,
            None => 0,
        };
        let keep: Option<String> = text::copy_opt(&cause);
        let mut taken = ContextTable::new(epoch);
        std::mem::swap(self, &mut taken);
        let ContextTable { epoch: _, mut records, mut current, mut generations } = taken;
        let ghost n = records.len();
        records.push(
            ContextRecord {
                context: ContextId(0),
                instance: InstanceId(0),
                logical: logical.to_owned(),
                generation: 0,
                epoch,
                state,
                parent: None,
                cause,
            },
        );
        let id: u64 = records.len() as u64;
        proof {
            assert(last <= n) by {
                if before.generations.dom().contains(logical@) {
                    assert(before.current.dom().contains(logical@));
                }
            }
        }
        let generation: u64 = last + 1;
        let at: usize = records.len() - 1;
        let rec = ContextRecord {
            context: ContextId(id),
            instance: InstanceId(id),
            logical: logical.to_owned(),
            generation,
            epoch,
            state,
            parent: None,
            cause: keep,
        };
        let out = rec.copy();
        records[at] = rec;
        current.insert(logical, id);
        generations.insert(logical, generation);
        proof {
            let after = before.create(logical@, state, cause.deep_view());
            assert(records.deep_view() =~= after.records);
            create_keeps_wf(before, logical@, state, cause.deep_view());
        }
        *self = ContextTable { epoch, records, current, generations };
        out
    }

    /// Creates a waiting activation with a visible reason.
    pub fn create_waiting(&mut self, logical: &str, cause: String) -> (r: ContextRecord)
        ensures
            final(self)@ == old(self)@.create(logical@, Fsm::Waiting, Some(cause@)),
            r@ == old(self)@.fresh(logical@, Fsm::Waiting, Some(cause@)),
            final(self)@.wf(),
    {
        self.create_in(logical, Fsm::Waiting, Some(cause))
    }

    fn at(&self, inst: InstanceId) -> (r: Option<&ContextRecord>)
        ensures
            match r {
                Some(x) => self@.get(inst.0) == Some(x@),
                None => self@.get(inst.0) is None,
            },
    {
        if inst.0 >= 1 && inst.0 <= self.records.len() as u64 {
            Some(&self.records[(inst.0 - 1) as usize])
        } else {
            None
        }
    }

    pub fn get_by_instance(&self, inst: InstanceId) -> (r: Option<ContextRecord>)
        ensures
            r.deep_view() == self@.get(inst.0),
    {
        match self.at(inst) {
            Some(x) => Some(x.copy()),
            None => None,
        }
    }

    pub fn get_by_context(&self, ctx: ContextId) -> (r: Option<ContextRecord>)
        ensures
            r.deep_view() == self@.get(ctx.0),
    {
        self.get_by_instance(InstanceId(ctx.0))
    }

    fn cur(&self, logical: &str) -> (r: Option<&ContextRecord>)
        ensures
            match r {
                Some(x) => self@.current_of(logical@) == Some(x@),
                None => self@.current_of(logical@) is None,
            },
    {
        match self.current.get(logical) {
            Some(i) => self.at(InstanceId(*i)),
            None => None,
        }
    }

    /// The current activation of a logical id.
    pub fn current(&self, logical: &str) -> (r: Option<ContextRecord>)
        ensures
            r.deep_view() == self@.current_of(logical@),
    {
        match self.cur(logical) {
            Some(x) => Some(x.copy()),
            None => None,
        }
    }

    /// The current activation of every logical id.
    pub fn current_all(&self) -> (r: StrMap<ContextRecord>)
        ensures
            r@ == self@.current_all(),
    {
        let mut out: StrMap<ContextRecord> = StrMap::new();
        let n = self.current.len();
        let ghost ks = text::in_order(self@.current.dom());
        proof {
            text::in_order_sorted(self@.current.dom());
        }
        let mut i: usize = 0;
        while i < n
            invariant
                i <= n,
                n == ks.len(),
                ks == text::in_order(self@.current.dom()),
                ks.to_set() == self@.current.dom(),
                forall|l: Text| #[trigger]
                    out@.dom().contains(l) <==> ks.take(i as int).to_set().contains(l)
                        && self@.current_of(l) is Some,
                forall|l: Text| #[trigger]
                    out@.dom().contains(l) ==> self@.current_of(l) == Some(out@[l]),
            decreases n - i,
        {
            proof {
                text::take_grows(ks, i as int);
            }
            let l = self.current.key_at(i);
            if let Some(x) = self.cur(l) {
                out.insert(l, x.copy());
            }
            i += 1;
        }
        proof {
            assert(ks.take(ks.len() as int) =~= ks);
            assert(out@ =~= self@.current_all());
        }
        out
    }

    pub fn generation_of(&self, logical: &str) -> (r: u64)
        ensures
            r == self@.generation_of(logical@),
    {
        match self.generations.get(logical) {
            Some(g) => *g,
            None => 0,
        }
    }

    /// The activation, if it is active and the current one of its logical
    /// id. A record of an older generation is rejected even if it still says
    /// active.
    pub fn require_active(&self, inst: InstanceId) -> (r: Result<ContextRecord, ContextError>)
        ensures
            match r {
                Ok(x) => self@.admissible(inst.0) == Ok::<ContextV, ContextErrorV>(x@),
                Err(e) => self@.admissible(inst.0) == Err::<ContextV, ContextErrorV>(e@),
            },
    {
        match self.at(inst) {
            None => Err(ContextError::UnknownInstance(inst.0)),
            Some(rec) => {
                if rec.state.canonical() != Fsm::Active {
                    return Err(
                        ContextError::NotActive {
                            logical: rec.logical.clone(),
                            state: rec.state.as_str().to_owned(),
                        },
                    );
                }
                if let Some(cur) = self.cur(&rec.logical) {
                    if cur.instance.0 != inst.0 {
                        return Err(
                            ContextError::StaleGeneration {
                                logical: rec.logical.clone(),
                                expected: cur.generation,
                                got: rec.generation,
                            },
                        );
                    }
                }
                Ok(rec.copy())
            },
        }
    }

    fn put(&mut self, inst: InstanceId, state: Fsm, cause: Option<String>)
        ensures
            final(self)@ == old(self)@.put(inst.0, state, cause.deep_view()),
            final(self)@.wf(),
    {
        proof {
            use_type_invariant(&*self);
        }
        if inst.0 >= 1 && inst.0 <= self.records.len() as u64 {
            let i: usize = (inst.0 - 1) as usize;
            let ghost before = self@;
            let mut rec = self.records[i].copy();
            rec.state = state;
            rec.cause = cause;
            let mut taken = ContextTable::new(self.epoch);
            std::mem::swap(self, &mut taken);
            let ContextTable { epoch, mut records, current, generations } = taken;
            records[i] = rec;
            proof {
                let after = before.put(inst.0, state, cause.deep_view());
                assert(records.deep_view() =~= after.records);
                put_keeps_wf(before, inst.0, state, cause.deep_view());
            }
            *self = ContextTable { epoch, records, current, generations };
        }
    }

    /// Dispose claim: exactly one caller observes `Fresh` and performs the
    /// transition to `Quiescing`, which blocks new admissions. Others observe
    /// `InFlight`, or that the instance is disposed or failed.
    pub fn claim_dispose(&mut self, inst: InstanceId) -> (r: Result<DisposeClaim, ContextError>)
        ensures
            final(self)@ == old(self)@.claim(inst.0).0,
            match r {
                Ok(c) => old(self)@.claim(inst.0).1 == Ok::<DisposeClaimV, ContextErrorV>(c@),
                Err(e) => old(self)@.claim(inst.0).1 == Err::<DisposeClaimV, ContextErrorV>(e@),
            },
    {
        let rec = match self.at(inst) {
            None => return Err(ContextError::UnknownInstance(inst.0)),
            Some(x) => x.copy(),
        };
        match rec.state.canonical() {
            Fsm::Disposed | Fsm::Failed => Err(
                ContextError::AlreadyDisposed { logical: rec.logical },
            ),
            Fsm::Quiescing | Fsm::CleanupPending => Ok(
                DisposeClaim::InFlight { logical: rec.logical },
            ),
            _ => {
                self.put(inst, Fsm::Quiescing, None);
                let mut rec = rec;
                rec.state = Fsm::Quiescing;
                rec.cause = None;
                Ok(DisposeClaim::Fresh(rec))
            },
        }
    }

    pub fn mark_disposed(&mut self, inst: InstanceId)
        ensures
            final(self)@ == old(self)@.put(inst.0, Fsm::Disposed, None),
    {
        self.put(inst, Fsm::Disposed, None);
    }

    pub fn mark_cleanup_pending(&mut self, inst: InstanceId, cause: String)
        ensures
            final(self)@ == old(self)@.put(inst.0, Fsm::CleanupPending, Some(cause@)),
    {
        self.put(inst, Fsm::CleanupPending, Some(cause));
    }

    pub fn mark_failed(&mut self, inst: InstanceId, cause: String)
        ensures
            final(self)@ == old(self)@.put(inst.0, Fsm::Failed, Some(cause@)),
    {
        self.put(inst, Fsm::Failed, Some(cause));
    }

    /// Promotes a waiting instance to `Active`. `false` if the instance no
    /// longer waits, for instance because a new generation superseded it.
    pub fn mark_active(&mut self, inst: InstanceId) -> (r: bool)
        ensures
            final(self)@ == old(self)@.activate(inst.0).0,
            r == old(self)@.activate(inst.0).1,
    {
        let state = match self.at(inst) {
            None => return false,
            Some(x) => {
                if let Some(c) = self.current(&x.logical) {
                    if c.instance.0 != inst.0 {
                        return false;
                    }
                }
                x.state
            },
        };
        if state.waiting_like() {
            self.put(inst, Fsm::Active, None);
            true
        } else {
            state.canonical() == Fsm::Active
        }
    }

    /// Updates the reason of a waiting instance. Never moves an active one
    /// back to waiting.
    pub fn mark_waiting(&mut self, inst: InstanceId, cause: String) -> (r: bool)
        ensures
            final(self)@ == old(self)@.wait(inst.0, cause@).0,
            r == old(self)@.wait(inst.0, cause@).1,
    {
        let state = match self.at(inst) {
            None => return false,
            Some(x) => x.state,
        };
        if state.waiting_like() {
            self.put(inst, Fsm::Waiting, Some(cause));
            true
        } else {
            false
        }
    }

    pub fn set_state(&mut self, inst: InstanceId, state: Fsm)
        ensures
            final(self)@ == old(self)@.put(
                inst.0,
                state,
                match old(self)@.get(inst.0) {
                    Some(r) => r.cause,
                    None => None,
                },
            ),
    {
        let cause = match self.at(inst) {
            None => return ,
            Some(x) => text::copy_opt(&x.cause),
        };
        self.put(inst, state, cause);
    }

    /// Every activation, by logical id and generation.
    pub fn snapshot(&self) -> (r: Vec<ContextRecord>)
        ensures
            r.deep_view() == by_name(self@.records),
    {
        let ghost rs = self@.records;
        let mut out: Vec<ContextRecord> = Vec::new();
        let mut i: usize = 0;
        proof {
            assert(rs.take(0) =~= Seq::<ContextV>::empty());
            assert(out.deep_view() =~= Seq::<ContextV>::empty());
        }
        while i < self.records.len()
            invariant
                i <= self.records.len(),
                rs == self.records.deep_view(),
                out.deep_view() == by_name(rs.take(i as int)),
            decreases self.records.len() - i,
        {
            let rec = self.records[i].copy();
            let ghost v = out.deep_view();
            let mut k: usize = out.len();
            while k > 0 && name_after(&out[k - 1], &rec)
                invariant
                    k <= out.len(),
                    v == out.deep_view(),
                    forall|j: int| k <= j < v.len() ==> comes_after(#[trigger] v[j], rec@),
                decreases k,
            {
                assert(v[k - 1] == out[k - 1]@);
                k -= 1;
            }
            proof {
                if k > 0 {
                    assert(v[k - 1] == out[k - 1]@);
                }
                name_insert_at(v, rec@, k as int);
                assert(rs.take(i + 1).drop_last() =~= rs.take(i as int));
                assert(rs.take(i + 1).last() == rec@);
            }
            out.insert(k, rec);
            proof {
                assert(out.deep_view() =~= v.insert(k as int, rec@));
            }
            i += 1;
        }
        proof {
            assert(rs.take(rs.len() as int) =~= rs);
        }
        out
    }
}

/// Whether `a` stands after `b` by logical id, then generation.
pub open spec fn comes_after(a: ContextV, b: ContextV) -> bool {
    text::text_lt(b.logical, a.logical) || (a.logical == b.logical && a.generation > b.generation)
}

fn name_after(a: &ContextRecord, b: &ContextRecord) -> (r: bool)
    ensures
        r == comes_after(a@, b@),
{
    text::less(&b.logical, &a.logical) || (text::same(&a.logical, &b.logical) && a.generation
        > b.generation)
}

/// `r` placed before the trailing records that come after it.
pub open spec fn name_insert(v: Seq<ContextV>, r: ContextV) -> Seq<ContextV>
    decreases v.len(),
{
    if v.len() == 0 || !comes_after(v.last(), r) {
        v.push(r)
    } else {
        name_insert(v.drop_last(), r).push(v.last())
    }
}

/// The records sorted by logical id, then generation.
pub open spec fn by_name(rs: Seq<ContextV>) -> Seq<ContextV>
    decreases rs.len(),
{
    if rs.len() == 0 {
        rs
    } else {
        name_insert(by_name(rs.drop_last()), rs.last())
    }
}

proof fn name_insert_at(v: Seq<ContextV>, r: ContextV, k: int)
    requires
        0 <= k <= v.len(),
        forall|j: int| k <= j < v.len() ==> comes_after(#[trigger] v[j], r),
        k > 0 ==> !comes_after(v[k - 1], r),
    ensures
        name_insert(v, r) == v.insert(k, r),
    decreases v.len(),
{
    if k == v.len() {
        assert(v.push(r) =~= v.insert(k, r));
    } else {
        assert(comes_after(v[v.len() - 1], r));
        name_insert_at(v.drop_last(), r, k);
        assert(v.drop_last().insert(k, r).push(v.last()) =~= v.insert(k, r));
    }
}

pub(crate) proof fn put_keeps_wf(c: ContextsV, inst: u64, state: Fsm, cause: Option<Text>)
    requires
        c.wf(),
    ensures
        c.put(inst, state, cause).wf(),
{
    let d = c.put(inst, state, cause);
    if c.has(inst) {
        assert forall|i: int| 0 <= i < d.records.len() implies {
            let r = #[trigger] d.records[i];
            &&& r.instance.0 == i + 1
            &&& r.context.0 == i + 1
            &&& r.epoch == d.epoch
            &&& d.generations.dom().contains(r.logical)
            &&& 1 <= r.generation <= d.generations[r.logical]
        } by {
            assert(c.records[i].logical == d.records[i].logical);
        }
        assert forall|i: int, j: int|
            0 <= i < j < d.records.len() && d.records[i].logical
                == d.records[j].logical implies (#[trigger] d.records[i]).generation < (
        #[trigger] d.records[j]).generation by {
            assert(c.records[i].generation < c.records[j].generation);
        }
    }
}

pub(crate) proof fn create_keeps_wf(c: ContextsV, logical: Text, state: Fsm, cause: Option<Text>)
    requires
        c.wf(),
        c.records.len() < u64::MAX,
    ensures
        c.create(logical, state, cause).wf(),
{
}

// ---- laws -------------------------------------------------------------

/// A new activation has a higher generation than every earlier one of its
/// logical id, and an instance id that no earlier one has.
pub proof fn generations_grow(c: ContextsV, logical: Text, state: Fsm, cause: Option<Text>, i: int)
    requires
        c.wf(),
        c.records.len() < u64::MAX,
        0 <= i < c.records.len(),
    ensures
        c.create(logical, state, cause).wf(),
        c.records[i].logical == logical ==> c.records[i].generation < c.fresh(
            logical,
            state,
            cause,
        ).generation,
        c.records[i].instance != c.fresh(logical, state, cause).instance,
        c.create(logical, state, cause).records[i] == c.records[i],
        c.create(logical, state, cause).current_of(logical) == Some(
            c.fresh(logical, state, cause),
        ),
{
    create_keeps_wf(c, logical, state, cause);
    if c.generations.dom().contains(logical) {
        assert(c.current.dom().contains(logical));
    }
}

/// Once a new activation of its logical id exists, an older one is never
/// admissible again.
pub proof fn superseded_is_inadmissible(
    c: ContextsV,
    logical: Text,
    state: Fsm,
    cause: Option<Text>,
    inst: u64,
)
    requires
        c.wf(),
        c.records.len() < u64::MAX,
        c.has(inst),
        c.records[inst - 1].logical == logical,
    ensures
        c.create(logical, state, cause).admissible(inst) is Err,
{
    create_keeps_wf(c, logical, state, cause);
}

/// A claim succeeds at most once: right after it, every further claim finds
/// the dispose in flight and changes nothing.
pub proof fn claim_is_exclusive(c: ContextsV, inst: u64)
    requires
        c.claim(inst).1 matches Ok(DisposeClaimV::Fresh(_)),
    ensures
        c.claim(inst).0.claim(inst).1 matches Ok(DisposeClaimV::InFlight { .. }),
        c.claim(inst).0.claim(inst).0 == c.claim(inst).0,
        c.claim(inst).0.admissible(inst) is Err,
{
    let d = c.claim(inst).0;
    assert(d.records[inst - 1].state == Fsm::Quiescing);
}

/// An activation that a newer one replaced is never promoted.
pub proof fn superseded_is_not_promoted(
    c: ContextsV,
    logical: Text,
    state: Fsm,
    cause: Option<Text>,
    inst: u64,
)
    requires
        c.wf(),
        c.records.len() < u64::MAX,
        c.has(inst),
        c.records[inst - 1].logical == logical,
    ensures
        c.create(logical, state, cause).activate(inst) == (c.create(logical, state, cause), false),
{
    create_keeps_wf(c, logical, state, cause);
}

/// Neither a claim nor a promotion nor a new reason to wait leads out of
/// `Disposed` or `Failed`.
pub proof fn discarded_stays_discarded(c: ContextsV, inst: u64, cause: Text)
    requires
        c.get(inst) matches Some(r) && (r.state.canon() == Fsm::Disposed || r.state.canon()
            == Fsm::Failed),
    ensures
        c.claim(inst).0 == c,
        c.activate(inst) == (c, false),
        c.wait(inst, cause) == (c, false),
        c.admissible(inst) is Err,
{
}

} // verus!
