//! Resource table with ownership and exactly-once cleanup.
//!
//! - Every resource has an owner: context, instance and generation.
//! - Ownership is recorded before the effect is published.
//! - Releasing is idempotent: a second attempt changes nothing but its count,
//!   and no attempt touches another instance's resource.
//!
//! Capabilities and subscriptions are published by the kernel. Timers and
//! tasks have a worker outside the table: whoever starts it hands in how the
//! start went, and stops it once the record is no longer active.
//! `FailAcquire` and `FailRelease` exercise partial failure and pending
//! cleanup.

use vstd::prelude::*;
use vstd::string::*;
use crate::identity::{ContextId, InstanceId, ResourceHandle};
use crate::num;
use crate::text;
use crate::text::Text;

verus! {

#[derive(Debug)]
pub enum ResourceKind {
    Cap { name: String },
    Sub { topic: String },
    Timer { label: String, interval_ms: u64 },
    Task { label: String },
    /// Deterministic acquisition failure.
    FailAcquire { label: String },
    /// Resource that refuses release.
    FailRelease { label: String },
}

pub enum ResourceKindV {
    Cap { name: Text },
    Sub { topic: Text },
    Timer { label: Text, interval_ms: u64 },
    Task { label: Text },
    FailAcquire { label: Text },
    FailRelease { label: Text },
}

impl View for ResourceKind {
    type V = ResourceKindV;

    open spec fn view(&self) -> ResourceKindV {
        match self {
            ResourceKind::Cap { name } => ResourceKindV::Cap { name: name@ },
            ResourceKind::Sub { topic } => ResourceKindV::Sub { topic: topic@ },
            ResourceKind::Timer { label, interval_ms } => ResourceKindV::Timer {
                label: label@,
                interval_ms: *interval_ms,
            },
            ResourceKind::Task { label } => ResourceKindV::Task { label: label@ },
            ResourceKind::FailAcquire { label } => ResourceKindV::FailAcquire { label: label@ },
            ResourceKind::FailRelease { label } => ResourceKindV::FailRelease { label: label@ },
        }
    }
}

impl DeepView for ResourceKind {
    type V = ResourceKindV;

    open spec fn deep_view(&self) -> ResourceKindV {
        self@
    }
}

impl ResourceKindV {
    pub open spec fn label(self) -> Text {
        match self {
            ResourceKindV::Cap { name } => name,
            ResourceKindV::Sub { topic } => topic,
            ResourceKindV::Timer { label, .. } => label,
            ResourceKindV::Task { label } => label,
            ResourceKindV::FailAcquire { label } => label,
            ResourceKindV::FailRelease { label } => label,
        }
    }

    pub open spec fn kind_name(self) -> Text {
        match self {
            ResourceKindV::Cap { .. } => "cap"@,
            ResourceKindV::Sub { .. } => "sub"@,
            ResourceKindV::Timer { .. } => "timer"@,
            ResourceKindV::Task { .. } => "task"@,
            ResourceKindV::FailAcquire { .. } => "fail-acquire"@,
            ResourceKindV::FailRelease { .. } => "fail-release"@,
        }
    }

    /// What is wrong with acquiring this, if anything is.
    pub open spec fn fault(self) -> Option<AcquireErrorV> {
        match self {
            ResourceKindV::FailAcquire { label } => Some(AcquireErrorV::FailInjected(label)),
            _ => if text::trimmed(self.label()).len() == 0 {
                Some(AcquireErrorV::InvalidName(self.label()))
            } else {
                match self {
                    ResourceKindV::Timer { interval_ms, .. } => if interval_ms == 0 || interval_ms
                        > 60_000 {
                        Some(
                            AcquireErrorV::InvalidName(
                                "interval_ms out of range: "@ + text::dec(interval_ms as nat),
                            ),
                        )
                    } else {
                        None
                    },
                    _ => None,
                }
            },
        }
    }

    /// What a worker that could not be started gives, for the kinds that
    /// have one.
    pub open spec fn start_fault(self, error: Option<Text>) -> Option<AcquireErrorV> {
        match (self, error) {
            (ResourceKindV::Timer { .. }, Some(e)) => Some(
                AcquireErrorV::FailInjected("timer spawn failed: "@ + e),
            ),
            (ResourceKindV::Task { .. }, Some(e)) => Some(
                AcquireErrorV::FailInjected("task spawn failed: "@ + e),
            ),
            _ => None,
        }
    }
}

impl ResourceKind {
    pub fn label(&self) -> (r: &str)
        ensures
            r@ == self@.label(),
    {
        match self {
            ResourceKind::Cap { name } => name,
            ResourceKind::Sub { topic } => topic,
            ResourceKind::Timer { label, .. } => label,
            ResourceKind::Task { label } => label,
            ResourceKind::FailAcquire { label } => label,
            ResourceKind::FailRelease { label } => label,
        }
    }

    pub fn kind_name(&self) -> (r: &'static str)
        ensures
            r@ == self@.kind_name(),
    {
        match self {
            ResourceKind::Cap { .. } => "cap",
            ResourceKind::Sub { .. } => "sub",
            ResourceKind::Timer { .. } => "timer",
            ResourceKind::Task { .. } => "task",
            ResourceKind::FailAcquire { .. } => "fail-acquire",
            ResourceKind::FailRelease { .. } => "fail-release",
        }
    }

    pub fn copy(&self) -> (r: ResourceKind)
        ensures
            r@ == self@,
    {
        match self {
            ResourceKind::Cap { name } => ResourceKind::Cap { name: name.clone() },
            ResourceKind::Sub { topic } => ResourceKind::Sub { topic: topic.clone() },
            ResourceKind::Timer { label, interval_ms } => ResourceKind::Timer {
                label: label.clone(),
                interval_ms: *interval_ms,
            },
            ResourceKind::Task { label } => ResourceKind::Task { label: label.clone() },
            ResourceKind::FailAcquire { label } => ResourceKind::FailAcquire {
                label: label.clone(),
            },
            ResourceKind::FailRelease { label } => ResourceKind::FailRelease {
                label: label.clone(),
            },
        }
    }
}

#[derive(Debug, Clone, Copy, PartialEq, Eq, Structural)]
pub enum ResourceState {
    Active,
    Released,
}

#[derive(Debug)]
pub struct ResourceRecord {
    pub handle: ResourceHandle,
    pub kind: ResourceKind,
    pub owner_context: ContextId,
    pub owner_instance: InstanceId,
    pub owner_logical: String,
    pub generation: u64,
    pub state: ResourceState,
    /// Global acquisition order.
    pub seq: u64,
}

pub struct ResourceV {
    pub handle: ResourceHandle,
    pub kind: ResourceKindV,
    pub owner_context: ContextId,
    pub owner_instance: InstanceId,
    pub owner_logical: Text,
    pub generation: u64,
    pub state: ResourceState,
    pub seq: u64,
}

impl View for ResourceRecord {
    type V = ResourceV;

    open spec fn view(&self) -> ResourceV {
        ResourceV {
            handle: self.handle,
            kind: self.kind@,
            owner_context: self.owner_context,
            owner_instance: self.owner_instance,
            owner_logical: self.owner_logical@,
            generation: self.generation,
            state: self.state,
            seq: self.seq,
        }
    }
}

impl DeepView for ResourceRecord {
    type V = ResourceV;

    open spec fn deep_view(&self) -> ResourceV {
        self@
    }
}

impl ResourceRecord {
    pub fn copy(&self) -> (r: ResourceRecord)
        ensures
            r@ == self@,
    {
        ResourceRecord {
            handle: self.handle,
            kind: self.kind.copy(),
            owner_context: self.owner_context,
            owner_instance: self.owner_instance,
            owner_logical: self.owner_logical.clone(),
            generation: self.generation,
            state: self.state,
            seq: self.seq,
        }
    }
}

#[derive(Debug)]
pub enum AcquireError {
    InvalidName(String),
    FailInjected(String),
}

pub enum AcquireErrorV {
    InvalidName(Text),
    FailInjected(Text),
}

impl View for AcquireError {
    type V = AcquireErrorV;

    open spec fn view(&self) -> AcquireErrorV {
        match self {
            AcquireError::InvalidName(s) => AcquireErrorV::InvalidName(s@),
            AcquireError::FailInjected(s) => AcquireErrorV::FailInjected(s@),
        }
    }
}

impl DeepView for AcquireError {
    type V = AcquireErrorV;

    open spec fn deep_view(&self) -> AcquireErrorV {
        self@
    }
}

impl AcquireErrorV {
    pub open spec fn message(self) -> Text {
        match self {
            AcquireErrorV::InvalidName(s) => "invalid resource name: "@ + s,
            AcquireErrorV::FailInjected(s) => "injected acquire failure: "@ + s,
        }
    }
}

impl AcquireError {
    pub fn message(&self) -> (r: String)
        ensures
            r@ == self@.message(),
    {
        match self {
            AcquireError::InvalidName(s) => text::join2("invalid resource name: ", s),
            AcquireError::FailInjected(s) => text::join2("injected acquire failure: ", s),
        }
    }
}

#[derive(Debug)]
pub enum ReleaseError {
    UnknownHandle(u64),
    AlreadyReleased(u64),
    CleanupFailed { handle: u64, reason: String },
}

pub enum ReleaseErrorV {
    UnknownHandle(u64),
    AlreadyReleased(u64),
    CleanupFailed { handle: u64, reason: Text },
}

impl View for ReleaseError {
    type V = ReleaseErrorV;

    open spec fn view(&self) -> ReleaseErrorV {
        match self {
            ReleaseError::UnknownHandle(h) => ReleaseErrorV::UnknownHandle(*h),
            ReleaseError::AlreadyReleased(h) => ReleaseErrorV::AlreadyReleased(*h),
            ReleaseError::CleanupFailed { handle, reason } => ReleaseErrorV::CleanupFailed {
                handle: *handle,
                reason: reason@,
            },
        }
    }
}

impl ReleaseErrorV {
    pub open spec fn message(self) -> Text {
        match self {
            ReleaseErrorV::UnknownHandle(h) => "unknown resource handle res-"@ + text::dec(
                h as nat,
            ),
            ReleaseErrorV::AlreadyReleased(h) => "resource res-"@ + text::dec(h as nat)
                + " already released"@,
            ReleaseErrorV::CleanupFailed { handle, reason } => "cleanup failed for res-"@
                + text::dec(handle as nat) + ": "@ + reason,
        }
    }
}

impl ReleaseError {
    pub fn message(&self) -> (r: String)
        ensures
            r@ == self@.message(),
    {
        match self {
            ReleaseError::UnknownHandle(h) => text::numbered("unknown resource handle res-", *h),
            ReleaseError::AlreadyReleased(h) => {
                let mut r = text::numbered("resource res-", *h);
                r.append(" already released");
                r
            },
            ReleaseError::CleanupFailed { handle, reason } => {
                let mut r = text::numbered("cleanup failed for res-", *handle);
                r.append(": ");
                r.append(reason);
                r
            },
        }
    }
}

/// What `begin_release` hands over for completion.
#[derive(Debug)]
pub struct ReleaseClaim {
    pub handle: ResourceHandle,
    pub kind: ResourceKind,
    pub owner_context: ContextId,
}

pub struct ReleaseClaimV {
    pub handle: ResourceHandle,
    pub kind: ResourceKindV,
    pub owner_context: ContextId,
}

impl View for ReleaseClaim {
    type V = ReleaseClaimV;

    open spec fn view(&self) -> ReleaseClaimV {
        ReleaseClaimV {
            handle: self.handle,
            kind: self.kind@,
            owner_context: self.owner_context,
        }
    }
}

/// Every resource there ever was, and the release counts.
#[verifier::ext_equal]
pub struct ResourcesV {
    /// The resource with handle `i + 1` is at position `i`; a place whose
    /// registration was undone stays empty.
    pub slots: Seq<Option<ResourceV>>,
    pub total_releases: u64,
    pub double_release_attempts: u64,
}

/// How many of the resources are released.
pub open spec fn released_count(slots: Seq<Option<ResourceV>>) -> nat
    decreases slots.len(),
{
    if slots.len() == 0 {
        0
    } else {
        released_count(slots.drop_last()) + (if is_released(slots.last()) {
            1nat
        } else {
            0nat
        })
    }
}

pub open spec fn is_released(s: Option<ResourceV>) -> bool {
    s matches Some(r) && r.state == ResourceState::Released
}

pub open spec fn is_active(s: Option<ResourceV>) -> bool {
    s matches Some(r) && r.state == ResourceState::Active
}

/// How many resources of `slots` are active, of one owner or of all.
pub open spec fn active_in(slots: Seq<Option<ResourceV>>, owner: Option<ContextId>) -> nat
    decreases slots.len(),
{
    if slots.len() == 0 {
        0
    } else {
        active_in(slots.drop_last(), owner) + (if is_active(slots.last()) && (owner is None
            || owner == Some(slots.last()->0.owner_context)) {
            1nat
        } else {
            0nat
        })
    }
}

/// The handles of one owner in acquisition order.
pub open spec fn handles_in(slots: Seq<Option<ResourceV>>, owner: ContextId) -> Seq<ResourceHandle>
    decreases slots.len(),
{
    if slots.len() == 0 {
        Seq::empty()
    } else {
        let rest = handles_in(slots.drop_last(), owner);
        match slots.last() {
            Some(r) if r.owner_context == owner => rest.push(
                ResourceHandle(slots.len() as u64),
            ),
            _ => rest,
        }
    }
}

impl ResourcesV {
    pub open spec fn wf(self) -> bool {
        &&& forall|i: int|
            0 <= i < self.slots.len() ==> ((#[trigger] self.slots[i]) matches Some(r)
                ==> r.handle.0 == i + 1 && r.seq == i + 1)
        &&& self.total_releases == released_count(self.slots)
    }

    pub open spec fn get(self, h: ResourceHandle) -> Option<ResourceV> {
        if 1 <= h.0 <= self.slots.len() {
            self.slots[h.0 - 1]
        } else {
            None
        }
    }

    pub open spec fn next_handle(self) -> ResourceHandle {
        ResourceHandle((self.slots.len() + 1) as u64)
    }

    /// The record that registering adds.
    pub open spec fn fresh(
        self,
        ctx: ContextId,
        inst: InstanceId,
        logical: Text,
        generation: u64,
        kind: ResourceKindV,
    ) -> ResourceV {
        ResourceV {
            handle: self.next_handle(),
            kind,
            owner_context: ctx,
            owner_instance: inst,
            owner_logical: logical,
            generation,
            state: ResourceState::Active,
            seq: self.next_handle().0,
        }
    }

    /// Registering a resource whose worker, if its kind has one, started
    /// (`start` is none) or did not.
    pub open spec fn register(
        self,
        ctx: ContextId,
        inst: InstanceId,
        logical: Text,
        generation: u64,
        kind: ResourceKindV,
        start: Option<Text>,
    ) -> (ResourcesV, Result<ResourceHandle, AcquireErrorV>) {
        match kind.fault() {
            Some(e) => (self, Err(e)),
            None => match kind.start_fault(start) {
                Some(e) => (ResourcesV { slots: self.slots.push(None), ..self }, Err(e)),
                None => (
                    ResourcesV {
                        slots: self.slots.push(
                            Some(self.fresh(ctx, inst, logical, generation, kind)),
                        ),
                        ..self
                    },
                    Ok(self.next_handle()),
                ),
            },
        }
    }

    /// Claiming the release of a resource.
    pub open spec fn release(self, h: ResourceHandle) -> (
        ResourcesV,
        Result<ReleaseClaimV, ReleaseErrorV>,
    ) {
        match self.get(h) {
            None => (self, Err(ReleaseErrorV::UnknownHandle(h.0))),
            Some(r) => if r.state == ResourceState::Released {
                (
                    ResourcesV {
                        double_release_attempts: num::next(self.double_release_attempts),
                        ..self
                    },
                    Err(ReleaseErrorV::AlreadyReleased(h.0)),
                )
            } else if r.kind is FailRelease {
                (
                    self,
                    Err(
                        ReleaseErrorV::CleanupFailed {
                            handle: h.0,
                            reason: "resource '"@ + r.kind.label() + "' refused release"@,
                        },
                    ),
                )
            } else {
                (
                    ResourcesV {
                        slots: self.slots.update(
                            h.0 - 1,
                            Some(ResourceV { state: ResourceState::Released, ..r }),
                        ),
                        total_releases: (self.total_releases + 1) as u64,
                        ..self
                    },
                    Ok(
                        ReleaseClaimV {
                            handle: h,
                            kind: r.kind,
                            owner_context: r.owner_context,
                        },
                    ),
                )
            },
        }
    }

    /// Undoing a registration that is still active.
    pub open spec fn rollback(self, h: ResourceHandle) -> ResourcesV {
        if is_active(self.get(h)) {
            ResourcesV { slots: self.slots.update(h.0 - 1, None), ..self }
        } else {
            self
        }
    }

    /// Using a handle in the name of an activation.
    pub open spec fn validate(self, h: ResourceHandle, inst: InstanceId, generation: u64) -> Result<
        ResourceV,
        ReleaseErrorV,
    > {
        match self.get(h) {
            None => Err(ReleaseErrorV::UnknownHandle(h.0)),
            Some(r) => if r.state != ResourceState::Active {
                Err(ReleaseErrorV::AlreadyReleased(h.0))
            } else if r.owner_instance != inst || r.generation != generation {
                Err(
                    ReleaseErrorV::CleanupFailed {
                        handle: h.0,
                        reason: "stale handle: owned by inst-"@ + text::dec(
                            r.owner_instance.0 as nat,
                        ) + "#"@ + text::dec(r.generation as nat),
                    },
                )
            } else {
                Ok(r)
            },
        }
    }
}

pub struct ResourceTable {
    slots: Vec<Option<ResourceRecord>>,
    total_releases: u64,
    double_release_attempts: u64,
}

impl View for ResourceTable {
    type V = ResourcesV;

    closed spec fn view(&self) -> ResourcesV {
        ResourcesV {
            slots: self.slots.deep_view(),
            total_releases: self.total_releases,
            double_release_attempts: self.double_release_attempts,
        }
    }
}

proof fn released_count_push(s: Seq<Option<ResourceV>>, x: Option<ResourceV>)
    ensures
        released_count(s.push(x)) == released_count(s) + (if is_released(x) {
            1nat
        } else {
            0nat
        }),
{
    assert(s.push(x).drop_last() =~= s);
}

proof fn released_count_update(s: Seq<Option<ResourceV>>, i: int, x: Option<ResourceV>)
    requires
        0 <= i < s.len(),
        !is_released(s[i]),
    ensures
        released_count(s.update(i, x)) == released_count(s) + (if is_released(x) {
            1nat
        } else {
            0nat
        }),
        released_count(s) < s.len(),
    decreases s.len(),
{
    let t = s.update(i, x);
    if i == s.len() - 1 {
        assert(t.drop_last() =~= s.drop_last());
        released_count_bound(s.drop_last());
    } else {
        assert(t.drop_last() =~= s.drop_last().update(i, x));
        released_count_update(s.drop_last(), i, x);
    }
}

proof fn released_count_bound(s: Seq<Option<ResourceV>>)
    ensures
        released_count(s) <= s.len(),
    decreases s.len(),
{
    if s.len() > 0 {
        released_count_bound(s.drop_last());
    }
}

impl ResourceTable {
    #[verifier::type_invariant]
    closed spec fn inv(self) -> bool {
        self@.wf()
    }

    pub fn new() -> (r: Self)
        ensures
            r@ == (ResourcesV {
                slots: Seq::empty(),
                total_releases: 0,
                double_release_attempts: 0,
            }),
            r@.wf(),
    {
        let slots: Vec<Option<ResourceRecord>> = Vec::new();
        assert(slots.deep_view() =~= Seq::<Option<ResourceV>>::empty());
        ResourceTable { slots, total_releases: 0, double_release_attempts: 0 }
    }

    /// What is wrong with acquiring this, if anything is.
    pub fn validate_kind(kind: &ResourceKind) -> (r: Result<(), AcquireError>)
        ensures
            match r {
                Ok(_) => kind@.fault() is None,
                Err(e) => kind@.fault() == Some(e@),
            },
    {
        if let ResourceKind::FailAcquire { label } = kind {
            return Err(AcquireError::FailInjected(label.clone()));
        }
        if text::blank(kind.label()) {
            return Err(AcquireError::InvalidName(kind.label().to_owned()));
        }
        if let ResourceKind::Timer { interval_ms, .. } = kind {
            if *interval_ms == 0 || *interval_ms > 60_000 {
                return Err(
                    AcquireError::InvalidName(
                        text::numbered("interval_ms out of range: ", *interval_ms),
                    ),
                );
            }
        }
        Ok(())
    }

    /// The handle that the next registration gets.
    pub fn next_handle(&self) -> (r: Option<ResourceHandle>)
        ensures
            match r {
                Some(h) => h == self@.next_handle() && self@.slots.len() < u64::MAX,
                None => self@.slots.len() >= u64::MAX,
            },
    {
        if (self.slots.len() as u64) < u64::MAX {
            Some(ResourceHandle(self.slots.len() as u64 + 1))
        } else {
            None
        }
    }

    /// Records ownership before the effect is published. A timer or task
    /// whose worker did not start (`start` holds the error) leaves no record.
    pub fn register(
        &mut self,
        owner_context: ContextId,
        owner_instance: InstanceId,
        owner_logical: &str,
        generation: u64,
        kind: ResourceKind,
        start: Option<String>,
    ) -> (r: Result<ResourceHandle, AcquireError>)
        ensures
            ({
                let s = old(self)@.register(
                    owner_context,
                    owner_instance,
                    owner_logical@,
                    generation,
                    kind@,
                    start.deep_view(),
                );
                &&& final(self)@ == s.0
                &&& match r {
                    Ok(h) => s.1 == Ok::<ResourceHandle, AcquireErrorV>(h),
                    Err(e) => s.1 == Err::<ResourceHandle, AcquireErrorV>(e@),
                }
            }),
    {
        proof {
            use_type_invariant(&*self);
        }
        if let Err(e) = Self::validate_kind(&kind) {
            return Err(e);
        }
        let ghost before = self@;
        let ghost fault = kind@.start_fault(start.deep_view());
        let failed: Option<AcquireError> = match start {
            Some(e) => match &kind {
                ResourceKind::Timer { .. } => Some(
                    AcquireError::FailInjected(text::join2("timer spawn failed: ", &e)),
                ),
                ResourceKind::Task { .. } => Some(
                    AcquireError::FailInjected(text::join2("task spawn failed: ", &e)),
                ),
                _ => None,
            },
            None => None,
        };
        let mut taken = ResourceTable::new();
        std::mem::swap(self, &mut taken);
        let ResourceTable { mut slots, total_releases, double_release_attempts } = taken;
        let ghost old_slots = before.slots;
        slots.push(None);
        proof {
            assert(slots.deep_view() =~= old_slots.push(None));
            released_count_push(old_slots, None);
        }
        if let Some(e) = failed {
            *self = ResourceTable { slots, total_releases, double_release_attempts };
            return Err(e);
        }
        let at: usize = slots.len() - 1;
        let h = ResourceHandle(slots.len() as u64);
        let rec = ResourceRecord {
            handle: h,
            kind,
            owner_context,
            owner_instance,
            owner_logical: owner_logical.to_owned(),
            generation,
            state: ResourceState::Active,
            seq: h.0,
        };
        let ghost rv = rec@;
        slots[at] = Some(rec);
        proof {
            assert(slots.deep_view() =~= old_slots.push(Some(rv)));
            released_count_push(old_slots, Some(rv));
        }
        *self = ResourceTable { slots, total_releases, double_release_attempts };
        Ok(h)
    }

    fn at(&self, handle: ResourceHandle) -> (r: Option<&ResourceRecord>)
        ensures
            match r {
                Some(x) => self@.get(handle) == Some(x@) && 1 <= handle.0 <= usize::MAX,
                None => self@.get(handle) is None,
            },
    {
        if handle.0 >= 1 && handle.0 <= self.slots.len() as u64 {
            let ghost s = self.slots.deep_view();
            let i: usize = (handle.0 - 1) as usize;
            assert(s[i as int] == self.slots[i as int].deep_view());
            match &self.slots[i] {
                Some(x) => Some(x),
                None => None,
            }
        } else {
            None
        }
    }

    fn put(&mut self, i: usize, x: Option<ResourceRecord>, releases: u64)
        requires
            i < old(self)@.slots.len(),
            is_active(old(self)@.slots[i as int]),
            x matches Some(r) ==> r.handle.0 == i + 1 && r.seq == i + 1,
            releases == old(self)@.total_releases + (if is_released(x.deep_view()) {
                1int
            } else {
                0int
            }),
        ensures
            final(self)@ == (ResourcesV {
                slots: old(self)@.slots.update(i as int, x.deep_view()),
                total_releases: releases,
                ..old(self)@
            }),
    {
        proof {
            use_type_invariant(&*self);
            released_count_update(self@.slots, i as int, x.deep_view());
        }
        let ghost before = self@;
        let mut taken = ResourceTable::new();
        std::mem::swap(self, &mut taken);
        let ResourceTable { mut slots, total_releases: _, double_release_attempts } = taken;
        let ghost xv = x.deep_view();
        slots[i] = x;
        proof {
            assert(slots.deep_view() =~= before.slots.update(i as int, xv));
        }
        *self = ResourceTable { slots, total_releases: releases, double_release_attempts };
    }

    /// Claims the release: marks the resource released and hands over what
    /// is left to undo. A second claim is an error without effect, apart from
    /// its count. A resource that refuses release stays active.
    pub fn begin_release(&mut self, handle: ResourceHandle) -> (r: Result<
        ReleaseClaim,
        ReleaseError,
    >)
        ensures
            final(self)@ == old(self)@.release(handle).0,
            match r {
                Ok(c) => old(self)@.release(handle).1 == Ok::<ReleaseClaimV, ReleaseErrorV>(c@),
                Err(e) => old(self)@.release(handle).1 == Err::<ReleaseClaimV, ReleaseErrorV>(e@),
            },
    {
        let rec = match self.at(handle) {
            Some(x) => x.copy(),
            None => return Err(ReleaseError::UnknownHandle(handle.0)),
        };
        proof {
            use_type_invariant(&*self);
        }
        if rec.state == ResourceState::Released {
            let mut taken = ResourceTable::new();
            std::mem::swap(self, &mut taken);
            let ResourceTable { slots, total_releases, double_release_attempts } = taken;
            *self =
            ResourceTable {
                slots,
                total_releases,
                double_release_attempts: num::bump(double_release_attempts),
            };
            return Err(ReleaseError::AlreadyReleased(handle.0));
        }
        if let ResourceKind::FailRelease { label } = &rec.kind {
            let mut reason = text::join2("resource '", label);
            reason.append("' refused release");
            return Err(ReleaseError::CleanupFailed { handle: handle.0, reason });
        }
        let claim = ReleaseClaim { handle, kind: rec.kind.copy(), owner_context: rec.owner_context };
        let mut rec = rec;
        rec.state = ResourceState::Released;
        let i: usize = (handle.0 - 1) as usize;
        proof {
            assert(!is_released(self@.slots[i as int]));
            assert(self@.slots.len() == self.slots.len());
            released_count_update(self@.slots, i as int, None);
        }
        let n: u64 = self.total_releases + 1;
        self.put(i, Some(rec), n);
        Ok(claim)
    }

    /// Undoes a registration that has not been released.
    pub fn rollback_register(&mut self, handle: ResourceHandle)
        ensures
            final(self)@ == old(self)@.rollback(handle),
    {
        let active = match self.at(handle) {
            Some(x) => x.state == ResourceState::Active,
            None => false,
        };
        if active {
            let n: u64 = self.total_releases;
            self.put((handle.0 - 1) as usize, None, n);
        }
    }

    /// One owner's handles in acquisition order.
    pub fn handles_for(&self, owner: ContextId) -> (r: Vec<ResourceHandle>)
        ensures
            r@ == handles_in(self@.slots, owner),
    {
        let ghost s = self@.slots;
        let mut out: Vec<ResourceHandle> = Vec::new();
        let mut i: usize = 0;
        proof {
            assert(s.take(0) =~= Seq::<Option<ResourceV>>::empty());
        }
        while i < self.slots.len()
            invariant
                i <= self.slots.len(),
                s == self.slots.deep_view(),
                out@ == handles_in(s.take(i as int), owner),
            decreases self.slots.len() - i,
        {
            proof {
                assert(s.take(i + 1).drop_last() =~= s.take(i as int));
                assert(s.take(i + 1).last() == self.slots[i as int].deep_view());
            }
            if let Some(r) = &self.slots[i] {
                if r.owner_context == owner {
                    out.push(ResourceHandle(i as u64 + 1));
                }
            }
            i += 1;
        }
        proof {
            assert(s.take(s.len() as int) =~= s);
        }
        out
    }

    pub fn record(&self, handle: ResourceHandle) -> (r: Option<ResourceRecord>)
        ensures
            r.deep_view() == self@.get(handle),
    {
        match self.at(handle) {
            Some(x) => Some(x.copy()),
            None => None,
        }
    }

    /// The resource, if the handle is active and belongs to the expected
    /// activation. Reusing a logical id never revalidates an old handle.
    pub fn validate(
        &self,
        handle: ResourceHandle,
        expect_instance: InstanceId,
        expect_generation: u64,
    ) -> (r: Result<ResourceRecord, ReleaseError>)
        ensures
            match r {
                Ok(x) => self@.validate(handle, expect_instance, expect_generation) == Ok::<
                    ResourceV,
                    ReleaseErrorV,
                >(x@),
                Err(e) => self@.validate(handle, expect_instance, expect_generation) == Err::<
                    ResourceV,
                    ReleaseErrorV,
                >(e@),
            },
    {
        match self.at(handle) {
            None => Err(ReleaseError::UnknownHandle(handle.0)),
            Some(rec) => {
                if rec.state != ResourceState::Active {
                    return Err(ReleaseError::AlreadyReleased(handle.0));
                }
                if rec.owner_instance != expect_instance || rec.generation != expect_generation {
                    let mut reason = text::numbered(
                        "stale handle: owned by inst-",
                        rec.owner_instance.0,
                    );
                    reason.append("#");
                    reason.append(&text::dec_text(rec.generation));
                    return Err(ReleaseError::CleanupFailed { handle: handle.0, reason });
                }
                Ok(rec.copy())
            },
        }
    }

    fn count_active(&self, owner: Option<ContextId>) -> (r: usize)
        ensures
            r == active_in(self@.slots, owner),
    {
        let ghost s = self@.slots;
        let mut n: usize = 0;
        let mut i: usize = 0;
        proof {
            assert(s.take(0) =~= Seq::<Option<ResourceV>>::empty());
        }
        while i < self.slots.len()
            invariant
                i <= self.slots.len(),
                s == self.slots.deep_view(),
                n <= i,
                n == active_in(s.take(i as int), owner),
            decreases self.slots.len() - i,
        {
            proof {
                assert(s.take(i + 1).drop_last() =~= s.take(i as int));
                assert(s.take(i + 1).last() == self.slots[i as int].deep_view());
            }
            if let Some(r) = &self.slots[i] {
                let mine = match owner {
                    None => true,
                    Some(c) => r.owner_context == c,
                };
                if mine && r.state == ResourceState::Active {
                    n += 1;
                }
            }
            i += 1;
        }
        proof {
            assert(s.take(s.len() as int) =~= s);
        }
        n
    }

    pub fn active_count(&self) -> (r: usize)
        ensures
            r == active_in(self@.slots, None),
    {
        self.count_active(None)
    }

    pub fn active_for(&self, owner: ContextId) -> (r: usize)
        ensures
            r == active_in(self@.slots, Some(owner)),
    {
        self.count_active(Some(owner))
    }

    pub fn total_releases(&self) -> (r: u64)
        ensures
            r == self@.total_releases,
            r == released_count(self@.slots),
    {
        proof {
            use_type_invariant(self);
        }
        self.total_releases
    }

    pub fn double_release_attempts(&self) -> (r: u64)
        ensures
            r == self@.double_release_attempts,
    {
        self.double_release_attempts
    }

    /// Whether the resource is registered and not released.
    pub fn is_live(&self, handle: ResourceHandle) -> (r: bool)
        ensures
            r == is_active(self@.get(handle)),
    {
        match self.at(handle) {
            Some(x) => x.state == ResourceState::Active,
            None => false,
        }
    }

    /// Every record, by owner and acquisition order.
    pub fn inventory(&self) -> (r: Vec<ResourceRecord>)
        ensures
            r.deep_view() == by_owner(self@.slots),
    {
        let ghost s = self@.slots;
        let mut out: Vec<ResourceRecord> = Vec::new();
        let mut i: usize = 0;
        proof {
            assert(s.take(0) =~= Seq::<Option<ResourceV>>::empty());
            assert(out.deep_view() =~= Seq::<ResourceV>::empty());
        }
        while i < self.slots.len()
            invariant
                i <= self.slots.len(),
                s == self.slots.deep_view(),
                out.deep_view() == by_owner(s.take(i as int)),
            decreases self.slots.len() - i,
        {
            proof {
                assert(s.take(i + 1).drop_last() =~= s.take(i as int));
                assert(s.take(i + 1).last() == self.slots[i as int].deep_view());
            }
            if let Some(x) = &self.slots[i] {
                let rec = x.copy();
                let ghost v = out.deep_view();
                let mut k: usize = out.len();
                while k > 0 && out[k - 1].owner_context.0 > rec.owner_context.0
                    invariant
                        k <= out.len(),
                        v == out.deep_view(),
                        forall|j: int|
                            k <= j < v.len() ==> (#[trigger] v[j]).owner_context.0
                                > rec.owner_context.0,
                    decreases k,
                {
                    assert(v[k - 1] == out[k - 1]@);
                    k -= 1;
                }
                proof {
                    if k > 0 {
                        assert(v[k - 1] == out[k - 1]@);
                    }
                    owner_insert_at(v, rec@, k as int);
                }
                out.insert(k, rec);
                proof {
                    assert(out.deep_view() =~= v.insert(k as int, rec@));
                }
            }
            i += 1;
        }
        proof {
            assert(s.take(s.len() as int) =~= s);
        }
        out
    }
}

/// `r` placed before the trailing records of later contexts.
pub open spec fn owner_insert(v: Seq<ResourceV>, r: ResourceV) -> Seq<ResourceV>
    decreases v.len(),
{
    if v.len() == 0 || v.last().owner_context.0 <= r.owner_context.0 {
        v.push(r)
    } else {
        owner_insert(v.drop_last(), r).push(v.last())
    }
}

/// The records sorted by owner, in acquisition order within one.
pub open spec fn by_owner(slots: Seq<Option<ResourceV>>) -> Seq<ResourceV>
    decreases slots.len(),
{
    if slots.len() == 0 {
        Seq::empty()
    } else {
        match slots.last() {
            Some(r) => owner_insert(by_owner(slots.drop_last()), r),
            None => by_owner(slots.drop_last()),
        }
    }
}

proof fn owner_insert_at(v: Seq<ResourceV>, r: ResourceV, k: int)
    requires
        0 <= k <= v.len(),
        forall|j: int| k <= j < v.len() ==> (#[trigger] v[j]).owner_context.0 > r.owner_context.0,
        k > 0 ==> v[k - 1].owner_context.0 <= r.owner_context.0,
    ensures
        owner_insert(v, r) == v.insert(k, r),
    decreases v.len(),
{
    if k == v.len() {
        assert(v.push(r) =~= v.insert(k, r));
    } else {
        assert(v[v.len() - 1].owner_context.0 > r.owner_context.0);
        owner_insert_at(v.drop_last(), r, k);
        assert(v.drop_last().insert(k, r).push(v.last()) =~= v.insert(k, r));
    }
}

// ---- laws -------------------------------------------------------------

/// A resource is released at most once: after a successful claim every
/// further one fails, counts as a double attempt, and changes nothing else.
pub proof fn released_once(t: ResourcesV, h: ResourceHandle)
    requires
        t.release(h).1 is Ok,
    ensures
        ({
            let u = t.release(h).0;
            &&& u.release(h).1 == Err::<ReleaseClaimV, ReleaseErrorV>(
                ReleaseErrorV::AlreadyReleased(h.0),
            )
            &&& u.release(h).0.slots == u.slots
            &&& u.release(h).0.total_releases == u.total_releases
            &&& u.rollback(h) == u
        }),
{
}

/// Releasing or undoing one handle leaves every other resource as it was.
pub proof fn release_spares_others(t: ResourcesV, h: ResourceHandle, other: ResourceHandle)
    requires
        other != h,
    ensures
        t.release(h).0.get(other) == t.get(other),
        t.rollback(h).get(other) == t.get(other),
{
}

/// A failed registration leaves no resource, and a handle is never given out
/// twice.
pub proof fn failed_registration_leaves_nothing(
    t: ResourcesV,
    ctx: ContextId,
    inst: InstanceId,
    logical: Text,
    generation: u64,
    kind: ResourceKindV,
    start: Option<Text>,
    h: ResourceHandle,
)
    requires
        t.slots.len() < u64::MAX,
    ensures
        ({
            let (u, r) = t.register(ctx, inst, logical, generation, kind, start);
            &&& r is Err ==> u.get(h) == t.get(h)
            &&& r matches Ok(g) ==> t.get(g) is None && u.get(g) == Some(
                t.fresh(ctx, inst, logical, generation, kind),
            )
            &&& r matches Ok(g) ==> (h != g ==> u.get(h) == t.get(h))
        }),
{
}

/// A handle of an older activation is never valid for a newer one.
pub proof fn stale_handle_never_validates(
    t: ResourcesV,
    h: ResourceHandle,
    inst: InstanceId,
    generation: u64,
)
    requires
        t.get(h) matches Some(r) ==> r.owner_instance != inst || r.generation != generation,
    ensures
        t.validate(h, inst, generation) is Err,
{
}

} // verus!
