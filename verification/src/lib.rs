//! Composition kernel: contexts, ownership, dependencies, authorization and
//! lifecycle as one verified state machine.

use vstd::prelude::*;

pub mod bus;
pub mod calls;
pub mod component;
pub mod confinement;
pub mod context;
pub mod conversation;
pub mod declarations;
pub mod deps;
pub mod external;
pub mod flights;
pub mod fsm;
pub mod graph;
pub mod guard;
pub mod identity;
pub mod journal;
pub mod json;
pub mod kernel;
pub mod leases;
pub mod manifest;
pub mod num;
pub mod registry;
pub mod resources;
pub mod standing;
pub mod strmap;
pub mod text;
pub mod time;

pub use calls::{
    CallPolicy, CallsTable, CommittedEffect, DepChild, TicketId, TicketRecord, TicketState,
    WithdrawPolicy, MAX_EFFECTS, MAX_INFLIGHT_CALLS,
};
pub use context::{ContextRecord, ContextTable, DisposeClaim};
pub use deps::{Binding, Requirement, ResolveError};
pub use external::{
    expand_args, ExecutionKind, ForwardError, ForwardOutcome, ForwardRequest, LifecycleEvent,
    LifecycleHook,
};
pub use fsm::Fsm;
pub use identity::{ContextId, InstanceId, InstanceRef, ResourceHandle};
pub use journal::Journal;
pub use json::Json;
pub use kernel::dispatch::{Answer, Invocation};
pub use kernel::jobs::{Job, Progress};
pub use kernel::reload::{Reload, ReloadStep};
pub use kernel::{
    DepAdmit, DepBinding, DepDeny, DisposeOutcome, Kernel, MAX_EXTERNAL_RESOURCES_PER_CONTEXT,
};
pub use manifest::{OutboundLimits, OutboundPolicy, StoredManifest};
pub use resources::{ResourceKind, ResourceState};
pub use time::Instant;

verus! {

} // verus!
