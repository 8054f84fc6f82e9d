//! Lifecycle states.
//!
//! Normal flow: Registered, then Waiting or Preparing, then Active, Quiescing,
//! CleanupPending, Disposed. A failed preparation cleans up before Failed.
//! Uncertainty pins CleanupPending, never a false Disposed.
//!
//! `Pending`, `Loading` and `Unloading` are aliases kept for external
//! adapters; new code uses the normative states.

use vstd::prelude::*;
use crate::text::Text;

verus! {

#[derive(Debug, Clone, Copy, PartialEq, Eq, Hash, Structural)]
pub enum Fsm {
    Registered,
    Waiting,
    Preparing,
    Active,
    Quiescing,
    CleanupPending,
    Disposed,
    Failed,
    /// Alias of `Registered`.
    Pending,
    /// Alias of `Preparing`.
    Loading,
    /// Alias of `Quiescing`.
    Unloading,
}

impl Fsm {
    /// The state's name.
    pub open spec fn name(self) -> Text {
        match self {
            Fsm::Registered => "Registered"@,
            Fsm::Waiting => "Waiting"@,
            Fsm::Preparing => "Preparing"@,
            Fsm::Active => "Active"@,
            Fsm::Quiescing => "Quiescing"@,
            Fsm::CleanupPending => "CleanupPending"@,
            Fsm::Disposed => "Disposed"@,
            Fsm::Failed => "Failed"@,
            Fsm::Pending => "Pending"@,
            Fsm::Loading => "Loading"@,
            Fsm::Unloading => "Unloading"@,
        }
    }

    /// The normative state that an alias stands for.
    pub open spec fn canon(self) -> Fsm {
        match self {
            Fsm::Pending => Fsm::Registered,
            Fsm::Loading => Fsm::Preparing,
            Fsm::Unloading => Fsm::Quiescing,
            s => s,
        }
    }

    /// Before activation.
    pub open spec fn is_waiting_like(self) -> bool {
        self.canon() == Fsm::Waiting || self.canon() == Fsm::Preparing || self.canon()
            == Fsm::Registered
    }

    pub fn as_str(&self) -> (r: &'static str)
        ensures
            r@ == self.name(),
    {
        match self {
            Fsm::Registered => "Registered",
            Fsm::Waiting => "Waiting",
            Fsm::Preparing => "Preparing",
            Fsm::Active => "Active",
            Fsm::Quiescing => "Quiescing",
            Fsm::CleanupPending => "CleanupPending",
            Fsm::Disposed => "Disposed",
            Fsm::Failed => "Failed",
            Fsm::Pending => "Pending",
            Fsm::Loading => "Loading",
            Fsm::Unloading => "Unloading",
        }
    }

    /// States that admit new calls. Only `Active` admits.
    pub fn admits_calls(&self) -> (r: bool)
        ensures
            r == (*self == Fsm::Active),
    {
        matches!(self, Fsm::Active)
    }

    /// Normalizes an alias to the corresponding normative state.
    pub fn canonical(&self) -> (r: Fsm)
        ensures
            r == self.canon(),
    {
        match self {
            Fsm::Pending => Fsm::Registered,
            Fsm::Loading => Fsm::Preparing,
            Fsm::Unloading => Fsm::Quiescing,
            s => *s,
        }
    }

    /// Disposed, failed, or parked with cleanup pending.
    pub fn is_terminal_like(&self) -> (r: bool)
        ensures
            r == (self.canon() == Fsm::Disposed || self.canon() == Fsm::Failed || self.canon()
                == Fsm::CleanupPending),
    {
        matches!(self.canonical(), Fsm::Disposed | Fsm::Failed | Fsm::CleanupPending)
    }

    /// Whether the state is one before activation.
    pub fn waiting_like(&self) -> (r: bool)
        ensures
            r == self.is_waiting_like(),
    {
        matches!(self.canonical(), Fsm::Waiting | Fsm::Preparing | Fsm::Registered)
    }
}

/// Normalizing twice is normalizing once, and an alias never admits calls
/// that its normative state would not.
pub proof fn canonical_is_idempotent(s: Fsm)
    ensures
        s.canon().canon() == s.canon(),
        s.canon() == Fsm::Active <==> s == Fsm::Active,
{
}

} // verus!
