//! Leases that the kernel holds for an instance: descriptors, child
//! processes, timers, subscriptions and capabilities.

use vstd::prelude::*;

verus! {

#[derive(Debug, Clone, Copy, PartialEq, Eq, Structural)]
pub enum LeaseKind {
    Fd,
    Child,
    Timer,
    Sub,
    Cap,
}

#[derive(Debug)]
pub struct Lease {
    pub kind: LeaseKind,
    pub label: String,
}

impl Lease {
    pub fn new(kind: LeaseKind, label: &str) -> (r: Self)
        ensures
            r.kind == kind,
            r.label@ == label@,
    {
        Lease { kind, label: label.to_owned() }
    }

    pub fn copy(&self) -> (r: Self)
        ensures
            r == *self,
    {
        Lease { kind: self.kind, label: self.label.clone() }
    }
}

} // verus!
