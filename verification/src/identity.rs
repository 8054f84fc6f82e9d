//! Identities issued by the kernel.
//!
//! The full reference of an activation holds the kernel epoch, the instance
//! id and the generation. Reusing a logical id never revalidates an old
//! reference.
//!
//! - `KernelEpoch`: kernel epoch, fresh on each boot.
//! - `InstanceId`: one concrete activation, never reused within a kernel.
//! - `ContextId`: scope of authority and ownership, one per instance.
//! - `ResourceHandle`: opaque resource handle, never reused.
//! - `InstanceRef`: full reference, verifiable where an effect is applied.

use vstd::prelude::*;
use vstd::string::*;
use crate::text;
use crate::text::Text;

verus! {

#[derive(Debug, Clone, Copy, PartialEq, Eq, Hash, PartialOrd, Ord, Structural)]
pub struct KernelEpoch(pub u64);

#[derive(Debug, Clone, Copy, PartialEq, Eq, Hash, PartialOrd, Ord, Structural)]
pub struct InstanceId(pub u64);

#[derive(Debug, Clone, Copy, PartialEq, Eq, Hash, PartialOrd, Ord, Structural)]
pub struct ContextId(pub u64);

#[derive(Debug, Clone, Copy, PartialEq, Eq, Hash, PartialOrd, Ord, Structural)]
pub struct ResourceHandle(pub u64);

impl KernelEpoch {
    pub fn to_text(&self) -> (r: String)
        ensures
            r@ == "e"@ + text::dec(self.0 as nat),
    {
        text::numbered("e", self.0)
    }
}

impl InstanceId {
    pub fn to_text(&self) -> (r: String)
        ensures
            r@ == "inst-"@ + text::dec(self.0 as nat),
    {
        text::numbered("inst-", self.0)
    }
}

impl ContextId {
    pub fn to_text(&self) -> (r: String)
        ensures
            r@ == "ctx-"@ + text::dec(self.0 as nat),
    {
        text::numbered("ctx-", self.0)
    }
}

impl ResourceHandle {
    pub open spec fn text_of(self) -> Text {
        "res-"@ + text::dec(self.0 as nat)
    }

    pub fn to_text(&self) -> (r: String)
        ensures
            r@ == self.text_of(),
    {
        text::numbered("res-", self.0)
    }
}

/// Full reference of an activation: what must hold where an effect is
/// controlled. A stale generation is rejected even if the logical id was
/// reused.
#[derive(Debug, PartialEq, Eq, Hash)]
pub struct InstanceRef {
    pub epoch: u64,
    pub instance: u64,
    pub context: u64,
    pub logical: String,
    pub generation: u64,
}

pub struct InstanceRefV {
    pub epoch: u64,
    pub instance: u64,
    pub context: u64,
    pub logical: Text,
    pub generation: u64,
}

impl View for InstanceRef {
    type V = InstanceRefV;

    open spec fn view(&self) -> InstanceRefV {
        InstanceRefV {
            epoch: self.epoch,
            instance: self.instance,
            context: self.context,
            logical: self.logical@,
            generation: self.generation,
        }
    }
}

impl DeepView for InstanceRef {
    type V = InstanceRefV;

    open spec fn deep_view(&self) -> InstanceRefV {
        self@
    }
}

impl InstanceRefV {
    /// Whether both references name the same activation.
    pub open spec fn same_as(self, other: InstanceRefV) -> bool {
        self.epoch == other.epoch && self.instance == other.instance && self.generation
            == other.generation
    }
}

impl InstanceRef {
    pub fn new(epoch: u64, instance: u64, context: u64, logical: &str, generation: u64) -> (r: Self)
        ensures
            r@ == (InstanceRefV { epoch, instance, context, logical: logical@, generation }),
    {
        InstanceRef { epoch, instance, context, logical: logical.to_owned(), generation }
    }

    pub fn copy(&self) -> (r: InstanceRef)
        ensures
            r@ == self@,
    {
        InstanceRef {
            epoch: self.epoch,
            instance: self.instance,
            context: self.context,
            logical: self.logical.clone(),
            generation: self.generation,
        }
    }

    /// Stable key for logs and diagnostics.
    pub fn describe(&self) -> (r: String)
        ensures
            r@ == "e"@ + text::dec(self.epoch as nat) + ":"@ + self.logical@ + ":"@ + text::dec(
                self.instance as nat,
            ) + ":"@ + text::dec(self.context as nat) + "#"@ + text::dec(self.generation as nat),
    {
        let mut r = text::numbered("e", self.epoch);
        r.append(":");
        r.append(&self.logical);
        r.append(":");
        r.append(&text::dec_text(self.instance));
        r.append(":");
        r.append(&text::dec_text(self.context));
        r.append("#");
        r.append(&text::dec_text(self.generation));
        r
    }

    pub fn same_activation(&self, other: &InstanceRef) -> (r: bool)
        ensures
            r == self@.same_as(other@),
    {
        self.epoch == other.epoch && self.instance == other.instance && self.generation
            == other.generation
    }
}

/// References to different generations of one logical id never name the same
/// activation.
pub proof fn stale_reference_never_revalidates(a: InstanceRefV, b: InstanceRefV)
    requires
        a.generation != b.generation,
    ensures
        !a.same_as(b),
        !b.same_as(a),
{
}

} // verus!
