//! Capability registry: `ns.name@MAJOR` to its owner.
//!
//! Each registration carries instance and generation, so that stale
//! references are rejected and discarding an old generation never revokes the
//! new one. `provide` and `revoke_fiber` are adapters without identity; new
//! code uses `provide_instance`, `revoke_instance` and `resolve_ref`.

use vstd::prelude::*;
use crate::identity::{InstanceId, InstanceRef, InstanceRefV};
use crate::strmap;
use crate::strmap::{Keep, StrMap};
use crate::text;
use crate::text::Text;

verus! {

#[derive(Debug)]
struct Entry {
    logical: String,
    instance: u64,
    generation: u64,
    epoch: u64,
}

/// The owner of a capability; instance 0 is a registration without identity.
pub struct EntryV {
    pub logical: Text,
    pub instance: u64,
    pub generation: u64,
    pub epoch: u64,
}

impl DeepView for Entry {
    type V = EntryV;

    closed spec fn deep_view(&self) -> EntryV {
        EntryV {
            logical: self.logical@,
            instance: self.instance,
            generation: self.generation,
            epoch: self.epoch,
        }
    }
}

/// The registered capabilities.
pub type Caps = Map<Text, EntryV>;

impl EntryV {
    /// The reference that a resolved capability gives; it names no context.
    pub open spec fn reference(self) -> InstanceRefV {
        InstanceRefV {
            epoch: self.epoch,
            instance: self.instance,
            context: 0,
            logical: self.logical,
            generation: self.generation,
        }
    }
}

/// The registration that an activation makes.
pub open spec fn entry_of(r: InstanceRefV) -> EntryV {
    EntryV { logical: r.logical, instance: r.instance, generation: r.generation, epoch: r.epoch }
}

/// `caps` without `cap`, if `inst` or nobody in particular owns it.
pub open spec fn revoked(caps: Caps, cap: Text, inst: u64) -> Caps {
    if caps.dom().contains(cap) && (caps[cap].instance == inst || caps[cap].instance == 0) {
        caps.remove(cap)
    } else {
        caps
    }
}

struct NotInstance(u64);

impl Keep<Entry> for NotInstance {
    closed spec fn keeps(&self, v: EntryV) -> bool {
        v.instance != self.0
    }

    fn keep(&self, v: &Entry) -> (r: bool) {
        v.instance != self.0
    }
}

struct NotLogical<'a>(&'a str);

impl<'a> Keep<Entry> for NotLogical<'a> {
    closed spec fn keeps(&self, v: EntryV) -> bool {
        v.logical != self.0@
    }

    fn keep(&self, v: &Entry) -> (r: bool) {
        !text::same(&v.logical, self.0)
    }
}

pub struct Registry {
    inner: StrMap<Entry>,
}

impl View for Registry {
    type V = Caps;

    closed spec fn view(&self) -> Caps {
        self.inner@
    }
}

impl Registry {
    pub fn new() -> (r: Self)
        ensures
            r@ == Map::<Text, EntryV>::empty(),
    {
        Registry { inner: StrMap::new() }
    }

    /// Registers without instance identity.
    pub fn provide(&mut self, cap: &str, fiber: &str)
        ensures
            final(self)@ == old(self)@.insert(
                cap@,
                EntryV { logical: fiber@, instance: 0, generation: 0, epoch: 0 },
            ),
    {
        self.inner.insert(
            cap,
            Entry { logical: fiber.to_owned(), instance: 0, generation: 0, epoch: 0 },
        );
    }

    /// Registers with full identity.
    pub fn provide_instance(&mut self, cap: &str, r: &InstanceRef)
        ensures
            final(self)@ == old(self)@.insert(cap@, entry_of(r@)),
    {
        self.inner.insert(
            cap,
            Entry {
                logical: r.logical.clone(),
                instance: r.instance,
                generation: r.generation,
                epoch: r.epoch,
            },
        );
    }

    pub fn resolve(&self, cap: &str) -> (r: Option<String>)
        ensures
            match r {
                Some(l) => self@.dom().contains(cap@) && l@ == self@[cap@].logical,
                None => !self@.dom().contains(cap@),
            },
    {
        match self.inner.get(cap) {
            Some(e) => Some(e.logical.clone()),
            None => None,
        }
    }

    pub fn resolve_ref(&self, cap: &str) -> (r: Option<InstanceRef>)
        ensures
            match r {
                Some(x) => self@.dom().contains(cap@) && x@ == self@[cap@].reference(),
                None => !self@.dom().contains(cap@),
            },
    {
        match self.inner.get(cap) {
            Some(e) => Some(
                InstanceRef {
                    epoch: e.epoch,
                    instance: e.instance,
                    context: 0,
                    logical: e.logical.clone(),
                    generation: e.generation,
                },
            ),
            None => None,
        }
    }

    pub fn resolve_instance(&self, cap: &str) -> (r: Option<InstanceId>)
        ensures
            r == if self@.dom().contains(cap@) && self@[cap@].instance != 0 {
                Some(InstanceId(self@[cap@].instance))
            } else {
                None
            },
    {
        match self.inner.get(cap) {
            Some(e) => if e.instance == 0 {
                None
            } else {
                Some(InstanceId(e.instance))
            },
            None => None,
        }
    }

    /// Removes everything of a logical id, whatever its generation.
    pub fn revoke_fiber(&mut self, fiber: &str)
        ensures
            final(self)@ == strmap::kept(old(self)@, |e: EntryV| e.logical != fiber@),
    {
        let p = NotLogical(fiber);
        let _ = self.inner.retain(&p);
        assert((|e: EntryV| p.keeps(e)) =~= (|e: EntryV| e.logical != fiber@));
    }

    /// Removes the capabilities of one instance and tells how many there were.
    pub fn revoke_instance(&mut self, inst: InstanceId) -> (r: usize)
        ensures
            final(self)@ == strmap::kept(old(self)@, |e: EntryV| e.instance != inst.0),
            r == old(self)@.dom().len() - final(self)@.dom().len(),
    {
        let p = NotInstance(inst.0);
        assert((|e: EntryV| p.keeps(e)) =~= (|e: EntryV| e.instance != inst.0));
        self.inner.retain(&p)
    }

    /// Removes one capability if the instance still owns it, or if it was
    /// registered without identity. Discarding an old generation so never
    /// removes the new one.
    pub fn revoke_cap_if_owned(&mut self, cap: &str, inst: InstanceId) -> (r: bool)
        ensures
            final(self)@ == revoked(old(self)@, cap@, inst.0),
            r == (old(self)@.dom().contains(cap@) && (old(self)@[cap@].instance == inst.0
                || old(self)@[cap@].instance == 0)),
    {
        let owned = match self.inner.get(cap) {
            Some(e) => e.instance == inst.0 || e.instance == 0,
            None => false,
        };
        if owned {
            let _ = self.inner.remove(cap);
        }
        owned
    }

    pub fn len(&self) -> (r: usize)
        ensures
            r == self@.dom().len(),
    {
        self.inner.len()
    }

    /// Each capability with its owner's logical id.
    pub fn snapshot(&self) -> (r: StrMap<String>)
        ensures
            r@ == self@.map_values(|e: EntryV| e.logical),
    {
        let mut out: StrMap<String> = StrMap::new();
        let n = self.inner.len();
        let ghost ks = text::in_order(self@.dom());
        proof {
            text::in_order_sorted(self@.dom());
        }
        let mut i: usize = 0;
        while i < n
            invariant
                i <= n,
                n == ks.len(),
                ks == text::in_order(self@.dom()),
                ks.to_set() == self@.dom(),
                forall|k: Text| #[trigger]
                    out@.dom().contains(k) <==> ks.take(i as int).to_set().contains(k),
                forall|k: Text| #[trigger]
                    out@.dom().contains(k) ==> self@.dom().contains(k) && out@[k]
                        == self@[k].logical,
            decreases n - i,
        {
            proof {
                text::take_grows(ks, i as int);
            }
            out.insert(self.inner.key_at(i), self.inner.value_at(i).logical.clone());
            i += 1;
        }
        proof {
            assert(ks.take(ks.len() as int) =~= ks);
            assert(out@ =~= self@.map_values(|e: EntryV| e.logical));
        }
        out
    }

    /// Each capability with its owner's reference.
    pub fn snapshot_refs(&self) -> (r: StrMap<InstanceRef>)
        ensures
            r@ == self@.map_values(|e: EntryV| e.reference()),
    {
        let mut out: StrMap<InstanceRef> = StrMap::new();
        let n = self.inner.len();
        let ghost ks = text::in_order(self@.dom());
        proof {
            text::in_order_sorted(self@.dom());
        }
        let mut i: usize = 0;
        while i < n
            invariant
                i <= n,
                n == ks.len(),
                ks == text::in_order(self@.dom()),
                ks.to_set() == self@.dom(),
                forall|k: Text| #[trigger]
                    out@.dom().contains(k) <==> ks.take(i as int).to_set().contains(k),
                forall|k: Text| #[trigger]
                    out@.dom().contains(k) ==> self@.dom().contains(k) && out@[k]
                        == self@[k].reference(),
            decreases n - i,
        {
            proof {
                text::take_grows(ks, i as int);
            }
            let e = self.inner.value_at(i);
            out.insert(
                self.inner.key_at(i),
                InstanceRef {
                    epoch: e.epoch,
                    instance: e.instance,
                    context: 0,
                    logical: e.logical.clone(),
                    generation: e.generation,
                },
            );
            i += 1;
        }
        proof {
            assert(ks.take(ks.len() as int) =~= ks);
            assert(out@ =~= self@.map_values(|e: EntryV| e.reference()));
        }
        out
    }
}

/// Revoking what one instance owns leaves every capability of another
/// instance as it was.
pub proof fn revocation_spares_others(caps: Caps, cap: Text, inst: u64, other: Text)
    requires
        caps.dom().contains(other),
        caps[other].instance != inst,
        caps[other].instance != 0,
    ensures
        revoked(caps, cap, inst).dom().contains(other),
        revoked(caps, cap, inst)[other] == caps[other],
{
}

} // verus!
