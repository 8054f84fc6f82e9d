//! Reconciliation: what has to be withdrawn, consumers before providers, and
//! what can be activated, providers before consumers.

use vstd::prelude::*;
use vstd::string::*;
use crate::context::{ContextRecord, ContextV};
use crate::deps::{ResolveError, ResolveErrorV};
use crate::fsm::Fsm;
use crate::graph;
use crate::json;
use crate::json::{Json, JsonV};
use crate::kernel::resolve;
use crate::kernel::resolve::Definitions;
use crate::kernel::{Kernel, KernelV};
use crate::manifest::{ManifestV, StoredManifest};
use crate::strmap::StrMap;
use crate::text;
use crate::text::Text;
use crate::time::Instant;

verus! {

/// One instance to be withdrawn to waiting, and why.
pub struct Item {
    pub logical: String,
    pub def: StoredManifest,
    pub reason: String,
}

pub struct ItemV {
    pub logical: Text,
    pub def: ManifestV,
    pub reason: Text,
}

impl View for Item {
    type V = ItemV;

    open spec fn view(&self) -> ItemV {
        ItemV { logical: self.logical@, def: self.def@, reason: self.reason@ }
    }
}

impl DeepView for Item {
    type V = ItemV;

    open spec fn deep_view(&self) -> ItemV {
        self@
    }
}

impl Item {
    pub fn copy(&self) -> (r: Item)
        ensures
            r@ == self@,
    {
        Item {
            logical: self.logical.clone(),
            def: self.def.copy(),
            reason: self.reason.clone(),
        }
    }
}

/// What one round of reconciliation begins with.
pub enum Plan {
    /// Nothing is defined.
    Stop,
    /// Registrations without a definition for another host.
    Drop(Vec<String>),
    /// Instances to withdraw; the members of a cycle where there is one.
    Withdraw { cycle: bool, items: Vec<Item> },
}

pub enum PlanV {
    Stop,
    Drop(Seq<Text>),
    Withdraw { cycle: bool, items: Seq<ItemV> },
}

impl View for Plan {
    type V = PlanV;

    open spec fn view(&self) -> PlanV {
        match self {
            Plan::Stop => PlanV::Stop,
            Plan::Drop(ls) => PlanV::Drop(ls.deep_view()),
            Plan::Withdraw { cycle, items } => PlanV::Withdraw {
                cycle: *cycle,
                items: items.deep_view(),
            },
        }
    }
}

/// The withdrawals that a cycle asks for, among `names`.
pub open spec fn cycle_items(defs: Definitions, path: Seq<Text>, names: Seq<Text>) -> Seq<ItemV>
    decreases names.len(),
{
    if names.len() == 0 {
        Seq::empty()
    } else {
        let rest = cycle_items(defs, path, names.drop_last());
        let l = names.last();
        if defs.dom().contains(l) {
            rest.push(
                ItemV {
                    logical: l,
                    def: defs[l],
                    reason: (ResolveErrorV::Cycle { path }).reason(),
                },
            )
        } else {
            rest
        }
    }
}

impl KernelV {
    /// Whether a registration lacks a definition for another host.
    pub open spec fn is_orphan(self, logical: Text) -> bool {
        !(self.definition(logical) matches Some(d) && d.remote)
    }

    /// The orphaned registrations among `ks`.
    pub open spec fn orphans(self, ks: Seq<Text>) -> Seq<Text>
        decreases ks.len(),
    {
        if ks.len() == 0 {
            Seq::empty()
        } else {
            let rest = self.orphans(ks.drop_last());
            if self.is_orphan(ks.last()) {
                rest.push(ks.last())
            } else {
                rest
            }
        }
    }

    /// Registrations dropped, with the bindings to them.
    pub open spec fn drop_remotes(self, ls: Seq<Text>) -> KernelV
        decreases ls.len(),
    {
        if ls.len() == 0 {
            self
        } else {
            self.drop_remotes(ls.drop_last()).drop_remote(ls.last(), Some("definition-gone"@))
        }
    }

    /// A registration dropped, with the bindings to it.
    pub open spec fn drop_remote(self, logical: Text, reason: Option<Text>) -> KernelV {
        KernelV { remotes: self.remotes.remove(logical), ..self }.prune_provider(logical).log(
            logical,
            "remote.unregistered"@,
            match reason {
                Some(r) => JsonV::object().with("reason"@, json::jstr(r)),
                None => JsonV::object(),
            },
        )
    }

    /// The order of activation: providers first.
    pub open spec fn activation_order(self) -> Seq<Text> {
        match graph::order_of(resolve::edges(self.definitions)) {
            Some(o) if o.len() > 0 => o,
            _ => text::in_order(self.definitions.dom()),
        }
    }

    /// Why an active instance has to be withdrawn, if it has to.
    pub open spec fn withdrawal(self, logical: Text, states: Map<Text, ContextV>) -> Option<Text> {
        if !self.definitions.dom().contains(logical) || !states.dom().contains(logical)
            || states[logical].state.canon() != Fsm::Active {
            None
        } else {
            match resolve::resolved(logical, self.definitions, states) {
                Err(e) => Some(e.reason()),
                Ok(_) => if self.bindings_stale(logical, states) {
                    Some("stale-binding: provider replaced; rebinding"@)
                } else {
                    None
                },
            }
        }
    }

    /// The withdrawals among `order`, from its end.
    pub open spec fn withdrawals(self, order: Seq<Text>, states: Map<Text, ContextV>) -> Seq<ItemV>
        decreases order.len(),
    {
        if order.len() == 0 {
            Seq::empty()
        } else {
            let rest = self.withdrawals(order.drop_last(), states);
            let l = order.last();
            match self.withdrawal(l, states) {
                Some(reason) => seq![
                    ItemV { logical: l, def: self.definitions[l], reason },
                ] + rest,
                None => rest,
            }
        }
    }

    /// What a round of reconciliation begins with.
    pub open spec fn plan(self) -> PlanV {
        let orphaned = self.orphans(text::in_order(self.remotes.dom()));
        if self.definitions.dom().len() == 0 {
            PlanV::Stop
        } else if orphaned.len() > 0 {
            PlanV::Drop(orphaned)
        } else {
            match graph::first_cycle(resolve::edges(self.definitions)) {
                Some(path) => PlanV::Withdraw {
                    cycle: true,
                    items: cycle_items(
                        self.definitions,
                        path,
                        text::in_order(path.to_set()),
                    ),
                },
                None => PlanV::Withdraw {
                    cycle: false,
                    items: self.withdrawals(self.activation_order(), self.states()),
                },
            }
        }
    }

    /// Activates one definition where the states at the start of the pass
    /// allow it; tells whether something changed.
    pub open spec fn activate_one(self, logical: Text, states: Map<Text, ContextV>, now: Instant) -> (
        KernelV,
        bool,
    ) {
        let state = if states.dom().contains(logical) {
            Some(states[logical].state)
        } else {
            None
        };
        match self.definition(logical) {
            None => (self, false),
            Some(def) => if def.remote || (state matches Some(s) && (s.canon() == Fsm::Active
                || s.canon() == Fsm::Failed || s.canon() == Fsm::CleanupPending || s.canon()
                == Fsm::Quiescing)) {
                (self, false)
            } else {
                match resolve::resolved(logical, self.definitions, states) {
                    Ok(bs) => if state matches Some(s) && s.is_waiting_like() {
                        self.promote(logical, def)
                    } else {
                        self.create_active(def, bs, self.preserved(logical, def), now)
                    },
                    Err(e) => self.ensure_waiting(logical, def, e.reason()),
                }
            },
        }
    }

    /// Activates in order, up to the first change.
    pub open spec fn activate_in(
        self,
        order: Seq<Text>,
        states: Map<Text, ContextV>,
        now: Instant,
    ) -> (KernelV, bool)
        decreases order.len(),
    {
        if order.len() == 0 {
            (self, false)
        } else {
            let (k, changed) = self.activate_in(order.drop_last(), states, now);
            if changed {
                (k, true)
            } else {
                k.activate_one(order.last(), states, now)
            }
        }
    }

    /// The activation pass: providers before consumers, one change.
    pub open spec fn activate(self, now: Instant) -> (KernelV, bool) {
        self.activate_in(self.activation_order(), self.states(), now)
    }
}

proof fn activate_in_stays(
    k: KernelV,
    order: Seq<Text>,
    states: Map<Text, ContextV>,
    now: Instant,
    i: int,
)
    requires
        0 <= i <= order.len(),
        k.activate_in(order.take(i), states, now).1,
    ensures
        k.activate_in(order, states, now) == k.activate_in(order.take(i), states, now),
    decreases order.len() - i,
{
    if i < order.len() {
        assert(order.take(i + 1).drop_last() =~= order.take(i));
        activate_in_stays(k, order, states, now, i + 1);
    } else {
        assert(order.take(i) =~= order);
    }
}

/// The members of a path, each once, ascending.
fn members(path: &Vec<String>) -> (r: Vec<String>)
    ensures
        r.deep_view() == text::in_order(path.deep_view().to_set()),
{
    let ghost p = path.deep_view();
    let mut m: StrMap<bool> = StrMap::new();
    let mut i: usize = 0;
    proof {
        assert(m@.dom() =~= p.take(0).to_set());
    }
    while i < path.len()
        invariant
            i <= path.len(),
            p == path.deep_view(),
            m@.dom() == p.take(i as int).to_set(),
        decreases path.len() - i,
    {
        let ghost before = m@.dom();
        m.insert(&path[i], true);
        proof {
            let a = p.take(i as int);
            let b = p.take(i + 1);
            assert(b =~= a.push(path[i as int]@));
            assert forall|x: Text| b.to_set().contains(x) <==> before.insert(
                path[i as int]@,
            ).contains(x) by {
                if b.contains(x) {
                    let j = choose|j: int| 0 <= j < b.len() && b[j] == x;
                    if j < a.len() {
                        assert(a[j] == x);
                        assert(a.contains(x));
                    }
                }
                if a.contains(x) {
                    let j = choose|j: int| 0 <= j < a.len() && a[j] == x;
                    assert(b[j] == x);
                }
                assert(b[a.len() as int] == path[i as int]@);
            }
            assert(m@.dom() =~= b.to_set());
        }
        i += 1;
    }
    proof {
        assert(p.take(p.len() as int) =~= p);
    }
    m.keys()
}

impl Kernel {
    /// Drops a registration and the bindings to it.
    pub(crate) fn drop_remote(&mut self, logical: &str, reason: Option<&str>)
        ensures
            final(self)@ == old(self)@.drop_remote(
                logical@,
                match reason {
                    Some(s) => Some(s@),
                    None => None,
                },
            ),
    {
        let _ = self.remote_providers.remove(logical);
        self.prune_provider(logical);
        let args = match reason {
            Some(s) => Json::object().with("reason", Json::str(s)),
            None => Json::object(),
        };
        self.log(logical, "remote.unregistered", args);
    }

    pub(crate) fn drop_remotes(&mut self, ls: &Vec<String>)
        ensures
            final(self)@ == old(self)@.drop_remotes(ls.deep_view()),
    {
        let ghost s = ls.deep_view();
        let ghost k0 = self@;
        let mut i: usize = 0;
        proof {
            assert(s.take(0) =~= Seq::<Text>::empty());
        }
        while i < ls.len()
            invariant
                i <= ls.len(),
                s == ls.deep_view(),
                self@ == k0.drop_remotes(s.take(i as int)),
            decreases ls.len() - i,
        {
            proof {
                assert(s.take(i + 1).drop_last() =~= s.take(i as int));
                assert(s.take(i + 1).last() == ls[i as int]@);
            }
            self.drop_remote(&ls[i], Some("definition-gone"));
            i += 1;
        }
        proof {
            assert(s.take(s.len() as int) =~= s);
        }
    }

    fn orphans(&self) -> (r: Vec<String>)
        ensures
            r.deep_view() == self@.orphans(text::in_order(self@.remotes.dom())),
    {
        let ghost k = self@;
        let ghost ks = text::in_order(self@.remotes.dom());
        let keys = self.remote_providers.keys();
        let mut out: Vec<String> = Vec::new();
        let mut i: usize = 0;
        proof {
            assert(ks.take(0) =~= Seq::<Text>::empty());
            assert(out.deep_view() =~= Seq::<Text>::empty());
        }
        while i < keys.len()
            invariant
                i <= keys.len(),
                k == self@,
                ks == keys.deep_view(),
                out.deep_view() == k.orphans(ks.take(i as int)),
            decreases keys.len() - i,
        {
            proof {
                assert(ks.take(i + 1).drop_last() =~= ks.take(i as int));
                assert(ks.take(i + 1).last() == keys[i as int]@);
            }
            let live = match self.definitions.get(&keys[i]) {
                Some(d) => d.remote,
                None => false,
            };
            if !live {
                let ghost before = out.deep_view();
                out.push(keys[i].clone());
                assert(out.deep_view() =~= before.push(keys[i as int]@));
            }
            i += 1;
        }
        proof {
            assert(ks.take(ks.len() as int) =~= ks);
        }
        out
    }

    /// The order of activation: providers first.
    fn activation_order(&self) -> (r: Vec<String>)
        ensures
            r.deep_view() == self@.activation_order(),
    {
        let edges = resolve::definition_edges(&self.definitions);
        match graph::topo_order(&edges) {
            Some(o) => {
                if o.len() > 0 {
                    return o;
                }
            },
            None => {},
        }
        self.definitions.keys()
    }

    fn cycle_items(&self, path: &Vec<String>) -> (r: Vec<Item>)
        ensures
            r.deep_view() == cycle_items(
                self@.definitions,
                path.deep_view(),
                text::in_order(path.deep_view().to_set()),
            ),
    {
        let names = members(path);
        let ghost ns = names.deep_view();
        let ghost defs = self@.definitions;
        let mut out: Vec<Item> = Vec::new();
        let mut i: usize = 0;
        proof {
            assert(ns.take(0) =~= Seq::<Text>::empty());
            assert(out.deep_view() =~= Seq::<ItemV>::empty());
        }
        while i < names.len()
            invariant
                i <= names.len(),
                ns == names.deep_view(),
                defs == self@.definitions,
                out.deep_view() == cycle_items(defs, path.deep_view(), ns.take(i as int)),
            decreases names.len() - i,
        {
            proof {
                assert(ns.take(i + 1).drop_last() =~= ns.take(i as int));
                assert(ns.take(i + 1).last() == names[i as int]@);
            }
            if let Some(d) = self.definitions.get(&names[i]) {
                let e = ResolveError::Cycle { path: text::copy_texts(path) };
                let item = Item {
                    logical: names[i].clone(),
                    def: d.copy(),
                    reason: e.reason(),
                };
                let ghost before = out.deep_view();
                let ghost v = item@;
                out.push(item);
                assert(out.deep_view() =~= before.push(v));
            }
            i += 1;
        }
        proof {
            assert(ns.take(ns.len() as int) =~= ns);
        }
        out
    }

    fn withdrawal(&self, logical: &str, states: &StrMap<ContextRecord>) -> (r: Option<String>)
        ensures
            r.deep_view() == self@.withdrawal(logical@, states@),
    {
        if !self.definitions.contains(logical) {
            return None;
        }
        match states.get(logical) {
            None => return None,
            Some(st) => if st.state.canonical() != Fsm::Active {
                return None;
            },
        }
        match resolve::resolve_for(logical, &self.definitions, states) {
            Err(e) => Some(e.reason()),
            Ok(_) => if self.bindings_stale(logical, states) {
                Some("stale-binding: provider replaced; rebinding".to_owned())
            } else {
                None
            },
        }
    }

    fn withdrawals(&self, order: &Vec<String>, states: &StrMap<ContextRecord>) -> (r: Vec<Item>)
        ensures
            r.deep_view() == self@.withdrawals(order.deep_view(), states@),
    {
        let ghost o = order.deep_view();
        let mut out: Vec<Item> = Vec::new();
        let mut j: usize = order.len();
        proof {
            assert(o.take(o.len() as int) =~= o);
            assert(out.deep_view() =~= Seq::<ItemV>::empty());
            assert(out.deep_view() + self@.withdrawals(o, states@) =~= self@.withdrawals(
                o,
                states@,
            ));
        }
        while j > 0
            invariant
                j <= order.len(),
                o == order.deep_view(),
                out.deep_view() + self@.withdrawals(o.take(j as int), states@)
                    == self@.withdrawals(o, states@),
            decreases j,
        {
            proof {
                assert(o.take(j as int).drop_last() =~= o.take(j - 1));
                assert(o.take(j as int).last() == order[j - 1]@);
            }
            j -= 1;
            let ghost before = out.deep_view();
            let ghost rest = self@.withdrawals(o.take(j as int), states@);
            if let Some(reason) = self.withdrawal(&order[j], states) {
                if let Some(d) = self.definitions.get(&order[j]) {
                    let item = Item { logical: order[j].clone(), def: d.copy(), reason };
                    let ghost v = item@;
                    out.push(item);
                    proof {
                        assert(out.deep_view() =~= before.push(v));
                        assert(before.push(v) + rest =~= before + (seq![v] + rest));
                    }
                }
            }
        }
        proof {
            assert(o.take(0) =~= Seq::<Text>::empty());
            assert(out.deep_view() + Seq::<ItemV>::empty() =~= out.deep_view());
        }
        out
    }

    /// What a round of reconciliation begins with.
    pub(crate) fn plan(&self) -> (r: Plan)
        ensures
            r@ == self@.plan(),
    {
        if self.definitions.len() == 0 {
            return Plan::Stop;
        }
        let orphaned = self.orphans();
        if orphaned.len() > 0 {
            return Plan::Drop(orphaned);
        }
        let edges = resolve::definition_edges(&self.definitions);
        if let Some(path) = graph::find_cycle(&edges) {
            return Plan::Withdraw { cycle: true, items: self.cycle_items(&path) };
        }
        let order = self.activation_order();
        let states = self.current_all_merged();
        Plan::Withdraw { cycle: false, items: self.withdrawals(&order, &states) }
    }

    fn activate_one(&mut self, logical: &str, states: &StrMap<ContextRecord>, now: Instant) -> (r:
        bool)
        ensures
            final(self)@ == old(self)@.activate_one(logical@, states@, now).0,
            r == old(self)@.activate_one(logical@, states@, now).1,
    {
        let def = match self.definitions.get(logical) {
            Some(d) => d.copy(),
            None => return false,
        };
        if def.remote {
            return false;
        }
        let mut waiting = false;
        if let Some(st) = states.get(logical) {
            match st.state.canonical() {
                Fsm::Active | Fsm::Failed | Fsm::CleanupPending | Fsm::Quiescing => return false,
                _ => {},
            }
            waiting = st.state.waiting_like();
        }
        match resolve::resolve_for(logical, &self.definitions, states) {
            Ok(bs) => if waiting {
                self.promote_waiting(logical, &def)
            } else {
                let json_state = self.preserved_json_state(logical, &def);
                self.create_active(&def, &bs, json_state, now)
            },
            Err(e) => {
                let reason = e.reason();
                self.ensure_waiting(logical, &def, &reason)
            },
        }
    }

    /// The activation pass: providers before consumers, up to one change.
    pub(crate) fn activate_pass(&mut self, now: Instant) -> (r: bool)
        ensures
            final(self)@ == old(self)@.activate(now).0,
            r == old(self)@.activate(now).1,
    {
        let order = self.activation_order();
        let states = self.current_all_merged();
        let ghost o = order.deep_view();
        let ghost k0 = self@;
        let ghost ss = states@;
        let mut i: usize = 0;
        proof {
            assert(o.take(0) =~= Seq::<Text>::empty());
        }
        while i < order.len()
            invariant
                i <= order.len(),
                o == order.deep_view(),
                ss == states@,
                k0 == old(self)@,
                o == k0.activation_order(),
                ss == k0.states(),
                self@ == k0.activate_in(o.take(i as int), ss, now).0,
                !k0.activate_in(o.take(i as int), ss, now).1,
            decreases order.len() - i,
        {
            proof {
                assert(o.take(i + 1).drop_last() =~= o.take(i as int));
                assert(o.take(i + 1).last() == order[i as int]@);
            }
            if self.activate_one(&order[i], &states, now) {
                proof {
                    activate_in_stays(k0, o, ss, now, i + 1);
                }
                return true;
            }
            i += 1;
        }
        proof {
            assert(o.take(o.len() as int) =~= o);
        }
        false
    }
}

} // verus!
