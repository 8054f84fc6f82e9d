//! Admission tickets, drain and cancel, and the ledger of effects.
//!
//! - A ticket binds a call to an instance, generation, context and epoch.
//! - A withdraw revokes admission; each ticket's policy says whether its call
//!   may drain within a budget or is cancelled at once.
//! - Only an admitted ticket commits, and it commits once.
//! - Finite bounds: `MAX_INFLIGHT_CALLS` tickets are admitted, and the ledger
//!   keeps the last `MAX_EFFECTS` effects.

use vstd::prelude::*;
use vstd::string::*;
use crate::identity::{ContextId, InstanceId, ResourceHandle};
use crate::json::{Json, JsonV};
use crate::num;
use crate::num::NumMap;
use crate::text;
use crate::text::Text;
use crate::time::Instant;

verus! {

/// Maximum in-flight calls per kernel.
pub const MAX_INFLIGHT_CALLS: usize = 256;

/// Size of the in-memory ring of confirmed effects.
pub const MAX_EFFECTS: usize = 1024;

#[derive(Debug, Clone, Copy, PartialEq, Eq, Structural)]
pub enum WithdrawPolicy {
    Drain,
    Cancel,
}

impl WithdrawPolicy {
    pub open spec fn name(self) -> Text {
        match self {
            WithdrawPolicy::Drain => "drain"@,
            WithdrawPolicy::Cancel => "cancel"@,
        }
    }

    /// The policy that `s` names, whatever the case and surrounding space.
    pub open spec fn named(s: Text) -> Option<WithdrawPolicy> {
        let t = text::lowered(text::trimmed(s));
        if t == "drain"@ {
            Some(WithdrawPolicy::Drain)
        } else if t == "cancel"@ {
            Some(WithdrawPolicy::Cancel)
        } else {
            None
        }
    }

    pub fn as_str(&self) -> (r: &'static str)
        ensures
            r@ == self.name(),
    {
        match self {
            WithdrawPolicy::Drain => "drain",
            WithdrawPolicy::Cancel => "cancel",
        }
    }

    pub fn parse(s: &str) -> (r: Option<Self>)
        ensures
            r == WithdrawPolicy::named(s@),
    {
        let t = text::trim(s);
        if text::lower_is(&t, "drain") {
            Some(WithdrawPolicy::Drain)
        } else if text::lower_is(&t, "cancel") {
            Some(WithdrawPolicy::Cancel)
        } else {
            None
        }
    }
}

/// What a withdraw does to a call of one operation.
#[derive(Debug, Clone, Copy, PartialEq, Eq, Structural)]
pub struct CallPolicy {
    pub on_withdraw: WithdrawPolicy,
    pub drain_ms: u64,
}

impl DeepView for CallPolicy {
    type V = CallPolicy;

    open spec fn deep_view(&self) -> CallPolicy {
        *self
    }
}

/// The policy of an operation that declares none.
pub open spec fn cancel_policy() -> CallPolicy {
    CallPolicy { on_withdraw: WithdrawPolicy::Cancel, drain_ms: 0 }
}

impl Default for CallPolicy {
    fn default() -> (r: Self)
        ensures
            r == cancel_policy(),
    {
        CallPolicy { on_withdraw: WithdrawPolicy::Cancel, drain_ms: 0 }
    }
}

impl CallPolicy {
    pub fn cancel() -> (r: Self)
        ensures
            r == cancel_policy(),
    {
        CallPolicy { on_withdraw: WithdrawPolicy::Cancel, drain_ms: 0 }
    }

    pub fn drain(drain_ms: u64) -> (r: Self)
        ensures
            r == (CallPolicy { on_withdraw: WithdrawPolicy::Drain, drain_ms }),
    {
        CallPolicy { on_withdraw: WithdrawPolicy::Drain, drain_ms }
    }
}

#[derive(Debug, Clone, Copy, PartialEq, Eq, Hash, PartialOrd, Ord, Structural)]
pub struct TicketId(pub u64);

impl TicketId {
    pub open spec fn text_of(self) -> Text {
        "tkt-"@ + text::dec(self.0 as nat)
    }

    pub fn to_text(&self) -> (r: String)
        ensures
            r@ == self.text_of(),
    {
        text::numbered("tkt-", self.0)
    }
}

#[derive(Debug, Clone, Copy, PartialEq, Eq, Structural)]
pub enum TicketState {
    Admitted,
    Committed,
    Cancelled,
    Expired,
}

impl TicketState {
    pub open spec fn name(self) -> Text {
        match self {
            TicketState::Admitted => "Admitted"@,
            TicketState::Committed => "Committed"@,
            TicketState::Cancelled => "Cancelled"@,
            TicketState::Expired => "Expired"@,
        }
    }

    pub fn as_str(&self) -> (r: &'static str)
        ensures
            r@ == self.name(),
    {
        match self {
            TicketState::Admitted => "Admitted",
            TicketState::Committed => "Committed",
            TicketState::Cancelled => "Cancelled",
            TicketState::Expired => "Expired",
        }
    }
}

/// Link from a dependency call to its parent.
///
/// The child's authority derives from an admitted parent whose executor is
/// the caller, a current binding, the operator grant at the captured
/// revision, and a deadline. Revoking any link cancels the child, without
/// assuming that its execution ended: a late commit stays rejected.
#[derive(Debug)]
pub struct DepChild {
    pub parent: TicketId,
    pub binding: String,
    pub consumer: InstanceId,
    pub session: String,
    pub grant_consumer: String,
    pub grant_cap: String,
    pub grant_rev: u64,
    pub depth: u32,
    /// Executor peer of a remote leg; `None` for a local child.
    pub remote_peer: Option<String>,
}

pub struct DepChildV {
    pub parent: TicketId,
    pub binding: Text,
    pub consumer: InstanceId,
    pub session: Text,
    pub grant_consumer: Text,
    pub grant_cap: Text,
    pub grant_rev: u64,
    pub depth: u32,
    pub remote_peer: Option<Text>,
}

impl View for DepChild {
    type V = DepChildV;

    open spec fn view(&self) -> DepChildV {
        DepChildV {
            parent: self.parent,
            binding: self.binding@,
            consumer: self.consumer,
            session: self.session@,
            grant_consumer: self.grant_consumer@,
            grant_cap: self.grant_cap@,
            grant_rev: self.grant_rev,
            depth: self.depth,
            remote_peer: self.remote_peer.deep_view(),
        }
    }
}

impl DeepView for DepChild {
    type V = DepChildV;

    open spec fn deep_view(&self) -> DepChildV {
        self@
    }
}

impl DepChild {
    pub fn copy(&self) -> (r: DepChild)
        ensures
            r@ == self@,
    {
        DepChild {
            parent: self.parent,
            binding: self.binding.clone(),
            consumer: self.consumer,
            session: self.session.clone(),
            grant_consumer: self.grant_consumer.clone(),
            grant_cap: self.grant_cap.clone(),
            grant_rev: self.grant_rev,
            depth: self.depth,
            remote_peer: text::copy_opt(&self.remote_peer),
        }
    }
}

#[derive(Debug)]
pub struct TicketRecord {
    pub id: TicketId,
    pub cap: String,
    pub logical: String,
    pub instance: InstanceId,
    pub generation: u64,
    pub context: ContextId,
    pub epoch: u64,
    pub policy: CallPolicy,
    pub state: TicketState,
    /// Cooperative cancellation signal for the worker.
    pub cancel: bool,
    /// Handles declared as used by the call.
    pub pins: Vec<ResourceHandle>,
    pub opened_at: Instant,
    /// Deadline fixed at revocation, or of a dependency call.
    pub drain_until: Option<Instant>,
    pub cancel_reason: Option<String>,
    /// Dependency link; `None` for a root call.
    pub dep: Option<DepChild>,
}

pub struct TicketV {
    pub id: TicketId,
    pub cap: Text,
    pub logical: Text,
    pub instance: InstanceId,
    pub generation: u64,
    pub context: ContextId,
    pub epoch: u64,
    pub policy: CallPolicy,
    pub state: TicketState,
    pub cancel: bool,
    pub pins: Seq<ResourceHandle>,
    pub opened_at: Instant,
    pub drain_until: Option<Instant>,
    pub cancel_reason: Option<Text>,
    pub dep: Option<DepChildV>,
}

impl View for TicketRecord {
    type V = TicketV;

    open spec fn view(&self) -> TicketV {
        TicketV {
            id: self.id,
            cap: self.cap@,
            logical: self.logical@,
            instance: self.instance,
            generation: self.generation,
            context: self.context,
            epoch: self.epoch,
            policy: self.policy,
            state: self.state,
            cancel: self.cancel,
            pins: self.pins@,
            opened_at: self.opened_at,
            drain_until: self.drain_until,
            cancel_reason: self.cancel_reason.deep_view(),
            dep: self.dep.deep_view(),
        }
    }
}

impl DeepView for TicketRecord {
    type V = TicketV;

    open spec fn deep_view(&self) -> TicketV {
        self@
    }
}

impl TicketV {
    pub open spec fn open(self) -> bool {
        self.state == TicketState::Admitted
    }

    /// The ticket after its authority ended.
    pub open spec fn ended(self, state: TicketState, reason: Text) -> TicketV {
        TicketV { state, cancel: true, cancel_reason: Some(reason), ..self }
    }

    /// Milliseconds left of the deadline at `now`.
    pub open spec fn drain_left(self, now: Instant) -> Option<u128> {
        match self.drain_until {
            Some(u) => Some(u.ms_since(now)),
            None => None,
        }
    }
}

impl TicketRecord {
    pub fn is_open(&self) -> (r: bool)
        ensures
            r == self@.open(),
    {
        self.state == TicketState::Admitted
    }

    /// Milliseconds since the ticket was opened.
    pub fn elapsed_ms(&self, now: Instant) -> (r: u128)
        ensures
            r == now.ms_since(self.opened_at),
    {
        now.millis_since(self.opened_at)
    }

    /// Milliseconds left of the deadline.
    pub fn drain_left_ms(&self, now: Instant) -> (r: Option<u128>)
        ensures
            r == self@.drain_left(now),
    {
        match self.drain_until {
            Some(u) => Some(u.millis_since(now)),
            None => None,
        }
    }

    pub fn copy(&self) -> (r: TicketRecord)
        ensures
            r@ == self@,
    {
        TicketRecord {
            id: self.id,
            cap: self.cap.clone(),
            logical: self.logical.clone(),
            instance: self.instance,
            generation: self.generation,
            context: self.context,
            epoch: self.epoch,
            policy: self.policy,
            state: self.state,
            cancel: self.cancel,
            pins: copy_handles(&self.pins),
            opened_at: self.opened_at,
            drain_until: self.drain_until,
            cancel_reason: text::copy_opt(&self.cancel_reason),
            dep: match &self.dep {
                Some(d) => Some(d.copy()),
                None => None,
            },
        }
    }
}

/// A copy of a list of handles.
pub fn copy_handles(v: &Vec<ResourceHandle>) -> (r: Vec<ResourceHandle>)
    ensures
        r@ == v@,
{
    let mut r: Vec<ResourceHandle> = Vec::new();
    let mut i: usize = 0;
    while i < v.len()
        invariant
            i <= v.len(),
            r@ =~= v@.take(i as int),
        decreases v.len() - i,
    {
        r.push(v[i]);
        i += 1;
    }
    r
}

/// A confirmed effect.
#[derive(Debug)]
pub struct CommittedEffect {
    pub seq: u64,
    pub ticket: TicketId,
    pub logical: String,
    pub instance: InstanceId,
    pub generation: u64,
    pub kind: String,
    pub payload: Json,
    pub at_ms: u64,
}

pub struct EffectV {
    pub seq: u64,
    pub ticket: TicketId,
    pub logical: Text,
    pub instance: InstanceId,
    pub generation: u64,
    pub kind: Text,
    pub payload: JsonV,
    pub at_ms: u64,
}

impl View for CommittedEffect {
    type V = EffectV;

    open spec fn view(&self) -> EffectV {
        EffectV {
            seq: self.seq,
            ticket: self.ticket,
            logical: self.logical@,
            instance: self.instance,
            generation: self.generation,
            kind: self.kind@,
            payload: self.payload@,
            at_ms: self.at_ms,
        }
    }
}

impl DeepView for CommittedEffect {
    type V = EffectV;

    open spec fn deep_view(&self) -> EffectV {
        self@
    }
}

impl CommittedEffect {
    pub fn copy(&self) -> (r: CommittedEffect)
        ensures
            r@ == self@,
    {
        CommittedEffect {
            seq: self.seq,
            ticket: self.ticket,
            logical: self.logical.clone(),
            instance: self.instance,
            generation: self.generation,
            kind: self.kind.clone(),
            payload: self.payload.copy(),
            at_ms: self.at_ms,
        }
    }
}

// ---- selections -------------------------------------------------------

/// Which tickets an operation is about.
pub enum Which<'a> {
    All,
    /// Those that an instance executes.
    Of(InstanceId),
    /// Admitted children of a parent.
    ChildrenOf(TicketId),
    /// Admitted children of any of these tickets.
    Under(&'a Vec<u64>),
    /// Admitted children that a consumer asked for.
    AskedBy(InstanceId),
    /// Admitted children under a grant, except those of one revision.
    Granted { consumer: &'a str, cap: &'a str, keep_rev: Option<u64> },
    /// Admitted ones whose deadline is over.
    Overdue(Instant),
}

pub enum WhichV {
    All,
    Of(InstanceId),
    ChildrenOf(TicketId),
    Under(Set<u64>),
    AskedBy(InstanceId),
    Granted { consumer: Text, cap: Text, keep_rev: Option<u64> },
    Overdue(Instant),
}

impl<'a> View for Which<'a> {
    type V = WhichV;

    open spec fn view(&self) -> WhichV {
        match self {
            Which::All => WhichV::All,
            Which::Of(i) => WhichV::Of(*i),
            Which::ChildrenOf(p) => WhichV::ChildrenOf(*p),
            Which::Under(ps) => WhichV::Under(ps@.to_set()),
            Which::AskedBy(c) => WhichV::AskedBy(*c),
            Which::Granted { consumer, cap, keep_rev } => WhichV::Granted {
                consumer: consumer@,
                cap: cap@,
                keep_rev: *keep_rev,
            },
            Which::Overdue(now) => WhichV::Overdue(*now),
        }
    }
}

impl WhichV {
    /// Whether the ticket is one of them.
    pub open spec fn has(self, t: TicketV) -> bool {
        match self {
            WhichV::All => true,
            WhichV::Of(i) => t.instance == i,
            WhichV::ChildrenOf(p) => t.open() && (t.dep matches Some(d) && d.parent == p),
            WhichV::Under(ps) => t.open() && (t.dep matches Some(d) && ps.contains(d.parent.0)),
            WhichV::AskedBy(c) => t.open() && (t.dep matches Some(d) && d.consumer == c),
            WhichV::Granted { consumer, cap, keep_rev } => t.open() && (t.dep matches Some(d)
                && d.grant_consumer == consumer && d.grant_cap == cap && Some(d.grant_rev)
                != keep_rev),
            WhichV::Overdue(now) => t.open() && (t.drain_until matches Some(u) && now.nanos
                >= u.nanos),
        }
    }
}

impl<'a> Which<'a> {
    fn has(&self, t: &TicketRecord) -> (r: bool)
        ensures
            r == self@.has(t@),
    {
        match self {
            Which::All => true,
            Which::Of(i) => t.instance == *i,
            Which::ChildrenOf(p) => t.is_open() && match &t.dep {
                Some(d) => d.parent == *p,
                None => false,
            },
            Which::Under(ps) => t.is_open() && match &t.dep {
                Some(d) => num::among(ps, d.parent.0),
                None => false,
            },
            Which::AskedBy(c) => t.is_open() && match &t.dep {
                Some(d) => d.consumer == *c,
                None => false,
            },
            Which::Granted { consumer, cap, keep_rev } => t.is_open() && match &t.dep {
                Some(d) => text::same(&d.grant_consumer, consumer) && text::same(
                    &d.grant_cap,
                    cap,
                ) && match keep_rev {
                    Some(k) => d.grant_rev != *k,
                    None => true,
                },
                None => false,
            },
            Which::Overdue(now) => t.is_open() && match t.drain_until {
                Some(u) => now.nanos >= u.nanos,
                None => false,
            },
        }
    }
}

/// The tickets by number.
pub type Tickets = Map<u64, TicketV>;

/// Whether the ticket `k` is a child of `p`, or of a ticket that descends
/// from it. A child has a higher number than its parent.
pub open spec fn descends(m: Tickets, k: u64, p: u64) -> bool
    decreases k,
{
    m.dom().contains(k) && match m[k].dep {
        Some(d) => d.parent.0 == p || d.parent.0 < k && descends(m, d.parent.0, p),
        None => false,
    }
}

/// The ticket `p` and all that descend from it.
pub open spec fn lineage(m: Tickets, p: u64) -> Set<u64> {
    Set::new(|k: u64| k == p || descends(m, k, p))
}

/// A ticket that is no parent has no descendants.
pub proof fn childless(m: Tickets, k: u64, p: u64)
    requires
        forall|i: u64| #[trigger]
            m.dom().contains(i) ==> !(m[i].dep matches Some(d) && d.parent.0 == p),
    ensures
        !descends(m, k, p),
    decreases k,
{
    if m.dom().contains(k) {
        if let Some(d) = m[k].dep {
            if d.parent.0 < k {
                childless(m, d.parent.0, p);
            }
        }
    }
}

/// The numbers among `ids` whose ticket is one of `w`, in order.
pub open spec fn picked(ids: Seq<u64>, m: Tickets, w: WhichV) -> Seq<u64>
    decreases ids.len(),
{
    if ids.len() == 0 {
        Seq::empty()
    } else {
        let rest = picked(ids.drop_last(), m, w);
        if w.has(m[ids.last()]) {
            rest.push(ids.last())
        } else {
            rest
        }
    }
}

/// The numbers of the tickets of `w`, ascending.
pub open spec fn ids_of(m: Tickets, w: WhichV) -> Seq<u64> {
    picked(num::in_order(m.dom()), m, w)
}

/// The tickets of `w` by ascending number.
pub open spec fn select(m: Tickets, w: WhichV) -> Seq<TicketV> {
    Seq::new(ids_of(m, w).len(), |i: int| m[ids_of(m, w)[i]])
}

/// The tickets with the authority of those of `w` ended.
pub open spec fn ended(m: Tickets, w: WhichV, state: TicketState, reason: Text) -> Tickets {
    Map::new(
        |k: u64| m.dom().contains(k),
        |k: u64|
            if w.has(m[k]) {
                m[k].ended(state, reason)
            } else {
                m[k]
            },
    )
}

pub(crate) proof fn picked_members(ids: Seq<u64>, m: Tickets, w: WhichV)
    ensures
        forall|i: int|
            0 <= i < picked(ids, m, w).len() ==> ids.contains(#[trigger] picked(ids, m, w)[i])
                && w.has(m[picked(ids, m, w)[i]]),
        forall|i: int|
            0 <= i < ids.len() && w.has(m[#[trigger] ids[i]]) ==> picked(ids, m, w).contains(
                ids[i],
            ),
        ids.no_duplicates() ==> picked(ids, m, w).no_duplicates(),
    decreases ids.len(),
{
    if ids.len() > 0 {
        let a = ids.drop_last();
        let r = picked(a, m, w);
        let s = picked(ids, m, w);
        picked_members(a, m, w);
        if ids.no_duplicates() {
            assert forall|i: int, j: int| 0 <= i < s.len() && 0 <= j < s.len() && i != j implies s[i]
                != s[j] by {
                if i < r.len() {
                    assert(a.contains(r[i]));
                }
                if j < r.len() {
                    assert(a.contains(r[j]));
                }
            }
        }
        assert forall|i: int| 0 <= i < s.len() implies ids.contains(#[trigger] s[i]) && w.has(
            m[s[i]],
        ) by {
            if i < r.len() {
                assert(r[i] == s[i]);
                assert(a.contains(r[i]));
                let k = choose|k: int| 0 <= k < a.len() && a[k] == r[i];
                assert(ids[k] == s[i]);
            } else {
                assert(ids[ids.len() - 1] == s[i]);
            }
        }
        assert forall|i: int| 0 <= i < ids.len() && w.has(m[#[trigger] ids[i]]) implies s.contains(
            ids[i],
        ) by {
            if i < a.len() {
                assert(a[i] == ids[i]);
                assert(r.contains(a[i]));
                let k = choose|k: int| 0 <= k < r.len() && r[k] == a[i];
                assert(s[k] == ids[i]);
            } else {
                assert(s[s.len() - 1] == ids[i]);
            }
        }
    }
}

// ---- the table --------------------------------------------------------

#[verifier::ext_equal]
pub struct CallsV {
    pub next_ticket: u64,
    pub next_effect: u64,
    pub tickets: Tickets,
    pub effects: Seq<EffectV>,
    /// Instances whose finalization is in progress.
    pub claims: Map<u64, bool>,
}

/// The last `n` elements.
pub open spec fn last_n<T>(s: Seq<T>, n: nat) -> Seq<T> {
    if s.len() > n {
        s.skip(s.len() - n)
    } else {
        s
    }
}

impl CallsV {
    /// Tickets carry their own number, none that is still to be issued, and
    /// children come after their parents.
    pub open spec fn wf(self) -> bool {
        &&& self.tickets.dom().finite()
        &&& forall|k: u64| #[trigger]
            self.tickets.dom().contains(k) ==> {
                &&& k < self.next_ticket
                &&& self.tickets[k].id.0 == k
                &&& self.tickets[k].dep matches Some(d) ==> d.parent.0 < k
            }
    }

    /// Whether the tickets of `d` are among these, with the same number,
    /// parent and pins.
    pub open spec fn narrows_to(self, d: CallsV) -> bool {
        &&& d.next_ticket == self.next_ticket
        &&& forall|k: u64| #[trigger]
            d.tickets.dom().contains(k) ==> {
                &&& self.tickets.dom().contains(k)
                &&& d.tickets[k].id == self.tickets[k].id
                &&& d.tickets[k].dep == self.tickets[k].dep
                &&& d.tickets[k].pins == self.tickets[k].pins
            }
    }

    pub open spec fn get(self, id: TicketId) -> Option<TicketV> {
        if self.tickets.dom().contains(id.0) {
            Some(self.tickets[id.0])
        } else {
            None
        }
    }

    /// The ticket that is issued next.
    pub open spec fn fresh(
        self,
        cap: Text,
        logical: Text,
        instance: InstanceId,
        generation: u64,
        context: ContextId,
        epoch: u64,
        policy: CallPolicy,
        pins: Seq<ResourceHandle>,
        now: Instant,
    ) -> TicketV {
        TicketV {
            id: TicketId(self.next_ticket),
            cap,
            logical,
            instance,
            generation,
            context,
            epoch,
            policy,
            state: TicketState::Admitted,
            cancel: false,
            pins,
            opened_at: now,
            drain_until: None,
            cancel_reason: None,
            dep: None,
        }
    }

    /// The table with `t` issued.
    pub open spec fn issue(self, t: TicketV) -> CallsV {
        CallsV {
            next_ticket: num::next(self.next_ticket),
            tickets: self.tickets.insert(t.id.0, t),
            ..self
        }
    }

    /// The table with the ticket `id`, if there is one, replaced.
    pub open spec fn put(self, id: TicketId, t: TicketV) -> CallsV {
        CallsV { tickets: self.tickets.insert(id.0, t), ..self }
    }

    pub open spec fn set_state(self, id: TicketId, state: TicketState) -> CallsV {
        match self.get(id) {
            Some(t) => self.put(id, TicketV { state, ..t }),
            None => self,
        }
    }

    pub open spec fn set_drain_until(self, id: TicketId, until: Instant) -> CallsV {
        match self.get(id) {
            Some(t) if t.open() => self.put(id, TicketV { drain_until: Some(until), ..t }),
            _ => self,
        }
    }

    pub open spec fn set_dep(self, id: TicketId, dep: DepChildV) -> CallsV {
        match self.get(id) {
            Some(t) => self.put(id, TicketV { dep: Some(dep), ..t }),
            None => self,
        }
    }

    /// Whether the ticket is admitted.
    pub open spec fn admitted(self, id: TicketId) -> bool {
        self.get(id) matches Some(t) && t.open()
    }

    /// Ends the authority of one admitted ticket.
    pub open spec fn end(self, id: TicketId, state: TicketState, reason: Text) -> CallsV {
        if self.admitted(id) {
            self.put(id, self.tickets[id.0].ended(state, reason))
        } else {
            self
        }
    }

    /// Commits an admitted ticket.
    pub open spec fn commit(self, id: TicketId) -> CallsV {
        if self.admitted(id) {
            self.set_state(id, TicketState::Committed)
        } else {
            self
        }
    }

    /// Ends the authority of all tickets of `w`.
    pub open spec fn end_all(self, w: WhichV, state: TicketState, reason: Text) -> CallsV {
        CallsV { tickets: ended(self.tickets, w, state, reason), ..self }
    }

    /// The tickets of `w` once their authority ended.
    pub open spec fn ended_list(self, w: WhichV, state: TicketState, reason: Text) -> Seq<TicketV> {
        Seq::new(
            ids_of(self.tickets, w).len(),
            |i: int| self.tickets[ids_of(self.tickets, w)[i]].ended(state, reason),
        )
    }

    /// The admitted descendants of a ticket.
    pub open spec fn heirs(self, id: TicketId) -> WhichV {
        WhichV::Under(lineage(self.tickets, id.0))
    }

    pub open spec fn remove(self, id: TicketId) -> CallsV {
        CallsV { tickets: self.tickets.remove(id.0), ..self }
    }

    /// The effect that is recorded next.
    pub open spec fn effect(self, t: TicketV, kind: Text, payload: JsonV, at_ms: u64) -> EffectV {
        EffectV {
            seq: self.next_effect,
            ticket: t.id,
            logical: t.logical,
            instance: t.instance,
            generation: t.generation,
            kind,
            payload,
            at_ms,
        }
    }

    /// The table with the effect recorded; the oldest ones go.
    pub open spec fn record(self, e: EffectV) -> CallsV {
        CallsV {
            next_effect: num::next(self.next_effect),
            effects: last_n(self.effects.push(e), MAX_EFFECTS as nat),
            ..self
        }
    }
}

/// The effects of one logical id, or all.
pub open spec fn effects_of(es: Seq<EffectV>, logical: Option<Text>) -> Seq<EffectV>
    decreases es.len(),
{
    if es.len() == 0 {
        es
    } else {
        let rest = effects_of(es.drop_last(), logical);
        if logical is None || logical == Some(es.last().logical) {
            rest.push(es.last())
        } else {
            rest
        }
    }
}

pub struct CallsTable {
    next_ticket: u64,
    next_effect: u64,
    tickets: NumMap<TicketRecord>,
    effects: Vec<CommittedEffect>,
    claims: NumMap<bool>,
}

impl View for CallsTable {
    type V = CallsV;

    closed spec fn view(&self) -> CallsV {
        CallsV {
            next_ticket: self.next_ticket,
            next_effect: self.next_effect,
            tickets: self.tickets@,
            effects: self.effects.deep_view(),
            claims: self.claims@,
        }
    }
}

impl CallsTable {
    pub fn new() -> (r: Self)
        ensures
            r@ == (CallsV {
                next_ticket: 1,
                next_effect: 1,
                tickets: Map::empty(),
                effects: Seq::empty(),
                claims: Map::empty(),
            }),
            r@.wf(),
    {
        let effects: Vec<CommittedEffect> = Vec::new();
        assert(effects.deep_view() =~= Seq::<EffectV>::empty());
        CallsTable {
            next_ticket: 1,
            next_effect: 1,
            tickets: NumMap::new(),
            effects,
            claims: NumMap::new(),
        }
    }

    /// Issues a ticket to a validated call.
    pub fn issue(
        &mut self,
        cap: &str,
        logical: &str,
        instance: InstanceId,
        generation: u64,
        context: ContextId,
        epoch: u64,
        policy: CallPolicy,
        pins: Vec<ResourceHandle>,
        now: Instant,
    ) -> (r: TicketId)
        ensures
            r.0 == old(self)@.next_ticket,
            final(self)@ == old(self)@.issue(
                old(self)@.fresh(
                    cap@,
                    logical@,
                    instance,
                    generation,
                    context,
                    epoch,
                    policy,
                    pins@,
                    now,
                ),
            ),
    {
        let id = TicketId(self.next_ticket);
        self.next_ticket = num::bump(self.next_ticket);
        self.tickets.insert(
            id.0,
            TicketRecord {
                id,
                cap: cap.to_owned(),
                logical: logical.to_owned(),
                instance,
                generation,
                context,
                epoch,
                policy,
                state: TicketState::Admitted,
                cancel: false,
                pins,
                opened_at: now,
                drain_until: None,
                cancel_reason: None,
                dep: None,
            },
        );
        id
    }

    /// Attaches the dependency link to a ticket.
    pub fn set_dep_meta(&mut self, id: TicketId, meta: DepChild) -> (r: bool)
        ensures
            final(self)@ == old(self)@.set_dep(id, meta@),
            r == (old(self)@.get(id) is Some),
    {
        let mut t = match self.tickets.get(id.0) {
            Some(t) => t.copy(),
            None => return false,
        };
        t.dep = Some(meta);
        self.tickets.insert(id.0, t);
        true
    }

    /// The numbers of the tickets of `w`, ascending.
    pub(crate) fn ids(&self, w: &Which) -> (r: Vec<u64>)
        ensures
            r@ == ids_of(self@.tickets, w@),
            r@.no_duplicates(),
            forall|i: int| 0 <= i < r.len() ==> self@.tickets.dom().contains(#[trigger] r[i]),
            forall|k: u64|
                self@.tickets.dom().contains(k) && w@.has(self@.tickets[k]) <==> #[trigger]
                    r@.contains(k),
    {
        let n = self.tickets.len();
        let ghost ks = num::in_order(self@.tickets.dom());
        let ghost m = self@.tickets;
        let mut out: Vec<u64> = Vec::new();
        let mut i: usize = 0;
        proof {
            assert(ks.take(0) =~= Seq::<u64>::empty());
        }
        while i < n
            invariant
                i <= n,
                n == ks.len(),
                m == self.tickets@,
                ks == num::in_order(m.dom()),
                ks.to_set() == m.dom(),
                out@ == picked(ks.take(i as int), m, w@),
            decreases n - i,
        {
            proof {
                assert(ks.take(i + 1).drop_last() =~= ks.take(i as int));
                assert(ks.take(i + 1).last() == ks[i as int]);
            }
            if w.has(self.tickets.value_at(i)) {
                out.push(self.tickets.key_at(i));
            }
            i += 1;
        }
        proof {
            assert(ks.take(ks.len() as int) =~= ks);
            picked_members(ks, m, w@);
            assert forall|i: int| 0 <= i < out.len() implies m.dom().contains(
                #[trigger] out[i],
            ) by {
                assert(ks.contains(picked(ks, m, w@)[i]));
                assert(ks.to_set().contains(out[i]));
            }
            assert forall|k: u64|
                m.dom().contains(k) && w@.has(m[k]) <==> #[trigger] out@.contains(k) by {
                if m.dom().contains(k) && w@.has(m[k]) {
                    assert(ks.to_set().contains(k));
                    let j = choose|j: int| 0 <= j < ks.len() && ks[j] == k;
                    assert(picked(ks, m, w@).contains(ks[j]));
                }
                if out@.contains(k) {
                    let j = choose|j: int| 0 <= j < out.len() && out[j] == k;
                    assert(w@.has(m[picked(ks, m, w@)[j]]));
                }
            }
        }
        out
    }

    /// The tickets of `w` by ascending number.
    pub fn select(&self, w: &Which) -> (r: Vec<TicketRecord>)
        ensures
            r.deep_view() == select(self@.tickets, w@),
    {
        let ids = self.ids(w);
        let ghost m = self@.tickets;
        let mut out: Vec<TicketRecord> = Vec::new();
        let mut i: usize = 0;
        while i < ids.len()
            invariant
                i <= ids.len(),
                m == self.tickets@,
                out.len() == i,
                forall|j: int| 0 <= j < ids.len() ==> m.dom().contains(#[trigger] ids[j]),
                forall|j: int| 0 <= j < i ==> (#[trigger] out[j])@ == m[ids[j]],
            decreases ids.len() - i,
        {
            if let Some(t) = self.tickets.get(ids[i]) {
                out.push(t.copy());
            }
            i += 1;
        }
        assert(out.deep_view() =~= select(m, w@));
        out
    }

    /// Ends the authority of all tickets of `w` and returns them.
    fn end_all(&mut self, w: &Which, state: TicketState, reason: &str) -> (r: Vec<TicketRecord>)
        requires
            state != TicketState::Admitted,
            w@ !is All,
            w@ !is Of,
        ensures
            final(self)@ == old(self)@.end_all(w@, state, reason@),
            r.deep_view() == old(self)@.ended_list(w@, state, reason@),
    {
        let ids = self.ids(w);
        let ghost m = self@.tickets;
        let ghost rest = *self;
        let mut out: Vec<TicketRecord> = Vec::new();
        let mut i: usize = 0;
        while i < ids.len()
            invariant
                i <= ids.len(),
                out.len() == i,
                self.tickets@.dom() =~= m.dom(),
                self.next_ticket == rest.next_ticket,
                self.next_effect == rest.next_effect,
                self.effects == rest.effects,
                self.claims == rest.claims,
                forall|j: int| 0 <= j < ids.len() ==> m.dom().contains(#[trigger] ids[j]),
                forall|j: int|
                    0 <= j < i ==> (#[trigger] out[j])@ == m[ids[j]].ended(state, reason@),
                forall|k: u64| #[trigger]
                    m.dom().contains(k) ==> self.tickets@[k] == if ids@.take(i as int).contains(k) {
                        m[k].ended(state, reason@)
                    } else {
                        m[k]
                    },
                ids@.no_duplicates(),
            decreases ids.len() - i,
        {
            let id: u64 = ids[i];
            proof {
                assert(!ids@.take(i as int).contains(id)) by {
                    if ids@.take(i as int).contains(id) {
                        let j = choose|j: int| 0 <= j < i && ids@.take(i as int)[j] == id;
                        assert(ids@[j] == id);
                    }
                }
            }
            if let Some(t) = self.tickets.get(id) {
                let mut t = t.copy();
                t.state = state;
                t.cancel = true;
                t.cancel_reason = Some(reason.to_owned());
                out.push(t.copy());
                self.tickets.insert(id, t);
            }
            proof {
                assert forall|k: u64| ids@.take(i + 1).contains(k) == (ids@.take(
                    i as int,
                ).contains(k) || k == id) by {
                    let a = ids@.take(i as int);
                    let b = ids@.take(i + 1);
                    if a.contains(k) {
                        let j = choose|j: int| 0 <= j < a.len() && a[j] == k;
                        assert(b[j] == k);
                    }
                    if b.contains(k) {
                        let j = choose|j: int| 0 <= j < b.len() && b[j] == k;
                        if j < i {
                            assert(a[j] == k);
                        }
                    }
                    assert(b[i as int] == id);
                }
            }
            i += 1;
        }
        proof {
            assert(ids@.take(ids@.len() as int) =~= ids@);
            assert(self.tickets@ =~= ended(m, w@, state, reason@)) by {
                assert forall|k: u64| m.dom().contains(k) implies self.tickets@[k] == ended(
                    m,
                    w@,
                    state,
                    reason@,
                )[k] by {
                    assert(ids@.contains(k) == w@.has(m[k]));
                }
            }
            assert(out.deep_view() =~= rest@.ended_list(w@, state, reason@));
        }
        out
    }

    /// Still open children of a parent.
    pub fn open_children_of(&self, parent: TicketId) -> (r: Vec<TicketRecord>)
        ensures
            r.deep_view() == select(self@.tickets, WhichV::ChildrenOf(parent)),
    {
        self.select(&Which::ChildrenOf(parent))
    }

    /// A ticket and all that descend from it.
    fn lineage(&self, parent: TicketId) -> (r: Vec<u64>)
        ensures
            r@.to_set() == lineage(self@.tickets, parent.0),
    {
        let n = self.tickets.len();
        let ghost m = self@.tickets;
        let ghost ks = num::in_order(m.dom());
        let mut out: Vec<u64> = Vec::new();
        out.push(parent.0);
        let mut i: usize = 0;
        proof {
            assert(out@.contains(parent.0)) by {
                assert(out@[0] == parent.0);
            }
        }
        while i < n
            invariant
                i <= n,
                n == ks.len(),
                m == self.tickets@,
                ks == num::in_order(m.dom()),
                ks.to_set() == m.dom(),
                num::ascending(ks),
                forall|k: u64| #[trigger]
                    out@.contains(k) <==> k == parent.0 || ks.take(i as int).contains(k)
                        && descends(m, k, parent.0),
            decreases n - i,
        {
            let k: u64 = self.tickets.key_at(i);
            let ghost before = out@;
            let ghost seen = ks.take(i as int);
            if let Some(d) = &self.tickets.value_at(i).dep {
                let p: u64 = d.parent.0;
                proof {
                    reveal_with_fuel(descends, 2);
                    if p < k && m.dom().contains(p) {
                        assert(ks.to_set().contains(p));
                        let j = choose|j: int| 0 <= j < ks.len() && ks[j] == p;
                        assert(j < i);
                        assert(seen[j] == p);
                        assert(seen.contains(p));
                    }
                    assert(m[k].dep == Some(d@));
                    assert(descends(m, k, parent.0) == (p == parent.0 || p < k && before.contains(
                        p,
                    )));
                }
                if p == parent.0 || p < k && num::among(&out, p) {
                    out.push(k);
                }
            }
            proof {
                assert(descends(m, k, parent.0) ==> out@ == before.push(k));
                assert(!descends(m, k, parent.0) ==> out@ == before);
                assert(ks.take(i + 1) =~= seen.push(k));
                assert forall|j: u64| #[trigger]
                    out@.contains(j) <==> j == parent.0 || ks.take(i + 1).contains(j) && descends(
                        m,
                        j,
                        parent.0,
                    ) by {
                    num::push_contains(seen, k, j);
                    num::push_contains(before, k, j);
                }
            }
            i += 1;
        }
        proof {
            assert(ks.take(ks.len() as int) =~= ks);
            assert forall|k: u64| #[trigger]
                out@.to_set().contains(k) == lineage(m, parent.0).contains(k) by {
                if descends(m, k, parent.0) {
                    assert(ks.to_set().contains(k));
                }
                assert(out@.to_set().contains(k) == out@.contains(k));
            }
            assert(out@.to_set() =~= lineage(m, parent.0));
        }
        out
    }

    /// Revokes open descendants: marks them cancelled and signals, without
    /// assuming that their execution ended. Returns them. Idempotent.
    pub fn revoke_descendants(&mut self, parent: TicketId, reason: &str) -> (r: Vec<TicketRecord>)
        ensures
            final(self)@ == old(self)@.end_all(
                old(self)@.heirs(parent),
                TicketState::Cancelled,
                reason@,
            ),
            r.deep_view() == old(self)@.ended_list(
                old(self)@.heirs(parent),
                TicketState::Cancelled,
                reason@,
            ),
    {
        let line = self.lineage(parent);
        self.end_all(&Which::Under(&line), TicketState::Cancelled, reason)
    }

    /// Revokes open children that a consumer asked for.
    pub fn revoke_children_of_consumer(&mut self, consumer: InstanceId, reason: &str) -> (r: Vec<
        TicketRecord,
    >)
        ensures
            final(self)@ == old(self)@.end_all(
                WhichV::AskedBy(consumer),
                TicketState::Cancelled,
                reason@,
            ),
            r.deep_view() == old(self)@.ended_list(
                WhichV::AskedBy(consumer),
                TicketState::Cancelled,
                reason@,
            ),
    {
        self.end_all(&Which::AskedBy(consumer), TicketState::Cancelled, reason)
    }

    /// Revokes open children under a grant, except those of the revision
    /// `keep_rev` (`None` revokes all).
    pub fn revoke_grant_children(
        &mut self,
        consumer: &str,
        cap: &str,
        keep_rev: Option<u64>,
        reason: &str,
    ) -> (r: Vec<TicketRecord>)
        ensures
            final(self)@ == old(self)@.end_all(
                WhichV::Granted { consumer: consumer@, cap: cap@, keep_rev },
                TicketState::Cancelled,
                reason@,
            ),
            r.deep_view() == old(self)@.ended_list(
                WhichV::Granted { consumer: consumer@, cap: cap@, keep_rev },
                TicketState::Cancelled,
                reason@,
            ),
    {
        self.end_all(
            &Which::Granted { consumer, cap, keep_rev },
            TicketState::Cancelled,
            reason,
        )
    }

    pub fn get(&self, id: TicketId) -> (r: Option<TicketRecord>)
        ensures
            r.deep_view() == self@.get(id),
    {
        match self.tickets.get(id.0) {
            Some(t) => Some(t.copy()),
            None => None,
        }
    }

    /// Whether the ticket is admitted.
    pub fn is_admitted(&self, id: TicketId) -> (r: bool)
        ensures
            r == self@.admitted(id),
    {
        match self.tickets.get(id.0) {
            Some(t) => t.is_open(),
            None => false,
        }
    }

    /// Marks a ticket committed if it is still admitted; tells whether it was.
    pub fn mark_committed_if_admitted(&mut self, id: TicketId) -> (r: bool)
        ensures
            final(self)@ == old(self)@.commit(id),
            r == old(self)@.admitted(id),
    {
        if self.is_admitted(id) {
            self.set_state(id, TicketState::Committed)
        } else {
            false
        }
    }

    fn end(&mut self, id: TicketId, state: TicketState, reason: &str) -> (r: bool)
        ensures
            final(self)@ == old(self)@.end(id, state, reason@),
            r == old(self)@.admitted(id),
    {
        let mut t = match self.tickets.get(id.0) {
            Some(t) => t.copy(),
            None => return false,
        };
        if !t.is_open() {
            return false;
        }
        t.state = state;
        t.cancel = true;
        t.cancel_reason = Some(reason.to_owned());
        self.tickets.insert(id.0, t);
        true
    }

    /// Expires an admitted ticket whose deadline passed; tells whether it was
    /// admitted. Its children are left to the caller.
    pub fn expire_ticket(&mut self, id: TicketId) -> (r: bool)
        ensures
            final(self)@ == old(self)@.end(id, TicketState::Expired, "deadline-exceeded"@),
            r == old(self)@.admitted(id),
    {
        self.end(id, TicketState::Expired, "deadline-exceeded")
    }

    pub fn set_state(&mut self, id: TicketId, state: TicketState) -> (r: bool)
        ensures
            final(self)@ == old(self)@.set_state(id, state),
            r == (old(self)@.get(id) is Some),
    {
        let mut t = match self.tickets.get(id.0) {
            Some(t) => t.copy(),
            None => return false,
        };
        t.state = state;
        self.tickets.insert(id.0, t);
        true
    }

    /// Fixes the deadline of an admitted ticket.
    pub fn set_drain_until(&mut self, id: TicketId, until: Instant) -> (r: bool)
        ensures
            final(self)@ == old(self)@.set_drain_until(id, until),
            r == (old(self)@.get(id) is Some),
    {
        let mut t = match self.tickets.get(id.0) {
            Some(t) => t.copy(),
            None => return false,
        };
        if t.is_open() {
            t.drain_until = Some(until);
            self.tickets.insert(id.0, t);
        }
        true
    }

    /// Cancels an admitted ticket and signals its worker.
    pub fn cancel(&mut self, id: TicketId, reason: &str) -> (r: bool)
        ensures
            final(self)@ == old(self)@.end(id, TicketState::Cancelled, reason@),
            r == old(self)@.admitted(id),
    {
        self.end(id, TicketState::Cancelled, reason)
    }

    /// Expires the tickets whose deadline is over and returns their ids.
    pub fn expire_overdue(&mut self, now: Instant) -> (r: Vec<TicketId>)
        ensures
            final(self)@ == old(self)@.end_all(
                WhichV::Overdue(now),
                TicketState::Expired,
                "drain-exceeded"@,
            ),
            r@ == ids_of(old(self)@.tickets, WhichV::Overdue(now)).map_values(
                |n: u64| TicketId(n),
            ),
    {
        let ids = self.ids(&Which::Overdue(now));
        let _ = self.end_all(&Which::Overdue(now), TicketState::Expired, "drain-exceeded");
        let mut out: Vec<TicketId> = Vec::new();
        let mut i: usize = 0;
        while i < ids.len()
            invariant
                i <= ids.len(),
                out.len() == i,
                forall|j: int| 0 <= j < i ==> out[j] == TicketId(#[trigger] ids[j]),
            decreases ids.len() - i,
        {
            out.push(TicketId(ids[i]));
            i += 1;
        }
        assert(out@ =~= ids@.map_values(|n: u64| TicketId(n)));
        out
    }

    pub fn remove(&mut self, id: TicketId) -> (r: Option<TicketRecord>)
        ensures
            final(self)@ == old(self)@.remove(id),
            r.deep_view() == old(self)@.get(id),
    {
        self.tickets.remove(id.0)
    }

    /// The tickets that an instance executes, by ascending number.
    pub fn pending_for(&self, inst: InstanceId) -> (r: Vec<TicketRecord>)
        ensures
            r.deep_view() == select(self@.tickets, WhichV::Of(inst)),
    {
        self.select(&Which::Of(inst))
    }

    pub fn pending_count(&self, inst: InstanceId) -> (r: usize)
        ensures
            r == ids_of(self@.tickets, WhichV::Of(inst)).len(),
    {
        self.ids(&Which::Of(inst)).len()
    }

    /// Whether the instance has no ticket left.
    pub fn is_settled(&self, inst: InstanceId) -> (r: bool)
        ensures
            r == (ids_of(self@.tickets, WhichV::Of(inst)).len() == 0),
    {
        self.pending_count(inst) == 0
    }

    pub fn inflight_count(&self) -> (r: usize)
        ensures
            r == self@.tickets.dom().len(),
    {
        self.tickets.len()
    }

    /// Every ticket by ascending number.
    pub fn snapshot(&self) -> (r: Vec<TicketRecord>)
        ensures
            r.deep_view() == select(self@.tickets, WhichV::All),
    {
        self.select(&Which::All)
    }

    /// Records a confirmed effect; the ledger keeps the newest ones.
    pub fn push_effect(
        &mut self,
        ticket: TicketId,
        logical: &str,
        instance: InstanceId,
        generation: u64,
        kind: &str,
        payload: Json,
        at_ms: u64,
    ) -> (r: CommittedEffect)
        ensures
            r@ == (EffectV {
                seq: old(self)@.next_effect,
                ticket,
                logical: logical@,
                instance,
                generation,
                kind: kind@,
                payload: payload@,
                at_ms,
            }),
            final(self)@ == old(self)@.record(r@),
    {
        let e = CommittedEffect {
            seq: self.next_effect,
            ticket,
            logical: logical.to_owned(),
            instance,
            generation,
            kind: kind.to_owned(),
            payload,
            at_ms,
        };
        self.next_effect = num::bump(self.next_effect);
        let ghost es = self.effects.deep_view();
        self.effects.push(e.copy());
        let ghost full = es.push(e@);
        proof {
            assert(self.effects.deep_view() =~= full);
            assert(full.skip(0) =~= full);
        }
        let ghost rest = *self;
        while self.effects.len() > MAX_EFFECTS
            invariant
                self.effects.len() <= full.len(),
                self.next_ticket == rest.next_ticket,
                self.next_effect == rest.next_effect,
                self.tickets == rest.tickets,
                self.claims == rest.claims,
                self.effects.deep_view() == full.skip(full.len() - self.effects.len()),
                self.effects.len() >= MAX_EFFECTS || self.effects.len() == full.len(),
            decreases self.effects.len(),
        {
            let ghost cur = self.effects.deep_view();
            let _ = self.effects.remove(0);
            proof {
                assert(self.effects.deep_view() =~= cur.skip(1));
                assert(cur.skip(1) =~= full.skip(full.len() - self.effects.len()));
            }
        }
        proof {
            assert(self.effects.deep_view() =~= last_n(full, MAX_EFFECTS as nat));
        }
        e
    }

    /// The confirmed effects of one logical id, or all.
    pub fn effects_for(&self, logical: Option<&str>) -> (r: Vec<CommittedEffect>)
        ensures
            r.deep_view() == effects_of(
                self@.effects,
                match logical {
                    Some(l) => Some(l@),
                    None => None,
                },
            ),
    {
        let ghost es = self@.effects;
        let ghost want: Option<Text> = match logical {
            Some(l) => Some(l@),
            None => None,
        };
        let mut out: Vec<CommittedEffect> = Vec::new();
        let mut i: usize = 0;
        proof {
            assert(es.take(0) =~= Seq::<EffectV>::empty());
            assert(out.deep_view() =~= Seq::<EffectV>::empty());
        }
        while i < self.effects.len()
            invariant
                i <= self.effects.len(),
                es == self.effects.deep_view(),
                want == match logical {
                    Some(l) => Some(l@),
                    None => None,
                },
                out.deep_view() == effects_of(es.take(i as int), want),
            decreases self.effects.len() - i,
        {
            proof {
                assert(es.take(i + 1).drop_last() =~= es.take(i as int));
                assert(es.take(i + 1).last() == self.effects[i as int]@);
            }
            let hit = match logical {
                Some(l) => text::same(&self.effects[i].logical, l),
                None => true,
            };
            if hit {
                let ghost before = out.deep_view();
                out.push(self.effects[i].copy());
                assert(out.deep_view() =~= before.push(es[i as int]));
            }
            i += 1;
        }
        proof {
            assert(es.take(es.len() as int) =~= es);
        }
        out
    }

    pub fn effects_len(&self) -> (r: usize)
        ensures
            r == self@.effects.len(),
    {
        self.effects.len()
    }

    /// Claims the finalization of an instance; `false` if it is claimed.
    pub fn try_claim_cleanup(&mut self, inst: InstanceId) -> (r: bool)
        ensures
            final(self)@ == (CallsV { claims: old(self)@.claims.insert(inst.0, true), ..old(self)@ }),
            r == !old(self)@.claims.dom().contains(inst.0),
    {
        let fresh = !self.claims.contains(inst.0);
        self.claims.insert(inst.0, true);
        fresh
    }

    pub fn release_cleanup_claim(&mut self, inst: InstanceId)
        ensures
            final(self)@ == (CallsV { claims: old(self)@.claims.remove(inst.0), ..old(self)@ }),
    {
        let _ = self.claims.remove(inst.0);
    }
}

// ---- laws -------------------------------------------------------------

/// What only ends tickets keeps the table well-formed.
pub proof fn narrowing_keeps_wf(c: CallsV, d: CallsV)
    requires
        c.wf(),
        c.narrows_to(d),
    ensures
        d.wf(),
{
    assert(d.tickets.dom().subset_of(c.tickets.dom()));
    vstd::set_lib::lemma_set_subset_finite(c.tickets.dom(), d.tickets.dom());
}

/// Every operation on the table but the issuing of a ticket only ends
/// tickets.
pub proof fn tickets_only_end(
    c: CallsV,
    id: TicketId,
    w: WhichV,
    state: TicketState,
    reason: Text,
    until: Instant,
    e: EffectV,
)
    ensures
        c.narrows_to(c.end(id, state, reason)),
        c.narrows_to(c.end_all(w, state, reason)),
        c.narrows_to(c.set_state(id, state)),
        c.narrows_to(c.set_drain_until(id, until)),
        c.narrows_to(c.commit(id)),
        c.narrows_to(c.remove(id)),
        c.narrows_to(c.record(e)),
{
}

/// The table stays well-formed: under every operation that ends tickets or
/// records effects, under the issuing of a ticket while numbers are left, and
/// under a link to an earlier ticket.
pub proof fn tables_stay_well_formed(
    c: CallsV,
    id: TicketId,
    w: WhichV,
    state: TicketState,
    reason: Text,
    until: Instant,
    e: EffectV,
    t: TicketV,
    dep: DepChildV,
)
    requires
        c.wf(),
    ensures
        c.end(id, state, reason).wf(),
        c.end_all(w, state, reason).wf(),
        c.set_state(id, state).wf(),
        c.set_drain_until(id, until).wf(),
        c.commit(id).wf(),
        c.remove(id).wf(),
        c.record(e).wf(),
        c.next_ticket < u64::MAX && t.id.0 == c.next_ticket && t.dep is None ==> c.issue(t).wf(),
        dep.parent.0 < id.0 ==> c.set_dep(id, dep).wf(),
{
    tickets_only_end(c, id, w, state, reason, until, e);
    narrowing_keeps_wf(c, c.end(id, state, reason));
    narrowing_keeps_wf(c, c.end_all(w, state, reason));
    narrowing_keeps_wf(c, c.set_state(id, state));
    narrowing_keeps_wf(c, c.set_drain_until(id, until));
    narrowing_keeps_wf(c, c.commit(id));
    narrowing_keeps_wf(c, c.remove(id));
    narrowing_keeps_wf(c, c.record(e));
    if c.next_ticket < u64::MAX && t.id.0 == c.next_ticket && t.dep is None {
        tickets_are_fresh(c, t);
    }
    if dep.parent.0 < id.0 && c.get(id) is Some {
        assert(c.set_dep(id, dep).tickets.dom() =~= c.tickets.dom());
    }
}

/// Issuing a ticket takes a number that no other ticket has, and keeps the
/// table well-formed.
pub proof fn tickets_are_fresh(c: CallsV, t: TicketV)
    requires
        c.wf(),
        c.next_ticket < u64::MAX,
        t.id.0 == c.next_ticket,
        t.dep matches Some(d) ==> d.parent.0 < c.next_ticket,
    ensures
        c.get(t.id) is None,
        c.issue(t).get(t.id) == Some(t),
        c.issue(t).wf(),
        forall|k: TicketId| k != t.id ==> #[trigger] c.issue(t).get(k) == c.get(k),
{
    let d = c.issue(t);
    assert forall|k: u64| #[trigger] d.tickets.dom().contains(k) implies k < d.next_ticket
        && d.tickets[k].id.0 == k && (d.tickets[k].dep matches Some(x) ==> x.parent.0
        < k) by {
        if k != t.id.0 {
            assert(c.tickets.dom().contains(k));
        }
    }
    assert forall|k: TicketId| k != t.id implies #[trigger] d.get(k) == c.get(k) by {
        assert(k.0 != t.id.0);
    }
}

/// Revoking tickets ends the authority of exactly those: the others stay as
/// they were, and a second revocation finds none.
pub proof fn revocation_is_exact(
    c: CallsV,
    w: WhichV,
    state: TicketState,
    reason: Text,
    id: TicketId,
)
    requires
        state == TicketState::Cancelled || state == TicketState::Expired,
        !(w is All || w is Of),
    ensures
        c.get(id) matches Some(t) ==> {
            let u = c.end_all(w, state, reason).get(id);
            &&& w.has(t) ==> u == Some(t.ended(state, reason))
            &&& !w.has(t) ==> u == Some(t)
        },
        c.get(id) is None ==> c.end_all(w, state, reason).get(id) is None,
        c.end_all(w, state, reason).end_all(w, state, reason) == c.end_all(w, state, reason),
{
    let d = c.end_all(w, state, reason);
    assert(d.end_all(w, state, reason).tickets =~= d.tickets);
}

/// The selected descendants of a ticket are the admitted tickets that descend
/// from it, and once they are revoked it has none.
pub proof fn heirs_descend(c: CallsV, p: TicketId, id: TicketId, reason: Text)
    requires
        c.wf(),
    ensures
        c.get(id) matches Some(t) ==> c.heirs(p).has(t) == (t.open() && descends(
            c.tickets,
            id.0,
            p.0,
        )),
        ({
            let d = c.end_all(c.heirs(p), TicketState::Cancelled, reason);
            d.admitted(id) ==> !descends(d.tickets, id.0, p.0)
        }),
{
    let d = c.end_all(c.heirs(p), TicketState::Cancelled, reason);
    assert(c.tickets.dom() =~= d.tickets.dom());
    same_lines(c.tickets, d.tickets, id.0, p.0);
}

/// Descent is a matter of the links alone.
pub(crate) proof fn same_lines(a: Tickets, b: Tickets, k: u64, p: u64)
    requires
        a.dom() == b.dom(),
        forall|i: u64| #[trigger] a.dom().contains(i) ==> a[i].dep == b[i].dep,
    ensures
        descends(a, k, p) == descends(b, k, p),
    decreases k,
{
    if a.dom().contains(k) {
        if let Some(d) = a[k].dep {
            if d.parent.0 < k {
                same_lines(a, b, d.parent.0, p);
            }
        }
    }
}

/// A ticket is committed at most once, and only while it is admitted.
pub proof fn commits_once(c: CallsV, id: TicketId)
    ensures
        !c.commit(id).admitted(id),
        c.commit(id).commit(id) == c.commit(id),
        !c.admitted(id) ==> c.commit(id) == c,
{
}

/// The effects recorded in turn.
pub open spec fn recorded(c: CallsV, es: Seq<EffectV>) -> CallsV
    decreases es.len(),
{
    if es.len() == 0 {
        c
    } else {
        recorded(c, es.drop_last()).record(es.last())
    }
}

/// The ledger of effects is bounded; recording one drops at most the oldest,
/// and the new one is last.
pub proof fn ledger_is_bounded(c: CallsV, e: EffectV)
    requires
        c.effects.len() <= MAX_EFFECTS,
    ensures
        c.record(e).effects.len() <= MAX_EFFECTS,
        c.record(e).effects.last() == e,
        c.record(e).effects.drop_last() == c.effects || c.effects.len() == MAX_EFFECTS
            && c.record(e).effects.drop_last() == c.effects.drop_first(),
{
    let s = c.record(e).effects;
    if c.effects.len() == MAX_EFFECTS {
        assert(s.drop_last() =~= c.effects.drop_first());
    } else {
        assert(s.drop_last() =~= c.effects);
    }
}

/// Whatever was recorded, the ledger holds the newest effects, as many as it
/// keeps, in the order in which they were recorded.
pub proof fn ledger_keeps_the_newest(c: CallsV, es: Seq<EffectV>)
    requires
        c.effects.len() <= MAX_EFFECTS,
    ensures
        recorded(c, es).effects == last_n(c.effects + es, MAX_EFFECTS as nat),
        recorded(c, es).effects.len() <= MAX_EFFECTS,
    decreases es.len(),
{
    if es.len() == 0 {
        assert(c.effects + es =~= c.effects);
    } else {
        let rest = es.drop_last();
        ledger_keeps_the_newest(c, rest);
        let a = c.effects + rest;
        assert(c.effects + es =~= a.push(es.last()));
        assert(last_n(last_n(a, MAX_EFFECTS as nat).push(es.last()), MAX_EFFECTS as nat)
            =~= last_n(a.push(es.last()), MAX_EFFECTS as nat));
    }
}

/// Whether effects carry consecutive numbers, the last one the number before
/// the next.
pub open spec fn consecutive(es: Seq<EffectV>, next: u64) -> bool {
    forall|i: int|
        0 <= i < es.len() ==> num::next((#[trigger] es[i]).seq) == if i + 1 < es.len() {
            es[i + 1].seq
        } else {
            next
        }
}

/// Recording an effect keeps the ledger numbered without gaps, up to the
/// number that is given next.
pub proof fn ledger_is_numbered(c: CallsV, t: TicketV, kind: Text, payload: JsonV, at_ms: u64)
    requires
        consecutive(c.effects, c.next_effect),
    ensures
        ({
            let d = c.record(c.effect(t, kind, payload, at_ms));
            consecutive(d.effects, d.next_effect)
        }),
{
    let e = c.effect(t, kind, payload, at_ms);
    let d = c.record(e);
    let all = c.effects.push(e);
    assert forall|i: int| 0 <= i < all.len() implies num::next((#[trigger] all[i]).seq) == if i + 1
        < all.len() {
        all[i + 1].seq
    } else {
        d.next_effect
    } by {
        if i < c.effects.len() {
            assert(c.effects[i] == all[i]);
            if i + 1 < c.effects.len() {
                assert(c.effects[i + 1] == all[i + 1]);
            }
        }
    }
    let cut = all.len() - d.effects.len();
    assert forall|i: int| 0 <= i < d.effects.len() implies num::next((#[trigger] d.effects[i]).seq)
        == if i + 1 < d.effects.len() {
        d.effects[i + 1].seq
    } else {
        d.next_effect
    } by {
        assert(d.effects[i] == all[i + cut]);
        if i + 1 < d.effects.len() {
            assert(d.effects[i + 1] == all[i + 1 + cut]);
        }
    }
}

} // verus!
