//! What the table of calls in flight makes of a ticket: which tickets are
//! meant by a selection, which of them end, and what is kept of their effects.

use vstd::prelude::*;
use vstd::string::*;
use crate::calls;
use crate::calls::{
    CallsV, EffectV, TicketId, TicketState, TicketV, Tickets, WhichV,
};
use crate::context::ContextV;
use crate::num;
use crate::text;
use crate::text::Text;
use crate::time::Instant;

verus! {

// ---- names ------------------------------------------------------------

/// Each state of a ticket has a name of its own.
pub proof fn names_tell_ticket_states_apart(a: TicketState, b: TicketState)
    requires
        a.name() == b.name(),
    ensures
        a == b,
{
    reveal_strlit("Admitted");
    reveal_strlit("Committed");
    reveal_strlit("Cancelled");
    reveal_strlit("Expired");
    assert("Admitted"@.len() == 8 && "Committed"@.len() == 9 && "Cancelled"@.len() == 9);
    assert("Committed"@[1] == 'o' && "Cancelled"@[1] == 'a' && "Expired"@.len() == 7);
}

/// Two tickets have one name only where they have one number.
pub proof fn ticket_names_are_distinct(a: TicketId, b: TicketId)
    requires
        a.text_of() == b.text_of(),
    ensures
        a == b,
{
    let p = "tkt-"@;
    let x = text::dec(a.0 as nat);
    let y = text::dec(b.0 as nat);
    assert(a.text_of().skip(p.len() as int) =~= x);
    assert(b.text_of().skip(p.len() as int) =~= y);
    text::dec_injective(a.0 as nat, b.0 as nat);
}

// ---- selections -------------------------------------------------------

/// Whether a ticket is admitted and a child.
pub open spec fn is_open_child(t: TicketV) -> bool {
    t.state == TicketState::Admitted && t.dep is Some
}

/// Whether the ticket is one of those that a selection means.
pub open spec fn is_meant(w: WhichV, t: TicketV) -> bool {
    let d = t.dep->0;
    match w {
        WhichV::All => true,
        WhichV::Of(i) => t.instance.0 == i.0,
        WhichV::ChildrenOf(p) => is_open_child(t) && d.parent.0 == p.0,
        WhichV::Under(ps) => is_open_child(t) && ps.contains(d.parent.0),
        WhichV::AskedBy(c) => is_open_child(t) && d.consumer.0 == c.0,
        WhichV::Granted { consumer, cap, keep_rev } => {
            &&& is_open_child(t)
            &&& d.grant_consumer == consumer
            &&& d.grant_cap == cap
            &&& keep_rev matches Some(r) ==> d.grant_rev != r
        },
        WhichV::Overdue(now) => {
            &&& t.state == TicketState::Admitted
            &&& t.drain_until is Some
            &&& t.drain_until->0.nanos <= now.nanos
        },
    }
}

/// A selection gives the tickets that are meant, all of them, each once, by
/// ascending number.
pub proof fn selections_are_exact(c: CallsV, w: WhichV, n: u64)
    requires
        c.wf(),
    ensures
        ({
            let ids = calls::ids_of(c.tickets, w);
            let ts = calls::select(c.tickets, w);
            &&& ids.contains(n) <==> c.tickets.dom().contains(n) && is_meant(w, c.tickets[n])
            &&& ts.len() == ids.len()
            &&& forall|i: int|
                0 <= i < ids.len() ==> #[trigger] ts[i] == c.tickets[ids[i]] && ts[i].id.0 == ids[i]
            &&& forall|i: int, j: int|
                0 <= i < j < ids.len() ==> #[trigger] ids[i] < #[trigger] ids[j]
        }),
{
    let m = c.tickets;
    let all = num::in_order(m.dom());
    let ids = calls::ids_of(m, w);
    num::in_order_sorted(m.dom());
    calls::picked_members(all, m, w);
    meaning_is_exact(w, m[n]);
    assert(all.to_set().contains(n) <==> m.dom().contains(n));
    if ids.contains(n) {
        let i = choose|i: int| 0 <= i < ids.len() && ids[i] == n;
        assert(all.contains(ids[i]));
        assert(w.has(m[ids[i]]));
        assert(all.to_set().contains(n));
    }
    if m.dom().contains(n) && w.has(m[n]) {
        assert(all.to_set().contains(n));
        let i = choose|i: int| 0 <= i < all.len() && all[i] == n;
        assert(ids.contains(all[i]));
    }
    assert forall|i: int| 0 <= i < ids.len() implies #[trigger] calls::select(m, w)[i]
        == m[ids[i]] && calls::select(m, w)[i].id.0 == ids[i] by {
        assert(all.contains(ids[i]));
        assert(all.to_set().contains(ids[i]));
        assert(m.dom().contains(ids[i]));
    }
    picked_in_order(all, m, w);
}

proof fn meaning_is_exact(w: WhichV, t: TicketV)
    ensures
        w.has(t) == is_meant(w, t),
{
    if let Some(d) = t.dep {
        match w {
            WhichV::ChildrenOf(p) => {
                assert(d.parent == p <==> d.parent.0 == p.0);
            },
            WhichV::AskedBy(c) => {
                assert(d.consumer == c <==> d.consumer.0 == c.0);
            },
            _ => {},
        }
    }
    match w {
        WhichV::Of(i) => {
            assert(t.instance == i <==> t.instance.0 == i.0);
        },
        _ => {},
    }
}

proof fn picked_in_order(all: Seq<u64>, m: Tickets, w: WhichV)
    requires
        forall|i: int, j: int| 0 <= i < j < all.len() ==> #[trigger] all[i] < #[trigger] all[j],
    ensures
        forall|i: int, j: int|
            0 <= i < j < calls::picked(all, m, w).len() ==> #[trigger] calls::picked(all, m, w)[i]
                < #[trigger] calls::picked(all, m, w)[j],
    decreases all.len(),
{
    if all.len() > 0 {
        let d = all.drop_last();
        let rest = calls::picked(d, m, w);
        let ids = calls::picked(all, m, w);
        picked_in_order(d, m, w);
        calls::picked_members(d, m, w);
        assert forall|i: int, j: int| 0 <= i < j < ids.len() implies #[trigger] ids[i]
            < #[trigger] ids[j] by {
            if j == rest.len() {
                assert(d.contains(rest[i]));
                let x = choose|x: int| 0 <= x < d.len() && d[x] == rest[i];
                assert(all[x] < all[all.len() - 1]);
            }
        }
    }
}

// ---- endings ----------------------------------------------------------

/// Ending a selection ends the tickets that are meant, in the given state and
/// for the given reason, and leaves the rest of them and every other ticket.
pub proof fn endings_are_exact(c: CallsV, w: WhichV, state: TicketState, reason: Text, n: u64)
    requires
        c.tickets.dom().contains(n),
    ensures
        ({
            let d = c.end_all(w, state, reason);
            let t = c.tickets[n];
            &&& d.tickets.dom() == c.tickets.dom()
            &&& d.effects == c.effects && d.next_ticket == c.next_ticket && d.next_effect
                == c.next_effect
            &&& d.tickets[n] == if is_meant(w, t) {
                TicketV { state, cancel: true, cancel_reason: Some(reason), ..t }
            } else {
                t
            }
        }),
{
    meaning_is_exact(w, c.tickets[n]);
    assert(c.end_all(w, state, reason).tickets.dom() =~= c.tickets.dom());
}

/// Once the overdue calls have expired, no admitted call is overdue.
pub proof fn the_overdue_expire(c: CallsV, now: Instant, reason: Text, n: u64)
    requires
        c.tickets.dom().contains(n),
    ensures
        ({
            let d = c.end_all(WhichV::Overdue(now), TicketState::Expired, reason);
            let t = d.tickets[n];
            &&& t.state == TicketState::Admitted ==> (t.drain_until matches Some(u) ==> now.nanos
                < u.nanos)
            &&& t.state != c.tickets[n].state ==> t.state == TicketState::Expired && (
            c.tickets[n].drain_until matches Some(u) && u.nanos <= now.nanos)
        }),
{
    endings_are_exact(c, WhichV::Overdue(now), TicketState::Expired, reason, n);
}

/// A drain is set for an admitted ticket, and for no other.
pub proof fn drains_are_set(c: CallsV, id: TicketId, until: Instant, n: u64)
    requires
        c.tickets.dom().contains(n),
    ensures
        ({
            let d = c.set_drain_until(id, until);
            let t = c.tickets[n];
            &&& d.tickets.dom() == c.tickets.dom()
            &&& d.tickets[n] == if n == id.0 && t.state == TicketState::Admitted {
                TicketV { drain_until: Some(until), ..t }
            } else {
                t
            }
        }),
{
    assert(c.set_drain_until(id, until).tickets.dom() =~= c.tickets.dom());
}

/// A commit commits an admitted ticket; the end of one ticket ends it where it
/// was admitted; a removal takes it out. No other ticket changes.
pub proof fn single_changes_are_exact(
    c: CallsV,
    id: TicketId,
    state: TicketState,
    reason: Text,
    n: u64,
)
    requires
        c.tickets.dom().contains(n),
    ensures
        ({
            let t = c.tickets[n];
            let same = n == id.0;
            let open = same && t.state == TicketState::Admitted;
            &&& c.commit(id).tickets[n] == if open {
                TicketV { state: TicketState::Committed, ..t }
            } else {
                t
            }
            &&& c.end(id, state, reason).tickets[n] == if open {
                TicketV { state, cancel: true, cancel_reason: Some(reason), ..t }
            } else {
                t
            }
            &&& c.remove(id).tickets.dom().contains(n) <==> !same
            &&& !same ==> c.remove(id).tickets[n] == t
            &&& c.admitted(id) && same ==> open
            &&& open ==> c.admitted(id)
        }),
{
}

// ---- effects ----------------------------------------------------------

/// The effects of a logical id are those that it committed, in their order;
/// without one they are all.
pub proof fn effects_are_those_of_the_id(es: Seq<EffectV>, logical: Text)
    ensures
        calls::effects_of(es, Some(logical)) == es.filter(|e: EffectV| e.logical == logical),
        calls::effects_of(es, None) == es,
    decreases es.len(),
{
    reveal(Seq::filter);
    if es.len() > 0 {
        let d = es.drop_last();
        effects_are_those_of_the_id(d, logical);
        assert(es =~= d.push(es.last()));
    } else {
        assert(es.filter(|e: EffectV| e.logical == logical) =~= es);
    }
}

/// A recorded effect is the last one; of those before it the newest 1023 are
/// kept.
pub proof fn ledgers_keep_1024(c: CallsV, e: EffectV, i: int)
    requires
        c.next_effect < u64::MAX,
        c.effects.len() <= 1024,
    ensures
        ({
            let d = c.record(e);
            let n = c.effects.len();
            &&& d.effects.len() == if n < 1024 {
                n + 1
            } else {
                1024
            }
            &&& d.effects.last() == e
            &&& d.next_effect == c.next_effect + 1
            &&& 1 <= i < d.effects.len() ==> d.effects[d.effects.len() - 1 - i] == c.effects[n - i]
            &&& d.tickets == c.tickets && d.next_ticket == c.next_ticket
        }),
{
}

// ---- references -------------------------------------------------------

/// The reference to an activation names it, and two references are to one
/// activation exactly where epoch, instance and generation are the same.
pub proof fn references_name_activations(c: ContextV, d: ContextV)
    ensures
        ({
            let r = c.reference();
            &&& r.epoch == c.epoch
            &&& r.logical == c.logical
            &&& r.instance == c.instance.0
            &&& r.context == c.context.0
            &&& r.generation == c.generation
        }),
        c.reference().same_as(d.reference()) <==> c.epoch == d.epoch && c.instance.0
            == d.instance.0 && c.generation == d.generation,
{
}

} // verus!
