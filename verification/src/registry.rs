//! The mathematical model of the registry: the sequence of live connections,
//! each with the events that wait in its outbound channel, and the
//! transitions that the hub's operations perform on it.

use vstd::prelude::*;
use crate::event::{EventView, join_event, leave_event};

verus! {

/// One live connection.
pub ghost struct ConnView {
    /// The identifier given at registration.
    pub id: u128,
    /// The display name chosen at connect time.
    pub name: Seq<char>,
    /// The events delivered to the outbound channel and not yet taken out,
    /// oldest first.
    pub pending: Seq<EventView>,
    /// Whether the outbound channel still accepts events.
    pub open: bool,
}

/// Whether a connection with this id is registered.
pub open spec fn has_id(s: Seq<ConnView>, id: u128) -> bool {
    exists|i: int| 0 <= i < s.len() && (#[trigger] s[i]).id == id
}

/// No two registered connections share an id.
pub open spec fn distinct_ids(s: Seq<ConnView>) -> bool {
    forall|i: int, j: int| 0 <= i < j < s.len() ==> (#[trigger] s[i]).id != (#[trigger] s[j]).id
}

/// Every registered id is among the ids that were given out.
pub open spec fn ids_within(s: Seq<ConnView>, issued: Set<u128>) -> bool {
    forall|i: int| 0 <= i < s.len() ==> issued.contains((#[trigger] s[i]).id)
}

/// Where the connection with this id stands, if it is registered.
pub open spec fn position(s: Seq<ConnView>, id: u128) -> int {
    choose|i: int| 0 <= i < s.len() && (#[trigger] s[i]).id == id
}

/// The set of registered ids.
pub open spec fn member_ids(s: Seq<ConnView>) -> Set<u128> {
    Set::new(|id: u128| has_id(s, id))
}

/// A connection as it is right after registration, before any delivery.
pub open spec fn fresh_connection(id: u128, name: Seq<char>) -> ConnView {
    ConnView { id, name, pending: Seq::empty(), open: true }
}

/// Delivery of one event to one connection: an open channel takes it at its
/// end, a closed one is skipped.
pub open spec fn deliver(c: ConnView, e: EventView) -> ConnView {
    if c.open {
        ConnView { pending: c.pending.push(e), ..c }
    } else {
        c
    }
}

/// Delivery of one event to every registered connection.
pub open spec fn fan_out(s: Seq<ConnView>, e: EventView) -> Seq<ConnView> {
    s.map_values(|c: ConnView| deliver(c, e))
}

/// Registration: the new connection enters, then the join notice goes to
/// everyone, the newcomer included.
pub open spec fn registered(s: Seq<ConnView>, id: u128, name: Seq<char>) -> Seq<ConnView> {
    fan_out(s.push(fresh_connection(id, name)), join_event(name))
}

/// Unregistration: the connection leaves, then the leave notice with its
/// display name goes to those that remain. An absent id changes nothing.
pub open spec fn unregistered(s: Seq<ConnView>, id: u128) -> Seq<ConnView> {
    if has_id(s, id) {
        let i = position(s, id);
        fan_out(s.remove(i), leave_event(s[i].name))
    } else {
        s
    }
}

/// Relay of a decoded frame: a well-formed event goes to everyone, a frame
/// that did not decode is dropped.
pub open spec fn relayed(s: Seq<ConnView>, e: Option<EventView>) -> Seq<ConnView> {
    match e {
        Some(event) => fan_out(s, event),
        None => s,
    }
}

/// The channel of the connection with this id is closed; the connection
/// stays registered.
pub open spec fn channel_closed(s: Seq<ConnView>, id: u128) -> Seq<ConnView> {
    if has_id(s, id) {
        let i = position(s, id);
        s.update(i, ConnView { open: false, ..s[i] })
    } else {
        s
    }
}

/// The pending events of the connection with this id are taken out.
pub open spec fn drained(s: Seq<ConnView>, id: u128) -> Seq<ConnView> {
    if has_id(s, id) {
        let i = position(s, id);
        s.update(i, ConnView { pending: Seq::empty(), ..s[i] })
    } else {
        s
    }
}

/// The events that wait for the connection with this id.
pub open spec fn pending_of(s: Seq<ConnView>, id: u128) -> Seq<EventView> {
    if has_id(s, id) {
        s[position(s, id)].pending
    } else {
        Seq::empty()
    }
}

/// With distinct ids, the position of an id is the one index that holds it.
pub proof fn lemma_position_unique(s: Seq<ConnView>, i: int)
    requires
        distinct_ids(s),
        0 <= i < s.len(),
    ensures
        has_id(s, s[i].id),
        position(s, s[i].id) == i,
{
    let id = s[i].id;
    assert(has_id(s, id));
    let p = position(s, id);
    assert(0 <= p < s.len() && s[p].id == id);
    if p < i {
        assert(s[p].id != s[i].id);
    } else if i < p {
        assert(s[i].id != s[p].id);
    }
}

/// Delivery changes no id, so membership and distinctness stay.
pub proof fn lemma_fan_out_keeps_ids(s: Seq<ConnView>, e: EventView)
    ensures
        fan_out(s, e).len() == s.len(),
        forall|i: int| 0 <= i < s.len() ==> (#[trigger] fan_out(s, e)[i]).id == s[i].id,
        forall|id: u128| has_id(fan_out(s, e), id) == has_id(s, id),
        member_ids(fan_out(s, e)) == member_ids(s),
        distinct_ids(s) ==> distinct_ids(fan_out(s, e)),
{
    let t = fan_out(s, e);
    assert forall|id: u128| has_id(t, id) == has_id(s, id) by {
        if has_id(t, id) {
            let i = choose|i: int| 0 <= i < t.len() && (#[trigger] t[i]).id == id;
            assert(s[i].id == id);
        }
        if has_id(s, id) {
            let i = choose|i: int| 0 <= i < s.len() && (#[trigger] s[i]).id == id;
            assert(t[i].id == id);
        }
    }
    assert(member_ids(t) =~= member_ids(s));
    if distinct_ids(s) {
        assert forall|i: int, j: int| 0 <= i < j < t.len() implies (#[trigger] t[i]).id != (
        #[trigger] t[j]).id by {
            assert(s[i].id != s[j].id);
        }
    }
}

/// Registration of an unused id adds exactly that id.
pub proof fn lemma_registered_members(s: Seq<ConnView>, id: u128, name: Seq<char>)
    requires
        distinct_ids(s),
        !has_id(s, id),
    ensures
        distinct_ids(s.push(fresh_connection(id, name))),
        distinct_ids(registered(s, id, name)),
        member_ids(registered(s, id, name)) == member_ids(s).insert(id),
        registered(s, id, name).len() == s.len() + 1,
{
    let c = fresh_connection(id, name);
    let p = s.push(c);
    assert forall|i: int, j: int| 0 <= i < j < p.len() implies (#[trigger] p[i]).id != (
    #[trigger] p[j]).id by {
        if j < s.len() {
            assert(s[i].id != s[j].id);
        } else {
            assert(p[i] == s[i]);
        }
    }
    assert forall|x: u128| has_id(p, x) == (x == id || has_id(s, x)) by {
        if has_id(p, x) {
            let i = choose|i: int| 0 <= i < p.len() && (#[trigger] p[i]).id == x;
            if i < s.len() {
                assert(s[i].id == x);
            }
        }
        if has_id(s, x) {
            let i = choose|i: int| 0 <= i < s.len() && (#[trigger] s[i]).id == x;
            assert(p[i].id == x);
        }
        if x == id {
            assert(p[s.len() as int].id == x);
        }
    }
    lemma_fan_out_keeps_ids(p, join_event(name));
    assert(member_ids(registered(s, id, name)) =~= member_ids(s).insert(id));
}

/// Removal of the connection at `i` takes exactly its id out.
pub proof fn lemma_remove_members(s: Seq<ConnView>, i: int)
    requires
        distinct_ids(s),
        0 <= i < s.len(),
    ensures
        distinct_ids(s.remove(i)),
        forall|x: u128| has_id(s.remove(i), x) == (x != s[i].id && has_id(s, x)),
{
    let r = s.remove(i);
    assert forall|a: int, b: int| 0 <= a < b < r.len() implies (#[trigger] r[a]).id != (
    #[trigger] r[b]).id by {
        let a0 = if a < i { a } else { a + 1 };
        let b0 = if b < i { b } else { b + 1 };
        assert(r[a] == s[a0] && r[b] == s[b0]);
        assert(s[a0].id != s[b0].id);
    }
    assert forall|x: u128| has_id(r, x) == (x != s[i].id && has_id(s, x)) by {
        if has_id(r, x) {
            let k = choose|k: int| 0 <= k < r.len() && (#[trigger] r[k]).id == x;
            let k0 = if k < i { k } else { k + 1 };
            assert(r[k] == s[k0]);
            assert(s[k0].id == x);
            if k0 < i {
                assert(s[k0].id != s[i].id);
            } else {
                assert(s[i].id != s[k0].id);
            }
        }
        if x != s[i].id && has_id(s, x) {
            let k = choose|k: int| 0 <= k < s.len() && (#[trigger] s[k]).id == x;
            let k1 = if k < i { k } else { k - 1 };
            assert(r[k1] == s[k]);
            assert(r[k1].id == x);
        }
    }
}

/// Unregistration takes exactly that id out, whether it was there or not.
pub proof fn lemma_unregistered_members(s: Seq<ConnView>, id: u128)
    requires
        distinct_ids(s),
    ensures
        distinct_ids(unregistered(s, id)),
        !has_id(unregistered(s, id), id),
        member_ids(unregistered(s, id)) == member_ids(s).remove(id),
{
    if has_id(s, id) {
        let i = position(s, id);
        lemma_remove_members(s, i);
        lemma_fan_out_keeps_ids(s.remove(i), leave_event(s[i].name));
    }
    assert(member_ids(unregistered(s, id)) =~= member_ids(s).remove(id));
}

} // verus!
