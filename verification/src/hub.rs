//! The broadcast hub: sole owner of the registry. Every operation is one
//! transition of the registry model; delivery puts an event at the end of the
//! outbound channel of every registered connection, from where the endpoint
//! takes it out to write it to the transport. The hub remembers every id it
//! has given out, so that no id is used twice, also not after its connection
//! has left.

use std::collections::HashSet;
use vstd::prelude::*;
use crate::event::{ChatMessage, EventView, events_view};
use crate::registry::{
    ConnView, channel_closed, deliver, distinct_ids, drained, fan_out, fresh_connection, has_id, ids_within,
    lemma_fan_out_keeps_ids, lemma_position_unique, lemma_registered_members,
    lemma_remove_members, pending_of, position, registered, relayed, unregistered,
};
use crate::wire::{decode, decoded};

verus! {

/// Why a registration was turned down.
#[derive(Debug)]
pub enum RegistrationError {
    /// The id was given out before, to a connection that is live or has
    /// left: an id is never used twice.
    IdReused(u128),
}

/// The record of one live client.
struct Connection {
    id: u128,
    display_name: String,
    pending: Vec<ChatMessage>,
    open: bool,
}

impl View for Connection {
    type V = ConnView;

    closed spec fn view(&self) -> ConnView {
        ConnView {
            id: self.id,
            name: self.display_name@,
            pending: events_view(self.pending@),
            open: self.open,
        }
    }
}

/// The hub with its registry and the ids it has ever given out. The records
/// stand in a vector, in the order of registration, so that a delivery can
/// add to the channel of each record in place.
pub struct Hub {
    connections: Vec<Connection>,
    issued: HashSet<u128>,
}

impl View for Hub {
    type V = Seq<ConnView>;

    closed spec fn view(&self) -> Seq<ConnView> {
        records(self.connections@)
    }
}

/// The views of the stored records, one for one.
spec fn records(v: Seq<Connection>) -> Seq<ConnView> {
    v.map_values(|c: Connection| c@)
}

/// Draws a random version-4 identifier with `uuid::Uuid::new_v4` and hands
/// out its 128 bits (`Uuid::as_u128`). Nothing is claimed of the value: it
/// is random.
#[verifier::external_body]
fn fresh_id() -> (id: u128) {
    uuid::Uuid::new_v4().as_u128()
}

impl Hub {
    /// The registry's invariant: no id is held twice, and every id held
    /// was given out.
    #[verifier::type_invariant]
    spec fn kept(&self) -> bool {
        distinct_ids(self@) && ids_within(self@, self.issued())
    }

    /// The ids that this hub has ever given out, to connections that are
    /// live or have left.
    pub closed spec fn issued(&self) -> Set<u128> {
        self.issued@
    }

    /// A hub with no connection, which has given out no id.
    pub fn new() -> (r: Hub)
        ensures
            r@ == Seq::<ConnView>::empty(),
            r.issued() == Set::<u128>::empty(),
            distinct_ids(r@),
    {
        let r = Hub { connections: Vec::new(), issued: HashSet::new() };
        assert(r@ =~= Seq::<ConnView>::empty());
        r
    }

    /// Whether this id was ever given out by this hub.
    pub fn was_issued(&self, id: u128) -> (r: bool)
        ensures
            r == self.issued().contains(id),
            has_id(self@, id) ==> r,
    {
        proof {
            use_type_invariant(self);
        }
        self.issued.contains(&id)
    }

    /// The number of live connections. No id is held twice, in any hub.
    pub fn len(&self) -> (n: usize)
        ensures
            n == self@.len(),
            distinct_ids(self@),
            ids_within(self@, self.issued()),
    {
        proof {
            use_type_invariant(self);
        }
        self.connections.len()
    }

    /// The index of the connection with this id.
    fn find(&self, id: u128) -> (r: Option<usize>)
        ensures
            r is Some == has_id(self@, id),
            r matches Some(i) ==> i == position(self@, id) && 0 <= i < self@.len(),
    {
        proof {
            use_type_invariant(self);
        }
        let n = self.connections.len();
        let mut i: usize = 0;
        while i < n
            invariant
                distinct_ids(self@),
                n == self.connections.len(),
                i <= n,
                forall|k: int| 0 <= k < i ==> (#[trigger] self@[k]).id != id,
            decreases n - i,
        {
            if self.connections[i].id == id {
                proof {
                    assert(self@[i as int].id == id);
                    lemma_position_unique(self@, i as int);
                }
                return Some(i);
            }
            i += 1;
        }
        None
    }

    /// Whether a connection with this id is registered.
    pub fn contains(&self, id: u128) -> (r: bool)
        ensures
            r == has_id(self@, id),
    {
        self.find(id).is_some()
    }

    /// The ids of the live connections, each once.
    pub fn ids(&self) -> (r: Vec<u128>)
        ensures
            r@ == self@.map_values(|c: ConnView| c.id),
            distinct_ids(self@),
    {
        proof {
            use_type_invariant(self);
        }
        let n = self.connections.len();
        let mut out: Vec<u128> = Vec::new();
        let mut i: usize = 0;
        while i < n
            invariant
                n == self.connections.len(),
                i <= n,
                out@.len() == i,
                forall|k: int| 0 <= k < i ==> out@[k] == (#[trigger] self@[k]).id,
            decreases n - i,
        {
            out.push(self.connections[i].id);
            i += 1;
        }
        assert(out@ =~= self@.map_values(|c: ConnView| c.id));
        out
    }

    /// The display name under which this id registered.
    pub fn display_name(&self, id: u128) -> (r: Option<String>)
        ensures
            r is Some == has_id(self@, id),
            r matches Some(name) ==> name@ == self@[position(self@, id)].name,
    {
        match self.find(id) {
            Some(i) => Some(self.connections[i].display_name.clone()),
            None => None,
        }
    }

    /// Delivers `event` to every registered connection: each open channel
    /// takes it once, at its end; a closed channel is skipped and stays
    /// registered.
    pub fn broadcast(&mut self, event: &ChatMessage)
        ensures
            final(self)@ == fan_out(old(self)@, event@),
            final(self)@.len() == old(self)@.len(),
            forall|i: int|
                0 <= i < old(self)@.len() ==> #[trigger] final(self)@[i] == deliver(
                    old(self)@[i],
                    event@,
                ),
            final(self).issued() == old(self).issued(),
            distinct_ids(final(self)@),
            ids_within(final(self)@, final(self).issued()),
    {
        proof {
            use_type_invariant(&*self);
        }
        let mut conns: Vec<Connection> = Vec::new();
        std::mem::swap(&mut self.connections, &mut conns);
        let n = conns.len();
        let mut i: usize = 0;
        while i < n
            invariant
                n == conns.len(),
                n == old(self)@.len(),
                i <= n,
                forall|k: int|
                    0 <= k < i ==> #[trigger] records(conns@)[k] == deliver(old(self)@[k], event@),
                forall|k: int| i <= k < n ==> #[trigger] records(conns@)[k] == old(self)@[k],
            decreases n - i,
        {
            let ghost before = records(conns@);
            let ghost queue = conns@[i as int].pending@;
            if conns[i].open {
                let copy = event.clone();
                conns[i].pending.push(copy);
                proof {
                    assert(events_view(queue.push(copy)) =~= events_view(queue).push(event@));
                }
            }
            proof {
                assert(records(conns@)[i as int] == deliver(before[i as int], event@));
                assert forall|k: int| 0 <= k < n && k != i implies #[trigger] records(conns@)[k]
                    == before[k] by {}
            }
            i += 1;
        }
        proof {
            assert(records(conns@) =~= fan_out(old(self)@, event@));
            lemma_fan_out_keeps_ids(old(self)@, event@);
        }
        self.connections = conns;
    }

    /// Registers a connection under a given id: the id is recorded as given
    /// out, the connection enters the registry and the join notice goes to
    /// everyone, the newcomer first of all events it will ever see. An id
    /// that this hub gave out before, to a connection that is live or has
    /// left, is turned down and nothing changes.
    pub fn register_with_id(&mut self, id: u128, display_name: &str) -> (r: Result<
        (),
        RegistrationError,
    >)
        ensures
            distinct_ids(final(self)@),
            ids_within(final(self)@, final(self).issued()),
            old(self).issued().contains(id) ==> r == Err::<(), RegistrationError>(
                RegistrationError::IdReused(id),
            ) && final(self)@ == old(self)@ && final(self).issued() == old(self).issued(),
            !old(self).issued().contains(id) ==> r is Ok && final(self)@ == registered(
                old(self)@,
                id,
                display_name@,
            ) && final(self).issued() == old(self).issued().insert(id),
    {
        proof {
            use_type_invariant(&*self);
        }
        if self.issued.contains(&id) {
            return Err(RegistrationError::IdReused(id));
        }
        proof {
            if has_id(old(self)@, id) {
                let i = position(old(self)@, id);
                assert(old(self).issued().contains(old(self)@[i].id));
            }
        }
        let record = Connection {
            id,
            display_name: display_name.to_owned(),
            pending: Vec::new(),
            open: true,
        };
        proof {
            assert(events_view(record.pending@) =~= Seq::<EventView>::empty());
            assert(record@ == fresh_connection(id, display_name@));
        }
        let mut conns: Vec<Connection> = Vec::new();
        std::mem::swap(&mut self.connections, &mut conns);
        let mut issued: HashSet<u128> = HashSet::new();
        std::mem::swap(&mut self.issued, &mut issued);
        issued.insert(id);
        self.issued = issued;
        conns.push(record);
        proof {
            let p = old(self)@.push(fresh_connection(id, display_name@));
            assert(records(conns@) =~= p);
            lemma_registered_members(old(self)@, id, display_name@);
            assert forall|i: int| 0 <= i < p.len() implies self.issued().contains(
                (#[trigger] p[i]).id,
            ) by {
                if i < old(self)@.len() {
                    assert(old(self).issued().contains(old(self)@[i].id));
                }
            }
        }
        self.connections = conns;
        let notice = ChatMessage::join(display_name);
        self.broadcast(&notice);
        Ok(())
    }

    /// Registers a connection under a freshly drawn id and returns the id,
    /// which this hub never gave out before. The draw is random: in the all
    /// but impossible case that it hits an id given out before, the
    /// registration fails and nothing changes.
    pub fn register(&mut self, display_name: &str) -> (r: Result<u128, RegistrationError>)
        ensures
            distinct_ids(final(self)@),
            ids_within(final(self)@, final(self).issued()),
            match r {
                Ok(id) => {
                    &&& !old(self).issued().contains(id)
                    &&& !has_id(old(self)@, id)
                    &&& final(self)@ == registered(old(self)@, id, display_name@)
                    &&& final(self).issued() == old(self).issued().insert(id)
                },
                Err(RegistrationError::IdReused(id)) => {
                    &&& old(self).issued().contains(id)
                    &&& final(self)@ == old(self)@
                    &&& final(self).issued() == old(self).issued()
                },
            },
    {
        proof {
            use_type_invariant(&*self);
        }
        let id = fresh_id();
        proof {
            if has_id(old(self)@, id) {
                let i = position(old(self)@, id);
                assert(old(self).issued().contains(old(self)@[i].id));
            }
        }
        match self.register_with_id(id, display_name) {
            Ok(()) => Ok(id),
            Err(e) => Err(e),
        }
    }

    /// Relays an inbound frame: a frame that decodes is broadcast as decoded,
    /// one that does not is dropped and nothing changes. The result says
    /// whether the frame was broadcast. The sender is not consulted: the hub
    /// trusts the frame's own `username`.
    #[allow(unused_variables)]
    pub fn relay(&mut self, sender: u128, payload: &str) -> (r: bool)
        ensures
            distinct_ids(final(self)@),
            ids_within(final(self)@, final(self).issued()),
            final(self)@ == relayed(old(self)@, decoded(payload@)),
            final(self).issued() == old(self).issued(),
            r == decoded(payload@).is_some(),
    {
        proof {
            use_type_invariant(&*self);
        }
        match decode(payload) {
            Some(event) => {
                self.broadcast(&event);
                true
            },
            None => false,
        }
    }

    /// Unregisters a connection: it leaves the registry and the leave notice
    /// with its display name goes to those that remain. An absent id changes
    /// nothing. The result says whether the connection was there.
    pub fn unregister(&mut self, id: u128) -> (r: bool)
        ensures
            distinct_ids(final(self)@),
            ids_within(final(self)@, final(self).issued()),
            final(self)@ == unregistered(old(self)@, id),
            final(self).issued() == old(self).issued(),
            r == has_id(old(self)@, id),
            !has_id(final(self)@, id),
    {
        proof {
            use_type_invariant(&*self);
        }
        match self.find(id) {
            Some(i) => {
                let mut conns: Vec<Connection> = Vec::new();
                std::mem::swap(&mut self.connections, &mut conns);
                let gone = conns.remove(i);
                proof {
                    assert(records(conns@) =~= old(self)@.remove(i as int));
                    assert(gone@ == old(self)@[i as int]);
                    lemma_remove_members(old(self)@, i as int);
                }
                self.connections = conns;
                let notice = ChatMessage::leave(gone.display_name.as_str());
                self.broadcast(&notice);
                proof {
                    lemma_fan_out_keeps_ids(old(self)@.remove(i as int), notice@);
                }
                true
            },
            None => false,
        }
    }

    /// Marks the outbound channel of a connection as closed: later
    /// deliveries skip it. The connection stays registered. The result says
    /// whether the connection was there.
    pub fn close_channel(&mut self, id: u128) -> (r: bool)
        ensures
            distinct_ids(final(self)@),
            ids_within(final(self)@, final(self).issued()),
            final(self)@ == channel_closed(old(self)@, id),
            final(self).issued() == old(self).issued(),
            r == has_id(old(self)@, id),
    {
        proof {
            use_type_invariant(&*self);
        }
        match self.find(id) {
            Some(i) => {
                let mut conns: Vec<Connection> = Vec::new();
                std::mem::swap(&mut self.connections, &mut conns);
                conns[i].open = false;
                proof {
                    let s = old(self)@;
                    let t = records(conns@);
                    assert(t =~= s.update(i as int, ConnView { open: false, ..s[i as int] }));
                    assert forall|a: int, b: int| 0 <= a < b < t.len() implies (#[trigger] t[a]).id
                        != (#[trigger] t[b]).id by {
                        assert(s[a].id != s[b].id);
                    }
                }
                self.connections = conns;
                true
            },
            None => false,
        }
    }

    /// Takes the pending events of a connection out of its outbound
    /// channel, oldest first. For an absent id the result is empty.
    pub fn drain(&mut self, id: u128) -> (r: Vec<ChatMessage>)
        ensures
            distinct_ids(final(self)@),
            ids_within(final(self)@, final(self).issued()),
            events_view(r@) == pending_of(old(self)@, id),
            final(self)@ == drained(old(self)@, id),
            final(self).issued() == old(self).issued(),
    {
        proof {
            use_type_invariant(&*self);
        }
        match self.find(id) {
            Some(i) => {
                let mut conns: Vec<Connection> = Vec::new();
                std::mem::swap(&mut self.connections, &mut conns);
                let mut out: Vec<ChatMessage> = Vec::new();
                std::mem::swap(&mut out, &mut conns[i].pending);
                proof {
                    let s = old(self)@;
                    let t = records(conns@);
                    assert(events_view(Seq::<ChatMessage>::empty()) =~= Seq::<EventView>::empty());
                    assert(t =~= s.update(
                        i as int,
                        ConnView { pending: Seq::empty(), ..s[i as int] },
                    ));
                    assert forall|a: int, b: int| 0 <= a < b < t.len() implies (#[trigger] t[a]).id
                        != (#[trigger] t[b]).id by {
                        assert(s[a].id != s[b].id);
                    }
                }
                self.connections = conns;
                out
            },
            None => {
                let out: Vec<ChatMessage> = Vec::new();
                proof {
                    assert(events_view(out@) =~= Seq::<EventView>::empty());
                }
                out
            },
        }
    }
}

} // verus!
