//! What holds of the hub's operations taken together, stated over the
//! registry model and proved.

use vstd::prelude::*;
use crate::wire::assembled;
use crate::event::{EventView, is_kind, join_event, leave_event};
use crate::registry::{
    ConnView, channel_closed, deliver, distinct_ids, fan_out, fresh_connection, has_id,
    lemma_fan_out_keeps_ids, lemma_position_unique, lemma_registered_members,
    lemma_unregistered_members, member_ids, position, registered, relayed,
    unregistered,
};

verus! {

/// One call on the hub.
pub ghost enum HubOp {
    Register { id: u128, name: Seq<char> },
    Unregister { id: u128 },
    Relay { frame: Option<EventView> },
    CloseChannel { id: u128 },
}

/// Whether a call is the registration of `id`.
pub open spec fn registers_id(op: HubOp, id: u128) -> bool {
    op matches HubOp::Register { id: x, .. } && x == id
}

/// Whether a call is the unregistration of `id`.
pub open spec fn unregisters_id(op: HubOp, id: u128) -> bool {
    op matches HubOp::Unregister { id: x } && x == id
}

/// The hub as the laws see it: the registry and the ids ever given out.
pub ghost struct HubState {
    pub conns: Seq<ConnView>,
    pub issued: Set<u128>,
}

/// The hub after one call. A registration under an id that was given out
/// before is turned down and changes nothing.
pub open spec fn step(s: HubState, op: HubOp) -> HubState {
    match op {
        HubOp::Register { id, name } => if s.issued.contains(id) {
            s
        } else {
            HubState { conns: registered(s.conns, id, name), issued: s.issued.insert(id) }
        },
        HubOp::Unregister { id } => HubState { conns: unregistered(s.conns, id), ..s },
        HubOp::Relay { frame } => HubState { conns: relayed(s.conns, frame), ..s },
        HubOp::CloseChannel { id } => HubState { conns: channel_closed(s.conns, id), ..s },
    }
}

/// The hub after a sequence of calls on a new hub, first to last.
pub open spec fn run(ops: Seq<HubOp>) -> HubState
    decreases ops.len(),
{
    if ops.len() == 0 {
        HubState { conns: Seq::empty(), issued: Set::empty() }
    } else {
        step(run(ops.drop_last()), ops.last())
    }
}

/// Whether some call of the sequence registers `id`.
pub open spec fn registers(ops: Seq<HubOp>, id: u128) -> bool {
    exists|i: int| 0 <= i < ops.len() && registers_id(#[trigger] ops[i], id)
}

/// Whether some call of the sequence unregisters `id` after an earlier call
/// registered it. An unregistration of an id that was not yet registered
/// takes nothing out and does not count.
pub open spec fn unregistered_since(ops: Seq<HubOp>, id: u128) -> bool {
    exists|i: int, j: int|
        0 <= i < j < ops.len() && registers_id(#[trigger] ops[i], id) && unregisters_id(
            #[trigger] ops[j],
            id,
        )
}

/// Closing a channel changes no id.
pub proof fn lemma_channel_closed_keeps_ids(s: Seq<ConnView>, id: u128)
    ensures
        channel_closed(s, id).len() == s.len(),
        forall|x: u128| has_id(channel_closed(s, id), x) == has_id(s, x),
        member_ids(channel_closed(s, id)) == member_ids(s),
        distinct_ids(s) ==> distinct_ids(channel_closed(s, id)),
{
    let t = channel_closed(s, id);
    assert forall|x: u128| has_id(t, x) == has_id(s, x) by {
        if has_id(t, x) {
            let k = choose|k: int| 0 <= k < t.len() && (#[trigger] t[k]).id == x;
            assert(s[k].id == x);
        }
        if has_id(s, x) {
            let k = choose|k: int| 0 <= k < s.len() && (#[trigger] s[k]).id == x;
            assert(t[k].id == x);
        }
    }
    assert(member_ids(t) =~= member_ids(s));
    if distinct_ids(s) {
        assert forall|a: int, b: int| 0 <= a < b < t.len() implies (#[trigger] t[a]).id != (
        #[trigger] t[b]).id by {
            assert(s[a].id != s[b].id);
        }
    }
}

/// Registry consistency. After any sequence of calls on a new hub, the
/// registry holds no id twice, the ids given out are exactly the ids that a
/// call registered, and the members are exactly the ids that were registered
/// and have not been unregistered since. A second registration of an id
/// changes nothing, so no id is ever used twice.
pub proof fn law_registry_consistency(ops: Seq<HubOp>)
    ensures
        distinct_ids(run(ops).conns),
        run(ops).issued == Set::new(|id: u128| registers(ops, id)),
        member_ids(run(ops).conns) == Set::new(
            |id: u128| registers(ops, id) && !unregistered_since(ops, id),
        ),
        member_ids(run(ops).conns).subset_of(run(ops).issued),
    decreases ops.len(),
{
    let given = Set::new(|id: u128| registers(ops, id));
    let target = Set::new(|id: u128| registers(ops, id) && !unregistered_since(ops, id));
    if ops.len() == 0 {
        assert(run(ops).issued =~= given);
        assert(member_ids(run(ops).conns) =~= target);
    } else {
        let prefix = ops.drop_last();
        let last = ops.last();
        let n = prefix.len() as int;
        assert(ops[n] == last);
        law_registry_consistency(prefix);
        let before = run(prefix);
        assert forall|id: u128|
            registers(ops, id) == (registers(prefix, id) || registers_id(last, id)) by {
            if registers(ops, id) {
                let i = choose|i: int| 0 <= i < ops.len() && registers_id(#[trigger] ops[i], id);
                if i < n {
                    assert(prefix[i] == ops[i]);
                }
            }
            if registers(prefix, id) {
                let i = choose|i: int|
                    0 <= i < prefix.len() && registers_id(#[trigger] prefix[i], id);
                assert(prefix[i] == ops[i]);
            }
        }
        assert forall|id: u128|
            unregistered_since(ops, id) == (unregistered_since(prefix, id) || (unregisters_id(
                last,
                id,
            ) && registers(prefix, id))) by {
            if unregistered_since(ops, id) {
                let (i, j) = choose|i: int, j: int|
                    0 <= i < j < ops.len() && registers_id(#[trigger] ops[i], id)
                        && unregisters_id(#[trigger] ops[j], id);
                assert(prefix[i] == ops[i]);
                if j < n {
                    assert(prefix[j] == ops[j]);
                }
            }
            if unregistered_since(prefix, id) {
                let (i, j) = choose|i: int, j: int|
                    0 <= i < j < prefix.len() && registers_id(#[trigger] prefix[i], id)
                        && unregisters_id(#[trigger] prefix[j], id);
                assert(prefix[i] == ops[i] && prefix[j] == ops[j]);
            }
            if unregisters_id(last, id) && registers(prefix, id) {
                let i = choose|i: int|
                    0 <= i < prefix.len() && registers_id(#[trigger] prefix[i], id);
                assert(prefix[i] == ops[i]);
                assert(registers_id(ops[i], id) && unregisters_id(ops[n], id));
            }
        }
        assert forall|id: u128| unregistered_since(prefix, id) implies registers(prefix, id) by {
            let (i, j) = choose|i: int, j: int|
                0 <= i < j < prefix.len() && registers_id(#[trigger] prefix[i], id)
                    && unregisters_id(#[trigger] prefix[j], id);
            assert(registers_id(prefix[i], id));
        }
        match last {
            HubOp::Register { id, name } => {
                if !before.issued.contains(id) {
                    assert(!registers(prefix, id));
                    assert(!member_ids(before.conns).contains(id));
                    assert(!has_id(before.conns, id));
                    lemma_registered_members(before.conns, id, name);
                }
            },
            HubOp::Unregister { id } => {
                lemma_unregistered_members(before.conns, id);
            },
            HubOp::Relay { frame } => {
                if let Some(event) = frame {
                    lemma_fan_out_keeps_ids(before.conns, event);
                }
            },
            HubOp::CloseChannel { id } => {
                lemma_channel_closed_keeps_ids(before.conns, id);
            },
        }
        assert(run(ops).issued =~= given);
        assert(member_ids(run(ops).conns) =~= target);
    }
}

/// No reuse. Once a call has registered an id, a later registration of the
/// same id changes nothing: neither the registry nor the ids given out.
pub proof fn law_id_never_reused(ops: Seq<HubOp>, id: u128, name: Seq<char>)
    requires
        registers(ops, id),
    ensures
        step(run(ops), HubOp::Register { id, name }) == run(ops),
{
    law_registry_consistency(ops);
}

/// Whether every channel begins with the join notice of its own connection.
pub open spec fn own_join_heads(s: Seq<ConnView>) -> bool {
    forall|i: int|
        0 <= i < s.len() ==> (#[trigger] s[i]).pending.len() > 0 && s[i].pending[0] == join_event(
            s[i].name,
        )
}

/// Delivery adds at the end only, so it keeps the head of every channel.
pub proof fn lemma_fan_out_keeps_heads(s: Seq<ConnView>, e: EventView)
    requires
        own_join_heads(s),
    ensures
        own_join_heads(fan_out(s, e)),
{
    let t = fan_out(s, e);
    assert forall|i: int| 0 <= i < t.len() implies (#[trigger] t[i]).pending.len() > 0
        && t[i].pending[0] == join_event(t[i].name) by {
        assert(s[i].pending.len() > 0);
    }
}

/// Self-join visibility, of every state. After any sequence of calls on an
/// empty hub, with nothing taken out of the channels meanwhile, the first
/// event that each registered connection has received is its own join
/// notice.
pub proof fn law_own_join_before_all(ops: Seq<HubOp>)
    ensures
        own_join_heads(run(ops).conns),
    decreases ops.len(),
{
    if ops.len() > 0 {
        let prefix = ops.drop_last();
        law_own_join_before_all(prefix);
        let before = run(prefix).conns;
        match ops.last() {
            HubOp::Register { id, name } => {
                if !run(prefix).issued.contains(id) {
                    law_self_join_first(before, id, name);
                    let after = registered(before, id, name);
                    assert forall|i: int| 0 <= i < after.len() implies (
                    #[trigger] after[i]).pending.len() > 0 && after[i].pending[0] == join_event(
                        after[i].name,
                    ) by {
                        if i < before.len() {
                            assert(before[i].pending.len() > 0);
                            assert(after[i] == deliver(before[i], join_event(name)));
                        } else {
                            assert(after[i] == after.last());
                        }
                    }
                }
            },
            HubOp::Unregister { id } => {
                if has_id(before, id) {
                    let i = position(before, id);
                    let rest = before.remove(i);
                    assert forall|k: int| 0 <= k < rest.len() implies (
                    #[trigger] rest[k]).pending.len() > 0 && rest[k].pending[0] == join_event(
                        rest[k].name,
                    ) by {
                        let k0 = if k < i { k } else { k + 1 };
                        assert(rest[k] == before[k0]);
                    }
                    lemma_fan_out_keeps_heads(rest, leave_event(before[i].name));
                }
            },
            HubOp::Relay { frame } => {
                if let Some(event) = frame {
                    lemma_fan_out_keeps_heads(before, event);
                }
            },
            HubOp::CloseChannel { id } => {
                let after = channel_closed(before, id);
                assert forall|k: int| 0 <= k < after.len() implies (
                #[trigger] after[k]).pending.len() > 0 && after[k].pending[0] == join_event(
                    after[k].name,
                ) by {
                    assert(before[k].pending.len() > 0);
                }
            },
        }
    }
}

/// Self-join visibility. Right after registration the newcomer's channel
/// holds its own join notice and nothing else, so that notice is the first
/// event it receives; and every other open channel has taken the same notice
/// at its end.
pub proof fn law_self_join_first(s: Seq<ConnView>, id: u128, name: Seq<char>)
    ensures
        registered(s, id, name).len() == s.len() + 1,
        registered(s, id, name).last().id == id,
        registered(s, id, name).last().name == name,
        registered(s, id, name).last().pending == seq![join_event(name)],
        forall|i: int|
            0 <= i < s.len() ==> #[trigger] registered(s, id, name)[i] == deliver(
                s[i],
                join_event(name),
            ),
{
    let p = s.push(fresh_connection(id, name));
    assert(registered(s, id, name).last() == deliver(p[s.len() as int], join_event(name)));
    assert(Seq::<EventView>::empty().push(join_event(name)) =~= seq![join_event(name)]);
    assert forall|i: int| 0 <= i < s.len() implies #[trigger] registered(s, id, name)[i] == deliver(
        s[i],
        join_event(name),
    ) by {
        assert(p[i] == s[i]);
    }
}

/// Delivery never displaces what a channel already holds: the event that a
/// connection received first stays first.
pub proof fn law_first_event_stays(c: ConnView, e: EventView)
    requires
        c.pending.len() > 0,
    ensures
        deliver(c, e).pending[0] == c.pending[0],
{
}

/// Exactly-one leave. The first unregistration of a registered id takes the
/// connection out and puts one leave notice with its display name at the end
/// of every remaining open channel; any further unregistration of that id
/// changes nothing.
pub proof fn law_single_leave(s: Seq<ConnView>, id: u128)
    requires
        distinct_ids(s),
        has_id(s, id),
    ensures
        ({
            let i = position(s, id);
            let after = unregistered(s, id);
            &&& after.len() == s.len() - 1
            &&& !has_id(after, id)
            &&& forall|k: int|
                0 <= k < after.len() ==> #[trigger] after[k] == deliver(
                    s.remove(i)[k],
                    leave_event(s[i].name),
                )
            &&& unregistered(after, id) == after
        }),
{
    lemma_unregistered_members(s, id);
}

/// Fan-out completeness. A broadcast keeps every connection in its place;
/// with distinct ids each registered id stands at one place only, so each
/// open channel takes the event exactly once, at its end, and the event is
/// the one that was broadcast.
pub proof fn law_fan_out_complete(s: Seq<ConnView>, e: EventView)
    requires
        distinct_ids(s),
    ensures
        fan_out(s, e).len() == s.len(),
        distinct_ids(fan_out(s, e)),
        member_ids(fan_out(s, e)) == member_ids(s),
        forall|i: int|
            0 <= i < s.len() ==> {
                let c = #[trigger] fan_out(s, e)[i];
                &&& c.id == s[i].id
                &&& c.name == s[i].name
                &&& c.open == s[i].open
                &&& position(fan_out(s, e), c.id) == i
                &&& s[i].open ==> c.pending == s[i].pending.push(e)
            },
{
    lemma_fan_out_keeps_ids(s, e);
    assert forall|i: int| 0 <= i < s.len() implies position(
        fan_out(s, e),
        (#[trigger] fan_out(s, e)[i]).id,
    ) == i by {
        lemma_position_unique(fan_out(s, e), i);
    }
}

/// Malformed drop. A frame that lacks `message_type`, or whose
/// `message_type` is none of the three kinds, assembles to no event, and the
/// relay of no event leaves the registry as it was.
pub proof fn law_malformed_dropped(
    s: Seq<ConnView>,
    username: Option<Seq<char>>,
    content: Option<Seq<char>>,
    message_type: Option<Seq<char>>,
)
    requires
        message_type matches Some(t) ==> !is_kind(t),
    ensures
        assembled(username, content, message_type) is None,
        relayed(s, assembled(username, content, message_type)) == s,
{
}

/// Isolation under failure. Closing one connection's channel leaves it
/// registered, and a broadcast after that still puts the event at the end of
/// every other open channel, while the closed one is left as it was.
pub proof fn law_closed_channel_isolated(s: Seq<ConnView>, closed: u128, e: EventView)
    requires
        distinct_ids(s),
        has_id(s, closed),
    ensures
        ({
            let i = position(s, closed);
            let after = fan_out(channel_closed(s, closed), e);
            &&& after.len() == s.len()
            &&& member_ids(after) == member_ids(s)
            &&& after[i].id == closed
            &&& after[i].pending == s[i].pending
            &&& forall|k: int|
                0 <= k < s.len() && k != i ==> #[trigger] after[k] == deliver(s[k], e)
            &&& relayed(channel_closed(s, closed), Some(e)) == after
        }),
{
    let shut = channel_closed(s, closed);
    lemma_channel_closed_keeps_ids(s, closed);
    lemma_fan_out_keeps_ids(shut, e);
}

} // verus!
