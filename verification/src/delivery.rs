//! Delivery: resolving which connected clients receive an event.
//!
//! Each function takes a registry snapshot and returns the ordered list
//! of (recipient, event) pairs to write.  The transport layer around the
//! library performs the writes, one serialized channel per recipient, in
//! exactly this order; a failed write to one recipient must not stop the
//! writes to the others.

use vstd::prelude::*;
use crate::protocol::{EventMessage, EventV};
use crate::registry::{reg_has, reg_ids, RegEntry, RegEntryV, Registry};
use crate::rooms::{rooms_has, spec_room, RoomManager};

verus! {

/// One delivery instruction: write `event` to `to`'s outbound channel.
pub struct Outgoing {
    pub to: u128,
    pub event: EventMessage,
}

/// Mathematical model of `Outgoing`.
#[verifier::ext_equal]
pub struct OutgoingV {
    pub to: u128,
    pub event: EventV,
}

impl View for Outgoing {
    type V = OutgoingV;

    open spec fn view(&self) -> OutgoingV {
        OutgoingV { to: self.to, event: self.event@ }
    }
}

impl DeepView for Outgoing {
    type V = OutgoingV;

    open spec fn deep_view(&self) -> OutgoingV {
        self@
    }
}

/// One copy of `ev` for each identity of `ids`, in order.
pub open spec fn multicast(ids: Seq<u128>, ev: EventV) -> Seq<OutgoingV> {
    ids.map_values(|i: u128| OutgoingV { to: i, event: ev })
}

/// Fan-out to every registered client, in connection order.
pub open spec fn spec_send(regs: Seq<RegEntryV>, ev: EventV) -> Seq<OutgoingV> {
    multicast(reg_ids(regs), ev)
}

/// Keeps every identity other than `excl`.
pub open spec fn keep_not(excl: u128) -> spec_fn(u128) -> bool {
    |x: u128| x != excl
}

/// Keeps the identities registered in `regs`.
pub open spec fn keep_registered(regs: Seq<RegEntryV>) -> spec_fn(u128) -> bool {
    |m: u128| reg_has(regs, m)
}

/// Fan-out to every registered client but `excl`, in connection order.
pub open spec fn spec_broadcast(regs: Seq<RegEntryV>, ev: EventV, excl: u128) -> Seq<OutgoingV> {
    multicast(reg_ids(regs).filter(keep_not(excl)), ev)
}

/// The members of a room that are currently registered, in join order.
pub open spec fn room_targets(members: Seq<u128>, regs: Seq<RegEntryV>) -> Seq<u128> {
    members.filter(keep_registered(regs))
}

/// A single delivery to `id`, provided `id` is registered.
pub open spec fn spec_unicast(regs: Seq<RegEntryV>, id: u128, ev: EventV) -> Seq<OutgoingV> {
    if reg_has(regs, id) {
        seq![OutgoingV { to: id, event: ev }]
    } else {
        Seq::<OutgoingV>::empty()
    }
}

/// The identities of `ids` other than `excl`, in order.
pub(crate) fn filter_not(ids: &Vec<u128>, excl: u128) -> (r: Vec<u128>)
    ensures
        r@ == ids@.filter(keep_not(excl)),
{
    let n = ids.len();
    let mut kept: Vec<u128> = Vec::new();
    let mut i: usize = 0;
    while i < n
        invariant
            n == ids@.len(),
            i <= n,
            kept@ =~= ids@.take(i as int).filter(keep_not(excl)),
        decreases n - i,
    {
        proof {
            assert(ids@.take(i + 1).drop_last() =~= ids@.take(i as int));
            Seq::lemma_filter_push(ids@.take(i as int), ids@[i as int], keep_not(excl));
            assert(keep_not(excl)(ids@[i as int]) == (ids@[i as int] != excl));
            assert(ids@.take(i + 1) =~= ids@.take(i as int).push(ids@[i as int]));
        }
        if ids[i] != excl {
            kept.push(ids[i]);
        }
        i = i + 1;
    }
    proof {
        assert(ids@.take(n as int) =~= ids@);
    }
    kept
}

/// One copy of `message` addressed to each identity of `ids`, in order.
pub(crate) fn multicast_to(ids: &Vec<u128>, message: &EventMessage) -> (r: Vec<Outgoing>)
    ensures
        r.deep_view() == multicast(ids@, message@),
{
    let n = ids.len();
    let mut r: Vec<Outgoing> = Vec::new();
    let mut i: usize = 0;
    while i < n
        invariant
            n == ids@.len(),
            i <= n,
            r.deep_view() =~= multicast(ids@.take(i as int), message@),
        decreases n - i,
    {
        r.push(Outgoing { to: ids[i], event: message.clone() });
        proof {
            assert(ids@.take(i + 1).drop_last() =~= ids@.take(i as int));
            assert(ids@.take(i + 1).last() == ids@[i as int]);
            assert(multicast(ids@.take(i + 1), message@) =~= multicast(
                ids@.take(i as int),
                message@,
            ).push(OutgoingV { to: ids@[i as int], event: message@ }));
            assert(r.deep_view() =~= multicast(ids@.take(i + 1), message@));
        }
        i = i + 1;
    }
    proof {
        assert(ids@.take(n as int) =~= ids@);
    }
    r
}

/// Broadcast `message` to every registered client (`broadcastAll`).
pub fn send(message: &EventMessage, reg: &Registry) -> (r: Vec<Outgoing>)
    requires
        reg.wf(),
    ensures
        r.deep_view() == spec_send(reg@, message@),
{
    let ids = reg.all_ids();
    multicast_to(&ids, message)
}

/// Broadcast `message` to every registered client except `sender_id`
/// (`broadcastExcept`).
pub fn broadcast(message: &EventMessage, sender_id: u128, reg: &Registry) -> (r: Vec<Outgoing>)
    requires
        reg.wf(),
    ensures
        r.deep_view() == spec_broadcast(reg@, message@, sender_id),
{
    let ids = reg.all_ids();
    let kept = filter_not(&ids, sender_id);
    multicast_to(&kept, message)
}

/// Broadcast `message` to every currently registered member of the room
/// carrying `room_id` (`broadcastToRoom`); no deliveries when
/// there is no such room.
pub fn broadcast_to_room(
    message: &EventMessage,
    room_id: u128,
    rm: &RoomManager,
    reg: &Registry,
) -> (r: Vec<Outgoing>)
    requires
        rm.wf(),
        reg.wf(),
    ensures
        rooms_has(rm@.rooms, room_id) ==> r.deep_view() == multicast(
            room_targets(spec_room(rm@.rooms, room_id)->Some_0.members, reg@),
            message@,
        ),
        !rooms_has(rm@.rooms, room_id) ==> r.deep_view() == Seq::<OutgoingV>::empty(),
{
    match rm.get_room(room_id) {
        Some(room) => {
            let targets = registered_of(&room.members, reg);
            multicast_to(&targets, message)
        },
        None => {
            let r: Vec<Outgoing> = Vec::new();
            proof {
                assert(r.deep_view() =~= Seq::<OutgoingV>::empty());
            }
            r
        },
    }
}

/// The members of `members` that are registered, in order.
pub fn registered_of(members: &Vec<u128>, reg: &Registry) -> (r: Vec<u128>)
    requires
        reg.wf(),
    ensures
        r@ == room_targets(members@, reg@),
{
    let n = members.len();
    let mut r: Vec<u128> = Vec::new();
    let mut i: usize = 0;
    while i < n
        invariant
            reg.wf(),
            n == members@.len(),
            i <= n,
            r@ =~= members@.take(i as int).filter(keep_registered(reg@)),
        decreases n - i,
    {
        proof {
            assert(members@.take(i + 1).drop_last() =~= members@.take(i as int));
            Seq::lemma_filter_push(
                members@.take(i as int),
                members@[i as int],
                keep_registered(reg@),
            );
            assert(keep_registered(reg@)(members@[i as int]) == reg_has(reg@, members@[i as int]));
            assert(members@.take(i + 1) =~= members@.take(i as int).push(members@[i as int]));
        }
        if reg.has(members[i]) {
            r.push(members[i]);
        }
        i = i + 1;
    }
    proof {
        assert(members@.take(n as int) =~= members@);
    }
    r
}

/// A copy of `client_id`'s registry entry, if it is registered.
pub fn get_client_by_id(reg: &Registry, client_id: u128) -> (r: Option<RegEntry>)
    requires
        reg.wf(),
    ensures
        match r {
            Some(e) => reg.spec_has(client_id) && e@ == reg@[crate::registry::reg_idx(
                reg@,
                client_id,
            )],
            None => !reg.spec_has(client_id),
        },
{
    reg.get(client_id)
}

/// Unicast `event` to `client_id`, provided it is registered (`unicast`).
pub fn send_to_client(reg: &Registry, client_id: u128, event: EventMessage) -> (r: Vec<Outgoing>)
    requires
        reg.wf(),
    ensures
        r.deep_view() == spec_unicast(reg@, client_id, event@),
{
    let mut r: Vec<Outgoing> = Vec::new();
    if reg.has(client_id) {
        r.push(Outgoing { to: client_id, event });
        proof {
            assert(r.deep_view() =~= spec_unicast(reg@, client_id, event@));
        }
    } else {
        proof {
            assert(r.deep_view() =~= spec_unicast(reg@, client_id, event@));
        }
    }
    r
}

/// The display name `client_id` registered with, if any.
pub fn get_username_from_client(reg: &Registry, client_id: u128) -> (r: Option<String>)
    requires
        reg.wf(),
    ensures
        r.deep_view() == reg.spec_name_of(client_id),
{
    reg.name_of(client_id)
}

} // verus!
