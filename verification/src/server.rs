//! The shared server state, the dispatch entry point, and the
//! per-connection lifecycle.
//!
//! The registry and the room manager are the only shared mutable state.
//! The transport around the library runs one task per connection and
//! serializes every call in here under one lock, so each dispatch step
//! is atomic with respect to the others; the contracts here describe one
//! such step exactly.

use vstd::prelude::*;
use crate::protocol::{EventMessage, EventV};
use crate::registry::{reg_has, reg_idx, RegEntryV, Registry};
use crate::rooms::{
    rooms_has,
    spec_add_member,
    spec_create_room,
    spec_leave_user,
    spec_room_of,
    user_has,
    RmV,
    RoomManager,
    RoomV,
};
use crate::delivery::{Outgoing, OutgoingV};
use crate::dispatch::{
    chat_outputs,
    create_room_outputs,
    handle_chat,
    handle_join,
    join_outputs,
    join_room_outputs,
    leave_room_outputs,
};

verus! {

/// The shared mutable state of the relay: who is connected, and who is
/// in which room.
pub struct ServerState {
    pub registry: Registry,
    pub rooms: RoomManager,
}

impl ServerState {
    pub open spec fn wf(&self) -> bool {
        self.registry.wf() && self.rooms.wf()
    }

    /// A server with no clients and no rooms.
    pub fn new() -> (s: ServerState)
        ensures
            s.wf(),
            s.registry@ == Seq::<RegEntryV>::empty(),
            s.rooms@ == (RmV { rooms: Seq::<RoomV>::empty(), users: Seq::<crate::rooms::UserRoom>::empty() }),
    {
        ServerState { registry: Registry::new(), rooms: RoomManager::new() }
    }
}

/// The deliveries one dispatch step triggers, by event variant.  Server-authored variants arriving from a client
/// (`AssignedId`, `AckDelivered`, `Error`) and `Ping` trigger none.
pub open spec fn dispatch_outputs(
    regs: Seq<RegEntryV>,
    rm: RmV,
    sender: u128,
    ev: EventV,
    fresh: u128,
) -> Seq<OutgoingV> {
    match ev {
        EventV::Join { username } => join_outputs(regs, sender, username),
        EventV::Chat { id, sender: _, content, scope: _ } => chat_outputs(
            regs,
            rm,
            sender,
            id,
            content,
        ),
        EventV::CreateRoom { creator: _, room_name } => create_room_outputs(
            regs,
            rm,
            sender,
            room_name,
            fresh,
        ),
        EventV::JoinRoom { user: _, room } => join_room_outputs(regs, rm, sender, room.id),
        EventV::LeaveRoom { user: _, room: _ } => leave_room_outputs(regs, rm, sender),
        _ => Seq::<OutgoingV>::empty(),
    }
}

/// The room state after one dispatch step.
pub open spec fn rooms_after_dispatch(rm: RmV, sender: u128, ev: EventV, fresh: u128) -> RmV {
    match ev {
        EventV::CreateRoom { creator: _, room_name } => if rooms_has(rm.rooms, fresh) || user_has(
            rm.users,
            sender,
        ) {
            rm
        } else {
            spec_create_room(rm, sender, fresh, room_name)
        },
        EventV::JoinRoom { user: _, room } => if !rooms_has(rm.rooms, room.id) || spec_room_of(
            rm.users,
            sender,
        ) == Some(room.id) {
            rm
        } else {
            spec_add_member(spec_leave_user(rm, sender), sender, room.id)
        },
        EventV::LeaveRoom { user: _, room: _ } => spec_leave_user(rm, sender),
        _ => rm,
    }
}

/// The registry after one dispatch step: only a `Join` changes it, by
/// recording the sender's display name.
pub open spec fn regs_after_dispatch(regs: Seq<RegEntryV>, sender: u128, ev: EventV) -> Seq<
    RegEntryV,
> {
    match ev {
        EventV::Join { username } => if reg_has(regs, sender) {
            regs.update(reg_idx(regs, sender), RegEntryV { id: sender, name: Some(username) })
        } else {
            regs
        },
        _ => regs,
    }
}

/// One state-machine step of the dispatcher: consumes one
/// decoded event read from `sender_id`'s connection, updates the shared
/// state, and returns the deliveries to perform, in order.
///
/// `fresh_room_id` is a freshly drawn identity, consumed only by a
/// `CreateRoom` step.  The sender identity is the connection's own;
/// identities inside the event's payload are ignored.
pub fn dispatch(
    message: EventMessage,
    sender_id: u128,
    state: &mut ServerState,
    fresh_room_id: u128,
) -> (out: Vec<Outgoing>)
    requires
        old(state).wf(),
    ensures
        final(state).wf(),
        final(state).registry@ == regs_after_dispatch(old(state).registry@, sender_id, message@),
        final(state).rooms@ == rooms_after_dispatch(
            old(state).rooms@,
            sender_id,
            message@,
            fresh_room_id,
        ),
        out.deep_view() == dispatch_outputs(
            old(state).registry@,
            old(state).rooms@,
            sender_id,
            message@,
            fresh_room_id,
        ),
{
    match message {
        EventMessage::Join { username } => handle_join(username, sender_id, &mut state.registry),
        EventMessage::Chat { id, sender: _, content, scope: _ } => handle_chat(
            id,
            content,
            sender_id,
            &state.registry,
            &state.rooms,
        ),
        EventMessage::CreateRoom { creator: _, room_name } => state.rooms.handle_create_room(
            &state.registry,
            sender_id,
            room_name,
            fresh_room_id,
        ),
        EventMessage::JoinRoom { user: _, room } => state.rooms.handle_join_room(
            &state.registry,
            sender_id,
            room.id,
        ),
        EventMessage::LeaveRoom { user: _, room: _ } => state.rooms.handle_leave_room(
            &state.registry,
            sender_id,
        ),
        _ => {
            let out: Vec<Outgoing> = Vec::new();
            proof {
                assert(out.deep_view() =~= Seq::<OutgoingV>::empty());
            }
            out
        },
    }
}

/// A connection entered `Active`: the freshly drawn identity
/// is registered, with no display name until its join handshake.
pub fn on_connect(state: &mut ServerState, id: u128)
    requires
        old(state).wf(),
    ensures
        final(state).wf(),
        final(state).rooms@ == old(state).rooms@,
        reg_has(old(state).registry@, id) ==> final(state).registry@ == old(state).registry@,
        !reg_has(old(state).registry@, id) ==> final(state).registry@ == old(
            state,
        ).registry@.push(RegEntryV { id, name: None }),
{
    state.registry.register(id);
}

/// A connection's read loop ended: the client leaves its room
/// — everyone present beforehand, the leaver included, is told — and is
/// unregistered.  No event is dispatched for the identity after this.
pub fn on_disconnect(state: &mut ServerState, id: u128) -> (out: Vec<Outgoing>)
    requires
        old(state).wf(),
    ensures
        final(state).wf(),
        final(state).rooms@ == spec_leave_user(old(state).rooms@, id),
        !reg_has(old(state).registry@, id) ==> final(state).registry@ == old(state).registry@,
        reg_has(old(state).registry@, id) ==> final(state).registry@ == old(
            state,
        ).registry@.remove(reg_idx(old(state).registry@, id)),
        out.deep_view() == leave_room_outputs(old(state).registry@, old(state).rooms@, id),
{
    let out = state.rooms.handle_leave_room(&state.registry, id);
    state.registry.unregister(id);
    out
}

/// One dispatcher step with the room identity drawn here: what a
/// `CreateRoom` step consumes.  The draw is random, so the contract
/// holds of every identity it may produce.
pub fn dispatch_from(message: EventMessage, sender_id: u128, state: &mut ServerState) -> (out: Vec<
    Outgoing,
>)
    requires
        old(state).wf(),
    ensures
        final(state).wf(),
        exists|fresh: u128|
            {
                &&& final(state).registry@ == regs_after_dispatch(
                    old(state).registry@,
                    sender_id,
                    message@,
                )
                &&& final(state).rooms@ == rooms_after_dispatch(
                    old(state).rooms@,
                    sender_id,
                    message@,
                    fresh,
                )
                &&& out.deep_view() == #[trigger] dispatch_outputs(
                    old(state).registry@,
                    old(state).rooms@,
                    sender_id,
                    message@,
                    fresh,
                )
            },
{
    let fresh = crate::ids::fresh_id();
    let ghost m = message@;
    let out = dispatch(message, sender_id, state, fresh);
    proof {
        assert(out.deep_view() == dispatch_outputs(
            old(state).registry@,
            old(state).rooms@,
            sender_id,
            m,
            fresh,
        ));
    }
    out
}

} // verus!
