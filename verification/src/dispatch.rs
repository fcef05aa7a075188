//! The dispatcher: one state machine step per decoded incoming event.
//!
//! Each handler consults or mutates the registry and the room manager and
//! returns the ordered list of deliveries the event triggers; nothing
//! else about the shared state changes.  The identity a step acts for is
//! always the connection's own, assigned at connect time — an identity a
//! client writes into an event's payload is never trusted.
//!
//! Policy: a chat is never echoed back to its sender; the
//! sender's sole confirmation is the `AckDelivered` that follows the
//! fan-out.

use vstd::prelude::*;
use vstd::string::StringExecFns;
use crate::protocol::{
    ChatScope,
    ChatScopeV,
    ErrorCode,
    ErrorCodeV,
    EventMessage,
    EventV,
    RoomInfo,
    RoomInfoV,
    UserInfo,
    UserInfoV,
};
use crate::registry::{reg_has, reg_idx, reg_ids, reg_name_of, RegEntryV, Registry};
use crate::rooms::{
    rooms_has,
    spec_add_member,
    spec_create_room,
    spec_leave_user,
    spec_room,
    spec_room_of,
    user_has,
    user_idx,
    RmV,
    RoomError,
    RoomManager,
};
use crate::delivery::{
    broadcast,
    broadcast_to_room,
    filter_not,
    keep_not,
    keep_registered,
    multicast,
    multicast_to,
    registered_of,
    room_targets,
    send,
    send_to_client,
    spec_broadcast,
    spec_send,
    spec_unicast,
    Outgoing,
    OutgoingV,
};
use crate::ids::uuid_seq;
use crate::ids::uuid_string;

verus! {

/// The display name `id` registered with, or `"Unknown"`.
pub open spec fn display_name(regs: Seq<RegEntryV>, id: u128) -> Seq<char> {
    match reg_name_of(regs, id) {
        Some(n) => n,
        None => "Unknown"@,
    }
}

/// The name of the room carrying `rid`, or `"Unknown"`.
pub open spec fn room_name_of(rooms: Seq<crate::rooms::RoomV>, rid: u128) -> Seq<char> {
    match spec_room(rooms, rid) {
        Some(r) => r.name,
        None => "Unknown"@,
    }
}

/// The display name `id` registered with, or `"Unknown"`.
fn resolve_name(reg: &Registry, id: u128) -> (r: String)
    requires
        reg.wf(),
    ensures
        r@ == display_name(reg@, id),
{
    match reg.name_of(id) {
        Some(n) => n,
        None => String::from_str("Unknown"),
    }
}

/// The error text for a colliding room identity.
pub open spec fn msg_room_exists(rid: u128) -> Seq<char> {
    "Room with id "@ + uuid_seq(rid) + " already exists"@
}

/// The error text for a creator that already occupies a room.
pub open spec fn msg_already_in_a_room(uid: u128) -> Seq<char> {
    "Client "@ + uuid_seq(uid) + " is already in a room"@
}

/// The error text for a user joining the room it already occupies.
pub open spec fn msg_already_in_room(uid: u128, rid: u128) -> Seq<char> {
    "Client "@ + uuid_seq(uid) + " is already in room "@ + uuid_seq(rid)
}

/// The error text for an unknown room identity.
pub open spec fn msg_room_not_found(rid: u128) -> Seq<char> {
    "Room with id "@ + uuid_seq(rid) + " not found"@
}

/// `prefix`, the hyphenated form of `id`, then `suffix`.
fn message_with_id(prefix: &str, id: u128, suffix: &str) -> (r: String)
    ensures
        r@ == prefix@ + uuid_seq(id) + suffix@,
{
    let mut r = prefix.to_owned();
    let mid = uuid_string(id);
    r.append(mid.as_str());
    r.append(suffix);
    proof {
        assert(r@ =~= prefix@ + uuid_seq(id) + suffix@);
    }
    r
}

/// The deliveries a `Join` handshake triggers: the sender learns its
/// assigned identity, then everyone (sender included) sees the join.
pub open spec fn join_outputs(regs: Seq<RegEntryV>, sender: u128, username: Seq<char>) -> Seq<
    OutgoingV,
> {
    spec_unicast(regs, sender, EventV::AssignedId { user_id: sender }) + spec_send(
        regs,
        EventV::Join { username },
    )
}

/// Handles a client's join handshake (`Join`): records the
/// display name, assigns the sender its identity, and announces the join
/// to every connected client.
pub fn handle_join(username: String, sender_id: u128, reg: &mut Registry) -> (out: Vec<Outgoing>)
    requires
        old(reg).wf(),
    ensures
        final(reg).wf(),
        !reg_has(old(reg)@, sender_id) ==> final(reg)@ == old(reg)@,
        reg_has(old(reg)@, sender_id) ==> final(reg)@ == old(reg)@.update(
            reg_idx(old(reg)@, sender_id),
            RegEntryV { id: sender_id, name: Some(username@) },
        ),
        out.deep_view() == join_outputs(old(reg)@, sender_id, username@),
{
    let ghost o = reg@;
    let name_copy = username.clone();
    reg.set_name(sender_id, name_copy);
    proof {
        assert(forall|x: int| 0 <= x < reg@.len() ==> (#[trigger] reg@[x]).id == o[x].id);
        assert(reg_ids(reg@) =~= reg_ids(o));
        if reg_has(reg@, sender_id) {
            let w = reg_idx(reg@, sender_id);
            assert(0 <= w < reg@.len() && reg@[w].id == sender_id);
            assert(o[w].id == sender_id);
            assert(reg_has(o, sender_id));
        }
        if reg_has(o, sender_id) {
            let w = reg_idx(o, sender_id);
            assert(0 <= w < o.len() && o[w].id == sender_id);
            assert(reg@[w].id == sender_id);
            assert(reg_has(reg@, sender_id));
        }
    }
    let mut out = send_to_client(reg, sender_id, EventMessage::AssignedId { user_id: sender_id });
    let mut rest = send(&EventMessage::Join { username }, reg);
    out.append(&mut rest);
    proof {
        assert(spec_unicast(reg@, sender_id, EventV::AssignedId { user_id: sender_id })
            == spec_unicast(o, sender_id, EventV::AssignedId { user_id: sender_id }));
        assert(spec_send(reg@, EventV::Join { username: username@ }) == spec_send(
            o,
            EventV::Join { username: username@ },
        ));
        assert(out.deep_view() =~= join_outputs(o, sender_id, username@));
    }
    out
}

/// The chat event the server fans out for a message from `sender`: the
/// sender's registered name is attached, and the scope is the sender's
/// current room, or global if it occupies none.
pub open spec fn chat_event(
    regs: Seq<RegEntryV>,
    rm: RmV,
    sender: u128,
    msg_id: u128,
    content: Seq<char>,
) -> EventV {
    let sender_info = UserInfoV { id: sender, username: display_name(regs, sender) };
    match spec_room_of(rm.users, sender) {
        Some(rid) => EventV::Chat {
            id: msg_id,
            sender: sender_info,
            content,
            scope: ChatScopeV::Room {
                room: RoomInfoV { id: rid, name: room_name_of(rm.rooms, rid) },
            },
        },
        None => EventV::Chat { id: msg_id, sender: sender_info, content, scope: ChatScopeV::Global },
    }
}

/// The deliveries a chat triggers (`Chat`): the fan-out — to the
/// sender's room members or to everyone, never to the sender itself —
/// followed by exactly one `AckDelivered` back to the sender.
pub open spec fn chat_outputs(
    regs: Seq<RegEntryV>,
    rm: RmV,
    sender: u128,
    msg_id: u128,
    content: Seq<char>,
) -> Seq<OutgoingV> {
    let ev = chat_event(regs, rm, sender, msg_id, content);
    let ack = spec_unicast(regs, sender, EventV::AckDelivered { id: msg_id });
    match spec_room_of(rm.users, sender) {
        Some(rid) => multicast(
            room_targets(spec_room(rm.rooms, rid)->Some_0.members.filter(keep_not(sender)), regs),
            ev,
        ) + ack,
        None => spec_broadcast(regs, ev, sender) + ack,
    }
}

/// Handles a chat (`Chat`): fans the message out under the
/// sender's scope, then acknowledges delivery to the sender alone.  The
/// shared state does not change.
pub fn handle_chat(
    id: u128,
    content: String,
    sender_id: u128,
    reg: &Registry,
    rm: &RoomManager,
) -> (out: Vec<Outgoing>)
    requires
        reg.wf(),
        rm.wf(),
    ensures
        out.deep_view() == chat_outputs(reg@, rm@, sender_id, id, content@),
{
    let uname = resolve_name(reg, sender_id);
    let sender_info = UserInfo { id: sender_id, username: uname };
    let ack = EventMessage::AckDelivered { id };
    match rm.get_user_room(sender_id) {
        Some(rid) => {
            proof {
                let i = user_idx(rm@.users, sender_id);
                assert(0 <= i < rm@.users.len() && rm@.users[i].user == sender_id);
                assert(rooms_has(rm@.rooms, (rm@.users[i]).room));
                assert(rm@.users[i].room == rid);
            }
            let room = match rm.get_room(rid) {
                Some(r) => r,
                None => {
                    proof {
                        assert(false);
                    }
                    return Vec::new();
                },
            };
            let ev = EventMessage::Chat {
                id,
                sender: sender_info,
                content,
                scope: ChatScope::Room { room: RoomInfo { id: rid, name: room.name } },
            };
            proof {
                assert(ev@ == chat_event(reg@, rm@, sender_id, id, ev->Chat_content@));
            }
            let others = filter_not(&room.members, sender_id);
            let targets = registered_of(&others, reg);
            let mut out = multicast_to(&targets, &ev);
            let mut ackv = send_to_client(reg, sender_id, ack);
            out.append(&mut ackv);
            proof {
                assert(out.deep_view() =~= chat_outputs(reg@, rm@, sender_id, id, ev->Chat_content@));
            }
            out
        },
        None => {
            let ev = EventMessage::Chat {
                id,
                sender: sender_info,
                content,
                scope: ChatScope::Global,
            };
            let mut out = broadcast(&ev, sender_id, reg);
            let mut ackv = send_to_client(reg, sender_id, ack);
            out.append(&mut ackv);
            proof {
                assert(out.deep_view() =~= chat_outputs(reg@, rm@, sender_id, id, ev->Chat_content@));
            }
            out
        },
    }
}

/// The deliveries a `CreateRoom` request triggers : the
/// creator alone hears back — the created room, or the error.
pub open spec fn create_room_outputs(
    regs: Seq<RegEntryV>,
    rm: RmV,
    sender: u128,
    room_name: Seq<char>,
    rid: u128,
) -> Seq<OutgoingV> {
    if rooms_has(rm.rooms, rid) {
        spec_unicast(
            regs,
            sender,
            EventV::Error {
                error: ErrorCodeV::RoomAlreadyExists { message: msg_room_exists(rid) },
            },
        )
    } else if user_has(rm.users, sender) {
        spec_unicast(
            regs,
            sender,
            EventV::Error {
                error: ErrorCodeV::AlreadyInRoom { message: msg_already_in_a_room(sender) },
            },
        )
    } else {
        spec_unicast(
            regs,
            sender,
            EventV::CreateRoom {
                creator: UserInfoV { id: sender, username: display_name(regs, sender) },
                room_name,
            },
        )
    }
}

/// The deliveries a `JoinRoom` request triggers : on success
/// the room's full post-join member list hears the join; on failure the
/// sender alone hears the error.
pub open spec fn join_room_outputs(
    regs: Seq<RegEntryV>,
    rm: RmV,
    sender: u128,
    rid: u128,
) -> Seq<OutgoingV> {
    if !rooms_has(rm.rooms, rid) {
        spec_unicast(
            regs,
            sender,
            EventV::Error { error: ErrorCodeV::RoomNotFound { message: msg_room_not_found(rid) } },
        )
    } else if spec_room_of(rm.users, sender) == Some(rid) {
        spec_unicast(
            regs,
            sender,
            EventV::Error {
                error: ErrorCodeV::AlreadyInRoom { message: msg_already_in_room(sender, rid) },
            },
        )
    } else {
        let after = spec_add_member(spec_leave_user(rm, sender), sender, rid);
        multicast(
            room_targets(spec_room(after.rooms, rid)->Some_0.members, regs),
            EventV::JoinRoom {
                user: UserInfoV { id: sender, username: display_name(regs, sender) },
                room: RoomInfoV { id: rid, name: spec_room(rm.rooms, rid)->Some_0.name },
            },
        )
    }
}

/// The deliveries a `LeaveRoom` request triggers : everyone
/// present before the removal — the leaver included — hears the leave;
/// a user in no room triggers none.
pub open spec fn leave_room_outputs(regs: Seq<RegEntryV>, rm: RmV, sender: u128) -> Seq<OutgoingV> {
    match spec_room_of(rm.users, sender) {
        Some(rid) => multicast(
            room_targets(spec_room(rm.rooms, rid)->Some_0.members, regs),
            EventV::LeaveRoom {
                user: UserInfoV { id: sender, username: display_name(regs, sender) },
                room: RoomInfoV { id: rid, name: spec_room(rm.rooms, rid)->Some_0.name },
            },
        ),
        None => Seq::<OutgoingV>::empty(),
    }
}

impl RoomManager {
    /// Handles a `CreateRoom` request: `room_id` is the
    /// freshly drawn identity for the new room.  On success the creator
    /// alone is told; a colliding identity or a creator already in a
    /// room draws an error to the creator alone, and nothing changes.
    pub fn handle_create_room(
        &mut self,
        reg: &Registry,
        client_id: u128,
        room_name: String,
        room_id: u128,
    ) -> (out: Vec<Outgoing>)
        requires
            old(self).wf(),
            reg.wf(),
        ensures
            final(self).wf(),
            out.deep_view() == create_room_outputs(
                reg@,
                old(self)@,
                client_id,
                room_name@,
                room_id,
            ),
            rooms_has(old(self)@.rooms, room_id) ==> final(self)@ == old(self)@,
            !rooms_has(old(self)@.rooms, room_id) && user_has(old(self)@.users, client_id) ==> final(self)@ == old(self)@,
            !rooms_has(old(self)@.rooms, room_id) && !user_has(old(self)@.users, client_id) ==> final(self)@ == spec_create_room(old(self)@, client_id, room_id, room_name@),
    {
        let wire_name = room_name.clone();
        match self.create_room(client_id, room_name, room_id) {
            Ok(_info) => {
                let creator = UserInfo { id: client_id, username: resolve_name(reg, client_id) };
                send_to_client(
                    reg,
                    client_id,
                    EventMessage::CreateRoom { creator, room_name: wire_name },
                )
            },
            Err(RoomError::RoomAlreadyExists) => {
                let message = message_with_id("Room with id ", room_id, " already exists");
                send_to_client(
                    reg,
                    client_id,
                    EventMessage::Error { error: ErrorCode::RoomAlreadyExists { message } },
                )
            },
            Err(_) => {
                let message = message_with_id("Client ", client_id, " is already in a room");
                send_to_client(
                    reg,
                    client_id,
                    EventMessage::Error { error: ErrorCode::AlreadyInRoom { message } },
                )
            },
        }
    }

    /// Handles a `JoinRoom` request: on success every member
    /// of the room after the join — the joiner included — is told; an
    /// unknown room or a join into the room already occupied draws an
    /// error to the sender alone, and nothing changes.
    pub fn handle_join_room(&mut self, reg: &Registry, client_id: u128, room_id: u128) -> (out: Vec<
        Outgoing,
    >)
        requires
            old(self).wf(),
            reg.wf(),
        ensures
            final(self).wf(),
            out.deep_view() == join_room_outputs(reg@, old(self)@, client_id, room_id),
            !rooms_has(old(self)@.rooms, room_id) ==> final(self)@ == old(self)@,
            rooms_has(old(self)@.rooms, room_id) && spec_room_of(old(self)@.users, client_id)
                == Some(room_id) ==> final(self)@ == old(self)@,
            rooms_has(old(self)@.rooms, room_id) && spec_room_of(old(self)@.users, client_id)
                != Some(room_id) ==> final(self)@ == spec_add_member(
                spec_leave_user(old(self)@, client_id),
                client_id,
                room_id,
            ),
    {
        match self.join_room(client_id, room_id) {
            Ok(info) => {
                proof {
                    let o = old(self)@;
                    crate::rooms::lemma_leave_keeps_other_rooms(o, client_id, room_id);
                    let mid = spec_leave_user(o, client_id);
                    let k = crate::rooms::rooms_idx(mid.rooms, room_id);
                    assert(0 <= k < mid.rooms.len() && mid.rooms[k].id == room_id);
                    assert(self@.rooms[k].id == room_id);
                    assert(rooms_has(self@.rooms, room_id));
                }
                let user = UserInfo { id: client_id, username: resolve_name(reg, client_id) };
                let ev = EventMessage::JoinRoom { user, room: info };
                broadcast_to_room(&ev, room_id, &*self, reg)
            },
            Err(RoomError::RoomNotFound) => {
                let message = message_with_id("Room with id ", room_id, " not found");
                send_to_client(
                    reg,
                    client_id,
                    EventMessage::Error { error: ErrorCode::RoomNotFound { message } },
                )
            },
            Err(_) => {
                let mut message = message_with_id("Client ", client_id, " is already in room ");
                let rid_text = uuid_string(room_id);
                message.append(rid_text.as_str());
                proof {
                    assert(message@ =~= msg_already_in_room(client_id, room_id));
                }
                send_to_client(
                    reg,
                    client_id,
                    EventMessage::Error { error: ErrorCode::AlreadyInRoom { message } },
                )
            },
        }
    }

    /// Handles a `LeaveRoom` request: on success every member
    /// present before the removal — the leaver included — is told; a
    /// sender in no room triggers nothing at all.
    pub fn handle_leave_room(&mut self, reg: &Registry, client_id: u128) -> (out: Vec<Outgoing>)
        requires
            old(self).wf(),
            reg.wf(),
        ensures
            final(self).wf(),
            out.deep_view() == leave_room_outputs(reg@, old(self)@, client_id),
            !user_has(old(self)@.users, client_id) ==> final(self)@ == old(self)@,
            user_has(old(self)@.users, client_id) ==> final(self)@ == spec_leave_user(
                old(self)@,
                client_id,
            ),
    {
        match self.leave_room(client_id) {
            Ok((info, members)) => {
                let user = UserInfo { id: client_id, username: resolve_name(reg, client_id) };
                let ev = EventMessage::LeaveRoom { user, room: info };
                let targets = registered_of(&members, reg);
                multicast_to(&targets, &ev)
            },
            Err(_) => {
                let out: Vec<Outgoing> = Vec::new();
                proof {
                    assert(out.deep_view() =~= Seq::<OutgoingV>::empty());
                }
                out
            },
        }
    }
}

/// Keeps the identities equal to `c`.
pub open spec fn keep_eq(c: u128) -> spec_fn(u128) -> bool {
    |x: u128| x == c
}

/// Keeps the deliveries addressed to `c`.
pub open spec fn keep_to(c: u128) -> spec_fn(OutgoingV) -> bool {
    |o: OutgoingV| o.to == c
}

/// How many of the deliveries `out` are addressed to `c`.
pub open spec fn to_count(out: Seq<OutgoingV>, c: u128) -> int {
    out.filter(keep_to(c)).len() as int
}

/// No identity occurs twice.
pub open spec fn ids_unique(ids: Seq<u128>) -> bool {
    forall|i: int, j: int| 0 <= i < j < ids.len() ==> ids[i] != ids[j]
}

/// A multicast carries one delivery per listed identity, so counting
/// deliveries to `c` is counting occurrences of `c`.
proof fn lemma_multicast_count(ids: Seq<u128>, ev: EventV, c: u128)
    ensures
        multicast(ids, ev).filter(keep_to(c)).len() == ids.filter(keep_eq(c)).len(),
    decreases ids.len(),
{
    reveal(Seq::filter);
    if ids.len() == 0 {
        assert(multicast(ids, ev).len() == 0);
    } else {
        lemma_multicast_count(ids.drop_last(), ev, c);
        assert(multicast(ids, ev).drop_last() =~= multicast(ids.drop_last(), ev));
        assert(multicast(ids, ev).last() == OutgoingV { to: ids.last(), event: ev });
        assert(keep_to(c)(multicast(ids, ev).last()) == keep_eq(c)(ids.last()));
    }
}

/// In a duplicate-free identity list, `c` occurs exactly once if present
/// and never otherwise.
proof fn lemma_count_in_unique(ids: Seq<u128>, c: u128)
    requires
        ids_unique(ids),
    ensures
        ids.filter(keep_eq(c)).len() == if ids.contains(c) {
            1int
        } else {
            0int
        },
    decreases ids.len(),
{
    reveal(Seq::filter);
    if ids.len() == 0 {
        assert(!ids.contains(c));
    } else {
        let rest = ids.drop_last();
        assert(forall|x: int| 0 <= x < rest.len() ==> rest[x] == ids[x]);
        assert(ids_unique(rest));
        lemma_count_in_unique(rest, c);
        if ids.last() == c {
            assert(ids.contains(c));
            if rest.contains(c) {
                let w = choose|w: int| 0 <= w < rest.len() && rest[w] == c;
                assert(ids[w] == c && ids[ids.len() - 1] == c);
                assert(ids[w] != ids[ids.len() - 1]);
            }
            assert(!rest.contains(c));
        } else {
            if ids.contains(c) {
                let w = choose|w: int| 0 <= w < ids.len() && ids[w] == c;
                assert(w < ids.len() - 1);
                assert(rest[w] == c);
                assert(rest.contains(c));
            }
            if rest.contains(c) {
                let w = choose|w: int| 0 <= w < rest.len() && rest[w] == c;
                assert(ids[w] == c);
                assert(ids.contains(c));
            }
        }
    }
}

/// What a filter keeps, the list contained, and it satisfies the
/// predicate.
proof fn lemma_filter_element_origin(ids: Seq<u128>, pred: spec_fn(u128) -> bool, x: u128)
    requires
        ids.filter(pred).contains(x),
    ensures
        ids.contains(x),
        pred(x),
    decreases ids.len(),
{
    reveal(Seq::filter);
    let w = choose|w: int| 0 <= w < ids.filter(pred).len() && ids.filter(pred)[w] == x;
    Seq::lemma_filter_pred(ids, pred, w);
    assert(pred(x));
    if ids.len() > 0 {
        let rest = ids.drop_last();
        if pred(ids.last()) && w == ids.filter(pred).len() - 1 {
            assert(x == ids.last());
            assert(ids[ids.len() - 1] == x);
            assert(ids.contains(x));
        } else {
            assert(rest.filter(pred)[w] == x);
            assert(rest.filter(pred).contains(x));
            lemma_filter_element_origin(rest, pred, x);
            let v = choose|v: int| 0 <= v < rest.len() && rest[v] == x;
            assert(ids[v] == x);
            assert(ids.contains(x));
        }
    }
}

/// Filtering keeps a duplicate-free identity list duplicate-free.
proof fn lemma_filter_keeps_unique(ids: Seq<u128>, pred: spec_fn(u128) -> bool)
    requires
        ids_unique(ids),
    ensures
        ids_unique(ids.filter(pred)),
    decreases ids.len(),
{
    reveal(Seq::filter);
    if ids.len() > 0 {
        let rest = ids.drop_last();
        assert(forall|x: int| 0 <= x < rest.len() ==> rest[x] == ids[x]);
        assert(ids_unique(rest));
        lemma_filter_keeps_unique(rest, pred);
        if pred(ids.last()) {
            if rest.filter(pred).contains(ids.last()) {
                lemma_filter_element_origin(rest, pred, ids.last());
                let w = choose|w: int| 0 <= w < rest.len() && rest[w] == ids.last();
                assert(ids[w] == ids[ids.len() - 1]);
                assert(ids[w] != ids[ids.len() - 1]);
            }
            let f = rest.filter(pred).push(ids.last());
            assert forall|i: int, j: int| 0 <= i < j < f.len() implies f[i] != f[j] by {
                if j < f.len() - 1 {
                    assert(rest.filter(pred)[i] != rest.filter(pred)[j]);
                } else {
                    if f[i] == ids.last() {
                        assert(rest.filter(pred).contains(f[i]));
                    }
                }
            }
            assert(ids.filter(pred) == f);
        }
    }
}

/// A duplicate-free registry lists duplicate-free identities, and lists
/// exactly the registered ones.
proof fn lemma_reg_ids_facts(regs: Seq<RegEntryV>)
    requires
        crate::registry::regs_unique(regs),
    ensures
        ids_unique(reg_ids(regs)),
        forall|c: u128| #[trigger] reg_ids(regs).contains(c) ==> reg_has(regs, c),
        forall|c: u128| #[trigger] reg_has(regs, c) ==> reg_ids(regs).contains(c),
{
    let ids = reg_ids(regs);
    assert(forall|x: int| 0 <= x < ids.len() ==> ids[x] == (#[trigger] regs[x]).id);
    assert forall|c: u128| #[trigger] ids.contains(c) implies reg_has(regs, c) by {
        let w = choose|w: int| 0 <= w < ids.len() && ids[w] == c;
        assert(regs[w].id == c);
    }
    assert forall|c: u128| #[trigger] reg_has(regs, c) implies ids.contains(c) by {
        let w = reg_idx(regs, c);
        assert(0 <= w < regs.len() && regs[w].id == c);
        assert(ids[w] == c);
    }
}

/// A one-element list filters to itself or to nothing.
proof fn lemma_filter_singleton(o: OutgoingV, pred: spec_fn(OutgoingV) -> bool)
    ensures
        seq![o].filter(pred) == if pred(o) {
            seq![o]
        } else {
            Seq::<OutgoingV>::empty()
        },
{
    reveal(Seq::filter);
    let s = seq![o];
    assert(s.len() == 1);
    assert(s.drop_last() =~= Seq::<OutgoingV>::empty());
    assert(s.drop_last().filter(pred) =~= Seq::<OutgoingV>::empty());
    assert(s.last() == o);
    if pred(o) {
        assert(s.filter(pred) =~= s.drop_last().filter(pred).push(o));
        assert(s.filter(pred) =~= s);
    } else {
        assert(s.filter(pred) =~= Seq::<OutgoingV>::empty());
    }
}

/// Law: a chat from a sender in no room is delivered to every
/// other registered client exactly once and never to the sender; the
/// sender instead receives exactly one `AckDelivered` carrying the
/// chat's correlation id, after the whole fan-out.
pub proof fn lemma_chat_global_delivery(
    regs: Seq<RegEntryV>,
    rm: RmV,
    sender: u128,
    msg_id: u128,
    content: Seq<char>,
)
    requires
        crate::registry::regs_unique(regs),
        spec_room_of(rm.users, sender) is None,
    ensures
        ({
            let out = chat_outputs(regs, rm, sender, msg_id, content);
            let ev = chat_event(regs, rm, sender, msg_id, content);
            &&& forall|x: int|
                0 <= x < out.len() ==> ((#[trigger] out[x]).to == sender ==> out[x].event
                    == EventV::AckDelivered { id: msg_id })
            &&& forall|x: int|
                0 <= x < out.len() ==> (#[trigger] out[x]).event == ev || out[x].event
                    == EventV::AckDelivered { id: msg_id }
            &&& reg_has(regs, sender) ==> out.len() > 0 && out.last() == (OutgoingV {
                to: sender,
                event: EventV::AckDelivered { id: msg_id },
            }) && to_count(out, sender) == 1
            &&& forall|c: u128|
                c != sender ==> #[trigger] to_count(out, c) == (if reg_has(regs, c) {
                    1int
                } else {
                    0int
                })
        }),
{
    let out = chat_outputs(regs, rm, sender, msg_id, content);
    let ev = chat_event(regs, rm, sender, msg_id, content);
    let ack_ev = EventV::AckDelivered { id: msg_id };
    let ids = reg_ids(regs).filter(keep_not(sender));
    let fan = multicast(ids, ev);
    let ack = spec_unicast(regs, sender, ack_ev);
    assert(out == fan + ack);
    lemma_reg_ids_facts(regs);
    lemma_filter_keeps_unique(reg_ids(regs), keep_not(sender));
    assert forall|x: int| 0 <= x < out.len() implies ((#[trigger] out[x]).to == sender
        ==> out[x].event == ack_ev) && (out[x].event == ev || out[x].event == ack_ev) by {
        if x < fan.len() {
            assert(out[x] == fan[x]);
            assert(fan[x] == OutgoingV { to: ids[x], event: ev });
            Seq::lemma_filter_pred(reg_ids(regs), keep_not(sender), x);
            assert(ids[x] != sender);
        } else {
            assert(reg_has(regs, sender));
            assert(ack =~= seq![OutgoingV { to: sender, event: ack_ev }]);
            assert(out[x] == ack[x - fan.len()]);
        }
    }
    assert forall|c: u128| c != sender implies #[trigger] to_count(out, c) == (if reg_has(
        regs,
        c,
    ) {
        1int
    } else {
        0int
    }) by {
        Seq::filter_distributes_over_add(fan, ack, keep_to(c));
        lemma_multicast_count(ids, ev, c);
        lemma_count_in_unique(ids, c);
        if ids.contains(c) {
            lemma_filter_element_origin(reg_ids(regs), keep_not(sender), c);
            assert(reg_has(regs, c));
        }
        if reg_has(regs, c) {
            assert(reg_ids(regs).contains(c));
            let w = choose|w: int| 0 <= w < reg_ids(regs).len() && reg_ids(regs)[w] == c;
            assert(keep_not(sender)(reg_ids(regs)[w]));
            Seq::lemma_filter_contains(reg_ids(regs), keep_not(sender), w);
            assert(ids.contains(c));
        }
        if reg_has(regs, sender) {
            assert(ack =~= seq![OutgoingV { to: sender, event: ack_ev }]);
            lemma_filter_singleton(OutgoingV { to: sender, event: ack_ev }, keep_to(c));
            assert(ack.filter(keep_to(c)).len() == 0);
        } else {
            assert(ack =~= Seq::<OutgoingV>::empty());
            reveal(Seq::filter);
            assert(ack.filter(keep_to(c)).len() == 0);
        }
    }
    if reg_has(regs, sender) {
        assert(ack =~= seq![OutgoingV { to: sender, event: ack_ev }]);
        assert(out.len() == fan.len() + 1);
        assert(out.last() == OutgoingV { to: sender, event: ack_ev });
        Seq::filter_distributes_over_add(fan, ack, keep_to(sender));
        lemma_multicast_count(ids, ev, sender);
        lemma_count_in_unique(ids, sender);
        if ids.contains(sender) {
            lemma_filter_element_origin(reg_ids(regs), keep_not(sender), sender);
        }
        assert(!ids.contains(sender));
        lemma_filter_singleton(OutgoingV { to: sender, event: ack_ev }, keep_to(sender));
        assert(ack.filter(keep_to(sender)) =~= seq![OutgoingV { to: sender, event: ack_ev }]);
        assert(to_count(out, sender) == 1);
    }
}

/// Law: a chat from a sender in room R is delivered only to
/// current members of R, tagged with scope R, never to the sender; a
/// registered member other than the sender receives it exactly once, and
/// the sender receives exactly one `AckDelivered`, after the fan-out.
pub proof fn lemma_chat_room_delivery(
    regs: Seq<RegEntryV>,
    rm: RmV,
    sender: u128,
    msg_id: u128,
    content: Seq<char>,
)
    requires
        crate::registry::regs_unique(regs),
        rm.wf(),
        spec_room_of(rm.users, sender) is Some,
    ensures
        ({
            let rid = spec_room_of(rm.users, sender)->Some_0;
            let members = spec_room(rm.rooms, rid)->Some_0.members;
            let out = chat_outputs(regs, rm, sender, msg_id, content);
            let ev = chat_event(regs, rm, sender, msg_id, content);
            &&& rooms_has(rm.rooms, rid)
            &&& ev == (EventV::Chat {
                id: msg_id,
                sender: UserInfoV { id: sender, username: display_name(regs, sender) },
                content,
                scope: ChatScopeV::Room {
                    room: RoomInfoV { id: rid, name: spec_room(rm.rooms, rid)->Some_0.name },
                },
            })
            &&& forall|x: int|
                0 <= x < out.len() && (#[trigger] out[x]).event == ev ==> members.contains(
                    out[x].to,
                ) && out[x].to != sender && reg_has(regs, out[x].to)
            &&& forall|x: int|
                0 <= x < out.len() ==> ((#[trigger] out[x]).to == sender ==> out[x].event
                    == EventV::AckDelivered { id: msg_id })
            &&& reg_has(regs, sender) ==> out.len() > 0 && out.last() == (OutgoingV {
                to: sender,
                event: EventV::AckDelivered { id: msg_id },
            }) && to_count(out, sender) == 1
            &&& forall|c: u128|
                c != sender && members.contains(c) && reg_has(regs, c) ==> #[trigger] to_count(
                    out,
                    c,
                ) == 1
        }),
{
    let rid = spec_room_of(rm.users, sender)->Some_0;
    let i = user_idx(rm.users, sender);
    assert(0 <= i < rm.users.len() && rm.users[i].user == sender);
    assert(rooms_has(rm.rooms, (rm.users[i]).room));
    assert(rm.users[i].room == rid);
    let k = crate::rooms::rooms_idx(rm.rooms, rid);
    assert(0 <= k < rm.rooms.len() && rm.rooms[k].id == rid);
    let members = spec_room(rm.rooms, rid)->Some_0.members;
    assert(members == rm.rooms[k].members);
    let out = chat_outputs(regs, rm, sender, msg_id, content);
    let ev = chat_event(regs, rm, sender, msg_id, content);
    let ack_ev = EventV::AckDelivered { id: msg_id };
    let others = members.filter(keep_not(sender));
    let ids = others.filter(keep_registered(regs));
    let fan = multicast(ids, ev);
    let ack = spec_unicast(regs, sender, ack_ev);
    assert(out == fan + ack);
    assert(ev != ack_ev);
    assert forall|a: int, b: int| 0 <= a < b < members.len() implies members[a] != members[b] by {
        assert(rm.rooms[k].members[a] != rm.rooms[k].members[b]);
    }
    assert(ids_unique(members));
    lemma_filter_keeps_unique(members, keep_not(sender));
    lemma_filter_keeps_unique(others, keep_registered(regs));
    assert forall|x: int| 0 <= x < out.len() implies ((#[trigger] out[x]).event == ev
        ==> members.contains(out[x].to) && out[x].to != sender && reg_has(regs, out[x].to)) && (
    out[x].to == sender ==> out[x].event == ack_ev) by {
        if x < fan.len() {
            assert(out[x] == fan[x]);
            assert(fan[x] == OutgoingV { to: ids[x], event: ev });
            assert(ids.contains(ids[x]));
            lemma_filter_element_origin(others, keep_registered(regs), ids[x]);
            lemma_filter_element_origin(members, keep_not(sender), ids[x]);
            assert(ids[x] != sender);
            assert(reg_has(regs, ids[x]));
        } else {
            assert(reg_has(regs, sender));
            assert(ack =~= seq![OutgoingV { to: sender, event: ack_ev }]);
            assert(out[x] == ack[x - fan.len()]);
        }
    }
    assert forall|c: u128| c != sender && members.contains(c) && reg_has(regs, c) implies #[trigger] to_count(
        out,
        c,
    ) == 1 by {
        Seq::filter_distributes_over_add(fan, ack, keep_to(c));
        lemma_multicast_count(ids, ev, c);
        lemma_count_in_unique(ids, c);
        let w = choose|w: int| 0 <= w < members.len() && members[w] == c;
        assert(keep_not(sender)(members[w]));
        Seq::lemma_filter_contains(members, keep_not(sender), w);
        let w2 = choose|w2: int| 0 <= w2 < others.len() && others[w2] == c;
        assert(keep_registered(regs)(others[w2]));
        Seq::lemma_filter_contains(others, keep_registered(regs), w2);
        assert(ids.contains(c));
        if reg_has(regs, sender) {
            assert(ack =~= seq![OutgoingV { to: sender, event: ack_ev }]);
            lemma_filter_singleton(OutgoingV { to: sender, event: ack_ev }, keep_to(c));
        } else {
            assert(ack =~= Seq::<OutgoingV>::empty());
            reveal(Seq::filter);
        }
        assert(ack.filter(keep_to(c)).len() == 0);
    }
    if reg_has(regs, sender) {
        assert(ack =~= seq![OutgoingV { to: sender, event: ack_ev }]);
        assert(out.last() == OutgoingV { to: sender, event: ack_ev });
        Seq::filter_distributes_over_add(fan, ack, keep_to(sender));
        lemma_multicast_count(ids, ev, sender);
        lemma_count_in_unique(ids, sender);
        if ids.contains(sender) {
            lemma_filter_element_origin(others, keep_registered(regs), sender);
            lemma_filter_element_origin(members, keep_not(sender), sender);
        }
        assert(!ids.contains(sender));
        lemma_filter_singleton(OutgoingV { to: sender, event: ack_ev }, keep_to(sender));
        assert(ack.filter(keep_to(sender)) =~= seq![OutgoingV { to: sender, event: ack_ev }]);
        assert(to_count(out, sender) == 1);
    }
}

/// Law: leaving notifies exactly the registered members present before
/// the removal — the leaver included, when it is registered — each
/// exactly once, all with the same `LeaveRoom` event naming the leaver
/// and the room left.
pub proof fn lemma_leave_notifies_present(regs: Seq<RegEntryV>, rm: RmV, sender: u128)
    requires
        crate::registry::regs_unique(regs),
        rm.wf(),
        user_has(rm.users, sender),
    ensures
        ({
            let rid = spec_room_of(rm.users, sender)->Some_0;
            let members = spec_room(rm.rooms, rid)->Some_0.members;
            let out = leave_room_outputs(regs, rm, sender);
            let ev = EventV::LeaveRoom {
                user: UserInfoV { id: sender, username: display_name(regs, sender) },
                room: RoomInfoV { id: rid, name: spec_room(rm.rooms, rid)->Some_0.name },
            };
            &&& rooms_has(rm.rooms, rid)
            &&& members.contains(sender)
            &&& forall|x: int|
                0 <= x < out.len() ==> (#[trigger] out[x]).event == ev && members.contains(
                    out[x].to,
                ) && reg_has(regs, out[x].to)
            &&& forall|c: u128|
                members.contains(c) && reg_has(regs, c) ==> #[trigger] to_count(out, c) == 1
        }),
{
    let i = user_idx(rm.users, sender);
    assert(0 <= i < rm.users.len() && rm.users[i].user == sender);
    assert(rooms_has(rm.rooms, (rm.users[i]).room));
    let rid = rm.users[i].room;
    let k = crate::rooms::rooms_idx(rm.rooms, rid);
    assert(0 <= k < rm.rooms.len() && rm.rooms[k].id == rid);
    assert(rm.rooms[k].members.contains(rm.users[i].user));
    let members = spec_room(rm.rooms, rid)->Some_0.members;
    assert(members == rm.rooms[k].members);
    let out = leave_room_outputs(regs, rm, sender);
    let ev = EventV::LeaveRoom {
        user: UserInfoV { id: sender, username: display_name(regs, sender) },
        room: RoomInfoV { id: rid, name: spec_room(rm.rooms, rid)->Some_0.name },
    };
    let ids = members.filter(keep_registered(regs));
    assert(out == multicast(ids, ev));
    assert forall|a: int, b: int| 0 <= a < b < members.len() implies members[a] != members[b] by {
        assert(rm.rooms[k].members[a] != rm.rooms[k].members[b]);
    }
    assert(ids_unique(members));
    lemma_filter_keeps_unique(members, keep_registered(regs));
    assert forall|x: int| 0 <= x < out.len() implies (#[trigger] out[x]).event == ev
        && members.contains(out[x].to) && reg_has(regs, out[x].to) by {
        assert(out[x] == OutgoingV { to: ids[x], event: ev });
        assert(ids.contains(ids[x]));
        lemma_filter_element_origin(members, keep_registered(regs), ids[x]);
    }
    assert forall|c: u128| members.contains(c) && reg_has(regs, c) implies #[trigger] to_count(
        out,
        c,
    ) == 1 by {
        lemma_multicast_count(ids, ev, c);
        lemma_count_in_unique(ids, c);
        let w = choose|w: int| 0 <= w < members.len() && members[w] == c;
        assert(keep_registered(regs)(members[w]));
        Seq::lemma_filter_contains(members, keep_registered(regs), w);
        assert(ids.contains(c));
    }
}

/// Law: a creator already occupying a room, when the drawn identity
/// collides with no live room, is refused with exactly one
/// `AlreadyInRoom` error frame addressed to the (registered) creator
/// alone; no `CreateRoom` event is emitted to anyone, and nothing is
/// addressed to anyone else.
pub proof fn lemma_create_room_refused_delivery(
    regs: Seq<RegEntryV>,
    rm: RmV,
    sender: u128,
    room_name: Seq<char>,
    fresh: u128,
)
    requires
        reg_has(regs, sender),
        user_has(rm.users, sender),
        !rooms_has(rm.rooms, fresh),
    ensures
        create_room_outputs(regs, rm, sender, room_name, fresh) == seq![
            OutgoingV {
                to: sender,
                event: EventV::Error {
                    error: ErrorCodeV::AlreadyInRoom { message: msg_already_in_a_room(sender) },
                },
            },
        ],
{
    let ev = EventV::Error {
        error: ErrorCodeV::AlreadyInRoom { message: msg_already_in_a_room(sender) },
    };
    assert(create_room_outputs(regs, rm, sender, room_name, fresh) =~= seq![
        OutgoingV { to: sender, event: ev },
    ]);
}

/// Law: joining an unknown room draws exactly one `RoomNotFound` error
/// frame addressed to the (registered) sender alone; no `JoinRoom`
/// event is emitted to anyone, and nothing is addressed to anyone else.
pub proof fn lemma_join_room_refused_delivery(
    regs: Seq<RegEntryV>,
    rm: RmV,
    sender: u128,
    rid: u128,
)
    requires
        reg_has(regs, sender),
        !rooms_has(rm.rooms, rid),
    ensures
        join_room_outputs(regs, rm, sender, rid) == seq![
            OutgoingV {
                to: sender,
                event: EventV::Error {
                    error: ErrorCodeV::RoomNotFound { message: msg_room_not_found(rid) },
                },
            },
        ],
{
    let ev = EventV::Error { error: ErrorCodeV::RoomNotFound { message: msg_room_not_found(rid) } };
    assert(join_room_outputs(regs, rm, sender, rid) =~= seq![OutgoingV { to: sender, event: ev }]);
}

/// Law: when the sole, registered member of a room leaves, exactly one
/// `LeaveRoom` frame goes out, addressed to that leaver; the emptied
/// room is deleted at once and the leaver's membership entry is erased.
pub proof fn lemma_leave_sole_member_delivery(regs: Seq<RegEntryV>, rm: RmV, sender: u128)
    requires
        rm.wf(),
        reg_has(regs, sender),
        user_has(rm.users, sender),
        spec_room(rm.rooms, spec_room_of(rm.users, sender)->Some_0)->Some_0.members.len() == 1,
    ensures
        ({
            let rid = spec_room_of(rm.users, sender)->Some_0;
            let ev = EventV::LeaveRoom {
                user: UserInfoV { id: sender, username: display_name(regs, sender) },
                room: RoomInfoV { id: rid, name: spec_room(rm.rooms, rid)->Some_0.name },
            };
            &&& leave_room_outputs(regs, rm, sender) == seq![OutgoingV { to: sender, event: ev }]
            &&& !rooms_has(spec_leave_user(rm, sender).rooms, rid)
            &&& !user_has(spec_leave_user(rm, sender).users, sender)
        }),
{
    let i = user_idx(rm.users, sender);
    assert(0 <= i < rm.users.len() && rm.users[i].user == sender);
    assert(rooms_has(rm.rooms, (rm.users[i]).room));
    let rid = rm.users[i].room;
    let k = crate::rooms::rooms_idx(rm.rooms, rid);
    assert(0 <= k < rm.rooms.len() && rm.rooms[k].id == rid);
    assert(rm.rooms[k].members.contains(rm.users[i].user));
    let members = spec_room(rm.rooms, rid)->Some_0.members;
    assert(members == rm.rooms[k].members);
    let w = choose|w: int| 0 <= w < members.len() && members[w] == sender;
    assert(members[0] == sender);
    assert(members =~= seq![sender]);
    reveal(Seq::filter);
    assert(seq![sender].drop_last() =~= Seq::<u128>::empty());
    assert(Seq::<u128>::empty().filter(keep_registered(regs)) =~= Seq::<u128>::empty());
    assert(keep_registered(regs)(sender));
    assert(room_targets(members, regs) =~= seq![sender]);
    let ev = EventV::LeaveRoom {
        user: UserInfoV { id: sender, username: display_name(regs, sender) },
        room: RoomInfoV { id: rid, name: spec_room(rm.rooms, rid)->Some_0.name },
    };
    assert(leave_room_outputs(regs, rm, sender) =~= seq![OutgoingV { to: sender, event: ev }]);
    crate::rooms::lemma_leave_room_lifecycle(rm, sender);
    let f = spec_leave_user(rm, sender);
    assert(f.users =~= rm.users.remove(i));
    assert forall|x: int| 0 <= x < f.users.len() implies (#[trigger] f.users[x]).user != sender by {
        if x < i {
            assert(f.users[x] == rm.users[x]);
        } else {
            assert(f.users[x] == rm.users[x + 1]);
        }
    }
    assert(!user_has(f.users, sender));
}

} // verus!
