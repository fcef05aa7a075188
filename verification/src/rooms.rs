//! The room manager: room lifecycle and the membership index.
//!
//! A room is created with its owner as first member, gains and loses
//! members, and is deleted the moment its member count reaches zero.
//! Alongside the rooms, a membership index maps each user to the single
//! room it occupies, if any.  The two structures are kept consistent as
//! one atomic unit: a user is in a room's member set exactly when the
//! index maps the user to that room, and every update here preserves
//! that invariant.
//!
//! Policy: a user joining a room while occupying a different
//! one implicitly leaves the old room first; the implicit leave is
//! silent (no event is emitted for it).

use vstd::prelude::*;
use crate::protocol::{RoomInfo, RoomInfoV};

verus! {

/// One membership-index entry: `user` currently occupies `room`.
#[derive(Clone, Copy, PartialEq, Eq, Structural)]
pub struct UserRoom {
    pub user: u128,
    pub room: u128,
}

/// A chat room: identity, display name, owner, and current members in
/// join order.  The owner is the client that created the room; it has no
/// special runtime rights beyond having been the first member.
pub struct Room {
    pub id: u128,
    pub name: String,
    pub owner_id: u128,
    pub members: Vec<u128>,
}

/// Mathematical model of `Room`.
#[verifier::ext_equal]
pub struct RoomV {
    pub id: u128,
    pub name: Seq<char>,
    pub owner_id: u128,
    pub members: Seq<u128>,
}

impl View for Room {
    type V = RoomV;

    open spec fn view(&self) -> RoomV {
        RoomV {
            id: self.id,
            name: self.name@,
            owner_id: self.owner_id,
            members: self.members@,
        }
    }
}

impl DeepView for Room {
    type V = RoomV;

    open spec fn deep_view(&self) -> RoomV {
        self@
    }
}

impl Clone for Room {
    fn clone(&self) -> (r: Self)
        ensures
            r@ == self@,
    {
        Room {
            id: self.id,
            name: self.name.clone(),
            owner_id: self.owner_id,
            members: copy_ids(&self.members),
        }
    }
}

/// An exact copy of a vector of identities.
pub fn copy_ids(v: &Vec<u128>) -> (r: Vec<u128>)
    ensures
        r@ == v@,
{
    let n = v.len();
    let mut r: Vec<u128> = Vec::new();
    let mut i: usize = 0;
    while i < n
        invariant
            n == v@.len(),
            i <= n,
            r@ =~= v@.take(i as int),
        decreases n - i,
    {
        r.push(v[i]);
        i = i + 1;
    }
    proof {
        assert(r@ =~= v@);
    }
    r
}

/// The result of a room operation that was refused.
#[derive(Clone, Copy, PartialEq, Eq, Structural, Debug)]
pub enum RoomError {
    /// A room with the requested identity already exists.
    RoomAlreadyExists,
    /// The user already occupies a room that the operation would require
    /// it not to occupy.
    AlreadyInRoom,
    /// No room carries the requested identity.
    RoomNotFound,
    /// The user occupies no room.
    NotInRoom,
}

/// Mathematical model of `RoomManager`: the rooms in creation order and
/// the membership index in join order.
#[verifier::ext_equal]
pub struct RmV {
    pub rooms: Seq<RoomV>,
    pub users: Seq<UserRoom>,
}

/// Whether some room of `rooms` carries the identity `rid`.
pub open spec fn rooms_has(rooms: Seq<RoomV>, rid: u128) -> bool {
    exists|i: int| 0 <= i < rooms.len() && rooms[i].id == rid
}

/// The index of the room carrying `rid`; meaningful only under
/// `rooms_has(rooms, rid)` together with uniqueness of room identities.
pub open spec fn rooms_idx(rooms: Seq<RoomV>, rid: u128) -> int {
    choose|i: int| 0 <= i < rooms.len() && rooms[i].id == rid
}

/// The room carrying `rid`, if any.
pub open spec fn spec_room(rooms: Seq<RoomV>, rid: u128) -> Option<RoomV> {
    if rooms_has(rooms, rid) {
        Some(rooms[rooms_idx(rooms, rid)])
    } else {
        None
    }
}

/// Whether the membership index has an entry for `uid`.
pub open spec fn user_has(users: Seq<UserRoom>, uid: u128) -> bool {
    exists|i: int| 0 <= i < users.len() && users[i].user == uid
}

/// The index of `uid`'s entry; meaningful only under `user_has` together
/// with uniqueness of users in the index.
pub open spec fn user_idx(users: Seq<UserRoom>, uid: u128) -> int {
    choose|i: int| 0 <= i < users.len() && users[i].user == uid
}

/// The room `uid` currently occupies according to the membership index.
pub open spec fn spec_room_of(users: Seq<UserRoom>, uid: u128) -> Option<u128> {
    if user_has(users, uid) {
        Some(users[user_idx(users, uid)].room)
    } else {
        None
    }
}

/// No two rooms carry the same identity.
pub open spec fn rooms_unique(rooms: Seq<RoomV>) -> bool {
    forall|i: int, j: int|
        0 <= i < j < rooms.len() ==> (#[trigger] rooms[i].id) != (#[trigger] rooms[j].id)
}

/// Every room has at least one member: an emptied room is deleted at
/// once.
pub open spec fn rooms_nonempty(rooms: Seq<RoomV>) -> bool {
    forall|k: int| 0 <= k < rooms.len() ==> (#[trigger] rooms[k]).members.len() > 0
}

/// No room lists the same member twice.
pub open spec fn members_unique(rooms: Seq<RoomV>) -> bool {
    forall|k: int, i: int, j: int|
        0 <= k < rooms.len() && 0 <= i < j < rooms[k].members.len() ==> (
        #[trigger] rooms[k].members[i]) != (#[trigger] rooms[k].members[j])
}

/// The membership index has at most one entry per user.
pub open spec fn users_unique(users: Seq<UserRoom>) -> bool {
    forall|i: int, j: int|
        0 <= i < j < users.len() ==> (#[trigger] users[i]).user != (#[trigger] users[j]).user
}

/// Every index entry points at an existing room whose member list
/// contains the user.
pub open spec fn users_linked(rm: RmV) -> bool {
    forall|i: int|
        0 <= i < rm.users.len() ==> rooms_has(rm.rooms, (#[trigger] rm.users[i]).room)
            && rm.rooms[rooms_idx(rm.rooms, rm.users[i].room)].members.contains(rm.users[i].user)
}

/// Every member of every room is mapped to exactly that room by the
/// membership index.
pub open spec fn members_linked(rm: RmV) -> bool {
    forall|k: int, m: int|
        0 <= k < rm.rooms.len() && 0 <= m < rm.rooms[k].members.len() ==> spec_room_of(
            rm.users,
            #[trigger] rm.rooms[k].members[m],
        ) == Some(rm.rooms[k].id)
}

impl RmV {
    /// The room-manager invariant.
    ///
    /// Room identities are unique; every room's member list is nonempty
    /// and free of duplicates; the membership index has at most one entry
    /// per user; and the index agrees with the member lists in both
    /// directions: an index entry points at an existing room whose member
    /// list contains the user, and every member of every room is mapped
    /// to exactly that room by the index.
    pub open spec fn wf(self) -> bool {
        &&& rooms_unique(self.rooms)
        &&& rooms_nonempty(self.rooms)
        &&& members_unique(self.rooms)
        &&& users_unique(self.users)
        &&& users_linked(self)
        &&& members_linked(self)
    }
}

/// Under a duplicate-free index, `user_idx` names exactly the slot any
/// matching entry sits in.
pub proof fn lemma_user_idx_unique(users: Seq<UserRoom>, x: int)
    requires
        users_unique(users),
        0 <= x < users.len(),
    ensures
        user_has(users, users[x].user),
        user_idx(users, users[x].user) == x,
{
    assert(user_has(users, users[x].user));
    let c = user_idx(users, users[x].user);
    assert(0 <= c < users.len() && users[c].user == users[x].user);
    if c < x {
        assert(users[c].user != users[x].user);
    } else if x < c {
        assert(users[x].user != users[c].user);
    }
}

/// Under unique room identities, `rooms_idx` names exactly the slot any
/// matching room sits in.
pub proof fn lemma_rooms_idx_unique(rooms: Seq<RoomV>, x: int)
    requires
        rooms_unique(rooms),
        0 <= x < rooms.len(),
    ensures
        rooms_has(rooms, rooms[x].id),
        rooms_idx(rooms, rooms[x].id) == x,
{
    assert(rooms_has(rooms, rooms[x].id));
    let c = rooms_idx(rooms, rooms[x].id);
    assert(0 <= c < rooms.len() && rooms[c].id == rooms[x].id);
    if c < x {
        assert(rooms[c].id != rooms[x].id);
    } else if x < c {
        assert(rooms[x].id != rooms[c].id);
    }
}

/// The model of removing `uid` from whatever room it occupies: its index
/// entry goes away, it leaves that room's member list, and the room
/// itself is deleted if `uid` was its only member.  Identity on a `uid`
/// that occupies no room.
pub open spec fn spec_leave_user(rm: RmV, uid: u128) -> RmV {
    if user_has(rm.users, uid) {
        let rid = rm.users[user_idx(rm.users, uid)].room;
        let users2 = rm.users.remove(user_idx(rm.users, uid));
        if rooms_has(rm.rooms, rid) {
            let k = rooms_idx(rm.rooms, rid);
            let room = rm.rooms[k];
            let members2 = room.members.remove_value(uid);
            if members2.len() == 0 {
                RmV { rooms: rm.rooms.remove(k), users: users2 }
            } else {
                RmV {
                    rooms: rm.rooms.update(
                        k,
                        RoomV {
                            id: room.id,
                            name: room.name,
                            owner_id: room.owner_id,
                            members: members2,
                        },
                    ),
                    users: users2,
                }
            }
        } else {
            RmV { rooms: rm.rooms, users: users2 }
        }
    } else {
        rm
    }
}

/// The model of adding `uid` to the member list of the existing room
/// `rid` and recording it in the membership index.
pub open spec fn spec_add_member(rm: RmV, uid: u128, rid: u128) -> RmV {
    let k = rooms_idx(rm.rooms, rid);
    let room = rm.rooms[k];
    RmV {
        rooms: rm.rooms.update(
            k,
            RoomV {
                id: room.id,
                name: room.name,
                owner_id: room.owner_id,
                members: room.members.push(uid),
            },
        ),
        users: rm.users.push(UserRoom { user: uid, room: rid }),
    }
}

/// The model of creating room `rid` named `name` with `uid` as owner and
/// only member.
pub open spec fn spec_create_room(rm: RmV, uid: u128, rid: u128, name: Seq<char>) -> RmV {
    RmV {
        rooms: rm.rooms.push(RoomV { id: rid, name, owner_id: uid, members: seq![uid] }),
        users: rm.users.push(UserRoom { user: uid, room: rid }),
    }
}

/// The room manager: rooms and the membership index, updated
/// together so the invariant `RmV::wf` holds at every point.
pub struct RoomManager {
    rooms: Vec<Room>,
    user_rooms: Vec<UserRoom>,
}

impl View for RoomManager {
    type V = RmV;

    closed spec fn view(&self) -> RmV {
        RmV { rooms: self.rooms.deep_view(), users: self.user_rooms@ }
    }
}

/// The first position of `x` in `v`, if any.
fn find_id(v: &Vec<u128>, x: u128) -> (r: Option<usize>)
    ensures
        match r {
            Some(i) => i < v@.len() && v@[i as int] == x && forall|j: int|
                0 <= j < i ==> v@[j] != x,
            None => !v@.contains(x),
        },
{
    let n = v.len();
    let mut i: usize = 0;
    while i < n
        invariant
            n == v@.len(),
            i <= n,
            forall|j: int| 0 <= j < i ==> v@[j] != x,
        decreases n - i,
    {
        if v[i] == x {
            return Some(i);
        }
        i = i + 1;
    }
    None
}

impl RoomManager {
    pub open spec fn wf(&self) -> bool {
        self@.wf()
    }

    pub fn new() -> (r: RoomManager)
        ensures
            r@ == (RmV { rooms: Seq::<RoomV>::empty(), users: Seq::<UserRoom>::empty() }),
            r.wf(),
    {
        let r = RoomManager { rooms: Vec::new(), user_rooms: Vec::new() };
        proof {
            assert(r@ =~= RmV { rooms: Seq::<RoomV>::empty(), users: Seq::<UserRoom>::empty() });
        }
        r
    }

    /// The index of the room carrying `rid`, or `None` if there is none.
    fn find_room(&self, rid: u128) -> (r: Option<usize>)
        requires
            self.wf(),
        ensures
            match r {
                Some(k) => k < self@.rooms.len() && self@.rooms[k as int].id == rid && k as int
                    == rooms_idx(self@.rooms, rid),
                None => !rooms_has(self@.rooms, rid),
            },
    {
        let n = self.rooms.len();
        let mut i: usize = 0;
        while i < n
            invariant
                self.wf(),
                n == self@.rooms.len(),
                i <= n,
                forall|j: int| 0 <= j < i ==> (#[trigger] self@.rooms[j].id) != rid,
            decreases n - i,
        {
            if self.rooms[i].id == rid {
                proof {
                    assert(self@.rooms[i as int] == self.rooms@[i as int]@);
                    assert(self@.rooms[i as int].id == rid);
                    assert(rooms_has(self@.rooms, rid));
                    let k = rooms_idx(self@.rooms, rid);
                    assert(0 <= k < self@.rooms.len() && self@.rooms[k].id == rid);
                    assert(k == i as int);
                }
                return Some(i);
            }
            proof {
                assert(self@.rooms[i as int] == self.rooms@[i as int]@);
            }
            i = i + 1;
        }
        None
    }

    /// The index of `uid`'s membership entry, or `None` if there is none.
    fn find_user(&self, uid: u128) -> (r: Option<usize>)
        requires
            self.wf(),
        ensures
            match r {
                Some(i) => i < self@.users.len() && self@.users[i as int].user == uid && i as int
                    == user_idx(self@.users, uid),
                None => !user_has(self@.users, uid),
            },
    {
        let n = self.user_rooms.len();
        let mut i: usize = 0;
        while i < n
            invariant
                self.wf(),
                n == self@.users.len(),
                i <= n,
                forall|j: int| 0 <= j < i ==> (#[trigger] self@.users[j]).user != uid,
            decreases n - i,
        {
            if self.user_rooms[i].user == uid {
                proof {
                    let k = user_idx(self@.users, uid);
                    assert(0 <= k < self@.users.len() && self@.users[k].user == uid);
                    assert(k == i as int);
                }
                return Some(i);
            }
            i = i + 1;
        }
        None
    }

    /// A copy of the room carrying `room_id`, if any.
    pub fn get_room(&self, room_id: u128) -> (r: Option<Room>)
        requires
            self.wf(),
        ensures
            r.deep_view() == spec_room(self@.rooms, room_id),
    {
        match self.find_room(room_id) {
            Some(k) => Some(self.rooms[k].clone()),
            None => None,
        }
    }

    /// The room `user_id` currently occupies, if any.
    pub fn get_user_room(&self, user_id: u128) -> (r: Option<u128>)
        requires
            self.wf(),
        ensures
            r == spec_room_of(self@.users, user_id),
    {
        match self.find_user(user_id) {
            Some(i) => Some(self.user_rooms[i].room),
            None => None,
        }
    }

    /// Removes `uid` from whatever room it occupies, deleting the room if
    /// `uid` was its last member.  Returns the room left and its member
    /// list as it stood before the removal, or `None` (changing nothing)
    /// when `uid` occupies no room.
    fn leave_user(&mut self, uid: u128) -> (r: Option<(RoomInfo, Vec<u128>)>)
        requires
            old(self).wf(),
        ensures
            final(self).wf(),
            final(self)@ == spec_leave_user(old(self)@, uid),
            !user_has(old(self)@.users, uid) ==> r is None && final(self)@ == old(self)@,
            user_has(old(self)@.users, uid) ==> (r matches Some((info, members))
                && spec_room_of(old(self)@.users, uid) matches Some(rid)
                && rooms_has(old(self)@.rooms, rid) && info@ == (RoomInfoV {
                id: rid,
                name: spec_room(old(self)@.rooms, rid)->Some_0.name,
            }) && members@ == spec_room(old(self)@.rooms, rid)->Some_0.members),
    {
        let ghost o = self@;
        let i = match self.find_user(uid) {
            Some(i) => i,
            None => {
                return None;
            },
        };
        let rid = self.user_rooms[i].room;
        proof {
            assert(o.users[i as int] == self.user_rooms@[i as int]);
            assert(rooms_has(o.rooms, rid));
        }
        let k = match self.find_room(rid) {
            Some(k) => k,
            None => {
                proof {
                    assert(false);
                }
                return None;
            },
        };
        let name = self.rooms[k].name.clone();
        let members_before = copy_ids(&self.rooms[k].members);
        let m = match find_id(&self.rooms[k].members, uid) {
            Some(m) => m,
            None => {
                proof {
                    assert(o.rooms[k as int].members.contains(uid));
                    assert(false);
                }
                return None;
            },
        };
        let room = &mut self.rooms[k];
        room.members.remove(m);
        let now_empty = room.members.len() == 0;
        proof {
            assert(self@.rooms =~= o.rooms.update(
                k as int,
                RoomV {
                    id: o.rooms[k as int].id,
                    name: o.rooms[k as int].name,
                    owner_id: o.rooms[k as int].owner_id,
                    members: o.rooms[k as int].members.remove(m as int),
                },
            ));
            o.rooms[k as int].members.index_of_first_ensures(uid);
            assert(o.rooms[k as int].members.index_of_first(uid) == Some(m as int));
            assert(o.rooms[k as int].members.remove_value(uid) == o.rooms[k as int].members.remove(
                m as int,
            ));
        }
        if now_empty {
            self.rooms.remove(k);
            proof {
                assert(self@.rooms =~= o.rooms.remove(k as int));
            }
        }
        self.user_rooms.remove(i);
        proof {
            assert(self@.users =~= o.users.remove(i as int));
            assert(self@ =~= spec_leave_user(o, uid));
            lemma_wf_leave(o, uid);
        }
        Some((RoomInfo { id: rid, name }, members_before))
    }

    /// Adds `uid`, which occupies no room, to the member list of the
    /// existing room `room_id` and records it in the membership index.
    fn add_member(&mut self, uid: u128, room_id: u128) -> (info: RoomInfo)
        requires
            old(self).wf(),
            rooms_has(old(self)@.rooms, room_id),
            !user_has(old(self)@.users, uid),
        ensures
            final(self).wf(),
            final(self)@ == spec_add_member(old(self)@, uid, room_id),
            info@ == (RoomInfoV {
                id: room_id,
                name: spec_room(old(self)@.rooms, room_id)->Some_0.name,
            }),
    {
        let ghost o = self@;
        let k = match self.find_room(room_id) {
            Some(k) => k,
            None => {
                proof {
                    assert(false);
                }
                return RoomInfo { id: room_id, name: String::new() };
            },
        };
        let room = &mut self.rooms[k];
        room.members.push(uid);
        let name = room.name.clone();
        self.user_rooms.push(UserRoom { user: uid, room: room_id });
        proof {
            assert(self@.rooms =~= o.rooms.update(
                k as int,
                RoomV {
                    id: o.rooms[k as int].id,
                    name: o.rooms[k as int].name,
                    owner_id: o.rooms[k as int].owner_id,
                    members: o.rooms[k as int].members.push(uid),
                },
            ));
            assert(self@.users =~= o.users.push(UserRoom { user: uid, room: room_id }));
            assert(self@ =~= spec_add_member(o, uid, room_id));
            lemma_wf_add_member(o, uid, room_id);
        }
        RoomInfo { id: room_id, name }
    }

    /// Creates a room named `name` whose identity is the freshly drawn
    /// `room_id`, with `owner_id` as owner and only member
    /// (`createRoom`).
    ///
    /// Refuses a `room_id` that collides with a live room, and refuses an
    /// owner that already occupies a room, changing nothing in either
    /// case; the collision check comes first.
    pub fn create_room(&mut self, owner_id: u128, name: String, room_id: u128) -> (r: Result<
        RoomInfo,
        RoomError,
    >)
        requires
            old(self).wf(),
        ensures
            final(self).wf(),
            rooms_has(old(self)@.rooms, room_id) ==> r == Err::<RoomInfo, RoomError>(
                RoomError::RoomAlreadyExists,
            ) && final(self)@ == old(self)@,
            !rooms_has(old(self)@.rooms, room_id) && user_has(old(self)@.users, owner_id) ==> r
                == Err::<RoomInfo, RoomError>(RoomError::AlreadyInRoom) && final(self)@ == old(
                self,
            )@,
            !rooms_has(old(self)@.rooms, room_id) && !user_has(old(self)@.users, owner_id) ==> (
            r matches Ok(info) && info@ == (RoomInfoV { id: room_id, name: name@ }) && final(self)@
                == spec_create_room(old(self)@, owner_id, room_id, name@)),
    {
        let ghost o = self@;
        if self.find_room(room_id).is_some() {
            return Err(RoomError::RoomAlreadyExists);
        }
        if self.find_user(owner_id).is_some() {
            return Err(RoomError::AlreadyInRoom);
        }
        let info = RoomInfo { id: room_id, name: name.clone() };
        let mut members: Vec<u128> = Vec::new();
        members.push(owner_id);
        self.rooms.push(Room { id: room_id, name, owner_id, members });
        self.user_rooms.push(UserRoom { user: owner_id, room: room_id });
        proof {
            assert(self@.rooms =~= o.rooms.push(
                RoomV { id: room_id, name: info@.name, owner_id, members: seq![owner_id] },
            ));
            assert(self@.users =~= o.users.push(UserRoom { user: owner_id, room: room_id }));
            assert(self@ =~= spec_create_room(o, owner_id, room_id, info@.name));
            lemma_wf_create_room(o, owner_id, room_id, info@.name);
        }
        Ok(info)
    }

    /// Moves `user_id` into the existing room `room_id`
    /// (`joinRoom`).
    ///
    /// Refuses an unknown room, and refuses a user already a member of
    /// that same room, changing nothing in either case.  A user occupying
    /// a different room implicitly (and silently) leaves it first.
    pub fn join_room(&mut self, user_id: u128, room_id: u128) -> (r: Result<RoomInfo, RoomError>)
        requires
            old(self).wf(),
        ensures
            final(self).wf(),
            !rooms_has(old(self)@.rooms, room_id) ==> r == Err::<RoomInfo, RoomError>(
                RoomError::RoomNotFound,
            ) && final(self)@ == old(self)@,
            rooms_has(old(self)@.rooms, room_id) && spec_room_of(old(self)@.users, user_id)
                == Some(room_id) ==> r == Err::<RoomInfo, RoomError>(RoomError::AlreadyInRoom)
                && final(self)@ == old(self)@,
            rooms_has(old(self)@.rooms, room_id) && spec_room_of(old(self)@.users, user_id) != Some(
                room_id,
            ) ==> (r matches Ok(info) && info@ == (RoomInfoV {
                id: room_id,
                name: spec_room(old(self)@.rooms, room_id)->Some_0.name,
            }) && final(self)@ == spec_add_member(
                spec_leave_user(old(self)@, user_id),
                user_id,
                room_id,
            )),
    {
        let ghost o = self@;
        if self.find_room(room_id).is_none() {
            return Err(RoomError::RoomNotFound);
        }
        if let Some(current) = self.get_user_room(user_id) {
            if current == room_id {
                return Err(RoomError::AlreadyInRoom);
            }
        }
        self.leave_user(user_id);
        let ghost mid = self@;
        proof {
            lemma_leave_keeps_other_rooms(o, user_id, room_id);
            assert(!user_has(mid.users, user_id));
        }
        let info = self.add_member(user_id, room_id);
        Ok(info)
    }

    /// Removes `user_id` from the room it occupies
    /// (`leaveRoom`), deleting the room if it was the last member.
    /// Returns the room left and the member list as it stood before the
    /// removal, so the caller can notify everyone who was present,
    /// including the leaver.  Refuses a user that occupies no room,
    /// changing nothing.
    pub fn leave_room(&mut self, user_id: u128) -> (r: Result<(RoomInfo, Vec<u128>), RoomError>)
        requires
            old(self).wf(),
        ensures
            final(self).wf(),
            !user_has(old(self)@.users, user_id) ==> r == Err::<(RoomInfo, Vec<u128>), RoomError>(
                RoomError::NotInRoom,
            ) && final(self)@ == old(self)@,
            user_has(old(self)@.users, user_id) ==> (r matches Ok((info, members))
                && spec_room_of(old(self)@.users, user_id) matches Some(rid)
                && rooms_has(old(self)@.rooms, rid) && info@ == (RoomInfoV {
                id: rid,
                name: spec_room(old(self)@.rooms, rid)->Some_0.name,
            }) && members@ == spec_room(old(self)@.rooms, rid)->Some_0.members && final(self)@
                == spec_leave_user(old(self)@, user_id)),
    {
        match self.leave_user(user_id) {
            Some(pair) => Ok(pair),
            None => Err(RoomError::NotInRoom),
        }
    }
}

/// After a user leaves, every room other than the one it occupied is
/// untouched, the user has no membership entry any more, and every other
/// user's entry is untouched.
pub proof fn lemma_leave_keeps_other_rooms(o: RmV, uid: u128, other: u128)
    requires
        o.wf(),
        spec_room_of(o.users, uid) != Some(other),
    ensures
        !user_has(spec_leave_user(o, uid).users, uid),
        rooms_has(o.rooms, other) ==> rooms_has(spec_leave_user(o, uid).rooms, other)
            && spec_room(spec_leave_user(o, uid).rooms, other) == spec_room(o.rooms, other),
{
    let f = spec_leave_user(o, uid);
    if user_has(o.users, uid) {
        let i = user_idx(o.users, uid);
        let rid = o.users[i].room;
        assert(0 <= i < o.users.len() && o.users[i].user == uid);
        assert(rooms_has(o.rooms, rid));
        let k = rooms_idx(o.rooms, rid);
        assert(0 <= k < o.rooms.len() && o.rooms[k].id == rid);
        assert(f.users =~= o.users.remove(i));
        assert forall|x: int| 0 <= x < f.users.len() implies (#[trigger] f.users[x]).user
            != uid by {
            if x < i {
                assert(f.users[x] == o.users[x]);
            } else {
                assert(f.users[x] == o.users[x + 1]);
            }
        }
        assert(!user_has(f.users, uid));
        if rooms_has(o.rooms, other) {
            let k2 = rooms_idx(o.rooms, other);
            assert(0 <= k2 < o.rooms.len() && o.rooms[k2].id == other);
            assert(rid != other);
            assert(k2 != k);
            let members2 = o.rooms[k].members.remove_value(uid);
            if members2.len() == 0 {
                assert(f.rooms =~= o.rooms.remove(k));
                let k2f: int = if k2 < k {
                    k2
                } else {
                    k2 - 1
                };
                assert(f.rooms[k2f] == o.rooms[k2]);
                assert(rooms_has(f.rooms, other));
                let kc = rooms_idx(f.rooms, other);
                assert(0 <= kc < f.rooms.len() && f.rooms[kc].id == other);
                let kco: int = if kc < k {
                    kc
                } else {
                    kc + 1
                };
                assert(f.rooms[kc] == o.rooms[kco]);
                assert(kco == k2);
                assert(spec_room(f.rooms, other) == Some(o.rooms[k2]));
            } else {
                assert(f.rooms[k2] == o.rooms[k2]);
                assert(rooms_has(f.rooms, other));
                let kc = rooms_idx(f.rooms, other);
                assert(0 <= kc < f.rooms.len() && f.rooms[kc].id == other);
                assert(f.rooms[kc].id == o.rooms[kc].id);
                assert(kc == k2);
                assert(spec_room(f.rooms, other) == Some(o.rooms[k2]));
            }
        }
    } else {
        assert(f == o);
        assert(!user_has(f.users, uid));
    }
}

/// Leaving preserves the room-manager invariant.
proof fn lemma_wf_leave(o: RmV, uid: u128)
    requires
        o.wf(),
    ensures
        spec_leave_user(o, uid).wf(),
{
    let f = spec_leave_user(o, uid);
    if !user_has(o.users, uid) {
        assert(f == o);
    } else {
        let i = user_idx(o.users, uid);
        let rid = o.users[i].room;
        assert(0 <= i < o.users.len() && o.users[i].user == uid);
        assert(rooms_has(o.rooms, rid));
        let k = rooms_idx(o.rooms, rid);
        assert(0 <= k < o.rooms.len() && o.rooms[k].id == rid);
        assert(o.rooms[k].members.contains(uid));
        let members = o.rooms[k].members;
        members.index_of_first_ensures(uid);
        let m = members.index_of_first(uid)->Some_0;
        assert(0 <= m < members.len() && members[m] == uid);
        let members2 = members.remove_value(uid);
        assert(members2 =~= members.remove(m));
        assert(f.users =~= o.users.remove(i));
        // Index maps between the old and new sequences.
        assert(forall|x: int|
            0 <= x < f.users.len() ==> #[trigger] f.users[x] == (if x < i {
                o.users[x]
            } else {
                o.users[x + 1]
            }));
        // No other entry carries uid, and no other room lists uid.
        assert forall|x: int| 0 <= x < f.users.len() implies (#[trigger] f.users[x]).user
            != uid by {
            if x < i {
            } else {
                assert(f.users[x] == o.users[x + 1]);
            }
        }
        if members2.len() == 0 {
            assert(f.rooms =~= o.rooms.remove(k));
            assert(forall|x: int|
                0 <= x < f.rooms.len() ==> #[trigger] f.rooms[x] == (if x < k {
                    o.rooms[x]
                } else {
                    o.rooms[x + 1]
                }));
            lemma_wf_leave_delete(o, uid, i, k, m);
        } else {
            assert(f.rooms =~= o.rooms.update(
                k,
                RoomV {
                    id: o.rooms[k].id,
                    name: o.rooms[k].name,
                    owner_id: o.rooms[k].owner_id,
                    members: members2,
                },
            ));
            lemma_wf_leave_update(o, uid, i, k, m);
        }
    }
}

/// Removing one index entry leaves every other user's lookup unchanged
/// and erases the removed user's.
proof fn lemma_room_of_after_remove(o: RmV, i: int, w: u128)
    requires
        users_unique(o.users),
        0 <= i < o.users.len(),
    ensures
        w != o.users[i].user ==> spec_room_of(o.users.remove(i), w) == spec_room_of(o.users, w),
        users_unique(o.users.remove(i)),
        !user_has(o.users.remove(i), o.users[i].user),
{
    let u2 = o.users.remove(i);
    assert(forall|x: int|
        0 <= x < u2.len() ==> #[trigger] u2[x] == (if x < i {
            o.users[x]
        } else {
            o.users[x + 1]
        }));
    assert forall|a: int, b: int| 0 <= a < b < u2.len() implies (#[trigger] u2[a]).user != (
    #[trigger] u2[b]).user by {
        if a < i && b < i {
            assert(o.users[a].user != o.users[b].user);
        } else if a < i {
            assert(o.users[a].user != o.users[b + 1].user);
        } else {
            assert(o.users[a + 1].user != o.users[b + 1].user);
        }
    }
    assert forall|x: int| 0 <= x < u2.len() implies (#[trigger] u2[x]).user
        != o.users[i].user by {
        if x < i {
        } else {
            assert(u2[x] == o.users[x + 1]);
        }
    }
    assert(!user_has(u2, o.users[i].user));
    if w == o.users[i].user {
    } else if user_has(o.users, w) {
        let y = user_idx(o.users, w);
        assert(0 <= y < o.users.len() && o.users[y].user == w);
        assert(y != i);
        let y2: int = if y < i {
            y
        } else {
            y - 1
        };
        assert(u2[y2] == o.users[y]);
        assert(user_has(u2, w));
        let yf = user_idx(u2, w);
        assert(0 <= yf < u2.len() && u2[yf].user == w);
        if yf != y2 {
            assert(u2[yf].user != u2[y2].user);
        }
        assert(spec_room_of(u2, w) == Some(o.users[y].room));
        lemma_user_idx_unique(o.users, y);
    } else {
        assert forall|x: int| 0 <= x < u2.len() implies (#[trigger] u2[x]).user != w by {
            if x < i {
                assert(o.users[x].user != w) by {
                    if o.users[x].user == w {
                        assert(user_has(o.users, w));
                    }
                }
            } else {
                assert(u2[x] == o.users[x + 1]);
                if o.users[x + 1].user == w {
                    assert(user_has(o.users, w));
                }
            }
        }
        assert(!user_has(u2, w));
    }
}

/// Appending one index entry for a fresh user leaves every other user's
/// lookup unchanged and maps the fresh user to the new room.
proof fn lemma_room_of_after_push(o: RmV, uid: u128, rid: u128, w: u128)
    requires
        users_unique(o.users),
        !user_has(o.users, uid),
    ensures
        users_unique(o.users.push(UserRoom { user: uid, room: rid })),
        spec_room_of(o.users.push(UserRoom { user: uid, room: rid }), uid) == Some(rid),
        w != uid ==> spec_room_of(o.users.push(UserRoom { user: uid, room: rid }), w)
            == spec_room_of(o.users, w),
{
    let u2 = o.users.push(UserRoom { user: uid, room: rid });
    let n = o.users.len() as int;
    assert(u2[n] == UserRoom { user: uid, room: rid });
    assert(forall|x: int| 0 <= x < n ==> #[trigger] u2[x] == o.users[x]);
    assert forall|a: int, b: int| 0 <= a < b < u2.len() implies (#[trigger] u2[a]).user != (
    #[trigger] u2[b]).user by {
        if b < n {
            assert(o.users[a].user != o.users[b].user);
        } else {
            if o.users[a].user == uid {
                assert(user_has(o.users, uid));
            }
        }
    }
    assert(user_has(u2, uid));
    let c = user_idx(u2, uid);
    assert(0 <= c < u2.len() && u2[c].user == uid);
    if c < n {
        assert(u2[c] == o.users[c]);
        assert(user_has(o.users, uid));
    }
    assert(spec_room_of(u2, uid) == Some(rid));
    if w != uid {
        if user_has(o.users, w) {
            let y = user_idx(o.users, w);
            assert(0 <= y < n && o.users[y].user == w);
            assert(u2[y].user == w);
            assert(user_has(u2, w));
            let yf = user_idx(u2, w);
            assert(0 <= yf < u2.len() && u2[yf].user == w);
            assert(yf != n);
            if yf != y {
                assert(u2[yf].user != u2[y].user);
            }
            assert(spec_room_of(u2, w) == spec_room_of(o.users, w));
        } else {
            assert forall|x: int| 0 <= x < u2.len() implies (#[trigger] u2[x]).user != w by {
                if x < n {
                    if o.users[x].user == w {
                        assert(user_has(o.users, w));
                    }
                }
            }
            assert(!user_has(u2, w));
        }
    }
}

/// No member of any room is a user absent from the membership index.
proof fn lemma_absent_user_not_member(o: RmV, uid: u128, kx: int, mx: int)
    requires
        users_unique(o.users),
        members_linked(o),
        !user_has(o.users, uid),
        0 <= kx < o.rooms.len(),
        0 <= mx < o.rooms[kx].members.len(),
    ensures
        o.rooms[kx].members[mx] != uid,
{
    if o.rooms[kx].members[mx] == uid {
        assert(spec_room_of(o.users, uid) == Some(o.rooms[kx].id));
    }
}

/// Leaving a room whose member list keeps other members preserves the
/// invariant.
#[verifier::rlimit(60)]
proof fn lemma_wf_leave_update(o: RmV, uid: u128, i: int, k: int, m: int)
    requires
        o.wf(),
        0 <= i < o.users.len(),
        o.users[i].user == uid,
        0 <= k < o.rooms.len(),
        o.rooms[k].id == o.users[i].room,
        0 <= m < o.rooms[k].members.len(),
        o.rooms[k].members[m] == uid,
        o.rooms[k].members.len() > 1,
    ensures
        (RmV {
            rooms: o.rooms.update(
                k,
                RoomV {
                    id: o.rooms[k].id,
                    name: o.rooms[k].name,
                    owner_id: o.rooms[k].owner_id,
                    members: o.rooms[k].members.remove(m),
                },
            ),
            users: o.users.remove(i),
        }).wf(),
{
    let rid = o.users[i].room;
    let members = o.rooms[k].members;
    let members2 = members.remove(m);
    let f = RmV {
        rooms: o.rooms.update(
            k,
            RoomV {
                id: o.rooms[k].id,
                name: o.rooms[k].name,
                owner_id: o.rooms[k].owner_id,
                members: members2,
            },
        ),
        users: o.users.remove(i),
    };
    assert(forall|x: int|
        0 <= x < f.users.len() ==> #[trigger] f.users[x] == (if x < i {
            o.users[x]
        } else {
            o.users[x + 1]
        }));
    assert(forall|x: int| 0 <= x < f.rooms.len() ==> (#[trigger] f.rooms[x]).id == o.rooms[x].id);
    assert(forall|y: int|
        0 <= y < members2.len() ==> #[trigger] members2[y] == (if y < m {
            members[y]
        } else {
            members[y + 1]
        }));
    assert(rooms_unique(f.rooms));
    assert(rooms_nonempty(f.rooms));
    assert forall|kx: int, a: int, b: int|
        0 <= kx < f.rooms.len() && 0 <= a < b < f.rooms[kx].members.len() implies (
    #[trigger] f.rooms[kx].members[a]) != (#[trigger] f.rooms[kx].members[b]) by {
        if kx != k {
            assert(o.rooms[kx].members[a] != o.rooms[kx].members[b]);
        } else {
            if b < m {
                assert(members[a] != members[b]);
            } else if a < m {
                assert(members[a] != members[b + 1]);
            } else {
                assert(members[a + 1] != members[b + 1]);
            }
        }
    }
    assert(members_unique(f.rooms));
    lemma_room_of_after_remove(o, i, uid);
    assert(users_unique(f.users));
    // Entries other than the removed one still point at a live room
    // that lists them.
    assert forall|x: int| 0 <= x < f.users.len() implies rooms_has(
        f.rooms,
        (#[trigger] f.users[x]).room,
    ) && f.rooms[rooms_idx(f.rooms, f.users[x].room)].members.contains(f.users[x].user) by {
        let e = f.users[x];
        let xo: int = if x < i {
            x
        } else {
            x + 1
        };
        assert(e == o.users[xo]);
        assert(xo != i);
        if e.user == uid {
            assert(o.users[xo].user == o.users[i].user);
            if xo < i {
                assert(o.users[xo].user != o.users[i].user);
            } else {
                assert(o.users[i].user != o.users[xo].user);
            }
        }
        assert(e.user != uid);
        assert(rooms_has(o.rooms, e.room));
        let ko = rooms_idx(o.rooms, e.room);
        assert(0 <= ko < o.rooms.len() && o.rooms[ko].id == e.room);
        assert(o.rooms[ko].members.contains(e.user));
        assert(f.rooms[ko].id == e.room);
        assert(rooms_has(f.rooms, e.room));
        let kf = rooms_idx(f.rooms, e.room);
        assert(0 <= kf < f.rooms.len() && f.rooms[kf].id == e.room);
        assert(o.rooms[kf].id == e.room);
        if kf != ko {
            if kf < ko {
                assert(o.rooms[kf].id != o.rooms[ko].id);
            } else {
                assert(o.rooms[ko].id != o.rooms[kf].id);
            }
        }
        if ko != k {
            assert(f.rooms[ko] == o.rooms[ko]);
        } else {
            let mm = choose|t: int| 0 <= t < members.len() && members[t] == e.user;
            assert(0 <= mm < members.len() && members[mm] == e.user);
            assert(mm != m);
            if mm < m {
                assert(members2[mm] == e.user);
                assert(f.rooms[k].members.contains(e.user));
            } else {
                assert(members2[mm - 1] == e.user);
                assert(f.rooms[k].members.contains(e.user));
            }
        }
    }
    assert(users_linked(f));
    // Every remaining member is still mapped to its room.
    assert forall|kx: int, mx: int|
        0 <= kx < f.rooms.len() && 0 <= mx < f.rooms[kx].members.len() implies spec_room_of(
        f.users,
        #[trigger] f.rooms[kx].members[mx],
    ) == Some(f.rooms[kx].id) by {
        let w = f.rooms[kx].members[mx];
        lemma_user_idx_unique(o.users, i);
        assert(spec_room_of(o.users, uid) == Some(rid));
        if kx != k {
            assert(w == o.rooms[kx].members[mx]);
            assert(spec_room_of(o.users, w) == Some(o.rooms[kx].id));
            if w == uid {
                assert(o.rooms[kx].id == rid && o.rooms[k].id == rid);
                if kx < k {
                    assert(o.rooms[kx].id != o.rooms[k].id);
                } else {
                    assert(o.rooms[k].id != o.rooms[kx].id);
                }
            }
            assert(w != uid);
            lemma_room_of_after_remove(o, i, w);
            assert(spec_room_of(f.users, w) == Some(f.rooms[kx].id));
        } else {
            let mxo: int = if mx < m {
                mx
            } else {
                mx + 1
            };
            assert(w == members[mxo]);
            assert(mxo != m);
            if w == uid {
                if mxo < m {
                    assert(members[mxo] != members[m]);
                } else {
                    assert(members[m] != members[mxo]);
                }
            }
            assert(w != uid);
            assert(spec_room_of(o.users, w) == Some(o.rooms[k].id));
            lemma_room_of_after_remove(o, i, w);
            assert(spec_room_of(f.users, w) == Some(f.rooms[kx].id));
        }
    }
    assert(members_linked(f));
}

/// Leaving a room as its last member deletes the room and preserves the
/// invariant.
#[verifier::rlimit(60)]
proof fn lemma_wf_leave_delete(o: RmV, uid: u128, i: int, k: int, m: int)
    requires
        o.wf(),
        0 <= i < o.users.len(),
        o.users[i].user == uid,
        0 <= k < o.rooms.len(),
        o.rooms[k].id == o.users[i].room,
        0 <= m < o.rooms[k].members.len(),
        o.rooms[k].members[m] == uid,
        o.rooms[k].members.remove(m).len() == 0,
    ensures
        (RmV { rooms: o.rooms.remove(k), users: o.users.remove(i) }).wf(),
{
    let rid = o.users[i].room;
    let members = o.rooms[k].members;
    let f = RmV { rooms: o.rooms.remove(k), users: o.users.remove(i) };
    assert(members.len() == 1 && m == 0);
    assert(forall|x: int|
        0 <= x < f.users.len() ==> #[trigger] f.users[x] == (if x < i {
            o.users[x]
        } else {
            o.users[x + 1]
        }));
    assert(forall|x: int|
        0 <= x < f.rooms.len() ==> #[trigger] f.rooms[x] == (if x < k {
            o.rooms[x]
        } else {
            o.rooms[x + 1]
        }));
    assert forall|a: int, b: int| 0 <= a < b < f.rooms.len() implies (#[trigger] f.rooms[a]).id != (
    #[trigger] f.rooms[b]).id by {
        if b < k {
            assert(o.rooms[a].id != o.rooms[b].id);
        } else if a < k {
            assert(o.rooms[a].id != o.rooms[b + 1].id);
        } else {
            assert(o.rooms[a + 1].id != o.rooms[b + 1].id);
        }
    }
    assert(rooms_unique(f.rooms));
    assert(rooms_nonempty(f.rooms));
    assert forall|kx: int, a: int, b: int|
        0 <= kx < f.rooms.len() && 0 <= a < b < f.rooms[kx].members.len() implies (
    #[trigger] f.rooms[kx].members[a]) != (#[trigger] f.rooms[kx].members[b]) by {
        let kxo: int = if kx < k {
            kx
        } else {
            kx + 1
        };
        assert(f.rooms[kx] == o.rooms[kxo]);
        assert(o.rooms[kxo].members[a] != o.rooms[kxo].members[b]);
    }
    assert(members_unique(f.rooms));
    lemma_room_of_after_remove(o, i, uid);
    assert(users_unique(f.users));
    lemma_user_idx_unique(o.users, i);
    assert(spec_room_of(o.users, uid) == Some(rid));
    assert forall|x: int| 0 <= x < f.users.len() implies rooms_has(
        f.rooms,
        (#[trigger] f.users[x]).room,
    ) && f.rooms[rooms_idx(f.rooms, f.users[x].room)].members.contains(f.users[x].user) by {
        let e = f.users[x];
        let xo: int = if x < i {
            x
        } else {
            x + 1
        };
        assert(e == o.users[xo]);
        assert(xo != i);
        if e.user == uid {
            if xo < i {
                assert(o.users[xo].user != o.users[i].user);
            } else {
                assert(o.users[i].user != o.users[xo].user);
            }
        }
        assert(e.user != uid);
        assert(rooms_has(o.rooms, e.room));
        let ko = rooms_idx(o.rooms, e.room);
        assert(0 <= ko < o.rooms.len() && o.rooms[ko].id == e.room);
        assert(o.rooms[ko].members.contains(e.user));
        if ko == k {
            let mm = choose|t: int| 0 <= t < members.len() && members[t] == e.user;
            assert(0 <= mm < members.len() && members[mm] == e.user);
            assert(mm == 0 && members[0] == uid);
        }
        assert(ko != k);
        let kof: int = if ko < k {
            ko
        } else {
            ko - 1
        };
        assert(f.rooms[kof] == o.rooms[ko]);
        assert(rooms_has(f.rooms, e.room));
        let kf = rooms_idx(f.rooms, e.room);
        assert(0 <= kf < f.rooms.len() && f.rooms[kf].id == e.room);
        if kf != kof {
            if kf < kof {
                assert(f.rooms[kf].id != f.rooms[kof].id);
            } else {
                assert(f.rooms[kof].id != f.rooms[kf].id);
            }
        }
        assert(f.rooms[kf] == o.rooms[ko]);
    }
    assert(users_linked(f));
    assert forall|kx: int, mx: int|
        0 <= kx < f.rooms.len() && 0 <= mx < f.rooms[kx].members.len() implies spec_room_of(
        f.users,
        #[trigger] f.rooms[kx].members[mx],
    ) == Some(f.rooms[kx].id) by {
        let kxo: int = if kx < k {
            kx
        } else {
            kx + 1
        };
        assert(f.rooms[kx] == o.rooms[kxo]);
        let w = o.rooms[kxo].members[mx];
        assert(spec_room_of(o.users, w) == Some(o.rooms[kxo].id));
        if w == uid {
            assert(o.rooms[kxo].id == rid && o.rooms[k].id == rid);
            if kxo < k {
                assert(o.rooms[kxo].id != o.rooms[k].id);
            } else {
                assert(o.rooms[k].id != o.rooms[kxo].id);
            }
        }
        assert(w != uid);
        lemma_room_of_after_remove(o, i, w);
        assert(spec_room_of(f.users, w) == Some(f.rooms[kx].id));
    }
    assert(members_linked(f));
}

/// Adding a fresh member to an existing room preserves the invariant.
#[verifier::rlimit(60)]
proof fn lemma_wf_add_member(o: RmV, uid: u128, rid: u128)
    requires
        o.wf(),
        rooms_has(o.rooms, rid),
        !user_has(o.users, uid),
    ensures
        spec_add_member(o, uid, rid).wf(),
{
    let k = rooms_idx(o.rooms, rid);
    assert(0 <= k < o.rooms.len() && o.rooms[k].id == rid);
    let members = o.rooms[k].members;
    let f = spec_add_member(o, uid, rid);
    let n = o.users.len() as int;
    assert(forall|x: int| 0 <= x < n ==> #[trigger] f.users[x] == o.users[x]);
    assert(f.users[n] == UserRoom { user: uid, room: rid });
    assert(forall|x: int| 0 <= x < f.rooms.len() ==> (#[trigger] f.rooms[x]).id == o.rooms[x].id);
    assert(forall|x: int| 0 <= x < f.rooms.len() && x != k ==> #[trigger] f.rooms[x] == o.rooms[x]);
    assert(rooms_unique(f.rooms));
    assert(rooms_nonempty(f.rooms));
    assert forall|kx: int, a: int, b: int|
        0 <= kx < f.rooms.len() && 0 <= a < b < f.rooms[kx].members.len() implies (
    #[trigger] f.rooms[kx].members[a]) != (#[trigger] f.rooms[kx].members[b]) by {
        if kx != k {
            assert(o.rooms[kx].members[a] != o.rooms[kx].members[b]);
        } else {
            if b < members.len() {
                assert(members[a] != members[b]);
            } else {
                assert(f.rooms[k].members[b] == uid);
                lemma_absent_user_not_member(o, uid, k, a);
            }
        }
    }
    assert(members_unique(f.rooms));
    lemma_room_of_after_push(o, uid, rid, uid);
    assert(users_unique(f.users));
    assert forall|x: int| 0 <= x < f.users.len() implies rooms_has(
        f.rooms,
        (#[trigger] f.users[x]).room,
    ) && f.rooms[rooms_idx(f.rooms, f.users[x].room)].members.contains(f.users[x].user) by {
        let e = f.users[x];
        if x < n {
            assert(e == o.users[x]);
            assert(rooms_has(o.rooms, e.room));
            let ko = rooms_idx(o.rooms, e.room);
            assert(0 <= ko < o.rooms.len() && o.rooms[ko].id == e.room);
            assert(o.rooms[ko].members.contains(e.user));
            assert(f.rooms[ko].id == e.room);
            assert(rooms_has(f.rooms, e.room));
            let kf = rooms_idx(f.rooms, e.room);
            assert(0 <= kf < f.rooms.len() && f.rooms[kf].id == e.room);
            if kf != ko {
                if kf < ko {
                    assert(o.rooms[kf].id != o.rooms[ko].id);
                } else {
                    assert(o.rooms[ko].id != o.rooms[kf].id);
                }
            }
            if ko != k {
                assert(f.rooms[ko] == o.rooms[ko]);
            } else {
                let mm = choose|t: int| 0 <= t < members.len() && members[t] == e.user;
                assert(0 <= mm < members.len() && members[mm] == e.user);
                assert(f.rooms[k].members[mm] == e.user);
                assert(f.rooms[k].members.contains(e.user));
            }
        } else {
            assert(e == UserRoom { user: uid, room: rid });
            assert(f.rooms[k].id == rid);
            assert(rooms_has(f.rooms, rid));
            let kf = rooms_idx(f.rooms, rid);
            assert(0 <= kf < f.rooms.len() && f.rooms[kf].id == rid);
            if kf != k {
                if kf < k {
                    assert(o.rooms[kf].id != o.rooms[k].id);
                } else {
                    assert(o.rooms[k].id != o.rooms[kf].id);
                }
            }
            assert(f.rooms[k].members[members.len() as int] == uid);
            assert(f.rooms[k].members.contains(uid));
        }
    }
    assert(users_linked(f));
    assert forall|kx: int, mx: int|
        0 <= kx < f.rooms.len() && 0 <= mx < f.rooms[kx].members.len() implies spec_room_of(
        f.users,
        #[trigger] f.rooms[kx].members[mx],
    ) == Some(f.rooms[kx].id) by {
        let w = f.rooms[kx].members[mx];
        if kx != k {
            assert(w == o.rooms[kx].members[mx]);
            lemma_absent_user_not_member(o, uid, kx, mx);
            assert(spec_room_of(o.users, w) == Some(o.rooms[kx].id));
            lemma_room_of_after_push(o, uid, rid, w);
        } else {
            if mx < members.len() {
                assert(w == members[mx]);
                lemma_absent_user_not_member(o, uid, k, mx);
                assert(spec_room_of(o.users, w) == Some(o.rooms[k].id));
                lemma_room_of_after_push(o, uid, rid, w);
            } else {
                assert(w == uid);
                lemma_room_of_after_push(o, uid, rid, uid);
                assert(spec_room_of(f.users, uid) == Some(rid));
            }
        }
    }
    assert(members_linked(f));
}

/// Creating a room with a fresh identity for a user in no room preserves
/// the invariant.
#[verifier::rlimit(60)]
proof fn lemma_wf_create_room(o: RmV, uid: u128, rid: u128, name: Seq<char>)
    requires
        o.wf(),
        !rooms_has(o.rooms, rid),
        !user_has(o.users, uid),
    ensures
        spec_create_room(o, uid, rid, name).wf(),
{
    let f = spec_create_room(o, uid, rid, name);
    let n = o.users.len() as int;
    let nr = o.rooms.len() as int;
    let newroom = RoomV { id: rid, name, owner_id: uid, members: seq![uid] };
    assert(forall|x: int| 0 <= x < n ==> #[trigger] f.users[x] == o.users[x]);
    assert(f.users[n] == UserRoom { user: uid, room: rid });
    assert(forall|x: int| 0 <= x < nr ==> #[trigger] f.rooms[x] == o.rooms[x]);
    assert(f.rooms[nr] == newroom);
    assert forall|a: int, b: int| 0 <= a < b < f.rooms.len() implies (#[trigger] f.rooms[a]).id != (
    #[trigger] f.rooms[b]).id by {
        if b < nr {
            assert(o.rooms[a].id != o.rooms[b].id);
        } else {
            if o.rooms[a].id == rid {
                assert(rooms_has(o.rooms, rid));
            }
        }
    }
    assert(rooms_unique(f.rooms));
    assert(newroom.members.len() == 1);
    assert(rooms_nonempty(f.rooms));
    assert forall|kx: int, a: int, b: int|
        0 <= kx < f.rooms.len() && 0 <= a < b < f.rooms[kx].members.len() implies (
    #[trigger] f.rooms[kx].members[a]) != (#[trigger] f.rooms[kx].members[b]) by {
        if kx < nr {
            assert(o.rooms[kx].members[a] != o.rooms[kx].members[b]);
        }
    }
    assert(members_unique(f.rooms));
    lemma_room_of_after_push(o, uid, rid, uid);
    assert(users_unique(f.users));
    assert forall|x: int| 0 <= x < f.users.len() implies rooms_has(
        f.rooms,
        (#[trigger] f.users[x]).room,
    ) && f.rooms[rooms_idx(f.rooms, f.users[x].room)].members.contains(f.users[x].user) by {
        let e = f.users[x];
        if x < n {
            assert(e == o.users[x]);
            assert(rooms_has(o.rooms, e.room));
            let ko = rooms_idx(o.rooms, e.room);
            assert(0 <= ko < o.rooms.len() && o.rooms[ko].id == e.room);
            assert(o.rooms[ko].members.contains(e.user));
            assert(f.rooms[ko] == o.rooms[ko]);
            assert(rooms_has(f.rooms, e.room));
            let kf = rooms_idx(f.rooms, e.room);
            assert(0 <= kf < f.rooms.len() && f.rooms[kf].id == e.room);
            if kf == nr {
                assert(e.room == rid);
                assert(rooms_has(o.rooms, rid));
            }
            if kf != ko {
                if kf < ko {
                    assert(o.rooms[kf].id != o.rooms[ko].id);
                } else {
                    assert(o.rooms[ko].id != o.rooms[kf].id);
                }
            }
        } else {
            assert(e == UserRoom { user: uid, room: rid });
            assert(f.rooms[nr].id == rid);
            assert(rooms_has(f.rooms, rid));
            let kf = rooms_idx(f.rooms, rid);
            assert(0 <= kf < f.rooms.len() && f.rooms[kf].id == rid);
            if kf < nr {
                assert(o.rooms[kf].id == rid);
                assert(rooms_has(o.rooms, rid));
            }
            assert(f.rooms[kf] == newroom);
            assert(newroom.members[0] == uid);
            assert(newroom.members.contains(uid));
        }
    }
    assert(users_linked(f));
    assert forall|kx: int, mx: int|
        0 <= kx < f.rooms.len() && 0 <= mx < f.rooms[kx].members.len() implies spec_room_of(
        f.users,
        #[trigger] f.rooms[kx].members[mx],
    ) == Some(f.rooms[kx].id) by {
        let w = f.rooms[kx].members[mx];
        if kx < nr {
            assert(w == o.rooms[kx].members[mx]);
            lemma_absent_user_not_member(o, uid, kx, mx);
            assert(spec_room_of(o.users, w) == Some(o.rooms[kx].id));
            lemma_room_of_after_push(o, uid, rid, w);
        } else {
            assert(w == uid);
            lemma_room_of_after_push(o, uid, rid, uid);
            assert(spec_room_of(f.users, uid) == Some(rid));
        }
    }
    assert(members_linked(f));
}

/// Law: under the invariant, a client occupies at most one room, and a
/// room's member list contains a client exactly when the membership
/// index maps that client to that room (the bidirectional membership
/// invariant).
pub proof fn lemma_membership_bidirectional(rm: RmV, uid: u128)
    requires
        rm.wf(),
    ensures
        forall|k: int|
            0 <= k < rm.rooms.len() ==> ((#[trigger] rm.rooms[k]).members.contains(uid)
                <==> spec_room_of(rm.users, uid) == Some(rm.rooms[k].id)),
        forall|k1: int, k2: int|
            0 <= k1 < rm.rooms.len() && 0 <= k2 < rm.rooms.len() && (
            #[trigger] rm.rooms[k1]).members.contains(uid) && (
            #[trigger] rm.rooms[k2]).members.contains(uid) ==> k1 == k2,
{
    assert forall|k: int| 0 <= k < rm.rooms.len() implies ((
    #[trigger] rm.rooms[k]).members.contains(uid) <==> spec_room_of(rm.users, uid) == Some(
        rm.rooms[k].id,
    )) by {
        if rm.rooms[k].members.contains(uid) {
            let m = choose|t: int| 0 <= t < rm.rooms[k].members.len() && rm.rooms[k].members[t]
                == uid;
            assert(rm.rooms[k].members[m] == uid);
            assert(spec_room_of(rm.users, uid) == Some(rm.rooms[k].id));
        }
        if spec_room_of(rm.users, uid) == Some(rm.rooms[k].id) {
            let i = user_idx(rm.users, uid);
            assert(0 <= i < rm.users.len() && rm.users[i].user == uid);
            assert(rm.users[i].room == rm.rooms[k].id);
            assert(rooms_has(rm.rooms, rm.users[i].room));
            let ko = rooms_idx(rm.rooms, rm.users[i].room);
            assert(0 <= ko < rm.rooms.len() && rm.rooms[ko].id == rm.rooms[k].id);
            assert(rm.rooms[ko].members.contains(rm.users[i].user));
            if ko != k {
                if ko < k {
                    assert(rm.rooms[ko].id != rm.rooms[k].id);
                } else {
                    assert(rm.rooms[k].id != rm.rooms[ko].id);
                }
            }
            assert(rm.rooms[k].members.contains(uid));
        }
    }
    assert forall|k1: int, k2: int|
        0 <= k1 < rm.rooms.len() && 0 <= k2 < rm.rooms.len() && (
        #[trigger] rm.rooms[k1]).members.contains(uid) && (
        #[trigger] rm.rooms[k2]).members.contains(uid) implies k1 == k2 by {
        assert(spec_room_of(rm.users, uid) == Some(rm.rooms[k1].id));
        assert(spec_room_of(rm.users, uid) == Some(rm.rooms[k2].id));
        assert(rm.rooms[k1].id == rm.rooms[k2].id);
        if k1 < k2 {
            assert(rm.rooms[k1].id != rm.rooms[k2].id);
        } else if k2 < k1 {
            assert(rm.rooms[k2].id != rm.rooms[k1].id);
        }
    }
}

/// Law: when the only member of a room leaves, the room is deleted;
/// when other members remain, the room stays alive, with exactly the
/// leaver removed from its member list (the room lifecycle on
/// leave).
pub proof fn lemma_leave_room_lifecycle(o: RmV, uid: u128)
    requires
        o.wf(),
        user_has(o.users, uid),
    ensures
        ({
            let rid = spec_room_of(o.users, uid)->Some_0;
            let f = spec_leave_user(o, uid);
            &&& rooms_has(o.rooms, rid)
            &&& spec_room(o.rooms, rid)->Some_0.members.contains(uid)
            &&& (spec_room(o.rooms, rid)->Some_0.members.len() == 1 ==> !rooms_has(f.rooms, rid))
            &&& (spec_room(o.rooms, rid)->Some_0.members.len() > 1 ==> rooms_has(f.rooms, rid)
                && spec_room(f.rooms, rid)->Some_0.members == spec_room(
                o.rooms,
                rid,
            )->Some_0.members.remove_value(uid))
        }),
{
    let i = user_idx(o.users, uid);
    assert(0 <= i < o.users.len() && o.users[i].user == uid);
    let rid = o.users[i].room;
    assert(rooms_has(o.rooms, rid));
    let k = rooms_idx(o.rooms, rid);
    assert(0 <= k < o.rooms.len() && o.rooms[k].id == rid);
    assert(o.rooms[k].members.contains(uid));
    let members = o.rooms[k].members;
    members.index_of_first_ensures(uid);
    let m = members.index_of_first(uid)->Some_0;
    assert(0 <= m < members.len() && members[m] == uid);
    let members2 = members.remove_value(uid);
    assert(members2 =~= members.remove(m));
    let f = spec_leave_user(o, uid);
    if members2.len() == 0 {
        assert(f.rooms =~= o.rooms.remove(k));
        assert forall|x: int| 0 <= x < f.rooms.len() implies (#[trigger] f.rooms[x]).id != rid by {
            if x < k {
                assert(f.rooms[x] == o.rooms[x]);
                assert(o.rooms[x].id != o.rooms[k].id);
            } else {
                assert(f.rooms[x] == o.rooms[x + 1]);
                assert(o.rooms[k].id != o.rooms[x + 1].id);
            }
        }
        assert(!rooms_has(f.rooms, rid));
    } else {
        assert(f.rooms =~= o.rooms.update(
            k,
            RoomV {
                id: o.rooms[k].id,
                name: o.rooms[k].name,
                owner_id: o.rooms[k].owner_id,
                members: members2,
            },
        ));
        assert(f.rooms[k].id == rid);
        assert(rooms_has(f.rooms, rid));
        let kf = rooms_idx(f.rooms, rid);
        assert(0 <= kf < f.rooms.len() && f.rooms[kf].id == rid);
        assert(forall|x: int|
            0 <= x < f.rooms.len() ==> (#[trigger] f.rooms[x]).id == o.rooms[x].id);
        if kf != k {
            if kf < k {
                assert(o.rooms[kf].id != o.rooms[k].id);
            } else {
                assert(o.rooms[k].id != o.rooms[kf].id);
            }
        }
        assert(spec_room(f.rooms, rid)->Some_0.members == members2);
    }
}

} // verus!
