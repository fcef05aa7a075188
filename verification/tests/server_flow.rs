use rws_chat::delivery::Outgoing;
use rws_chat::dispatch::{handle_chat, handle_join};
use rws_chat::protocol::{ChatScope, ErrorCode, EventMessage, UserInfo};
use rws_chat::registry::Registry;
use rws_chat::server::{dispatch, on_connect, on_disconnect, ServerState};
use rws_chat::ids::uuid_string;

const A: u128 = 1;
const B: u128 = 2;
const C: u128 = 3;
const R1: u128 = 0x1111;
const R2: u128 = 0x2222;

fn state_with_named_clients() -> ServerState {
    let mut st = ServerState::new();
    for (id, name) in [(A, "alice"), (B, "bob"), (C, "carol")] {
        st.registry.register(id);
        st.registry.set_name(id, name.to_string());
    }
    st
}

fn targets(out: &[Outgoing]) -> Vec<u128> {
    out.iter().map(|o| o.to).collect()
}

#[test]
fn join_handshake_assigns_id_then_announces() {
    let mut st = ServerState::new();
    st.registry.register(A);
    st.registry.register(B);
    let out = handle_join("alice".to_string(), A, &mut st.registry);
    assert_eq!(targets(&out), vec![A, A, B]);
    assert!(matches!(out[0].event, EventMessage::AssignedId { user_id } if user_id == A));
    assert!(matches!(&out[1].event, EventMessage::Join { username } if username == "alice"));
    assert!(matches!(&out[2].event, EventMessage::Join { username } if username == "alice"));
    assert_eq!(st.registry.name_of(A), Some("alice".to_string()));
}

#[test]
fn join_handshake_for_unknown_identity_only_broadcasts() {
    let mut st = ServerState::new();
    st.registry.register(B);
    let out = handle_join("ghost".to_string(), A, &mut st.registry);
    assert_eq!(targets(&out), vec![B]);
    assert!(matches!(&out[0].event, EventMessage::Join { username } if username == "ghost"));
}

#[test]
fn create_room_notifies_creator_alone() {
    let mut st = state_with_named_clients();
    let out = st.rooms.handle_create_room(&st.registry, A, "lobby".to_string(), R1);
    assert_eq!(targets(&out), vec![A]);
    match &out[0].event {
        EventMessage::CreateRoom { creator, room_name } => {
            assert_eq!(creator.id, A);
            assert_eq!(creator.username, "alice");
            assert_eq!(room_name, "lobby");
        }
        other => panic!("unexpected event: {:?}", describe(other)),
    }
    let room = st.rooms.get_room(R1).expect("room should exist");
    assert_eq!(room.name, "lobby");
    assert_eq!(room.owner_id, A);
    assert_eq!(room.members, vec![A]);
    assert_eq!(st.rooms.get_user_room(A), Some(R1));
}

#[test]
fn create_room_while_in_one_fails_and_changes_nothing() {
    // Creating a room while already in one fails with AlreadyInRoom and
    // leaves prior membership unchanged.
    let mut st = state_with_named_clients();
    st.rooms.handle_create_room(&st.registry, A, "lobby".to_string(), R1);
    let out = st.rooms.handle_create_room(&st.registry, A, "second".to_string(), R2);
    assert_eq!(targets(&out), vec![A]);
    match &out[0].event {
        EventMessage::Error { error: ErrorCode::AlreadyInRoom { message } } => {
            assert_eq!(message, &format!("Client {} is already in a room", uuid_string(A)));
        }
        other => panic!("unexpected event: {:?}", describe(other)),
    }
    assert_eq!(st.rooms.get_user_room(A), Some(R1));
    assert!(st.rooms.get_room(R2).is_none());
    assert_eq!(st.rooms.get_room(R1).unwrap().members, vec![A]);
}

#[test]
fn create_room_with_colliding_id_fails() {
    let mut st = state_with_named_clients();
    st.rooms.handle_create_room(&st.registry, A, "lobby".to_string(), R1);
    let out = st.rooms.handle_create_room(&st.registry, B, "clash".to_string(), R1);
    assert_eq!(targets(&out), vec![B]);
    match &out[0].event {
        EventMessage::Error { error: ErrorCode::RoomAlreadyExists { message } } => {
            assert_eq!(message, &format!("Room with id {} already exists", uuid_string(R1)));
        }
        other => panic!("unexpected event: {:?}", describe(other)),
    }
    assert_eq!(st.rooms.get_room(R1).unwrap().members, vec![A]);
    assert_eq!(st.rooms.get_user_room(B), None);
}

#[test]
fn join_nonexistent_room_fails_and_changes_nothing() {
    // Joining a nonexistent room id fails with RoomNotFound and does not
    // mutate the membership index.
    let mut st = state_with_named_clients();
    let out = st.rooms.handle_join_room(&st.registry, B, R1);
    assert_eq!(targets(&out), vec![B]);
    match &out[0].event {
        EventMessage::Error { error: ErrorCode::RoomNotFound { message } } => {
            assert_eq!(message, &format!("Room with id {} not found", uuid_string(R1)));
        }
        other => panic!("unexpected event: {:?}", describe(other)),
    }
    assert_eq!(st.rooms.get_user_room(B), None);
}

#[test]
fn join_same_room_twice_fails() {
    let mut st = state_with_named_clients();
    st.rooms.handle_create_room(&st.registry, A, "lobby".to_string(), R1);
    let out = st.rooms.handle_join_room(&st.registry, A, R1);
    assert_eq!(targets(&out), vec![A]);
    match &out[0].event {
        EventMessage::Error { error: ErrorCode::AlreadyInRoom { message } } => {
            assert_eq!(
                message,
                &format!(
                    "Client {} is already in room {}",
                    uuid_string(A),
                    uuid_string(R1)
                )
            );
        }
        other => panic!("unexpected event: {:?}", describe(other)),
    }
    assert_eq!(st.rooms.get_room(R1).unwrap().members, vec![A]);
}

#[test]
fn join_room_announces_to_full_post_join_membership() {
    let mut st = state_with_named_clients();
    st.rooms.handle_create_room(&st.registry, A, "lobby".to_string(), R1);
    let out = st.rooms.handle_join_room(&st.registry, B, R1);
    assert_eq!(targets(&out), vec![A, B]);
    for o in &out {
        match &o.event {
            EventMessage::JoinRoom { user, room } => {
                assert_eq!(user.id, B);
                assert_eq!(user.username, "bob");
                assert_eq!(room.id, R1);
                assert_eq!(room.name, "lobby");
            }
            other => panic!("unexpected event: {:?}", describe(other)),
        }
    }
    assert_eq!(st.rooms.get_room(R1).unwrap().members, vec![A, B]);
    assert_eq!(st.rooms.get_user_room(B), Some(R1));
}

#[test]
fn join_other_room_implicitly_leaves_current_one() {
    // Documented policy: joining a new room while occupying a different
    // one silently leaves the old room first.
    let mut st = state_with_named_clients();
    st.rooms.handle_create_room(&st.registry, A, "x".to_string(), R1);
    st.rooms.handle_create_room(&st.registry, B, "y".to_string(), R2);
    let out = st.rooms.handle_join_room(&st.registry, B, R1);
    assert_eq!(targets(&out), vec![A, B]);
    assert_eq!(st.rooms.get_user_room(B), Some(R1));
    assert_eq!(st.rooms.get_room(R1).unwrap().members, vec![A, B]);
    // B was the only member of its old room, so that room is gone.
    assert!(st.rooms.get_room(R2).is_none());
}

#[test]
fn leave_with_others_remaining_keeps_room_and_notifies_everyone() {
    // Leaving when other members remain keeps the room alive and
    // notifies all pre-removal members, including the leaver.
    let mut st = state_with_named_clients();
    st.rooms.handle_create_room(&st.registry, A, "lobby".to_string(), R1);
    st.rooms.handle_join_room(&st.registry, B, R1);
    let out = st.rooms.handle_leave_room(&st.registry, A);
    assert_eq!(targets(&out), vec![A, B]);
    for o in &out {
        match &o.event {
            EventMessage::LeaveRoom { user, room } => {
                assert_eq!(user.id, A);
                assert_eq!(user.username, "alice");
                assert_eq!(room.id, R1);
                assert_eq!(room.name, "lobby");
            }
            other => panic!("unexpected event: {:?}", describe(other)),
        }
    }
    assert_eq!(st.rooms.get_room(R1).unwrap().members, vec![B]);
    assert_eq!(st.rooms.get_user_room(A), None);
}

#[test]
fn leave_as_last_member_deletes_room() {
    // Leaving as the only member of a room deletes the room.
    let mut st = state_with_named_clients();
    st.rooms.handle_create_room(&st.registry, A, "lobby".to_string(), R1);
    let out = st.rooms.handle_leave_room(&st.registry, A);
    assert_eq!(targets(&out), vec![A]);
    assert!(st.rooms.get_room(R1).is_none());
    assert_eq!(st.rooms.get_user_room(A), None);
}

#[test]
fn leave_when_in_no_room_sends_nothing() {
    let mut st = state_with_named_clients();
    let out = st.rooms.handle_leave_room(&st.registry, A);
    assert!(out.is_empty());
}

#[test]
fn global_chat_reaches_everyone_else_and_acks_sender() {
    // Client C (alone, no room) sends "yo"; all other connected clients
    // receive exactly one global-scoped chat; C receives exactly one
    // AckDelivered.
    let st = state_with_named_clients();
    let msg_id: u128 = 77;
    let out = handle_chat(msg_id, "yo".to_string(), C, &st.registry, &st.rooms);
    assert_eq!(targets(&out), vec![A, B, C]);
    for o in &out[..2] {
        match &o.event {
            EventMessage::Chat { id, sender, content, scope } => {
                assert_eq!(*id, msg_id);
                assert_eq!(sender.id, C);
                assert_eq!(sender.username, "carol");
                assert_eq!(content, "yo");
                assert!(matches!(scope, ChatScope::Global));
            }
            other => panic!("unexpected event: {:?}", describe(other)),
        }
    }
    assert!(matches!(out[2].event, EventMessage::AckDelivered { id } if id == msg_id));
}

#[test]
fn room_chat_reaches_members_only_and_acks_sender() {
    // Clients A and B share room "lobby"; A sends "hi"; B receives one
    // chat tagged with the room scope; A receives exactly one
    // AckDelivered with the matching correlation id and no chat copy of
    // its own message; C, outside the room, receives nothing.
    let mut st = state_with_named_clients();
    st.rooms.handle_create_room(&st.registry, A, "lobby".to_string(), R1);
    st.rooms.handle_join_room(&st.registry, B, R1);
    let msg_id: u128 = 42;
    let out = handle_chat(msg_id, "hi".to_string(), A, &st.registry, &st.rooms);
    assert_eq!(targets(&out), vec![B, A]);
    match &out[0].event {
        EventMessage::Chat { id, sender, content, scope } => {
            assert_eq!(*id, msg_id);
            assert_eq!(sender.id, A);
            assert_eq!(sender.username, "alice");
            assert_eq!(content, "hi");
            match scope {
                ChatScope::Room { room } => {
                    assert_eq!(room.id, R1);
                    assert_eq!(room.name, "lobby");
                }
                ChatScope::Global => panic!("expected room scope"),
            }
        }
        other => panic!("unexpected event: {:?}", describe(other)),
    }
    assert!(matches!(out[1].event, EventMessage::AckDelivered { id } if id == msg_id));
}

#[test]
fn dispatch_routes_by_variant_and_ignores_payload_identities() {
    let mut st = state_with_named_clients();
    // The claimed creator id inside the payload is ignored: the
    // connection identity A acts.
    let out = dispatch(
        EventMessage::CreateRoom {
            creator: UserInfo { id: B, username: "mallory".to_string() },
            room_name: "lobby".to_string(),
        },
        A,
        &mut st,
        R1,
    );
    assert_eq!(targets(&out), vec![A]);
    assert_eq!(st.rooms.get_user_room(A), Some(R1));
    assert_eq!(st.rooms.get_user_room(B), None);
}

#[test]
fn dispatch_ping_changes_nothing_and_sends_nothing() {
    let mut st = state_with_named_clients();
    let out = dispatch(EventMessage::Ping, A, &mut st, R1);
    assert!(out.is_empty());
    assert!(st.rooms.get_room(R1).is_none());
}

#[test]
fn dispatch_ignores_server_authored_variants() {
    let mut st = state_with_named_clients();
    let out = dispatch(EventMessage::AckDelivered { id: 9 }, A, &mut st, R1);
    assert!(out.is_empty());
    let out = dispatch(EventMessage::AssignedId { user_id: 9 }, A, &mut st, R1);
    assert!(out.is_empty());
}

#[test]
fn disconnect_leaves_room_and_unregisters() {
    let mut st = state_with_named_clients();
    st.rooms.handle_create_room(&st.registry, A, "lobby".to_string(), R1);
    st.rooms.handle_join_room(&st.registry, B, R1);
    let out = on_disconnect(&mut st, A);
    // Everyone present before the removal is notified, the leaver
    // included.
    assert_eq!(targets(&out), vec![A, B]);
    assert!(!st.registry.has(A));
    assert_eq!(st.rooms.get_room(R1).unwrap().members, vec![B]);
}

#[test]
fn connect_registers_without_name() {
    let mut st = ServerState::new();
    on_connect(&mut st, A);
    assert!(st.registry.has(A));
    assert_eq!(st.registry.name_of(A), None);
}

#[test]
fn registry_snapshot_and_idempotent_unregister() {
    let mut reg = Registry::new();
    reg.register(A);
    reg.register(B);
    reg.register(A);
    assert_eq!(reg.all_ids(), vec![A, B]);
    reg.unregister(C);
    assert_eq!(reg.all_ids(), vec![A, B]);
    reg.unregister(A);
    assert_eq!(reg.all_ids(), vec![B]);
    assert!(reg.get(B).is_some());
    assert!(reg.get(A).is_none());
}

#[test]
fn membership_survives_a_sequence_of_operations() {
    // A user is in at most one room at every point, and a room lists a
    // user exactly when the index maps the user to it: exercised over a
    // sequence of create/join/leave operations.
    let mut st = state_with_named_clients();
    st.rooms.handle_create_room(&st.registry, A, "x".to_string(), R1);
    st.rooms.handle_create_room(&st.registry, B, "y".to_string(), R2);
    st.rooms.handle_join_room(&st.registry, C, R1);
    assert_eq!(st.rooms.get_room(R1).unwrap().members, vec![A, C]);
    st.rooms.handle_join_room(&st.registry, C, R2);
    assert_eq!(st.rooms.get_room(R1).unwrap().members, vec![A]);
    assert_eq!(st.rooms.get_room(R2).unwrap().members, vec![B, C]);
    assert_eq!(st.rooms.get_user_room(C), Some(R2));
    st.rooms.handle_leave_room(&st.registry, B);
    assert_eq!(st.rooms.get_room(R2).unwrap().members, vec![C]);
    st.rooms.handle_leave_room(&st.registry, C);
    assert!(st.rooms.get_room(R2).is_none());
    assert_eq!(st.rooms.get_user_room(C), None);
    assert_eq!(st.rooms.get_user_room(A), Some(R1));
}

#[test]
fn room_chat_alone_in_room_yields_only_the_ack() {
    let mut st = state_with_named_clients();
    st.rooms.handle_create_room(&st.registry, A, "solo".to_string(), R1);
    let out = handle_chat(5, "anyone?".to_string(), A, &st.registry, &st.rooms);
    assert_eq!(targets(&out), vec![A]);
    assert!(matches!(out[0].event, EventMessage::AckDelivered { id } if id == 5));
}

#[test]
fn dispatch_leave_event_routes_to_the_room_handler() {
    let mut st = state_with_named_clients();
    st.rooms.handle_create_room(&st.registry, A, "lobby".to_string(), R1);
    let out = dispatch(
        EventMessage::LeaveRoom {
            user: UserInfo { id: A, username: "alice".to_string() },
            room: rws_chat::protocol::RoomInfo { id: 0, name: String::new() },
        },
        A,
        &mut st,
        R2,
    );
    assert_eq!(targets(&out), vec![A]);
    assert!(st.rooms.get_room(R1).is_none());
}

#[test]
fn dispatch_from_draws_fresh_room_identities() {
    let mut st = state_with_named_clients();
    let out = rws_chat::server::dispatch_from(
        EventMessage::CreateRoom {
            creator: UserInfo { id: A, username: "alice".to_string() },
            room_name: "one".to_string(),
        },
        A,
        &mut st,
    );
    assert!(matches!(out[0].event, EventMessage::CreateRoom { .. }));
    let r_a = st.rooms.get_user_room(A).expect("creation must have succeeded");
    let out = rws_chat::server::dispatch_from(
        EventMessage::CreateRoom {
            creator: UserInfo { id: B, username: "bob".to_string() },
            room_name: "two".to_string(),
        },
        B,
        &mut st,
    );
    assert!(matches!(out[0].event, EventMessage::CreateRoom { .. }));
    let r_b = st.rooms.get_user_room(B).expect("creation must have succeeded");
    assert_ne!(r_a, r_b);
}

fn describe(e: &EventMessage) -> String {
    rws_chat::codec::encode(e)
}
