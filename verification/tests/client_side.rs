use rws_chat::protocol::{ChatScope, ErrorCode, EventMessage, RoomInfo, UserInfo};
use rws_chat::reconciler::{format_message, App, Message, Reconciler, UiEvent};
use rws_chat::ids::uuid_string;

const ME: u128 = 10;
const OTHER: u128 = 20;

fn chat(id: u128, sender_id: u128, name: &str, content: &str, scope: ChatScope) -> EventMessage {
    EventMessage::Chat {
        id,
        sender: UserInfo { id: sender_id, username: name.to_string() },
        content: content.to_string(),
        scope,
    }
}

fn assigned(recon: &mut Reconciler) {
    let r = recon.on_server_event(EventMessage::AssignedId { user_id: ME });
    assert!(r.is_none());
    assert_eq!(recon.my_id, Some(ME));
}

#[test]
fn app_appends_and_caps_at_one_hundred() {
    let mut app = App::new("alice".to_string(), "ws://localhost:3000".to_string());
    for i in 0..105u32 {
        app.add_message(format!("m{}", i), false);
    }
    assert_eq!(app.messages.len(), 100);
    assert_eq!(app.messages[0].content, "m5");
    assert_eq!(app.messages[99].content, "m104");
}

#[test]
fn app_updates_first_entry_with_matching_id() {
    let mut app = App::new("alice".to_string(), "ws://localhost:3000".to_string());
    app.add_message("plain".to_string(), true);
    app.add_message_with_id(7, "sending".to_string(), false);
    assert!(app.update_message(7, "done".to_string()));
    assert_eq!(app.messages[1].content, "done");
    assert!(!app.update_message(8, "nope".to_string()));
    assert_eq!(app.messages[0].content, "plain");
}

#[test]
fn app_quit_and_clear_input() {
    let mut app = App::new("alice".to_string(), "ws://localhost:3000".to_string());
    app.input = "typing".to_string();
    app.clear_input();
    assert_eq!(app.input, "");
    assert!(!app.should_quit);
    app.quit();
    assert!(app.should_quit);
}

#[test]
fn app_routes_ui_events() {
    let mut app = App::new("alice".to_string(), "ws://localhost:3000".to_string());
    app.handle_ui_event(UiEvent::AddMessageWithId { id: 3, content: "x".to_string(), is_system: false });
    app.handle_ui_event(UiEvent::UpdateMessage { id: 3, content: "y".to_string() });
    app.handle_ui_event(UiEvent::AddMessage { content: "z".to_string(), is_system: true });
    assert_eq!(app.messages.len(), 2);
    assert_eq!(app.messages[0].content, "y");
    assert_eq!(app.messages[1].content, "z");
    assert!(app.messages[1].is_system);
}

#[test]
fn message_constructors_keep_their_fields() {
    let m = Message::new("hello".to_string(), true);
    assert_eq!(m.id, None);
    assert_eq!(m.content, "hello");
    assert!(m.is_system);
    let m = Message::new_with_id(4, "keyed".to_string(), false);
    assert_eq!(m.id, Some(4));
    assert!(!m.is_system);
}

#[test]
fn chat_line_is_echoed_optimistically_and_remembered() {
    let mut recon = Reconciler::new("alice".to_string());
    assigned(&mut recon);
    let (ev, ui) = recon.on_input("hello world".to_string(), 99);
    match ev {
        Some(EventMessage::Chat { id, sender, content, scope }) => {
            assert_eq!(id, 99);
            assert_eq!(sender.id, ME);
            assert_eq!(sender.username, "alice");
            assert_eq!(content, "hello world");
            assert!(matches!(scope, ChatScope::Global));
        }
        _ => panic!("expected a chat event"),
    }
    match ui {
        Some(UiEvent::AddMessageWithId { id, content, is_system }) => {
            assert_eq!(id, 99);
            assert_eq!(content, "[GLOBAL]\u{1f4ac} You: hello world \u{23f3}");
            assert!(!is_system);
        }
        _ => panic!("expected an optimistic echo"),
    }
}

#[test]
fn acknowledgment_rewrites_the_pending_entry_once() {
    // The sender's sole confirmation is the acknowledgment: it rewrites
    // the optimistic entry, and the correlation id is forgotten after.
    let mut recon = Reconciler::new("alice".to_string());
    assigned(&mut recon);
    recon.on_input("hi".to_string(), 99);
    let ui = recon.on_server_event(EventMessage::AckDelivered { id: 99 });
    match ui {
        Some(UiEvent::UpdateMessage { id, content }) => {
            assert_eq!(id, 99);
            assert_eq!(content, "[GLOBAL]\u{1f4ac} You: hi ");
        }
        _ => panic!("expected a rewrite"),
    }
    // A second acknowledgment for the same id finds nothing.
    assert!(recon.on_server_event(EventMessage::AckDelivered { id: 99 }).is_none());
}

#[test]
fn own_echo_confirms_with_the_remembered_text() {
    let mut recon = Reconciler::new("alice".to_string());
    assigned(&mut recon);
    recon.on_input("hi".to_string(), 99);
    let echo = chat(99, ME, "alice", "hi", ChatScope::Room { room: RoomInfo { id: 5, name: "lobby".to_string() } });
    let ui = recon.on_server_event(echo);
    match ui {
        Some(UiEvent::UpdateMessage { id, content }) => {
            assert_eq!(id, 99);
            assert_eq!(content, "[lobby]\u{1f3e0} You: hi \u{2705}");
        }
        _ => panic!("expected a rewrite"),
    }
}

#[test]
fn others_chats_are_appended_directly() {
    let mut recon = Reconciler::new("alice".to_string());
    assigned(&mut recon);
    let ui = recon.on_server_event(chat(1, OTHER, "bob", "hey", ChatScope::Global));
    match ui {
        Some(UiEvent::AddMessage { content, is_system }) => {
            assert_eq!(content, "[GLOBAL]\u{1f4ac} bob: hey");
            assert!(!is_system);
        }
        _ => panic!("expected an appended message"),
    }
}

#[test]
fn events_before_identity_assignment_are_dropped() {
    let mut recon = Reconciler::new("alice".to_string());
    assert!(recon.on_server_event(chat(1, OTHER, "bob", "hey", ChatScope::Global)).is_none());
    let (ev, ui) = recon.on_input("hello".to_string(), 99);
    assert!(ev.is_none());
    assert!(ui.is_none());
}

#[test]
fn blank_input_is_dropped() {
    let mut recon = Reconciler::new("alice".to_string());
    assigned(&mut recon);
    let (ev, ui) = recon.on_input("   \t ".to_string(), 99);
    assert!(ev.is_none());
    assert!(ui.is_none());
}

#[test]
fn create_command_builds_a_create_room_event() {
    let mut recon = Reconciler::new("alice".to_string());
    assigned(&mut recon);
    let (ev, ui) = recon.on_input("/create my room".to_string(), 99);
    assert!(ui.is_none());
    match ev {
        Some(EventMessage::CreateRoom { creator, room_name }) => {
            assert_eq!(creator.id, ME);
            assert_eq!(creator.username, "alice");
            assert_eq!(room_name, "my room");
        }
        _ => panic!("expected a create event"),
    }
}

#[test]
fn join_command_parses_the_room_id() {
    let mut recon = Reconciler::new("alice".to_string());
    assigned(&mut recon);
    let rid: u128 = 0x1234;
    let line = format!("/join {} ", uuid_string(rid));
    let (ev, ui) = recon.on_input(line, 99);
    assert!(ui.is_none());
    match ev {
        Some(EventMessage::JoinRoom { user, room }) => {
            assert_eq!(user.id, ME);
            assert_eq!(room.id, rid);
            assert_eq!(room.name, "");
        }
        _ => panic!("expected a join event"),
    }
}

#[test]
fn join_command_with_bad_id_reports_locally() {
    let mut recon = Reconciler::new("alice".to_string());
    assigned(&mut recon);
    let (ev, ui) = recon.on_input("/join what".to_string(), 99);
    assert!(ev.is_none());
    match ui {
        Some(UiEvent::AddMessage { content, is_system }) => {
            assert_eq!(content, "\u{274c} Invalid room ID format. Use: /join <room-uuid>");
            assert!(is_system);
        }
        _ => panic!("expected a local notice"),
    }
}

#[test]
fn leave_command_builds_a_leave_event() {
    let mut recon = Reconciler::new("alice".to_string());
    assigned(&mut recon);
    let (ev, ui) = recon.on_input("/leave".to_string(), 99);
    assert!(ui.is_none());
    match ev {
        Some(EventMessage::LeaveRoom { user, room }) => {
            assert_eq!(user.id, ME);
            assert_eq!(room.id, 0);
        }
        _ => panic!("expected a leave event"),
    }
}

#[test]
fn format_message_covers_the_event_kinds() {
    assert_eq!(format_message(&chat(1, OTHER, "bob", "hey", ChatScope::Global), ME), "[GLOBAL]\u{1f4ac} bob: hey");
    assert_eq!(format_message(&chat(1, ME, "alice", "hey", ChatScope::Global), ME), "");
    let lobby = ChatScope::Room { room: RoomInfo { id: 5, name: "lobby".to_string() } };
    assert_eq!(format_message(&chat(1, OTHER, "bob", "hey", lobby), ME), "[lobby]\u{1f3e0} bob: hey");
    assert_eq!(
        format_message(&EventMessage::Join { username: "bob".to_string() }, ME),
        "\u{1f44b} bob joined"
    );
    assert_eq!(
        format_message(
            &EventMessage::CreateRoom {
                creator: UserInfo { id: OTHER, username: "bob".to_string() },
                room_name: "lobby".to_string(),
            },
            ME,
        ),
        "\u{1f3e0} Room 'lobby' created by 'bob'"
    );
    assert_eq!(
        format_message(
            &EventMessage::JoinRoom {
                user: UserInfo { id: ME, username: "alice".to_string() },
                room: RoomInfo { id: 5, name: "lobby".to_string() },
            },
            ME,
        ),
        "\u{2705} You joined room lobby"
    );
    assert_eq!(
        format_message(
            &EventMessage::LeaveRoom {
                user: UserInfo { id: OTHER, username: "bob".to_string() },
                room: RoomInfo { id: 5, name: "lobby".to_string() },
            },
            ME,
        ),
        "\u{1f44b} bob left room lobby"
    );
    assert_eq!(
        format_message(
            &EventMessage::Error {
                error: ErrorCode::PermissionDenied { message: "no".to_string() },
            },
            ME,
        ),
        "\u{274c} Error: PermissionDenied: no"
    );
    assert_eq!(format_message(&EventMessage::Ping, ME), "");
}

#[test]
fn non_chat_events_become_log_entries_once_assigned() {
    let mut recon = Reconciler::new("alice".to_string());
    assigned(&mut recon);
    let ui = recon.on_server_event(EventMessage::Join { username: "bob".to_string() });
    match ui {
        Some(UiEvent::AddMessage { content, .. }) => assert_eq!(content, "\u{1f44b} bob joined"),
        _ => panic!("expected an appended message"),
    }
    assert!(recon.on_server_event(EventMessage::Ping).is_none());
}

#[test]
fn submit_input_keys_the_echo_and_the_event_alike() {
    let mut recon = Reconciler::new("alice".to_string());
    assigned(&mut recon);
    let (ev, ui) = recon.submit_input("hello".to_string());
    let sent_id = match ev {
        Some(EventMessage::Chat { id, .. }) => id,
        _ => panic!("expected a chat event"),
    };
    match ui {
        Some(UiEvent::AddMessageWithId { id, .. }) => assert_eq!(id, sent_id),
        _ => panic!("expected an optimistic echo"),
    }
    // The drawn id is remembered: its acknowledgment rewrites the entry.
    let ui = recon.on_server_event(EventMessage::AckDelivered { id: sent_id });
    assert!(matches!(ui, Some(UiEvent::UpdateMessage { id, .. }) if id == sent_id));
}
