//! Wire-level event types exchanged between clients and the server.
//!
//! Every frame on the wire is one `EventMessage`: a closed tagged union.
//! Identities (clients, rooms, chat correlation ids) are 128-bit values,
//! drawn from a space large enough that freshly drawn ids never collide
//! with live ones in practice.

use vstd::prelude::*;

verus! {

/// A client identity together with its display name, as carried on the wire.
pub struct UserInfo {
    pub id: u128,
    pub username: String,
}

/// A room identity together with its display name, as carried on the wire.
pub struct RoomInfo {
    pub id: u128,
    pub name: String,
}

/// The domain errors reported to a requesting client as an `Error` event.
pub enum ErrorCode {
    RoomNotFound { message: String },
    RoomAlreadyExists { message: String },
    AlreadyInRoom { message: String },
    InvalidRoomId { message: String },
    PermissionDenied { message: String },
}

/// Whether a chat message targets all connected clients or one room's members.
pub enum ChatScope {
    Global,
    Room { room: RoomInfo },
}

/// One wire event: the closed set of frames either side may send.
pub enum EventMessage {
    Join { username: String },
    AssignedId { user_id: u128 },
    Chat { id: u128, sender: UserInfo, content: String, scope: ChatScope },
    AckDelivered { id: u128 },
    CreateRoom { creator: UserInfo, room_name: String },
    JoinRoom { user: UserInfo, room: RoomInfo },
    LeaveRoom { user: UserInfo, room: RoomInfo },
    Error { error: ErrorCode },
    Ping,
}

/// Mathematical model of `UserInfo`.
#[verifier::ext_equal]
pub struct UserInfoV {
    pub id: u128,
    pub username: Seq<char>,
}

/// Mathematical model of `RoomInfo`.
#[verifier::ext_equal]
pub struct RoomInfoV {
    pub id: u128,
    pub name: Seq<char>,
}

/// Mathematical model of `ErrorCode`.
#[verifier::ext_equal]
pub enum ErrorCodeV {
    RoomNotFound { message: Seq<char> },
    RoomAlreadyExists { message: Seq<char> },
    AlreadyInRoom { message: Seq<char> },
    InvalidRoomId { message: Seq<char> },
    PermissionDenied { message: Seq<char> },
}

/// Mathematical model of `ChatScope`.
#[verifier::ext_equal]
pub enum ChatScopeV {
    Global,
    Room { room: RoomInfoV },
}

/// Mathematical model of `EventMessage`.
#[verifier::ext_equal]
pub enum EventV {
    Join { username: Seq<char> },
    AssignedId { user_id: u128 },
    Chat { id: u128, sender: UserInfoV, content: Seq<char>, scope: ChatScopeV },
    AckDelivered { id: u128 },
    CreateRoom { creator: UserInfoV, room_name: Seq<char> },
    JoinRoom { user: UserInfoV, room: RoomInfoV },
    LeaveRoom { user: UserInfoV, room: RoomInfoV },
    Error { error: ErrorCodeV },
    Ping,
}

impl View for UserInfo {
    type V = UserInfoV;

    open spec fn view(&self) -> UserInfoV {
        UserInfoV { id: self.id, username: self.username@ }
    }
}

impl DeepView for UserInfo {
    type V = UserInfoV;

    open spec fn deep_view(&self) -> UserInfoV {
        self@
    }
}

impl View for RoomInfo {
    type V = RoomInfoV;

    open spec fn view(&self) -> RoomInfoV {
        RoomInfoV { id: self.id, name: self.name@ }
    }
}

impl DeepView for RoomInfo {
    type V = RoomInfoV;

    open spec fn deep_view(&self) -> RoomInfoV {
        self@
    }
}

impl View for ErrorCode {
    type V = ErrorCodeV;

    open spec fn view(&self) -> ErrorCodeV {
        match self {
            ErrorCode::RoomNotFound { message } => ErrorCodeV::RoomNotFound { message: message@ },
            ErrorCode::RoomAlreadyExists { message } => ErrorCodeV::RoomAlreadyExists {
                message: message@,
            },
            ErrorCode::AlreadyInRoom { message } => ErrorCodeV::AlreadyInRoom { message: message@ },
            ErrorCode::InvalidRoomId { message } => ErrorCodeV::InvalidRoomId { message: message@ },
            ErrorCode::PermissionDenied { message } => ErrorCodeV::PermissionDenied {
                message: message@,
            },
        }
    }
}

impl DeepView for ErrorCode {
    type V = ErrorCodeV;

    open spec fn deep_view(&self) -> ErrorCodeV {
        self@
    }
}

impl View for ChatScope {
    type V = ChatScopeV;

    open spec fn view(&self) -> ChatScopeV {
        match self {
            ChatScope::Global => ChatScopeV::Global,
            ChatScope::Room { room } => ChatScopeV::Room { room: room@ },
        }
    }
}

impl DeepView for ChatScope {
    type V = ChatScopeV;

    open spec fn deep_view(&self) -> ChatScopeV {
        self@
    }
}

impl View for EventMessage {
    type V = EventV;

    open spec fn view(&self) -> EventV {
        match self {
            EventMessage::Join { username } => EventV::Join { username: username@ },
            EventMessage::AssignedId { user_id } => EventV::AssignedId { user_id: *user_id },
            EventMessage::Chat { id, sender, content, scope } => EventV::Chat {
                id: *id,
                sender: sender@,
                content: content@,
                scope: scope@,
            },
            EventMessage::AckDelivered { id } => EventV::AckDelivered { id: *id },
            EventMessage::CreateRoom { creator, room_name } => EventV::CreateRoom {
                creator: creator@,
                room_name: room_name@,
            },
            EventMessage::JoinRoom { user, room } => EventV::JoinRoom { user: user@, room: room@ },
            EventMessage::LeaveRoom { user, room } => EventV::LeaveRoom {
                user: user@,
                room: room@,
            },
            EventMessage::Error { error } => EventV::Error { error: error@ },
            EventMessage::Ping => EventV::Ping,
        }
    }
}

impl DeepView for EventMessage {
    type V = EventV;

    open spec fn deep_view(&self) -> EventV {
        self@
    }
}

impl Clone for UserInfo {
    fn clone(&self) -> (r: Self)
        ensures
            r@ == self@,
    {
        UserInfo { id: self.id, username: self.username.clone() }
    }
}

impl Clone for RoomInfo {
    fn clone(&self) -> (r: Self)
        ensures
            r@ == self@,
    {
        RoomInfo { id: self.id, name: self.name.clone() }
    }
}

impl Clone for ErrorCode {
    fn clone(&self) -> (r: Self)
        ensures
            r@ == self@,
    {
        match self {
            ErrorCode::RoomNotFound { message } => ErrorCode::RoomNotFound {
                message: message.clone(),
            },
            ErrorCode::RoomAlreadyExists { message } => ErrorCode::RoomAlreadyExists {
                message: message.clone(),
            },
            ErrorCode::AlreadyInRoom { message } => ErrorCode::AlreadyInRoom {
                message: message.clone(),
            },
            ErrorCode::InvalidRoomId { message } => ErrorCode::InvalidRoomId {
                message: message.clone(),
            },
            ErrorCode::PermissionDenied { message } => ErrorCode::PermissionDenied {
                message: message.clone(),
            },
        }
    }
}

impl Clone for ChatScope {
    fn clone(&self) -> (r: Self)
        ensures
            r@ == self@,
    {
        match self {
            ChatScope::Global => ChatScope::Global,
            ChatScope::Room { room } => ChatScope::Room { room: room.clone() },
        }
    }
}

impl Clone for EventMessage {
    fn clone(&self) -> (r: Self)
        ensures
            r@ == self@,
    {
        match self {
            EventMessage::Join { username } => EventMessage::Join { username: username.clone() },
            EventMessage::AssignedId { user_id } => EventMessage::AssignedId { user_id: *user_id },
            EventMessage::Chat { id, sender, content, scope } => EventMessage::Chat {
                id: *id,
                sender: sender.clone(),
                content: content.clone(),
                scope: scope.clone(),
            },
            EventMessage::AckDelivered { id } => EventMessage::AckDelivered { id: *id },
            EventMessage::CreateRoom { creator, room_name } => EventMessage::CreateRoom {
                creator: creator.clone(),
                room_name: room_name.clone(),
            },
            EventMessage::JoinRoom { user, room } => EventMessage::JoinRoom {
                user: user.clone(),
                room: room.clone(),
            },
            EventMessage::LeaveRoom { user, room } => EventMessage::LeaveRoom {
                user: user.clone(),
                room: room.clone(),
            },
            EventMessage::Error { error } => EventMessage::Error { error: error.clone() },
            EventMessage::Ping => EventMessage::Ping,
        }
    }
}

} // verus!
