//! The client half: the local message log with its optimistic entries,
//! and the reconciler that rewrites them when the server's acknowledgment
//! arrives.
//!
//! A submitted chat line is shown at once as "sending", keyed by a fresh
//! correlation id and remembered in the pending table; when the server's
//! `AckDelivered` (or an echo of the chat) with that id returns, the
//! entry is rewritten to its confirmed form and the id is forgotten.
//! Events authored by others are appended directly.

use vstd::prelude::*;
use vstd::string::{StrSliceExecFns, StringExecFns};
use crate::protocol::{ChatScopeV, ErrorCode, ErrorCodeV, EventMessage, EventV, RoomInfo, RoomInfoV, UserInfo, UserInfoV};
use crate::ids::{uuid_parse, parse_uuid};

verus! {

/// What the timestamp of a freshly appended entry is taken from.
///
/// Relies on chrono's `Local::now` and `DateTime::timestamp_millis`: the
/// current local time as milliseconds since the epoch.  Nothing is
/// promised of a clock reading.
#[verifier::external_body]
fn now_millis() -> i64 {
    chrono::Local::now().timestamp_millis()
}

/// What std's `str::trim` leaves of a text: the text without its leading
/// and trailing whitespace.  The result depends on the characters alone.
pub uninterp spec fn trim_of(s: Seq<char>) -> Seq<char>;

/// Relies on std's `str::trim`: removes leading and trailing whitespace;
/// of an empty text nothing is left.
#[verifier::external_body]
fn trim_str(s: &str) -> (r: String)
    ensures
        r@ == trim_of(s@),
        s@.len() == 0 ==> r@.len() == 0,
{
    s.trim().to_owned()
}

/// One entry of the local message log.  The timestamp is a clock reading
/// in milliseconds, taken when the entry was appended; entries carrying
/// a correlation id are this client's own optimistic messages.
pub struct Message {
    pub id: Option<u128>,
    pub content: String,
    pub timestamp_ms: i64,
    pub is_system: bool,
}

/// Mathematical model of `Message`.
#[verifier::ext_equal]
pub struct MessageV {
    pub id: Option<u128>,
    pub content: Seq<char>,
    pub timestamp_ms: i64,
    pub is_system: bool,
}

impl View for Message {
    type V = MessageV;

    open spec fn view(&self) -> MessageV {
        MessageV {
            id: self.id,
            content: self.content@,
            timestamp_ms: self.timestamp_ms,
            is_system: self.is_system,
        }
    }
}

impl DeepView for Message {
    type V = MessageV;

    open spec fn deep_view(&self) -> MessageV {
        self@
    }
}

impl Message {
    /// A log entry without a correlation id, stamped with the clock.
    pub fn new(content: String, is_system: bool) -> (r: Message)
        ensures
            r@.id == Option::<u128>::None,
            r@.content == content@,
            r@.is_system == is_system,
    {
        Message { id: None, content, timestamp_ms: now_millis(), is_system }
    }

    /// A log entry keyed by the correlation id `id`, stamped with the
    /// clock.
    pub fn new_with_id(id: u128, content: String, is_system: bool) -> (r: Message)
        ensures
            r@.id == Some(id),
            r@.content == content@,
            r@.is_system == is_system,
    {
        Message { id: Some(id), content, timestamp_ms: now_millis(), is_system }
    }
}

/// One instruction to the display loop.
pub enum UiEvent {
    AddMessage { content: String, is_system: bool },
    AddMessageWithId { id: u128, content: String, is_system: bool },
    UpdateMessage { id: u128, content: String },
}

/// Mathematical model of `UiEvent`.
#[verifier::ext_equal]
pub enum UiEventV {
    AddMessage { content: Seq<char>, is_system: bool },
    AddMessageWithId { id: u128, content: Seq<char>, is_system: bool },
    UpdateMessage { id: u128, content: Seq<char> },
}

impl View for UiEvent {
    type V = UiEventV;

    open spec fn view(&self) -> UiEventV {
        match self {
            UiEvent::AddMessage { content, is_system } => UiEventV::AddMessage {
                content: content@,
                is_system: *is_system,
            },
            UiEvent::AddMessageWithId { id, content, is_system } => UiEventV::AddMessageWithId {
                id: *id,
                content: content@,
                is_system: *is_system,
            },
            UiEvent::UpdateMessage { id, content } => UiEventV::UpdateMessage {
                id: *id,
                content: content@,
            },
        }
    }
}

impl DeepView for UiEvent {
    type V = UiEventV;

    open spec fn deep_view(&self) -> UiEventV {
        self@
    }
}

/// Rewriting the first log entry keyed by `id`, if any: the new log and
/// whether an entry was found.
pub open spec fn spec_update_first(msgs: Seq<MessageV>, id: u128, content: Seq<char>) -> (Seq<
    MessageV,
>, bool)
    decreases msgs.len(),
{
    if msgs.len() == 0 {
        (msgs, false)
    } else if msgs.first().id == Some(id) {
        (
            msgs.update(
                0,
                MessageV {
                    id: msgs.first().id,
                    content,
                    timestamp_ms: msgs.first().timestamp_ms,
                    is_system: msgs.first().is_system,
                },
            ),
            true,
        )
    } else {
        let (rest, found) = spec_update_first(msgs.drop_first(), id, content);
        (seq![msgs.first()] + rest, found)
    }
}

/// Appending `m` to a log capped at 100 entries: the oldest entry falls
/// off once the log would exceed the cap.
pub open spec fn spec_append_capped(msgs: Seq<MessageV>, m: MessageV) -> Seq<MessageV> {
    let pushed = msgs.push(m);
    if pushed.len() > 100 {
        pushed.drop_first()
    } else {
        pushed
    }
}

/// The client's UI state: who and where it is, the capped message log,
/// and the input line being edited.  The channel that carries submitted
/// lines to the connection task lives with the transport around the
/// library.
pub struct App {
    pub username: String,
    pub server_url: String,
    pub messages: Vec<Message>,
    pub input: String,
    pub current_room: Option<String>,
    pub should_quit: bool,
}

impl App {
    /// A fresh UI state for `username` against `server_url`.
    pub fn new(username: String, server_url: String) -> (r: App)
        ensures
            r.username@ == username@,
            r.server_url@ == server_url@,
            r.messages.deep_view() == Seq::<MessageV>::empty(),
            r.input@ == Seq::<char>::empty(),
            r.current_room is None,
            !r.should_quit,
    {
        let r = App {
            username,
            server_url,
            messages: Vec::new(),
            input: String::new(),
            current_room: None,
            should_quit: false,
        };
        proof {
            assert(r.messages.deep_view() =~= Seq::<MessageV>::empty());
        }
        r
    }

    /// Appends a plain entry, keeping only the last 100.
    pub fn add_message(&mut self, content: String, is_system: bool)
        ensures
            ({
                let f = final(self).messages.deep_view();
                let o = old(self).messages.deep_view();
                &&& f.len() > 0
                &&& f.last().id == Option::<u128>::None
                &&& f.last().content == content@
                &&& f.last().is_system == is_system
                &&& f == spec_append_capped(o, f.last())
            }),
            final(self).username == old(self).username,
            final(self).server_url == old(self).server_url,
            final(self).input == old(self).input,
            final(self).current_room == old(self).current_room,
            final(self).should_quit == old(self).should_quit,
    {
        let m = Message::new(content, is_system);
        self.push_capped(m);
    }

    /// Appends an entry keyed by the correlation id `id`, keeping only
    /// the last 100.
    pub fn add_message_with_id(&mut self, id: u128, content: String, is_system: bool)
        ensures
            ({
                let f = final(self).messages.deep_view();
                let o = old(self).messages.deep_view();
                &&& f.len() > 0
                &&& f.last().id == Some(id)
                &&& f.last().content == content@
                &&& f.last().is_system == is_system
                &&& f == spec_append_capped(o, f.last())
            }),
            final(self).username == old(self).username,
            final(self).server_url == old(self).server_url,
            final(self).input == old(self).input,
            final(self).current_room == old(self).current_room,
            final(self).should_quit == old(self).should_quit,
    {
        let m = Message::new_with_id(id, content, is_system);
        self.push_capped(m);
    }

    /// Appends `m`, dropping the oldest entry past 100.
    fn push_capped(&mut self, m: Message)
        ensures
            ({
                let f = final(self).messages.deep_view();
                let o = old(self).messages.deep_view();
                &&& f.len() > 0
                &&& f.last() == m@
                &&& f == spec_append_capped(o, m@)
            }),
            final(self).username == old(self).username,
            final(self).server_url == old(self).server_url,
            final(self).input == old(self).input,
            final(self).current_room == old(self).current_room,
            final(self).should_quit == old(self).should_quit,
    {
        let ghost o = self.messages.deep_view();
        self.messages.push(m);
        proof {
            assert(self.messages.deep_view() =~= o.push(m@));
        }
        if self.messages.len() > 100 {
            self.messages.remove(0);
            proof {
                assert(self.messages.deep_view() =~= o.push(m@).drop_first());
                assert(self.messages.deep_view().last() == m@);
            }
        }
    }

    /// Rewrites the content of the first log entry keyed by `id`;
    /// reports whether one was found.
    pub fn update_message(&mut self, id: u128, new_content: String) -> (r: bool)
        ensures
            (final(self).messages.deep_view(), r) == spec_update_first(
                old(self).messages.deep_view(),
                id,
                new_content@,
            ),
            final(self).username == old(self).username,
            final(self).server_url == old(self).server_url,
            final(self).input == old(self).input,
            final(self).current_room == old(self).current_room,
            final(self).should_quit == old(self).should_quit,
    {
        let ghost o = self.messages.deep_view();
        let n = self.messages.len();
        let mut i: usize = 0;
        while i < n
            invariant
                n == self.messages@.len(),
                i <= n,
                o == self.messages.deep_view(),
                o == old(self).messages.deep_view(),
                forall|j: int| 0 <= j < i ==> (#[trigger] o[j]).id != Some(id),
                self.username == old(self).username,
                self.server_url == old(self).server_url,
                self.input == old(self).input,
                self.current_room == old(self).current_room,
                self.should_quit == old(self).should_quit,
            decreases n - i,
        {
            let found = match &self.messages[i].id {
                Some(mid) => *mid == id,
                None => false,
            };
            if found {
                proof {
                    assert(o[i as int] == self.messages@[i as int]@);
                }
                let entry = &mut self.messages[i];
                entry.content = new_content;
                proof {
                    assert(self.messages.deep_view() =~= o.update(
                        i as int,
                        MessageV {
                            id: o[i as int].id,
                            content: new_content@,
                            timestamp_ms: o[i as int].timestamp_ms,
                            is_system: o[i as int].is_system,
                        },
                    ));
                    lemma_update_first_at(o, id, new_content@, i as int);
                }
                return true;
            }
            proof {
                assert(o[i as int] == self.messages@[i as int]@);
            }
            i = i + 1;
        }
        proof {
            lemma_update_first_none(o, id, new_content@);
        }
        false
    }

    /// Applies one display instruction to the log.
    pub fn handle_ui_event(&mut self, event: UiEvent)
        ensures
            ({
                let f = final(self).messages.deep_view();
                let o = old(self).messages.deep_view();
                match event@ {
                    UiEventV::AddMessage { content, is_system } => f.len() > 0 && f.last().id
                        == Option::<u128>::None && f.last().content == content && f.last().is_system
                        == is_system && f == spec_append_capped(o, f.last()),
                    UiEventV::AddMessageWithId { id, content, is_system } => f.len() > 0
                        && f.last().id == Some(id) && f.last().content == content
                        && f.last().is_system == is_system && f == spec_append_capped(o, f.last()),
                    UiEventV::UpdateMessage { id, content } => f == spec_update_first(
                        o,
                        id,
                        content,
                    ).0,
                }
            }),
            final(self).username == old(self).username,
            final(self).should_quit == old(self).should_quit,
    {
        match event {
            UiEvent::AddMessage { content, is_system } => {
                self.add_message(content, is_system);
            },
            UiEvent::AddMessageWithId { id, content, is_system } => {
                self.add_message_with_id(id, content, is_system);
            },
            UiEvent::UpdateMessage { id, content } => {
                self.update_message(id, content);
            },
        }
    }

    /// Marks the UI loop for exit.
    pub fn quit(&mut self)
        ensures
            final(self).should_quit,
            final(self).messages == old(self).messages,
            final(self).input == old(self).input,
            final(self).username == old(self).username,
            final(self).server_url == old(self).server_url,
            final(self).current_room == old(self).current_room,
    {
        self.should_quit = true;
    }

    /// Empties the input line.
    pub fn clear_input(&mut self)
        ensures
            final(self).input@ == Seq::<char>::empty(),
            final(self).messages == old(self).messages,
            final(self).username == old(self).username,
            final(self).server_url == old(self).server_url,
            final(self).current_room == old(self).current_room,
            final(self).should_quit == old(self).should_quit,
    {
        self.input = String::new();
    }
}

/// Rewriting the entry at the first matching index `i` is what
/// `spec_update_first` does when everything before `i` misses.
proof fn lemma_update_first_at(msgs: Seq<MessageV>, id: u128, content: Seq<char>, i: int)
    requires
        0 <= i < msgs.len(),
        msgs[i].id == Some(id),
        forall|j: int| 0 <= j < i ==> (#[trigger] msgs[j]).id != Some(id),
    ensures
        spec_update_first(msgs, id, content) == (
            msgs.update(
                i,
                MessageV {
                    id: msgs[i].id,
                    content,
                    timestamp_ms: msgs[i].timestamp_ms,
                    is_system: msgs[i].is_system,
                },
            ),
            true,
        ),
    decreases msgs.len(),
{
    if i == 0 {
        assert(msgs.first().id == Some(id));
        assert(spec_update_first(msgs, id, content).0 =~= msgs.update(
            0,
            MessageV {
                id: msgs[0].id,
                content,
                timestamp_ms: msgs[0].timestamp_ms,
                is_system: msgs[0].is_system,
            },
        ));
    } else {
        assert(msgs.first().id != Some(id));
        let rest = msgs.drop_first();
        assert(forall|j: int| 0 <= j < rest.len() ==> #[trigger] rest[j] == msgs[j + 1]);
        lemma_update_first_at(rest, id, content, i - 1);
        let (updated_rest, found) = spec_update_first(rest, id, content);
        assert(found);
        assert(spec_update_first(msgs, id, content).1);
        assert(spec_update_first(msgs, id, content).0 =~= msgs.update(
            i,
            MessageV {
                id: msgs[i].id,
                content,
                timestamp_ms: msgs[i].timestamp_ms,
                is_system: msgs[i].is_system,
            },
        ));
    }
}

/// When no entry matches, `spec_update_first` changes nothing.
proof fn lemma_update_first_none(msgs: Seq<MessageV>, id: u128, content: Seq<char>)
    requires
        forall|j: int| 0 <= j < msgs.len() ==> (#[trigger] msgs[j]).id != Some(id),
    ensures
        spec_update_first(msgs, id, content) == (msgs, false),
    decreases msgs.len(),
{
    if msgs.len() > 0 {
        let rest = msgs.drop_first();
        assert(forall|j: int| 0 <= j < rest.len() ==> #[trigger] rest[j] == msgs[j + 1]);
        lemma_update_first_none(rest, id, content);
        assert(spec_update_first(msgs, id, content).0 =~= msgs);
    }
}

/// The display text for a domain error.
pub open spec fn spec_error_text(e: ErrorCodeV) -> Seq<char> {
    match e {
        ErrorCodeV::RoomNotFound { message } => "RoomNotFound: "@ + message,
        ErrorCodeV::RoomAlreadyExists { message } => "RoomAlreadyExists: "@ + message,
        ErrorCodeV::AlreadyInRoom { message } => "AlreadyInRoom: "@ + message,
        ErrorCodeV::InvalidRoomId { message } => "InvalidRoomId: "@ + message,
        ErrorCodeV::PermissionDenied { message } => "PermissionDenied: "@ + message,
    }
}

impl ErrorCode {
    /// The display text for this error: its kind, then its message.
    pub fn describe(&self) -> (r: String)
        ensures
            r@ == spec_error_text(self@),
    {
        let mut r = String::new();
        match self {
            ErrorCode::RoomNotFound { message } => {
                r.append("RoomNotFound: ");
                r.append(message.as_str());
            },
            ErrorCode::RoomAlreadyExists { message } => {
                r.append("RoomAlreadyExists: ");
                r.append(message.as_str());
            },
            ErrorCode::AlreadyInRoom { message } => {
                r.append("AlreadyInRoom: ");
                r.append(message.as_str());
            },
            ErrorCode::InvalidRoomId { message } => {
                r.append("InvalidRoomId: ");
                r.append(message.as_str());
            },
            ErrorCode::PermissionDenied { message } => {
                r.append("PermissionDenied: ");
                r.append(message.as_str());
            },
        }
        proof {
            assert(r@ =~= spec_error_text(self@));
        }
        r
    }
}

/// How an incoming event reads in the log, seen by the client whose
/// identity is `self_id`: empty for events that are not displayed
/// (a global echo of one's own chat is confirmed through its
/// acknowledgment instead, and bookkeeping events show nothing).
pub open spec fn spec_format_message(ev: EventV, self_id: u128) -> Seq<char> {
    match ev {
        EventV::Chat { id: _, sender, content, scope } => match scope {
            ChatScopeV::Global => if sender.id == self_id {
                Seq::<char>::empty()
            } else {
                "[GLOBAL]\u{1f4ac} "@ + sender.username + ": "@ + content
            },
            ChatScopeV::Room { room } => if sender.id == self_id {
                "["@ + room.name + "]\u{1f3e0} You: "@ + content
            } else {
                "["@ + room.name + "]\u{1f3e0} "@ + sender.username + ": "@ + content
            },
        },
        EventV::Join { username } => "\u{1f44b} "@ + username + " joined"@,
        EventV::CreateRoom { creator, room_name } => "\u{1f3e0} Room '"@ + room_name
            + "' created by '"@ + creator.username + "'"@,
        EventV::JoinRoom { user, room } => if user.id == self_id {
            "\u{2705} You joined room "@ + room.name
        } else {
            "\u{1f465} "@ + user.username + " joined room "@ + room.name
        },
        EventV::LeaveRoom { user, room } => if user.id == self_id {
            "\u{1f6aa} You left room "@ + room.name
        } else {
            "\u{1f44b} "@ + user.username + " left room "@ + room.name
        },
        EventV::Error { error } => "\u{274c} Error: "@ + spec_error_text(error),
        _ => Seq::<char>::empty(),
    }
}

/// Renders an incoming event for the log of the client `self_id`.
pub fn format_message(event: &EventMessage, self_id: u128) -> (r: String)
    ensures
        r@ == spec_format_message(event@, self_id),
{
    let mut r = String::new();
    match event {
        EventMessage::Chat { id: _, sender, content, scope } => {
            match scope {
                crate::protocol::ChatScope::Global => {
                    if sender.id != self_id {
                        r.append("[GLOBAL]\u{1f4ac} ");
                        r.append(sender.username.as_str());
                        r.append(": ");
                        r.append(content.as_str());
                    }
                },
                crate::protocol::ChatScope::Room { room } => {
                    r.append("[");
                    r.append(room.name.as_str());
                    if sender.id == self_id {
                        r.append("]\u{1f3e0} You: ");
                    } else {
                        r.append("]\u{1f3e0} ");
                        r.append(sender.username.as_str());
                        r.append(": ");
                    }
                    r.append(content.as_str());
                },
            }
        },
        EventMessage::Join { username } => {
            r.append("\u{1f44b} ");
            r.append(username.as_str());
            r.append(" joined");
        },
        EventMessage::CreateRoom { creator, room_name } => {
            r.append("\u{1f3e0} Room '");
            r.append(room_name.as_str());
            r.append("' created by '");
            r.append(creator.username.as_str());
            r.append("'");
        },
        EventMessage::JoinRoom { user, room } => {
            if user.id == self_id {
                r.append("\u{2705} You joined room ");
            } else {
                r.append("\u{1f465} ");
                r.append(user.username.as_str());
                r.append(" joined room ");
            }
            r.append(room.name.as_str());
        },
        EventMessage::LeaveRoom { user, room } => {
            if user.id == self_id {
                r.append("\u{1f6aa} You left room ");
            } else {
                r.append("\u{1f44b} ");
                r.append(user.username.as_str());
                r.append(" left room ");
            }
            r.append(room.name.as_str());
        },
        EventMessage::Error { error } => {
            r.append("\u{274c} Error: ");
            let detail = error.describe();
            r.append(detail.as_str());
        },
        _ => {},
    }
    proof {
        assert(r@ =~= spec_format_message(event@, self_id));
    }
    r
}

/// One remembered optimistic message: its correlation id and the text
/// the user submitted.
pub struct PendingEntry {
    pub id: u128,
    pub content: String,
}

/// Mathematical model of `PendingEntry`.
#[verifier::ext_equal]
pub struct PendingEntryV {
    pub id: u128,
    pub content: Seq<char>,
}

impl View for PendingEntry {
    type V = PendingEntryV;

    open spec fn view(&self) -> PendingEntryV {
        PendingEntryV { id: self.id, content: self.content@ }
    }
}

impl DeepView for PendingEntry {
    type V = PendingEntryV;

    open spec fn deep_view(&self) -> PendingEntryV {
        self@
    }
}

/// Whether some pending entry carries the correlation id `id`.
pub open spec fn pending_has(ps: Seq<PendingEntryV>, id: u128) -> bool {
    exists|i: int| 0 <= i < ps.len() && ps[i].id == id
}

/// The index of the entry carrying `id`; meaningful only under
/// `pending_has` together with uniqueness of ids.
pub open spec fn pending_idx(ps: Seq<PendingEntryV>, id: u128) -> int {
    choose|i: int| 0 <= i < ps.len() && ps[i].id == id
}

/// No two pending entries carry the same correlation id.
pub open spec fn pending_unique(ps: Seq<PendingEntryV>) -> bool {
    forall|i: int, j: int|
        0 <= i < j < ps.len() ==> (#[trigger] ps[i]).id != (#[trigger] ps[j]).id
}

/// The pending table without the entry carrying `id`; unchanged when
/// there is none.
pub open spec fn spec_pending_remove(ps: Seq<PendingEntryV>, id: u128) -> Seq<PendingEntryV> {
    if pending_has(ps, id) {
        ps.remove(pending_idx(ps, id))
    } else {
        ps
    }
}

/// The pending table with `id` bound to `content`: an existing entry is
/// overwritten in place, a new one is appended.
pub open spec fn spec_pending_insert(ps: Seq<PendingEntryV>, id: u128, content: Seq<char>) -> Seq<
    PendingEntryV,
> {
    if pending_has(ps, id) {
        ps.update(pending_idx(ps, id), PendingEntryV { id, content })
    } else {
        ps.push(PendingEntryV { id, content })
    }
}

/// The optimistic-echo text shown the moment a chat line is submitted.
pub open spec fn sending_text(content: Seq<char>) -> Seq<char> {
    "[GLOBAL]\u{1f4ac} You: "@ + content + " \u{23f3}"@
}

/// The confirmed text once the chat comes back as a delivered echo.
pub open spec fn delivered_text(scope: ChatScopeV, content: Seq<char>) -> Seq<char> {
    match scope {
        ChatScopeV::Global => "[GLOBAL]\u{1f4ac} You: "@ + content + " \u{2705}"@,
        ChatScopeV::Room { room } => "["@ + room.name + "]\u{1f3e0} You: "@ + content
            + " \u{2705}"@,
    }
}

/// The confirmed text once the server acknowledges delivery.
pub open spec fn acked_text(content: Seq<char>) -> Seq<char> {
    "[GLOBAL]\u{1f4ac} You: "@ + content + " "@
}

/// Whether `s` begins with `p`.
pub open spec fn has_prefix(s: Seq<char>, p: Seq<char>) -> bool {
    s.len() >= p.len() && s.subrange(0, p.len() as int) == p
}

/// Whether `s` begins with `p`.
fn has_prefix_exec(s: &str, p: &str) -> (r: bool)
    ensures
        r == has_prefix(s@, p@),
{
    let sn = s.unicode_len();
    let pn = p.unicode_len();
    if sn < pn {
        proof {
            assert(!has_prefix(s@, p@));
        }
        return false;
    }
    let mut j: usize = 0;
    while j < pn
        invariant
            sn == s@.len(),
            pn == p@.len(),
            pn <= sn,
            j <= pn,
            forall|k: int| 0 <= k < j ==> s@[k] == p@[k],
        decreases pn - j,
    {
        if s.get_char(j) != p.get_char(j) {
            proof {
                if has_prefix(s@, p@) {
                    assert(s@.subrange(0, p@.len() as int)[j as int] == p@[j as int]);
                }
            }
            return false;
        }
        j = j + 1;
    }
    proof {
        assert(s@.subrange(0, p@.len() as int) =~= p@);
    }
    true
}

/// The recorded text of the pending entry carrying `id`; meaningful
/// only under `pending_has`.
pub open spec fn pending_text(ps: Seq<PendingEntryV>, id: u128) -> Seq<char> {
    ps[pending_idx(ps, id)].content
}

/// The client-side reconciler: this client's assigned
/// identity once known, its display name, and the pending table of
/// optimistic messages awaiting acknowledgment.
pub struct Reconciler {
    pub my_id: Option<u128>,
    pub username: String,
    pub pending: Vec<PendingEntry>,
}

/// `my_id` after an incoming event: only `AssignedId` sets it.
pub open spec fn recon_id_after(my_id: Option<u128>, ev: EventV) -> Option<u128> {
    match ev {
        EventV::AssignedId { user_id } => Some(user_id),
        _ => my_id,
    }
}

/// The pending table after an incoming event: an acknowledgment — or an
/// echo of this client's own chat — retires its correlation id.
pub open spec fn recon_pending_after(
    my_id: Option<u128>,
    ps: Seq<PendingEntryV>,
    ev: EventV,
) -> Seq<PendingEntryV> {
    match ev {
        EventV::Chat { id, sender, content: _, scope: _ } => if my_id == Some(sender.id) {
            spec_pending_remove(ps, id)
        } else {
            ps
        },
        EventV::AckDelivered { id } => spec_pending_remove(ps, id),
        _ => ps,
    }
}

/// The display instruction an incoming event produces, if any: a
/// matching acknowledgment or own echo rewrites the optimistic entry to
/// its confirmed text; anything else that renders nonempty is appended.
/// Until the identity is assigned, only acknowledgments act.
pub open spec fn recon_ui_after(
    my_id: Option<u128>,
    ps: Seq<PendingEntryV>,
    ev: EventV,
) -> Option<UiEventV> {
    match ev {
        EventV::AssignedId { user_id: _ } => None,
        EventV::Chat { id, sender, content: _, scope } => match my_id {
            None => None,
            Some(m) => if sender.id == m {
                if pending_has(ps, id) {
                    Some(
                        UiEventV::UpdateMessage {
                            id,
                            content: delivered_text(scope, pending_text(ps, id)),
                        },
                    )
                } else {
                    None
                }
            } else {
                let t = spec_format_message(ev, m);
                if t.len() == 0 {
                    None
                } else {
                    Some(UiEventV::AddMessage { content: t, is_system: false })
                }
            },
        },
        EventV::AckDelivered { id } => if pending_has(ps, id) {
            Some(UiEventV::UpdateMessage { id, content: acked_text(pending_text(ps, id)) })
        } else {
            None
        },
        _ => match my_id {
            None => None,
            Some(m) => {
                let t = spec_format_message(ev, m);
                if t.len() == 0 {
                    None
                } else {
                    Some(UiEventV::AddMessage { content: t, is_system: false })
                }
            },
        },
    }
}

/// What one submitted input line amounts to: the event to send (if any),
/// the display instruction (if any), and the new pending table.
/// Commands: `/create <name>`, `/join <roomId>`, `/leave`; anything else
/// is a chat line, echoed optimistically.  Blank lines, and any input
/// before the identity is assigned, are dropped.
///
/// A room id is accepted in its canonical spelling alone — the
/// hyphenated lowercase form every event and notice here carries it in;
/// other spellings draw the local notice, as an unknown id would.
pub open spec fn spec_on_input(
    my_id: Option<u128>,
    username: Seq<char>,
    ps: Seq<PendingEntryV>,
    input: Seq<char>,
    fresh: u128,
) -> (Option<EventV>, Option<UiEventV>, Seq<PendingEntryV>) {
    if trim_of(input).len() == 0 {
        (None, None, ps)
    } else if my_id is None {
        (None, None, ps)
    } else {
        let m = my_id->0;
        if has_prefix(input, "/create "@) {
            (
                Some(
                    EventV::CreateRoom {
                        creator: UserInfoV { id: m, username },
                        room_name: input.skip(8),
                    },
                ),
                None,
                ps,
            )
        } else if has_prefix(input, "/join "@) {
            match uuid_parse(trim_of(input.skip(6))) {
                Some(rid) => (
                    Some(
                        EventV::JoinRoom {
                            user: UserInfoV { id: m, username },
                            room: RoomInfoV { id: rid, name: Seq::<char>::empty() },
                        },
                    ),
                    None,
                    ps,
                ),
                None => (
                    None,
                    Some(
                        UiEventV::AddMessage {
                            content: "\u{274c} Invalid room ID format. Use: /join <room-uuid>"@,
                            is_system: true,
                        },
                    ),
                    ps,
                ),
            }
        } else if has_prefix(input, "/leave"@) {
            (
                Some(
                    EventV::LeaveRoom {
                        user: UserInfoV { id: m, username },
                        room: RoomInfoV { id: 0, name: Seq::<char>::empty() },
                    },
                ),
                None,
                ps,
            )
        } else {
            (
                Some(
                    EventV::Chat {
                        id: fresh,
                        sender: UserInfoV { id: m, username },
                        content: input,
                        scope: ChatScopeV::Global,
                    },
                ),
                Some(
                    UiEventV::AddMessageWithId {
                        id: fresh,
                        content: sending_text(input),
                        is_system: false,
                    },
                ),
                spec_pending_insert(ps, fresh, input),
            )
        }
    }
}

impl Reconciler {
    /// No two pending entries share a correlation id.
    pub open spec fn wf(&self) -> bool {
        pending_unique(self.pending_view())
    }

    /// The pending table, as recorded.
    pub open spec fn pending_view(&self) -> Seq<PendingEntryV> {
        self.pending.deep_view()
    }

    /// A reconciler for `username`, before the server has assigned an
    /// identity.
    pub fn new(username: String) -> (r: Reconciler)
        ensures
            r.wf(),
            r.my_id is None,
            r.username@ == username@,
            r.pending_view() == Seq::<PendingEntryV>::empty(),
    {
        let r = Reconciler { my_id: None, username, pending: Vec::new() };
        proof {
            assert(r.pending_view() =~= Seq::<PendingEntryV>::empty());
        }
        r
    }

    /// The position of the entry carrying `id`, or `None`.
    fn pending_find(&self, id: u128) -> (r: Option<usize>)
        requires
            self.wf(),
        ensures
            match r {
                Some(i) => i < self.pending_view().len() && self.pending_view()[i as int].id == id
                    && i as int == pending_idx(self.pending_view(), id),
                None => !pending_has(self.pending_view(), id),
            },
    {
        let n = self.pending.len();
        let mut i: usize = 0;
        while i < n
            invariant
                self.wf(),
                n == self.pending_view().len(),
                n == self.pending@.len(),
                i <= n,
                forall|j: int| 0 <= j < i ==> (#[trigger] self.pending_view()[j]).id != id,
            decreases n - i,
        {
            if self.pending[i].id == id {
                proof {
                    assert(self.pending_view()[i as int] == self.pending@[i as int]@);
                    assert(pending_has(self.pending_view(), id));
                    let k = pending_idx(self.pending_view(), id);
                    assert(0 <= k < self.pending_view().len() && self.pending_view()[k].id == id);
                    assert(k == i as int);
                }
                return Some(i);
            }
            proof {
                assert(self.pending_view()[i as int] == self.pending@[i as int]@);
            }
            i = i + 1;
        }
        None
    }

    /// Retires the entry carrying `id`, handing back its recorded text.
    fn pending_take(&mut self, id: u128) -> (r: Option<String>)
        requires
            old(self).wf(),
        ensures
            final(self).wf(),
            final(self).my_id == old(self).my_id,
            final(self).username == old(self).username,
            final(self).pending_view() == spec_pending_remove(old(self).pending_view(), id),
            !pending_has(old(self).pending_view(), id) ==> r is None,
            pending_has(old(self).pending_view(), id) ==> (r matches Some(c) && c@ == pending_text(
                old(self).pending_view(),
                id,
            )),
    {
        let ghost o = self.pending_view();
        match self.pending_find(id) {
            Some(i) => {
                let entry = self.pending.remove(i);
                proof {
                    assert(self.pending_view() =~= o.remove(i as int));
                    assert forall|a: int, b: int|
                        0 <= a < b < self.pending_view().len() implies (
                    #[trigger] self.pending_view()[a]).id != (
                    #[trigger] self.pending_view()[b]).id by {
                        if b < i {
                            assert(o[a].id != o[b].id);
                        } else if a < i {
                            assert(self.pending_view()[b] == o[b + 1]);
                            assert(o[a].id != o[b + 1].id);
                        } else {
                            assert(self.pending_view()[a] == o[a + 1]);
                            assert(self.pending_view()[b] == o[b + 1]);
                            assert(o[a + 1].id != o[b + 1].id);
                        }
                    }
                }
                Some(entry.content)
            },
            None => None,
        }
    }

    /// Binds `id` to `content`, overwriting any entry with the same id.
    fn pending_put(&mut self, id: u128, content: String)
        requires
            old(self).wf(),
        ensures
            final(self).wf(),
            final(self).my_id == old(self).my_id,
            final(self).username == old(self).username,
            final(self).pending_view() == spec_pending_insert(
                old(self).pending_view(),
                id,
                content@,
            ),
    {
        let ghost o = self.pending_view();
        match self.pending_find(id) {
            Some(i) => {
                let entry = &mut self.pending[i];
                entry.id = id;
                entry.content = content;
                proof {
                    assert(self.pending_view() =~= o.update(
                        i as int,
                        PendingEntryV { id, content: content@ },
                    ));
                    assert forall|a: int, b: int|
                        0 <= a < b < self.pending_view().len() implies (
                    #[trigger] self.pending_view()[a]).id != (
                    #[trigger] self.pending_view()[b]).id by {
                        assert(self.pending_view()[a].id == o[a].id);
                        assert(self.pending_view()[b].id == o[b].id);
                        assert(o[a].id != o[b].id);
                    }
                }
            },
            None => {
                self.pending.push(PendingEntry { id, content });
                proof {
                    assert(self.pending_view() =~= o.push(PendingEntryV { id, content: content@ }));
                    assert forall|a: int, b: int|
                        0 <= a < b < self.pending_view().len() implies (
                    #[trigger] self.pending_view()[a]).id != (
                    #[trigger] self.pending_view()[b]).id by {
                        if b < o.len() {
                            assert(o[a].id != o[b].id);
                        } else {
                            assert(self.pending_view()[b].id == id);
                            assert(self.pending_view()[a] == o[a]);
                            if o[a].id == id {
                                assert(pending_has(o, id));
                            }
                        }
                    }
                }
            },
        }
    }

    /// Digests one event read from the server: learns the
    /// assigned identity, reconciles acknowledged or echoed messages
    /// with the pending table, and renders everything else.
    pub fn on_server_event(&mut self, event: EventMessage) -> (r: Option<UiEvent>)
        requires
            old(self).wf(),
        ensures
            final(self).wf(),
            final(self).username == old(self).username,
            final(self).my_id == recon_id_after(old(self).my_id, event@),
            final(self).pending_view() == recon_pending_after(
                old(self).my_id,
                old(self).pending_view(),
                event@,
            ),
            r.deep_view() == recon_ui_after(old(self).my_id, old(self).pending_view(), event@),
    {
        match event {
            EventMessage::AssignedId { user_id } => {
                self.my_id = Some(user_id);
                None
            },
            EventMessage::Chat { id, sender, content, scope } => {
                let m = match &self.my_id {
                    Some(m) => *m,
                    None => {
                        return None;
                    },
                };
                if sender.id == m {
                    match self.pending_take(id) {
                        Some(original) => {
                            let mut text = String::new();
                            match &scope {
                                crate::protocol::ChatScope::Global => {
                                    text.append("[GLOBAL]\u{1f4ac} You: ");
                                    text.append(original.as_str());
                                    text.append(" \u{2705}");
                                },
                                crate::protocol::ChatScope::Room { room } => {
                                    text.append("[");
                                    text.append(room.name.as_str());
                                    text.append("]\u{1f3e0} You: ");
                                    text.append(original.as_str());
                                    text.append(" \u{2705}");
                                },
                            }
                            proof {
                                assert(text@ =~= delivered_text(
                                    scope@,
                                    pending_text(old(self).pending_view(), id),
                                ));
                            }
                            Some(UiEvent::UpdateMessage { id, content: text })
                        },
                        None => None,
                    }
                } else {
                    let whole = EventMessage::Chat { id, sender, content, scope };
                    let t = format_message(&whole, m);
                    if t.as_str().unicode_len() == 0 {
                        None
                    } else {
                        Some(UiEvent::AddMessage { content: t, is_system: false })
                    }
                }
            },
            EventMessage::AckDelivered { id } => {
                match self.pending_take(id) {
                    Some(original) => {
                        let mut text = String::new();
                        text.append("[GLOBAL]\u{1f4ac} You: ");
                        text.append(original.as_str());
                        text.append(" ");
                        proof {
                            assert(text@ =~= acked_text(
                                pending_text(old(self).pending_view(), id),
                            ));
                        }
                        Some(UiEvent::UpdateMessage { id, content: text })
                    },
                    None => None,
                }
            },
            other => {
                let m = match &self.my_id {
                    Some(m) => *m,
                    None => {
                        return None;
                    },
                };
                let t = format_message(&other, m);
                if t.as_str().unicode_len() == 0 {
                    None
                } else {
                    Some(UiEvent::AddMessage { content: t, is_system: false })
                }
            },
        }
    }

    /// Digests one submitted input line: turns it into the
    /// event to send and the optimistic echo to display, remembering the
    /// echo's correlation id in the pending table.  `fresh_msg_id` is a
    /// freshly drawn correlation id, consumed only by a chat line.
    pub fn on_input(&mut self, input: String, fresh_msg_id: u128) -> (r: (
        Option<EventMessage>,
        Option<UiEvent>,
    ))
        requires
            old(self).wf(),
        ensures
            final(self).wf(),
            final(self).username == old(self).username,
            final(self).my_id == old(self).my_id,
            ({
                let (ev, ui, pa) = spec_on_input(
                    old(self).my_id,
                    old(self).username@,
                    old(self).pending_view(),
                    input@,
                    fresh_msg_id,
                );
                &&& r.0.deep_view() == ev
                &&& r.1.deep_view() == ui
                &&& final(self).pending_view() == pa
            }),
    {
        let trimmed = trim_str(input.as_str());
        if trimmed.as_str().unicode_len() == 0 {
            return (None, None);
        }
        let m = match &self.my_id {
            Some(m) => *m,
            None => {
                return (None, None);
            },
        };
        if has_prefix_exec(input.as_str(), "/create ") {
            let n = input.as_str().unicode_len();
            proof {
                reveal_strlit("/create ");
            }
            let room_name = input.as_str().substring_char(8, n).to_owned();
            proof {
                assert(room_name@ =~= input@.skip(8));
            }
            let ev = EventMessage::CreateRoom {
                creator: UserInfo { id: m, username: self.username.clone() },
                room_name,
            };
            (Some(ev), None)
        } else if has_prefix_exec(input.as_str(), "/join ") {
            let n = input.as_str().unicode_len();
            proof {
                reveal_strlit("/join ");
            }
            let rest = input.as_str().substring_char(6, n);
            let rest_trimmed = trim_str(rest);
            proof {
                assert(rest@ =~= input@.skip(6));
            }
            match parse_uuid(rest_trimmed.as_str()) {
                Some(rid) => {
                    let ev = EventMessage::JoinRoom {
                        user: UserInfo { id: m, username: self.username.clone() },
                        room: RoomInfo { id: rid, name: String::new() },
                    };
                    (Some(ev), None)
                },
                None => {
                    let note = String::from_str(
                        "\u{274c} Invalid room ID format. Use: /join <room-uuid>",
                    );
                    (None, Some(UiEvent::AddMessage { content: note, is_system: true }))
                },
            }
        } else if has_prefix_exec(input.as_str(), "/leave") {
            let ev = EventMessage::LeaveRoom {
                user: UserInfo { id: m, username: self.username.clone() },
                room: RoomInfo { id: 0, name: String::new() },
            };
            (Some(ev), None)
        } else {
            let mut echo = String::new();
            echo.append("[GLOBAL]\u{1f4ac} You: ");
            echo.append(input.as_str());
            echo.append(" \u{23f3}");
            proof {
                assert(echo@ =~= sending_text(input@));
            }
            self.pending_put(fresh_msg_id, input.clone());
            let ev = EventMessage::Chat {
                id: fresh_msg_id,
                sender: UserInfo { id: m, username: self.username.clone() },
                content: input,
                scope: crate::protocol::ChatScope::Global,
            };
            let ui = UiEvent::AddMessageWithId {
                id: fresh_msg_id,
                content: echo,
                is_system: false,
            };
            (Some(ev), Some(ui))
        }
    }
}

impl Reconciler {
    /// Digests one submitted input line with the correlation id drawn
    /// here: what a chat line is keyed by.  The draw is random, so the
    /// contract holds of every id it may produce.
    pub fn submit_input(&mut self, input: String) -> (r: (Option<EventMessage>, Option<UiEvent>))
        requires
            old(self).wf(),
        ensures
            final(self).wf(),
            final(self).username == old(self).username,
            final(self).my_id == old(self).my_id,
            exists|fresh: u128|
                {
                    let (ev, ui, pa) = #[trigger] spec_on_input(
                        old(self).my_id,
                        old(self).username@,
                        old(self).pending_view(),
                        input@,
                        fresh,
                    );
                    &&& r.0.deep_view() == ev
                    &&& r.1.deep_view() == ui
                    &&& final(self).pending_view() == pa
                },
    {
        let fresh = crate::ids::fresh_id();
        let ghost iv = input@;
        let r = self.on_input(input, fresh);
        proof {
            let (ev, ui, pa) = spec_on_input(
                old(self).my_id,
                old(self).username@,
                old(self).pending_view(),
                iv,
                fresh,
            );
            assert(r.0.deep_view() == ev && r.1.deep_view() == ui && self.pending_view() == pa);
        }
        r
    }
}

} // verus!
