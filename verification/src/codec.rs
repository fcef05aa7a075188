//! The envelope codec: one wire event to and from its framed text form.
//!
//! A frame is a JSON object `{"event": <tag>, "data": <payload>}`; the
//! chat scope and the error payload are nested the same way under
//! `"scope"`/`"details"` and `"error_type"`/`"details"`.  Identities are
//! carried in their hyphenated hexadecimal text form.  The encoder emits
//! one canonical text per event — no spare whitespace, object fields in
//! declaration order, strings with the usual JSON escapes — and its
//! contract states that text exactly.  The decoder accepts exactly the
//! canonical form, in both directions: whatever it accepts re-encodes to
//! the very input, and every canonical encoding is accepted and read
//! back as the event it encodes; an unrecognized or malformed frame is
//! refused, to be dropped by the caller with the connection kept open.

use vstd::prelude::*;
use vstd::string::{StrSliceExecFns, StringExecFns};
use crate::protocol::{
    ChatScope,
    ChatScopeV,
    ErrorCode,
    ErrorCodeV,
    EventMessage,
    EventV,
    RoomInfo,
    RoomInfoV,
    UserInfo,
    UserInfoV,
};
use crate::ids::{hex_char, hex_digit_char, hex_digit_val, hex_val, parse_uuid, push_char, uuid_seq, uuid_string};

verus! {

/// The JSON escape of one character.
pub open spec fn esc_char(c: char) -> Seq<char> {
    if c == '"' {
        "\\\""@
    } else if c == '\\' {
        "\\\\"@
    } else if c == '\u{8}' {
        "\\b"@
    } else if c == '\u{c}' {
        "\\f"@
    } else if c == '\n' {
        "\\n"@
    } else if c == '\r' {
        "\\r"@
    } else if c == '\t' {
        "\\t"@
    } else if (c as u32) < 32 {
        "\\u00"@ + seq![hex_char(((c as u32) / 16) as u8), hex_char(((c as u32) % 16) as u8)]
    } else {
        seq![c]
    }
}

/// The JSON escape of a text, character by character.
pub open spec fn json_escape(s: Seq<char>) -> Seq<char>
    decreases s.len(),
{
    if s.len() == 0 {
        Seq::<char>::empty()
    } else {
        esc_char(s.first()) + json_escape(s.drop_first())
    }
}

/// A JSON string: the escaped text between quotes.
pub open spec fn quoted(s: Seq<char>) -> Seq<char> {
    "\""@ + json_escape(s) + "\""@
}

/// A JSON string holding an identity in hyphenated form.
pub open spec fn quoted_uuid(v: u128) -> Seq<char> {
    "\""@ + uuid_seq(v) + "\""@
}

/// The JSON object for a user reference.
pub open spec fn enc_user(u: UserInfoV) -> Seq<char> {
    "{\"id\":"@ + quoted_uuid(u.id) + ",\"username\":"@ + quoted(u.username) + "}"@
}

/// The JSON object for a room reference.
pub open spec fn enc_room(r: RoomInfoV) -> Seq<char> {
    "{\"id\":"@ + quoted_uuid(r.id) + ",\"name\":"@ + quoted(r.name) + "}"@
}

/// The JSON object for a chat scope.
pub open spec fn enc_scope(s: ChatScopeV) -> Seq<char> {
    match s {
        ChatScopeV::Global => "{\"scope\":\"Global\"}"@,
        ChatScopeV::Room { room } => "{\"scope\":\"Room\",\"details\":{\"room\":"@ + enc_room(room)
            + "}}"@,
    }
}

/// The JSON object for a domain error.
pub open spec fn enc_error(e: ErrorCodeV) -> Seq<char> {
    match e {
        ErrorCodeV::RoomNotFound { message } => "{\"error_type\":\"RoomNotFound\",\"details\":{\"message\":"@
            + quoted(message) + "}}"@,
        ErrorCodeV::RoomAlreadyExists { message } => "{\"error_type\":\"RoomAlreadyExists\",\"details\":{\"message\":"@
            + quoted(message) + "}}"@,
        ErrorCodeV::AlreadyInRoom { message } => "{\"error_type\":\"AlreadyInRoom\",\"details\":{\"message\":"@
            + quoted(message) + "}}"@,
        ErrorCodeV::InvalidRoomId { message } => "{\"error_type\":\"InvalidRoomId\",\"details\":{\"message\":"@
            + quoted(message) + "}}"@,
        ErrorCodeV::PermissionDenied { message } => "{\"error_type\":\"PermissionDenied\",\"details\":{\"message\":"@
            + quoted(message) + "}}"@,
    }
}

/// The canonical framed text of one wire event.
pub open spec fn spec_encode(e: EventV) -> Seq<char> {
    match e {
        EventV::Join { username } => "{\"event\":\"Join\",\"data\":{\"username\":"@ + quoted(
            username,
        ) + "}}"@,
        EventV::AssignedId { user_id } => "{\"event\":\"AssignedId\",\"data\":{\"user_id\":"@
            + quoted_uuid(user_id) + "}}"@,
        EventV::Chat { id, sender, content, scope } => "{\"event\":\"Chat\",\"data\":{\"id\":"@
            + quoted_uuid(id) + ",\"sender\":"@ + enc_user(sender) + ",\"content\":"@ + quoted(
            content,
        ) + ",\"scope\":"@ + enc_scope(scope) + "}}"@,
        EventV::AckDelivered { id } => "{\"event\":\"AckDelivered\",\"data\":{\"id\":"@
            + quoted_uuid(id) + "}}"@,
        EventV::CreateRoom { creator, room_name } => "{\"event\":\"CreateRoom\",\"data\":{\"creator\":"@
            + enc_user(creator) + ",\"room_name\":"@ + quoted(room_name) + "}}"@,
        EventV::JoinRoom { user, room } => "{\"event\":\"JoinRoom\",\"data\":{\"user\":"@
            + enc_user(user) + ",\"room\":"@ + enc_room(room) + "}}"@,
        EventV::LeaveRoom { user, room } => "{\"event\":\"LeaveRoom\",\"data\":{\"user\":"@
            + enc_user(user) + ",\"room\":"@ + enc_room(room) + "}}"@,
        EventV::Error { error } => "{\"event\":\"Error\",\"data\":{\"error\":"@ + enc_error(error)
            + "}}"@,
        EventV::Ping => "{\"event\":\"Ping\"}"@,
    }
}

/// Escaping distributes over appending one character.
proof fn lemma_escape_snoc(s: Seq<char>, c: char)
    ensures
        json_escape(s.push(c)) == json_escape(s) + esc_char(c),
    decreases s.len(),
{
    if s.len() == 0 {
        reveal_with_fuel(json_escape, 3);
        assert(s.push(c).first() == c);
        assert(s.push(c).drop_first() =~= Seq::<char>::empty());
        assert(json_escape(s.push(c)) =~= json_escape(s) + esc_char(c));
    } else {
        assert(s.push(c).first() == s.first());
        assert(s.push(c).drop_first() =~= s.drop_first().push(c));
        lemma_escape_snoc(s.drop_first(), c);
        assert(json_escape(s.push(c)) =~= json_escape(s) + esc_char(c));
    }
}

/// Appends the JSON escape of `s` to `out`.
fn append_escaped(out: &mut String, s: &str)
    ensures
        final(out)@ == old(out)@ + json_escape(s@),
{
    let n = s.unicode_len();
    let mut i: usize = 0;
    while i < n
        invariant
            n == s@.len(),
            i <= n,
            out@ =~= old(out)@ + json_escape(s@.take(i as int)),
        decreases n - i,
    {
        let c = s.get_char(i);
        proof {
            assert(s@.take(i + 1) =~= s@.take(i as int).push(c));
            lemma_escape_snoc(s@.take(i as int), c);
        }
        if c == '"' {
            out.append("\\\"");
        } else if c == '\\' {
            out.append("\\\\");
        } else if c == '\u{8}' {
            out.append("\\b");
        } else if c == '\u{c}' {
            out.append("\\f");
        } else if c == '\n' {
            out.append("\\n");
        } else if c == '\r' {
            out.append("\\r");
        } else if c == '\t' {
            out.append("\\t");
        } else if (c as u32) < 32 {
            out.append("\\u00");
            let code = c as u32;
            let hi = hex_digit_char((code / 16) as u8);
            let lo = hex_digit_char((code % 16) as u8);
            push_char(out, hi);
            push_char(out, lo);
            proof {
                assert(out@ =~= old(out)@ + json_escape(s@.take(i as int)) + esc_char(c));
            }
        } else {
            push_char(out, c);
        }
        proof {
            assert(out@ =~= old(out)@ + json_escape(s@.take(i + 1)));
        }
        i = i + 1;
    }
    proof {
        assert(s@.take(n as int) =~= s@);
    }
}

/// Appends the JSON string form of `s` to `out`.
fn append_quoted(out: &mut String, s: &str)
    ensures
        final(out)@ == old(out)@ + quoted(s@),
{
    out.append("\"");
    append_escaped(out, s);
    out.append("\"");
    proof {
        assert(out@ =~= old(out)@ + quoted(s@));
    }
}

/// Appends the JSON string form of the identity `v` to `out`.
fn append_quoted_uuid(out: &mut String, v: u128)
    ensures
        final(out)@ == old(out)@ + quoted_uuid(v),
{
    out.append("\"");
    let text = uuid_string(v);
    out.append(text.as_str());
    out.append("\"");
    proof {
        assert(out@ =~= old(out)@ + quoted_uuid(v));
    }
}

/// Appends the JSON object for the user reference `u` to `out`.
fn append_user(out: &mut String, u: &UserInfo)
    ensures
        final(out)@ == old(out)@ + enc_user(u@),
{
    out.append("{\"id\":");
    append_quoted_uuid(out, u.id);
    out.append(",\"username\":");
    append_quoted(out, u.username.as_str());
    out.append("}");
    proof {
        assert(out@ =~= old(out)@ + enc_user(u@));
    }
}

/// Appends the JSON object for the room reference `r` to `out`.
fn append_room(out: &mut String, r: &RoomInfo)
    ensures
        final(out)@ == old(out)@ + enc_room(r@),
{
    out.append("{\"id\":");
    append_quoted_uuid(out, r.id);
    out.append(",\"name\":");
    append_quoted(out, r.name.as_str());
    out.append("}");
    proof {
        assert(out@ =~= old(out)@ + enc_room(r@));
    }
}

/// Appends the JSON object for the scope `s` to `out`.
fn append_scope(out: &mut String, s: &ChatScope)
    ensures
        final(out)@ == old(out)@ + enc_scope(s@),
{
    match s {
        ChatScope::Global => {
            out.append("{\"scope\":\"Global\"}");
        },
        ChatScope::Room { room } => {
            out.append("{\"scope\":\"Room\",\"details\":{\"room\":");
            append_room(out, room);
            out.append("}}");
        },
    }
    proof {
        assert(out@ =~= old(out)@ + enc_scope(s@));
    }
}

/// Appends the JSON object for the error `e` to `out`.
fn append_error(out: &mut String, e: &ErrorCode)
    ensures
        final(out)@ == old(out)@ + enc_error(e@),
{
    match e {
        ErrorCode::RoomNotFound { message } => {
            out.append("{\"error_type\":\"RoomNotFound\",\"details\":{\"message\":");
            append_quoted(out, message.as_str());
            out.append("}}");
        },
        ErrorCode::RoomAlreadyExists { message } => {
            out.append("{\"error_type\":\"RoomAlreadyExists\",\"details\":{\"message\":");
            append_quoted(out, message.as_str());
            out.append("}}");
        },
        ErrorCode::AlreadyInRoom { message } => {
            out.append("{\"error_type\":\"AlreadyInRoom\",\"details\":{\"message\":");
            append_quoted(out, message.as_str());
            out.append("}}");
        },
        ErrorCode::InvalidRoomId { message } => {
            out.append("{\"error_type\":\"InvalidRoomId\",\"details\":{\"message\":");
            append_quoted(out, message.as_str());
            out.append("}}");
        },
        ErrorCode::PermissionDenied { message } => {
            out.append("{\"error_type\":\"PermissionDenied\",\"details\":{\"message\":");
            append_quoted(out, message.as_str());
            out.append("}}");
        },
    }
    proof {
        assert(out@ =~= old(out)@ + enc_error(e@));
    }
}

/// Encodes one wire event into its canonical framed text.
pub fn encode(event: &EventMessage) -> (r: String)
    ensures
        r@ == spec_encode(event@),
{
    let mut out = String::new();
    match event {
        EventMessage::Join { username } => {
            out.append("{\"event\":\"Join\",\"data\":{\"username\":");
            append_quoted(&mut out, username.as_str());
            out.append("}}");
        },
        EventMessage::AssignedId { user_id } => {
            out.append("{\"event\":\"AssignedId\",\"data\":{\"user_id\":");
            append_quoted_uuid(&mut out, *user_id);
            out.append("}}");
        },
        EventMessage::Chat { id, sender, content, scope } => {
            out.append("{\"event\":\"Chat\",\"data\":{\"id\":");
            append_quoted_uuid(&mut out, *id);
            out.append(",\"sender\":");
            append_user(&mut out, sender);
            out.append(",\"content\":");
            append_quoted(&mut out, content.as_str());
            out.append(",\"scope\":");
            append_scope(&mut out, scope);
            out.append("}}");
        },
        EventMessage::AckDelivered { id } => {
            out.append("{\"event\":\"AckDelivered\",\"data\":{\"id\":");
            append_quoted_uuid(&mut out, *id);
            out.append("}}");
        },
        EventMessage::CreateRoom { creator, room_name } => {
            out.append("{\"event\":\"CreateRoom\",\"data\":{\"creator\":");
            append_user(&mut out, creator);
            out.append(",\"room_name\":");
            append_quoted(&mut out, room_name.as_str());
            out.append("}}");
        },
        EventMessage::JoinRoom { user, room } => {
            out.append("{\"event\":\"JoinRoom\",\"data\":{\"user\":");
            append_user(&mut out, user);
            out.append(",\"room\":");
            append_room(&mut out, room);
            out.append("}}");
        },
        EventMessage::LeaveRoom { user, room } => {
            out.append("{\"event\":\"LeaveRoom\",\"data\":{\"user\":");
            append_user(&mut out, user);
            out.append(",\"room\":");
            append_room(&mut out, room);
            out.append("}}");
        },
        EventMessage::Error { error } => {
            out.append("{\"event\":\"Error\",\"data\":{\"error\":");
            append_error(&mut out, error);
            out.append("}}");
        },
        EventMessage::Ping => {
            out.append("{\"event\":\"Ping\"}");
        },
    }
    proof {
        assert(out@ =~= spec_encode(event@));
    }
    out
}

/// The control character with code `code`, for `code < 32`.
pub open spec fn spec_control_char(code: u8) -> Option<char> {
    if code == 0 {
        Some('\u{0}')
    } else if code == 1 {
        Some('\u{1}')
    } else if code == 2 {
        Some('\u{2}')
    } else if code == 3 {
        Some('\u{3}')
    } else if code == 4 {
        Some('\u{4}')
    } else if code == 5 {
        Some('\u{5}')
    } else if code == 6 {
        Some('\u{6}')
    } else if code == 7 {
        Some('\u{7}')
    } else if code == 8 {
        Some('\u{8}')
    } else if code == 9 {
        Some('\u{9}')
    } else if code == 10 {
        Some('\u{a}')
    } else if code == 11 {
        Some('\u{b}')
    } else if code == 12 {
        Some('\u{c}')
    } else if code == 13 {
        Some('\u{d}')
    } else if code == 14 {
        Some('\u{e}')
    } else if code == 15 {
        Some('\u{f}')
    } else if code == 16 {
        Some('\u{10}')
    } else if code == 17 {
        Some('\u{11}')
    } else if code == 18 {
        Some('\u{12}')
    } else if code == 19 {
        Some('\u{13}')
    } else if code == 20 {
        Some('\u{14}')
    } else if code == 21 {
        Some('\u{15}')
    } else if code == 22 {
        Some('\u{16}')
    } else if code == 23 {
        Some('\u{17}')
    } else if code == 24 {
        Some('\u{18}')
    } else if code == 25 {
        Some('\u{19}')
    } else if code == 26 {
        Some('\u{1a}')
    } else if code == 27 {
        Some('\u{1b}')
    } else if code == 28 {
        Some('\u{1c}')
    } else if code == 29 {
        Some('\u{1d}')
    } else if code == 30 {
        Some('\u{1e}')
    } else if code == 31 {
        Some('\u{1f}')
    } else {
        None
    }
}

/// Prepends the chunk's character to a scan of the rest.
pub open spec fn scan_push(r: Option<(Seq<char>, int)>, c: char) -> Option<(Seq<char>, int)> {
    match r {
        Some(p) => Some((seq![c] + p.0, p.1)),
        None => None,
    }
}

/// Scanning a JSON string's content from `i` up to its closing quote:
/// the unescaped text and the position after the quote.  One chunk — a
/// plain character or one escape — is read per step.
pub open spec fn spec_scan_content(cs: Seq<char>, i: int) -> Option<(Seq<char>, int)>
    decreases cs.len() - i,
{
    if i < 0 || i >= cs.len() {
        None
    } else if cs[i] == '"' {
        Some((Seq::<char>::empty(), i + 1))
    } else if cs[i] == '\\' {
        if i + 1 >= cs.len() {
            None
        } else {
            let e = cs[i + 1];
            if e == '"' {
                scan_push(spec_scan_content(cs, i + 2), '"')
            } else if e == '\\' {
                scan_push(spec_scan_content(cs, i + 2), '\\')
            } else if e == 'b' {
                scan_push(spec_scan_content(cs, i + 2), '\u{8}')
            } else if e == 'f' {
                scan_push(spec_scan_content(cs, i + 2), '\u{c}')
            } else if e == 'n' {
                scan_push(spec_scan_content(cs, i + 2), '\n')
            } else if e == 'r' {
                scan_push(spec_scan_content(cs, i + 2), '\r')
            } else if e == 'u' {
                if i + 6 > cs.len() {
                    None
                } else if cs[i + 2] != '0' || cs[i + 3] != '0' {
                    None
                } else {
                    match (hex_val(cs[i + 4]), hex_val(cs[i + 5])) {
                        (Some(hi), Some(lo)) => match spec_control_char((hi * 16 + lo) as u8) {
                            Some(c) => scan_push(spec_scan_content(cs, i + 6), c),
                            None => None,
                        },
                        _ => None,
                    }
                }
            } else if e == 't' {
                scan_push(spec_scan_content(cs, i + 2), '\t')
            } else {
                None
            }
        }
    } else {
        scan_push(spec_scan_content(cs, i + 1), cs[i])
    }
}

/// Reading a JSON string whose opening quote stands at `pos`.
pub open spec fn spec_parse_string(cs: Seq<char>, pos: int) -> Option<(Seq<char>, int)> {
    if 0 <= pos < cs.len() && cs[pos] == '"' {
        spec_scan_content(cs, pos + 1)
    } else {
        None
    }
}

/// Reading a quoted identity whose opening quote stands at `pos`.
pub open spec fn spec_parse_quoted_uuid(cs: Seq<char>, pos: int) -> Option<(u128, int)> {
    if 0 <= pos && pos + 38 <= cs.len() && cs[pos] == '"' && cs[pos + 37] == '"' {
        match crate::ids::uuid_parse(cs.subrange(pos + 1, pos + 37)) {
            Some(v) => Some((v, pos + 38)),
            None => None,
        }
    } else {
        None
    }
}

/// The position after `lit`, when `cs` carries exactly `lit` at `pos`.
pub open spec fn spec_expect_lit(cs: Seq<char>, pos: int, lit: Seq<char>) -> Option<int> {
    if 0 <= pos && pos + lit.len() <= cs.len() && cs.subrange(pos, pos + lit.len()) == lit {
        Some(pos + lit.len())
    } else {
        None
    }
}

/// Reading a user reference object at `pos`.
pub open spec fn spec_parse_user(cs: Seq<char>, pos: int) -> Option<(UserInfoV, int)> {
    match spec_expect_lit(cs, pos, "{\"id\":"@) {
        Some(p1) => match spec_parse_quoted_uuid(cs, p1) {
            Some((id, p2)) => match spec_expect_lit(cs, p2, ",\"username\":"@) {
                Some(p3) => match spec_parse_string(cs, p3) {
                    Some((username, p4)) => match spec_expect_lit(cs, p4, "}"@) {
                        Some(p5) => Some((UserInfoV { id, username }, p5)),
                        None => None,
                    },
                    None => None,
                },
                None => None,
            },
            None => None,
        },
        None => None,
    }
}

/// Reading a room reference object at `pos`.
pub open spec fn spec_parse_room(cs: Seq<char>, pos: int) -> Option<(RoomInfoV, int)> {
    match spec_expect_lit(cs, pos, "{\"id\":"@) {
        Some(p1) => match spec_parse_quoted_uuid(cs, p1) {
            Some((id, p2)) => match spec_expect_lit(cs, p2, ",\"name\":"@) {
                Some(p3) => match spec_parse_string(cs, p3) {
                    Some((name, p4)) => match spec_expect_lit(cs, p4, "}"@) {
                        Some(p5) => Some((RoomInfoV { id, name }, p5)),
                        None => None,
                    },
                    None => None,
                },
                None => None,
            },
            None => None,
        },
        None => None,
    }
}

/// Reading a chat scope object at `pos`.
pub open spec fn spec_parse_scope(cs: Seq<char>, pos: int) -> Option<(ChatScopeV, int)> {
    match spec_expect_lit(cs, pos, "{\"scope\":\"Global\"}"@) {
        Some(p1) => Some((ChatScopeV::Global, p1)),
        None => match spec_expect_lit(cs, pos, "{\"scope\":\"Room\",\"details\":{\"room\":"@) {
            Some(p1) => match spec_parse_room(cs, p1) {
                Some((room, p2)) => match spec_expect_lit(cs, p2, "}}"@) {
                    Some(p3) => Some((ChatScopeV::Room { room }, p3)),
                    None => None,
                },
                None => None,
            },
            None => None,
        },
    }
}

/// Reading a domain-error object's message once its kind literal
/// matched.
pub open spec fn spec_parse_error_message(cs: Seq<char>, p1: int) -> Option<(Seq<char>, int)> {
    match spec_parse_string(cs, p1) {
        Some((message, p2)) => match spec_expect_lit(cs, p2, "}}"@) {
            Some(p3) => Some((message, p3)),
            None => None,
        },
        None => None,
    }
}

/// Reading a domain-error object at `pos`: the kind tag, then its
/// message.
pub open spec fn spec_parse_error(cs: Seq<char>, pos: int) -> Option<(ErrorCodeV, int)> {
    match spec_expect_lit(cs, pos, "{\"error_type\":\"RoomNotFound\",\"details\":{\"message\":"@) {
        Some(p1) => match spec_parse_error_message(cs, p1) {
            Some((message, p3)) => Some((ErrorCodeV::RoomNotFound { message }, p3)),
            None => None,
        },
        None => match spec_expect_lit(
            cs,
            pos,
            "{\"error_type\":\"RoomAlreadyExists\",\"details\":{\"message\":"@,
        ) {
            Some(p1) => match spec_parse_error_message(cs, p1) {
                Some((message, p3)) => Some((ErrorCodeV::RoomAlreadyExists { message }, p3)),
                None => None,
            },
            None => match spec_expect_lit(
                cs,
                pos,
                "{\"error_type\":\"AlreadyInRoom\",\"details\":{\"message\":"@,
            ) {
                Some(p1) => match spec_parse_error_message(cs, p1) {
                    Some((message, p3)) => Some((ErrorCodeV::AlreadyInRoom { message }, p3)),
                    None => None,
                },
                None => match spec_expect_lit(
                    cs,
                    pos,
                    "{\"error_type\":\"InvalidRoomId\",\"details\":{\"message\":"@,
                ) {
                    Some(p1) => match spec_parse_error_message(cs, p1) {
                        Some((message, p3)) => Some((ErrorCodeV::InvalidRoomId { message }, p3)),
                        None => None,
                    },
                    None => match spec_expect_lit(
                        cs,
                        pos,
                        "{\"error_type\":\"PermissionDenied\",\"details\":{\"message\":"@,
                    ) {
                        Some(p1) => match spec_parse_error_message(cs, p1) {
                            Some((message, p3)) => Some(
                                (ErrorCodeV::PermissionDenied { message }, p3),
                            ),
                            None => None,
                        },
                        None => None,
                    },
                },
            },
        },
    }
}

/// Reading one whole frame: the tag dispatch, then the variant's
/// payload.  A `Ping` frame must be the whole text; other variants are
/// read up to their closing braces.
pub open spec fn spec_parse_event(cs: Seq<char>) -> Option<EventV> {
    if spec_expect_lit(cs, 0, "{\"event\":\"Ping\"}"@) == Some(cs.len() as int) {
        Some(EventV::Ping)
    } else {
        match spec_expect_lit(cs, 0, "{\"event\":\"Join\",\"data\":{\"username\":"@) {
            Some(p1) => match spec_parse_string(cs, p1) {
                Some((username, p2)) => match spec_expect_lit(cs, p2, "}}"@) {
                    Some(_) => Some(EventV::Join { username }),
                    None => None,
                },
                None => None,
            },
            None => match spec_expect_lit(cs, 0, "{\"event\":\"AssignedId\",\"data\":{\"user_id\":"@) {
                Some(p1) => match spec_parse_quoted_uuid(cs, p1) {
                    Some((user_id, p2)) => match spec_expect_lit(cs, p2, "}}"@) {
                        Some(_) => Some(EventV::AssignedId { user_id }),
                        None => None,
                    },
                    None => None,
                },
                None => match spec_expect_lit(cs, 0, "{\"event\":\"AckDelivered\",\"data\":{\"id\":"@) {
                    Some(p1) => match spec_parse_quoted_uuid(cs, p1) {
                        Some((id, p2)) => match spec_expect_lit(cs, p2, "}}"@) {
                            Some(_) => Some(EventV::AckDelivered { id }),
                            None => None,
                        },
                        None => None,
                    },
                    None => match spec_expect_lit(cs, 0, "{\"event\":\"Chat\",\"data\":{\"id\":"@) {
                        Some(p1) => spec_parse_chat_payload(cs, p1),
                        None => match spec_expect_lit(
                            cs,
                            0,
                            "{\"event\":\"CreateRoom\",\"data\":{\"creator\":"@,
                        ) {
                            Some(p1) => match spec_parse_user(cs, p1) {
                                Some((creator, p2)) => match spec_expect_lit(
                                    cs,
                                    p2,
                                    ",\"room_name\":"@,
                                ) {
                                    Some(p3) => match spec_parse_string(cs, p3) {
                                        Some((room_name, p4)) => match spec_expect_lit(
                                            cs,
                                            p4,
                                            "}}"@,
                                        ) {
                                            Some(_) => Some(EventV::CreateRoom { creator, room_name }),
                                            None => None,
                                        },
                                        None => None,
                                    },
                                    None => None,
                                },
                                None => None,
                            },
                            None => match spec_expect_lit(
                                cs,
                                0,
                                "{\"event\":\"JoinRoom\",\"data\":{\"user\":"@,
                            ) {
                                Some(p1) => match spec_parse_membership_payload(cs, p1) {
                                    Some((user, room, p4)) => Some(EventV::JoinRoom { user, room }),
                                    None => None,
                                },
                                None => match spec_expect_lit(
                                    cs,
                                    0,
                                    "{\"event\":\"LeaveRoom\",\"data\":{\"user\":"@,
                                ) {
                                    Some(p1) => match spec_parse_membership_payload(cs, p1) {
                                        Some((user, room, p4)) => Some(
                                            EventV::LeaveRoom { user, room },
                                        ),
                                        None => None,
                                    },
                                    None => match spec_expect_lit(
                                        cs,
                                        0,
                                        "{\"event\":\"Error\",\"data\":{\"error\":"@,
                                    ) {
                                        Some(p1) => match spec_parse_error(cs, p1) {
                                            Some((error, p2)) => match spec_expect_lit(
                                                cs,
                                                p2,
                                                "}}"@,
                                            ) {
                                                Some(_) => Some(EventV::Error { error }),
                                                None => None,
                                            },
                                            None => None,
                                        },
                                        None => None,
                                    },
                                },
                            },
                        },
                    },
                },
            },
        }
    }
}

/// Reading a chat payload after its tag: correlation id, sender,
/// content, scope.
pub open spec fn spec_parse_chat_payload(cs: Seq<char>, p1: int) -> Option<EventV> {
    match spec_parse_quoted_uuid(cs, p1) {
        Some((id, p2)) => match spec_expect_lit(cs, p2, ",\"sender\":"@) {
            Some(p3) => match spec_parse_user(cs, p3) {
                Some((sender, p4)) => match spec_expect_lit(cs, p4, ",\"content\":"@) {
                    Some(p5) => match spec_parse_string(cs, p5) {
                        Some((content, p6)) => match spec_expect_lit(cs, p6, ",\"scope\":"@) {
                            Some(p7) => match spec_parse_scope(cs, p7) {
                                Some((scope, p8)) => match spec_expect_lit(cs, p8, "}}"@) {
                                    Some(_) => Some(EventV::Chat { id, sender, content, scope }),
                                    None => None,
                                },
                                None => None,
                            },
                            None => None,
                        },
                        None => None,
                    },
                    None => None,
                },
                None => None,
            },
            None => None,
        },
        None => None,
    }
}

/// Reading a join/leave payload after its tag and `"user":` field: the
/// user, then the room, then the closing braces.
pub open spec fn spec_parse_membership_payload(cs: Seq<char>, p1: int) -> Option<
    (UserInfoV, RoomInfoV, int),
> {
    match spec_parse_user(cs, p1) {
        Some((user, p2)) => match spec_expect_lit(cs, p2, ",\"room\":"@) {
            Some(p3) => match spec_parse_room(cs, p3) {
                Some((room, p4)) => match spec_expect_lit(cs, p4, "}}"@) {
                    Some(p5) => Some((user, room, p5)),
                    None => None,
                },
                None => None,
            },
            None => None,
        },
        None => None,
    }
}

/// Prepending an already-read prefix to a scan of the rest.
pub open spec fn opt_prepend(prefix: Seq<char>, r: Option<(Seq<char>, int)>) -> Option<
    (Seq<char>, int),
> {
    match r {
        Some(p) => Some((prefix + p.0, p.1)),
        None => None,
    }
}

/// Prepending nothing changes nothing.
proof fn lemma_opt_prepend_empty(r: Option<(Seq<char>, int)>)
    ensures
        opt_prepend(Seq::<char>::empty(), r) == r,
{
    match r {
        Some((t, e)) => {
            assert(Seq::<char>::empty() + t =~= t);
        },
        None => {},
    }
}

/// Moving one character from the chunk side to the prefix side.
proof fn lemma_opt_prepend_push(prefix: Seq<char>, c: char, r: Option<(Seq<char>, int)>)
    ensures
        opt_prepend(prefix, scan_push(r, c)) == opt_prepend(prefix.push(c), r),
{
    match r {
        Some((t, e)) => {
            assert(prefix + (seq![c] + t) =~= prefix.push(c) + t);
        },
        None => {},
    }
}

/// The characters of `s`, in order.
fn to_chars(s: &str) -> (r: Vec<char>)
    ensures
        r@ == s@,
{
    let n = s.unicode_len();
    let mut r: Vec<char> = Vec::new();
    let mut i: usize = 0;
    while i < n
        invariant
            n == s@.len(),
            i <= n,
            r@ =~= s@.take(i as int),
        decreases n - i,
    {
        r.push(s.get_char(i));
        i = i + 1;
    }
    proof {
        assert(s@.take(n as int) =~= s@);
    }
    r
}

/// Whether two texts hold the same characters.
fn eq_str(a: &str, b: &str) -> (r: bool)
    ensures
        r == (a@ == b@),
{
    let an = a.unicode_len();
    let bn = b.unicode_len();
    if an != bn {
        proof {
            assert(a@ != b@);
        }
        return false;
    }
    let mut i: usize = 0;
    while i < an
        invariant
            an == a@.len(),
            an == b@.len(),
            i <= an,
            forall|k: int| 0 <= k < i ==> a@[k] == b@[k],
        decreases an - i,
    {
        if a.get_char(i) != b.get_char(i) {
            proof {
                assert(a@[i as int] != b@[i as int]);
            }
            return false;
        }
        i = i + 1;
    }
    proof {
        assert(a@ =~= b@);
    }
    true
}

/// The position after `lit`, when `cs` carries exactly `lit` at `pos`.
fn expect_lit(cs: &Vec<char>, pos: usize, lit: &str) -> (r: Option<usize>)
    ensures
        match r {
            Some(p2) => spec_expect_lit(cs@, pos as int, lit@) == Some(p2 as int),
            None => spec_expect_lit(cs@, pos as int, lit@) is None,
        },
{
    let n = cs.len();
    let pn = lit.unicode_len();
    if pos > n || n - pos < pn {
        proof {
            assert(spec_expect_lit(cs@, pos as int, lit@) is None);
        }
        return None;
    }
    let mut j: usize = 0;
    while j < pn
        invariant
            n == cs@.len(),
            pn == lit@.len(),
            pos + pn <= n,
            j <= pn,
            forall|k: int| 0 <= k < j ==> cs@[pos + k] == lit@[k],
        decreases pn - j,
    {
        if cs[pos + j] != lit.get_char(j) {
            proof {
                if cs@.subrange(pos as int, pos + pn) == lit@ {
                    assert(cs@.subrange(pos as int, pos + pn)[j as int] == lit@[j as int]);
                }
                assert(spec_expect_lit(cs@, pos as int, lit@) is None);
            }
            return None;
        }
        j = j + 1;
    }
    proof {
        assert(cs@.subrange(pos as int, pos + pn) =~= lit@);
    }
    Some(pos + pn)
}

/// The control character with code `code`, when `code < 32`.
fn control_char(code: u8) -> (r: Option<char>)
    ensures
        r == spec_control_char(code),
{
    match code {
        0 => Some('\u{0}'),
        1 => Some('\u{1}'),
        2 => Some('\u{2}'),
        3 => Some('\u{3}'),
        4 => Some('\u{4}'),
        5 => Some('\u{5}'),
        6 => Some('\u{6}'),
        7 => Some('\u{7}'),
        8 => Some('\u{8}'),
        9 => Some('\u{9}'),
        10 => Some('\u{a}'),
        11 => Some('\u{b}'),
        12 => Some('\u{c}'),
        13 => Some('\u{d}'),
        14 => Some('\u{e}'),
        15 => Some('\u{f}'),
        16 => Some('\u{10}'),
        17 => Some('\u{11}'),
        18 => Some('\u{12}'),
        19 => Some('\u{13}'),
        20 => Some('\u{14}'),
        21 => Some('\u{15}'),
        22 => Some('\u{16}'),
        23 => Some('\u{17}'),
        24 => Some('\u{18}'),
        25 => Some('\u{19}'),
        26 => Some('\u{1a}'),
        27 => Some('\u{1b}'),
        28 => Some('\u{1c}'),
        29 => Some('\u{1d}'),
        30 => Some('\u{1e}'),
        31 => Some('\u{1f}'),
        _ => None,
    }
}

/// Reads a JSON string starting at the opening quote `pos`; yields the
/// unescaped text and the position after the closing quote.
fn parse_string(cs: &Vec<char>, pos: usize) -> (r: Option<(String, usize)>)
    ensures
        match r {
            Some(p) => spec_parse_string(cs@, pos as int) == Some((p.0@, p.1 as int)),
            None => spec_parse_string(cs@, pos as int) is None,
        },
{
    let n = cs.len();
    if pos >= n || cs[pos] != '"' {
        return None;
    }
    let mut out = String::new();
    let mut i: usize = pos + 1;
    proof {
        lemma_opt_prepend_empty(spec_scan_content(cs@, pos + 1));
    }
    while i < n
        invariant
            n == cs@.len(),
            pos < n,
            cs@[pos as int] == '"',
            pos + 1 <= i <= n,
            spec_parse_string(cs@, pos as int) == opt_prepend(
                out@,
                spec_scan_content(cs@, i as int),
            ),
        decreases n - i,
    {
        let ghost i0 = i as int;
        let ghost out0 = out@;
        let c = cs[i];
        if c == '"' {
            proof {
                assert(spec_scan_content(cs@, i0) == Some((Seq::<char>::empty(), i0 + 1)));
                assert(out0 + Seq::<char>::empty() =~= out0);
            }
            return Some((out, i + 1));
        }
        if c == '\\' {
            if n - i < 2 {
                proof {
                    assert(spec_scan_content(cs@, i0) is None);
                }
                return None;
            }
            let e = cs[i + 1];
            if e == '"' {
                push_char(&mut out, '"');
                proof {
                    assert(spec_scan_content(cs@, i0) == scan_push(
                        spec_scan_content(cs@, i0 + 2),
                        '"',
                    ));
                    lemma_opt_prepend_push(out0, '"', spec_scan_content(cs@, i0 + 2));
                }
                i = i + 2;
            } else if e == '\\' {
                push_char(&mut out, '\\');
                proof {
                    assert(spec_scan_content(cs@, i0) == scan_push(
                        spec_scan_content(cs@, i0 + 2),
                        '\\',
                    ));
                    lemma_opt_prepend_push(out0, '\\', spec_scan_content(cs@, i0 + 2));
                }
                i = i + 2;
            } else if e == 'b' {
                push_char(&mut out, '\u{8}');
                proof {
                    assert(spec_scan_content(cs@, i0) == scan_push(
                        spec_scan_content(cs@, i0 + 2),
                        '\u{8}',
                    ));
                    lemma_opt_prepend_push(out0, '\u{8}', spec_scan_content(cs@, i0 + 2));
                }
                i = i + 2;
            } else if e == 'f' {
                push_char(&mut out, '\u{c}');
                proof {
                    assert(spec_scan_content(cs@, i0) == scan_push(
                        spec_scan_content(cs@, i0 + 2),
                        '\u{c}',
                    ));
                    lemma_opt_prepend_push(out0, '\u{c}', spec_scan_content(cs@, i0 + 2));
                }
                i = i + 2;
            } else if e == 'n' {
                push_char(&mut out, '\n');
                proof {
                    assert(spec_scan_content(cs@, i0) == scan_push(
                        spec_scan_content(cs@, i0 + 2),
                        '\n',
                    ));
                    lemma_opt_prepend_push(out0, '\n', spec_scan_content(cs@, i0 + 2));
                }
                i = i + 2;
            } else if e == 'r' {
                push_char(&mut out, '\r');
                proof {
                    assert(spec_scan_content(cs@, i0) == scan_push(
                        spec_scan_content(cs@, i0 + 2),
                        '\r',
                    ));
                    lemma_opt_prepend_push(out0, '\r', spec_scan_content(cs@, i0 + 2));
                }
                i = i + 2;
            } else if e == 'u' {
                if n - i < 6 {
                    proof {
                        assert(spec_scan_content(cs@, i0) is None);
                    }
                    return None;
                }
                if cs[i + 2] != '0' || cs[i + 3] != '0' {
                    proof {
                        assert(spec_scan_content(cs@, i0) is None);
                    }
                    return None;
                }
                let hi = match hex_digit_val(cs[i + 4]) {
                    Some(v) => v,
                    None => {
                        proof {
                            assert(spec_scan_content(cs@, i0) is None);
                        }
                        return None;
                    },
                };
                let lo = match hex_digit_val(cs[i + 5]) {
                    Some(v) => v,
                    None => {
                        proof {
                            assert(spec_scan_content(cs@, i0) is None);
                        }
                        return None;
                    },
                };
                let decoded = match control_char(hi * 16 + lo) {
                    Some(d) => d,
                    None => {
                        proof {
                            assert(spec_scan_content(cs@, i0) is None);
                        }
                        return None;
                    },
                };
                push_char(&mut out, decoded);
                proof {
                    assert(spec_scan_content(cs@, i0) == scan_push(
                        spec_scan_content(cs@, i0 + 6),
                        decoded,
                    ));
                    lemma_opt_prepend_push(out0, decoded, spec_scan_content(cs@, i0 + 6));
                }
                i = i + 6;
            } else if e == 't' {
                push_char(&mut out, '\t');
                proof {
                    assert(spec_scan_content(cs@, i0) == scan_push(
                        spec_scan_content(cs@, i0 + 2),
                        '\t',
                    ));
                    lemma_opt_prepend_push(out0, '\t', spec_scan_content(cs@, i0 + 2));
                }
                i = i + 2;
            } else {
                proof {
                    assert(spec_scan_content(cs@, i0) is None);
                }
                return None;
            }
        } else {
            push_char(&mut out, c);
            proof {
                assert(spec_scan_content(cs@, i0) == scan_push(
                    spec_scan_content(cs@, i0 + 1),
                    c,
                ));
                lemma_opt_prepend_push(out0, c, spec_scan_content(cs@, i0 + 1));
            }
            i = i + 1;
        }
    }
    proof {
        assert(spec_scan_content(cs@, n as int) is None);
    }
    None
}

/// Reads a quoted identity starting at the opening quote `pos`; yields
/// the identity and the position after the closing quote.
fn parse_quoted_uuid(cs: &Vec<char>, pos: usize) -> (r: Option<(u128, usize)>)
    ensures
        match r {
            Some(p) => spec_parse_quoted_uuid(cs@, pos as int) == Some((p.0, p.1 as int)),
            None => spec_parse_quoted_uuid(cs@, pos as int) is None,
        },
{
    let n = cs.len();
    if pos >= n || cs[pos] != '"' {
        proof {
            assert(spec_parse_quoted_uuid(cs@, pos as int) is None);
        }
        return None;
    }
    if n - pos < 38 {
        proof {
            assert(spec_parse_quoted_uuid(cs@, pos as int) is None);
        }
        return None;
    }
    if cs[pos + 37] != '"' {
        proof {
            assert(spec_parse_quoted_uuid(cs@, pos as int) is None);
        }
        return None;
    }
    let mut text = String::new();
    let mut j: usize = 0;
    while j < 36
        invariant
            n == cs@.len(),
            pos + 38 <= n,
            j <= 36,
            text@ =~= cs@.subrange(pos + 1, pos + 1 + j),
        decreases 36 - j,
    {
        push_char(&mut text, cs[pos + 1 + j]);
        proof {
            assert(text@ =~= cs@.subrange(pos + 1, pos + 1 + j + 1));
        }
        j = j + 1;
    }
    proof {
        assert(text@ =~= cs@.subrange(pos + 1, pos + 37));
    }
    match parse_uuid(text.as_str()) {
        Some(v) => Some((v, pos + 38)),
        None => {
            proof {
                assert(spec_parse_quoted_uuid(cs@, pos as int) is None);
            }
            None
        },
    }
}

/// Reads a user reference object at `pos`.
fn parse_user(cs: &Vec<char>, pos: usize) -> (r: Option<(UserInfo, usize)>)
    ensures
        match r {
            Some(p) => spec_parse_user(cs@, pos as int) == Some((p.0@, p.1 as int)),
            None => spec_parse_user(cs@, pos as int) is None,
        },
{
    let p1 = match expect_lit(cs, pos, "{\"id\":") {
        Some(p) => p,
        None => {
            return None;
        },
    };
    let (id, p2) = match parse_quoted_uuid(cs, p1) {
        Some(p) => p,
        None => {
            return None;
        },
    };
    let p3 = match expect_lit(cs, p2, ",\"username\":") {
        Some(p) => p,
        None => {
            return None;
        },
    };
    let (username, p4) = match parse_string(cs, p3) {
        Some(p) => p,
        None => {
            return None;
        },
    };
    let p5 = match expect_lit(cs, p4, "}") {
        Some(p) => p,
        None => {
            return None;
        },
    };
    Some((UserInfo { id, username }, p5))
}

/// Reads a room reference object at `pos`.
fn parse_room(cs: &Vec<char>, pos: usize) -> (r: Option<(RoomInfo, usize)>)
    ensures
        match r {
            Some(p) => spec_parse_room(cs@, pos as int) == Some((p.0@, p.1 as int)),
            None => spec_parse_room(cs@, pos as int) is None,
        },
{
    let p1 = match expect_lit(cs, pos, "{\"id\":") {
        Some(p) => p,
        None => {
            return None;
        },
    };
    let (id, p2) = match parse_quoted_uuid(cs, p1) {
        Some(p) => p,
        None => {
            return None;
        },
    };
    let p3 = match expect_lit(cs, p2, ",\"name\":") {
        Some(p) => p,
        None => {
            return None;
        },
    };
    let (name, p4) = match parse_string(cs, p3) {
        Some(p) => p,
        None => {
            return None;
        },
    };
    let p5 = match expect_lit(cs, p4, "}") {
        Some(p) => p,
        None => {
            return None;
        },
    };
    Some((RoomInfo { id, name }, p5))
}

/// Reads a chat scope object at `pos`.
fn parse_scope(cs: &Vec<char>, pos: usize) -> (r: Option<(ChatScope, usize)>)
    ensures
        match r {
            Some(p) => spec_parse_scope(cs@, pos as int) == Some((p.0@, p.1 as int)),
            None => spec_parse_scope(cs@, pos as int) is None,
        },
{
    if let Some(p1) = expect_lit(cs, pos, "{\"scope\":\"Global\"}") {
        return Some((ChatScope::Global, p1));
    }
    let p1 = match expect_lit(cs, pos, "{\"scope\":\"Room\",\"details\":{\"room\":") {
        Some(p) => p,
        None => {
            return None;
        },
    };
    let (room, p2) = match parse_room(cs, p1) {
        Some(p) => p,
        None => {
            return None;
        },
    };
    let p3 = match expect_lit(cs, p2, "}}") {
        Some(p) => p,
        None => {
            return None;
        },
    };
    Some((ChatScope::Room { room }, p3))
}

/// Reads a domain-error object's message and closing braces once its
/// kind literal matched.
fn parse_error_message(cs: &Vec<char>, p1: usize) -> (r: Option<(String, usize)>)
    ensures
        match r {
            Some(p) => spec_parse_error_message(cs@, p1 as int) == Some((p.0@, p.1 as int)),
            None => spec_parse_error_message(cs@, p1 as int) is None,
        },
{
    let (message, p2) = match parse_string(cs, p1) {
        Some(p) => p,
        None => {
            return None;
        },
    };
    let p3 = match expect_lit(cs, p2, "}}") {
        Some(p) => p,
        None => {
            return None;
        },
    };
    Some((message, p3))
}

/// Reads a domain-error object at `pos`: the error kind tag, then its
/// message.
fn parse_error(cs: &Vec<char>, pos: usize) -> (r: Option<(ErrorCode, usize)>)
    ensures
        match r {
            Some(p) => spec_parse_error(cs@, pos as int) == Some((p.0@, p.1 as int)),
            None => spec_parse_error(cs@, pos as int) is None,
        },
{
    if let Some(p1) = expect_lit(cs, pos, "{\"error_type\":\"RoomNotFound\",\"details\":{\"message\":") {
        return match parse_error_message(cs, p1) {
            Some((message, p3)) => Some((ErrorCode::RoomNotFound { message }, p3)),
            None => None,
        };
    }
    if let Some(p1) = expect_lit(
        cs,
        pos,
        "{\"error_type\":\"RoomAlreadyExists\",\"details\":{\"message\":",
    ) {
        return match parse_error_message(cs, p1) {
            Some((message, p3)) => Some((ErrorCode::RoomAlreadyExists { message }, p3)),
            None => None,
        };
    }
    if let Some(p1) = expect_lit(cs, pos, "{\"error_type\":\"AlreadyInRoom\",\"details\":{\"message\":") {
        return match parse_error_message(cs, p1) {
            Some((message, p3)) => Some((ErrorCode::AlreadyInRoom { message }, p3)),
            None => None,
        };
    }
    if let Some(p1) = expect_lit(cs, pos, "{\"error_type\":\"InvalidRoomId\",\"details\":{\"message\":") {
        return match parse_error_message(cs, p1) {
            Some((message, p3)) => Some((ErrorCode::InvalidRoomId { message }, p3)),
            None => None,
        };
    }
    if let Some(p1) = expect_lit(
        cs,
        pos,
        "{\"error_type\":\"PermissionDenied\",\"details\":{\"message\":",
    ) {
        return match parse_error_message(cs, p1) {
            Some((message, p3)) => Some((ErrorCode::PermissionDenied { message }, p3)),
            None => None,
        };
    }
    None
}

/// A region equal to a concatenation splits into its two parts.
proof fn lemma_split_region(cs: Seq<char>, p: int, a: Seq<char>, b: Seq<char>)
    requires
        0 <= p,
        p + a.len() + b.len() <= cs.len(),
        cs.subrange(p, p + a.len() + b.len()) == a + b,
    ensures
        cs.subrange(p, p + a.len()) == a,
        cs.subrange(p + a.len(), p + a.len() + b.len()) == b,
{
    assert forall|k: int| 0 <= k < a.len() implies cs[p + k] == a[k] by {
        assert(cs.subrange(p, p + a.len() + b.len())[k] == (a + b)[k]);
        assert((a + b)[k] == a[k]);
    }
    assert(cs.subrange(p, p + a.len()) =~= a);
    assert forall|k: int| 0 <= k < b.len() implies cs[p + a.len() + k] == b[k] by {
        assert(cs.subrange(p, p + a.len() + b.len())[a.len() + k] == (a + b)[a.len() + k]);
        assert((a + b)[a.len() + k] == b[k]);
    }
    assert(cs.subrange(p + a.len(), p + a.len() + b.len()) =~= b);
}

/// The control-character table returns the character with the given
/// code.
proof fn lemma_control_char_code(code: u8)
    requires
        code < 32,
    ensures
        spec_control_char(code) matches Some(c) && (c as u32) == code as u32,
{
}

/// A control character's `\u00XX` escape names exactly its code, and
/// the table maps that code back to the character.
proof fn lemma_control_chunk(c: char)
    requires
        (c as u32) < 32,
    ensures
        ({
            let hi = ((c as u32) / 16) as u8;
            let lo = ((c as u32) % 16) as u8;
            &&& hi < 16
            &&& lo < 16
            &&& hex_val(hex_char(hi)) == Some(hi)
            &&& hex_val(hex_char(lo)) == Some(lo)
            &&& spec_control_char((hi * 16 + lo) as u8) == Some(c)
        }),
{
    let cu = c as u32;
    let hi = (cu / 16) as u8;
    let lo = (cu % 16) as u8;
    assert(hi * 16 + lo == cu);
    lemma_control_char_code((hi * 16 + lo) as u8);
    let c2 = spec_control_char((hi * 16 + lo) as u8)->Some_0;
    assert((c2 as u32) == (c as u32));
    assert(c2 == c);
    assert(spec_control_char((hi * 16 + lo) as u8) == Some(c));
}

/// The scan accepts the escaped form of any text followed by a closing
/// quote, and reads back exactly that text.
#[verifier::rlimit(60)]
proof fn lemma_scan_content_complete(cs: Seq<char>, i: int, t: Seq<char>)
    requires
        0 <= i,
        i + json_escape(t).len() + 1 <= cs.len(),
        cs.subrange(i, i + json_escape(t).len() + 1) == json_escape(t) + "\""@,
    ensures
        spec_scan_content(cs, i) == Some((t, i + json_escape(t).len() + 1)),
    decreases t.len(),
{
    reveal_strlit("\"");
    if t.len() == 0 {
        assert(json_escape(t) =~= Seq::<char>::empty());
        assert(cs[i] == cs.subrange(i, i + 1)[0]);
        assert((json_escape(t) + "\""@)[0] == '"');
        assert(cs[i] == '"');
        assert(spec_scan_content(cs, i) == Some((Seq::<char>::empty(), i + 1)));
        assert(t =~= Seq::<char>::empty());
    } else {
        let c = t[0];
        let rest = t.drop_first();
        assert(t.first() == c);
        assert(json_escape(t) == esc_char(c) + json_escape(rest));
        let ch = esc_char(c);
        let l = ch.len() as int;
        let tailreg = json_escape(rest) + "\""@;
        assert(json_escape(t) + "\""@ =~= ch + tailreg);
        lemma_split_region(cs, i, ch, tailreg);
        assert forall|k: int| 0 <= k < l implies cs[i + k] == ch[k] by {
            assert(cs.subrange(i, i + l)[k] == ch[k]);
        }
        lemma_scan_content_complete(cs, i + l, rest);
        let end = i + json_escape(t).len() + 1;
        assert(end == i + l + json_escape(rest).len() + 1);
        assert(spec_scan_content(cs, i + l) == Some((rest, end)));
        if c == '"' {
            reveal_strlit("\\\"");
            assert(l == 2);
            assert(cs[i + 0] == ch[0] && cs[i + 1] == ch[1]);
            assert(cs[i] == '\\' && cs[i + 1] == '"');
            assert(spec_scan_content(cs, i) == scan_push(spec_scan_content(cs, i + 2), '"'));
        } else if c == '\\' {
            reveal_strlit("\\\\");
            assert(l == 2);
            assert(cs[i + 0] == ch[0] && cs[i + 1] == ch[1]);
            assert(cs[i] == '\\' && cs[i + 1] == '\\');
            assert(spec_scan_content(cs, i) == scan_push(spec_scan_content(cs, i + 2), '\\'));
        } else if c == '\u{8}' {
            reveal_strlit("\\b");
            assert(l == 2);
            assert(cs[i + 0] == ch[0] && cs[i + 1] == ch[1]);
            assert(cs[i] == '\\' && cs[i + 1] == 'b');
            assert(spec_scan_content(cs, i) == scan_push(spec_scan_content(cs, i + 2), '\u{8}'));
        } else if c == '\u{c}' {
            reveal_strlit("\\f");
            assert(l == 2);
            assert(cs[i + 0] == ch[0] && cs[i + 1] == ch[1]);
            assert(cs[i] == '\\' && cs[i + 1] == 'f');
            assert(spec_scan_content(cs, i) == scan_push(spec_scan_content(cs, i + 2), '\u{c}'));
        } else if c == '\n' {
            reveal_strlit("\\n");
            assert(l == 2);
            assert(cs[i + 0] == ch[0] && cs[i + 1] == ch[1]);
            assert(cs[i] == '\\' && cs[i + 1] == 'n');
            assert(spec_scan_content(cs, i) == scan_push(spec_scan_content(cs, i + 2), '\n'));
        } else if c == '\r' {
            reveal_strlit("\\r");
            assert(l == 2);
            assert(cs[i + 0] == ch[0] && cs[i + 1] == ch[1]);
            assert(cs[i] == '\\' && cs[i + 1] == 'r');
            assert(spec_scan_content(cs, i) == scan_push(spec_scan_content(cs, i + 2), '\r'));
        } else if c == '\t' {
            reveal_strlit("\\t");
            assert(l == 2);
            assert(cs[i + 0] == ch[0] && cs[i + 1] == ch[1]);
            assert(cs[i] == '\\' && cs[i + 1] == 't');
            assert(spec_scan_content(cs, i) == scan_push(spec_scan_content(cs, i + 2), '\t'));
        } else if (c as u32) < 32 {
            reveal_strlit("\\u00");
            let cu = c as u32;
            let hi = (cu / 16) as u8;
            let lo = (cu % 16) as u8;
            assert(ch =~= "\\u00"@ + seq![hex_char(hi), hex_char(lo)]);
            assert(l == 6);
            assert(cs[i + 0] == ch[0] && cs[i + 1] == ch[1] && cs[i + 2] == ch[2] && cs[i + 3]
                == ch[3] && cs[i + 4] == ch[4] && cs[i + 5] == ch[5]);
            assert(ch[0] == '\\' && ch[1] == 'u' && ch[2] == '0' && ch[3] == '0');
            assert(ch[4] == hex_char(hi) && ch[5] == hex_char(lo));
            assert(cs[i] == '\\' && cs[i + 1] == 'u' && cs[i + 2] == '0' && cs[i + 3] == '0');
            assert(cs[i + 4] == hex_char(hi) && cs[i + 5] == hex_char(lo));
            lemma_control_chunk(c);
            assert(spec_scan_content(cs, i) == scan_push(spec_scan_content(cs, i + 6), c));
        } else {
            assert(ch =~= seq![c]);
            assert(l == 1);
            assert(cs[i + 0] == ch[0]);
            assert(cs[i] == c);
            assert(c != '"' && c != '\\');
            assert(spec_scan_content(cs, i) == scan_push(spec_scan_content(cs, i + 1), c));
        }
        assert(spec_scan_content(cs, i) == Some((seq![c] + rest, end)));
        assert(seq![c] + rest =~= t);
    }
}

/// A region holding a quoted text reads back as exactly that text.
proof fn lemma_parse_string_complete(cs: Seq<char>, pos: int, t: Seq<char>)
    requires
        0 <= pos,
        pos + quoted(t).len() <= cs.len(),
        cs.subrange(pos, pos + quoted(t).len()) == quoted(t),
    ensures
        spec_parse_string(cs, pos) == Some((t, pos + quoted(t).len())),
{
    reveal_strlit("\"");
    assert(quoted(t) =~= "\""@ + (json_escape(t) + "\""@));
    lemma_split_region(cs, pos, "\""@, json_escape(t) + "\""@);
    assert(cs[pos] == cs.subrange(pos, pos + 1)[0]);
    assert(cs[pos] == '"');
    lemma_scan_content_complete(cs, pos + 1, t);
    assert(spec_parse_string(cs, pos) == spec_scan_content(cs, pos + 1));
    assert(pos + 1 + json_escape(t).len() + 1 == pos + quoted(t).len());
}

/// A region holding a quoted identity reads back as exactly that
/// identity.
proof fn lemma_parse_quoted_uuid_complete(cs: Seq<char>, pos: int, v: u128)
    requires
        0 <= pos,
        pos + 38 <= cs.len(),
        cs.subrange(pos, pos + 38) == quoted_uuid(v),
    ensures
        spec_parse_quoted_uuid(cs, pos) == Some((v, pos + 38)),
{
    reveal_strlit("\"");
    assert(quoted_uuid(v).len() == 38);
    assert(cs[pos] == cs.subrange(pos, pos + 38)[0]);
    assert(cs[pos] == '"');
    assert(cs[pos + 37] == cs.subrange(pos, pos + 38)[37]);
    assert(quoted_uuid(v)[37] == '"');
    assert(cs[pos + 37] == '"');
    assert forall|k: int| 0 <= k < 36 implies cs.subrange(pos + 1, pos + 37)[k] == uuid_seq(v)[k] by {
        assert(cs.subrange(pos, pos + 38)[1 + k] == quoted_uuid(v)[1 + k]);
    }
    assert(cs.subrange(pos + 1, pos + 37) =~= uuid_seq(v));
    crate::ids::lemma_uuid_round_trip(v);
}

/// A region holding an encoded user reference reads back as exactly it.
proof fn lemma_parse_user_complete(cs: Seq<char>, pos: int, u: UserInfoV)
    requires
        0 <= pos,
        pos + enc_user(u).len() <= cs.len(),
        cs.subrange(pos, pos + enc_user(u).len()) == enc_user(u),
    ensures
        spec_parse_user(cs, pos) == Some((u, pos + enc_user(u).len())),
{
    reveal_strlit("\"");
    let a1 = "{\"id\":"@;
    let qa = quoted_uuid(u.id);
    let a2 = ",\"username\":"@;
    let qb = quoted(u.username);
    let a3 = "}"@;
    assert(qa.len() == 38);
    assert(enc_user(u) =~= a1 + (qa + (a2 + (qb + a3))));
    lemma_split_region(cs, pos, a1, qa + (a2 + (qb + a3)));
    let p1 = pos + a1.len() as int;
    assert(spec_expect_lit(cs, pos, a1) == Some(p1));
    lemma_split_region(cs, p1, qa, a2 + (qb + a3));
    lemma_parse_quoted_uuid_complete(cs, p1, u.id);
    let p2 = p1 + 38;
    lemma_split_region(cs, p2, a2, qb + a3);
    let p3 = p2 + a2.len() as int;
    assert(spec_expect_lit(cs, p2, a2) == Some(p3));
    lemma_split_region(cs, p3, qb, a3);
    lemma_parse_string_complete(cs, p3, u.username);
    let p4 = p3 + qb.len() as int;
    assert(spec_expect_lit(cs, p4, a3) == Some(p4 + a3.len()));
    assert(UserInfoV { id: u.id, username: u.username } =~= u);
    assert(spec_parse_user(cs, pos) == Some((u, p4 + a3.len())));
    assert(p4 + a3.len() == pos + enc_user(u).len());
}

/// A region holding an encoded room reference reads back as exactly it.
proof fn lemma_parse_room_complete(cs: Seq<char>, pos: int, r: RoomInfoV)
    requires
        0 <= pos,
        pos + enc_room(r).len() <= cs.len(),
        cs.subrange(pos, pos + enc_room(r).len()) == enc_room(r),
    ensures
        spec_parse_room(cs, pos) == Some((r, pos + enc_room(r).len())),
{
    reveal_strlit("\"");
    let a1 = "{\"id\":"@;
    let qa = quoted_uuid(r.id);
    let a2 = ",\"name\":"@;
    let qb = quoted(r.name);
    let a3 = "}"@;
    assert(qa.len() == 38);
    assert(enc_room(r) =~= a1 + (qa + (a2 + (qb + a3))));
    lemma_split_region(cs, pos, a1, qa + (a2 + (qb + a3)));
    let p1 = pos + a1.len() as int;
    assert(spec_expect_lit(cs, pos, a1) == Some(p1));
    lemma_split_region(cs, p1, qa, a2 + (qb + a3));
    lemma_parse_quoted_uuid_complete(cs, p1, r.id);
    let p2 = p1 + 38;
    lemma_split_region(cs, p2, a2, qb + a3);
    let p3 = p2 + a2.len() as int;
    assert(spec_expect_lit(cs, p2, a2) == Some(p3));
    lemma_split_region(cs, p3, qb, a3);
    lemma_parse_string_complete(cs, p3, r.name);
    let p4 = p3 + qb.len() as int;
    assert(spec_expect_lit(cs, p4, a3) == Some(p4 + a3.len()));
    assert(RoomInfoV { id: r.id, name: r.name } =~= r);
    assert(spec_parse_room(cs, pos) == Some((r, p4 + a3.len())));
    assert(p4 + a3.len() == pos + enc_room(r).len());
}

/// A region holding an encoded scope reads back as exactly it.
proof fn lemma_parse_scope_complete(cs: Seq<char>, pos: int, s: ChatScopeV)
    requires
        0 <= pos,
        pos + enc_scope(s).len() <= cs.len(),
        cs.subrange(pos, pos + enc_scope(s).len()) == enc_scope(s),
    ensures
        spec_parse_scope(cs, pos) == Some((s, pos + enc_scope(s).len())),
{
    let lg = "{\"scope\":\"Global\"}"@;
    let lr = "{\"scope\":\"Room\",\"details\":{\"room\":"@;
    reveal_strlit("{\"scope\":\"Global\"}");
    reveal_strlit("{\"scope\":\"Room\",\"details\":{\"room\":");
    match s {
        ChatScopeV::Global => {
            assert(spec_expect_lit(cs, pos, lg) == Some(pos + lg.len()));
        },
        ChatScopeV::Room { room } => {
            assert(enc_scope(s) =~= lr + (enc_room(room) + "}}"@));
            lemma_split_region(cs, pos, lr, enc_room(room) + "}}"@);
            assert(cs[pos + 10] == cs.subrange(pos, pos + lr.len())[10]);
            assert(cs[pos + 10] == 'R');
            assert(spec_expect_lit(cs, pos, lg) is None) by {
                if pos + lg.len() <= cs.len() && cs.subrange(pos, pos + lg.len()) == lg {
                    assert(cs[pos + 10] == cs.subrange(pos, pos + lg.len())[10]);
                    assert(cs[pos + 10] == 'G');
                }
            }
            let p1 = pos + lr.len() as int;
            assert(spec_expect_lit(cs, pos, lr) == Some(p1));
            lemma_split_region(cs, p1, enc_room(room), "}}"@);
            lemma_parse_room_complete(cs, p1, room);
            let p2 = p1 + enc_room(room).len() as int;
            assert(spec_expect_lit(cs, p2, "}}"@) == Some(p2 + "}}"@.len()));
            assert(ChatScopeV::Room { room } =~= s);
            assert(spec_parse_scope(cs, pos) == Some((s, p2 + "}}"@.len())));
            assert(p2 + "}}"@.len() == pos + enc_scope(s).len());
        },
    }
}

/// A literal other than the region's own prefix cannot match where
/// they differ.
proof fn lemma_lit_mismatch(cs: Seq<char>, pos: int, own: Seq<char>, other: Seq<char>, idx: int)
    requires
        0 <= pos,
        0 <= idx < own.len(),
        idx < other.len(),
        pos + own.len() <= cs.len(),
        cs.subrange(pos, pos + own.len()) == own,
        own[idx] != other[idx],
    ensures
        spec_expect_lit(cs, pos, other) is None,
{
    assert(cs[pos + idx] == cs.subrange(pos, pos + own.len())[idx]);
    assert(cs[pos + idx] == own[idx]);
    if pos + other.len() <= cs.len() && cs.subrange(pos, pos + other.len()) == other {
        assert(cs[pos + idx] == cs.subrange(pos, pos + other.len())[idx]);
        assert(cs[pos + idx] == other[idx]);
    }
}

/// A region holding an encoded error message tail reads back exactly.
proof fn lemma_parse_error_message_complete(cs: Seq<char>, p1: int, message: Seq<char>)
    requires
        0 <= p1,
        p1 + quoted(message).len() + 2 <= cs.len(),
        cs.subrange(p1, p1 + quoted(message).len() + 2) == quoted(message) + "}}"@,
    ensures
        spec_parse_error_message(cs, p1) == Some((message, p1 + quoted(message).len() + 2)),
{
    reveal_strlit("}}");
    assert("}}"@.len() == 2);
    lemma_split_region(cs, p1, quoted(message), "}}"@);
    lemma_parse_string_complete(cs, p1, message);
    let p2 = p1 + quoted(message).len() as int;
    assert(spec_expect_lit(cs, p2, "}}"@) == Some(p2 + "}}"@.len()));
    assert(p2 + "}}"@.len() == p1 + quoted(message).len() + 2);
}

/// A region holding an encoded error object reads back as exactly it.
#[verifier::rlimit(30)]
proof fn lemma_parse_error_complete(cs: Seq<char>, pos: int, e: ErrorCodeV)
    requires
        0 <= pos,
        pos + enc_error(e).len() <= cs.len(),
        cs.subrange(pos, pos + enc_error(e).len()) == enc_error(e),
    ensures
        spec_parse_error(cs, pos) == Some((e, pos + enc_error(e).len())),
{
    let l_rnf = "{\"error_type\":\"RoomNotFound\",\"details\":{\"message\":"@;
    let l_rae = "{\"error_type\":\"RoomAlreadyExists\",\"details\":{\"message\":"@;
    let l_air = "{\"error_type\":\"AlreadyInRoom\",\"details\":{\"message\":"@;
    let l_iri = "{\"error_type\":\"InvalidRoomId\",\"details\":{\"message\":"@;
    let l_pd = "{\"error_type\":\"PermissionDenied\",\"details\":{\"message\":"@;
    reveal_strlit("{\"error_type\":\"RoomNotFound\",\"details\":{\"message\":");
    reveal_strlit("{\"error_type\":\"RoomAlreadyExists\",\"details\":{\"message\":");
    reveal_strlit("{\"error_type\":\"AlreadyInRoom\",\"details\":{\"message\":");
    reveal_strlit("{\"error_type\":\"InvalidRoomId\",\"details\":{\"message\":");
    reveal_strlit("{\"error_type\":\"PermissionDenied\",\"details\":{\"message\":");
    reveal_strlit("}}");
    match e {
        ErrorCodeV::RoomNotFound { message } => {
            assert(enc_error(e) =~= l_rnf + (quoted(message) + "}}"@));
            lemma_split_region(cs, pos, l_rnf, quoted(message) + "}}"@);
            let p1 = pos + l_rnf.len() as int;
            assert(spec_expect_lit(cs, pos, l_rnf) == Some(p1));
            lemma_parse_error_message_complete(cs, p1, message);
            assert(ErrorCodeV::RoomNotFound { message } =~= e);
            assert(spec_parse_error(cs, pos) == Some((e, pos + enc_error(e).len())));
        },
        ErrorCodeV::RoomAlreadyExists { message } => {
            assert(enc_error(e) =~= l_rae + (quoted(message) + "}}"@));
            lemma_split_region(cs, pos, l_rae, quoted(message) + "}}"@);
            lemma_lit_mismatch(cs, pos, l_rae, l_rnf, 19);
            let p1 = pos + l_rae.len() as int;
            assert(spec_expect_lit(cs, pos, l_rae) == Some(p1));
            lemma_parse_error_message_complete(cs, p1, message);
            assert(ErrorCodeV::RoomAlreadyExists { message } =~= e);
            assert(spec_parse_error(cs, pos) == Some((e, pos + enc_error(e).len())));
        },
        ErrorCodeV::AlreadyInRoom { message } => {
            assert(enc_error(e) =~= l_air + (quoted(message) + "}}"@));
            lemma_split_region(cs, pos, l_air, quoted(message) + "}}"@);
            lemma_lit_mismatch(cs, pos, l_air, l_rnf, 15);
            lemma_lit_mismatch(cs, pos, l_air, l_rae, 15);
            let p1 = pos + l_air.len() as int;
            assert(spec_expect_lit(cs, pos, l_air) == Some(p1));
            lemma_parse_error_message_complete(cs, p1, message);
            assert(ErrorCodeV::AlreadyInRoom { message } =~= e);
            assert(spec_parse_error(cs, pos) == Some((e, pos + enc_error(e).len())));
        },
        ErrorCodeV::InvalidRoomId { message } => {
            assert(enc_error(e) =~= l_iri + (quoted(message) + "}}"@));
            lemma_split_region(cs, pos, l_iri, quoted(message) + "}}"@);
            lemma_lit_mismatch(cs, pos, l_iri, l_rnf, 15);
            lemma_lit_mismatch(cs, pos, l_iri, l_rae, 15);
            lemma_lit_mismatch(cs, pos, l_iri, l_air, 15);
            let p1 = pos + l_iri.len() as int;
            assert(spec_expect_lit(cs, pos, l_iri) == Some(p1));
            lemma_parse_error_message_complete(cs, p1, message);
            assert(ErrorCodeV::InvalidRoomId { message } =~= e);
            assert(spec_parse_error(cs, pos) == Some((e, pos + enc_error(e).len())));
        },
        ErrorCodeV::PermissionDenied { message } => {
            assert(enc_error(e) =~= l_pd + (quoted(message) + "}}"@));
            lemma_split_region(cs, pos, l_pd, quoted(message) + "}}"@);
            lemma_lit_mismatch(cs, pos, l_pd, l_rnf, 15);
            lemma_lit_mismatch(cs, pos, l_pd, l_rae, 15);
            lemma_lit_mismatch(cs, pos, l_pd, l_air, 15);
            lemma_lit_mismatch(cs, pos, l_pd, l_iri, 15);
            let p1 = pos + l_pd.len() as int;
            assert(spec_expect_lit(cs, pos, l_pd) == Some(p1));
            lemma_parse_error_message_complete(cs, p1, message);
            assert(ErrorCodeV::PermissionDenied { message } =~= e);
            assert(spec_parse_error(cs, pos) == Some((e, pos + enc_error(e).len())));
        },
    }
}

/// A region holding a user, a `room` field and a room reads back as
/// exactly those.
proof fn lemma_parse_membership_complete(
    cs: Seq<char>,
    p1: int,
    user: UserInfoV,
    room: RoomInfoV,
)
    requires
        0 <= p1,
        ({
            let region = enc_user(user) + (",\"room\":"@ + (enc_room(room) + "}}"@));
            &&& p1 + region.len() <= cs.len()
            &&& cs.subrange(p1, p1 + region.len()) == region
        }),
    ensures
        ({
            let region = enc_user(user) + (",\"room\":"@ + (enc_room(room) + "}}"@));
            spec_parse_membership_payload(cs, p1) == Some((user, room, p1 + region.len()))
        }),
{
    let a = ",\"room\":"@;
    lemma_split_region(cs, p1, enc_user(user), a + (enc_room(room) + "}}"@));
    lemma_parse_user_complete(cs, p1, user);
    let p2 = p1 + enc_user(user).len() as int;
    lemma_split_region(cs, p2, a, enc_room(room) + "}}"@);
    let p3 = p2 + a.len() as int;
    assert(spec_expect_lit(cs, p2, a) == Some(p3));
    lemma_split_region(cs, p3, enc_room(room), "}}"@);
    lemma_parse_room_complete(cs, p3, room);
    let p4 = p3 + enc_room(room).len() as int;
    assert(spec_expect_lit(cs, p4, "}}"@) == Some(p4 + "}}"@.len()));
}

/// A region holding a chat payload reads back as exactly it.
#[verifier::rlimit(30)]
proof fn lemma_parse_chat_payload_complete(
    cs: Seq<char>,
    p1: int,
    id: u128,
    sender: UserInfoV,
    content: Seq<char>,
    scope: ChatScopeV,
)
    requires
        0 <= p1,
        ({
            let region = quoted_uuid(id) + (",\"sender\":"@ + (enc_user(sender) + (",\"content\":"@
                + (quoted(content) + (",\"scope\":"@ + (enc_scope(scope) + "}}"@))))));
            &&& p1 + region.len() <= cs.len()
            &&& cs.subrange(p1, p1 + region.len()) == region
        }),
    ensures
        spec_parse_chat_payload(cs, p1) == Some(EventV::Chat { id, sender, content, scope }),
{
    reveal_strlit("\"");
    let a1 = ",\"sender\":"@;
    let a2 = ",\"content\":"@;
    let a3 = ",\"scope\":"@;
    assert(quoted_uuid(id).len() == 38);
    lemma_split_region(
        cs,
        p1,
        quoted_uuid(id),
        a1 + (enc_user(sender) + (a2 + (quoted(content) + (a3 + (enc_scope(scope) + "}}"@))))),
    );
    lemma_parse_quoted_uuid_complete(cs, p1, id);
    let p2 = p1 + 38;
    lemma_split_region(
        cs,
        p2,
        a1,
        enc_user(sender) + (a2 + (quoted(content) + (a3 + (enc_scope(scope) + "}}"@)))),
    );
    let p3 = p2 + a1.len() as int;
    assert(spec_expect_lit(cs, p2, a1) == Some(p3));
    lemma_split_region(
        cs,
        p3,
        enc_user(sender),
        a2 + (quoted(content) + (a3 + (enc_scope(scope) + "}}"@))),
    );
    lemma_parse_user_complete(cs, p3, sender);
    let p4 = p3 + enc_user(sender).len() as int;
    lemma_split_region(cs, p4, a2, quoted(content) + (a3 + (enc_scope(scope) + "}}"@)));
    let p5 = p4 + a2.len() as int;
    assert(spec_expect_lit(cs, p4, a2) == Some(p5));
    lemma_split_region(cs, p5, quoted(content), a3 + (enc_scope(scope) + "}}"@));
    lemma_parse_string_complete(cs, p5, content);
    let p6 = p5 + quoted(content).len() as int;
    lemma_split_region(cs, p6, a3, enc_scope(scope) + "}}"@);
    let p7 = p6 + a3.len() as int;
    assert(spec_expect_lit(cs, p6, a3) == Some(p7));
    lemma_split_region(cs, p7, enc_scope(scope), "}}"@);
    lemma_parse_scope_complete(cs, p7, scope);
    let p8 = p7 + enc_scope(scope).len() as int;
    assert(spec_expect_lit(cs, p8, "}}"@) == Some(p8 + "}}"@.len()));
}

/// The canonical text of one event variant reads back as exactly it.
#[verifier::rlimit(60)]
proof fn lemma_parse_event_complete_ping()
    ensures
        spec_parse_event(spec_encode(EventV::Ping)) == Some(EventV::Ping),
{
    let e = EventV::Ping;
    let cs = spec_encode(e);
    let l_ping = "{\"event\":\"Ping\"}"@;
    let l_join = "{\"event\":\"Join\",\"data\":{\"username\":"@;
    let l_asg = "{\"event\":\"AssignedId\",\"data\":{\"user_id\":"@;
    let l_ack = "{\"event\":\"AckDelivered\",\"data\":{\"id\":"@;
    let l_chat = "{\"event\":\"Chat\",\"data\":{\"id\":"@;
    let l_cr = "{\"event\":\"CreateRoom\",\"data\":{\"creator\":"@;
    let l_jr = "{\"event\":\"JoinRoom\",\"data\":{\"user\":"@;
    let l_lr = "{\"event\":\"LeaveRoom\",\"data\":{\"user\":"@;
    let l_err = "{\"event\":\"Error\",\"data\":{\"error\":"@;
    reveal_strlit("{\"event\":\"Ping\"}");
    reveal_strlit("{\"event\":\"Join\",\"data\":{\"username\":");
    reveal_strlit("{\"event\":\"AssignedId\",\"data\":{\"user_id\":");
    reveal_strlit("{\"event\":\"AckDelivered\",\"data\":{\"id\":");
    reveal_strlit("{\"event\":\"Chat\",\"data\":{\"id\":");
    reveal_strlit("{\"event\":\"CreateRoom\",\"data\":{\"creator\":");
    reveal_strlit("{\"event\":\"JoinRoom\",\"data\":{\"user\":");
    reveal_strlit("{\"event\":\"LeaveRoom\",\"data\":{\"user\":");
    reveal_strlit("{\"event\":\"Error\",\"data\":{\"error\":");
    reveal_strlit("\"");
    assert(cs.subrange(0, cs.len() as int) =~= cs);

            assert(cs == l_ping);
            assert(cs.len() == 16);
            assert(cs.subrange(0, 16) =~= l_ping);
            assert(spec_expect_lit(cs, 0, l_ping) == Some(cs.len() as int));
    assert(spec_parse_event(cs) == Some(e));
}

/// The canonical text of one event variant reads back as exactly it.
#[verifier::rlimit(60)]
proof fn lemma_parse_event_complete_join(username: Seq<char>)
    ensures
        spec_parse_event(spec_encode(EventV::Join { username })) == Some(EventV::Join { username }),
{
    let e = EventV::Join { username };
    let cs = spec_encode(e);
    let l_ping = "{\"event\":\"Ping\"}"@;
    let l_join = "{\"event\":\"Join\",\"data\":{\"username\":"@;
    let l_asg = "{\"event\":\"AssignedId\",\"data\":{\"user_id\":"@;
    let l_ack = "{\"event\":\"AckDelivered\",\"data\":{\"id\":"@;
    let l_chat = "{\"event\":\"Chat\",\"data\":{\"id\":"@;
    let l_cr = "{\"event\":\"CreateRoom\",\"data\":{\"creator\":"@;
    let l_jr = "{\"event\":\"JoinRoom\",\"data\":{\"user\":"@;
    let l_lr = "{\"event\":\"LeaveRoom\",\"data\":{\"user\":"@;
    let l_err = "{\"event\":\"Error\",\"data\":{\"error\":"@;
    reveal_strlit("{\"event\":\"Ping\"}");
    reveal_strlit("{\"event\":\"Join\",\"data\":{\"username\":");
    reveal_strlit("{\"event\":\"AssignedId\",\"data\":{\"user_id\":");
    reveal_strlit("{\"event\":\"AckDelivered\",\"data\":{\"id\":");
    reveal_strlit("{\"event\":\"Chat\",\"data\":{\"id\":");
    reveal_strlit("{\"event\":\"CreateRoom\",\"data\":{\"creator\":");
    reveal_strlit("{\"event\":\"JoinRoom\",\"data\":{\"user\":");
    reveal_strlit("{\"event\":\"LeaveRoom\",\"data\":{\"user\":");
    reveal_strlit("{\"event\":\"Error\",\"data\":{\"error\":");
    reveal_strlit("\"");
    assert(cs.subrange(0, cs.len() as int) =~= cs);

            assert(cs =~= l_join + (quoted(username) + "}}"@));
            lemma_split_region(cs, 0, l_join, quoted(username) + "}}"@);
            lemma_lit_mismatch(cs, 0, l_join, l_ping, 10);
            let p1 = l_join.len() as int;
            assert(spec_expect_lit(cs, 0, l_join) == Some(p1));
            lemma_split_region(cs, p1, quoted(username), "}}"@);
            lemma_parse_string_complete(cs, p1, username);
            let p2 = p1 + quoted(username).len() as int;
            assert(spec_expect_lit(cs, p2, "}}"@) == Some(p2 + "}}"@.len()));
            assert(EventV::Join { username } =~= e);
    assert(spec_parse_event(cs) == Some(e));
}

/// The canonical text of one event variant reads back as exactly it.
#[verifier::rlimit(60)]
proof fn lemma_parse_event_complete_assigned(user_id: u128)
    ensures
        spec_parse_event(spec_encode(EventV::AssignedId { user_id })) == Some(EventV::AssignedId { user_id }),
{
    let e = EventV::AssignedId { user_id };
    let cs = spec_encode(e);
    let l_ping = "{\"event\":\"Ping\"}"@;
    let l_join = "{\"event\":\"Join\",\"data\":{\"username\":"@;
    let l_asg = "{\"event\":\"AssignedId\",\"data\":{\"user_id\":"@;
    let l_ack = "{\"event\":\"AckDelivered\",\"data\":{\"id\":"@;
    let l_chat = "{\"event\":\"Chat\",\"data\":{\"id\":"@;
    let l_cr = "{\"event\":\"CreateRoom\",\"data\":{\"creator\":"@;
    let l_jr = "{\"event\":\"JoinRoom\",\"data\":{\"user\":"@;
    let l_lr = "{\"event\":\"LeaveRoom\",\"data\":{\"user\":"@;
    let l_err = "{\"event\":\"Error\",\"data\":{\"error\":"@;
    reveal_strlit("{\"event\":\"Ping\"}");
    reveal_strlit("{\"event\":\"Join\",\"data\":{\"username\":");
    reveal_strlit("{\"event\":\"AssignedId\",\"data\":{\"user_id\":");
    reveal_strlit("{\"event\":\"AckDelivered\",\"data\":{\"id\":");
    reveal_strlit("{\"event\":\"Chat\",\"data\":{\"id\":");
    reveal_strlit("{\"event\":\"CreateRoom\",\"data\":{\"creator\":");
    reveal_strlit("{\"event\":\"JoinRoom\",\"data\":{\"user\":");
    reveal_strlit("{\"event\":\"LeaveRoom\",\"data\":{\"user\":");
    reveal_strlit("{\"event\":\"Error\",\"data\":{\"error\":");
    reveal_strlit("\"");
    assert(cs.subrange(0, cs.len() as int) =~= cs);

            assert(quoted_uuid(user_id).len() == 38);
            assert(cs =~= l_asg + (quoted_uuid(user_id) + "}}"@));
            lemma_split_region(cs, 0, l_asg, quoted_uuid(user_id) + "}}"@);
            lemma_lit_mismatch(cs, 0, l_asg, l_ping, 10);
            lemma_lit_mismatch(cs, 0, l_asg, l_join, 10);
            let p1 = l_asg.len() as int;
            assert(spec_expect_lit(cs, 0, l_asg) == Some(p1));
            lemma_split_region(cs, p1, quoted_uuid(user_id), "}}"@);
            lemma_parse_quoted_uuid_complete(cs, p1, user_id);
            let p2 = p1 + 38;
            assert(spec_expect_lit(cs, p2, "}}"@) == Some(p2 + "}}"@.len()));
            assert(EventV::AssignedId { user_id } =~= e);
    assert(spec_parse_event(cs) == Some(e));
}

/// The canonical text of one event variant reads back as exactly it.
#[verifier::rlimit(60)]
proof fn lemma_parse_event_complete_ack(id: u128)
    ensures
        spec_parse_event(spec_encode(EventV::AckDelivered { id })) == Some(EventV::AckDelivered { id }),
{
    let e = EventV::AckDelivered { id };
    let cs = spec_encode(e);
    let l_ping = "{\"event\":\"Ping\"}"@;
    let l_join = "{\"event\":\"Join\",\"data\":{\"username\":"@;
    let l_asg = "{\"event\":\"AssignedId\",\"data\":{\"user_id\":"@;
    let l_ack = "{\"event\":\"AckDelivered\",\"data\":{\"id\":"@;
    let l_chat = "{\"event\":\"Chat\",\"data\":{\"id\":"@;
    let l_cr = "{\"event\":\"CreateRoom\",\"data\":{\"creator\":"@;
    let l_jr = "{\"event\":\"JoinRoom\",\"data\":{\"user\":"@;
    let l_lr = "{\"event\":\"LeaveRoom\",\"data\":{\"user\":"@;
    let l_err = "{\"event\":\"Error\",\"data\":{\"error\":"@;
    reveal_strlit("{\"event\":\"Ping\"}");
    reveal_strlit("{\"event\":\"Join\",\"data\":{\"username\":");
    reveal_strlit("{\"event\":\"AssignedId\",\"data\":{\"user_id\":");
    reveal_strlit("{\"event\":\"AckDelivered\",\"data\":{\"id\":");
    reveal_strlit("{\"event\":\"Chat\",\"data\":{\"id\":");
    reveal_strlit("{\"event\":\"CreateRoom\",\"data\":{\"creator\":");
    reveal_strlit("{\"event\":\"JoinRoom\",\"data\":{\"user\":");
    reveal_strlit("{\"event\":\"LeaveRoom\",\"data\":{\"user\":");
    reveal_strlit("{\"event\":\"Error\",\"data\":{\"error\":");
    reveal_strlit("\"");
    assert(cs.subrange(0, cs.len() as int) =~= cs);

            assert(quoted_uuid(id).len() == 38);
            assert(cs =~= l_ack + (quoted_uuid(id) + "}}"@));
            lemma_split_region(cs, 0, l_ack, quoted_uuid(id) + "}}"@);
            lemma_lit_mismatch(cs, 0, l_ack, l_ping, 10);
            lemma_lit_mismatch(cs, 0, l_ack, l_join, 10);
            lemma_lit_mismatch(cs, 0, l_ack, l_asg, 11);
            let p1 = l_ack.len() as int;
            assert(spec_expect_lit(cs, 0, l_ack) == Some(p1));
            lemma_split_region(cs, p1, quoted_uuid(id), "}}"@);
            lemma_parse_quoted_uuid_complete(cs, p1, id);
            let p2 = p1 + 38;
            assert(spec_expect_lit(cs, p2, "}}"@) == Some(p2 + "}}"@.len()));
            assert(EventV::AckDelivered { id } =~= e);
    assert(spec_parse_event(cs) == Some(e));
}

/// The canonical text of one event variant reads back as exactly it.
#[verifier::rlimit(60)]
proof fn lemma_parse_event_complete_chat(id: u128, sender: UserInfoV, content: Seq<char>, scope: ChatScopeV)
    ensures
        spec_parse_event(spec_encode(EventV::Chat { id, sender, content, scope })) == Some(EventV::Chat { id, sender, content, scope }),
{
    let e = EventV::Chat { id, sender, content, scope };
    let cs = spec_encode(e);
    let l_ping = "{\"event\":\"Ping\"}"@;
    let l_join = "{\"event\":\"Join\",\"data\":{\"username\":"@;
    let l_asg = "{\"event\":\"AssignedId\",\"data\":{\"user_id\":"@;
    let l_ack = "{\"event\":\"AckDelivered\",\"data\":{\"id\":"@;
    let l_chat = "{\"event\":\"Chat\",\"data\":{\"id\":"@;
    let l_cr = "{\"event\":\"CreateRoom\",\"data\":{\"creator\":"@;
    let l_jr = "{\"event\":\"JoinRoom\",\"data\":{\"user\":"@;
    let l_lr = "{\"event\":\"LeaveRoom\",\"data\":{\"user\":"@;
    let l_err = "{\"event\":\"Error\",\"data\":{\"error\":"@;
    reveal_strlit("{\"event\":\"Ping\"}");
    reveal_strlit("{\"event\":\"Join\",\"data\":{\"username\":");
    reveal_strlit("{\"event\":\"AssignedId\",\"data\":{\"user_id\":");
    reveal_strlit("{\"event\":\"AckDelivered\",\"data\":{\"id\":");
    reveal_strlit("{\"event\":\"Chat\",\"data\":{\"id\":");
    reveal_strlit("{\"event\":\"CreateRoom\",\"data\":{\"creator\":");
    reveal_strlit("{\"event\":\"JoinRoom\",\"data\":{\"user\":");
    reveal_strlit("{\"event\":\"LeaveRoom\",\"data\":{\"user\":");
    reveal_strlit("{\"event\":\"Error\",\"data\":{\"error\":");
    reveal_strlit("\"");
    assert(cs.subrange(0, cs.len() as int) =~= cs);

            let payload = quoted_uuid(id) + (",\"sender\":"@ + (enc_user(sender) + (",\"content\":"@
                + (quoted(content) + (",\"scope\":"@ + (enc_scope(scope) + "}}"@))))));
            assert(cs =~= l_chat + payload);
            lemma_split_region(cs, 0, l_chat, payload);
            lemma_lit_mismatch(cs, 0, l_chat, l_ping, 10);
            lemma_lit_mismatch(cs, 0, l_chat, l_join, 10);
            lemma_lit_mismatch(cs, 0, l_chat, l_asg, 10);
            lemma_lit_mismatch(cs, 0, l_chat, l_ack, 10);
            let p1 = l_chat.len() as int;
            assert(spec_expect_lit(cs, 0, l_chat) == Some(p1));
            lemma_parse_chat_payload_complete(cs, p1, id, sender, content, scope);
            assert(EventV::Chat { id, sender, content, scope } =~= e);
    assert(spec_parse_event(cs) == Some(e));
}

/// The canonical text of one event variant reads back as exactly it.
#[verifier::rlimit(60)]
proof fn lemma_parse_event_complete_create(creator: UserInfoV, room_name: Seq<char>)
    ensures
        spec_parse_event(spec_encode(EventV::CreateRoom { creator, room_name })) == Some(EventV::CreateRoom { creator, room_name }),
{
    let e = EventV::CreateRoom { creator, room_name };
    let cs = spec_encode(e);
    let l_ping = "{\"event\":\"Ping\"}"@;
    let l_join = "{\"event\":\"Join\",\"data\":{\"username\":"@;
    let l_asg = "{\"event\":\"AssignedId\",\"data\":{\"user_id\":"@;
    let l_ack = "{\"event\":\"AckDelivered\",\"data\":{\"id\":"@;
    let l_chat = "{\"event\":\"Chat\",\"data\":{\"id\":"@;
    let l_cr = "{\"event\":\"CreateRoom\",\"data\":{\"creator\":"@;
    let l_jr = "{\"event\":\"JoinRoom\",\"data\":{\"user\":"@;
    let l_lr = "{\"event\":\"LeaveRoom\",\"data\":{\"user\":"@;
    let l_err = "{\"event\":\"Error\",\"data\":{\"error\":"@;
    reveal_strlit("{\"event\":\"Ping\"}");
    reveal_strlit("{\"event\":\"Join\",\"data\":{\"username\":");
    reveal_strlit("{\"event\":\"AssignedId\",\"data\":{\"user_id\":");
    reveal_strlit("{\"event\":\"AckDelivered\",\"data\":{\"id\":");
    reveal_strlit("{\"event\":\"Chat\",\"data\":{\"id\":");
    reveal_strlit("{\"event\":\"CreateRoom\",\"data\":{\"creator\":");
    reveal_strlit("{\"event\":\"JoinRoom\",\"data\":{\"user\":");
    reveal_strlit("{\"event\":\"LeaveRoom\",\"data\":{\"user\":");
    reveal_strlit("{\"event\":\"Error\",\"data\":{\"error\":");
    reveal_strlit("\"");
    assert(cs.subrange(0, cs.len() as int) =~= cs);

            let a = ",\"room_name\":"@;
            assert(cs =~= l_cr + (enc_user(creator) + (a + (quoted(room_name) + "}}"@))));
            lemma_split_region(cs, 0, l_cr, enc_user(creator) + (a + (quoted(room_name) + "}}"@)));
            lemma_lit_mismatch(cs, 0, l_cr, l_ping, 10);
            lemma_lit_mismatch(cs, 0, l_cr, l_join, 10);
            lemma_lit_mismatch(cs, 0, l_cr, l_asg, 10);
            lemma_lit_mismatch(cs, 0, l_cr, l_ack, 10);
            lemma_lit_mismatch(cs, 0, l_cr, l_chat, 11);
            let p1 = l_cr.len() as int;
            assert(spec_expect_lit(cs, 0, l_cr) == Some(p1));
            lemma_split_region(cs, p1, enc_user(creator), a + (quoted(room_name) + "}}"@));
            lemma_parse_user_complete(cs, p1, creator);
            let p2 = p1 + enc_user(creator).len() as int;
            lemma_split_region(cs, p2, a, quoted(room_name) + "}}"@);
            let p3 = p2 + a.len() as int;
            assert(spec_expect_lit(cs, p2, a) == Some(p3));
            lemma_split_region(cs, p3, quoted(room_name), "}}"@);
            lemma_parse_string_complete(cs, p3, room_name);
            let p4 = p3 + quoted(room_name).len() as int;
            assert(spec_expect_lit(cs, p4, "}}"@) == Some(p4 + "}}"@.len()));
            assert(EventV::CreateRoom { creator, room_name } =~= e);
    assert(spec_parse_event(cs) == Some(e));
}

/// The canonical text of one event variant reads back as exactly it.
#[verifier::rlimit(60)]
proof fn lemma_parse_event_complete_joinroom(user: UserInfoV, room: RoomInfoV)
    ensures
        spec_parse_event(spec_encode(EventV::JoinRoom { user, room })) == Some(EventV::JoinRoom { user, room }),
{
    let e = EventV::JoinRoom { user, room };
    let cs = spec_encode(e);
    let l_ping = "{\"event\":\"Ping\"}"@;
    let l_join = "{\"event\":\"Join\",\"data\":{\"username\":"@;
    let l_asg = "{\"event\":\"AssignedId\",\"data\":{\"user_id\":"@;
    let l_ack = "{\"event\":\"AckDelivered\",\"data\":{\"id\":"@;
    let l_chat = "{\"event\":\"Chat\",\"data\":{\"id\":"@;
    let l_cr = "{\"event\":\"CreateRoom\",\"data\":{\"creator\":"@;
    let l_jr = "{\"event\":\"JoinRoom\",\"data\":{\"user\":"@;
    let l_lr = "{\"event\":\"LeaveRoom\",\"data\":{\"user\":"@;
    let l_err = "{\"event\":\"Error\",\"data\":{\"error\":"@;
    reveal_strlit("{\"event\":\"Ping\"}");
    reveal_strlit("{\"event\":\"Join\",\"data\":{\"username\":");
    reveal_strlit("{\"event\":\"AssignedId\",\"data\":{\"user_id\":");
    reveal_strlit("{\"event\":\"AckDelivered\",\"data\":{\"id\":");
    reveal_strlit("{\"event\":\"Chat\",\"data\":{\"id\":");
    reveal_strlit("{\"event\":\"CreateRoom\",\"data\":{\"creator\":");
    reveal_strlit("{\"event\":\"JoinRoom\",\"data\":{\"user\":");
    reveal_strlit("{\"event\":\"LeaveRoom\",\"data\":{\"user\":");
    reveal_strlit("{\"event\":\"Error\",\"data\":{\"error\":");
    reveal_strlit("\"");
    assert(cs.subrange(0, cs.len() as int) =~= cs);

            let payload = enc_user(user) + (",\"room\":"@ + (enc_room(room) + "}}"@));
            assert(cs =~= l_jr + payload);
            lemma_split_region(cs, 0, l_jr, payload);
            lemma_lit_mismatch(cs, 0, l_jr, l_ping, 10);
            lemma_lit_mismatch(cs, 0, l_jr, l_join, 14);
            lemma_lit_mismatch(cs, 0, l_jr, l_asg, 10);
            lemma_lit_mismatch(cs, 0, l_jr, l_ack, 10);
            lemma_lit_mismatch(cs, 0, l_jr, l_chat, 10);
            lemma_lit_mismatch(cs, 0, l_jr, l_cr, 10);
            let p1 = l_jr.len() as int;
            assert(spec_expect_lit(cs, 0, l_jr) == Some(p1));
            lemma_parse_membership_complete(cs, p1, user, room);
            assert(EventV::JoinRoom { user, room } =~= e);
    assert(spec_parse_event(cs) == Some(e));
}

/// The canonical text of one event variant reads back as exactly it.
#[verifier::rlimit(60)]
proof fn lemma_parse_event_complete_leaveroom(user: UserInfoV, room: RoomInfoV)
    ensures
        spec_parse_event(spec_encode(EventV::LeaveRoom { user, room })) == Some(EventV::LeaveRoom { user, room }),
{
    let e = EventV::LeaveRoom { user, room };
    let cs = spec_encode(e);
    let l_ping = "{\"event\":\"Ping\"}"@;
    let l_join = "{\"event\":\"Join\",\"data\":{\"username\":"@;
    let l_asg = "{\"event\":\"AssignedId\",\"data\":{\"user_id\":"@;
    let l_ack = "{\"event\":\"AckDelivered\",\"data\":{\"id\":"@;
    let l_chat = "{\"event\":\"Chat\",\"data\":{\"id\":"@;
    let l_cr = "{\"event\":\"CreateRoom\",\"data\":{\"creator\":"@;
    let l_jr = "{\"event\":\"JoinRoom\",\"data\":{\"user\":"@;
    let l_lr = "{\"event\":\"LeaveRoom\",\"data\":{\"user\":"@;
    let l_err = "{\"event\":\"Error\",\"data\":{\"error\":"@;
    reveal_strlit("{\"event\":\"Ping\"}");
    reveal_strlit("{\"event\":\"Join\",\"data\":{\"username\":");
    reveal_strlit("{\"event\":\"AssignedId\",\"data\":{\"user_id\":");
    reveal_strlit("{\"event\":\"AckDelivered\",\"data\":{\"id\":");
    reveal_strlit("{\"event\":\"Chat\",\"data\":{\"id\":");
    reveal_strlit("{\"event\":\"CreateRoom\",\"data\":{\"creator\":");
    reveal_strlit("{\"event\":\"JoinRoom\",\"data\":{\"user\":");
    reveal_strlit("{\"event\":\"LeaveRoom\",\"data\":{\"user\":");
    reveal_strlit("{\"event\":\"Error\",\"data\":{\"error\":");
    reveal_strlit("\"");
    assert(cs.subrange(0, cs.len() as int) =~= cs);

            let payload = enc_user(user) + (",\"room\":"@ + (enc_room(room) + "}}"@));
            assert(cs =~= l_lr + payload);
            lemma_split_region(cs, 0, l_lr, payload);
            lemma_lit_mismatch(cs, 0, l_lr, l_ping, 10);
            lemma_lit_mismatch(cs, 0, l_lr, l_join, 10);
            lemma_lit_mismatch(cs, 0, l_lr, l_asg, 10);
            lemma_lit_mismatch(cs, 0, l_lr, l_ack, 10);
            lemma_lit_mismatch(cs, 0, l_lr, l_chat, 10);
            lemma_lit_mismatch(cs, 0, l_lr, l_cr, 10);
            lemma_lit_mismatch(cs, 0, l_lr, l_jr, 10);
            let p1 = l_lr.len() as int;
            assert(spec_expect_lit(cs, 0, l_lr) == Some(p1));
            lemma_parse_membership_complete(cs, p1, user, room);
            assert(EventV::LeaveRoom { user, room } =~= e);
    assert(spec_parse_event(cs) == Some(e));
}

/// The canonical text of one event variant reads back as exactly it.
#[verifier::rlimit(60)]
proof fn lemma_parse_event_complete_error(error: ErrorCodeV)
    ensures
        spec_parse_event(spec_encode(EventV::Error { error })) == Some(EventV::Error { error }),
{
    let e = EventV::Error { error };
    let cs = spec_encode(e);
    let l_ping = "{\"event\":\"Ping\"}"@;
    let l_join = "{\"event\":\"Join\",\"data\":{\"username\":"@;
    let l_asg = "{\"event\":\"AssignedId\",\"data\":{\"user_id\":"@;
    let l_ack = "{\"event\":\"AckDelivered\",\"data\":{\"id\":"@;
    let l_chat = "{\"event\":\"Chat\",\"data\":{\"id\":"@;
    let l_cr = "{\"event\":\"CreateRoom\",\"data\":{\"creator\":"@;
    let l_jr = "{\"event\":\"JoinRoom\",\"data\":{\"user\":"@;
    let l_lr = "{\"event\":\"LeaveRoom\",\"data\":{\"user\":"@;
    let l_err = "{\"event\":\"Error\",\"data\":{\"error\":"@;
    reveal_strlit("{\"event\":\"Ping\"}");
    reveal_strlit("{\"event\":\"Join\",\"data\":{\"username\":");
    reveal_strlit("{\"event\":\"AssignedId\",\"data\":{\"user_id\":");
    reveal_strlit("{\"event\":\"AckDelivered\",\"data\":{\"id\":");
    reveal_strlit("{\"event\":\"Chat\",\"data\":{\"id\":");
    reveal_strlit("{\"event\":\"CreateRoom\",\"data\":{\"creator\":");
    reveal_strlit("{\"event\":\"JoinRoom\",\"data\":{\"user\":");
    reveal_strlit("{\"event\":\"LeaveRoom\",\"data\":{\"user\":");
    reveal_strlit("{\"event\":\"Error\",\"data\":{\"error\":");
    reveal_strlit("\"");
    assert(cs.subrange(0, cs.len() as int) =~= cs);

            assert(cs =~= l_err + (enc_error(error) + "}}"@));
            lemma_split_region(cs, 0, l_err, enc_error(error) + "}}"@);
            lemma_lit_mismatch(cs, 0, l_err, l_ping, 10);
            lemma_lit_mismatch(cs, 0, l_err, l_join, 10);
            lemma_lit_mismatch(cs, 0, l_err, l_asg, 10);
            lemma_lit_mismatch(cs, 0, l_err, l_ack, 10);
            lemma_lit_mismatch(cs, 0, l_err, l_chat, 10);
            lemma_lit_mismatch(cs, 0, l_err, l_cr, 10);
            lemma_lit_mismatch(cs, 0, l_err, l_jr, 10);
            lemma_lit_mismatch(cs, 0, l_err, l_lr, 10);
            let p1 = l_err.len() as int;
            assert(spec_expect_lit(cs, 0, l_err) == Some(p1));
            lemma_split_region(cs, p1, enc_error(error), "}}"@);
            lemma_parse_error_complete(cs, p1, error);
            let p2 = p1 + enc_error(error).len() as int;
            assert(spec_expect_lit(cs, p2, "}}"@) == Some(p2 + "}}"@.len()));
            assert(EventV::Error { error } =~= e);
    assert(spec_parse_event(cs) == Some(e));
}

/// The canonical text of any event reads back as exactly that event.
proof fn lemma_parse_event_complete(e: EventV)
    ensures
        spec_parse_event(spec_encode(e)) == Some(e),
{
    match e {
        EventV::Ping => lemma_parse_event_complete_ping(),
        EventV::Join { username } => lemma_parse_event_complete_join(username),
        EventV::AssignedId { user_id } => lemma_parse_event_complete_assigned(user_id),
        EventV::AckDelivered { id } => lemma_parse_event_complete_ack(id),
        EventV::Chat { id, sender, content, scope } => lemma_parse_event_complete_chat(
            id,
            sender,
            content,
            scope,
        ),
        EventV::CreateRoom { creator, room_name } => lemma_parse_event_complete_create(
            creator,
            room_name,
        ),
        EventV::JoinRoom { user, room } => lemma_parse_event_complete_joinroom(user, room),
        EventV::LeaveRoom { user, room } => lemma_parse_event_complete_leaveroom(user, room),
        EventV::Error { error } => lemma_parse_event_complete_error(error),
    }
}

/// Reads one whole frame.
fn parse_event(s: &str) -> (r: Option<EventMessage>)
    ensures
        match r {
            Some(ev) => spec_parse_event(s@) == Some(ev@),
            None => spec_parse_event(s@) is None,
        },
{
    let cs = to_chars(s);
    let n = cs.len();
    if let Some(p) = expect_lit(&cs, 0, "{\"event\":\"Ping\"}") {
        if p == n {
            return Some(EventMessage::Ping);
        }
    }
    if let Some(p1) = expect_lit(&cs, 0, "{\"event\":\"Join\",\"data\":{\"username\":") {
        let (username, p2) = match parse_string(&cs, p1) {
            Some(p) => p,
            None => {
                return None;
            },
        };
        return match expect_lit(&cs, p2, "}}") {
            Some(_) => Some(EventMessage::Join { username }),
            None => None,
        };
    }
    if let Some(p1) = expect_lit(&cs, 0, "{\"event\":\"AssignedId\",\"data\":{\"user_id\":") {
        let (user_id, p2) = match parse_quoted_uuid(&cs, p1) {
            Some(p) => p,
            None => {
                return None;
            },
        };
        return match expect_lit(&cs, p2, "}}") {
            Some(_) => Some(EventMessage::AssignedId { user_id }),
            None => None,
        };
    }
    if let Some(p1) = expect_lit(&cs, 0, "{\"event\":\"AckDelivered\",\"data\":{\"id\":") {
        let (id, p2) = match parse_quoted_uuid(&cs, p1) {
            Some(p) => p,
            None => {
                return None;
            },
        };
        return match expect_lit(&cs, p2, "}}") {
            Some(_) => Some(EventMessage::AckDelivered { id }),
            None => None,
        };
    }
    if let Some(p1) = expect_lit(&cs, 0, "{\"event\":\"Chat\",\"data\":{\"id\":") {
        let (id, p2) = match parse_quoted_uuid(&cs, p1) {
            Some(p) => p,
            None => {
                return None;
            },
        };
        let p3 = match expect_lit(&cs, p2, ",\"sender\":") {
            Some(p) => p,
            None => {
                return None;
            },
        };
        let (sender, p4) = match parse_user(&cs, p3) {
            Some(p) => p,
            None => {
                return None;
            },
        };
        let p5 = match expect_lit(&cs, p4, ",\"content\":") {
            Some(p) => p,
            None => {
                return None;
            },
        };
        let (content, p6) = match parse_string(&cs, p5) {
            Some(p) => p,
            None => {
                return None;
            },
        };
        let p7 = match expect_lit(&cs, p6, ",\"scope\":") {
            Some(p) => p,
            None => {
                return None;
            },
        };
        let (scope, p8) = match parse_scope(&cs, p7) {
            Some(p) => p,
            None => {
                return None;
            },
        };
        return match expect_lit(&cs, p8, "}}") {
            Some(_) => Some(EventMessage::Chat { id, sender, content, scope }),
            None => None,
        };
    }
    if let Some(p1) = expect_lit(&cs, 0, "{\"event\":\"CreateRoom\",\"data\":{\"creator\":") {
        let (creator, p2) = match parse_user(&cs, p1) {
            Some(p) => p,
            None => {
                return None;
            },
        };
        let p3 = match expect_lit(&cs, p2, ",\"room_name\":") {
            Some(p) => p,
            None => {
                return None;
            },
        };
        let (room_name, p4) = match parse_string(&cs, p3) {
            Some(p) => p,
            None => {
                return None;
            },
        };
        return match expect_lit(&cs, p4, "}}") {
            Some(_) => Some(EventMessage::CreateRoom { creator, room_name }),
            None => None,
        };
    }
    if let Some(p1) = expect_lit(&cs, 0, "{\"event\":\"JoinRoom\",\"data\":{\"user\":") {
        let (user, p2) = match parse_user(&cs, p1) {
            Some(p) => p,
            None => {
                return None;
            },
        };
        let p3 = match expect_lit(&cs, p2, ",\"room\":") {
            Some(p) => p,
            None => {
                return None;
            },
        };
        let (room, p4) = match parse_room(&cs, p3) {
            Some(p) => p,
            None => {
                return None;
            },
        };
        return match expect_lit(&cs, p4, "}}") {
            Some(_) => Some(EventMessage::JoinRoom { user, room }),
            None => None,
        };
    }
    if let Some(p1) = expect_lit(&cs, 0, "{\"event\":\"LeaveRoom\",\"data\":{\"user\":") {
        let (user, p2) = match parse_user(&cs, p1) {
            Some(p) => p,
            None => {
                return None;
            },
        };
        let p3 = match expect_lit(&cs, p2, ",\"room\":") {
            Some(p) => p,
            None => {
                return None;
            },
        };
        let (room, p4) = match parse_room(&cs, p3) {
            Some(p) => p,
            None => {
                return None;
            },
        };
        return match expect_lit(&cs, p4, "}}") {
            Some(_) => Some(EventMessage::LeaveRoom { user, room }),
            None => None,
        };
    }
    if let Some(p1) = expect_lit(&cs, 0, "{\"event\":\"Error\",\"data\":{\"error\":") {
        let (error, p2) = match parse_error(&cs, p1) {
            Some(p) => p,
            None => {
                return None;
            },
        };
        return match expect_lit(&cs, p2, "}}") {
            Some(_) => Some(EventMessage::Error { error }),
            None => None,
        };
    }
    None
}

/// Decodes one framed text back into the wire event it canonically
/// encodes.  The contract is exact in both directions: whatever comes
/// back as `Some` re-encodes to exactly the input, and every text that
/// is the canonical encoding of some event decodes to that event — so
/// `None` is returned precisely on the texts that encode nothing (an
/// unknown tag, a malformed payload, spare whitespace), which the
/// caller drops with the connection kept open.
pub fn decode(s: &str) -> (r: Option<EventMessage>)
    ensures
        r matches Some(e) ==> spec_encode(e@) == s@,
        forall|e: EventV| s@ == #[trigger] spec_encode(e) ==> (r matches Some(ev) && ev@ == e),
{
    match parse_event(s) {
        Some(e) => {
            let back = encode(&e);
            if eq_str(back.as_str(), s) {
                proof {
                    assert forall|e2: EventV| s@ == #[trigger] spec_encode(e2) implies e@
                        == e2 by {
                        lemma_parse_event_complete(e2);
                    }
                }
                Some(e)
            } else {
                proof {
                    assert forall|e2: EventV| s@ != #[trigger] spec_encode(e2) by {
                        if s@ == spec_encode(e2) {
                            lemma_parse_event_complete(e2);
                            assert(e@ == e2);
                            assert(back@ == spec_encode(e2));
                        }
                    }
                }
                None
            }
        },
        None => {
            proof {
                assert forall|e2: EventV| s@ != #[trigger] spec_encode(e2) by {
                    if s@ == spec_encode(e2) {
                        lemma_parse_event_complete(e2);
                    }
                }
            }
            None
        },
    }
}

} // verus!
