//! The daemon's wire protocol: newline-delimited JSON messages between a
//! client and the terminal-session daemon, with encoders and parsers proved
//! inverse to each other.

use vstd::prelude::*;
use crate::json::{
    Json, JsonV, model_fields, model_items, wf_json, spec_write, spec_parse_json, write_json,
    parse_json, lemma_model_wf, lemma_write_parse_round_trip,
    lemma_write_parse_round_trip_line, lemma_model_fields_index,
    lemma_model_items_index,
};

verus! {

/// Description of one live session, as reported by `List`.
#[derive(Debug)]
pub struct SessionInfo {
    pub id: String,
    pub cwd: Option<String>,
    pub rows: u16,
    pub cols: u16,
    pub alive: bool,
}

/// A command a client sends to the daemon.
#[derive(Clone, Debug)]
pub enum ClientMessage {
    Spawn { session_id: String, cwd: Option<String>, rows: u16, cols: u16 },
    Write { session_id: String, data: String },
    Resize { session_id: String, rows: u16, cols: u16 },
    Attach { session_id: String },
    Detach { session_id: String },
    Kill { session_id: String },
    List,
    Ping,
}

/// A reply or streamed frame the daemon sends to a client.
#[derive(Clone, Debug)]
pub enum ServerMessage {
    Spawned { session_id: String },
    Output { session_id: String, data: String },
    Exited { session_id: String, exit_code: Option<i32> },
    Attached { session_id: String, buffer: String, rows: u16, cols: u16 },
    Sessions { sessions: Vec<SessionInfo> },
    Error { message: String },
    Pong,
    Acked,
}

/// Model of a session description.
pub struct SessionInfoV {
    pub id: Seq<char>,
    pub cwd: Option<Seq<char>>,
    pub rows: u16,
    pub cols: u16,
    pub alive: bool,
}

/// Model of a client command.
pub enum ClientMessageV {
    Spawn { session_id: Seq<char>, cwd: Option<Seq<char>>, rows: u16, cols: u16 },
    Write { session_id: Seq<char>, data: Seq<char> },
    Resize { session_id: Seq<char>, rows: u16, cols: u16 },
    Attach { session_id: Seq<char> },
    Detach { session_id: Seq<char> },
    Kill { session_id: Seq<char> },
    List,
    Ping,
}

/// Model of a daemon reply.
pub enum ServerMessageV {
    Spawned { session_id: Seq<char> },
    Output { session_id: Seq<char>, data: Seq<char> },
    Exited { session_id: Seq<char>, exit_code: Option<i32> },
    Attached { session_id: Seq<char>, buffer: Seq<char>, rows: u16, cols: u16 },
    Sessions { sessions: Seq<SessionInfoV> },
    Error { message: Seq<char> },
    Pong,
    Acked,
}

/// Model of an optional string.
pub open spec fn opt_str_view(o: Option<String>) -> Option<Seq<char>> {
    match o {
        Some(s) => Some(s@),
        None => None,
    }
}

impl View for SessionInfo {
    type V = SessionInfoV;

    open spec fn view(&self) -> SessionInfoV {
        SessionInfoV {
            id: self.id@,
            cwd: opt_str_view(self.cwd),
            rows: self.rows,
            cols: self.cols,
            alive: self.alive,
        }
    }
}

/// Models of a sequence of session descriptions, in order.
pub open spec fn infos_view(s: Seq<SessionInfo>) -> Seq<SessionInfoV> {
    Seq::new(s.len(), |i: int| s[i]@)
}

impl View for ClientMessage {
    type V = ClientMessageV;

    open spec fn view(&self) -> ClientMessageV {
        match self {
            ClientMessage::Spawn { session_id, cwd, rows, cols } => ClientMessageV::Spawn {
                session_id: session_id@,
                cwd: opt_str_view(*cwd),
                rows: *rows,
                cols: *cols,
            },
            ClientMessage::Write { session_id, data } => ClientMessageV::Write {
                session_id: session_id@,
                data: data@,
            },
            ClientMessage::Resize { session_id, rows, cols } => ClientMessageV::Resize {
                session_id: session_id@,
                rows: *rows,
                cols: *cols,
            },
            ClientMessage::Attach { session_id } => ClientMessageV::Attach {
                session_id: session_id@,
            },
            ClientMessage::Detach { session_id } => ClientMessageV::Detach {
                session_id: session_id@,
            },
            ClientMessage::Kill { session_id } => ClientMessageV::Kill { session_id: session_id@ },
            ClientMessage::List => ClientMessageV::List,
            ClientMessage::Ping => ClientMessageV::Ping,
        }
    }
}

impl View for ServerMessage {
    type V = ServerMessageV;

    open spec fn view(&self) -> ServerMessageV {
        match self {
            ServerMessage::Spawned { session_id } => ServerMessageV::Spawned {
                session_id: session_id@,
            },
            ServerMessage::Output { session_id, data } => ServerMessageV::Output {
                session_id: session_id@,
                data: data@,
            },
            ServerMessage::Exited { session_id, exit_code } => ServerMessageV::Exited {
                session_id: session_id@,
                exit_code: *exit_code,
            },
            ServerMessage::Attached { session_id, buffer, rows, cols } => ServerMessageV::Attached {
                session_id: session_id@,
                buffer: buffer@,
                rows: *rows,
                cols: *cols,
            },
            ServerMessage::Sessions { sessions } => ServerMessageV::Sessions {
                sessions: infos_view(sessions@),
            },
            ServerMessage::Error { message } => ServerMessageV::Error { message: message@ },
            ServerMessage::Pong => ServerMessageV::Pong,
            ServerMessage::Acked => ServerMessageV::Acked,
        }
    }
}

// ---------------------------------------------------------------------------
// Encoding to JSON
// ---------------------------------------------------------------------------
/// JSON form of an optional string: the string, or null.
pub open spec fn spec_enc_opt_str(o: Option<Seq<char>>) -> JsonV {
    match o {
        Some(s) => JsonV::Str(s),
        None => JsonV::Null,
    }
}

/// A tagged message without a payload.
pub open spec fn spec_tag_only(tag: Seq<char>) -> JsonV {
    JsonV::Obj(seq![("type"@, JsonV::Str(tag))])
}

/// A tagged message with a payload object.
pub open spec fn spec_tagged(tag: Seq<char>, payload: Seq<(Seq<char>, JsonV)>) -> JsonV {
    JsonV::Obj(seq![("type"@, JsonV::Str(tag)), ("payload"@, JsonV::Obj(payload))])
}

/// JSON form of a client command: a `type` tag and, for non-unit commands, a
/// `payload` object with the fields in declaration order.
pub open spec fn spec_encode_client(m: ClientMessageV) -> JsonV {
    match m {
        ClientMessageV::Spawn { session_id, cwd, rows, cols } => spec_tagged(
            "Spawn"@,
            seq![
                ("session_id"@, JsonV::Str(session_id)),
                ("cwd"@, spec_enc_opt_str(cwd)),
                ("rows"@, JsonV::Int(rows as int)),
                ("cols"@, JsonV::Int(cols as int)),
            ],
        ),
        ClientMessageV::Write { session_id, data } => spec_tagged(
            "Write"@,
            seq![("session_id"@, JsonV::Str(session_id)), ("data"@, JsonV::Str(data))],
        ),
        ClientMessageV::Resize { session_id, rows, cols } => spec_tagged(
            "Resize"@,
            seq![
                ("session_id"@, JsonV::Str(session_id)),
                ("rows"@, JsonV::Int(rows as int)),
                ("cols"@, JsonV::Int(cols as int)),
            ],
        ),
        ClientMessageV::Attach { session_id } => spec_tagged(
            "Attach"@,
            seq![("session_id"@, JsonV::Str(session_id))],
        ),
        ClientMessageV::Detach { session_id } => spec_tagged(
            "Detach"@,
            seq![("session_id"@, JsonV::Str(session_id))],
        ),
        ClientMessageV::Kill { session_id } => spec_tagged(
            "Kill"@,
            seq![("session_id"@, JsonV::Str(session_id))],
        ),
        ClientMessageV::List => spec_tag_only("List"@),
        ClientMessageV::Ping => spec_tag_only("Ping"@),
    }
}

/// JSON form of a session description.
pub open spec fn spec_encode_info(s: SessionInfoV) -> JsonV {
    JsonV::Obj(
        seq![
            ("id"@, JsonV::Str(s.id)),
            ("cwd"@, spec_enc_opt_str(s.cwd)),
            ("rows"@, JsonV::Int(s.rows as int)),
            ("cols"@, JsonV::Int(s.cols as int)),
            ("alive"@, JsonV::Bool(s.alive)),
        ],
    )
}

/// JSON forms of a sequence of session descriptions.
pub open spec fn spec_encode_infos(s: Seq<SessionInfoV>) -> Seq<JsonV> {
    Seq::new(s.len(), |i: int| spec_encode_info(s[i]))
}

/// JSON form of an optional exit code.
pub open spec fn spec_enc_opt_i32(o: Option<i32>) -> JsonV {
    match o {
        Some(n) => JsonV::Int(n as int),
        None => JsonV::Null,
    }
}

/// JSON form of a daemon reply.
pub open spec fn spec_encode_server(m: ServerMessageV) -> JsonV {
    match m {
        ServerMessageV::Spawned { session_id } => spec_tagged(
            "Spawned"@,
            seq![("session_id"@, JsonV::Str(session_id))],
        ),
        ServerMessageV::Output { session_id, data } => spec_tagged(
            "Output"@,
            seq![("session_id"@, JsonV::Str(session_id)), ("data"@, JsonV::Str(data))],
        ),
        ServerMessageV::Exited { session_id, exit_code } => spec_tagged(
            "Exited"@,
            seq![
                ("session_id"@, JsonV::Str(session_id)),
                ("exit_code"@, spec_enc_opt_i32(exit_code)),
            ],
        ),
        ServerMessageV::Attached { session_id, buffer, rows, cols } => spec_tagged(
            "Attached"@,
            seq![
                ("session_id"@, JsonV::Str(session_id)),
                ("buffer"@, JsonV::Str(buffer)),
                ("rows"@, JsonV::Int(rows as int)),
                ("cols"@, JsonV::Int(cols as int)),
            ],
        ),
        ServerMessageV::Sessions { sessions } => spec_tagged(
            "Sessions"@,
            seq![("sessions"@, JsonV::Arr(spec_encode_infos(sessions)))],
        ),
        ServerMessageV::Error { message } => spec_tagged(
            "Error"@,
            seq![("message"@, JsonV::Str(message))],
        ),
        ServerMessageV::Pong => spec_tag_only("Pong"@),
        ServerMessageV::Acked => spec_tag_only("Ok"@),
    }
}

// ---------------------------------------------------------------------------
// Decoding from JSON
// ---------------------------------------------------------------------------
/// The value of the first field with the given key, if any.
pub open spec fn obj_lookup(fields: Seq<(Seq<char>, JsonV)>, key: Seq<char>) -> Option<JsonV>
    decreases fields.len(),
{
    if fields.len() == 0 {
        None
    } else if fields[0].0 == key {
        Some(fields[0].1)
    } else {
        obj_lookup(fields.drop_first(), key)
    }
}

/// A required string field.
pub open spec fn field_str(fields: Seq<(Seq<char>, JsonV)>, key: Seq<char>) -> Option<Seq<char>> {
    match obj_lookup(fields, key) {
        Some(JsonV::Str(s)) => Some(s),
        _ => None,
    }
}

/// An optional string field: absent or null means none.
pub open spec fn field_opt_str(fields: Seq<(Seq<char>, JsonV)>, key: Seq<char>) -> Option<
    Option<Seq<char>>,
> {
    match obj_lookup(fields, key) {
        Some(JsonV::Str(s)) => Some(Some(s)),
        Some(JsonV::Null) => Some(None),
        None => Some(None),
        _ => None,
    }
}

/// A required 16-bit unsigned field.
pub open spec fn field_u16(fields: Seq<(Seq<char>, JsonV)>, key: Seq<char>) -> Option<u16> {
    match obj_lookup(fields, key) {
        Some(JsonV::Int(n)) => if 0 <= n <= 0xffff {
            Some(n as u16)
        } else {
            None
        },
        _ => None,
    }
}

/// An optional 32-bit signed field: absent or null means none.
pub open spec fn field_opt_i32(fields: Seq<(Seq<char>, JsonV)>, key: Seq<char>) -> Option<
    Option<i32>,
> {
    match obj_lookup(fields, key) {
        Some(JsonV::Int(n)) => if i32::MIN <= n <= i32::MAX {
            Some(Some(n as i32))
        } else {
            None
        },
        Some(JsonV::Null) => Some(None),
        None => Some(None),
        _ => None,
    }
}

/// A required boolean field.
pub open spec fn field_bool(fields: Seq<(Seq<char>, JsonV)>, key: Seq<char>) -> Option<bool> {
    match obj_lookup(fields, key) {
        Some(JsonV::Bool(b)) => Some(b),
        _ => None,
    }
}

/// The fields of the payload object of a tagged message; a missing payload
/// reads as an empty object, an ill-typed one fails.
pub open spec fn payload_fields(fields: Seq<(Seq<char>, JsonV)>) -> Option<
    Seq<(Seq<char>, JsonV)>,
> {
    match obj_lookup(fields, "payload"@) {
        Some(JsonV::Obj(p)) => Some(p),
        Some(_) => None,
        None => Some(Seq::empty()),
    }
}

/// Decodes a client command from its JSON form.
pub open spec fn spec_decode_client(v: JsonV) -> Option<ClientMessageV> {
    match v {
        JsonV::Obj(fields) => match field_str(fields, "type"@) {
            Some(tag) => match payload_fields(fields) {
                Some(p) => spec_decode_client_payload(tag, p),
                None => None,
            },
            None => None,
        },
        _ => None,
    }
}

/// Decodes the payload of a client command with the given tag.
pub open spec fn spec_decode_client_payload(tag: Seq<char>, p: Seq<(Seq<char>, JsonV)>) -> Option<
    ClientMessageV,
> {
    if tag == "Spawn"@ {
        match (field_str(p, "session_id"@), field_opt_str(p, "cwd"@), field_u16(p, "rows"@),
        field_u16(p, "cols"@)) {
            (Some(session_id), Some(cwd), Some(rows), Some(cols)) => Some(
                ClientMessageV::Spawn { session_id, cwd, rows, cols },
            ),
            _ => None,
        }
    } else if tag == "Write"@ {
        match (field_str(p, "session_id"@), field_str(p, "data"@)) {
            (Some(session_id), Some(data)) => Some(ClientMessageV::Write { session_id, data }),
            _ => None,
        }
    } else if tag == "Resize"@ {
        match (field_str(p, "session_id"@), field_u16(p, "rows"@), field_u16(p, "cols"@)) {
            (Some(session_id), Some(rows), Some(cols)) => Some(
                ClientMessageV::Resize { session_id, rows, cols },
            ),
            _ => None,
        }
    } else if tag == "Attach"@ {
        match field_str(p, "session_id"@) {
            Some(session_id) => Some(ClientMessageV::Attach { session_id }),
            None => None,
        }
    } else if tag == "Detach"@ {
        match field_str(p, "session_id"@) {
            Some(session_id) => Some(ClientMessageV::Detach { session_id }),
            None => None,
        }
    } else if tag == "Kill"@ {
        match field_str(p, "session_id"@) {
            Some(session_id) => Some(ClientMessageV::Kill { session_id }),
            None => None,
        }
    } else if tag == "List"@ {
        Some(ClientMessageV::List)
    } else if tag == "Ping"@ {
        Some(ClientMessageV::Ping)
    } else {
        None
    }
}

/// Decodes a session description from its JSON form.
pub open spec fn spec_decode_info(v: JsonV) -> Option<SessionInfoV> {
    match v {
        JsonV::Obj(p) => match (field_str(p, "id"@), field_opt_str(p, "cwd"@), field_u16(
            p,
            "rows"@,
        ), field_u16(p, "cols"@), field_bool(p, "alive"@)) {
            (Some(id), Some(cwd), Some(rows), Some(cols), Some(alive)) => Some(
                SessionInfoV { id, cwd, rows, cols, alive },
            ),
            _ => None,
        },
        _ => None,
    }
}

/// Decodes a sequence of session descriptions; all must decode.
pub open spec fn spec_decode_infos(items: Seq<JsonV>) -> Option<Seq<SessionInfoV>>
    decreases items.len(),
{
    if items.len() == 0 {
        Some(Seq::empty())
    } else {
        match (spec_decode_infos(items.drop_last()), spec_decode_info(items.last())) {
            (Some(rest), Some(last)) => Some(rest.push(last)),
            _ => None,
        }
    }
}

/// Decodes a daemon reply from its JSON form.
pub open spec fn spec_decode_server(v: JsonV) -> Option<ServerMessageV> {
    match v {
        JsonV::Obj(fields) => match field_str(fields, "type"@) {
            Some(tag) => match payload_fields(fields) {
                Some(p) => spec_decode_server_payload(tag, p),
                None => None,
            },
            None => None,
        },
        _ => None,
    }
}

/// Decodes the payload of a daemon reply with the given tag.
pub open spec fn spec_decode_server_payload(tag: Seq<char>, p: Seq<(Seq<char>, JsonV)>) -> Option<
    ServerMessageV,
> {
    if tag == "Spawned"@ {
        match field_str(p, "session_id"@) {
            Some(session_id) => Some(ServerMessageV::Spawned { session_id }),
            None => None,
        }
    } else if tag == "Output"@ {
        match (field_str(p, "session_id"@), field_str(p, "data"@)) {
            (Some(session_id), Some(data)) => Some(ServerMessageV::Output { session_id, data }),
            _ => None,
        }
    } else if tag == "Exited"@ {
        match (field_str(p, "session_id"@), field_opt_i32(p, "exit_code"@)) {
            (Some(session_id), Some(exit_code)) => Some(
                ServerMessageV::Exited { session_id, exit_code },
            ),
            _ => None,
        }
    } else if tag == "Attached"@ {
        match (field_str(p, "session_id"@), field_str(p, "buffer"@), field_u16(p, "rows"@),
        field_u16(p, "cols"@)) {
            (Some(session_id), Some(buffer), Some(rows), Some(cols)) => Some(
                ServerMessageV::Attached { session_id, buffer, rows, cols },
            ),
            _ => None,
        }
    } else if tag == "Sessions"@ {
        match obj_lookup(p, "sessions"@) {
            Some(JsonV::Arr(items)) => match spec_decode_infos(items) {
                Some(sessions) => Some(ServerMessageV::Sessions { sessions }),
                None => None,
            },
            _ => None,
        }
    } else if tag == "Error"@ {
        match field_str(p, "message"@) {
            Some(message) => Some(ServerMessageV::Error { message }),
            None => None,
        }
    } else if tag == "Pong"@ {
        Some(ServerMessageV::Pong)
    } else if tag == "Ok"@ {
        Some(ServerMessageV::Acked)
    } else {
        None
    }
}

// ---------------------------------------------------------------------------
// Decoding inverts encoding
// ---------------------------------------------------------------------------
proof fn lemma_obj_lookup_at(fields: Seq<(Seq<char>, JsonV)>, key: Seq<char>, k: int)
    requires
        0 <= k < fields.len(),
        fields[k].0 == key,
        forall|t: int| 0 <= t < k ==> (#[trigger] fields[t]).0 != key,
    ensures
        obj_lookup(fields, key) == Some(fields[k].1),
    decreases k,
{
    if k > 0 {
        assert(fields[0].0 != key);
        assert forall|t: int| 0 <= t < k - 1 implies (#[trigger] fields.drop_first()[t]).0
            != key by {
            assert(fields.drop_first()[t] == fields[t + 1]);
        }
        assert(fields.drop_first()[k - 1] == fields[k]);
        lemma_obj_lookup_at(fields.drop_first(), key, k - 1);
    }
}

proof fn lemma_obj_lookup_absent(fields: Seq<(Seq<char>, JsonV)>, key: Seq<char>)
    requires
        forall|t: int| 0 <= t < fields.len() ==> (#[trigger] fields[t]).0 != key,
    ensures
        obj_lookup(fields, key) == None::<JsonV>,
    decreases fields.len(),
{
    if fields.len() > 0 {
        assert forall|t: int| 0 <= t < fields.drop_first().len() implies (#[trigger]
        fields.drop_first()[t]).0 != key by {
            assert(fields.drop_first()[t] == fields[t + 1]);
        }
        lemma_obj_lookup_absent(fields.drop_first(), key);
    }
}

/// Distinctness of every tag and key of the daemon protocol.
proof fn reveal_protocol_names()
    ensures
        "Spawn"@ != "Write"@,
        "Spawn"@ != "Resize"@,
        "Spawn"@ != "Attach"@,
        "Spawn"@ != "Detach"@,
        "Spawn"@ != "Kill"@,
        "Spawn"@ != "List"@,
        "Spawn"@ != "Ping"@,
        "Write"@ != "Resize"@,
        "Write"@ != "Attach"@,
        "Write"@ != "Detach"@,
        "Write"@ != "Kill"@,
        "Write"@ != "List"@,
        "Write"@ != "Ping"@,
        "Resize"@ != "Attach"@,
        "Resize"@ != "Detach"@,
        "Resize"@ != "Kill"@,
        "Resize"@ != "List"@,
        "Resize"@ != "Ping"@,
        "Attach"@ != "Detach"@,
        "Attach"@ != "Kill"@,
        "Attach"@ != "List"@,
        "Attach"@ != "Ping"@,
        "Detach"@ != "Kill"@,
        "Detach"@ != "List"@,
        "Detach"@ != "Ping"@,
        "Kill"@ != "List"@,
        "Kill"@ != "Ping"@,
        "List"@ != "Ping"@,
        "Spawned"@ != "Output"@,
        "Spawned"@ != "Exited"@,
        "Spawned"@ != "Attached"@,
        "Spawned"@ != "Sessions"@,
        "Spawned"@ != "Error"@,
        "Spawned"@ != "Pong"@,
        "Spawned"@ != "Ok"@,
        "Output"@ != "Exited"@,
        "Output"@ != "Attached"@,
        "Output"@ != "Sessions"@,
        "Output"@ != "Error"@,
        "Output"@ != "Pong"@,
        "Output"@ != "Ok"@,
        "Exited"@ != "Attached"@,
        "Exited"@ != "Sessions"@,
        "Exited"@ != "Error"@,
        "Exited"@ != "Pong"@,
        "Exited"@ != "Ok"@,
        "Attached"@ != "Sessions"@,
        "Attached"@ != "Error"@,
        "Attached"@ != "Pong"@,
        "Attached"@ != "Ok"@,
        "Sessions"@ != "Error"@,
        "Sessions"@ != "Pong"@,
        "Sessions"@ != "Ok"@,
        "Error"@ != "Pong"@,
        "Error"@ != "Ok"@,
        "Pong"@ != "Ok"@,
        "type"@ != "payload"@,
        "type"@ != "session_id"@,
        "type"@ != "cwd"@,
        "type"@ != "rows"@,
        "type"@ != "cols"@,
        "type"@ != "data"@,
        "type"@ != "exit_code"@,
        "type"@ != "buffer"@,
        "type"@ != "sessions"@,
        "type"@ != "message"@,
        "type"@ != "id"@,
        "type"@ != "alive"@,
        "payload"@ != "session_id"@,
        "payload"@ != "cwd"@,
        "payload"@ != "rows"@,
        "payload"@ != "cols"@,
        "payload"@ != "data"@,
        "payload"@ != "exit_code"@,
        "payload"@ != "buffer"@,
        "payload"@ != "sessions"@,
        "payload"@ != "message"@,
        "payload"@ != "id"@,
        "payload"@ != "alive"@,
        "session_id"@ != "cwd"@,
        "session_id"@ != "rows"@,
        "session_id"@ != "cols"@,
        "session_id"@ != "data"@,
        "session_id"@ != "exit_code"@,
        "session_id"@ != "buffer"@,
        "session_id"@ != "sessions"@,
        "session_id"@ != "message"@,
        "session_id"@ != "id"@,
        "session_id"@ != "alive"@,
        "cwd"@ != "rows"@,
        "cwd"@ != "cols"@,
        "cwd"@ != "data"@,
        "cwd"@ != "exit_code"@,
        "cwd"@ != "buffer"@,
        "cwd"@ != "sessions"@,
        "cwd"@ != "message"@,
        "cwd"@ != "id"@,
        "cwd"@ != "alive"@,
        "rows"@ != "cols"@,
        "rows"@ != "data"@,
        "rows"@ != "exit_code"@,
        "rows"@ != "buffer"@,
        "rows"@ != "sessions"@,
        "rows"@ != "message"@,
        "rows"@ != "id"@,
        "rows"@ != "alive"@,
        "cols"@ != "data"@,
        "cols"@ != "exit_code"@,
        "cols"@ != "buffer"@,
        "cols"@ != "sessions"@,
        "cols"@ != "message"@,
        "cols"@ != "id"@,
        "cols"@ != "alive"@,
        "data"@ != "exit_code"@,
        "data"@ != "buffer"@,
        "data"@ != "sessions"@,
        "data"@ != "message"@,
        "data"@ != "id"@,
        "data"@ != "alive"@,
        "exit_code"@ != "buffer"@,
        "exit_code"@ != "sessions"@,
        "exit_code"@ != "message"@,
        "exit_code"@ != "id"@,
        "exit_code"@ != "alive"@,
        "buffer"@ != "sessions"@,
        "buffer"@ != "message"@,
        "buffer"@ != "id"@,
        "buffer"@ != "alive"@,
        "sessions"@ != "message"@,
        "sessions"@ != "id"@,
        "sessions"@ != "alive"@,
        "message"@ != "id"@,
        "message"@ != "alive"@,
        "id"@ != "alive"@,
{
    reveal_strlit("Attach");
    reveal_strlit("Attached");
    reveal_strlit("Detach");
    reveal_strlit("Error");
    reveal_strlit("Exited");
    reveal_strlit("Kill");
    reveal_strlit("List");
    reveal_strlit("Ok");
    reveal_strlit("Output");
    reveal_strlit("Ping");
    reveal_strlit("Pong");
    reveal_strlit("Resize");
    reveal_strlit("Sessions");
    reveal_strlit("Spawn");
    reveal_strlit("Spawned");
    reveal_strlit("Write");
    reveal_strlit("alive");
    reveal_strlit("buffer");
    reveal_strlit("cols");
    reveal_strlit("cwd");
    reveal_strlit("data");
    reveal_strlit("exit_code");
    reveal_strlit("id");
    reveal_strlit("message");
    reveal_strlit("payload");
    reveal_strlit("rows");
    reveal_strlit("session_id");
    reveal_strlit("sessions");
    reveal_strlit("type");
    assert("Attach"@.len() == 6);
    assert("Attached"@.len() == 8);
    assert("Detach"@.len() == 6);
    assert("Error"@.len() == 5);
    assert("Exited"@.len() == 6);
    assert("Kill"@.len() == 4);
    assert("List"@.len() == 4);
    assert("Ok"@.len() == 2);
    assert("Output"@.len() == 6);
    assert("Ping"@.len() == 4);
    assert("Pong"@.len() == 4);
    assert("Resize"@.len() == 6);
    assert("Sessions"@.len() == 8);
    assert("Spawn"@.len() == 5);
    assert("Spawned"@.len() == 7);
    assert("Write"@.len() == 5);
    assert("alive"@.len() == 5);
    assert("buffer"@.len() == 6);
    assert("cols"@.len() == 4);
    assert("cwd"@.len() == 3);
    assert("data"@.len() == 4);
    assert("exit_code"@.len() == 9);
    assert("id"@.len() == 2);
    assert("message"@.len() == 7);
    assert("payload"@.len() == 7);
    assert("rows"@.len() == 4);
    assert("session_id"@.len() == 10);
    assert("sessions"@.len() == 8);
    assert("type"@.len() == 4);
    assert("Spawn"@[0] == 'S');
    assert("Write"@[0] == 'W');
    assert("Resize"@[0] == 'R');
    assert("Attach"@[0] == 'A');
    assert("Detach"@[0] == 'D');
    assert("Kill"@[0] == 'K');
    assert("List"@[0] == 'L');
    assert("Ping"@[0] == 'P');
    assert("Output"@[0] == 'O');
    assert("Exited"@[0] == 'E');
    assert("Attached"@[0] == 'A');
    assert("Sessions"@[0] == 'S');
    assert("type"@[0] == 't');
    assert("rows"@[0] == 'r');
    assert("cols"@[0] == 'c');
    assert("data"@[0] == 'd');
    assert("payload"@[0] == 'p');
    assert("message"@[0] == 'm');
}

/// The `type` tag and payload of an encoded tagged message read back as
/// written.
proof fn lemma_tagged_fields(tag: Seq<char>, payload: Seq<(Seq<char>, JsonV)>)
    ensures
        field_str(spec_tagged(tag, payload)->Obj_0, "type"@) == Some(tag),
        payload_fields(spec_tagged(tag, payload)->Obj_0) == Some(payload),
        field_str(spec_tag_only(tag)->Obj_0, "type"@) == Some(tag),
        payload_fields(spec_tag_only(tag)->Obj_0) == Some(Seq::<(Seq<char>, JsonV)>::empty()),
{
    reveal_protocol_names();
    let f2 = spec_tagged(tag, payload)->Obj_0;
    let f1 = spec_tag_only(tag)->Obj_0;
    lemma_obj_lookup_at(f2, "type"@, 0);
    assert(f2[0].0 != "payload"@) by {
        reveal_strlit("type");
        reveal_strlit("payload");
    }
    lemma_obj_lookup_at(f2, "payload"@, 1);
    lemma_obj_lookup_at(f1, "type"@, 0);
    assert forall|t: int| 0 <= t < f1.len() implies (#[trigger] f1[t]).0 != "payload"@ by {
        reveal_strlit("type");
        reveal_strlit("payload");
    }
    lemma_obj_lookup_absent(f1, "payload"@);
}

/// Decoding an encoded client command yields it back.
pub proof fn lemma_decode_encode_client(m: ClientMessageV)
    ensures
        spec_decode_client(spec_encode_client(m)) == Some(m),
{
    reveal_protocol_names();
    match m {
        ClientMessageV::Spawn { session_id, cwd, rows, cols } => {
            let p = seq![
                ("session_id"@, JsonV::Str(session_id)),
                ("cwd"@, spec_enc_opt_str(cwd)),
                ("rows"@, JsonV::Int(rows as int)),
                ("cols"@, JsonV::Int(cols as int)),
            ];
            lemma_tagged_fields("Spawn"@, p);
            lemma_obj_lookup_at(p, "session_id"@, 0);
            lemma_obj_lookup_at(p, "cwd"@, 1);
            lemma_obj_lookup_at(p, "rows"@, 2);
            lemma_obj_lookup_at(p, "cols"@, 3);
        },
        ClientMessageV::Write { session_id, data } => {
            let p = seq![("session_id"@, JsonV::Str(session_id)), ("data"@, JsonV::Str(data))];
            lemma_tagged_fields("Write"@, p);
            lemma_obj_lookup_at(p, "session_id"@, 0);
            lemma_obj_lookup_at(p, "data"@, 1);
        },
        ClientMessageV::Resize { session_id, rows, cols } => {
            let p = seq![
                ("session_id"@, JsonV::Str(session_id)),
                ("rows"@, JsonV::Int(rows as int)),
                ("cols"@, JsonV::Int(cols as int)),
            ];
            lemma_tagged_fields("Resize"@, p);
            lemma_obj_lookup_at(p, "session_id"@, 0);
            lemma_obj_lookup_at(p, "rows"@, 1);
            lemma_obj_lookup_at(p, "cols"@, 2);
        },
        ClientMessageV::Attach { session_id } => {
            let p = seq![("session_id"@, JsonV::Str(session_id))];
            lemma_tagged_fields("Attach"@, p);
            lemma_obj_lookup_at(p, "session_id"@, 0);
        },
        ClientMessageV::Detach { session_id } => {
            let p = seq![("session_id"@, JsonV::Str(session_id))];
            lemma_tagged_fields("Detach"@, p);
            lemma_obj_lookup_at(p, "session_id"@, 0);
        },
        ClientMessageV::Kill { session_id } => {
            let p = seq![("session_id"@, JsonV::Str(session_id))];
            lemma_tagged_fields("Kill"@, p);
            lemma_obj_lookup_at(p, "session_id"@, 0);
        },
        ClientMessageV::List => {
            lemma_tagged_fields("List"@, Seq::empty());
        },
        ClientMessageV::Ping => {
            lemma_tagged_fields("Ping"@, Seq::empty());
        },
    }
}

/// Decoding an encoded session description yields it back.
proof fn lemma_decode_encode_info(s: SessionInfoV)
    ensures
        spec_decode_info(spec_encode_info(s)) == Some(s),
{
    reveal_protocol_names();
    let p = spec_encode_info(s)->Obj_0;
    lemma_obj_lookup_at(p, "id"@, 0);
    lemma_obj_lookup_at(p, "cwd"@, 1);
    lemma_obj_lookup_at(p, "rows"@, 2);
    lemma_obj_lookup_at(p, "cols"@, 3);
    lemma_obj_lookup_at(p, "alive"@, 4);
}

/// Decoding encoded session descriptions yields them back.
proof fn lemma_decode_encode_infos(s: Seq<SessionInfoV>)
    ensures
        spec_decode_infos(spec_encode_infos(s)) == Some(s),
    decreases s.len(),
{
    let e = spec_encode_infos(s);
    if s.len() == 0 {
        assert(s =~= Seq::<SessionInfoV>::empty());
    } else {
        assert(e.drop_last() =~= spec_encode_infos(s.drop_last()));
        lemma_decode_encode_infos(s.drop_last());
        assert(e.last() == spec_encode_info(s.last()));
        lemma_decode_encode_info(s.last());
        assert(s.drop_last().push(s.last()) =~= s);
    }
}

/// Decoding an encoded daemon reply yields it back.
pub proof fn lemma_decode_encode_server(m: ServerMessageV)
    ensures
        spec_decode_server(spec_encode_server(m)) == Some(m),
{
    reveal_protocol_names();
    match m {
        ServerMessageV::Spawned { session_id } => {
            let p = seq![("session_id"@, JsonV::Str(session_id))];
            lemma_tagged_fields("Spawned"@, p);
            lemma_obj_lookup_at(p, "session_id"@, 0);
        },
        ServerMessageV::Output { session_id, data } => {
            let p = seq![("session_id"@, JsonV::Str(session_id)), ("data"@, JsonV::Str(data))];
            lemma_tagged_fields("Output"@, p);
            lemma_obj_lookup_at(p, "session_id"@, 0);
            lemma_obj_lookup_at(p, "data"@, 1);
        },
        ServerMessageV::Exited { session_id, exit_code } => {
            let p = seq![
                ("session_id"@, JsonV::Str(session_id)),
                ("exit_code"@, spec_enc_opt_i32(exit_code)),
            ];
            lemma_tagged_fields("Exited"@, p);
            lemma_obj_lookup_at(p, "session_id"@, 0);
            lemma_obj_lookup_at(p, "exit_code"@, 1);
        },
        ServerMessageV::Attached { session_id, buffer, rows, cols } => {
            let p = seq![
                ("session_id"@, JsonV::Str(session_id)),
                ("buffer"@, JsonV::Str(buffer)),
                ("rows"@, JsonV::Int(rows as int)),
                ("cols"@, JsonV::Int(cols as int)),
            ];
            lemma_tagged_fields("Attached"@, p);
            lemma_obj_lookup_at(p, "session_id"@, 0);
            lemma_obj_lookup_at(p, "buffer"@, 1);
            lemma_obj_lookup_at(p, "rows"@, 2);
            lemma_obj_lookup_at(p, "cols"@, 3);
        },
        ServerMessageV::Sessions { sessions } => {
            let p = seq![("sessions"@, JsonV::Arr(spec_encode_infos(sessions)))];
            lemma_tagged_fields("Sessions"@, p);
            lemma_obj_lookup_at(p, "sessions"@, 0);
            lemma_decode_encode_infos(sessions);
        },
        ServerMessageV::Error { message } => {
            let p = seq![("message"@, JsonV::Str(message))];
            lemma_tagged_fields("Error"@, p);
            lemma_obj_lookup_at(p, "message"@, 0);
        },
        ServerMessageV::Pong => {
            lemma_tagged_fields("Pong"@, Seq::empty());
        },
        ServerMessageV::Acked => {
            lemma_tagged_fields("Ok"@, Seq::empty());
        },
    }
}

// ---------------------------------------------------------------------------
// Executable encoding
// ---------------------------------------------------------------------------
/// JSON form of an optional string.
fn enc_opt_str(o: &Option<String>) -> (j: Json)
    ensures
        j.model() == spec_enc_opt_str(opt_str_view(*o)),
{
    match o {
        Some(s) => Json::Str(s.clone()),
        None => Json::Null,
    }
}

/// A tagged message without a payload.
fn tag_only(tag: &str) -> (j: Json)
    ensures
        j.model() == spec_tag_only(tag@),
{
    let fields: Vec<(String, Json)> = vec![
        (String::from_str("type"), Json::Str(String::from_str(tag))),
    ];
    proof {
        lemma_model_fields_index(fields@);
        assert(model_fields(fields@) =~= spec_tag_only(tag@)->Obj_0);
    }
    Json::Obj(fields)
}

/// A tagged message with a payload object.
fn tagged(tag: &str, payload: Vec<(String, Json)>) -> (j: Json)
    ensures
        j.model() == spec_tagged(tag@, model_fields(payload@)),
{
    let fields: Vec<(String, Json)> = vec![
        (String::from_str("type"), Json::Str(String::from_str(tag))),
        (String::from_str("payload"), Json::Obj(payload)),
    ];
    proof {
        lemma_model_fields_index(fields@);
        assert(model_fields(fields@) =~= spec_tagged(tag@, model_fields(fields@[1].1->Obj_0@))->Obj_0);
    }
    Json::Obj(fields)
}

impl SessionInfo {
    /// JSON form of this session description.
    pub fn to_json(&self) -> (j: Json)
        ensures
            j.model() == spec_encode_info(self@),
    {
        let fields: Vec<(String, Json)> = vec![
            (String::from_str("id"), Json::Str(self.id.clone())),
            (String::from_str("cwd"), enc_opt_str(&self.cwd)),
            (String::from_str("rows"), Json::Int(self.rows as i64)),
            (String::from_str("cols"), Json::Int(self.cols as i64)),
            (String::from_str("alive"), Json::Bool(self.alive)),
        ];
        proof {
            lemma_model_fields_index(fields@);
            assert(model_fields(fields@) =~= spec_encode_info(self@)->Obj_0);
        }
        Json::Obj(fields)
    }
}

impl ClientMessage {
    /// JSON form of this command.
    pub fn to_json(&self) -> (j: Json)
        ensures
            j.model() == spec_encode_client(self@),
    {
        match self {
            ClientMessage::Spawn { session_id, cwd, rows, cols } => {
                let p: Vec<(String, Json)> = vec![
                    (String::from_str("session_id"), Json::Str(session_id.clone())),
                    (String::from_str("cwd"), enc_opt_str(cwd)),
                    (String::from_str("rows"), Json::Int(*rows as i64)),
                    (String::from_str("cols"), Json::Int(*cols as i64)),
                ];
                proof {
                    lemma_model_fields_index(p@);
                    assert(model_fields(p@) =~= spec_encode_client(self@)->Obj_0[1].1->Obj_0);
                }
                tagged("Spawn", p)
            },
            ClientMessage::Write { session_id, data } => {
                let p: Vec<(String, Json)> = vec![
                    (String::from_str("session_id"), Json::Str(session_id.clone())),
                    (String::from_str("data"), Json::Str(data.clone())),
                ];
                proof {
                    lemma_model_fields_index(p@);
                    assert(model_fields(p@) =~= spec_encode_client(self@)->Obj_0[1].1->Obj_0);
                }
                tagged("Write", p)
            },
            ClientMessage::Resize { session_id, rows, cols } => {
                let p: Vec<(String, Json)> = vec![
                    (String::from_str("session_id"), Json::Str(session_id.clone())),
                    (String::from_str("rows"), Json::Int(*rows as i64)),
                    (String::from_str("cols"), Json::Int(*cols as i64)),
                ];
                proof {
                    lemma_model_fields_index(p@);
                    assert(model_fields(p@) =~= spec_encode_client(self@)->Obj_0[1].1->Obj_0);
                }
                tagged("Resize", p)
            },
            ClientMessage::Attach { session_id } => {
                let p: Vec<(String, Json)> = vec![
                    (String::from_str("session_id"), Json::Str(session_id.clone())),
                ];
                proof {
                    lemma_model_fields_index(p@);
                    assert(model_fields(p@) =~= spec_encode_client(self@)->Obj_0[1].1->Obj_0);
                }
                tagged("Attach", p)
            },
            ClientMessage::Detach { session_id } => {
                let p: Vec<(String, Json)> = vec![
                    (String::from_str("session_id"), Json::Str(session_id.clone())),
                ];
                proof {
                    lemma_model_fields_index(p@);
                    assert(model_fields(p@) =~= spec_encode_client(self@)->Obj_0[1].1->Obj_0);
                }
                tagged("Detach", p)
            },
            ClientMessage::Kill { session_id } => {
                let p: Vec<(String, Json)> = vec![
                    (String::from_str("session_id"), Json::Str(session_id.clone())),
                ];
                proof {
                    lemma_model_fields_index(p@);
                    assert(model_fields(p@) =~= spec_encode_client(self@)->Obj_0[1].1->Obj_0);
                }
                tagged("Kill", p)
            },
            ClientMessage::List => tag_only("List"),
            ClientMessage::Ping => tag_only("Ping"),
        }
    }

    /// The command as one compact JSON line, newline included.
    pub fn to_line(&self) -> (out: Vec<u8>)
        ensures
            out@ == spec_write(spec_encode_client(self@)) + seq![0x0au8],
    {
        let j = self.to_json();
        let mut out = write_json(&j);
        out.push(0x0a);
        assert(out@ =~= spec_write(spec_encode_client(self@)) + seq![0x0au8]);
        out
    }
}

impl ServerMessage {
    /// JSON form of this reply.
    pub fn to_json(&self) -> (j: Json)
        ensures
            j.model() == spec_encode_server(self@),
    {
        match self {
            ServerMessage::Spawned { session_id } => {
                let p: Vec<(String, Json)> = vec![
                    (String::from_str("session_id"), Json::Str(session_id.clone())),
                ];
                proof {
                    lemma_model_fields_index(p@);
                    assert(model_fields(p@) =~= spec_encode_server(self@)->Obj_0[1].1->Obj_0);
                }
                tagged("Spawned", p)
            },
            ServerMessage::Output { session_id, data } => {
                let p: Vec<(String, Json)> = vec![
                    (String::from_str("session_id"), Json::Str(session_id.clone())),
                    (String::from_str("data"), Json::Str(data.clone())),
                ];
                proof {
                    lemma_model_fields_index(p@);
                    assert(model_fields(p@) =~= spec_encode_server(self@)->Obj_0[1].1->Obj_0);
                }
                tagged("Output", p)
            },
            ServerMessage::Exited { session_id, exit_code } => {
                let code: Json = match exit_code {
                    Some(n) => Json::Int(*n as i64),
                    None => Json::Null,
                };
                let p: Vec<(String, Json)> = vec![
                    (String::from_str("session_id"), Json::Str(session_id.clone())),
                    (String::from_str("exit_code"), code),
                ];
                proof {
                    lemma_model_fields_index(p@);
                    assert(model_fields(p@) =~= spec_encode_server(self@)->Obj_0[1].1->Obj_0);
                }
                tagged("Exited", p)
            },
            ServerMessage::Attached { session_id, buffer, rows, cols } => {
                let p: Vec<(String, Json)> = vec![
                    (String::from_str("session_id"), Json::Str(session_id.clone())),
                    (String::from_str("buffer"), Json::Str(buffer.clone())),
                    (String::from_str("rows"), Json::Int(*rows as i64)),
                    (String::from_str("cols"), Json::Int(*cols as i64)),
                ];
                proof {
                    lemma_model_fields_index(p@);
                    assert(model_fields(p@) =~= spec_encode_server(self@)->Obj_0[1].1->Obj_0);
                }
                tagged("Attached", p)
            },
            ServerMessage::Sessions { sessions } => {
                let mut items: Vec<Json> = Vec::new();
                let mut k: usize = 0;
                while k < sessions.len()
                    invariant
                        k <= sessions.len(),
                        items@.len() == k,
                        model_items(items@) =~= spec_encode_infos(infos_view(sessions@)).take(
                            k as int,
                        ),
                    decreases sessions.len() - k,
                {
                    let ghost pre = items@;
                    items.push(sessions[k].to_json());
                    proof {
                        assert(items@.drop_last() =~= pre);
                        assert(model_items(items@) =~= model_items(pre).push(
                            spec_encode_info(sessions@[k as int]@),
                        ));
                        assert(spec_encode_infos(infos_view(sessions@)).take(k as int + 1)
                            =~= spec_encode_infos(infos_view(sessions@)).take(k as int).push(
                            spec_encode_info(sessions@[k as int]@),
                        ));
                    }
                    k = k + 1;
                }
                proof {
                    assert(spec_encode_infos(infos_view(sessions@)).take(sessions@.len() as int)
                        =~= spec_encode_infos(infos_view(sessions@)));
                }
                let p: Vec<(String, Json)> = vec![
                    (String::from_str("sessions"), Json::Arr(items)),
                ];
                proof {
                    lemma_model_fields_index(p@);
                    assert(model_fields(p@) =~= spec_encode_server(self@)->Obj_0[1].1->Obj_0);
                }
                tagged("Sessions", p)
            },
            ServerMessage::Error { message } => {
                let p: Vec<(String, Json)> = vec![
                    (String::from_str("message"), Json::Str(message.clone())),
                ];
                proof {
                    lemma_model_fields_index(p@);
                    assert(model_fields(p@) =~= spec_encode_server(self@)->Obj_0[1].1->Obj_0);
                }
                tagged("Error", p)
            },
            ServerMessage::Pong => tag_only("Pong"),
            ServerMessage::Acked => tag_only("Ok"),
        }
    }

    /// The reply as one compact JSON line, newline included.
    pub fn to_line(&self) -> (out: Vec<u8>)
        ensures
            out@ == spec_write(spec_encode_server(self@)) + seq![0x0au8],
    {
        let j = self.to_json();
        let mut out = write_json(&j);
        out.push(0x0a);
        assert(out@ =~= spec_write(spec_encode_server(self@)) + seq![0x0au8]);
        out
    }
}

// ---------------------------------------------------------------------------
// Executable decoding
// ---------------------------------------------------------------------------
/// The value of the first field with the given key, if any.
pub(crate) fn obj_get<'a>(fields: &'a Vec<(String, Json)>, key: &String) -> (r: Option<&'a Json>)
    ensures
        match r {
            Some(v) => obj_lookup(model_fields(fields@), key@) == Some(v.model()),
            None => obj_lookup(model_fields(fields@), key@) is None,
        },
{
    proof {
        lemma_model_fields_index(fields@);
    }
    let ghost m = model_fields(fields@);
    proof {
        assert(m.skip(0) =~= m);
    }
    let mut k: usize = 0;
    while k < fields.len()
        invariant
            k <= fields@.len(),
            m == model_fields(fields@),
            m.len() == fields@.len(),
            forall|i: int| 0 <= i < fields@.len() ==> m[i] == (
                fields@[i].0@,
                fields@[i].1.model(),
            ),
            obj_lookup(m, key@) == obj_lookup(m.skip(k as int), key@),
        decreases fields.len() - k,
    {
        if fields[k].0 == *key {
            proof {
                assert(m.skip(k as int)[0] == m[k as int]);
            }
            return Some(&fields[k].1);
        }
        proof {
            assert(m.skip(k as int)[0] == m[k as int]);
            assert(m.skip(k as int).drop_first() =~= m.skip(k as int + 1));
        }
        k = k + 1;
    }
    proof {
        assert(m.skip(fields@.len() as int) =~= Seq::<(Seq<char>, JsonV)>::empty());
    }
    None
}

/// A required string field.
pub(crate) fn get_str(fields: &Vec<(String, Json)>, key: &String) -> (r: Option<String>)
    ensures
        match r {
            Some(s) => field_str(model_fields(fields@), key@) == Some(s@),
            None => field_str(model_fields(fields@), key@) is None,
        },
{
    match obj_get(fields, key) {
        Some(Json::Str(s)) => Some(s.clone()),
        _ => None,
    }
}

/// An optional string field: absent or null reads as none.
pub(crate) fn get_opt_str(fields: &Vec<(String, Json)>, key: &String) -> (r: Option<Option<String>>)
    ensures
        match r {
            Some(o) => field_opt_str(model_fields(fields@), key@) == Some(opt_str_view(o)),
            None => field_opt_str(model_fields(fields@), key@) is None,
        },
{
    match obj_get(fields, key) {
        Some(Json::Str(s)) => Some(Some(s.clone())),
        Some(Json::Null) => Some(None),
        None => Some(None),
        _ => None,
    }
}

/// A required 16-bit unsigned field.
pub(crate) fn get_u16(fields: &Vec<(String, Json)>, key: &String) -> (r: Option<u16>)
    ensures
        match r {
            Some(n) => field_u16(model_fields(fields@), key@) == Some(n),
            None => field_u16(model_fields(fields@), key@) is None,
        },
{
    match obj_get(fields, key) {
        Some(Json::Int(n)) => {
            if 0 <= *n && *n <= 0xffff {
                Some(*n as u16)
            } else {
                None
            }
        },
        _ => None,
    }
}

/// An optional 32-bit signed field: absent or null reads as none.
pub(crate) fn get_opt_i32(fields: &Vec<(String, Json)>, key: &String) -> (r: Option<Option<i32>>)
    ensures
        match r {
            Some(o) => field_opt_i32(model_fields(fields@), key@) == Some(o),
            None => field_opt_i32(model_fields(fields@), key@) is None,
        },
{
    match obj_get(fields, key) {
        Some(Json::Int(n)) => {
            if -0x8000_0000i64 <= *n && *n <= 0x7fff_ffffi64 {
                Some(Some(*n as i32))
            } else {
                None
            }
        },
        Some(Json::Null) => Some(None),
        None => Some(None),
        _ => None,
    }
}

/// A required boolean field.
pub(crate) fn get_bool(fields: &Vec<(String, Json)>, key: &String) -> (r: Option<bool>)
    ensures
        match r {
            Some(b) => field_bool(model_fields(fields@), key@) == Some(b),
            None => field_bool(model_fields(fields@), key@) is None,
        },
{
    match obj_get(fields, key) {
        Some(Json::Bool(b)) => Some(*b),
        _ => None,
    }
}

/// The payload object's fields; a missing payload reads as an empty object.
fn get_payload<'a>(fields: &'a Vec<(String, Json)>) -> (r: Option<Option<&'a Vec<(String, Json)>>>)
    ensures
        match r {
            Some(Some(p)) => payload_fields(model_fields(fields@)) == Some(model_fields(p@)),
            Some(None) => payload_fields(model_fields(fields@)) == Some(
                Seq::<(Seq<char>, JsonV)>::empty(),
            ),
            None => payload_fields(model_fields(fields@)) is None,
        },
{
    let key = String::from_str("payload");
    match obj_get(fields, &key) {
        Some(Json::Obj(p)) => Some(Some(p)),
        Some(_) => None,
        None => Some(None),
    }
}

impl SessionInfo {
    /// Decodes a session description from JSON.
    pub fn from_json(j: &Json) -> (r: Option<SessionInfo>)
        ensures
            match r {
                Some(info) => spec_decode_info(j.model()) == Some(info@),
                None => spec_decode_info(j.model()) is None,
            },
    {
        match j {
            Json::Obj(p) => {
                let id = get_str(p, &String::from_str("id"));
                let cwd = get_opt_str(p, &String::from_str("cwd"));
                let rows = get_u16(p, &String::from_str("rows"));
                let cols = get_u16(p, &String::from_str("cols"));
                let alive = get_bool(p, &String::from_str("alive"));
                match (id, cwd, rows, cols, alive) {
                    (Some(id), Some(cwd), Some(rows), Some(cols), Some(alive)) => Some(
                        SessionInfo { id, cwd, rows, cols, alive },
                    ),
                    _ => None,
                }
            },
            _ => None,
        }
    }
}

impl ClientMessage {
    /// Decodes a client command from JSON.
    pub fn from_json(j: &Json) -> (r: Option<ClientMessage>)
        ensures
            match r {
                Some(m) => spec_decode_client(j.model()) == Some(m@),
                None => spec_decode_client(j.model()) is None,
            },
    {
        let fields = match j {
            Json::Obj(fields) => fields,
            _ => {
                return None;
            },
        };
        let tag = match get_str(fields, &String::from_str("type")) {
            Some(t) => t,
            None => {
                return None;
            },
        };
        let empty_payload: Vec<(String, Json)> = Vec::new();
        let p: &Vec<(String, Json)> = match get_payload(fields) {
            Some(Some(p)) => p,
            Some(None) => &empty_payload,
            None => {
                return None;
            },
        };
        assert(model_fields(empty_payload@) =~= Seq::<(Seq<char>, JsonV)>::empty());
        let ghost pm = payload_fields(model_fields(fields@)).unwrap();
        assert(pm == model_fields(p@));
        if tag == String::from_str("Spawn") {
            match (get_str(p, &String::from_str("session_id")), get_opt_str(
                p,
                &String::from_str("cwd"),
            ), get_u16(p, &String::from_str("rows")), get_u16(p, &String::from_str("cols"))) {
                (Some(session_id), Some(cwd), Some(rows), Some(cols)) => Some(
                    ClientMessage::Spawn { session_id, cwd, rows, cols },
                ),
                _ => None,
            }
        } else if tag == String::from_str("Write") {
            match (get_str(p, &String::from_str("session_id")), get_str(
                p,
                &String::from_str("data"),
            )) {
                (Some(session_id), Some(data)) => Some(ClientMessage::Write { session_id, data }),
                _ => None,
            }
        } else if tag == String::from_str("Resize") {
            match (get_str(p, &String::from_str("session_id")), get_u16(
                p,
                &String::from_str("rows"),
            ), get_u16(p, &String::from_str("cols"))) {
                (Some(session_id), Some(rows), Some(cols)) => Some(
                    ClientMessage::Resize { session_id, rows, cols },
                ),
                _ => None,
            }
        } else if tag == String::from_str("Attach") {
            match get_str(p, &String::from_str("session_id")) {
                Some(session_id) => Some(ClientMessage::Attach { session_id }),
                None => None,
            }
        } else if tag == String::from_str("Detach") {
            match get_str(p, &String::from_str("session_id")) {
                Some(session_id) => Some(ClientMessage::Detach { session_id }),
                None => None,
            }
        } else if tag == String::from_str("Kill") {
            match get_str(p, &String::from_str("session_id")) {
                Some(session_id) => Some(ClientMessage::Kill { session_id }),
                None => None,
            }
        } else if tag == String::from_str("List") {
            Some(ClientMessage::List)
        } else if tag == String::from_str("Ping") {
            Some(ClientMessage::Ping)
        } else {
            None
        }
    }
}

impl ServerMessage {
    /// Decodes a daemon reply from JSON.
    #[verifier::loop_isolation(false)]
    pub fn from_json(j: &Json) -> (r: Option<ServerMessage>)
        ensures
            match r {
                Some(m) => spec_decode_server(j.model()) == Some(m@),
                None => spec_decode_server(j.model()) is None,
            },
    {
        let fields = match j {
            Json::Obj(fields) => fields,
            _ => {
                return None;
            },
        };
        let tag = match get_str(fields, &String::from_str("type")) {
            Some(t) => t,
            None => {
                return None;
            },
        };
        let empty_payload: Vec<(String, Json)> = Vec::new();
        let p: &Vec<(String, Json)> = match get_payload(fields) {
            Some(Some(p)) => p,
            Some(None) => &empty_payload,
            None => {
                return None;
            },
        };
        assert(model_fields(empty_payload@) =~= Seq::<(Seq<char>, JsonV)>::empty());
        let ghost pm = payload_fields(model_fields(fields@)).unwrap();
        assert(pm == model_fields(p@));
        if tag == String::from_str("Spawned") {
            match get_str(p, &String::from_str("session_id")) {
                Some(session_id) => Some(ServerMessage::Spawned { session_id }),
                None => None,
            }
        } else if tag == String::from_str("Output") {
            match (get_str(p, &String::from_str("session_id")), get_str(
                p,
                &String::from_str("data"),
            )) {
                (Some(session_id), Some(data)) => Some(ServerMessage::Output { session_id, data }),
                _ => None,
            }
        } else if tag == String::from_str("Exited") {
            match (get_str(p, &String::from_str("session_id")), get_opt_i32(
                p,
                &String::from_str("exit_code"),
            )) {
                (Some(session_id), Some(exit_code)) => Some(
                    ServerMessage::Exited { session_id, exit_code },
                ),
                _ => None,
            }
        } else if tag == String::from_str("Attached") {
            match (get_str(p, &String::from_str("session_id")), get_str(
                p,
                &String::from_str("buffer"),
            ), get_u16(p, &String::from_str("rows")), get_u16(p, &String::from_str("cols"))) {
                (Some(session_id), Some(buffer), Some(rows), Some(cols)) => Some(
                    ServerMessage::Attached { session_id, buffer, rows, cols },
                ),
                _ => None,
            }
        } else if tag == String::from_str("Sessions") {
            let items = match obj_get(p, &String::from_str("sessions")) {
                Some(Json::Arr(items)) => items,
                _ => {
                    return None;
                },
            };
            let ghost im = model_items(items@);
            proof {
                lemma_model_items_index(items@);
            }
            let mut sessions: Vec<SessionInfo> = Vec::new();
            let mut k: usize = 0;
            while k < items.len()
                invariant
                    k <= items@.len(),
                    im == model_items(items@),
                    im.len() == items@.len(),
                    forall|i: int| 0 <= i < items@.len() ==> im[i] == items@[i].model(),
                    spec_decode_infos(im.take(k as int)) == Some(infos_view(sessions@)),
                decreases items.len() - k,
            {
                let info = match SessionInfo::from_json(&items[k]) {
                    Some(info) => info,
                    None => {
                        proof {
                            lemma_decode_infos_prefix_none(im, k as int);
                        }
                        return None;
                    },
                };
                let ghost pre = sessions@;
                sessions.push(info);
                proof {
                    assert(im.take(k as int + 1).drop_last() =~= im.take(k as int));
                    assert(im.take(k as int + 1).last() == im[k as int]);
                    assert(infos_view(sessions@) =~= infos_view(pre).push(info@));
                }
                k = k + 1;
            }
            proof {
                assert(im.take(items@.len() as int) =~= im);
            }
            Some(ServerMessage::Sessions { sessions })
        } else if tag == String::from_str("Error") {
            match get_str(p, &String::from_str("message")) {
                Some(message) => Some(ServerMessage::Error { message }),
                None => None,
            }
        } else if tag == String::from_str("Pong") {
            Some(ServerMessage::Pong)
        } else if tag == String::from_str("Ok") {
            Some(ServerMessage::Acked)
        } else {
            None
        }
    }
}

/// If one description fails to decode, the whole sequence fails.
proof fn lemma_decode_infos_prefix_none(items: Seq<JsonV>, k: int)
    requires
        0 <= k < items.len(),
        spec_decode_info(items[k]) is None,
    ensures
        spec_decode_infos(items) is None,
    decreases items.len(),
{
    if items.len() > 0 {
        if k < items.len() - 1 {
            lemma_decode_infos_prefix_none(items.drop_last(), k);
        }
    }
}

// ---------------------------------------------------------------------------
// Whole-line parsing and the round-trip laws
// ---------------------------------------------------------------------------
/// Parses one line (trailing newline and spaces included) as a client
/// command.
pub open spec fn spec_parse_client_line(s: Seq<u8>) -> Option<ClientMessageV> {
    match spec_parse_json(s) {
        Some(v) => spec_decode_client(v),
        None => None,
    }
}

/// Parses one line as a daemon reply.
pub open spec fn spec_parse_server_line(s: Seq<u8>) -> Option<ServerMessageV> {
    match spec_parse_json(s) {
        Some(v) => spec_decode_server(v),
        None => None,
    }
}

impl ClientMessage {
    /// Parses one received line as a client command. Trailing whitespace,
    /// the line's newline among it, is accepted.
    pub fn parse_line(s: &[u8]) -> (r: Option<ClientMessage>)
        requires
            2 * s@.len() + 2 <= usize::MAX,
        ensures
            match r {
                Some(m) => spec_parse_client_line(s@) == Some(m@),
                None => spec_parse_client_line(s@) is None,
            },
    {
        match parse_json(s) {
            Some(j) => ClientMessage::from_json(&j),
            None => None,
        }
    }
}

impl ServerMessage {
    /// Parses one received line as a daemon reply.
    pub fn parse_line(s: &[u8]) -> (r: Option<ServerMessage>)
        requires
            2 * s@.len() + 2 <= usize::MAX,
        ensures
            match r {
                Some(m) => spec_parse_server_line(s@) == Some(m@),
                None => spec_parse_server_line(s@) is None,
            },
    {
        match parse_json(s) {
            Some(j) => ServerMessage::from_json(&j),
            None => None,
        }
    }
}

/// Every encoded message is a well-formed JSON value.
proof fn lemma_tagged_wf(tag: Seq<char>, payload: Seq<(Seq<char>, JsonV)>)
    requires
        forall|k: int| 0 <= k < payload.len() ==> wf_json((#[trigger] payload[k]).1),
    ensures
        wf_json(spec_tagged(tag, payload)),
        wf_json(spec_tag_only(tag)),
{
    let f2 = spec_tagged(tag, payload)->Obj_0;
    assert forall|k: int| 0 <= k < f2.len() implies wf_json((#[trigger] f2[k]).1) by {
        if k == 0 {
            assert(f2[0].1 == JsonV::Str(tag));
        } else {
            assert(f2[1].1 == JsonV::Obj(payload));
        }
    }
    let f1 = spec_tag_only(tag)->Obj_0;
    assert forall|k: int| 0 <= k < f1.len() implies wf_json((#[trigger] f1[k]).1) by {
        assert(f1[0].1 == JsonV::Str(tag));
    }
}

proof fn lemma_encode_client_wf(m: ClientMessageV)
    ensures
        wf_json(spec_encode_client(m)),
{
    match m {
        ClientMessageV::Spawn { session_id, cwd, rows, cols } => {
            lemma_tagged_wf("Spawn"@, spec_encode_client(m)->Obj_0[1].1->Obj_0);
        },
        ClientMessageV::Write { session_id, data } => {
            lemma_tagged_wf("Write"@, spec_encode_client(m)->Obj_0[1].1->Obj_0);
        },
        ClientMessageV::Resize { session_id, rows, cols } => {
            lemma_tagged_wf("Resize"@, spec_encode_client(m)->Obj_0[1].1->Obj_0);
        },
        ClientMessageV::Attach { session_id } => {
            lemma_tagged_wf("Attach"@, spec_encode_client(m)->Obj_0[1].1->Obj_0);
        },
        ClientMessageV::Detach { session_id } => {
            lemma_tagged_wf("Detach"@, spec_encode_client(m)->Obj_0[1].1->Obj_0);
        },
        ClientMessageV::Kill { session_id } => {
            lemma_tagged_wf("Kill"@, spec_encode_client(m)->Obj_0[1].1->Obj_0);
        },
        ClientMessageV::List => {
            lemma_tagged_wf("List"@, Seq::empty());
        },
        ClientMessageV::Ping => {
            lemma_tagged_wf("Ping"@, Seq::empty());
        },
    }
}

proof fn lemma_encode_info_wf(s: SessionInfoV)
    ensures
        wf_json(spec_encode_info(s)),
{
    let p = spec_encode_info(s)->Obj_0;
    assert forall|k: int| 0 <= k < p.len() implies wf_json((#[trigger] p[k]).1) by {
        assert(p[0].1 == JsonV::Str(s.id));
        assert(p[1].1 == spec_enc_opt_str(s.cwd));
        assert(p[2].1 == JsonV::Int(s.rows as int));
        assert(p[3].1 == JsonV::Int(s.cols as int));
        assert(p[4].1 == JsonV::Bool(s.alive));
    }
}

proof fn lemma_encode_server_wf(m: ServerMessageV)
    ensures
        wf_json(spec_encode_server(m)),
{
    match m {
        ServerMessageV::Spawned { session_id } => {
            lemma_tagged_wf("Spawned"@, spec_encode_server(m)->Obj_0[1].1->Obj_0);
        },
        ServerMessageV::Output { session_id, data } => {
            lemma_tagged_wf("Output"@, spec_encode_server(m)->Obj_0[1].1->Obj_0);
        },
        ServerMessageV::Exited { session_id, exit_code } => {
            lemma_tagged_wf("Exited"@, spec_encode_server(m)->Obj_0[1].1->Obj_0);
        },
        ServerMessageV::Attached { session_id, buffer, rows, cols } => {
            lemma_tagged_wf("Attached"@, spec_encode_server(m)->Obj_0[1].1->Obj_0);
        },
        ServerMessageV::Sessions { sessions } => {
            let infos = spec_encode_infos(sessions);
            assert forall|k: int| 0 <= k < infos.len() implies wf_json(#[trigger] infos[k]) by {
                lemma_encode_info_wf(sessions[k]);
            }
            lemma_tagged_wf("Sessions"@, spec_encode_server(m)->Obj_0[1].1->Obj_0);
        },
        ServerMessageV::Error { message } => {
            lemma_tagged_wf("Error"@, spec_encode_server(m)->Obj_0[1].1->Obj_0);
        },
        ServerMessageV::Pong => {
            lemma_tagged_wf("Pong"@, Seq::empty());
        },
        ServerMessageV::Acked => {
            lemma_tagged_wf("Ok"@, Seq::empty());
        },
    }
}

/// Round trip: any client command written as a JSON line parses back to an
/// equal command.
pub proof fn lemma_client_message_round_trip(m: ClientMessageV)
    ensures
        spec_parse_client_line(spec_write(spec_encode_client(m))) == Some(m),
{
    lemma_encode_client_wf(m);
    lemma_write_parse_round_trip(spec_encode_client(m));
    lemma_decode_encode_client(m);
}

/// Round trip: any daemon reply written as a JSON line parses back to an
/// equal reply.
pub proof fn lemma_server_message_round_trip(m: ServerMessageV)
    ensures
        spec_parse_server_line(spec_write(spec_encode_server(m))) == Some(m),
{
    lemma_encode_server_wf(m);
    lemma_write_parse_round_trip(spec_encode_server(m));
    lemma_decode_encode_server(m);
}

/// Round trip of the wire form: the line a client command is sent as parses
/// back to an equal command.
pub proof fn lemma_client_line_round_trip(m: ClientMessageV)
    ensures
        spec_parse_client_line(spec_write(spec_encode_client(m)) + seq![0x0au8]) == Some(m),
{
    lemma_encode_client_wf(m);
    lemma_write_parse_round_trip_line(spec_encode_client(m));
    lemma_decode_encode_client(m);
}

/// Round trip of the wire form: the line a daemon reply is sent as parses
/// back to an equal reply.
pub proof fn lemma_server_line_round_trip(m: ServerMessageV)
    ensures
        spec_parse_server_line(spec_write(spec_encode_server(m)) + seq![0x0au8]) == Some(m),
{
    lemma_encode_server_wf(m);
    lemma_write_parse_round_trip_line(spec_encode_server(m));
    lemma_decode_encode_server(m);
}

} // verus!
