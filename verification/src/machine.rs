//! The machine protocol: one JSON request in, one response out.
//!
//! The protocol's decisions live here over [`Json`], a model of the JSON
//! value that a transport parsed: which operation runs, which field is read
//! and how, which error message answers a malformed request, and what the
//! response reports. Turning text into a [`Json`] and a [`Response`] back into
//! text is the transport's part.

use crate::text::{trim, trim_exec};
use crate::ttid::{
    canonical, canonical_spec, decode_spec, decode_time, generate_spec, is_ttid, is_ttid_spec,
    is_uuid, matches_uuid_pattern, next_stamp, Generator, Timestamps, TtidError, INVALID_TTID,
};
use vstd::prelude::*;

verus! {

/// The frozen machine protocol version.
pub const PROTOCOL_VERSION: u32 = 1;

/// The error name every failure response carries.
pub const ERROR_NAME: &'static str = "Error";

/// A parsed JSON value, holding what the protocol reads of it.
///
/// A number is kept only as whether it is zero: that is all the protocol asks
/// of one (whether it is falsy). An object keeps its members in order, each
/// key at most once.
#[derive(Debug, PartialEq)]
pub enum Json {
    Null,
    Bool(bool),
    Number { zero: bool },
    Str(String),
    Array(Vec<Json>),
    Object(Vec<Member>),
}

/// One member of a JSON object.
#[derive(Debug, PartialEq)]
pub struct Member {
    pub key: String,
    pub value: Json,
}

/// How a response is serialized by the transport.
#[derive(Debug, Clone, Copy, PartialEq, Eq)]
pub enum Format {
    /// One line, no whitespace.
    Compact,
    /// Two-space indentation.
    Indented,
}

/// The result of a successful request.
#[derive(Debug, PartialEq)]
pub enum Reply {
    /// `generate` and `canonicalize`: an identifier.
    Id(String),
    /// `decodeTime`: the decoded timestamps.
    Times(Timestamps),
    /// `isTTID`: validity and, when valid, the creation time.
    Validation { valid: bool, created_at: Option<i64> },
    /// `isUUID`: validity.
    Uuid { valid: bool },
}

/// One response of the protocol, before serialization.
#[derive(Debug, PartialEq)]
pub struct Response {
    /// Whether the request succeeded.
    pub ok: bool,
    /// The operation reported back.
    pub op: Option<String>,
    /// The caller's correlation id, echoed when it was a string.
    pub request_id: Option<String>,
    /// Elapsed time supplied by the transport.
    pub duration_ms: i64,
    /// The result, or the error message.
    pub body: Result<Reply, String>,
}

/// The spec-level content of a [`Reply`].
pub enum ReplyView {
    Id(Seq<char>),
    Times(Timestamps),
    Validation { valid: bool, created_at: Option<i64> },
    Uuid { valid: bool },
}

impl View for Reply {
    type V = ReplyView;

    open spec fn view(&self) -> ReplyView {
        match self {
            Reply::Id(s) => ReplyView::Id(s@),
            Reply::Times(t) => ReplyView::Times(*t),
            Reply::Validation { valid, created_at } => ReplyView::Validation {
                valid: *valid,
                created_at: *created_at,
            },
            Reply::Uuid { valid } => ReplyView::Uuid { valid: *valid },
        }
    }
}

/// The view of an outcome: a reply or an error message.
pub open spec fn outcome_view(r: Result<Reply, String>) -> Result<ReplyView, Seq<char>> {
    match r {
        Ok(reply) => Ok(reply@),
        Err(message) => Err(message@),
    }
}

/// The view of an optional string.
pub open spec fn opt_view(o: Option<String>) -> Option<Seq<char>> {
    match o {
        Some(s) => Some(s@),
        None => None,
    }
}

// ---------------------------------------------------------------------------
// Messages
// ---------------------------------------------------------------------------

pub open spec fn msg_not_object() -> Seq<char> {
    "Machine request body must be a JSON object"@
}

pub open spec fn msg_op_not_string() -> Seq<char> {
    "Machine request field \"op\" must be a string"@
}

pub open spec fn msg_field_not_string(field: Seq<char>) -> Seq<char> {
    "Machine request field \""@ + field + "\" must be a non-empty string"@
}

pub open spec fn msg_unsupported(op: Seq<char>) -> Seq<char> {
    "Unsupported machine operation \""@ + op + "\""@
}

pub open spec fn msg_invalid_json() -> Seq<char> {
    "Invalid JSON request"@
}

// ---------------------------------------------------------------------------
// Reading a request
// ---------------------------------------------------------------------------

/// The value of the first member named `key`.
pub open spec fn lookup(entries: Seq<Member>, key: Seq<char>) -> Option<Json>
    decreases entries.len(),
{
    if entries.len() == 0 {
        None
    } else if entries[0].key@ == key {
        Some(entries[0].value)
    } else {
        lookup(entries.drop_first(), key)
    }
}

/// Member `key` of an object; `None` for a missing member or a non-object.
pub open spec fn field(v: Json, key: Seq<char>) -> Option<Json> {
    match v {
        Json::Object(entries) => lookup(entries@, key),
        _ => None,
    }
}

/// Member `key` when it is a string.
pub open spec fn str_field(v: Json, key: Seq<char>) -> Option<Seq<char>> {
    match field(v, key) {
        Some(Json::Str(s)) => Some(s@),
        _ => None,
    }
}

/// Falsiness: `null`, `false`, a zero number and the empty string are falsy.
pub open spec fn is_falsy(v: Json) -> bool {
    match v {
        Json::Null => true,
        Json::Bool(b) => !b,
        Json::Number { zero } => zero,
        Json::Str(s) => s@.len() == 0,
        _ => false,
    }
}

/// The id `generate` works on: absent or falsy means a new id, a non-empty
/// string is used as it is, anything else is not a TTID.
pub open spec fn generate_id_spec(request: Json) -> Result<Option<Seq<char>>, Seq<char>> {
    match field(request, "id"@) {
        None => Ok(None),
        Some(v) => match v {
            Json::Str(s) => if s@.len() > 0 {
                Ok(Some(s@))
            } else {
                Ok(None)
            },
            _ => if is_falsy(v) {
                Ok(None)
            } else {
                Err(INVALID_TTID@)
            },
        },
    }
}

/// A member that must be a string that is not blank once trimmed.
pub open spec fn require_string_spec(request: Json, key: Seq<char>) -> Result<Seq<char>, Seq<char>> {
    if !(request is Object) {
        Err(msg_not_object())
    } else {
        match str_field(request, key) {
            Some(s) => if trim(s).len() > 0 {
                Ok(s)
            } else {
                Err(msg_field_not_string(key))
            },
            None => Err(msg_field_not_string(key)),
        }
    }
}

/// What a request to the kernel answers, and the generator's stamp after it,
/// given the generator's stamp `last` before it.
pub open spec fn dispatch_spec(request: Json, scaled: nat, last: nat) -> (
    Result<ReplyView, Seq<char>>,
    nat,
) {
    if !(request is Object) {
        (Err(msg_not_object()), last)
    } else {
        match str_field(request, "op"@) {
            None => (Err(msg_op_not_string()), last),
            Some(op) => {
                if op == "generate"@ {
                    let delete = field(request, "delete"@) == Some(Json::Bool(true));
                    match generate_id_spec(request) {
                        Err(m) => (Err(m), last),
                        Ok(id) => {
                            let stamp = next_stamp(last, scaled);
                            match generate_spec(id, delete, stamp) {
                                Ok(s) => (Ok(ReplyView::Id(s)), stamp),
                                Err(e) => (Err(e.0@), last),
                            }
                        },
                    }
                } else if op == "decodeTime"@ {
                    match require_string_spec(request, "id"@) {
                        Err(m) => (Err(m), last),
                        Ok(id) => match decode_spec(id) {
                            Ok(t) => (Ok(ReplyView::Times(t)), last),
                            Err(e) => (Err(e.0@), last),
                        },
                    }
                } else if op == "isTTID"@ {
                    match require_string_spec(request, "id"@) {
                        Err(m) => (Err(m), last),
                        Ok(id) => (
                            Ok(
                                ReplyView::Validation {
                                    valid: is_ttid_spec(id) is Some,
                                    created_at: is_ttid_spec(id),
                                },
                            ),
                            last,
                        ),
                    }
                } else if op == "canonicalize"@ {
                    match require_string_spec(request, "id"@) {
                        Err(m) => (Err(m), last),
                        Ok(id) => match canonical_spec(id) {
                            Some(c) => (Ok(ReplyView::Id(c)), last),
                            None => (Err(INVALID_TTID@), last),
                        },
                    }
                } else if op == "isUUID"@ {
                    match require_string_spec(request, "id"@) {
                        Err(m) => (Err(m), last),
                        Ok(id) => (Ok(ReplyView::Uuid { valid: matches_uuid_pattern(id) }), last),
                    }
                } else {
                    (Err(msg_unsupported(op)), last)
                }
            },
        }
    }
}

/// The operation a response reports: on success the request's `op` (which
/// then exists), on failure the request's `op` when it is a string.
pub open spec fn reported_op(request: Json, ok: bool) -> Option<Seq<char>> {
    if ok {
        match str_field(request, "op"@) {
            Some(op) => Some(op),
            None => Some("generate"@),
        }
    } else {
        str_field(request, "op"@)
    }
}

/// `response` answers `request` with `outcome` after `duration_ms`.
pub open spec fn responds(
    response: Response,
    request: Json,
    duration_ms: i64,
    outcome: Result<ReplyView, Seq<char>>,
) -> bool {
    &&& response.ok == (outcome is Ok)
    &&& outcome_view(response.body) == outcome
    &&& opt_view(response.op) == reported_op(request, outcome is Ok)
    &&& opt_view(response.request_id) == str_field(request, "requestId"@)
    &&& response.duration_ms == duration_ms
}

// ---------------------------------------------------------------------------
// Executable protocol
// ---------------------------------------------------------------------------

/// String equality over characters.
fn str_eq(a: &str, b: &str) -> (r: bool)
    ensures
        r == (a@ == b@),
{
    let x = String::from_str(a);
    let y = String::from_str(b);
    x == y
}

/// Member `key` of `v`, when `v` is an object that has it.
pub fn field_exec<'a>(v: &'a Json, key: &str) -> (r: Option<&'a Json>)
    ensures
        match r {
            Some(x) => field(*v, key@) == Some(*x),
            None => field(*v, key@) is None,
        },
{
    match v {
        Json::Object(entries) => {
            let wanted = String::from_str(key);
            let mut i: usize = 0;
            proof {
                assert(entries@.skip(0) =~= entries@);
            }
            while i < entries.len()
                invariant
                    i <= entries@.len(),
                    wanted@ == key@,
                    field(*v, key@) == lookup(entries@, key@),
                    lookup(entries@, key@) == lookup(entries@.skip(i as int), key@),
                decreases entries.len() - i,
            {
                proof {
                    assert(entries@.skip(i as int).drop_first() =~= entries@.skip(i + 1));
                    assert(entries@.skip(i as int)[0] == entries@[i as int]);
                }
                if entries[i].key == wanted {
                    proof {
                        let head = entries@.skip(i as int);
                        assert(head[0].key@ == key@);
                        assert(lookup(head, key@) == Some(head[0].value));
                        assert(head[0] == entries@[i as int]);
                        assert(field(*v, key@) == lookup(entries@, key@));
                        assert(field(*v, key@) == Some(entries@[i as int].value));
                    }
                    return Some(&entries[i].value);
                }
                i = i + 1;
            }
            None
        },
        _ => None,
    }
}

/// Member `key` of `v` when it is a string.
pub fn str_field_exec<'a>(v: &'a Json, key: &str) -> (r: Option<&'a str>)
    ensures
        match r {
            Some(s) => str_field(*v, key@) == Some(s@),
            None => str_field(*v, key@) is None,
        },
{
    match field_exec(v, key) {
        Some(Json::Str(s)) => Some(s.as_str()),
        _ => None,
    }
}

/// The request's `op` when it is a string.
pub fn op_of(request: &Json) -> (r: Option<&str>)
    ensures
        match r {
            Some(s) => str_field(*request, "op"@) == Some(s@),
            None => str_field(*request, "op"@) is None,
        },
{
    str_field_exec(request, "op")
}

/// The request's `requestId` when it is a string.
pub fn request_id_of(request: &Json) -> (r: Option<&str>)
    ensures
        match r {
            Some(s) => str_field(*request, "requestId"@) == Some(s@),
            None => str_field(*request, "requestId"@) is None,
        },
{
    str_field_exec(request, "requestId")
}

fn not_object_message() -> (m: String)
    ensures
        m@ == msg_not_object(),
{
    String::from_str("Machine request body must be a JSON object")
}

fn field_message(key: &str) -> (m: String)
    ensures
        m@ == msg_field_not_string(key@),
{
    let mut m = String::from_str("Machine request field \"");
    m.append(key);
    m.append("\" must be a non-empty string");
    m
}

/// A member that must be a string that is not blank once trimmed.
pub fn require_string<'a>(request: &'a Json, key: &str) -> (r: Result<&'a str, String>)
    ensures
        match r {
            Ok(s) => require_string_spec(*request, key@) == Ok::<Seq<char>, Seq<char>>(s@),
            Err(m) => require_string_spec(*request, key@) == Err::<Seq<char>, Seq<char>>(m@),
        },
{
    match request {
        Json::Object(_) => {},
        _ => {
            return Err(not_object_message());
        },
    }
    match str_field_exec(request, key) {
        Some(s) => {
            let trimmed = trim_exec(s);
            if trimmed.as_str().is_empty() {
                Err(field_message(key))
            } else {
                Ok(s)
            }
        },
        None => Err(field_message(key)),
    }
}

/// Falsiness: `null`, `false`, a zero number and the empty string are falsy.
pub fn is_falsy_exec(v: &Json) -> (b: bool)
    ensures
        b == is_falsy(*v),
{
    match v {
        Json::Null => true,
        Json::Bool(b) => !*b,
        Json::Number { zero } => *zero,
        Json::Str(s) => s.as_str().is_empty(),
        _ => false,
    }
}

/// The id `generate` works on.
pub fn generate_id(request: &Json) -> (r: Result<Option<&str>, String>)
    ensures
        match r {
            Ok(Some(s)) => generate_id_spec(*request) == Ok::<Option<Seq<char>>, Seq<char>>(
                Some(s@),
            ),
            Ok(None) => generate_id_spec(*request) == Ok::<Option<Seq<char>>, Seq<char>>(None),
            Err(m) => generate_id_spec(*request) == Err::<Option<Seq<char>>, Seq<char>>(m@),
        },
{
    match field_exec(request, "id") {
        None => Ok(None),
        Some(v) => match v {
            Json::Str(s) => if s.as_str().is_empty() {
                Ok(None)
            } else {
                Ok(Some(s.as_str()))
            },
            _ => if is_falsy_exec(v) {
                Ok(None)
            } else {
                Err(String::from_str(INVALID_TTID))
            },
        },
    }
}

fn error_message(e: TtidError) -> (m: String)
    ensures
        m@ == e.0@,
{
    String::from_str(e.0)
}

/// Dispatch a parsed request to the kernel.
pub fn dispatch(request: &Json, scaled: u128, generator: &mut Generator) -> (r: Result<
    Reply,
    String,
>)
    ensures
        (outcome_view(r), final(generator)@) == dispatch_spec(*request, scaled as nat, old(generator)@),
{
    match request {
        Json::Object(_) => {},
        _ => {
            return Err(not_object_message());
        },
    }
    let op = match op_of(request) {
        Some(op) => op,
        None => {
            return Err(String::from_str("Machine request field \"op\" must be a string"));
        },
    };
    if str_eq(op, "generate") {
        let delete = match field_exec(request, "delete") {
            Some(Json::Bool(true)) => true,
            _ => false,
        };
        let id = match generate_id(request) {
            Ok(id) => id,
            Err(m) => {
                return Err(m);
            },
        };
        match generator.generate(id, delete, scaled) {
            Ok(s) => Ok(Reply::Id(s)),
            Err(e) => Err(error_message(e)),
        }
    } else if str_eq(op, "decodeTime") {
        let id = match require_string(request, "id") {
            Ok(id) => id,
            Err(m) => {
                return Err(m);
            },
        };
        match decode_time(id) {
            Ok(t) => Ok(Reply::Times(t)),
            Err(e) => Err(error_message(e)),
        }
    } else if str_eq(op, "isTTID") {
        let id = match require_string(request, "id") {
            Ok(id) => id,
            Err(m) => {
                return Err(m);
            },
        };
        let created_at = is_ttid(id);
        Ok(Reply::Validation { valid: created_at.is_some(), created_at })
    } else if str_eq(op, "canonicalize") {
        let id = match require_string(request, "id") {
            Ok(id) => id,
            Err(m) => {
                return Err(m);
            },
        };
        match canonical(id) {
            Some(c) => Ok(Reply::Id(c)),
            None => Err(String::from_str(INVALID_TTID)),
        }
    } else if str_eq(op, "isUUID") {
        let id = match require_string(request, "id") {
            Ok(id) => id,
            Err(m) => {
                return Err(m);
            },
        };
        Ok(Reply::Uuid { valid: is_uuid(id) })
    } else {
        let mut m = String::from_str("Unsupported machine operation \"");
        m.append(op);
        m.append("\"");
        Err(m)
    }
}

/// The response that answers `request` with `outcome`.
pub fn respond(request: &Json, duration_ms: i64, outcome: Result<Reply, String>) -> (resp:
    Response)
    ensures
        responds(resp, *request, duration_ms, outcome_view(outcome)),
{
    let ok = outcome.is_ok();
    let op = match op_of(request) {
        Some(op) => Some(String::from_str(op)),
        None => if ok {
            Some(String::from_str("generate"))
        } else {
            None
        },
    };
    let request_id = match request_id_of(request) {
        Some(id) => Some(String::from_str(id)),
        None => None,
    };
    Response { ok, op, request_id, duration_ms, body: outcome }
}

/// Execute one parsed request. `scaled` (the current time in ten-thousandths
/// of a millisecond) and `duration_ms` come from the transport.
pub fn execute_value(request: &Json, scaled: u128, duration_ms: i64, generator: &mut Generator) -> (resp:
    Response)
    ensures
        responds(resp, *request, duration_ms, dispatch_spec(*request, scaled as nat, old(generator)@).0),
        final(generator)@ == dispatch_spec(*request, scaled as nat, old(generator)@).1,
{
    let outcome = dispatch(request, scaled, generator);
    respond(request, duration_ms, outcome)
}

/// A failure that never reached the kernel: a bad payload, an unreadable
/// file, an unknown command.
pub fn transport_error(request: &Json, duration_ms: i64, message: String) -> (resp: Response)
    ensures
        responds(resp, *request, duration_ms, Err(message@)),
{
    respond(request, duration_ms, Err(message))
}

/// The response to a line that is not JSON.
pub fn invalid_json_response(duration_ms: i64) -> (resp: Response)
    ensures
        responds(resp, Json::Null, duration_ms, Err(msg_invalid_json())),
{
    transport_error(&Json::Null, duration_ms, String::from_str("Invalid JSON request"))
}

/// The request text of one NDJSON line: the line trimmed, or `None` for a
/// blank line, which gets no response.
pub fn line_payload(line: &str) -> (r: Option<String>)
    ensures
        match r {
            Some(t) => t@ == trim(line@) && t@.len() > 0,
            None => trim(line@).len() == 0,
        },
{
    let t = trim_exec(line);
    if t.as_str().is_empty() {
        None
    } else {
        Some(t)
    }
}

} // verus!
