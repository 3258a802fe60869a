//! The part of the daemon's JSON-RPC protocol that is spoken here: one message a line,
//! names in snake case, and notifications told apart by their `type`.
//!
//! An update of an unknown kind is [`SessionUpdate::Unknown`], never an error that would
//! end the turn.
use vstd::prelude::*;
use vstd::string::*;
use crate::json;
use crate::json::{Json, JsonModel, JsonNumber, JsonNumberModel};
use crate::records;
use crate::text;

verus! {

/// An optional string member: left out where there is none.
pub open spec fn with_optional(
    members: Map<Seq<char>, JsonModel>,
    key: Seq<char>,
    value: Option<Seq<char>>,
) -> Map<Seq<char>, JsonModel> {
    match value {
        Some(value) => members.insert(key, JsonModel::Text(value)),
        None => members,
    }
}

/// Sets an optional string member.
fn set_optional(members: &mut Vec<(String, Json)>, key: &str, value: &Option<String>)
    ensures
        json::members_model(final(members)@) == with_optional(
            json::members_model(old(members)@),
            key@,
            records::optional_view(*value),
        ),
{
    match value {
        Some(value) => json::set(members, key, Json::text(value.as_str())),
        None => {},
    }
}

/// The parameters of `initialize`. The identity of an earlier connection is echoed, so
/// that a reconnect is recognised.
pub open spec fn initialize_members(
    protocol_version: u64,
    tui_id: Option<Seq<char>>,
    tui_sig: Option<Seq<char>>,
) -> Map<Seq<char>, JsonModel> {
    with_optional(
        with_optional(
            Map::empty().insert(
                "protocol_version"@,
                JsonModel::Number(JsonNumberModel::Unsigned(protocol_version)),
            ),
            "tui_id"@,
            tui_id,
        ),
        "tui_sig"@,
        tui_sig,
    )
}

/// The parameters of `initialize`.
pub fn initialize_params(
    protocol_version: u64,
    tui_id: &Option<String>,
    tui_sig: &Option<String>,
) -> (params: Json)
    ensures
        params@ == JsonModel::Object(
            initialize_members(
                protocol_version,
                records::optional_view(*tui_id),
                records::optional_view(*tui_sig),
            ),
        ),
{
    let mut members: Vec<(String, Json)> = Vec::new();
    json::set(&mut members, "protocol_version", Json::unsigned(protocol_version));
    set_optional(&mut members, "tui_id", tui_id);
    set_optional(&mut members, "tui_sig", tui_sig);
    Json::Object(members)
}

/// The parameters of `session/new`. Naming a session attaches to it again.
pub open spec fn session_new_members(
    agent_alias: Seq<char>,
    session_id: Option<Seq<char>>,
    exclude_memory: Option<bool>,
) -> Map<Seq<char>, JsonModel> {
    let named = with_optional(
        Map::empty().insert("agent_alias"@, JsonModel::Text(agent_alias)),
        "session_id"@,
        session_id,
    );
    (match exclude_memory {
        Some(exclude) => named.insert("exclude_memory"@, JsonModel::Bool(exclude)),
        None => named,
    }).insert("chat_mode"@, JsonModel::Text("chat"@))
}

/// The parameters of `session/new`.
pub fn session_new_params(
    agent_alias: &str,
    session_id: &Option<String>,
    exclude_memory: Option<bool>,
) -> (params: Json)
    ensures
        params@ == JsonModel::Object(
            session_new_members(agent_alias@, records::optional_view(*session_id), exclude_memory),
        ),
{
    let mut members: Vec<(String, Json)> = Vec::new();
    json::set(&mut members, "agent_alias", Json::text(agent_alias));
    set_optional(&mut members, "session_id", session_id);
    match exclude_memory {
        Some(exclude) => json::set(&mut members, "exclude_memory", Json::Bool(exclude)),
        None => {},
    }
    json::set(&mut members, "chat_mode", Json::text("chat"));
    Json::Object(members)
}

/// The parameters of `session/prompt`.
pub open spec fn session_prompt_members(session_id: Seq<char>, prompt: Seq<char>) -> Map<
    Seq<char>,
    JsonModel,
> {
    Map::empty().insert("session_id"@, JsonModel::Text(session_id)).insert(
        "prompt"@,
        JsonModel::Text(prompt),
    )
}

/// The parameters of `session/prompt`.
pub fn session_prompt_params(session_id: &str, prompt: &str) -> (params: Json)
    ensures
        params@ == JsonModel::Object(session_prompt_members(session_id@, prompt@)),
{
    let mut members: Vec<(String, Json)> = Vec::new();
    json::set(&mut members, "session_id", Json::text(session_id));
    json::set(&mut members, "prompt", Json::text(prompt));
    Json::Object(members)
}

/// The parameters of `session/cancel`.
pub open spec fn session_id_members(session_id: Seq<char>) -> Map<Seq<char>, JsonModel> {
    Map::empty().insert("session_id"@, JsonModel::Text(session_id))
}

/// The parameters of `session/cancel`.
pub fn session_id_params(session_id: &str) -> (params: Json)
    ensures
        params@ == JsonModel::Object(session_id_members(session_id@)),
{
    let mut members: Vec<(String, Json)> = Vec::new();
    json::set(&mut members, "session_id", Json::text(session_id));
    Json::Object(members)
}

/// The result of `initialize`: the identity assigned to this client.
#[derive(Debug)]
pub struct InitializeResult {
    pub tui_id: Option<String>,
    pub tui_sig: Option<String>,
}

/// A field that holds a text, null or nothing; the error is what the reader tells of
/// anything else.
pub open spec fn optional_text_of(field: Option<JsonModel>) -> Result<
    Option<Seq<char>>,
    Seq<char>,
> {
    match field {
        None => Ok(None),
        Some(JsonModel::Null) => Ok(None),
        Some(JsonModel::Text(text)) => Ok(Some(text)),
        Some(other) => Err(json::not_a_text(other)),
    }
}

/// A field that holds a text or nothing.
pub open spec fn plain_text_of(field: Option<JsonModel>) -> Result<Option<Seq<char>>, Seq<char>> {
    match field {
        None => Ok(None),
        Some(JsonModel::Text(text)) => Ok(Some(text)),
        Some(other) => Err(json::not_a_text(other)),
    }
}

/// A field that holds a count; nothing stands for zero.
pub open spec fn count_of(field: Option<JsonModel>) -> Result<usize, Seq<char>> {
    match field {
        None => Ok(0),
        Some(JsonModel::Number(JsonNumberModel::Unsigned(n))) => if n <= usize::MAX {
            Ok(n as usize)
        } else {
            Err(json::not_a_count(field->0))
        },
        Some(other) => Err(json::not_a_count(other)),
    }
}

/// What is told of a list of the wrong length.
pub open spec fn wrong_length(len: nat, expected: Seq<char>) -> Seq<char> {
    "invalid length "@ + text::decimal_digits(len) + ", expected "@ + expected
}

/// What is told where a field is missing.
pub open spec fn missing_field(name: Seq<char>) -> Seq<char> {
    "missing field `"@ + name + "`"@
}

/// The identity in the result of `initialize`, or what is told where it has another shape.
pub open spec fn initialize_result_of(document: JsonModel) -> Result<
    (Option<Seq<char>>, Option<Seq<char>>),
    Seq<char>,
> {
    if !(document is Object || document is Array) {
        Err(json::wrong_type(document, "struct InitializeResult"@))
    } else {
        match (
            optional_text_of(records::field(document, 0, "tui_id"@)),
            optional_text_of(records::field(document, 1, "tui_sig"@)),
        ) {
            (Err(message), _) => Err(message),
            (Ok(_), Err(message)) => Err(message),
            (Ok(tui_id), Ok(tui_sig)) => match document {
                JsonModel::Array(items) => if items.len() > 2 {
                    Err(wrong_length(items.len(), "fewer elements in array"@))
                } else {
                    Ok((tui_id, tui_sig))
                },
                _ => Ok((tui_id, tui_sig)),
            },
        }
    }
}

/// Reads a field that holds a text, null or nothing.
fn read_optional(found: Option<&Json>) -> (read: Result<Option<String>, String>)
    ensures
        optional_text_of(records::found_model(found)) == (match read {
            Ok(text) => Ok::<Option<Seq<char>>, Seq<char>>(records::optional_view(text)),
            Err(message) => Err::<Option<Seq<char>>, Seq<char>>(message@),
        }),
{
    match found {
        None => Ok(None),
        Some(Json::Null) => Ok(None),
        Some(json) => match json.read_string() {
            Ok(text) => Ok(Some(text)),
            Err(message) => Err(message),
        },
    }
}

/// Reads a field that holds a text or nothing.
fn read_text(found: Option<&Json>) -> (read: Result<Option<String>, String>)
    ensures
        plain_text_of(records::found_model(found)) == (match read {
            Ok(text) => Ok::<Option<Seq<char>>, Seq<char>>(records::optional_view(text)),
            Err(message) => Err::<Option<Seq<char>>, Seq<char>>(message@),
        }),
{
    match found {
        None => Ok(None),
        Some(json) => match json.read_string() {
            Ok(text) => Ok(Some(text)),
            Err(message) => Err(message),
        },
    }
}

/// Reads a field that holds a count.
fn read_count(found: Option<&Json>) -> (read: Result<usize, String>)
    ensures
        count_of(records::found_model(found)) == (match read {
            Ok(count) => Ok::<usize, Seq<char>>(count),
            Err(message) => Err::<usize, Seq<char>>(message@),
        }),
{
    match found {
        None => Ok(0),
        Some(json) => json.read_count(),
    }
}

/// How long a list is; `None` for any other document.
fn length_of(json: &Json) -> (len: Option<usize>)
    ensures
        match len {
            Some(len) => json@ is Array && json@->Array_0.len() == len,
            None => !(json@ is Array),
        },
{
    match json {
        Json::Array(items) => {
            proof {
                json::lemma_items(items@);
            }
            Some(items.len())
        },
        _ => None,
    }
}

/// What is told of a list of the wrong length.
fn refuse_length(len: usize, expected: &str) -> (message: String)
    ensures
        message@ == wrong_length(len as nat, expected@),
{
    let mut message = "invalid length ".to_owned();
    message.append(text::decimal(len as u64).as_str());
    message.append(", expected ");
    message.append(expected);
    message
}

/// What is told where a field is missing.
fn refuse_missing(name: &str) -> (message: String)
    ensures
        message@ == missing_field(name@),
{
    let mut message = "missing field `".to_owned();
    message.append(name);
    message.append("`");
    message
}

impl InitializeResult {
    /// Reads the result of `initialize`; the error is what is told where it has another
    /// shape.
    pub fn from_json(json: &Json) -> (read: Result<InitializeResult, String>)
        ensures
            initialize_result_of(json@) == (match read {
                Ok(read) => Ok::<(Option<Seq<char>>, Option<Seq<char>>), Seq<char>>(
                    (records::optional_view(read.tui_id), records::optional_view(read.tui_sig)),
                ),
                Err(message) => Err::<(Option<Seq<char>>, Option<Seq<char>>), Seq<char>>(message@),
            }),
    {
        match json {
            Json::Object(_) => {},
            Json::Array(_) => {},
            _ => {
                return Err(json.refuse("struct InitializeResult"));
            },
        }
        let tui_id = match read_optional(records::field_of(json, 0, "tui_id")) {
            Ok(tui_id) => tui_id,
            Err(message) => {
                return Err(message);
            },
        };
        let tui_sig = match read_optional(records::field_of(json, 1, "tui_sig")) {
            Ok(tui_sig) => tui_sig,
            Err(message) => {
                return Err(message);
            },
        };
        match length_of(json) {
            Some(len) => if len > 2 {
                return Err(refuse_length(len, "fewer elements in array"));
            },
            None => {},
        }
        Ok(InitializeResult { tui_id, tui_sig })
    }
}

/// The result of `session/new`. The count is not zero where the daemon brought an
/// existing session back; the directory is where delegations leave their results.
#[derive(Debug)]
pub struct SessionNewResult {
    pub session_id: String,
    pub message_count: usize,
    pub workspace_dir: String,
}

/// What is told of a list that is too short for a session.
pub open spec fn short_session(len: nat) -> Seq<char> {
    wrong_length(len, "struct SessionNewResult with 3 elements"@)
}

/// The session, the count and the directory in the members of an object, read in the order
/// of their names.
pub open spec fn session_in_object(document: JsonModel) -> Result<
    (Seq<char>, usize, Seq<char>),
    Seq<char>,
> {
    match (
        count_of(records::field(document, 1, "message_count"@)),
        plain_text_of(records::field(document, 0, "session_id"@)),
        plain_text_of(records::field(document, 2, "workspace_dir"@)),
    ) {
        (Err(message), _, _) => Err(message),
        (Ok(_), Err(message), _) => Err(message),
        (Ok(_), Ok(_), Err(message)) => Err(message),
        (Ok(_), Ok(None), Ok(_)) => Err(missing_field("session_id"@)),
        (Ok(_), Ok(Some(_)), Ok(None)) => Err(missing_field("workspace_dir"@)),
        (Ok(count), Ok(Some(session_id)), Ok(Some(workspace_dir))) => Ok(
            (session_id, count, workspace_dir),
        ),
    }
}

/// The session, the count and the directory in the items of a list, read in their order.
pub open spec fn session_in_array(document: JsonModel, len: nat) -> Result<
    (Seq<char>, usize, Seq<char>),
    Seq<char>,
> {
    match (
        plain_text_of(records::field(document, 0, "session_id"@)),
        count_of(records::field(document, 1, "message_count"@)),
        plain_text_of(records::field(document, 2, "workspace_dir"@)),
    ) {
        (Err(message), _, _) => Err(message),
        (Ok(None), _, _) => Err(short_session(0)),
        (Ok(Some(_)), Err(message), _) => Err(message),
        (Ok(Some(_)), Ok(_), Err(message)) => Err(message),
        (Ok(Some(_)), Ok(_), Ok(None)) => Err(short_session(2)),
        (Ok(Some(session_id)), Ok(count), Ok(Some(workspace_dir))) => if len > 3 {
            Err(wrong_length(len, "fewer elements in array"@))
        } else {
            Ok((session_id, count, workspace_dir))
        },
    }
}

/// The session, the count and the directory in the result of `session/new`, or what is told
/// where it has another shape.
pub open spec fn session_new_result_of(document: JsonModel) -> Result<
    (Seq<char>, usize, Seq<char>),
    Seq<char>,
> {
    match document {
        JsonModel::Object(_) => session_in_object(document),
        JsonModel::Array(items) => session_in_array(document, items.len()),
        _ => Err(json::wrong_type(document, "struct SessionNewResult"@)),
    }
}

impl SessionNewResult {
    /// Reads the result of `session/new`; the error is what is told where it has another
    /// shape.
    pub fn from_json(json: &Json) -> (read: Result<SessionNewResult, String>)
        ensures
            session_new_result_of(json@) == session_read(read),
    {
        match json {
            Json::Object(_) => SessionNewResult::from_object(json),
            Json::Array(_) => SessionNewResult::from_array(json),
            _ => Err(json.refuse("struct SessionNewResult")),
        }
    }

    fn from_object(json: &Json) -> (read: Result<SessionNewResult, String>)
        ensures
            session_in_object(json@) == session_read(read),
    {
        let message_count = match read_count(records::field_of(json, 1, "message_count")) {
            Ok(count) => count,
            Err(message) => {
                return Err(message);
            },
        };
        let session_id = match read_text(records::field_of(json, 0, "session_id")) {
            Ok(session_id) => session_id,
            Err(message) => {
                return Err(message);
            },
        };
        let workspace_dir = match read_text(records::field_of(json, 2, "workspace_dir")) {
            Ok(workspace_dir) => workspace_dir,
            Err(message) => {
                return Err(message);
            },
        };
        match (session_id, workspace_dir) {
            (Some(session_id), Some(workspace_dir)) => Ok(
                SessionNewResult { session_id, message_count, workspace_dir },
            ),
            (None, _) => Err(refuse_missing("session_id")),
            (Some(_), None) => Err(refuse_missing("workspace_dir")),
        }
    }

    fn from_array(json: &Json) -> (read: Result<SessionNewResult, String>)
        requires
            json@ is Array,
        ensures
            session_in_array(json@, json@->Array_0.len()) == session_read(read),
    {
        let session_id = match read_text(records::field_of(json, 0, "session_id")) {
            Ok(Some(session_id)) => session_id,
            Ok(None) => {
                return Err(refuse_length(0, "struct SessionNewResult with 3 elements"));
            },
            Err(message) => {
                return Err(message);
            },
        };
        let message_count = match read_count(records::field_of(json, 1, "message_count")) {
            Ok(count) => count,
            Err(message) => {
                return Err(message);
            },
        };
        let workspace_dir = match read_text(records::field_of(json, 2, "workspace_dir")) {
            Ok(Some(workspace_dir)) => workspace_dir,
            Ok(None) => {
                return Err(refuse_length(2, "struct SessionNewResult with 3 elements"));
            },
            Err(message) => {
                return Err(message);
            },
        };
        match length_of(json) {
            Some(len) => if len > 3 {
                return Err(refuse_length(len, "fewer elements in array"));
            },
            None => {},
        }
        Ok(SessionNewResult { session_id, message_count, workspace_dir })
    }
}

/// What a session that was read says, or what is told where it cannot be read.
pub open spec fn session_read(read: Result<SessionNewResult, String>) -> Result<
    (Seq<char>, usize, Seq<char>),
    Seq<char>,
> {
    match read {
        Ok(read) => Ok((read.session_id@, read.message_count, read.workspace_dir@)),
        Err(message) => Err(message@),
    }
}

/// The reply in the result of `session/prompt`: empty where it has none.
pub open spec fn prompt_content_of(document: JsonModel) -> Seq<char> {
    if records::is_record(document, 1) {
        match records::field(document, 0, "content"@) {
            Some(JsonModel::Text(content)) => content,
            _ => Seq::empty(),
        }
    } else {
        Seq::empty()
    }
}

/// Reads the reply in the result of `session/prompt`.
pub fn prompt_content(json: &Json) -> (content: String)
    ensures
        content@ == prompt_content_of(json@),
{
    if records::has_record_shape(json, 1) {
        match records::field_of(json, 0, "content") {
            Some(Json::Text(content)) => content.clone(),
            _ => String::new(),
        }
    } else {
        String::new()
    }
}

/// A JSON-RPC error.
#[derive(Debug)]
pub struct RpcErrorObject {
    pub code: i64,
    pub message: String,
}

/// What an [`RpcErrorObject`] says.
pub struct RpcErrorModel {
    pub code: i64,
    pub message: Seq<char>,
}

impl View for RpcErrorObject {
    type V = RpcErrorModel;

    open spec fn view(&self) -> RpcErrorModel {
        RpcErrorModel { code: self.code, message: self.message@ }
    }
}

/// A code field: absent stands for zero.
pub open spec fn code_field(field: Option<JsonModel>) -> Option<i64> {
    match field {
        None => Some(0),
        Some(JsonModel::Number(JsonNumberModel::Unsigned(n))) => if n <= i64::MAX {
            Some(n as i64)
        } else {
            None
        },
        Some(JsonModel::Number(JsonNumberModel::Negative(n))) => Some(n),
        Some(_) => None,
    }
}

/// The error in a response's `error` member; one that cannot be read is told as such.
pub open spec fn rpc_error_of(document: JsonModel) -> RpcErrorModel {
    let unreadable = RpcErrorModel { code: 0, message: "unparseable error object"@ };
    if !records::is_record(document, 2) {
        unreadable
    } else {
        match (
            code_field(records::field(document, 0, "code"@)),
            records::required_text(records::field(document, 1, "message"@)),
        ) {
            (Some(code), Some(message)) => RpcErrorModel { code, message },
            _ => unreadable,
        }
    }
}

/// `message (code n)`.
pub open spec fn rpc_error_text(error: RpcErrorModel) -> Seq<char> {
    error.message + " (code "@ + text::decimal_integer(error.code as int) + ")"@
}

impl RpcErrorObject {
    /// Reads the `error` member of a response.
    pub fn from_json(json: &Json) -> (error: RpcErrorObject)
        ensures
            error@ == rpc_error_of(json@),
    {
        let code: Option<i64> = if records::has_record_shape(json, 2) {
            match records::field_of(json, 0, "code") {
                None => Some(0),
                Some(Json::Number(JsonNumber::Unsigned(n))) => if *n <= i64::MAX as u64 {
                    Some(*n as i64)
                } else {
                    None
                },
                Some(Json::Number(JsonNumber::Negative(n))) => Some(n.get()),
                Some(_) => None,
            }
        } else {
            None
        };
        match (code, records::read_required_text(records::field_of(json, 1, "message"))) {
            (Some(code), Some(message)) => RpcErrorObject { code, message },
            _ => RpcErrorObject { code: 0, message: "unparseable error object".to_owned() },
        }
    }

    /// `message (code n)`.
    pub fn message(&self) -> (text: String)
        ensures
            text@ == rpc_error_text(self@),
    {
        let mut text = self.message.clone();
        text.append(" (code ");
        text.append(text::signed_decimal(self.code).as_str());
        text.append(")");
        text
    }
}

/// How a turn ended.
#[derive(Debug, Clone, Copy, PartialEq, Eq, Structural)]
pub enum TurnOutcome {
    Completed,
    Cancelled,
    Failed,
}

/// One `session/update` notification. Only what is acted on is kept.
#[derive(Debug)]
#[allow(inconsistent_fields)]
pub enum SessionUpdate {
    MessageChunk { session_id: String, text: String },
    ThoughtChunk { session_id: String },
    ToolCall { session_id: String, tool_call_id: String, name: String, raw_input: Json },
    ToolResult { session_id: String },
    ApprovalRequest { session_id: String, tool_name: String },
    ContextUsage { session_id: String },
    Plan { session_id: String },
    HistoryTrimmed { session_id: String, dropped_messages: u64, reason: String },
    TurnComplete { session_id: String, outcome: TurnOutcome, content: String },
    Unknown { session_id: Option<String> },
}

/// What a [`SessionUpdate`] says besides its session.
pub enum UpdateKind {
    MessageChunk { text: Seq<char> },
    ThoughtChunk,
    ToolCall { tool_call_id: Seq<char>, name: Seq<char>, raw_input: JsonModel },
    ToolResult,
    ApprovalRequest { tool_name: Seq<char> },
    ContextUsage,
    Plan,
    HistoryTrimmed { dropped_messages: u64, reason: Seq<char> },
    TurnComplete { outcome: TurnOutcome, content: Seq<char> },
    Unknown,
}

/// What a [`SessionUpdate`] says.
pub struct UpdateModel {
    pub session_id: Option<Seq<char>>,
    pub kind: UpdateKind,
}

impl View for SessionUpdate {
    type V = UpdateModel;

    open spec fn view(&self) -> UpdateModel {
        match self {
            SessionUpdate::MessageChunk { session_id, text } => UpdateModel {
                session_id: Some(session_id@),
                kind: UpdateKind::MessageChunk { text: text@ },
            },
            SessionUpdate::ThoughtChunk { session_id } => UpdateModel {
                session_id: Some(session_id@),
                kind: UpdateKind::ThoughtChunk,
            },
            SessionUpdate::ToolCall { session_id, tool_call_id, name, raw_input } => UpdateModel {
                session_id: Some(session_id@),
                kind: UpdateKind::ToolCall {
                    tool_call_id: tool_call_id@,
                    name: name@,
                    raw_input: raw_input@,
                },
            },
            SessionUpdate::ToolResult { session_id } => UpdateModel {
                session_id: Some(session_id@),
                kind: UpdateKind::ToolResult,
            },
            SessionUpdate::ApprovalRequest { session_id, tool_name } => UpdateModel {
                session_id: Some(session_id@),
                kind: UpdateKind::ApprovalRequest { tool_name: tool_name@ },
            },
            SessionUpdate::ContextUsage { session_id } => UpdateModel {
                session_id: Some(session_id@),
                kind: UpdateKind::ContextUsage,
            },
            SessionUpdate::Plan { session_id } => UpdateModel {
                session_id: Some(session_id@),
                kind: UpdateKind::Plan,
            },
            SessionUpdate::HistoryTrimmed { session_id, dropped_messages, reason } => UpdateModel {
                session_id: Some(session_id@),
                kind: UpdateKind::HistoryTrimmed {
                    dropped_messages: *dropped_messages,
                    reason: reason@,
                },
            },
            SessionUpdate::TurnComplete { session_id, outcome, content } => UpdateModel {
                session_id: Some(session_id@),
                kind: UpdateKind::TurnComplete { outcome: *outcome, content: content@ },
            },
            SessionUpdate::Unknown { session_id } => UpdateModel {
                session_id: records::optional_view(*session_id),
                kind: UpdateKind::Unknown,
            },
        }
    }
}

/// A string member, empty where there is none.
pub open spec fn text_of(params: JsonModel, key: Seq<char>) -> Seq<char> {
    records::or_empty(records::text_member(params, key))
}

/// The outcome that a turn's end names. An outcome that is not known is a failure: to
/// claim completion would make up an empty reply.
pub open spec fn outcome_of(params: JsonModel) -> TurnOutcome {
    let outcome = text_of(params, "outcome"@);
    if outcome == "completed"@ {
        TurnOutcome::Completed
    } else if outcome == "cancelled"@ {
        TurnOutcome::Cancelled
    } else {
        TurnOutcome::Failed
    }
}

/// What the parameters of an update say besides the session.
pub open spec fn kind_of(params: JsonModel) -> UpdateKind {
    let kind = text_of(params, "type"@);
    if kind == "agent_message_chunk"@ {
        UpdateKind::MessageChunk { text: text_of(params, "text"@) }
    } else if kind == "agent_thought_chunk"@ {
        UpdateKind::ThoughtChunk
    } else if kind == "tool_call"@ {
        UpdateKind::ToolCall {
            tool_call_id: text_of(params, "tool_call_id"@),
            name: text_of(params, "name"@),
            raw_input: match records::member(params, "raw_input"@) {
                Some(input) => input,
                None => JsonModel::Null,
            },
        }
    } else if kind == "tool_result"@ {
        UpdateKind::ToolResult
    } else if kind == "approval_request"@ {
        UpdateKind::ApprovalRequest { tool_name: text_of(params, "tool_name"@) }
    } else if kind == "context_usage"@ {
        UpdateKind::ContextUsage
    } else if kind == "plan"@ {
        UpdateKind::Plan
    } else if kind == "history_trimmed"@ {
        UpdateKind::HistoryTrimmed {
            dropped_messages: match records::unsigned_member(params, "dropped_messages"@) {
                Some(n) => n,
                None => 0,
            },
            reason: text_of(params, "reason"@),
        }
    } else if kind == "turn_complete"@ {
        UpdateKind::TurnComplete {
            outcome: outcome_of(params),
            content: text_of(params, "content"@),
        }
    } else {
        UpdateKind::Unknown
    }
}

/// The update that `params` tell. One that names no session is unknown.
pub open spec fn update_of(params: JsonModel) -> UpdateModel {
    match records::text_member(params, "session_id"@) {
        Some(session_id) => UpdateModel { session_id: Some(session_id), kind: kind_of(params) },
        None => UpdateModel { session_id: None, kind: UpdateKind::Unknown },
    }
}

/// A string member, empty where there is none.
fn text_in(params: &Json, key: &str) -> (text: String)
    ensures
        text@ == text_of(params@, key@),
{
    match records::text_member_of(params, key) {
        Some(text) => text,
        None => String::new(),
    }
}

impl SessionUpdate {
    /// The session this update belongs to, where it named one.
    pub fn session_id(&self) -> (session: Option<&String>)
        ensures
            self@.session_id == (match session {
                Some(session) => Some(session@),
                None => None,
            }),
    {
        match self {
            SessionUpdate::MessageChunk { session_id, .. } => Some(session_id),
            SessionUpdate::ThoughtChunk { session_id } => Some(session_id),
            SessionUpdate::ToolCall { session_id, .. } => Some(session_id),
            SessionUpdate::ToolResult { session_id } => Some(session_id),
            SessionUpdate::ApprovalRequest { session_id, .. } => Some(session_id),
            SessionUpdate::ContextUsage { session_id } => Some(session_id),
            SessionUpdate::Plan { session_id } => Some(session_id),
            SessionUpdate::HistoryTrimmed { session_id, .. } => Some(session_id),
            SessionUpdate::TurnComplete { session_id, .. } => Some(session_id),
            SessionUpdate::Unknown { session_id } => match session_id {
                Some(session_id) => Some(session_id),
                None => None,
            },
        }
    }

    /// Reads the parameters of a `session/update` notification.
    pub fn from_params(params: &Json) -> (update: SessionUpdate)
        ensures
            update@ == update_of(params@),
    {
        let session_id = match records::text_member_of(params, "session_id") {
            Some(session_id) => session_id,
            None => {
                return SessionUpdate::Unknown { session_id: None };
            },
        };
        let kind = text_in(params, "type");
        if text::same(kind.as_str(), "agent_message_chunk") {
            SessionUpdate::MessageChunk { session_id, text: text_in(params, "text") }
        } else if text::same(kind.as_str(), "agent_thought_chunk") {
            SessionUpdate::ThoughtChunk { session_id }
        } else if text::same(kind.as_str(), "tool_call") {
            SessionUpdate::ToolCall {
                session_id,
                tool_call_id: text_in(params, "tool_call_id"),
                name: text_in(params, "name"),
                raw_input: match records::member_of(params, "raw_input") {
                    Some(input) => input.copy(),
                    None => Json::Null,
                },
            }
        } else if text::same(kind.as_str(), "tool_result") {
            SessionUpdate::ToolResult { session_id }
        } else if text::same(kind.as_str(), "approval_request") {
            SessionUpdate::ApprovalRequest { session_id, tool_name: text_in(params, "tool_name") }
        } else if text::same(kind.as_str(), "context_usage") {
            SessionUpdate::ContextUsage { session_id }
        } else if text::same(kind.as_str(), "plan") {
            SessionUpdate::Plan { session_id }
        } else if text::same(kind.as_str(), "history_trimmed") {
            SessionUpdate::HistoryTrimmed {
                session_id,
                dropped_messages: match records::unsigned_member_of(params, "dropped_messages") {
                    Some(n) => n,
                    None => 0,
                },
                reason: text_in(params, "reason"),
            }
        } else if text::same(kind.as_str(), "turn_complete") {
            let named = text_in(params, "outcome");
            let outcome = if text::same(named.as_str(), "completed") {
                TurnOutcome::Completed
            } else if text::same(named.as_str(), "cancelled") {
                TurnOutcome::Cancelled
            } else {
                TurnOutcome::Failed
            };
            SessionUpdate::TurnComplete { session_id, outcome, content: text_in(params, "content") }
        } else {
            SessionUpdate::Unknown { session_id: Some(session_id) }
        }
    }
}

/// The names that updates and parameters use are told apart.
proof fn lemma_names_differ()
    ensures
        "agent_message_chunk"@ != "agent_thought_chunk"@,
        "agent_message_chunk"@ != "tool_call"@,
        "agent_message_chunk"@ != "tool_result"@,
        "agent_message_chunk"@ != "approval_request"@,
        "agent_message_chunk"@ != "context_usage"@,
        "agent_message_chunk"@ != "plan"@,
        "agent_message_chunk"@ != "history_trimmed"@,
        "agent_message_chunk"@ != "turn_complete"@,
        "agent_thought_chunk"@ != "tool_call"@,
        "agent_thought_chunk"@ != "tool_result"@,
        "agent_thought_chunk"@ != "approval_request"@,
        "agent_thought_chunk"@ != "history_trimmed"@,
        "agent_thought_chunk"@ != "turn_complete"@,
        "tool_call"@ != "tool_result"@,
        "tool_call"@ != "approval_request"@,
        "tool_call"@ != "history_trimmed"@,
        "tool_call"@ != "turn_complete"@,
        "tool_result"@ != "approval_request"@,
        "tool_result"@ != "history_trimmed"@,
        "tool_result"@ != "turn_complete"@,
        "approval_request"@ != "history_trimmed"@,
        "approval_request"@ != "turn_complete"@,
        "context_usage"@ != "history_trimmed"@,
        "context_usage"@ != "turn_complete"@,
        "plan"@ != "history_trimmed"@,
        "plan"@ != "turn_complete"@,
        "history_trimmed"@ != "turn_complete"@,
        "completed"@ != "cancelled"@,
        "protocol_version"@ != "tui_id"@,
        "protocol_version"@ != "tui_sig"@,
        "tui_id"@ != "tui_sig"@,
        "agent_alias"@ != "session_id"@,
        "agent_alias"@ != "exclude_memory"@,
        "agent_alias"@ != "chat_mode"@,
        "session_id"@ != "exclude_memory"@,
        "session_id"@ != "chat_mode"@,
        "session_id"@ != "prompt"@,
        "exclude_memory"@ != "chat_mode"@,
{
    reveal_strlit("agent_message_chunk");
    assert("agent_message_chunk"@.len() == 19);
    reveal_strlit("agent_thought_chunk");
    assert("agent_thought_chunk"@.len() == 19);
    reveal_strlit("tool_call");
    assert("tool_call"@.len() == 9);
    reveal_strlit("tool_result");
    assert("tool_result"@.len() == 11);
    reveal_strlit("approval_request");
    assert("approval_request"@.len() == 16);
    reveal_strlit("context_usage");
    assert("context_usage"@.len() == 13);
    reveal_strlit("plan");
    assert("plan"@.len() == 4);
    reveal_strlit("history_trimmed");
    assert("history_trimmed"@.len() == 15);
    reveal_strlit("turn_complete");
    assert("turn_complete"@.len() == 13);
    reveal_strlit("completed");
    assert("completed"@.len() == 9);
    reveal_strlit("cancelled");
    assert("cancelled"@.len() == 9);
    reveal_strlit("protocol_version");
    assert("protocol_version"@.len() == 16);
    reveal_strlit("tui_id");
    assert("tui_id"@.len() == 6);
    reveal_strlit("tui_sig");
    assert("tui_sig"@.len() == 7);
    reveal_strlit("agent_alias");
    assert("agent_alias"@.len() == 11);
    reveal_strlit("session_id");
    assert("session_id"@.len() == 10);
    reveal_strlit("exclude_memory");
    assert("exclude_memory"@.len() == 14);
    reveal_strlit("chat_mode");
    assert("chat_mode"@.len() == 9);
    reveal_strlit("prompt");
    assert("prompt"@.len() == 6);
    assert("agent_message_chunk"@[6] != "agent_thought_chunk"@[6]);
    assert("context_usage"@[0] != "turn_complete"@[0]);
    assert("completed"@[1] != "cancelled"@[1]);
}

/// What a text member says: nothing where there is none.
pub open spec fn told(params: JsonModel, name: Seq<char>) -> Seq<char> {
    match records::text_member(params, name) {
        Some(text) => text,
        None => Seq::empty(),
    }
}

/// An update of a session is read by its type and by its members' names, as they are.
pub proof fn updates_are_read_by_type(params: JsonModel, session_id: Seq<char>, kind: Seq<char>)
    requires
        records::text_member(params, "session_id"@) == Some(session_id),
        records::text_member(params, "type"@) == Some(kind),
    ensures
        update_of(params).session_id == Some(session_id),
        kind == "agent_message_chunk"@ ==> update_of(params).kind == (UpdateKind::MessageChunk {
            text: told(params, "text"@),
        }),
        kind == "agent_thought_chunk"@ ==> update_of(params).kind is ThoughtChunk,
        kind == "tool_call"@ ==> update_of(params).kind == (UpdateKind::ToolCall {
            tool_call_id: told(params, "tool_call_id"@),
            name: told(params, "name"@),
            raw_input: match records::member(params, "raw_input"@) {
                Some(input) => input,
                None => JsonModel::Null,
            },
        }),
        kind == "tool_result"@ ==> update_of(params).kind is ToolResult,
        kind == "approval_request"@ ==> update_of(params).kind == (UpdateKind::ApprovalRequest {
            tool_name: told(params, "tool_name"@),
        }),
        kind == "history_trimmed"@ ==> update_of(params).kind == (UpdateKind::HistoryTrimmed {
            dropped_messages: match records::unsigned_member(params, "dropped_messages"@) {
                Some(n) => n,
                None => 0,
            },
            reason: told(params, "reason"@),
        }),
        kind == "turn_complete"@ ==> update_of(params).kind == (UpdateKind::TurnComplete {
            outcome: if told(params, "outcome"@) == "completed"@ {
                TurnOutcome::Completed
            } else if told(params, "outcome"@) == "cancelled"@ {
                TurnOutcome::Cancelled
            } else {
                TurnOutcome::Failed
            },
            content: told(params, "content"@),
        }),
        kind != "agent_message_chunk"@ ==> update_of(params).kind !is MessageChunk,
        kind != "tool_call"@ ==> update_of(params).kind !is ToolCall,
        kind != "tool_result"@ ==> update_of(params).kind !is ToolResult,
        kind != "turn_complete"@ ==> update_of(params).kind !is TurnComplete,
{
    lemma_names_differ();
}

/// An update that names no session is nobody's, whatever it tells.
pub proof fn updates_without_a_session_are_unknown(params: JsonModel)
    requires
        records::text_member(params, "session_id"@) is None,
    ensures
        update_of(params).session_id is None,
        update_of(params).kind is Unknown,
{
}

/// The greeting names the protocol's version and echoes the identity it was given, and
/// only that.
pub proof fn the_greeting_echoes_the_identity(
    protocol_version: u64,
    tui_id: Option<Seq<char>>,
    tui_sig: Option<Seq<char>>,
)
    ensures
        ({
            let params = JsonModel::Object(initialize_members(protocol_version, tui_id, tui_sig));
            &&& records::unsigned_member(params, "protocol_version"@) == Some(protocol_version)
            &&& records::text_member(params, "tui_id"@) == tui_id
            &&& records::text_member(params, "tui_sig"@) == tui_sig
            &&& tui_id is None ==> records::member(params, "tui_id"@) is None
            &&& tui_sig is None ==> records::member(params, "tui_sig"@) is None
        }),
{
    lemma_names_differ();
}

/// The request for a session names the agent, the session to attach to where there is
/// one, and whether to leave memory out where that was decided. It is always a chat.
pub proof fn a_session_is_asked_for_by_name(
    agent_alias: Seq<char>,
    session_id: Option<Seq<char>>,
    exclude_memory: Option<bool>,
)
    ensures
        ({
            let params = JsonModel::Object(
                session_new_members(agent_alias, session_id, exclude_memory),
            );
            &&& records::text_member(params, "agent_alias"@) == Some(agent_alias)
            &&& records::text_member(params, "session_id"@) == session_id
            &&& session_id is None ==> records::member(params, "session_id"@) is None
            &&& records::member(params, "exclude_memory"@) == (match exclude_memory {
                Some(exclude) => Some(JsonModel::Bool(exclude)),
                None => None,
            })
            &&& records::text_member(params, "chat_mode"@) == Some("chat"@)
        }),
{
    lemma_names_differ();
}

/// A prompt and a cancellation name their session, and a prompt says what it was given.
pub proof fn prompts_name_their_session(session_id: Seq<char>, prompt: Seq<char>)
    ensures
        records::text_member(
            JsonModel::Object(session_prompt_members(session_id, prompt)),
            "session_id"@,
        ) == Some(session_id),
        records::text_member(
            JsonModel::Object(session_prompt_members(session_id, prompt)),
            "prompt"@,
        ) == Some(prompt),
        records::text_member(JsonModel::Object(session_id_members(session_id)), "session_id"@)
            == Some(session_id),
{
    lemma_names_differ();
}

/// The results of the greeting and of the request for a session are read by their
/// members' names, as they are.
pub proof fn results_are_read_by_name(document: JsonModel)
    requires
        document is Object,
    ensures
        match initialize_result_of(document) {
            Ok(identity) => {
                &&& identity.0 == records::text_member(document, "tui_id"@)
                &&& identity.1 == records::text_member(document, "tui_sig"@)
            },
            Err(_) => {
                ||| records::member(document, "tui_id"@) matches Some(value) && value !is Text
                    && value !is Null
                ||| records::member(document, "tui_sig"@) matches Some(value) && value !is Text
                    && value !is Null
            },
        },
        match session_new_result_of(document) {
            Ok(session) => {
                &&& records::text_member(document, "session_id"@) == Some(session.0)
                &&& records::text_member(document, "workspace_dir"@) == Some(session.2)
                &&& match records::member(document, "message_count"@) {
                    Some(_) => records::unsigned_member(document, "message_count"@) == Some(
                        session.1 as u64,
                    ),
                    None => session.1 == 0,
                }
            },
            Err(_) => {
                ||| records::text_member(document, "session_id"@) is None
                ||| records::text_member(document, "workspace_dir"@) is None
                ||| records::member(document, "message_count"@) matches Some(_) && (
                records::unsigned_member(document, "message_count"@) matches Some(n) ==> n
                    > usize::MAX)
            },
        },
        prompt_content_of(document) == told(document, "content"@),
{
}

/// A session that is not named, and one without a directory, is refused by the name of the
/// field that is missing.
pub proof fn missing_fields_are_named(members: Map<Seq<char>, JsonModel>, value: Seq<char>)
    requires
        !members.contains_key("session_id"@),
        !members.contains_key("message_count"@),
        !members.contains_key("workspace_dir"@),
    ensures
        session_new_result_of(JsonModel::Object(members)) == Err::<
            (Seq<char>, usize, Seq<char>),
            Seq<char>,
        >("missing field `"@ + "session_id"@ + "`"@),
        session_new_result_of(
            JsonModel::Object(members.insert("session_id"@, JsonModel::Text(value))),
        ) == Err::<(Seq<char>, usize, Seq<char>), Seq<char>>(
            "missing field `"@ + "workspace_dir"@ + "`"@,
        ),
{
    reveal_strlit("session_id");
    reveal_strlit("message_count");
    reveal_strlit("workspace_dir");
    assert("session_id"@.len() == 10);
    assert("message_count"@.len() == 13);
    assert("workspace_dir"@.len() == 13);
}

/// The error that answers a request is told with its own message and code.
pub proof fn rpc_errors_keep_message_and_code(
    document: JsonModel,
    message: Seq<char>,
    positive: u64,
    negative: i64,
)
    requires
        document is Object,
        records::text_member(document, "message"@) == Some(message),
        positive <= i64::MAX,
    ensures
        records::member(document, "code"@) is None ==> rpc_error_of(document) == (RpcErrorModel {
            code: 0,
            message,
        }),
        records::member(document, "code"@) == Some(
            JsonModel::Number(JsonNumberModel::Negative(negative)),
        ) ==> rpc_error_of(document) == (RpcErrorModel { code: negative, message }),
        records::member(document, "code"@) == Some(
            JsonModel::Number(JsonNumberModel::Unsigned(positive)),
        ) ==> rpc_error_of(document) == (RpcErrorModel { code: positive as i64, message }),
        rpc_error_text(rpc_error_of(document)).len() > rpc_error_of(document).message.len(),
        rpc_error_of(document).message.is_prefix_of(rpc_error_text(rpc_error_of(document))),
{
    reveal_strlit(")");
    assert(")"@.len() == 1);
    let error = rpc_error_of(document);
    assert(rpc_error_text(error).subrange(0, error.message.len() as int) =~= error.message);
}

/// The results of the handshake, of a prompt, and an error may also come as the list of
/// their fields, each at its own place; one that holds more is not read.
pub proof fn records_may_be_lists(
    first: Seq<char>,
    second: Seq<char>,
    count: u32,
    code: i64,
    items: Seq<JsonModel>,
)
    ensures
        initialize_result_of(
            JsonModel::Array(seq![JsonModel::Text(first), JsonModel::Text(second)]),
        ) == Ok::<(Option<Seq<char>>, Option<Seq<char>>), Seq<char>>((Some(first), Some(second))),
        session_new_result_of(
            JsonModel::Array(
                seq![
                    JsonModel::Text(first),
                    JsonModel::Number(JsonNumberModel::Unsigned(count as u64)),
                    JsonModel::Text(second),
                ],
            ),
        ) == Ok::<(Seq<char>, usize, Seq<char>), Seq<char>>((first, count as usize, second)),
        prompt_content_of(JsonModel::Array(seq![JsonModel::Text(first)])) == first,
        rpc_error_of(
            JsonModel::Array(
                seq![
                    JsonModel::Number(JsonNumberModel::Negative(code)),
                    JsonModel::Text(first),
                ],
            ),
        ) == (RpcErrorModel { code, message: first }),
        items.len() > 3 ==> session_new_result_of(JsonModel::Array(items)) is Err,
        items.len() > 2 ==> initialize_result_of(JsonModel::Array(items)) is Err,
        items.len() > 2 ==> rpc_error_of(JsonModel::Array(items)) == (RpcErrorModel {
            code: 0,
            message: "unparseable error object"@,
        }),
        items.len() > 1 ==> prompt_content_of(JsonModel::Array(items)).len() == 0,
{
}

} // verus!
