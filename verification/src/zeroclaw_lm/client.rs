//! The lines that go to the daemon and come from it.
use vstd::prelude::*;
use vstd::string::*;
use crate::json;
use crate::json::{Json, JsonModel, JsonNumberModel};
use crate::records;
use crate::text;
use crate::zeroclaw_lm::protocol;
use crate::zeroclaw_lm::protocol::{RpcErrorModel, RpcErrorObject, SessionUpdate, UpdateModel};

verus! {

/// One message from the daemon.
#[derive(Debug)]
pub enum Incoming {
    /// The response to a request, matched by its id.
    Response { id: u64, result: Result<Json, RpcErrorObject> },
    /// A `session/update` notification.
    Update(SessionUpdate),
    /// The connection ended.
    Closed(String),
}

/// What an [`Incoming`] says.
pub enum IncomingModel {
    Response { id: u64, result: Result<JsonModel, RpcErrorModel> },
    Update(UpdateModel),
    Closed(Seq<char>),
}

impl View for Incoming {
    type V = IncomingModel;

    open spec fn view(&self) -> IncomingModel {
        match self {
            Incoming::Response { id, result } => IncomingModel::Response {
                id: *id,
                result: match result {
                    Ok(document) => Ok(document@),
                    Err(error) => Err(error@),
                },
            },
            Incoming::Update(update) => IncomingModel::Update(update@),
            Incoming::Closed(reason) => IncomingModel::Closed(reason@),
        }
    }
}

/// What the document of one line means. What is neither a response nor a
/// `session/update` means nothing: an unknown broadcast must not end the connection.
pub open spec fn incoming_of(document: JsonModel) -> Option<IncomingModel> {
    match records::text_member(document, "method"@) {
        Some(method) => if method == "session/update"@ {
            Some(
                IncomingModel::Update(
                    protocol::update_of(
                        match records::member(document, "params"@) {
                            Some(params) => params,
                            None => JsonModel::Null,
                        },
                    ),
                ),
            )
        } else {
            None
        },
        None => match records::unsigned_member(document, "id"@) {
            None => None,
            Some(id) => Some(
                IncomingModel::Response {
                    id,
                    result: match records::member(document, "error"@) {
                        Some(error) => Err(protocol::rpc_error_of(error)),
                        None => Ok(
                            match records::member(document, "result"@) {
                                Some(result) => result,
                                None => JsonModel::Null,
                            },
                        ),
                    },
                },
            ),
        },
    }
}

/// What one line means.
pub open spec fn line_meaning(line: Seq<char>) -> Option<IncomingModel> {
    match json::parsed_text(line) {
        Ok(document) => incoming_of(document),
        Err(_) => None,
    }
}

/// What an optional message says.
pub open spec fn optional_incoming(incoming: Option<Incoming>) -> Option<IncomingModel> {
    match incoming {
        Some(incoming) => Some(incoming@),
        None => None,
    }
}

/// Reads the document of one line.
pub fn classify_document(document: &Json) -> (incoming: Option<Incoming>)
    ensures
        optional_incoming(incoming) == incoming_of(document@),
{
    match records::text_member_of(document, "method") {
        Some(method) => {
            if !text::same(method.as_str(), "session/update") {
                return None;
            }
            let update = match records::member_of(document, "params") {
                Some(params) => SessionUpdate::from_params(params),
                None => SessionUpdate::from_params(&Json::Null),
            };
            Some(Incoming::Update(update))
        },
        None => match records::unsigned_member_of(document, "id") {
            None => None,
            Some(id) => {
                let result = match records::member_of(document, "error") {
                    Some(error) => Err(RpcErrorObject::from_json(error)),
                    None => Ok(
                        match records::member_of(document, "result") {
                            Some(result) => result.copy(),
                            None => Json::Null,
                        },
                    ),
                };
                Some(Incoming::Response { id, result })
            },
        },
    }
}

/// Reads one line of the daemon's output.
pub fn classify(line: &str) -> (incoming: Option<Incoming>)
    ensures
        optional_incoming(incoming) == line_meaning(line@),
{
    match Json::parse(line) {
        Ok(document) => classify_document(&document),
        Err(_) => None,
    }
}

/// Reads one line as it comes from the socket: white space around it does not count, and
/// a blank line means nothing.
pub fn receive(line: &str) -> (incoming: Option<Incoming>)
    ensures
        optional_incoming(incoming) == (if text::trimmed(line@).len() == 0 {
            None
        } else {
            line_meaning(text::trimmed(line@))
        }),
{
    let line = text::trim(line);
    if line.as_str().is_empty() {
        return None;
    }
    classify(line.as_str())
}

/// What the end of the connection's lines tells: that the daemon closed it, or why it could
/// not be read.
pub fn read_ended(error: Option<&str>) -> (incoming: Incoming)
    ensures
        incoming@ == IncomingModel::Closed(
            match error {
                Some(error) => "socket read failed: "@ + error@,
                None => "daemon closed the connection"@,
            },
        ),
{
    match error {
        Some(error) => {
            let mut reason = "socket read failed: ".to_owned();
            reason.append(error);
            Incoming::Closed(reason)
        },
        None => Incoming::Closed("daemon closed the connection".to_owned()),
    }
}

/// One request as a document.
pub open spec fn request_document(id: u64, method: Seq<char>, params: JsonModel) -> JsonModel {
    JsonModel::Object(
        Map::empty().insert("jsonrpc"@, JsonModel::Text("2.0"@)).insert(
            "id"@,
            JsonModel::Number(JsonNumberModel::Unsigned(id)),
        ).insert("method"@, JsonModel::Text(method)).insert("params"@, params),
    )
}

/// The ids that requests are numbered by.
#[derive(Debug)]
pub struct RequestIds {
    last: u64,
}

impl View for RequestIds {
    type V = u64;

    closed spec fn view(&self) -> u64 {
        self.last
    }
}

impl RequestIds {
    /// The ids of a fresh connection, which begin at one.
    pub fn new() -> (ids: RequestIds)
        ensures
            ids@ == 0,
    {
        RequestIds { last: 0 }
    }

    /// Numbers a request; returns its id and the line to send.
    pub fn request(&mut self, method: &str, params: &Json) -> (sent: (u64, String))
        requires
            old(self)@ < u64::MAX,
        ensures
            sent.0 == old(self)@ + 1,
            final(self)@ == sent.0,
            sent.1@ == json::rendered(request_document(sent.0, method@, params@)).push('\n'),
    {
        self.last = self.last + 1;
        let id: u64 = self.last;
        let mut members: Vec<(String, Json)> = Vec::new();
        json::set(&mut members, "jsonrpc", Json::text("2.0"));
        json::set(&mut members, "id", Json::unsigned(id));
        json::set(&mut members, "method", Json::text(method));
        json::set(&mut members, "params", params.copy());
        let mut line = Json::Object(members).to_text();
        line.push('\n');
        (id, line)
    }
}

/// What a message means to someone who waits for the response to request `id`: `None`
/// where the wait goes on. An update that comes meanwhile is dropped.
pub open spec fn awaited(incoming: Option<IncomingModel>, id: u64) -> Option<
    Result<JsonModel, Seq<char>>,
> {
    match incoming {
        None => Some(Err("connection reader ended"@)),
        Some(IncomingModel::Closed(reason)) => Some(Err(reason)),
        Some(IncomingModel::Update(_)) => None,
        Some(IncomingModel::Response { id: got, result }) => if got == id {
            Some(
                match result {
                    Ok(document) => Ok(document),
                    Err(error) => Err(protocol::rpc_error_text(error)),
                },
            )
        } else {
            None
        },
    }
}

/// What a message means to someone who waits for the response to request `id`.
pub fn await_response(incoming: Option<Incoming>, id: u64) -> (answer: Option<
    Result<Json, String>,
>)
    ensures
        awaited(optional_incoming(incoming), id) == (match answer {
            Some(Ok(document)) => Some(Ok::<JsonModel, Seq<char>>(document@)),
            Some(Err(message)) => Some(Err::<JsonModel, Seq<char>>(message@)),
            None => None,
        }),
{
    match incoming {
        None => Some(Err("connection reader ended".to_owned())),
        Some(Incoming::Closed(reason)) => Some(Err(reason)),
        Some(Incoming::Update(_)) => None,
        Some(Incoming::Response { id: got, result }) => if got == id {
            Some(
                match result {
                    Ok(document) => Ok(document),
                    Err(error) => Err(error.message()),
                },
            )
        } else {
            None
        },
    }
}

/// The names that messages use are told apart.
proof fn lemma_names_differ()
    ensures
        "jsonrpc"@ != "id"@,
        "jsonrpc"@ != "method"@,
        "jsonrpc"@ != "params"@,
        "id"@ != "method"@,
        "id"@ != "params"@,
        "method"@ != "params"@,
{
    reveal_strlit("jsonrpc");
    assert("jsonrpc"@.len() == 7);
    reveal_strlit("id");
    assert("id"@.len() == 2);
    reveal_strlit("method");
    assert("method"@.len() == 6);
    reveal_strlit("params");
    assert("params"@.len() == 6);
    assert("method"@[0] != "params"@[0]);
}

/// A request reads back with its own id, method and parameters.
pub proof fn requests_read_back(id: u64, method: Seq<char>, params: JsonModel)
    ensures
        records::text_member(request_document(id, method, params), "jsonrpc"@) == Some("2.0"@),
        records::unsigned_member(request_document(id, method, params), "id"@) == Some(id),
        records::text_member(request_document(id, method, params), "method"@) == Some(method),
        records::member(request_document(id, method, params), "params"@) == Some(params),
{
    lemma_names_differ();
}

/// A message with a method is an update where that is the method, and nothing to this
/// client otherwise; a message without one that has an id is the response to that
/// request, an error wherever it tells one.
pub proof fn messages_are_told_apart(document: JsonModel)
    ensures
        match records::text_member(document, "method"@) {
            Some(method) => {
                &&& (incoming_of(document) is Some) == (method == "session/update"@)
                &&& incoming_of(document) matches Some(incoming) ==> incoming is Update
                &&& records::member(document, "params"@) matches Some(params) ==> (incoming_of(
                    document,
                ) matches Some(incoming) ==> incoming == IncomingModel::Update(
                    protocol::update_of(params),
                ))
            },
            None => match records::unsigned_member(document, "id"@) {
                Some(id) => {
                    &&& records::member(document, "error"@) matches Some(error) ==> incoming_of(
                        document,
                    ) == Some(
                        IncomingModel::Response { id, result: Err(protocol::rpc_error_of(error)) },
                    )
                    &&& records::member(document, "error"@) is None ==> (records::member(
                        document,
                        "result"@,
                    ) matches Some(result) ==> incoming_of(document) == Some(
                        IncomingModel::Response { id, result: Ok(result) },
                    ))
                    &&& records::member(document, "error"@) is None && records::member(
                        document,
                        "result"@,
                    ) is None ==> incoming_of(document) == Some(
                        IncomingModel::Response { id, result: Ok(JsonModel::Null) },
                    )
                },
                None => incoming_of(document) is None,
            },
        },
{
}

/// Who waits for a response gets the one to their own request, result and error alike,
/// or hears that the connection is gone, and nothing else ends the wait.
pub proof fn a_wait_ends_with_its_own_response(
    incoming: IncomingModel,
    id: u64,
    document: JsonModel,
    error: protocol::RpcErrorModel,
)
    ensures
        awaited(Some(IncomingModel::Response { id, result: Ok(document) }), id) == Some(
            Ok::<JsonModel, Seq<char>>(document),
        ),
        awaited(Some(IncomingModel::Response { id, result: Err(error) }), id) == Some(
            Err::<JsonModel, Seq<char>>(
                error.message + " (code "@ + text::decimal_integer(error.code as int) + ")"@,
            ),
        ),
        incoming is Update ==> awaited(Some(incoming), id) is None,
        (incoming matches IncomingModel::Response { id: got, result } && got != id) ==> awaited(
            Some(incoming),
            id,
        ) is None,
        incoming matches IncomingModel::Closed(reason) ==> awaited(Some(incoming), id) == Some(
            Err::<JsonModel, Seq<char>>(reason),
        ),
        awaited(None, id) == Some(Err::<JsonModel, Seq<char>>("connection reader ended"@)),
{
}

/// A line that is no JSON means nothing, and any other what its document means.
pub proof fn lines_mean_what_their_documents_mean(line: Seq<char>)
    ensures
        match json::parsed_text(line) {
            Ok(document) => line_meaning(line) == incoming_of(document),
            Err(_) => line_meaning(line) is None,
        },
{
}

/// A request's line is a JSON document of its own id, method and parameters, ended by a
/// newline, and no two requests share an id.
pub proof fn request_lines_are_numbered(
    ids: &mut RequestIds,
    method: &str,
    params: &Json,
    sent: (u64, String),
)
    requires
        call_ensures(RequestIds::request, (ids, method, params), sent),
        old(ids)@ < u64::MAX,
    ensures
        sent.0 == old(ids)@ + 1,
        final(ids)@ == sent.0,
        exists|document: JsonModel| #[trigger]
            json::rendered(document) + "\n"@ == sent.1@ && {
                &&& records::unsigned_member(document, "id"@) == Some(sent.0)
                &&& records::text_member(document, "method"@) == Some(method@)
                &&& records::member(document, "params"@) == Some(params@)
            },
{
    reveal_strlit("\n");
    assert("\n"@ =~= seq!['\n']);
    let document = request_document(sent.0, method@, params@);
    requests_read_back(sent.0, method@, params@);
    assert(json::rendered(document).push('\n') =~= json::rendered(document) + "\n"@);
}

} // verus!
