//! The runs API: what is sent to it and what its answers mean.
use vstd::prelude::*;
use vstd::string::*;
use crate::dispatch;
use crate::hermes::classify;
use crate::hermes::classify::{ClassModel, Classified};
use crate::hermes::task;
use crate::hermes::task::{HistoryTurn, RunId, TurnModel};
use crate::http;
use crate::http::{HeaderModel, Headers};
use crate::json;
use crate::json::{Json, JsonModel};
use crate::records;
use crate::text;

verus! {

/// The text a run is asked: the task, and the context under a heading.
pub fn compose_input(task: &str, context: Option<&str>) -> (input: String)
    ensures
        input@ == dispatch::with_context(task@, records::optional_str(context)),
{
    dispatch::compose(task, context)
}

/// Cuts a response body for a message.
pub fn excerpt(body: &str) -> (out: String)
    ensures
        out@ == http::body_excerpt(body@),
{
    http::excerpt(body)
}

/// One turn of the history that a run is told.
pub open spec fn turn_document(turn: TurnModel) -> JsonModel {
    JsonModel::Object(
        Map::empty().insert("role"@, JsonModel::Text(turn.role)).insert(
            "content"@,
            JsonModel::Text(turn.content),
        ),
    )
}

/// The body that starts a run. A session tells which runs belong together and carries no
/// conversation, so the earlier turns come with it where there are any.
pub open spec fn run_document(
    input: Seq<char>,
    session_id: Seq<char>,
    history: Seq<TurnModel>,
) -> JsonModel {
    let base = Map::empty().insert("input"@, JsonModel::Text(input)).insert(
        "session_id"@,
        JsonModel::Text(session_id),
    );
    JsonModel::Object(
        if history.len() == 0 {
            base
        } else {
            base.insert(
                "conversation_history"@,
                JsonModel::Array(history.map_values(|turn: TurnModel| turn_document(turn))),
            )
        },
    )
}

/// The body that starts a run.
pub fn run_request(input: &str, session_id: &str, history: &Vec<HistoryTurn>) -> (body: Json)
    ensures
        body@ == run_document(input@, session_id@, task::history_model(history@)),
{
    let mut members: Vec<(String, Json)> = Vec::new();
    json::set(&mut members, "input", Json::text(input));
    json::set(&mut members, "session_id", Json::text(session_id));
    if history.len() > 0 {
        let ghost models = task::history_model(history@);
        let ghost render = |turn: TurnModel| turn_document(turn);
        let mut turns: Vec<Json> = Vec::new();
        let mut i: usize = 0;
        assert(models.subrange(0, 0).map_values(render) =~= Seq::empty());
        while i < history.len()
            invariant
                0 <= i <= history@.len(),
                models == task::history_model(history@),
                render == (|turn: TurnModel| turn_document(turn)),
                json::items_model(turns@) == models.subrange(0, i as int).map_values(render),
            decreases history@.len() - i,
        {
            let mut turn: Vec<(String, Json)> = Vec::new();
            json::set(&mut turn, "role", Json::text(history[i].role.as_str()));
            json::set(&mut turn, "content", Json::text(history[i].content.as_str()));
            let document = Json::Object(turn);
            proof {
                json::lemma_items_push(turns@, document);
                assert(models[i as int] == history@[i as int]@);
                assert(models.subrange(0, i + 1).map_values(render) =~= models.subrange(
                    0,
                    i as int,
                ).map_values(render).push(document@));
            }
            turns.push(document);
            i += 1;
        }
        assert(models.subrange(0, models.len() as int) =~= models);
        json::set(&mut members, "conversation_history", Json::Array(turns));
    }
    Json::Object(members)
}

/// The URL that runs are started at; `None` where the base has no path to append to.
pub fn runs_url(base_url: &str) -> (url: Option<String>)
    ensures
        records::optional_view(url) == http::appended_path(base_url@, seq!["v1"@, "runs"@]),
{
    let mut segments: Vec<String> = Vec::new();
    segments.push("v1".to_owned());
    segments.push("runs".to_owned());
    assert(text::texts(segments@) =~= seq!["v1"@, "runs"@]);
    http::append_path(base_url, &segments)
}

/// The URL that a run is looked at; `None` where the base has no path to append to.
pub fn run_url(base_url: &str, run_id: &str) -> (url: Option<String>)
    ensures
        records::optional_view(url) == http::appended_path(
            base_url@,
            seq!["v1"@, "runs"@, run_id@],
        ),
{
    let mut segments: Vec<String> = Vec::new();
    segments.push("v1".to_owned());
    segments.push("runs".to_owned());
    segments.push(run_id.to_owned());
    assert(text::texts(segments@) =~= seq!["v1"@, "runs"@, run_id@]);
    http::append_path(base_url, &segments)
}

/// The headers a request carries: the key as a bearer token, which stays out of logs.
pub fn headers(api_key: &str) -> (headers: Headers)
    ensures
        headers.wf(),
        headers@ == Map::empty().insert(
            "authorization"@,
            HeaderModel { value: "Bearer "@ + api_key@, sensitive: true },
        ),
{
    let mut value = "Bearer ".to_owned();
    value.append(api_key);
    let mut headers = Headers::new();
    headers.set("authorization".to_owned(), value, true);
    headers
}

/// The headers a request that starts a run carries: besides the token, the key by which a
/// gateway can tell a repeated request.
pub fn create_headers(api_key: &str, idempotency_key: &str) -> (headers: Headers)
    ensures
        headers.wf(),
        headers@ == Map::empty().insert(
            "authorization"@,
            HeaderModel { value: "Bearer "@ + api_key@, sensitive: true },
        ).insert(
            "idempotency-key"@,
            HeaderModel { value: idempotency_key@, sensitive: false },
        ),
{
    let mut headers = self::headers(api_key);
    headers.set("idempotency-key".to_owned(), idempotency_key.to_owned(), false);
    headers
}

/// A response of the gateway.
#[derive(Debug)]
pub enum Response {
    /// It answered.
    Answered {
        status: u16,
        /// The body as it came.
        body: Vec<u8>,
        /// The body as text.
        text: String,
    },
    /// The request did not come through.
    Failed(String),
}

/// Whether a response has a status code of three digits, as every one of HTTP does.
pub open spec fn has_valid_status(response: Response) -> bool {
    response matches Response::Answered { status, .. } ==> 100 <= status <= 999
}

/// The run that a body names.
pub open spec fn created_run(document: JsonModel) -> Option<Seq<char>> {
    if records::is_record(document, 1) {
        records::required_text(records::field(document, 0, "run_id"@))
    } else {
        None
    }
}

/// The run that the bytes of a body name.
pub open spec fn created_in(body: Seq<u8>) -> Option<Seq<char>> {
    match json::parsed_bytes(body) {
        Ok(document) => created_run(document),
        Err(_) => None,
    }
}

/// What `reqwest` tells of a body that cannot be read as what is expected of it, whatever is
/// wrong with it.
pub const UNDECODABLE: &'static str = "error decoding response body";

/// What starting a run came to: the run, or why the command is refused.
pub open spec fn creation_of(response: Response) -> Result<Seq<char>, Seq<char>> {
    match response {
        Response::Failed(error) => Err("hermes create request failed: "@ + error@),
        Response::Answered { status, body, text } => if !http::is_success(status) {
            Err(
                "hermes create returned "@ + http::status_text(status) + ": "@
                    + http::body_excerpt(text@),
            )
        } else {
            match created_in(body@) {
                Some(run) => Ok(run),
                None => Err("hermes create returned an undecodable body: "@ + UNDECODABLE@),
            }
        },
    }
}

/// What starting a run came to.
pub fn create_run(response: &Response) -> (creation: Result<RunId, String>)
    requires
        has_valid_status(*response),
    ensures
        creation_of(*response) == (match creation {
            Ok(run) => Ok::<Seq<char>, Seq<char>>(run@),
            Err(message) => Err::<Seq<char>, Seq<char>>(message@),
        }),
{
    match response {
        Response::Failed(error) => {
            let mut message = "hermes create request failed: ".to_owned();
            message.append(error.as_str());
            Err(message)
        },
        Response::Answered { status, body, text } => {
            if *status < 200 || *status >= 300 {
                let mut message = "hermes create returned ".to_owned();
                message.append(http::status_line(*status).as_str());
                message.append(": ");
                message.append(excerpt(text.as_str()).as_str());
                return Err(message);
            }
            match Json::parse_bytes(body.as_slice()) {
                Ok(document) => if records::has_record_shape(&document, 1) {
                    match records::read_required_text(records::field_of(&document, 0, "run_id")) {
                        Some(run) => {
                            return Ok(RunId::new(run.as_str()));
                        },
                        None => {},
                    }
                },
                Err(_) => {},
            }
            let mut message = "hermes create returned an undecodable body: ".to_owned();
            message.append(UNDECODABLE);
            Err(message)
        },
    }
}

/// What is read of a run's state.
#[derive(Debug)]
pub struct RunStatusBody {
    pub status: String,
    pub output: Option<String>,
    pub error: Option<Json>,
    pub last_error: Option<Json>,
    pub error_message: Option<String>,
}

/// What a [`RunStatusBody`] says.
pub struct StatusModel {
    pub status: Seq<char>,
    pub output: Option<Seq<char>>,
    pub error: Option<JsonModel>,
    pub last_error: Option<JsonModel>,
    pub error_message: Option<Seq<char>>,
}

/// What an optional document says.
pub open spec fn optional_document(document: Option<Json>) -> Option<JsonModel> {
    match document {
        Some(document) => Some(document@),
        None => None,
    }
}

impl View for RunStatusBody {
    type V = StatusModel;

    open spec fn view(&self) -> StatusModel {
        StatusModel {
            status: self.status@,
            output: records::optional_view(self.output),
            error: optional_document(self.error),
            last_error: optional_document(self.last_error),
            error_message: records::optional_view(self.error_message),
        }
    }
}

/// A field that holds any document but null, or nothing.
pub open spec fn present(field: Option<JsonModel>) -> Option<JsonModel> {
    match field {
        Some(JsonModel::Null) => None,
        other => other,
    }
}

/// The state that a document tells; `None` where it has another shape.
pub open spec fn status_body_of(document: JsonModel) -> Option<StatusModel> {
    if !records::is_record(document, 5) {
        None
    } else {
        match (
            records::required_text(records::field(document, 0, "status"@)),
            records::optional_text(records::field(document, 1, "output"@)),
            records::optional_text(records::field(document, 4, "error_message"@)),
        ) {
            (Some(status), Some(output), Some(error_message)) => Some(
                StatusModel {
                    status,
                    output,
                    error: present(records::field(document, 2, "error"@)),
                    last_error: present(records::field(document, 3, "last_error"@)),
                    error_message,
                },
            ),
            _ => None,
        }
    }
}

/// The error that a state tells: which field holds it is not documented, so several are
/// looked at.
pub open spec fn error_of(body: StatusModel) -> Option<Seq<char>> {
    match body.error_message {
        Some(message) => Some(message),
        None => match records::detail_of(body.error) {
            Some(message) => Some(message),
            None => records::detail_of(body.last_error),
        },
    }
}

fn copy_present(found: Option<&Json>) -> (copy: Option<Json>)
    ensures
        optional_document(copy) == present(records::found_model(found)),
{
    match found {
        None => None,
        Some(Json::Null) => None,
        Some(document) => Some(document.copy()),
    }
}

fn as_found(document: &Option<Json>) -> (found: Option<&Json>)
    ensures
        records::found_model(found) == optional_document(*document),
{
    match document {
        Some(document) => Some(document),
        None => None,
    }
}

impl RunStatusBody {
    /// Reads the state of a run out of a document.
    pub fn from_json(json: &Json) -> (read: Option<RunStatusBody>)
        ensures
            status_body_of(json@) == (match read {
                Some(read) => Some(read@),
                None => None,
            }),
    {
        if !records::has_record_shape(json, 5) {
            return None;
        }
        match (
            records::read_required_text(records::field_of(json, 0, "status")),
            records::read_optional_text(records::field_of(json, 1, "output")),
            records::read_optional_text(records::field_of(json, 4, "error_message")),
        ) {
            (Some(status), Some(output), Some(error_message)) => Some(
                RunStatusBody {
                    status,
                    output,
                    error: copy_present(records::field_of(json, 2, "error")),
                    last_error: copy_present(records::field_of(json, 3, "last_error")),
                    error_message,
                },
            ),
            _ => None,
        }
    }

    /// The error that the state tells.
    pub fn error_detail(&self) -> (detail: Option<String>)
        ensures
            records::optional_view(detail) == error_of(self@),
    {
        match &self.error_message {
            Some(message) => {
                return Some(message.clone());
            },
            None => {},
        }
        match records::value_detail(as_found(&self.error)) {
            Some(message) => Some(message),
            None => records::value_detail(as_found(&self.last_error)),
        }
    }
}

/// What one look at a run came to.
#[derive(Debug)]
pub enum PollResult {
    /// The run's state, and what it means.
    Status(Classified),
    /// The run is gone: its last state expired before it was seen.
    Gone,
    /// The run is still there and could not be seen; it is looked at again.
    Transient(String),
}

/// What a [`PollResult`] says.
pub enum PollModel {
    Status(ClassModel),
    Gone,
    Transient(Seq<char>),
}

impl View for PollResult {
    type V = PollModel;

    open spec fn view(&self) -> PollModel {
        match self {
            PollResult::Status(class) => PollModel::Status(class@),
            PollResult::Gone => PollModel::Gone,
            PollResult::Transient(reason) => PollModel::Transient(reason@),
        }
    }
}

/// A look that came to a body that cannot be read.
pub open spec fn unreadable() -> PollModel {
    PollModel::Transient("poll returned an undecodable body: "@ + UNDECODABLE@)
}

/// What the document of a run's state means.
pub open spec fn class_of_document(document: JsonModel) -> PollModel {
    match status_body_of(document) {
        None => unreadable(),
        Some(body) => PollModel::Status(
            classify::class_of(body.status, body.output, error_of(body)),
        ),
    }
}

/// What one look at a run came to. Only that the run is not found means that it is gone.
pub open spec fn poll_of(response: Response) -> PollModel {
    match response {
        Response::Failed(error) => PollModel::Transient("poll request failed: "@ + error@),
        Response::Answered { status, body, text } => if status == 404 {
            PollModel::Gone
        } else if !http::is_success(status) {
            PollModel::Transient("poll returned "@ + http::status_text(status))
        } else {
            match json::parsed_bytes(body@) {
                Err(_) => unreadable(),
                Ok(document) => class_of_document(document),
            }
        },
    }
}

fn as_str(value: &Option<String>) -> (text: Option<&str>)
    ensures
        records::optional_str(text) == records::optional_view(*value),
{
    match value {
        Some(value) => Some(value.as_str()),
        None => None,
    }
}

/// A look that came to a body that cannot be read.
fn unread() -> (result: PollResult)
    ensures
        result@ == unreadable(),
{
    let mut reason = "poll returned an undecodable body: ".to_owned();
    reason.append(UNDECODABLE);
    PollResult::Transient(reason)
}

/// What the document of a run's state means.
pub fn read_state(document: &Json) -> (result: PollResult)
    ensures
        result@ == class_of_document(document@),
{
    match RunStatusBody::from_json(document) {
        None => unread(),
        Some(body) => {
            let error = body.error_detail();
            PollResult::Status(
                classify::classify(body.status.as_str(), as_str(&body.output), as_str(&error)),
            )
        },
    }
}

/// What one look at a run came to.
pub fn get_run(response: &Response) -> (result: PollResult)
    requires
        has_valid_status(*response),
    ensures
        result@ == poll_of(*response),
{
    match response {
        Response::Failed(error) => {
            let mut reason = "poll request failed: ".to_owned();
            reason.append(error.as_str());
            PollResult::Transient(reason)
        },
        Response::Answered { status, body, text: _ } => {
            if *status == 404 {
                return PollResult::Gone;
            }
            if *status < 200 || *status >= 300 {
                let mut reason = "poll returned ".to_owned();
                reason.append(http::status_line(*status).as_str());
                return PollResult::Transient(reason);
            }
            match Json::parse_bytes(body.as_slice()) {
                Ok(document) => read_state(&document),
                Err(_) => unread(),
            }
        },
    }
}

/// The names that a run's body uses are told apart.
proof fn lemma_names_differ()
    ensures
        "input"@ != "session_id"@,
        "input"@ != "conversation_history"@,
        "session_id"@ != "conversation_history"@,
        "role"@ != "content"@,
{
    reveal_strlit("input");
    assert("input"@.len() == 5);
    reveal_strlit("session_id");
    assert("session_id"@.len() == 10);
    reveal_strlit("conversation_history");
    assert("conversation_history"@.len() == 20);
    reveal_strlit("role");
    assert("role"@.len() == 4);
    reveal_strlit("content");
    assert("content"@.len() == 7);
}

/// A run is told what it is asked, in which session, and the conversation before it: every
/// turn, in order, with who said it and what was said. A first run is told none.
pub proof fn runs_are_told_the_conversation(
    input: Seq<char>,
    session_id: Seq<char>,
    history: Seq<TurnModel>,
    key: Seq<char>,
)
    ensures
        records::text_member(run_document(input, session_id, history), "input"@) == Some(input),
        records::text_member(run_document(input, session_id, history), "session_id"@) == Some(
            session_id,
        ),
        match records::member(run_document(input, session_id, history), "conversation_history"@) {
            Some(JsonModel::Array(turns)) => {
                &&& history.len() > 0
                &&& turns.len() == history.len()
                &&& forall|i: int|
                    0 <= i < turns.len() ==> records::text_member(#[trigger] turns[i], "role"@)
                        == Some(history[i].role) && records::text_member(turns[i], "content"@)
                        == Some(history[i].content)
            },
            Some(_) => false,
            None => history.len() == 0,
        },
        key != "input"@ && key != "session_id"@ && key != "conversation_history"@
            ==> records::member(run_document(input, session_id, history), key) is None,
{
    lemma_names_differ();
}

/// A run was started where the gateway said so and named it; else the command is refused
/// with what went wrong: the request's error, or the status and the body.
pub proof fn creations_name_the_run(response: Response)
    ensures
        match response {
            Response::Failed(error) => creation_of(response) == Err::<Seq<char>, Seq<char>>(
                "hermes create request failed: "@ + error@,
            ),
            Response::Answered { status, body, text } => if 200 <= status < 300 {
                match json::parsed_bytes(body@) {
                    Ok(JsonModel::Object(members)) => match records::text_member(
                        JsonModel::Object(members),
                        "run_id"@,
                    ) {
                        Some(run) => creation_of(response) == Ok::<Seq<char>, Seq<char>>(run),
                        None => creation_of(response) == Err::<Seq<char>, Seq<char>>(
                            "hermes create returned an undecodable body: "@
                                + "error decoding response body"@,
                        ),
                    },
                    Ok(_) => true,
                    Err(_) => creation_of(response) == Err::<Seq<char>, Seq<char>>(
                        "hermes create returned an undecodable body: "@
                            + "error decoding response body"@,
                    ),
                }
            } else {
                creation_of(response) == Err::<Seq<char>, Seq<char>>(
                    "hermes create returned "@ + http::status_text(status) + ": "@
                        + http::body_excerpt(text@),
                )
            },
        },
{
}

/// Only a run that is not found is gone; a request that failed, another refusal and a body
/// that cannot be read leave it to the next look; what was read is what the run's state
/// means.
pub proof fn only_a_missing_run_is_gone(response: Response)
    ensures
        (poll_of(response) is Gone) == (response matches Response::Answered { status, .. }
            && status == 404),
        match response {
            Response::Failed(error) => poll_of(response) == PollModel::Transient(
                "poll request failed: "@ + error@,
            ),
            Response::Answered { status, body, text } => {
                &&& status != 404 && !(200 <= status < 300) ==> poll_of(response)
                    == PollModel::Transient("poll returned "@ + http::status_text(status))
                &&& 200 <= status < 300 && json::parsed_bytes(body@) is Err ==> poll_of(
                    response,
                ) == PollModel::Transient(
                    "poll returned an undecodable body: "@ + "error decoding response body"@,
                )
                &&& 200 <= status < 300 ==> (json::parsed_bytes(body@) matches Ok(document)
                    ==> poll_of(response) == class_of_document(document))
            },
        },
{
}

/// Whether the member `name` of an object is a text, null or absent.
pub open spec fn is_text_or_nothing(document: JsonModel, name: Seq<char>) -> bool {
    match records::member(document, name) {
        None => true,
        Some(value) => value is Text || value is Null,
    }
}

/// A state that is an object is read by its members' names, as they are, and what it means
/// follows from its status, its output and its error: the plain message first.
pub proof fn states_are_read_by_name(document: JsonModel)
    requires
        document is Object,
    ensures
        match status_body_of(document) {
            Some(body) => {
                &&& records::text_member(document, "status"@) == Some(body.status)
                &&& body.output == records::text_member(document, "output"@)
                &&& body.error_message == records::text_member(document, "error_message"@)
                &&& match records::member(document, "error"@) {
                    Some(JsonModel::Null) => body.error is None,
                    other => body.error == other,
                }
                &&& match records::member(document, "last_error"@) {
                    Some(JsonModel::Null) => body.last_error is None,
                    other => body.last_error == other,
                }
                &&& class_of_document(document) == PollModel::Status(
                    classify::class_of(
                        body.status,
                        body.output,
                        match body.error_message {
                            Some(message) => Some(message),
                            None => match records::detail_of(body.error) {
                                Some(message) => Some(message),
                                None => records::detail_of(body.last_error),
                            },
                        },
                    ),
                )
            },
            None => {
                &&& class_of_document(document) == PollModel::Transient(
                    "poll returned an undecodable body: "@ + "error decoding response body"@,
                )
                &&& {
                    ||| records::text_member(document, "status"@) is None
                    ||| !is_text_or_nothing(document, "output"@)
                    ||| !is_text_or_nothing(document, "error_message"@)
                }
            },
        },
{
}

/// A state and a run's name may also come as the list of their fields, each at its own
/// place, and such a list holds no more than there are.
pub proof fn records_may_be_lists(
    status: Seq<char>,
    output: Seq<char>,
    error: JsonModel,
    last_error: JsonModel,
    message: Seq<char>,
    items: Seq<JsonModel>,
)
    requires
        error !is Null,
        last_error !is Null,
    ensures
        status_body_of(
            JsonModel::Array(
                seq![
                    JsonModel::Text(status),
                    JsonModel::Text(output),
                    error,
                    last_error,
                    JsonModel::Text(message),
                ],
            ),
        ) == Some(
            StatusModel {
                status,
                output: Some(output),
                error: Some(error),
                last_error: Some(last_error),
                error_message: Some(message),
            },
        ),
        created_run(JsonModel::Array(seq![JsonModel::Text(status)])) == Some(status),
        items.len() > 5 ==> status_body_of(JsonModel::Array(items)) is None,
        items.len() > 1 ==> created_run(JsonModel::Array(items)) is None,
{
}

/// Every request to the gateway carries the key as a bearer's, kept from view, and one that
/// starts a run its own key besides, by which a repeated one is told.
pub proof fn requests_carry_the_key(
    api_key: &str,
    idempotency_key: &str,
    plain: Headers,
    starting: Headers,
    name: Seq<char>,
)
    requires
        call_ensures(headers, (api_key,), plain),
        call_ensures(create_headers, (api_key, idempotency_key), starting),
    ensures
        plain@.contains_key("authorization"@),
        plain@["authorization"@].value == "Bearer "@ + api_key@,
        plain@["authorization"@].sensitive,
        starting@.contains_key("authorization"@),
        starting@["authorization"@] == plain@["authorization"@],
        starting@.contains_key("idempotency-key"@),
        starting@["idempotency-key"@].value == idempotency_key@,
        name != "authorization"@ ==> !plain@.contains_key(name),
        name != "authorization"@ && name != "idempotency-key"@ ==> !starting@.contains_key(name),
{
    reveal_strlit("authorization");
    reveal_strlit("idempotency-key");
    assert("authorization"@.len() == 13);
    assert("idempotency-key"@.len() == 15);
}

/// Runs are started under the gateway's base and each is looked at under its own name.
pub proof fn runs_have_their_own_place(
    base_url: &str,
    run_id: &str,
    all: Option<String>,
    one: Option<String>,
)
    requires
        call_ensures(runs_url, (base_url,), all),
        call_ensures(run_url, (base_url, run_id), one),
    ensures
        records::optional_view(all) == http::appended_path(base_url@, seq!["v1"@, "runs"@]),
        records::optional_view(one) == http::appended_path(
            base_url@,
            seq!["v1"@, "runs"@].push(run_id@),
        ),
{
    assert(seq!["v1"@, "runs"@].push(run_id@) =~= seq!["v1"@, "runs"@, run_id@]);
}

} // verus!
