//! The webhook: what is posted to it and what its answers hold.
use vstd::prelude::*;
use vstd::string::*;
use crate::dispatch;
use crate::http;
use crate::http::{HeaderModel, Headers};
use crate::json;
use crate::json::{Json, JsonModel};
use crate::records;
use crate::text;
use crate::zeroclaw::config::ZeroclawConfig;
use crate::zeroclaw::task;
use crate::zeroclaw::task::{Turn, TurnModel};

verus! {

/// The outcome of one request.
#[derive(Debug)]
pub enum PostResult {
    /// The gateway answered.
    Response { status: u16, body: ReplyBody },
    /// The request did not come through; the turn may have run all the same.
    Transport { message: String },
}

/// What is read of an answer, whatever its status.
#[derive(Debug)]
pub struct ReplyBody {
    /// What the agent replied.
    pub response: Option<String>,
    /// What went wrong.
    pub error: Option<String>,
    /// Says so where the request was taken before.
    pub status: Option<String>,
}

/// What a [`ReplyBody`] says.
pub struct ReplyModel {
    pub response: Option<Seq<char>>,
    pub error: Option<Seq<char>>,
    pub status: Option<Seq<char>>,
}

impl View for ReplyBody {
    type V = ReplyModel;

    open spec fn view(&self) -> ReplyModel {
        ReplyModel {
            response: records::optional_view(self.response),
            error: records::optional_view(self.error),
            status: records::optional_view(self.status),
        }
    }
}

impl Default for ReplyBody {
    fn default() -> (body: ReplyBody)
        ensures
            body@ == (ReplyModel { response: None, error: None, status: None }),
    {
        ReplyBody { response: None, error: None, status: None }
    }
}

/// What an answer's document holds; `None` where it has another shape.
pub open spec fn reply_of(document: JsonModel) -> Option<ReplyModel> {
    if !records::is_record(document, 3) {
        None
    } else {
        match (
            records::optional_text(records::field(document, 0, "response"@)),
            records::optional_text(records::field(document, 2, "status"@)),
        ) {
            (Some(response), Some(status)) => Some(
                ReplyModel {
                    response,
                    error: records::detail_of(records::field(document, 1, "error"@)),
                    status,
                },
            ),
            _ => None,
        }
    }
}

/// What an answer's text holds. One that is no such document stands as what went wrong.
pub open spec fn reply_in(text: Seq<char>, document: Option<JsonModel>) -> ReplyModel {
    let read = match document {
        Some(document) => reply_of(document),
        None => None,
    };
    match read {
        Some(reply) => reply,
        None => ReplyModel {
            response: None,
            error: Some(http::body_excerpt(text)),
            status: None,
        },
    }
}

/// The document in a text, where it is one.
pub open spec fn document_in(text: Seq<char>) -> Option<JsonModel> {
    match json::parsed_text(text) {
        Ok(document) => Some(document),
        Err(_) => None,
    }
}

impl ReplyBody {
    /// Reads an answer out of its document.
    pub fn from_json(json: &Json) -> (read: Option<ReplyBody>)
        ensures
            reply_of(json@) == (match read {
                Some(read) => Some(read@),
                None => None,
            }),
    {
        if !records::has_record_shape(json, 3) {
            return None;
        }
        match (
            records::read_optional_text(records::field_of(json, 0, "response")),
            records::read_optional_text(records::field_of(json, 2, "status")),
        ) {
            (Some(response), Some(status)) => Some(
                ReplyBody {
                    response,
                    error: records::value_detail(records::field_of(json, 1, "error")),
                    status,
                },
            ),
            _ => None,
        }
    }

    /// Reads an answer whose document is `document`, where its text is one.
    pub fn of(text: &str, document: Option<&Json>) -> (body: ReplyBody)
        ensures
            body@ == reply_in(text@, records::found_model(document)),
    {
        let read = match document {
            Some(document) => ReplyBody::from_json(document),
            None => None,
        };
        match read {
            Some(body) => body,
            None => ReplyBody { response: None, error: Some(excerpt(text)), status: None },
        }
    }

    /// Reads an answer.
    pub fn parse(text: &str) -> (body: ReplyBody)
        ensures
            body@ == reply_in(text@, document_in(text@)),
    {
        match Json::parse(text) {
            Ok(document) => ReplyBody::of(text, Some(&document)),
            Err(_) => ReplyBody::of(text, None),
        }
    }
}

/// Cuts a response body for a message.
pub fn excerpt(body: &str) -> (out: String)
    ensures
        out@ == http::body_excerpt(body@),
{
    http::excerpt(body)
}

/// The message that opens a task: the task, and the context under a heading.
pub fn compose_message(task: &str, context: Option<&str>) -> (message: String)
    ensures
        message@ == dispatch::with_context(task@, records::optional_str(context)),
{
    dispatch::compose(task, context)
}

/// The exchanges of a transcript, one after the other.
pub open spec fn replay(transcript: Seq<TurnModel>) -> Seq<char>
    decreases transcript.len(),
{
    if transcript.len() == 0 {
        Seq::empty()
    } else {
        replay(transcript.drop_last()) + "User:\n"@ + transcript.last().user + "\n\nYou:\n"@
            + transcript.last().agent + "\n\n"@
    }
}

/// The message that goes on with a task: the transcript so far, then the new message. The
/// webhook starts a fresh conversation every time.
pub open spec fn follow_up(transcript: Seq<TurnModel>, message: Seq<char>) -> Seq<char> {
    if transcript.len() == 0 {
        message
    } else {
        "You are continuing an earlier conversation. The transcript so far:\n\n"@ + replay(
            transcript,
        ) + "The user's new message:\n\n"@ + message
    }
}

/// The message that goes on with a task.
pub fn compose_follow_up(transcript: &[Turn], message: &str) -> (out: String)
    ensures
        out@ == follow_up(task::turns_model(transcript@), message@),
{
    if transcript.len() == 0 {
        return message.to_owned();
    }
    let ghost turns = task::turns_model(transcript@);
    let ghost opening = "You are continuing an earlier conversation. The transcript so far:\n\n"@;
    let mut out =
        "You are continuing an earlier conversation. The transcript so far:\n\n".to_owned();
    let mut i: usize = 0;
    assert(out@ =~= opening + replay(turns.subrange(0, 0)));
    while i < transcript.len()
        invariant
            0 <= i <= transcript@.len(),
            turns == task::turns_model(transcript@),
            out@ == opening + replay(turns.subrange(0, i as int)),
        decreases transcript@.len() - i,
    {
        let turn = &transcript[i];
        out.append("User:\n");
        out.append(turn.user.as_str());
        out.append("\n\nYou:\n");
        out.append(turn.agent.as_str());
        out.append("\n\n");
        proof {
            let next = turns.subrange(0, i + 1);
            assert(next.drop_last() =~= turns.subrange(0, i as int));
            assert(next.last() == turn@);
            assert(out@ =~= opening + replay(next));
        }
        i += 1;
    }
    assert(turns.subrange(0, i as int) =~= turns);
    out.append("The user's new message:\n\n");
    out.append(message);
    out
}

/// The URL that requests go to: `webhook` under the base, with the agent where one is named;
/// `None` where the base has no path to append to.
pub open spec fn webhook_of(base_url: Seq<char>, agent: Option<Seq<char>>) -> Option<Seq<char>> {
    match (http::appended_path(base_url, seq!["webhook"@]), agent) {
        (Some(url), Some(agent)) => http::appended_query(url, "agent"@, agent),
        (url, _) => url,
    }
}

/// The URL that requests go to.
pub fn webhook_url(config: &ZeroclawConfig) -> (url: Option<String>)
    ensures
        records::optional_view(url) == webhook_of(
            config.base_url@,
            records::optional_view(config.agent),
        ),
{
    let mut segments: Vec<String> = Vec::new();
    segments.push("webhook".to_owned());
    assert(text::texts(segments@) =~= seq!["webhook"@]);
    match http::append_path(config.base_url.as_str(), &segments) {
        Some(url) => match &config.agent {
            Some(agent) => http::append_query(url.as_str(), "agent", agent.as_str()),
            None => Some(url),
        },
        None => None,
    }
}

/// The headers a request carries: its own key, by which the gateway tells a repeated
/// request, its task, and the credentials there are.
pub open spec fn headers_of(
    config: ZeroclawConfig,
    session_id: Seq<char>,
    idempotency_key: Seq<char>,
) -> Map<Seq<char>, HeaderModel> {
    let base = Map::empty().insert(
        "x-idempotency-key"@,
        HeaderModel { value: idempotency_key, sensitive: false },
    ).insert("x-session-id"@, HeaderModel { value: session_id, sensitive: false });
    let paired = match config.token {
        Some(token) => base.insert(
            "authorization"@,
            HeaderModel { value: "Bearer "@ + token@, sensitive: true },
        ),
        None => base,
    };
    match config.webhook_secret {
        Some(secret) => paired.insert(
            "x-webhook-secret"@,
            HeaderModel { value: secret@, sensitive: false },
        ),
        None => paired,
    }
}

/// The headers a request carries.
pub fn headers(config: &ZeroclawConfig, session_id: &str, idempotency_key: &str) -> (headers:
    Headers)
    ensures
        headers.wf(),
        headers@ == headers_of(*config, session_id@, idempotency_key@),
{
    let mut headers = Headers::new();
    headers.set("x-idempotency-key".to_owned(), idempotency_key.to_owned(), false);
    headers.set("x-session-id".to_owned(), session_id.to_owned(), false);
    match &config.token {
        Some(token) => {
            let mut value = "Bearer ".to_owned();
            value.append(token.as_str());
            headers.set("authorization".to_owned(), value, true);
        },
        None => {},
    }
    match &config.webhook_secret {
        Some(secret) => {
            headers.set("x-webhook-secret".to_owned(), secret.clone(), false);
        },
        None => {},
    }
    headers
}

/// The body of a request.
pub fn request_body(message: &str) -> (body: Json)
    ensures
        body@ == JsonModel::Object(
            Map::empty().insert("message"@, JsonModel::Text(message@)),
        ),
{
    let mut members: Vec<(String, Json)> = Vec::new();
    json::set(&mut members, "message", Json::text(message));
    Json::Object(members)
}

/// What a request came to: the answer's status and text, or why there is none.
pub open spec fn outcome_of(answer: Result<(u16, String), String>, outcome: PostResult) -> bool {
    match (answer, outcome) {
        (Ok(answer), PostResult::Response { status, body }) => status == answer.0 && body@
            == reply_in(answer.1@, document_in(answer.1@)),
        (Err(error), PostResult::Transport { message }) => message@
            == "zeroclaw webhook request failed: "@ + error@,
        _ => false,
    }
}

/// What a request came to.
pub fn post_result(answer: Result<(u16, String), String>) -> (outcome: PostResult)
    ensures
        outcome_of(answer, outcome),
{
    match answer {
        Ok((status, text)) => PostResult::Response {
            status,
            body: ReplyBody::parse(text.as_str()),
        },
        Err(error) => {
            let mut message = "zeroclaw webhook request failed: ".to_owned();
            message.append(error.as_str());
            PostResult::Transport { message }
        },
    }
}

proof fn lemma_replay_join(first: Seq<TurnModel>, second: Seq<TurnModel>)
    ensures
        replay(first + second) == replay(first) + replay(second),
    decreases second.len(),
{
    if second.len() == 0 {
        assert(first + second =~= first);
        assert(replay(first) + Seq::<char>::empty() =~= replay(first));
    } else {
        lemma_replay_join(first, second.drop_last());
        assert((first + second).drop_last() =~= first + second.drop_last());
        assert((first + second).last() == second.last());
        let last = second.last();
        let words = "User:\n"@ + last.user + "\n\nYou:\n"@ + last.agent + "\n\n"@;
        assert(replay(first + second) =~= replay(first + second.drop_last()) + words);
        assert(replay(second) =~= replay(second.drop_last()) + words);
        assert(replay(first + second) =~= replay(first) + replay(second));
    }
}

/// A task goes on with everything that was said: each exchange stands in the message word
/// for word, what the user asked before what the agent answered, the exchanges follow one
/// another in order, and the new message comes last. With nothing said before, the message
/// goes alone.
pub proof fn every_exchange_is_replayed(
    transcript: Seq<TurnModel>,
    message: Seq<char>,
    i: int,
    rest: Seq<TurnModel>,
)
    ensures
        follow_up(Seq::empty(), message) == message,
        message.is_suffix_of(follow_up(transcript, message)),
        replay(transcript + rest) == replay(transcript) + replay(rest),
        transcript.len() > 0 ==> text::occurs(follow_up(transcript, message), replay(transcript)),
        transcript.len() > 0 ==> {
            &&& "You are continuing an earlier conversation. The transcript so far:\n\n"@.is_prefix_of(
                follow_up(transcript, message),
            )
            &&& ("The user's new message:\n\n"@ + message).is_suffix_of(
                follow_up(transcript, message),
            )
        },
        0 <= i < transcript.len() ==> text::occurs(
            follow_up(transcript, message),
            "User:\n"@ + transcript[i].user + "\n\nYou:\n"@ + transcript[i].agent + "\n\n"@,
        ),
{
    lemma_replay_join(transcript, rest);
    let whole = follow_up(transcript, message);
    assert(whole.subrange(whole.len() - message.len(), whole.len() as int) =~= message);
    if transcript.len() > 0 {
        let head = "You are continuing an earlier conversation. The transcript so far:\n\n"@;
        let tail = "The user's new message:\n\n"@ + message;
        assert(whole =~= head + replay(transcript) + tail);
        assert(whole.subrange(0, head.len() as int) =~= head);
        assert(whole.subrange(whole.len() - tail.len(), whole.len() as int) =~= tail);
        text::lemma_occurs_between(head, replay(transcript), tail);
        if 0 <= i < transcript.len() {
            let before = transcript.subrange(0, i);
            let own = seq![transcript[i]];
            let after = transcript.subrange(i + 1, transcript.len() as int);
            assert(transcript =~= before + own + after);
            lemma_replay_join(before + own, after);
            lemma_replay_join(before, own);
            let words = "User:\n"@ + transcript[i].user + "\n\nYou:\n"@ + transcript[i].agent
                + "\n\n"@;
            assert(own.drop_last() =~= Seq::empty());
            assert(replay(own.drop_last()) =~= Seq::empty());
            assert(replay(own) =~= words);
            assert(whole =~= (head + replay(before)) + words + (replay(after) + tail));
            text::lemma_occurs_between(head + replay(before), words, replay(after) + tail);
        }
    }
}

/// Whether the member `name` of an object is a text, null or absent.
pub open spec fn is_text_or_nothing(document: JsonModel, name: Seq<char>) -> bool {
    match records::member(document, name) {
        None => true,
        Some(value) => value is Text || value is Null,
    }
}

/// An answer that is an object is read by its members' names, as they are: the error's
/// message where the error is a document of its own. One that is no such document is what
/// went wrong, as far as it is told.
pub proof fn answers_are_read_by_name(text: Seq<char>, document: JsonModel)
    requires
        json::parsed_text(text) == Ok::<JsonModel, Seq<char>>(document),
        document is Object,
    ensures
        ({
            let reply = reply_in(text, document_in(text));
            if is_text_or_nothing(document, "response"@) && is_text_or_nothing(
                document,
                "status"@,
            ) {
                &&& reply.response == records::text_member(document, "response"@)
                &&& reply.status == records::text_member(document, "status"@)
                &&& match records::member(document, "error"@) {
                    Some(JsonModel::Text(error)) => reply.error == Some(error),
                    Some(error) => reply.error == records::text_member(error, "message"@),
                    None => reply.error is None,
                }
            } else {
                &&& reply.response is None
                &&& reply.status is None
                &&& reply.error == Some(http::body_excerpt(text))
            }
        }),
{
}

/// An answer that is no JSON is what went wrong, as far as it is told.
pub proof fn unreadable_answers_are_what_went_wrong(text: Seq<char>)
    requires
        json::parsed_text(text) is Err,
    ensures
        reply_in(text, document_in(text)).response is None,
        reply_in(text, document_in(text)).error == Some(http::body_excerpt(text)),
{
}

/// The names of the headers are told apart.
proof fn lemma_header_names_differ()
    ensures
        "x-idempotency-key"@ != "x-session-id"@,
        "x-idempotency-key"@ != "authorization"@,
        "x-idempotency-key"@ != "x-webhook-secret"@,
        "x-session-id"@ != "authorization"@,
        "x-session-id"@ != "x-webhook-secret"@,
        "authorization"@ != "x-webhook-secret"@,
{
    reveal_strlit("x-idempotency-key");
    assert("x-idempotency-key"@.len() == 17);
    reveal_strlit("x-session-id");
    assert("x-session-id"@.len() == 12);
    reveal_strlit("authorization");
    assert("authorization"@.len() == 13);
    reveal_strlit("x-webhook-secret");
    assert("x-webhook-secret"@.len() == 16);
}

/// A request carries its own key and its own task, the token as a bearer's and alone kept
/// from view, and the secret as it is; a credential that is not configured is not sent.
pub proof fn requests_carry_their_own_headers(
    config: ZeroclawConfig,
    session_id: Seq<char>,
    idempotency_key: Seq<char>,
    name: Seq<char>,
)
    ensures
        ({
            let headers = headers_of(config, session_id, idempotency_key);
            &&& headers.contains_key("x-idempotency-key"@)
            &&& headers["x-idempotency-key"@].value == idempotency_key
            &&& !headers["x-idempotency-key"@].sensitive
            &&& headers.contains_key("x-session-id"@)
            &&& headers["x-session-id"@].value == session_id
            &&& !headers["x-session-id"@].sensitive
            &&& headers.contains_key("authorization"@) == (config.token is Some)
            &&& config.token matches Some(token) ==> headers["authorization"@].value
                == "Bearer "@ + token@ && headers["authorization"@].sensitive
            &&& headers.contains_key("x-webhook-secret"@) == (config.webhook_secret is Some)
            &&& config.webhook_secret matches Some(secret) ==> headers["x-webhook-secret"@].value
                == secret@ && !headers["x-webhook-secret"@].sensitive
            &&& name != "x-idempotency-key"@ && name != "x-session-id"@ && name
                != "authorization"@ && name != "x-webhook-secret"@ ==> !headers.contains_key(name)
        }),
{
    lemma_header_names_differ();
}

/// Requests go to the webhook under the base, for the agent that is named where one is.
pub proof fn requests_go_to_the_webhook(base_url: Seq<char>, agent: Seq<char>)
    ensures
        webhook_of(base_url, None) == http::appended_path(base_url, seq!["webhook"@]),
        http::appended_path(base_url, seq!["webhook"@]) matches Some(url) ==> webhook_of(
            base_url,
            Some(agent),
        ) == http::appended_query(url, "agent"@, agent),
        http::appended_path(base_url, seq!["webhook"@]) is None ==> webhook_of(
            base_url,
            Some(agent),
        ) is None,
{
}

/// An answer may also come as the list of its fields, each at its own place, and such a
/// list holds no more than there are.
pub proof fn records_may_be_lists(
    response: Seq<char>,
    error: Seq<char>,
    status: Seq<char>,
    items: Seq<JsonModel>,
)
    ensures
        reply_of(
            JsonModel::Array(
                seq![
                    JsonModel::Text(response),
                    JsonModel::Text(error),
                    JsonModel::Text(status),
                ],
            ),
        ) == Some(
            ReplyModel { response: Some(response), error: Some(error), status: Some(status) },
        ),
        items.len() > 3 ==> reply_of(JsonModel::Array(items)) is None,
{
}

/// A request's body is its message, and what it came to is the answer's status with what
/// the answer holds, or why there is none.
pub proof fn requests_are_answered(
    message: &str,
    body: Json,
    status: u16,
    text: String,
    answered: PostResult,
    error: String,
    failed: PostResult,
)
    requires
        call_ensures(request_body, (message,), body),
        call_ensures(post_result, (Ok((status, text)),), answered),
        call_ensures(post_result, (Err(error),), failed),
    ensures
        records::text_member(body@, "message"@) == Some(message@),
        answered matches PostResult::Response { status: told, body: reply } && told == status
            && reply@ == reply_in(text@, document_in(text@)),
        failed matches PostResult::Transport { message: told } && told@
            == "zeroclaw webhook request failed: "@ + error@,
{
}

} // verus!
