//! One validated endpoint, the headers every request carries, and what a bad response
//! means.
use vstd::prelude::*;
use vstd::string::*;
use crate::http;
use crate::http::{HeaderModel, Headers};
use crate::json;
use crate::json::{Json, JsonModel};
use crate::lm;
use crate::lm::{Conversation, GenParams, LmError, LmErrorModel, ToolDefinition};
use crate::openai::config;
use crate::openai::config::{BuildErrorModel, OpenAiBuildError, OpenAiConfig};
use crate::openai::wire;
use crate::records;
use crate::text;

verus! {

/// The URL that requests go to.
pub open spec fn endpoint_of(base_url: Seq<char>) -> Result<Seq<char>, BuildErrorModel> {
    match http::appended_path(base_url, seq!["chat"@, "completions"@]) {
        Some(url) => Ok(url),
        None => Err(BuildErrorModel::BaseUrl(base_url)),
    }
}

/// The URL that requests go to: `chat/completions` under the base, whether or not the
/// base ends in a slash. No version segment is inferred.
pub fn endpoint(base_url: &str) -> (url: Result<String, OpenAiBuildError>)
    ensures
        endpoint_of(base_url@) == (match url {
            Ok(url) => Ok::<Seq<char>, BuildErrorModel>(url@),
            Err(error) => Err::<Seq<char>, BuildErrorModel>(error@),
        }),
{
    let mut segments: Vec<String> = Vec::new();
    segments.push("chat".to_owned());
    segments.push("completions".to_owned());
    assert(text::texts(segments@) =~= seq!["chat"@, "completions"@]);
    match http::append_path(base_url, &segments) {
        Some(url) => Ok(url),
        None => Err(OpenAiBuildError::BaseUrl(base_url.to_owned())),
    }
}

/// The headers after the first `n` of the caller's own, set over `start`; the error is
/// that of the first that is not valid.
pub open spec fn own_headers(
    start: Map<Seq<char>, HeaderModel>,
    headers: Seq<(String, String)>,
) -> Result<Map<Seq<char>, HeaderModel>, BuildErrorModel>
    decreases headers.len(),
{
    if headers.len() == 0 {
        Ok(start)
    } else {
        match own_headers(start, headers.drop_last()) {
            Err(error) => Err(error),
            Ok(before) => {
                let name = headers.last().0@;
                let value = headers.last().1@;
                if !http::is_header_name(name) {
                    Err(BuildErrorModel::Header { name, reason: "invalid HTTP header name"@ })
                } else if !http::is_header_text(value) {
                    Err(
                        BuildErrorModel::Header {
                            name,
                            reason: "value is not valid for an HTTP header"@,
                        },
                    )
                } else {
                    Ok(
                        before.insert(
                            http::canonical_name(name),
                            HeaderModel { value, sensitive: false },
                        ),
                    )
                }
            },
        }
    }
}

/// The headers every request carries: the bearer token where there is a key, then the
/// caller's own, which may override it.
pub open spec fn headers_of(config: OpenAiConfig) -> Result<
    Map<Seq<char>, HeaderModel>,
    BuildErrorModel,
> {
    let bearer = "Bearer "@ + config.api_key@;
    if config.api_key@.len() == 0 {
        own_headers(Map::empty(), config.headers@)
    } else if !http::is_header_text(bearer) {
        Err(
            BuildErrorModel::Header {
                name: "authorization"@,
                reason: "the API key is not a valid header value"@,
            },
        )
    } else {
        own_headers(
            Map::empty().insert("authorization"@, HeaderModel { value: bearer, sensitive: true }),
            config.headers@,
        )
    }
}

proof fn lemma_own_headers_fail(
    start: Map<Seq<char>, HeaderModel>,
    headers: Seq<(String, String)>,
    n: int,
)
    requires
        0 <= n <= headers.len(),
        own_headers(start, headers.subrange(0, n)) is Err,
    ensures
        own_headers(start, headers) == own_headers(start, headers.subrange(0, n)),
    decreases headers.len(),
{
    if n < headers.len() {
        assert(headers.drop_last().subrange(0, n) =~= headers.subrange(0, n));
        lemma_own_headers_fail(start, headers.drop_last(), n);
    } else {
        assert(headers.subrange(0, n) =~= headers);
    }
}

/// Collects the headers every request carries.
pub fn headers(config: &OpenAiConfig) -> (headers: Result<Headers, OpenAiBuildError>)
    ensures
        headers_of(*config) == (match headers {
            Ok(headers) => Ok::<Map<Seq<char>, HeaderModel>, BuildErrorModel>(headers@),
            Err(error) => Err::<Map<Seq<char>, HeaderModel>, BuildErrorModel>(error@),
        }),
        headers matches Ok(headers) ==> headers.wf(),
{
    let mut headers = Headers::new();
    if !config.api_key.as_str().is_empty() {
        let mut value = "Bearer ".to_owned();
        value.append(config.api_key.as_str());
        if !http::is_header_value(value.as_str()) {
            return Err(
                OpenAiBuildError::Header {
                    name: "authorization".to_owned(),
                    reason: "the API key is not a valid header value".to_owned(),
                },
            );
        }
        headers.set("authorization".to_owned(), value, true);
    }
    let ghost start = headers@;
    let ghost own = config.headers@;
    let mut i: usize = 0;
    assert(own.subrange(0, 0) =~= Seq::empty());
    while i < config.headers.len()
        invariant
            0 <= i <= config.headers@.len(),
            own == config.headers@,
            headers.wf(),
            headers_of(*config) == own_headers(start, own),
            own_headers(start, own.subrange(0, i as int)) == Ok::<
                Map<Seq<char>, HeaderModel>,
                BuildErrorModel,
            >(headers@),
        decreases config.headers@.len() - i,
    {
        assert(own.subrange(0, i + 1).drop_last() =~= own.subrange(0, i as int));
        let name = &config.headers[i].0;
        let value = &config.headers[i].1;
        let canonical = match http::header_name(name.as_str()) {
            Ok(canonical) => canonical,
            Err(reason) => {
                proof {
                    lemma_own_headers_fail(start, own, i + 1);
                }
                return Err(OpenAiBuildError::Header { name: name.clone(), reason });
            },
        };
        if !http::is_header_value(value.as_str()) {
            proof {
                lemma_own_headers_fail(start, own, i + 1);
            }
            return Err(
                OpenAiBuildError::Header {
                    name: name.clone(),
                    reason: "value is not valid for an HTTP header".to_owned(),
                },
            );
        }
        headers.set(canonical, value.clone(), false);
        i += 1;
    }
    assert(own.subrange(0, own.len() as int) =~= own);
    Ok(headers)
}

/// Cuts a response body for a message.
pub fn excerpt(body: &str) -> (out: String)
    ensures
        out@ == http::body_excerpt(body@),
{
    http::excerpt(body)
}

/// What a response's status means before its body is read as an answer: `None` where the
/// answer is to be read, and otherwise the error, which keeps the status so that one
/// failure can be told from another.
pub open spec fn refusal_of(status: u16, body: Seq<char>) -> Option<LmErrorModel> {
    if http::is_success(status) {
        None
    } else {
        Some(
            LmErrorModel::Engine(
                "completion request returned "@ + http::status_text(status) + ": "@
                    + http::body_excerpt(body),
            ),
        )
    }
}

/// What a response's status means before its body is read as an answer.
pub fn refusal(status: u16, body: &str) -> (error: Option<LmError>)
    requires
        100 <= status <= 999,
    ensures
        refusal_of(status, body@) == (match error {
            Some(error) => Some(error@),
            None => None,
        }),
{
    if 200 <= status && status < 300 {
        return None;
    }
    let mut message = "completion request returned ".to_owned();
    message.append(http::status_line(status).as_str());
    message.append(": ");
    message.append(excerpt(body).as_str());
    Some(LmError::Engine(message))
}

/// That a request did not come through.
pub fn request_failed(error: &str) -> (failure: LmError)
    ensures
        failure@ == LmErrorModel::Engine("completion request failed: "@ + error@),
{
    let mut message = "completion request failed: ".to_owned();
    message.append(error);
    LmError::Engine(message)
}

/// That a whole response could not be read.
pub fn body_failed(error: &str) -> (failure: LmError)
    ensures
        failure@ == LmErrorModel::ProviderStream("completion body failed: "@ + error@),
{
    let mut message = "completion body failed: ".to_owned();
    message.append(error);
    LmError::ProviderStream(message)
}

/// A client bound to one endpoint. Every fault of a config shows here, before any
/// request.
#[derive(Debug)]
pub struct OpenAiClient {
    pub endpoint: String,
    pub headers: Headers,
    pub model: String,
    pub streaming: bool,
    pub extra_body: Vec<(String, Json)>,
}

/// What is wrong with a config, if anything.
pub open spec fn config_fault(config: OpenAiConfig) -> Option<BuildErrorModel> {
    if config.model@.len() == 0 {
        Some(BuildErrorModel::EmptyModel)
    } else {
        match endpoint_of(config.base_url@) {
            Err(error) => Some(error),
            Ok(_) => match headers_of(config) {
                Err(error) => Some(error),
                Ok(_) => None,
            },
        }
    }
}

impl OpenAiClient {
    /// Resolves `config` into an endpoint and a set of headers.
    pub fn new(config: &OpenAiConfig) -> (client: Result<OpenAiClient, OpenAiBuildError>)
        ensures
            match client {
                Ok(client) => {
                    &&& config_fault(*config) is None
                    &&& endpoint_of(config.base_url@) == Ok::<Seq<char>, BuildErrorModel>(
                        client.endpoint@,
                    )
                    &&& headers_of(*config) == Ok::<Map<Seq<char>, HeaderModel>, BuildErrorModel>(
                        client.headers@,
                    )
                    &&& client.headers.wf()
                    &&& client.model@ == config.model@
                    &&& client.streaming == config.streaming
                    &&& json::members_model(client.extra_body@) == config::extra_members(*config)
                },
                Err(error) => config_fault(*config) == Some(error@),
            },
    {
        if config.model.as_str().is_empty() {
            return Err(OpenAiBuildError::EmptyModel);
        }
        let endpoint = match endpoint(config.base_url.as_str()) {
            Ok(endpoint) => endpoint,
            Err(error) => {
                return Err(error);
            },
        };
        let headers = match headers(config) {
            Ok(headers) => headers,
            Err(error) => {
                return Err(error);
            },
        };
        Ok(
            OpenAiClient {
                endpoint,
                headers,
                model: config.model.clone(),
                streaming: config.streaming,
                extra_body: json::copy_members(&config.extra_body),
            },
        )
    }

    /// Whether responses are streamed.
    pub fn streaming(&self) -> (streaming: bool)
        ensures
            streaming == self.streaming,
    {
        self.streaming
    }

    /// Renders the body of one generation's request.
    pub fn request_body(
        &self,
        conversation: &Conversation,
        params: &GenParams,
        tools: &[ToolDefinition],
    ) -> (body: Result<Json, LmError>)
        ensures
            wire::request_document(
                self.model@,
                conversation@,
                *params,
                lm::tools_model(tools@),
                self.streaming,
                json::members_model(self.extra_body@),
            ) == (match body {
                Ok(document) => Ok::<JsonModel, LmErrorModel>(document@),
                Err(error) => Err::<JsonModel, LmErrorModel>(error@),
            }),
    {
        wire::build_request(
            self.model.as_str(),
            conversation,
            params,
            tools,
            self.streaming,
            &self.extra_body,
        )
    }
}

/// The bearer token goes out as a sensitive header wherever the caller does not set
/// that header, and every other header is one of the caller's own.
pub proof fn the_key_goes_out_as_a_bearer_token(config: OpenAiConfig)
    requires
        headers_of(config) is Ok,
        forall|i: int|
            0 <= i < config.headers@.len() ==> http::canonical_name(
                (#[trigger] config.headers@[i]).0@,
            ) != "authorization"@,
    ensures
        ({
            let headers = headers_of(config)->Ok_0;
            if config.api_key@.len() == 0 {
                !headers.contains_key("authorization"@)
            } else {
                headers.contains_key("authorization"@) && headers["authorization"@] == (
                HeaderModel { value: "Bearer "@ + config.api_key@, sensitive: true })
            }
        }),
        forall|name: Seq<char>|
            name != "authorization"@ && #[trigger] headers_of(config)->Ok_0.contains_key(name)
                ==> is_own_header(config.headers@, name, headers_of(config)->Ok_0[name]),
{
    let start = if config.api_key@.len() == 0 {
        Map::empty()
    } else {
        Map::empty().insert(
            "authorization"@,
            HeaderModel { value: "Bearer "@ + config.api_key@, sensitive: true },
        )
    };
    lemma_other_headers_stay(start, config.headers@, "authorization"@);
    assert forall|name: Seq<char>|
        name != "authorization"@ && #[trigger] headers_of(config)->Ok_0.contains_key(
            name,
        ) implies is_own_header(config.headers@, name, headers_of(config)->Ok_0[name]) by {
        lemma_headers_are_own(start, config.headers@, name);
    }
}

/// Whether one of `headers` sets `name` to what `header` says.
pub open spec fn is_own_header(
    headers: Seq<(String, String)>,
    name: Seq<char>,
    header: HeaderModel,
) -> bool {
    exists|i: int|
        0 <= i < headers.len() && http::canonical_name((#[trigger] headers[i]).0@) == name
            && header == (HeaderModel { value: headers[i].1@, sensitive: false })
}

proof fn lemma_headers_are_own(
    start: Map<Seq<char>, HeaderModel>,
    headers: Seq<(String, String)>,
    name: Seq<char>,
)
    requires
        own_headers(start, headers) is Ok,
        own_headers(start, headers)->Ok_0.contains_key(name),
        !start.contains_key(name),
    ensures
        is_own_header(headers, name, own_headers(start, headers)->Ok_0[name]),
    decreases headers.len(),
{
    let before = headers.drop_last();
    let last = headers.len() - 1;
    if http::canonical_name(headers[last].0@) != name {
        lemma_headers_are_own(start, before, name);
        let header = own_headers(start, before)->Ok_0[name];
        let i = choose|i: int|
            0 <= i < before.len() && http::canonical_name((#[trigger] before[i]).0@) == name
                && header == (HeaderModel { value: before[i].1@, sensitive: false });
        assert(headers[i] == before[i]);
    }
}

/// Whether a request can carry `api_key`.
pub open spec fn is_usable_key(api_key: Seq<char>) -> bool {
    api_key.len() == 0 || http::is_header_text("Bearer "@ + api_key)
}

/// Configs that differ in their keys alone, both of which can be sent or neither, are
/// refused alike: an error does not tell the key.
pub proof fn errors_do_not_tell_the_key(config: OpenAiConfig, api_key: String)
    requires
        is_usable_key(config.api_key@) == is_usable_key(api_key@),
    ensures
        config_fault(OpenAiConfig { api_key, ..config }) == config_fault(config),
{
    let one = HeaderModel { value: "Bearer "@ + config.api_key@, sensitive: true };
    let two = HeaderModel { value: "Bearer "@ + api_key@, sensitive: true };
    let none = Map::<Seq<char>, HeaderModel>::empty();
    lemma_faults_are_the_callers(none.insert("authorization"@, one), none, config.headers@);
    lemma_faults_are_the_callers(none.insert("authorization"@, two), none, config.headers@);
}

proof fn lemma_faults_are_the_callers(
    one: Map<Seq<char>, HeaderModel>,
    two: Map<Seq<char>, HeaderModel>,
    headers: Seq<(String, String)>,
)
    ensures
        own_headers(one, headers) is Err == own_headers(two, headers) is Err,
        own_headers(one, headers) is Err ==> own_headers(one, headers)->Err_0 == own_headers(
            two,
            headers,
        )->Err_0,
    decreases headers.len(),
{
    if headers.len() > 0 {
        lemma_faults_are_the_callers(one, two, headers.drop_last());
    }
}

proof fn lemma_other_headers_stay(
    start: Map<Seq<char>, HeaderModel>,
    headers: Seq<(String, String)>,
    name: Seq<char>,
)
    requires
        own_headers(start, headers) is Ok,
        forall|i: int|
            0 <= i < headers.len() ==> http::canonical_name((#[trigger] headers[i]).0@) != name,
    ensures
        own_headers(start, headers)->Ok_0.contains_key(name) == start.contains_key(name),
        start.contains_key(name) ==> own_headers(start, headers)->Ok_0[name] == start[name],
    decreases headers.len(),
{
    if headers.len() > 0 {
        assert forall|i: int| 0 <= i < headers.drop_last().len() implies http::canonical_name(
            (#[trigger] headers.drop_last()[i]).0@,
        ) != name by {
            assert(headers.drop_last()[i] == headers[i]);
        }
        lemma_other_headers_stay(start, headers.drop_last(), name);
        assert(http::canonical_name(headers[headers.len() - 1].0@) != name);
    }
}

proof fn lemma_every_header_is_checked(
    start: Map<Seq<char>, HeaderModel>,
    headers: Seq<(String, String)>,
)
    ensures
        own_headers(start, headers) is Ok <==> forall|i: int|
            0 <= i < headers.len() ==> http::is_header_name((#[trigger] headers[i]).0@)
                && http::is_header_text(headers[i].1@),
    decreases headers.len(),
{
    if headers.len() > 0 {
        let front = headers.drop_last();
        lemma_every_header_is_checked(start, front);
        let last = headers.len() - 1;
        assert(headers[last] == headers.last());
        if own_headers(start, front) is Ok {
            assert forall|i: int| 0 <= i < last implies http::is_header_name(
                (#[trigger] headers[i]).0@,
            ) && http::is_header_text(headers[i].1@) by {
                assert(front[i] == headers[i]);
            }
        } else {
            let i = choose|i: int|
                0 <= i < front.len() && !(http::is_header_name((#[trigger] front[i]).0@)
                    && http::is_header_text(front[i].1@));
            assert(headers[i] == front[i]);
        }
    }
}

/// Headers are taken exactly where each can be sent: the key, if there is one, and every
/// one of the caller's own, by its name and its value.
pub proof fn every_header_is_checked(config: OpenAiConfig)
    ensures
        headers_of(config) is Ok <==> (config.api_key@.len() == 0 || http::is_header_text(
            "Bearer "@ + config.api_key@,
        )) && forall|i: int|
            0 <= i < config.headers@.len() ==> http::is_header_name(
                (#[trigger] config.headers@[i]).0@,
            ) && http::is_header_text(config.headers@[i].1@),
{
    let bearer = HeaderModel { value: "Bearer "@ + config.api_key@, sensitive: true };
    lemma_every_header_is_checked(Map::empty(), config.headers@);
    lemma_every_header_is_checked(
        Map::empty().insert("authorization"@, bearer),
        config.headers@,
    );
}

proof fn lemma_the_last_header_wins(
    start: Map<Seq<char>, HeaderModel>,
    headers: Seq<(String, String)>,
    i: int,
)
    requires
        own_headers(start, headers) is Ok,
        0 <= i < headers.len(),
        forall|j: int|
            i < j < headers.len() ==> http::canonical_name((#[trigger] headers[j]).0@)
                != http::canonical_name(headers[i].0@),
    ensures
        own_headers(start, headers)->Ok_0.contains_key(http::canonical_name(headers[i].0@)),
        own_headers(start, headers)->Ok_0[http::canonical_name(headers[i].0@)].value
            == headers[i].1@,
        !own_headers(start, headers)->Ok_0[http::canonical_name(headers[i].0@)].sensitive,
    decreases headers.len(),
{
    let last = headers.len() - 1;
    let front = headers.drop_last();
    if i < last {
        assert(front[i] == headers[i]);
        assert forall|j: int| i < j < front.len() implies http::canonical_name(
            (#[trigger] front[j]).0@,
        ) != http::canonical_name(front[i].0@) by {
            assert(front[j] == headers[j]);
        }
        lemma_the_last_header_wins(start, front, i);
        assert(http::canonical_name(headers[last].0@) != http::canonical_name(headers[i].0@));
    }
}

/// The caller's own headers are sent with their own values, the later of two of one name
/// in place of the earlier, whatever the case of the name and even in place of the key.
pub proof fn the_callers_last_header_wins(config: OpenAiConfig, i: int)
    requires
        headers_of(config) is Ok,
        0 <= i < config.headers@.len(),
        forall|j: int|
            i < j < config.headers@.len() ==> http::canonical_name(
                (#[trigger] config.headers@[j]).0@,
            ) != http::canonical_name(config.headers@[i].0@),
    ensures
        ({
            let name = http::canonical_name(config.headers@[i].0@);
            &&& headers_of(config)->Ok_0.contains_key(name)
            &&& headers_of(config)->Ok_0[name].value == config.headers@[i].1@
            &&& !headers_of(config)->Ok_0[name].sensitive
        }),
{
    let bearer = HeaderModel { value: "Bearer "@ + config.api_key@, sensitive: true };
    let start = if config.api_key@.len() == 0 {
        Map::empty()
    } else {
        Map::empty().insert("authorization"@, bearer)
    };
    lemma_the_last_header_wins(start, config.headers@, i);
}

/// Requests go to the completions under the base, and a base that has none is refused by
/// name; a config without a model is refused before anything else.
pub proof fn requests_go_to_the_completions(config: OpenAiConfig, url: Seq<char>)
    ensures
        http::appended_path(config.base_url@, seq!["chat"@, "completions"@]) == Some(url)
            ==> endpoint_of(config.base_url@) == Ok::<Seq<char>, BuildErrorModel>(url),
        http::appended_path(config.base_url@, seq!["chat"@, "completions"@]) is None
            ==> endpoint_of(config.base_url@) == Err::<Seq<char>, BuildErrorModel>(
            BuildErrorModel::BaseUrl(config.base_url@),
        ),
        config.model@.len() == 0 ==> config_fault(config) == Some(BuildErrorModel::EmptyModel),
        config_fault(config) is None <==> config.model@.len() > 0 && endpoint_of(
            config.base_url@,
        ) is Ok && headers_of(config) is Ok,
{
}

/// A response that reports success is read, and no other: its error keeps the status and
/// as much of the body as a message holds.
pub proof fn refusals_keep_status_and_body(status: u16, body: Seq<char>)
    ensures
        refusal_of(status, body) is None <==> 200 <= status < 300,
        !(200 <= status < 300) ==> refusal_of(status, body) == Some(
            LmErrorModel::Engine(
                "completion request returned "@ + http::status_text(status) + ": "@
                    + http::body_excerpt(body),
            ),
        ),
{
}

/// A client is bound to what its config says: the completions under the base, the model,
/// whether to stream and the fields that are added, with the headers that every request
/// carries; and the requests it renders are for that model, to stream or not, with those
/// fields.
pub proof fn clients_keep_to_their_config(
    config: &OpenAiConfig,
    client: OpenAiClient,
    conversation: &Conversation,
    params: &GenParams,
    tools: &[ToolDefinition],
    body: Json,
    key: Seq<char>,
)
    requires
        call_ensures(OpenAiClient::new, (config,), Ok(client)),
        call_ensures(OpenAiClient::request_body, (&client, conversation, params, tools), Ok(body)),
    ensures
        http::appended_path(config.base_url@, seq!["chat"@, "completions"@]) == Some(
            client.endpoint@,
        ),
        client.model@ == config.model@,
        client.streaming == config.streaming,
        ({
            let extra = json::members_model(config.extra_body@);
            &&& extra.contains_key(key) ==> records::member(body@, key) == Some(extra[key])
            &&& !extra.contains_key("model"@) ==> records::text_member(body@, "model"@) == Some(
                config.model@,
            )
            &&& !extra.contains_key("stream"@) ==> records::member(body@, "stream"@) == (
            if config.streaming {
                Some(JsonModel::Bool(true))
            } else {
                None
            })
            &&& !extra.contains_key("tools"@) ==> (records::member(body@, "tools"@) is Some
                <==> tools@.len() > 0)
        }),
{
    let extra = json::members_model(config.extra_body@);
    let offered = lm::tools_model(tools@);
    wire::parameters_are_sent_as_set(
        client.model@,
        conversation@,
        *params,
        offered,
        client.streaming,
        extra,
    );
    if extra.contains_key(key) {
        wire::extra_fields_win(
            client.model@,
            conversation@,
            *params,
            offered,
            client.streaming,
            extra,
            key,
        );
    }
    if !extra.contains_key("tools"@) {
        wire::tools_are_offered_in_order(
            client.model@,
            conversation@,
            *params,
            offered,
            client.streaming,
            extra,
        );
    }
}

} // verus!
