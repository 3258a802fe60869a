//! Which endpoint to reach, as whom, and the adjustments that let one adapter serve
//! every compatible host.
use vstd::prelude::*;
use vstd::string::*;
use crate::json;
use crate::json::{Json, JsonModel};
use crate::text;

verus! {

/// Connection parameters of a Chat Completions endpoint.
///
/// The base URL is taken literally and carries the version segment; a trailing slash is
/// harmless. The key is a secret: it stands in no URL, body, message or description. An
/// empty key leaves the `Authorization` header out.
pub struct OpenAiConfig {
    /// The endpoint's base URL.
    pub base_url: String,
    /// The bearer token.
    pub api_key: String,
    /// The model's name.
    pub model: String,
    /// How long to wait for a connection, in milliseconds.
    pub connect_timeout_ms: u64,
    /// How long the body may stay silent, in milliseconds. Silence is what is bounded: a
    /// long healthy generation may take its time.
    pub read_timeout_ms: u64,
    /// More headers, applied after `Authorization`.
    pub headers: Vec<(String, String)>,
    /// Members merged into the request's body, last.
    pub extra_body: Vec<(String, Json)>,
    /// Whether to stream the response.
    pub streaming: bool,
}

/// The members of the request's body that a config adds.
pub open spec fn extra_members(config: OpenAiConfig) -> Map<Seq<char>, JsonModel> {
    json::members_model(config.extra_body@)
}

impl OpenAiConfig {
    /// A config for `model` at the default endpoint, with `api_key`.
    pub fn new(model: &str, api_key: &str) -> (config: OpenAiConfig)
        ensures
            config.base_url@ == "https://api.openai.com/v1"@,
            config.api_key@ == api_key@,
            config.model@ == model@,
            config.connect_timeout_ms == 10_000,
            config.read_timeout_ms == 30_000,
            config.headers@.len() == 0,
            config.extra_body@.len() == 0,
            config.streaming,
    {
        OpenAiConfig {
            base_url: "https://api.openai.com/v1".to_owned(),
            api_key: api_key.to_owned(),
            model: model.to_owned(),
            connect_timeout_ms: 10_000,
            read_timeout_ms: 30_000,
            headers: Vec::new(),
            extra_body: Vec::new(),
            streaming: true,
        }
    }

    /// Points at another host.
    pub fn with_base_url(self, base_url: &str) -> (config: OpenAiConfig)
        ensures
            config.base_url@ == base_url@,
            config == (OpenAiConfig { base_url: config.base_url, ..self }),
    {
        OpenAiConfig { base_url: base_url.to_owned(), ..self }
    }

    /// Overrides the connection timeout.
    pub fn with_connect_timeout(self, connect_timeout_ms: u64) -> (config: OpenAiConfig)
        ensures
            config == (OpenAiConfig { connect_timeout_ms, ..self }),
    {
        OpenAiConfig { connect_timeout_ms, ..self }
    }

    /// Overrides how long the body may stay silent.
    pub fn with_read_timeout(self, read_timeout_ms: u64) -> (config: OpenAiConfig)
        ensures
            config == (OpenAiConfig { read_timeout_ms, ..self }),
    {
        OpenAiConfig { read_timeout_ms, ..self }
    }

    /// Adds a header.
    pub fn with_header(self, name: &str, value: &str) -> (config: OpenAiConfig)
        ensures
            config.headers@.len() == self.headers@.len() + 1,
            config.headers@.drop_last() == self.headers@,
            config.headers@.last().0@ == name@,
            config.headers@.last().1@ == value@,
            config == (OpenAiConfig { headers: config.headers, ..self }),
    {
        let mut headers = self.headers;
        let ghost before = headers@;
        headers.push((name.to_owned(), value.to_owned()));
        assert(headers@.drop_last() =~= before);
        OpenAiConfig {
            headers,
            base_url: self.base_url,
            api_key: self.api_key,
            model: self.model,
            connect_timeout_ms: self.connect_timeout_ms,
            read_timeout_ms: self.read_timeout_ms,
            extra_body: self.extra_body,
            streaming: self.streaming,
        }
    }

    /// Merges members into the request's body. They come last, so one may correct a
    /// member that is set otherwise.
    pub fn with_extra_body(self, extra_body: &Vec<(String, Json)>) -> (config: OpenAiConfig)
        ensures
            extra_members(config) == extra_members(self).union_prefer_right(
                json::members_model(extra_body@),
            ),
            config == (OpenAiConfig { extra_body: config.extra_body, ..self }),
    {
        let mut members = self.extra_body;
        json::set_all(&mut members, extra_body);
        OpenAiConfig {
            extra_body: members,
            base_url: self.base_url,
            api_key: self.api_key,
            model: self.model,
            connect_timeout_ms: self.connect_timeout_ms,
            read_timeout_ms: self.read_timeout_ms,
            headers: self.headers,
            streaming: self.streaming,
        }
    }

    /// Turns streaming on or off.
    pub fn with_streaming(self, streaming: bool) -> (config: OpenAiConfig)
        ensures
            config == (OpenAiConfig { streaming, ..self }),
    {
        OpenAiConfig { streaming, ..self }
    }
}

/// The headers of a list, quoted, one after the other.
pub open spec fn described_headers(headers: Seq<(String, String)>) -> Seq<char>
    decreases headers.len(),
{
    if headers.len() == 0 {
        Seq::empty()
    } else {
        described_headers(headers.drop_last()) + (if headers.len() > 1 {
            ", ("@
        } else {
            "("@
        }) + text::quoted(headers.last().0@) + ", "@ + text::quoted(headers.last().1@) + ")"@
    }
}

/// What a config's description says: everything but the key.
pub open spec fn described(config: OpenAiConfig) -> Seq<char> {
    "OpenAiConfig { base_url: "@ + text::quoted(config.base_url@)
        + ", api_key: \"<redacted>\", model: "@ + text::quoted(config.model@)
        + ", connect_timeout: "@ + text::span_text(config.connect_timeout_ms as nat)
        + ", read_timeout: "@ + text::span_text(config.read_timeout_ms as nat)
        + ", headers: ["@ + described_headers(config.headers@) + "], extra_body: "@
        + json::debugged(extra_members(config)) + (if config.streaming {
        ", streaming: true }"@
    } else {
        ", streaming: false }"@
    })
}

/// Configs that differ in their keys alone are described alike: a description does not
/// tell the key.
pub proof fn descriptions_do_not_tell_the_key(config: OpenAiConfig, api_key: String)
    ensures
        described(OpenAiConfig { api_key, ..config }) == described(config),
{
}

impl OpenAiConfig {
    /// The headers, quoted, one after the other.
    fn describe_headers(&self) -> (text: String)
        ensures
            text@ == described_headers(self.headers@),
    {
        let mut text = String::new();
        let mut i: usize = 0;
        while i < self.headers.len()
            invariant
                0 <= i <= self.headers@.len(),
                text@ == described_headers(self.headers@.subrange(0, i as int)),
            decreases self.headers@.len() - i,
        {
            assert(self.headers@.subrange(0, i + 1).drop_last() =~= self.headers@.subrange(
                0,
                i as int,
            ));
            text.append(
                if i > 0 {
                    ", ("
                } else {
                    "("
                },
            );
            text.append(text::quote(self.headers[i].0.as_str()).as_str());
            text.append(", ");
            text.append(text::quote(self.headers[i].1.as_str()).as_str());
            text.append(")");
            i += 1;
        }
        assert(self.headers@.subrange(0, i as int) =~= self.headers@);
        text
    }

    /// A description for logs, with the key left out.
    pub fn describe(&self) -> (text: String)
        ensures
            text@ == described(*self),
    {
        let mut text = "OpenAiConfig { base_url: ".to_owned();
        text.append(text::quote(self.base_url.as_str()).as_str());
        text.append(", api_key: \"<redacted>\", model: ");
        text.append(text::quote(self.model.as_str()).as_str());
        text.append(", connect_timeout: ");
        text.append(text::span(self.connect_timeout_ms).as_str());
        text.append(", read_timeout: ");
        text.append(text::span(self.read_timeout_ms).as_str());
        text.append(", headers: [");
        text.append(self.describe_headers().as_str());
        text.append("], extra_body: ");
        match Json::Object(json::copy_members(&self.extra_body)).describe_members() {
            Some(members) => text.append(members.as_str()),
            None => {},
        }
        text.append(
            if self.streaming {
                ", streaming: true }"
            } else {
                ", streaming: false }"
            },
        );
        text
    }
}

/// Why an endpoint's client could not be built.
#[derive(Debug)]
pub enum OpenAiBuildError {
    /// The model's name is empty.
    EmptyModel,
    /// Nothing can be appended to the path of the base URL.
    BaseUrl(String),
    /// A header's name or value is not valid. The value is not told: it may itself be a
    /// credential.
    Header { name: String, reason: String },
    /// The HTTP client could not be made.
    Client(String),
}

/// What an [`OpenAiBuildError`] says.
pub enum BuildErrorModel {
    EmptyModel,
    BaseUrl(Seq<char>),
    Header { name: Seq<char>, reason: Seq<char> },
    Client(Seq<char>),
}

impl View for OpenAiBuildError {
    type V = BuildErrorModel;

    open spec fn view(&self) -> BuildErrorModel {
        match self {
            OpenAiBuildError::EmptyModel => BuildErrorModel::EmptyModel,
            OpenAiBuildError::BaseUrl(url) => BuildErrorModel::BaseUrl(url@),
            OpenAiBuildError::Header { name, reason } => BuildErrorModel::Header {
                name: name@,
                reason: reason@,
            },
            OpenAiBuildError::Client(message) => BuildErrorModel::Client(message@),
        }
    }
}

/// What an error tells.
pub open spec fn error_text(error: BuildErrorModel) -> Seq<char> {
    match error {
        BuildErrorModel::EmptyModel => "model name must be nonempty"@,
        BuildErrorModel::BaseUrl(url) => "base URL must be an http(s) URL that can be a base: "@
            + url,
        BuildErrorModel::Header { name, reason } => "invalid header "@ + text::quoted(name) + ": "@
            + reason,
        BuildErrorModel::Client(message) => "failed to build the HTTP client: "@ + message,
    }
}

impl OpenAiBuildError {
    /// What the error tells.
    pub fn message(&self) -> (text: String)
        ensures
            text@ == error_text(self@),
    {
        match self {
            OpenAiBuildError::EmptyModel => "model name must be nonempty".to_owned(),
            OpenAiBuildError::BaseUrl(url) => {
                let mut text = "base URL must be an http(s) URL that can be a base: ".to_owned();
                text.append(url.as_str());
                text
            },
            OpenAiBuildError::Header { name, reason } => {
                let mut text = "invalid header ".to_owned();
                text.append(text::quote(name.as_str()).as_str());
                text.append(": ");
                text.append(reason.as_str());
                text
            },
            OpenAiBuildError::Client(message) => {
                let mut text = "failed to build the HTTP client: ".to_owned();
                text.append(message.as_str());
                text
            },
        }
    }
}

proof fn lemma_described_headers(headers: Seq<(String, String)>, i: int)
    requires
        0 <= i < headers.len(),
    ensures
        text::occurs(
            described_headers(headers),
            text::quoted(headers[i].0@) + ", "@ + text::quoted(headers[i].1@) + ")"@,
        ),
    decreases headers.len(),
{
    let last = headers.last();
    let front = described_headers(headers.drop_last());
    let opening = if headers.len() > 1 {
        ", ("@
    } else {
        "("@
    };
    if i == headers.len() - 1 {
        let head = front + opening;
        let name = text::quoted(last.0@);
        let value = text::quoted(last.1@);
        let part = name + ", "@ + value + ")"@;
        let whole = head + name + ", "@ + value + ")"@;
        assert(whole.subrange(head.len() as int, head.len() + part.len() as int) =~= part);
        assert(text::occurs_at(whole, part, head.len() as int));
    } else {
        let part = text::quoted(headers[i].0@) + ", "@ + text::quoted(headers[i].1@) + ")"@;
        lemma_described_headers(headers.drop_last(), i);
        assert(headers.drop_last()[i] == headers[i]);
        text::lemma_occurs_with_more(front, opening, part);
        let one = front + opening;
        text::lemma_occurs_with_more(one, text::quoted(last.0@), part);
        let two = one + text::quoted(last.0@);
        text::lemma_occurs_with_more(two, ", "@, part);
        text::lemma_occurs_with_more(two + ", "@, text::quoted(last.1@), part);
        text::lemma_occurs_with_more(two + ", "@ + text::quoted(last.1@), ")"@, part);
    }
}

/// A description tells everything but the key: the base, the model, each timeout behind
/// its name, every header, the fields that are added and whether to stream.
pub proof fn descriptions_tell_everything_else(config: OpenAiConfig, i: int)
    ensures
        text::occurs(described(config), "{ base_url: "@ + text::quoted(config.base_url@)),
        text::occurs(described(config), ", model: "@ + text::quoted(config.model@)),
        text::occurs(
            described(config),
            ", connect_timeout: "@ + text::span_text(config.connect_timeout_ms as nat),
        ),
        text::occurs(
            described(config),
            ", read_timeout: "@ + text::span_text(config.read_timeout_ms as nat),
        ),
        0 <= i < config.headers@.len() ==> text::occurs(
            described(config),
            text::quoted(config.headers@[i].0@) + ", "@ + text::quoted(config.headers@[i].1@)
                + ")"@,
        ),
        text::occurs(
            described(config),
            "], extra_body: "@ + json::debugged(extra_members(config)),
        ),
        (if config.streaming {
            ", streaming: true }"@
        } else {
            ", streaming: false }"@
        }).is_suffix_of(described(config)),
{
    reveal_strlit("OpenAiConfig { base_url: ");
    assert("OpenAiConfig { base_url: "@.len() == 25);
    reveal_strlit("OpenAiConfig ");
    assert("OpenAiConfig "@.len() == 13);
    reveal_strlit("{ base_url: ");
    assert("{ base_url: "@.len() == 12);
    reveal_strlit(", api_key: \"<redacted>\", model: ");
    assert(", api_key: \"<redacted>\", model: "@.len() == 32);
    reveal_strlit(", api_key: \"<redacted>\"");
    assert(", api_key: \"<redacted>\""@.len() == 23);
    reveal_strlit(", model: ");
    assert("OpenAiConfig { base_url: "@ =~= "OpenAiConfig "@ + "{ base_url: "@);
    assert(", api_key: \"<redacted>\", model: "@ =~= ", api_key: \"<redacted>\""@
        + ", model: "@);
    let url = text::quoted(config.base_url@);
    let model = text::quoted(config.model@);
    let connect = text::span_text(config.connect_timeout_ms as nat);
    let read = text::span_text(config.read_timeout_ms as nat);
    let headers = described_headers(config.headers@);
    let extra = json::debugged(extra_members(config));
    let streaming = if config.streaming {
        ", streaming: true }"@
    } else {
        ", streaming: false }"@
    };
    let s1 = "OpenAiConfig { base_url: "@ + url;
    let s2 = s1 + ", api_key: \"<redacted>\", model: "@;
    let s3 = s2 + model;
    let s4 = s3 + ", connect_timeout: "@;
    let s5 = s4 + connect;
    let s6 = s5 + ", read_timeout: "@;
    let s7 = s6 + read;
    let s8 = s7 + ", headers: ["@;
    let s9 = s8 + headers;
    let s10 = s9 + "], extra_body: "@;
    let s11 = s10 + extra;
    let whole = s11 + streaming;
    assert(described(config) == whole);
    assert(whole.subrange(whole.len() - streaming.len(), whole.len() as int) =~= streaming);
    text::lemma_occurs_at_the_end(s9, "], extra_body: "@, extra);
    text::lemma_occurs_with_more(s11, streaming, "], extra_body: "@ + extra);
    text::lemma_occurs_at_the_end(s5, ", read_timeout: "@, read);
    lemma_occurs_on(s7, s8, headers, s10, extra, streaming, ", read_timeout: "@ + read);
    text::lemma_occurs_at_the_end(s3, ", connect_timeout: "@, connect);
    let part = ", connect_timeout: "@ + connect;
    text::lemma_occurs_with_more(s5, ", read_timeout: "@, part);
    text::lemma_occurs_with_more(s6, read, part);
    lemma_occurs_on(s7, s8, headers, s10, extra, streaming, part);
    text::lemma_occurs_at_the_end("OpenAiConfig "@, "{ base_url: "@, url);
    lemma_occurs_before(s1, s2, model, connect, read, "{ base_url: "@ + url);
    lemma_occurs_on(s7, s8, headers, s10, extra, streaming, "{ base_url: "@ + url);
    text::lemma_occurs_at_the_end(s1 + ", api_key: \"<redacted>\""@, ", model: "@, model);
    assert(s2 =~= (s1 + ", api_key: \"<redacted>\""@) + ", model: "@);
    let part = ", model: "@ + model;
    text::lemma_occurs_with_more(s3, ", connect_timeout: "@, part);
    text::lemma_occurs_with_more(s4, connect, part);
    text::lemma_occurs_with_more(s5, ", read_timeout: "@, part);
    text::lemma_occurs_with_more(s6, read, part);
    lemma_occurs_on(s7, s8, headers, s10, extra, streaming, part);
    if 0 <= i < config.headers@.len() {
        lemma_described_headers(config.headers@, i);
        let part = text::quoted(config.headers@[i].0@) + ", "@ + text::quoted(
            config.headers@[i].1@,
        ) + ")"@;
        let at = choose|at: int| text::occurs_at(headers, part, at);
        assert(s9.subrange(s8.len() + at, s8.len() + at + part.len()) =~= headers.subrange(
            at,
            at + part.len(),
        ));
        assert(text::occurs_at(s9, part, s8.len() + at));
        text::lemma_occurs_with_more(s9, "], extra_body: "@, part);
        text::lemma_occurs_with_more(s10, extra, part);
        text::lemma_occurs_with_more(s11, streaming, part);
    }
}

/// What the beginning of a description tells is told before the timeouts end.
proof fn lemma_occurs_before(
    s1: Seq<char>,
    s2: Seq<char>,
    model: Seq<char>,
    connect: Seq<char>,
    read: Seq<char>,
    part: Seq<char>,
)
    requires
        text::occurs(s1, part),
        s2 == s1 + ", api_key: \"<redacted>\", model: "@,
    ensures
        text::occurs(
            s2 + model + ", connect_timeout: "@ + connect + ", read_timeout: "@ + read,
            part,
        ),
{
    text::lemma_occurs_with_more(s1, ", api_key: \"<redacted>\", model: "@, part);
    text::lemma_occurs_with_more(s2, model, part);
    text::lemma_occurs_with_more(s2 + model, ", connect_timeout: "@, part);
    text::lemma_occurs_with_more(s2 + model + ", connect_timeout: "@, connect, part);
    text::lemma_occurs_with_more(
        s2 + model + ", connect_timeout: "@ + connect,
        ", read_timeout: "@,
        part,
    );
    text::lemma_occurs_with_more(
        s2 + model + ", connect_timeout: "@ + connect + ", read_timeout: "@,
        read,
        part,
    );
}

/// What a description tells up to the timeouts is told by the whole of it.
proof fn lemma_occurs_on(
    s7: Seq<char>,
    s8: Seq<char>,
    headers: Seq<char>,
    s10: Seq<char>,
    extra: Seq<char>,
    streaming: Seq<char>,
    part: Seq<char>,
)
    requires
        text::occurs(s7, part),
        s8 == s7 + ", headers: ["@,
        s10 == s8 + headers + "], extra_body: "@,
    ensures
        text::occurs(s10 + extra + streaming, part),
{
    text::lemma_occurs_with_more(s7, ", headers: ["@, part);
    text::lemma_occurs_with_more(s8, headers, part);
    text::lemma_occurs_with_more(s8 + headers, "], extra_body: "@, part);
    text::lemma_occurs_with_more(s10, extra, part);
    text::lemma_occurs_with_more(s10 + extra, streaming, part);
}

/// An error says what is wrong and with which part of the config.
pub proof fn errors_name_the_faulty_part(value: Seq<char>, reason: Seq<char>)
    ensures
        error_text(BuildErrorModel::EmptyModel) == "model name must be nonempty"@,
        error_text(BuildErrorModel::BaseUrl(value))
            == "base URL must be an http(s) URL that can be a base: "@ + value,
        error_text(BuildErrorModel::Client(value)) == "failed to build the HTTP client: "@ + value,
        value.is_suffix_of(error_text(BuildErrorModel::BaseUrl(value))),
        value.is_suffix_of(error_text(BuildErrorModel::Client(value))),
        "invalid header "@.is_prefix_of(
            error_text(BuildErrorModel::Header { name: value, reason }),
        ),
        reason.is_suffix_of(error_text(BuildErrorModel::Header { name: value, reason })),
        text::occurs(
            error_text(BuildErrorModel::Header { name: value, reason }),
            text::quoted(value),
        ),
{
    let base = error_text(BuildErrorModel::BaseUrl(value));
    let client = error_text(BuildErrorModel::Client(value));
    let header = error_text(BuildErrorModel::Header { name: value, reason });
    assert(base.subrange(base.len() - value.len(), base.len() as int) =~= value);
    assert(client.subrange(client.len() - value.len(), client.len() as int) =~= value);
    assert(header.subrange(header.len() - reason.len(), header.len() as int) =~= reason);
    text::lemma_occurs_between("invalid header "@, text::quoted(value), ": "@ + reason);
    assert(header =~= "invalid header "@ + text::quoted(value) + (": "@ + reason));
    assert(header.subrange(0, "invalid header "@.len() as int) =~= "invalid header "@);
}

} // verus!
