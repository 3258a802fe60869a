//! How to reach a gateway, and how long to wait for a turn.
use vstd::prelude::*;
use vstd::string::*;
use crate::records;
use crate::text;

verus! {

/// Connection parameters of a gateway. Which credentials it asks for is its own choice, and
/// none is ever told in a log.
pub struct ZeroclawConfig {
    /// The gateway's base URL.
    pub base_url: String,
    /// The bearer token that pairing gave.
    pub token: Option<String>,
    /// The gateway's webhook secret.
    pub webhook_secret: Option<String>,
    /// The agent to ask; the gateway's default where none is named.
    pub agent: Option<String>,
    /// For one request, which is one whole turn, in milliseconds.
    pub request_timeout_ms: u64,
}

/// A credential in a description: only whether there is one.
pub open spec fn redacted(credential: Option<String>) -> Seq<char> {
    if credential is Some {
        "Some(\"<redacted>\")"@
    } else {
        "None"@
    }
}

/// An optional text in a description.
pub open spec fn shown(value: Option<Seq<char>>) -> Seq<char> {
    match value {
        Some(value) => "Some("@ + text::quoted(value) + ")"@,
        None => "None"@,
    }
}

/// What a config's description says: everything but the credentials.
pub open spec fn described(config: ZeroclawConfig) -> Seq<char> {
    "ZeroclawConfig { base_url: "@ + text::quoted(config.base_url@) + ", token: "@ + redacted(
        config.token,
    ) + ", webhook_secret: "@ + redacted(config.webhook_secret) + ", agent: "@ + shown(
        records::optional_view(config.agent),
    ) + ", request_timeout: "@ + text::span_text(config.request_timeout_ms as nat) + " }"@
}

/// Configs that differ in what their credentials are alone are described alike.
pub proof fn descriptions_do_not_tell_the_credentials(
    config: ZeroclawConfig,
    token: Option<String>,
    webhook_secret: Option<String>,
)
    requires
        (token is Some) == (config.token is Some),
        (webhook_secret is Some) == (config.webhook_secret is Some),
    ensures
        described(ZeroclawConfig { token, webhook_secret, ..config }) == described(config),
{
}

fn redact(credential: &Option<String>) -> (text: &'static str)
    ensures
        text@ == redacted(*credential),
{
    match credential {
        Some(_) => "Some(\"<redacted>\")",
        None => "None",
    }
}

impl Default for ZeroclawConfig {
    fn default() -> (config: ZeroclawConfig)
        ensures
            config.base_url@ == "http://127.0.0.1:42617/"@,
            config.token is None,
            config.webhook_secret is None,
            config.agent is None,
            config.request_timeout_ms == 300_000,
    {
        ZeroclawConfig::new()
    }
}

impl ZeroclawConfig {
    /// A config for the default local gateway, without credentials.
    pub fn new() -> (config: ZeroclawConfig)
        ensures
            config.base_url@ == "http://127.0.0.1:42617/"@,
            config.token is None,
            config.webhook_secret is None,
            config.agent is None,
            config.request_timeout_ms == 300_000,
    {
        ZeroclawConfig {
            base_url: "http://127.0.0.1:42617/".to_owned(),
            token: None,
            webhook_secret: None,
            agent: None,
            request_timeout_ms: 300_000,
        }
    }

    /// Points at another gateway.
    pub fn with_base_url(self, base_url: &str) -> (config: ZeroclawConfig)
        ensures
            config.base_url@ == base_url@,
            config == (ZeroclawConfig { base_url: config.base_url, ..self }),
    {
        ZeroclawConfig { base_url: base_url.to_owned(), ..self }
    }

    /// Authenticates with a bearer token.
    pub fn with_token(self, token: &str) -> (config: ZeroclawConfig)
        ensures
            records::optional_view(config.token) == Some(token@),
            config == (ZeroclawConfig { token: config.token, ..self }),
    {
        ZeroclawConfig { token: Some(token.to_owned()), ..self }
    }

    /// Sends a webhook secret with every request.
    pub fn with_webhook_secret(self, secret: &str) -> (config: ZeroclawConfig)
        ensures
            records::optional_view(config.webhook_secret) == Some(secret@),
            config == (ZeroclawConfig { webhook_secret: config.webhook_secret, ..self }),
    {
        ZeroclawConfig { webhook_secret: Some(secret.to_owned()), ..self }
    }

    /// Asks a certain agent.
    pub fn with_agent(self, agent: &str) -> (config: ZeroclawConfig)
        ensures
            records::optional_view(config.agent) == Some(agent@),
            config == (ZeroclawConfig { agent: config.agent, ..self }),
    {
        ZeroclawConfig { agent: Some(agent.to_owned()), ..self }
    }

    /// Overrides the timeout of a request.
    pub fn with_request_timeout(self, request_timeout_ms: u64) -> (config: ZeroclawConfig)
        ensures
            config == (ZeroclawConfig { request_timeout_ms, ..self }),
    {
        ZeroclawConfig { request_timeout_ms, ..self }
    }

    /// A description for logs, with the credentials left out.
    pub fn describe(&self) -> (text: String)
        ensures
            text@ == described(*self),
    {
        let mut text = "ZeroclawConfig { base_url: ".to_owned();
        text.append(text::quote(self.base_url.as_str()).as_str());
        text.append(", token: ");
        text.append(redact(&self.token));
        text.append(", webhook_secret: ");
        text.append(redact(&self.webhook_secret));
        text.append(", agent: ");
        let mut agent = "None".to_owned();
        match &self.agent {
            Some(name) => {
                agent = "Some(".to_owned();
                agent.append(text::quote(name.as_str()).as_str());
                agent.append(")");
            },
            None => {},
        }
        text.append(agent.as_str());
        text.append(", request_timeout: ");
        text.append(text::span(self.request_timeout_ms).as_str());
        text.append(" }");
        text
    }
}

/// A description tells everything but the credentials, of which it tells whether they are
/// there: the base, the agent and the timeout behind their names.
pub proof fn descriptions_tell_everything_else(config: ZeroclawConfig)
    ensures
        text::occurs(described(config), "{ base_url: "@ + text::quoted(config.base_url@)),
        text::occurs(
            described(config),
            ", token: "@ + (if config.token is Some {
                "Some(\"<redacted>\")"@
            } else {
                "None"@
            }),
        ),
        text::occurs(
            described(config),
            ", webhook_secret: "@ + (if config.webhook_secret is Some {
                "Some(\"<redacted>\")"@
            } else {
                "None"@
            }),
        ),
        text::occurs(
            described(config),
            ", agent: "@ + (match config.agent {
                Some(agent) => "Some("@ + text::quoted(agent@) + ")"@,
                None => "None"@,
            }),
        ),
        text::occurs(
            described(config),
            ", request_timeout: "@ + text::span_text(config.request_timeout_ms as nat),
        ),
{
    reveal_strlit("ZeroclawConfig { base_url: ");
    assert("ZeroclawConfig { base_url: "@.len() == 27);
    reveal_strlit("ZeroclawConfig ");
    assert("ZeroclawConfig "@.len() == 15);
    reveal_strlit("{ base_url: ");
    assert("ZeroclawConfig { base_url: "@ =~= "ZeroclawConfig "@ + "{ base_url: "@);
    let url = text::quoted(config.base_url@);
    let token = redacted(config.token);
    let secret = redacted(config.webhook_secret);
    let agent = shown(records::optional_view(config.agent));
    let timeout = text::span_text(config.request_timeout_ms as nat);
    let s1 = "ZeroclawConfig { base_url: "@ + url;
    let s2 = s1 + ", token: "@ + token;
    let s3 = s2 + ", webhook_secret: "@ + secret;
    let s4 = s3 + ", agent: "@ + agent;
    let s5 = s4 + ", request_timeout: "@ + timeout;
    text::lemma_occurs_at_the_end("ZeroclawConfig "@, "{ base_url: "@, url);
    text::lemma_occurs_at_the_end(s1, ", token: "@, token);
    text::lemma_occurs_at_the_end(s2, ", webhook_secret: "@, secret);
    text::lemma_occurs_at_the_end(s3, ", agent: "@, agent);
    text::lemma_occurs_at_the_end(s4, ", request_timeout: "@, timeout);
    let base = "{ base_url: "@ + url;
    lemma_occurs_on(s1, ", token: "@, token, base);
    lemma_occurs_on(s2, ", webhook_secret: "@, secret, base);
    lemma_occurs_on(s3, ", agent: "@, agent, base);
    lemma_occurs_on(s4, ", request_timeout: "@, timeout, base);
    text::lemma_occurs_with_more(s5, " }"@, base);
    let part = ", token: "@ + token;
    lemma_occurs_on(s2, ", webhook_secret: "@, secret, part);
    lemma_occurs_on(s3, ", agent: "@, agent, part);
    lemma_occurs_on(s4, ", request_timeout: "@, timeout, part);
    text::lemma_occurs_with_more(s5, " }"@, part);
    let part = ", webhook_secret: "@ + secret;
    lemma_occurs_on(s3, ", agent: "@, agent, part);
    lemma_occurs_on(s4, ", request_timeout: "@, timeout, part);
    text::lemma_occurs_with_more(s5, " }"@, part);
    let part = ", agent: "@ + agent;
    lemma_occurs_on(s4, ", request_timeout: "@, timeout, part);
    text::lemma_occurs_with_more(s5, " }"@, part);
    text::lemma_occurs_with_more(s5, " }"@, ", request_timeout: "@ + timeout);
}

proof fn lemma_occurs_on(text: Seq<char>, key: Seq<char>, value: Seq<char>, part: Seq<char>)
    requires
        text::occurs(text, part),
    ensures
        text::occurs(text + key + value, part),
{
    text::lemma_occurs_with_more(text, key, part);
    text::lemma_occurs_with_more(text + key, value, part);
}

} // verus!
