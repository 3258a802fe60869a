//! How to reach a gateway, and how often to look at its runs.
use vstd::prelude::*;
use vstd::string::*;
use crate::text;

verus! {

/// Connection parameters of a gateway. The key is never told in a log.
pub struct HermesConfig {
    /// The gateway's base URL.
    pub base_url: String,
    /// The bearer token.
    pub api_key: String,
    /// Between looks at every active run, in milliseconds.
    pub poll_interval_ms: u64,
    /// For one request, in milliseconds.
    pub request_timeout_ms: u64,
}

/// What a config's description says: everything but the key.
pub open spec fn described(config: HermesConfig) -> Seq<char> {
    "HermesConfig { base_url: "@ + text::quoted(config.base_url@)
        + ", api_key: \"<redacted>\", poll_interval: "@ + text::span_text(
        config.poll_interval_ms as nat,
    ) + ", request_timeout: "@ + text::span_text(config.request_timeout_ms as nat) + " }"@
}

/// Configs that differ in their keys alone are described alike.
pub proof fn descriptions_do_not_tell_the_key(config: HermesConfig, api_key: String)
    ensures
        described(HermesConfig { api_key, ..config }) == described(config),
{
}

impl HermesConfig {
    /// A config for `api_key` at the default local gateway.
    pub fn new(api_key: &str) -> (config: HermesConfig)
        ensures
            config.base_url@ == "http://127.0.0.1:8642/"@,
            config.api_key@ == api_key@,
            config.poll_interval_ms == 1_000,
            config.request_timeout_ms == 10_000,
    {
        HermesConfig {
            base_url: "http://127.0.0.1:8642/".to_owned(),
            api_key: api_key.to_owned(),
            poll_interval_ms: 1_000,
            request_timeout_ms: 10_000,
        }
    }

    /// Points at another gateway.
    pub fn with_base_url(self, base_url: &str) -> (config: HermesConfig)
        ensures
            config.base_url@ == base_url@,
            config == (HermesConfig { base_url: config.base_url, ..self }),
    {
        HermesConfig { base_url: base_url.to_owned(), ..self }
    }

    /// Overrides how often runs are looked at.
    pub fn with_poll_interval(self, poll_interval_ms: u64) -> (config: HermesConfig)
        ensures
            config == (HermesConfig { poll_interval_ms, ..self }),
    {
        HermesConfig { poll_interval_ms, ..self }
    }

    /// Overrides the timeout of a request.
    pub fn with_request_timeout(self, request_timeout_ms: u64) -> (config: HermesConfig)
        ensures
            config == (HermesConfig { request_timeout_ms, ..self }),
    {
        HermesConfig { request_timeout_ms, ..self }
    }

    /// A description for logs, with the key left out.
    pub fn describe(&self) -> (text: String)
        ensures
            text@ == described(*self),
    {
        let mut text = "HermesConfig { base_url: ".to_owned();
        text.append(text::quote(self.base_url.as_str()).as_str());
        text.append(", api_key: \"<redacted>\", poll_interval: ");
        text.append(text::span(self.poll_interval_ms).as_str());
        text.append(", request_timeout: ");
        text.append(text::span(self.request_timeout_ms).as_str());
        text.append(" }");
        text
    }
}

/// A description tells everything but the key: the base and each interval behind its name.
pub proof fn descriptions_tell_everything_else(config: HermesConfig)
    ensures
        text::occurs(described(config), "{ base_url: "@ + text::quoted(config.base_url@)),
        text::occurs(
            described(config),
            ", poll_interval: "@ + text::span_text(config.poll_interval_ms as nat),
        ),
        text::occurs(
            described(config),
            ", request_timeout: "@ + text::span_text(config.request_timeout_ms as nat),
        ),
{
    reveal_strlit("HermesConfig { base_url: ");
    assert("HermesConfig { base_url: "@.len() == 25);
    reveal_strlit("HermesConfig ");
    assert("HermesConfig "@.len() == 13);
    reveal_strlit("{ base_url: ");
    assert("{ base_url: "@.len() == 12);
    reveal_strlit(", api_key: \"<redacted>\", poll_interval: ");
    assert(", api_key: \"<redacted>\", poll_interval: "@.len() == 40);
    reveal_strlit(", api_key: \"<redacted>\"");
    assert(", api_key: \"<redacted>\""@.len() == 23);
    reveal_strlit(", poll_interval: ");
    assert("HermesConfig { base_url: "@ =~= "HermesConfig "@ + "{ base_url: "@);
    assert(", api_key: \"<redacted>\", poll_interval: "@ =~= ", api_key: \"<redacted>\""@
        + ", poll_interval: "@);
    let url = text::quoted(config.base_url@);
    let interval = text::span_text(config.poll_interval_ms as nat);
    let timeout = text::span_text(config.request_timeout_ms as nat);
    let s1 = "HermesConfig { base_url: "@ + url;
    let s2 = s1 + ", api_key: \"<redacted>\", poll_interval: "@;
    let s3 = s2 + interval;
    let s4 = s3 + ", request_timeout: "@;
    let s5 = s4 + timeout;
    text::lemma_occurs_at_the_end("HermesConfig "@, "{ base_url: "@, url);
    let base = "{ base_url: "@ + url;
    text::lemma_occurs_with_more(s1, ", api_key: \"<redacted>\", poll_interval: "@, base);
    text::lemma_occurs_with_more(s2, interval, base);
    text::lemma_occurs_with_more(s3, ", request_timeout: "@, base);
    text::lemma_occurs_with_more(s4, timeout, base);
    text::lemma_occurs_with_more(s5, " }"@, base);
    text::lemma_occurs_at_the_end(
        s1 + ", api_key: \"<redacted>\""@,
        ", poll_interval: "@,
        interval,
    );
    assert(s2 =~= (s1 + ", api_key: \"<redacted>\""@) + ", poll_interval: "@);
    let polls = ", poll_interval: "@ + interval;
    text::lemma_occurs_with_more(s3, ", request_timeout: "@, polls);
    text::lemma_occurs_with_more(s4, timeout, polls);
    text::lemma_occurs_with_more(s5, " }"@, polls);
    text::lemma_occurs_at_the_end(s3, ", request_timeout: "@, timeout);
    text::lemma_occurs_with_more(s5, " }"@, ", request_timeout: "@ + timeout);
}

} // verus!
