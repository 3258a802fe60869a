//! A language model in a browser, over a text-generation pipeline of the page.
use vstd::prelude::*;
use vstd::string::*;
use crate::llamacpp::config;
use crate::lm;
use crate::lm::{
    Conversation, GenParams, LmError, LmErrorModel, Message, MessageModel, ModelDelta,
    ToolDefinition,
};
use crate::records;

verus! {

/// Which model is loaded, and how long its replies may be.
#[derive(Debug)]
pub struct TransformersLmConfig {
    /// The model's name at the hub.
    pub model: String,
    /// How weights are quantized; the engine's own default where this is absent.
    pub dtype: Option<String>,
    /// What it runs on; the engine's own default where this is absent.
    pub device: Option<String>,
    /// The tokens of a reply where a request sets no limit.
    pub max_new_tokens: u32,
}

/// One option that is set where it is present.
pub open spec fn option_set(
    options: Seq<(Seq<char>, Seq<char>)>,
    key: Seq<char>,
    value: Option<Seq<char>>,
) -> Seq<(Seq<char>, Seq<char>)> {
    match value {
        Some(value) => options.push((key, value)),
        None => options,
    }
}

/// What pairs of texts say.
pub open spec fn pairs_model(pairs: Seq<(String, String)>) -> Seq<(Seq<char>, Seq<char>)> {
    pairs.map_values(|pair: (String, String)| (pair.0@, pair.1@))
}

impl TransformersLmConfig {
    /// Loads `model`, with replies of up to 256 tokens.
    pub fn new(model: &str) -> (config: TransformersLmConfig)
        ensures
            config.model@ == model@,
            config.dtype is None,
            config.device is None,
            config.max_new_tokens == 256,
    {
        TransformersLmConfig {
            model: model.to_owned(),
            dtype: None,
            device: None,
            max_new_tokens: 256,
        }
    }

    /// How the model is loaded, besides who is told of the progress.
    pub fn pipeline_options(&self) -> (options: Vec<(String, String)>)
        ensures
            pairs_model(options@) == option_set(
                option_set(Seq::empty(), "dtype"@, records::optional_view(self.dtype)),
                "device"@,
                records::optional_view(self.device),
            ),
    {
        let mut options: Vec<(String, String)> = Vec::new();
        assert(pairs_model(options@) =~= Seq::empty());
        set(&mut options, "dtype", &self.dtype);
        set(&mut options, "device", &self.device);
        options
    }
}

/// Sets an option where its value is present.
fn set(options: &mut Vec<(String, String)>, key: &str, value: &Option<String>)
    ensures
        pairs_model(final(options)@) == option_set(
            pairs_model(old(options)@),
            key@,
            records::optional_view(*value),
        ),
{
    match value {
        Some(value) => {
            options.push((key.to_owned(), value.clone()));
            assert(pairs_model(options@) =~= pairs_model(old(options)@).push((key@, value@)));
        },
        None => {},
    }
}

/// How one reply is generated.
#[derive(Debug, PartialEq, Eq)]
pub struct GenerateOptions {
    /// The tokens it may have.
    pub max_new_tokens: u32,
    /// Whether it samples, and the bits of the temperature it samples at.
    pub sampling: Option<(bool, u32)>,
}

/// How one reply is generated, or why the temperature cannot be.
pub open spec fn options_of(
    max_new_tokens: u32,
    max_tokens: Option<u32>,
    temperature_bits: Option<u32>,
) -> Result<GenerateOptions, LmErrorModel> {
    let limit = match max_tokens {
        Some(limit) => limit,
        None => max_new_tokens,
    };
    match temperature_bits {
        None => Ok(GenerateOptions { max_new_tokens: limit, sampling: None }),
        Some(bits) => if config::is_temperature(bits) {
            Ok(
                GenerateOptions {
                    max_new_tokens: limit,
                    sampling: Some((!config::is_zero(bits), bits)),
                },
            )
        } else {
            Err(LmErrorModel::Engine("temperature must be finite and non-negative"@))
        },
    }
}

/// What options, or the lack of them, say.
pub open spec fn options_model(options: Result<GenerateOptions, LmError>) -> Result<
    GenerateOptions,
    LmErrorModel,
> {
    match options {
        Ok(options) => Ok(options),
        Err(error) => Err(error@),
    }
}

/// How one reply is generated. The temperature comes by its bits.
pub fn generate_options(
    max_new_tokens: u32,
    max_tokens: Option<u32>,
    temperature_bits: Option<u32>,
) -> (options: Result<GenerateOptions, LmError>)
    ensures
        options_model(options) == options_of(max_new_tokens, max_tokens, temperature_bits),
{
    let limit: u32 = match max_tokens {
        Some(limit) => limit,
        None => max_new_tokens,
    };
    match temperature_bits {
        None => Ok(GenerateOptions { max_new_tokens: limit, sampling: None }),
        Some(bits) => {
            if bits >= 0x7f80_0000 && bits != 0x8000_0000 {
                return Err(
                    LmError::Engine("temperature must be finite and non-negative".to_owned()),
                );
            }
            let samples = bits != 0 && bits != 0x8000_0000;
            Ok(GenerateOptions { max_new_tokens: limit, sampling: Some((samples, bits)) })
        },
    }
}

/// Whether a reply can be generated, and how: text only, since nothing holds a reply to a
/// schema.
pub open spec fn request_of(
    max_new_tokens: u32,
    params: GenParams,
    temperature_bits: Option<u32>,
    tools: nat,
) -> Result<GenerateOptions, LmErrorModel> {
    if tools > 0 {
        Err(LmErrorModel::Engine("TransformersLm does not support tool calling"@))
    } else if params.grammar is Some {
        Err(
            LmErrorModel::Engine(
                "TransformersLm does not support grammar-constrained generation"@,
            ),
        )
    } else {
        options_of(max_new_tokens, params.max_tokens, temperature_bits)
    }
}

/// Whether a reply can be generated, and how.
pub fn request(
    max_new_tokens: u32,
    params: &GenParams,
    temperature_bits: Option<u32>,
    tools: &[ToolDefinition],
) -> (options: Result<GenerateOptions, LmError>)
    ensures
        options_model(options) == request_of(
            max_new_tokens,
            *params,
            temperature_bits,
            tools@.len(),
        ),
{
    if tools.len() > 0 {
        return Err(
            LmError::Engine("TransformersLm does not support tool calling".to_owned()),
        );
    }
    if params.grammar.is_some() {
        return Err(
            LmError::Engine(
                "TransformersLm does not support grammar-constrained generation".to_owned(),
            ),
        );
    }
    generate_options(max_new_tokens, params.max_tokens, temperature_bits)
}

/// One message as the model's chat template takes it: its role and what it says. An event
/// is a user's turn under a label.
pub open spec fn chat_message(message: MessageModel) -> (Seq<char>, Seq<char>) {
    match message {
        MessageModel::System { content } => ("system"@, content),
        MessageModel::User { content } => ("user"@, content),
        MessageModel::Assistant { content, .. } => ("assistant"@, content),
        MessageModel::ToolResult { content, .. } => ("tool"@, content),
        MessageModel::Event { source, kind, content } => (
            "user"@,
            lm::labelled(source, kind, content),
        ),
    }
}

/// The conversation as the model's chat template takes it.
pub fn messages(conversation: &Conversation) -> (messages: Vec<(String, String)>)
    ensures
        pairs_model(messages@) == conversation@.map_values(
            |message: MessageModel| chat_message(message),
        ),
{
    let ghost models = conversation@;
    let ghost render = |message: MessageModel| chat_message(message);
    let mut messages: Vec<(String, String)> = Vec::new();
    let mut i: usize = 0;
    while i < conversation.messages.len()
        invariant
            0 <= i <= conversation.messages@.len(),
            models == conversation@,
            messages@.len() == i,
            forall|j: int|
                0 <= j < i ==> pairs_model(messages@)[j] == chat_message(#[trigger] models[j]),
        decreases conversation.messages@.len() - i,
    {
        let message = &conversation.messages[i];
        let pair = match message {
            Message::System { content } => ("system".to_owned(), content.clone()),
            Message::User { content } => ("user".to_owned(), content.clone()),
            Message::Assistant { content, tool_calls: _ } => (
                "assistant".to_owned(),
                content.clone(),
            ),
            Message::ToolResult { tool_call_id: _, name: _, content } => (
                "tool".to_owned(),
                content.clone(),
            ),
            Message::Event { source, kind, content } => (
                "user".to_owned(),
                lm::label(source.as_str(), kind.as_str(), content.as_str()),
            ),
        };
        proof {
            assert(models[i as int] == message@);
            assert(pairs_model(messages@.push(pair)) =~= pairs_model(messages@).push(
                (pair.0@, pair.1@),
            ));
        }
        messages.push(pair);
        i += 1;
    }
    assert(pairs_model(messages@) =~= models.map_values(render));
    messages
}

/// What a generation handed out.
#[derive(Debug)]
pub enum Pulled {
    /// Nothing more.
    End,
    /// A piece of text.
    Text(String),
    /// Something else, by how it shows.
    Other(String),
    /// It failed.
    Failed(String),
}

/// What becomes of what a generation handed out.
#[derive(Debug)]
pub enum Pull {
    /// The reply is over.
    Over,
    /// A piece without text: the next one is asked for.
    Again,
    /// An item of the reply.
    Item(Result<ModelDelta, LmError>),
}

/// What becomes of what a generation handed out. A piece may be empty, since words are
/// handed out whole.
pub fn pulled(piece: Pulled) -> (pull: Pull)
    ensures
        match (piece, pull) {
            (Pulled::End, Pull::Over) => true,
            (Pulled::Text(text), Pull::Again) => text@.len() == 0,
            (Pulled::Text(text), Pull::Item(item)) => {
                &&& text@.len() > 0
                &&& item matches Ok(ModelDelta::Text(said))
                &&& said@ == text@
            },
            (Pulled::Other(shown), Pull::Item(item)) => item matches Err(error) && error@
                == LmErrorModel::ProviderStream(
                "streamer yielded "@ + shown@ + ", not a string"@,
            ),
            (Pulled::Failed(reason), Pull::Item(item)) => item matches Err(error) && error@
                == LmErrorModel::ProviderStream(reason@),
            _ => false,
        },
{
    match piece {
        Pulled::End => Pull::Over,
        Pulled::Text(text) => if text.as_str().is_empty() {
            Pull::Again
        } else {
            Pull::Item(Ok(ModelDelta::Text(text)))
        },
        Pulled::Other(shown) => {
            let mut message = "streamer yielded ".to_owned();
            message.append(shown.as_str());
            message.append(", not a string");
            Pull::Item(Err(LmError::ProviderStream(message)))
        },
        Pulled::Failed(reason) => Pull::Item(Err(LmError::ProviderStream(reason))),
    }
}

/// A message keeps its voice and its words: each goes under its own role, as it is, and an
/// event goes as a user's with its label.
pub proof fn messages_keep_voice_and_words(
    content: Seq<char>,
    tool_calls: Seq<lm::ToolCallModel>,
    source: Seq<char>,
    kind: Seq<char>,
)
    ensures
        chat_message(MessageModel::System { content }) == ("system"@, content),
        chat_message(MessageModel::User { content }) == ("user"@, content),
        chat_message(MessageModel::Assistant { content, tool_calls }) == ("assistant"@, content),
        chat_message(
            MessageModel::ToolResult { tool_call_id: source, name: kind, content },
        ) == ("tool"@, content),
        chat_message(MessageModel::Event { source, kind, content }) == (
            "user"@,
            "["@ + source + "/"@ + kind + "] "@ + content,
        ),
{
}

/// A reply has the limit that was asked for, or else the configured one; it is sampled at
/// the temperature that was asked for unless that is zero, and as the engine has it where
/// none was. A temperature that is no number or negative is refused, and so are tools and
/// a grammar, tools first.
pub proof fn requests_are_generated_as_asked(
    max_new_tokens: u32,
    params: GenParams,
    bits: u32,
    tools: nat,
)
    ensures
        tools > 0 ==> request_of(max_new_tokens, params, Some(bits), tools) == Err::<
            GenerateOptions,
            LmErrorModel,
        >(LmErrorModel::Engine("TransformersLm does not support tool calling"@)),
        tools == 0 && params.grammar is Some ==> request_of(
            max_new_tokens,
            params,
            Some(bits),
            tools,
        ) == Err::<GenerateOptions, LmErrorModel>(
            LmErrorModel::Engine(
                "TransformersLm does not support grammar-constrained generation"@,
            ),
        ),
        tools == 0 && params.grammar is None ==> {
            let limit = match params.max_tokens {
                Some(limit) => limit,
                None => max_new_tokens,
            };
            &&& request_of(max_new_tokens, params, None, tools) == Ok::<
                GenerateOptions,
                LmErrorModel,
            >(GenerateOptions { max_new_tokens: limit, sampling: None })
            &&& bits == 0 || bits == 0x8000_0000 ==> request_of(
                max_new_tokens,
                params,
                Some(bits),
                tools,
            ) == Ok::<GenerateOptions, LmErrorModel>(
                GenerateOptions { max_new_tokens: limit, sampling: Some((false, bits)) },
            )
            &&& 0 < bits < 0x7f80_0000 ==> request_of(max_new_tokens, params, Some(bits), tools)
                == Ok::<GenerateOptions, LmErrorModel>(
                GenerateOptions { max_new_tokens: limit, sampling: Some((true, bits)) },
            )
            &&& bits >= 0x7f80_0000 && bits != 0x8000_0000 ==> request_of(
                max_new_tokens,
                params,
                Some(bits),
                tools,
            ) == Err::<GenerateOptions, LmErrorModel>(
                LmErrorModel::Engine("temperature must be finite and non-negative"@),
            )
        },
{
}

/// An option is set to its own value where it is present, behind those set before, and
/// left out where it is not.
pub proof fn options_are_set_where_present(
    options: Seq<(Seq<char>, Seq<char>)>,
    key: Seq<char>,
    value: Seq<char>,
)
    ensures
        option_set(options, key, None) == options,
        option_set(options, key, Some(value)) == options + seq![(key, value)],
{
    assert(options.push((key, value)) =~= options + seq![(key, value)]);
}

/// Every message of a conversation is handed to the template, in order, with its voice and
/// its words.
pub proof fn conversations_are_handed_over_whole(
    conversation: &Conversation,
    handed: Vec<(String, String)>,
    i: int,
)
    requires
        call_ensures(messages, (conversation,), handed),
        0 <= i < conversation.messages@.len(),
    ensures
        handed@.len() == conversation.messages@.len(),
        match conversation.messages@[i] {
            Message::System { content } => handed@[i].0@ == "system"@ && handed@[i].1@
                == content@,
            Message::User { content } => handed@[i].0@ == "user"@ && handed@[i].1@ == content@,
            Message::Assistant { content, tool_calls: _ } => handed@[i].0@ == "assistant"@
                && handed@[i].1@ == content@,
            Message::ToolResult { tool_call_id: _, name: _, content } => handed@[i].0@ == "tool"@
                && handed@[i].1@ == content@,
            Message::Event { source, kind, content } => handed@[i].0@ == "user"@ && handed@[i].1@
                == "["@ + source@ + "/"@ + kind@ + "] "@ + content@,
        },
{
    assert(pairs_model(handed@).len() == handed@.len());
    assert(pairs_model(handed@)[i] == (handed@[i].0@, handed@[i].1@));
    assert(conversation@[i] == conversation.messages@[i]@);
}

/// A piece of text that is not empty is said as it is, an empty one is not said, and what
/// is no text or failed is told as a failure of the stream.
pub proof fn pieces_are_said_as_they_come(text: String, reason: String, said: Pull, failed: Pull)
    requires
        call_ensures(pulled, (Pulled::Text(text),), said),
        call_ensures(pulled, (Pulled::Failed(reason),), failed),
    ensures
        text@.len() > 0 ==> (said matches Pull::Item(Ok(ModelDelta::Text(spoken))) && spoken@
            == text@),
        text@.len() == 0 ==> said is Again,
        failed matches Pull::Item(Err(error)) && error@ == LmErrorModel::ProviderStream(reason@),
{
}

} // verus!
