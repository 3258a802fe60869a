//! The Chat Completions request body, and what an error of a host says.
use vstd::prelude::*;
use vstd::string::*;
use crate::json;
use crate::json::{Json, JsonModel, JsonNumberModel};
use crate::lm;
use crate::lm::{
    Conversation, GenParams, LmError, LmErrorModel, Message, MessageModel, ToolCall, ToolCallModel,
    ToolDefinition, ToolDefinitionModel,
};
use crate::records;

verus! {

/// The message of an error document: a bare string, or an object's string `message`.
/// Anything else is reported as it stands.
pub open spec fn error_message(document: JsonModel) -> Seq<char> {
    match document {
        JsonModel::Text(message) => message,
        _ => match records::text_member(document, "message"@) {
            Some(message) => message,
            None => json::rendered(document),
        },
    }
}

/// The message of an error document.
pub fn error_detail(value: &Json) -> (message: String)
    ensures
        message@ == error_message(value@),
{
    match value {
        Json::Text(message) => message.clone(),
        _ => match records::text_member_of(value, "message") {
            Some(message) => message,
            None => value.to_text(),
        },
    }
}

/// The role and the content of a turn.
pub open spec fn turn(role: Seq<char>, content: JsonModel) -> Map<Seq<char>, JsonModel> {
    Map::empty().insert("role"@, JsonModel::Text(role)).insert("content"@, content)
}

/// One call of an assistant turn. The arguments are JSON text already.
pub open spec fn call_document(call: ToolCallModel) -> JsonModel {
    JsonModel::Object(
        Map::empty().insert("id"@, JsonModel::Text(call.id)).insert(
            "type"@,
            JsonModel::Text("function"@),
        ).insert(
            "function"@,
            JsonModel::Object(
                Map::empty().insert("name"@, JsonModel::Text(call.name)).insert(
                    "arguments"@,
                    JsonModel::Text(call.arguments_json),
                ),
            ),
        ),
    )
}

/// One message of the history.
///
/// An assistant turn with calls has null content rather than empty text, which hosts
/// reject beside calls. A tool's result goes without the tool's name, which stricter
/// hosts reject. There is no role for an event, so it is a labelled user turn.
pub open spec fn message_document(message: MessageModel) -> JsonModel {
    JsonModel::Object(
        match message {
            MessageModel::System { content } => turn("system"@, JsonModel::Text(content)),
            MessageModel::User { content } => turn("user"@, JsonModel::Text(content)),
            MessageModel::Assistant { content, tool_calls } => if tool_calls.len() == 0 {
                turn("assistant"@, JsonModel::Text(content))
            } else {
                turn(
                    "assistant"@,
                    if content.len() == 0 {
                        JsonModel::Null
                    } else {
                        JsonModel::Text(content)
                    },
                ).insert(
                    "tool_calls"@,
                    JsonModel::Array(
                        tool_calls.map_values(|call: ToolCallModel| call_document(call)),
                    ),
                )
            },
            MessageModel::ToolResult { tool_call_id, name, content } => turn(
                "tool"@,
                JsonModel::Text(content),
            ).insert("tool_call_id"@, JsonModel::Text(tool_call_id)),
            MessageModel::Event { source, kind, content } => turn(
                "user"@,
                JsonModel::Text(lm::labelled(source, kind, content)),
            ),
        },
    )
}

/// The declaration of one tool.
pub open spec fn tool_document(tool: ToolDefinitionModel) -> JsonModel {
    JsonModel::Object(
        Map::empty().insert("type"@, JsonModel::Text("function"@)).insert(
            "function"@,
            JsonModel::Object(
                Map::empty().insert("name"@, JsonModel::Text(tool.name)).insert(
                    "description"@,
                    JsonModel::Text(tool.description),
                ).insert("parameters"@, tool.parameters),
            ),
        ),
    )
}

/// The structured-output field for a grammar, which is the text of a JSON Schema.
pub open spec fn format_document(grammar: Seq<char>) -> Result<JsonModel, LmErrorModel> {
    match json::parsed_text(grammar) {
        Err(message) => Err(
            LmErrorModel::Engine("GenParams::grammar must be a JSON Schema document: "@ + message),
        ),
        Ok(schema) => Ok(
            JsonModel::Object(
                Map::empty().insert("type"@, JsonModel::Text("json_schema"@)).insert(
                    "json_schema"@,
                    JsonModel::Object(
                        Map::empty().insert("name"@, JsonModel::Text("response"@)).insert(
                            "schema"@,
                            schema,
                        ),
                    ),
                ),
            ),
        ),
    }
}

/// The members of the request before a host's own fields are merged in. What is not
/// set is left out, and so is an empty list of tools.
pub open spec fn request_members(
    model: Seq<char>,
    conversation: Seq<MessageModel>,
    params: GenParams,
    tools: Seq<ToolDefinitionModel>,
    streaming: bool,
) -> Map<Seq<char>, JsonModel> {
    let base = Map::empty().insert("model"@, JsonModel::Text(model)).insert(
        "messages"@,
        JsonModel::Array(
            conversation.map_values(|message: MessageModel| message_document(message)),
        ),
    );
    let streamed = if streaming {
        base.insert("stream"@, JsonModel::Bool(true))
    } else {
        base
    };
    let tooled = if tools.len() > 0 {
        streamed.insert(
            "tools"@,
            JsonModel::Array(tools.map_values(|tool: ToolDefinitionModel| tool_document(tool))),
        )
    } else {
        streamed
    };
    let bounded = match params.max_tokens {
        Some(n) => tooled.insert(
            "max_tokens"@,
            JsonModel::Number(JsonNumberModel::Unsigned(n as u64)),
        ),
        None => tooled,
    };
    let warmed = match params.temperature {
        Some(temperature) => bounded.insert("temperature"@, temperature@),
        None => bounded,
    };
    match params.grammar {
        Some(grammar) => match format_document(grammar@) {
            Ok(format) => warmed.insert("response_format"@, format),
            Err(_) => warmed,
        },
        None => warmed,
    }
}

/// The request, or why there is none: a grammar that is no JSON Schema document. A
/// host's own fields come last, so one may also correct a field set before.
pub open spec fn request_document(
    model: Seq<char>,
    conversation: Seq<MessageModel>,
    params: GenParams,
    tools: Seq<ToolDefinitionModel>,
    streaming: bool,
    extra_body: Map<Seq<char>, JsonModel>,
) -> Result<JsonModel, LmErrorModel> {
    let document = JsonModel::Object(
        request_members(model, conversation, params, tools, streaming).union_prefer_right(
            extra_body,
        ),
    );
    match params.grammar {
        Some(grammar) => match format_document(grammar@) {
            Ok(_) => Ok(document),
            Err(error) => Err(error),
        },
        None => Ok(document),
    }
}

/// A host's own fields reach it as they are, whatever the request sets besides.
pub proof fn extra_fields_win(
    model: Seq<char>,
    conversation: Seq<MessageModel>,
    params: GenParams,
    tools: Seq<ToolDefinitionModel>,
    streaming: bool,
    extra_body: Map<Seq<char>, JsonModel>,
    key: Seq<char>,
)
    requires
        extra_body.contains_key(key),
    ensures
        match request_document(model, conversation, params, tools, streaming, extra_body) {
            Ok(document) => records::member(document, key) == Some(extra_body[key]),
            Err(_) => params.grammar is Some,
        },
{
}

/// The names that a request uses are told apart.
proof fn lemma_request_names_differ()
    ensures
        "model"@ != "messages"@,
        "model"@ != "stream"@,
        "model"@ != "tools"@,
        "model"@ != "max_tokens"@,
        "model"@ != "temperature"@,
        "model"@ != "response_format"@,
        "messages"@ != "stream"@,
        "messages"@ != "tools"@,
        "messages"@ != "max_tokens"@,
        "messages"@ != "temperature"@,
        "messages"@ != "response_format"@,
        "stream"@ != "tools"@,
        "stream"@ != "max_tokens"@,
        "stream"@ != "temperature"@,
        "stream"@ != "response_format"@,
        "tools"@ != "max_tokens"@,
        "tools"@ != "temperature"@,
        "tools"@ != "response_format"@,
        "max_tokens"@ != "temperature"@,
        "max_tokens"@ != "response_format"@,
        "temperature"@ != "response_format"@,
{
    reveal_strlit("model");
    assert("model"@.len() == 5);
    reveal_strlit("messages");
    assert("messages"@.len() == 8);
    reveal_strlit("stream");
    assert("stream"@.len() == 6);
    reveal_strlit("tools");
    assert("tools"@.len() == 5);
    reveal_strlit("max_tokens");
    assert("max_tokens"@.len() == 10);
    reveal_strlit("temperature");
    assert("temperature"@.len() == 11);
    reveal_strlit("response_format");
    assert("response_format"@.len() == 15);
    assert("model"@[0] != "tools"@[0]);
}

/// The names that a turn and a declaration use are told apart.
proof fn lemma_part_names_differ()
    ensures
        "role"@ != "content"@,
        "role"@ != "tool_calls"@,
        "role"@ != "tool_call_id"@,
        "role"@ != "name"@,
        "content"@ != "tool_calls"@,
        "content"@ != "tool_call_id"@,
        "content"@ != "name"@,
        "tool_calls"@ != "tool_call_id"@,
        "tool_calls"@ != "name"@,
        "tool_call_id"@ != "name"@,
        "id"@ != "type"@,
        "id"@ != "function"@,
        "type"@ != "function"@,
        "type"@ != "json_schema"@,
        "name"@ != "arguments"@,
        "name"@ != "description"@,
        "name"@ != "parameters"@,
        "name"@ != "schema"@,
        "description"@ != "parameters"@,
{
    reveal_strlit("role");
    assert("role"@.len() == 4);
    reveal_strlit("content");
    assert("content"@.len() == 7);
    reveal_strlit("tool_calls");
    assert("tool_calls"@.len() == 10);
    reveal_strlit("tool_call_id");
    assert("tool_call_id"@.len() == 12);
    reveal_strlit("name");
    assert("name"@.len() == 4);
    reveal_strlit("id");
    assert("id"@.len() == 2);
    reveal_strlit("type");
    assert("type"@.len() == 4);
    reveal_strlit("function");
    assert("function"@.len() == 8);
    reveal_strlit("arguments");
    assert("arguments"@.len() == 9);
    reveal_strlit("description");
    assert("description"@.len() == 11);
    reveal_strlit("parameters");
    assert("parameters"@.len() == 10);
    reveal_strlit("json_schema");
    assert("json_schema"@.len() == 11);
    reveal_strlit("schema");
    assert("schema"@.len() == 6);
    assert("role"@[0] != "name"@[0]);
}

/// What a member that is an object holds under `name`.
pub open spec fn inner_member(document: JsonModel, outer: Seq<char>, name: Seq<char>) -> Option<
    JsonModel,
> {
    match records::member(document, outer) {
        Some(inner) => records::member(inner, name),
        None => None,
    }
}

/// Whether `document` reads as a declaration of `tool`.
pub open spec fn declares(document: JsonModel, tool: ToolDefinitionModel) -> bool {
    &&& records::text_member(document, "type"@) == Some("function"@)
    &&& inner_member(document, "function"@, "name"@) == Some(JsonModel::Text(tool.name))
    &&& inner_member(document, "function"@, "description"@) == Some(
        JsonModel::Text(tool.description),
    )
    &&& inner_member(document, "function"@, "parameters"@) == Some(tool.parameters)
}

/// Whether `document` reads as the call `call`.
pub open spec fn replays(document: JsonModel, call: ToolCallModel) -> bool {
    &&& records::text_member(document, "type"@) == Some("function"@)
    &&& records::text_member(document, "id"@) == Some(call.id)
    &&& inner_member(document, "function"@, "name"@) == Some(JsonModel::Text(call.name))
    &&& inner_member(document, "function"@, "arguments"@) == Some(
        JsonModel::Text(call.arguments_json),
    )
}

/// Whether `document` reads as a turn of `role` with `content`.
pub open spec fn speaks(document: JsonModel, role: Seq<char>, content: Seq<char>) -> bool {
    &&& records::text_member(document, "role"@) == Some(role)
    &&& records::text_member(document, "content"@) == Some(content)
}

/// Whether `document` reads as the turn `message`.
pub open spec fn retells(document: JsonModel, message: MessageModel) -> bool {
    match message {
        MessageModel::System { content } => {
            &&& speaks(document, "system"@, content)
            &&& records::member(document, "tool_calls"@) is None
        },
        MessageModel::User { content } => {
            &&& speaks(document, "user"@, content)
            &&& records::member(document, "tool_calls"@) is None
        },
        MessageModel::Assistant { content, tool_calls } => {
            &&& records::text_member(document, "role"@) == Some("assistant"@)
            &&& records::member(document, "content"@) == if content.len() == 0 && tool_calls.len()
                > 0 {
                Some(JsonModel::Null)
            } else {
                Some(JsonModel::Text(content))
            }
            &&& match records::member(document, "tool_calls"@) {
                None => tool_calls.len() == 0,
                Some(JsonModel::Array(items)) => {
                    &&& tool_calls.len() > 0
                    &&& items.len() == tool_calls.len()
                    &&& forall|i: int|
                        0 <= i < items.len() ==> replays(#[trigger] items[i], tool_calls[i])
                },
                Some(_) => false,
            }
        },
        MessageModel::ToolResult { tool_call_id, name: _, content } => {
            &&& speaks(document, "tool"@, content)
            &&& records::text_member(document, "tool_call_id"@) == Some(tool_call_id)
            &&& records::member(document, "name"@) is None
            &&& records::member(document, "tool_calls"@) is None
        },
        MessageModel::Event { source, kind, content } => {
            &&& speaks(document, "user"@, "["@ + source + "/"@ + kind + "] "@ + content)
            &&& records::member(document, "tool_calls"@) is None
        },
    }
}

/// Unless the host's own fields set them, a request offers tools exactly where there
/// are any, whether it streams or not, and what it offers reads back, in order, as the
/// name, the description and the parameters of each.
pub proof fn tools_are_offered_in_order(
    model: Seq<char>,
    conversation: Seq<MessageModel>,
    params: GenParams,
    tools: Seq<ToolDefinitionModel>,
    streaming: bool,
    extra_body: Map<Seq<char>, JsonModel>,
)
    requires
        !extra_body.contains_key("tools"@),
    ensures
        match request_document(model, conversation, params, tools, streaming, extra_body) {
            Ok(document) => match records::member(document, "tools"@) {
                None => tools.len() == 0,
                Some(JsonModel::Array(items)) => {
                    &&& tools.len() > 0
                    &&& items.len() == tools.len()
                    &&& forall|i: int|
                        0 <= i < items.len() ==> declares(#[trigger] items[i], tools[i])
                },
                Some(_) => false,
            },
            Err(_) => params.grammar is Some,
        },
{
    lemma_request_names_differ();
    lemma_part_names_differ();
}

/// Unless the host's own fields set it, the history is sent whole and in order: each
/// turn reads back with its role, its content and its calls.
pub proof fn the_history_is_sent_in_order(
    model: Seq<char>,
    conversation: Seq<MessageModel>,
    params: GenParams,
    tools: Seq<ToolDefinitionModel>,
    streaming: bool,
    extra_body: Map<Seq<char>, JsonModel>,
)
    requires
        !extra_body.contains_key("messages"@),
    ensures
        match request_document(model, conversation, params, tools, streaming, extra_body) {
            Ok(document) => match records::member(document, "messages"@) {
                Some(JsonModel::Array(items)) => {
                    &&& items.len() == conversation.len()
                    &&& forall|i: int|
                        0 <= i < items.len() ==> retells(#[trigger] items[i], conversation[i])
                },
                _ => false,
            },
            Err(_) => params.grammar is Some,
        },
{
    lemma_request_names_differ();
    lemma_part_names_differ();
    let members = request_members(model, conversation, params, tools, streaming);
    let items = conversation.map_values(|message: MessageModel| message_document(message));
    assert(members["messages"@] == JsonModel::Array(items));
    assert forall|i: int| 0 <= i < items.len() implies retells(
        #[trigger] items[i],
        conversation[i],
    ) by {
        assert(items[i] == message_document(conversation[i]));
    }
}

/// What the host's own fields do not set is sent as it was asked for: the model by its
/// name, whether to stream, and each parameter exactly where it is set.
pub proof fn parameters_are_sent_as_set(
    model: Seq<char>,
    conversation: Seq<MessageModel>,
    params: GenParams,
    tools: Seq<ToolDefinitionModel>,
    streaming: bool,
    extra_body: Map<Seq<char>, JsonModel>,
)
    ensures
        match request_document(model, conversation, params, tools, streaming, extra_body) {
            Ok(document) => {
                &&& extra_body.contains_key("model"@) || records::text_member(document, "model"@)
                    == Some(model)
                &&& extra_body.contains_key("stream"@) || records::member(document, "stream"@)
                    == if streaming {
                    Some(JsonModel::Bool(true))
                } else {
                    None
                }
                &&& extra_body.contains_key("max_tokens"@) || match params.max_tokens {
                    Some(n) => records::unsigned_member(document, "max_tokens"@) == Some(n as u64),
                    None => records::member(document, "max_tokens"@) is None,
                }
                &&& extra_body.contains_key("temperature"@) || match params.temperature {
                    Some(temperature) => records::member(document, "temperature"@) == Some(
                        temperature@,
                    ),
                    None => records::member(document, "temperature"@) is None,
                }
                &&& extra_body.contains_key("response_format"@) || match params.grammar {
                    Some(grammar) => match records::member(document, "response_format"@) {
                        Some(format) => {
                            &&& records::text_member(format, "type"@) == Some("json_schema"@)
                            &&& inner_member(format, "json_schema"@, "name"@) == Some(
                                JsonModel::Text("response"@),
                            )
                            &&& json::parsed_text(grammar@) matches Ok(schema)
                            &&& inner_member(format, "json_schema"@, "schema"@) == Some(schema)
                        },
                        None => false,
                    },
                    None => records::member(document, "response_format"@) is None,
                }
            },
            Err(_) => params.grammar is Some,
        },
{
    lemma_request_names_differ();
    lemma_part_names_differ();
}

/// A request holds the fields that this library sets and the host's own, and no others.
pub proof fn nothing_else_is_sent(
    model: Seq<char>,
    conversation: Seq<MessageModel>,
    params: GenParams,
    tools: Seq<ToolDefinitionModel>,
    streaming: bool,
    extra_body: Map<Seq<char>, JsonModel>,
    key: Seq<char>,
)
    requires
        !extra_body.contains_key(key),
        key != "model"@,
        key != "messages"@,
        key != "stream"@,
        key != "tools"@,
        key != "max_tokens"@,
        key != "temperature"@,
        key != "response_format"@,
    ensures
        match request_document(model, conversation, params, tools, streaming, extra_body) {
            Ok(document) => records::member(document, key) is None,
            Err(_) => params.grammar is Some,
        },
{
}

/// A request is refused for one reason alone: a grammar that is no JSON text. The
/// refusal tells why it is none.
pub proof fn only_a_bad_grammar_is_refused(
    model: Seq<char>,
    conversation: Seq<MessageModel>,
    params: GenParams,
    tools: Seq<ToolDefinitionModel>,
    streaming: bool,
    extra_body: Map<Seq<char>, JsonModel>,
)
    ensures
        match request_document(model, conversation, params, tools, streaming, extra_body) {
            Ok(document) => {
                &&& document is Object
                &&& params.grammar matches Some(grammar) ==> json::parsed_text(grammar@) is Ok
            },
            Err(error) => {
                &&& params.grammar matches Some(grammar)
                &&& json::parsed_text(grammar@) matches Err(message)
                &&& error == LmErrorModel::Engine(
                    "GenParams::grammar must be a JSON Schema document: "@ + message,
                )
            },
        },
{
}

/// A host's error is told in the host's words: a text as it is, an object by its
/// message, and what is neither as it stands.
pub proof fn errors_are_told_in_the_hosts_words(message: Seq<char>, document: JsonModel)
    ensures
        error_message(JsonModel::Text(message)) == message,
        records::member(document, "message"@) == Some(JsonModel::Text(message)) ==> error_message(
            document,
        ) == message,
        document !is Text && records::text_member(document, "message"@) is None ==> error_message(
            document,
        ) == json::rendered(document),
{
}

/// Replays one assistant tool call.
fn render_tool_call(call: &ToolCall) -> (document: Json)
    ensures
        document@ == call_document(call@),
{
    let mut function: Vec<(String, Json)> = Vec::new();
    json::set(&mut function, "name", Json::text(call.name.as_str()));
    json::set(&mut function, "arguments", Json::text(call.arguments_json.as_str()));
    let mut members: Vec<(String, Json)> = Vec::new();
    json::set(&mut members, "id", Json::text(call.id.as_str()));
    json::set(&mut members, "type", Json::text("function"));
    json::set(&mut members, "function", Json::Object(function));
    Json::Object(members)
}

/// Renders one message of the history.
fn render_message(message: &Message) -> (document: Json)
    ensures
        document@ == message_document(message@),
{
    let mut members: Vec<(String, Json)> = Vec::new();
    match message {
        Message::System { content } => {
            json::set(&mut members, "role", Json::text("system"));
            json::set(&mut members, "content", Json::text(content.as_str()));
        },
        Message::User { content } => {
            json::set(&mut members, "role", Json::text("user"));
            json::set(&mut members, "content", Json::text(content.as_str()));
        },
        Message::Assistant { content, tool_calls } => {
            json::set(&mut members, "role", Json::text("assistant"));
            if tool_calls.len() == 0 {
                json::set(&mut members, "content", Json::text(content.as_str()));
            } else {
                let value = if content.as_str().is_empty() {
                    Json::Null
                } else {
                    Json::text(content.as_str())
                };
                json::set(&mut members, "content", value);
                let ghost models = lm::calls_model(tool_calls@);
                let ghost render = |call: ToolCallModel| call_document(call);
                let mut calls: Vec<Json> = Vec::new();
                let mut i: usize = 0;
                assert(models.subrange(0, 0).map_values(render) =~= Seq::empty());
                while i < tool_calls.len()
                    invariant
                        0 <= i <= tool_calls@.len(),
                        models == lm::calls_model(tool_calls@),
                        render == (|call: ToolCallModel| call_document(call)),
                        json::items_model(calls@) == models.subrange(0, i as int).map_values(render),
                    decreases tool_calls@.len() - i,
                {
                    let call = render_tool_call(&tool_calls[i]);
                    proof {
                        json::lemma_items_push(calls@, call);
                        assert(models.subrange(0, i + 1).map_values(render) =~= models.subrange(
                            0,
                            i as int,
                        ).map_values(render).push(call@));
                    }
                    calls.push(call);
                    i += 1;
                }
                assert(models.subrange(0, models.len() as int) =~= models);
                json::set(&mut members, "tool_calls", Json::Array(calls));
            }
        },
        Message::ToolResult { tool_call_id, name, content } => {
            json::set(&mut members, "role", Json::text("tool"));
            json::set(&mut members, "content", Json::text(content.as_str()));
            json::set(&mut members, "tool_call_id", Json::text(tool_call_id.as_str()));
        },
        Message::Event { source, kind, content } => {
            let text = lm::label(source.as_str(), kind.as_str(), content.as_str());
            json::set(&mut members, "role", Json::text("user"));
            json::set(&mut members, "content", Json::Text(text));
        },
    }
    Json::Object(members)
}

/// Renders a conversation's history.
pub fn render_messages(conversation: &Conversation) -> (documents: Vec<Json>)
    ensures
        json::items_model(documents@) == conversation@.map_values(
            |message: MessageModel| message_document(message),
        ),
{
    let ghost models = conversation@;
    let ghost render = |message: MessageModel| message_document(message);
    let mut documents: Vec<Json> = Vec::new();
    let mut i: usize = 0;
    assert(models.subrange(0, 0).map_values(render) =~= Seq::empty());
    while i < conversation.messages.len()
        invariant
            0 <= i <= conversation.messages@.len(),
            models == conversation@,
            render == (|message: MessageModel| message_document(message)),
            json::items_model(documents@) == models.subrange(0, i as int).map_values(render),
        decreases conversation.messages@.len() - i,
    {
        let document = render_message(&conversation.messages[i]);
        proof {
            json::lemma_items_push(documents@, document);
            assert(models.subrange(0, i + 1).map_values(render) =~= models.subrange(
                0,
                i as int,
            ).map_values(render).push(document@));
        }
        documents.push(document);
        i += 1;
    }
    assert(models.subrange(0, models.len() as int) =~= models);
    documents
}

/// Renders tools as function declarations.
pub fn render_tools(tools: &[ToolDefinition]) -> (documents: Vec<Json>)
    ensures
        json::items_model(documents@) == lm::tools_model(tools@).map_values(
            |tool: ToolDefinitionModel| tool_document(tool),
        ),
{
    let ghost models = lm::tools_model(tools@);
    let ghost render = |tool: ToolDefinitionModel| tool_document(tool);
    let mut documents: Vec<Json> = Vec::new();
    let mut i: usize = 0;
    assert(models.subrange(0, 0).map_values(render) =~= Seq::empty());
    while i < tools.len()
        invariant
            0 <= i <= tools@.len(),
            models == lm::tools_model(tools@),
            render == (|tool: ToolDefinitionModel| tool_document(tool)),
            json::items_model(documents@) == models.subrange(0, i as int).map_values(render),
        decreases tools@.len() - i,
    {
        let tool = &tools[i];
        let mut function: Vec<(String, Json)> = Vec::new();
        json::set(&mut function, "name", Json::text(tool.name.as_str()));
        json::set(&mut function, "description", Json::text(tool.description.as_str()));
        json::set(&mut function, "parameters", tool.parameters.copy());
        let mut members: Vec<(String, Json)> = Vec::new();
        json::set(&mut members, "type", Json::text("function"));
        json::set(&mut members, "function", Json::Object(function));
        let document = Json::Object(members);
        proof {
            json::lemma_items_push(documents@, document);
            assert(document@ == tool_document(tool@));
            assert(models.subrange(0, i + 1).map_values(render) =~= models.subrange(
                0,
                i as int,
            ).map_values(render).push(document@));
        }
        documents.push(document);
        i += 1;
    }
    assert(models.subrange(0, models.len() as int) =~= models);
    documents
}

/// Reads a grammar as a JSON Schema document and wraps it in the structured-output
/// field. Text that is not JSON is an error rather than a constraint that is dropped.
pub fn response_format(grammar: &str) -> (format: Result<Json, LmError>)
    ensures
        match format {
            Ok(document) => format_document(grammar@) == Ok::<JsonModel, LmErrorModel>(document@),
            Err(error) => format_document(grammar@) == Err::<JsonModel, LmErrorModel>(error@),
        },
{
    match Json::parse(grammar) {
        Err(message) => {
            let mut detail = "GenParams::grammar must be a JSON Schema document: ".to_owned();
            detail.append(message.as_str());
            Err(LmError::Engine(detail))
        },
        Ok(schema) => {
            let mut inner: Vec<(String, Json)> = Vec::new();
            json::set(&mut inner, "name", Json::text("response"));
            json::set(&mut inner, "schema", schema);
            let mut members: Vec<(String, Json)> = Vec::new();
            json::set(&mut members, "type", Json::text("json_schema"));
            json::set(&mut members, "json_schema", Json::Object(inner));
            Ok(Json::Object(members))
        },
    }
}

/// Builds the body of a completion request.
pub fn build_request(
    model: &str,
    conversation: &Conversation,
    params: &GenParams,
    tools: &[ToolDefinition],
    streaming: bool,
    extra_body: &Vec<(String, Json)>,
) -> (request: Result<Json, LmError>)
    ensures
        request_document(
            model@,
            conversation@,
            *params,
            lm::tools_model(tools@),
            streaming,
            json::members_model(extra_body@),
        ) == (match request {
            Ok(document) => Ok::<JsonModel, LmErrorModel>(document@),
            Err(error) => Err::<JsonModel, LmErrorModel>(error@),
        }),
{
    let mut body: Vec<(String, Json)> = Vec::new();
    json::set(&mut body, "model", Json::text(model));
    json::set(&mut body, "messages", Json::Array(render_messages(conversation)));
    if streaming {
        json::set(&mut body, "stream", Json::Bool(true));
    }
    if tools.len() > 0 {
        json::set(&mut body, "tools", Json::Array(render_tools(tools)));
    }
    match params.max_tokens {
        Some(n) => {
            json::set(&mut body, "max_tokens", Json::unsigned(n as u64));
        },
        None => {},
    }
    match &params.temperature {
        Some(temperature) => {
            json::set(&mut body, "temperature", temperature.copy());
        },
        None => {},
    }
    match &params.grammar {
        Some(grammar) => match response_format(grammar.as_str()) {
            Ok(format) => {
                json::set(&mut body, "response_format", format);
            },
            Err(error) => {
                return Err(error);
            },
        },
        None => {},
    }
    json::set_all(&mut body, extra_body);
    Ok(Json::Object(body))
}

/// What [`build_request`] gives is a request for the model it was given, with the history,
/// the tools and the parameters it was given, and to stream where that was asked, as far as
/// the host's own fields do not set these.
pub proof fn requests_say_what_was_asked(
    model: &str,
    conversation: &Conversation,
    params: &GenParams,
    tools: &[ToolDefinition],
    streaming: bool,
    extra_body: &Vec<(String, Json)>,
    document: Json,
    key: Seq<char>,
)
    requires
        call_ensures(
            build_request,
            (model, conversation, params, tools, streaming, extra_body),
            Ok(document),
        ),
    ensures
        ({
            let extra = json::members_model(extra_body@);
            &&& extra.contains_key(key) ==> records::member(document@, key) == Some(extra[key])
            &&& !extra.contains_key("tools"@) ==> match records::member(document@, "tools"@) {
                None => tools@.len() == 0,
                Some(JsonModel::Array(items)) => {
                    &&& tools@.len() > 0
                    &&& items.len() == tools@.len()
                    &&& forall|i: int|
                        0 <= i < items.len() ==> declares(#[trigger] items[i], tools@[i]@)
                },
                Some(_) => false,
            }
            &&& !extra.contains_key("messages"@) ==> match records::member(
                document@,
                "messages"@,
            ) {
                Some(JsonModel::Array(items)) => {
                    &&& items.len() == conversation.messages@.len()
                    &&& forall|i: int|
                        0 <= i < items.len() ==> retells(
                            #[trigger] items[i],
                            conversation.messages@[i]@,
                        )
                },
                _ => false,
            }
            &&& !extra.contains_key("model"@) ==> records::text_member(document@, "model"@)
                == Some(model@)
            &&& !extra.contains_key("stream"@) ==> records::member(document@, "stream"@) == (
            if streaming {
                Some(JsonModel::Bool(true))
            } else {
                None
            })
            &&& !extra.contains_key("max_tokens"@) ==> match params.max_tokens {
                Some(n) => records::unsigned_member(document@, "max_tokens"@) == Some(n as u64),
                None => records::member(document@, "max_tokens"@) is None,
            }
            &&& !extra.contains_key("temperature"@) ==> match params.temperature {
                Some(temperature) => records::member(document@, "temperature"@) == Some(
                    temperature@,
                ),
                None => records::member(document@, "temperature"@) is None,
            }
        }),
{
    let extra = json::members_model(extra_body@);
    let offered = lm::tools_model(tools@);
    parameters_are_sent_as_set(model@, conversation@, *params, offered, streaming, extra);
    if extra.contains_key(key) {
        extra_fields_win(model@, conversation@, *params, offered, streaming, extra, key);
    }
    if !extra.contains_key("tools"@) {
        tools_are_offered_in_order(model@, conversation@, *params, offered, streaming, extra);
        assert forall|i: int| 0 <= i < tools@.len() implies offered[i] == tools@[i]@ by {}
    }
    if !extra.contains_key("messages"@) {
        the_history_is_sent_in_order(model@, conversation@, *params, offered, streaming, extra);
        assert forall|i: int| 0 <= i < conversation@.len() implies conversation@[i]
            == conversation.messages@[i]@ by {}
    }
}

} // verus!
