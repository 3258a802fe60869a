//! What a language-model adapter is asked and what it answers.
use vstd::prelude::*;
use vstd::string::*;
use crate::json;
use crate::json::{Json, JsonModel};

verus! {

/// Why a generation failed.
#[derive(Debug, PartialEq, Eq)]
pub enum LmError {
    /// The engine could not run the request.
    Engine(String),
    /// The provider's answer could not be read, or reported a failure.
    ProviderStream(String),
    /// A tool call's arguments are no JSON document.
    InvalidToolArguments(String),
    /// A tool call lacks its id or its name.
    IncompleteToolCall,
    /// A tool call's arguments are JSON, and no object.
    ToolArgumentsNotObject,
}

/// What an [`LmError`] says.
pub enum LmErrorModel {
    Engine(Seq<char>),
    ProviderStream(Seq<char>),
    InvalidToolArguments(Seq<char>),
    IncompleteToolCall,
    ToolArgumentsNotObject,
}

impl View for LmError {
    type V = LmErrorModel;

    open spec fn view(&self) -> LmErrorModel {
        match self {
            LmError::Engine(message) => LmErrorModel::Engine(message@),
            LmError::ProviderStream(message) => LmErrorModel::ProviderStream(message@),
            LmError::InvalidToolArguments(message) => LmErrorModel::InvalidToolArguments(message@),
            LmError::IncompleteToolCall => LmErrorModel::IncompleteToolCall,
            LmError::ToolArgumentsNotObject => LmErrorModel::ToolArgumentsNotObject,
        }
    }
}

/// One complete tool call.
#[derive(Debug, PartialEq, Eq)]
pub struct ToolCall {
    /// What the tool's result is matched by.
    pub id: String,
    /// The tool's name.
    pub name: String,
    /// The arguments, as compact JSON text.
    pub arguments_json: String,
}

/// What a [`ToolCall`] says.
pub struct ToolCallModel {
    pub id: Seq<char>,
    pub name: Seq<char>,
    pub arguments_json: Seq<char>,
}

impl View for ToolCall {
    type V = ToolCallModel;

    open spec fn view(&self) -> ToolCallModel {
        ToolCallModel {
            id: self.id@,
            name: self.name@,
            arguments_json: self.arguments_json@,
        }
    }
}

/// One piece of a model's answer.
#[derive(Debug, PartialEq, Eq)]
pub enum ModelDelta {
    /// Visible text.
    Text(String),
    /// A complete tool call.
    ToolCall(ToolCall),
}

/// What a [`ModelDelta`] says.
pub enum DeltaModel {
    Text(Seq<char>),
    ToolCall(ToolCallModel),
}

impl View for ModelDelta {
    type V = DeltaModel;

    open spec fn view(&self) -> DeltaModel {
        match self {
            ModelDelta::Text(text) => DeltaModel::Text(text@),
            ModelDelta::ToolCall(call) => DeltaModel::ToolCall(call@),
        }
    }
}

/// What one item of a model's answer says.
pub open spec fn item_model(item: Result<ModelDelta, LmError>) -> Result<DeltaModel, LmErrorModel> {
    match item {
        Ok(delta) => Ok(delta@),
        Err(error) => Err(error@),
    }
}

/// The tool call of `id`, `name` and `arguments`: an id and a name are required, and
/// the arguments are an object.
pub open spec fn tool_call_model(
    id: Seq<char>,
    name: Seq<char>,
    arguments: JsonModel,
) -> Result<DeltaModel, LmErrorModel> {
    if id.len() == 0 || name.len() == 0 {
        Err(LmErrorModel::IncompleteToolCall)
    } else if arguments is Object {
        Ok(DeltaModel::ToolCall(
            ToolCallModel { id, name, arguments_json: json::rendered(arguments) },
        ))
    } else {
        Err(LmErrorModel::ToolArgumentsNotObject)
    }
}

impl ModelDelta {
    /// A tool call, or why its parts make none.
    pub fn tool_call(id: String, name: String, arguments: &Json) -> (item: Result<
        ModelDelta,
        LmError,
    >)
        ensures
            item_model(item) == tool_call_model(id@, name@, arguments@),
    {
        if id.as_str().is_empty() || name.as_str().is_empty() {
            return Err(LmError::IncompleteToolCall);
        }
        match arguments {
            Json::Object(_) => Ok(
                ModelDelta::ToolCall(ToolCall { id, name, arguments_json: arguments.to_text() }),
            ),
            _ => Err(LmError::ToolArgumentsNotObject),
        }
    }
}

/// One message of a conversation.
#[derive(Debug)]
pub enum Message {
    /// Instructions.
    System { content: String },
    /// What the user said.
    User { content: String },
    /// What the model said, and the calls it made.
    Assistant { content: String, tool_calls: Vec<ToolCall> },
    /// What a tool returned.
    ToolResult { tool_call_id: String, name: String, content: String },
    /// Something that happened outside the conversation.
    Event { source: String, kind: String, content: String },
}

/// What a [`Message`] says.
pub enum MessageModel {
    System { content: Seq<char> },
    User { content: Seq<char> },
    Assistant { content: Seq<char>, tool_calls: Seq<ToolCallModel> },
    ToolResult { tool_call_id: Seq<char>, name: Seq<char>, content: Seq<char> },
    Event { source: Seq<char>, kind: Seq<char>, content: Seq<char> },
}

/// What a list of calls says.
pub open spec fn calls_model(calls: Seq<ToolCall>) -> Seq<ToolCallModel> {
    calls.map_values(|call: ToolCall| call@)
}

impl View for Message {
    type V = MessageModel;

    open spec fn view(&self) -> MessageModel {
        match self {
            Message::System { content } => MessageModel::System { content: content@ },
            Message::User { content } => MessageModel::User { content: content@ },
            Message::Assistant { content, tool_calls } => MessageModel::Assistant {
                content: content@,
                tool_calls: calls_model(tool_calls@),
            },
            Message::ToolResult { tool_call_id, name, content } => MessageModel::ToolResult {
                tool_call_id: tool_call_id@,
                name: name@,
                content: content@,
            },
            Message::Event { source, kind, content } => MessageModel::Event {
                source: source@,
                kind: kind@,
                content: content@,
            },
        }
    }
}

impl Message {
    /// A system message.
    pub fn system(content: &str) -> (message: Message)
        ensures
            message@ == (MessageModel::System { content: content@ }),
    {
        Message::System { content: content.to_owned() }
    }

    /// A user message.
    pub fn user(content: &str) -> (message: Message)
        ensures
            message@ == (MessageModel::User { content: content@ }),
    {
        Message::User { content: content.to_owned() }
    }

    /// An assistant message without calls.
    pub fn assistant(content: &str) -> (message: Message)
        ensures
            message@ == (MessageModel::Assistant { content: content@, tool_calls: Seq::empty() }),
    {
        let tool_calls: Vec<ToolCall> = Vec::new();
        assert(calls_model(tool_calls@) =~= Seq::empty());
        Message::Assistant { content: content.to_owned(), tool_calls }
    }

    /// An assistant message with the calls it made.
    pub fn assistant_with_tool_calls(content: &str, tool_calls: Vec<ToolCall>) -> (message: Message)
        ensures
            message@ == (MessageModel::Assistant {
                content: content@,
                tool_calls: calls_model(tool_calls@),
            }),
    {
        Message::Assistant { content: content.to_owned(), tool_calls }
    }
}

/// `[source/kind] content`: how an event reads in a conversation.
pub open spec fn labelled(source: Seq<char>, kind: Seq<char>, content: Seq<char>) -> Seq<char> {
    "["@ + source + "/"@ + kind + "] "@ + content
}

/// `[source/kind] content`: how an event reads in a conversation.
pub fn label(source: &str, kind: &str, content: &str) -> (text: String)
    ensures
        text@ == labelled(source@, kind@, content@),
{
    let mut text = "[".to_owned();
    text.append(source);
    text.append("/");
    text.append(kind);
    text.append("] ");
    text.append(content);
    text
}

/// A conversation, oldest message first.
#[derive(Debug)]
pub struct Conversation {
    pub messages: Vec<Message>,
}

impl View for Conversation {
    type V = Seq<MessageModel>;

    open spec fn view(&self) -> Seq<MessageModel> {
        self.messages@.map_values(|message: Message| message@)
    }
}

/// How one generation is to run.
#[derive(Debug)]
pub struct GenParams {
    /// How many tokens to generate at most.
    pub max_tokens: Option<u32>,
    /// The sampling temperature, as the JSON value it is sent as.
    pub temperature: Option<Json>,
    /// What constrains the output.
    pub grammar: Option<String>,
}

/// A tool that the model may call.
#[derive(Debug)]
pub struct ToolDefinition {
    pub name: String,
    pub description: String,
    /// The JSON Schema of the arguments.
    pub parameters: Json,
}

/// What a [`ToolDefinition`] says.
pub struct ToolDefinitionModel {
    pub name: Seq<char>,
    pub description: Seq<char>,
    pub parameters: JsonModel,
}

impl View for ToolDefinition {
    type V = ToolDefinitionModel;

    open spec fn view(&self) -> ToolDefinitionModel {
        ToolDefinitionModel {
            name: self.name@,
            description: self.description@,
            parameters: self.parameters@,
        }
    }
}

/// What a list of tools says.
pub open spec fn tools_model(tools: Seq<ToolDefinition>) -> Seq<ToolDefinitionModel> {
    tools.map_values(|tool: ToolDefinition| tool@)
}

/// A call is made exactly where it has an id, a name and an object for its arguments, and
/// it keeps all three: the arguments as their own JSON text. What makes no call is told
/// by what is missing, an id or a name before the arguments.
pub proof fn calls_keep_their_parts(id: Seq<char>, name: Seq<char>, arguments: JsonModel)
    ensures
        tool_call_model(id, name, arguments) is Ok <==> id.len() > 0 && name.len() > 0
            && arguments is Object,
        tool_call_model(id, name, arguments) matches Ok(delta) ==> delta == DeltaModel::ToolCall(
            ToolCallModel { id, name, arguments_json: json::rendered(arguments) },
        ),
        id.len() == 0 || name.len() == 0 ==> tool_call_model(id, name, arguments) == Err::<
            DeltaModel,
            LmErrorModel,
        >(LmErrorModel::IncompleteToolCall),
        id.len() > 0 && name.len() > 0 && arguments !is Object ==> tool_call_model(
            id,
            name,
            arguments,
        ) == Err::<DeltaModel, LmErrorModel>(LmErrorModel::ToolArgumentsNotObject),
{
}

/// An event reads as its content behind where it is from and what it is.
pub proof fn events_end_with_their_content(
    source: Seq<char>,
    kind: Seq<char>,
    content: Seq<char>,
)
    ensures
        labelled(source, kind, content) == "["@ + source + "/"@ + kind + "] "@ + content,
        content.is_suffix_of(labelled(source, kind, content)),
        ("["@ + source + "/"@ + kind + "]"@).is_prefix_of(labelled(source, kind, content)),
{
    reveal_strlit("]");
    reveal_strlit("] ");
    let whole = labelled(source, kind, content);
    let head = "["@ + source + "/"@ + kind + "]"@;
    assert("] "@ =~= "]"@.push(' '));
    assert(whole.subrange(whole.len() - content.len(), whole.len() as int) =~= content);
    assert(whole.subrange(0, head.len() as int) =~= head);
}

} // verus!
