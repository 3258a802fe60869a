//! Tool-calling conventions: how a model family has tools declared in its prompt, how it
//! delimits a call, and how a call is read back.
use vstd::prelude::*;
use vstd::string::*;
use crate::json;
use crate::json::{Json, JsonModel};
use crate::lm;
use crate::lm::{
    LmError, LmErrorModel, ToolCall, ToolCallModel, ToolDefinition, ToolDefinitionModel,
};
use crate::records;
use crate::text;

verus! {

/// The entry rule that a dialect's grammar defines.
pub const TOOL_CALL_ROOT: &'static str = "tool-call";

/// What a call that was read says, or why it cannot be read.
pub open spec fn call_read(call: Result<(String, Json), LmError>) -> Result<
    (Seq<char>, JsonModel),
    LmErrorModel,
> {
    match call {
        Ok((name, arguments)) => Ok((name@, arguments@)),
        Err(error) => Err(error@),
    }
}

/// What a grammar says, or why there is none.
pub open spec fn grammar_read(grammar: Result<String, LmError>) -> Result<Seq<char>, LmErrorModel> {
    match grammar {
        Ok(grammar) => Ok(grammar@),
        Err(error) => Err(error@),
    }
}

/// One model family's tool-calling convention.
///
/// The engine's chat template takes roles and contents alone, so a dialect renders its
/// blocks into the contents and reads calls back out of the decoded text.
pub trait ToolDialect {
    /// The texts that the methods return.
    spec fn label_text(&self) -> Seq<char>;

    spec fn model_names(&self) -> Seq<Seq<char>>;

    spec fn covers(&self, model_name: Seq<char>) -> bool;

    spec fn declarations_text(&self, tools: Seq<ToolDefinitionModel>) -> Seq<char>;

    spec fn calls_text(&self, calls: Seq<ToolCallModel>) -> Seq<char>;

    spec fn result_role(&self) -> Seq<char>;

    spec fn result_text(&self, content: Seq<char>) -> Seq<char>;

    spec fn open_text(&self) -> Seq<char>;

    spec fn close_text(&self) -> Seq<char>;

    spec fn schema_text(&self, tools: Seq<ToolDefinitionModel>) -> Seq<char>;

    spec fn grammar_text(&self, tools: Seq<ToolDefinitionModel>, converted: Seq<char>) -> Result<
        Seq<char>,
        LmErrorModel,
    >;

    spec fn call_in(&self, body: Seq<char>) -> Result<(Seq<char>, JsonModel), LmErrorModel>;

    /// The dialect's name.
    fn label(&self) -> (label: String)
        ensures
            label@ == self.label_text(),
    ;

    /// Parts of the names of the models this dialect covers.
    fn supported_models(&self) -> (models: Vec<String>)
        ensures
            text::texts(models@) == self.model_names(),
    ;

    /// Whether the dialect covers a model of `model_name`. One that goes by the names it
    /// lists alone answers with [`is_named_by`].
    fn supports(&self, model_name: &str) -> (supported: bool)
        ensures
            supported == self.covers(model_name@),
    ;

    /// Tool declarations, appended to the system message.
    fn declarations(&self, tools: &[ToolDefinition]) -> (block: String)
        ensures
            block@ == self.declarations_text(lm::tools_model(tools@)),
    ;

    /// An assistant turn's calls, appended to its text.
    fn tool_calls(&self, calls: &Vec<ToolCall>) -> (block: String)
        ensures
            block@ == self.calls_text(lm::calls_model(calls@)),
    ;

    /// A tool's result: a role the chat template knows, and the content.
    fn tool_result(&self, content: &str) -> (turn: (String, String))
        ensures
            turn.0@ == self.result_role(),
            turn.1@ == self.result_text(content@),
    ;

    /// What opens a call: the grammar's trigger, and where speech is held back.
    fn open(&self) -> (open: String)
        ensures
            open@ == self.open_text(),
    ;

    /// What closes a call.
    fn close(&self) -> (close: String)
        ensures
            close@ == self.close_text(),
    ;

    /// The JSON Schema that the engine converts to a grammar of a call's body.
    fn schema(&self, tools: &[ToolDefinition]) -> (schema: String)
        ensures
            schema@ == self.schema_text(lm::tools_model(tools@)),
    ;

    /// The grammar of a call, around the one that the schema was `converted` to. It
    /// defines [`TOOL_CALL_ROOT`], and that rule starts with what opens a call: a lazy
    /// trigger feeds the grammar from the start of the match.
    fn grammar(&self, tools: &[ToolDefinition], converted: &str) -> (grammar: Result<
        String,
        LmError,
    >)
        ensures
            grammar_read(grammar) == self.grammar_text(lm::tools_model(tools@), converted@),
    ;

    /// Reads what stood between a call's delimiters as a tool's name and its arguments.
    fn parse(&self, body: &str) -> (call: Result<(String, Json), LmError>)
        ensures
            call_read(call) == self.call_in(body@),
    ;
}

/// Whether a model of `model_name` is one that `models` cover, whatever the case.
pub open spec fn is_supported(models: Seq<Seq<char>>, model_name: Seq<char>) -> bool {
    exists|i: int|
        0 <= i < models.len() && text::occurs(
            text::lowercase(model_name),
            text::lowercase(#[trigger] models[i]),
        )
}

/// Whether a model of `model_name` is one that `models` cover, whatever the case.
pub fn is_named_by(models: &Vec<String>, model_name: &str) -> (named: bool)
    ensures
        named == is_supported(text::texts(models@), model_name@),
{
    let name = text::lower(model_name);
    let ghost names = text::texts(models@);
    let mut i: usize = 0;
    while i < models.len()
        invariant
            0 <= i <= models@.len(),
            names == text::texts(models@),
            name@ == text::lowercase(model_name@),
            forall|j: int|
                0 <= j < i ==> !text::occurs(name@, text::lowercase(#[trigger] names[j])),
        decreases models@.len() - i,
    {
        assert(names[i as int] == models@[i as int]@);
        let part = text::lower(models[i].as_str());
        if text::contains(name.as_str(), part.as_str()) {
            return true;
        }
        i += 1;
    }
    false
}

/// Calls as `<tool_call>{"name": .., "arguments": ..}</tool_call>`, with declarations in a
/// `<tools>` block: the Qwen and Nous Hermes models. The rendering is that of Qwen's own
/// chat template, so the model sees what it was trained on.
#[derive(Clone, Copy, Debug, Default)]
pub struct ChatMlXml;

/// `text` as a JSON string.
pub open spec fn json_string(text: Seq<char>) -> Seq<char> {
    json::rendered(JsonModel::Text(text))
}

/// `text` as a JSON string.
pub fn quoted(text: &str) -> (out: String)
    ensures
        out@ == json_string(text@),
{
    Json::text(text).to_text()
}

/// The declaration of one tool.
pub open spec fn declaration(tool: ToolDefinitionModel) -> Seq<char> {
    "\n{\"type\": \"function\", \"function\": {\"name\": "@ + json_string(tool.name)
        + ", \"description\": "@ + json_string(tool.description) + ", \"parameters\": "@
        + json::rendered(tool.parameters) + "}}"@
}

/// The declarations of tools, one after the other.
pub open spec fn declaration_list(tools: Seq<ToolDefinitionModel>) -> Seq<char>
    decreases tools.len(),
{
    if tools.len() == 0 {
        Seq::empty()
    } else {
        declaration_list(tools.drop_last()) + declaration(tools.last())
    }
}

/// What comes before the declarations.
pub open spec fn declarations_head() -> Seq<char> {
    "\n\n# Tools\n\nYou may call one or more functions to assist with the user query.\n\nYou are provided with function signatures within <tools></tools> XML tags:\n<tools>"@
}

/// What comes after the declarations: the shape of a call.
pub open spec fn declarations_tail() -> Seq<char> {
    "\n</tools>\n\nFor each function call, return a json object with function name and arguments within <tool_call></tool_call> XML tags:\n<tool_call>\n{\"name\": <function-name>, \"arguments\": <args-json-object>}\n</tool_call>"@
}

/// One call of an assistant turn.
pub open spec fn rendered_call(call: ToolCallModel) -> Seq<char> {
    "\n<tool_call>\n{\"name\": "@ + json_string(call.name) + ", \"arguments\": "@
        + call.arguments_json + "}\n</tool_call>"@
}

/// The calls of an assistant turn, one after the other.
pub open spec fn rendered_calls(calls: Seq<ToolCallModel>) -> Seq<char>
    decreases calls.len(),
{
    if calls.len() == 0 {
        Seq::empty()
    } else {
        rendered_calls(calls.drop_last()) + rendered_call(calls.last())
    }
}

/// The schema of a call of one tool. The name comes before the arguments, so that the
/// model commits to a tool before it fills them in.
pub open spec fn branch(tool: ToolDefinitionModel) -> Seq<char> {
    "{\"type\":\"object\",\"properties\":{\"name\":{\"const\":"@ + json_string(tool.name)
        + "},\"arguments\":"@ + json::rendered(tool.parameters)
        + "},\"required\":[\"name\",\"arguments\"],\"additionalProperties\":false}"@
}

/// The schemas of calls, with commas between them.
pub open spec fn branches(tools: Seq<ToolDefinitionModel>) -> Seq<char>
    decreases tools.len(),
{
    if tools.len() == 0 {
        Seq::empty()
    } else if tools.len() == 1 {
        branch(tools[0])
    } else {
        branches(tools.drop_last()) + ","@ + branch(tools.last())
    }
}

/// The call that `body` holds: an object with a name that is not empty, and arguments
/// that are an object.
pub open spec fn call_of(body: Seq<char>) -> Result<(Seq<char>, JsonModel), LmErrorModel> {
    match json::parsed_text(text::trimmed(body)) {
        Err(message) => Err(LmErrorModel::InvalidToolArguments("tool-call body: "@ + message)),
        Ok(document) => call_in_document(document),
    }
}

/// The call that a document holds.
pub open spec fn call_in_document(document: JsonModel) -> Result<
    (Seq<char>, JsonModel),
    LmErrorModel,
> {
    match (
        records::nonempty(records::text_member(document, "name"@)),
        records::member(document, "arguments"@),
    ) {
        (Some(name), Some(arguments)) => if arguments is Object {
            Ok((name, arguments))
        } else {
            Err(LmErrorModel::ToolArgumentsNotObject)
        },
        _ => Err(LmErrorModel::IncompleteToolCall),
    }
}

/// Reads the call that a document holds.
pub fn parse_document(document: &Json) -> (call: Result<(String, Json), LmError>)
    ensures
        call_read(call) == call_in_document(document@),
{
    let name = match records::text_member_of(document, "name") {
        Some(name) => if name.as_str().is_empty() {
            return Err(LmError::IncompleteToolCall);
        } else {
            name
        },
        None => {
            return Err(LmError::IncompleteToolCall);
        },
    };
    match records::member_of(document, "arguments") {
        None => Err(LmError::IncompleteToolCall),
        Some(arguments) => match arguments {
            Json::Object(_) => Ok((name, arguments.copy())),
            _ => Err(LmError::ToolArgumentsNotObject),
        },
    }
}

impl ToolDialect for ChatMlXml {
    open spec fn label_text(&self) -> Seq<char> {
        "ChatMlXml"@
    }

    open spec fn model_names(&self) -> Seq<Seq<char>> {
        seq!["Qwen"@, "Hermes"@]
    }

    open spec fn covers(&self, model_name: Seq<char>) -> bool {
        is_supported(self.model_names(), model_name)
    }

    open spec fn declarations_text(&self, tools: Seq<ToolDefinitionModel>) -> Seq<char> {
        declarations_head() + declaration_list(tools) + declarations_tail()
    }

    open spec fn calls_text(&self, calls: Seq<ToolCallModel>) -> Seq<char> {
        rendered_calls(calls)
    }

    open spec fn result_role(&self) -> Seq<char> {
        "user"@
    }

    open spec fn result_text(&self, content: Seq<char>) -> Seq<char> {
        "<tool_response>\n"@ + content + "\n</tool_response>"@
    }

    open spec fn open_text(&self) -> Seq<char> {
        "<tool_call>"@
    }

    open spec fn close_text(&self) -> Seq<char> {
        "</tool_call>"@
    }

    open spec fn schema_text(&self, tools: Seq<ToolDefinitionModel>) -> Seq<char> {
        "{\"oneOf\":["@ + branches(tools) + "]}"@
    }

    open spec fn grammar_text(
        &self,
        tools: Seq<ToolDefinitionModel>,
        converted: Seq<char>,
    ) -> Result<Seq<char>, LmErrorModel> {
        Ok(
            converted + "\n"@ + TOOL_CALL_ROOT@ + " ::= \""@ + self.open_text()
                + "\" space root \""@ + self.close_text() + "\"\n"@,
        )
    }

    open spec fn call_in(&self, body: Seq<char>) -> Result<(Seq<char>, JsonModel), LmErrorModel> {
        call_of(body)
    }

    fn label(&self) -> (label: String) {
        "ChatMlXml".to_owned()
    }

    fn supported_models(&self) -> (models: Vec<String>) {
        let mut models: Vec<String> = Vec::new();
        models.push("Qwen".to_owned());
        models.push("Hermes".to_owned());
        assert(text::texts(models@) =~= seq!["Qwen"@, "Hermes"@]);
        models
    }

    fn supports(&self, model_name: &str) -> (supported: bool) {
        is_named_by(&self.supported_models(), model_name)
    }

    fn declarations(&self, tools: &[ToolDefinition]) -> (block: String) {
        let mut block = "\n\n# Tools\n\nYou may call one or more functions to assist with the user query.\n\nYou are provided with function signatures within <tools></tools> XML tags:\n<tools>".to_owned();
        let ghost models = lm::tools_model(tools@);
        let mut i: usize = 0;
        assert(models.subrange(0, 0) =~= Seq::empty());
        assert(declarations_head() + Seq::<char>::empty() =~= declarations_head());
        while i < tools.len()
            invariant
                0 <= i <= tools@.len(),
                models == lm::tools_model(tools@),
                block@ == declarations_head() + declaration_list(models.subrange(0, i as int)),
            decreases tools@.len() - i,
        {
            let ghost before = block@;
            let tool = &tools[i];
            block.append("\n{\"type\": \"function\", \"function\": {\"name\": ");
            block.append(quoted(tool.name.as_str()).as_str());
            block.append(", \"description\": ");
            block.append(quoted(tool.description.as_str()).as_str());
            block.append(", \"parameters\": ");
            block.append(tool.parameters.to_text().as_str());
            block.append("}}");
            proof {
                assert(models.subrange(0, i + 1).drop_last() =~= models.subrange(0, i as int));
                assert(models[i as int] == tool@);
                assert(block@ =~= before + declaration(tool@));
                let list = declaration_list(models.subrange(0, i as int));
                assert((declarations_head() + list) + declaration(tool@) =~= declarations_head() + (
                list + declaration(tool@)));
            }
            i += 1;
        }
        assert(models.subrange(0, models.len() as int) =~= models);
        block.append(
            "\n</tools>\n\nFor each function call, return a json object with function name and arguments within <tool_call></tool_call> XML tags:\n<tool_call>\n{\"name\": <function-name>, \"arguments\": <args-json-object>}\n</tool_call>",
        );
        block
    }

    fn tool_calls(&self, calls: &Vec<ToolCall>) -> (block: String) {
        let mut block = String::new();
        let ghost models = lm::calls_model(calls@);
        let mut i: usize = 0;
        assert(models.subrange(0, 0) =~= Seq::empty());
        while i < calls.len()
            invariant
                0 <= i <= calls@.len(),
                models == lm::calls_model(calls@),
                block@ == rendered_calls(models.subrange(0, i as int)),
            decreases calls@.len() - i,
        {
            let ghost before = block@;
            let call = &calls[i];
            block.append("\n<tool_call>\n{\"name\": ");
            block.append(quoted(call.name.as_str()).as_str());
            block.append(", \"arguments\": ");
            block.append(call.arguments_json.as_str());
            block.append("}\n</tool_call>");
            proof {
                assert(models.subrange(0, i + 1).drop_last() =~= models.subrange(0, i as int));
                assert(models[i as int] == call@);
                assert(block@ =~= before + rendered_call(call@));
            }
            i += 1;
        }
        assert(models.subrange(0, models.len() as int) =~= models);
        block
    }

    fn tool_result(&self, content: &str) -> (turn: (String, String)) {
        let mut text = "<tool_response>\n".to_owned();
        text.append(content);
        text.append("\n</tool_response>");
        ("user".to_owned(), text)
    }

    fn open(&self) -> (open: String) {
        "<tool_call>".to_owned()
    }

    fn close(&self) -> (close: String) {
        "</tool_call>".to_owned()
    }

    fn schema(&self, tools: &[ToolDefinition]) -> (schema: String) {
        let ghost models = lm::tools_model(tools@);
        let mut list = String::new();
        let mut i: usize = 0;
        assert(models.subrange(0, 0) =~= Seq::empty());
        while i < tools.len()
            invariant
                0 <= i <= tools@.len(),
                models == lm::tools_model(tools@),
                list@ == branches(models.subrange(0, i as int)),
            decreases tools@.len() - i,
        {
            let tool = &tools[i];
            let mut one = "{\"type\":\"object\",\"properties\":{\"name\":{\"const\":".to_owned();
            one.append(quoted(tool.name.as_str()).as_str());
            one.append("},\"arguments\":");
            one.append(tool.parameters.to_text().as_str());
            one.append(
                "},\"required\":[\"name\",\"arguments\"],\"additionalProperties\":false}",
            );
            proof {
                assert(models.subrange(0, i + 1).drop_last() =~= models.subrange(0, i as int));
                assert(models[i as int] == tool@);
                assert(one@ == branch(tool@));
            }
            if i == 0 {
                list = one;
            } else {
                list.append(",");
                list.append(one.as_str());
            }
            i += 1;
        }
        assert(models.subrange(0, models.len() as int) =~= models);
        let mut schema = "{\"oneOf\":[".to_owned();
        schema.append(list.as_str());
        schema.append("]}");
        schema
    }

    fn grammar(&self, tools: &[ToolDefinition], converted: &str) -> (grammar: Result<
        String,
        LmError,
    >) {
        let mut grammar = converted.to_owned();
        grammar.append("\n");
        grammar.append(TOOL_CALL_ROOT);
        grammar.append(" ::= \"");
        grammar.append(self.open().as_str());
        grammar.append("\" space root \"");
        grammar.append(self.close().as_str());
        grammar.append("\"\n");
        Ok(grammar)
    }

    fn parse(&self, body: &str) -> (call: Result<(String, Json), LmError>) {
        match Json::parse(text::trim(body).as_str()) {
            Ok(document) => parse_document(&document),
            Err(message) => {
                let mut detail = "tool-call body: ".to_owned();
                detail.append(message.as_str());
                Err(LmError::InvalidToolArguments(detail))
            },
        }
    }
}

/// Whether `c` means something in a pattern.
pub open spec fn is_metacharacter(c: char) -> bool {
    ||| c == '^' || c == '$' || c == '\\' || c == '.' || c == '*' || c == '+' || c == '?'
    ||| c == '(' || c == ')' || c == '[' || c == ']' || c == '{' || c == '}' || c == '|' || c == '/'
}

/// `literal` as a pattern that matches it alone: a backslash before every character that
/// means something.
pub open spec fn escaped(literal: Seq<char>) -> Seq<char>
    decreases literal.len(),
{
    if literal.len() == 0 {
        Seq::empty()
    } else if is_metacharacter(literal.last()) {
        escaped(literal.drop_last()).push('\\').push(literal.last())
    } else {
        escaped(literal.drop_last()).push(literal.last())
    }
}

/// `literal` as a pattern that matches it alone, for the engine's grammar triggers.
pub fn regex_escape(literal: &str) -> (out: String)
    ensures
        out@ == escaped(literal@),
{
    let chars = text::chars_of(literal);
    let mut out = String::new();
    let mut i: usize = 0;
    assert(chars@.subrange(0, 0) =~= Seq::empty());
    while i < chars.len()
        invariant
            0 <= i <= chars@.len(),
            out@ == escaped(chars@.subrange(0, i as int)),
        decreases chars@.len() - i,
    {
        let c: char = chars[i];
        assert(chars@.subrange(0, i + 1).drop_last() =~= chars@.subrange(0, i as int));
        if c == '^' || c == '$' || c == '\\' || c == '.' || c == '*' || c == '+' || c == '?' || c
            == '(' || c == ')' || c == '[' || c == ']' || c == '{' || c == '}' || c == '|' || c
            == '/' {
            out.push('\\');
        }
        out.push(c);
        i += 1;
    }
    assert(chars@.subrange(0, chars@.len() as int) =~= chars@);
    out
}

/// What an escaped text stands for: a backslash and the character behind it stand for
/// that character.
pub open spec fn unescaped(pattern: Seq<char>) -> Seq<char>
    decreases pattern.len(),
{
    if pattern.len() == 0 {
        Seq::empty()
    } else if pattern[0] == '\\' && pattern.len() > 1 {
        seq![pattern[1]] + unescaped(pattern.subrange(2, pattern.len() as int))
    } else {
        seq![pattern[0]] + unescaped(pattern.drop_first())
    }
}

proof fn lemma_escaped_front(c: char, rest: Seq<char>)
    ensures
        escaped(seq![c] + rest) == (if is_metacharacter(c) {
            seq!['\\', c]
        } else {
            seq![c]
        }) + escaped(rest),
    decreases rest.len(),
{
    let all = seq![c] + rest;
    if rest.len() == 0 {
        assert(all.drop_last() =~= Seq::empty());
        assert(all.last() == c);
        assert(escaped(all.drop_last()) =~= Seq::empty());
        assert(escaped(rest) =~= Seq::empty());
        if is_metacharacter(c) {
            assert(Seq::empty().push('\\').push(c) =~= seq!['\\', c] + Seq::<char>::empty());
        } else {
            assert(Seq::empty().push(c) =~= seq![c] + Seq::<char>::empty());
        }
    } else {
        lemma_escaped_front(c, rest.drop_last());
        assert(all.drop_last() =~= seq![c] + rest.drop_last());
        let last = rest.last();
        assert(all.last() == last);
        let head = if is_metacharacter(c) {
            seq!['\\', c]
        } else {
            seq![c]
        };
        let before = escaped(rest.drop_last());
        if is_metacharacter(last) {
            assert((head + before).push('\\').push(last) =~= head + before.push('\\').push(last));
        } else {
            assert((head + before).push(last) =~= head + before.push(last));
        }
    }
}

/// An escaped text stands for the text it was made of.
pub proof fn escaping_keeps_the_text(literal: Seq<char>)
    ensures
        unescaped(escaped(literal)) == literal,
    decreases literal.len(),
{
    if literal.len() > 0 {
        let c = literal[0];
        let rest = literal.drop_first();
        assert(literal =~= seq![c] + rest);
        lemma_escaped_front(c, rest);
        escaping_keeps_the_text(rest);
        let pattern = escaped(literal);
        if is_metacharacter(c) {
            assert(pattern.subrange(2, pattern.len() as int) =~= escaped(rest));
        } else {
            assert(pattern.drop_first() =~= escaped(rest));
        }
    }
}

proof fn lemma_declarations_join(first: Seq<ToolDefinitionModel>, second: Seq<ToolDefinitionModel>)
    ensures
        declaration_list(first + second) == declaration_list(first) + declaration_list(second),
    decreases second.len(),
{
    if second.len() == 0 {
        assert(first + second =~= first);
        assert(declaration_list(first) + Seq::<char>::empty() =~= declaration_list(first));
    } else {
        lemma_declarations_join(first, second.drop_last());
        assert((first + second).drop_last() =~= first + second.drop_last());
        assert((first + second).last() == second.last());
        assert(declaration_list(first + second) =~= declaration_list(first) + declaration_list(
            second,
        ));
    }
}

/// What the block holds before and after the declaration of one tool.
proof fn lemma_around_a_declaration(
    tools: Seq<ToolDefinitionModel>,
    i: int,
) -> (around: (Seq<char>, Seq<char>))
    requires
        0 <= i < tools.len(),
    ensures
        around.0 == declarations_head() + declaration_list(tools.subrange(0, i)),
        around.1 == declaration_list(tools.subrange(i + 1, tools.len() as int))
            + declarations_tail(),
        ChatMlXml.declarations_text(tools) == around.0 + declaration(tools[i]) + around.1,
{
    let before = tools.subrange(0, i);
    let own = seq![tools[i]];
    let after = tools.subrange(i + 1, tools.len() as int);
    assert(tools =~= before + own + after);
    lemma_declarations_join(before + own, after);
    lemma_declarations_join(before, own);
    assert(own.drop_last() =~= Seq::empty());
    assert(declaration_list(own.drop_last()) =~= Seq::empty());
    assert(declaration_list(own) =~= declaration(tools[i]));
    let head = declarations_head() + declaration_list(before);
    let tail = declaration_list(after) + declarations_tail();
    assert(ChatMlXml.declarations_text(tools) =~= head + declaration(tools[i]) + tail);
    (head, tail)
}

/// Every tool is declared on a line of its own, with its own name, its own description and
/// its own parameters as JSON, each behind its key and in that order.
pub proof fn tools_are_declared_with_their_own_parts(tools: Seq<ToolDefinitionModel>, i: int)
    requires
        0 <= i < tools.len(),
    ensures
        text::occurs(
            ChatMlXml.declarations_text(tools),
            "\n{\"type\": \"function\", \"function\": {"@ + "\"name\": "@ + json::rendered(
                JsonModel::Text(tools[i].name),
            ) + ", "@ + "\"description\": "@ + json::rendered(
                JsonModel::Text(tools[i].description),
            ) + ", "@ + "\"parameters\": "@ + json::rendered(tools[i].parameters) + "}}"@,
        ),
{
    reveal_strlit("\n{\"type\": \"function\", \"function\": {\"name\": ");
    assert("\n{\"type\": \"function\", \"function\": {\"name\": "@.len() == 43);
    reveal_strlit("\n{\"type\": \"function\", \"function\": {");
    assert("\n{\"type\": \"function\", \"function\": {"@.len() == 35);
    reveal_strlit("\"name\": ");
    assert("\"name\": "@.len() == 8);
    reveal_strlit(", ");
    assert(", "@.len() == 2);
    reveal_strlit("\"description\": ");
    assert("\"description\": "@.len() == 15);
    reveal_strlit(", \"description\": ");
    assert(", \"description\": "@.len() == 17);
    reveal_strlit("\"parameters\": ");
    assert("\"parameters\": "@.len() == 14);
    reveal_strlit(", \"parameters\": ");
    assert(", \"parameters\": "@.len() == 16);
    assert("\n{\"type\": \"function\", \"function\": {\"name\": "@
        =~= "\n{\"type\": \"function\", \"function\": {"@ + "\"name\": "@);
    assert(", \"description\": "@ =~= ", "@ + "\"description\": "@);
    assert(", \"parameters\": "@ =~= ", "@ + "\"parameters\": "@);
    let (head, tail) = lemma_around_a_declaration(tools, i);
    let line = "\n{\"type\": \"function\", \"function\": {"@ + "\"name\": "@ + json::rendered(
        JsonModel::Text(tools[i].name),
    ) + ", "@ + "\"description\": "@ + json::rendered(JsonModel::Text(tools[i].description)) + ", "@
        + "\"parameters\": "@ + json::rendered(tools[i].parameters) + "}}"@;
    assert(declaration(tools[i]) =~= line);
    text::lemma_occurs_between(head, line, tail);
}

proof fn lemma_middles_differ(
    head: Seq<char>,
    first: Seq<char>,
    second: Seq<char>,
    tail: Seq<char>,
)
    requires
        first != second,
    ensures
        head + first + tail != head + second + tail,
{
    let one = head + first + tail;
    let other = head + second + tail;
    if one == other {
        assert(one.len() == other.len());
        assert(first.len() == second.len());
        assert(one.subrange(head.len() as int, head.len() + first.len() as int) =~= first);
        assert(other.subrange(head.len() as int, head.len() + first.len() as int) =~= second);
        assert(first == second);
    }
}

/// Whether what is written of `document` reads back as it.
pub open spec fn reads_back(document: JsonModel) -> bool {
    json::parsed_text(json::rendered(document)) == Ok::<JsonModel, Seq<char>>(document)
}

/// Tools that differ in their name, their description or their parameters alone are
/// declared differently, whatever is declared beside them, as long as JSON reads back what
/// it writes of the part that differs.
pub proof fn different_tools_are_declared_differently(
    tools: Seq<ToolDefinitionModel>,
    i: int,
    other: ToolDefinitionModel,
)
    requires
        0 <= i < tools.len(),
    ensures
        tools[i].description != other.description && tools[i].name == other.name
            && tools[i].parameters == other.parameters && reads_back(
            JsonModel::Text(tools[i].description),
        ) && reads_back(JsonModel::Text(other.description)) ==> ChatMlXml.declarations_text(tools)
            != ChatMlXml.declarations_text(tools.update(i, other)),
        tools[i].name != other.name && tools[i].description == other.description
            && tools[i].parameters == other.parameters && reads_back(
            JsonModel::Text(tools[i].name),
        ) && reads_back(JsonModel::Text(other.name)) ==> ChatMlXml.declarations_text(tools)
            != ChatMlXml.declarations_text(tools.update(i, other)),
        tools[i].parameters != other.parameters && tools[i].name == other.name
            && tools[i].description == other.description && reads_back(tools[i].parameters)
            && reads_back(other.parameters) ==> ChatMlXml.declarations_text(tools)
            != ChatMlXml.declarations_text(tools.update(i, other)),
{
    let changed = tools.update(i, other);
    let (head, tail) = lemma_around_a_declaration(tools, i);
    let (changed_head, changed_tail) = lemma_around_a_declaration(changed, i);
    assert(tools.subrange(0, i) =~= changed.subrange(0, i));
    assert(tools.subrange(i + 1, tools.len() as int) =~= changed.subrange(
        i + 1,
        tools.len() as int,
    ));
    let own = tools[i];
    let opening = "\n{\"type\": \"function\", \"function\": {\"name\": "@;
    let described = ", \"description\": "@;
    let shaped = ", \"parameters\": "@;
    let closing = "}}"@;
    if own.description != other.description && own.name == other.name && own.parameters
        == other.parameters && reads_back(JsonModel::Text(own.description)) && reads_back(
        JsonModel::Text(other.description),
    ) {
        let before = opening + json_string(own.name) + described;
        let after = shaped + json::rendered(own.parameters) + closing;
        assert(declaration(own) =~= before + json_string(own.description) + after);
        assert(declaration(other) =~= before + json_string(other.description) + after);
        lemma_middles_differ(
            before,
            json_string(own.description),
            json_string(other.description),
            after,
        );
        lemma_middles_differ(head, declaration(own), declaration(other), tail);
    }
    if own.name != other.name && own.description == other.description && own.parameters
        == other.parameters && reads_back(JsonModel::Text(own.name)) && reads_back(
        JsonModel::Text(other.name),
    ) {
        let after = described + json_string(own.description) + shaped + json::rendered(
            own.parameters,
        ) + closing;
        assert(declaration(own) =~= opening + json_string(own.name) + after);
        assert(declaration(other) =~= opening + json_string(other.name) + after);
        lemma_middles_differ(opening, json_string(own.name), json_string(other.name), after);
        lemma_middles_differ(head, declaration(own), declaration(other), tail);
    }
    if own.parameters != other.parameters && own.name == other.name && own.description
        == other.description && reads_back(own.parameters) && reads_back(other.parameters) {
        let before = opening + json_string(own.name) + described + json_string(own.description)
            + shaped;
        assert(declaration(own) =~= before + json::rendered(own.parameters) + closing);
        assert(declaration(other) =~= before + json::rendered(other.parameters) + closing);
        lemma_middles_differ(
            before,
            json::rendered(own.parameters),
            json::rendered(other.parameters),
            closing,
        );
        lemma_middles_differ(head, declaration(own), declaration(other), tail);
    }
}

/// Declaring one more tool adds its line behind the others, before the end of the block,
/// and changes nothing else; with no tool the block is empty.
pub proof fn tools_are_declared_in_order(
    tools: Seq<ToolDefinitionModel>,
    tool: ToolDefinitionModel,
)
    ensures
        ({
            let before = ChatMlXml.declarations_text(tools);
            let after = ChatMlXml.declarations_text(tools.push(tool));
            let line = "\n{\"type\": \"function\", \"function\": {\"name\": "@ + json::rendered(
                JsonModel::Text(tool.name),
            ) + ", \"description\": "@ + json::rendered(JsonModel::Text(tool.description))
                + ", \"parameters\": "@ + json::rendered(tool.parameters) + "}}"@;
            exists|cut: int|
                0 <= cut <= before.len() && "\n</tools>\n"@.is_prefix_of(
                    before.subrange(cut, before.len() as int),
                ) && after == #[trigger] before.subrange(0, cut) + line + before.subrange(
                    cut,
                    before.len() as int,
                )
        }),
        text::occurs(ChatMlXml.declarations_text(Seq::empty()), "<tools>\n</tools>"@),
{
    reveal_strlit("\n</tools>\n");
    reveal_strlit("<tools>\n</tools>");
    reveal_strlit(
        "\n</tools>\n\nFor each function call, return a json object with function name and arguments within <tool_call></tool_call> XML tags:\n<tool_call>\n{\"name\": <function-name>, \"arguments\": <args-json-object>}\n</tool_call>",
    );
    reveal_strlit(
        "\n\n# Tools\n\nYou may call one or more functions to assist with the user query.\n\nYou are provided with function signatures within <tools></tools> XML tags:\n<tools>",
    );
    let before = ChatMlXml.declarations_text(tools);
    let after = ChatMlXml.declarations_text(tools.push(tool));
    let body = declarations_head() + declaration_list(tools);
    let tail = declarations_tail();
    let cut = body.len() as int;
    assert(tools.push(tool).drop_last() =~= tools);
    assert(before.subrange(0, cut) =~= body);
    assert(before.subrange(cut, before.len() as int) =~= tail);
    assert(tail.subrange(0, 10) =~= "\n</tools>\n"@);
    assert("\n</tools>\n"@.is_prefix_of(tail));
    assert(after =~= body + declaration(tool) + tail);
    let none = ChatMlXml.declarations_text(Seq::empty());
    let head = declarations_head();
    assert(declaration_list(Seq::empty()) =~= Seq::empty());
    let part = "<tools>\n</tools>"@;
    let at = head.len() - 7;
    assert(none.subrange(at, at + part.len()) =~= part);
    assert(text::occurs_at(none, part, at));
}

proof fn lemma_calls_join(first: Seq<ToolCallModel>, second: Seq<ToolCallModel>)
    ensures
        rendered_calls(first + second) == rendered_calls(first) + rendered_calls(second),
    decreases second.len(),
{
    if second.len() == 0 {
        assert(first + second =~= first);
        assert(rendered_calls(first) + Seq::<char>::empty() =~= rendered_calls(first));
    } else {
        lemma_calls_join(first, second.drop_last());
        assert((first + second).drop_last() =~= first + second.drop_last());
        assert((first + second).last() == second.last());
        assert(rendered_calls(first + second) =~= rendered_calls(first) + rendered_calls(second));
    }
}

/// A turn's calls are replayed in their order, each between the delimiters that the model
/// itself writes, with its own name as JSON and its own arguments word for word.
pub proof fn calls_are_replayed_between_the_delimiters(
    calls: Seq<ToolCallModel>,
    rest: Seq<ToolCallModel>,
    i: int,
)
    ensures
        ChatMlXml.calls_text(calls + rest) == ChatMlXml.calls_text(calls) + ChatMlXml.calls_text(
            rest,
        ),
        ChatMlXml.calls_text(Seq::empty()).len() == 0,
        0 <= i < calls.len() ==> text::occurs(
            ChatMlXml.calls_text(calls),
            "\n"@ + ChatMlXml.open_text() + "\n"@ + ("{\"name\": "@ + json::rendered(
                JsonModel::Text(calls[i].name),
            ) + ", \"arguments\": "@ + calls[i].arguments_json + "}"@) + "\n"@
                + ChatMlXml.close_text(),
        ),
{
    lemma_calls_join(calls, rest);
    if 0 <= i < calls.len() {
        reveal_strlit("\n");
    assert("\n"@.len() == 1);
        reveal_strlit("<tool_call>");
    assert("<tool_call>"@.len() == 11);
        reveal_strlit("</tool_call>");
    assert("</tool_call>"@.len() == 12);
        reveal_strlit("\n<tool_call>\n{\"name\": ");
    assert("\n<tool_call>\n{\"name\": "@.len() == 22);
        reveal_strlit("{\"name\": ");
    assert("{\"name\": "@.len() == 9);
        reveal_strlit("}");
    assert("}"@.len() == 1);
        reveal_strlit("}\n</tool_call>");
    assert("}\n</tool_call>"@.len() == 14);
        assert("\n<tool_call>\n{\"name\": "@ =~= "\n"@ + "<tool_call>"@ + "\n"@ + "{\"name\": "@);
        assert("}\n</tool_call>"@ =~= "}"@ + "\n"@ + "</tool_call>"@);
        let before = calls.subrange(0, i);
        let own = seq![calls[i]];
        let after = calls.subrange(i + 1, calls.len() as int);
        assert(calls =~= before + own + after);
        lemma_calls_join(before + own, after);
        lemma_calls_join(before, own);
        assert(own.drop_last() =~= Seq::empty());
        assert(rendered_calls(own.drop_last()) =~= Seq::empty());
        let words = "\n"@ + "<tool_call>"@ + "\n"@ + ("{\"name\": "@ + json::rendered(
            JsonModel::Text(calls[i].name),
        ) + ", \"arguments\": "@ + calls[i].arguments_json + "}"@) + "\n"@ + "</tool_call>"@;
        assert(rendered_calls(own) =~= words);
        text::lemma_occurs_between(rendered_calls(before), words, rendered_calls(after));
    }
}

/// A tool's result goes as a user's turn, word for word between its own tags.
pub proof fn results_are_passed_on_word_for_word(content: Seq<char>)
    ensures
        ChatMlXml.result_role() == "user"@,
        ChatMlXml.result_text(content) == "<tool_response>\n"@ + content
            + "\n</tool_response>"@,
        text::occurs(ChatMlXml.result_text(content), content),
{
    text::lemma_occurs_between("<tool_response>\n"@, content, "\n</tool_response>"@);
}

/// The schemas of calls, joined.
proof fn lemma_branch_occurs(tools: Seq<ToolDefinitionModel>, i: int)
    requires
        0 <= i < tools.len(),
    ensures
        text::occurs(branches(tools), branch(tools[i])),
    decreases tools.len(),
{
    let empty = Seq::<char>::empty();
    if tools.len() == 1 {
        text::lemma_occurs_between(empty, branch(tools[0]), empty);
        assert(empty + branch(tools[0]) + empty =~= branch(tools[0]));
    } else if i == tools.len() - 1 {
        let head = branches(tools.drop_last()) + ","@;
        text::lemma_occurs_between(head, branch(tools[i]), empty);
        assert(head + branch(tools[i]) + empty =~= branches(tools));
    } else {
        lemma_branch_occurs(tools.drop_last(), i);
        let front = branches(tools.drop_last());
        let at = choose|at: int| text::occurs_at(front, branch(tools.drop_last()[i]), at);
        let part = branch(tools[i]);
        assert(tools.drop_last()[i] == tools[i]);
        assert(branches(tools).subrange(at, at + part.len()) =~= front.subrange(
            at,
            at + part.len(),
        ));
        assert(text::occurs_at(branches(tools), part, at));
    }
}

/// The schema that calls are held to has a case for every tool, which fixes the tool's own
/// name and holds the arguments to the tool's own parameters; both are required.
pub proof fn every_tool_can_be_called(tools: Seq<ToolDefinitionModel>, i: int)
    requires
        0 <= i < tools.len(),
    ensures
        text::occurs(
            ChatMlXml.schema_text(tools),
            "{\"type\":\"object\",\"properties\":{\"name\":{\"const\":"@ + json::rendered(
                JsonModel::Text(tools[i].name),
            ) + "},\"arguments\":"@ + json::rendered(tools[i].parameters)
                + "},\"required\":[\"name\",\"arguments\"],\"additionalProperties\":false}"@,
        ),
        "{\"oneOf\":["@.is_prefix_of(ChatMlXml.schema_text(tools)),
        "]}"@.is_suffix_of(ChatMlXml.schema_text(tools)),
{
    lemma_branch_occurs(tools, i);
    let head = "{\"oneOf\":["@;
    let tail = "]}"@;
    let list = branches(tools);
    let whole = ChatMlXml.schema_text(tools);
    let part = branch(tools[i]);
    let at = choose|at: int| text::occurs_at(list, part, at);
    assert(whole.subrange(head.len() + at, head.len() + at + part.len()) =~= list.subrange(
        at,
        at + part.len(),
    ));
    assert(text::occurs_at(whole, part, head.len() + at));
    assert(whole.subrange(0, head.len() as int) =~= head);
    assert(whole.subrange(whole.len() - tail.len(), whole.len() as int) =~= tail);
}

/// The grammar of a call is the converted one and a rule behind it that puts its root
/// between the delimiters, whatever the tools.
pub proof fn the_grammar_puts_the_body_between_the_delimiters(
    tools: Seq<ToolDefinitionModel>,
    converted: Seq<char>,
)
    ensures
        ChatMlXml.grammar_text(tools, converted) == Ok::<Seq<char>, LmErrorModel>(
            converted + "\ntool-call ::= \"<tool_call>\" space root \"</tool_call>\"\n"@,
        ),
{
    reveal_strlit("\n");
    assert("\n"@.len() == 1);
    reveal_strlit("tool-call");
    assert("tool-call"@.len() == 9);
    reveal_strlit(" ::= \"");
    assert(" ::= \""@.len() == 6);
    reveal_strlit("<tool_call>");
    assert("<tool_call>"@.len() == 11);
    reveal_strlit("\" space root \"");
    assert("\" space root \""@.len() == 14);
    reveal_strlit("</tool_call>");
    assert("</tool_call>"@.len() == 12);
    reveal_strlit("\"\n");
    assert("\"\n"@.len() == 2);
    reveal_strlit("\ntool-call ::= \"<tool_call>\" space root \"</tool_call>\"\n");
    assert("\ntool-call ::= \"<tool_call>\" space root \"</tool_call>\"\n"@.len() == 55);
    let rule = "\ntool-call ::= \"<tool_call>\" space root \"</tool_call>\"\n"@;
    assert("\n"@ + "tool-call"@ + " ::= \""@ + "<tool_call>"@ + "\" space root \""@
        + "</tool_call>"@ + "\"\n"@ =~= rule);
    assert(ChatMlXml.grammar_text(tools, converted)->Ok_0 =~= converted + rule);
}

/// A call is read as it was written: its own name, and its own arguments, which are an
/// object. White space around it does not count; what has no name or no arguments is
/// incomplete.
pub proof fn calls_are_read_as_written(body: Seq<char>, document: JsonModel, name: Seq<char>)
    requires
        json::parsed_text(text::trimmed(body)) == Ok::<JsonModel, Seq<char>>(document),
    ensures
        records::text_member(document, "name"@) == Some(name) && name.len() > 0 ==> match records::member(
            document,
            "arguments"@,
        ) {
            Some(JsonModel::Object(arguments)) => ChatMlXml.call_in(body) == Ok::<
                (Seq<char>, JsonModel),
                LmErrorModel,
            >((name, JsonModel::Object(arguments))),
            Some(_) => ChatMlXml.call_in(body) == Err::<(Seq<char>, JsonModel), LmErrorModel>(
                LmErrorModel::ToolArgumentsNotObject,
            ),
            None => ChatMlXml.call_in(body) == Err::<(Seq<char>, JsonModel), LmErrorModel>(
                LmErrorModel::IncompleteToolCall,
            ),
        },
        records::text_member(document, "name"@) is None || records::text_member(
            document,
            "name"@,
        ) == Some(Seq::<char>::empty()) ==> ChatMlXml.call_in(body) == Err::<
            (Seq<char>, JsonModel),
            LmErrorModel,
        >(LmErrorModel::IncompleteToolCall),
{
}

/// The models that the dialect covers are those whose name holds one of its own, whatever
/// the case.
pub proof fn models_are_covered_by_name(model_name: Seq<char>)
    ensures
        ChatMlXml.covers(model_name) <==> text::occurs(
            text::lowercase(model_name),
            text::lowercase("Qwen"@),
        ) || text::occurs(text::lowercase(model_name), text::lowercase("Hermes"@)),
{
    let names = ChatMlXml.model_names();
    assert(names[0] == "Qwen"@);
    assert(names[1] == "Hermes"@);
}

/// Every tool's own description stands in the block, behind its key.
pub proof fn descriptions_are_declared(tools: Seq<ToolDefinitionModel>, i: int)
    requires
        0 <= i < tools.len(),
    ensures
        text::occurs(
            ChatMlXml.declarations_text(tools),
            "\"description\": "@ + json::rendered(JsonModel::Text(tools[i].description)),
        ),
{
    reveal_strlit(", ");
    assert(", "@.len() == 2);
    reveal_strlit("\"description\": ");
    assert("\"description\": "@.len() == 15);
    reveal_strlit(", \"description\": ");
    assert(", \"description\": "@ =~= ", "@ + "\"description\": "@);
    let (head, tail) = lemma_around_a_declaration(tools, i);
    let tool = tools[i];
    let opening = "\n{\"type\": \"function\", \"function\": {\"name\": "@ + json_string(tool.name);
    let description = json_string(tool.description);
    let part = "\"description\": "@ + description;
    let rest = ", \"parameters\": "@ + json::rendered(tool.parameters) + "}}"@;
    let line = declaration(tool);
    assert(line =~= opening + ", "@ + part + rest);
    let before = head + opening + ", "@;
    assert(head + line + tail =~= before + part + (rest + tail));
    text::lemma_occurs_between(before, part, rest + tail);
}

/// The block that a dialect's tools are declared in is the one for those tools, and its
/// calls and results are rendered from what was called and returned.
pub proof fn blocks_are_for_what_was_given(
    dialect: &ChatMlXml,
    tools: &[ToolDefinition],
    block: String,
    calls: &Vec<ToolCall>,
    replay: String,
    content: &str,
    turn: (String, String),
    i: int,
)
    requires
        call_ensures(<ChatMlXml as ToolDialect>::declarations, (dialect, tools), block),
        call_ensures(<ChatMlXml as ToolDialect>::tool_calls, (dialect, calls), replay),
        call_ensures(<ChatMlXml as ToolDialect>::tool_result, (dialect, content), turn),
    ensures
        0 <= i < tools@.len() ==> text::occurs(
            block@,
            "\"description\": "@ + json::rendered(JsonModel::Text(tools@[i].description@)),
        ),
        0 <= i < calls@.len() ==> text::occurs(replay@, calls@[i].arguments_json@),
        turn.0@ == "user"@,
        text::occurs(turn.1@, content@),
{
    let models = lm::tools_model(tools@);
    if 0 <= i < tools@.len() {
        assert(models[i] == tools@[i]@);
        descriptions_are_declared(models, i);
    }
    let called = lm::calls_model(calls@);
    if 0 <= i < calls@.len() {
        assert(called[i] == calls@[i]@);
        lemma_arguments_are_replayed(called, i);
    }
    results_are_passed_on_word_for_word(content@);
}

proof fn lemma_arguments_are_replayed(calls: Seq<ToolCallModel>, i: int)
    requires
        0 <= i < calls.len(),
    ensures
        text::occurs(rendered_calls(calls), calls[i].arguments_json),
{
    let before = calls.subrange(0, i);
    let own = seq![calls[i]];
    let after = calls.subrange(i + 1, calls.len() as int);
    assert(calls =~= before + own + after);
    lemma_calls_join(before + own, after);
    lemma_calls_join(before, own);
    assert(own.drop_last() =~= Seq::empty());
    assert(rendered_calls(own.drop_last()) =~= Seq::empty());
    assert(rendered_calls(own) =~= rendered_call(calls[i]));
    let head = rendered_calls(before) + ("\n<tool_call>\n{\"name\": "@ + json_string(calls[i].name)
        + ", \"arguments\": "@);
    let tail = "}\n</tool_call>"@ + rendered_calls(after);
    let part = calls[i].arguments_json;
    assert(rendered_calls(before) + rendered_call(calls[i]) + rendered_calls(after) =~= head + part
        + tail);
    text::lemma_occurs_between(head, part, tail);
}

/// Whatever the tools, the block opens by saying that they may be called and where they
/// stand, and ends by saying how a call is written.
pub proof fn the_block_says_how_to_call(tools: Seq<ToolDefinitionModel>)
    ensures
        "\n\n# Tools\n\nYou may call one or more functions to assist with the user query.\n\nYou are provided with function signatures within <tools></tools> XML tags:\n<tools>"@.is_prefix_of(
            ChatMlXml.declarations_text(tools),
        ),
        "\n</tools>\n\nFor each function call, return a json object with function name and arguments within <tool_call></tool_call> XML tags:\n<tool_call>\n{\"name\": <function-name>, \"arguments\": <args-json-object>}\n</tool_call>"@.is_suffix_of(
            ChatMlXml.declarations_text(tools),
        ),
{
    let whole = ChatMlXml.declarations_text(tools);
    let head = declarations_head();
    let tail = declarations_tail();
    assert(whole.subrange(0, head.len() as int) =~= head);
    assert(whole.subrange(whole.len() - tail.len(), whole.len() as int) =~= tail);
}

} // verus!
