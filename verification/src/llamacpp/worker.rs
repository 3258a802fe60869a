//! One turn of a llama.cpp worker: what it renders, what of its prompt it decodes, and
//! what it says.
use vstd::prelude::*;
use vstd::string::*;
use crate::ids;
use crate::json;
use crate::json::JsonModel;
use crate::llamacpp::config;
use crate::llamacpp::config::LlamaCppConfig;
use crate::llamacpp::dialect;
use crate::llamacpp::dialect::{ToolDialect, TOOL_CALL_ROOT};
use crate::llamacpp::intercept;
use crate::llamacpp::intercept::{CallInterceptor, HeldModel, Intercepted, Piece};
use crate::lm;
use crate::lm::{
    Conversation, DeltaModel, LmError, LmErrorModel, Message, MessageModel, ModelDelta,
    ToolDefinition, ToolDefinitionModel,
};
use crate::records;
use crate::text;

verus! {

/// One turn as the chat template takes it: a role and a content.
pub struct TurnModel {
    pub role: Seq<char>,
    pub content: Seq<char>,
}

/// What a list of turns says.
pub open spec fn turns_model(turns: Seq<(String, String)>) -> Seq<TurnModel> {
    turns.map_values(|turn: (String, String)| TurnModel { role: turn.0@, content: turn.1@ })
}

/// One message as a turn. With tools, calls are kept in the text of the turn that made
/// them, so that the model does not make them again, and a result goes under a role that
/// the chat template knows.
pub open spec fn turn_of<D: ToolDialect>(
    dialect: D,
    with_tools: bool,
    message: MessageModel,
) -> TurnModel {
    match message {
        MessageModel::System { content } => TurnModel { role: "system"@, content },
        MessageModel::User { content } => TurnModel { role: "user"@, content },
        MessageModel::Assistant { content, tool_calls } => TurnModel {
            role: "assistant"@,
            content: if with_tools {
                content + dialect.calls_text(tool_calls)
            } else {
                content
            },
        },
        MessageModel::ToolResult { tool_call_id, name, content } => if with_tools {
            TurnModel { role: dialect.result_role(), content: dialect.result_text(content) }
        } else {
            TurnModel { role: "tool"@, content }
        },
        MessageModel::Event { source, kind, content } => TurnModel {
            role: "user"@,
            content: lm::labelled(source, kind, content),
        },
    }
}

/// Where the first system turn stands, or how many turns there are.
pub open spec fn system_at(turns: Seq<TurnModel>) -> int
    decreases turns.len(),
{
    if turns.len() == 0 || turns[0].role == "system"@ {
        0
    } else {
        1 + system_at(turns.drop_first())
    }
}

/// `turns` with declarations in the first system turn, or in one of their own where there
/// is none: otherwise they would never reach the model.
pub open spec fn declared(turns: Seq<TurnModel>, declarations: Seq<char>) -> Seq<TurnModel> {
    let at = system_at(turns);
    if at < turns.len() {
        turns.update(
            at,
            TurnModel { content: turns[at].content + declarations, ..turns[at] },
        )
    } else {
        seq![TurnModel { role: "system"@, content: text::trimmed_start(declarations) }] + turns
    }
}

/// The messages of a conversation as turns.
pub open spec fn plain_turns<D: ToolDialect>(
    dialect: D,
    with_tools: bool,
    conversation: Seq<MessageModel>,
) -> Seq<TurnModel> {
    conversation.map_values(|message: MessageModel| turn_of(dialect, with_tools, message))
}

/// The turns of a conversation, with the declarations of tools where there are any.
pub open spec fn rendered_turns<D: ToolDialect>(
    dialect: D,
    declarations: Option<Seq<char>>,
    conversation: Seq<MessageModel>,
) -> Seq<TurnModel> {
    match declarations {
        Some(declarations) => declared(
            plain_turns(dialect, true, conversation),
            declarations,
        ),
        None => plain_turns(dialect, false, conversation),
    }
}

proof fn lemma_system_at(turns: Seq<TurnModel>, at: int)
    requires
        0 <= at <= turns.len(),
        forall|i: int| 0 <= i < at ==> (#[trigger] turns[i]).role != "system"@,
        at < turns.len() ==> turns[at].role == "system"@,
    ensures
        system_at(turns) == at,
    decreases turns.len(),
{
    if turns.len() > 0 && at > 0 {
        let rest = turns.drop_first();
        assert(turns[0].role != "system"@);
        assert forall|i: int| 0 <= i < at - 1 implies (#[trigger] rest[i]).role != "system"@ by {
            assert(rest[i] == turns[i + 1]);
        }
        lemma_system_at(rest, at - 1);
    }
}

/// `text` without its leading white space.
fn trim_start(text: &str) -> (out: String)
    ensures
        out@ == text::trimmed_start(text@),
{
    let chars = text::chars_of(text);
    let mut from: usize = 0;
    assert(chars@.subrange(0, chars@.len() as int) =~= chars@);
    while from < chars.len() && text::is_whitespace(chars[from])
        invariant
            0 <= from <= chars@.len(),
            text::trimmed_start(chars@.subrange(from as int, chars@.len() as int))
                == text::trimmed_start(chars@),
        decreases chars@.len() - from,
    {
        assert(chars@.subrange(from as int, chars@.len() as int).drop_first() =~= chars@.subrange(
            from + 1,
            chars@.len() as int,
        ));
        from += 1;
    }
    string_from(&chars, from)
}

fn string_from(chars: &Vec<char>, from: usize) -> (text: String)
    requires
        from <= chars@.len(),
    ensures
        text@ == chars@.subrange(from as int, chars@.len() as int),
{
    text::string_of(chars, from, chars.len())
}

/// Renders a conversation as the turns that the chat template takes.
pub fn render_messages<D: ToolDialect>(
    conversation: &Conversation,
    dialect: &D,
    declarations: Option<&str>,
) -> (turns: Vec<(String, String)>)
    ensures
        turns_model(turns@) == rendered_turns(
            *dialect,
            match declarations {
                Some(declarations) => Some(declarations@),
                None => None,
            },
            conversation@,
        ),
{
    let with_tools = declarations.is_some();
    let ghost models = conversation@;
    let ghost render = |message: MessageModel| turn_of(*dialect, with_tools, message);
    let mut turns: Vec<(String, String)> = Vec::new();
    let mut i: usize = 0;
    assert(models.subrange(0, 0).map_values(render) =~= Seq::empty());
    assert(turns_model(turns@) =~= Seq::empty());
    while i < conversation.messages.len()
        invariant
            0 <= i <= conversation.messages@.len(),
            models == conversation@,
            render == (|message: MessageModel| turn_of(*dialect, with_tools, message)),
            turns_model(turns@) == models.subrange(0, i as int).map_values(render),
        decreases conversation.messages@.len() - i,
    {
        let message = &conversation.messages[i];
        let turn = match message {
            Message::System { content } => ("system".to_owned(), content.clone()),
            Message::User { content } => ("user".to_owned(), content.clone()),
            Message::Assistant { content, tool_calls } => {
                let mut text = content.clone();
                if with_tools {
                    text.append(dialect.tool_calls(tool_calls).as_str());
                }
                ("assistant".to_owned(), text)
            },
            Message::ToolResult { tool_call_id: _, name: _, content } => if with_tools {
                dialect.tool_result(content.as_str())
            } else {
                ("tool".to_owned(), content.clone())
            },
            Message::Event { source, kind, content } => (
                "user".to_owned(),
                lm::label(source.as_str(), kind.as_str(), content.as_str()),
            ),
        };
        proof {
            let model = TurnModel { role: turn.0@, content: turn.1@ };
            assert(models[i as int] == message@);
            assert(model == render(message@));
            assert(turns_model(turns@.push(turn)) =~= turns_model(turns@).push(model));
            assert(models.subrange(0, i + 1).map_values(render) =~= models.subrange(
                0,
                i as int,
            ).map_values(render).push(model));
        }
        turns.push(turn);
        i += 1;
    }
    assert(models.subrange(0, models.len() as int) =~= models);
    match declarations {
        Some(declarations) => declare(turns, declarations),
        None => turns,
    }
}

/// Puts declarations into the first system turn, or into one of their own.
fn declare(turns: Vec<(String, String)>, declarations: &str) -> (out: Vec<(String, String)>)
    ensures
        turns_model(out@) == declared(turns_model(turns@), declarations@),
{
    let ghost models = turns_model(turns@);
    let mut out = turns;
    let mut at: usize = 0;
    while at < out.len() && !text::same(out[at].0.as_str(), "system")
        invariant
            0 <= at <= out@.len(),
            models == turns_model(out@),
            forall|i: int| 0 <= i < at ==> (#[trigger] models[i]).role != "system"@,
        decreases out@.len() - at,
    {
        assert(models[at as int].role == out@[at as int].0@);
        at += 1;
    }
    proof {
        if at < models.len() {
            assert(models[at as int].role == out@[at as int].0@);
        }
        lemma_system_at(models, at as int);
    }
    if at < out.len() {
        let (role, content) = out.remove(at);
        let mut content = content;
        content.append(declarations);
        out.insert(at, (role, content));
        assert(turns_model(out@) =~= declared(models, declarations@));
    } else {
        out.insert(0, ("system".to_owned(), trim_start(declarations)));
        assert(turns_model(out@) =~= declared(models, declarations@));
    }
    out
}

/// What one set of tools adds to a turn. It is kept from turn to turn: the declarations are
/// the beginning of the prompt, and a character that moved would cost decoding it all
/// again.
#[derive(Debug)]
pub struct ToolPrompt {
    /// The tools it was made for.
    pub tools: Vec<ToolKey>,
    pub declarations: String,
    pub grammar: String,
    /// What opens a call, as a trigger's pattern.
    pub trigger: String,
}

/// What tells one tool from another.
#[derive(Debug)]
pub struct ToolKey {
    pub name: String,
    pub description: String,
    /// The parameters, as compact JSON text.
    pub parameters: String,
}

/// What tells one tool from another.
pub struct KeyModel {
    pub name: Seq<char>,
    pub description: Seq<char>,
    pub parameters: Seq<char>,
}

/// What tells a tool from others.
pub open spec fn key_of(tool: ToolDefinitionModel) -> KeyModel {
    KeyModel {
        name: tool.name,
        description: tool.description,
        parameters: json::rendered(tool.parameters),
    }
}

/// What tells the tools of a list from others.
pub open spec fn keys_of(tools: Seq<ToolDefinitionModel>) -> Seq<KeyModel> {
    tools.map_values(|tool: ToolDefinitionModel| key_of(tool))
}

impl ToolPrompt {
    /// The tools it was made for.
    pub open spec fn keys(&self) -> Seq<KeyModel> {
        self.tools@.map_values(
            |key: ToolKey|
                KeyModel {
                    name: key.name@,
                    description: key.description@,
                    parameters: key.parameters@,
                },
        )
    }

    /// Makes the prompt of `tools`, whose schema the engine has `converted` to a grammar. It
    /// fails where the dialect has no grammar for them.
    pub fn build<D: ToolDialect>(dialect: &D, tools: &[ToolDefinition], converted: &str) -> (prompt:
        Result<ToolPrompt, LmError>)
        ensures
            match prompt {
                Ok(prompt) => {
                    &&& prompt.declarations@ == dialect.declarations_text(lm::tools_model(tools@))
                    &&& dialect.grammar_text(lm::tools_model(tools@), converted@) == Ok::<
                        Seq<char>,
                        LmErrorModel,
                    >(prompt.grammar@)
                    &&& prompt.trigger@ == dialect::escaped(dialect.open_text())
                    &&& prompt.keys() == keys_of(lm::tools_model(tools@))
                },
                Err(error) => dialect.grammar_text(lm::tools_model(tools@), converted@) == Err::<
                    Seq<char>,
                    LmErrorModel,
                >(error@),
            },
    {
        let grammar = match dialect.grammar(tools, converted) {
            Ok(grammar) => grammar,
            Err(error) => {
                return Err(error);
            },
        };
        let mut keys: Vec<ToolKey> = Vec::new();
        let mut i: usize = 0;
        while i < tools.len()
            invariant
                0 <= i <= tools@.len(),
                keys@.len() == i,
                forall|j: int|
                    0 <= j < i ==> (#[trigger] keys@[j]).name@ == tools@[j].name@
                        && keys@[j].description@ == tools@[j].description@
                        && keys@[j].parameters@ == json::rendered(tools@[j].parameters@),
            decreases tools@.len() - i,
        {
            keys.push(
                ToolKey {
                    name: tools[i].name.clone(),
                    description: tools[i].description.clone(),
                    parameters: tools[i].parameters.to_text(),
                },
            );
            i += 1;
        }
        let prompt = ToolPrompt {
            declarations: dialect.declarations(tools),
            grammar,
            trigger: dialect::regex_escape(dialect.open().as_str()),
            tools: keys,
        };
        assert(prompt.keys() =~= keys_of(lm::tools_model(tools@)));
        Ok(prompt)
    }

    /// Whether the prompt was made for `tools`.
    pub fn is_for(&self, tools: &[ToolDefinition]) -> (same: bool)
        ensures
            same == (self.keys() == keys_of(lm::tools_model(tools@))),
    {
        let ghost keys = keys_of(lm::tools_model(tools@));
        if self.tools.len() != tools.len() {
            assert(self.keys().len() != keys.len());
            return false;
        }
        let mut i: usize = 0;
        while i < tools.len()
            invariant
                0 <= i <= tools@.len(),
                self.tools@.len() == tools@.len(),
                keys == keys_of(lm::tools_model(tools@)),
                forall|j: int| 0 <= j < i ==> self.keys()[j] == #[trigger] keys[j],
            decreases tools@.len() - i,
        {
            let key = &self.tools[i];
            let tool = &tools[i];
            let same = text::same(key.name.as_str(), tool.name.as_str()) && text::same(
                key.description.as_str(),
                tool.description.as_str(),
            ) && text::same(key.parameters.as_str(), tool.parameters.to_text().as_str());
            proof {
                assert(self.keys()[i as int].name == key.name@);
                assert(self.keys()[i as int].description == key.description@);
                assert(self.keys()[i as int].parameters == key.parameters@);
                assert(keys[i as int].name == tool.name@);
                assert(keys[i as int].description == tool.description@);
                assert(keys[i as int].parameters == json::rendered(tool.parameters@));
            }
            if !same {
                assert(self.keys()[i as int] != keys[i as int]);
                return false;
            }
            assert(self.keys()[i as int] == keys[i as int]);
            i += 1;
        }
        assert(self.keys() =~= keys);
        true
    }
}

/// A prompt that is for the same tools declares them alike, so keeping it changes nothing.
pub proof fn a_kept_prompt_declares_the_same(
    a: Seq<ToolDefinitionModel>,
    b: Seq<ToolDefinitionModel>,
)
    requires
        keys_of(a) == keys_of(b),
    ensures
        dialect::ChatMlXml.declarations_text(a) == dialect::ChatMlXml.declarations_text(b),
        dialect::ChatMlXml.schema_text(a) == dialect::ChatMlXml.schema_text(b),
{
    lemma_same_declarations(a, b);
}

proof fn lemma_same_declarations(a: Seq<ToolDefinitionModel>, b: Seq<ToolDefinitionModel>)
    requires
        keys_of(a) == keys_of(b),
    ensures
        dialect::declaration_list(a) == dialect::declaration_list(b),
        dialect::branches(a) == dialect::branches(b),
    decreases a.len(),
{
    assert(keys_of(a).len() == a.len());
    assert(keys_of(b).len() == b.len());
    if a.len() > 0 {
        let n = a.len() - 1;
        assert(keys_of(a)[n] == key_of(a[n]));
        assert(keys_of(b)[n] == key_of(b[n]));
        assert(a.last() == a[n] && b.last() == b[n]);
        assert(a.last().name == b.last().name);
        assert(a.last().description == b.last().description);
        assert(json::rendered(a.last().parameters) == json::rendered(b.last().parameters));
        assert(keys_of(a.drop_last()) =~= keys_of(a).drop_last());
        assert(keys_of(b.drop_last()) =~= keys_of(b).drop_last());
        lemma_same_declarations(a.drop_last(), b.drop_last());
    }
}

/// The names of models, with commas between them.
pub open spec fn listed(names: Seq<Seq<char>>) -> Seq<char>
    decreases names.len(),
{
    if names.len() == 0 {
        Seq::empty()
    } else if names.len() == 1 {
        names[0]
    } else {
        listed(names.drop_last()) + ", "@ + names.last()
    }
}

/// What is told where a dialect that nobody named meets a model it does not cover.
pub open spec fn mismatch_text<D: ToolDialect>(dialect: D, model_name: Seq<char>) -> Seq<char> {
    "model "@ + text::quoted(model_name) + " is not one "@ + dialect.label_text() + " handles ("@
        + listed(dialect.model_names())
        + "); pass LlamaCppConfig::with_tool_dialect to override"@
}

/// Checks that a model is one the dialect covers. The name is only there where nobody named
/// the dialect and the model has one.
pub fn check_model<D: ToolDialect>(dialect: &D, model_name: &Option<String>) -> (checked: Result<
    (),
    String,
>)
    ensures
        match checked {
            Ok(_) => model_name matches Some(name) ==> dialect.covers(name@),
            Err(message) => model_name matches Some(name) && !dialect.covers(name@) && message@
                == mismatch_text(*dialect, name@),
        },
{
    match model_name {
        None => Ok(()),
        Some(name) => {
            if dialect.supports(name.as_str()) {
                return Ok(());
            }
            let mut message = "model ".to_owned();
            message.append(text::quote(name.as_str()).as_str());
            message.append(" is not one ");
            message.append(dialect.label().as_str());
            message.append(" handles (");
            message.append(list_names(&dialect.supported_models()).as_str());
            message.append("); pass LlamaCppConfig::with_tool_dialect to override");
            Err(message)
        },
    }
}

/// The names of a list, with commas between them.
fn list_names(names: &Vec<String>) -> (text: String)
    ensures
        text@ == listed(text::texts(names@)),
{
    let ghost models = text::texts(names@);
    let mut text = String::new();
    let mut i: usize = 0;
    assert(models.subrange(0, 0) =~= Seq::empty());
    while i < names.len()
        invariant
            0 <= i <= names@.len(),
            models == text::texts(names@),
            text@ == listed(models.subrange(0, i as int)),
        decreases names@.len() - i,
    {
        assert(models.subrange(0, i + 1).drop_last() =~= models.subrange(0, i as int));
        assert(models[i as int] == names@[i as int]@);
        if i == 0 {
            text = names[i].clone();
        } else {
            text.append(", ");
            text.append(names[i].as_str());
        }
        i += 1;
    }
    assert(models.subrange(0, models.len() as int) =~= models);
    text
}

/// The tokens of a prompt without the second of two leading BOS tokens: a vocabulary that
/// wants one and a template that begins with it would double it.
pub open spec fn single_bos(tokens: Seq<i32>, bos: i32) -> Seq<i32> {
    if tokens.len() >= 2 && tokens[0] == bos && tokens[1] == bos {
        tokens.drop_first()
    } else {
        tokens
    }
}

/// Drops the second of two leading BOS tokens.
pub fn collapse_bos(tokens: Vec<i32>, bos: i32) -> (out: Vec<i32>)
    ensures
        out@ == single_bos(tokens@, bos),
{
    let mut out = tokens;
    if out.len() >= 2 && out[0] == bos && out[1] == bos {
        let ghost before = out@;
        out.remove(0);
        assert(out@ =~= before.drop_first());
    }
    out
}

/// How many leading tokens two lists share.
pub open spec fn common_prefix(a: Seq<i32>, b: Seq<i32>) -> nat
    decreases a.len(),
{
    if a.len() == 0 || b.len() == 0 || a[0] != b[0] {
        0
    } else {
        1 + common_prefix(a.drop_first(), b.drop_first())
    }
}

/// What is decided before a prompt is decoded.
#[derive(Debug, Clone, Copy)]
pub struct Plan {
    /// How many leading tokens are in the engine's cache already. The last token of the
    /// prompt is always decoded, so that there is something to sample from.
    pub shared: usize,
    /// How many tokens may be generated.
    pub max_tokens: usize,
}

/// The lesser of two numbers.
pub open spec fn lesser(a: int, b: int) -> int {
    if a <= b {
        a
    } else {
        b
    }
}

/// What is decided before `prompt` is decoded, in a context of `context_size` tokens of
/// which `processed` are cached; or why it cannot be.
pub open spec fn plan_of(
    prompt: Seq<i32>,
    processed: Seq<i32>,
    context_size: usize,
    requested: u32,
) -> Result<(int, int), Seq<char>> {
    if prompt.len() == 0 {
        Err("chat template produced an empty prompt"@)
    } else if prompt.len() >= context_size {
        Err(
            "prompt uses "@ + text::decimal_digits(prompt.len()) + " tokens but context holds "@
                + text::decimal_digits(context_size as nat),
        )
    } else {
        Ok(
            (
                lesser(common_prefix(processed, prompt) as int, prompt.len() - 1),
                lesser(requested as int, context_size - prompt.len()),
            ),
        )
    }
}

proof fn lemma_common_prefix(a: Seq<i32>, b: Seq<i32>, n: int)
    requires
        0 <= n <= a.len(),
        n <= b.len(),
        forall|i: int| 0 <= i < n ==> a[i] == b[i],
        n < a.len() && n < b.len() ==> a[n] != b[n],
    ensures
        common_prefix(a, b) == n,
    decreases a.len(),
{
    if n > 0 {
        assert(a[0] == b[0]);
        let x = a.drop_first();
        let y = b.drop_first();
        assert forall|i: int| 0 <= i < n - 1 implies x[i] == y[i] by {
            assert(a[i + 1] == b[i + 1]);
        }
        lemma_common_prefix(x, y, n - 1);
    }
}

/// Decides what of a prompt is decoded, and how much may be generated.
pub fn plan(
    prompt: &Vec<i32>,
    processed: &Vec<i32>,
    context_size: usize,
    requested: u32,
) -> (planned: Result<Plan, String>)
    ensures
        plan_of(prompt@, processed@, context_size, requested) == (match planned {
            Ok(plan) => Ok::<(int, int), Seq<char>>((plan.shared as int, plan.max_tokens as int)),
            Err(message) => Err::<(int, int), Seq<char>>(message@),
        }),
{
    if prompt.len() == 0 {
        return Err("chat template produced an empty prompt".to_owned());
    }
    if prompt.len() >= context_size {
        let mut message = "prompt uses ".to_owned();
        message.append(text::decimal(prompt.len() as u64).as_str());
        message.append(" tokens but context holds ");
        message.append(text::decimal(context_size as u64).as_str());
        return Err(message);
    }
    let mut n: usize = 0;
    while n < prompt.len() && n < processed.len() && prompt[n] == processed[n]
        invariant
            0 <= n <= prompt@.len(),
            n <= processed@.len(),
            forall|i: int| 0 <= i < n ==> processed@[i] == prompt@[i],
        decreases prompt@.len() - n,
    {
        n += 1;
    }
    proof {
        lemma_common_prefix(processed@, prompt@, n as int);
    }
    let shared: usize = if n <= prompt.len() - 1 {
        n
    } else {
        prompt.len() - 1
    };
    let room: usize = context_size - prompt.len();
    let max_tokens: usize = if requested as u64 <= room as u64 {
        requested as usize
    } else {
        room
    };
    Ok(Plan { shared, max_tokens })
}

/// A prompt that is accepted leaves room to generate into, its last token is decoded, and
/// what is reused of the cache is what the prompt begins with.
pub proof fn plans_fit_the_context(
    prompt: Seq<i32>,
    processed: Seq<i32>,
    context_size: usize,
    requested: u32,
)
    requires
        plan_of(prompt, processed, context_size, requested) is Ok,
    ensures
        ({
            let (shared, max_tokens) = plan_of(prompt, processed, context_size, requested)->Ok_0;
            &&& 0 <= shared < prompt.len()
            &&& shared <= processed.len()
            &&& processed.subrange(0, shared) == prompt.subrange(0, shared)
            &&& 0 <= max_tokens <= requested
            &&& prompt.len() + max_tokens <= context_size
        }),
{
    lemma_common_prefix_is_common(processed, prompt);
    let shared = plan_of(prompt, processed, context_size, requested)->Ok_0.0;
    assert(processed.subrange(0, shared) =~= prompt.subrange(0, shared));
}

proof fn lemma_common_prefix_is_common(a: Seq<i32>, b: Seq<i32>)
    ensures
        common_prefix(a, b) <= a.len(),
        common_prefix(a, b) <= b.len(),
        forall|i: int| 0 <= i < common_prefix(a, b) ==> a[i] == b[i],
    decreases a.len(),
{
    if !(a.len() == 0 || b.len() == 0 || a[0] != b[0]) {
        let x = a.drop_first();
        let y = b.drop_first();
        lemma_common_prefix_is_common(x, y);
        assert forall|i: int| 0 <= i < common_prefix(a, b) implies a[i] == b[i] by {
            if i > 0 {
                assert(x[i - 1] == a[i] && y[i - 1] == b[i]);
            }
        }
    }
}

/// How much a turn may generate, and how: what it asks for, or else what is configured.
pub fn turn_settings(
    config: &LlamaCppConfig,
    max_tokens: Option<u32>,
    temperature_bits: Option<u32>,
) -> (settings: (u32, u32))
    ensures
        settings.0 == (match max_tokens {
            Some(n) => n,
            None => config.default_max_tokens,
        }),
        settings.1 == (match temperature_bits {
            Some(bits) => bits,
            None => config.default_temperature_bits,
        }),
{
    (
        match max_tokens {
            Some(n) => n,
            None => config.default_max_tokens,
        },
        match temperature_bits {
            Some(bits) => bits,
            None => config.default_temperature_bits,
        },
    )
}

/// The prompt of a turn: what the chat template rendered, and the text that the model goes
/// on from.
pub fn full_prompt(rendered: String, config: &LlamaCppConfig) -> (prompt: String)
    ensures
        prompt@ == (match config.assistant_prefix {
            Some(prefix) => rendered@ + prefix@,
            None => rendered@,
        }),
{
    let mut prompt = rendered;
    match &config.assistant_prefix {
        Some(prefix) => prompt.append(prefix.as_str()),
        None => {},
    }
    prompt
}

/// The model's name where the dialect is to be measured against it: a dialect that the
/// caller named is taken to fit.
pub fn measured_name(dialect_named: bool, model_name: Option<String>) -> (name: Option<String>)
    ensures
        name == (if dialect_named {
            None
        } else {
            model_name
        }),
{
    if dialect_named {
        None
    } else {
        model_name
    }
}

/// How the engine is set up.
#[derive(Debug, Clone, Copy)]
pub struct EngineSettings {
    pub gpu_layers: u32,
    /// Whether any device but the CPU may be used.
    pub use_devices: bool,
    pub context_size: u32,
    pub batch_size: u32,
    /// How many tokens are computed at once within a batch.
    pub micro_batch_size: u32,
    /// Whether the cache is kept on the GPU.
    pub offload_cache: bool,
    pub threads: i32,
    pub threads_batch: i32,
}

impl EngineSettings {
    /// The setup of a valid `config` on a machine whose backend can use a GPU or not.
    pub fn new(config: &LlamaCppConfig, gpu_available: bool) -> (settings: Result<
        EngineSettings,
        String,
    >)
        requires
            config::config_fault(*config, true) is None,
        ensures
            match settings {
                Err(message) => config.gpu_layers > 0 && !gpu_available && message@
                    == "GPU offload was requested but is unavailable"@,
                Ok(settings) => (config.gpu_layers == 0 || gpu_available) && settings == (
                EngineSettings {
                    gpu_layers: config.gpu_layers,
                    use_devices: config.gpu_layers > 0,
                    context_size: config.context_size,
                    batch_size: config.batch_size,
                    micro_batch_size: if config.batch_size <= 512 {
                        config.batch_size
                    } else {
                        512
                    },
                    offload_cache: config.gpu_layers > 0,
                    threads: config.threads as i32,
                    threads_batch: config.threads_batch as i32,
                }),
            },
    {
        if config.gpu_layers > 0 && !gpu_available {
            return Err("GPU offload was requested but is unavailable".to_owned());
        }
        Ok(
            EngineSettings {
                gpu_layers: config.gpu_layers,
                use_devices: config.gpu_layers > 0,
                context_size: config.context_size,
                batch_size: config.batch_size,
                micro_batch_size: if config.batch_size <= 512 {
                    config.batch_size
                } else {
                    512
                },
                offload_cache: config.gpu_layers > 0,
                threads: config.threads as i32,
                threads_batch: config.threads_batch as i32,
            },
        )
    }
}

/// One token of a batch.
#[derive(Debug, Clone, Copy)]
pub struct BatchEntry {
    pub token: i32,
    pub position: usize,
    /// Whether the next token is sampled from here.
    pub logits: bool,
}

/// The tokens of `prompt` from `from` to `to`, each at its own position; the next token is
/// sampled from the last of the prompt.
pub open spec fn entries(prompt: Seq<i32>, from: int, to: int) -> Seq<BatchEntry> {
    Seq::new(
        (to - from) as nat,
        |i: int|
            BatchEntry {
                token: prompt[from + i],
                position: (from + i) as usize,
                logits: from + i + 1 == prompt.len(),
            },
    )
}

/// A prompt being decoded, batch by batch.
#[derive(Debug)]
pub struct Prefill {
    prompt: Vec<i32>,
    done: usize,
    capacity: usize,
}

/// What a [`Prefill`] stands for.
pub struct PrefillModel {
    pub prompt: Seq<i32>,
    /// How many leading tokens are decoded.
    pub done: int,
    /// How many tokens are decoded at once.
    pub capacity: int,
}

impl View for Prefill {
    type V = PrefillModel;

    closed spec fn view(&self) -> PrefillModel {
        PrefillModel {
            prompt: self.prompt@,
            done: self.done as int,
            capacity: self.capacity as int,
        }
    }
}

/// Whether a prefill stands within its prompt.
pub open spec fn is_within(state: PrefillModel) -> bool {
    0 <= state.done <= state.prompt.len() <= usize::MAX && state.capacity > 0
}

/// Up to where the next batch goes.
pub open spec fn batch_end(state: PrefillModel) -> int {
    lesser(state.done + state.capacity, state.prompt.len() as int)
}

/// The cache as far as a prefill has come.
pub open spec fn cached_tokens(state: PrefillModel) -> Seq<i32> {
    state.prompt.subrange(0, state.done)
}

impl Prefill {
    /// A prefill of `prompt` of which `shared` tokens are cached; where the engine could
    /// not drop the rest of its cache, `kept` is false, and all is decoded again.
    pub fn new(prompt: Vec<i32>, shared: usize, kept: bool, capacity: usize) -> (prefill: Prefill)
        requires
            shared <= prompt@.len(),
            capacity > 0,
        ensures
            prefill@ == (PrefillModel {
                prompt: prompt@,
                done: if kept {
                    shared as int
                } else {
                    0
                },
                capacity: capacity as int,
            }),
            is_within(prefill@),
    {
        let n: usize = prompt.len();
        Prefill {
            prompt,
            done: if kept {
                shared
            } else {
                0
            },
            capacity,
        }
    }

    /// The next batch; empty once the prompt is decoded.
    pub fn batch(&self) -> (batch: Vec<BatchEntry>)
        requires
            is_within(self@),
        ensures
            batch@ == entries(self@.prompt, self@.done, batch_end(self@)),
    {
        let end: usize = self.end();
        let mut batch: Vec<BatchEntry> = Vec::new();
        let mut at: usize = self.done;
        assert(entries(self.prompt@, self.done as int, self.done as int) =~= Seq::empty());
        while at < end
            invariant
                self.done <= at <= end <= self.prompt@.len() <= usize::MAX,
                batch@ == entries(self.prompt@, self.done as int, at as int),
            decreases end - at,
        {
            let entry = BatchEntry {
                token: self.prompt[at],
                position: at,
                logits: at + 1 == self.prompt.len(),
            };
            assert(entries(self.prompt@, self.done as int, at + 1) =~= entries(
                self.prompt@,
                self.done as int,
                at as int,
            ).push(entry));
            batch.push(entry);
            at += 1;
        }
        batch
    }

    fn end(&self) -> (end: usize)
        requires
            is_within(self@),
        ensures
            end == batch_end(self@),
    {
        let left: usize = self.prompt.len() - self.done;
        if self.capacity <= left {
            self.done + self.capacity
        } else {
            self.prompt.len()
        }
    }

    /// The last batch was decoded.
    pub fn decoded(&mut self)
        requires
            is_within(old(self)@),
        ensures
            final(self)@ == (PrefillModel { done: batch_end(old(self)@), ..old(self)@ }),
            is_within(final(self)@),
    {
        self.done = self.end();
    }

    /// Whether the whole prompt is decoded.
    pub fn is_done(&self) -> (done: bool)
        ensures
            done == (self@.done == self@.prompt.len()),
    {
        self.done == self.prompt.len()
    }

    /// The tokens that the engine's cache holds now, whether or not all were decoded.
    pub fn processed(&self) -> (tokens: Vec<i32>)
        requires
            is_within(self@),
        ensures
            tokens@ == cached_tokens(self@),
    {
        let mut tokens: Vec<i32> = Vec::new();
        let mut i: usize = 0;
        assert(self.prompt@.subrange(0, 0) =~= Seq::empty());
        while i < self.done
            invariant
                0 <= i <= self.done <= self.prompt@.len(),
                tokens@ == self.prompt@.subrange(0, i as int),
            decreases self.done - i,
        {
            tokens.push(self.prompt[i]);
            i += 1;
        }
        tokens
    }
}

/// The batches of a prefill, put together.
pub open spec fn all_batches(state: PrefillModel) -> Seq<BatchEntry>
    decreases state.prompt.len() - state.done,
    when is_within(state)
{
    if state.done == state.prompt.len() {
        Seq::empty()
    } else {
        entries(state.prompt, state.done, batch_end(state)) + all_batches(
            PrefillModel { done: batch_end(state), ..state },
        )
    }
}

/// The batches of a prefill decode every token of the prompt that is not cached once, at
/// its own position and in order, however large a batch is.
pub proof fn batches_cover_the_prompt(state: PrefillModel)
    requires
        is_within(state),
    ensures
        all_batches(state) == entries(state.prompt, state.done, state.prompt.len() as int),
    decreases state.prompt.len() - state.done,
{
    let len = state.prompt.len() as int;
    if state.done == len {
        assert(entries(state.prompt, len, len) =~= Seq::empty());
    } else {
        let next = PrefillModel { done: batch_end(state), ..state };
        batches_cover_the_prompt(next);
        assert(entries(state.prompt, state.done, next.done) + entries(state.prompt, next.done, len)
            =~= entries(state.prompt, state.done, len));
    }
}

/// One sampler of a chain.
#[derive(Debug)]
pub enum SamplerStep {
    /// Constrains the whole output.
    Grammar { grammar: String },
    /// Constrains the output from where `trigger` matches. Never from the start: then every
    /// turn would be a tool call.
    LazyGrammar { grammar: String, root: String, trigger: String },
    /// Takes the likeliest token.
    Greedy,
    /// Keeps this many tokens.
    TopK(i32),
    /// Keeps the likeliest tokens that make up nineteen twentieths.
    TopP,
    /// Flattens or sharpens the choice.
    Temperature { bits: u32 },
    /// Draws a token.
    Draw { seed: u32 },
}

/// What a [`SamplerStep`] says.
pub enum SamplerModel {
    Grammar { grammar: Seq<char> },
    LazyGrammar { grammar: Seq<char>, root: Seq<char>, trigger: Seq<char> },
    Greedy,
    TopK(i32),
    TopP,
    Temperature { bits: u32 },
    Draw { seed: u32 },
}

impl View for SamplerStep {
    type V = SamplerModel;

    open spec fn view(&self) -> SamplerModel {
        match self {
            SamplerStep::Grammar { grammar } => SamplerModel::Grammar { grammar: grammar@ },
            SamplerStep::LazyGrammar { grammar, root, trigger } => SamplerModel::LazyGrammar {
                grammar: grammar@,
                root: root@,
                trigger: trigger@,
            },
            SamplerStep::Greedy => SamplerModel::Greedy,
            SamplerStep::TopK(k) => SamplerModel::TopK(*k),
            SamplerStep::TopP => SamplerModel::TopP,
            SamplerStep::Temperature { bits } => SamplerModel::Temperature { bits: *bits },
            SamplerStep::Draw { seed } => SamplerModel::Draw { seed: *seed },
        }
    }
}

/// What a list of samplers says.
pub open spec fn samplers_model(steps: Seq<SamplerStep>) -> Seq<SamplerModel> {
    steps.map_values(|step: SamplerStep| step@)
}

/// The samplers of a turn, in the order they apply.
pub open spec fn chain_of(
    grammar: Option<Seq<char>>,
    tools: Option<(Seq<char>, Seq<char>)>,
    temperature_bits: u32,
    seed: u32,
) -> Seq<SamplerModel> {
    (match grammar {
        Some(grammar) => seq![SamplerModel::Grammar { grammar }],
        None => Seq::empty(),
    }) + (match tools {
        Some((grammar, trigger)) => seq![
            SamplerModel::LazyGrammar { grammar, root: TOOL_CALL_ROOT@, trigger },
        ],
        None => Seq::empty(),
    }) + (if config::is_zero(temperature_bits) {
        seq![SamplerModel::Greedy]
    } else {
        seq![
            SamplerModel::TopK(40),
            SamplerModel::TopP,
            SamplerModel::Temperature { bits: temperature_bits },
            SamplerModel::Draw { seed },
        ]
    })
}

/// What a tool prompt gives to sampling.
pub open spec fn sampling_of(tools: Option<&ToolPrompt>) -> Option<(Seq<char>, Seq<char>)> {
    match tools {
        Some(tools) => Some((tools.grammar@, tools.trigger@)),
        None => None,
    }
}

/// Chooses the samplers of a turn.
pub fn samplers(
    grammar: &Option<String>,
    tools: Option<&ToolPrompt>,
    temperature_bits: u32,
    seed: u32,
) -> (chain: Result<Vec<SamplerStep>, String>)
    ensures
        match chain {
            Ok(steps) => config::is_temperature(temperature_bits) && samplers_model(steps@)
                == chain_of(
                records::optional_view(*grammar),
                sampling_of(tools),
                temperature_bits,
                seed,
            ),
            Err(message) => !config::is_temperature(temperature_bits) && message@
                == "temperature must be finite and non-negative"@,
        },
{
    if temperature_bits >= 0x7f80_0000 && temperature_bits != 0x8000_0000 {
        return Err("temperature must be finite and non-negative".to_owned());
    }
    let mut steps: Vec<SamplerStep> = Vec::new();
    match grammar {
        Some(grammar) => {
            steps.push(SamplerStep::Grammar { grammar: grammar.clone() });
        },
        None => {},
    }
    match tools {
        Some(tools) => {
            steps.push(
                SamplerStep::LazyGrammar {
                    grammar: tools.grammar.clone(),
                    root: TOOL_CALL_ROOT.to_owned(),
                    trigger: tools.trigger.clone(),
                },
            );
        },
        None => {},
    }
    if temperature_bits == 0 || temperature_bits == 0x8000_0000 {
        steps.push(SamplerStep::Greedy);
    } else {
        steps.push(SamplerStep::TopK(40));
        steps.push(SamplerStep::TopP);
        steps.push(SamplerStep::Temperature { bits: temperature_bits });
        steps.push(SamplerStep::Draw { seed });
    }
    assert(samplers_model(steps@) =~= chain_of(
        records::optional_view(*grammar),
        sampling_of(tools),
        temperature_bits,
        seed,
    ));
    Ok(steps)
}

/// One item that a turn says.
pub enum Utterance {
    Text(Seq<char>),
    /// A call; under which fresh id is open.
    Call { name: Seq<char>, arguments: JsonModel },
    Failure(LmErrorModel),
}

/// What a piece says: nothing where it is empty text.
pub open spec fn utterance_of<D: ToolDialect>(dialect: D, piece: Piece) -> Option<Utterance> {
    match piece {
        Piece::Text(text) => if text.len() == 0 {
            None
        } else {
            Some(Utterance::Text(text))
        },
        Piece::Call(body) => Some(
            match dialect.call_in(body) {
                Err(error) => Utterance::Failure(error),
                Ok((name, arguments)) => if name.len() == 0 {
                    Utterance::Failure(LmErrorModel::IncompleteToolCall)
                } else if arguments is Object {
                    Utterance::Call { name, arguments }
                } else {
                    Utterance::Failure(LmErrorModel::ToolArgumentsNotObject)
                },
            },
        ),
    }
}

/// What pieces say, and whether the turn goes on: a call that cannot be read is told and
/// ends it.
pub open spec fn utterances<D: ToolDialect>(dialect: D, pieces: Seq<Piece>) -> (
    Seq<Utterance>,
    bool,
)
    decreases pieces.len(),
{
    if pieces.len() == 0 {
        (Seq::empty(), true)
    } else {
        let (before, going) = utterances(dialect, pieces.drop_last());
        if !going {
            (before, false)
        } else {
            match utterance_of(dialect, pieces.last()) {
                None => (before, true),
                Some(utterance) => (before.push(utterance), !(utterance is Failure)),
            }
        }
    }
}

/// Whether `item` says what `utterance` says.
pub open spec fn item_utters(item: Result<ModelDelta, LmError>, utterance: Utterance) -> bool {
    match utterance {
        Utterance::Text(text) => lm::item_model(item) == Ok::<DeltaModel, LmErrorModel>(
            DeltaModel::Text(text),
        ),
        Utterance::Call { name, arguments } => exists|id: Seq<char>| #[trigger]
            ids::is_call_id(id, "call-"@) && lm::item_model(item) == lm::tool_call_model(
                id,
                name,
                arguments,
            ),
        Utterance::Failure(error) => lm::item_model(item) == Err::<DeltaModel, LmErrorModel>(error),
    }
}

/// Whether `items` say what `utterances` say, one by one.
pub open spec fn items_utter(
    items: Seq<Result<ModelDelta, LmError>>,
    utterances: Seq<Utterance>,
) -> bool {
    &&& items.len() == utterances.len()
    &&& forall|i: int| 0 <= i < items.len() ==> item_utters(#[trigger] items[i], utterances[i])
}

/// Turns pieces into items; the flag tells whether the turn goes on.
pub fn emit<D: ToolDialect>(dialect: &D, pieces: Vec<Intercepted>) -> (emitted: (
    Vec<Result<ModelDelta, LmError>>,
    bool,
))
    ensures
        items_utter(emitted.0@, utterances(*dialect, intercept::pieces(pieces@)).0),
        emitted.1 == utterances(*dialect, intercept::pieces(pieces@)).1,
{
    let ghost all = intercept::pieces(pieces@);
    let ghost list = pieces@;
    let mut rest = pieces;
    let mut items: Vec<Result<ModelDelta, LmError>> = Vec::new();
    let ghost mut n: int = 0;
    assert(list.subrange(0, list.len() as int) =~= list);
    assert(all.subrange(0, 0) =~= Seq::empty());
    while rest.len() > 0
        invariant
            0 <= n <= list.len(),
            list == pieces@,
            all == intercept::pieces(list),
            rest@ == list.subrange(n, list.len() as int),
            utterances(*dialect, all.subrange(0, n)).1,
            items_utter(items@, utterances(*dialect, all.subrange(0, n)).0),
        decreases rest@.len(),
    {
        let piece = rest.remove(0);
        proof {
            assert(piece == list[n]);
            assert(all[n] == piece@);
            assert(all.subrange(0, n + 1).drop_last() =~= all.subrange(0, n));
            assert(all.subrange(0, n + 1).last() == piece@);
            n = n + 1;
            assert(rest@ =~= list.subrange(n, list.len() as int));
        }
        match piece {
            Intercepted::Text(text) => {
                if !text.as_str().is_empty() {
                    items.push(Ok(ModelDelta::Text(text)));
                }
            },
            Intercepted::Call(body) => {
                let item = match dialect.parse(body.as_str()) {
                    Ok((name, arguments)) => {
                        let id = ids::mint_call_id("call-");
                        proof {
                            lemma_call_id_is_not_empty(id@);
                            assert(ids::is_call_id(id@, "call-"@));
                        }
                        ModelDelta::tool_call(id, name, &arguments)
                    },
                    Err(error) => Err(error),
                };
                let failed = item.is_err();
                items.push(item);
                if failed {
                    proof {
                        lemma_utterances_end(*dialect, all, n);
                    }
                    return (items, false);
                }
            },
        }
    }
    assert(all.subrange(0, n) =~= all);
    (items, true)
}

proof fn lemma_call_id_is_not_empty(id: Seq<char>)
    requires
        ids::is_call_id(id, "call-"@),
    ensures
        id.len() > 0,
{
    let uuid = choose|uuid: Seq<char>| ids::is_hyphenated(uuid) && id == "call-"@ + uuid;
    assert(id.len() >= uuid.len());
}

proof fn lemma_utterances_end<D: ToolDialect>(dialect: D, pieces: Seq<Piece>, n: int)
    requires
        0 <= n <= pieces.len(),
        !utterances(dialect, pieces.subrange(0, n)).1,
    ensures
        utterances(dialect, pieces) == utterances(dialect, pieces.subrange(0, n)),
    decreases pieces.len(),
{
    if n < pieces.len() {
        assert(pieces.drop_last().subrange(0, n) =~= pieces.subrange(0, n));
        lemma_utterances_end(dialect, pieces.drop_last(), n);
    } else {
        assert(pieces.subrange(0, n) =~= pieces);
    }
}

/// The decoding of a reply, token by token.
#[derive(Debug)]
pub struct DecodeLoop {
    kept: Vec<i32>,
    left: usize,
    stopped: bool,
    interceptor: Option<CallInterceptor>,
}

/// What a [`DecodeLoop`] stands for.
pub struct LoopModel {
    /// The tokens that the engine's cache holds. The next one goes behind them.
    pub kept: Seq<i32>,
    /// How many tokens may still be sampled.
    pub left: int,
    /// Whether nothing more is said: the turn ended, or it was cut short by a cancellation,
    /// by a call that cannot be read, or because nobody takes what it says.
    pub stopped: bool,
    /// What is held back, where calls are looked for.
    pub held: Option<HeldModel>,
}

impl View for DecodeLoop {
    type V = LoopModel;

    closed spec fn view(&self) -> LoopModel {
        LoopModel {
            kept: self.kept@,
            left: self.left as int,
            stopped: self.stopped,
            held: match self.interceptor {
                Some(interceptor) => Some(interceptor@),
                None => None,
            },
        }
    }
}

/// Whether a loop has delimiters to look for, where it looks for calls.
pub open spec fn may_decode(state: LoopModel) -> bool {
    state.held matches Some(held) ==> held.open.len() + held.close.len() > 0
}

/// A loop behind a decoded prompt.
pub open spec fn begun(prompt: Seq<i32>, max_tokens: int, held: Option<HeldModel>) -> LoopModel {
    LoopModel { kept: prompt, left: max_tokens, stopped: false, held }
}

/// What asking for another token comes to, with the generation being `current` or not: what
/// the loop becomes, and whether one is sampled.
pub open spec fn asked(state: LoopModel, current: bool) -> (LoopModel, bool) {
    if state.stopped || state.left <= 0 {
        (state, false)
    } else if !current {
        (LoopModel { stopped: true, ..state }, false)
    } else {
        (LoopModel { left: state.left - 1, ..state }, true)
    }
}

/// What a piece of decoded text is split into, and what is held back after it.
pub open spec fn split_piece(held: Option<HeldModel>, piece: Seq<char>) -> (
    Seq<Piece>,
    Option<HeldModel>,
) {
    match held {
        Some(held) => {
            let (out, after) = intercept::pushed(held, piece);
            (out, Some(after))
        },
        None => (seq![Piece::Text(piece)], None),
    }
}

/// What a loop becomes when a token was said: where the token goes, unless the turn stops
/// here.
pub open spec fn heard(state: LoopModel, delivered: bool, current: bool) -> (
    LoopModel,
    Option<int>,
) {
    if delivered && current {
        (state, Some(state.kept.len() as int))
    } else {
        (LoopModel { stopped: true, ..state }, None)
    }
}

/// A loop once `token` was decoded.
pub open spec fn grown(state: LoopModel, token: i32) -> LoopModel {
    LoopModel { kept: state.kept.push(token), ..state }
}

/// What is still to be said at the end of a reply. A turn that was cut short has nothing
/// worth saying, and one that stops within a call fails.
pub open spec fn tail_of(state: LoopModel) -> Option<Result<Piece, LmErrorModel>> {
    match state.held {
        Some(held) => if state.stopped {
            None
        } else if held.capturing {
            Some(Err(LmErrorModel::IncompleteToolCall))
        } else if held.buffer.len() > 0 {
            Some(Ok(Piece::Text(held.buffer)))
        } else {
            None
        },
        None => None,
    }
}

/// A loop once its tail was told.
pub open spec fn finished(state: LoopModel) -> LoopModel {
    LoopModel {
        stopped: true,
        held: match state.held {
            Some(held) => if state.stopped || held.capturing {
                Some(held)
            } else {
                Some(HeldModel { buffer: Seq::empty(), ..held })
            },
            None => None,
        },
        ..state
    }
}

/// What a tail says.
pub open spec fn tail_model(tail: Option<Result<Intercepted, LmError>>) -> Option<
    Result<Piece, LmErrorModel>,
> {
    match tail {
        Some(Ok(item)) => Some(Ok(item@)),
        Some(Err(error)) => Some(Err(error@)),
        None => None,
    }
}

impl DecodeLoop {
    /// The decoding of up to `max_tokens` tokens behind a prompt that is decoded. Calls are
    /// looked for where there are `delimiters`.
    pub fn new(prefill: Prefill, max_tokens: usize, delimiters: Option<(String, String)>) -> (state:
        DecodeLoop)
        requires
            prefill@.done == prefill@.prompt.len(),
            delimiters matches Some((open, close)) ==> open@.len() + close@.len() > 0,
        ensures
            may_decode(state@),
            state@ == begun(
                prefill@.prompt,
                max_tokens as int,
                match delimiters {
                    Some((open, close)) => Some(
                        HeldModel {
                            open: open@,
                            close: close@,
                            buffer: Seq::empty(),
                            capturing: false,
                        },
                    ),
                    None => None,
                },
            ),
    {
        DecodeLoop {
            kept: prefill.prompt,
            left: max_tokens,
            stopped: false,
            interceptor: match delimiters {
                Some((open, close)) => Some(CallInterceptor::new(open.as_str(), close.as_str())),
                None => None,
            },
        }
    }

    /// Whether to sample another token, with the generation being `current` or not.
    pub fn goes_on(&mut self, current: bool) -> (sample: bool)
        ensures
            (final(self)@, sample) == asked(old(self)@, current),
    {
        if self.stopped || self.left == 0 {
            return false;
        }
        if !current {
            self.stopped = true;
            return false;
        }
        self.left = self.left - 1;
        true
    }

    /// Splits a piece of decoded text into what is spoken and calls.
    pub fn piece(&mut self, piece: &str) -> (pieces: Vec<Intercepted>)
        requires
            may_decode(old(self)@),
        ensures
            (intercept::pieces(pieces@), final(self)@.held) == split_piece(
                old(self)@.held,
                piece@,
            ),
            final(self)@ == (LoopModel { held: final(self)@.held, ..old(self)@ }),
            may_decode(final(self)@),
    {
        let mut out: Vec<Intercepted> = Vec::new();
        let ghost before = self@.held;
        match self.interceptor.take() {
            Some(mut interceptor) => {
                assert(intercept::pieces(out@) =~= Seq::empty());
                interceptor.push(piece, &mut out);
                proof {
                    let held = before->0;
                    intercept::nothing_is_lost(held, seq![piece@]);
                    intercept::lemma_pushed_once(held, piece@);
                    assert(Seq::<Piece>::empty() + intercept::pushed(held, piece@).0
                        =~= intercept::pushed(held, piece@).0);
                }
                self.interceptor = Some(interceptor);
            },
            None => {
                out.push(Intercepted::Text(piece.to_owned()));
                assert(intercept::pieces(out@) =~= seq![Piece::Text(piece@)]);
            },
        }
        out
    }

    /// The items of a token were said, and `delivered` or not; returns where the token is
    /// decoded, unless the turn stops here.
    pub fn said(&mut self, delivered: bool, current: bool) -> (position: Option<usize>)
        ensures
            final(self)@ == heard(old(self)@, delivered, current).0,
            match position {
                Some(at) => heard(old(self)@, delivered, current).1 == Some(at as int),
                None => heard(old(self)@, delivered, current).1 is None,
            },
    {
        if !delivered || !current {
            self.stopped = true;
            return None;
        }
        Some(self.kept.len())
    }

    /// The engine decoded `token`, behind those it holds.
    pub fn decoded(&mut self, token: i32)
        ensures
            final(self)@ == grown(old(self)@, token),
    {
        self.kept.push(token);
    }

    /// The end of the reply: what is still to be said.
    pub fn finish(&mut self) -> (tail: Option<Result<Intercepted, LmError>>)
        ensures
            tail_model(tail) == tail_of(old(self)@),
            final(self)@ == finished(old(self)@),
    {
        if self.stopped {
            return None;
        }
        self.stopped = true;
        match self.interceptor.take() {
            Some(mut interceptor) => {
                let tail = interceptor.finish();
                self.interceptor = Some(interceptor);
                match tail {
                    Ok(Some(tail)) => Some(Ok(tail)),
                    Ok(None) => None,
                    Err(error) => Some(Err(error)),
                }
            },
            None => None,
        }
    }

    /// The tokens that the engine's cache holds now.
    pub fn into_processed(self) -> (tokens: Vec<i32>)
        ensures
            tokens@ == self@.kept,
    {
        self.kept
    }
}

/// What a reply's tail was told is not told again.
pub proof fn a_tail_is_told_once(state: LoopModel, current: bool)
    ensures
        tail_of(finished(state)) is None,
        finished(finished(state)) == finished(state),
        !asked(finished(state), current).1,
{
}

/// The cache after a batch that leaves no gap was decoded: each token stands at its
/// position.
pub open spec fn written(cache: Seq<i32>, batch: Seq<BatchEntry>) -> Seq<i32>
    decreases batch.len(),
{
    if batch.len() == 0 {
        cache
    } else {
        let before = written(cache, batch.drop_last());
        let entry = batch.last();
        if entry.position < before.len() {
            before.update(entry.position as int, entry.token)
        } else {
            before.push(entry.token)
        }
    }
}

proof fn lemma_written(prompt: Seq<i32>, from: int, to: int)
    requires
        0 <= from <= to <= prompt.len() <= usize::MAX,
    ensures
        written(prompt.subrange(0, from), entries(prompt, from, to)) == prompt.subrange(0, to),
    decreases to - from,
{
    if from < to {
        lemma_written(prompt, from, to - 1);
        assert(entries(prompt, from, to).drop_last() =~= entries(prompt, from, to - 1));
        assert(prompt.subrange(0, to - 1).push(prompt[to - 1]) =~= prompt.subrange(0, to));
    }
}

/// What is kept of the tokens is what decoding writes into the cache: batch by batch while
/// the prompt is decoded, and token by token while the reply is.
pub proof fn decoding_writes_what_is_kept(
    prefill: PrefillModel,
    state: LoopModel,
    delivered: bool,
    current: bool,
    token: i32,
    logits: bool,
)
    requires
        is_within(prefill),
        state.kept.len() <= usize::MAX,
    ensures
        written(
            cached_tokens(prefill),
            entries(prefill.prompt, prefill.done, batch_end(prefill)),
        ) == cached_tokens(PrefillModel { done: batch_end(prefill), ..prefill }),
        heard(state, delivered, current).1 matches Some(position) ==> written(
            state.kept,
            seq![BatchEntry { token, position: position as usize, logits }],
        ) == grown(state, token).kept,
{
    lemma_written(prefill.prompt, prefill.done, batch_end(prefill));
    let entry = BatchEntry { token, position: state.kept.len() as usize, logits };
    assert(seq![entry].drop_last() =~= Seq::empty());
    assert(written(state.kept, seq![entry].drop_last()) == state.kept);
}

/// A prefill after it was asked before each batch whether its turn is current, and went on
/// where it was.
pub open spec fn prefilled(state: PrefillModel, current: Seq<bool>) -> PrefillModel
    decreases current.len(),
{
    if state.done == state.prompt.len() || current.len() == 0 || !current[0] {
        state
    } else {
        prefilled(PrefillModel { done: batch_end(state), ..state }, current.drop_first())
    }
}

/// What happens around one token of a reply.
pub struct Round {
    /// Whether the generation is current before the token is sampled.
    pub current: bool,
    pub token: i32,
    /// Whether the token ends the reply.
    pub ends: bool,
    /// The text of the token.
    pub piece: Seq<char>,
    /// Whether what it says went out.
    pub delivered: bool,
    /// Whether the generation is current after that.
    pub still_current: bool,
}

/// Whether a round's token is decoded, where it is sampled.
pub open spec fn is_decoded(round: Round) -> bool {
    round.current && !round.ends && round.delivered && round.still_current
}

/// A loop after one round, and whether it goes on.
pub open spec fn after_round(state: LoopModel, round: Round) -> (LoopModel, bool) {
    let (state, sample) = asked(state, round.current);
    if !sample || round.ends {
        (state, false)
    } else {
        let state = LoopModel { held: split_piece(state.held, round.piece).1, ..state };
        let (state, position) = heard(state, round.delivered, round.still_current);
        if position is Some {
            (grown(state, round.token), true)
        } else {
            (state, false)
        }
    }
}

/// A loop after its rounds, up to the one that it does not go on from.
pub open spec fn replied(state: LoopModel, rounds: Seq<Round>) -> LoopModel
    decreases rounds.len(),
{
    if rounds.len() == 0 {
        state
    } else {
        let (after, goes_on) = after_round(state, rounds[0]);
        if goes_on {
            replied(after, rounds.drop_first())
        } else {
            after
        }
    }
}

/// How many rounds decode their token, with `left` tokens that may be sampled.
pub open spec fn decoded_rounds(rounds: Seq<Round>, left: int) -> int
    decreases rounds.len(),
{
    if rounds.len() == 0 || left <= 0 || !is_decoded(rounds[0]) {
        0
    } else {
        1 + decoded_rounds(rounds.drop_first(), left - 1)
    }
}

/// The tokens of rounds.
pub open spec fn tokens_of(rounds: Seq<Round>) -> Seq<i32> {
    rounds.map_values(|round: Round| round.token)
}

/// The tokens that are kept after a turn: what of the prompt was decoded where the turn was
/// superseded meanwhile, else what the reply left.
pub open spec fn kept_after(
    prefill: PrefillModel,
    checks: Seq<bool>,
    max_tokens: int,
    held: Option<HeldModel>,
    rounds: Seq<Round>,
) -> Seq<i32> {
    let prefill = prefilled(prefill, checks);
    if prefill.done < prefill.prompt.len() {
        cached_tokens(prefill)
    } else {
        replied(begun(prefill.prompt, max_tokens, held), rounds).kept
    }
}

proof fn lemma_prefilled(state: PrefillModel, current: Seq<bool>)
    requires
        is_within(state),
    ensures
        is_within(prefilled(state, current)),
        prefilled(state, current).prompt == state.prompt,
        state.done <= prefilled(state, current).done,
    decreases current.len(),
{
    if !(state.done == state.prompt.len() || current.len() == 0 || !current[0]) {
        lemma_prefilled(
            PrefillModel { done: batch_end(state), ..state },
            current.drop_first(),
        );
    }
}

proof fn lemma_replied(state: LoopModel, rounds: Seq<Round>)
    requires
        !state.stopped,
        state.left >= 0,
    ensures
        ({
            let n = decoded_rounds(rounds, state.left);
            let after = replied(state, rounds);
            &&& 0 <= n <= rounds.len()
            &&& n <= state.left
            &&& after.kept == state.kept + tokens_of(rounds.subrange(0, n))
            &&& 0 <= after.left
            &&& n <= state.left - after.left <= n + 1
        }),
    decreases rounds.len(),
{
    let n = decoded_rounds(rounds, state.left);
    if rounds.len() > 0 && state.left > 0 && is_decoded(rounds[0]) {
        let rest = rounds.drop_first();
        let next = after_round(state, rounds[0]).0;
        lemma_replied(next, rest);
        let m = decoded_rounds(rest, next.left);
        assert(tokens_of(rounds.subrange(0, n)) =~= seq![rounds[0].token] + tokens_of(
            rest.subrange(0, m),
        ));
        assert(state.kept.push(rounds[0].token) + tokens_of(rest.subrange(0, m)) =~= state.kept + (
        seq![rounds[0].token] + tokens_of(rest.subrange(0, m))));
    } else {
        assert(state.kept + tokens_of(rounds.subrange(0, 0)) =~= state.kept);
    }
}

/// What is kept after a turn is what the cache holds: a beginning of the prompt where the
/// turn was superseded while the prompt was decoded, else the prompt and every token that
/// was decoded behind it. No more tokens are sampled than may be, and a turn that was cut
/// short tells no tail.
pub proof fn kept_tokens_are_the_cache(
    prefill: PrefillModel,
    checks: Seq<bool>,
    max_tokens: int,
    held: Option<HeldModel>,
    rounds: Seq<Round>,
)
    requires
        is_within(prefill),
        max_tokens >= 0,
    ensures
        ({
            let kept = kept_after(prefill, checks, max_tokens, held, rounds);
            let reached = prefilled(prefill, checks).done;
            let prompt = prefill.prompt;
            let n = decoded_rounds(rounds, max_tokens);
            let after = replied(begun(prompt, max_tokens, held), rounds);
            &&& prefill.done <= reached <= prompt.len()
            &&& reached < prompt.len() ==> kept == prompt.subrange(0, reached)
            &&& reached == prompt.len() ==> kept == prompt + tokens_of(rounds.subrange(0, n))
            &&& 0 <= n <= max_tokens
            &&& n <= rounds.len()
            &&& 0 <= max_tokens - after.left <= max_tokens
            &&& after.stopped ==> tail_of(after) is None
        }),
{
    lemma_prefilled(prefill, checks);
    lemma_replied(begun(prefill.prompt, max_tokens, held), rounds);
}

/// What is told where the engine failed.
pub fn engine_failed(message: &str) -> (error: LmError)
    ensures
        error@ == LmErrorModel::Engine(message@),
{
    LmError::Engine(message.to_owned())
}

/// Without tools no dialect has a say: the turns are the same under any two, and each piece
/// of decoded text is spoken as it comes.
pub proof fn without_tools_no_dialect_counts<D: ToolDialect, E: ToolDialect>(
    one: D,
    two: E,
    conversation: Seq<MessageModel>,
    piece: Seq<char>,
)
    ensures
        rendered_turns(one, None, conversation) == rendered_turns(two, None, conversation),
        split_piece(None, piece) == (seq![Piece::Text(piece)], None::<HeldModel>),
{
    assert(plain_turns(one, false, conversation) =~= plain_turns(two, false, conversation));
}

/// A message keeps its voice and its words: what the system, the user and the assistant
/// said goes under their own role, as it is, and an event goes as a user's with its label.
/// A turn's calls stand behind its text where tools are there, and a result goes as the
/// dialect has it.
pub proof fn turns_keep_voice_and_words<D: ToolDialect>(
    dialect: D,
    with_tools: bool,
    content: Seq<char>,
    tool_calls: Seq<lm::ToolCallModel>,
    source: Seq<char>,
    kind: Seq<char>,
)
    ensures
        turn_of(dialect, with_tools, MessageModel::System { content }) == (TurnModel {
            role: "system"@,
            content,
        }),
        turn_of(dialect, with_tools, MessageModel::User { content }) == (TurnModel {
            role: "user"@,
            content,
        }),
        turn_of(dialect, with_tools, MessageModel::Event { source, kind, content }) == (TurnModel {
            role: "user"@,
            content: "["@ + source + "/"@ + kind + "] "@ + content,
        }),
        turn_of(dialect, false, MessageModel::Assistant { content, tool_calls }) == (TurnModel {
            role: "assistant"@,
            content,
        }),
        turn_of(dialect, true, MessageModel::Assistant { content, tool_calls }) == (TurnModel {
            role: "assistant"@,
            content: content + dialect.calls_text(tool_calls),
        }),
        turn_of(
            dialect,
            false,
            MessageModel::ToolResult { tool_call_id: source, name: kind, content },
        ) == (TurnModel { role: "tool"@, content }),
        turn_of(
            dialect,
            true,
            MessageModel::ToolResult { tool_call_id: source, name: kind, content },
        ) == (TurnModel { role: dialect.result_role(), content: dialect.result_text(content) }),
{
}

proof fn lemma_system_at_is_first(turns: Seq<TurnModel>)
    ensures
        0 <= system_at(turns) <= turns.len(),
        system_at(turns) < turns.len() ==> turns[system_at(turns)].role == "system"@,
        forall|i: int| 0 <= i < system_at(turns) ==> (#[trigger] turns[i]).role != "system"@,
    decreases turns.len(),
{
    if turns.len() > 0 && turns[0].role != "system"@ {
        let rest = turns.drop_first();
        lemma_system_at_is_first(rest);
        assert forall|i: int| 0 <= i < system_at(turns) implies (#[trigger] turns[i]).role
            != "system"@ by {
            if i > 0 {
                assert(rest[i - 1] == turns[i]);
            }
        }
    }
}

/// Every message becomes one turn, in order. Declarations reach the model once: behind the
/// first system turn's own words, or, where there is no system turn, in one of their own
/// before all others. No other turn is changed.
pub proof fn declarations_reach_the_model_once<D: ToolDialect>(
    dialect: D,
    conversation: Seq<MessageModel>,
    declarations: Seq<char>,
    first: int,
    i: int,
)
    requires
        0 <= first <= conversation.len(),
        forall|j: int|
            0 <= j < first ==> turn_of(dialect, true, #[trigger] conversation[j]).role
                != "system"@,
        first < conversation.len() ==> turn_of(dialect, true, conversation[first]).role
            == "system"@,
        0 <= i < conversation.len(),
    ensures
        rendered_turns(dialect, None, conversation).len() == conversation.len(),
        rendered_turns(dialect, None, conversation)[i] == turn_of(dialect, false, conversation[i]),
        ({
            let turns = rendered_turns(dialect, Some(declarations), conversation);
            let own = turn_of(dialect, true, conversation[i]);
            if first < conversation.len() {
                &&& turns.len() == conversation.len()
                &&& turns[i].role == own.role
                &&& turns[i].content == (if i == first {
                    own.content + declarations
                } else {
                    own.content
                })
            } else {
                &&& turns.len() == conversation.len() + 1
                &&& turns[0].role == "system"@
                &&& turns[0].content == text::trimmed_start(declarations)
                &&& turns[i + 1] == own
            }
        }),
{
    let plain = plain_turns(dialect, true, conversation);
    lemma_system_at_is_first(plain);
    let at = system_at(plain);
    assert(plain[i] == turn_of(dialect, true, conversation[i]));
    if at < first {
        assert(plain[at] == turn_of(dialect, true, conversation[at]));
    }
    if first < at {
        assert(plain[first] == turn_of(dialect, true, conversation[first]));
    }
    assert(at == first);
}

/// A prompt is refused where it is empty or leaves no room in the context, and for nothing
/// else. As much of the cache is reused as the prompt begins with, but for its last token,
/// and as much may be generated as was asked for, or as there is room.
pub proof fn plans_make_the_most_of_the_context(
    prompt: Seq<i32>,
    processed: Seq<i32>,
    context_size: usize,
    requested: u32,
)
    ensures
        (plan_of(prompt, processed, context_size, requested) is Ok) == (0 < prompt.len()
            < context_size),
        plan_of(prompt, processed, context_size, requested) matches Ok(plan) ==> {
            let (shared, max_tokens) = plan;
            &&& shared < prompt.len() - 1 && shared < processed.len() ==> prompt[shared]
                != processed[shared]
            &&& shared == prompt.len() - 1 || shared == processed.len() || (shared
                < processed.len() && prompt[shared] != processed[shared])
            &&& max_tokens == requested || max_tokens == context_size - prompt.len()
            &&& max_tokens == requested || max_tokens < requested
        },
        prompt.len() == 0 ==> plan_of(prompt, processed, context_size, requested) == Err::<
            (int, int),
            Seq<char>,
        >("chat template produced an empty prompt"@),
        prompt.len() > 0 && prompt.len() >= context_size ==> plan_of(
            prompt,
            processed,
            context_size,
            requested,
        ) == Err::<(int, int), Seq<char>>(
            "prompt uses "@ + text::decimal_digits(prompt.len()) + " tokens but context holds "@
                + text::decimal_digits(context_size as nat),
        ),
{
    lemma_common_prefix_ends(processed, prompt);
}

proof fn lemma_common_prefix_ends(a: Seq<i32>, b: Seq<i32>)
    ensures
        common_prefix(a, b) <= a.len(),
        common_prefix(a, b) <= b.len(),
        common_prefix(a, b) < a.len() && common_prefix(a, b) < b.len() ==> a[common_prefix(
            a,
            b,
        ) as int] != b[common_prefix(a, b) as int],
    decreases a.len(),
{
    if !(a.len() == 0 || b.len() == 0 || a[0] != b[0]) {
        lemma_common_prefix_ends(a.drop_first(), b.drop_first());
    }
}

/// A doubled token at the beginning loses its double, and no other prompt is changed.
pub proof fn only_a_doubled_beginning_is_cut(tokens: Seq<i32>, bos: i32)
    ensures
        single_bos(seq![bos, bos] + tokens, bos) == seq![bos] + tokens,
        !(tokens.len() >= 2 && tokens[0] == bos && tokens[1] == bos) ==> single_bos(tokens, bos)
            == tokens,
{
    assert((seq![bos, bos] + tokens).drop_first() =~= seq![bos] + tokens);
}

/// What is left of a prompt is decoded token by token, each at its own position, and only
/// its last token is sampled from.
pub proof fn every_token_stands_at_its_position(state: PrefillModel, i: int)
    requires
        is_within(state),
        state.done <= i < state.prompt.len(),
    ensures
        all_batches(state).len() == state.prompt.len() - state.done,
        all_batches(state)[i - state.done].token == state.prompt[i],
        all_batches(state)[i - state.done].position == i,
        all_batches(state)[i - state.done].logits == (i == state.prompt.len() - 1),
{
    batches_cover_the_prompt(state);
}

/// The samplers of a turn: what constrains all of its output comes first, what constrains
/// its calls next and only from where one opens, and then how a token is chosen: the
/// likeliest at zero, else one drawn with the turn's own temperature and seed.
pub proof fn samplers_apply_in_order(
    grammar: Option<Seq<char>>,
    tools: Option<(Seq<char>, Seq<char>)>,
    bits: u32,
    seed: u32,
)
    ensures
        ({
            let chain = chain_of(grammar, tools, bits, seed);
            let constrained: int = if grammar is Some {
                1
            } else {
                0
            };
            let offset: int = if tools is Some {
                constrained + 1
            } else {
                constrained
            };
            &&& grammar matches Some(rules) ==> chain[0] == (SamplerModel::Grammar {
                grammar: rules,
            })
            &&& tools matches Some(lazy) ==> chain[constrained] == (SamplerModel::LazyGrammar {
                grammar: lazy.0,
                root: "tool-call"@,
                trigger: lazy.1,
            })
            &&& if bits == 0 || bits == 0x8000_0000 {
                &&& chain.len() == offset + 1
                &&& chain.last() is Greedy
            } else {
                &&& chain.len() == offset + 4
                &&& chain[offset] == SamplerModel::TopK(40)
                &&& chain[offset + 1] is TopP
                &&& chain[offset + 2] == (SamplerModel::Temperature { bits })
                &&& chain[offset + 3] == (SamplerModel::Draw { seed })
            }
        }),
{
}

/// The text among what is said.
pub open spec fn text_said(said: Seq<Utterance>) -> Seq<char>
    decreases said.len(),
{
    if said.len() == 0 {
        Seq::empty()
    } else {
        text_said(said.drop_last()) + (match said.last() {
            Utterance::Text(text) => text,
            _ => Seq::empty(),
        })
    }
}

/// The calls among what is said, in order.
pub open spec fn calls_said(said: Seq<Utterance>) -> Seq<(Seq<char>, JsonModel)>
    decreases said.len(),
{
    if said.len() == 0 {
        Seq::empty()
    } else {
        match said.last() {
            Utterance::Call { name, arguments } => calls_said(said.drop_last()).push(
                (name, arguments),
            ),
            _ => calls_said(said.drop_last()),
        }
    }
}

/// The text of pieces, joined.
pub open spec fn text_in(pieces: Seq<Piece>) -> Seq<char>
    decreases pieces.len(),
{
    if pieces.len() == 0 {
        Seq::empty()
    } else {
        text_in(pieces.drop_last()) + (match pieces.last() {
            Piece::Text(text) => text,
            Piece::Call(_) => Seq::empty(),
        })
    }
}

/// The bodies of the calls among pieces, in order.
pub open spec fn bodies_in(pieces: Seq<Piece>) -> Seq<Seq<char>>
    decreases pieces.len(),
{
    if pieces.len() == 0 {
        Seq::empty()
    } else {
        match pieces.last() {
            Piece::Call(body) => bodies_in(pieces.drop_last()).push(body),
            Piece::Text(_) => bodies_in(pieces.drop_last()),
        }
    }
}

/// A turn that goes on has said all of the text of its pieces, character for character,
/// and every call in them, in order, as the dialect reads its body.
pub proof fn pieces_are_said_whole<D: ToolDialect>(dialect: D, pieces: Seq<Piece>)
    requires
        utterances(dialect, pieces).1,
    ensures
        text_said(utterances(dialect, pieces).0) == text_in(pieces),
        calls_said(utterances(dialect, pieces).0).len() == bodies_in(pieces).len(),
        forall|i: int|
            0 <= i < bodies_in(pieces).len() ==> dialect.call_in(#[trigger] bodies_in(pieces)[i])
                == Ok::<(Seq<char>, JsonModel), LmErrorModel>(
                calls_said(utterances(dialect, pieces).0)[i],
            ),
    decreases pieces.len(),
{
    let said = utterances(dialect, pieces).0;
    if pieces.len() > 0 {
        let front = pieces.drop_last();
        let before = utterances(dialect, front).0;
        pieces_are_said_whole(dialect, front);
        match utterance_of(dialect, pieces.last()) {
            None => {
                assert(text_in(front) + Seq::<char>::empty() =~= text_in(front));
                match pieces.last() {
                    Piece::Text(text) => {
                        assert(text =~= Seq::empty());
                    },
                    Piece::Call(_) => {},
                }
            },
            Some(utterance) => {
                assert(said.drop_last() =~= before);
                assert(said.last() == utterance);
                assert(text_in(front) + Seq::<char>::empty() =~= text_in(front));
                assert forall|i: int| 0 <= i < bodies_in(pieces).len() implies dialect.call_in(
                    #[trigger] bodies_in(pieces)[i],
                ) == Ok::<(Seq<char>, JsonModel), LmErrorModel>(calls_said(said)[i]) by {
                    if i < bodies_in(front).len() {
                        assert(bodies_in(pieces)[i] == bodies_in(front)[i]);
                    }
                }
            },
        }
    }
}

/// A call that cannot be read is told as what is wrong with it and ends the turn, so that
/// nothing behind it is said.
pub proof fn an_unreadable_call_ends_the_turn<D: ToolDialect>(
    dialect: D,
    before: Seq<Piece>,
    body: Seq<char>,
    after: Seq<Piece>,
    error: LmErrorModel,
)
    requires
        utterances(dialect, before).1,
        dialect.call_in(body) == Err::<(Seq<char>, JsonModel), LmErrorModel>(error),
    ensures
        utterances(dialect, before.push(Piece::Call(body)) + after) == (
            utterances(dialect, before).0.push(Utterance::Failure(error)),
            false,
        ),
    decreases after.len(),
{
    let head = before.push(Piece::Call(body));
    if after.len() == 0 {
        assert(head + after =~= head);
        assert(head.drop_last() =~= before);
    } else {
        an_unreadable_call_ends_the_turn(dialect, before, body, after.drop_last(), error);
        assert((head + after).drop_last() =~= head + after.drop_last());
    }
}

/// What is held back at the end of a reply is said as it is, unless the turn was cut
/// short; within a call it is a call that was not finished.
pub proof fn what_is_held_back_is_said_at_the_end(state: LoopModel, held: HeldModel)
    requires
        state.held == Some(held),
    ensures
        state.stopped ==> tail_of(state) is None,
        !state.stopped && held.capturing ==> tail_of(state) == Some(
            Err::<Piece, LmErrorModel>(LmErrorModel::IncompleteToolCall),
        ),
        !state.stopped && !held.capturing && held.buffer.len() > 0 ==> tail_of(state) == Some(
            Ok::<Piece, LmErrorModel>(Piece::Text(held.buffer)),
        ),
        !state.stopped && !held.capturing && held.buffer.len() == 0 ==> tail_of(state) is None,
{
}

/// A token is sampled while the turn is current and tokens are left, and each uses one up;
/// one that was said goes behind those that are kept.
pub proof fn tokens_are_counted(state: LoopModel, current: bool, delivered: bool, token: i32)
    ensures
        asked(state, current).1 == (!state.stopped && state.left > 0 && current),
        asked(state, current).0.left == (if asked(state, current).1 {
            state.left - 1
        } else {
            state.left
        }),
        asked(state, current).0.kept == state.kept,
        !state.stopped && state.left > 0 && !current ==> asked(state, current).0.stopped,
        heard(state, delivered, current).1 == (if delivered && current {
            Some(state.kept.len() as int)
        } else {
            None
        }),
        !(delivered && current) ==> heard(state, delivered, current).0.stopped,
        heard(state, delivered, current).0.kept == state.kept,
        grown(state, token).kept == state.kept + seq![token],
        grown(state, token).left == state.left,
{
    assert(state.kept.push(token) =~= state.kept + seq![token]);
}

proof fn lemma_listed(names: Seq<Seq<char>>, i: int)
    requires
        0 <= i < names.len(),
    ensures
        text::occurs(listed(names), names[i]),
    decreases names.len(),
{
    let empty = Seq::<char>::empty();
    if names.len() == 1 {
        text::lemma_occurs_between(empty, names[0], empty);
        assert(empty + names[0] + empty =~= names[0]);
    } else if i == names.len() - 1 {
        let head = listed(names.drop_last()) + ", "@;
        text::lemma_occurs_between(head, names[i], empty);
        assert(head + names[i] + empty =~= listed(names));
    } else {
        lemma_listed(names.drop_last(), i);
        let front = listed(names.drop_last());
        let part = names[i];
        assert(names.drop_last()[i] == part);
        let at = choose|at: int| text::occurs_at(front, part, at);
        assert(listed(names).subrange(at, at + part.len()) =~= front.subrange(
            at,
            at + part.len(),
        ));
        assert(text::occurs_at(listed(names), part, at));
    }
}

/// What is told of a model that a dialect does not cover names the model, the dialect, and
/// every model that it does cover.
pub proof fn mismatches_name_what_is_covered<D: ToolDialect>(
    dialect: D,
    model_name: Seq<char>,
    i: int,
)
    requires
        0 <= i < dialect.model_names().len(),
    ensures
        text::occurs(mismatch_text(dialect, model_name), text::quoted(model_name)),
        text::occurs(mismatch_text(dialect, model_name), dialect.label_text()),
        text::occurs(mismatch_text(dialect, model_name), dialect.model_names()[i]),
{
    let whole = mismatch_text(dialect, model_name);
    let model = text::quoted(model_name);
    let names = listed(dialect.model_names());
    let tail = "); pass LlamaCppConfig::with_tool_dialect to override"@;
    text::lemma_occurs_between(
        "model "@,
        model,
        " is not one "@ + dialect.label_text() + " handles ("@ + names + tail,
    );
    assert(whole =~= "model "@ + model + (" is not one "@ + dialect.label_text() + " handles ("@
        + names + tail));
    text::lemma_occurs_between(
        "model "@ + model + " is not one "@,
        dialect.label_text(),
        " handles ("@ + names + tail,
    );
    assert(whole =~= ("model "@ + model + " is not one "@) + dialect.label_text() + (" handles ("@
        + names + tail));
    lemma_listed(dialect.model_names(), i);
    let part = dialect.model_names()[i];
    let head = "model "@ + model + " is not one "@ + dialect.label_text() + " handles ("@;
    assert(whole =~= head + names + tail);
    let at = choose|at: int| text::occurs_at(names, part, at);
    assert(whole.subrange(head.len() + at, head.len() + at + part.len()) =~= names.subrange(
        at,
        at + part.len(),
    ));
    assert(text::occurs_at(whole, part, head.len() + at));
}

/// A prompt that was made for tools is for the same tools alone: the same names and
/// descriptions, and parameters that are written alike, in the same order.
pub proof fn keys_tell_tools_apart(
    a: Seq<ToolDefinitionModel>,
    b: Seq<ToolDefinitionModel>,
    i: int,
)
    requires
        keys_of(a) == keys_of(b),
        0 <= i < a.len(),
    ensures
        a.len() == b.len(),
        a[i].name == b[i].name,
        a[i].description == b[i].description,
        json::rendered(a[i].parameters) == json::rendered(b[i].parameters),
{
    assert(keys_of(a).len() == a.len());
    assert(keys_of(b).len() == b.len());
    assert(keys_of(a)[i] == key_of(a[i]));
    assert(keys_of(b)[i] == key_of(b[i]));
}

/// What goes out for a call is the call under a fresh id, with its own name and its own
/// arguments; text goes out as it is, and so does a failure.
pub proof fn items_are_what_they_utter(
    item: Result<ModelDelta, LmError>,
    text: Seq<char>,
    arguments: JsonModel,
    error: LmErrorModel,
)
    requires
        text.len() > 0,
        arguments is Object,
    ensures
        item_utters(item, Utterance::Call { name: text, arguments }) ==> {
            &&& item matches Ok(ModelDelta::ToolCall(call))
            &&& "call-"@.is_prefix_of(call.id@)
            &&& call.name@ == text
            &&& call.arguments_json@ == json::rendered(arguments)
        },
        item_utters(item, Utterance::Text(text)) ==> (item matches Ok(ModelDelta::Text(said))
            && said@ == text),
        item_utters(item, Utterance::Failure(error)) ==> (item matches Err(told) && told@
            == error),
{
    reveal_strlit("call-");
    assert("call-"@.len() == 5);
    if item_utters(item, Utterance::Call { name: text, arguments }) {
        let id = choose|id: Seq<char>| #[trigger]
            ids::is_call_id(id, "call-"@) && lm::item_model(item) == lm::tool_call_model(
                id,
                text,
                arguments,
            );
        assert(id.subrange(0, 5) =~= "call-"@);
        assert(id.len() > 0);
    }
}

/// Sampling takes a tool prompt's own grammar and its own trigger, and nothing where there
/// is no prompt.
pub proof fn sampling_takes_the_prompts_own_grammar(
    prompt: ToolPrompt,
    bits: u32,
    seed: u32,
)
    ensures
        chain_of(None, sampling_of(Some(&prompt)), bits, seed)[0] == (SamplerModel::LazyGrammar {
            grammar: prompt.grammar@,
            root: "tool-call"@,
            trigger: prompt.trigger@,
        }),
        sampling_of(None) is None,
{
}

/// A turn generates as much and as warm as it asks for, or else as configured, behind the
/// prompt that the template rendered and the text that is configured to follow it; a model
/// is measured by its name unless the dialect was named.
pub proof fn turns_are_set_as_asked(
    config: &LlamaCppConfig,
    max_tokens: Option<u32>,
    temperature_bits: Option<u32>,
    settings: (u32, u32),
    rendered: String,
    prompt: String,
    dialect_named: bool,
    model_name: Option<String>,
    name: Option<String>,
)
    requires
        call_ensures(turn_settings, (config, max_tokens, temperature_bits), settings),
        call_ensures(full_prompt, (rendered, config), prompt),
        call_ensures(measured_name, (dialect_named, model_name), name),
    ensures
        max_tokens matches Some(n) ==> settings.0 == n,
        max_tokens is None ==> settings.0 == config.default_max_tokens,
        temperature_bits matches Some(bits) ==> settings.1 == bits,
        temperature_bits is None ==> settings.1 == config.default_temperature_bits,
        rendered@.is_prefix_of(prompt@),
        config.assistant_prefix is None ==> prompt@ == rendered@,
        config.assistant_prefix matches Some(prefix) ==> prefix@.is_suffix_of(prompt@)
            && prompt@.len() == rendered@.len() + prefix@.len(),
        dialect_named ==> name is None,
        !dialect_named ==> name == model_name,
{
    assert(prompt@.subrange(0, rendered@.len() as int) =~= rendered@);
    match config.assistant_prefix {
        Some(prefix) => {
            assert(prompt@.subrange(rendered@.len() as int, prompt@.len() as int) =~= prefix@);
        },
        None => {},
    }
}

/// The engine is set up as configured: a GPU is used where layers are to go there, and that
/// is refused where there is none; no more than 512 tokens are computed at once.
pub proof fn engines_are_set_up_as_configured(
    config: &LlamaCppConfig,
    gpu_available: bool,
    settings: Result<EngineSettings, String>,
)
    requires
        call_ensures(EngineSettings::new, (config, gpu_available), settings),
        config.threads <= 0x7fff_ffff,
        config.threads_batch <= 0x7fff_ffff,
    ensures
        settings is Err <==> config.gpu_layers > 0 && !gpu_available,
        settings matches Ok(engine) ==> {
            &&& engine.gpu_layers == config.gpu_layers
            &&& engine.use_devices <==> config.gpu_layers > 0
            &&& engine.offload_cache <==> config.gpu_layers > 0
            &&& engine.context_size == config.context_size
            &&& engine.batch_size == config.batch_size
            &&& engine.micro_batch_size <= 512
            &&& engine.micro_batch_size == config.batch_size || engine.micro_batch_size == 512
                && config.batch_size > 512
            &&& engine.threads == config.threads
            &&& engine.threads_batch == config.threads_batch
        },
{
}

/// The prompt of tools declares those tools, holds calls to the grammar that their own
/// schema was converted to, and is triggered by what opens a call.
pub proof fn tool_prompts_are_for_their_tools(
    dialect: &dialect::ChatMlXml,
    tools: &[ToolDefinition],
    converted: &str,
    prompt: ToolPrompt,
    i: int,
)
    requires
        call_ensures(
            ToolPrompt::build::<dialect::ChatMlXml>,
            (dialect, tools, converted),
            Ok(prompt),
        ),
        0 <= i < tools@.len(),
    ensures
        text::occurs(
            prompt.declarations@,
            "\"description\": "@ + json::rendered(JsonModel::Text(tools@[i].description@)),
        ),
        prompt.grammar@ == converted@
            + "\ntool-call ::= \"<tool_call>\" space root \"</tool_call>\"\n"@,
        dialect::unescaped(prompt.trigger@) == "<tool_call>"@,
        prompt.keys().len() == tools@.len(),
        prompt.keys()[i].name == tools@[i].name@,
        prompt.keys()[i].description == tools@[i].description@,
{
    let models = lm::tools_model(tools@);
    assert(models[i] == tools@[i]@);
    dialect::the_grammar_puts_the_body_between_the_delimiters(models, converted@);
    dialect::escaping_keeps_the_text("<tool_call>"@);
    dialect::descriptions_are_declared(models, i);
    assert(keys_of(models)[i] == key_of(models[i]));
}

/// A prefill begins behind what of its prompt is cached, or at its start where the cache
/// could not be kept, and decodes the rest.
pub proof fn prefills_begin_behind_the_cache(
    prompt: Vec<i32>,
    shared: usize,
    kept: bool,
    capacity: usize,
    prefill: Prefill,
)
    requires
        call_ensures(Prefill::new, (prompt, shared, kept, capacity), prefill),
        shared <= prompt@.len(),
    ensures
        prefill@.prompt == prompt@,
        cached_tokens(prefill@) == (if kept {
            prompt@.subrange(0, shared as int)
        } else {
            Seq::empty()
        }),
        all_batches(prefill@).len() == prompt@.len() - (if kept {
            shared as int
        } else {
            0
        }),
{
    batches_cover_the_prompt(prefill@);
    assert(prompt@.subrange(0, 0) =~= Seq::empty());
}

} // verus!
