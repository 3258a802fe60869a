//! The response shapes of the Chat Completions format.
//!
//! A host's reasoning fields are not among them, so what they hold never reaches a
//! transcript that is spoken aloud.
use vstd::prelude::*;
use crate::json;
use crate::json::{Json, JsonModel, JsonNumberModel};
use crate::records;

verus! {

/// The function half of a [`ToolCallFragment`].
#[derive(Debug)]
pub struct FunctionFragment {
    pub name: Option<String>,
    pub arguments: Option<String>,
}

/// What a [`FunctionFragment`] says.
pub struct FunctionModel {
    pub name: Option<Seq<char>>,
    pub arguments: Option<Seq<char>>,
}

impl View for FunctionFragment {
    type V = FunctionModel;

    open spec fn view(&self) -> FunctionModel {
        FunctionModel {
            name: records::optional_view(self.name),
            arguments: records::optional_view(self.arguments),
        }
    }
}

/// A slice of one tool call. Every field is optional: a host splits a call across
/// chunks, id and name first, then the arguments in pieces.
#[derive(Debug)]
pub struct ToolCallFragment {
    pub index: Option<u32>,
    pub id: Option<String>,
    pub function: Option<FunctionFragment>,
}

/// What a [`ToolCallFragment`] says.
pub struct FragmentModel {
    pub index: Option<u32>,
    pub id: Option<Seq<char>>,
    pub function: Option<FunctionModel>,
}

impl View for ToolCallFragment {
    type V = FragmentModel;

    open spec fn view(&self) -> FragmentModel {
        FragmentModel {
            index: self.index,
            id: records::optional_view(self.id),
            function: match self.function {
                Some(function) => Some(function@),
                None => None,
            },
        }
    }
}

/// The message of one choice: a piece of it in a streamed chunk, all of it otherwise.
#[derive(Debug)]
pub struct Delta {
    pub content: Option<String>,
    pub tool_calls: Vec<ToolCallFragment>,
}

/// What a [`Delta`] says.
pub struct MessagePart {
    pub content: Option<Seq<char>>,
    pub tool_calls: Seq<FragmentModel>,
}

/// What a list of fragments says.
pub open spec fn fragments_model(fragments: Seq<ToolCallFragment>) -> Seq<FragmentModel> {
    fragments.map_values(|fragment: ToolCallFragment| fragment@)
}

impl View for Delta {
    type V = MessagePart;

    open spec fn view(&self) -> MessagePart {
        MessagePart {
            content: records::optional_view(self.content),
            tool_calls: fragments_model(self.tool_calls@),
        }
    }
}

/// One choice of a streamed chunk.
#[derive(Debug)]
pub struct ChunkChoice {
    pub delta: Delta,
    pub finish_reason: Option<String>,
}

/// What a [`ChunkChoice`] says.
pub struct ChoiceModel {
    pub delta: MessagePart,
    pub finish_reason: Option<Seq<char>>,
}

impl View for ChunkChoice {
    type V = ChoiceModel;

    open spec fn view(&self) -> ChoiceModel {
        ChoiceModel {
            delta: self.delta@,
            finish_reason: records::optional_view(self.finish_reason),
        }
    }
}

/// One event of a streamed completion.
#[derive(Debug)]
pub struct ChatChunk {
    pub choices: Vec<ChunkChoice>,
    /// Some hosts report a mid-stream failure as an ordinary event.
    pub error: Option<Json>,
}

/// What a [`ChatChunk`] says.
pub struct ChunkModel {
    pub choices: Seq<ChoiceModel>,
    pub error: Option<JsonModel>,
}

impl View for ChatChunk {
    type V = ChunkModel;

    open spec fn view(&self) -> ChunkModel {
        ChunkModel {
            choices: self.choices@.map_values(|choice: ChunkChoice| choice@),
            error: match self.error {
                Some(error) => Some(error@),
                None => None,
            },
        }
    }
}

/// A whole completion that was not streamed: each choice is its message.
#[derive(Debug)]
pub struct ChatResponse {
    pub choices: Vec<Delta>,
    pub error: Option<Json>,
}

/// What a [`ChatResponse`] says.
pub struct ResponseModel {
    pub choices: Seq<MessagePart>,
    pub error: Option<JsonModel>,
}

impl View for ChatResponse {
    type V = ResponseModel;

    open spec fn view(&self) -> ResponseModel {
        ResponseModel {
            choices: self.choices@.map_values(|choice: Delta| choice@),
            error: match self.error {
                Some(error) => Some(error@),
                None => None,
            },
        }
    }
}

/// The function fragment of `document`; `None` where it has another shape.
pub open spec fn function_of(document: JsonModel) -> Option<FunctionModel> {
    if !records::is_record(document, 2) {
        None
    } else {
        match (
            records::optional_text(records::field(document, 0, "name"@)),
            records::optional_text(records::field(document, 1, "arguments"@)),
        ) {
            (Some(name), Some(arguments)) => Some(FunctionModel { name, arguments }),
            _ => None,
        }
    }
}

/// The function field of a fragment: a record, null or nothing.
pub open spec fn optional_function(field: Option<JsonModel>) -> Option<Option<FunctionModel>> {
    match field {
        None => Some(None),
        Some(JsonModel::Null) => Some(None),
        Some(document) => match function_of(document) {
            Some(function) => Some(Some(function)),
            None => None,
        },
    }
}

/// The tool-call fragment of `document`.
pub open spec fn fragment_of(document: JsonModel) -> Option<FragmentModel> {
    if !records::is_record(document, 3) {
        None
    } else {
        match (
            records::optional_u32(records::field(document, 0, "index"@)),
            records::optional_text(records::field(document, 1, "id"@)),
            optional_function(records::field(document, 2, "function"@)),
        ) {
            (Some(index), Some(id), Some(function)) => Some(FragmentModel { index, id, function }),
            _ => None,
        }
    }
}

/// The fragments of a list field.
pub open spec fn fragments_of(field: Option<JsonModel>) -> Option<Seq<FragmentModel>> {
    match records::list_items(field) {
        Some(items) => records::read_all(items, |item: JsonModel| fragment_of(item)),
        None => None,
    }
}

/// The message of `document`.
pub open spec fn message_of(document: JsonModel) -> Option<MessagePart> {
    if !records::is_record(document, 2) {
        None
    } else {
        match (
            records::optional_text(records::field(document, 0, "content"@)),
            fragments_of(records::field(document, 1, "tool_calls"@)),
        ) {
            (Some(content), Some(tool_calls)) => Some(MessagePart { content, tool_calls }),
            _ => None,
        }
    }
}

/// The message of a field: absent stands for a message that says nothing.
pub open spec fn message_field(field: Option<JsonModel>) -> Option<MessagePart> {
    match field {
        None => Some(MessagePart { content: None, tool_calls: Seq::empty() }),
        Some(document) => message_of(document),
    }
}

/// The streamed choice of `document`.
pub open spec fn choice_of(document: JsonModel) -> Option<ChoiceModel> {
    if !records::is_record(document, 2) {
        None
    } else {
        match (
            message_field(records::field(document, 0, "delta"@)),
            records::optional_text(records::field(document, 1, "finish_reason"@)),
        ) {
            (Some(delta), Some(finish_reason)) => Some(ChoiceModel { delta, finish_reason }),
            _ => None,
        }
    }
}

/// The message of the choice `document` of a completion that was not streamed.
pub open spec fn response_choice_of(document: JsonModel) -> Option<MessagePart> {
    if !records::is_record(document, 1) {
        None
    } else {
        message_field(records::field(document, 0, "message"@))
    }
}

/// The error field of a chunk: anything but null.
pub open spec fn error_field(field: Option<JsonModel>) -> Option<JsonModel> {
    match field {
        None => None,
        Some(JsonModel::Null) => None,
        Some(document) => Some(document),
    }
}

/// The streamed chunk of `document`.
pub open spec fn chunk_of(document: JsonModel) -> Option<ChunkModel> {
    if !records::is_record(document, 2) {
        None
    } else {
        match records::list_items(records::field(document, 0, "choices"@)) {
            Some(items) => match records::read_all(items, |item: JsonModel| choice_of(item)) {
                Some(choices) => Some(
                    ChunkModel { choices, error: error_field(records::field(document, 1, "error"@)) },
                ),
                None => None,
            },
            None => None,
        }
    }
}

/// The completion of `document`.
pub open spec fn response_of(document: JsonModel) -> Option<ResponseModel> {
    if !records::is_record(document, 2) {
        None
    } else {
        match records::list_items(records::field(document, 0, "choices"@)) {
            Some(items) => match records::read_all(
                items,
                |item: JsonModel| response_choice_of(item),
            ) {
                Some(choices) => Some(
                    ResponseModel {
                        choices,
                        error: error_field(records::field(document, 1, "error"@)),
                    },
                ),
                None => None,
            },
            None => None,
        }
    }
}

impl FunctionFragment {
    /// The function fragment of `json`; `None` where it has another shape.
    pub fn from_json(json: &Json) -> (read: Option<FunctionFragment>)
        ensures
            function_of(json@) == (match read {
                Some(read) => Some(read@),
                None => None,
            }),
    {
        if !records::has_record_shape(json, 2) {
            return None;
        }
        match (
            records::read_optional_text(records::field_of(json, 0, "name")),
            records::read_optional_text(records::field_of(json, 1, "arguments")),
        ) {
            (Some(name), Some(arguments)) => Some(FunctionFragment { name, arguments }),
            _ => None,
        }
    }
}

impl ToolCallFragment {
    /// The tool-call fragment of `json`; `None` where it has another shape.
    pub fn from_json(json: &Json) -> (read: Option<ToolCallFragment>)
        ensures
            fragment_of(json@) == (match read {
                Some(read) => Some(read@),
                None => None,
            }),
    {
        if !records::has_record_shape(json, 3) {
            return None;
        }
        let function = match records::field_of(json, 2, "function") {
            None => None,
            Some(Json::Null) => None,
            Some(document) => match FunctionFragment::from_json(document) {
                Some(function) => Some(function),
                None => {
                    return None;
                },
            },
        };
        match (
            records::read_optional_u32(records::field_of(json, 0, "index")),
            records::read_optional_text(records::field_of(json, 1, "id")),
        ) {
            (Some(index), Some(id)) => Some(ToolCallFragment { index, id, function }),
            _ => None,
        }
    }
}

impl Delta {
    /// The message of `json`; `None` where it has another shape.
    pub fn from_json(json: &Json) -> (read: Option<Delta>)
        ensures
            message_of(json@) == (match read {
                Some(read) => Some(read@),
                None => None,
            }),
    {
        if !records::has_record_shape(json, 2) {
            return None;
        }
        let content = match records::read_optional_text(records::field_of(json, 0, "content")) {
            Some(content) => content,
            None => {
                return None;
            },
        };
        let mut tool_calls: Vec<ToolCallFragment> = Vec::new();
        let ghost read = |item: JsonModel| fragment_of(item);
        match records::field_of(json, 1, "tool_calls") {
            None => {
                assert(fragments_model(tool_calls@) =~= Seq::empty());
                assert(records::read_all(Seq::empty(), read) == Some(Seq::<FragmentModel>::empty()));
            },
            Some(Json::Array(items)) => {
                let ghost documents = json::items_model(items@);
                proof {
                    json::lemma_items(items@);
                    assert(documents.subrange(0, 0) =~= Seq::empty());
                    assert(fragments_model(tool_calls@) =~= Seq::empty());
                }
                let mut i: usize = 0;
                while i < items.len()
                    invariant
                        0 <= i <= items@.len(),
                        documents.len() == items@.len(),
                        forall|j: int| 0 <= j < items@.len() ==> documents[j] == #[trigger] items@[j]@,
                        read == (|item: JsonModel| fragment_of(item)),
                        records::read_all(documents.subrange(0, i as int), read) == Some(
                            fragments_model(tool_calls@),
                        ),
                        records::is_record(json@, 2),
                        fragments_of(records::field(json@, 1, "tool_calls"@)) == records::read_all(
                            documents,
                            read,
                        ),
                    decreases items@.len() - i,
                {
                    assert(documents.subrange(0, i + 1).drop_last() =~= documents.subrange(
                        0,
                        i as int,
                    ));
                    assert(documents[i as int] == items@[i as int]@);
                    match ToolCallFragment::from_json(&items[i]) {
                        Some(fragment) => {
                            proof {
                                assert(fragments_model(tool_calls@.push(fragment))
                                    =~= fragments_model(tool_calls@).push(fragment@));
                            }
                            tool_calls.push(fragment);
                        },
                        None => {
                            proof {
                                records::lemma_read_all_fails(documents, read, i + 1);
                            }
                            return None;
                        },
                    }
                    i += 1;
                }
                assert(documents.subrange(0, documents.len() as int) =~= documents);
            },
            Some(_) => {
                return None;
            },
        }
        Some(Delta { content, tool_calls })
    }

    /// The message of a field: absent stands for a message that says nothing.
    fn from_field(found: Option<&Json>) -> (read: Option<Delta>)
        ensures
            message_field(records::found_model(found)) == (match read {
                Some(read) => Some(read@),
                None => None,
            }),
    {
        match found {
            None => {
                let tool_calls: Vec<ToolCallFragment> = Vec::new();
                assert(fragments_model(tool_calls@) =~= Seq::empty());
                Some(Delta { content: None, tool_calls })
            },
            Some(document) => Delta::from_json(document),
        }
    }
}

impl ChunkChoice {
    /// The streamed choice of `json`; `None` where it has another shape.
    pub fn from_json(json: &Json) -> (read: Option<ChunkChoice>)
        ensures
            choice_of(json@) == (match read {
                Some(read) => Some(read@),
                None => None,
            }),
    {
        if !records::has_record_shape(json, 2) {
            return None;
        }
        match (
            Delta::from_field(records::field_of(json, 0, "delta")),
            records::read_optional_text(records::field_of(json, 1, "finish_reason")),
        ) {
            (Some(delta), Some(finish_reason)) => Some(ChunkChoice { delta, finish_reason }),
            _ => None,
        }
    }
}

/// The error field of a chunk: anything but null.
fn read_error(found: Option<&Json>) -> (error: Option<Json>)
    ensures
        error_field(records::found_model(found)) == (match error {
            Some(error) => Some(error@),
            None => None,
        }),
{
    match found {
        None => None,
        Some(Json::Null) => None,
        Some(document) => Some(document.copy()),
    }
}

impl ChatChunk {
    /// The streamed chunk of `json`; `None` where it has another shape.
    pub fn from_json(json: &Json) -> (read: Option<ChatChunk>)
        ensures
            chunk_of(json@) == (match read {
                Some(read) => Some(read@),
                None => None,
            }),
    {
        if !records::has_record_shape(json, 2) {
            return None;
        }
        let mut choices: Vec<ChunkChoice> = Vec::new();
        let ghost read = |item: JsonModel| choice_of(item);
        let ghost view = |choice: ChunkChoice| choice@;
        match records::field_of(json, 0, "choices") {
            None => {
                assert(choices@.map_values(view) =~= Seq::empty());
                assert(records::read_all(Seq::empty(), read) == Some(Seq::<ChoiceModel>::empty()));
            },
            Some(Json::Array(items)) => {
                let ghost documents = json::items_model(items@);
                proof {
                    json::lemma_items(items@);
                    assert(documents.subrange(0, 0) =~= Seq::empty());
                    assert(choices@.map_values(view) =~= Seq::empty());
                }
                let mut i: usize = 0;
                while i < items.len()
                    invariant
                        0 <= i <= items@.len(),
                        documents.len() == items@.len(),
                        forall|j: int| 0 <= j < items@.len() ==> documents[j] == #[trigger] items@[j]@,
                        read == (|item: JsonModel| choice_of(item)),
                        view == (|choice: ChunkChoice| choice@),
                        records::read_all(documents.subrange(0, i as int), read) == Some(
                            choices@.map_values(view),
                        ),
                        records::is_record(json@, 2),
                        records::list_items(records::field(json@, 0, "choices"@)) == Some(documents),
                    decreases items@.len() - i,
                {
                    assert(documents.subrange(0, i + 1).drop_last() =~= documents.subrange(
                        0,
                        i as int,
                    ));
                    assert(documents[i as int] == items@[i as int]@);
                    match ChunkChoice::from_json(&items[i]) {
                        Some(choice) => {
                            proof {
                                assert(choices@.push(choice).map_values(view)
                                    =~= choices@.map_values(view).push(choice@));
                            }
                            choices.push(choice);
                        },
                        None => {
                            proof {
                                records::lemma_read_all_fails(documents, read, i + 1);
                            }
                            return None;
                        },
                    }
                    i += 1;
                }
                assert(documents.subrange(0, documents.len() as int) =~= documents);
            },
            Some(_) => {
                return None;
            },
        }
        Some(ChatChunk { choices, error: read_error(records::field_of(json, 1, "error")) })
    }
}

impl ChatResponse {
    /// The completion of `json`; `None` where it has another shape.
    pub fn from_json(json: &Json) -> (read: Option<ChatResponse>)
        ensures
            response_of(json@) == (match read {
                Some(read) => Some(read@),
                None => None,
            }),
    {
        if !records::has_record_shape(json, 2) {
            return None;
        }
        let mut choices: Vec<Delta> = Vec::new();
        let ghost read = |item: JsonModel| response_choice_of(item);
        let ghost view = |choice: Delta| choice@;
        match records::field_of(json, 0, "choices") {
            None => {
                assert(choices@.map_values(view) =~= Seq::empty());
                assert(records::read_all(Seq::empty(), read) == Some(Seq::<MessagePart>::empty()));
            },
            Some(Json::Array(items)) => {
                let ghost documents = json::items_model(items@);
                proof {
                    json::lemma_items(items@);
                    assert(documents.subrange(0, 0) =~= Seq::empty());
                    assert(choices@.map_values(view) =~= Seq::empty());
                }
                let mut i: usize = 0;
                while i < items.len()
                    invariant
                        0 <= i <= items@.len(),
                        documents.len() == items@.len(),
                        forall|j: int| 0 <= j < items@.len() ==> documents[j] == #[trigger] items@[j]@,
                        read == (|item: JsonModel| response_choice_of(item)),
                        view == (|choice: Delta| choice@),
                        records::read_all(documents.subrange(0, i as int), read) == Some(
                            choices@.map_values(view),
                        ),
                        records::is_record(json@, 2),
                        records::list_items(records::field(json@, 0, "choices"@)) == Some(documents),
                    decreases items@.len() - i,
                {
                    assert(documents.subrange(0, i + 1).drop_last() =~= documents.subrange(
                        0,
                        i as int,
                    ));
                    assert(documents[i as int] == items@[i as int]@);
                    let choice = if records::has_record_shape(&items[i], 1) {
                        Delta::from_field(records::field_of(&items[i], 0, "message"))
                    } else {
                        None
                    };
                    match choice {
                        Some(choice) => {
                            proof {
                                assert(choices@.push(choice).map_values(view)
                                    =~= choices@.map_values(view).push(choice@));
                            }
                            choices.push(choice);
                        },
                        None => {
                            proof {
                                records::lemma_read_all_fails(documents, read, i + 1);
                            }
                            return None;
                        },
                    }
                    i += 1;
                }
                assert(documents.subrange(0, documents.len() as int) =~= documents);
            },
            Some(_) => {
                return None;
            },
        }
        Some(ChatResponse { choices, error: read_error(records::field_of(json, 1, "error")) })
    }
}

/// Whether the member `name` of an object is a text, null or absent.
pub open spec fn is_text_or_nothing(document: JsonModel, name: Seq<char>) -> bool {
    match records::member(document, name) {
        None => true,
        Some(value) => value is Text || value is Null,
    }
}

/// A function fragment that is an object is read by its members' names, as they are.
pub proof fn functions_are_read_by_name(document: JsonModel)
    requires
        document is Object,
    ensures
        is_text_or_nothing(document, "name"@) && is_text_or_nothing(document, "arguments"@)
            <==> function_of(document) is Some,
        match function_of(document) {
            Some(function) => {
                &&& function.name == records::text_member(document, "name"@)
                &&& function.arguments == records::text_member(document, "arguments"@)
            },
            None => true,
        },
{
}

/// A tool-call fragment that is an object is read by its members' names, as they are.
pub proof fn fragments_are_read_by_name(document: JsonModel)
    requires
        document is Object,
    ensures
        match fragment_of(document) {
            Some(fragment) => {
                &&& fragment.id == records::text_member(document, "id"@)
                &&& match fragment.index {
                    Some(index) => records::unsigned_member(document, "index"@) == Some(
                        index as u64,
                    ),
                    None => records::unsigned_member(document, "index"@) is None,
                }
                &&& match records::member(document, "function"@) {
                    Some(JsonModel::Object(members)) => {
                        &&& fragment.function is Some
                        &&& fragment.function->0.name == records::text_member(
                            JsonModel::Object(members),
                            "name"@,
                        )
                        &&& fragment.function->0.arguments == records::text_member(
                            JsonModel::Object(members),
                            "arguments"@,
                        )
                    },
                    Some(JsonModel::Null) => fragment.function is None,
                    None => fragment.function is None,
                    Some(_) => true,
                }
            },
            None => true,
        },
        is_text_or_nothing(document, "id"@) && (match records::member(document, "index"@) {
            None => true,
            Some(JsonModel::Null) => true,
            Some(_) => match records::unsigned_member(document, "index"@) {
                Some(n) => n <= u32::MAX,
                None => false,
            },
        }) && (match records::member(document, "function"@) {
            None => true,
            Some(JsonModel::Null) => true,
            Some(JsonModel::Object(members)) => is_text_or_nothing(
                JsonModel::Object(members),
                "name"@,
            ) && is_text_or_nothing(JsonModel::Object(members), "arguments"@),
            Some(_) => false,
        }) ==> fragment_of(document) is Some,
{
}

proof fn lemma_read_all_reads_each<T>(
    items: Seq<JsonModel>,
    read: spec_fn(JsonModel) -> Option<T>,
)
    ensures
        match records::read_all(items, read) {
            Some(all) => {
                &&& all.len() == items.len()
                &&& forall|i: int|
                    0 <= i < items.len() ==> read(items[i]) == Some(#[trigger] all[i])
            },
            None => exists|i: int| 0 <= i < items.len() && read(#[trigger] items[i]) is None,
        },
    decreases items.len(),
{
    if items.len() > 0 {
        let front = items.drop_last();
        lemma_read_all_reads_each(front, read);
        match records::read_all(front, read) {
            Some(before) => {
                match read(items.last()) {
                    Some(last) => {
                        let all = before.push(last);
                        assert forall|i: int| 0 <= i < items.len() implies read(items[i]) == Some(
                            #[trigger] all[i],
                        ) by {
                            if i < front.len() {
                                assert(front[i] == items[i]);
                                assert(read(front[i]) == Some(before[i]));
                            }
                        }
                    },
                    None => {
                        assert(read(items[items.len() - 1]) is None);
                    },
                }
            },
            None => {
                let i = choose|i: int| 0 <= i < front.len() && read(#[trigger] front[i]) is None;
                assert(items[i] == front[i]);
            },
        }
    }
}

/// A message that is an object is read by its members' names: its content as it is, and
/// every fragment of its calls, in order.
pub proof fn messages_are_read_by_name(document: JsonModel, i: int)
    requires
        document is Object,
    ensures
        match message_of(document) {
            Some(message) => {
                &&& message.content == records::text_member(document, "content"@)
                &&& match records::member(document, "tool_calls"@) {
                    Some(JsonModel::Array(items)) => {
                        &&& message.tool_calls.len() == items.len()
                        &&& 0 <= i < items.len() ==> fragment_of(items[i]) == Some(
                            message.tool_calls[i],
                        )
                    },
                    Some(_) => false,
                    None => message.tool_calls.len() == 0,
                }
            },
            None => {
                ||| !is_text_or_nothing(document, "content"@)
                ||| match records::member(document, "tool_calls"@) {
                    Some(JsonModel::Array(items)) => exists|j: int|
                        0 <= j < items.len() && fragment_of(#[trigger] items[j]) is None,
                    Some(_) => true,
                    None => false,
                }
            },
        },
{
    match records::member(document, "tool_calls"@) {
        Some(JsonModel::Array(items)) => {
            lemma_read_all_reads_each(items, |item: JsonModel| fragment_of(item));
        },
        Some(_) => {},
        None => {},
    }
}

/// A choice that is an object is read by its members' names: what it adds, and why the
/// turn ended.
pub proof fn choices_are_read_by_name(document: JsonModel)
    requires
        document is Object,
    ensures
        match choice_of(document) {
            Some(choice) => {
                &&& choice.finish_reason == records::text_member(document, "finish_reason"@)
                &&& match records::member(document, "delta"@) {
                    Some(delta) => message_of(delta) == Some(choice.delta),
                    None => choice.delta.content is None && choice.delta.tool_calls.len() == 0,
                }
            },
            None => {
                ||| !is_text_or_nothing(document, "finish_reason"@)
                ||| records::member(document, "delta"@) matches Some(delta) && message_of(
                    delta,
                ) is None
            },
        },
{
}

/// A chunk that is an object is read by its members' names: every choice, in order, and
/// any error that is not null.
pub proof fn chunks_are_read_by_name(document: JsonModel, i: int)
    requires
        document is Object,
    ensures
        match chunk_of(document) {
            Some(chunk) => {
                &&& match records::member(document, "choices"@) {
                    Some(JsonModel::Array(items)) => {
                        &&& chunk.choices.len() == items.len()
                        &&& 0 <= i < items.len() ==> choice_of(items[i]) == Some(chunk.choices[i])
                    },
                    Some(_) => false,
                    None => chunk.choices.len() == 0,
                }
                &&& match records::member(document, "error"@) {
                    None => chunk.error is None,
                    Some(JsonModel::Null) => chunk.error is None,
                    Some(error) => chunk.error == Some(error),
                }
            },
            None => match records::member(document, "choices"@) {
                Some(JsonModel::Array(items)) => exists|j: int|
                    0 <= j < items.len() && choice_of(#[trigger] items[j]) is None,
                Some(_) => true,
                None => false,
            },
        },
{
    match records::member(document, "choices"@) {
        Some(JsonModel::Array(items)) => {
            lemma_read_all_reads_each(items, |item: JsonModel| choice_of(item));
        },
        Some(_) => {},
        None => {},
    }
}

/// A completion that is an object is read by its members' names: the message of every
/// choice, in order, and any error that is not null.
pub proof fn completions_are_read_by_name(document: JsonModel, i: int)
    requires
        document is Object,
    ensures
        match response_of(document) {
            Some(response) => {
                &&& match records::member(document, "choices"@) {
                    Some(JsonModel::Array(items)) => {
                        &&& response.choices.len() == items.len()
                        &&& 0 <= i < items.len() ==> match records::member(
                            items[i],
                            "message"@,
                        ) {
                            Some(message) => message_of(message) == Some(response.choices[i]),
                            None => items[i] is Object ==> response.choices[i].content is None
                                && response.choices[i].tool_calls.len() == 0,
                        }
                    },
                    Some(_) => false,
                    None => response.choices.len() == 0,
                }
                &&& match records::member(document, "error"@) {
                    None => response.error is None,
                    Some(JsonModel::Null) => response.error is None,
                    Some(error) => response.error == Some(error),
                }
            },
            None => match records::member(document, "choices"@) {
                Some(JsonModel::Array(items)) => exists|j: int|
                    0 <= j < items.len() && response_choice_of(#[trigger] items[j]) is None,
                Some(_) => true,
                None => false,
            },
        },
{
    match records::member(document, "choices"@) {
        Some(JsonModel::Array(items)) => {
            lemma_read_all_reads_each(items, |item: JsonModel| response_choice_of(item));
        },
        Some(_) => {},
        None => {},
    }
}

/// A record may also come as the list of its fields, each at its own place, and such a list
/// holds no more than there are.
pub proof fn records_may_be_lists(
    first: Seq<char>,
    second: Seq<char>,
    index: u32,
    function: FunctionModel,
    delta: JsonModel,
    items: Seq<JsonModel>,
    error: JsonModel,
)
    requires
        error !is Null,
    ensures
        function_of(
            JsonModel::Array(seq![JsonModel::Text(first), JsonModel::Text(second)]),
        ) == Some(FunctionModel { name: Some(first), arguments: Some(second) }),
        fragment_of(
            JsonModel::Array(
                seq![
                    JsonModel::Number(JsonNumberModel::Unsigned(index as u64)),
                    JsonModel::Text(first),
                ],
            ),
        ) == Some(FragmentModel { index: Some(index), id: Some(first), function: None }),
        delta !is Null && function_of(delta) == Some(function) ==> fragment_of(
            JsonModel::Array(seq![JsonModel::Null, JsonModel::Null, delta]),
        ) == Some(FragmentModel { index: None, id: None, function: Some(function) }),
        message_of(JsonModel::Array(seq![JsonModel::Text(first)])) == Some(
            MessagePart { content: Some(first), tool_calls: Seq::empty() },
        ),
        message_of(delta) matches Some(message) ==> choice_of(
            JsonModel::Array(seq![delta, JsonModel::Text(second)]),
        ) == Some(ChoiceModel { delta: message, finish_reason: Some(second) }),
        message_of(delta) matches Some(message) ==> response_choice_of(
            JsonModel::Array(seq![delta]),
        ) == Some(message),
        chunk_of(JsonModel::Array(seq![JsonModel::Array(Seq::empty()), error])) == Some(
            ChunkModel { choices: Seq::empty(), error: Some(error) },
        ),
        response_of(JsonModel::Array(seq![JsonModel::Array(Seq::empty()), error])) == Some(
            ResponseModel { choices: Seq::empty(), error: Some(error) },
        ),
        items.len() > 3 ==> fragment_of(JsonModel::Array(items)) is None,
        items.len() > 2 ==> function_of(JsonModel::Array(items)) is None && message_of(
            JsonModel::Array(items),
        ) is None && choice_of(JsonModel::Array(items)) is None && chunk_of(
            JsonModel::Array(items),
        ) is None && response_of(JsonModel::Array(items)) is None,
        items.len() > 1 ==> response_choice_of(JsonModel::Array(items)) is None,
{
}

} // verus!
