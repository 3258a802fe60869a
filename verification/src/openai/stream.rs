//! Reading a completion: an incremental reader of the event stream, and the
//! accumulator that puts fragmented tool calls together again.
use vstd::prelude::*;
use vstd::string::*;
use crate::ids;
use crate::json;
use crate::json::{Json, JsonModel};
use crate::lm;
use crate::lm::{DeltaModel, LmError, LmErrorModel, ModelDelta};
use crate::openai::chunk;
use crate::openai::chunk::{ChatChunk, ChatResponse, ChunkModel, FragmentModel, ToolCallFragment};
use crate::openai::wire;
use crate::records;
use crate::text;

verus! {

/// One tool call being assembled from the fragments a host streams.
#[derive(Debug)]
pub struct OpenCall {
    /// The call's position in the turn.
    pub index: u32,
    /// The provider's call id, if it sent one.
    pub id: Option<String>,
    /// The function's name; the first fragment that is not empty wins.
    pub name: String,
    /// The text of the arguments so far.
    pub arguments: String,
}

/// What an [`OpenCall`] says.
pub struct CallModel {
    pub index: u32,
    pub id: Option<Seq<char>>,
    pub name: Seq<char>,
    pub arguments: Seq<char>,
}

impl View for OpenCall {
    type V = CallModel;

    open spec fn view(&self) -> CallModel {
        CallModel {
            index: self.index,
            id: records::optional_view(self.id),
            name: self.name@,
            arguments: self.arguments@,
        }
    }
}

/// What a list of calls says.
pub open spec fn calls_view(calls: Seq<OpenCall>) -> Seq<CallModel> {
    calls.map_values(|call: OpenCall| call@)
}

/// A call of which nothing but its position is known.
pub open spec fn empty_call(index: u32) -> CallModel {
    CallModel { index, id: None, name: Seq::empty(), arguments: Seq::empty() }
}

/// An optional number, zero where it is absent.
pub open spec fn or_zero(n: Option<u32>) -> u32 {
    match n {
        Some(n) => n,
        None => 0,
    }
}

/// The call that `fragment` holds on its own.
pub open spec fn whole_call(fragment: FragmentModel) -> CallModel {
    CallModel {
        index: or_zero(fragment.index),
        id: fragment.id,
        name: match fragment.function {
            Some(function) => records::or_empty(function.name),
            None => Seq::empty(),
        },
        arguments: match fragment.function {
            Some(function) => records::or_empty(function.arguments),
            None => Seq::empty(),
        },
    }
}

/// The arguments that `text` holds. Nothing stands for an empty object: several hosts
/// stream `""` for a tool without arguments.
pub open spec fn arguments_of(text: Seq<char>) -> Result<JsonModel, LmErrorModel> {
    let body = text::trimmed(text);
    if body.len() == 0 {
        Ok(JsonModel::Object(Map::empty()))
    } else {
        match json::parsed_text(body) {
            Ok(document) => Ok(document),
            Err(message) => Err(LmErrorModel::InvalidToolArguments(message)),
        }
    }
}

/// Whether the arguments so far are a finished JSON object. Empty arguments are not:
/// for a tool that takes some they mean that nothing came yet.
pub open spec fn is_finished(call: CallModel) -> bool {
    let body = text::trimmed(call.arguments);
    &&& body.len() > 0
    &&& json::parsed_text(body) matches Ok(document)
    &&& document is Object
}

/// Whether `id` may be the id that `call` goes out with: its own, or a fresh one where
/// the host sent none.
pub open spec fn may_have_id(call: CallModel, id: Seq<char>) -> bool {
    match records::nonempty(call.id) {
        Some(given) => id == given,
        None => ids::is_call_id(id, "call_"@),
    }
}

/// What `call` goes out as under `id`.
pub open spec fn flushed_call(call: CallModel, id: Seq<char>) -> Result<DeltaModel, LmErrorModel> {
    match arguments_of(call.arguments) {
        Ok(arguments) => lm::tool_call_model(id, call.name, arguments),
        Err(error) => Err(error),
    }
}

/// One item that reading an answer yields.
pub enum Emission {
    /// Visible text.
    Text(Seq<char>),
    /// A call, complete or not; under which id, where the host sent none, is open.
    Call(CallModel),
    /// A failure.
    Failure(LmErrorModel),
}

/// Whether `item` says what `emission` says.
pub open spec fn item_says(item: Result<ModelDelta, LmError>, emission: Emission) -> bool {
    match emission {
        Emission::Text(text) => lm::item_model(item) == Ok::<DeltaModel, LmErrorModel>(
            DeltaModel::Text(text),
        ),
        Emission::Call(call) => exists|id: Seq<char>| #[trigger]
            may_have_id(call, id) && lm::item_model(item) == flushed_call(call, id),
        Emission::Failure(error) => lm::item_model(item) == Err::<DeltaModel, LmErrorModel>(error),
    }
}

/// Whether `items` say what `emissions` say, one by one.
pub open spec fn items_say(
    items: Seq<Result<ModelDelta, LmError>>,
    emissions: Seq<Emission>,
) -> bool {
    &&& items.len() == emissions.len()
    &&& forall|i: int| 0 <= i < items.len() ==> item_says(#[trigger] items[i], emissions[i])
}

/// Whether `after` is `before` and items that say what `emissions` say.
pub open spec fn appends(
    before: Seq<Result<ModelDelta, LmError>>,
    after: Seq<Result<ModelDelta, LmError>>,
    emissions: Seq<Emission>,
) -> bool {
    &&& after.len() == before.len() + emissions.len()
    &&& after.subrange(0, before.len() as int) == before
    &&& items_say(after.subrange(before.len() as int, after.len() as int), emissions)
}

proof fn lemma_appends_nothing(items: Seq<Result<ModelDelta, LmError>>)
    ensures
        appends(items, items, Seq::empty()),
{
    assert(items.subrange(0, items.len() as int) =~= items);
}

proof fn lemma_appends_one(
    items: Seq<Result<ModelDelta, LmError>>,
    item: Result<ModelDelta, LmError>,
    emission: Emission,
)
    requires
        item_says(item, emission),
    ensures
        appends(items, items.push(item), seq![emission]),
{
    let after = items.push(item);
    assert(after.subrange(0, items.len() as int) =~= items);
    assert(after.subrange(items.len() as int, after.len() as int) =~= seq![item]);
}

proof fn lemma_appends_twice(
    a: Seq<Result<ModelDelta, LmError>>,
    b: Seq<Result<ModelDelta, LmError>>,
    c: Seq<Result<ModelDelta, LmError>>,
    first: Seq<Emission>,
    second: Seq<Emission>,
)
    requires
        appends(a, b, first),
        appends(b, c, second),
    ensures
        appends(a, c, first + second),
{
    assert(c.subrange(0, a.len() as int) =~= b.subrange(0, a.len() as int));
    let tail = c.subrange(a.len() as int, c.len() as int);
    let mid = b.subrange(a.len() as int, b.len() as int);
    let end = c.subrange(b.len() as int, c.len() as int);
    assert(tail =~= mid + end) by {
        assert(c.subrange(0, b.len() as int) == b);
        assert forall|i: int| 0 <= i < mid.len() implies tail[i] == mid[i] by {
            assert(c.subrange(0, b.len() as int)[a.len() + i] == b[a.len() + i]);
        }
    }
}

impl OpenCall {
    /// An empty call at `index`.
    pub fn new(index: u32) -> (call: OpenCall)
        ensures
            call@ == empty_call(index),
    {
        OpenCall { index, id: None, name: String::new(), arguments: String::new() }
    }

    /// A call that arrived whole.
    pub fn complete(fragment: &ToolCallFragment) -> (call: OpenCall)
        ensures
            call@ == whole_call(fragment@),
    {
        let (name, arguments) = match &fragment.function {
            Some(function) => (
                match &function.name {
                    Some(name) => name.clone(),
                    None => String::new(),
                },
                match &function.arguments {
                    Some(arguments) => arguments.clone(),
                    None => String::new(),
                },
            ),
            None => (String::new(), String::new()),
        };
        OpenCall {
            index: match fragment.index {
                Some(index) => index,
                None => 0,
            },
            id: records::copy_optional(&fragment.id),
            name,
            arguments,
        }
    }

    /// Takes in what `fragment` adds.
    pub fn merge(&mut self, fragment: &ToolCallFragment)
        ensures
            final(self)@ == merged(old(self)@, fragment@),
    {
        let ghost was = self@;
        if self.id.is_none() {
            self.id = records::copy_nonempty(&fragment.id);
        }
        match &fragment.function {
            Some(function) => {
                if self.name.as_str().is_empty() {
                    match &function.name {
                        Some(name) => {
                            self.name = name.clone();
                        },
                        None => {},
                    }
                }
                match &function.arguments {
                    Some(arguments) => {
                        self.arguments.append(arguments.as_str());
                    },
                    None => {},
                }
            },
            None => {},
        }
        assert(self@.name =~= merged(was, fragment@).name);
        assert(self@.arguments =~= merged(was, fragment@).arguments);
    }

    /// Whether the arguments seen so far are a finished JSON object.
    pub fn is_complete(&self) -> (complete: bool)
        ensures
            complete == is_finished(self@),
    {
        let arguments = text::trim(self.arguments.as_str());
        if arguments.as_str().is_empty() {
            return false;
        }
        match Json::parse(arguments.as_str()) {
            Ok(Json::Object(_)) => true,
            _ => false,
        }
    }
}

/// Reads the text of a call's arguments.
pub fn parse_arguments(text: &str) -> (read: Result<Json, LmError>)
    ensures
        match read {
            Ok(arguments) => arguments_of(text@) == Ok::<JsonModel, LmErrorModel>(arguments@),
            Err(error) => arguments_of(text@) == Err::<JsonModel, LmErrorModel>(error@),
        },
{
    let body = text::trim(text);
    if body.as_str().is_empty() {
        return Ok(Json::Object(Vec::new()));
    }
    match Json::parse(body.as_str()) {
        Ok(document) => Ok(document),
        Err(message) => Err(LmError::InvalidToolArguments(message)),
    }
}

/// Turns one assembled call into an item under `id`.
pub fn flush_as(call: OpenCall, id: String) -> (item: Result<ModelDelta, LmError>)
    ensures
        lm::item_model(item) == flushed_call(call@, id@),
{
    match parse_arguments(call.arguments.as_str()) {
        Ok(arguments) => ModelDelta::tool_call(id, call.name, &arguments),
        Err(error) => Err(error),
    }
}

/// Turns one assembled call into an item, making up an id if the host sent none.
pub fn flush(call: OpenCall) -> (item: Result<ModelDelta, LmError>)
    ensures
        item_says(item, Emission::Call(call@)),
{
    let given = records::copy_nonempty(&call.id);
    let ghost model = call@;
    let id = match given {
        Some(id) => id,
        None => ids::mint_call_id("call_"),
    };
    assert(may_have_id(model, id@));
    flush_as(call, id)
}

/// The position of the first call that satisfies `wanted`, or how many there are.
pub open spec fn first_where(calls: Seq<CallModel>, wanted: spec_fn(CallModel) -> bool) -> int
    decreases calls.len(),
{
    if calls.len() == 0 || wanted(calls[0]) {
        0
    } else {
        1 + first_where(calls.drop_first(), wanted)
    }
}

proof fn lemma_first_where(calls: Seq<CallModel>, wanted: spec_fn(CallModel) -> bool, at: int)
    requires
        0 <= at <= calls.len(),
        forall|i: int| 0 <= i < at ==> !wanted(#[trigger] calls[i]),
        at < calls.len() ==> wanted(calls[at]),
    ensures
        first_where(calls, wanted) == at,
    decreases calls.len(),
{
    if calls.len() > 0 && at > 0 {
        assert(!wanted(calls[0]));
        let rest = calls.drop_first();
        assert forall|i: int| 0 <= i < at - 1 implies !wanted(#[trigger] rest[i]) by {
            assert(rest[i] == calls[i + 1]);
        }
        if at < calls.len() {
            assert(rest[at - 1] == calls[at]);
        }
        lemma_first_where(rest, wanted, at - 1);
    }
}

proof fn lemma_first_where_is_first(calls: Seq<CallModel>, wanted: spec_fn(CallModel) -> bool)
    ensures
        0 <= first_where(calls, wanted) <= calls.len(),
        first_where(calls, wanted) < calls.len() ==> wanted(calls[first_where(calls, wanted)]),
        forall|i: int| 0 <= i < first_where(calls, wanted) ==> !wanted(#[trigger] calls[i]),
    decreases calls.len(),
{
    if calls.len() > 0 && !wanted(calls[0]) {
        let rest = calls.drop_first();
        lemma_first_where_is_first(rest, wanted);
        assert forall|i: int| 0 <= i < first_where(calls, wanted) implies !wanted(
            #[trigger] calls[i],
        ) by {
            if i > 0 {
                assert(rest[i - 1] == calls[i]);
            }
        }
    }
}

/// Whether a fragment at `index` finds `call` finished and before it, so that `call`
/// need not wait for the rest of the turn.
pub open spec fn goes_early(call: CallModel, index: u32) -> bool {
    call.index < index && is_finished(call)
}

/// The calls that stay open when a fragment at `index` comes.
pub open spec fn staying(calls: Seq<CallModel>, index: u32) -> Seq<CallModel> {
    calls.filter(|call: CallModel| !goes_early(call, index))
}

/// The calls that go out when a fragment at `index` comes.
pub open spec fn going(calls: Seq<CallModel>, index: u32) -> Seq<CallModel> {
    calls.filter(|call: CallModel| goes_early(call, index))
}

/// The calls as items, in order.
pub open spec fn call_emissions(calls: Seq<CallModel>) -> Seq<Emission> {
    calls.map_values(|call: CallModel| Emission::Call(call))
}

/// Whether a fragment's id belongs to a different call than `call`.
pub open spec fn is_superseded(call: CallModel, id: Option<Seq<char>>) -> bool {
    match (call.id, id) {
        (Some(open), Some(new)) => open != new,
        _ => false,
    }
}

/// Where a call at `index` belongs among `calls`.
pub open spec fn slot(calls: Seq<CallModel>, index: u32) -> int {
    first_where(calls, |call: CallModel| call.index > index)
}

/// `calls` with an empty one at `index`.
pub open spec fn opened(calls: Seq<CallModel>, index: u32) -> Seq<CallModel> {
    calls.insert(slot(calls, index), empty_call(index))
}

/// `call` with what `fragment` adds to it.
pub open spec fn merged(call: CallModel, fragment: FragmentModel) -> CallModel {
    CallModel {
        index: call.index,
        id: match call.id {
            Some(id) => Some(id),
            None => records::nonempty(fragment.id),
        },
        name: match fragment.function {
            Some(function) => if call.name.len() == 0 {
                records::or_empty(function.name)
            } else {
                call.name
            },
            None => call.name,
        },
        arguments: match fragment.function {
            Some(function) => call.arguments + records::or_empty(function.arguments),
            None => call.arguments,
        },
    }
}

/// The calls once there is one at `index` that a fragment of `id` belongs to, its place
/// among them, and the call that went out because the fragment belongs to another.
pub open spec fn placed(calls: Seq<CallModel>, index: u32, id: Option<Seq<char>>) -> (
    Seq<CallModel>,
    int,
    Seq<Emission>,
) {
    let at = first_where(calls, |call: CallModel| call.index == index);
    if at < calls.len() && !is_superseded(calls[at], id) {
        (calls, at, Seq::empty())
    } else if at < calls.len() {
        let rest = calls.remove(at);
        (opened(rest, index), slot(rest, index), seq![Emission::Call(calls[at])])
    } else {
        (opened(calls, index), slot(calls, index), Seq::empty())
    }
}

/// The calls after `fragment`, and the ones that went out because of it.
pub open spec fn accumulated(calls: Seq<CallModel>, fragment: FragmentModel) -> (
    Seq<CallModel>,
    Seq<Emission>,
) {
    let index = or_zero(fragment.index);
    let (open, place, superseded) = placed(
        staying(calls, index),
        index,
        records::nonempty(fragment.id),
    );
    (
        open.update(place, merged(open[place], fragment)),
        call_emissions(going(calls, index)) + superseded,
    )
}

/// The calls after all of `fragments`, and the ones that went out because of them.
pub open spec fn accumulated_all(calls: Seq<CallModel>, fragments: Seq<FragmentModel>) -> (
    Seq<CallModel>,
    Seq<Emission>,
)
    decreases fragments.len(),
{
    if fragments.len() == 0 {
        (calls, Seq::empty())
    } else {
        let before = accumulated_all(calls, fragments.drop_last());
        let after = accumulated(before.0, fragments.last());
        (after.0, before.1 + after.1)
    }
}

/// What an [`SseDecoder`] has seen and not yet given out.
pub struct DecoderModel {
    /// Bytes of a line that is not yet ended.
    pub line: Seq<u8>,
    /// The data of the event being assembled.
    pub event: Seq<char>,
    /// Tool calls under assembly.
    pub calls: Seq<CallModel>,
    /// Whether the stream announced its own end.
    pub done: bool,
}

/// A decoder that has seen nothing.
pub open spec fn fresh() -> DecoderModel {
    DecoderModel { line: Seq::empty(), event: Seq::empty(), calls: Seq::empty(), done: false }
}

/// What a decoder becomes, and the items it gives out.
pub struct Step {
    pub state: DecoderModel,
    pub out: Seq<Emission>,
}

/// `first`, then what `next` makes of its state.
pub open spec fn and_then(first: Step, next: spec_fn(DecoderModel) -> Step) -> Step {
    let second = next(first.state);
    Step { state: second.state, out: first.out + second.out }
}

/// Every open call goes out, in order.
pub open spec fn all_flushed(state: DecoderModel) -> Step {
    Step {
        state: DecoderModel { calls: Seq::empty(), ..state },
        out: call_emissions(state.calls),
    }
}

/// The visible text of a piece, as items: none where there is none.
pub open spec fn content_emissions(content: Option<Seq<char>>) -> Seq<Emission> {
    match records::nonempty(content) {
        Some(content) => seq![Emission::Text(content)],
        None => Seq::empty(),
    }
}

/// What a failure leaves: the state, and the failure.
pub open spec fn failed(state: DecoderModel, message: Seq<char>) -> Step {
    Step { state, out: seq![Emission::Failure(LmErrorModel::ProviderStream(message))] }
}

/// What one chunk does. Only the first choice counts, and a chunk without any, such as
/// a trailer that reports usage, does nothing.
pub open spec fn chunk_step(state: DecoderModel, chunk: ChunkModel) -> Step {
    match chunk.error {
        Some(error) => failed(state, wire::error_message(error)),
        None => if chunk.choices.len() == 0 {
            Step { state, out: Seq::empty() }
        } else {
            let choice = chunk.choices[0];
            let calls = accumulated_all(state.calls, choice.delta.tool_calls);
            let read = Step {
                state: DecoderModel { calls: calls.0, ..state },
                out: content_emissions(choice.delta.content) + calls.1,
            };
            if choice.finish_reason is Some {
                and_then(read, |state: DecoderModel| all_flushed(state))
            } else {
                read
            }
        },
    }
}

/// What the end of the event being assembled does.
pub open spec fn dispatched(state: DecoderModel) -> Step {
    let event = text::trimmed(state.event);
    let cleared = DecoderModel { event: Seq::empty(), ..state };
    if event.len() == 0 {
        Step { state: cleared, out: Seq::empty() }
    } else if event == "[DONE]"@ {
        all_flushed(DecoderModel { done: true, ..cleared })
    } else {
        match json::parsed_text(event) {
            Err(message) => failed(cleared, "undecodable completion chunk: "@ + message),
            Ok(document) => match chunk::chunk_of(document) {
                Some(chunk) => chunk_step(cleared, chunk),
                None => failed(cleared, "undecodable completion chunk: unexpected shape"@),
            },
        }
    }
}

/// `line` without one trailing carriage return.
pub open spec fn without_cr(line: Seq<u8>) -> Seq<u8> {
    if line.len() > 0 && line.last() == 13 {
        line.drop_last()
    } else {
        line
    }
}

/// The event after one more line of data: lines of one event join with a newline.
pub open spec fn joined(event: Seq<char>, data: Seq<char>) -> Seq<char> {
    (if event.len() > 0 {
        event.push('\n')
    } else {
        event
    }) + (if data.len() > 0 && data[0] == ' ' {
        data.drop_first()
    } else {
        data
    })
}

/// What one complete line does. An empty line ends the event, a `data:` line adds to
/// it, and anything else, a comment or another field, does nothing.
pub open spec fn line_step(state: DecoderModel, line: Seq<u8>) -> Step {
    let text = text::lossy_text(without_cr(line));
    if text.len() == 0 {
        dispatched(state)
    } else if "data:"@.is_prefix_of(text) {
        Step {
            state: DecoderModel {
                event: joined(state.event, text.subrange(5, text.len() as int)),
                ..state
            },
            out: Seq::empty(),
        }
    } else {
        Step { state, out: Seq::empty() }
    }
}

/// What one byte of the body does. Once the stream announced its end nothing more of it is
/// read.
pub open spec fn byte_step(state: DecoderModel, byte: u8) -> Step {
    if state.done {
        Step { state, out: Seq::empty() }
    } else if byte == 10 {
        line_step(DecoderModel { line: Seq::empty(), ..state }, state.line)
    } else {
        Step { state: DecoderModel { line: state.line.push(byte), ..state }, out: Seq::empty() }
    }
}

/// What a slice of the body does.
pub open spec fn fed(state: DecoderModel, bytes: Seq<u8>) -> Step
    decreases bytes.len(),
{
    if bytes.len() == 0 {
        Step { state, out: Seq::empty() }
    } else {
        and_then(
            fed(state, bytes.drop_last()),
            |state: DecoderModel| byte_step(state, bytes.last()),
        )
    }
}

/// What the end of the body does: a line and an event that were not ended are read all
/// the same, and every open call goes out. A stream that announced its end has given out
/// everything already.
pub open spec fn ended(state: DecoderModel) -> Step {
    if state.done {
        Step { state, out: Seq::empty() }
    } else {
        cut_off(state)
    }
}

/// What the end of a body does that did not announce it.
pub open spec fn cut_off(state: DecoderModel) -> Step {
    let line = if state.line.len() > 0 {
        line_step(DecoderModel { line: Seq::empty(), ..state }, state.line)
    } else {
        Step { state, out: Seq::empty() }
    };
    and_then(
        and_then(line, |state: DecoderModel| dispatched(state)),
        |state: DecoderModel| all_flushed(state),
    )
}

/// An incremental reader of a streamed completion: bytes in, items out.
#[derive(Debug)]
pub struct SseDecoder {
    line: Vec<u8>,
    event: String,
    calls: Vec<OpenCall>,
    done: bool,
}

impl View for SseDecoder {
    type V = DecoderModel;

    closed spec fn view(&self) -> DecoderModel {
        DecoderModel {
            line: self.line@,
            event: self.event@,
            calls: calls_view(self.calls@),
            done: self.done,
        }
    }
}

impl Default for SseDecoder {
    fn default() -> (decoder: SseDecoder)
        ensures
            decoder@ == fresh(),
    {
        let calls: Vec<OpenCall> = Vec::new();
        assert(calls_view(calls@) =~= Seq::empty());
        SseDecoder { line: Vec::new(), event: String::new(), calls, done: false }
    }
}

/// Drops one trailing carriage return, so that both line endings read the same.
pub fn strip_cr(line: &Vec<u8>) -> (stripped: Vec<u8>)
    ensures
        stripped@ == without_cr(line@),
{
    let mut stripped = line.clone();
    if line.len() > 0 && line[line.len() - 1] == 13 {
        stripped.truncate(line.len() - 1);
        assert(stripped@ =~= line@.drop_last());
    }
    stripped
}

/// Whether a fragment's id belongs to a different call than the one open here.
pub fn supersedes(call: &OpenCall, id: &Option<String>) -> (different: bool)
    ensures
        different == is_superseded(call@, records::optional_view(*id)),
{
    match (&call.id, id) {
        (Some(open), Some(new)) => !text::same(open.as_str(), new.as_str()),
        _ => false,
    }
}

impl SseDecoder {
    /// Whether the stream announced its own end.
    pub fn is_done(&self) -> (done: bool)
        ensures
            done == self@.done,
    {
        self.done
    }

    /// Emits every open call, in order, complete or not: an incomplete one comes out as
    /// an error rather than half-formed.
    fn flush_all(&mut self, out: &mut Vec<Result<ModelDelta, LmError>>)
        ensures
            final(self)@ == all_flushed(old(self)@).state,
            appends(old(out)@, final(out)@, all_flushed(old(self)@).out),
    {
        let ghost start = self@;
        let ghost before = out@;
        let mut calls: Vec<OpenCall> = Vec::new();
        std::mem::swap(&mut calls, &mut self.calls);
        assert(calls_view(self.calls@) =~= Seq::empty());
        let ghost all = calls@;
        let ghost mut n: int = 0;
        proof {
            lemma_appends_nothing(before);
            assert(call_emissions(calls_view(all.subrange(0, 0))) =~= Seq::empty());
            assert(all.subrange(0, all.len() as int) =~= all);
        }
        while calls.len() > 0
            invariant
                0 <= n <= all.len(),
                calls@ == all.subrange(n, all.len() as int),
                appends(before, out@, call_emissions(calls_view(all.subrange(0, n)))),
            decreases calls@.len(),
        {
            let call = calls.remove(0);
            let item = flush(call);
            proof {
                let emissions = call_emissions(calls_view(all.subrange(0, n)));
                lemma_appends_one(out@, item, Emission::Call(call@));
                lemma_appends_twice(
                    before,
                    out@,
                    out@.push(item),
                    emissions,
                    seq![Emission::Call(call@)],
                );
                assert(call == all[n]);
                assert(call_emissions(calls_view(all.subrange(0, n + 1))) =~= emissions + seq![
                    Emission::Call(call@),
                ]);
                n = n + 1;
            }
            out.push(item);
            assert(calls@ =~= all.subrange(n, all.len() as int));
        }
        assert(all.subrange(0, n) =~= all);
    }

    /// Emits every open call below `index` whose arguments are already complete.
    fn flush_complete_below(&mut self, index: u32, out: &mut Vec<Result<ModelDelta, LmError>>)
        ensures
            final(self)@ == (DecoderModel { calls: staying(old(self)@.calls, index), ..old(self)@ }),
            appends(old(out)@, final(out)@, call_emissions(going(old(self)@.calls, index))),
    {
        let ghost before = out@;
        let ghost all = self@.calls;
        let ghost stays = |call: CallModel| !goes_early(call, index);
        let ghost goes = |call: CallModel| goes_early(call, index);
        let ghost mut n: int = 0;
        let ghost start = self@;
        let mut position: usize = 0;
        proof {
            lemma_appends_nothing(before);
            assert(all.subrange(0, 0) =~= Seq::empty());
            reveal(Seq::filter);
            assert(call_emissions(all.subrange(0, 0).filter(goes)) =~= Seq::empty());
            assert(self@.calls.subrange(0, 0) =~= Seq::empty());
            assert(self@.calls.subrange(0, all.len() as int) =~= all.subrange(0, all.len() as int));
        }
        while position < self.calls.len()
            invariant
                0 <= n <= all.len(),
                stays == (|call: CallModel| !goes_early(call, index)),
                goes == (|call: CallModel| goes_early(call, index)),
                position <= self@.calls.len(),
                self@ == (DecoderModel { calls: self@.calls, ..start }),
                self@.calls.subrange(0, position as int) == all.subrange(0, n).filter(stays),
                self@.calls.subrange(position as int, self@.calls.len() as int) == all.subrange(
                    n,
                    all.len() as int,
                ),
                appends(before, out@, call_emissions(all.subrange(0, n).filter(goes))),
            decreases self.calls@.len() - position,
        {
            let ghost calls = self@.calls;
            let ghost current = calls[position as int];
            proof {
                assert(calls.len() == self.calls@.len());
                assert(calls.subrange(position as int, calls.len() as int).len() == all.subrange(
                    n,
                    all.len() as int,
                ).len());
                assert(calls.subrange(position as int, calls.len() as int)[0] == all.subrange(
                    n,
                    all.len() as int,
                )[0]);
                assert(current == all[n]);
                assert(all.subrange(0, n + 1).drop_last() =~= all.subrange(0, n));
                assert(all.subrange(0, n + 1).last() == current);
                reveal(Seq::filter);
            }
            if self.calls[position].index < index && self.calls[position].is_complete() {
                let call = self.calls.remove(position);
                let item = flush(call);
                proof {
                    assert(self@.calls =~= calls.remove(position as int));
                    assert(call@ == current);
                    let emissions = call_emissions(all.subrange(0, n).filter(goes));
                    lemma_appends_one(out@, item, Emission::Call(current));
                    lemma_appends_twice(
                        before,
                        out@,
                        out@.push(item),
                        emissions,
                        seq![Emission::Call(current)],
                    );
                    assert(call_emissions(all.subrange(0, n + 1).filter(goes)) =~= emissions + seq![
                        Emission::Call(current),
                    ]);
                    assert(self@.calls.subrange(0, position as int) =~= calls.subrange(
                        0,
                        position as int,
                    ));
                    assert(self@.calls.subrange(position as int, self@.calls.len() as int)
                        =~= calls.subrange(position as int, calls.len() as int).drop_first());
                    assert(all.subrange(n, all.len() as int).drop_first() =~= all.subrange(
                        n + 1,
                        all.len() as int,
                    ));
                    n = n + 1;
                }
                out.push(item);
            } else {
                proof {
                    assert(calls.subrange(0, position + 1) =~= calls.subrange(
                        0,
                        position as int,
                    ).push(current));
                    assert(calls.subrange(position + 1, calls.len() as int) =~= calls.subrange(
                        position as int,
                        calls.len() as int,
                    ).drop_first());
                    assert(all.subrange(n, all.len() as int).drop_first() =~= all.subrange(
                        n + 1,
                        all.len() as int,
                    ));
                    n = n + 1;
                }
                position += 1;
            }
        }
        assert(n == all.len()) by {
            assert(self@.calls.subrange(position as int, self@.calls.len() as int).len() == 0);
        }
        assert(all.subrange(0, n) =~= all);
        assert(self@.calls.subrange(0, position as int) =~= self@.calls);
    }

    /// Starts a call at `index`, keeping the list ordered; returns its position.
    fn open(&mut self, index: u32) -> (position: usize)
        ensures
            final(self)@ == (DecoderModel { calls: opened(old(self)@.calls, index), ..old(self)@ }),
            position == slot(old(self)@.calls, index),
            position <= old(self)@.calls.len(),
    {
        let ghost all = self@.calls;
        let mut position: usize = 0;
        while position < self.calls.len() && self.calls[position].index <= index
            invariant
                0 <= position <= self.calls@.len(),
                all == calls_view(self.calls@),
                forall|i: int| 0 <= i < position ==> (#[trigger] all[i]).index <= index,
            decreases self.calls@.len() - position,
        {
            assert(all[position as int] == self.calls@[position as int]@);
            position += 1;
        }
        proof {
            if position < all.len() {
                assert(all[position as int] == self.calls@[position as int]@);
            }
            lemma_first_where(all, |call: CallModel| call.index > index, position as int);
        }
        let call = OpenCall::new(index);
        self.calls.insert(position, call);
        assert(self@.calls =~= all.insert(position as int, call@));
        position
    }

    /// Finds the call at `index`, or starts one; returns its position. A different id at
    /// the same index means a new call, so a host that leaves the index out still gets
    /// one call for each id.
    fn place(
        &mut self,
        index: u32,
        id: &Option<String>,
        out: &mut Vec<Result<ModelDelta, LmError>>,
    ) -> (position: usize)
        ensures
            final(self)@ == (DecoderModel {
                calls: placed(old(self)@.calls, index, records::optional_view(*id)).0,
                ..old(self)@
            }),
            position == placed(old(self)@.calls, index, records::optional_view(*id)).1,
            position < final(self)@.calls.len(),
            appends(
                old(out)@,
                final(out)@,
                placed(old(self)@.calls, index, records::optional_view(*id)).2,
            ),
    {
        let ghost calls = self@.calls;
        let ghost here = |call: CallModel| call.index == index;
        let mut at: usize = 0;
        while at < self.calls.len() && self.calls[at].index != index
            invariant
                0 <= at <= self.calls@.len(),
                calls == calls_view(self.calls@),
                forall|i: int| 0 <= i < at ==> (#[trigger] calls[i]).index != index,
            decreases self.calls@.len() - at,
        {
            assert(calls[at as int] == self.calls@[at as int]@);
            at += 1;
        }
        proof {
            lemma_appends_nothing(out@);
            if at < calls.len() {
                assert(calls[at as int] == self.calls@[at as int]@);
            }
            lemma_first_where(calls, here, at as int);
        }
        if at < self.calls.len() {
            if !supersedes(&self.calls[at], id) {
                return at;
            }
            let call = self.calls.remove(at);
            assert(self@.calls =~= calls.remove(at as int));
            let item = flush(call);
            proof {
                lemma_appends_one(out@, item, Emission::Call(call@));
            }
            out.push(item);
        }
        self.open(index)
    }

    /// Merges one fragment into the call it belongs to. A finished call at a lower index
    /// goes out first; one whose arguments are not finished stays, so a host that
    /// interleaves calls does not have half of one emitted.
    fn accumulate(
        &mut self,
        fragment: &ToolCallFragment,
        out: &mut Vec<Result<ModelDelta, LmError>>,
    )
        ensures
            final(self)@ == (DecoderModel {
                calls: accumulated(old(self)@.calls, fragment@).0,
                ..old(self)@
            }),
            appends(old(out)@, final(out)@, accumulated(old(self)@.calls, fragment@).1),
    {
        let ghost before = out@;
        let ghost start = self@;
        let index: u32 = match fragment.index {
            Some(index) => index,
            None => 0,
        };
        self.flush_complete_below(index, out);
        let ghost kept = self@.calls;
        let ghost early = out@;
        let id = records::copy_nonempty(&fragment.id);
        let position = self.place(index, &id, out);
        let ghost calls = self@.calls;
        proof {
            lemma_appends_twice(
                before,
                early,
                out@,
                call_emissions(going(start.calls, index)),
                placed(kept, index, records::nonempty(fragment@.id)).2,
            );
            assert(calls.len() == self.calls@.len());
        }
        let mut call = self.calls.remove(position);
        assert(call@ == calls[position as int]);
        call.merge(fragment);
        self.calls.insert(position, call);
        assert(self@.calls =~= calls.update(position as int, call@));
    }

    /// Decodes the assembled event.
    fn dispatch(&mut self, out: &mut Vec<Result<ModelDelta, LmError>>)
        ensures
            final(self)@ == dispatched(old(self)@).state,
            appends(old(out)@, final(out)@, dispatched(old(self)@).out),
    {
        let ghost before = out@;
        let mut event = String::new();
        std::mem::swap(&mut event, &mut self.event);
        let ghost cleared = self@;
        let event = text::trim(event.as_str());
        proof {
            lemma_appends_nothing(before);
        }
        if event.as_str().is_empty() {
            return;
        }
        if text::same(event.as_str(), "[DONE]") {
            self.done = true;
            self.flush_all(out);
            return;
        }
        let document = match Json::parse(event.as_str()) {
            Ok(document) => document,
            Err(message) => {
                let mut detail = "undecodable completion chunk: ".to_owned();
                detail.append(message.as_str());
                let item = Err(LmError::ProviderStream(detail));
                proof {
                    lemma_appends_one(
                        before,
                        item,
                        Emission::Failure(
                            LmErrorModel::ProviderStream(
                                "undecodable completion chunk: "@ + message@,
                            ),
                        ),
                    );
                }
                out.push(item);
                return;
            },
        };
        match ChatChunk::from_json(&document) {
            Some(chunk) => self.read_chunk(&chunk, out),
            None => {
                let detail = "undecodable completion chunk: unexpected shape".to_owned();
                let item = Err(LmError::ProviderStream(detail));
                proof {
                    lemma_appends_one(
                        before,
                        item,
                        Emission::Failure(
                            LmErrorModel::ProviderStream(
                                "undecodable completion chunk: unexpected shape"@,
                            ),
                        ),
                    );
                }
                out.push(item);
            },
        }
    }

    /// Takes in one chunk.
    pub fn read_chunk(&mut self, chunk: &ChatChunk, out: &mut Vec<Result<ModelDelta, LmError>>)
        ensures
            final(self)@ == chunk_step(old(self)@, chunk@).state,
            appends(old(out)@, final(out)@, chunk_step(old(self)@, chunk@).out),
    {
        let ghost before = out@;
        let ghost start = self@;
        proof {
            lemma_appends_nothing(before);
        }
        match &chunk.error {
            Some(error) => {
                let detail = wire::error_detail(error);
                let item = Err(LmError::ProviderStream(detail));
                proof {
                    lemma_appends_one(
                        before,
                        item,
                        Emission::Failure(
                            LmErrorModel::ProviderStream(wire::error_message(error@)),
                        ),
                    );
                }
                out.push(item);
                return;
            },
            None => {},
        }
        if chunk.choices.len() == 0 {
            return;
        }
        let choice = &chunk.choices[0];
        assert(chunk@.choices[0] == choice@);
        let ghost content = content_emissions(choice@.delta.content);
        match &choice.delta.content {
            Some(content) => {
                if !content.as_str().is_empty() {
                    let item = Ok(ModelDelta::Text(content.clone()));
                    proof {
                        lemma_appends_one(before, item, Emission::Text(content@));
                    }
                    out.push(item);
                }
            },
            None => {},
        }
        let ghost fragments = choice@.delta.tool_calls;
        assert(appends(before, out@, content));
        proof {
            assert(fragments.subrange(0, 0) =~= Seq::empty());
            assert(content + Seq::<Emission>::empty() =~= content);
        }
        let mut i: usize = 0;
        while i < choice.delta.tool_calls.len()
            invariant
                0 <= i <= choice.delta.tool_calls@.len(),
                fragments == chunk::fragments_model(choice.delta.tool_calls@),
                self@ == (DecoderModel {
                    calls: accumulated_all(start.calls, fragments.subrange(0, i as int)).0,
                    ..start
                }),
                appends(
                    before,
                    out@,
                    content + accumulated_all(start.calls, fragments.subrange(0, i as int)).1,
                ),
            decreases choice.delta.tool_calls@.len() - i,
        {
            let ghost so_far = accumulated_all(start.calls, fragments.subrange(0, i as int));
            let ghost items = out@;
            self.accumulate(&choice.delta.tool_calls[i], out);
            proof {
                let fragment = choice.delta.tool_calls@[i as int]@;
                assert(fragments[i as int] == fragment);
                assert(fragments.subrange(0, i + 1).drop_last() =~= fragments.subrange(0, i as int));
                let step = accumulated(so_far.0, fragment);
                lemma_appends_twice(before, items, out@, content + so_far.1, step.1);
                assert((content + so_far.1) + step.1 =~= content + (so_far.1 + step.1));
            }
            i += 1;
        }
        assert(fragments.subrange(0, i as int) =~= fragments);
        if choice.finish_reason.is_some() {
            let ghost items = out@;
            let ghost state = self@;
            self.flush_all(out);
            proof {
                lemma_appends_twice(
                    before,
                    items,
                    out@,
                    content + accumulated_all(start.calls, fragments).1,
                    all_flushed(state).out,
                );
            }
        }
    }

    /// Handles one complete line of the body.
    fn line_ready(&mut self, line: &Vec<u8>, out: &mut Vec<Result<ModelDelta, LmError>>)
        ensures
            final(self)@ == line_step(old(self)@, line@).state,
            appends(old(out)@, final(out)@, line_step(old(self)@, line@).out),
    {
        proof {
            lemma_appends_nothing(out@);
        }
        let stripped = strip_cr(line);
        let text = text::decode_lossy(stripped.as_slice());
        if text.as_str().is_empty() {
            self.dispatch(out);
            return;
        }
        let chars = text::chars_of(text.as_str());
        let field = text::chars_of("data:");
        if !text::stands_at(&chars, &field, 0) {
            assert(!"data:"@.is_prefix_of(text@));
            return;
        }
        proof {
            reveal_strlit("data:");
            assert("data:"@.is_prefix_of(text@));
        }
        let from: usize = if chars.len() > 5 && chars[5] == ' ' {
            6
        } else {
            5
        };
        let data = text::string_of(&chars, from, chars.len());
        let ghost event = self.event@;
        if !self.event.as_str().is_empty() {
            self.event.push('\n');
        }
        self.event.append(data.as_str());
        assert(self.event@ =~= joined(event, text@.subrange(5, text@.len() as int)));
    }

    /// Takes in the next slice of the body, returning whatever it completed. How the
    /// body is cut into slices makes no difference to what comes out.
    pub fn push(&mut self, bytes: &[u8]) -> (out: Vec<Result<ModelDelta, LmError>>)
        ensures
            final(self)@ == fed(old(self)@, bytes@).state,
            items_say(out@, fed(old(self)@, bytes@).out),
    {
        let ghost start = self@;
        let mut out: Vec<Result<ModelDelta, LmError>> = Vec::new();
        let ghost nothing = out@;
        proof {
            lemma_appends_nothing(nothing);
            assert(bytes@.subrange(0, 0) =~= Seq::empty());
        }
        let mut i: usize = 0;
        while i < bytes.len()
            invariant
                0 <= i <= bytes@.len(),
                nothing == Seq::<Result<ModelDelta, LmError>>::empty(),
                self@ == fed(start, bytes@.subrange(0, i as int)).state,
                appends(nothing, out@, fed(start, bytes@.subrange(0, i as int)).out),
            decreases bytes@.len() - i,
        {
            let ghost so_far = fed(start, bytes@.subrange(0, i as int));
            let ghost items = out@;
            proof {
                assert(bytes@.subrange(0, i + 1).drop_last() =~= bytes@.subrange(0, i as int));
                lemma_appends_nothing(items);
            }
            let byte: u8 = bytes[i];
            if !self.done {
                if byte == 10 {
                    let mut line: Vec<u8> = Vec::new();
                    std::mem::swap(&mut line, &mut self.line);
                    self.line_ready(&line, &mut out);
                } else {
                    self.line.push(byte);
                }
            }
            proof {
                lemma_appends_twice(
                    nothing,
                    items,
                    out@,
                    so_far.out,
                    byte_step(so_far.state, byte).out,
                );
            }
            i += 1;
        }
        proof {
            assert(bytes@.subrange(0, bytes@.len() as int) =~= bytes@);
            assert(out@.subrange(0, out@.len() as int) =~= out@);
        }
        out
    }

    /// The end of the body: reads what was not ended, and flushes every call still open.
    /// A host that ends without announcing it still gets its calls.
    pub fn finish(&mut self) -> (out: Vec<Result<ModelDelta, LmError>>)
        ensures
            final(self)@ == ended(old(self)@).state,
            items_say(out@, ended(old(self)@).out),
    {
        let ghost start = self@;
        let mut out: Vec<Result<ModelDelta, LmError>> = Vec::new();
        if self.done {
            return out;
        }
        let ghost nothing = out@;
        proof {
            lemma_appends_nothing(nothing);
        }
        let ghost line = if start.line.len() > 0 {
            line_step(DecoderModel { line: Seq::empty(), ..start }, start.line)
        } else {
            Step { state: start, out: Seq::empty() }
        };
        if self.line.len() > 0 {
            let mut line: Vec<u8> = Vec::new();
            std::mem::swap(&mut line, &mut self.line);
            self.line_ready(&line, &mut out);
        }
        let ghost first = out@;
        self.dispatch(&mut out);
        let ghost second = out@;
        let ghost event = dispatched(line.state);
        self.flush_all(&mut out);
        proof {
            lemma_appends_twice(nothing, first, second, line.out, event.out);
            lemma_appends_twice(
                nothing,
                second,
                out@,
                line.out + event.out,
                all_flushed(event.state).out,
            );
            assert(out@.subrange(0, out@.len() as int) =~= out@);
        }
        out
    }
}

/// The items of a whole completion.
pub open spec fn response_emissions(document: JsonModel) -> Seq<Emission> {
    match chunk::response_of(document) {
        None => seq![
            Emission::Failure(
                LmErrorModel::ProviderStream("undecodable completion: unexpected shape"@),
            ),
        ],
        Some(response) => match response.error {
            Some(error) => seq![
                Emission::Failure(LmErrorModel::ProviderStream(wire::error_message(error))),
            ],
            None => if response.choices.len() == 0 {
                Seq::empty()
            } else {
                content_emissions(response.choices[0].content) + response.choices[0].tool_calls.map_values(
                    |fragment: FragmentModel| Emission::Call(whole_call(fragment)),
                )
            },
        },
    }
}

/// The items of the body of a completion that was not streamed.
pub open spec fn body_emissions(bytes: Seq<u8>) -> Seq<Emission> {
    match json::parsed_bytes(bytes) {
        Err(message) => seq![
            Emission::Failure(
                LmErrorModel::ProviderStream("undecodable completion: "@ + message),
            ),
        ],
        Ok(document) => response_emissions(document),
    }
}

/// Reads a whole completion that was not streamed.
pub fn decode_response(bytes: &[u8]) -> (out: Vec<Result<ModelDelta, LmError>>)
    ensures
        items_say(out@, body_emissions(bytes@)),
{
    match Json::parse_bytes(bytes) {
        Ok(document) => decode_document(&document),
        Err(message) => {
            let mut out: Vec<Result<ModelDelta, LmError>> = Vec::new();
            let mut detail = "undecodable completion: ".to_owned();
            detail.append(message.as_str());
            out.push(Err(LmError::ProviderStream(detail)));
            out
        },
    }
}

/// Reads a whole completion that was not streamed, out of its document.
pub fn decode_document(document: &Json) -> (out: Vec<Result<ModelDelta, LmError>>)
    ensures
        items_say(out@, response_emissions(document@)),
{
    let mut out: Vec<Result<ModelDelta, LmError>> = Vec::new();
    let response = match ChatResponse::from_json(document) {
        Some(response) => response,
        None => {
            let detail = "undecodable completion: unexpected shape".to_owned();
            out.push(Err(LmError::ProviderStream(detail)));
            return out;
        },
    };
    match &response.error {
        Some(error) => {
            out.push(Err(LmError::ProviderStream(wire::error_detail(error))));
            return out;
        },
        None => {},
    }
    if response.choices.len() == 0 {
        return out;
    }
    let message = &response.choices[0];
    assert(response@.choices[0] == message@);
    let ghost content = content_emissions(message@.content);
    match &message.content {
        Some(content) => {
            if !content.as_str().is_empty() {
                out.push(Ok(ModelDelta::Text(content.clone())));
            }
        },
        None => {},
    }
    assert(items_say(out@, content));
    let ghost whole = |fragment: FragmentModel| Emission::Call(whole_call(fragment));
    let ghost fragments = message@.tool_calls;
    let ghost emissions = content + fragments.map_values(whole);
    let mut i: usize = 0;
    while i < message.tool_calls.len()
        invariant
            0 <= i <= message.tool_calls@.len(),
            fragments == chunk::fragments_model(message.tool_calls@),
            whole == (|fragment: FragmentModel| Emission::Call(whole_call(fragment))),
            emissions == content + fragments.map_values(whole),
            out@.len() == content.len() + i,
            forall|j: int| 0 <= j < out@.len() ==> item_says(#[trigger] out@[j], emissions[j]),
        decreases message.tool_calls@.len() - i,
    {
        let item = flush(OpenCall::complete(&message.tool_calls[i]));
        assert(emissions[out@.len() as int] == whole(fragments[i as int]));
        out.push(item);
        i += 1;
    }
    out
}

/// How the body is cut into slices makes no difference: two slices do what their
/// concatenation does.
pub proof fn slices_do_not_matter(state: DecoderModel, first: Seq<u8>, second: Seq<u8>)
    ensures
        fed(state, first + second).state == fed(fed(state, first).state, second).state,
        fed(state, first + second).out == fed(state, first).out + fed(
            fed(state, first).state,
            second,
        ).out,
    decreases second.len(),
{
    if second.len() == 0 {
        assert(first + second =~= first);
        assert(fed(state, first).out + Seq::<Emission>::empty() =~= fed(state, first).out);
    } else {
        slices_do_not_matter(state, first, second.drop_last());
        assert((first + second).drop_last() =~= first + second.drop_last());
        let a = fed(state, first).out;
        let mid = fed(fed(state, first).state, second.drop_last());
        let last = byte_step(mid.state, second.last()).out;
        assert((a + mid.out) + last =~= a + (mid.out + last));
    }
}

/// `bytes` with a carriage return before every newline.
pub open spec fn with_crlf(bytes: Seq<u8>) -> Seq<u8>
    decreases bytes.len(),
{
    if bytes.len() == 0 {
        bytes
    } else if bytes.last() == 10 {
        with_crlf(bytes.drop_last()).push(13).push(10)
    } else {
        with_crlf(bytes.drop_last()).push(bytes.last())
    }
}

/// Whether `bytes` holds no carriage return.
pub open spec fn has_no_cr(bytes: Seq<u8>) -> bool {
    forall|i: int| 0 <= i < bytes.len() ==> #[trigger] bytes[i] != 13
}

/// Both line endings read the same: a body whose lines end in a carriage return and a
/// newline does what the body does whose lines end in a newline alone, and so does its end.
pub proof fn line_endings_do_not_matter(state: DecoderModel, bytes: Seq<u8>)
    requires
        has_no_cr(state.line),
        has_no_cr(bytes),
    ensures
        fed(state, with_crlf(bytes)) == fed(state, bytes),
        ended(fed(state, with_crlf(bytes)).state) == ended(fed(state, bytes).state),
{
    lemma_crlf(state, bytes);
}

proof fn lemma_crlf(state: DecoderModel, bytes: Seq<u8>)
    requires
        has_no_cr(state.line),
        has_no_cr(bytes),
    ensures
        fed(state, with_crlf(bytes)) == fed(state, bytes),
        has_no_cr(fed(state, bytes).state.line),
    decreases bytes.len(),
{
    if bytes.len() > 0 {
        let front = bytes.drop_last();
        let last = bytes.last();
        assert(last == bytes[bytes.len() - 1]);
        assert(has_no_cr(front)) by {
            assert forall|i: int| 0 <= i < front.len() implies #[trigger] front[i] != 13 by {
                assert(front[i] == bytes[i]);
            }
        }
        lemma_crlf(state, front);
        let so_far = fed(state, front);
        let crlf = with_crlf(front);
        if last == 10 {
            let cr = crlf.push(13);
            assert(cr.drop_last() =~= crlf);
            assert(cr.push(10).drop_last() =~= cr);
            let mid = fed(state, cr);
            let line = so_far.state.line;
            assert(so_far.out + Seq::<Emission>::empty() =~= so_far.out);
            assert(mid == (Step {
                state: byte_step(so_far.state, 13).state,
                out: so_far.out,
            }));
            assert(line.push(13).drop_last() =~= line);
            assert(without_cr(line.push(13)) == without_cr(line));
            assert(line_step(DecoderModel { line: Seq::empty(), ..mid.state }, line.push(13))
                == line_step(DecoderModel { line: Seq::empty(), ..so_far.state }, line));
            assert(byte_step(mid.state, 10) == byte_step(so_far.state, 10));
            assert(fed(state, cr.push(10)) == fed(state, bytes));
            lemma_line_step_keeps_the_line(
                DecoderModel { line: Seq::empty(), ..so_far.state },
                so_far.state.line,
            );
        } else {
            assert(crlf.push(last).drop_last() =~= crlf);
        }
    }
}

proof fn lemma_line_step_keeps_the_line(state: DecoderModel, line: Seq<u8>)
    ensures
        line_step(state, line).state.line == state.line,
{
}

/// What follows the end that a stream announced is never read: neither more of the body,
/// in the same slice or a later one, nor its end does anything.
pub proof fn nothing_follows_the_end(state: DecoderModel, first: Seq<u8>, second: Seq<u8>)
    requires
        fed(state, first).state.done,
    ensures
        fed(state, first + second) == fed(state, first),
        ended(fed(state, first).state) == (Step {
            state: fed(state, first).state,
            out: Seq::empty(),
        }),
    decreases second.len(),
{
    let whole = first + second;
    if second.len() == 0 {
        assert(whole =~= first);
    } else {
        nothing_follows_the_end(state, first, second.drop_last());
        assert(whole.drop_last() =~= first + second.drop_last());
        let before = fed(state, first);
        assert(before.out + Seq::<Emission>::empty() =~= before.out);
    }
}

/// Whether calls stand in the order of their positions, one for each.
pub open spec fn in_order(calls: Seq<CallModel>) -> bool {
    forall|i: int, j: int| 0 <= i < j < calls.len() ==> calls[i].index < calls[j].index
}

proof fn lemma_filter_in_order(calls: Seq<CallModel>, keep: spec_fn(CallModel) -> bool)
    requires
        in_order(calls),
    ensures
        in_order(calls.filter(keep)),
        forall|i: int|
            0 <= i < calls.filter(keep).len() ==> exists|j: int|
                0 <= j < calls.len() && #[trigger] calls[j] == (#[trigger] calls.filter(keep)[i]),
    decreases calls.len(),
{
    reveal(Seq::filter);
    if calls.len() > 0 {
        let front = calls.drop_last();
        lemma_filter_in_order(front, keep);
        assert forall|i: int| 0 <= i < calls.filter(keep).len() implies exists|j: int|
            0 <= j < calls.len() && #[trigger] calls[j] == (#[trigger] calls.filter(keep)[i]) by {
            if i < front.filter(keep).len() {
                let j = choose|j: int|
                    0 <= j < front.len() && #[trigger] front[j] == front.filter(keep)[i];
                assert(calls[j] == front[j]);
            } else {
                assert(calls[calls.len() - 1] == calls.last());
            }
        }
        assert forall|i: int, j: int| 0 <= i < j < calls.filter(keep).len() implies calls.filter(
            keep,
        )[i].index < calls.filter(keep)[j].index by {
            if j == front.filter(keep).len() {
                let k = choose|k: int|
                    0 <= k < front.len() && #[trigger] front[k] == front.filter(keep)[i];
                assert(calls[k] == front[k]);
            }
        }
    }
}

proof fn lemma_opened_in_order(calls: Seq<CallModel>, index: u32, call: CallModel)
    requires
        in_order(calls),
        forall|i: int| 0 <= i < calls.len() ==> (#[trigger] calls[i]).index != index,
        call.index == index,
    ensures
        in_order(opened(calls, index).update(slot(calls, index), call)),
{
    let after = |call: CallModel| call.index > index;
    let place = slot(calls, index);
    lemma_first_where_is_first(calls, after);
    let new = opened(calls, index).update(place, call);
    assert forall|i: int, j: int| 0 <= i < j < new.len() implies new[i].index < new[j].index by {
        if i < place && j == place {
            assert(!after(calls[i]));
        } else if i == place {
            assert(new[j] == calls[j - 1]);
            assert(after(calls[place]));
            if place < j - 1 {
                assert(calls[place].index < calls[j - 1].index);
            }
        } else if i < place && j > place {
            assert(new[j] == calls[j - 1]);
            assert(new[i] == calls[i]);
        } else if i > place {
            assert(new[j] == calls[j - 1]);
            assert(new[i] == calls[i - 1]);
        }
    }
}

proof fn lemma_slot_is_a_place(calls: Seq<CallModel>, index: u32)
    ensures
        0 <= slot(calls, index) <= calls.len(),
        opened(calls, index)[slot(calls, index)] == empty_call(index),
{
    lemma_first_where_is_first(calls, |call: CallModel| call.index > index);
}

/// A fragment keeps the open calls in order, one for each position.
pub proof fn fragments_keep_calls_in_order(calls: Seq<CallModel>, fragment: FragmentModel)
    requires
        in_order(calls),
    ensures
        in_order(accumulated(calls, fragment).0),
{
    let index = or_zero(fragment.index);
    let kept = staying(calls, index);
    let here = |call: CallModel| call.index == index;
    lemma_filter_in_order(calls, |call: CallModel| !goes_early(call, index));
    lemma_first_where_is_first(kept, here);
    let at = first_where(kept, here);
    let new = merged(empty_call(index), fragment);
    lemma_slot_is_a_place(kept, index);
    if at < kept.len() {
        assert(here(kept[at]));
        if is_superseded(kept[at], records::nonempty(fragment.id)) {
            let rest = kept.remove(at);
            assert forall|i: int| 0 <= i < rest.len() implies (#[trigger] rest[i]).index
                != index by {
                if i < at {
                    assert(kept[i].index < kept[at].index);
                } else {
                    assert(kept[at].index < kept[i + 1].index);
                }
            }
            assert(in_order(rest));
            lemma_slot_is_a_place(rest, index);
            lemma_opened_in_order(rest, index, new);
        }
    } else {
        assert forall|i: int| 0 <= i < kept.len() implies (#[trigger] kept[i]).index != index by {
            assert(!here(kept[i]));
        }
        lemma_opened_in_order(kept, index, new);
    }
}

proof fn lemma_all_fragments_in_order(calls: Seq<CallModel>, fragments: Seq<FragmentModel>)
    requires
        in_order(calls),
    ensures
        in_order(accumulated_all(calls, fragments).0),
    decreases fragments.len(),
{
    if fragments.len() > 0 {
        lemma_all_fragments_in_order(calls, fragments.drop_last());
        fragments_keep_calls_in_order(
            accumulated_all(calls, fragments.drop_last()).0,
            fragments.last(),
        );
    }
}

proof fn lemma_dispatched_in_order(state: DecoderModel)
    requires
        in_order(state.calls),
    ensures
        in_order(dispatched(state).state.calls),
{
    let cleared = DecoderModel { event: Seq::empty(), ..state };
    match json::parsed_text(text::trimmed(state.event)) {
        Ok(document) => match chunk::chunk_of(document) {
            Some(chunk) => {
                if chunk.choices.len() > 0 {
                    lemma_all_fragments_in_order(
                        cleared.calls,
                        chunk.choices[0].delta.tool_calls,
                    );
                }
            },
            None => {},
        },
        Err(_) => {},
    }
}

/// Whatever the body holds, the open calls stand in order, one for each position.
pub proof fn open_calls_stay_in_order(state: DecoderModel, bytes: Seq<u8>)
    requires
        in_order(state.calls),
    ensures
        in_order(fed(state, bytes).state.calls),
    decreases bytes.len(),
{
    if bytes.len() > 0 {
        open_calls_stay_in_order(state, bytes.drop_last());
        let before = fed(state, bytes.drop_last()).state;
        lemma_dispatched_in_order(DecoderModel { line: Seq::empty(), ..before });
    }
}

/// No half call goes out early: a call that a fragment of a later one sends out has
/// arguments that are a finished object, and a call that stays is not changed by it.
pub proof fn early_calls_are_finished(calls: Seq<CallModel>, index: u32)
    ensures
        forall|i: int|
            0 <= i < going(calls, index).len() ==> is_finished(#[trigger] going(calls, index)[i])
                && going(calls, index)[i].index < index,
        forall|call: CallModel|
            calls.contains(call) && !goes_early(call, index) ==> #[trigger] staying(
                calls,
                index,
            ).contains(call),
{
    let goes = |call: CallModel| goes_early(call, index);
    let stays = |call: CallModel| !goes_early(call, index);
    broadcast use vstd::seq_lib::group_filter_ensures;

    assert forall|i: int| 0 <= i < going(calls, index).len() implies is_finished(
        #[trigger] going(calls, index)[i],
    ) && going(calls, index)[i].index < index by {
        assert(goes(calls.filter(goes)[i]));
    }
    assert forall|call: CallModel|
        calls.contains(call) && !goes_early(call, index) implies #[trigger] staying(
        calls,
        index,
    ).contains(call) by {
        assert(stays(call));
        let i = choose|i: int| 0 <= i < calls.len() && calls[i] == call;
        assert(calls.filter(stays).contains(calls[i]));
    }
}

/// What items speak, in order.
pub open spec fn speech(out: Seq<Emission>) -> Seq<char>
    decreases out.len(),
{
    if out.len() == 0 {
        Seq::empty()
    } else {
        speech(out.drop_last()) + (match out.last() {
            Emission::Text(text) => text,
            _ => Seq::empty(),
        })
    }
}

proof fn lemma_speech_join(first: Seq<Emission>, second: Seq<Emission>)
    ensures
        speech(first + second) == speech(first) + speech(second),
    decreases second.len(),
{
    if second.len() == 0 {
        assert(first + second =~= first);
        assert(speech(first) + Seq::<char>::empty() =~= speech(first));
    } else {
        lemma_speech_join(first, second.drop_last());
        assert((first + second).drop_last() =~= first + second.drop_last());
        let last = match second.last() {
            Emission::Text(text) => text,
            _ => Seq::empty(),
        };
        assert((speech(first) + speech(second.drop_last())) + last =~= speech(first) + (speech(
            second.drop_last(),
        ) + last));
    }
}

proof fn lemma_calls_are_silent(out: Seq<Emission>)
    requires
        forall|i: int| 0 <= i < out.len() ==> (#[trigger] out[i]) is Call,
    ensures
        speech(out) == Seq::<char>::empty(),
    decreases out.len(),
{
    if out.len() > 0 {
        assert(out[out.len() - 1] is Call);
        assert forall|i: int| 0 <= i < out.drop_last().len() implies (
        #[trigger] out.drop_last()[i]) is Call by {
            assert(out[i] is Call);
        }
        lemma_calls_are_silent(out.drop_last());
    }
}

proof fn lemma_fragments_are_silent(calls: Seq<CallModel>, fragments: Seq<FragmentModel>)
    ensures
        speech(accumulated_all(calls, fragments).1) == Seq::<char>::empty(),
    decreases fragments.len(),
{
    if fragments.len() > 0 {
        lemma_fragments_are_silent(calls, fragments.drop_last());
        let before = accumulated_all(calls, fragments.drop_last());
        let after = accumulated(before.0, fragments.last());
        lemma_calls_are_silent(after.1);
        lemma_speech_join(before.1, after.1);
    }
}

/// No call is ever spoken: what a chunk makes heard is its content and nothing else,
/// whatever calls it carries or completes.
pub proof fn only_content_is_spoken(state: DecoderModel, chunk: ChunkModel)
    ensures
        speech(chunk_step(state, chunk).out) == (if chunk.error is None && chunk.choices.len()
            > 0 {
            records::or_empty(chunk.choices[0].delta.content)
        } else {
            Seq::empty()
        }),
{
    if chunk.error is Some {
        let out = chunk_step(state, chunk).out;
        assert(out.drop_last() =~= Seq::empty());
        assert(speech(out.drop_last()) == Seq::<char>::empty());
        assert(speech(out) =~= Seq::<char>::empty());
    } else if chunk.choices.len() > 0 {
        let choice = chunk.choices[0];
        let calls = accumulated_all(state.calls, choice.delta.tool_calls);
        let content = content_emissions(choice.delta.content);
        lemma_fragments_are_silent(state.calls, choice.delta.tool_calls);
        lemma_speech_join(content, calls.1);
        lemma_calls_are_silent(call_emissions(calls.0));
        lemma_speech_join(content + calls.1, call_emissions(calls.0));
        if content.len() > 0 {
            assert(content.drop_last() =~= Seq::empty());
            assert(speech(content.drop_last()) == Seq::<char>::empty());
        }
        assert(speech(content) =~= records::or_empty(choice.delta.content));
        assert(speech(content) + Seq::<char>::empty() =~= speech(content));
    }
}

/// The position of the call that `fragment` belongs to: the first where it tells none.
pub open spec fn position_of(fragment: FragmentModel) -> u32 {
    match fragment.index {
        Some(index) => index,
        None => 0,
    }
}

/// The arguments text that `fragment` brings.
pub open spec fn text_brought(fragment: FragmentModel) -> Seq<char> {
    match fragment.function {
        Some(function) => match function.arguments {
            Some(text) => text,
            None => Seq::empty(),
        },
        None => Seq::empty(),
    }
}

/// The name that `fragment` brings.
pub open spec fn name_brought(fragment: FragmentModel) -> Seq<char> {
    match fragment.function {
        Some(function) => match function.name {
            Some(name) => name,
            None => Seq::empty(),
        },
        None => Seq::empty(),
    }
}

/// The arguments text that `fragments` bring for the position `index`, one after the
/// other.
pub open spec fn texts_brought(fragments: Seq<FragmentModel>, index: u32) -> Seq<char>
    decreases fragments.len(),
{
    if fragments.len() == 0 {
        Seq::empty()
    } else if position_of(fragments.last()) == index {
        texts_brought(fragments.drop_last(), index) + text_brought(fragments.last())
    } else {
        texts_brought(fragments.drop_last(), index)
    }
}

/// The arguments text of the calls at the position `index`, one after the other.
pub open spec fn texts_held(calls: Seq<CallModel>, index: u32) -> Seq<char>
    decreases calls.len(),
{
    if calls.len() == 0 {
        Seq::empty()
    } else if calls.last().index == index {
        texts_held(calls.drop_last(), index) + calls.last().arguments
    } else {
        texts_held(calls.drop_last(), index)
    }
}

/// The calls among items, in order.
pub open spec fn calls_sent(out: Seq<Emission>) -> Seq<CallModel>
    decreases out.len(),
{
    if out.len() == 0 {
        Seq::empty()
    } else {
        match out.last() {
            Emission::Call(call) => calls_sent(out.drop_last()).push(call),
            _ => calls_sent(out.drop_last()),
        }
    }
}

proof fn lemma_texts_held_join(first: Seq<CallModel>, second: Seq<CallModel>, index: u32)
    ensures
        texts_held(first + second, index) == texts_held(first, index) + texts_held(second, index),
    decreases second.len(),
{
    if second.len() == 0 {
        assert(first + second =~= first);
        assert(texts_held(first, index) + Seq::<char>::empty() =~= texts_held(first, index));
    } else {
        lemma_texts_held_join(first, second.drop_last(), index);
        assert((first + second).drop_last() =~= first + second.drop_last());
        assert((first + second).last() == second.last());
        assert((texts_held(first, index) + texts_held(second.drop_last(), index))
            + second.last().arguments =~= texts_held(first, index) + (texts_held(
            second.drop_last(),
            index,
        ) + second.last().arguments));
    }
}

proof fn lemma_calls_sent_join(first: Seq<Emission>, second: Seq<Emission>)
    ensures
        calls_sent(first + second) == calls_sent(first) + calls_sent(second),
    decreases second.len(),
{
    if second.len() == 0 {
        assert(first + second =~= first);
        assert(calls_sent(first) + Seq::<CallModel>::empty() =~= calls_sent(first));
    } else {
        lemma_calls_sent_join(first, second.drop_last());
        assert((first + second).drop_last() =~= first + second.drop_last());
        assert((first + second).last() == second.last());
        assert(calls_sent(first + second) =~= calls_sent(first) + calls_sent(second));
    }
}

proof fn lemma_calls_sent_of_calls(calls: Seq<CallModel>)
    ensures
        calls_sent(call_emissions(calls)) == calls,
    decreases calls.len(),
{
    if calls.len() == 0 {
        assert(calls_sent(call_emissions(calls)) =~= calls);
    } else {
        lemma_calls_sent_of_calls(calls.drop_last());
        assert(call_emissions(calls).drop_last() =~= call_emissions(calls.drop_last()));
        assert(calls_sent(call_emissions(calls)) =~= calls);
    }
}

proof fn lemma_no_text_elsewhere(calls: Seq<CallModel>, index: u32)
    requires
        forall|i: int| 0 <= i < calls.len() ==> (#[trigger] calls[i]).index != index,
    ensures
        texts_held(calls, index) == Seq::<char>::empty(),
    decreases calls.len(),
{
    if calls.len() > 0 {
        assert(calls[calls.len() - 1].index != index);
        assert forall|i: int| 0 <= i < calls.drop_last().len() implies (
        #[trigger] calls.drop_last()[i]).index != index by {
            assert(calls[i].index != index);
        }
        lemma_no_text_elsewhere(calls.drop_last(), index);
    }
}

proof fn lemma_text_of_the_one(calls: Seq<CallModel>, at: int)
    requires
        in_order(calls),
        0 <= at < calls.len(),
    ensures
        texts_held(calls, calls[at].index) == calls[at].arguments,
{
    let index = calls[at].index;
    let before = calls.subrange(0, at);
    let own = seq![calls[at]];
    let after = calls.subrange(at + 1, calls.len() as int);
    assert(calls =~= before + own + after);
    lemma_texts_held_join(before + own, after, index);
    lemma_texts_held_join(before, own, index);
    assert forall|i: int| 0 <= i < before.len() implies (#[trigger] before[i]).index != index by {
        assert(before[i] == calls[i]);
    }
    assert forall|i: int| 0 <= i < after.len() implies (#[trigger] after[i]).index != index by {
        assert(after[i] == calls[at + 1 + i]);
    }
    lemma_no_text_elsewhere(before, index);
    lemma_no_text_elsewhere(after, index);
    assert(own.drop_last() =~= Seq::empty());
    assert(texts_held(own.drop_last(), index) == Seq::<char>::empty());
    assert(texts_held(own, index) =~= calls[at].arguments);
    assert(texts_held(calls, index) =~= calls[at].arguments);
}

proof fn lemma_filter_splits_texts(
    calls: Seq<CallModel>,
    keep: spec_fn(CallModel) -> bool,
    index: u32,
)
    requires
        in_order(calls),
    ensures
        texts_held(calls.filter(|call: CallModel| !keep(call)), index) + texts_held(
            calls.filter(keep),
            index,
        ) == texts_held(calls, index),
        texts_held(calls.filter(keep), index).len() == 0 || texts_held(
            calls.filter(|call: CallModel| !keep(call)),
            index,
        ).len() == 0,
    decreases calls.len(),
{
    reveal(Seq::filter);
    let drop = |call: CallModel| !keep(call);
    if calls.len() > 0 {
        let front = calls.drop_last();
        lemma_filter_splits_texts(front, keep, index);
        let kept = front.filter(keep);
        let dropped = front.filter(drop);
        if calls.last().index == index {
            assert forall|i: int| 0 <= i < front.len() implies (#[trigger] front[i]).index
                != index by {
                assert(front[i] == calls[i]);
                assert(calls[i].index < calls[calls.len() - 1].index);
            }
            lemma_no_text_elsewhere(front, index);
        }
        if keep(calls.last()) {
            assert(calls.filter(keep).drop_last() =~= kept);
            assert(calls.filter(drop) =~= dropped);
        } else {
            assert(calls.filter(drop).drop_last() =~= dropped);
            assert(calls.filter(keep) =~= kept);
        }
        assert(texts_held(calls.filter(drop), index) + texts_held(calls.filter(keep), index)
            =~= texts_held(calls, index));
    } else {
        assert(texts_held(calls.filter(drop), index) + texts_held(calls.filter(keep), index)
            =~= texts_held(calls, index));
    }
}

/// The calls that a fragment finds, each still open or on its way out, hold the same
/// text as before it.
proof fn lemma_early_calls_keep_texts(calls: Seq<CallModel>, position: u32, index: u32)
    requires
        in_order(calls),
    ensures
        texts_held(going(calls, position), index) + texts_held(staying(calls, position), index)
            == texts_held(calls, index),
{
    let goes = |call: CallModel| goes_early(call, position);
    let stays = |call: CallModel| !goes_early(call, position);
    lemma_filter_splits_texts(calls, goes, index);
    assert(stays =~= (|call: CallModel| !goes(call)));
    let left = texts_held(staying(calls, position), index);
    let right = texts_held(going(calls, position), index);
    assert(left + right =~= right + left);
}

proof fn lemma_an_update_keeps_other_texts(
    calls: Seq<CallModel>,
    at: int,
    call: CallModel,
    index: u32,
)
    requires
        0 <= at < calls.len(),
        call.index == calls[at].index,
        index != call.index,
    ensures
        texts_held(calls.update(at, call), index) == texts_held(calls, index),
    decreases calls.len(),
{
    let new = calls.update(at, call);
    if at == calls.len() - 1 {
        assert(new.drop_last() =~= calls.drop_last());
    } else {
        assert(new.drop_last() =~= calls.drop_last().update(at, call));
        lemma_an_update_keeps_other_texts(calls.drop_last(), at, call, index);
    }
}

proof fn lemma_a_removal_keeps_other_texts(calls: Seq<CallModel>, at: int, index: u32)
    requires
        0 <= at < calls.len(),
        index != calls[at].index,
    ensures
        texts_held(calls.remove(at), index) == texts_held(calls, index),
    decreases calls.len(),
{
    let new = calls.remove(at);
    if at == calls.len() - 1 {
        assert(new =~= calls.drop_last());
    } else {
        assert(new.drop_last() =~= calls.drop_last().remove(at));
        lemma_a_removal_keeps_other_texts(calls.drop_last(), at, index);
    }
}

proof fn lemma_an_opening_keeps_other_texts(
    calls: Seq<CallModel>,
    at: int,
    call: CallModel,
    index: u32,
)
    requires
        0 <= at <= calls.len(),
        index != call.index,
    ensures
        texts_held(calls.insert(at, call), index) == texts_held(calls, index),
{
    let new = calls.insert(at, call);
    assert(new.remove(at) =~= calls);
    lemma_a_removal_keeps_other_texts(new, at, index);
}

/// No character of a call's arguments is lost, changed or moved to another call: what
/// has gone out at a position and what is still open there is, character for character,
/// what was open there and what the fragment brought for it.
pub proof fn a_fragment_adds_its_own_text(
    calls: Seq<CallModel>,
    fragment: FragmentModel,
    index: u32,
)
    requires
        in_order(calls),
    ensures
        texts_held(calls_sent(accumulated(calls, fragment).1), index) + texts_held(
            accumulated(calls, fragment).0,
            index,
        ) == texts_held(calls, index) + (if position_of(fragment) == index {
            text_brought(fragment)
        } else {
            Seq::empty()
        }),
{
    let position = position_of(fragment);
    let id = records::nonempty(fragment.id);
    let kept = staying(calls, position);
    let gone = going(calls, position);
    let (open, place, superseded) = placed(kept, position, id);
    let after = accumulated(calls, fragment);
    let here = |call: CallModel| call.index == position;
    lemma_early_calls_keep_texts(calls, position, index);
    lemma_filter_in_order(calls, |call: CallModel| !goes_early(call, position));
    lemma_first_where_is_first(kept, here);
    fragments_keep_calls_in_order(calls, fragment);
    let at = first_where(kept, here);
    lemma_slot_is_a_place(kept, position);
    if at < kept.len() {
        assert(here(kept[at]));
        lemma_slot_is_a_place(kept.remove(at), position);
    }
    assert(0 <= place < open.len());
    assert(open[place].index == position);
    let new = merged(open[place], fragment);
    assert(after.0 == open.update(place, new));
    assert(after.0[place] == new);
    lemma_calls_sent_join(call_emissions(gone), superseded);
    lemma_calls_sent_of_calls(gone);
    let out = calls_sent(superseded);
    lemma_texts_held_join(gone, out, index);
    assert(superseded.len() == 0 || superseded =~= seq![Emission::Call(kept[at])]);
    if superseded.len() == 0 {
        assert(out =~= Seq::empty());
    } else {
        assert(superseded.drop_last() =~= Seq::empty());
        assert(calls_sent(superseded.drop_last()) =~= Seq::empty());
        assert(out =~= seq![kept[at]]);
    }
    assert(out.len() > 0 ==> out.drop_last() =~= Seq::empty());
    assert(texts_held(Seq::<CallModel>::empty(), index) == Seq::<char>::empty());
    if position == index {
        lemma_text_of_the_one(after.0, place);
        if at < kept.len() {
            lemma_text_of_the_one(kept, at);
        } else {
            assert forall|i: int| 0 <= i < kept.len() implies (#[trigger] kept[i]).index
                != index by {
                assert(!here(kept[i]));
            }
            lemma_no_text_elsewhere(kept, index);
        }
        assert(texts_held(out, index) + open[place].arguments =~= texts_held(kept, index));
        assert(new.arguments =~= open[place].arguments + text_brought(fragment));
    } else {
        lemma_an_update_keeps_other_texts(open, place, new, index);
        if superseded.len() > 0 {
            lemma_a_removal_keeps_other_texts(kept, at, index);
            lemma_an_opening_keeps_other_texts(
                kept.remove(at),
                place,
                empty_call(position),
                index,
            );
        } else if at >= kept.len() {
            lemma_an_opening_keeps_other_texts(kept, place, empty_call(position), index);
        }
        assert(texts_held(out, index) =~= Seq::<char>::empty());
    }
    let sent = texts_held(calls_sent(after.1), index);
    let still = texts_held(after.0, index);
    assert(sent =~= texts_held(gone, index) + texts_held(out, index));
    assert(sent + still =~= texts_held(gone, index) + (texts_held(out, index) + still));
    let brought = if position == index {
        text_brought(fragment)
    } else {
        Seq::empty()
    };
    assert(texts_held(out, index) + still =~= texts_held(kept, index) + brought);
    assert(sent + still =~= texts_held(calls, index) + brought);
}

/// The arguments of the calls at a position, those that have gone out and the one still
/// open, are the concatenation of the arguments that the fragments at that position
/// brought, in order and character for character.
pub proof fn arguments_are_the_fragments_joined(
    calls: Seq<CallModel>,
    fragments: Seq<FragmentModel>,
    index: u32,
)
    requires
        in_order(calls),
    ensures
        texts_held(calls_sent(accumulated_all(calls, fragments).1), index) + texts_held(
            accumulated_all(calls, fragments).0,
            index,
        ) == texts_held(calls, index) + texts_brought(fragments, index),
    decreases fragments.len(),
{
    let after = accumulated_all(calls, fragments);
    if fragments.len() == 0 {
        assert(texts_held(calls_sent(after.1), index) + texts_held(after.0, index) =~= texts_held(
            calls,
            index,
        ) + texts_brought(fragments, index));
    } else {
        let before = accumulated_all(calls, fragments.drop_last());
        let last = accumulated(before.0, fragments.last());
        lemma_all_fragments_in_order(calls, fragments.drop_last());
        arguments_are_the_fragments_joined(calls, fragments.drop_last(), index);
        a_fragment_adds_its_own_text(before.0, fragments.last(), index);
        lemma_calls_sent_join(before.1, last.1);
        lemma_texts_held_join(calls_sent(before.1), calls_sent(last.1), index);
        let first = texts_held(calls_sent(before.1), index);
        let second = texts_held(calls_sent(last.1), index);
        let open = texts_held(last.0, index);
        assert((first + second) + open =~= first + (second + open));
        let brought = if position_of(fragments.last()) == index {
            text_brought(fragments.last())
        } else {
            Seq::empty()
        };
        assert(first + (texts_held(before.0, index) + brought) =~= (first + texts_held(
            before.0,
            index,
        )) + brought);
        assert((texts_held(calls, index) + texts_brought(fragments.drop_last(), index)) + brought
            =~= texts_held(calls, index) + texts_brought(fragments, index));
    }
}

/// The fragments that a chunk brings: those of its first choice, unless it reports an
/// error.
pub open spec fn fragments_brought(chunk: ChunkModel) -> Seq<FragmentModel> {
    if chunk.error is None && chunk.choices.len() > 0 {
        chunk.choices[0].delta.tool_calls
    } else {
        Seq::empty()
    }
}

/// What one chunk after the other does.
pub open spec fn chunks_step(state: DecoderModel, chunks: Seq<ChunkModel>) -> Step
    decreases chunks.len(),
{
    if chunks.len() == 0 {
        Step { state, out: Seq::empty() }
    } else {
        and_then(
            chunks_step(state, chunks.drop_last()),
            |state: DecoderModel| chunk_step(state, chunks.last()),
        )
    }
}

/// The arguments text that chunks bring for the position `index`.
pub open spec fn chunk_texts(chunks: Seq<ChunkModel>, index: u32) -> Seq<char>
    decreases chunks.len(),
{
    if chunks.len() == 0 {
        Seq::empty()
    } else {
        chunk_texts(chunks.drop_last(), index) + texts_brought(
            fragments_brought(chunks.last()),
            index,
        )
    }
}

proof fn lemma_a_chunk_keeps_texts(state: DecoderModel, chunk: ChunkModel, index: u32)
    requires
        in_order(state.calls),
    ensures
        in_order(chunk_step(state, chunk).state.calls),
        texts_held(calls_sent(chunk_step(state, chunk).out), index) + texts_held(
            chunk_step(state, chunk).state.calls,
            index,
        ) == texts_held(state.calls, index) + texts_brought(fragments_brought(chunk), index),
{
    let step = chunk_step(state, chunk);
    let sent = texts_held(calls_sent(step.out), index);
    let still = texts_held(step.state.calls, index);
    let fragments = fragments_brought(chunk);
    assert(texts_held(Seq::<CallModel>::empty(), index) == Seq::<char>::empty());
    if chunk.error is None && chunk.choices.len() > 0 {
        let choice = chunk.choices[0];
        let calls = accumulated_all(state.calls, fragments);
        let content = content_emissions(choice.delta.content);
        lemma_all_fragments_in_order(state.calls, fragments);
        arguments_are_the_fragments_joined(state.calls, fragments, index);
        lemma_calls_sent_join(content, calls.1);
        if content.len() > 0 {
            assert(content.drop_last() =~= Seq::empty());
            assert(calls_sent(content.drop_last()) =~= Seq::empty());
        }
        assert(calls_sent(content) =~= Seq::empty());
        assert(calls_sent(content) + calls_sent(calls.1) =~= calls_sent(calls.1));
        if choice.finish_reason is Some {
            lemma_calls_sent_join(content + calls.1, call_emissions(calls.0));
            lemma_calls_sent_of_calls(calls.0);
            lemma_texts_held_join(calls_sent(calls.1), calls.0, index);
            assert(sent + Seq::<char>::empty() =~= sent);
        }
    } else {
        if step.out.len() > 0 {
            assert(step.out.drop_last() =~= Seq::empty());
            assert(calls_sent(step.out.drop_last()) =~= Seq::empty());
        }
        assert(calls_sent(step.out) =~= Seq::empty());
        assert(sent + still =~= texts_held(state.calls, index) + texts_brought(fragments, index));
    }
}

/// Over a whole completion too, the arguments of the calls at a position are the
/// concatenation of the arguments that its chunks brought for it, in order and character
/// for character.
pub proof fn arguments_are_the_chunks_joined(
    state: DecoderModel,
    chunks: Seq<ChunkModel>,
    index: u32,
)
    requires
        in_order(state.calls),
    ensures
        in_order(chunks_step(state, chunks).state.calls),
        texts_held(calls_sent(chunks_step(state, chunks).out), index) + texts_held(
            chunks_step(state, chunks).state.calls,
            index,
        ) == texts_held(state.calls, index) + chunk_texts(chunks, index),
    decreases chunks.len(),
{
    let after = chunks_step(state, chunks);
    if chunks.len() == 0 {
        assert(texts_held(calls_sent(after.out), index) + texts_held(after.state.calls, index)
            =~= texts_held(state.calls, index) + chunk_texts(chunks, index));
    } else {
        let before = chunks_step(state, chunks.drop_last());
        let last = chunk_step(before.state, chunks.last());
        arguments_are_the_chunks_joined(state, chunks.drop_last(), index);
        lemma_a_chunk_keeps_texts(before.state, chunks.last(), index);
        lemma_calls_sent_join(before.out, last.out);
        lemma_texts_held_join(calls_sent(before.out), calls_sent(last.out), index);
        let first = texts_held(calls_sent(before.out), index);
        let second = texts_held(calls_sent(last.out), index);
        let open = texts_held(last.state.calls, index);
        let brought = texts_brought(fragments_brought(chunks.last()), index);
        let held = texts_held(before.state.calls, index);
        assert((first + second) + open =~= first + (second + open));
        assert(first + (held + brought) =~= (first + held) + brought);
        assert((texts_held(state.calls, index) + chunk_texts(chunks.drop_last(), index)) + brought
            =~= texts_held(state.calls, index) + chunk_texts(chunks, index));
    }
}

/// Whether the arguments of `call` are the text of a JSON object, white space around it
/// aside.
pub open spec fn holds_an_object(call: CallModel) -> bool {
    &&& text::trimmed(call.arguments).len() > 0
    &&& json::parsed_text(text::trimmed(call.arguments)) matches Ok(JsonModel::Object(_))
}

/// Whether `fragment` starts another call than `call`: both name an id, and not the same.
pub open spec fn starts_another(call: CallModel, fragment: FragmentModel) -> bool {
    &&& call.id matches Some(open)
    &&& fragment.id matches Some(new)
    &&& new.len() > 0
    &&& open != new
}

/// Whether `call` is what `fragment` makes of `before`: the first id and the first name
/// that are not empty stay, and the text is added to what there was.
pub open spec fn continues(before: CallModel, fragment: FragmentModel, call: CallModel) -> bool {
    &&& call.index == before.index
    &&& match before.id {
        Some(id) => call.id == Some(id),
        None => match fragment.id {
            Some(id) => if id.len() > 0 {
                call.id == Some(id)
            } else {
                call.id is None
            },
            None => call.id is None,
        },
    }
    &&& call.name == (if before.name.len() > 0 {
        before.name
    } else {
        name_brought(fragment)
    })
    &&& call.arguments == before.arguments + text_brought(fragment)
}

proof fn lemma_filter_keeps_exactly(
    calls: Seq<CallModel>,
    keep: spec_fn(CallModel) -> bool,
    call: CallModel,
)
    ensures
        calls.filter(keep).contains(call) <==> calls.contains(call) && keep(call),
    decreases calls.len(),
{
    reveal(Seq::filter);
    if calls.len() > 0 {
        let front = calls.drop_last();
        lemma_filter_keeps_exactly(front, keep, call);
        assert(calls =~= front.push(calls.last()));
        if calls.contains(call) {
            let i = choose|i: int| 0 <= i < calls.len() && calls[i] == call;
            if i < front.len() {
                assert(front[i] == call);
            }
        }
        if front.contains(call) {
            let i = choose|i: int| 0 <= i < front.len() && front[i] == call;
            assert(calls[i] == call);
        }
        let kept = front.filter(keep);
        if keep(calls.last()) {
            assert(calls.filter(keep) =~= kept.push(calls.last()));
            assert(calls.filter(keep)[kept.len() as int] == calls.last());
            if kept.contains(call) {
                let i = choose|i: int| 0 <= i < kept.len() && kept[i] == call;
                assert(calls.filter(keep)[i] == call);
            }
            if calls.filter(keep).contains(call) {
                let i = choose|i: int|
                    0 <= i < calls.filter(keep).len() && calls.filter(keep)[i] == call;
                if i < kept.len() {
                    assert(kept[i] == call);
                } else {
                    assert(calls[calls.len() - 1] == call);
                }
            }
        }
    }
}

proof fn lemma_merging_continues(call: CallModel, fragment: FragmentModel)
    ensures
        continues(call, fragment, merged(call, fragment)),
{
    if call.name.len() == 0 {
        assert(call.name =~= Seq::empty());
    }
    assert(merged(call, fragment).arguments =~= call.arguments + text_brought(fragment));
}

/// A fragment touches the call at its own position and no other: that call continues
/// with what the fragment brings, or a new one starts where the fragment names another
/// id, and the old one goes out as it was. A call elsewhere stays as it was, or goes out
/// as it was where it stands before and its arguments are a finished object.
#[verifier::rlimit(60)]
#[verifier::spinoff_prover]
pub proof fn a_fragment_touches_its_own_call(
    calls: Seq<CallModel>,
    fragment: FragmentModel,
    call: CallModel,
)
    requires
        in_order(calls),
    ensures
        call.index != position_of(fragment) ==> {
            &&& accumulated(calls, fragment).0.contains(call) <==> calls.contains(call) && !(
            call.index < position_of(fragment) && holds_an_object(call))
            &&& accumulated(calls, fragment).1.contains(Emission::Call(call)) <==> calls.contains(
                call,
            ) && call.index < position_of(fragment) && holds_an_object(call)
        },
        call.index == position_of(fragment) ==> {
            &&& accumulated(calls, fragment).1.contains(Emission::Call(call)) <==> calls.contains(
                call,
            ) && starts_another(call, fragment)
            &&& calls.contains(call) && !starts_another(call, fragment) ==> exists|new: CallModel|
                #![trigger accumulated(calls, fragment).0.contains(new)]
                accumulated(calls, fragment).0.contains(new) && continues(call, fragment, new)
        },
        (forall|i: int|
            0 <= i < calls.len() ==> (#[trigger] calls[i]).index != position_of(fragment)
                || starts_another(calls[i], fragment)) ==> exists|new: CallModel|
            #![trigger accumulated(calls, fragment).0.contains(new)]
            accumulated(calls, fragment).0.contains(new) && continues(
                CallModel {
                    index: position_of(fragment),
                    id: None,
                    name: Seq::empty(),
                    arguments: Seq::empty(),
                },
                fragment,
                new,
            ),
{
    let position = position_of(fragment);
    let id = records::nonempty(fragment.id);
    let kept = staying(calls, position);
    let gone = going(calls, position);
    let (open, place, superseded) = placed(kept, position, id);
    let after = accumulated(calls, fragment);
    let here = |call: CallModel| call.index == position;
    let goes = |call: CallModel| goes_early(call, position);
    let stays = |call: CallModel| !goes_early(call, position);
    lemma_filter_in_order(calls, stays);
    lemma_first_where_is_first(kept, here);
    let at = first_where(kept, here);
    lemma_slot_is_a_place(kept, position);
    if at < kept.len() {
        assert(here(kept[at]));
        lemma_slot_is_a_place(kept.remove(at), position);
        lemma_filter_keeps_exactly(calls, stays, kept[at]);
        assert(kept.contains(kept[at]));
    }
    let new = merged(open[place], fragment);
    assert(after.0 == open.update(place, new));
    assert(after.0[place] == new);
    assert(after.0.contains(new));
    assert(open[place].index == position);
    lemma_merging_continues(open[place], fragment);
    lemma_filter_keeps_exactly(calls, stays, call);
    lemma_filter_keeps_exactly(calls, goes, call);
    assert(goes_early(call, position) == (call.index < position && holds_an_object(call)));
    let sent = call_emissions(gone);
    assert(sent.contains(Emission::Call(call)) == gone.contains(call)) by {
        if gone.contains(call) {
            let i = choose|i: int| 0 <= i < gone.len() && gone[i] == call;
            assert(sent[i] == Emission::Call(call));
        }
        if sent.contains(Emission::Call(call)) {
            let i = choose|i: int| 0 <= i < sent.len() && sent[i] == Emission::Call(call);
            assert(gone[i] == call);
        }
    }
    assert(after.1 =~= sent + superseded);
    assert(after.1.contains(Emission::Call(call)) == (sent.contains(Emission::Call(call))
        || superseded.contains(Emission::Call(call)))) by {
        let item = Emission::Call(call);
        if sent.contains(item) {
            let i = choose|i: int| 0 <= i < sent.len() && sent[i] == item;
            assert(after.1[i] == item);
        }
        if superseded.contains(item) {
            let i = choose|i: int| 0 <= i < superseded.len() && superseded[i] == item;
            assert(after.1[sent.len() + i] == item);
        }
        if after.1.contains(item) {
            let i = choose|i: int| 0 <= i < after.1.len() && after.1[i] == item;
            if i < sent.len() {
                assert(sent[i] == item);
            } else {
                assert(superseded[i - sent.len()] == item);
            }
        }
    }
    if superseded.len() > 0 {
        assert(superseded[0] == Emission::Call(kept[at]));
    }
    // At most one of the calls that stay is at the position.
    assert forall|i: int| 0 <= i < kept.len() && i != at implies (#[trigger] kept[i]).index
        != position by {
        if at < kept.len() {
            assert(kept[at].index == position);
        } else {
            assert(!here(kept[i]));
        }
    }
    if call.index == position && calls.contains(call) {
        assert(kept.contains(call));
        let i = choose|i: int| 0 <= i < kept.len() && kept[i] == call;
        assert(i == at);
    }
    if call.index != position {
        if kept.contains(call) {
            let i = choose|i: int| 0 <= i < kept.len() && kept[i] == call;
            if superseded.len() > 0 {
                let rest = kept.remove(at);
                let j = if i < at {
                    i
                } else {
                    i - 1
                };
                assert(rest[j] == call);
                let k = if j < place {
                    j
                } else {
                    j + 1
                };
                assert(open[k] == call);
                assert(after.0[k] == call);
            } else if at < kept.len() {
                assert(after.0[i] == call);
            } else {
                let k = if i < place {
                    i
                } else {
                    i + 1
                };
                assert(open[k] == call);
                assert(after.0[k] == call);
            }
        }
        if after.0.contains(call) {
            let k = choose|k: int| 0 <= k < after.0.len() && after.0[k] == call;
            assert(k != place);
            if superseded.len() > 0 {
                let rest = kept.remove(at);
                let j = if k < place {
                    k
                } else {
                    k - 1
                };
                assert(rest[j] == call);
                let i = if j < at {
                    j
                } else {
                    j + 1
                };
                assert(kept[i] == call);
            } else if at < kept.len() {
                assert(kept[k] == call);
            } else {
                let j = if k < place {
                    k
                } else {
                    k - 1
                };
                assert(kept[j] == call);
            }
        }
    }
    if forall|i: int|
        0 <= i < calls.len() ==> (#[trigger] calls[i]).index != position || starts_another(
            calls[i],
            fragment,
        ) {
        if at < kept.len() {
            assert(calls.contains(kept[at]));
            let i = choose|i: int| 0 <= i < calls.len() && calls[i] == kept[at];
            assert(calls[i].index != position || starts_another(calls[i], fragment));
        }
        assert(open[place] == empty_call(position));
    }
}

/// A call goes out with its own name, and with its arguments as the document that their
/// text holds: the empty object where there is no text. What makes no call is an error
/// that says what is wrong.
pub proof fn calls_go_out_with_their_own_arguments(call: CallModel, id: Seq<char>)
    requires
        may_have_id(call, id),
    ensures
        match call.id {
            Some(own) => own.len() > 0 ==> id == own,
            None => true,
        },
        call.id is None || call.id == Some(Seq::<char>::empty()) ==> "call_"@.is_prefix_of(id),
        match json::parsed_text(text::trimmed(call.arguments)) {
            Ok(JsonModel::Object(members)) => text::trimmed(call.arguments).len() > 0
                && call.name.len() > 0 ==> flushed_call(call, id) == Ok::<DeltaModel, LmErrorModel>(
                DeltaModel::ToolCall(
                    lm::ToolCallModel {
                        id,
                        name: call.name,
                        arguments_json: json::rendered(JsonModel::Object(members)),
                    },
                ),
            ),
            Ok(_) => text::trimmed(call.arguments).len() > 0 && call.name.len() > 0
                ==> flushed_call(call, id) == Err::<DeltaModel, LmErrorModel>(
                LmErrorModel::ToolArgumentsNotObject,
            ),
            Err(message) => text::trimmed(call.arguments).len() > 0 ==> flushed_call(call, id)
                == Err::<DeltaModel, LmErrorModel>(LmErrorModel::InvalidToolArguments(message)),
        },
        text::trimmed(call.arguments).len() == 0 && call.name.len() > 0 ==> flushed_call(call, id)
            == Ok::<DeltaModel, LmErrorModel>(
            DeltaModel::ToolCall(
                lm::ToolCallModel {
                    id,
                    name: call.name,
                    arguments_json: json::rendered(JsonModel::Object(Map::empty())),
                },
            ),
        ),
        call.name.len() == 0 ==> flushed_call(call, id) is Err,
{
    reveal_strlit("call_");
    assert("call_"@.len() == 5);
}

/// The visible text of a chunk comes before its calls, and where it is the last of the
/// turn every open call goes out and none stays. An error speaks for itself and leaves
/// the open calls as they are.
pub proof fn text_comes_before_calls(state: DecoderModel, chunk: ChunkModel, i: int)
    requires
        0 <= i < chunk_step(state, chunk).out.len(),
    ensures
        (chunk_step(state, chunk).out[i] is Text) ==> i == 0,
        (chunk_step(state, chunk).out[i] is Failure) <==> chunk.error is Some,
        match chunk.error {
            Some(error) => {
                &&& chunk_step(state, chunk).state == state
                &&& chunk_step(state, chunk).out[i] == Emission::Failure(
                    LmErrorModel::ProviderStream(wire::error_message(error)),
                )
            },
            None => {
                &&& chunk.choices.len() > 0
                &&& chunk.choices[0].finish_reason is Some ==> chunk_step(
                    state,
                    chunk,
                ).state.calls.len() == 0
            },
        },
        chunk_step(state, chunk).state.done == state.done,
        chunk_step(state, chunk).state.line == state.line,
        chunk_step(state, chunk).state.event == state.event,
{
    if chunk.error is None && chunk.choices.len() > 0 {
        lemma_only_calls_go_out(state.calls, chunk.choices[0].delta.tool_calls);
    }
}

proof fn lemma_only_calls_go_out(calls: Seq<CallModel>, fragments: Seq<FragmentModel>)
    ensures
        forall|i: int|
            0 <= i < accumulated_all(calls, fragments).1.len() ==> (#[trigger] accumulated_all(
                calls,
                fragments,
            ).1[i]) is Call,
    decreases fragments.len(),
{
    if fragments.len() > 0 {
        lemma_only_calls_go_out(calls, fragments.drop_last());
        let before = accumulated_all(calls, fragments.drop_last());
        let last = accumulated(before.0, fragments.last());
        let out = accumulated_all(calls, fragments).1;
        assert forall|i: int| 0 <= i < out.len() implies (#[trigger] out[i]) is Call by {
            if i < before.1.len() {
                assert(out[i] == before.1[i]);
            } else {
                assert(out[i] == last.1[i - before.1.len()]);
            }
        }
    }
}

/// The announced end sends out every open call, in order, and nothing else; no other
/// event ends the stream. An event is read once.
pub proof fn the_announced_end_sends_out_every_call(state: DecoderModel)
    ensures
        dispatched(state).state.event.len() == 0,
        dispatched(state).state.line == state.line,
        text::trimmed(state.event) == "[DONE]"@ ==> {
            &&& dispatched(state).state.done
            &&& dispatched(state).state.calls.len() == 0
            &&& dispatched(state).out.len() == state.calls.len()
            &&& calls_sent(dispatched(state).out) == state.calls
        },
        text::trimmed(state.event) != "[DONE]"@ ==> dispatched(state).state.done == state.done,
{
    reveal_strlit("[DONE]");
    assert("[DONE]"@.len() == 6);
    lemma_calls_sent_of_calls(state.calls);
    let event = text::trimmed(state.event);
    let cleared = DecoderModel { event: Seq::empty(), ..state };
    match json::parsed_text(event) {
        Ok(document) => match chunk::chunk_of(document) {
            Some(chunk) => {
                if chunk_step(cleared, chunk).out.len() > 0 {
                    text_comes_before_calls(cleared, chunk, 0);
                }
            },
            None => {},
        },
        Err(_) => {},
    }
}

/// An event that is no chunk is one failure, and the open calls stay as they are; one
/// that is a chunk does what the chunk does.
pub proof fn an_event_does_what_its_chunk_does(state: DecoderModel)
    requires
        text::trimmed(state.event).len() > 0,
        text::trimmed(state.event) != "[DONE]"@,
    ensures
        match json::parsed_text(text::trimmed(state.event)) {
            Err(message) => {
                &&& dispatched(state).out =~= seq![
                    Emission::Failure(
                        LmErrorModel::ProviderStream("undecodable completion chunk: "@ + message),
                    ),
                ]
                &&& dispatched(state).state.calls == state.calls
            },
            Ok(document) => match chunk::chunk_of(document) {
                Some(chunk) => {
                    &&& dispatched(state).out == chunk_step(
                        DecoderModel { event: Seq::empty(), ..state },
                        chunk,
                    ).out
                    &&& dispatched(state).state.calls == chunk_step(
                        DecoderModel { event: Seq::empty(), ..state },
                        chunk,
                    ).state.calls
                },
                None => {
                    &&& dispatched(state).out =~= seq![
                        Emission::Failure(
                            LmErrorModel::ProviderStream(
                                "undecodable completion chunk: unexpected shape"@,
                            ),
                        ),
                    ]
                    &&& dispatched(state).state.calls == state.calls
                },
            },
        },
{
}

/// A line of data adds its text, without the one space that may lead it, to the event,
/// behind a newline where the event holds something already. It says nothing yet, and
/// neither does a line of any other kind, which changes nothing.
pub proof fn data_lines_make_up_the_event(state: DecoderModel, line: Seq<u8>, data: Seq<char>)
    ensures
        text::lossy_text(without_cr(line)) == "data: "@ + data ==> {
            &&& line_step(state, line).out.len() == 0
            &&& line_step(state, line).state.event == (if state.event.len() == 0 {
                data
            } else {
                state.event + "\n"@ + data
            })
            &&& line_step(state, line).state.calls == state.calls
        },
        text::lossy_text(without_cr(line)) == "data:"@ + data && (data.len() == 0 || data[0]
            != ' ') ==> {
            &&& line_step(state, line).out.len() == 0
            &&& line_step(state, line).state.event == (if state.event.len() == 0 {
                data
            } else {
                state.event + "\n"@ + data
            })
            &&& line_step(state, line).state.calls == state.calls
        },
        text::lossy_text(without_cr(line)).len() > 0 && !"data:"@.is_prefix_of(
            text::lossy_text(without_cr(line)),
        ) ==> line_step(state, line) == (Step { state, out: Seq::empty() }),
        line_step(state, line).out.len() > 0 ==> text::lossy_text(without_cr(line)).len() == 0,
{
    reveal_strlit("data: ");
    reveal_strlit("data:");
    reveal_strlit("\n");
    assert("data: "@.len() == 6);
    assert("data:"@.len() == 5);
    assert("\n"@.len() == 1);
    assert("data: "@ =~= "data:"@.push(' '));
    let text = text::lossy_text(without_cr(line));
    assert(state.event.push('\n') =~= state.event + "\n"@);
    if text == "data: "@ + data {
        assert("data:"@.is_prefix_of(text));
        assert(text.subrange(5, text.len() as int).drop_first() =~= data);
        assert(state.event.len() == 0 ==> state.event + data =~= data);
    }
    if text == "data:"@ + data && (data.len() == 0 || data[0] != ' ') {
        assert("data:"@.is_prefix_of(text));
        assert(text.subrange(5, text.len() as int) =~= data);
        assert(state.event.len() == 0 ==> state.event + data =~= data);
    }
}

/// The end of a body leaves nothing open: every call goes out, and with no line and no
/// event under way those are all that does.
pub proof fn the_end_leaves_nothing_open(state: DecoderModel)
    requires
        !state.done,
    ensures
        ended(state).state.calls.len() == 0,
        ended(state).state.event.len() == 0,
        state.line.len() == 0 && text::trimmed(state.event).len() == 0 ==> calls_sent(
            ended(state).out,
        ) == state.calls && ended(state).out.len() == state.calls.len(),
{
    reveal_strlit("[DONE]");
    assert("[DONE]"@.len() == 6);
    lemma_calls_sent_of_calls(state.calls);
    let line = if state.line.len() > 0 {
        line_step(DecoderModel { line: Seq::empty(), ..state }, state.line)
    } else {
        Step { state, out: Seq::empty() }
    };
    the_announced_end_sends_out_every_call(line.state);
    if state.line.len() == 0 && text::trimmed(state.event).len() == 0 {
        let empty = Seq::<Emission>::empty();
        assert((empty + empty) + call_emissions(state.calls) =~= call_emissions(state.calls));
    }
}

/// A whole completion says its message: the content as it is, and then each call with
/// the position, the id, the name and the arguments that it came with, in order. A
/// completion that reports an error says that alone.
pub proof fn a_whole_completion_says_its_message(document: JsonModel, i: int)
    ensures
        match chunk::response_of(document) {
            Some(response) => match response.error {
                Some(error) => response_emissions(document) =~= seq![
                    Emission::Failure(LmErrorModel::ProviderStream(wire::error_message(error))),
                ],
                None => if response.choices.len() == 0 {
                    response_emissions(document).len() == 0
                } else {
                    let message = response.choices[0];
                    let calls = calls_sent(response_emissions(document));
                    &&& speech(response_emissions(document)) == (match message.content {
                        Some(content) => content,
                        None => Seq::empty(),
                    })
                    &&& calls.len() == message.tool_calls.len()
                    &&& 0 <= i < calls.len() ==> {
                        &&& calls[i].index == position_of(message.tool_calls[i])
                        &&& calls[i].id == message.tool_calls[i].id
                        &&& calls[i].name == name_brought(message.tool_calls[i])
                        &&& calls[i].arguments == text_brought(message.tool_calls[i])
                    }
                },
            },
            None => response_emissions(document) =~= seq![
                Emission::Failure(
                    LmErrorModel::ProviderStream("undecodable completion: unexpected shape"@),
                ),
            ],
        },
{
    match chunk::response_of(document) {
        Some(response) => if response.error is None && response.choices.len() > 0 {
            let message = response.choices[0];
            let content = content_emissions(message.content);
            let calls = message.tool_calls.map_values(
                |fragment: FragmentModel| whole_call(fragment),
            );
            assert(call_emissions(calls) =~= message.tool_calls.map_values(
                |fragment: FragmentModel| Emission::Call(whole_call(fragment)),
            ));
            lemma_speech_join(content, call_emissions(calls));
            lemma_calls_are_silent(call_emissions(calls));
            lemma_calls_sent_join(content, call_emissions(calls));
            lemma_calls_sent_of_calls(calls);
            if content.len() > 0 {
                assert(content.drop_last() =~= Seq::empty());
                assert(calls_sent(content.drop_last()) =~= Seq::empty());
                assert(speech(content.drop_last()) == Seq::<char>::empty());
            }
            assert(calls_sent(content) =~= Seq::empty());
            assert(Seq::<CallModel>::empty() + calls =~= calls);
            assert(speech(content) + Seq::<char>::empty() =~= match message.content {
                Some(content) => content,
                None => Seq::empty(),
            });
        },
        None => {},
    }
}

/// What was not ended is read all the same: the end of a body does what ending its last
/// line would have done before, and ending its last event before that.
pub proof fn what_was_not_ended_is_read(state: DecoderModel)
    requires
        !state.done,
    ensures
        state.line.len() > 0 ==> ended(state).out == fed(state, seq![10u8]).out + ended(
            fed(state, seq![10u8]).state,
        ).out,
        state.line.len() == 0 ==> ended(state).out == dispatched(state).out + ended(
            dispatched(state).state,
        ).out,
{
    reveal_strlit("[DONE]");
    assert("[DONE]"@.len() == 6);
    let end = seq![10u8];
    assert(end.drop_last() =~= Seq::empty());
    assert(fed(state, end.drop_last()) == (Step { state, out: Seq::empty() }));
    assert(end.last() == 10);
    let empty = Seq::<Emission>::empty();
    let line = if state.line.len() > 0 {
        line_step(DecoderModel { line: Seq::empty(), ..state }, state.line)
    } else {
        Step { state, out: Seq::empty() }
    };
    assert(text::trimmed(Seq::<char>::empty()).len() == 0);
    if state.line.len() > 0 {
        assert(fed(state, end).out =~= line.out);
        assert(fed(state, end).state == line.state);
        let next = line.state;
        lemma_a_line_that_ends_the_stream(
            DecoderModel { line: Seq::empty(), ..state },
            state.line,
        );
        let read = dispatched(next);
        let sent = call_emissions(read.state.calls);
        assert(ended(state).out =~= line.out + (read.out + sent));
        if next.done {
            assert(read.out =~= empty);
            assert(sent =~= empty);
            assert(ended(next).out =~= empty);
        } else {
            assert((empty + read.out) + sent =~= read.out + sent);
        }
    } else {
        let read = dispatched(state);
        let sent = call_emissions(read.state.calls);
        the_announced_end_sends_out_every_call(state);
        assert(ended(state).out =~= read.out + sent);
        let again = dispatched(read.state);
        assert(read.state.event =~= Seq::empty());
        assert(again.out =~= empty);
        if read.state.done {
            assert(sent =~= empty);
            assert(ended(read.state).out =~= empty);
        } else {
            lemma_reading_a_line_keeps_none(state);
            assert(ended(read.state).out =~= (empty + again.out) + call_emissions(
                again.state.calls,
            ));
            assert(again.state.calls == read.state.calls);
            assert(ended(read.state).out =~= sent);
        }
    }
}

proof fn lemma_reading_a_line_keeps_none(state: DecoderModel)
    requires
        state.line.len() == 0,
    ensures
        dispatched(state).state.line.len() == 0,
{
    the_announced_end_sends_out_every_call(state);
}

proof fn lemma_a_line_that_ends_the_stream(state: DecoderModel, line: Seq<u8>)
    requires
        !state.done,
        state.line.len() == 0,
    ensures
        line_step(state, line).state.line.len() == 0,
        line_step(state, line).state.done ==> line_step(state, line).state.calls.len() == 0
            && line_step(state, line).state.event.len() == 0,
{
    the_announced_end_sends_out_every_call(state);
}

/// A line is read when its newline comes, and not before: until then it is kept whole.
pub proof fn lines_are_read_when_they_end(state: DecoderModel, line: Seq<u8>)
    requires
        !state.done,
        forall|i: int| 0 <= i < line.len() ==> #[trigger] line[i] != 10,
    ensures
        fed(state, line).out.len() == 0,
        fed(state, line).state == (DecoderModel { line: state.line + line, ..state }),
        fed(state, line.push(10)).out == line_step(
            DecoderModel { line: Seq::empty(), ..state },
            state.line + line,
        ).out,
        fed(state, line.push(10)).state == line_step(
            DecoderModel { line: Seq::empty(), ..state },
            state.line + line,
        ).state,
    decreases line.len(),
{
    if line.len() == 0 {
        assert(state.line + line =~= state.line);
    } else {
        let front = line.drop_last();
        assert forall|i: int| 0 <= i < front.len() implies #[trigger] front[i] != 10 by {
            assert(front[i] == line[i]);
        }
        lines_are_read_when_they_end(state, front);
        assert(line[line.len() - 1] != 10);
        assert((state.line + front).push(line.last()) =~= state.line + line);
        assert(fed(state, line).out =~= Seq::empty());
    }
    assert(line.push(10).drop_last() =~= line);
    assert(line.push(10).last() == 10);
    let step = line_step(DecoderModel { line: Seq::empty(), ..state }, state.line + line);
    assert(fed(state, line).out + step.out =~= step.out);
}

/// What goes out for a call is the call with its own id, its own name and the document that
/// its arguments are, where it has all of these.
pub proof fn items_are_the_calls_they_say(
    item: Result<ModelDelta, LmError>,
    call: CallModel,
    id: Seq<char>,
    members: Map<Seq<char>, JsonModel>,
)
    requires
        item_says(item, Emission::Call(call)),
        call.id == Some(id),
        id.len() > 0,
        call.name.len() > 0,
        text::trimmed(call.arguments).len() > 0,
        json::parsed_text(text::trimmed(call.arguments)) == Ok::<JsonModel, Seq<char>>(
            JsonModel::Object(members),
        ),
    ensures
        item matches Ok(ModelDelta::ToolCall(sent)) && {
            &&& sent.id@ == id
            &&& sent.name@ == call.name
            &&& sent.arguments_json@ == json::rendered(JsonModel::Object(members))
        },
{
}

/// Text goes out as it is.
pub proof fn items_are_the_text_they_say(item: Result<ModelDelta, LmError>, text: Seq<char>)
    requires
        item_says(item, Emission::Text(text)),
    ensures
        item matches Ok(ModelDelta::Text(said)) && said@ == text,
{
}

/// The last chunk of a turn leaves no call open: all that was open, and all that the chunk
/// brings, has gone out.
pub proof fn the_last_chunk_leaves_nothing_open(state: DecoderModel, chunk: ChunkModel)
    requires
        chunk.error is None,
        chunk.choices.len() > 0,
        chunk.choices[0].finish_reason is Some,
    ensures
        chunk_step(state, chunk).state.calls.len() == 0,
{
}

proof fn lemma_filter_members(
    calls: Seq<CallModel>,
    keep: spec_fn(CallModel) -> bool,
    i: int,
)
    requires
        0 <= i < calls.filter(keep).len(),
    ensures
        keep(calls.filter(keep)[i]),
        calls.contains(calls.filter(keep)[i]),
{
    lemma_filter_keeps_exactly(calls, keep, calls.filter(keep)[i]);
    assert(calls.filter(keep).contains(calls.filter(keep)[i]));
}

/// The calls that one fragment sends out go in the order of their positions, the one at its
/// own position last; and where a chunk ends the turn, what is still open goes out behind
/// what its fragments sent, in the order of its positions too.
pub proof fn calls_go_out_in_order(
    calls: Seq<CallModel>,
    fragment: FragmentModel,
    state: DecoderModel,
    chunk: ChunkModel,
)
    requires
        in_order(calls),
        in_order(state.calls),
    ensures
        in_order(calls_sent(accumulated(calls, fragment).1)),
        chunk.error is None && chunk.choices.len() > 0 ==> {
            let read = accumulated_all(state.calls, chunk.choices[0].delta.tool_calls);
            &&& chunk.choices[0].finish_reason is Some ==> calls_sent(
                chunk_step(state, chunk).out,
            ) == calls_sent(read.1) + read.0
            &&& chunk.choices[0].finish_reason is None ==> calls_sent(
                chunk_step(state, chunk).out,
            ) == calls_sent(read.1) && chunk_step(state, chunk).state.calls == read.0
            &&& in_order(read.0)
        },
{
    let position = position_of(fragment);
    let kept = staying(calls, position);
    let gone = going(calls, position);
    let (open, place, superseded) = placed(kept, position, records::nonempty(fragment.id));
    let here = |call: CallModel| call.index == position;
    let goes = |call: CallModel| goes_early(call, position);
    lemma_filter_in_order(calls, goes);
    lemma_first_where_is_first(kept, here);
    let at = first_where(kept, here);
    if at < kept.len() {
        assert(here(kept[at]));
    }
    lemma_calls_sent_join(call_emissions(gone), superseded);
    lemma_calls_sent_of_calls(gone);
    let last = calls_sent(superseded);
    if superseded.len() == 0 {
        assert(last =~= Seq::empty());
    } else {
        assert(superseded.drop_last() =~= Seq::empty());
        assert(calls_sent(superseded.drop_last()) =~= Seq::empty());
        assert(last =~= seq![kept[at]]);
    }
    let sent = calls_sent(accumulated(calls, fragment).1);
    assert(sent == gone + last);
    assert forall|i: int, j: int| 0 <= i < j < sent.len() implies sent[i].index
        < sent[j].index by {
        if j >= gone.len() {
            lemma_filter_members(calls, goes, i);
        }
    }
    if chunk.error is None && chunk.choices.len() > 0 {
        let choice = chunk.choices[0];
        let read = accumulated_all(state.calls, choice.delta.tool_calls);
        let content = content_emissions(choice.delta.content);
        lemma_all_fragments_in_order(state.calls, choice.delta.tool_calls);
        lemma_calls_sent_join(content, read.1);
        if content.len() > 0 {
            assert(content.drop_last() =~= Seq::empty());
            assert(calls_sent(content.drop_last()) =~= Seq::empty());
        }
        assert(calls_sent(content) =~= Seq::empty());
        assert(calls_sent(content) + calls_sent(read.1) =~= calls_sent(read.1));
        lemma_calls_sent_join(content + read.1, call_emissions(read.0));
        lemma_calls_sent_of_calls(read.0);
    }
}

/// A body that is no JSON is one failure that tells why, and any other says what its
/// document does.
pub proof fn a_body_says_what_its_document_does(bytes: Seq<u8>)
    ensures
        match json::parsed_bytes(bytes) {
            Ok(document) => body_emissions(bytes) == response_emissions(document),
            Err(message) => body_emissions(bytes) =~= seq![
                Emission::Failure(
                    LmErrorModel::ProviderStream("undecodable completion: "@ + message),
                ),
            ],
        },
{
}

/// Items say what was read one for one: as many as there are, each in its place.
pub proof fn items_say_everything_in_order(
    items: Seq<Result<ModelDelta, LmError>>,
    out: Seq<Emission>,
    i: int,
    text: Seq<char>,
)
    requires
        items_say(items, out),
        0 <= i < out.len(),
        out[i] == Emission::Text(text),
    ensures
        items.len() == out.len(),
        items[i] matches Ok(ModelDelta::Text(said)) && said@ == text,
{
    items_are_the_text_they_say(items[i], text);
}

proof fn lemma_texts_brought_join(
    first: Seq<FragmentModel>,
    second: Seq<FragmentModel>,
    index: u32,
)
    ensures
        texts_brought(first + second, index) == texts_brought(first, index) + texts_brought(
            second,
            index,
        ),
    decreases second.len(),
{
    if second.len() == 0 {
        assert(first + second =~= first);
        assert(texts_brought(first, index) + Seq::<char>::empty() =~= texts_brought(first, index));
    } else {
        lemma_texts_brought_join(first, second.drop_last(), index);
        assert((first + second).drop_last() =~= first + second.drop_last());
        assert((first + second).last() == second.last());
        let head = texts_brought(first, index) + texts_brought(second.drop_last(), index);
        assert(head + text_brought(second.last()) =~= texts_brought(first, index) + (texts_brought(
            second.drop_last(),
            index,
        ) + text_brought(second.last())));
    }
}

/// The fragments that an event brings: those of the chunk that it is.
pub open spec fn fragments_of_event(event: Seq<char>) -> Seq<FragmentModel> {
    let body = text::trimmed(event);
    if body.len() == 0 || body == "[DONE]"@ {
        Seq::empty()
    } else {
        match json::parsed_text(body) {
            Ok(document) => match chunk::chunk_of(document) {
                Some(chunk) => fragments_brought(chunk),
                None => Seq::empty(),
            },
            Err(_) => Seq::empty(),
        }
    }
}

/// The fragments that a body brings, event by event: an event ends with an empty line.
pub open spec fn fragments_of_body(state: DecoderModel, bytes: Seq<u8>) -> Seq<FragmentModel>
    decreases bytes.len(),
{
    if bytes.len() == 0 {
        Seq::empty()
    } else {
        let before = fed(state, bytes.drop_last()).state;
        fragments_of_body(state, bytes.drop_last()) + (if !before.done && bytes.last() == 10
            && text::lossy_text(without_cr(before.line)).len() == 0 {
            fragments_of_event(before.event)
        } else {
            Seq::empty()
        })
    }
}

proof fn lemma_an_event_keeps_texts(state: DecoderModel, index: u32)
    requires
        in_order(state.calls),
    ensures
        texts_held(calls_sent(dispatched(state).out), index) + texts_held(
            dispatched(state).state.calls,
            index,
        ) == texts_held(state.calls, index) + texts_brought(
            fragments_of_event(state.event),
            index,
        ),
{
    let event = text::trimmed(state.event);
    let cleared = DecoderModel { event: Seq::empty(), ..state };
    let step = dispatched(state);
    let sent = texts_held(calls_sent(step.out), index);
    let still = texts_held(step.state.calls, index);
    let held = texts_held(state.calls, index);
    let brought = texts_brought(fragments_of_event(state.event), index);
    assert(texts_held(Seq::<CallModel>::empty(), index) == Seq::<char>::empty());
    assert(texts_brought(Seq::<FragmentModel>::empty(), index) == Seq::<char>::empty());
    if event.len() == 0 {
        assert(calls_sent(step.out) =~= Seq::empty());
        assert(sent + still =~= held + brought);
    } else if event == "[DONE]"@ {
        lemma_calls_sent_of_calls(state.calls);
        assert(sent + still =~= held + brought);
    } else {
        let fails = match json::parsed_text(event) {
            Ok(document) => chunk::chunk_of(document) is None,
            Err(_) => true,
        };
        if fails {
            assert(step.out.drop_last() =~= Seq::empty());
            assert(calls_sent(step.out.drop_last()) =~= Seq::empty());
            assert(calls_sent(step.out) =~= Seq::empty());
            assert(sent + still =~= held + brought);
        } else {
            let chunk = chunk::chunk_of(json::parsed_text(event)->Ok_0)->0;
            lemma_a_chunk_keeps_texts(cleared, chunk, index);
        }
    }
}

/// Whatever a body holds and however far it has come, the arguments of the calls at a
/// position, gone out or still open, are the concatenation of the arguments that the
/// fragments of its events brought for that position, in order and character for character.
pub proof fn arguments_of_a_body_are_its_fragments_joined(bytes: Seq<u8>, index: u32)
    ensures
        texts_held(calls_sent(fed(fresh(), bytes).out), index) + texts_held(
            fed(fresh(), bytes).state.calls,
            index,
        ) == texts_brought(fragments_of_body(fresh(), bytes), index),
    decreases bytes.len(),
{
    let step = fed(fresh(), bytes);
    if bytes.len() == 0 {
        assert(texts_held(calls_sent(step.out), index) + texts_held(step.state.calls, index)
            =~= texts_brought(fragments_of_body(fresh(), bytes), index));
    } else {
        arguments_of_a_body_are_its_fragments_joined(bytes.drop_last(), index);
        open_calls_stay_in_order(fresh(), bytes.drop_last());
        let before = fed(fresh(), bytes.drop_last());
        let last = byte_step(before.state, bytes.last());
        let more = if !before.state.done && bytes.last() == 10 && text::lossy_text(
            without_cr(before.state.line),
        ).len() == 0 {
            fragments_of_event(before.state.event)
        } else {
            Seq::empty()
        };
        lemma_texts_brought_join(fragments_of_body(fresh(), bytes.drop_last()), more, index);
        lemma_calls_sent_join(before.out, last.out);
        lemma_texts_held_join(calls_sent(before.out), calls_sent(last.out), index);
        let first = texts_held(calls_sent(before.out), index);
        let second = texts_held(calls_sent(last.out), index);
        let open = texts_held(last.state.calls, index);
        let held = texts_held(before.state.calls, index);
        let brought = texts_brought(more, index);
        assert(texts_held(Seq::<CallModel>::empty(), index) == Seq::<char>::empty());
        if !before.state.done && bytes.last() == 10 {
            let cleared = DecoderModel { line: Seq::empty(), ..before.state };
            if text::lossy_text(without_cr(before.state.line)).len() == 0 {
                lemma_an_event_keeps_texts(cleared, index);
            } else {
                assert(calls_sent(last.out) =~= Seq::empty());
                assert(second + open =~= held + brought);
            }
        } else {
            assert(calls_sent(last.out) =~= Seq::empty());
            assert(second + open =~= held + brought);
        }
        assert((first + second) + open =~= first + (second + open));
        assert(first + (held + brought) =~= (first + held) + brought);
    }
}

/// A fragment's arguments are added to a call's as they are, and its name and its id only
/// where the call has none.
pub proof fn merging_adds_the_text_as_it_is(
    call: &mut OpenCall,
    fragment: &ToolCallFragment,
    name: Seq<char>,
    text: Seq<char>,
)
    requires
        call_ensures(OpenCall::merge, (call, fragment), ()),
        fragment.function matches Some(function) && records::optional_view(function.arguments)
            == Some(text) && records::optional_view(function.name) == Some(name),
    ensures
        final(call).arguments@ == old(call).arguments@ + text,
        final(call).name@ == (if old(call).name@.len() > 0 {
            old(call).name@
        } else {
            name
        }),
        old(call).id is Some ==> records::optional_view(final(call).id)
            == records::optional_view(old(call).id),
        final(call).index == old(call).index,
{
}

/// A decoder that has seen nothing gives out, slice by slice, what the body says: the calls
/// among its items have the arguments that the fragments of the body brought, in order and
/// character for character.
pub proof fn decoding_joins_the_fragments(
    decoder: &mut SseDecoder,
    bytes: &[u8],
    out: Vec<Result<ModelDelta, LmError>>,
    index: u32,
)
    requires
        call_ensures(SseDecoder::push, (decoder, bytes), out),
        old(decoder)@ == (DecoderModel {
            line: Seq::empty(),
            event: Seq::empty(),
            calls: Seq::empty(),
            done: false,
        }),
    ensures
        exists|sent: Seq<Emission>| #[trigger]
            items_say(out@, sent) && texts_held(calls_sent(sent), index) + texts_held(
                final(decoder)@.calls,
                index,
            ) == texts_brought(fragments_of_body(old(decoder)@, bytes@), index),
{
    arguments_of_a_body_are_its_fragments_joined(bytes@, index);
    assert(items_say(out@, fed(old(decoder)@, bytes@).out));
}

/// What [`flush`] gives for a call that has an id, a name and an object for its arguments
/// is that call.
pub proof fn flushing_keeps_the_call(
    call: OpenCall,
    item: Result<ModelDelta, LmError>,
    id: Seq<char>,
    members: Map<Seq<char>, JsonModel>,
)
    requires
        call_ensures(flush, (call,), item),
        records::optional_view(call.id) == Some(id),
        id.len() > 0,
        call.name@.len() > 0,
        text::trimmed(call.arguments@).len() > 0,
        json::parsed_text(text::trimmed(call.arguments@)) == Ok::<JsonModel, Seq<char>>(
            JsonModel::Object(members),
        ),
    ensures
        item matches Ok(ModelDelta::ToolCall(sent)) && {
            &&& sent.id@ == id
            &&& sent.name@ == call.name@
            &&& sent.arguments_json@ == json::rendered(JsonModel::Object(members))
        },
{
}

} // verus!
