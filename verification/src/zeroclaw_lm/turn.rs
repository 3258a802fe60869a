//! One `session/prompt` turn, from its prompt to its end.
use vstd::prelude::*;
use vstd::string::*;
use crate::ids;
use crate::json;
use crate::json::{Json, JsonModel};
use crate::lm;
use crate::lm::{DeltaModel, LmError, LmErrorModel, ModelDelta};
use crate::records;
use crate::text;
use crate::zeroclaw_lm::client::{Incoming, IncomingModel};
use crate::zeroclaw_lm::protocol;
use crate::zeroclaw_lm::protocol::{
    RpcErrorModel, RpcErrorObject, SessionUpdate, TurnOutcome, UpdateKind, UpdateModel,
};

verus! {

/// How a turn ended for the connection that ran it.
#[derive(Debug, Clone, Copy, PartialEq, Eq, Structural)]
pub enum TurnEnd {
    /// The turn came to its end, or was refused or given up.
    Done,
    /// The connection is gone.
    ConnDown,
    /// A shutdown was asked for.
    Shutdown,
}

/// Something that happens during a turn.
#[derive(Debug)]
pub enum TurnEvent {
    /// A shutdown was asked for, or nobody is left to ask for anything.
    Shutdown,
    /// Another generation was asked for.
    Generate,
    /// The cancellation epoch moved to `latest`.
    CancelChanged { latest: u64 },
    /// The cancellation could not be sent.
    CancelFailed,
    /// The connection's reader is gone.
    ReaderEnded,
    /// A message came.
    Message(Incoming),
    /// The time to wait for the turn's end after the response to its prompt is over.
    GraceElapsed,
    /// A piece of text found nobody to take it.
    StreamDropped,
}

/// What a [`TurnEvent`] says.
pub enum TurnEventModel {
    Shutdown,
    Generate,
    CancelChanged { latest: u64 },
    CancelFailed,
    ReaderEnded,
    Message(IncomingModel),
    GraceElapsed,
    StreamDropped,
}

impl View for TurnEvent {
    type V = TurnEventModel;

    open spec fn view(&self) -> TurnEventModel {
        match self {
            TurnEvent::Shutdown => TurnEventModel::Shutdown,
            TurnEvent::Generate => TurnEventModel::Generate,
            TurnEvent::CancelChanged { latest } => TurnEventModel::CancelChanged { latest: *latest },
            TurnEvent::CancelFailed => TurnEventModel::CancelFailed,
            TurnEvent::ReaderEnded => TurnEventModel::ReaderEnded,
            TurnEvent::Message(incoming) => TurnEventModel::Message(incoming@),
            TurnEvent::GraceElapsed => TurnEventModel::GraceElapsed,
            TurnEvent::StreamDropped => TurnEventModel::StreamDropped,
        }
    }
}

/// What to do about a generation that was asked for, or about a cancellation.
#[derive(Debug)]
pub enum TurnCommand {
    /// Send `session/cancel`.
    SendCancel,
    /// Keep the generation until this turn is over.
    Queue,
    /// Answer the generation with this error.
    Refuse(LmError),
}

/// What a [`TurnCommand`] says.
pub enum CommandModel {
    SendCancel,
    Queue,
    Refuse(LmErrorModel),
}

/// What an optional command says.
pub open spec fn optional_command(command: Option<TurnCommand>) -> Option<CommandModel> {
    match command {
        Some(TurnCommand::SendCancel) => Some(CommandModel::SendCancel),
        Some(TurnCommand::Queue) => Some(CommandModel::Queue),
        Some(TurnCommand::Refuse(error)) => Some(CommandModel::Refuse(error@)),
        None => None,
    }
}

/// Something worth a line in a log.
#[derive(Debug)]
pub enum Notice {
    /// The provider did not stream the turn, so speech starts late.
    NotStreamed,
    /// The response to the prompt came, and the turn's end did not.
    ResponseOnly,
    /// A tool waits for an approval that cannot be given here.
    Approval { tool_name: String },
    /// The daemon dropped messages from the session's history.
    Trimmed { dropped_messages: u64, reason: String },
}

/// What a [`Notice`] says.
pub enum NoticeModel {
    NotStreamed,
    ResponseOnly,
    Approval { tool_name: Seq<char> },
    Trimmed { dropped_messages: u64, reason: Seq<char> },
}

/// What an optional notice says.
pub open spec fn optional_notice(notice: Option<Notice>) -> Option<NoticeModel> {
    match notice {
        Some(Notice::NotStreamed) => Some(NoticeModel::NotStreamed),
        Some(Notice::ResponseOnly) => Some(NoticeModel::ResponseOnly),
        Some(Notice::Approval { tool_name }) => Some(
            NoticeModel::Approval { tool_name: tool_name@ },
        ),
        Some(Notice::Trimmed { dropped_messages, reason }) => Some(
            NoticeModel::Trimmed { dropped_messages, reason: reason@ },
        ),
        None => None,
    }
}

/// The line that a notice is worth.
pub open spec fn notice_text(notice: NoticeModel) -> Seq<char> {
    match notice {
        NoticeModel::NotStreamed =>
            "turn was not streamed by the provider; time-to-first-audio degrades (check the agent profile's provider streaming support)"@,
        NoticeModel::ResponseOnly =>
            "turn terminal arrived as the RPC response only (no turn_complete); treating it as completed"@,
        NoticeModel::Approval { tool_name } => "approval_request for tool "@ + text::quoted(
            tool_name,
        )
            + " cannot be answered from the voice loop; the turn stalls until it times out (remove approval gating from the voice agent profile)"@,
        NoticeModel::Trimmed { dropped_messages, reason } => "daemon trimmed "@
            + text::decimal_digits(dropped_messages as nat)
            + " message(s) from session history ("@ + reason + ")"@,
    }
}

impl Notice {
    /// The line that the notice is worth.
    pub fn message(&self) -> (line: String)
        ensures
            optional_notice(Some(*self)) matches Some(notice) && line@ == notice_text(notice),
    {
        match self {
            Notice::NotStreamed =>
                "turn was not streamed by the provider; time-to-first-audio degrades (check the agent profile's provider streaming support)".to_owned(),
            Notice::ResponseOnly =>
                "turn terminal arrived as the RPC response only (no turn_complete); treating it as completed".to_owned(),
            Notice::Approval { tool_name } => {
                let mut line = "approval_request for tool ".to_owned();
                line.append(text::quote(tool_name.as_str()).as_str());
                line.append(
                    " cannot be answered from the voice loop; the turn stalls until it times out (remove approval gating from the voice agent profile)",
                );
                line
            },
            Notice::Trimmed { dropped_messages, reason } => {
                let mut line = "daemon trimmed ".to_owned();
                line.append(text::decimal(*dropped_messages).as_str());
                line.append(" message(s) from session history (");
                line.append(reason.as_str());
                line.append(")");
                line
            },
        }
    }
}

/// One item that a turn yields.
pub enum Utterance {
    /// Text.
    Text(Seq<char>),
    /// A tool call to show; under which id, where the daemon gave none, is open.
    Tool { id: Option<Seq<char>>, name: Seq<char>, input: JsonModel },
    /// A failure.
    Failure(LmErrorModel),
}

/// Whether `id` may be the id that a tool call is shown under.
pub open spec fn may_show_as(given: Option<Seq<char>>, id: Seq<char>) -> bool {
    match given {
        Some(given) => id == given,
        None => ids::is_prefixed(id, "zc-"@),
    }
}

/// Whether `item` says what `utterance` says.
pub open spec fn item_utters(item: Result<ModelDelta, LmError>, utterance: Utterance) -> bool {
    match utterance {
        Utterance::Text(text) => lm::item_model(item) == Ok::<DeltaModel, LmErrorModel>(
            DeltaModel::Text(text),
        ),
        Utterance::Tool { id, name, input } => exists|shown: Seq<char>| #[trigger]
            may_show_as(id, shown) && lm::item_model(item) == lm::tool_call_model(
                shown,
                name,
                input,
            ),
        Utterance::Failure(error) => lm::item_model(item) == Err::<DeltaModel, LmErrorModel>(error),
    }
}

/// Whether `items` say what `utterances` say, one by one.
pub open spec fn items_utter(
    items: Seq<Result<ModelDelta, LmError>>,
    utterances: Seq<Utterance>,
) -> bool {
    &&& items.len() == utterances.len()
    &&& forall|i: int| 0 <= i < items.len() ==> item_utters(#[trigger] items[i], utterances[i])
}

/// One turn in flight.
#[derive(Debug)]
pub struct Turn {
    session_id: String,
    surface_tool_calls: bool,
    epoch: u64,
    prompt_id: u64,
    chunks_seen: bool,
    suppressed: bool,
    cancel_requested: bool,
    fallback_content: Option<String>,
    queued: bool,
    text_ends_in_whitespace: bool,
}

/// What a [`Turn`] stands for.
pub struct TurnModel {
    /// The session the turn runs in.
    pub session_id: Seq<char>,
    /// Whether tool calls are shown.
    pub surface_tool_calls: bool,
    /// The epoch the turn began in.
    pub epoch: u64,
    /// The request that the prompt went out as.
    pub prompt_id: u64,
    /// Whether any text came.
    pub chunks_seen: bool,
    /// Whether nothing more is to be said.
    pub suppressed: bool,
    /// Whether a cancellation was sent.
    pub cancel_requested: bool,
    /// The reply in the response to the prompt, once that came.
    pub fallback_content: Option<Seq<char>>,
    /// Whether another generation waits for this one.
    pub queued: bool,
    /// Whether the text so far ends in white space, or there is none. The daemon puts the
    /// texts of a turn's rounds together with nothing between them; white space at a tool
    /// boundary lets the sentence before it be spoken while the tool runs.
    pub text_ends_in_whitespace: bool,
}

impl View for Turn {
    type V = TurnModel;

    closed spec fn view(&self) -> TurnModel {
        TurnModel {
            session_id: self.session_id@,
            surface_tool_calls: self.surface_tool_calls,
            epoch: self.epoch,
            prompt_id: self.prompt_id,
            chunks_seen: self.chunks_seen,
            suppressed: self.suppressed,
            cancel_requested: self.cancel_requested,
            fallback_content: records::optional_view(self.fallback_content),
            queued: self.queued,
            text_ends_in_whitespace: self.text_ends_in_whitespace,
        }
    }
}

/// A turn whose prompt just went out.
pub open spec fn fresh_turn(
    session_id: Seq<char>,
    surface_tool_calls: bool,
    epoch: u64,
    prompt_id: u64,
) -> TurnModel {
    TurnModel {
        session_id,
        surface_tool_calls,
        epoch,
        prompt_id,
        chunks_seen: false,
        suppressed: false,
        cancel_requested: false,
        fallback_content: None,
        queued: false,
        text_ends_in_whitespace: true,
    }
}

/// What an event leads to.
#[derive(Debug)]
pub struct TurnStep {
    /// What to say, in order. If a chunk of the reply finds nobody to take it,
    /// [`TurnEvent::StreamDropped`] tells so.
    pub deltas: Vec<Result<ModelDelta, LmError>>,
    pub command: Option<TurnCommand>,
    pub notice: Option<Notice>,
    /// How the turn ended, if it did.
    pub end: Option<TurnEnd>,
}

/// What a [`TurnStep`] says, and what the turn becomes.
pub struct StepModel {
    pub state: TurnModel,
    pub out: Seq<Utterance>,
    pub command: Option<CommandModel>,
    pub notice: Option<NoticeModel>,
    pub end: Option<TurnEnd>,
}

/// Whether `step` and the turn `after` it are what `model` says.
pub open spec fn step_is(step: TurnStep, after: TurnModel, model: StepModel) -> bool {
    &&& after == model.state
    &&& items_utter(step.deltas@, model.out)
    &&& optional_command(step.command) == model.command
    &&& optional_notice(step.notice) == model.notice
    &&& step.end == model.end
}

/// Nothing follows but that the turn becomes `state`.
pub open spec fn quiet(state: TurnModel) -> StepModel {
    StepModel { state, out: Seq::empty(), command: None, notice: None, end: None }
}

/// The turn ends, and says `out` before where it may still say something.
pub open spec fn ending(state: TurnModel, out: Seq<Utterance>, end: TurnEnd) -> StepModel {
    StepModel {
        out: if state.suppressed {
            Seq::empty()
        } else {
            out
        },
        end: Some(end),
        ..quiet(state)
    }
}

/// The failure `message`.
pub open spec fn failure(message: Seq<char>) -> Seq<Utterance> {
    seq![Utterance::Failure(LmErrorModel::Engine(message))]
}

/// Whether a tool boundary owes white space.
pub open spec fn owes_gap(state: TurnModel) -> bool {
    !state.suppressed && state.chunks_seen && !state.text_ends_in_whitespace
}

/// The turn after a tool boundary.
pub open spec fn after_boundary(state: TurnModel) -> TurnModel {
    TurnModel {
        text_ends_in_whitespace: state.text_ends_in_whitespace || owes_gap(state),
        ..state
    }
}

/// What a tool boundary says.
pub open spec fn boundary(state: TurnModel) -> Seq<Utterance> {
    if owes_gap(state) {
        seq![Utterance::Text(" "@)]
    } else {
        Seq::empty()
    }
}

/// The tool call to show, if it can be: it has a name, and an object for its input.
pub open spec fn shown_call(
    state: TurnModel,
    tool_call_id: Seq<char>,
    name: Seq<char>,
    input: JsonModel,
) -> Seq<Utterance> {
    if !state.suppressed && state.surface_tool_calls && name.len() > 0 && input is Object {
        seq![Utterance::Tool { id: records::nonempty(Some(tool_call_id)), name, input }]
    } else {
        Seq::empty()
    }
}

/// The end of a turn whose reply is `content`: what was not streamed is said now.
pub open spec fn reply_step(state: TurnModel, content: Seq<char>, notice: NoticeModel) -> StepModel {
    if !state.suppressed && !state.chunks_seen && text::trimmed(content).len() > 0 {
        StepModel {
            notice: Some(notice),
            ..ending(state, seq![Utterance::Text(content)], TurnEnd::Done)
        }
    } else {
        ending(state, Seq::empty(), TurnEnd::Done)
    }
}

/// What an update leads to. One of another session leads to nothing.
pub open spec fn update_step(state: TurnModel, update: UpdateModel) -> StepModel {
    if update.session_id != Some(state.session_id) {
        quiet(state)
    } else {
        match update.kind {
            UpdateKind::MessageChunk { text } => if text.len() == 0 {
                quiet(state)
            } else {
                StepModel {
                    out: if state.suppressed {
                        Seq::empty()
                    } else {
                        seq![Utterance::Text(text)]
                    },
                    ..quiet(
                        TurnModel {
                            chunks_seen: true,
                            text_ends_in_whitespace: text::is_space(text.last()),
                            ..state
                        },
                    )
                }
            },
            UpdateKind::ToolCall { tool_call_id, name, raw_input } => StepModel {
                out: boundary(state) + shown_call(state, tool_call_id, name, raw_input),
                ..quiet(after_boundary(state))
            },
            UpdateKind::ToolResult => StepModel {
                out: boundary(state),
                ..quiet(after_boundary(state))
            },
            UpdateKind::TurnComplete { outcome, content } => match outcome {
                TurnOutcome::Completed => reply_step(state, content, NoticeModel::NotStreamed),
                TurnOutcome::Cancelled => ending(state, Seq::empty(), TurnEnd::Done),
                TurnOutcome::Failed => ending(
                    state,
                    failure(
                        if text::trimmed(content).len() == 0 {
                            "zeroclaw turn failed"@
                        } else {
                            content
                        },
                    ),
                    TurnEnd::Done,
                ),
            },
            UpdateKind::ApprovalRequest { tool_name } => StepModel {
                notice: Some(NoticeModel::Approval { tool_name }),
                ..quiet(state)
            },
            UpdateKind::HistoryTrimmed { dropped_messages, reason } => StepModel {
                notice: Some(NoticeModel::Trimmed { dropped_messages, reason }),
                ..quiet(state)
            },
            UpdateKind::ThoughtChunk => quiet(state),
            UpdateKind::ContextUsage => quiet(state),
            UpdateKind::Plan => quiet(state),
            UpdateKind::Unknown => quiet(state),
        }
    }
}

/// What a response leads to. An error that answers the prompt ends the turn; a result
/// does not, for the turn's own end follows. Other responses lead to nothing.
pub open spec fn response_step(
    state: TurnModel,
    id: u64,
    result: Result<JsonModel, RpcErrorModel>,
) -> StepModel {
    if id != state.prompt_id {
        quiet(state)
    } else {
        match result {
            Err(error) => ending(
                state,
                failure("session/prompt rejected: "@ + protocol::rpc_error_text(error)),
                TurnEnd::Done,
            ),
            Ok(document) => quiet(
                TurnModel {
                    fallback_content: Some(protocol::prompt_content_of(document)),
                    ..state
                },
            ),
        }
    }
}

/// What an event leads to.
pub open spec fn turn_step(state: TurnModel, event: TurnEventModel) -> StepModel {
    match event {
        TurnEventModel::Shutdown => StepModel { end: Some(TurnEnd::Shutdown), ..quiet(state) },
        TurnEventModel::Generate => if state.queued {
            StepModel {
                command: Some(
                    CommandModel::Refuse(
                        LmErrorModel::Engine(
                            "a zeroclaw turn is already in flight and one is queued"@,
                        ),
                    ),
                ),
                ..quiet(state)
            }
        } else {
            StepModel {
                command: Some(CommandModel::Queue),
                ..quiet(TurnModel { queued: true, ..state })
            }
        },
        TurnEventModel::CancelChanged { latest } => if latest != state.epoch
            && !state.cancel_requested {
            StepModel {
                command: Some(CommandModel::SendCancel),
                ..quiet(TurnModel { cancel_requested: true, suppressed: true, ..state })
            }
        } else {
            quiet(state)
        },
        TurnEventModel::CancelFailed => StepModel { end: Some(TurnEnd::ConnDown), ..quiet(state) },
        TurnEventModel::ReaderEnded => ending(
            state,
            failure("connection reader ended mid-turn"@),
            TurnEnd::ConnDown,
        ),
        TurnEventModel::Message(IncomingModel::Closed(reason)) => ending(
            state,
            failure("connection lost mid-turn: "@ + reason),
            TurnEnd::ConnDown,
        ),
        TurnEventModel::Message(IncomingModel::Response { id, result }) => response_step(
            state,
            id,
            result,
        ),
        TurnEventModel::Message(IncomingModel::Update(update)) => update_step(state, update),
        TurnEventModel::GraceElapsed => match state.fallback_content {
            Some(content) => reply_step(
                TurnModel { fallback_content: None, ..state },
                content,
                NoticeModel::ResponseOnly,
            ),
            None => quiet(state),
        },
        TurnEventModel::StreamDropped => quiet(TurnModel { suppressed: true, ..state }),
    }
}

/// Nothing to say, to do or to note.
fn quiet_step() -> (step: TurnStep)
    ensures
        step.deltas@.len() == 0,
        step.command is None,
        step.notice is None,
        step.end is None,
{
    TurnStep { deltas: Vec::new(), command: None, notice: None, end: None }
}

impl Turn {
    /// A turn whose prompt just went out as request `prompt_id`.
    pub fn new(session_id: &str, surface_tool_calls: bool, epoch: u64, prompt_id: u64) -> (turn:
        Turn)
        ensures
            turn@ == fresh_turn(session_id@, surface_tool_calls, epoch, prompt_id),
    {
        Turn {
            session_id: session_id.to_owned(),
            surface_tool_calls,
            epoch,
            prompt_id,
            chunks_seen: false,
            suppressed: false,
            cancel_requested: false,
            fallback_content: None,
            queued: false,
            text_ends_in_whitespace: true,
        }
    }

    /// Whether the response to the prompt came, so that the turn's end is only waited for
    /// a while.
    pub fn grace_runs(&self) -> (runs: bool)
        ensures
            runs == (self@.fallback_content is Some),
    {
        self.fallback_content.is_some()
    }

    /// Takes in an event.
    pub fn step(&mut self, event: TurnEvent) -> (step: TurnStep)
        ensures
            step_is(step, final(self)@, turn_step(old(self)@, event@)),
    {
        let mut step = quiet_step();
        match event {
            TurnEvent::Shutdown => {
                step.end = Some(TurnEnd::Shutdown);
                step
            },
            TurnEvent::Generate => {
                if self.queued {
                    step.command = Some(
                        TurnCommand::Refuse(
                            LmError::Engine(
                                "a zeroclaw turn is already in flight and one is queued".to_owned(),
                            ),
                        ),
                    );
                } else {
                    self.queued = true;
                    step.command = Some(TurnCommand::Queue);
                }
                step
            },
            TurnEvent::CancelChanged { latest } => {
                if latest != self.epoch && !self.cancel_requested {
                    self.cancel_requested = true;
                    self.suppressed = true;
                    step.command = Some(TurnCommand::SendCancel);
                }
                step
            },
            TurnEvent::CancelFailed => {
                step.end = Some(TurnEnd::ConnDown);
                step
            },
            TurnEvent::ReaderEnded => self.end_with(
                "connection reader ended mid-turn".to_owned(),
                TurnEnd::ConnDown,
            ),
            TurnEvent::Message(Incoming::Closed(reason)) => {
                let mut message = "connection lost mid-turn: ".to_owned();
                message.append(reason.as_str());
                self.end_with(message, TurnEnd::ConnDown)
            },
            TurnEvent::Message(Incoming::Response { id, result }) => self.on_response(id, result),
            TurnEvent::Message(Incoming::Update(update)) => self.on_update(update),
            TurnEvent::GraceElapsed => {
                match self.fallback_content.take() {
                    Some(content) => self.reply(content, Notice::ResponseOnly),
                    None => step,
                }
            },
            TurnEvent::StreamDropped => {
                self.suppressed = true;
                step
            },
        }
    }

    /// Ends the turn with a failure.
    fn end_with(&self, message: String, end: TurnEnd) -> (step: TurnStep)
        ensures
            step_is(step, self@, ending(self@, failure(message@), end)),
    {
        let mut step = quiet_step();
        if !self.suppressed {
            step.deltas.push(Err(LmError::Engine(message)));
        }
        step.end = Some(end);
        step
    }

    /// Ends the turn with its reply, unless that was said already.
    fn reply(&self, content: String, notice: Notice) -> (step: TurnStep)
        requires
            notice is NotStreamed || notice is ResponseOnly,
        ensures
            step_is(
                step,
                self@,
                reply_step(self@, content@, optional_notice(Some(notice))->0),
            ),
    {
        let mut step = quiet_step();
        if !self.suppressed && !self.chunks_seen && !text::is_blank(content.as_str()) {
            step.deltas.push(Ok(ModelDelta::Text(content)));
            step.notice = Some(notice);
        }
        step.end = Some(TurnEnd::Done);
        step
    }

    /// Takes in a response.
    fn on_response(&mut self, id: u64, result: Result<Json, RpcErrorObject>) -> (step: TurnStep)
        ensures
            step_is(
                step,
                final(self)@,
                response_step(
                    old(self)@,
                    id,
                    match result {
                        Ok(document) => Ok(document@),
                        Err(error) => Err(error@),
                    },
                ),
            ),
    {
        if id != self.prompt_id {
            return quiet_step();
        }
        match result {
            Err(error) => {
                let mut message = "session/prompt rejected: ".to_owned();
                message.append(error.message().as_str());
                self.end_with(message, TurnEnd::Done)
            },
            Ok(document) => {
                self.fallback_content = Some(protocol::prompt_content(&document));
                quiet_step()
            },
        }
    }

    /// Says the white space that a tool boundary owes.
    fn cross_boundary(&mut self) -> (step: TurnStep)
        ensures
            step_is(
                step,
                final(self)@,
                (StepModel { out: boundary(old(self)@), ..quiet(after_boundary(old(self)@)) }),
            ),
    {
        let mut step = quiet_step();
        if !self.suppressed && self.chunks_seen && !self.text_ends_in_whitespace {
            step.deltas.push(Ok(ModelDelta::Text(" ".to_owned())));
            self.text_ends_in_whitespace = true;
        }
        step
    }

    /// Takes in an update.
    fn on_update(&mut self, update: SessionUpdate) -> (step: TurnStep)
        ensures
            step_is(step, final(self)@, update_step(old(self)@, update@)),
    {
        let ours = match update.session_id() {
            Some(session) => text::same(session.as_str(), self.session_id.as_str()),
            None => false,
        };
        let mut step = quiet_step();
        if !ours {
            return step;
        }
        match update {
            SessionUpdate::MessageChunk { session_id: _, text } => {
                let chars = text::chars_of(text.as_str());
                if chars.len() == 0 {
                    return step;
                }
                self.chunks_seen = true;
                self.text_ends_in_whitespace = text::is_whitespace(chars[chars.len() - 1]);
                if !self.suppressed {
                    step.deltas.push(Ok(ModelDelta::Text(text)));
                }
                step
            },
            SessionUpdate::ToolCall { session_id: _, tool_call_id, name, raw_input } => {
                let ghost before = self@;
                let mut step = self.cross_boundary();
                if !self.suppressed && self.surface_tool_calls && !name.as_str().is_empty() {
                    match raw_input {
                        Json::Object(_) => {
                            let ghost given = records::nonempty(Some(tool_call_id@));
                            let id = if tool_call_id.as_str().is_empty() {
                                ids::mint("zc-")
                            } else {
                                tool_call_id
                            };
                            proof {
                                assert(may_show_as(given, id@));
                                reveal_strlit("zc-");
                            }
                            let delta = ModelDelta::tool_call(id, name, &raw_input);
                            assert(item_utters(
                                delta,
                                Utterance::Tool { id: given, name: name@, input: raw_input@ },
                            ));
                            step.deltas.push(delta);
                        },
                        _ => {},
                    }
                }
                step
            },
            SessionUpdate::ToolResult { session_id: _ } => self.cross_boundary(),
            SessionUpdate::TurnComplete { session_id: _, outcome, content } => match outcome {
                TurnOutcome::Completed => self.reply(content, Notice::NotStreamed),
                TurnOutcome::Cancelled => {
                    step.end = Some(TurnEnd::Done);
                    step
                },
                TurnOutcome::Failed => {
                    let message = if text::is_blank(content.as_str()) {
                        "zeroclaw turn failed".to_owned()
                    } else {
                        content
                    };
                    self.end_with(message, TurnEnd::Done)
                },
            },
            SessionUpdate::ApprovalRequest { session_id: _, tool_name } => {
                step.notice = Some(Notice::Approval { tool_name });
                step
            },
            SessionUpdate::HistoryTrimmed { session_id: _, dropped_messages, reason } => {
                step.notice = Some(Notice::Trimmed { dropped_messages, reason });
                step
            },
            SessionUpdate::ThoughtChunk { session_id: _ } => step,
            SessionUpdate::ContextUsage { session_id: _ } => step,
            SessionUpdate::Plan { session_id: _ } => step,
            SessionUpdate::Unknown { session_id: _ } => step,
        }
    }
}

/// A turn that is to say nothing says nothing, whatever happens, and stays so.
pub proof fn a_suppressed_turn_is_silent(state: TurnModel, event: TurnEventModel)
    requires
        state.suppressed,
    ensures
        turn_step(state, event).out.len() == 0,
        turn_step(state, event).state.suppressed,
{
}

/// What a turn says over a run of events, and what it becomes; nothing more once it
/// ended.
pub open spec fn turn_run(state: TurnModel, events: Seq<TurnEventModel>) -> (
    TurnModel,
    Seq<Utterance>,
    bool,
)
    decreases events.len(),
{
    if events.len() == 0 {
        (state, Seq::empty(), false)
    } else {
        let (before, said, over) = turn_run(state, events.drop_last());
        if over {
            (before, said, true)
        } else {
            let step = turn_step(before, events.last());
            (step.state, said + step.out, step.end is Some)
        }
    }
}

/// Once the turn's generation is cancelled nothing more of it is said, however long the
/// daemon goes on: no text leaks into the turn that follows.
pub proof fn nothing_is_said_after_a_cancel(
    state: TurnModel,
    latest: u64,
    events: Seq<TurnEventModel>,
)
    requires
        latest != state.epoch,
        state.cancel_requested ==> state.suppressed,
    ensures
        ({
            let cancelled = turn_step(state, TurnEventModel::CancelChanged { latest });
            &&& cancelled.out.len() == 0
            &&& turn_run(cancelled.state, events).1.len() == 0
        }),
    decreases events.len(),
{
    let cancelled = turn_step(state, TurnEventModel::CancelChanged { latest });
    lemma_silent_run(cancelled.state, events);
}

proof fn lemma_silent_run(state: TurnModel, events: Seq<TurnEventModel>)
    requires
        state.suppressed,
    ensures
        turn_run(state, events).1.len() == 0,
        turn_run(state, events).0.suppressed,
    decreases events.len(),
{
    if events.len() > 0 {
        lemma_silent_run(state, events.drop_last());
        a_suppressed_turn_is_silent(turn_run(state, events.drop_last()).0, events.last());
    }
}

/// A cancellation goes out at most once, and from then on nothing is said.
pub proof fn a_cancellation_goes_out_once(state: TurnModel, event: TurnEventModel)
    requires
        state.cancel_requested ==> state.suppressed,
    ensures
        ({
            let step = turn_step(state, event);
            &&& step.command == Some(CommandModel::SendCancel) ==> !state.cancel_requested
                && step.state.cancel_requested
            &&& state.cancel_requested ==> step.state.cancel_requested
            &&& step.state.cancel_requested ==> step.state.suppressed
        }),
{
}

/// At most one generation waits for a turn: the first that comes is kept, every other is
/// answered with an error, and nothing else touches it.
pub proof fn one_generation_waits(state: TurnModel, event: TurnEventModel)
    ensures
        ({
            let step = turn_step(state, event);
            &&& step.state.queued == (state.queued || event is Generate)
            &&& (step.command == Some(CommandModel::Queue)) == (event is Generate && !state.queued)
            &&& (step.command matches Some(CommandModel::Refuse(_))) == (event is Generate
                && state.queued)
        }),
{
}

/// Updates of other sessions do nothing.
pub proof fn other_sessions_do_nothing(state: TurnModel, update: UpdateModel)
    requires
        update.session_id != Some(state.session_id),
    ensures
        turn_step(state, TurnEventModel::Message(IncomingModel::Update(update))) == quiet(state),
{
}

/// The text among what was said.
pub open spec fn text_said(said: Seq<Utterance>) -> Seq<char>
    decreases said.len(),
{
    if said.len() == 0 {
        Seq::empty()
    } else {
        match said.last() {
            Utterance::Text(text) => text_said(said.drop_last()) + text,
            _ => text_said(said.drop_last()),
        }
    }
}

/// Whether a turn knows how the text it said ends.
pub open spec fn knows_its_text(state: TurnModel, said: Seq<char>) -> bool {
    !state.suppressed ==> {
        &&& state.chunks_seen == (said.len() > 0)
        &&& state.chunks_seen ==> state.text_ends_in_whitespace == text::is_space(said.last())
    }
}

proof fn lemma_text_said_one(one: Utterance)
    ensures
        text_said(seq![one]) == (match one {
            Utterance::Text(text) => text,
            _ => Seq::empty(),
        }),
{
    assert(seq![one].drop_last() =~= Seq::empty());
    assert(text_said(seq![one].drop_last()) =~= Seq::empty());
    match one {
        Utterance::Text(text) => {
            assert(Seq::<char>::empty() + text =~= text);
        },
        _ => {},
    }
}

/// A turn that goes on knows how the text it said ends, so a tool boundary leaves white
/// space at the end of what was said, where anything was.
pub proof fn tool_boundaries_end_in_white_space(
    state: TurnModel,
    said: Seq<char>,
    event: TurnEventModel,
)
    requires
        knows_its_text(state, said),
        turn_step(state, event).end is None,
    ensures
        ({
            let step = turn_step(state, event);
            let now = said + text_said(step.out);
            &&& knows_its_text(step.state, now)
            &&& event matches TurnEventModel::Message(IncomingModel::Update(update)) ==> (
            update.session_id == Some(state.session_id) && (update.kind is ToolCall
                || update.kind is ToolResult) && !state.suppressed && now.len() > 0
                ==> text::is_space(now.last()))
        }),
{
    let step = turn_step(state, event);
    reveal_strlit(" ");
    assert(" "@.last() == ' ');
    assert(text_said(Seq::empty()) =~= Seq::empty());
    assert(said + Seq::<char>::empty() =~= said);
    match event {
        TurnEventModel::Message(IncomingModel::Update(update)) => {
            match update.kind {
                UpdateKind::MessageChunk { text } => {
                    lemma_text_said_one(Utterance::Text(text));
                    if !state.suppressed && text.len() > 0 && update.session_id == Some(
                        state.session_id,
                    ) {
                        assert((said + text).last() == text.last());
                    }
                },
                UpdateKind::ToolCall { tool_call_id, name, raw_input } => {
                    lemma_text_said_one(Utterance::Text(" "@));
                    let shown = shown_call(state, tool_call_id, name, raw_input);
                    let gap = boundary(state);
                    if shown.len() > 0 {
                        assert((gap + shown).drop_last() =~= gap);
                        assert((gap + shown).last() == shown[0]);
                    } else {
                        assert(gap + shown =~= gap);
                    }
                    assert(text_said(gap + shown) == text_said(gap));
                },
                UpdateKind::ToolResult => {
                    lemma_text_said_one(Utterance::Text(" "@));
                },
                _ => {},
            }
        },
        _ => {},
    }
}

/// The tool calls among what was said, in order.
pub open spec fn tools_shown(said: Seq<Utterance>) -> Seq<
    (Option<Seq<char>>, Seq<char>, JsonModel),
>
    decreases said.len(),
{
    if said.len() == 0 {
        Seq::empty()
    } else {
        match said.last() {
            Utterance::Tool { id, name, input } => tools_shown(said.drop_last()).push(
                (id, name, input),
            ),
            _ => tools_shown(said.drop_last()),
        }
    }
}

/// The turn's tool calls are shown as they came: of a turn that shows them, a call with
/// a name and an object for its input is shown exactly once, with that name, that input
/// and its own id where it has one. No other call is shown.
pub proof fn tool_calls_are_shown_as_they_came(
    state: TurnModel,
    update: UpdateModel,
    tool_call_id: Seq<char>,
    name: Seq<char>,
    raw_input: JsonModel,
)
    requires
        update.session_id == Some(state.session_id),
        update.kind == (UpdateKind::ToolCall { tool_call_id, name, raw_input }),
    ensures
        ({
            let step = turn_step(state, TurnEventModel::Message(IncomingModel::Update(update)));
            tools_shown(step.out) == (if !state.suppressed && state.surface_tool_calls
                && name.len() > 0 && raw_input is Object {
                seq![
                    (
                        if tool_call_id.len() > 0 {
                            Some(tool_call_id)
                        } else {
                            None
                        },
                        name,
                        raw_input,
                    ),
                ]
            } else {
                Seq::empty()
            })
        }),
{
    let gap = boundary(state);
    let shown = shown_call(state, tool_call_id, name, raw_input);
    if gap.len() > 0 {
        assert(gap.drop_last() =~= Seq::empty());
        assert(tools_shown(gap.drop_last()) =~= Seq::empty());
    }
    assert(tools_shown(gap) =~= Seq::empty());
    if shown.len() > 0 {
        assert((gap + shown).drop_last() =~= gap);
        assert((gap + shown).last() == shown[0]);
    } else {
        assert(gap + shown =~= gap);
    }
}

/// A piece of the reply is said as it came, at once and alone.
pub proof fn text_is_said_as_it_came(state: TurnModel, update: UpdateModel, text: Seq<char>)
    requires
        update.session_id == Some(state.session_id),
        update.kind == (UpdateKind::MessageChunk { text }),
        text.len() > 0,
    ensures
        ({
            let step = turn_step(state, TurnEventModel::Message(IncomingModel::Update(update)));
            &&& !state.suppressed ==> step.out =~= seq![Utterance::Text(text)]
            &&& state.suppressed ==> step.out.len() == 0
            &&& step.state.chunks_seen
            &&& step.end is None
        }),
{
}

/// A reply that was not streamed is said whole when the turn ends, and one that was is
/// not said again. Either way the turn is over.
pub proof fn a_reply_is_said_once(state: TurnModel, update: UpdateModel, content: Seq<char>)
    requires
        update.session_id == Some(state.session_id),
        update.kind == (UpdateKind::TurnComplete { outcome: TurnOutcome::Completed, content }),
    ensures
        ({
            let step = turn_step(state, TurnEventModel::Message(IncomingModel::Update(update)));
            &&& step.end == Some(TurnEnd::Done)
            &&& if !state.suppressed && !state.chunks_seen && text::trimmed(content).len() > 0 {
                &&& step.out =~= seq![Utterance::Text(content)]
                &&& step.notice == Some(NoticeModel::NotStreamed)
            } else {
                &&& step.out.len() == 0
                &&& step.notice is None
            }
        }),
{
}

/// The response to the prompt says nothing and does not end the turn, and its content is
/// what is said where the turn's end does not come: unless text was streamed, or the
/// turn has been silenced.
pub proof fn the_response_stands_in_for_a_missing_end(
    state: TurnModel,
    document: JsonModel,
    content: Seq<char>,
)
    requires
        document is Object,
        records::text_member(document, "content"@) == Some(content),
    ensures
        ({
            let answered = turn_step(
                state,
                TurnEventModel::Message(
                    IncomingModel::Response { id: state.prompt_id, result: Ok(document) },
                ),
            );
            let over = turn_step(answered.state, TurnEventModel::GraceElapsed);
            &&& answered.out.len() == 0
            &&& answered.end is None
            &&& over.end == Some(TurnEnd::Done)
            &&& if !state.suppressed && !state.chunks_seen && text::trimmed(content).len() > 0 {
                &&& over.out =~= seq![Utterance::Text(content)]
                &&& over.notice == Some(NoticeModel::ResponseOnly)
            } else {
                &&& over.out.len() == 0
            }
        }),
{
}

/// A turn that fails says why, once, and is over: in the daemon's words where it has
/// any, and with what the connection told otherwise.
pub proof fn failures_say_why(state: TurnModel, content: Seq<char>, error: RpcErrorModel)
    requires
        !state.suppressed,
    ensures
        ({
            let failed = turn_step(
                state,
                TurnEventModel::Message(
                    IncomingModel::Update(
                        UpdateModel {
                            session_id: Some(state.session_id),
                            kind: UpdateKind::TurnComplete {
                                outcome: TurnOutcome::Failed,
                                content,
                            },
                        },
                    ),
                ),
            );
            &&& failed.end == Some(TurnEnd::Done)
            &&& failed.out =~= seq![
                Utterance::Failure(
                    LmErrorModel::Engine(
                        if text::trimmed(content).len() > 0 {
                            content
                        } else {
                            "zeroclaw turn failed"@
                        },
                    ),
                ),
            ]
        }),
        ({
            let refused = turn_step(
                state,
                TurnEventModel::Message(
                    IncomingModel::Response { id: state.prompt_id, result: Err(error) },
                ),
            );
            &&& refused.end == Some(TurnEnd::Done)
            &&& refused.out =~= seq![
                Utterance::Failure(
                    LmErrorModel::Engine(
                        "session/prompt rejected: "@ + (error.message + " (code "@
                            + text::decimal_integer(error.code as int) + ")"@),
                    ),
                ),
            ]
        }),
        ({
            let lost = turn_step(
                state,
                TurnEventModel::Message(IncomingModel::Closed(content)),
            );
            &&& lost.end == Some(TurnEnd::ConnDown)
            &&& lost.out =~= seq![
                Utterance::Failure(
                    LmErrorModel::Engine("connection lost mid-turn: "@ + content),
                ),
            ]
        }),
        ({
            let ended = turn_step(state, TurnEventModel::ReaderEnded);
            &&& ended.end == Some(TurnEnd::ConnDown)
            &&& ended.out =~= seq![
                Utterance::Failure(LmErrorModel::Engine("connection reader ended mid-turn"@)),
            ]
        }),
{
}

/// A turn ends for a shutdown, a connection that is gone, an error that answers its own
/// prompt, the end that the daemon tells of its own session, or a wait for that end that
/// is over, and for nothing else; what identifies the turn never changes.
pub proof fn turns_end_for_a_reason(state: TurnModel, event: TurnEventModel)
    ensures
        turn_step(state, event).end == (match event {
            TurnEventModel::Shutdown => Some(TurnEnd::Shutdown),
            TurnEventModel::CancelFailed => Some(TurnEnd::ConnDown),
            TurnEventModel::ReaderEnded => Some(TurnEnd::ConnDown),
            TurnEventModel::Message(IncomingModel::Closed(_)) => Some(TurnEnd::ConnDown),
            TurnEventModel::Message(IncomingModel::Response { id, result }) => if id
                == state.prompt_id && result is Err {
                Some(TurnEnd::Done)
            } else {
                None
            },
            TurnEventModel::Message(IncomingModel::Update(update)) => if update.session_id == Some(
                state.session_id,
            ) && update.kind is TurnComplete {
                Some(TurnEnd::Done)
            } else {
                None
            },
            TurnEventModel::GraceElapsed => if state.fallback_content is Some {
                Some(TurnEnd::Done)
            } else {
                None
            },
            _ => None,
        }),
        turn_step(state, event).state.session_id == state.session_id,
        turn_step(state, event).state.epoch == state.epoch,
        turn_step(state, event).state.prompt_id == state.prompt_id,
        turn_step(state, event).state.surface_tool_calls == state.surface_tool_calls,
        state.chunks_seen ==> turn_step(state, event).state.chunks_seen,
        state.suppressed ==> turn_step(state, event).state.suppressed,
{
}

/// A generation that comes while one waits is refused by saying so.
pub proof fn a_second_generation_is_refused(state: TurnModel)
    requires
        state.queued,
    ensures
        turn_step(state, TurnEventModel::Generate).command == Some(
            CommandModel::Refuse(
                LmErrorModel::Engine(
                    "a zeroclaw turn is already in flight and one is queued"@,
                ),
            ),
        ),
        turn_step(state, TurnEventModel::Generate).state == state,
{
}

/// A cancellation goes out for another epoch than the turn's own, unless one has gone out
/// already.
pub proof fn another_epoch_cancels(state: TurnModel, latest: u64)
    ensures
        ({
            let step = turn_step(state, TurnEventModel::CancelChanged { latest });
            &&& (step.command == Some(CommandModel::SendCancel)) == (latest != state.epoch
                && !state.cancel_requested)
            &&& latest == state.epoch ==> step.state == state
            &&& step.end is None
        }),
{
}

/// What the daemon tells of its own session besides the reply is noted and never said.
pub proof fn notices_are_not_said(
    state: TurnModel,
    tool_name: Seq<char>,
    dropped_messages: u64,
    reason: Seq<char>,
)
    ensures
        ({
            let asked = turn_step(
                state,
                TurnEventModel::Message(
                    IncomingModel::Update(
                        UpdateModel {
                            session_id: Some(state.session_id),
                            kind: UpdateKind::ApprovalRequest { tool_name },
                        },
                    ),
                ),
            );
            let trimmed = turn_step(
                state,
                TurnEventModel::Message(
                    IncomingModel::Update(
                        UpdateModel {
                            session_id: Some(state.session_id),
                            kind: UpdateKind::HistoryTrimmed { dropped_messages, reason },
                        },
                    ),
                ),
            );
            &&& asked.out.len() == 0
            &&& asked.notice == Some(NoticeModel::Approval { tool_name })
            &&& asked.state == state
            &&& trimmed.out.len() == 0
            &&& trimmed.notice == Some(NoticeModel::Trimmed { dropped_messages, reason })
            &&& trimmed.state == state
        }),
{
}

/// The lines that notices are worth name the tool, and how much was dropped and why.
pub proof fn notices_name_what_they_are_about(
    tool_name: Seq<char>,
    dropped_messages: u64,
    reason: Seq<char>,
)
    ensures
        text::occurs(
            notice_text(NoticeModel::Approval { tool_name }),
            text::quoted(tool_name),
        ),
        text::occurs(
            notice_text(NoticeModel::Trimmed { dropped_messages, reason }),
            text::decimal_digits(dropped_messages as nat),
        ),
        text::occurs(notice_text(NoticeModel::Trimmed { dropped_messages, reason }), reason),
        "approval_request for tool "@.is_prefix_of(
            notice_text(NoticeModel::Approval { tool_name }),
        ),
        "daemon trimmed "@.is_prefix_of(
            notice_text(NoticeModel::Trimmed { dropped_messages, reason }),
        ),
{
    let tail =
        " cannot be answered from the voice loop; the turn stalls until it times out (remove approval gating from the voice agent profile)"@;
    text::lemma_occurs_between("approval_request for tool "@, text::quoted(tool_name), tail);
    let count = text::decimal_digits(dropped_messages as nat);
    let middle = " message(s) from session history ("@;
    let trimmed = notice_text(NoticeModel::Trimmed { dropped_messages, reason });
    text::lemma_occurs_between("daemon trimmed "@, count, middle + reason + ")"@);
    assert(trimmed =~= "daemon trimmed "@ + count + (middle + reason + ")"@));
    text::lemma_occurs_between("daemon trimmed "@ + count + middle, reason, ")"@);
    let asked = notice_text(NoticeModel::Approval { tool_name });
    let start = "approval_request for tool "@;
    assert(asked.subrange(0, start.len() as int) =~= start);
    assert(trimmed.subrange(0, "daemon trimmed "@.len() as int) =~= "daemon trimmed "@);
}

/// What goes out for a tool call is the call with its own id where it has one, its own name
/// and its own input; text goes out as it is, and so does a failure.
pub proof fn items_are_what_they_utter(
    item: Result<ModelDelta, LmError>,
    id: Option<Seq<char>>,
    text: Seq<char>,
    input: JsonModel,
    error: LmErrorModel,
)
    requires
        text.len() > 0,
        input is Object,
        id matches Some(id) ==> id.len() > 0,
    ensures
        item_utters(item, Utterance::Tool { id, name: text, input }) ==> {
            &&& item matches Ok(ModelDelta::ToolCall(shown))
            &&& id matches Some(id) ==> shown.id@ == id
            &&& id is None ==> "zc-"@.is_prefix_of(shown.id@)
            &&& shown.name@ == text
            &&& shown.arguments_json@ == json::rendered(input)
        },
        item_utters(item, Utterance::Text(text)) ==> (item matches Ok(ModelDelta::Text(said))
            && said@ == text),
        item_utters(item, Utterance::Failure(error)) ==> (item matches Err(told) && told@
            == error),
{
    reveal_strlit("zc-");
    assert("zc-"@.len() == 3);
    if item_utters(item, Utterance::Tool { id, name: text, input }) {
        let shown = choose|shown: Seq<char>| #[trigger]
            may_show_as(id, shown) && lm::item_model(item) == lm::tool_call_model(
                shown,
                text,
                input,
            );
        if id is None {
            assert(shown.subrange(0, 3) =~= "zc-"@);
            assert(shown.len() > 0);
        }
    }
}

/// A turn begins with nothing said, nothing waiting and nothing cancelled, in its own
/// session, for its own prompt and epoch.
pub proof fn turns_begin_fresh(
    session_id: Seq<char>,
    surface_tool_calls: bool,
    epoch: u64,
    prompt_id: u64,
)
    ensures
        ({
            let turn = fresh_turn(session_id, surface_tool_calls, epoch, prompt_id);
            &&& turn.session_id == session_id
            &&& turn.surface_tool_calls == surface_tool_calls
            &&& turn.epoch == epoch
            &&& turn.prompt_id == prompt_id
            &&& !turn.chunks_seen && !turn.suppressed && !turn.cancel_requested && !turn.queued
            &&& turn.fallback_content is None
            &&& knows_its_text(turn, Seq::empty())
        }),
{
}

/// A turn whose text nobody takes any more says nothing from then on, but goes on to its
/// end.
pub proof fn a_dropped_stream_is_silent(state: TurnModel, event: TurnEventModel)
    ensures
        ({
            let dropped = turn_step(state, TurnEventModel::StreamDropped);
            &&& dropped.out.len() == 0
            &&& dropped.end is None
            &&& dropped.command is None
            &&& turn_step(dropped.state, event).out.len() == 0
        }),
{
}

/// What a turn that shows tool calls hands out for one with a name and an object for its
/// input ends with that call: its own name, its own input, and its own id where it has one.
pub proof fn a_shown_call_is_the_updates_own(
    turn: &mut Turn,
    session_id: String,
    tool_call_id: String,
    name: String,
    raw_input: Json,
    step: TurnStep,
)
    requires
        call_ensures(
            Turn::step,
            (
                turn,
                TurnEvent::Message(
                    Incoming::Update(
                        SessionUpdate::ToolCall { session_id, tool_call_id, name, raw_input },
                    ),
                ),
            ),
            step,
        ),
        session_id@ == old(turn)@.session_id,
        !old(turn)@.suppressed,
        old(turn)@.surface_tool_calls,
        name@.len() > 0,
        raw_input@ is Object,
    ensures
        step.deltas@.len() > 0,
        step.deltas@.last() matches Ok(ModelDelta::ToolCall(shown)) && {
            &&& shown.name@ == name@
            &&& shown.arguments_json@ == json::rendered(raw_input@)
            &&& tool_call_id@.len() > 0 ==> shown.id@ == tool_call_id@
        },
        step.end is None,
{
    let id = if tool_call_id@.len() > 0 {
        Some(tool_call_id@)
    } else {
        None
    };
    let last = step.deltas@.last();
    items_are_what_they_utter(last, id, name@, raw_input@, LmErrorModel::IncompleteToolCall);
    let update = UpdateModel {
        session_id: Some(session_id@),
        kind: UpdateKind::ToolCall {
            tool_call_id: tool_call_id@,
            name: name@,
            raw_input: raw_input@,
        },
    };
    let out = update_step(old(turn)@, update).out;
    assert(out.last() == (Utterance::Tool { id, name: name@, input: raw_input@ }));
    assert(item_utters(step.deltas@[out.len() - 1], out[out.len() - 1]));
}

/// What a turn hands out for a piece of the reply is that piece.
pub proof fn a_piece_is_handed_out_as_it_came(
    turn: &mut Turn,
    session_id: String,
    text: String,
    step: TurnStep,
)
    requires
        call_ensures(
            Turn::step,
            (
                turn,
                TurnEvent::Message(
                    Incoming::Update(SessionUpdate::MessageChunk { session_id, text }),
                ),
            ),
            step,
        ),
        session_id@ == old(turn)@.session_id,
        !old(turn)@.suppressed,
        text@.len() > 0,
    ensures
        step.deltas@.len() == 1,
        step.deltas@[0] matches Ok(ModelDelta::Text(said)) && said@ == text@,
        final(turn)@.chunks_seen,
{
    let update = UpdateModel {
        session_id: Some(session_id@),
        kind: UpdateKind::MessageChunk { text: text@ },
    };
    let out = update_step(old(turn)@, update).out;
    assert(out[0] == Utterance::Text(text@));
    assert(item_utters(step.deltas@[0], out[0]));
}

} // verus!
