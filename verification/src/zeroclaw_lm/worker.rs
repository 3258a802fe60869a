//! The connection: its handshake, the commands it takes while it is up or down, and how
//! it comes back.
use vstd::prelude::*;
use vstd::string::*;
use crate::ids;
use crate::json::{Json, JsonModel};
use crate::lm::{LmError, LmErrorModel};
use crate::records;
use crate::text;
use crate::zeroclaw_lm::client::Incoming;
use crate::zeroclaw_lm::config::{BuildErrorModel, ZeroclawLmBuildError, ZeroclawLmConfig};
use crate::zeroclaw_lm::protocol;
use crate::zeroclaw_lm::protocol::{InitializeResult, SessionNewResult};
use crate::zeroclaw_lm::turn::TurnEnd;

verus! {

/// How long a handshake request may take, in milliseconds.
pub const HANDSHAKE_TIMEOUT_MS: u64 = 10_000;

/// How long the turn's end is waited for after the response to its prompt, in
/// milliseconds.
pub const RESPONSE_GRACE_MS: u64 = 5_000;

/// The shortest and the longest time between two attempts to reconnect, in milliseconds.
pub const RECONNECT_MIN_MS: u64 = 250;

pub const RECONNECT_MAX_MS: u64 = 5_000;

/// The identity that the daemon assigned, echoed on a reconnect.
#[derive(Debug)]
pub struct Identity {
    pub tui_id: Option<String>,
    pub tui_sig: Option<String>,
}

/// What an [`Identity`] says.
pub struct IdentityModel {
    pub tui_id: Option<Seq<char>>,
    pub tui_sig: Option<Seq<char>>,
}

impl View for Identity {
    type V = IdentityModel;

    open spec fn view(&self) -> IdentityModel {
        IdentityModel {
            tui_id: records::optional_view(self.tui_id),
            tui_sig: records::optional_view(self.tui_sig),
        }
    }
}

/// `new` where there is one, and else `old`.
pub open spec fn replaced(former: Option<Seq<char>>, new: Option<Seq<char>>) -> Option<Seq<char>> {
    match new {
        Some(new) => Some(new),
        None => former,
    }
}

/// What the bootstrap of a session established.
#[derive(Debug)]
pub struct Bootstrap {
    pub session_id: String,
    pub workspace_dir: String,
    /// How many messages the session already held.
    pub message_count: usize,
}

/// How a handshake request came out.
#[derive(Debug)]
pub enum RequestOutcome {
    /// It could not be sent.
    SendFailed(String),
    /// No response came in time.
    TimedOut,
    /// It was answered, by a result or by an error's text.
    Answered(Result<Json, String>),
}

/// What a [`RequestOutcome`] says.
pub enum OutcomeModel {
    SendFailed(Seq<char>),
    TimedOut,
    Answered(Result<JsonModel, Seq<char>>),
}

impl View for RequestOutcome {
    type V = OutcomeModel;

    open spec fn view(&self) -> OutcomeModel {
        match self {
            RequestOutcome::SendFailed(error) => OutcomeModel::SendFailed(error@),
            RequestOutcome::TimedOut => OutcomeModel::TimedOut,
            RequestOutcome::Answered(answer) => OutcomeModel::Answered(
                match answer {
                    Ok(document) => Ok(document@),
                    Err(error) => Err(error@),
                },
            ),
        }
    }
}

/// The result of a handshake request, or what to tell of its failure.
pub open spec fn request_result(method: Seq<char>, outcome: OutcomeModel) -> Result<
    JsonModel,
    Seq<char>,
> {
    match outcome {
        OutcomeModel::SendFailed(error) => Err("sending "@ + method + " failed: "@ + error),
        OutcomeModel::TimedOut => Err(method + " timed out after 10s"@),
        OutcomeModel::Answered(Err(error)) => Err(method + " failed: "@ + error),
        OutcomeModel::Answered(Ok(document)) => Ok(document),
    }
}

/// The result of a handshake request, or what to tell of its failure.
pub fn request(method: &str, outcome: RequestOutcome) -> (result: Result<Json, String>)
    ensures
        request_result(method@, outcome@) == (match result {
            Ok(document) => Ok::<JsonModel, Seq<char>>(document@),
            Err(message) => Err::<JsonModel, Seq<char>>(message@),
        }),
{
    match outcome {
        RequestOutcome::SendFailed(error) => {
            let mut message = "sending ".to_owned();
            message.append(method);
            message.append(" failed: ");
            message.append(error.as_str());
            Err(message)
        },
        RequestOutcome::TimedOut => {
            let mut message = method.to_owned();
            message.append(" timed out after 10s");
            Err(message)
        },
        RequestOutcome::Answered(Err(error)) => {
            let mut message = method.to_owned();
            message.append(" failed: ");
            message.append(error.as_str());
            Err(message)
        },
        RequestOutcome::Answered(Ok(document)) => Ok(document),
    }
}

/// Where a handshake stands.
#[derive(Debug, Clone, Copy, PartialEq, Eq, Structural)]
pub enum Stage {
    /// `initialize` is out.
    Initializing,
    /// `session/new` is out.
    OpeningSession,
}

/// What a handshake asks for next.
#[derive(Debug)]
pub enum HandshakeStep {
    /// Send this request, and tell how it came out.
    Request { method: String, params: Json },
    /// The session is there.
    Ready(Bootstrap),
    /// The handshake failed.
    Failed(ZeroclawLmBuildError),
}

/// What a [`HandshakeStep`] says.
pub enum HandshakeModel {
    Request { method: Seq<char>, params: JsonModel },
    Ready { session_id: Seq<char>, workspace_dir: Seq<char>, message_count: usize },
    Failed(BuildErrorModel),
}

impl View for HandshakeStep {
    type V = HandshakeModel;

    open spec fn view(&self) -> HandshakeModel {
        match self {
            HandshakeStep::Request { method, params } => HandshakeModel::Request {
                method: method@,
                params: params@,
            },
            HandshakeStep::Ready(bootstrap) => HandshakeModel::Ready {
                session_id: bootstrap.session_id@,
                workspace_dir: bootstrap.workspace_dir@,
                message_count: bootstrap.message_count,
            },
            HandshakeStep::Failed(error) => HandshakeModel::Failed(error@),
        }
    }
}

/// The first request of a handshake.
pub open spec fn first_request(identity: IdentityModel) -> HandshakeModel {
    HandshakeModel::Request {
        method: "initialize"@,
        params: JsonModel::Object(
            protocol::initialize_members(1, identity.tui_id, identity.tui_sig),
        ),
    }
}

/// What a handshake does with the outcome of its request: the stage and the identity it
/// goes on with, and its next step. A session is asked for by its name, so that the
/// conversation goes on where it was.
pub open spec fn handshake_step(
    stage: Stage,
    identity: IdentityModel,
    config: ZeroclawLmConfig,
    session_id: Seq<char>,
    outcome: OutcomeModel,
) -> (Stage, IdentityModel, HandshakeModel) {
    match stage {
        Stage::Initializing => match request_result("initialize"@, outcome) {
            Err(message) => (
                stage,
                identity,
                HandshakeModel::Failed(BuildErrorModel::Handshake(message)),
            ),
            Ok(document) => match protocol::initialize_result_of(document) {
                Err(message) => (
                    stage,
                    identity,
                    HandshakeModel::Failed(
                        BuildErrorModel::Handshake("bad initialize result: "@ + message),
                    ),
                ),
                Ok((tui_id, tui_sig)) => (
                    Stage::OpeningSession,
                    IdentityModel {
                        tui_id: replaced(identity.tui_id, tui_id),
                        tui_sig: replaced(identity.tui_sig, tui_sig),
                    },
                    HandshakeModel::Request {
                        method: "session/new"@,
                        params: JsonModel::Object(
                            protocol::session_new_members(
                                config.agent_alias@,
                                Some(session_id),
                                if config.exclude_memory {
                                    Some(true)
                                } else {
                                    None
                                },
                            ),
                        ),
                    },
                ),
            },
        },
        Stage::OpeningSession => (
            stage,
            identity,
            match request_result("session/new"@, outcome) {
                Err(message) => HandshakeModel::Failed(BuildErrorModel::Session(message)),
                Ok(document) => match protocol::session_new_result_of(document) {
                    Err(message) => HandshakeModel::Failed(
                        BuildErrorModel::Session("bad session/new result: "@ + message),
                    ),
                    Ok((session_id, message_count, workspace_dir)) => HandshakeModel::Ready {
                        session_id,
                        workspace_dir,
                        message_count,
                    },
                },
            },
        ),
    }
}

/// A handshake under way.
#[derive(Debug)]
pub struct Handshake {
    pub stage: Stage,
}

impl Handshake {
    /// Starts a handshake; its first step is always a request.
    pub fn start(identity: &Identity) -> (started: (Handshake, HandshakeStep))
        ensures
            started.0.stage == Stage::Initializing,
            started.1@ == first_request(identity@),
    {
        (
            Handshake { stage: Stage::Initializing },
            HandshakeStep::Request {
                method: "initialize".to_owned(),
                params: protocol::initialize_params(1, &identity.tui_id, &identity.tui_sig),
            },
        )
    }

    /// Takes in how the last request came out.
    pub fn step(
        &mut self,
        identity: &mut Identity,
        config: &ZeroclawLmConfig,
        session_id: &str,
        outcome: RequestOutcome,
    ) -> (step: HandshakeStep)
        ensures
            (final(self).stage, final(identity)@, step@) == handshake_step(
                old(self).stage,
                old(identity)@,
                *config,
                session_id@,
                outcome@,
            ),
    {
        match self.stage {
            Stage::Initializing => {
                let document = match request("initialize", outcome) {
                    Ok(document) => document,
                    Err(message) => {
                        return HandshakeStep::Failed(ZeroclawLmBuildError::Handshake(message));
                    },
                };
                let init = match InitializeResult::from_json(&document) {
                    Ok(init) => init,
                    Err(reason) => {
                        let mut message = "bad initialize result: ".to_owned();
                        message.append(reason.as_str());
                        return HandshakeStep::Failed(ZeroclawLmBuildError::Handshake(message));
                    },
                };
                if init.tui_id.is_some() {
                    identity.tui_id = init.tui_id;
                }
                if init.tui_sig.is_some() {
                    identity.tui_sig = init.tui_sig;
                }
                self.stage = Stage::OpeningSession;
                HandshakeStep::Request {
                    method: "session/new".to_owned(),
                    params: protocol::session_new_params(
                        config.agent_alias.as_str(),
                        &Some(session_id.to_owned()),
                        if config.exclude_memory {
                            Some(true)
                        } else {
                            None
                        },
                    ),
                }
            },
            Stage::OpeningSession => {
                let document = match request("session/new", outcome) {
                    Ok(document) => document,
                    Err(message) => {
                        return HandshakeStep::Failed(ZeroclawLmBuildError::Session(message));
                    },
                };
                match SessionNewResult::from_json(&document) {
                    Ok(session) => HandshakeStep::Ready(
                        Bootstrap {
                            session_id: session.session_id,
                            workspace_dir: session.workspace_dir,
                            message_count: session.message_count,
                        },
                    ),
                    Err(reason) => {
                        let mut message = "bad session/new result: ".to_owned();
                        message.append(reason.as_str());
                        HandshakeStep::Failed(ZeroclawLmBuildError::Session(message))
                    },
                }
            },
        }
    }
}

/// A handshake keeps an identity that the daemon does not replace, so a reconnect is
/// recognised.
pub proof fn an_identity_is_kept(
    stage: Stage,
    identity: IdentityModel,
    config: ZeroclawLmConfig,
    session_id: Seq<char>,
    outcome: OutcomeModel,
)
    ensures
        ({
            let after = handshake_step(stage, identity, config, session_id, outcome).1;
            &&& identity.tui_id is Some ==> after.tui_id is Some
            &&& identity.tui_sig is Some ==> after.tui_sig is Some
        }),
{
}

/// The session a fresh worker asks for: the configured one, or one made up.
pub fn desired_session(config: &ZeroclawLmConfig) -> (session_id: String)
    ensures
        match config.session_id {
            Some(configured) => session_id@ == configured@,
            None => ids::is_prefixed(session_id@, "pc-voice-"@),
        },
{
    match &config.session_id {
        Some(configured) => configured.clone(),
        None => ids::mint("pc-voice-"),
    }
}

/// A command to the connection's worker.
#[derive(Debug, Clone, Copy, PartialEq, Eq, Structural)]
pub enum CommandKind {
    /// Run a generation.
    Generate,
    /// Stop; also when nobody is left to ask for anything.
    Shutdown,
}

/// Something that happens to a connection between turns.
#[derive(Debug)]
pub enum IdleEvent {
    Command(CommandKind),
    /// A message came.
    Message(Incoming),
    /// The connection's reader is gone.
    ReaderEnded,
    /// The cancellation epoch moved.
    CancelChanged,
}

/// What to do about it.
#[derive(Debug, Clone, Copy, PartialEq, Eq, Structural)]
pub enum IdleAction {
    /// Run the generation as a turn.
    RunTurn,
    /// The connection is gone: reconnect.
    MarkDown,
    /// Go on waiting.
    Wait,
    /// Stop.
    Exit,
}

/// What to do about an event between turns. Responses and updates that trail a turn are
/// expected noise, and so is a cancellation with nothing in flight.
pub open spec fn idle_action(event: IdleEvent) -> IdleAction {
    match event {
        IdleEvent::Command(CommandKind::Generate) => IdleAction::RunTurn,
        IdleEvent::Command(CommandKind::Shutdown) => IdleAction::Exit,
        IdleEvent::Message(Incoming::Closed(_)) => IdleAction::MarkDown,
        IdleEvent::Message(_) => IdleAction::Wait,
        IdleEvent::ReaderEnded => IdleAction::MarkDown,
        IdleEvent::CancelChanged => IdleAction::Wait,
    }
}

/// What to do about an event between turns.
pub fn tick_connected(event: &IdleEvent) -> (action: IdleAction)
    ensures
        action == idle_action(*event),
{
    match event {
        IdleEvent::Command(CommandKind::Generate) => IdleAction::RunTurn,
        IdleEvent::Command(CommandKind::Shutdown) => IdleAction::Exit,
        IdleEvent::Message(Incoming::Closed(_)) => IdleAction::MarkDown,
        IdleEvent::Message(_) => IdleAction::Wait,
        IdleEvent::ReaderEnded => IdleAction::MarkDown,
        IdleEvent::CancelChanged => IdleAction::Wait,
    }
}

/// What follows a turn.
#[derive(Debug)]
pub enum AfterTurn {
    /// Run the generation that was queued.
    RunQueued,
    /// Go on waiting.
    Wait,
    /// The connection is gone; answer the queued generation, if there is one, with this.
    Reconnect { queued: Option<LmError> },
    /// Stop.
    Exit,
}

/// What a generation is answered while the daemon cannot be reached.
pub open spec fn unavailable_error() -> LmErrorModel {
    LmErrorModel::Engine("zeroclaw daemon unavailable; reconnecting"@)
}

/// What a generation is answered while the daemon cannot be reached: at once, and such
/// that the next utterance tries again.
pub fn unavailable() -> (error: LmError)
    ensures
        error@ == unavailable_error(),
{
    LmError::Engine("zeroclaw daemon unavailable; reconnecting".to_owned())
}

/// What follows a turn that ended so, with a generation `queued` behind it or not.
pub fn after_turn(end: TurnEnd, queued: bool) -> (after: AfterTurn)
    ensures
        match end {
            TurnEnd::Done => if queued {
                after is RunQueued
            } else {
                after is Wait
            },
            TurnEnd::ConnDown => after matches AfterTurn::Reconnect { queued: answer } && (
            match answer {
                Some(error) => queued && error@ == unavailable_error(),
                None => !queued,
            }),
            TurnEnd::Shutdown => after is Exit,
        },
{
    match end {
        TurnEnd::Done => if queued {
            AfterTurn::RunQueued
        } else {
            AfterTurn::Wait
        },
        TurnEnd::ConnDown => AfterTurn::Reconnect {
            queued: if queued {
                Some(unavailable())
            } else {
                None
            },
        },
        TurnEnd::Shutdown => AfterTurn::Exit,
    }
}

/// Whether a turn of `turn_epoch` may still start, with the cancellation epoch at
/// `current`. A cancel in between supersedes the turn, and its stream just ends.
pub fn may_start(turn_epoch: u64, current: u64) -> (may: bool)
    ensures
        may == (turn_epoch == current),
{
    turn_epoch == current
}

/// What is told when the prompt could not be sent.
pub fn prompt_failed(error: &str) -> (told: LmError)
    ensures
        told@ == LmErrorModel::Engine("sending session/prompt failed: "@ + error@),
{
    let mut message = "sending session/prompt failed: ".to_owned();
    message.append(error);
    LmError::Engine(message)
}

/// The link to the daemon while it is up or down, on a clock in milliseconds.
#[derive(Debug)]
pub struct Link {
    session_id: String,
    backoff_ms: u64,
    next_attempt_ms: u64,
}

/// What a [`Link`] stands for.
pub struct LinkModel {
    /// The session to attach to again.
    pub session_id: Seq<char>,
    /// How long to wait after the next failure, before it doubles.
    pub backoff_ms: u64,
    /// When to try again.
    pub next_attempt_ms: u64,
}

impl View for Link {
    type V = LinkModel;

    closed spec fn view(&self) -> LinkModel {
        LinkModel {
            session_id: self.session_id@,
            backoff_ms: self.backoff_ms,
            next_attempt_ms: self.next_attempt_ms,
        }
    }
}

/// Whether the time between attempts is within its bounds.
pub open spec fn well_paced(link: LinkModel) -> bool {
    RECONNECT_MIN_MS <= link.backoff_ms <= RECONNECT_MAX_MS
}

/// The next time between attempts: twice the last, up to the longest.
pub open spec fn next_backoff(backoff_ms: u64) -> u64 {
    if 2 * backoff_ms <= RECONNECT_MAX_MS {
        (2 * backoff_ms) as u64
    } else {
        RECONNECT_MAX_MS
    }
}

impl Link {
    /// A link that is up, in `session_id`.
    pub fn new(session_id: &str, now_ms: u64) -> (link: Link)
        ensures
            link@ == (LinkModel {
                session_id: session_id@,
                backoff_ms: RECONNECT_MIN_MS,
                next_attempt_ms: now_ms,
            }),
            well_paced(link@),
    {
        Link {
            session_id: session_id.to_owned(),
            backoff_ms: RECONNECT_MIN_MS,
            next_attempt_ms: now_ms,
        }
    }

    /// The session to attach to.
    pub fn session_id(&self) -> (session_id: &str)
        ensures
            session_id@ == self@.session_id,
    {
        self.session_id.as_str()
    }

    /// When to try again.
    pub fn next_attempt_ms(&self) -> (at: u64)
        ensures
            at == self@.next_attempt_ms,
    {
        self.next_attempt_ms
    }

    /// The connection is gone: try again at once, and then with growing pauses.
    pub fn mark_down(&mut self, now_ms: u64)
        ensures
            final(self)@ == (LinkModel {
                backoff_ms: RECONNECT_MIN_MS,
                next_attempt_ms: now_ms,
                ..old(self)@
            }),
            well_paced(final(self)@),
    {
        self.backoff_ms = RECONNECT_MIN_MS;
        self.next_attempt_ms = now_ms;
    }

    /// An attempt failed: the pause doubles, up to the longest.
    pub fn attempt_failed(&mut self, now_ms: u64)
        requires
            well_paced(old(self)@),
            now_ms <= u64::MAX - RECONNECT_MAX_MS,
        ensures
            final(self)@ == (LinkModel {
                backoff_ms: next_backoff(old(self)@.backoff_ms),
                next_attempt_ms: (now_ms + next_backoff(old(self)@.backoff_ms)) as u64,
                ..old(self)@
            }),
            well_paced(final(self)@),
    {
        let doubled: u64 = self.backoff_ms * 2;
        self.backoff_ms = if doubled <= RECONNECT_MAX_MS {
            doubled
        } else {
            RECONNECT_MAX_MS
        };
        self.next_attempt_ms = now_ms + self.backoff_ms;
    }

    /// An attempt succeeded, in `session_id`; returns whether the daemon gave the session
    /// another name.
    pub fn reconnected(&mut self, session_id: &str) -> (renamed: bool)
        ensures
            final(self)@ == (LinkModel {
                session_id: session_id@,
                backoff_ms: RECONNECT_MIN_MS,
                ..old(self)@
            }),
            renamed == (old(self)@.session_id != session_id@),
            well_paced(final(self)@),
    {
        let renamed = !text::same(self.session_id.as_str(), session_id);
        if renamed {
            self.session_id = session_id.to_owned();
        }
        self.backoff_ms = RECONNECT_MIN_MS;
        renamed
    }
}

/// The pause after `failures` failures in a row.
pub open spec fn pause_after(failures: nat) -> u64
    decreases failures,
{
    if failures == 0 {
        RECONNECT_MIN_MS
    } else {
        next_backoff(pause_after((failures - 1) as nat))
    }
}

/// However many attempts fail in a row, the pause between two stays within its bounds,
/// never shrinks, and has reached the longest after five.
pub proof fn pauses_grow_to_the_longest(failures: nat)
    ensures
        RECONNECT_MIN_MS <= pause_after(failures) <= RECONNECT_MAX_MS,
        pause_after(failures) <= pause_after(failures + 1),
        failures >= 5 ==> pause_after(failures) == RECONNECT_MAX_MS,
    decreases failures,
{
    reveal_with_fuel(pause_after, 7);
    if failures > 0 {
        pauses_grow_to_the_longest((failures - 1) as nat);
    }
}

/// What a generation is answered before it becomes a turn: tools belong to the agent's
/// profile, so none may be given.
pub fn refuse_tools(tool_count: usize) -> (refusal: Option<LmError>)
    ensures
        match refusal {
            Some(error) => tool_count > 0 && error@ == LmErrorModel::Engine(
                "tool definitions are managed by the ZeroClaw agent profile; construct LmStage without tools"@,
            ),
            None => tool_count == 0,
        },
{
    if tool_count == 0 {
        None
    } else {
        Some(
            LmError::Engine(
                "tool definitions are managed by the ZeroClaw agent profile; construct LmStage without tools".to_owned(),
            ),
        )
    }
}

/// A handshake greets, then asks for the session by its name, for the configured agent,
/// and is done with what the daemon answers: the session, its directory and how much it
/// holds are the answer's own. An identity that was given is kept unless the daemon
/// assigns another.
pub proof fn a_handshake_opens_the_session(
    identity: IdentityModel,
    config: ZeroclawLmConfig,
    session_id: Seq<char>,
    document: JsonModel,
)
    ensures
        first_request(identity) matches HandshakeModel::Request { method, params } && {
            &&& method == "initialize"@
            &&& records::text_member(params, "tui_id"@) == identity.tui_id
            &&& records::text_member(params, "tui_sig"@) == identity.tui_sig
            &&& records::unsigned_member(params, "protocol_version"@) == Some(1u64)
        },
        match protocol::initialize_result_of(document) {
            Ok(assigned) => {
                let (stage, kept, step) = handshake_step(
                    Stage::Initializing,
                    identity,
                    config,
                    session_id,
                    OutcomeModel::Answered(Ok(document)),
                );
                &&& stage == Stage::OpeningSession
                &&& kept.tui_id == (if assigned.0 is Some {
                    assigned.0
                } else {
                    identity.tui_id
                })
                &&& kept.tui_sig == (if assigned.1 is Some {
                    assigned.1
                } else {
                    identity.tui_sig
                })
                &&& step matches HandshakeModel::Request { method, params }
                &&& method == "session/new"@
                &&& records::text_member(params, "agent_alias"@) == Some(config.agent_alias@)
                &&& records::text_member(params, "session_id"@) == Some(session_id)
                &&& records::text_member(params, "chat_mode"@) == Some("chat"@)
                &&& records::member(params, "exclude_memory"@) == (if config.exclude_memory {
                    Some(JsonModel::Bool(true))
                } else {
                    None
                })
            },
            Err(_) => true,
        },
        match protocol::session_new_result_of(document) {
            Ok(session) => handshake_step(
                Stage::OpeningSession,
                identity,
                config,
                session_id,
                OutcomeModel::Answered(Ok(document)),
            ).2 == (HandshakeModel::Ready {
                session_id: session.0,
                workspace_dir: session.2,
                message_count: session.1,
            }),
            Err(_) => true,
        },
{
    protocol::the_greeting_echoes_the_identity(1, identity.tui_id, identity.tui_sig);
    protocol::a_session_is_asked_for_by_name(
        config.agent_alias@,
        Some(session_id),
        if config.exclude_memory {
            Some(true)
        } else {
            None
        },
    );
}

/// A handshake fails where its request does or where the answer cannot be read, as a
/// failed greeting or a failed session, and tells which request it was and why.
pub proof fn a_failed_handshake_says_why(
    identity: IdentityModel,
    config: ZeroclawLmConfig,
    session_id: Seq<char>,
    document: JsonModel,
    why: Seq<char>,
)
    ensures
        handshake_step(
            Stage::Initializing,
            identity,
            config,
            session_id,
            OutcomeModel::Answered(Err(why)),
        ).2 == HandshakeModel::Failed(
            BuildErrorModel::Handshake("initialize"@ + " failed: "@ + why),
        ),
        handshake_step(
            Stage::OpeningSession,
            identity,
            config,
            session_id,
            OutcomeModel::Answered(Err(why)),
        ).2 == HandshakeModel::Failed(
            BuildErrorModel::Session("session/new"@ + " failed: "@ + why),
        ),
        handshake_step(
            Stage::Initializing,
            identity,
            config,
            session_id,
            OutcomeModel::SendFailed(why),
        ).2 == HandshakeModel::Failed(
            BuildErrorModel::Handshake("sending "@ + "initialize"@ + " failed: "@ + why),
        ),
        handshake_step(
            Stage::OpeningSession,
            identity,
            config,
            session_id,
            OutcomeModel::SendFailed(why),
        ).2 == HandshakeModel::Failed(
            BuildErrorModel::Session("sending "@ + "session/new"@ + " failed: "@ + why),
        ),
        handshake_step(
            Stage::Initializing,
            identity,
            config,
            session_id,
            OutcomeModel::TimedOut,
        ).2 == HandshakeModel::Failed(
            BuildErrorModel::Handshake("initialize"@ + " timed out after 10s"@),
        ),
        handshake_step(
            Stage::OpeningSession,
            identity,
            config,
            session_id,
            OutcomeModel::TimedOut,
        ).2 == HandshakeModel::Failed(
            BuildErrorModel::Session("session/new"@ + " timed out after 10s"@),
        ),
        protocol::initialize_result_of(document) == Err::<
            (Option<Seq<char>>, Option<Seq<char>>),
            Seq<char>,
        >(why) ==> handshake_step(
            Stage::Initializing,
            identity,
            config,
            session_id,
            OutcomeModel::Answered(Ok(document)),
        ).2 == HandshakeModel::Failed(
            BuildErrorModel::Handshake("bad initialize result: "@ + why),
        ),
        protocol::session_new_result_of(document) == Err::<
            (Seq<char>, usize, Seq<char>),
            Seq<char>,
        >(why) ==> handshake_step(
            Stage::OpeningSession,
            identity,
            config,
            session_id,
            OutcomeModel::Answered(Ok(document)),
        ).2 == HandshakeModel::Failed(
            BuildErrorModel::Session("bad session/new result: "@ + why),
        ),
{
}

/// Between turns a generation is run, a shutdown obeyed, and a connection that is gone
/// brought back; responses, updates and cancellations change nothing.
pub proof fn between_turns_only_commands_count(event: IdleEvent)
    ensures
        (idle_action(event) == IdleAction::RunTurn) == (event == IdleEvent::Command(
            CommandKind::Generate,
        )),
        (idle_action(event) == IdleAction::Exit) == (event == IdleEvent::Command(
            CommandKind::Shutdown,
        )),
        (idle_action(event) == IdleAction::MarkDown) == (event is ReaderEnded || event matches
            IdleEvent::Message(Incoming::Closed(_))),
{
}

/// The pause between two attempts begins at a quarter of a second and doubles with each
/// failure, up to five seconds.
pub proof fn pauses_double(failures: nat)
    ensures
        pause_after(0) == 250,
        pause_after(failures + 1) == (if 2 * pause_after(failures) <= 5_000 {
            2 * pause_after(failures)
        } else {
            5_000
        }),
{
    pauses_grow_to_the_longest(failures);
}

/// A generation that finds the daemon gone is answered by saying so, and a pause between
/// attempts is never shorter than the shortest nor longer than the longest.
pub proof fn an_absent_daemon_is_told(link: LinkModel)
    ensures
        unavailable_error() == LmErrorModel::Engine(
            "zeroclaw daemon unavailable; reconnecting"@,
        ),
        well_paced(link) <==> 250 <= link.backoff_ms <= 5_000,
{
}

/// What follows a turn: a generation that waits is run once the turn is done, is answered
/// that the daemon is gone where the connection is, and nothing follows a shutdown.
pub proof fn what_waits_is_run_or_answered(end: TurnEnd, queued: bool, after: AfterTurn)
    requires
        call_ensures(after_turn, (end, queued), after),
    ensures
        (after is RunQueued) == (end == TurnEnd::Done && queued),
        (after is Wait) == (end == TurnEnd::Done && !queued),
        (after is Exit) == (end == TurnEnd::Shutdown),
        after matches AfterTurn::Reconnect { queued: answer } ==> (answer is Some) == queued,
{
}

/// A fresh worker asks for the configured session, or for one made up; tools are refused
/// and their absence is not; a turn starts only in the epoch it was made for.
pub proof fn workers_keep_to_their_config(
    config: &ZeroclawLmConfig,
    session_id: String,
    tool_count: usize,
    refusal: Option<LmError>,
    turn_epoch: u64,
    current: u64,
    may: bool,
)
    requires
        call_ensures(desired_session, (config,), session_id),
        call_ensures(refuse_tools, (tool_count,), refusal),
        call_ensures(may_start, (turn_epoch, current), may),
    ensures
        config.session_id matches Some(configured) ==> session_id@ == configured@,
        config.session_id is None ==> "pc-voice-"@.is_prefix_of(session_id@),
        refusal is Some <==> tool_count > 0,
        may <==> turn_epoch == current,
{
    reveal_strlit("pc-voice-");
    assert("pc-voice-"@.len() == 9);
    if config.session_id is None {
        assert(session_id@.subrange(0, 9) =~= "pc-voice-"@);
    }
}

/// A lost connection is tried again at once; each attempt that fails waits twice as long as
/// the last, up to five seconds; and one that succeeds starts over, in the session that the
/// daemon named.
pub proof fn attempts_are_paced(
    lost: &mut Link,
    failed: &mut Link,
    back: &mut Link,
    now_ms: u64,
    session_id: &str,
    renamed: bool,
)
    requires
        call_ensures(Link::mark_down, (lost, now_ms), ()),
        call_ensures(Link::attempt_failed, (failed, now_ms), ()),
        call_ensures(Link::reconnected, (back, session_id), renamed),
        250 <= old(failed)@.backoff_ms <= 5_000,
        now_ms <= u64::MAX - 5_000,
    ensures
        final(lost)@.next_attempt_ms == now_ms,
        final(lost)@.backoff_ms == 250,
        final(lost)@.session_id == old(lost)@.session_id,
        final(failed)@.backoff_ms == (if old(failed)@.backoff_ms <= 2_500 {
            2 * old(failed)@.backoff_ms
        } else {
            5_000
        }),
        final(failed)@.next_attempt_ms == now_ms + final(failed)@.backoff_ms,
        final(failed)@.session_id == old(failed)@.session_id,
        final(back)@.session_id == session_id@,
        final(back)@.backoff_ms == 250,
        renamed <==> old(back)@.session_id != session_id@,
{
}

} // verus!
