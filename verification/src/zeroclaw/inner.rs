//! The tasks, and what commands and the outcomes of requests do to them. Every event goes
//! out through [`Inner::emit`], so a task's trail is what went out for it.
use vstd::prelude::*;
use vstd::string::*;
use crate::dispatch;
use crate::dispatch::{DispatchError, DispatchEvent, EventModel};
use crate::ids;
use crate::records;
use crate::registry::Registry;
use crate::text;
use crate::zeroclaw::classify;
use crate::zeroclaw::classify::{ClassModel, Classified};
use crate::zeroclaw::client;
use crate::zeroclaw::client::PostResult;
use crate::zeroclaw::task;
use crate::zeroclaw::task::{EntryModel, TaskEntry, TaskId, Turn, TurnModel};

verus! {

/// The tasks by their identities, and how the transport stands.
#[derive(Debug)]
pub struct Inner {
    tasks: Registry<TaskEntry>,
    cancelled: bool,
    receiver_gone: bool,
}

/// What an [`Inner`] says.
pub struct InnerModel {
    pub tasks: Map<Seq<char>, EntryModel>,
    /// Whether the transport was cancelled.
    pub cancelled: bool,
    /// Whether nobody receives its events any more.
    pub receiver_gone: bool,
}

/// Whether no event goes out any more.
pub open spec fn is_closed(state: InnerModel) -> bool {
    state.cancelled || state.receiver_gone
}

/// What task records say.
pub open spec fn tasks_model(tasks: Map<Seq<char>, TaskEntry>) -> Map<Seq<char>, EntryModel> {
    tasks.map_values(|entry: TaskEntry| entry@)
}

impl View for Inner {
    type V = InnerModel;

    closed spec fn view(&self) -> InnerModel {
        InnerModel {
            tasks: tasks_model(self.tasks@),
            cancelled: self.cancelled,
            receiver_gone: self.receiver_gone,
        }
    }
}

/// The tasks after an event was written into the trail of its own.
pub open spec fn recorded(
    tasks: Map<Seq<char>, EntryModel>,
    at_ms: u64,
    event: EventModel,
) -> Map<Seq<char>, EntryModel> {
    match dispatch::task_of(event) {
        Some(task_id) => if tasks.contains_key(task_id) {
            let entry = tasks[task_id];
            let events = dispatch::ring_pushed(
                entry.events,
                (at_ms, event),
                dispatch::EVENT_RING_CAPACITY as nat,
            );
            tasks.insert(task_id, EntryModel { events, ..entry })
        } else {
            tasks
        },
        None => tasks,
    }
}

/// The tasks after an event was emitted: its trail tells what went out, so on a `closed`
/// channel none changes.
pub open spec fn told(
    tasks: Map<Seq<char>, EntryModel>,
    at_ms: u64,
    event: EventModel,
    closed: bool,
) -> Map<Seq<char>, EntryModel> {
    if closed {
        tasks
    } else {
        recorded(tasks, at_ms, event)
    }
}

/// The tasks with a request under way, or not, for one of them.
pub open spec fn with_flight(
    tasks: Map<Seq<char>, EntryModel>,
    task_id: Seq<char>,
    in_flight: bool,
) -> Map<Seq<char>, EntryModel> {
    if tasks.contains_key(task_id) {
        tasks.insert(task_id, EntryModel { in_flight, ..tasks[task_id] })
    } else {
        tasks
    }
}

/// The tasks after an exchange joined the transcript of one of them.
pub open spec fn with_turn(
    tasks: Map<Seq<char>, EntryModel>,
    task_id: Seq<char>,
    turn: TurnModel,
) -> Map<Seq<char>, EntryModel> {
    if tasks.contains_key(task_id) {
        let transcript = dispatch::ring_pushed(
            tasks[task_id].transcript,
            turn,
            task::TRANSCRIPT_CAPACITY as nat,
        );
        tasks.insert(task_id, EntryModel { transcript, ..tasks[task_id] })
    } else {
        tasks
    }
}

/// What is told of a request's outcome.
pub open spec fn event_of(task_id: Seq<char>, class: ClassModel) -> EventModel {
    match class {
        ClassModel::Completed { message } => EventModel::Completion { task_id, message },
        ClassModel::Failed { message, retryable } => EventModel::Failure {
            task_id,
            message,
            retryable,
        },
    }
}

/// The tasks after a request ended: the task is free again, and an answer joins its
/// transcript with the message as the user wrote it.
pub open spec fn settled(
    tasks: Map<Seq<char>, EntryModel>,
    task_id: Seq<char>,
    user: Seq<char>,
    class: ClassModel,
) -> Map<Seq<char>, EntryModel> {
    let free = with_flight(tasks, task_id, false);
    match class {
        ClassModel::Completed { message } => with_turn(
            free,
            task_id,
            TurnModel { user, agent: message },
        ),
        ClassModel::Failed { .. } => free,
    }
}

/// Why an update is refused; `None` where the task is known and between requests.
pub open spec fn refusal_of(tasks: Map<Seq<char>, EntryModel>, task_id: Seq<char>) -> Option<
    Seq<char>,
> {
    if !tasks.contains_key(task_id) {
        Some("unknown task_id"@)
    } else if tasks[task_id].in_flight {
        Some(
            "task is still running; the ZeroClaw webhook API has no way to deliver input to an executing turn"@,
        )
    } else {
        None
    }
}

/// A request that departs for a task.
#[derive(Debug)]
pub struct Delivery {
    pub task_id: TaskId,
    /// What the gateway is told, with the transcript before it where there is one.
    pub wire: String,
    /// The message as the user wrote it.
    pub user: String,
}

/// What an update comes to.
#[derive(Debug)]
pub enum Update {
    /// It is refused, and this is what is told.
    Refused(Result<DispatchEvent, DispatchError>),
    /// This request departs.
    Post(Delivery),
}

proof fn lemma_inserted(tasks: Map<Seq<char>, TaskEntry>, task_id: Seq<char>, entry: TaskEntry)
    ensures
        tasks_model(tasks.insert(task_id, entry)) == tasks_model(tasks).insert(task_id, entry@),
        tasks_model(tasks.remove(task_id).insert(task_id, entry)) == tasks_model(tasks).insert(
            task_id,
            entry@,
        ),
{
    assert(tasks_model(tasks.insert(task_id, entry)) =~= tasks_model(tasks).insert(
        task_id,
        entry@,
    ));
    assert(tasks.remove(task_id).insert(task_id, entry) =~= tasks.insert(task_id, entry));
}

impl Inner {
    /// Whether each task stands once.
    pub closed spec fn wf(&self) -> bool {
        self.tasks.wf()
    }

    /// No tasks.
    pub fn new() -> (inner: Inner)
        ensures
            inner.wf(),
            inner@ == (InnerModel {
                tasks: Map::empty(),
                cancelled: false,
                receiver_gone: false,
            }),
    {
        let inner = Inner { tasks: Registry::new(), cancelled: false, receiver_gone: false };
        assert(inner@.tasks =~= Map::empty());
        inner
    }

    /// Whether the transport was cancelled.
    pub fn is_cancelled(&self) -> (cancelled: bool)
        ensures
            cancelled == self@.cancelled,
    {
        self.cancelled
    }

    /// Cancels the transport. Turns at the gateway go on.
    pub fn cancel(&mut self)
        requires
            old(self).wf(),
        ensures
            final(self).wf(),
            final(self)@ == (InnerModel { cancelled: true, ..old(self)@ }),
    {
        self.cancelled = true;
    }

    /// Takes in that nobody receives the transport's events any more.
    pub fn receiver_dropped(&mut self)
        requires
            old(self).wf(),
        ensures
            final(self).wf(),
            final(self)@ == (InnerModel { receiver_gone: true, ..old(self)@ }),
    {
        self.receiver_gone = true;
    }

    /// Whether a command is taken: none is after the transport was cancelled.
    pub fn accepts(&self) -> (accepted: Result<(), DispatchError>)
        ensures
            match accepted {
                Ok(()) => !self@.cancelled,
                Err(error) => self@.cancelled && error.message@ == "dispatch transport cancelled"@
                    && !error.fatal,
            },
    {
        if self.cancelled {
            Err(dispatch::transport_cancelled())
        } else {
            Ok(())
        }
    }

    /// Keeps a task under `task_id`, in place of any that stood there.
    pub fn keep(&mut self, task_id: &TaskId, entry: TaskEntry)
        requires
            old(self).wf(),
        ensures
            final(self).wf(),
            final(self)@ == (InnerModel {
                tasks: old(self)@.tasks.insert(task_id@, entry@),
                ..old(self)@
            }),
    {
        proof {
            lemma_inserted(self.tasks@, task_id@, entry);
        }
        self.tasks.insert(task_id.as_str(), entry);
    }

    /// What is kept of a task.
    pub fn entry(&self, task_id: &TaskId) -> (entry: Option<&TaskEntry>)
        requires
            self.wf(),
        ensures
            match entry {
                Some(entry) => self@.tasks.contains_key(task_id@) && entry@
                    == self@.tasks[task_id@],
                None => !self@.tasks.contains_key(task_id@),
            },
    {
        self.tasks.get(task_id.as_str())
    }

    /// Hands an event out to be sent, written into its task's trail; where the channel is
    /// closed it is neither sent nor written down, and that is an error.
    pub fn emit(&mut self, at_ms: u64, event: DispatchEvent) -> (sent: Result<
        DispatchEvent,
        DispatchError,
    >)
        requires
            old(self).wf(),
        ensures
            final(self).wf(),
            final(self)@ == (InnerModel {
                tasks: told(old(self)@.tasks, at_ms, event@, is_closed(old(self)@)),
                ..old(self)@
            }),
            dispatch::is_emission(sent, event@, is_closed(old(self)@)),
    {
        if self.cancelled || self.receiver_gone {
            return Err(dispatch::channel_closed());
        }
        match dispatch::task_id_of(&event) {
            Some(task_id) => {
                let ghost before = self.tasks@;
                match self.tasks.remove(task_id.as_str()) {
                    Some(mut entry) => {
                        entry.events.push(at_ms, event.copy());
                        self.tasks.insert(task_id.as_str(), entry);
                        proof {
                            lemma_inserted(before, task_id@, entry);
                        }
                    },
                    None => {},
                }
            },
            None => {},
        }
        Ok(event)
    }

    /// Takes a task on: it is kept under a fresh identity, and its first request departs
    /// once that is told. Nothing has been answered yet, so nothing is replayed.
    pub fn create(
        &mut self,
        at_ms: u64,
        tool_call_id: &str,
        task: &str,
        context: Option<&str>,
    ) -> (taken: (Result<DispatchEvent, DispatchError>, Delivery))
        requires
            old(self).wf(),
        ensures
            final(self).wf(),
            ids::is_prefixed(taken.1.task_id@, "pc-"@),
            taken.1.wire@ == dispatch::with_context(task@, records::optional_str(context)),
            taken.1.user@ == taken.1.wire@,
            final(self)@ == (InnerModel { tasks: final(self)@.tasks, ..old(self)@ }),
            ({
                let task_id = taken.1.task_id@;
                let event = EventModel::Accepted { tool_call_id: tool_call_id@, task_id };
                &&& final(self)@.tasks == told(
                    old(self)@.tasks.insert(task_id, task::fresh_entry()),
                    at_ms,
                    event,
                    is_closed(old(self)@),
                )
                &&& dispatch::is_emission(taken.0, event, is_closed(old(self)@))
            }),
    {
        let task_id = TaskId::mint();
        let message = client::compose_message(task, context);
        self.keep(&task_id, TaskEntry::new());
        let sent = self.emit(
            at_ms,
            DispatchEvent::Accepted {
                tool_call_id: tool_call_id.to_owned(),
                task_id: task_id.to_text(),
            },
        );
        (sent, Delivery { task_id, wire: message.clone(), user: message })
    }

    /// Updates a task: refused for an unknown one and for one whose turn is under way, else
    /// the task's slot is taken and the request that departs carries its transcript.
    pub fn update(
        &mut self,
        at_ms: u64,
        tool_call_id: &str,
        task_id: TaskId,
        message: &str,
    ) -> (update: Update)
        requires
            old(self).wf(),
        ensures
            final(self).wf(),
            final(self)@ == (InnerModel { tasks: final(self)@.tasks, ..old(self)@ }),
            match (refusal_of(old(self)@.tasks, task_id@), update) {
                (Some(refusal), Update::Refused(sent)) => {
                    &&& final(self)@.tasks == old(self)@.tasks
                    &&& dispatch::is_emission(
                        sent,
                        EventModel::Rejected { tool_call_id: tool_call_id@, message: refusal },
                        is_closed(old(self)@),
                    )
                },
                (None, Update::Post(delivery)) => {
                    &&& final(self)@.tasks == with_flight(old(self)@.tasks, task_id@, true)
                    &&& delivery.task_id@ == task_id@
                    &&& delivery.wire@ == client::follow_up(
                        old(self)@.tasks[task_id@].transcript,
                        message@,
                    )
                    &&& delivery.user@ == message@
                },
                _ => false,
            },
    {
        let ghost before = self.tasks@;
        let refusal: &str = match self.tasks.remove(task_id.as_str()) {
            None => "unknown task_id",
            Some(mut entry) => {
                let running = entry.in_flight;
                let transcript = entry.transcript.snapshot();
                entry.in_flight = true;
                proof {
                    lemma_inserted(before, task_id@, entry);
                    if running {
                        assert(tasks_model(before).insert(task_id@, entry@) =~= tasks_model(
                            before,
                        ));
                    }
                }
                self.tasks.insert(task_id.as_str(), entry);
                if !running {
                    let wire = client::compose_follow_up(transcript.as_slice(), message);
                    return Update::Post(
                        Delivery { task_id, wire, user: message.to_owned() },
                    );
                }
                "task is still running; the ZeroClaw webhook API has no way to deliver input to an executing turn"
            },
        };
        Update::Refused(
            self.emit(
                at_ms,
                DispatchEvent::Rejected {
                    tool_call_id: tool_call_id.to_owned(),
                    message: refusal.to_owned(),
                },
            ),
        )
    }

    /// Frees a task once its request ended or was abandoned.
    pub fn finish(&mut self, task_id: &TaskId)
        requires
            old(self).wf(),
        ensures
            final(self).wf(),
            final(self)@ == (InnerModel {
                tasks: with_flight(old(self)@.tasks, task_id@, false),
                ..old(self)@
            }),
    {
        let ghost before = self.tasks@;
        match self.tasks.remove(task_id.as_str()) {
            Some(mut entry) => {
                entry.in_flight = false;
                proof {
                    lemma_inserted(before, task_id@, entry);
                }
                self.tasks.insert(task_id.as_str(), entry);
            },
            None => {},
        }
    }

    /// Adds an exchange to a task's transcript.
    pub fn record_turn(&mut self, task_id: &TaskId, turn: Turn)
        requires
            old(self).wf(),
        ensures
            final(self).wf(),
            final(self)@ == (InnerModel {
                tasks: with_turn(old(self)@.tasks, task_id@, turn@),
                ..old(self)@
            }),
    {
        let ghost before = self.tasks@;
        match self.tasks.remove(task_id.as_str()) {
            Some(mut entry) => {
                entry.transcript.push(turn);
                proof {
                    lemma_inserted(before, task_id@, entry);
                }
                self.tasks.insert(task_id.as_str(), entry);
            },
            None => {},
        }
    }

    /// Takes in what a request came to, and tells it. Where the request was abandoned
    /// (`None`) the task is freed and nothing is told.
    pub fn deliver(&mut self, at_ms: u64, delivery: Delivery, outcome: Option<PostResult>) -> (sent:
        Option<Result<DispatchEvent, DispatchError>>)
        requires
            old(self).wf(),
        ensures
            final(self).wf(),
            final(self)@ == (InnerModel { tasks: final(self)@.tasks, ..old(self)@ }),
            match (outcome, sent) {
                (None, None) => final(self)@.tasks == with_flight(
                    old(self)@.tasks,
                    delivery.task_id@,
                    false,
                ),
                (Some(outcome), Some(sent)) => {
                    let class = classify::class_of(outcome);
                    let event = event_of(delivery.task_id@, class);
                    &&& final(self)@.tasks == told(
                        settled(old(self)@.tasks, delivery.task_id@, delivery.user@, class),
                        at_ms,
                        event,
                        is_closed(old(self)@),
                    )
                    &&& dispatch::is_emission(sent, event, is_closed(old(self)@))
                },
                _ => false,
            },
    {
        self.finish(&delivery.task_id);
        let outcome = match outcome {
            Some(outcome) => outcome,
            None => {
                return None;
            },
        };
        let event = match classify::classify(&outcome) {
            Classified::Completed { message } => {
                self.record_turn(
                    &delivery.task_id,
                    Turn { user: delivery.user, agent: message.clone() },
                );
                DispatchEvent::Completion { task_id: delivery.task_id.to_text(), message }
            },
            Classified::Failed { message, retryable } => DispatchEvent::Failure {
                task_id: delivery.task_id.to_text(),
                message,
                retryable,
            },
        };
        Some(self.emit(at_ms, event))
    }

    /// A copy of a task's trail, oldest first; `None` for an unknown task.
    pub fn task_events(&self, task_id: &TaskId) -> (events: Option<Vec<(u64, DispatchEvent)>>)
        requires
            self.wf(),
        ensures
            match events {
                Some(events) => self@.tasks.contains_key(task_id@) && dispatch::trail_model(
                    events@,
                ) == self@.tasks[task_id@].events,
                None => !self@.tasks.contains_key(task_id@),
            },
    {
        match self.entry(task_id) {
            Some(entry) => Some(entry.events.snapshot()),
            None => None,
        }
    }
}

/// No two requests are under way for one task: after one departed every further update is
/// refused, until it ended.
pub proof fn one_request_at_a_time(
    tasks: Map<Seq<char>, EntryModel>,
    task_id: Seq<char>,
    user: Seq<char>,
    class: ClassModel,
    at_ms: u64,
    closed: bool,
)
    requires
        refusal_of(tasks, task_id) is None,
    ensures
        refusal_of(with_flight(tasks, task_id, true), task_id) is Some,
        ({
            let flying = with_flight(tasks, task_id, true);
            let after = told(
                settled(flying, task_id, user, class),
                at_ms,
                event_of(task_id, class),
                closed,
            );
            refusal_of(after, task_id) is None
        }),
{
}

/// A fresh task takes no update before its first request ended.
pub proof fn a_fresh_task_is_busy(
    tasks: Map<Seq<char>, EntryModel>,
    task_id: Seq<char>,
    tool_call_id: Seq<char>,
    at_ms: u64,
    closed: bool,
)
    ensures
        refusal_of(
            told(
                tasks.insert(task_id, task::fresh_entry()),
                at_ms,
                EventModel::Accepted { tool_call_id, task_id },
                closed,
            ),
            task_id,
        ) is Some,
{
}

/// Only an answered turn joins a task's transcript, with the message as the user wrote it;
/// a failed one leaves it as it was.
pub proof fn only_answers_join_the_transcript(
    tasks: Map<Seq<char>, EntryModel>,
    task_id: Seq<char>,
    user: Seq<char>,
    class: ClassModel,
)
    requires
        tasks.contains_key(task_id),
    ensures
        settled(tasks, task_id, user, class)[task_id].transcript == (match class {
            ClassModel::Completed { message } => dispatch::ring_pushed(
                tasks[task_id].transcript,
                TurnModel { user, agent: message },
                task::TRANSCRIPT_CAPACITY as nat,
            ),
            ClassModel::Failed { .. } => tasks[task_id].transcript,
        }),
{
}

/// The outcome of one task's request touches no other task, and no task is ever dropped.
pub proof fn other_tasks_are_untouched(
    tasks: Map<Seq<char>, EntryModel>,
    task_id: Seq<char>,
    user: Seq<char>,
    class: ClassModel,
    other: Seq<char>,
)
    requires
        other != task_id,
    ensures
        settled(tasks, task_id, user, class).dom() =~= tasks.dom(),
        tasks.contains_key(other) ==> settled(tasks, task_id, user, class)[other]
            == tasks[other],
{
}

/// A request is told of once it ended and not before: there is no progress and no question,
/// only an answer or a failure, of the task that made the request.
pub proof fn only_ends_are_told(task_id: Seq<char>, class: ClassModel)
    ensures
        event_of(task_id, class) is Completion || event_of(task_id, class) is Failure,
        dispatch::task_of(event_of(task_id, class)) == Some(task_id),
{
}

/// A task's trail does not drift from what is told: its newest entry is the event that
/// goes out, an event that does not go out leaves every trail as it was, and no other task's
/// trail changes.
pub proof fn the_trail_keeps_what_is_told(
    tasks: Map<Seq<char>, EntryModel>,
    at_ms: u64,
    event: EventModel,
    closed: bool,
    task_id: Seq<char>,
    other: Seq<char>,
)
    requires
        dispatch::task_of(event) == Some(task_id),
        tasks.contains_key(task_id),
        other != task_id,
    ensures
        closed ==> told(tasks, at_ms, event, closed) == tasks,
        !closed ==> told(tasks, at_ms, event, closed)[task_id].events.len() > 0 && told(
            tasks,
            at_ms,
            event,
            closed,
        )[task_id].events.last() == (at_ms, event),
        told(tasks, at_ms, event, closed).dom() =~= tasks.dom(),
        tasks.contains_key(other) ==> told(tasks, at_ms, event, closed)[other] == tasks[other],
{
}

/// What is told of a request is what it came to, in its own words and of its own task; an
/// answer joins the transcript as the newest exchange, what the user wrote beside what the
/// agent answered, and the transcript keeps the newest.
pub proof fn answers_are_told_and_kept(
    tasks: Map<Seq<char>, EntryModel>,
    task_id: Seq<char>,
    user: Seq<char>,
    message: Seq<char>,
    retryable: bool,
)
    requires
        tasks.contains_key(task_id),
    ensures
        event_of(task_id, ClassModel::Completed { message }) == (EventModel::Completion {
            task_id,
            message,
        }),
        event_of(task_id, ClassModel::Failed { message, retryable }) == (EventModel::Failure {
            task_id,
            message,
            retryable,
        }),
        ({
            let before = tasks[task_id];
            let after = settled(tasks, task_id, user, ClassModel::Completed { message })[task_id];
            &&& after.transcript.len() > 0
            &&& after.transcript.last().user == user
            &&& after.transcript.last().agent == message
            &&& before.transcript.len() < 16 ==> after.transcript.drop_last()
                == before.transcript
            &&& before.transcript.len() == 16 ==> after.transcript.drop_last()
                == before.transcript.drop_first()
            &&& !after.in_flight
            &&& after.events == before.events
        }),
        ({
            let before = tasks[task_id];
            let after = settled(
                tasks,
                task_id,
                user,
                ClassModel::Failed { message, retryable },
            )[task_id];
            &&& after.transcript == before.transcript
            &&& !after.in_flight
            &&& after.events == before.events
        }),
{
    let before = tasks[task_id];
    let after = settled(tasks, task_id, user, ClassModel::Completed { message })[task_id];
    if before.transcript.len() < 16 {
        assert(after.transcript.drop_last() =~= before.transcript);
    } else if before.transcript.len() == 16 {
        assert(after.transcript.drop_last() =~= before.transcript.drop_first());
    }
}

/// An update is refused for a task that is not known, and for one whose request is under
/// way, and the refusals differ; for any other it is taken.
pub proof fn refusals_tell_the_reasons_apart(
    tasks: Map<Seq<char>, EntryModel>,
    task_id: Seq<char>,
)
    ensures
        (refusal_of(tasks, task_id) == Some("unknown task_id"@)) == !tasks.contains_key(task_id),
        refusal_of(tasks, task_id) is None <==> tasks.contains_key(task_id)
            && !tasks[task_id].in_flight,
        tasks.contains_key(task_id) && tasks[task_id].in_flight ==> refusal_of(tasks, task_id)
            == Some(
            "task is still running; the ZeroClaw webhook API has no way to deliver input to an executing turn"@,
        ),
{
    reveal_strlit("unknown task_id");
    reveal_strlit(
        "task is still running; the ZeroClaw webhook API has no way to deliver input to an executing turn",
    );
    assert("unknown task_id"@[0] == 'u');
    assert(
    "task is still running; the ZeroClaw webhook API has no way to deliver input to an executing turn"@[0]
        == 't');
}

/// A request takes and frees its own task's slot and changes nothing else; a fresh task
/// begins with its slot taken and nothing said.
pub proof fn slots_are_taken_and_freed(
    tasks: Map<Seq<char>, EntryModel>,
    task_id: Seq<char>,
    other: Seq<char>,
    in_flight: bool,
)
    ensures
        with_flight(tasks, task_id, in_flight).dom() =~= tasks.dom(),
        tasks.contains_key(task_id) ==> {
            let after = with_flight(tasks, task_id, in_flight)[task_id];
            &&& after.in_flight == in_flight
            &&& after.transcript == tasks[task_id].transcript
            &&& after.events == tasks[task_id].events
        },
        other != task_id && tasks.contains_key(other) ==> with_flight(tasks, task_id, in_flight)[other]
            == tasks[other],
        task::fresh_entry().in_flight,
        task::fresh_entry().transcript.len() == 0,
        task::fresh_entry().events.len() == 0,
{
}

/// A trail grows by exactly the event that went out, behind what it held; where it was
/// full the oldest makes room.
pub proof fn trails_grow_by_what_went_out(
    tasks: Map<Seq<char>, EntryModel>,
    at_ms: u64,
    event: EventModel,
    task_id: Seq<char>,
)
    requires
        dispatch::task_of(event) == Some(task_id),
        tasks.contains_key(task_id),
    ensures
        ({
            let before = tasks[task_id].events;
            let after = told(tasks, at_ms, event, false)[task_id];
            &&& before.len() != 32 ==> after.events == before.push((at_ms, event))
            &&& before.len() == 32 ==> after.events == before.drop_first().push((at_ms, event))
            &&& after.transcript == tasks[task_id].transcript
            &&& after.in_flight == tasks[task_id].in_flight
        }),
        told(tasks, at_ms, event, true) == tasks,
{
}

/// The channel is closed once the transport was cancelled or nobody receives its events,
/// and open until then.
pub proof fn the_channel_closes_for_good(state: InnerModel)
    ensures
        is_closed(InnerModel { cancelled: true, ..state }),
        is_closed(InnerModel { receiver_gone: true, ..state }),
        !is_closed(InnerModel { cancelled: false, receiver_gone: false, ..state }),
{
}

/// A task is taken on as it was asked: what is sent is the task and its context, and that
/// is what the user wrote; it is told under the task's own fresh identity, and its slot is
/// taken.
pub proof fn tasks_are_taken_on_as_asked(
    inner: &mut Inner,
    at_ms: u64,
    tool_call_id: &str,
    task: &str,
    context: Option<&str>,
    taken: (Result<DispatchEvent, DispatchError>, Delivery),
)
    requires
        call_ensures(Inner::create, (inner, at_ms, tool_call_id, task, context), taken),
    ensures
        task@.is_prefix_of(taken.1.wire@),
        context is None ==> taken.1.wire@ == task@,
        taken.1.user@ == taken.1.wire@,
        taken.0 matches Ok(event) ==> event@ == (EventModel::Accepted {
            tool_call_id: tool_call_id@,
            task_id: taken.1.task_id@,
        }),
        taken.0 is Ok == !(old(inner)@.cancelled || old(inner)@.receiver_gone),
        final(inner)@.tasks.contains_key(taken.1.task_id@),
        final(inner)@.tasks[taken.1.task_id@].in_flight,
        final(inner)@.tasks[taken.1.task_id@].transcript.len() == 0,
{
    let asked = records::optional_str(context);
    dispatch::tasks_come_before_their_context(
        task@,
        match asked {
            Some(context) => context,
            None => Seq::empty(),
        },
    );
    assert(task@.subrange(0, task@.len() as int) =~= task@);
}

/// An update of a task between requests sends the message behind every exchange before it,
/// for that task, and keeps the message as the user wrote it; any other is refused and
/// changes nothing.
pub proof fn updates_replay_the_transcript(
    inner: &mut Inner,
    at_ms: u64,
    tool_call_id: &str,
    task_id: TaskId,
    message: &str,
    update: Update,
    i: int,
)
    requires
        call_ensures(Inner::update, (inner, at_ms, tool_call_id, task_id, message), update),
    ensures
        update is Post <==> old(inner)@.tasks.contains_key(task_id@)
            && !old(inner)@.tasks[task_id@].in_flight,
        update is Refused ==> final(inner)@.tasks == old(inner)@.tasks,
        update matches Update::Post(delivery) ==> {
            let transcript = old(inner)@.tasks[task_id@].transcript;
            &&& delivery.task_id@ == task_id@
            &&& delivery.user@ == message@
            &&& message@.is_suffix_of(delivery.wire@)
            &&& transcript.len() == 0 ==> delivery.wire@ == message@
            &&& 0 <= i < transcript.len() ==> text::occurs(
                delivery.wire@,
                "User:\n"@ + transcript[i].user + "\n\nYou:\n"@ + transcript[i].agent + "\n\n"@,
            )
            &&& final(inner)@.tasks[task_id@].in_flight
            &&& final(inner)@.tasks[task_id@].transcript == transcript
        },
{
    client::every_exchange_is_replayed(
        old(inner)@.tasks[task_id@].transcript,
        message@,
        i,
        Seq::empty(),
    );
}

/// What a request came to is told of its own task, and the task is free again: an answer in
/// its own words, which joins the transcript beside what the user wrote. A request that was
/// abandoned is not told.
pub proof fn outcomes_are_told_of_their_task(
    inner: &mut Inner,
    at_ms: u64,
    delivery: Delivery,
    outcome: Option<PostResult>,
    sent: Option<Result<DispatchEvent, DispatchError>>,
    reply: Seq<char>,
)
    requires
        call_ensures(Inner::deliver, (inner, at_ms, delivery, outcome), sent),
        old(inner)@.tasks.contains_key(delivery.task_id@),
    ensures
        sent is Some == outcome is Some,
        !final(inner)@.tasks[delivery.task_id@].in_flight,
        outcome matches Some(PostResult::Response { status, body }) ==> (200 <= status < 300
            && records::optional_view(body.status) is None && records::optional_view(
            body.response,
        ) == Some(reply) && reply.len() > 0 ==> {
            let transcript = final(inner)@.tasks[delivery.task_id@].transcript;
            &&& sent matches Some(Ok(event)) ==> event@ == (EventModel::Completion {
                task_id: delivery.task_id@,
                message: reply,
            })
            &&& transcript.len() > 0
            &&& transcript.last().user == delivery.user@
            &&& transcript.last().agent == reply
        }),
        outcome is None ==> final(inner)@.tasks[delivery.task_id@].transcript
            == old(inner)@.tasks[delivery.task_id@].transcript,
{
    match outcome {
        Some(PostResult::Response { status, body }) => {
            if 200 <= status < 300 {
                classify::replies_are_told_as_they_are(status, body, reply);
            }
        },
        _ => {},
    }
}

} // verus!
