//! The tasks, and what commands and looks at their runs do to them. Every event goes out
//! through [`Inner::emit`], so a task's trail is what went out for it.
use vstd::prelude::*;
use vstd::string::*;
use crate::dispatch;
use crate::dispatch::{DispatchError, DispatchEvent, EventModel};
use crate::hermes::classify::{ClassModel, Classified};
use crate::hermes::client;
use crate::hermes::client::{PollModel, PollResult};
use crate::hermes::task;
use crate::hermes::task::{EntryModel, HistoryTurn, RunId, TaskEntry, TaskId};
use crate::ids;
use crate::json::{Json, JsonModel};
use crate::records;
use crate::registry::Registry;
use crate::text;

verus! {

/// The tasks by their identities, and how the transport stands.
#[derive(Debug)]
pub struct Inner {
    tasks: Registry<TaskEntry>,
    cancelled: bool,
    receiver_gone: bool,
}

/// What an [`Inner`] says.
pub struct InnerModel {
    pub tasks: Map<Seq<char>, EntryModel>,
    /// Whether the transport was cancelled.
    pub cancelled: bool,
    /// Whether nobody receives its events any more.
    pub receiver_gone: bool,
}

/// Whether no event goes out any more.
pub open spec fn is_closed(state: InnerModel) -> bool {
    state.cancelled || state.receiver_gone
}

/// What task records say.
pub open spec fn tasks_model(tasks: Map<Seq<char>, TaskEntry>) -> Map<Seq<char>, EntryModel> {
    tasks.map_values(|entry: TaskEntry| entry@)
}

impl View for Inner {
    type V = InnerModel;

    closed spec fn view(&self) -> InnerModel {
        InnerModel {
            tasks: tasks_model(self.tasks@),
            cancelled: self.cancelled,
            receiver_gone: self.receiver_gone,
        }
    }
}

/// The tasks after an event was written into the trail of its own.
pub open spec fn recorded(
    tasks: Map<Seq<char>, EntryModel>,
    at_ms: u64,
    event: EventModel,
) -> Map<Seq<char>, EntryModel> {
    match dispatch::task_of(event) {
        Some(task_id) => if tasks.contains_key(task_id) {
            let entry = tasks[task_id];
            let events = dispatch::ring_pushed(
                entry.events,
                (at_ms, event),
                dispatch::EVENT_RING_CAPACITY as nat,
            );
            tasks.insert(task_id, EntryModel { events, ..entry })
        } else {
            tasks
        },
        None => tasks,
    }
}

/// The tasks after an event was emitted: its trail tells what went out, so on a `closed`
/// channel none changes.
pub open spec fn told(
    tasks: Map<Seq<char>, EntryModel>,
    at_ms: u64,
    event: EventModel,
    closed: bool,
) -> Map<Seq<char>, EntryModel> {
    if closed {
        tasks
    } else {
        recorded(tasks, at_ms, event)
    }
}

/// A task after one look at its run, and what is told of it. A run that ended leaves the
/// task without one; an answer becomes part of the conversation; a status that was seen
/// before is not told again.
pub open spec fn observed(task_id: Seq<char>, entry: EntryModel, class: ClassModel) -> (
    EntryModel,
    Option<EventModel>,
) {
    match class {
        ClassModel::Completed { message } => (
            EntryModel {
                active_run: None,
                history: entry.history.push(task::assistant_turn(message)),
                ..entry
            },
            Some(EventModel::Completion { task_id, message }),
        ),
        ClassModel::Failed { message } => (
            EntryModel { active_run: None, ..entry },
            Some(EventModel::Failure { task_id, message, retryable: false }),
        ),
        ClassModel::Cancelled => (
            EntryModel { active_run: None, ..entry },
            Some(EventModel::Failure { task_id, message: "run cancelled"@, retryable: true }),
        ),
        ClassModel::InFlight { status } => if entry.last_status == Some(status) {
            (entry, None)
        } else {
            (
                EntryModel { last_status: Some(status), ..entry },
                Some(EventModel::Progress { task_id, message: status }),
            )
        },
    }
}

/// Whether `run` is the run executed for a task.
pub open spec fn is_active(
    tasks: Map<Seq<char>, EntryModel>,
    task_id: Seq<char>,
    run: Seq<char>,
) -> bool {
    tasks.contains_key(task_id) && tasks[task_id].active_run == Some(run)
}

/// The tasks after one look at a run, and what is told of it. A run that its task moved
/// past counts for nothing.
pub open spec fn applied(
    tasks: Map<Seq<char>, EntryModel>,
    task_id: Seq<char>,
    run: Seq<char>,
    class: ClassModel,
) -> (Map<Seq<char>, EntryModel>, Option<EventModel>) {
    if is_active(tasks, task_id, run) {
        let (entry, event) = observed(task_id, tasks[task_id], class);
        (tasks.insert(task_id, entry), event)
    } else {
        (tasks, None)
    }
}

/// The tasks after a run was taken off its task.
pub open spec fn cleared(
    tasks: Map<Seq<char>, EntryModel>,
    task_id: Seq<char>,
    run: Seq<char>,
) -> Map<Seq<char>, EntryModel> {
    if is_active(tasks, task_id, run) {
        tasks.insert(task_id, EntryModel { active_run: None, ..tasks[task_id] })
    } else {
        tasks
    }
}

/// The tasks after a look at a run came to `result`, before what is told of it is written
/// into the trail, and what is told.
pub open spec fn looked(
    tasks: Map<Seq<char>, EntryModel>,
    task_id: Seq<char>,
    run: Seq<char>,
    result: PollModel,
) -> (Map<Seq<char>, EntryModel>, Option<EventModel>) {
    match result {
        PollModel::Status(class) => applied(tasks, task_id, run, class),
        PollModel::Gone => (
            cleared(tasks, task_id, run),
            if is_active(tasks, task_id, run) {
                Some(
                    EventModel::Failure {
                        task_id,
                        message: "run state expired before it was observed"@,
                        retryable: false,
                    },
                )
            } else {
                None
            },
        ),
        PollModel::Transient(_) => (tasks, None),
    }
}

/// Why an update is refused; `None` where the task is known and between runs.
pub open spec fn refusal_of(tasks: Map<Seq<char>, EntryModel>, task_id: Seq<char>) -> Option<
    Seq<char>,
> {
    if !tasks.contains_key(task_id) {
        Some("unknown task_id"@)
    } else if tasks[task_id].active_run is Some {
        Some(
            "task is still running; the Hermes runs API has no endpoint that delivers input to an in-flight run"@,
        )
    } else {
        None
    }
}

/// A task with the run that an update started.
pub open spec fn rearmed(entry: EntryModel, run: Seq<char>, message: Seq<char>) -> EntryModel {
    EntryModel {
        active_run: Some(run),
        last_status: None,
        events: entry.events,
        history: entry.history.push(task::user_turn(message)),
    }
}

/// A task that is about to be created.
#[derive(Debug)]
pub struct Creation {
    pub task_id: TaskId,
    /// What its first run is asked.
    pub input: String,
    /// The request's body.
    pub body: Json,
}

/// What an update comes to.
#[derive(Debug)]
pub enum Update {
    /// It is refused, and this is what is told.
    Refused(Result<DispatchEvent, DispatchError>),
    /// This body is posted to start a run.
    Post(Json),
}

/// What is emitted, where something is.
pub open spec fn is_optional_emission(
    sent: Option<Result<DispatchEvent, DispatchError>>,
    event: Option<EventModel>,
    closed: bool,
) -> bool {
    match (sent, event) {
        (Some(sent), Some(event)) => dispatch::is_emission(sent, event, closed),
        (None, None) => true,
        _ => false,
    }
}

/// Begins a task: a fresh identity, what its first run is asked, and the body that asks it.
/// A first run opens the conversation, so it replays none.
pub fn begin_create(task: &str, context: Option<&str>) -> (creation: Creation)
    ensures
        ids::is_prefixed(creation.task_id@, "pc-"@),
        creation.input@ == dispatch::with_context(task@, records::optional_str(context)),
        creation.body@ == client::run_document(creation.input@, creation.task_id@, Seq::empty()),
{
    let task_id = TaskId::mint();
    let input = client::compose_input(task, context);
    let history: Vec<HistoryTurn> = Vec::new();
    assert(task::history_model(history@) =~= Seq::empty());
    let body = client::run_request(input.as_str(), task_id.as_str(), &history);
    Creation { task_id, input, body }
}

proof fn lemma_inserted(tasks: Map<Seq<char>, TaskEntry>, task_id: Seq<char>, entry: TaskEntry)
    ensures
        tasks_model(tasks.insert(task_id, entry)) == tasks_model(tasks).insert(task_id, entry@),
        tasks_model(tasks.remove(task_id).insert(task_id, entry)) == tasks_model(tasks).insert(
            task_id,
            entry@,
        ),
{
    assert(tasks_model(tasks.insert(task_id, entry)) =~= tasks_model(tasks).insert(
        task_id,
        entry@,
    ));
    assert(tasks.remove(task_id).insert(task_id, entry) =~= tasks.insert(task_id, entry));
}

impl Inner {
    /// Whether each task stands once.
    pub closed spec fn wf(&self) -> bool {
        self.tasks.wf()
    }

    /// No tasks.
    pub fn new() -> (inner: Inner)
        ensures
            inner.wf(),
            inner@ == (InnerModel {
                tasks: Map::empty(),
                cancelled: false,
                receiver_gone: false,
            }),
    {
        let inner = Inner { tasks: Registry::new(), cancelled: false, receiver_gone: false };
        assert(inner@.tasks =~= Map::empty());
        inner
    }

    /// Whether the transport was cancelled.
    pub fn is_cancelled(&self) -> (cancelled: bool)
        ensures
            cancelled == self@.cancelled,
    {
        self.cancelled
    }

    /// Cancels the transport. Runs at the gateway go on.
    pub fn cancel(&mut self)
        requires
            old(self).wf(),
        ensures
            final(self).wf(),
            final(self)@ == (InnerModel { cancelled: true, ..old(self)@ }),
    {
        self.cancelled = true;
    }

    /// Takes in that nobody receives the transport's events any more.
    pub fn receiver_dropped(&mut self)
        requires
            old(self).wf(),
        ensures
            final(self).wf(),
            final(self)@ == (InnerModel { receiver_gone: true, ..old(self)@ }),
    {
        self.receiver_gone = true;
    }

    /// Whether a command is taken: none is after the transport was cancelled.
    pub fn accepts(&self) -> (accepted: Result<(), DispatchError>)
        ensures
            match accepted {
                Ok(()) => !self@.cancelled,
                Err(error) => self@.cancelled && error.message@ == "dispatch transport cancelled"@
                    && !error.fatal,
            },
    {
        if self.cancelled {
            Err(dispatch::transport_cancelled())
        } else {
            Ok(())
        }
    }

    /// Keeps a task under `task_id`, in place of any that stood there.
    pub fn keep(&mut self, task_id: &TaskId, entry: TaskEntry)
        requires
            old(self).wf(),
        ensures
            final(self).wf(),
            final(self)@ == (InnerModel {
                tasks: old(self)@.tasks.insert(task_id@, entry@),
                ..old(self)@
            }),
    {
        proof {
            lemma_inserted(self.tasks@, task_id@, entry);
        }
        self.tasks.insert(task_id.as_str(), entry);
    }

    /// What is kept of a task.
    pub fn entry(&self, task_id: &TaskId) -> (entry: Option<&TaskEntry>)
        requires
            self.wf(),
        ensures
            match entry {
                Some(entry) => self@.tasks.contains_key(task_id@) && entry@
                    == self@.tasks[task_id@],
                None => !self@.tasks.contains_key(task_id@),
            },
    {
        self.tasks.get(task_id.as_str())
    }

    /// Hands an event out to be sent, written into its task's trail; where the channel is
    /// closed it is neither sent nor written down, and that is an error.
    pub fn emit(&mut self, at_ms: u64, event: DispatchEvent) -> (sent: Result<
        DispatchEvent,
        DispatchError,
    >)
        requires
            old(self).wf(),
        ensures
            final(self).wf(),
            final(self)@ == (InnerModel {
                tasks: told(old(self)@.tasks, at_ms, event@, is_closed(old(self)@)),
                ..old(self)@
            }),
            dispatch::is_emission(sent, event@, is_closed(old(self)@)),
    {
        if self.cancelled || self.receiver_gone {
            return Err(dispatch::channel_closed());
        }
        match dispatch::task_id_of(&event) {
            Some(task_id) => {
                let ghost before = self.tasks@;
                match self.tasks.remove(task_id.as_str()) {
                    Some(mut entry) => {
                        entry.events.push(at_ms, event.copy());
                        self.tasks.insert(task_id.as_str(), entry);
                        proof {
                            lemma_inserted(before, task_id@, entry);
                        }
                    },
                    None => {},
                }
            },
            None => {},
        }
        Ok(event)
    }

    /// Refuses a command.
    fn reject(&mut self, at_ms: u64, tool_call_id: &str, message: String) -> (sent: Result<
        DispatchEvent,
        DispatchError,
    >)
        requires
            old(self).wf(),
        ensures
            final(self).wf(),
            final(self)@ == old(self)@,
            dispatch::is_emission(
                sent,
                EventModel::Rejected { tool_call_id: tool_call_id@, message: message@ },
                is_closed(old(self)@),
            ),
    {
        self.emit(
            at_ms,
            DispatchEvent::Rejected { tool_call_id: tool_call_id.to_owned(), message },
        )
    }

    /// Takes in what posting a task's first run came to. Where a run was started the task
    /// is kept, and taken on; where not, the command is refused and nothing is kept.
    pub fn created(
        &mut self,
        at_ms: u64,
        tool_call_id: &str,
        task_id: &TaskId,
        input: &str,
        outcome: Result<RunId, String>,
    ) -> (sent: Result<DispatchEvent, DispatchError>)
        requires
            old(self).wf(),
        ensures
            final(self).wf(),
            final(self)@ == (InnerModel { tasks: final(self)@.tasks, ..old(self)@ }),
            match outcome {
                Ok(run) => {
                    let event = EventModel::Accepted {
                        tool_call_id: tool_call_id@,
                        task_id: task_id@,
                    };
                    &&& final(self)@.tasks == told(
                        old(self)@.tasks.insert(task_id@, task::fresh_entry(run@, input@)),
                        at_ms,
                        event,
                        is_closed(old(self)@),
                    )
                    &&& dispatch::is_emission(sent, event, is_closed(old(self)@))
                },
                Err(message) => {
                    &&& final(self)@.tasks == old(self)@.tasks
                    &&& dispatch::is_emission(
                        sent,
                        EventModel::Rejected { tool_call_id: tool_call_id@, message: message@ },
                        is_closed(old(self)@),
                    )
                },
            },
    {
        match outcome {
            Ok(run) => {
                self.keep(task_id, TaskEntry::new(run, input));
                self.emit(
                    at_ms,
                    DispatchEvent::Accepted {
                        tool_call_id: tool_call_id.to_owned(),
                        task_id: task_id.to_text(),
                    },
                )
            },
            Err(message) => self.reject(at_ms, tool_call_id, message),
        }
    }

    /// Begins an update: refused for an unknown task and for one whose run goes on, else
    /// the body that starts the next run, with the task's conversation.
    pub fn begin_update(
        &mut self,
        at_ms: u64,
        tool_call_id: &str,
        task_id: &TaskId,
        message: &str,
    ) -> (update: Update)
        requires
            old(self).wf(),
        ensures
            final(self).wf(),
            final(self)@ == old(self)@,
            match (refusal_of(old(self)@.tasks, task_id@), update) {
                (Some(refusal), Update::Refused(sent)) => dispatch::is_emission(
                    sent,
                    EventModel::Rejected { tool_call_id: tool_call_id@, message: refusal },
                    is_closed(old(self)@),
                ),
                (None, Update::Post(body)) => body@ == client::run_document(
                    message@,
                    task_id@,
                    old(self)@.tasks[task_id@].history,
                ),
                _ => false,
            },
    {
        let refusal: &str = match self.tasks.get(task_id.as_str()) {
            None => "unknown task_id",
            Some(entry) => {
                if entry.active_run.is_none() {
                    return Update::Post(
                        client::run_request(message, task_id.as_str(), &entry.history),
                    );
                }
                "task is still running; the Hermes runs API has no endpoint that delivers input to an in-flight run"
            },
        };
        Update::Refused(self.reject(at_ms, tool_call_id, refusal.to_owned()))
    }

    /// Takes in what posting a task's next run came to. A run that was started is looked at
    /// from now on, which is all that tells of it; where none was, the command is refused.
    pub fn updated(
        &mut self,
        at_ms: u64,
        tool_call_id: &str,
        task_id: &TaskId,
        message: &str,
        outcome: Result<RunId, String>,
    ) -> (sent: Option<Result<DispatchEvent, DispatchError>>)
        requires
            old(self).wf(),
        ensures
            final(self).wf(),
            final(self)@ == (InnerModel { tasks: final(self)@.tasks, ..old(self)@ }),
            final(self)@.tasks == (match outcome {
                Ok(run) => if old(self)@.tasks.contains_key(task_id@) {
                    old(self)@.tasks.insert(
                        task_id@,
                        rearmed(old(self)@.tasks[task_id@], run@, message@),
                    )
                } else {
                    old(self)@.tasks
                },
                Err(_) => old(self)@.tasks,
            }),
            is_optional_emission(
                sent,
                match outcome {
                    Ok(_) => None,
                    Err(reason) => Some(
                        EventModel::Rejected { tool_call_id: tool_call_id@, message: reason@ },
                    ),
                },
                is_closed(old(self)@),
            ),
    {
        match outcome {
            Ok(run) => {
                let ghost before = self.tasks@;
                match self.tasks.remove(task_id.as_str()) {
                    Some(mut entry) => {
                        let ghost history = entry.history@;
                        entry.active_run = Some(run);
                        entry.last_status = None;
                        entry.history.push(HistoryTurn::user(message));
                        proof {
                            assert(task::history_model(entry.history@) =~= task::history_model(
                                history,
                            ).push(task::user_turn(message@)));
                            lemma_inserted(before, task_id@, entry);
                        }
                        self.tasks.insert(task_id.as_str(), entry);
                    },
                    None => {},
                }
                None
            },
            Err(reason) => Some(self.reject(at_ms, tool_call_id, reason)),
        }
    }

    /// The runs to look at, each with its task: those that are executed for some task, each
    /// once.
    pub fn active_runs(&self) -> (active: Vec<(TaskId, RunId)>)
        requires
            self.wf(),
        ensures
            forall|i: int|
                0 <= i < active@.len() ==> is_active(
                    self@.tasks,
                    (#[trigger] active@[i]).0@,
                    active@[i].1@,
                ),
            forall|i: int, j: int|
                0 <= i < j < active@.len() ==> (#[trigger] active@[i]).0@ != (
                #[trigger] active@[j]).0@,
            forall|task_id: Seq<char>, run: Seq<char>|
                is_active(self@.tasks, task_id, run) ==> exists|i: int|
                    0 <= i < active@.len() && (#[trigger] active@[i]).0@ == task_id
                        && active@[i].1@ == run,
    {
        let mut active: Vec<(TaskId, RunId)> = Vec::new();
        let ghost names = self.tasks.names();
        let ghost mut from: Seq<int> = Seq::empty();
        proof {
            self.tasks.lemma_walk();
        }
        let mut i: usize = 0;
        while i < self.tasks.len()
            invariant
                0 <= i <= names.len(),
                self.wf(),
                names == self.tasks.names(),
                names.no_duplicates(),
                from.len() == active@.len(),
                forall|k: int|
                    0 <= k < active@.len() ==> 0 <= #[trigger] from[k] < i && names[from[k]]
                        == active@[k].0@,
                forall|k: int, l: int| 0 <= k < l < from.len() ==> from[k] < from[l],
                forall|k: int|
                    0 <= k < active@.len() ==> is_active(
                        self@.tasks,
                        (#[trigger] active@[k]).0@,
                        active@[k].1@,
                    ),
                forall|n: int, run: Seq<char>|
                    0 <= n < i && #[trigger] is_active(self@.tasks, names[n], run) ==> exists|
                        k: int,
                    |
                        0 <= k < active@.len() && (#[trigger] active@[k]).0@ == names[n]
                            && active@[k].1@ == run,
            decreases names.len() - i,
        {
            let (name, entry) = self.tasks.at(i);
            let ghost before = active@;
            assert(self@.tasks[name@] == entry@);
            match &entry.active_run {
                Some(run) => {
                    active.push((TaskId::from(name.as_str()), run.copy()));
                    proof {
                        from = from.push(i as int);
                        assert forall|k: int| 0 <= k < active@.len() implies is_active(
                            self@.tasks,
                            (#[trigger] active@[k]).0@,
                            active@[k].1@,
                        ) by {
                            if k < before.len() {
                                assert(active@[k] == before[k]);
                            }
                        }
                    }
                },
                None => {},
            }
            proof {
                assert forall|n: int, run: Seq<char>|
                    0 <= n < i + 1 && #[trigger] is_active(self@.tasks, names[n], run) implies exists|
                    k: int,
                |
                    0 <= k < active@.len() && (#[trigger] active@[k]).0@ == names[n]
                        && active@[k].1@ == run by {
                    if n < i {
                        let k = choose|k: int|
                            0 <= k < before.len() && (#[trigger] before[k]).0@ == names[n]
                                && before[k].1@ == run;
                        assert(active@[k] == before[k]);
                    } else {
                        assert(active@[before.len() as int].0@ == names[n]);
                    }
                }
            }
            i += 1;
        }
        proof {
            assert forall|k: int, l: int| 0 <= k < l < active@.len() implies (
            #[trigger] active@[k]).0@ != (#[trigger] active@[l]).0@ by {
                assert(names[from[k]] == active@[k].0@);
                assert(names[from[l]] == active@[l].0@);
            }
            assert forall|task_id: Seq<char>, run: Seq<char>|
                is_active(self@.tasks, task_id, run) implies exists|k: int|
                0 <= k < active@.len() && (#[trigger] active@[k]).0@ == task_id && active@[k].1@
                    == run by {
                assert(self.tasks@.contains_key(task_id));
                let n = choose|n: int| 0 <= n < names.len() && names[n] == task_id;
                assert(is_active(self@.tasks, names[n], run));
            }
        }
        active
    }

    /// Takes in one look at a run, and what is told of it.
    pub fn apply(&mut self, task_id: &TaskId, run_id: &RunId, classified: Classified) -> (event:
        Option<DispatchEvent>)
        requires
            old(self).wf(),
        ensures
            final(self).wf(),
            final(self)@ == (InnerModel {
                tasks: applied(old(self)@.tasks, task_id@, run_id@, classified@).0,
                ..old(self)@
            }),
            dispatch::optional_event(event) == applied(
                old(self)@.tasks,
                task_id@,
                run_id@,
                classified@,
            ).1,
    {
        let ghost before = self.tasks@;
        let mut entry = match self.tasks.remove(task_id.as_str()) {
            Some(entry) => entry,
            None => {
                return None;
            },
        };
        let ghost held = entry;
        let current = match &entry.active_run {
            Some(active) => text::same(active.as_str(), run_id.as_str()),
            None => false,
        };
        let event = if !current {
            proof {
                assert(tasks_model(before).insert(task_id@, held@) =~= tasks_model(before));
            }
            None
        } else {
            match classified {
                Classified::Completed { message } => {
                    entry.active_run = None;
                    entry.history.push(HistoryTurn::assistant(message.as_str()));
                    assert(task::history_model(entry.history@) =~= task::history_model(
                        held.history@,
                    ).push(task::assistant_turn(message@)));
                    Some(DispatchEvent::Completion { task_id: task_id.to_text(), message })
                },
                Classified::Failed { message } => {
                    entry.active_run = None;
                    Some(
                        DispatchEvent::Failure {
                            task_id: task_id.to_text(),
                            message,
                            retryable: false,
                        },
                    )
                },
                Classified::Cancelled => {
                    entry.active_run = None;
                    Some(
                        DispatchEvent::Failure {
                            task_id: task_id.to_text(),
                            message: "run cancelled".to_owned(),
                            retryable: true,
                        },
                    )
                },
                Classified::InFlight { status } => {
                    let seen = match &entry.last_status {
                        Some(last) => text::same(last.as_str(), status.as_str()),
                        None => false,
                    };
                    if seen {
                        None
                    } else {
                        entry.last_status = Some(status.clone());
                        Some(
                            DispatchEvent::Progress { task_id: task_id.to_text(), message: status },
                        )
                    }
                },
            }
        };
        proof {
            lemma_inserted(before, task_id@, entry);
        }
        self.tasks.insert(task_id.as_str(), entry);
        event
    }

    /// Takes a run off its task; whether it was the task's run.
    pub fn clear_run(&mut self, task_id: &TaskId, run_id: &RunId) -> (was_active: bool)
        requires
            old(self).wf(),
        ensures
            final(self).wf(),
            final(self)@ == (InnerModel {
                tasks: cleared(old(self)@.tasks, task_id@, run_id@),
                ..old(self)@
            }),
            was_active == is_active(old(self)@.tasks, task_id@, run_id@),
    {
        let ghost before = self.tasks@;
        let current = match self.tasks.get(task_id.as_str()) {
            Some(entry) => match &entry.active_run {
                Some(active) => text::same(active.as_str(), run_id.as_str()),
                None => false,
            },
            None => false,
        };
        if current {
            match self.tasks.remove(task_id.as_str()) {
                Some(mut entry) => {
                    entry.active_run = None;
                    proof {
                        lemma_inserted(before, task_id@, entry);
                    }
                    self.tasks.insert(task_id.as_str(), entry);
                },
                None => {},
            }
        }
        current
    }

    /// Takes in what one look at a run came to, and tells what there is to tell. A look that
    /// failed is made again.
    pub fn polled(
        &mut self,
        at_ms: u64,
        task_id: &TaskId,
        run_id: &RunId,
        result: PollResult,
    ) -> (sent: Option<Result<DispatchEvent, DispatchError>>)
        requires
            old(self).wf(),
        ensures
            final(self).wf(),
            final(self)@ == (InnerModel { tasks: final(self)@.tasks, ..old(self)@ }),
            ({
                let (tasks, event) = looked(old(self)@.tasks, task_id@, run_id@, result@);
                &&& final(self)@.tasks == (match event {
                    Some(event) => told(tasks, at_ms, event, is_closed(old(self)@)),
                    None => tasks,
                })
                &&& is_optional_emission(sent, event, is_closed(old(self)@))
            }),
    {
        let event = match result {
            PollResult::Status(classified) => self.apply(task_id, run_id, classified),
            PollResult::Gone => if self.clear_run(task_id, run_id) {
                Some(
                    DispatchEvent::Failure {
                        task_id: task_id.to_text(),
                        message: "run state expired before it was observed".to_owned(),
                        retryable: false,
                    },
                )
            } else {
                None
            },
            PollResult::Transient(_) => None,
        };
        match event {
            Some(event) => Some(self.emit(at_ms, event)),
            None => None,
        }
    }

    /// A copy of a task's trail, oldest first; `None` for an unknown task.
    pub fn task_events(&self, task_id: &TaskId) -> (events: Option<Vec<(u64, DispatchEvent)>>)
        requires
            self.wf(),
        ensures
            match events {
                Some(events) => self@.tasks.contains_key(task_id@) && dispatch::trail_model(
                    events@,
                ) == self@.tasks[task_id@].events,
                None => !self@.tasks.contains_key(task_id@),
            },
    {
        match self.entry(task_id) {
            Some(entry) => Some(entry.events.snapshot()),
            None => None,
        }
    }
}

/// Whether an observation ends a run.
pub open spec fn ends(result: PollModel) -> bool {
    match result {
        PollModel::Status(ClassModel::InFlight { .. }) => false,
        PollModel::Status(_) => true,
        PollModel::Gone => true,
        PollModel::Transient(_) => false,
    }
}

/// A look at a run that its task moved past, or that no task has, changes nothing and tells
/// nothing.
pub proof fn stale_looks_change_nothing(
    tasks: Map<Seq<char>, EntryModel>,
    task_id: Seq<char>,
    run: Seq<char>,
    result: PollModel,
)
    requires
        !is_active(tasks, task_id, run),
    ensures
        looked(tasks, task_id, run, result) == (tasks, None::<EventModel>),
{
}

/// The end of a run is told once: the task is kept, without the run, and any later look at
/// the same run changes nothing and tells nothing.
pub proof fn a_run_ends_once(
    tasks: Map<Seq<char>, EntryModel>,
    task_id: Seq<char>,
    run: Seq<char>,
    end: PollModel,
    at_ms: u64,
    closed: bool,
    later: PollModel,
)
    requires
        is_active(tasks, task_id, run),
        ends(end),
    ensures
        looked(tasks, task_id, run, end).1 is Some,
        ({
            let (after, event) = looked(tasks, task_id, run, end);
            let kept = told(after, at_ms, event->0, closed);
            &&& kept.contains_key(task_id)
            &&& kept[task_id].active_run is None
            &&& refusal_of(kept, task_id) is None
            &&& looked(kept, task_id, run, later) == (kept, None::<EventModel>)
        }),
{
}

/// A status is told when it changes: the same one again changes nothing and tells nothing.
pub proof fn a_status_is_told_once(
    tasks: Map<Seq<char>, EntryModel>,
    task_id: Seq<char>,
    run: Seq<char>,
    status: Seq<char>,
    at_ms: u64,
    closed: bool,
)
    requires
        is_active(tasks, task_id, run),
        tasks[task_id].last_status != Some(status),
    ensures
        ({
            let look = PollModel::Status(ClassModel::InFlight { status });
            let (after, event) = looked(tasks, task_id, run, look);
            let kept = told(after, at_ms, event->0, closed);
            &&& event == Some(EventModel::Progress { task_id, message: status })
            &&& is_active(kept, task_id, run)
            &&& looked(kept, task_id, run, look).0 =~= kept
            &&& looked(kept, task_id, run, look).1 is None
        }),
{
}

/// Only an answer joins a task's conversation: any other look at its run leaves the
/// conversation as it was.
pub proof fn only_answers_join_the_conversation(
    tasks: Map<Seq<char>, EntryModel>,
    task_id: Seq<char>,
    run: Seq<char>,
    result: PollModel,
)
    requires
        tasks.contains_key(task_id),
    ensures
        looked(tasks, task_id, run, result).0[task_id].history == (match result {
            PollModel::Status(ClassModel::Completed { message }) => if is_active(
                tasks,
                task_id,
                run,
            ) {
                tasks[task_id].history.push(task::assistant_turn(message))
            } else {
                tasks[task_id].history
            },
            _ => tasks[task_id].history,
        }),
{
}

/// A look at one task's run touches no other task, and no task is ever dropped.
pub proof fn other_tasks_are_untouched(
    tasks: Map<Seq<char>, EntryModel>,
    task_id: Seq<char>,
    run: Seq<char>,
    result: PollModel,
    other: Seq<char>,
)
    requires
        other != task_id,
    ensures
        looked(tasks, task_id, run, result).0.dom() =~= tasks.dom(),
        tasks.contains_key(other) ==> looked(tasks, task_id, run, result).0[other]
            == tasks[other],
{
}

/// While a run goes on no update of its task is taken, and once it ended one is.
pub proof fn updates_wait_for_the_run(
    tasks: Map<Seq<char>, EntryModel>,
    task_id: Seq<char>,
    run: Seq<char>,
    next: Seq<char>,
    message: Seq<char>,
)
    requires
        is_active(tasks, task_id, run),
    ensures
        refusal_of(tasks, task_id) is Some,
        refusal_of(cleared(tasks, task_id, run), task_id) is None,
        ({
            let idle = cleared(tasks, task_id, run);
            let after = idle.insert(task_id, rearmed(idle[task_id], next, message));
            &&& is_active(after, task_id, next)
            &&& refusal_of(after, task_id) is Some
            &&& after[task_id].last_status is None
        }),
{
}

/// No question is ever asked: what is told of a run is its progress, its answer or its
/// failure, and of the task whose run it is.
pub proof fn no_question_is_asked(
    tasks: Map<Seq<char>, EntryModel>,
    task_id: Seq<char>,
    run: Seq<char>,
    result: PollModel,
)
    ensures
        looked(tasks, task_id, run, result).1 matches Some(event) ==> {
            &&& event is Progress || event is Completion || event is Failure
            &&& dispatch::task_of(event) == Some(task_id)
        },
{
}

/// A task's trail does not drift from what is told: its newest entry is the event that
/// goes out, an event that does not go out leaves every trail as it was, and no other task's
/// trail changes.
pub proof fn the_trail_keeps_what_is_told(
    tasks: Map<Seq<char>, EntryModel>,
    at_ms: u64,
    event: EventModel,
    closed: bool,
    task_id: Seq<char>,
    other: Seq<char>,
)
    requires
        dispatch::task_of(event) == Some(task_id),
        tasks.contains_key(task_id),
        other != task_id,
    ensures
        closed ==> told(tasks, at_ms, event, closed) == tasks,
        !closed ==> told(tasks, at_ms, event, closed)[task_id].events.len() > 0 && told(
            tasks,
            at_ms,
            event,
            closed,
        )[task_id].events.last() == (at_ms, event),
        told(tasks, at_ms, event, closed).dom() =~= tasks.dom(),
        tasks.contains_key(other) ==> told(tasks, at_ms, event, closed)[other] == tasks[other],
{
}

/// A task's conversation is what was asked and what was answered, in order and each by
/// its own voice: its first run asks as the user, an update that started a run adds what
/// the user said then, and an answer adds what the assistant said. Nothing that was said
/// before is changed or dropped.
pub proof fn conversations_keep_who_said_what(
    tasks: Map<Seq<char>, EntryModel>,
    task_id: Seq<char>,
    run: Seq<char>,
    next: Seq<char>,
    text: Seq<char>,
)
    ensures
        ({
            let history = task::fresh_entry(run, text).history;
            &&& history.len() == 1
            &&& history[0].role == "user"@
            &&& history[0].content == text
        }),
        tasks.contains_key(task_id) ==> {
            let before = tasks[task_id].history;
            let after = rearmed(tasks[task_id], next, text).history;
            &&& after.len() == before.len() + 1
            &&& after.drop_last() == before
            &&& after.last().role == "user"@
            &&& after.last().content == text
        },
        is_active(tasks, task_id, run) ==> {
            let before = tasks[task_id].history;
            let after = looked(
                tasks,
                task_id,
                run,
                PollModel::Status(ClassModel::Completed { message: text }),
            ).0[task_id].history;
            &&& after.len() == before.len() + 1
            &&& after.drop_last() == before
            &&& after.last().role == "assistant"@
            &&& after.last().content == text
        },
{
    if tasks.contains_key(task_id) {
        let before = tasks[task_id].history;
        let asked = rearmed(tasks[task_id], next, text).history;
        assert(asked.drop_last() =~= before);
        if is_active(tasks, task_id, run) {
            let answered = looked(
                tasks,
                task_id,
                run,
                PollModel::Status(ClassModel::Completed { message: text }),
            ).0[task_id].history;
            assert(answered.drop_last() =~= before);
        }
    }
}

/// An update's run takes the place of the one that ended: it is the task's run, no status
/// of it has been seen, and the trail goes on.
pub proof fn updates_start_their_own_run(entry: EntryModel, next: Seq<char>, message: Seq<char>)
    ensures
        rearmed(entry, next, message).active_run == Some(next),
        rearmed(entry, next, message).last_status is None,
        rearmed(entry, next, message).events == entry.events,
        task::fresh_entry(next, message).active_run == Some(next),
        task::fresh_entry(next, message).last_status is None,
        task::fresh_entry(next, message).events.len() == 0,
{
}

/// What is told of a run is what was seen of it: an answer in its own words, a failure
/// for good in its own words, a cancellation or an expiry by name. Only a cancelled run is
/// worth another try.
pub proof fn looks_are_told_as_they_are(
    tasks: Map<Seq<char>, EntryModel>,
    task_id: Seq<char>,
    run: Seq<char>,
    text: Seq<char>,
)
    requires
        is_active(tasks, task_id, run),
    ensures
        looked(
            tasks,
            task_id,
            run,
            PollModel::Status(ClassModel::Completed { message: text }),
        ).1 == Some(EventModel::Completion { task_id, message: text }),
        looked(
            tasks,
            task_id,
            run,
            PollModel::Status(ClassModel::Failed { message: text }),
        ).1 == Some(EventModel::Failure { task_id, message: text, retryable: false }),
        looked(tasks, task_id, run, PollModel::Status(ClassModel::Cancelled)).1 == Some(
            EventModel::Failure { task_id, message: "run cancelled"@, retryable: true },
        ),
        looked(tasks, task_id, run, PollModel::Gone).1 == Some(
            EventModel::Failure {
                task_id,
                message: "run state expired before it was observed"@,
                retryable: false,
            },
        ),
        looked(tasks, task_id, run, PollModel::Transient(text)) == (tasks, None::<EventModel>),
        looked(
            tasks,
            task_id,
            run,
            PollModel::Status(ClassModel::InFlight { status: text }),
        ).1 == (if tasks[task_id].last_status == Some(text) {
            None
        } else {
            Some(EventModel::Progress { task_id, message: text })
        }),
{
}

/// A look changes a task's run, the status seen of it and the conversation, and never the
/// trail; a run goes on until its end was seen.
pub proof fn runs_go_on_until_they_end(
    tasks: Map<Seq<char>, EntryModel>,
    task_id: Seq<char>,
    run: Seq<char>,
    result: PollModel,
)
    requires
        is_active(tasks, task_id, run),
    ensures
        looked(tasks, task_id, run, result).0[task_id].events == tasks[task_id].events,
        looked(tasks, task_id, run, result).0[task_id].active_run == (match result {
            PollModel::Transient(_) => Some(run),
            PollModel::Status(ClassModel::InFlight { status: _ }) => Some(run),
            _ => None,
        }),
        result matches PollModel::Status(ClassModel::InFlight { status }) ==> looked(
            tasks,
            task_id,
            run,
            result,
        ).0[task_id].last_status == Some(status),
{
}

/// An update is refused for a task that is not known, and for one whose run goes on, and
/// the refusals differ; for any other it is taken.
pub proof fn refusals_tell_the_reasons_apart(
    tasks: Map<Seq<char>, EntryModel>,
    task_id: Seq<char>,
)
    ensures
        (refusal_of(tasks, task_id) == Some("unknown task_id"@)) == !tasks.contains_key(task_id),
        refusal_of(tasks, task_id) is None <==> tasks.contains_key(task_id)
            && tasks[task_id].active_run is None,
        tasks.contains_key(task_id) && tasks[task_id].active_run is Some ==> refusal_of(
            tasks,
            task_id,
        ) == Some(
            "task is still running; the Hermes runs API has no endpoint that delivers input to an in-flight run"@,
        ),
{
    reveal_strlit("unknown task_id");
    reveal_strlit(
        "task is still running; the Hermes runs API has no endpoint that delivers input to an in-flight run",
    );
    assert("unknown task_id"@[0] == 'u');
    assert(
    "task is still running; the Hermes runs API has no endpoint that delivers input to an in-flight run"@[0]
        == 't');
}

/// A trail grows by exactly the event that went out, behind what it held; where it was
/// full the oldest makes room.
pub proof fn trails_grow_by_what_went_out(
    tasks: Map<Seq<char>, EntryModel>,
    at_ms: u64,
    event: EventModel,
    task_id: Seq<char>,
)
    requires
        dispatch::task_of(event) == Some(task_id),
        tasks.contains_key(task_id),
    ensures
        ({
            let before = tasks[task_id].events;
            let after = told(tasks, at_ms, event, false)[task_id];
            &&& before.len() != 32 ==> after.events == before.push((at_ms, event))
            &&& before.len() == 32 ==> after.events == before.drop_first().push((at_ms, event))
            &&& after.history == tasks[task_id].history
            &&& after.active_run == tasks[task_id].active_run
            &&& after.last_status == tasks[task_id].last_status
        }),
        told(tasks, at_ms, event, true) == tasks,
{
}

/// The channel is closed once the transport was cancelled or nobody receives its events,
/// and open until then.
pub proof fn the_channel_closes_for_good(state: InnerModel)
    ensures
        is_closed(InnerModel { cancelled: true, ..state }),
        is_closed(InnerModel { receiver_gone: true, ..state }),
        !is_closed(InnerModel { cancelled: false, receiver_gone: false, ..state }),
{
}

/// A task begins as it was asked: its first run is told the task and its context in the
/// task's own session, and nothing before it.
pub proof fn tasks_begin_as_asked(task: &str, context: Option<&str>, creation: Creation)
    requires
        call_ensures(begin_create, (task, context), creation),
    ensures
        task@.is_prefix_of(creation.input@),
        context is None ==> creation.input@ == task@,
        context matches Some(context) ==> context@.is_suffix_of(creation.input@),
        records::text_member(creation.body@, "input"@) == Some(creation.input@),
        records::text_member(creation.body@, "session_id"@) == Some(creation.task_id@),
        records::member(creation.body@, "conversation_history"@) is None,
{
    client::runs_are_told_the_conversation(
        creation.input@,
        creation.task_id@,
        Seq::empty(),
        Seq::empty(),
    );
    let asked = records::optional_str(context);
    dispatch::tasks_come_before_their_context(
        task@,
        match asked {
            Some(context) => context,
            None => Seq::empty(),
        },
    );
    match context {
        Some(context) => {
            let text = creation.input@;
            let part = context@;
            if part.len() > 0 {
                assert(text.subrange(text.len() - part.len(), text.len() as int) =~= part);
            } else {
                assert(text.subrange(text.len() as int, text.len() as int) =~= part);
            }
        },
        None => {
            assert(task@.subrange(0, task@.len() as int) =~= task@);
        },
    }
}

/// A task whose run was started is taken on under its own identity and kept with that run
/// and with what the user asked; one whose run was not is refused with the reason, and
/// nothing is kept.
pub proof fn started_tasks_are_kept(
    inner: &mut Inner,
    at_ms: u64,
    tool_call_id: &str,
    task_id: &TaskId,
    input: &str,
    outcome: Result<RunId, String>,
    sent: Result<DispatchEvent, DispatchError>,
)
    requires
        call_ensures(
            Inner::created,
            (inner, at_ms, tool_call_id, task_id, input, outcome),
            sent,
        ),
    ensures
        sent matches Ok(event) ==> event@ == (match outcome {
            Ok(_) => EventModel::Accepted { tool_call_id: tool_call_id@, task_id: task_id@ },
            Err(reason) => EventModel::Rejected {
                tool_call_id: tool_call_id@,
                message: reason@,
            },
        }),
        sent is Ok == !(old(inner)@.cancelled || old(inner)@.receiver_gone),
        outcome matches Ok(run) ==> {
            let tasks = final(inner)@.tasks;
            &&& tasks.contains_key(task_id@)
            &&& tasks[task_id@].active_run == Some(run@)
            &&& tasks[task_id@].history.len() == 1
            &&& tasks[task_id@].history[0].role == "user"@
            &&& tasks[task_id@].history[0].content == input@
        },
        outcome is Err ==> final(inner)@.tasks == old(inner)@.tasks,
{
}

/// An update of a task between runs asks the next run with the message, in the task's
/// session, and tells it the whole conversation before; any other is refused, and nothing
/// changes before the run is started.
pub proof fn updates_ask_with_the_conversation(
    inner: &mut Inner,
    at_ms: u64,
    tool_call_id: &str,
    task_id: &TaskId,
    message: &str,
    update: Update,
)
    requires
        call_ensures(
            Inner::begin_update,
            (inner, at_ms, tool_call_id, task_id, message),
            update,
        ),
    ensures
        final(inner)@ == old(inner)@,
        update is Post <==> old(inner)@.tasks.contains_key(task_id@)
            && old(inner)@.tasks[task_id@].active_run is None,
        update matches Update::Post(body) ==> {
            let history = old(inner)@.tasks[task_id@].history;
            &&& records::text_member(body@, "input"@) == Some(message@)
            &&& records::text_member(body@, "session_id"@) == Some(task_id@)
            &&& match records::member(body@, "conversation_history"@) {
                Some(JsonModel::Array(turns)) => {
                    &&& turns.len() == history.len()
                    &&& forall|i: int|
                        0 <= i < turns.len() ==> records::text_member(
                            #[trigger] turns[i],
                            "role"@,
                        ) == Some(history[i].role) && records::text_member(turns[i], "content"@)
                            == Some(history[i].content)
                },
                Some(_) => false,
                None => history.len() == 0,
            }
        },
{
    client::runs_are_told_the_conversation(
        message@,
        task_id@,
        old(inner)@.tasks[task_id@].history,
        Seq::empty(),
    );
}

/// An update that started a run adds the user's message to the task's conversation and
/// takes that run for the task's; nothing is told of it. One that started none is refused
/// with the reason and changes nothing.
pub proof fn updates_add_what_the_user_said(
    inner: &mut Inner,
    at_ms: u64,
    tool_call_id: &str,
    task_id: &TaskId,
    message: &str,
    outcome: Result<RunId, String>,
    sent: Option<Result<DispatchEvent, DispatchError>>,
)
    requires
        call_ensures(
            Inner::updated,
            (inner, at_ms, tool_call_id, task_id, message, outcome),
            sent,
        ),
        old(inner)@.tasks.contains_key(task_id@),
    ensures
        outcome matches Ok(run) ==> {
            let before = old(inner)@.tasks[task_id@].history;
            let after = final(inner)@.tasks[task_id@].history;
            &&& sent is None
            &&& final(inner)@.tasks[task_id@].active_run == Some(run@)
            &&& after.len() == before.len() + 1
            &&& after.drop_last() == before
            &&& after.last().role == "user"@
            &&& after.last().content == message@
        },
        outcome matches Err(reason) ==> {
            &&& final(inner)@.tasks == old(inner)@.tasks
            &&& sent matches Some(Ok(event)) ==> event@ == (EventModel::Rejected {
                tool_call_id: tool_call_id@,
                message: reason@,
            })
            &&& sent is Some
        },
{
    let before = old(inner)@.tasks[task_id@].history;
    match outcome {
        Ok(run) => {
            assert(final(inner)@.tasks[task_id@].history.drop_last() =~= before);
        },
        Err(_) => {},
    }
}

/// A run that answered is told with its answer, which joins the conversation as the
/// assistant's; the task is free again, and its trail ends with what was told.
pub proof fn answers_are_told_and_kept(
    inner: &mut Inner,
    at_ms: u64,
    task_id: &TaskId,
    run_id: &RunId,
    message: String,
    sent: Option<Result<DispatchEvent, DispatchError>>,
)
    requires
        call_ensures(
            Inner::polled,
            (
                inner,
                at_ms,
                task_id,
                run_id,
                PollResult::Status(Classified::Completed { message }),
            ),
            sent,
        ),
        is_active(old(inner)@.tasks, task_id@, run_id@),
        !old(inner)@.cancelled,
        !old(inner)@.receiver_gone,
    ensures
        ({
            let before = old(inner)@.tasks[task_id@];
            let after = final(inner)@.tasks[task_id@];
            &&& sent matches Some(Ok(event))
            &&& event@ == (EventModel::Completion { task_id: task_id@, message: message@ })
            &&& after.active_run is None
            &&& after.history.len() == before.history.len() + 1
            &&& after.history.last().role == "assistant"@
            &&& after.history.last().content == message@
            &&& after.events.len() > 0
            &&& after.events.last() == (at_ms, event@)
        }),
{
}

} // verus!
