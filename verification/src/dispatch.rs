//! What a dispatch adapter is asked and what it reports.
use std::collections::VecDeque;
use vstd::prelude::*;
use vstd::string::*;
use crate::records;

verus! {

/// Something a dispatched task reports.
#[derive(Debug, PartialEq, Eq)]
pub enum DispatchEvent {
    /// A task was taken on.
    Accepted { tool_call_id: String, task_id: String },
    /// A command was not carried out.
    Rejected { tool_call_id: String, message: String },
    /// A task goes on.
    Progress { task_id: String, message: String },
    /// A task asks something.
    Question { task_id: String, message: String },
    /// A task answered.
    Completion { task_id: String, message: String },
    /// A task failed.
    Failure { task_id: String, message: String, retryable: bool },
}

/// What a [`DispatchEvent`] says.
pub enum EventModel {
    Accepted { tool_call_id: Seq<char>, task_id: Seq<char> },
    Rejected { tool_call_id: Seq<char>, message: Seq<char> },
    Progress { task_id: Seq<char>, message: Seq<char> },
    Question { task_id: Seq<char>, message: Seq<char> },
    Completion { task_id: Seq<char>, message: Seq<char> },
    Failure { task_id: Seq<char>, message: Seq<char>, retryable: bool },
}

impl View for DispatchEvent {
    type V = EventModel;

    open spec fn view(&self) -> EventModel {
        match self {
            DispatchEvent::Accepted { tool_call_id, task_id } => EventModel::Accepted {
                tool_call_id: tool_call_id@,
                task_id: task_id@,
            },
            DispatchEvent::Rejected { tool_call_id, message } => EventModel::Rejected {
                tool_call_id: tool_call_id@,
                message: message@,
            },
            DispatchEvent::Progress { task_id, message } => EventModel::Progress {
                task_id: task_id@,
                message: message@,
            },
            DispatchEvent::Question { task_id, message } => EventModel::Question {
                task_id: task_id@,
                message: message@,
            },
            DispatchEvent::Completion { task_id, message } => EventModel::Completion {
                task_id: task_id@,
                message: message@,
            },
            DispatchEvent::Failure { task_id, message, retryable } => EventModel::Failure {
                task_id: task_id@,
                message: message@,
                retryable: *retryable,
            },
        }
    }
}

impl DispatchEvent {
    /// The same event again.
    pub fn copy(&self) -> (event: DispatchEvent)
        ensures
            event@ == self@,
    {
        match self {
            DispatchEvent::Accepted { tool_call_id, task_id } => DispatchEvent::Accepted {
                tool_call_id: tool_call_id.clone(),
                task_id: task_id.clone(),
            },
            DispatchEvent::Rejected { tool_call_id, message } => DispatchEvent::Rejected {
                tool_call_id: tool_call_id.clone(),
                message: message.clone(),
            },
            DispatchEvent::Progress { task_id, message } => DispatchEvent::Progress {
                task_id: task_id.clone(),
                message: message.clone(),
            },
            DispatchEvent::Question { task_id, message } => DispatchEvent::Question {
                task_id: task_id.clone(),
                message: message.clone(),
            },
            DispatchEvent::Completion { task_id, message } => DispatchEvent::Completion {
                task_id: task_id.clone(),
                message: message.clone(),
            },
            DispatchEvent::Failure { task_id, message, retryable } => DispatchEvent::Failure {
                task_id: task_id.clone(),
                message: message.clone(),
                retryable: *retryable,
            },
        }
    }
}

/// What a list of events says.
pub open spec fn events_model(events: Seq<DispatchEvent>) -> Seq<EventModel> {
    events.map_values(|event: DispatchEvent| event@)
}

/// What an event says of an optional one.
pub open spec fn optional_event(event: Option<DispatchEvent>) -> Option<EventModel> {
    match event {
        Some(event) => Some(event@),
        None => None,
    }
}

/// The task that an event concerns; none where a command was refused.
pub open spec fn task_of(event: EventModel) -> Option<Seq<char>> {
    match event {
        EventModel::Accepted { task_id, .. } => Some(task_id),
        EventModel::Progress { task_id, .. } => Some(task_id),
        EventModel::Question { task_id, .. } => Some(task_id),
        EventModel::Completion { task_id, .. } => Some(task_id),
        EventModel::Failure { task_id, .. } => Some(task_id),
        EventModel::Rejected { .. } => None,
    }
}

/// The task that an event concerns; none where a command was refused.
pub fn task_id_of(event: &DispatchEvent) -> (task_id: Option<String>)
    ensures
        records::optional_view(task_id) == task_of(event@),
{
    match event {
        DispatchEvent::Accepted { task_id, .. } => Some(task_id.clone()),
        DispatchEvent::Progress { task_id, .. } => Some(task_id.clone()),
        DispatchEvent::Question { task_id, .. } => Some(task_id.clone()),
        DispatchEvent::Completion { task_id, .. } => Some(task_id.clone()),
        DispatchEvent::Failure { task_id, .. } => Some(task_id.clone()),
        DispatchEvent::Rejected { .. } => None,
    }
}

/// A transport failure.
#[derive(Debug, PartialEq, Eq)]
pub struct DispatchError {
    pub message: String,
    /// Whether the transport is gone for good.
    pub fatal: bool,
}

impl DispatchError {
    /// A failure after which the transport is gone.
    pub fn fatal(message: &str) -> (error: DispatchError)
        ensures
            error.message@ == message@,
            error.fatal,
    {
        DispatchError { message: message.to_owned(), fatal: true }
    }

    /// A failure of one command alone.
    pub fn recoverable(message: &str) -> (error: DispatchError)
        ensures
            error.message@ == message@,
            !error.fatal,
    {
        DispatchError { message: message.to_owned(), fatal: false }
    }
}

/// How many events may wait to be taken. Who sends one waits for room, so none is lost.
pub const EVENT_CHANNEL_CAPACITY: usize = 64;

/// That the channel events go out on is closed.
pub fn channel_closed() -> (error: DispatchError)
    ensures
        error.message@ == "dispatch event channel closed"@,
        error.fatal,
{
    DispatchError::fatal("dispatch event channel closed")
}

/// That a command came after the transport was cancelled.
pub fn transport_cancelled() -> (error: DispatchError)
    ensures
        error.message@ == "dispatch transport cancelled"@,
        !error.fatal,
{
    DispatchError::recoverable("dispatch transport cancelled")
}

/// Whether `sent` is what emitting `event` comes to: the event goes out, or the channel is
/// `closed`.
pub open spec fn is_emission(
    sent: Result<DispatchEvent, DispatchError>,
    event: EventModel,
    closed: bool,
) -> bool {
    match sent {
        Ok(sent) => !closed && sent@ == event,
        Err(error) => closed && error.message@ == "dispatch event channel closed"@
            && error.fatal,
    }
}

/// How many events a task's trail holds.
pub const EVENT_RING_CAPACITY: usize = 32;

/// `list` with `item` behind it, and without its first item where it already held
/// `capacity`.
pub open spec fn ring_pushed<T>(list: Seq<T>, item: T, capacity: nat) -> Seq<T> {
    if list.len() == capacity {
        list.drop_first().push(item)
    } else {
        list.push(item)
    }
}

/// What pushing `items` one after the other leaves.
pub open spec fn ring_of<T>(items: Seq<T>, capacity: nat) -> Seq<T>
    decreases items.len(),
{
    if items.len() == 0 {
        Seq::empty()
    } else {
        ring_pushed(ring_of(items.drop_last(), capacity), items.last(), capacity)
    }
}

/// A ring holds the newest of what was pushed, in order, up to its capacity.
pub proof fn rings_keep_the_newest<T>(items: Seq<T>, capacity: nat)
    requires
        capacity > 0,
    ensures
        ring_of(items, capacity).len() <= capacity,
        ring_of(items, capacity) == (if items.len() <= capacity {
            items
        } else {
            items.subrange(items.len() - capacity, items.len() as int)
        }),
    decreases items.len(),
{
    if items.len() > 0 {
        rings_keep_the_newest(items.drop_last(), capacity);
        let before = ring_of(items.drop_last(), capacity);
        let after = ring_of(items, capacity);
        if items.len() <= capacity {
            assert(after =~= items);
        } else {
            assert(after =~= items.subrange(items.len() - capacity, items.len() as int));
        }
    } else {
        assert(items =~= Seq::empty());
    }
}

/// The trail of the events that were emitted for one task, oldest first. A task is kept for
/// good, so its trail is bounded.
#[derive(Debug)]
pub struct EventRing {
    events: VecDeque<(u64, DispatchEvent)>,
}

/// What a trail says.
pub open spec fn trail_model(events: Seq<(u64, DispatchEvent)>) -> Seq<(u64, EventModel)> {
    events.map_values(|event: (u64, DispatchEvent)| (event.0, event.1@))
}

impl View for EventRing {
    type V = Seq<(u64, EventModel)>;

    closed spec fn view(&self) -> Seq<(u64, EventModel)> {
        trail_model(self.events@)
    }
}

impl Default for EventRing {
    fn default() -> (ring: EventRing)
        ensures
            ring@ == Seq::<(u64, EventModel)>::empty(),
    {
        let ring = EventRing { events: VecDeque::new() };
        assert(ring@ =~= Seq::empty());
        ring
    }
}

impl EventRing {
    /// Adds an event that was emitted `at_ms`, dropping the oldest where the trail is full.
    pub fn push(&mut self, at_ms: u64, event: DispatchEvent)
        ensures
            final(self)@ == ring_pushed(
                old(self)@,
                (at_ms, event@),
                EVENT_RING_CAPACITY as nat,
            ),
    {
        let ghost before = self.events@;
        if self.events.len() == EVENT_RING_CAPACITY {
            self.events.pop_front();
            assert(trail_model(self.events@) =~= trail_model(before).drop_first());
        }
        let ghost kept = self.events@;
        self.events.push_back((at_ms, event));
        assert(trail_model(self.events@) =~= trail_model(kept).push((at_ms, event@)));
    }

    /// A copy of the trail, oldest first.
    pub fn snapshot(&self) -> (events: Vec<(u64, DispatchEvent)>)
        ensures
            trail_model(events@) == self@,
    {
        let mut events: Vec<(u64, DispatchEvent)> = Vec::new();
        let mut i: usize = 0;
        while i < self.events.len()
            invariant
                0 <= i <= self.events@.len(),
                events@.len() == i,
                forall|j: int|
                    0 <= j < i ==> (#[trigger] events@[j]).0 == self.events@[j].0 && events@[j].1@
                        == self.events@[j].1@,
            decreases self.events@.len() - i,
        {
            let event = &self.events[i];
            events.push((event.0, event.1.copy()));
            i += 1;
        }
        assert(trail_model(events@) =~= self@);
        events
    }
}

/// `task`, with `context` behind it under a heading where there is any.
pub open spec fn with_context(task: Seq<char>, context: Option<Seq<char>>) -> Seq<char> {
    match context {
        Some(context) => if context.len() > 0 {
            task + "\n\nContext:\n"@ + context
        } else {
            task
        },
        None => task,
    }
}

/// `task`, with `context` behind it under a heading where there is any.
pub fn compose(task: &str, context: Option<&str>) -> (text: String)
    ensures
        text@ == with_context(task@, records::optional_str(context)),
{
    let mut text = task.to_owned();
    match context {
        Some(context) => if !context.is_empty() {
            text.append("\n\nContext:\n");
            text.append(context);
        },
        None => {},
    }
    text
}

/// A text that is present and not empty, or else `other`.
pub open spec fn present_or(value: Option<Seq<char>>, other: Seq<char>) -> Seq<char> {
    match value {
        Some(value) => if value.len() > 0 {
            value
        } else {
            other
        },
        None => other,
    }
}

/// The text where it is present and not empty.
pub fn non_empty(value: Option<&str>) -> (present: Option<&str>)
    ensures
        records::optional_str(present) == (match value {
            Some(value) => if value@.len() > 0 {
                Some(value@)
            } else {
                None
            },
            None => None,
        }),
{
    match value {
        Some(value) => if value.is_empty() {
            None
        } else {
            Some(value)
        },
        None => None,
    }
}

/// A task is asked in its own words, and what context it comes with stands behind it, as
/// it is; without any the task stands alone.
pub proof fn tasks_come_before_their_context(task: Seq<char>, context: Seq<char>)
    ensures
        with_context(task, None) == task,
        context.len() == 0 ==> with_context(task, Some(context)) == task,
        task.is_prefix_of(with_context(task, Some(context))),
        context.len() > 0 ==> with_context(task, Some(context)) == task + "\n\nContext:\n"@
            + context,
{
    let text = with_context(task, Some(context));
    assert(text.subrange(0, task.len() as int) =~= task);
}

/// An event concerns the task that it names, and a refusal concerns none.
pub proof fn events_concern_the_task_they_name(
    tool_call_id: Seq<char>,
    task_id: Seq<char>,
    message: Seq<char>,
    retryable: bool,
)
    ensures
        task_of(EventModel::Accepted { tool_call_id, task_id }) == Some(task_id),
        task_of(EventModel::Progress { task_id, message }) == Some(task_id),
        task_of(EventModel::Question { task_id, message }) == Some(task_id),
        task_of(EventModel::Completion { task_id, message }) == Some(task_id),
        task_of(EventModel::Failure { task_id, message, retryable }) == Some(task_id),
        task_of(EventModel::Rejected { tool_call_id, message }) is None,
{
}

/// An event goes out as it is while the channel is open, and once it is closed none does:
/// what comes back instead is an error after which the transport is gone.
pub proof fn events_go_out_as_they_are(
    sent: Result<DispatchEvent, DispatchError>,
    event: EventModel,
)
    ensures
        is_emission(sent, event, false) ==> (sent matches Ok(out) && out@ == event),
        is_emission(sent, event, true) ==> (sent matches Err(error) && error.fatal
            && error.message@ == "dispatch event channel closed"@),
{
}

} // verus!
