//! The identity of a task, and what is kept of it.
use vstd::prelude::*;
use vstd::string::*;
use crate::dispatch::{EventModel, EventRing};
use crate::ids;
use crate::records;

verus! {

/// The lasting identity of a task, which is also its session at the gateway. One task has
/// many runs.
#[derive(Debug, Clone, PartialEq, Eq, Hash)]
pub struct TaskId {
    id: String,
}

impl View for TaskId {
    type V = Seq<char>;

    closed spec fn view(&self) -> Seq<char> {
        self.id@
    }
}

impl TaskId {
    /// A fresh identity.
    pub fn mint() -> (task: TaskId)
        ensures
            ids::is_prefixed(task@, "pc-"@),
    {
        TaskId { id: ids::mint("pc-") }
    }

    /// The identity as text.
    pub fn as_str(&self) -> (id: &str)
        ensures
            id@ == self@,
    {
        self.id.as_str()
    }

    /// A copy of the identity's text.
    pub fn to_text(&self) -> (id: String)
        ensures
            id@ == self@,
    {
        self.id.clone()
    }
}

impl<'a> From<&'a str> for TaskId {
    fn from(id: &'a str) -> (task: TaskId)
        ensures
            task@ == id@,
    {
        TaskId { id: id.to_owned() }
    }
}

impl<'a> vstd::std_specs::convert::FromSpecImpl<&'a str> for TaskId {
    open spec fn obeys_from_spec() -> bool {
        false
    }

    open spec fn from_spec(id: &'a str) -> TaskId {
        arbitrary()
    }
}

/// The identity of one run, which the gateway assigns.
#[derive(Debug, Clone, PartialEq, Eq)]
pub struct RunId {
    id: String,
}

impl View for RunId {
    type V = Seq<char>;

    closed spec fn view(&self) -> Seq<char> {
        self.id@
    }
}

impl RunId {
    /// The identity `id`.
    pub fn new(id: &str) -> (run: RunId)
        ensures
            run@ == id@,
    {
        RunId { id: id.to_owned() }
    }

    /// The identity as text.
    pub fn as_str(&self) -> (id: &str)
        ensures
            id@ == self@,
    {
        self.id.as_str()
    }

    /// The same identity again.
    pub fn copy(&self) -> (run: RunId)
        ensures
            run@ == self@,
    {
        RunId { id: self.id.clone() }
    }
}

/// One turn of a task's conversation. The gateway keeps none between runs, so a later run
/// is told the earlier turns.
#[derive(Debug, Clone, PartialEq, Eq)]
pub struct HistoryTurn {
    pub role: String,
    pub content: String,
}

/// What a [`HistoryTurn`] says.
pub struct TurnModel {
    pub role: Seq<char>,
    pub content: Seq<char>,
}

impl View for HistoryTurn {
    type V = TurnModel;

    open spec fn view(&self) -> TurnModel {
        TurnModel { role: self.role@, content: self.content@ }
    }
}

/// What the user said.
pub open spec fn user_turn(content: Seq<char>) -> TurnModel {
    TurnModel { role: "user"@, content }
}

/// What the agent answered.
pub open spec fn assistant_turn(content: Seq<char>) -> TurnModel {
    TurnModel { role: "assistant"@, content }
}

/// What a history says.
pub open spec fn history_model(history: Seq<HistoryTurn>) -> Seq<TurnModel> {
    history.map_values(|turn: HistoryTurn| turn@)
}

impl HistoryTurn {
    /// What the user said.
    pub fn user(content: &str) -> (turn: HistoryTurn)
        ensures
            turn@ == user_turn(content@),
    {
        HistoryTurn { role: "user".to_owned(), content: content.to_owned() }
    }

    /// What the agent answered.
    pub fn assistant(content: &str) -> (turn: HistoryTurn)
        ensures
            turn@ == assistant_turn(content@),
    {
        HistoryTurn { role: "assistant".to_owned(), content: content.to_owned() }
    }
}

/// One task: the run executed for it, the last status seen of that run, the trail of its
/// events, and its conversation. It is kept when a run ends, so that a later update still
/// finds it.
#[derive(Debug)]
pub struct TaskEntry {
    pub active_run: Option<RunId>,
    pub last_status: Option<String>,
    pub events: EventRing,
    pub history: Vec<HistoryTurn>,
}

/// What a [`TaskEntry`] says.
pub struct EntryModel {
    pub active_run: Option<Seq<char>>,
    pub last_status: Option<Seq<char>>,
    pub events: Seq<(u64, EventModel)>,
    pub history: Seq<TurnModel>,
}

impl View for TaskEntry {
    type V = EntryModel;

    open spec fn view(&self) -> EntryModel {
        EntryModel {
            active_run: match self.active_run {
                Some(run) => Some(run@),
                None => None,
            },
            last_status: records::optional_view(self.last_status),
            events: self.events@,
            history: history_model(self.history@),
        }
    }
}

/// A task whose first run is `run`, asked `input`.
pub open spec fn fresh_entry(run: Seq<char>, input: Seq<char>) -> EntryModel {
    EntryModel {
        active_run: Some(run),
        last_status: None,
        events: Seq::empty(),
        history: seq![user_turn(input)],
    }
}

impl TaskEntry {
    /// A task whose first run is `run`, asked `input`.
    pub fn new(run: RunId, input: &str) -> (entry: TaskEntry)
        ensures
            entry@ == fresh_entry(run@, input@),
    {
        let mut history: Vec<HistoryTurn> = Vec::new();
        history.push(HistoryTurn::user(input));
        assert(history_model(history@) =~= seq![user_turn(input@)]);
        TaskEntry { active_run: Some(run), last_status: None, events: EventRing::default(), history }
    }
}

} // verus!
