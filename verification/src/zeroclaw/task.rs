//! The identity of a task, and what is kept of it.
use std::collections::VecDeque;
use vstd::prelude::*;
use vstd::string::*;
use crate::dispatch;
use crate::dispatch::{EventModel, EventRing};
use crate::ids;

verus! {

/// How many exchanges a task's transcript holds.
pub const TRANSCRIPT_CAPACITY: usize = 16;

/// The lasting identity of a task, which every request names as its session.
#[derive(Debug, Clone, PartialEq, Eq, Hash)]
pub struct TaskId {
    id: String,
}

impl View for TaskId {
    type V = Seq<char>;

    closed spec fn view(&self) -> Seq<char> {
        self.id@
    }
}

/// Whether the gateway takes `id` as a session's.
pub open spec fn is_session_id(id: Seq<char>) -> bool {
    &&& id.len() <= 128
    &&& forall|i: int| 0 <= i < id.len() ==> is_session_char(#[trigger] id[i])
}

/// Whether a session's identity may hold `c`.
pub open spec fn is_session_char(c: char) -> bool {
    ||| 'a' <= c <= 'z'
    ||| 'A' <= c <= 'Z'
    ||| '0' <= c <= '9'
    ||| c == '.'
    ||| c == '_'
    ||| c == '-'
}

/// Every identity that can be minted is one the gateway takes.
pub proof fn minted_ids_are_session_ids(id: Seq<char>)
    requires
        ids::is_prefixed(id, "pc-"@),
    ensures
        is_session_id(id),
{
    reveal_strlit("pc-");
    let prefix = "pc-"@;
    assert forall|i: int| 0 <= i < id.len() implies is_session_char(#[trigger] id[i]) by {
        if i < 3 {
            assert(id[i] == id.subrange(0, 3)[i]);
        } else {
            assert(id[i] == id.subrange(3, id.len() as int)[i - 3]);
        }
    }
}

impl TaskId {
    /// A fresh identity.
    pub fn mint() -> (task: TaskId)
        ensures
            ids::is_prefixed(task@, "pc-"@),
    {
        TaskId { id: ids::mint("pc-") }
    }

    /// The identity as text.
    pub fn as_str(&self) -> (id: &str)
        ensures
            id@ == self@,
    {
        self.id.as_str()
    }

    /// A copy of the identity's text.
    pub fn to_text(&self) -> (id: String)
        ensures
            id@ == self@,
    {
        self.id.clone()
    }
}

impl<'a> From<&'a str> for TaskId {
    fn from(id: &'a str) -> (task: TaskId)
        ensures
            task@ == id@,
    {
        TaskId { id: id.to_owned() }
    }
}

impl<'a> vstd::std_specs::convert::FromSpecImpl<&'a str> for TaskId {
    open spec fn obeys_from_spec() -> bool {
        false
    }

    open spec fn from_spec(id: &'a str) -> TaskId {
        arbitrary()
    }
}

/// One exchange: what was asked, as the user wrote it, and what the agent answered.
#[derive(Debug, Clone, PartialEq, Eq)]
pub struct Turn {
    pub user: String,
    pub agent: String,
}

/// What a [`Turn`] says.
pub struct TurnModel {
    pub user: Seq<char>,
    pub agent: Seq<char>,
}

impl View for Turn {
    type V = TurnModel;

    open spec fn view(&self) -> TurnModel {
        TurnModel { user: self.user@, agent: self.agent@ }
    }
}

/// What exchanges say.
pub open spec fn turns_model(turns: Seq<Turn>) -> Seq<TurnModel> {
    turns.map_values(|turn: Turn| turn@)
}

/// The newest exchanges of a task, oldest first. The webhook keeps no conversation, so this
/// is the only one there is.
#[derive(Debug)]
pub struct Transcript {
    turns: VecDeque<Turn>,
}

impl View for Transcript {
    type V = Seq<TurnModel>;

    closed spec fn view(&self) -> Seq<TurnModel> {
        turns_model(self.turns@)
    }
}

impl Default for Transcript {
    fn default() -> (transcript: Transcript)
        ensures
            transcript@ == Seq::<TurnModel>::empty(),
    {
        let transcript = Transcript { turns: VecDeque::new() };
        assert(transcript@ =~= Seq::empty());
        transcript
    }
}

impl Transcript {
    /// Adds an exchange, dropping the oldest where the transcript is full.
    pub fn push(&mut self, turn: Turn)
        ensures
            final(self)@ == dispatch::ring_pushed(old(self)@, turn@, TRANSCRIPT_CAPACITY as nat),
    {
        let ghost before = self.turns@;
        if self.turns.len() == TRANSCRIPT_CAPACITY {
            self.turns.pop_front();
            assert(turns_model(self.turns@) =~= turns_model(before).drop_first());
        }
        let ghost kept = self.turns@;
        self.turns.push_back(turn);
        assert(turns_model(self.turns@) =~= turns_model(kept).push(turn@));
    }

    /// A copy of the exchanges, oldest first.
    pub fn snapshot(&self) -> (turns: Vec<Turn>)
        ensures
            turns_model(turns@) == self@,
    {
        let mut turns: Vec<Turn> = Vec::new();
        let mut i: usize = 0;
        while i < self.turns.len()
            invariant
                0 <= i <= self.turns@.len(),
                turns@.len() == i,
                forall|j: int| 0 <= j < i ==> (#[trigger] turns@[j])@ == self.turns@[j]@,
            decreases self.turns@.len() - i,
        {
            let turn = &self.turns[i];
            turns.push(Turn { user: turn.user.clone(), agent: turn.agent.clone() });
            i += 1;
        }
        assert(turns_model(turns@) =~= self@);
        turns
    }
}

/// One task: whether a request is under way for it, the trail of its events, and its
/// conversation. It is kept when a request ends, so that a later update still finds it.
#[derive(Debug)]
pub struct TaskEntry {
    pub in_flight: bool,
    pub events: EventRing,
    pub transcript: Transcript,
}

/// What a [`TaskEntry`] says.
pub struct EntryModel {
    pub in_flight: bool,
    pub events: Seq<(u64, EventModel)>,
    pub transcript: Seq<TurnModel>,
}

impl View for TaskEntry {
    type V = EntryModel;

    open spec fn view(&self) -> EntryModel {
        EntryModel {
            in_flight: self.in_flight,
            events: self.events@,
            transcript: self.transcript@,
        }
    }
}

/// A task whose first request departs.
pub open spec fn fresh_entry() -> EntryModel {
    EntryModel { in_flight: true, events: Seq::empty(), transcript: Seq::empty() }
}

impl TaskEntry {
    /// A task whose first request departs.
    pub fn new() -> (entry: TaskEntry)
        ensures
            entry@ == fresh_entry(),
    {
        TaskEntry {
            in_flight: true,
            events: EventRing::default(),
            transcript: Transcript::default(),
        }
    }
}

} // verus!
