//! Watching background delegations: each leaves a result file, first saying that it runs
//! and then how it ended.
//!
//! Nobody clears those files away, so a task that does not end in time is reported as
//! lost. Files from before the session are someone else's tasks.
use vstd::prelude::*;
use vstd::string::*;
use crate::dispatch;
use crate::dispatch::{DispatchEvent, EventModel};
use crate::json;
use crate::json::{Json, JsonModel};
use crate::records;
use crate::registry::Registry;
use crate::text;
use crate::zeroclaw_lm::config::PollConfig;

verus! {

/// How long tasks may be pending before scans become rarer, in milliseconds.
pub const SETTLE_AFTER_MS: u64 = 30_000;

/// A point in time: seconds since the epoch, and nanoseconds.
#[derive(Debug, Clone, Copy)]
pub struct Instant {
    pub seconds: i64,
    pub nanos: u32,
}

/// Whether `a` is not before `b`.
pub open spec fn not_before(a: Instant, b: Instant) -> bool {
    a.seconds > b.seconds || (a.seconds == b.seconds && a.nanos >= b.nanos)
}

/// The point in time that `chrono::DateTime::parse_from_rfc3339` reads out of `text`: the
/// seconds since the epoch, and the nanoseconds within the second.
pub uninterp spec fn rfc3339_instant(text: Seq<char>) -> Option<(i64, u32)>;

/// Calls `chrono::DateTime::parse_from_rfc3339`, and `timestamp` and
/// `timestamp_subsec_nanos` on its result. [`rfc3339_instant`] names what is read, or that
/// nothing can be.
#[verifier::external_body]
fn parse_rfc3339(text: &str) -> (read: Option<(i64, u32)>)
    ensures
        read == rfc3339_instant(text@),
{
    match chrono::DateTime::parse_from_rfc3339(text) {
        Ok(time) => Some((time.timestamp(), time.timestamp_subsec_nanos())),
        Err(_) => None,
    }
}

/// Whether `text` tells a point in time that is not before `connect_time`. Text that
/// cannot be read tells none: where such a task comes from is unknown.
pub open spec fn is_in_session(text: Seq<char>, connect_time: Instant) -> bool {
    match rfc3339_instant(text) {
        Some((seconds, nanos)) => not_before(Instant { seconds, nanos }, connect_time),
        None => false,
    }
}

/// Whether `text` tells a point in time that is not before `connect_time`.
fn started_in_session(text: &str, connect_time: Instant) -> (started: bool)
    ensures
        started == is_in_session(text@, connect_time),
{
    match parse_rfc3339(text) {
        Some((seconds, nanos)) => seconds > connect_time.seconds || (seconds == connect_time.seconds
            && nanos >= connect_time.nanos),
        None => false,
    }
}

/// How a delegation stands.
#[derive(Debug, Clone, Copy, PartialEq, Eq, Structural)]
pub enum DelegateStatus {
    Running,
    Completed,
    Failed,
    Cancelled,
}

/// What a delegation's result file holds.
#[derive(Debug)]
pub struct DelegateResultFile {
    pub task_id: String,
    pub agent: String,
    pub status: DelegateStatus,
    pub output: Option<String>,
    pub error: Option<String>,
    pub started_at: String,
}

/// What a [`DelegateResultFile`] says.
pub struct ResultModel {
    pub task_id: Seq<char>,
    pub agent: Seq<char>,
    pub status: DelegateStatus,
    pub output: Option<Seq<char>>,
    pub error: Option<Seq<char>>,
    pub started_at: Seq<char>,
}

impl View for DelegateResultFile {
    type V = ResultModel;

    open spec fn view(&self) -> ResultModel {
        ResultModel {
            task_id: self.task_id@,
            agent: self.agent@,
            status: self.status,
            output: records::optional_view(self.output),
            error: records::optional_view(self.error),
            started_at: self.started_at@,
        }
    }
}

/// The status that a field names.
pub open spec fn status_of(field: Option<JsonModel>) -> Option<DelegateStatus> {
    if records::names_variant(field, "running"@) {
        Some(DelegateStatus::Running)
    } else if records::names_variant(field, "completed"@) {
        Some(DelegateStatus::Completed)
    } else if records::names_variant(field, "failed"@) {
        Some(DelegateStatus::Failed)
    } else if records::names_variant(field, "cancelled"@) {
        Some(DelegateStatus::Cancelled)
    } else {
        None
    }
}

/// The result that a document holds; `None` where it has another shape.
pub open spec fn result_of(document: JsonModel) -> Option<ResultModel> {
    if !records::is_record(document, 6) {
        None
    } else {
        match (
            records::required_text(records::field(document, 0, "task_id"@)),
            records::required_text(records::field(document, 1, "agent"@)),
            status_of(records::field(document, 2, "status"@)),
            records::optional_text(records::field(document, 3, "output"@)),
            records::optional_text(records::field(document, 4, "error"@)),
            records::required_text(records::field(document, 5, "started_at"@)),
        ) {
            (
                Some(task_id),
                Some(agent),
                Some(status),
                Some(output),
                Some(error),
                Some(started_at),
            ) => Some(ResultModel { task_id, agent, status, output, error, started_at }),
            _ => None,
        }
    }
}

/// The result that a file's text holds.
pub open spec fn result_in(body: Option<Seq<char>>) -> Option<ResultModel> {
    match body {
        Some(body) => match json::parsed_text(body) {
            Ok(document) => result_of(document),
            Err(_) => None,
        },
        None => None,
    }
}

/// What an optional result says.
pub open spec fn optional_result(result: Option<DelegateResultFile>) -> Option<ResultModel> {
    match result {
        Some(result) => Some(result@),
        None => None,
    }
}

/// The status that a field names.
fn read_status(found: Option<&Json>) -> (status: Option<DelegateStatus>)
    ensures
        status == status_of(records::found_model(found)),
{
    if records::is_variant_named(found, "running") {
        Some(DelegateStatus::Running)
    } else if records::is_variant_named(found, "completed") {
        Some(DelegateStatus::Completed)
    } else if records::is_variant_named(found, "failed") {
        Some(DelegateStatus::Failed)
    } else if records::is_variant_named(found, "cancelled") {
        Some(DelegateStatus::Cancelled)
    } else {
        None
    }
}

impl DelegateResultFile {
    /// Reads a result out of a document.
    pub fn from_json(json: &Json) -> (read: Option<DelegateResultFile>)
        ensures
            optional_result(read) == result_of(json@),
    {
        if !records::has_record_shape(json, 6) {
            return None;
        }
        let status = match read_status(records::field_of(json, 2, "status")) {
            Some(status) => status,
            None => {
                return None;
            },
        };
        match (
            records::read_required_text(records::field_of(json, 0, "task_id")),
            records::read_required_text(records::field_of(json, 1, "agent")),
            records::read_optional_text(records::field_of(json, 3, "output")),
            records::read_optional_text(records::field_of(json, 4, "error")),
            records::read_required_text(records::field_of(json, 5, "started_at")),
        ) {
            (Some(task_id), Some(agent), Some(output), Some(error), Some(started_at)) => Some(
                DelegateResultFile { task_id, agent, status, output, error, started_at },
            ),
            _ => None,
        }
    }

    /// Reads a result out of a file's text, where that could be read.
    pub fn parse(body: &Option<String>) -> (read: Option<DelegateResultFile>)
        ensures
            optional_result(read) == result_in(records::optional_view(*body)),
    {
        match body {
            Some(body) => match Json::parse(body.as_str()) {
                Ok(document) => DelegateResultFile::from_json(&document),
                Err(_) => None,
            },
            None => None,
        }
    }
}

/// The task that a file name stands for: what comes before `.json`.
pub open spec fn stem_of(file_name: Seq<char>) -> Option<Seq<char>> {
    let n = file_name.len() - 5;
    if n > 0 && file_name.subrange(n, file_name.len() as int) == ".json"@ {
        Some(file_name.subrange(0, n))
    } else {
        None
    }
}

/// The task that a file name stands for.
pub fn result_stem(file_name: &str) -> (stem: Option<String>)
    ensures
        records::optional_view(stem) == stem_of(file_name@),
{
    let chars = text::chars_of(file_name);
    let extension = text::chars_of(".json");
    proof {
        reveal_strlit(".json");
    }
    if chars.len() <= 5 {
        return None;
    }
    let n: usize = chars.len() - 5;
    if text::stands_at(&chars, &extension, n) {
        Some(text::string_of(&chars, 0, n))
    } else {
        None
    }
}

/// The texts of a list.
pub open spec fn texts(list: Seq<String>) -> Set<Seq<char>> {
    Set::new(|text: Seq<char>| exists|i: int| 0 <= i < list.len() && (#[trigger] list[i])@ == text)
}

/// The watch over one session's delegations, on a clock in milliseconds.
#[derive(Debug)]
pub struct Poller {
    poll: PollConfig,
    connect_time: Instant,
    settled: Vec<String>,
    pending: Registry<u64>,
    pending_since: Option<u64>,
}

/// What a [`Poller`] stands for.
pub struct PollerModel {
    pub poll: PollConfig,
    pub connect_time: Instant,
    /// The tasks that were reported, or that are none of ours.
    pub settled: Set<Seq<char>>,
    /// When each task that has not ended was first seen.
    pub pending: Map<Seq<char>, u64>,
    /// Since when there are such tasks.
    pub pending_since: Option<u64>,
}

impl View for Poller {
    type V = PollerModel;

    closed spec fn view(&self) -> PollerModel {
        PollerModel {
            poll: self.poll,
            connect_time: self.connect_time,
            settled: texts(self.settled@),
            pending: self.pending@,
            pending_since: self.pending_since,
        }
    }
}

/// What the poller waits for before it scans again.
#[derive(Debug, Clone, Copy, PartialEq, Eq, Structural)]
pub enum Wait {
    /// A turn that settles.
    TurnSettled,
    /// A turn that settles, or this many milliseconds.
    TurnSettledOr(u64),
}

/// How long ago `then` was.
pub open spec fn elapsed(now: u64, then_ms: u64) -> int {
    if now >= then_ms {
        now - then_ms
    } else {
        0
    }
}

/// What to wait for: with nothing pending there is nothing to look for, so waiting costs
/// nothing; scans become rarer when tasks have been pending for long.
pub open spec fn wait_of(state: PollerModel, now: u64) -> Wait {
    if state.pending.dom().is_empty() {
        Wait::TurnSettled
    } else {
        match state.pending_since {
            Some(since) => if elapsed(now, since) > SETTLE_AFTER_MS {
                Wait::TurnSettledOr(state.poll.settle_backoff_ms)
            } else {
                Wait::TurnSettledOr(state.poll.interval_ms)
            },
            None => Wait::TurnSettledOr(state.poll.interval_ms),
        }
    }
}

/// The task `stem` is settled, and pending no more.
pub open spec fn settle(state: PollerModel, stem: Seq<char>) -> PollerModel {
    PollerModel { settled: state.settled.insert(stem), pending: state.pending.remove(stem), ..state }
}

/// `value` where there is one, else `other`.
pub open spec fn or_text(value: Option<Seq<char>>, other: Seq<char>) -> Seq<char> {
    match value {
        Some(value) => value,
        None => other,
    }
}

/// The report of a task that came to no end.
pub open spec fn lost(stem: Seq<char>) -> EventModel {
    EventModel::Failure {
        task_id: stem,
        message: "task "@ + stem
            + " produced no terminal status within the staleness window; treating it as lost (the daemon may have restarted mid-task)"@,
        retryable: false,
    }
}

/// The report of a task that answered.
pub open spec fn completion(result: ResultModel) -> EventModel {
    EventModel::Completion {
        task_id: result.task_id,
        message: "task "@ + result.task_id + " (agent "@ + result.agent + "): "@ + or_text(
            result.output,
            "(no output)"@,
        ),
    }
}

/// The report of a task that failed.
pub open spec fn task_failure(result: ResultModel) -> EventModel {
    EventModel::Failure {
        task_id: result.task_id,
        message: "task "@ + result.task_id + " (agent "@ + result.agent + ") failed: "@ + or_text(
            result.error,
            or_text(result.output, "(no detail)"@),
        ),
        retryable: false,
    }
}

/// Whether the task `stem` has been pending for too long.
pub open spec fn is_stale(state: PollerModel, stem: Seq<char>, now: u64) -> bool {
    state.pending.contains_key(stem) && elapsed(now, state.pending[stem])
        > state.poll.stale_after_ms
}

/// What a task that has not ended leads to.
pub open spec fn unfinished(state: PollerModel, stem: Seq<char>, now: u64) -> (
    PollerModel,
    Option<EventModel>,
) {
    if is_stale(state, stem, now) {
        (settle(state, stem), Some(lost(stem)))
    } else {
        (state, None)
    }
}

/// What a pending task's result leads to: what the poller becomes, and the report, if
/// there is one. A result that cannot be read is looked at again. A task that was
/// cancelled is not reported: the agent did that itself.
pub open spec fn judged(
    state: PollerModel,
    stem: Seq<char>,
    result: Option<ResultModel>,
    now: u64,
) -> (PollerModel, Option<EventModel>) {
    match result {
        None => unfinished(state, stem, now),
        Some(result) => if !is_in_session(result.started_at, state.connect_time) {
            (settle(state, stem), None)
        } else {
            match result.status {
                DelegateStatus::Running => unfinished(state, stem, now),
                DelegateStatus::Completed => (settle(state, stem), Some(completion(result))),
                DelegateStatus::Failed => (settle(state, stem), Some(task_failure(result))),
                DelegateStatus::Cancelled => (settle(state, stem), None),
            }
        },
    }
}

/// What seeing the file of `stem` leads to: whether to read it, and what the poller
/// becomes. A settled task is not looked at again.
pub open spec fn sighted(state: PollerModel, stem: Seq<char>, now: u64) -> (PollerModel, bool) {
    if state.settled.contains(stem) {
        (state, false)
    } else if state.pending.contains_key(stem) {
        (state, true)
    } else {
        (PollerModel { pending: state.pending.insert(stem, now), ..state }, true)
    }
}

/// The tasks that have been pending for too long.
pub open spec fn stale_tasks(state: PollerModel, now: u64) -> Set<Seq<char>> {
    Set::new(|stem: Seq<char>| is_stale(state, stem, now))
}

/// The poller once `stems` are settled, and pending no more.
pub open spec fn settle_all(state: PollerModel, stems: Set<Seq<char>>) -> PollerModel {
    PollerModel {
        settled: state.settled.union(stems),
        pending: state.pending.remove_keys(stems),
        ..state
    }
}

/// Whether `events` reports each of `stems` as lost once, and nothing else.
pub open spec fn reports_lost(events: Seq<EventModel>, stems: Set<Seq<char>>) -> bool {
    &&& events.no_duplicates()
    &&& forall|stem: Seq<char>| #[trigger] stems.contains(stem) ==> events.contains(lost(stem))
    &&& forall|i: int| 0 <= i < events.len() ==> is_lost_among(#[trigger] events[i], stems)
}

/// Whether `event` reports one of `stems` as lost.
pub open spec fn is_lost_among(event: EventModel, stems: Set<Seq<char>>) -> bool {
    exists|stem: Seq<char>| #[trigger] stems.contains(stem) && event == lost(stem)
}

/// What the end of a scan leads to: a task that is pending for too long is dropped, whether
/// or not the scan met its file.
pub open spec fn scanned(state: PollerModel, now: u64) -> PollerModel {
    paced(settle_all(state, stale_tasks(state, now)), now)
}

/// The poller with the time since which tasks are pending.
pub open spec fn paced(state: PollerModel, now: u64) -> PollerModel {
    PollerModel {
        pending_since: if state.pending.dom().is_empty() {
            None
        } else {
            match state.pending_since {
                Some(since) => Some(since),
                None => Some(now),
            }
        },
        ..state
    }
}

impl Poller {
    /// Whether each pending task stands once.
    pub closed spec fn wf(&self) -> bool {
        self.pending.wf()
    }

    /// A watch that begins at `connect_time`.
    pub fn new(poll: PollConfig, connect_time: Instant) -> (poller: Poller)
        ensures
            poller.wf(),
            poller@ == (PollerModel {
                poll,
                connect_time,
                settled: Set::empty(),
                pending: Map::empty(),
                pending_since: None,
            }),
    {
        let poller = Poller {
            poll,
            connect_time,
            settled: Vec::new(),
            pending: Registry::new(),
            pending_since: None,
        };
        assert(texts(poller.settled@) =~= Set::empty());
        poller
    }

    /// Whether no task is pending.
    fn is_idle(&self) -> (idle: bool)
        requires
            self.wf(),
        ensures
            idle == self@.pending.dom().is_empty(),
    {
        proof {
            self.pending.lemma_walk();
        }
        if self.pending.len() == 0 {
            assert(self.pending@.dom() =~= Set::empty());
            true
        } else {
            assert(self.pending@.contains_key(self.pending.names()[0]));
            assert(!self.pending@.dom().is_empty());
            false
        }
    }

    /// What to wait for before the next scan.
    pub fn wait(&self, now: u64) -> (wait: Wait)
        requires
            self.wf(),
        ensures
            wait == wait_of(self@, now),
    {
        if self.is_idle() {
            return Wait::TurnSettled;
        }
        match self.pending_since {
            Some(since) => if now > since && now - since > SETTLE_AFTER_MS {
                Wait::TurnSettledOr(self.poll.settle_backoff_ms)
            } else {
                Wait::TurnSettledOr(self.poll.interval_ms)
            },
            None => Wait::TurnSettledOr(self.poll.interval_ms),
        }
    }

    /// Whether `stem` is settled.
    fn is_settled(&self, stem: &str) -> (settled: bool)
        ensures
            settled == self@.settled.contains(stem@),
    {
        let mut i: usize = 0;
        while i < self.settled.len()
            invariant
                0 <= i <= self.settled@.len(),
                forall|j: int| 0 <= j < i ==> (#[trigger] self.settled@[j])@ != stem@,
            decreases self.settled@.len() - i,
        {
            if text::same(self.settled[i].as_str(), stem) {
                assert(self.settled@[i as int]@ == stem@);
                return true;
            }
            i += 1;
        }
        false
    }

    /// The file of `stem` was seen; returns whether to read it.
    pub fn sight(&mut self, stem: &str, now: u64) -> (read: bool)
        requires
            old(self).wf(),
        ensures
            final(self).wf(),
            (final(self)@, read) == sighted(old(self)@, stem@, now),
    {
        if self.is_settled(stem) {
            return false;
        }
        if self.pending.get(stem).is_none() {
            self.pending.insert(stem, now);
        }
        true
    }

    /// `stem` is settled, and pending no more.
    fn settle(&mut self, stem: &str)
        requires
            old(self).wf(),
        ensures
            final(self).wf(),
            final(self)@ == settle(old(self)@, stem@),
    {
        let ghost start = self@;
        if self.pending.remove(stem).is_none() {
            assert(start.pending.remove(stem@) =~= start.pending);
        }
        let ghost before = self.settled@;
        let text = stem.to_owned();
        self.settled.push(text);
        proof {
            lemma_texts_push(before, text);
        }
    }

    /// Reports a task that has been pending for too long.
    fn emit_stale(&mut self, stem: &str, now: u64) -> (event: Option<DispatchEvent>)
        requires
            old(self).wf(),
        ensures
            final(self).wf(),
            (final(self)@, dispatch::optional_event(event)) == unfinished(old(self)@, stem@, now),
    {
        let stale = match self.pending.get(stem) {
            Some(since) => self.is_too_old(*since, now),
            None => false,
        };
        if !stale {
            return None;
        }
        self.settle(stem);
        Some(report_lost(stem))
    }

    /// Whether a task that was first seen at `since` has been pending for too long.
    fn is_too_old(&self, since: u64, now: u64) -> (old: bool)
        ensures
            old == (elapsed(now, since) > self@.poll.stale_after_ms),
    {
        now > since && now - since > self.poll.stale_after_ms
    }

    /// The tasks that have been pending for too long, each once.
    fn stale(&self, now: u64) -> (stems: Vec<String>)
        requires
            self.wf(),
        ensures
            texts(stems@) == stale_tasks(self@, now),
            forall|i: int, j: int| 0 <= i < j < stems@.len() ==> stems@[i]@ != stems@[j]@,
    {
        let ghost names = self.pending.names();
        proof {
            self.pending.lemma_walk();
        }
        let mut stems: Vec<String> = Vec::new();
        let mut i: usize = 0;
        while i < self.pending.len()
            invariant
                0 <= i <= names.len(),
                self.wf(),
                names == self.pending.names(),
                names.no_duplicates(),
                forall|j: int|
                    0 <= j < stems@.len() ==> is_stale(self@, (#[trigger] stems@[j])@, now)
                        && names.subrange(0, i as int).contains(stems@[j]@),
                forall|j: int|
                    0 <= j < i && is_stale(self@, names[j], now) ==> texts(stems@).contains(
                        #[trigger] names[j],
                    ),
                forall|j: int, k: int| 0 <= j < k < stems@.len() ==> stems@[j]@ != stems@[k]@,
            decreases names.len() - i,
        {
            let (name, since) = self.pending.at(i);
            let ghost before = stems@;
            let ghost here = names.subrange(0, i as int);
            let ghost next = names.subrange(0, i + 1);
            proof {
                assert(next =~= here.push(name@));
                assert forall|text: Seq<char>| #[trigger] here.contains(text) implies next.contains(
                    text,
                ) && text != name@ by {
                    let j = choose|j: int| 0 <= j < here.len() && here[j] == text;
                    assert(next[j] == text);
                    assert(names[j] == text);
                }
                assert(next[i as int] == name@);
            }
            if self.is_too_old(*since, now) {
                stems.push(name.clone());
                proof {
                    lemma_texts_push(before, stems@.last());
                    assert(stems@ =~= before.push(stems@.last()));
                    assert forall|j: int, k: int|
                        0 <= j < k < stems@.len() implies stems@[j]@ != stems@[k]@ by {
                        if k == before.len() {
                            assert(here.contains(before[j]@));
                        }
                    }
                }
            }
            i += 1;
        }
        proof {
            assert forall|text: Seq<char>| #[trigger]
                texts(stems@).contains(text) == stale_tasks(self@, now).contains(text) by {
                if texts(stems@).contains(text) {
                    let j = choose|j: int| 0 <= j < stems@.len() && (#[trigger] stems@[j])@ == text;
                    assert(is_stale(self@, stems@[j]@, now));
                }
                if is_stale(self@, text, now) {
                    assert(names.contains(text));
                    let j = choose|j: int| 0 <= j < names.len() && names[j] == text;
                    assert(texts(stems@).contains(names[j]));
                }
            }
            assert(texts(stems@) =~= stale_tasks(self@, now));
        }
        stems
    }

    /// Takes in the text of a file that was seen, or that it could not be read; returns
    /// what to report.
    pub fn read(&mut self, stem: &str, body: &Option<String>, now: u64) -> (event: Option<
        DispatchEvent,
    >)
        requires
            old(self).wf(),
        ensures
            final(self).wf(),
            (final(self)@, dispatch::optional_event(event)) == judged(
                old(self)@,
                stem@,
                result_in(records::optional_view(*body)),
                now,
            ),
    {
        let result = DelegateResultFile::parse(body);
        self.judge(stem, result, now)
    }

    /// Takes in the result of a task that was seen; returns what to report.
    pub fn judge(&mut self, stem: &str, result: Option<DelegateResultFile>, now: u64) -> (event:
        Option<DispatchEvent>)
        requires
            old(self).wf(),
        ensures
            final(self).wf(),
            (final(self)@, dispatch::optional_event(event)) == judged(
                old(self)@,
                stem@,
                optional_result(result),
                now,
            ),
    {
        let result = match result {
            Some(result) => result,
            None => {
                return self.emit_stale(stem, now);
            },
        };
        if !started_in_session(result.started_at.as_str(), self.connect_time) {
            self.settle(stem);
            return None;
        }
        match result.status {
            DelegateStatus::Running => self.emit_stale(stem, now),
            DelegateStatus::Completed => {
                self.settle(stem);
                let mut message = "task ".to_owned();
                message.append(result.task_id.as_str());
                message.append(" (agent ");
                message.append(result.agent.as_str());
                message.append("): ");
                match &result.output {
                    Some(output) => message.append(output.as_str()),
                    None => message.append("(no output)"),
                }
                Some(DispatchEvent::Completion { task_id: result.task_id, message })
            },
            DelegateStatus::Failed => {
                self.settle(stem);
                let mut message = "task ".to_owned();
                message.append(result.task_id.as_str());
                message.append(" (agent ");
                message.append(result.agent.as_str());
                message.append(") failed: ");
                match (&result.error, &result.output) {
                    (Some(error), _) => message.append(error.as_str()),
                    (None, Some(output)) => message.append(output.as_str()),
                    (None, None) => message.append("(no detail)"),
                }
                Some(DispatchEvent::Failure { task_id: result.task_id, message, retryable: false })
            },
            DelegateStatus::Cancelled => {
                self.settle(stem);
                None
            },
        }
    }

    /// A scan is over; returns what to report of the tasks that have been pending for too
    /// long. A task whose file is gone is among them: no scan meets it any more.
    pub fn scan_done(&mut self, now: u64) -> (events: Vec<DispatchEvent>)
        requires
            old(self).wf(),
        ensures
            final(self).wf(),
            final(self)@ == scanned(old(self)@, now),
            reports_lost(dispatch::events_model(events@), stale_tasks(old(self)@, now)),
    {
        let ghost start = self@;
        let stems = self.stale(now);
        let mut events: Vec<DispatchEvent> = Vec::new();
        let mut i: usize = 0;
        assert(settle_all(start, texts(stems@.subrange(0, 0))).settled =~= start.settled);
        assert(settle_all(start, texts(stems@.subrange(0, 0))).pending =~= start.pending);
        while i < stems.len()
            invariant
                0 <= i <= stems@.len(),
                self.wf(),
                self@ == settle_all(start, texts(stems@.subrange(0, i as int))),
                events@.len() == i,
                forall|j: int| 0 <= j < i ==> (#[trigger] events@[j])@ == lost(stems@[j]@),
            decreases stems@.len() - i,
        {
            let ghost done = stems@.subrange(0, i as int);
            self.settle(stems[i].as_str());
            events.push(report_lost(stems[i].as_str()));
            proof {
                lemma_texts_push(done, stems@[i as int]);
                assert(stems@.subrange(0, i + 1) =~= done.push(stems@[i as int]));
                let after = settle_all(start, texts(stems@.subrange(0, i + 1)));
                assert(self@.settled =~= after.settled);
                assert(self@.pending =~= after.pending);
            }
            i += 1;
        }
        proof {
            assert(stems@.subrange(0, stems@.len() as int) =~= stems@);
            lemma_reports(events@, stems@);
        }
        if self.is_idle() {
            self.pending_since = None;
        } else if self.pending_since.is_none() {
            self.pending_since = Some(now);
        }
        events
    }
}

/// The report of a task that came to no end.
fn report_lost(stem: &str) -> (event: DispatchEvent)
    ensures
        event@ == lost(stem@),
{
    let mut message = "task ".to_owned();
    message.append(stem);
    message.append(
        " produced no terminal status within the staleness window; treating it as lost (the daemon may have restarted mid-task)",
    );
    DispatchEvent::Failure { task_id: stem.to_owned(), message, retryable: false }
}

proof fn lemma_texts_push(list: Seq<String>, text: String)
    ensures
        texts(list.push(text)) == texts(list).insert(text@),
{
    let after = list.push(text);
    assert forall|key: Seq<char>| #[trigger]
        texts(after).contains(key) == texts(list).insert(text@).contains(key) by {
        if texts(list).contains(key) {
            let i = choose|i: int| 0 <= i < list.len() && (#[trigger] list[i])@ == key;
            assert(after[i]@ == key);
        }
        if key == text@ {
            assert(after[list.len() as int]@ == key);
        }
        if texts(after).contains(key) {
            let i = choose|i: int| 0 <= i < after.len() && (#[trigger] after[i])@ == key;
            if i < list.len() {
                assert(list[i]@ == key);
            }
        }
    }
    assert(texts(after) =~= texts(list).insert(text@));
}

proof fn lemma_reports(events: Seq<DispatchEvent>, stems: Seq<String>)
    requires
        events.len() == stems.len(),
        forall|i: int| 0 <= i < events.len() ==> (#[trigger] events[i])@ == lost(stems[i]@),
        forall|i: int, j: int| 0 <= i < j < stems.len() ==> stems[i]@ != stems[j]@,
    ensures
        reports_lost(dispatch::events_model(events), texts(stems)),
{
    let told = dispatch::events_model(events);
    assert forall|i: int, j: int| 0 <= i < told.len() && 0 <= j < told.len() && i != j implies told[i]
        != told[j] by {
        assert(events[i]@ == lost(stems[i]@));
        assert(events[j]@ == lost(stems[j]@));
        if i < j {
            assert(stems[i]@ != stems[j]@);
        } else {
            assert(stems[j]@ != stems[i]@);
        }
    }
    assert forall|stem: Seq<char>| #[trigger] texts(stems).contains(stem) implies told.contains(
        lost(stem),
    ) by {
        let i = choose|i: int| 0 <= i < stems.len() && (#[trigger] stems[i])@ == stem;
        assert(events[i]@ == lost(stems[i]@));
        assert(told[i] == lost(stem));
    }
    assert forall|i: int| 0 <= i < told.len() implies is_lost_among(
        #[trigger] told[i],
        texts(stems),
    ) by {
        assert(events[i]@ == lost(stems[i]@));
        assert(texts(stems).contains(stems[i]@));
    }
}

/// A task is reported at most once: whatever reports it settles it, a settled task is not
/// looked at again nor lost, and what is settled stays so.
pub proof fn a_task_is_reported_once(
    state: PollerModel,
    stem: Seq<char>,
    result: Option<ResultModel>,
    now: u64,
    later: u64,
    other: Seq<char>,
)
    requires
        are_apart(state),
    ensures
        ({
            let (after, event) = judged(state, stem, result, now);
            &&& event is Some ==> after.settled.contains(stem) && !sighted(after, stem, later).1
            &&& after.settled.contains(stem) ==> !stale_tasks(after, later).contains(stem)
            &&& state.settled.contains(other) ==> after.settled.contains(other)
        }),
        ({
            let after = scanned(state, now);
            &&& stale_tasks(state, now).contains(stem) ==> after.settled.contains(stem)
                && !sighted(after, stem, later).1 && !stale_tasks(after, later).contains(stem)
            &&& state.settled.contains(other) ==> after.settled.contains(other)
        }),
        state.settled.contains(other) ==> sighted(state, stem, now).0.settled.contains(other),
{
}

/// Whether no task is both pending and settled.
pub open spec fn are_apart(state: PollerModel) -> bool {
    forall|key: Seq<char>| #[trigger]
        state.pending.contains_key(key) ==> !state.settled.contains(key)
}

/// No task is both pending and settled, whatever is seen, read and scanned.
pub proof fn pending_tasks_are_not_settled(
    state: PollerModel,
    stem: Seq<char>,
    result: Option<ResultModel>,
    now: u64,
)
    requires
        are_apart(state),
    ensures
        are_apart(sighted(state, stem, now).0),
        are_apart(judged(state, stem, result, now).0),
        are_apart(scanned(state, now)),
{
}

/// A task that does not end is reported as lost and dropped once it has been pending for
/// longer than the window, and not before: when it is looked at, and at the latest when the
/// scan ends, even where its file is gone.
pub proof fn a_task_without_an_end_is_reported_as_lost(
    state: PollerModel,
    stem: Seq<char>,
    now: u64,
    events: Seq<EventModel>,
)
    requires
        state.pending.contains_key(stem),
        now >= state.pending[stem],
        reports_lost(events, stale_tasks(state, now)),
    ensures
        judged(state, stem, None, now).1 == (if now - state.pending[stem]
            > state.poll.stale_after_ms {
            Some(lost(stem))
        } else {
            None
        }),
        events.contains(lost(stem)) == (now - state.pending[stem] > state.poll.stale_after_ms),
        scanned(state, now).pending.contains_key(stem) == (now - state.pending[stem]
            <= state.poll.stale_after_ms),
{
    if events.contains(lost(stem)) {
        let i = choose|i: int| 0 <= i < events.len() && events[i] == lost(stem);
        let other = choose|other: Seq<char>| #[trigger]
            stale_tasks(state, now).contains(other) && events[i] == lost(other);
        assert(other == stem);
    }
    if now - state.pending[stem] > state.poll.stale_after_ms {
        assert(stale_tasks(state, now).contains(stem));
    }
}

/// Watching comes to rest: once every task has been pending for too long, a scan leaves
/// nothing to look for.
pub proof fn a_watch_comes_to_rest(state: PollerModel, now: u64)
    requires
        forall|stem: Seq<char>| #[trigger]
            state.pending.contains_key(stem) ==> is_stale(state, stem, now),
    ensures
        wait_of(scanned(state, now), now) is TurnSettled,
{
    let after = scanned(state, now);
    assert forall|stem: Seq<char>| !after.pending.contains_key(stem) by {
        if state.pending.contains_key(stem) {
            assert(stale_tasks(state, now).contains(stem));
        }
    }
    assert(after.pending.dom() =~= Set::empty());
}

/// A task's file is named after it, and no other file name stands for a task.
pub proof fn files_are_named_after_tasks(stem: Seq<char>, file_name: Seq<char>)
    ensures
        stem.len() > 0 ==> stem_of(stem + ".json"@) == Some(stem),
        stem_of(file_name) matches Some(found) ==> found.len() > 0 && file_name == found
            + ".json"@,
{
    reveal_strlit(".json");
    assert(".json"@.len() == 5);
    let whole = stem + ".json"@;
    assert(whole.subrange(stem.len() as int, whole.len() as int) =~= ".json"@);
    assert(whole.subrange(0, stem.len() as int) =~= stem);
    match stem_of(file_name) {
        Some(found) => {
            assert(file_name =~= found + ".json"@);
        },
        None => {},
    }
}

/// The names of the ways a delegation stands are told apart.
proof fn lemma_status_names_differ()
    ensures
        "running"@ != "completed"@,
        "running"@ != "failed"@,
        "running"@ != "cancelled"@,
        "completed"@ != "failed"@,
        "completed"@ != "cancelled"@,
        "failed"@ != "cancelled"@,
{
    reveal_strlit("running");
    assert("running"@.len() == 7);
    reveal_strlit("completed");
    assert("completed"@.len() == 9);
    reveal_strlit("failed");
    assert("failed"@.len() == 6);
    reveal_strlit("cancelled");
    assert("cancelled"@.len() == 9);
    assert("completed"@[1] != "cancelled"@[1]);
}

/// A result that is an object is read by its members' names, as they are.
pub proof fn results_are_read_by_name(document: JsonModel)
    requires
        document is Object,
    ensures
        match result_of(document) {
            Some(result) => {
                &&& records::text_member(document, "task_id"@) == Some(result.task_id)
                &&& records::text_member(document, "agent"@) == Some(result.agent)
                &&& records::text_member(document, "started_at"@) == Some(result.started_at)
                &&& result.output == records::text_member(document, "output"@)
                &&& result.error == records::text_member(document, "error"@)
                &&& records::text_member(document, "status"@) matches Some(status) ==> status == (
                match result.status {
                    DelegateStatus::Running => "running"@,
                    DelegateStatus::Completed => "completed"@,
                    DelegateStatus::Failed => "failed"@,
                    DelegateStatus::Cancelled => "cancelled"@,
                })
            },
            None => {
                ||| records::text_member(document, "task_id"@) is None
                ||| records::text_member(document, "agent"@) is None
                ||| records::text_member(document, "started_at"@) is None
                ||| records::member(document, "output"@) matches Some(value) && value !is Text
                    && value !is Null
                ||| records::member(document, "error"@) matches Some(value) && value !is Text
                    && value !is Null
                ||| {
                    &&& records::text_member(document, "status"@) != Some("running"@)
                    &&& records::text_member(document, "status"@) != Some("completed"@)
                    &&& records::text_member(document, "status"@) != Some("failed"@)
                    &&& records::text_member(document, "status"@) != Some("cancelled"@)
                }
            },
        },
{
    lemma_status_names_differ();
}

/// A report is of its own task: it names the task and the agent, and ends with what the
/// task gave out, its error where it failed and told one.
pub proof fn reports_tell_the_tasks_own_result(result: ResultModel, stem: Seq<char>)
    ensures
        completion(result) matches EventModel::Completion { task_id, message } && {
            &&& task_id == result.task_id
            &&& text::occurs(message, "(agent "@ + result.agent + ")"@)
            &&& result.output matches Some(output) ==> output.is_suffix_of(message)
            &&& result.output is None ==> "(no output)"@.is_suffix_of(message)
            &&& ("task "@ + result.task_id).is_prefix_of(message)
        },
        task_failure(result) matches EventModel::Failure { task_id, message, retryable } && {
            &&& task_id == result.task_id
            &&& !retryable
            &&& text::occurs(message, "(agent "@ + result.agent + ")"@)
            &&& result.error matches Some(error) ==> error.is_suffix_of(message)
            &&& result.error is None ==> (result.output matches Some(output)
                ==> output.is_suffix_of(message))
            &&& result.error is None && result.output is None ==> "(no detail)"@.is_suffix_of(
                message,
            )
            &&& ("task "@ + result.task_id).is_prefix_of(message)
        },
        lost(stem) matches EventModel::Failure { task_id, message, retryable } && {
            &&& task_id == stem
            &&& !retryable
            &&& ("task "@ + stem).is_prefix_of(message)
        },
{
    reveal_strlit(" (agent ");
    assert(" (agent "@.len() == 8);
    reveal_strlit("(agent ");
    assert("(agent "@.len() == 7);
    reveal_strlit("): ");
    assert("): "@.len() == 3);
    reveal_strlit(") failed: ");
    assert(") failed: "@.len() == 10);
    reveal_strlit(")");
    assert(")"@.len() == 1);
    assert(" (agent "@ =~= seq![' '] + "(agent "@);
    assert("): "@ =~= ")"@ + seq![':', ' ']);
    assert(") failed: "@ =~= ")"@ + seq![' ', 'f', 'a', 'i', 'l', 'e', 'd', ':', ' ']);
    let agent = "(agent "@ + result.agent + ")"@;
    let head = "task "@ + result.task_id;
    let output = or_text(result.output, "(no output)"@);
    let detail = or_text(result.error, or_text(result.output, "(no detail)"@));
    let done = completion(result)->Completion_message;
    let failed = task_failure(result)->Failure_message;
    assert(done =~= (head + seq![' ']) + agent + (seq![':', ' '] + output));
    text::lemma_occurs_between(head + seq![' '], agent, seq![':', ' '] + output);
    let words = seq![' ', 'f', 'a', 'i', 'l', 'e', 'd', ':', ' '];
    assert(failed =~= (head + seq![' ']) + agent + (words + detail));
    text::lemma_occurs_between(head + seq![' '], agent, words + detail);
    assert(done.subrange(done.len() - output.len(), done.len() as int) =~= output);
    assert(failed.subrange(failed.len() - detail.len(), failed.len() as int) =~= detail);
    assert(done.subrange(0, head.len() as int) =~= head);
    assert(failed.subrange(0, head.len() as int) =~= head);
    let gone = lost(stem)->Failure_message;
    assert(gone.subrange(0, ("task "@ + stem).len() as int) =~= "task "@ + stem);
}

/// A task of this session that answered or failed is reported and settled; one that was
/// cancelled, or began before the session, is settled and not reported; one that runs is
/// looked at again until it has been pending for too long.
pub proof fn ends_are_reported(
    state: PollerModel,
    stem: Seq<char>,
    result: ResultModel,
    seconds: i64,
    nanos: u32,
    now: u64,
)
    requires
        rfc3339_instant(result.started_at) == Some((seconds, nanos)),
    ensures
        ({
            let ours = seconds > state.connect_time.seconds || (seconds
                == state.connect_time.seconds && nanos >= state.connect_time.nanos);
            let (after, event) = judged(state, stem, Some(result), now);
            let waits = ours && result.status == DelegateStatus::Running && !(
            state.pending.contains_key(stem) && now - state.pending[stem]
                > state.poll.stale_after_ms);
            &&& (event matches Some(EventModel::Completion { .. })) == (ours && result.status
                == DelegateStatus::Completed)
            &&& ours && result.status == DelegateStatus::Failed ==> event == Some(
                task_failure(result),
            )
            &&& ours && result.status == DelegateStatus::Completed ==> event == Some(
                completion(result),
            )
            &&& !ours || result.status == DelegateStatus::Cancelled ==> event is None
            &&& waits ==> event is None && after == state
            &&& !waits ==> after.settled == state.settled.insert(stem) && after.pending
                == state.pending.remove(stem)
        }),
{
}

/// A file is read the first time it is seen and as long as its task is pending; from then
/// on the task is pending since it was first seen.
pub proof fn new_tasks_are_watched(state: PollerModel, stem: Seq<char>, now: u64)
    ensures
        sighted(state, stem, now).1 == !state.settled.contains(stem),
        !state.settled.contains(stem) ==> sighted(state, stem, now).0.pending.contains_key(stem)
            && sighted(state, stem, now).0.pending[stem] == (if state.pending.contains_key(stem) {
            state.pending[stem]
        } else {
            now
        }),
        state.settled.contains(stem) ==> sighted(state, stem, now).0 == state,
{
}

/// With nothing pending only a turn is waited for; else the wait is the configured one,
/// and the longer one once tasks have been pending for more than half a minute.
pub proof fn waits_are_as_configured(state: PollerModel, now: u64, stem: Seq<char>, since: u64)
    ensures
        state.pending == Map::<Seq<char>, u64>::empty() ==> wait_of(state, now)
            == Wait::TurnSettled,
        state.pending.contains_key(stem) && state.pending_since == Some(since) && now >= since
            ==> wait_of(state, now) == Wait::TurnSettledOr(
            if now - since > 30_000 {
                state.poll.settle_backoff_ms
            } else {
                state.poll.interval_ms
            },
        ),
        state.pending.contains_key(stem) && state.pending_since is None ==> wait_of(state, now)
            == Wait::TurnSettledOr(state.poll.interval_ms),
        state.pending.contains_key(stem) && !is_stale(state, stem, now) ==> scanned(
            state,
            now,
        ).pending_since == (match state.pending_since {
            Some(first) => Some(first),
            None => Some(now),
        }),
{
    if state.pending == Map::<Seq<char>, u64>::empty() {
        assert(state.pending.dom() =~= Set::empty());
    }
    if state.pending.contains_key(stem) {
        assert(state.pending.dom().contains(stem));
        if !is_stale(state, stem, now) {
            let after = settle_all(state, stale_tasks(state, now));
            assert(!stale_tasks(state, now).contains(stem));
            assert(after.pending.dom().contains(stem));
        }
    }
}

/// A result may also come as the list of its fields, each at its own place, and such a list
/// holds no more than there are.
pub proof fn records_may_be_lists(
    task_id: Seq<char>,
    agent: Seq<char>,
    output: Seq<char>,
    error: Seq<char>,
    started_at: Seq<char>,
    items: Seq<JsonModel>,
)
    ensures
        result_of(
            JsonModel::Array(
                seq![
                    JsonModel::Text(task_id),
                    JsonModel::Text(agent),
                    JsonModel::Text("failed"@),
                    JsonModel::Text(output),
                    JsonModel::Text(error),
                    JsonModel::Text(started_at),
                ],
            ),
        ) == Some(
            ResultModel {
                task_id,
                agent,
                status: DelegateStatus::Failed,
                output: Some(output),
                error: Some(error),
                started_at,
            },
        ),
        items.len() > 6 ==> result_of(JsonModel::Array(items)) is None,
{
    lemma_status_names_differ();
}

/// A file that is gone or is no JSON holds no result, and any other what its document does.
pub proof fn files_hold_what_their_documents_do(body: Seq<char>)
    ensures
        result_in(None) is None,
        match json::parsed_text(body) {
            Ok(document) => result_in(Some(body)) == result_of(document),
            Err(_) => result_in(Some(body)) is None,
        },
{
}

} // verus!
