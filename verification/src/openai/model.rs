//! One generation after another over one endpoint: which of them is current, and what
//! its stream yields.
use std::collections::VecDeque;
use vstd::prelude::*;
use vstd::string::*;
use crate::lm::{LmError, LmErrorModel, ModelDelta};
use crate::openai::stream;
use crate::openai::stream::{DecoderModel, Emission, SseDecoder};

verus! {

/// The epoch one generation captured. A shared counter moves on with every generation
/// and every cancellation.
#[derive(Debug, Clone, Copy)]
pub struct Epoch {
    pub value: u64,
}

impl Epoch {
    /// The epoch of a generation that found the counter at `previous` and moved it on.
    pub fn after(previous: u64) -> (epoch: Epoch)
        requires
            previous < u64::MAX,
        ensures
            epoch.value == previous + 1,
    {
        Epoch { value: previous + 1 }
    }

    /// Whether the generation is still the current one, with the counter at `shared`.
    pub fn is_current(&self, shared: u64) -> (current: bool)
        ensures
            current == (shared == self.value),
    {
        shared == self.value
    }
}

/// What a streamed generation carries from one item to the next.
#[derive(Debug)]
pub struct SseState {
    decoder: SseDecoder,
    queue: VecDeque<Result<ModelDelta, LmError>>,
    /// No more of the body is wanted: the host announced the end, the body ended, or
    /// something failed.
    finished: bool,
}

/// What an [`SseState`] stands for.
pub struct StreamModel {
    pub decoder: DecoderModel,
    pub queue: Seq<Result<ModelDelta, LmError>>,
    pub finished: bool,
}

impl View for SseState {
    type V = StreamModel;

    closed spec fn view(&self) -> StreamModel {
        StreamModel { decoder: self.decoder@, queue: self.queue@, finished: self.finished }
    }
}

/// What to do next for a stream's reader.
#[derive(Debug)]
pub enum Pull {
    /// The stream is over.
    End,
    /// Hand out this item.
    Item(Result<ModelDelta, LmError>),
    /// Read more of the body.
    Read,
}

/// What the reader is told, with the generation being `current` or not.
pub open spec fn pulled(state: StreamModel, current: bool) -> Pull {
    if !current {
        Pull::End
    } else if state.queue.len() > 0 {
        Pull::Item(state.queue[0])
    } else if state.finished {
        Pull::End
    } else {
        Pull::Read
    }
}

/// What the stream becomes when the reader asks. A failed turn is over: nothing that was
/// read after it is kept.
pub open spec fn after_pull(state: StreamModel, current: bool) -> StreamModel {
    if current && state.queue.len() > 0 {
        if state.queue[0] is Err {
            StreamModel { queue: Seq::empty(), finished: true, ..state }
        } else {
            StreamModel { queue: state.queue.drop_first(), ..state }
        }
    } else {
        state
    }
}

impl SseState {
    /// A stream of which nothing was read yet.
    pub fn new() -> (state: SseState)
        ensures
            state@ == (StreamModel {
                decoder: stream::fresh(),
                queue: Seq::empty(),
                finished: false,
            }),
    {
        SseState { decoder: SseDecoder::default(), queue: VecDeque::new(), finished: false }
    }

    /// The next thing to do for the reader, asked before every item: a cancellation
    /// between two of them ends the turn here.
    pub fn next(&mut self, current: bool) -> (pull: Pull)
        ensures
            pull == pulled(old(self)@, current),
            final(self)@ == after_pull(old(self)@, current),
    {
        if !current {
            return Pull::End;
        }
        let ghost queue = self.queue@;
        match self.queue.pop_front() {
            Some(item) => {
                assert(queue.subrange(1, queue.len() as int) =~= queue.drop_first());
                if item.is_err() {
                    self.queue.clear();
                    self.finished = true;
                }
                Pull::Item(item)
            },
            None => if self.finished {
                Pull::End
            } else {
                Pull::Read
            },
        }
    }

    /// Takes in a piece of the body.
    pub fn chunk(&mut self, bytes: &[u8])
        ensures
            ({
                let step = stream::fed(old(self)@.decoder, bytes@);
                &&& final(self)@.decoder == step.state
                &&& final(self)@.finished == step.state.done
                &&& stream::appends(old(self)@.queue, final(self)@.queue, step.out)
            }),
    {
        let items = self.decoder.push(bytes);
        self.extend(items, Ghost(stream::fed(old(self)@.decoder, bytes@).out));
        self.finished = self.decoder.is_done();
    }

    /// Takes in the end of the body.
    pub fn end_of_body(&mut self)
        ensures
            ({
                let step = stream::ended(old(self)@.decoder);
                &&& final(self)@.decoder == step.state
                &&& final(self)@.finished
                &&& stream::appends(old(self)@.queue, final(self)@.queue, step.out)
            }),
    {
        self.finished = true;
        let items = self.decoder.finish();
        self.extend(items, Ghost(stream::ended(old(self)@.decoder).out));
    }

    /// Takes in that reading the body failed.
    pub fn body_failed(&mut self, error: &str)
        ensures
            final(self)@.decoder == old(self)@.decoder,
            final(self)@.finished,
            stream::appends(
                old(self)@.queue,
                final(self)@.queue,
                seq![
                    Emission::Failure(
                        LmErrorModel::ProviderStream("completion stream failed: "@ + error@),
                    ),
                ],
            ),
    {
        self.finished = true;
        let mut message = "completion stream failed: ".to_owned();
        message.append(error);
        let ghost before = self.queue@;
        self.queue.push_back(Err(LmError::ProviderStream(message)));
        proof {
            let after = self.queue@;
            assert(after.subrange(0, before.len() as int) =~= before);
            assert(after.subrange(before.len() as int, after.len() as int) =~= seq![after.last()]);
        }
    }

    fn extend(
        &mut self,
        items: Vec<Result<ModelDelta, LmError>>,
        Ghost(emissions): Ghost<Seq<Emission>>,
    )
        requires
            stream::items_say(items@, emissions),
        ensures
            final(self)@.decoder == old(self)@.decoder,
            final(self)@.finished == old(self)@.finished,
            stream::appends(old(self)@.queue, final(self)@.queue, emissions),
    {
        let ghost before = self.queue@;
        let ghost all = items@;
        let ghost state = self@;
        let mut rest = items;
        let ghost mut n: int = 0;
        assert(all.subrange(0, all.len() as int) =~= all);
        assert(before + all.subrange(0, 0) =~= before);
        while rest.len() > 0
            invariant
                0 <= n <= all.len(),
                rest@ == all.subrange(n, all.len() as int),
                self@ == (StreamModel { queue: before + all.subrange(0, n), ..state }),
            decreases rest@.len(),
        {
            let item = rest.remove(0);
            self.queue.push_back(item);
            proof {
                assert(item == all[n]);
                assert((before + all.subrange(0, n)).push(item) =~= before + all.subrange(0, n + 1));
                n = n + 1;
                assert(rest@ =~= all.subrange(n, all.len() as int));
            }
        }
        proof {
            assert(all.subrange(0, n) =~= all);
            let after = self.queue@;
            assert(after.subrange(0, before.len() as int) =~= before);
            assert(after.subrange(before.len() as int, after.len() as int) =~= all);
        }
    }
}

/// A turn that was superseded yields nothing more, and its stream stays as it is.
pub proof fn a_superseded_turn_yields_nothing(state: StreamModel)
    ensures
        pulled(state, false) is End,
        after_pull(state, false) == state,
{
}

/// After a failure the stream is over, whether or not the turn is current.
pub proof fn a_failure_is_the_last_item(state: StreamModel, current: bool)
    requires
        pulled(state, true) matches Pull::Item(item) && item is Err,
    ensures
        pulled(after_pull(state, true), current) is End,
        after_pull(after_pull(state, true), current) == after_pull(state, true),
{
}

/// Once no more of the body is wanted it is never asked for again, however often the
/// reader asks.
pub proof fn a_finished_stream_reads_no_more(state: StreamModel, current: bool)
    requires
        state.finished,
    ensures
        !(pulled(state, current) is Read),
        after_pull(state, current).finished,
{
}

/// Items that were read at once, handed out one by one.
#[derive(Debug)]
pub struct DecodedState {
    queue: VecDeque<Result<ModelDelta, LmError>>,
    over: bool,
}

/// What a [`DecodedState`] stands for.
pub struct DecodedModel {
    pub queue: Seq<Result<ModelDelta, LmError>>,
    pub over: bool,
}

impl View for DecodedState {
    type V = DecodedModel;

    closed spec fn view(&self) -> DecodedModel {
        DecodedModel { queue: self.queue@, over: self.over }
    }
}

impl DecodedState {
    /// A stream of `items`.
    pub fn new(items: Vec<Result<ModelDelta, LmError>>) -> (state: DecodedState)
        ensures
            state@ == (DecodedModel { queue: items@, over: false }),
    {
        let ghost all = items@;
        let mut rest = items;
        let mut queue: VecDeque<Result<ModelDelta, LmError>> = VecDeque::new();
        let ghost mut n: int = 0;
        assert(all.subrange(0, all.len() as int) =~= all);
        assert(all.subrange(0, 0) =~= Seq::empty());
        while rest.len() > 0
            invariant
                0 <= n <= all.len(),
                rest@ == all.subrange(n, all.len() as int),
                queue@ == all.subrange(0, n),
            decreases rest@.len(),
        {
            let item = rest.remove(0);
            queue.push_back(item);
            proof {
                assert(all.subrange(0, n).push(all[n]) =~= all.subrange(0, n + 1));
                n = n + 1;
                assert(rest@ =~= all.subrange(n, all.len() as int));
            }
        }
        assert(all.subrange(0, n) =~= all);
        DecodedState { queue, over: false }
    }

    /// The next item, while the turn is current. The first item that finds it superseded
    /// ends the stream for good.
    pub fn next(&mut self, current: bool) -> (item: Option<Result<ModelDelta, LmError>>)
        ensures
            ({
                let before = old(self)@;
                if before.over || before.queue.len() == 0 {
                    item is None && final(self)@ == before
                } else if !current {
                    item is None && final(self)@ == (DecodedModel {
                        queue: before.queue.drop_first(),
                        over: true,
                    })
                } else {
                    item == Some(before.queue[0]) && final(self)@ == (DecodedModel {
                        queue: before.queue.drop_first(),
                        over: false,
                    })
                }
            }),
    {
        if self.over {
            return None;
        }
        let ghost queue = self.queue@;
        match self.queue.pop_front() {
            Some(item) => {
                assert(queue.subrange(1, queue.len() as int) =~= queue.drop_first());
                if current {
                    Some(item)
                } else {
                    self.over = true;
                    None
                }
            },
            None => None,
        }
    }
}

/// The state a session is saved as: an endpoint holds none.
pub fn save_state() -> (blob: Vec<u8>)
    ensures
        blob@.len() == 0,
{
    Vec::new()
}

/// Restores a saved state, which can only be the empty one.
pub fn load_state(blob: &[u8]) -> (loaded: Result<(), LmError>)
    ensures
        match loaded {
            Ok(_) => blob@.len() == 0,
            Err(error) => blob@.len() > 0 && error@ == LmErrorModel::Engine(
                "an OpenAI-compatible endpoint has no session state to restore"@,
            ),
        },
{
    if blob.len() == 0 {
        Ok(())
    } else {
        Err(
            LmError::Engine(
                "an OpenAI-compatible endpoint has no session state to restore".to_owned(),
            ),
        )
    }
}

/// What was read is handed out in order, one item each time the reader asks, and more of
/// the body is asked for only when nothing waits and it has not ended.
pub proof fn items_are_handed_out_in_order(state: StreamModel)
    ensures
        state.queue.len() > 0 ==> pulled(state, true) == Pull::Item(state.queue[0]),
        state.queue.len() > 0 && state.queue[0] is Ok ==> {
            &&& after_pull(state, true).queue == state.queue.subrange(
                1,
                state.queue.len() as int,
            )
            &&& after_pull(state, true).decoder == state.decoder
            &&& after_pull(state, true).finished == state.finished
        },
        state.queue.len() == 0 ==> after_pull(state, true) == state,
        state.queue.len() == 0 && state.finished ==> pulled(state, true) is End,
        state.queue.len() == 0 && !state.finished ==> pulled(state, true) is Read,
{
    if state.queue.len() > 0 {
        assert(state.queue.drop_first() =~= state.queue.subrange(1, state.queue.len() as int));
    }
}

/// What a piece of the body completes is queued behind what waits, and nothing that waits
/// is lost; the end of the body and a failure to read it are the last that is wanted.
pub proof fn what_is_read_is_queued(
    state: &mut SseState,
    other: &mut SseState,
    bytes: &[u8],
    error: &str,
)
    requires
        call_ensures(SseState::chunk, (state, bytes), ()),
        call_ensures(SseState::body_failed, (other, error), ()),
    ensures
        old(state)@.queue.is_prefix_of(final(state)@.queue),
        final(state)@.queue.len() == old(state)@.queue.len() + stream::fed(
            old(state)@.decoder,
            bytes@,
        ).out.len(),
        final(state)@.finished == final(state)@.decoder.done,
        final(other)@.finished,
        final(other)@.queue.len() == old(other)@.queue.len() + 1,
        old(other)@.queue.is_prefix_of(final(other)@.queue),
        final(other)@.queue.last() matches Err(told) && told@ == LmErrorModel::ProviderStream(
            "completion stream failed: "@ + error@,
        ),
{
    let before = old(other)@.queue;
    let after = final(other)@.queue;
    let added = after.subrange(before.len() as int, after.len() as int);
    assert(added[0] == after.last());
}

/// Items that were read at once are handed out in their order while the turn is current.
pub proof fn decoded_items_are_handed_out_in_order(
    state: &mut DecodedState,
    current: bool,
    item: Option<Result<ModelDelta, LmError>>,
)
    requires
        call_ensures(DecodedState::next, (state, current), item),
        !old(state)@.over,
        old(state)@.queue.len() > 0,
    ensures
        current ==> item == Some(old(state)@.queue[0]) && final(state)@.queue
            == old(state)@.queue.subrange(1, old(state)@.queue.len() as int),
        !current ==> item is None && final(state)@.over,
{
    let queue = old(state)@.queue;
    assert(queue.drop_first() =~= queue.subrange(1, queue.len() as int));
}

} // verus!
