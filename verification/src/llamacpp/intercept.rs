//! Splitting decoded text into what is spoken and the bodies of tool calls.
use vstd::prelude::*;
use vstd::string::*;
use crate::lm::{LmError, LmErrorModel};
use crate::text;

verus! {

/// One piece of a decoded stream.
#[derive(Debug, PartialEq, Eq)]
pub enum Intercepted {
    /// Text to speak.
    Text(String),
    /// What stood between a call's delimiters.
    Call(String),
}

/// What an [`Intercepted`] says.
pub enum Piece {
    Text(Seq<char>),
    Call(Seq<char>),
}

impl View for Intercepted {
    type V = Piece;

    open spec fn view(&self) -> Piece {
        match self {
            Intercepted::Text(text) => Piece::Text(text@),
            Intercepted::Call(body) => Piece::Call(body@),
        }
    }
}

/// What a list of pieces says.
pub open spec fn pieces(list: Seq<Intercepted>) -> Seq<Piece> {
    list.map_values(|item: Intercepted| item@)
}

/// What an interceptor holds back.
pub struct HeldModel {
    pub open: Seq<char>,
    pub close: Seq<char>,
    /// What came and was not given out.
    pub buffer: Seq<char>,
    /// Whether `buffer` is the body of a call.
    pub capturing: bool,
}

/// Whether `text` ends in the first `n` characters of `open`.
pub open spec fn ends_in_prefix(text: Seq<char>, open: Seq<char>, n: int) -> bool {
    &&& 0 <= n <= text.len()
    &&& n <= open.len()
    &&& text.subrange(text.len() - n, text.len() as int) == open.subrange(0, n)
}

/// The greatest `k` up to `n` such that `text` ends in the first `k` characters of `open`.
pub open spec fn longest_prefix(text: Seq<char>, open: Seq<char>, n: int) -> int
    decreases n,
{
    if n <= 0 {
        0
    } else if ends_in_prefix(text, open, n) {
        n
    } else {
        longest_prefix(text, open, n - 1)
    }
}

/// How much at the end of `text` could still grow into `open`: to speak it and only then
/// find that it opened a call would be too late.
pub open spec fn withheld_len(text: Seq<char>, open: Seq<char>) -> int {
    longest_prefix(text, open, open.len() - 1)
}

/// Where `part` first stands in `text`, or a negative number.
pub open spec fn first_at(text: Seq<char>, part: Seq<char>) -> int {
    first_from(text, part, 0)
}

/// Where `part` first stands in `text` at `from` or later, or a negative number.
pub open spec fn first_from(text: Seq<char>, part: Seq<char>, from: int) -> int
    decreases text.len() - from + 1,
{
    if from < 0 || from > text.len() {
        -1
    } else if text::occurs_at(text, part, from) {
        from
    } else {
        first_from(text, part, from + 1)
    }
}

pub proof fn lemma_first_from(text: Seq<char>, part: Seq<char>, from: int)
    requires
        0 <= from,
    ensures
        ({
            let at = first_from(text, part, from);
            if at < 0 {
                forall|j: int| from <= j ==> !text::occurs_at(text, part, j)
            } else {
                from <= at && text::occurs_at(text, part, at) && forall|j: int|
                    from <= j < at ==> !text::occurs_at(text, part, j)
            }
        }),
    decreases text.len() - from + 1,
{
    if from <= text.len() && !text::occurs_at(text, part, from) {
        lemma_first_from(text, part, from + 1);
    }
}

/// How far a state is from the end of its work.
pub open spec fn work_left(state: HeldModel) -> nat {
    let turn = if state.open.len() == 0 {
        if state.capturing {
            0nat
        } else {
            1nat
        }
    } else if state.capturing {
        1nat
    } else {
        0nat
    };
    2 * state.buffer.len() + turn
}

/// What is given out of a buffer, and what is held back after it. A call's body is given
/// out once its end is there; text is given out but for a rest that could still grow into
/// a call's beginning.
pub open spec fn split(state: HeldModel) -> (Seq<Piece>, HeldModel)
    decreases work_left(state),
    when state.open.len() + state.close.len() > 0
{
    proof {
        lemma_first_from(state.buffer, state.close, 0);
        lemma_first_from(state.buffer, state.open, 0);
    }
    if state.capturing {
        let end = first_at(state.buffer, state.close);
        if end < 0 {
            (Seq::empty(), state)
        } else {
            let rest = split(
                HeldModel {
                    buffer: state.buffer.subrange(
                        end + state.close.len(),
                        state.buffer.len() as int,
                    ),
                    capturing: false,
                    ..state
                },
            );
            (seq![Piece::Call(state.buffer.subrange(0, end))] + rest.0, rest.1)
        }
    } else {
        let start = first_at(state.buffer, state.open);
        if start >= 0 {
            let rest = split(
                HeldModel {
                    buffer: state.buffer.subrange(
                        start + state.open.len(),
                        state.buffer.len() as int,
                    ),
                    capturing: true,
                    ..state
                },
            );
            (spoken(state.buffer, start) + rest.0, rest.1)
        } else {
            let speakable = state.buffer.len() - withheld_len(state.buffer, state.open);
            (
                spoken(state.buffer, speakable),
                HeldModel {
                    buffer: state.buffer.subrange(speakable, state.buffer.len() as int),
                    ..state
                },
            )
        }
    }
}

/// The first `n` characters of `text` as a piece, where there are any.
pub open spec fn spoken(text: Seq<char>, n: int) -> Seq<Piece> {
    if n > 0 {
        seq![Piece::Text(text.subrange(0, n))]
    } else {
        Seq::empty()
    }
}

/// What more text leads to.
pub open spec fn pushed(state: HeldModel, piece: Seq<char>) -> (Seq<Piece>, HeldModel) {
    split(HeldModel { buffer: state.buffer + piece, ..state })
}

/// Separates tool calls from speech as text arrives.
#[derive(Debug)]
pub struct CallInterceptor {
    open: Vec<char>,
    close: Vec<char>,
    buffer: Vec<char>,
    capturing: bool,
}

impl View for CallInterceptor {
    type V = HeldModel;

    closed spec fn view(&self) -> HeldModel {
        HeldModel {
            open: self.open@,
            close: self.close@,
            buffer: self.buffer@,
            capturing: self.capturing,
        }
    }
}

impl CallInterceptor {
    /// Intercepts calls between `open` and `close`.
    pub fn new(open: &str, close: &str) -> (interceptor: CallInterceptor)
        ensures
            interceptor@ == (HeldModel {
                open: open@,
                close: close@,
                buffer: Seq::empty(),
                capturing: false,
            }),
    {
        CallInterceptor {
            open: text::chars_of(open),
            close: text::chars_of(close),
            buffer: Vec::new(),
            capturing: false,
        }
    }

    /// How much at the end of the buffer could still grow into a call's beginning.
    fn withheld(&self) -> (n: usize)
        ensures
            n == withheld_len(self@.buffer, self@.open),
            n <= self@.buffer.len(),
    {
        if self.open.len() == 0 {
            return 0;
        }
        let mut n: usize = self.open.len() - 1;
        while n > 0
            invariant
                n < self.open@.len(),
                longest_prefix(self.buffer@, self.open@, n as int) == withheld_len(
                    self.buffer@,
                    self.open@,
                ),
            decreases n,
        {
            if self.ends_in(n) {
                return n;
            }
            n -= 1;
        }
        0
    }

    /// Whether the buffer ends in the first `n` characters of a call's beginning.
    fn ends_in(&self, n: usize) -> (ends: bool)
        requires
            n <= self@.open.len(),
        ensures
            ends == ends_in_prefix(self@.buffer, self@.open, n as int),
    {
        if n > self.buffer.len() {
            return false;
        }
        let from: usize = self.buffer.len() - n;
        let mut i: usize = 0;
        while i < n
            invariant
                0 <= i <= n <= self.open@.len(),
                n <= self.buffer@.len() <= usize::MAX,
                from == self.buffer@.len() - n,
                forall|j: int| 0 <= j < i ==> self.buffer@[from + j] == self.open@[j],
            decreases n - i,
        {
            if self.buffer[from + i] != self.open[i] {
                assert(self.buffer@.subrange(from as int, self.buffer@.len() as int)[i as int]
                    != self.open@.subrange(0, n as int)[i as int]);
                return false;
            }
            i += 1;
        }
        assert(self.buffer@.subrange(from as int, self.buffer@.len() as int)
            =~= self.open@.subrange(0, n as int));
        true
    }

    /// Drops the first `n` characters of the buffer.
    fn drain(&mut self, n: usize)
        requires
            n <= old(self)@.buffer.len(),
        ensures
            final(self)@ == (HeldModel {
                buffer: old(self)@.buffer.subrange(n as int, old(self)@.buffer.len() as int),
                ..old(self)@
            }),
    {
        let ghost before = self.buffer@;
        let mut rest: Vec<char> = Vec::new();
        let mut i: usize = n;
        while i < self.buffer.len()
            invariant
                n <= i <= self.buffer@.len(),
                rest@ == self.buffer@.subrange(n as int, i as int),
            decreases self.buffer@.len() - i,
        {
            rest.push(self.buffer[i]);
            i += 1;
        }
        self.buffer = rest;
    }

    /// Takes in more text, adding what it completes to `out`.
    pub fn push(&mut self, piece: &str, out: &mut Vec<Intercepted>)
        requires
            old(self)@.open.len() + old(self)@.close.len() > 0,
        ensures
            pieces(final(out)@) == pieces(old(out)@) + pushed(old(self)@, piece@).0,
            final(self)@ == pushed(old(self)@, piece@).1,
    {
        let ghost start = self@;
        let ghost before = pieces(out@);
        let chars = text::chars_of(piece);
        let mut i: usize = 0;
        assert(start.buffer + chars@.subrange(0, 0) =~= start.buffer);
        while i < chars.len()
            invariant
                0 <= i <= chars@.len(),
                self@ == (HeldModel { buffer: start.buffer + chars@.subrange(0, i as int), ..start }),
            decreases chars@.len() - i,
        {
            self.buffer.push(chars[i]);
            i += 1;
            assert(start.buffer + chars@.subrange(0, i as int) =~= (start.buffer + chars@.subrange(
                0,
                i - 1,
            )).push(chars@[i - 1]));
        }
        assert(chars@.subrange(0, chars@.len() as int) =~= chars@);
        let ghost whole = split(self@);
        let ghost mut given: Seq<Piece> = Seq::empty();
        assert(before + given =~= before);
        assert(given + whole.0 =~= whole.0);
        loop
            invariant_except_break
                start.open.len() + start.close.len() > 0,
                self@.open == start.open,
                self@.close == start.close,
                pieces(out@) == before + given,
                given + split(self@).0 == whole.0,
                split(self@).1 == whole.1,
            ensures
                pieces(out@) == before + whole.0,
                self@ == whole.1,
            decreases work_left(self@),
        {
            let ghost now = self@;
            if self.capturing {
                let found = text::find(&self.buffer, &self.close, 0);
                proof {
                    lemma_first_from(self.buffer@, self.close@, 0);
                }
                match found {
                    None => {
                        assert(first_at(now.buffer, now.close) < 0);
                        assert(given + Seq::<Piece>::empty() =~= given);
                        break;
                    },
                    Some(end) => {
                        assert(first_at(now.buffer, now.close) == end);
                        let body = text::string_of(&self.buffer, 0, end);
                        let ghost was = out@;
                        out.push(Intercepted::Call(body));
                        let total: usize = self.buffer.len();
                        assert(end + now.close.len() <= total);
                        self.drain(end + self.close.len());
                        self.capturing = false;
                        proof {
                            let one = Piece::Call(now.buffer.subrange(0, end as int));
                            assert(pieces(out@) =~= pieces(was).push(one));
                            let rest = split(self@).0;
                            assert(given + (seq![one] + rest) =~= given.push(one) + rest);
                            given = given.push(one);
                            assert(pieces(out@) =~= before + given);
                        }
                    },
                }
            } else {
                let found = text::find(&self.buffer, &self.open, 0);
                proof {
                    lemma_first_from(self.buffer@, self.open@, 0);
                }
                match found {
                    Some(at) => {
                        assert(first_at(now.buffer, now.open) == at);
                        let ghost was = out@;
                        if at > 0 {
                            out.push(Intercepted::Text(text::string_of(&self.buffer, 0, at)));
                        }
                        let total: usize = self.buffer.len();
                        assert(at + now.open.len() <= total);
                        self.drain(at + self.open.len());
                        self.capturing = true;
                        proof {
                            let some = spoken(now.buffer, at as int);
                            assert(pieces(out@) =~= pieces(was) + some);
                            let rest = split(self@).0;
                            assert(given + (some + rest) =~= (given + some) + rest);
                            given = given + some;
                            assert(pieces(out@) =~= before + given);
                        }
                    },
                    None => {
                        assert(first_at(now.buffer, now.open) < 0);
                        let speakable: usize = self.buffer.len() - self.withheld();
                        let ghost was = out@;
                        if speakable > 0 {
                            out.push(
                                Intercepted::Text(text::string_of(&self.buffer, 0, speakable)),
                            );
                        }
                        self.drain(speakable);
                        proof {
                            let some = spoken(now.buffer, speakable as int);
                            assert(pieces(out@) =~= pieces(was) + some);
                            assert((before + given) + some =~= before + (given + some));
                        }
                        break;
                    },
                }
            }
        }
    }

    /// The end of the stream: gives out the text that was held back. A stream that stops
    /// within a call fails: half a call is not a call.
    pub fn finish(&mut self) -> (tail: Result<Option<Intercepted>, LmError>)
        ensures
            match tail {
                Err(error) => {
                    &&& old(self)@.capturing
                    &&& error@ == LmErrorModel::IncompleteToolCall
                    &&& final(self)@ == old(self)@
                },
                Ok(tail) => {
                    &&& !old(self)@.capturing
                    &&& final(self)@ == (HeldModel { buffer: Seq::empty(), ..old(self)@ })
                    &&& match tail {
                        Some(item) => old(self)@.buffer.len() > 0 && item@ == Piece::Text(
                            old(self)@.buffer,
                        ),
                        None => old(self)@.buffer.len() == 0,
                    }
                },
            },
    {
        if self.capturing {
            return Err(LmError::IncompleteToolCall);
        }
        if self.buffer.len() == 0 {
            assert(self.buffer@ =~= Seq::empty());
            return Ok(None);
        }
        let rest = text::string_of(&self.buffer, 0, self.buffer.len());
        assert(rest@ =~= self.buffer@);
        self.buffer = Vec::new();
        Ok(Some(Intercepted::Text(rest)))
    }
}

/// The text that `list` was taken out of.
pub open spec fn reassembled(list: Seq<Piece>, open: Seq<char>, close: Seq<char>) -> Seq<char>
    decreases list.len(),
{
    if list.len() == 0 {
        Seq::empty()
    } else {
        reassembled(list.drop_last(), open, close) + (match list.last() {
            Piece::Text(text) => text,
            Piece::Call(body) => open + body + close,
        })
    }
}

/// The text that is held back, with the delimiter that opened it.
pub open spec fn held_text(state: HeldModel) -> Seq<char> {
    if state.capturing {
        state.open + state.buffer
    } else {
        state.buffer
    }
}

proof fn lemma_reassembled_join(
    a: Seq<Piece>,
    b: Seq<Piece>,
    open: Seq<char>,
    close: Seq<char>,
)
    ensures
        reassembled(a + b, open, close) == reassembled(a, open, close) + reassembled(
            b,
            open,
            close,
        ),
    decreases b.len(),
{
    if b.len() == 0 {
        assert(a + b =~= a);
        assert(reassembled(a, open, close) + Seq::<char>::empty() =~= reassembled(a, open, close));
    } else {
        lemma_reassembled_join(a, b.drop_last(), open, close);
        assert((a + b).drop_last() =~= a + b.drop_last());
        let last = match b.last() {
            Piece::Text(text) => text,
            Piece::Call(body) => open + body + close,
        };
        assert((a + b).last() == b.last());
        let x = reassembled(a, open, close);
        let y = reassembled(b.drop_last(), open, close);
        assert((x + y) + last =~= x + (y + last));
    }
}

proof fn lemma_reassembled_one(one: Piece, open: Seq<char>, close: Seq<char>)
    ensures
        reassembled(seq![one], open, close) == (match one {
            Piece::Text(text) => text,
            Piece::Call(body) => open + body + close,
        }),
{
    assert(seq![one].drop_last() =~= Seq::empty());
    assert(reassembled(seq![one].drop_last(), open, close) =~= Seq::empty());
    match one {
        Piece::Text(text) => {
            assert(Seq::<char>::empty() + text =~= text);
        },
        Piece::Call(body) => {
            assert(Seq::<char>::empty() + (open + body + close) =~= open + body + close);
        },
    }
}

proof fn lemma_split_keeps_text(state: HeldModel)
    requires
        state.open.len() + state.close.len() > 0,
    ensures
        held_text(state) == reassembled(split(state).0, state.open, state.close) + held_text(
            split(state).1,
        ),
        split(state).1.open == state.open,
        split(state).1.close == state.close,
    decreases work_left(state),
{
    let open = state.open;
    let close = state.close;
    let buffer = state.buffer;
    let len = buffer.len() as int;
    lemma_first_from(buffer, close, 0);
    lemma_first_from(buffer, open, 0);
    if state.capturing {
        let end = first_at(buffer, close);
        if end >= 0 {
            let next = HeldModel {
                buffer: buffer.subrange(end + close.len(), len),
                capturing: false,
                ..state
            };
            lemma_split_keeps_text(next);
            let one = Piece::Call(buffer.subrange(0, end));
            lemma_reassembled_one(one, open, close);
            lemma_reassembled_join(seq![one], split(next).0, open, close);
            assert(buffer =~= buffer.subrange(0, end) + buffer.subrange(end, end + close.len())
                + next.buffer);
            let r = reassembled(split(next).0, open, close);
            let h = held_text(split(next).1);
            assert(open + buffer =~= (open + buffer.subrange(0, end) + close) + next.buffer);
            assert((open + buffer.subrange(0, end) + close) + (r + h) =~= ((open + buffer.subrange(
                0,
                end,
            ) + close) + r) + h);
        } else {
            assert(Seq::<char>::empty() + held_text(state) =~= held_text(state));
        }
    } else {
        let start = first_at(buffer, open);
        if start >= 0 {
            let next = HeldModel {
                buffer: buffer.subrange(start + open.len(), len),
                capturing: true,
                ..state
            };
            lemma_split_keeps_text(next);
            let some = spoken(buffer, start);
            lemma_reassembled_spoken(buffer, start, open, close);
            lemma_reassembled_join(some, split(next).0, open, close);
            let r = reassembled(split(next).0, open, close);
            let h = held_text(split(next).1);
            assert(buffer =~= buffer.subrange(0, start) + (open + next.buffer)) by {
                assert(buffer =~= buffer.subrange(0, start) + buffer.subrange(
                    start,
                    start + open.len(),
                ) + next.buffer);
            }
            assert(buffer.subrange(0, start) + (r + h) =~= (buffer.subrange(0, start) + r) + h);
        } else {
            lemma_withheld_bounds(buffer, open);
            let speakable = len - withheld_len(buffer, open);
            lemma_reassembled_spoken(buffer, speakable, open, close);
            assert(buffer =~= buffer.subrange(0, speakable) + buffer.subrange(speakable, len));
        }
    }
}

proof fn lemma_reassembled_spoken(text: Seq<char>, n: int, open: Seq<char>, close: Seq<char>)
    requires
        0 <= n <= text.len(),
    ensures
        reassembled(spoken(text, n), open, close) == text.subrange(0, n),
{
    if n > 0 {
        lemma_reassembled_one(Piece::Text(text.subrange(0, n)), open, close);
    } else {
        assert(text.subrange(0, n) =~= Seq::empty());
    }
}

proof fn lemma_longest_prefix(text: Seq<char>, open: Seq<char>, n: int)
    requires
        n < open.len(),
    ensures
        0 <= longest_prefix(text, open, n) <= text.len(),
        n >= 0 ==> longest_prefix(text, open, n) <= n,
        forall|k: int| 0 <= k <= n && ends_in_prefix(text, open, k) ==> k <= longest_prefix(
            text,
            open,
            n,
        ),
        longest_prefix(text, open, n) > 0 ==> ends_in_prefix(
            text,
            open,
            longest_prefix(text, open, n),
        ),
    decreases n,
{
    if n > 0 && !ends_in_prefix(text, open, n) {
        lemma_longest_prefix(text, open, n - 1);
    }
}

proof fn lemma_withheld_bounds(text: Seq<char>, open: Seq<char>)
    ensures
        0 <= withheld_len(text, open) <= text.len(),
        open.len() > 0 ==> withheld_len(text, open) < open.len(),
{
    lemma_longest_prefix(text, open, open.len() - 1);
}

/// What pieces of text lead to, one after the other.
pub open spec fn pushed_all(state: HeldModel, list: Seq<Seq<char>>) -> (Seq<Piece>, HeldModel)
    decreases list.len(),
{
    if list.len() == 0 {
        (Seq::empty(), state)
    } else {
        let before = pushed_all(state, list.drop_last());
        let after = pushed(before.1, list.last());
        (before.0 + after.0, after.1)
    }
}

/// The pieces of text, put together.
pub open spec fn joined(list: Seq<Seq<char>>) -> Seq<char>
    decreases list.len(),
{
    if list.len() == 0 {
        Seq::empty()
    } else {
        joined(list.drop_last()) + list.last()
    }
}

/// Nothing is lost and nothing is made up: what was given out, with the delimiters of the
/// calls, and what is held back are together the text that came.
pub proof fn nothing_is_lost(state: HeldModel, list: Seq<Seq<char>>)
    requires
        state.open.len() + state.close.len() > 0,
    ensures
        ({
            let (out, after) = pushed_all(state, list);
            &&& held_text(state) + joined(list) == reassembled(out, state.open, state.close)
                + held_text(after)
            &&& after.open == state.open
            &&& after.close == state.close
        }),
    decreases list.len(),
{
    if list.len() == 0 {
        assert(held_text(state) + joined(list) =~= Seq::<char>::empty() + held_text(state));
    } else {
        nothing_is_lost(state, list.drop_last());
        let before = pushed_all(state, list.drop_last());
        let more = HeldModel { buffer: before.1.buffer + list.last(), ..before.1 };
        lemma_split_keeps_text(more);
        assert(held_text(more) =~= held_text(before.1) + list.last());
        let after = pushed(before.1, list.last());
        lemma_reassembled_join(before.0, after.0, state.open, state.close);
        let x = reassembled(before.0, state.open, state.close);
        let y = reassembled(after.0, state.open, state.close);
        let h = held_text(after.1);
        assert((held_text(state) + joined(list.drop_last())) + list.last() =~= held_text(state)
            + joined(list));
        assert((x + held_text(before.1)) + list.last() =~= x + (held_text(before.1) + list.last()));
        assert(x + (y + h) =~= (x + y) + h);
    }
}

/// One piece of text leads to what it leads to alone.
pub proof fn lemma_pushed_once(state: HeldModel, piece: Seq<char>)
    ensures
        pushed_all(state, seq![piece]) == pushed(state, piece),
{
    assert(seq![piece].drop_last() =~= Seq::empty());
    assert(pushed_all(state, seq![piece].drop_last()) == (Seq::<Piece>::empty(), state));
    assert(Seq::<Piece>::empty() + pushed(state, piece).0 =~= pushed(state, piece).0);
}

/// The text that was spoken since the last call.
pub open spec fn current_speech(list: Seq<Piece>) -> Seq<char>
    decreases list.len(),
{
    if list.len() == 0 {
        Seq::empty()
    } else {
        match list.last() {
            Piece::Text(text) => current_speech(list.drop_last()) + text,
            Piece::Call(_) => Seq::empty(),
        }
    }
}

/// Whether no stretch of speech between calls ever held `open`.
pub open spec fn never_speaks(list: Seq<Piece>, open: Seq<char>) -> bool
    decreases list.len(),
{
    &&& !text::occurs(current_speech(list), open)
    &&& list.len() > 0 ==> never_speaks(list.drop_last(), open)
}

/// Whether what stands in `text` from `at` on could be `open`, as far as it goes.
pub open spec fn agrees(text: Seq<char>, open: Seq<char>, at: int) -> bool {
    forall|i: int| 0 <= i < open.len() && at + i < text.len() ==> #[trigger] text[at + i] == open[i]
}

/// Whether `open` begins nowhere in `speech`, with `held` behind it.
pub open spec fn no_start(speech: Seq<char>, held: Seq<char>, open: Seq<char>) -> bool {
    forall|at: int| 0 <= at < speech.len() ==> !#[trigger] agrees(speech + held, open, at)
}

/// Whether `state` may follow `said` so that no call's beginning is ever spoken.
pub open spec fn safe_to_speak(said: Seq<Piece>, state: HeldModel) -> bool {
    &&& never_speaks(said, state.open)
    &&& !state.capturing ==> no_start(current_speech(said), state.buffer, state.open)
}

proof fn lemma_no_start_extends(
    speech: Seq<char>,
    held: Seq<char>,
    more: Seq<char>,
    open: Seq<char>,
)
    requires
        no_start(speech, held, open),
    ensures
        no_start(speech, held + more, open),
{
    assert forall|at: int| 0 <= at < speech.len() implies !#[trigger] agrees(
        speech + (held + more),
        open,
        at,
    ) by {
        if agrees(speech + (held + more), open, at) {
            assert forall|i: int|
                0 <= i < open.len() && at + i < (speech + held).len() implies #[trigger] (speech
                + held)[at + i] == open[i] by {
                assert((speech + (held + more))[at + i] == (speech + held)[at + i]);
            }
            assert(agrees(speech + held, open, at));
        }
    }
}

/// Speech that grows by the first `n` characters held, before which `open` does not
/// stand, does not hold `open`.
proof fn lemma_speech_is_clean(speech: Seq<char>, held: Seq<char>, open: Seq<char>, n: int)
    requires
        open.len() > 0,
        0 <= n <= held.len(),
        no_start(speech, held, open),
        forall|j: int| 0 <= j < n ==> !text::occurs_at(held, open, j),
    ensures
        !text::occurs(speech + held.subrange(0, n), open),
{
    let now = speech + held.subrange(0, n);
    if text::occurs(now, open) {
        let at = choose|at: int| text::occurs_at(now, open, at);
        assert(now.subrange(at, at + open.len()) == open);
        if at < speech.len() {
            assert forall|i: int|
                0 <= i < open.len() && at + i < (speech + held).len() implies #[trigger] (speech
                + held)[at + i] == open[i] by {
                assert(now.subrange(at, at + open.len())[i] == open[i]);
                assert(now[at + i] == (speech + held)[at + i]);
            }
            assert(agrees(speech + held, open, at));
        } else {
            let j = at - speech.len();
            assert(held.subrange(j, j + open.len()) =~= open) by {
                assert forall|i: int| 0 <= i < open.len() implies held.subrange(
                    j,
                    j + open.len(),
                )[i] == open[i] by {
                    assert(now.subrange(at, at + open.len())[i] == open[i]);
                }
            }
            assert(text::occurs_at(held, open, j));
        }
    }
}

proof fn lemma_speech_grows(said: Seq<Piece>, text: Seq<char>, n: int)
    requires
        0 <= n <= text.len(),
    ensures
        current_speech(said + spoken(text, n)) == current_speech(said) + text.subrange(0, n),
{
    if n > 0 {
        assert((said + spoken(text, n)).drop_last() =~= said);
    } else {
        assert(said + spoken(text, n) =~= said);
        assert(current_speech(said) + text.subrange(0, n) =~= current_speech(said));
    }
}

proof fn lemma_split_is_safe(said: Seq<Piece>, state: HeldModel)
    requires
        state.open.len() > 0,
        safe_to_speak(said, state),
    ensures
        safe_to_speak(said + split(state).0, split(state).1),
        !split(state).1.capturing ==> split(state).1.buffer.len() < state.open.len(),
        split(state).1.open == state.open,
        split(state).1.close == state.close,
    decreases work_left(state),
{
    let open = state.open;
    let close = state.close;
    let buffer = state.buffer;
    let len = buffer.len() as int;
    let speech = current_speech(said);
    lemma_first_from(buffer, close, 0);
    lemma_first_from(buffer, open, 0);
    if state.capturing {
        let end = first_at(buffer, close);
        if end >= 0 {
            let next = HeldModel {
                buffer: buffer.subrange(end + close.len(), len),
                capturing: false,
                ..state
            };
            let one = Piece::Call(buffer.subrange(0, end));
            let now = said + seq![one];
            assert(now.drop_last() =~= said);
            assert(current_speech(now).len() == 0);
            assert(!text::occurs(current_speech(now), open));
            lemma_split_is_safe(now, next);
            assert(now + split(next).0 =~= said + (seq![one] + split(next).0));
        } else {
            assert(said + Seq::<Piece>::empty() =~= said);
        }
    } else {
        let start = first_at(buffer, open);
        if start >= 0 {
            let next = HeldModel {
                buffer: buffer.subrange(start + open.len(), len),
                capturing: true,
                ..state
            };
            let some = spoken(buffer, start);
            let now = said + some;
            lemma_speech_grows(said, buffer, start);
            lemma_speech_is_clean(speech, buffer, open, start);
            lemma_still_never_speaks(said, some, open);
            lemma_split_is_safe(now, next);
            assert(now + split(next).0 =~= said + (some + split(next).0));
        } else {
            lemma_withheld_bounds(buffer, open);
            lemma_longest_prefix(buffer, open, open.len() - 1);
            let speakable = len - withheld_len(buffer, open);
            let some = spoken(buffer, speakable);
            lemma_speech_grows(said, buffer, speakable);
            lemma_speech_is_clean(speech, buffer, open, speakable);
            lemma_still_never_speaks(said, some, open);
            let grown = speech + buffer.subrange(0, speakable);
            let rest = buffer.subrange(speakable, len);
            assert(grown + rest =~= speech + buffer);
            assert forall|at: int| 0 <= at < grown.len() implies !#[trigger] agrees(
                grown + rest,
                open,
                at,
            ) by {
                if agrees(speech + buffer, open, at) {
                    if at >= speech.len() {
                        lemma_agreement_is_withheld(speech, buffer, open, at);
                    }
                }
            }
        }
    }
}

/// Where what is held could become `open` from `at` on, it is withheld from there on, or
/// `open` stands there.
proof fn lemma_agreement_is_withheld(
    speech: Seq<char>,
    held: Seq<char>,
    open: Seq<char>,
    at: int,
)
    requires
        open.len() > 0,
        speech.len() <= at < speech.len() + held.len(),
        agrees(speech + held, open, at),
    ensures
        text::occurs_at(held, open, at - speech.len()) || held.len() - withheld_len(held, open)
            <= at - speech.len(),
{
    let q = at - speech.len();
    let l = held.len() - q;
    assert forall|i: int| 0 <= i < open.len() && q + i < held.len() implies held[q + i]
        == open[i] by {
        assert((speech + held)[at + i] == held[q + i]);
    }
    if l >= open.len() {
        assert(held.subrange(q, q + open.len()) =~= open);
    } else {
        assert(held.subrange(held.len() - l, held.len() as int) =~= open.subrange(0, l));
        assert(ends_in_prefix(held, open, l));
        lemma_longest_prefix(held, open, open.len() - 1);
    }
}

proof fn lemma_still_never_speaks(said: Seq<Piece>, some: Seq<Piece>, open: Seq<char>)
    requires
        never_speaks(said, open),
        some.len() <= 1,
        !text::occurs(current_speech(said + some), open),
    ensures
        never_speaks(said + some, open),
{
    if some.len() == 1 {
        assert((said + some).drop_last() =~= said);
    } else {
        assert(said + some =~= said);
    }
}

/// No call syntax is spoken: however the text is cut into pieces, no stretch of speech
/// between two calls holds the opening delimiter, also not once the rest that is held
/// back is spoken at the end.
pub proof fn no_call_syntax_is_spoken(open: Seq<char>, close: Seq<char>, list: Seq<Seq<char>>)
    requires
        open.len() > 0,
    ensures
        ({
            let fresh = HeldModel { open, close, buffer: Seq::empty(), capturing: false };
            let (out, after) = pushed_all(fresh, list);
            &&& never_speaks(out, open)
            &&& !after.capturing ==> !text::occurs(current_speech(out) + after.buffer, open)
        }),
{
    let fresh = HeldModel { open, close, buffer: Seq::empty(), capturing: false };
    lemma_runs_are_safe(open, close, list);
    let (out, after) = pushed_all(fresh, list);
    if !after.capturing {
        let held = after.buffer;
        assert forall|j: int| 0 <= j < held.len() implies !text::occurs_at(held, open, j) by {}
        lemma_speech_is_clean(current_speech(out), held, open, held.len() as int);
        assert(held.subrange(0, held.len() as int) =~= held);
    }
}

proof fn lemma_runs_are_safe(open: Seq<char>, close: Seq<char>, list: Seq<Seq<char>>)
    requires
        open.len() > 0,
    ensures
        ({
            let fresh = HeldModel { open, close, buffer: Seq::empty(), capturing: false };
            let (out, after) = pushed_all(fresh, list);
            &&& safe_to_speak(out, after)
            &&& !after.capturing ==> after.buffer.len() < open.len()
            &&& after.open == open
            &&& after.close == close
        }),
    decreases list.len(),
{
    let fresh = HeldModel { open, close, buffer: Seq::empty(), capturing: false };
    if list.len() == 0 {
        assert(!text::occurs(current_speech(Seq::<Piece>::empty()), open));
    } else {
        lemma_runs_are_safe(open, close, list.drop_last());
        let before = pushed_all(fresh, list.drop_last());
        let more = HeldModel { buffer: before.1.buffer + list.last(), ..before.1 };
        if !more.capturing {
            lemma_no_start_extends(
                current_speech(before.0),
                before.1.buffer,
                list.last(),
                open,
            );
        }
        lemma_split_is_safe(before.0, more);
    }
}

/// One character that is spoken, by its code point, or one call.
pub enum Mark {
    Char(u32),
    Call(Seq<char>),
}

/// The characters of `text`, one by one.
pub open spec fn char_marks(text: Seq<char>) -> Seq<Mark>
    decreases text.len(),
{
    if text.len() == 0 {
        Seq::empty()
    } else {
        char_marks(text.drop_last()).push(Mark::Char(text.last() as u32))
    }
}

proof fn lemma_char_marks_join(a: Seq<char>, b: Seq<char>)
    ensures
        char_marks(a + b) == char_marks(a) + char_marks(b),
    decreases b.len(),
{
    if b.len() == 0 {
        assert(a + b =~= a);
        assert(char_marks(a) + Seq::<Mark>::empty() =~= char_marks(a));
    } else {
        lemma_char_marks_join(a, b.drop_last());
        assert((a + b).drop_last() =~= a + b.drop_last());
        let last = Mark::Char(b.last() as u32);
        assert((char_marks(a) + char_marks(b.drop_last())).push(last) =~= char_marks(a)
            + char_marks(b.drop_last()).push(last));
    }
}

/// The characters and the calls of `list`, in order, whatever pieces the text is in.
pub open spec fn marks(list: Seq<Piece>) -> Seq<Mark>
    decreases list.len(),
{
    if list.len() == 0 {
        Seq::empty()
    } else {
        marks(list.drop_last()) + (match list.last() {
            Piece::Text(text) => char_marks(text),
            Piece::Call(body) => seq![Mark::Call(body)],
        })
    }
}

proof fn lemma_marks_join(a: Seq<Piece>, b: Seq<Piece>)
    ensures
        marks(a + b) == marks(a) + marks(b),
    decreases b.len(),
{
    if b.len() == 0 {
        assert(a + b =~= a);
        assert(marks(a) + Seq::<Mark>::empty() =~= marks(a));
    } else {
        lemma_marks_join(a, b.drop_last());
        assert((a + b).drop_last() =~= a + b.drop_last());
        assert((a + b).last() == b.last());
        let last = match b.last() {
            Piece::Text(text) => char_marks(text),
            Piece::Call(body) => seq![Mark::Call(body)],
        };
        assert((marks(a) + marks(b.drop_last())) + last =~= marks(a) + (marks(b.drop_last())
            + last));
    }
}

proof fn lemma_marks_spoken(text: Seq<char>, n: int)
    requires
        0 <= n <= text.len(),
    ensures
        marks(spoken(text, n)) == char_marks(text.subrange(0, n)),
{
    let chars = char_marks(text.subrange(0, n));
    if n > 0 {
        assert(spoken(text, n).drop_last() =~= Seq::empty());
        assert(marks(spoken(text, n).drop_last()) =~= Seq::empty());
        assert(Seq::<Mark>::empty() + chars =~= chars);
    } else {
        assert(chars =~= Seq::empty());
    }
}

/// Characters in which `open` does not begin are spoken ahead of the rest.
proof fn lemma_split_after_clean(head: Seq<char>, tail: Seq<char>, state: HeldModel)
    requires
        state.open.len() > 0,
        !state.capturing,
        state.buffer == head + tail,
        no_start(head, tail, state.open),
    ensures
        ({
            let rest = split(HeldModel { buffer: tail, ..state });
            &&& marks(split(state).0) == char_marks(head) + marks(rest.0)
            &&& split(state).1 == rest.1
        }),
{
    let open = state.open;
    let n = head.len() as int;
    let chars = char_marks(head);
    let behind = HeldModel { buffer: tail, ..state };
    lemma_first_from(state.buffer, open, 0);
    lemma_first_from(tail, open, 0);
    let start = first_at(state.buffer, open);
    let later = first_at(tail, open);
    assert forall|j: int| text::occurs_at(tail, open, j) implies text::occurs_at(
        state.buffer,
        open,
        n + j,
    ) by {
        assert(state.buffer.subrange(n + j, n + j + open.len()) =~= tail.subrange(
            j,
            j + open.len(),
        ));
    }
    assert forall|j: int| text::occurs_at(state.buffer, open, j) implies j >= n
        && text::occurs_at(tail, open, j - n) by {
        if j < n {
            assert forall|i: int|
                0 <= i < open.len() && j + i < (head + tail).len() implies #[trigger] (head
                + tail)[j + i] == open[i] by {
                assert(state.buffer.subrange(j, j + open.len())[i] == open[i]);
            }
            assert(agrees(head + tail, open, j));
        }
        assert(tail.subrange(j - n, j - n + open.len()) =~= state.buffer.subrange(
            j,
            j + open.len(),
        ));
    }
    if later >= 0 {
        assert(text::occurs_at(state.buffer, open, n + later));
        assert(start >= 0);
        assert(text::occurs_at(tail, open, start - n));
        assert(start == n + later);
        let next = HeldModel {
            buffer: tail.subrange(later + open.len(), tail.len() as int),
            capturing: true,
            ..state
        };
        assert(state.buffer.subrange(start + open.len(), state.buffer.len() as int)
            =~= next.buffer);
        lemma_marks_join(spoken(state.buffer, start), split(next).0);
        lemma_marks_join(spoken(tail, later), split(next).0);
        lemma_marks_spoken(state.buffer, start);
        lemma_marks_spoken(tail, later);
        let u = marks(split(next).0);
        let t = char_marks(tail.subrange(0, later));
        lemma_char_marks_join(head, tail.subrange(0, later));
        assert(state.buffer.subrange(0, start) =~= head + tail.subrange(0, later));
        assert((chars + t) + u =~= chars + (t + u));
    } else {
        assert(start < 0) by {
            if start >= 0 {
                assert(text::occurs_at(tail, open, start - n));
            }
        }
        lemma_withheld_bounds(state.buffer, open);
        lemma_withheld_bounds(tail, open);
        let w = withheld_len(state.buffer, open);
        let v = withheld_len(tail, open);
        lemma_longest_prefix(state.buffer, open, open.len() - 1);
        lemma_longest_prefix(tail, open, open.len() - 1);
        let total = state.buffer.len() as int;
        let rest = tail.len() as int;
        assert(w <= rest) by {
            if w > rest {
                let at = total - w;
                assert forall|i: int|
                    0 <= i < open.len() && at + i < (head + tail).len() implies #[trigger] (head
                    + tail)[at + i] == open[i] by {
                    assert(state.buffer.subrange(total - w, total)[i] == open.subrange(0, w)[i]);
                }
                assert(agrees(head + tail, open, at));
            }
        }
        if w > 0 {
            assert(tail.subrange(rest - w, rest) =~= state.buffer.subrange(total - w, total));
            assert(ends_in_prefix(tail, open, w));
        }
        if v > 0 {
            assert(state.buffer.subrange(total - v, total) =~= tail.subrange(rest - v, rest));
            assert(ends_in_prefix(state.buffer, open, v));
        }
        assert(w == v);
        lemma_marks_spoken(state.buffer, total - w);
        lemma_marks_spoken(tail, rest - w);
        let t = char_marks(tail.subrange(0, rest - w));
        lemma_char_marks_join(head, tail.subrange(0, rest - w));
        assert(state.buffer.subrange(0, total - w) =~= head + tail.subrange(0, rest - w));
        assert(state.buffer.subrange(total - w, total) =~= tail.subrange(rest - w, rest));
    }
}

/// What is found in a text is found at the same place when more text follows.
proof fn lemma_first_at_extends(text: Seq<char>, more: Seq<char>, part: Seq<char>)
    requires
        first_at(text, part) >= 0,
    ensures
        first_at(text + more, part) == first_at(text, part),
{
    let at = first_at(text, part);
    lemma_first_from(text, part, 0);
    lemma_first_from(text + more, part, 0);
    assert((text + more).subrange(at, at + part.len()) =~= text.subrange(at, at + part.len()));
    assert(text::occurs_at(text + more, part, at));
    let other = first_at(text + more, part);
    if other < at {
        assert(text.subrange(other, other + part.len()) =~= (text + more).subrange(
            other,
            other + part.len(),
        ));
        assert(text::occurs_at(text, part, other));
    }
}

/// How the text is cut into pieces makes no difference: two pieces lead to the same
/// characters and calls, in the same order, as the text they make together, and the same
/// is held back after them.
pub proof fn cuts_do_not_matter(state: HeldModel, first: Seq<char>, second: Seq<char>)
    requires
        state.open.len() > 0,
    ensures
        ({
            let one = pushed(state, first);
            let two = pushed(one.1, second);
            let whole = pushed(state, first + second);
            &&& marks(one.0) + marks(two.0) == marks(whole.0)
            &&& two.1 == whole.1
        }),
{
    assert(state.buffer + (first + second) =~= (state.buffer + first) + second);
    lemma_cut_within(HeldModel { buffer: state.buffer + first, ..state }, second);
}

proof fn lemma_cut_within(state: HeldModel, more: Seq<char>)
    requires
        state.open.len() > 0,
    ensures
        ({
            let one = split(state);
            let two = split(HeldModel { buffer: one.1.buffer + more, ..one.1 });
            let whole = split(HeldModel { buffer: state.buffer + more, ..state });
            &&& marks(one.0) + marks(two.0) == marks(whole.0)
            &&& two.1 == whole.1
        }),
    decreases work_left(state),
{
    let open = state.open;
    let close = state.close;
    let buffer = state.buffer;
    let len = buffer.len() as int;
    let longer = HeldModel { buffer: buffer + more, ..state };
    lemma_first_from(buffer, close, 0);
    lemma_first_from(buffer, open, 0);
    if state.capturing {
        let end = first_at(buffer, close);
        if end >= 0 {
            lemma_first_at_extends(buffer, more, close);
            let next = HeldModel {
                buffer: buffer.subrange(end + close.len(), len),
                capturing: false,
                ..state
            };
            let one = Piece::Call(buffer.subrange(0, end));
            assert(longer.buffer.subrange(0, end) =~= buffer.subrange(0, end));
            assert(longer.buffer.subrange(end + close.len(), longer.buffer.len() as int)
                =~= next.buffer + more);
            lemma_cut_within(next, more);
            let rest = split(next);
            let after = split(HeldModel { buffer: rest.1.buffer + more, ..rest.1 });
            let all = split(HeldModel { buffer: next.buffer + more, ..next });
            lemma_marks_join(seq![one], rest.0);
            lemma_marks_join(seq![one], all.0);
            assert((marks(seq![one]) + marks(rest.0)) + marks(after.0) =~= marks(seq![one]) + (
            marks(rest.0) + marks(after.0)));
        } else {
            assert(marks(Seq::<Piece>::empty()) + marks(split(longer).0) =~= marks(
                split(longer).0,
            ));
        }
    } else {
        let start = first_at(buffer, open);
        if start >= 0 {
            lemma_first_at_extends(buffer, more, open);
            let next = HeldModel {
                buffer: buffer.subrange(start + open.len(), len),
                capturing: true,
                ..state
            };
            let some = spoken(buffer, start);
            if start > 0 {
                assert(longer.buffer.subrange(0, start) =~= buffer.subrange(0, start));
            }
            assert(spoken(longer.buffer, start) =~= some);
            assert(longer.buffer.subrange(start + open.len(), longer.buffer.len() as int)
                =~= next.buffer + more);
            lemma_cut_within(next, more);
            let rest = split(next);
            let after = split(HeldModel { buffer: rest.1.buffer + more, ..rest.1 });
            let all = split(HeldModel { buffer: next.buffer + more, ..next });
            lemma_marks_join(some, rest.0);
            lemma_marks_join(some, all.0);
            assert((marks(some) + marks(rest.0)) + marks(after.0) =~= marks(some) + (marks(rest.0)
                + marks(after.0)));
        } else {
            lemma_withheld_bounds(buffer, open);
            let n = len - withheld_len(buffer, open);
            let head = buffer.subrange(0, n);
            let rest = buffer.subrange(n, len);
            assert(head + rest =~= buffer);
            assert forall|at: int| 0 <= at < head.len() implies !#[trigger] agrees(
                head + rest,
                open,
                at,
            ) by {
                if agrees(head + rest, open, at) {
                    assert(Seq::<char>::empty() + buffer =~= buffer);
                    lemma_agreement_is_withheld(Seq::empty(), buffer, open, at);
                }
            }
            assert(no_start(head, rest, open));
            lemma_no_start_extends(head, rest, more, open);
            assert(longer.buffer =~= head + (rest + more));
            lemma_split_after_clean(head, rest + more, longer);
            lemma_marks_spoken(buffer, n);
        }
    }
}

proof fn lemma_split_holds_a_beginning(state: HeldModel)
    requires
        state.open.len() > 0,
    ensures
        !split(state).1.capturing ==> is_proper_beginning(split(state).1.buffer, state.open),
    decreases work_left(state),
{
    let buffer = state.buffer;
    let len = buffer.len() as int;
    lemma_first_from(buffer, state.close, 0);
    lemma_first_from(buffer, state.open, 0);
    if state.capturing {
        let end = first_at(buffer, state.close);
        if end >= 0 {
            lemma_split_holds_a_beginning(
                HeldModel {
                    buffer: buffer.subrange(end + state.close.len(), len),
                    capturing: false,
                    ..state
                },
            );
        }
    } else {
        let start = first_at(buffer, state.open);
        if start >= 0 {
            lemma_split_holds_a_beginning(
                HeldModel {
                    buffer: buffer.subrange(start + state.open.len(), len),
                    capturing: true,
                    ..state
                },
            );
        } else {
            lemma_longest_prefix(buffer, state.open, state.open.len() - 1);
            let n = withheld_len(buffer, state.open);
            let held = split(state).1.buffer;
            assert(held == buffer.subrange(len - n, len));
            assert(held =~= state.open.subrange(0, n));
        }
    }
}

/// Whether `text` begins `whole` and is shorter.
pub open spec fn is_proper_beginning(text: Seq<char>, whole: Seq<char>) -> bool {
    text.len() < whole.len() && text == whole.subrange(0, text.len() as int)
}

/// Speech is delayed only while it may yet open a call: outside a call, what is held back
/// is a proper beginning of the opening delimiter, and so is empty wherever the text does
/// not end in one.
pub proof fn only_a_possible_call_is_held_back(state: HeldModel, piece: Seq<char>)
    requires
        state.open.len() > 0,
    ensures
        !pushed(state, piece).1.capturing ==> is_proper_beginning(
            pushed(state, piece).1.buffer,
            state.open,
        ),
{
    lemma_split_holds_a_beginning(HeldModel { buffer: state.buffer + piece, ..state });
}

/// What is held back is the longest that could yet open a call: outside a call, of the text
/// since the last call, it is the longest end that is a proper beginning of the opening
/// delimiter, and all before it is spoken.
pub proof fn the_longest_possible_opening_is_held_back(
    open: Seq<char>,
    close: Seq<char>,
    list: Seq<Seq<char>>,
)
    requires
        open.len() > 0,
    ensures
        ({
            let fresh = HeldModel { open, close, buffer: Seq::empty(), capturing: false };
            let (out, after) = pushed_all(fresh, list);
            let text = current_speech(out) + after.buffer;
            !after.capturing ==> {
                &&& after.buffer.len() < open.len()
                &&& ends_in_prefix(text, open, after.buffer.len() as int)
                &&& forall|n: int|
                    after.buffer.len() < n < open.len() ==> !#[trigger] ends_in_prefix(text, open, n)
            }
        }),
{
    let fresh = HeldModel { open, close, buffer: Seq::empty(), capturing: false };
    let (out, after) = pushed_all(fresh, list);
    lemma_runs_are_safe(open, close, list);
    if !after.capturing {
        let speech = current_speech(out);
        let held = after.buffer;
        let text = speech + held;
        if list.len() > 0 {
            let before = pushed_all(fresh, list.drop_last()).1;
            nothing_is_lost(fresh, list.drop_last());
            only_a_possible_call_is_held_back(before, list.last());
        } else {
            assert(held =~= open.subrange(0, 0));
        }
        assert(text.subrange(text.len() - held.len(), text.len() as int) =~= held);
        assert forall|n: int| held.len() < n < open.len() implies !#[trigger] ends_in_prefix(
            text,
            open,
            n,
        ) by {
            if ends_in_prefix(text, open, n) {
                let at = text.len() - n;
                let end = text.subrange(at, text.len() as int);
                assert forall|i: int|
                    0 <= i < open.len() && at + i < text.len() implies #[trigger] text[at + i]
                    == open[i] by {
                    assert(end[i] == open.subrange(0, n)[i]);
                }
                assert(agrees(text, open, at));
            }
        }
    }
}

/// Whether a piece is worth giving out: text that is not empty, or a call whose body ends
/// at the first closing delimiter.
pub open spec fn is_clean(piece: Piece, close: Seq<char>) -> bool {
    match piece {
        Piece::Text(text) => text.len() > 0,
        Piece::Call(body) => !text::occurs(body, close),
    }
}

proof fn lemma_split_is_clean(state: HeldModel)
    requires
        state.close.len() > 0,
    ensures
        forall|i: int|
            0 <= i < split(state).0.len() ==> is_clean(#[trigger] split(state).0[i], state.close),
        split(state).1.close == state.close,
    decreases work_left(state),
{
    let buffer = state.buffer;
    let len = buffer.len() as int;
    let close = state.close;
    lemma_first_from(buffer, close, 0);
    lemma_first_from(buffer, state.open, 0);
    if state.capturing {
        let end = first_at(buffer, close);
        if end >= 0 {
            let body = buffer.subrange(0, end);
            let next = HeldModel {
                buffer: buffer.subrange(end + close.len(), len),
                capturing: false,
                ..state
            };
            lemma_split_is_clean(next);
            if text::occurs(body, close) {
                let at = choose|at: int| text::occurs_at(body, close, at);
                assert(buffer.subrange(at, at + close.len()) =~= body.subrange(
                    at,
                    at + close.len(),
                ));
                assert(text::occurs_at(buffer, close, at));
            }
            assert forall|i: int| 0 <= i < split(state).0.len() implies is_clean(
                #[trigger] split(state).0[i],
                close,
            ) by {
                if i >= 1 {
                    assert(split(state).0[i] == split(next).0[i - 1]);
                }
            }
        }
    } else {
        let start = first_at(buffer, state.open);
        if start >= 0 {
            let next = HeldModel {
                buffer: buffer.subrange(start + state.open.len(), len),
                capturing: true,
                ..state
            };
            lemma_split_is_clean(next);
            let some = spoken(buffer, start);
            assert forall|i: int| 0 <= i < split(state).0.len() implies is_clean(
                #[trigger] split(state).0[i],
                close,
            ) by {
                if i >= some.len() {
                    assert(split(state).0[i] == split(next).0[i - some.len()]);
                }
            }
        } else {
            lemma_withheld_bounds(buffer, state.open);
        }
    }
}

/// No text that is given out is empty, and no call's body holds the closing delimiter,
/// however the text is cut into pieces.
pub proof fn pieces_are_clean(open: Seq<char>, close: Seq<char>, list: Seq<Seq<char>>)
    requires
        close.len() > 0,
    ensures
        ({
            let fresh = HeldModel { open, close, buffer: Seq::empty(), capturing: false };
            let out = pushed_all(fresh, list).0;
            forall|i: int| 0 <= i < out.len() ==> is_clean(#[trigger] out[i], close)
        }),
    decreases list.len(),
{
    if list.len() > 0 {
        let fresh = HeldModel { open, close, buffer: Seq::empty(), capturing: false };
        pieces_are_clean(open, close, list.drop_last());
        nothing_is_lost(fresh, list.drop_last());
        let before = pushed_all(fresh, list.drop_last()).1;
        lemma_split_is_clean(HeldModel { buffer: before.buffer + list.last(), ..before });
    }
}

proof fn lemma_split_gives_out_finished_calls(state: HeldModel)
    requires
        state.open.len() + state.close.len() > 0,
    ensures
        split(state).1.capturing ==> !text::occurs(split(state).1.buffer, state.close),
    decreases work_left(state),
{
    let buffer = state.buffer;
    let len = buffer.len() as int;
    lemma_first_from(buffer, state.close, 0);
    lemma_first_from(buffer, state.open, 0);
    if state.capturing {
        let end = first_at(buffer, state.close);
        if end >= 0 {
            lemma_split_gives_out_finished_calls(
                HeldModel {
                    buffer: buffer.subrange(end + state.close.len(), len),
                    capturing: false,
                    ..state
                },
            );
        } else if text::occurs(buffer, state.close) {
            let at = choose|at: int| text::occurs_at(buffer, state.close, at);
            assert(!text::occurs_at(buffer, state.close, at));
        }
    } else {
        let start = first_at(buffer, state.open);
        if start >= 0 {
            lemma_split_gives_out_finished_calls(
                HeldModel {
                    buffer: buffer.subrange(start + state.open.len(), len),
                    capturing: true,
                    ..state
                },
            );
        }
    }
}

/// A call is given out as soon as its end is there: what is held back within one never
/// holds the closing delimiter.
pub proof fn a_finished_call_is_given_out(state: HeldModel, piece: Seq<char>)
    requires
        state.open.len() + state.close.len() > 0,
    ensures
        pushed(state, piece).1.capturing ==> !text::occurs(
            pushed(state, piece).1.buffer,
            state.close,
        ),
{
    lemma_split_gives_out_finished_calls(
        HeldModel { buffer: state.buffer + piece, ..state },
    );
}

} // verus!
