//! How buffered messages are cut into batches.
//!
//! A batch starts with one message and takes what is already buffered, in
//! arrival order, until nothing is buffered, the batch is full, or the next
//! message would exceed the token budget. That message is held back and starts
//! the next batch.

use tokio::sync::mpsc;
use vstd::prelude::*;

use crate::channel::{answers_between, poll, polled_on};
use crate::message::{estimate_tokens, BufferedMessage};

verus! {

/// How much one batch may hold.
#[derive(Debug, Clone, Copy)]
pub struct BatchLimits {
    /// The largest number of messages in a batch. The first message is taken
    /// whatever the limit.
    pub max_messages: usize,
    /// The token budget of a batch. The first message is taken whatever it is
    /// worth.
    pub max_tokens: usize,
}

/// How many tokens a sequence of messages is worth.
pub open spec fn batch_tokens(batch: Seq<BufferedMessage>) -> nat
    decreases batch.len(),
{
    if batch.len() == 0 {
        0
    } else {
        batch_tokens(batch.drop_last()) + batch.last().tokens()
    }
}

/// A batch in the making.
#[verifier::ext_equal]
pub struct BatchState {
    /// The messages taken so far.
    pub taken: Seq<BufferedMessage>,
    /// The message held back for the next batch.
    pub held: Option<BufferedMessage>,
    /// Whether another message is asked for.
    pub open: bool,
}

/// A batch that holds its first message.
pub open spec fn batch_start(first: BufferedMessage, limits: BatchLimits) -> BatchState {
    BatchState { taken: seq![first], held: None, open: 1 < limits.max_messages }
}

/// What becomes of an open batch when the channel answers with a message, or
/// with none.
pub open spec fn batch_next(
    state: BatchState,
    answer: Option<BufferedMessage>,
    limits: BatchLimits,
) -> BatchState {
    match answer {
        None => BatchState { open: false, ..state },
        Some(m) => if batch_tokens(state.taken) + m.tokens() > limits.max_tokens {
            BatchState { held: Some(m), open: false, ..state }
        } else {
            BatchState {
                taken: state.taken.push(m),
                held: state.held,
                open: state.taken.len() + 1 < limits.max_messages,
            }
        },
    }
}

/// The batch that starts with `first` after a run of answers.
pub open spec fn batch_after(
    first: BufferedMessage,
    answers: Seq<Option<BufferedMessage>>,
    limits: BatchLimits,
) -> BatchState
    decreases answers.len(),
{
    if answers.len() == 0 {
        batch_start(first, limits)
    } else {
        batch_next(batch_after(first, answers.drop_last(), limits), answers.last(), limits)
    }
}

/// Whether each of these answers was still asked for when it came.
pub open spec fn asked_for(
    first: BufferedMessage,
    answers: Seq<Option<BufferedMessage>>,
    limits: BatchLimits,
) -> bool {
    forall|i: int|
        0 <= i < answers.len() ==> (#[trigger] batch_after(first, answers.take(i), limits)).open
}

/// Whether these are the answers that make up one batch: each was asked for, and
/// after the last no more is.
pub open spec fn completes(
    first: BufferedMessage,
    answers: Seq<Option<BufferedMessage>>,
    limits: BatchLimits,
) -> bool {
    &&& asked_for(first, answers, limits)
    &&& !batch_after(first, answers, limits).open
}

/// A batch, and the message held back for the next.
pub struct Drained {
    pub batch: Vec<BufferedMessage>,
    pub held: Option<BufferedMessage>,
}

/// A batch in the making, with its token count.
pub struct Collector {
    batch: Vec<BufferedMessage>,
    held: Option<BufferedMessage>,
    open: bool,
    used: usize,
    limits: BatchLimits,
}

impl Collector {
    /// The batch as it stands.
    pub closed spec fn state(self) -> BatchState {
        BatchState { taken: self.batch@, held: self.held, open: self.open }
    }

    /// The limits of the batch.
    pub closed spec fn limits(self) -> BatchLimits {
        self.limits
    }

    /// The token count is that of the messages taken, and an open batch has room
    /// for one more.
    pub closed spec fn wf(self) -> bool {
        &&& self.used == batch_tokens(self.batch@)
        &&& self.open ==> self.batch@.len() < self.limits.max_messages
    }

    /// Starts a batch.
    pub fn new(first: BufferedMessage, limits: BatchLimits) -> (r: Self)
        ensures
            r.wf(),
            r.limits() == limits,
            r.state() == batch_start(first, limits),
    {
        let used: usize = estimate_tokens(first.prompt.as_str(), &first.extra_blocks);
        let mut batch: Vec<BufferedMessage> = Vec::new();
        batch.push(first);
        proof {
            reveal_with_fuel(batch_tokens, 2);
            assert(batch@ =~= seq![first]);
        }
        Collector { batch, held: None, open: 1 < limits.max_messages, used, limits }
    }

    /// Whether another message is asked for.
    pub fn is_open(&self) -> (r: bool)
        ensures
            r == self.state().open,
    {
        self.open
    }

    /// Takes in one answer of the channel.
    pub fn offer(&mut self, answer: Option<BufferedMessage>)
        requires
            old(self).wf(),
            old(self).state().open,
        ensures
            final(self).wf(),
            final(self).limits() == old(self).limits(),
            final(self).state() == batch_next(old(self).state(), answer, old(self).limits()),
    {
        match answer {
            None => {
                self.open = false;
            },
            Some(m) => {
                let more: usize = estimate_tokens(m.prompt.as_str(), &m.extra_blocks);
                let max: usize = self.limits.max_tokens;
                if self.used > max || more > max - self.used {
                    self.held = Some(m);
                    self.open = false;
                } else {
                    let ghost before = self.batch@;
                    self.used = self.used + more;
                    self.batch.push(m);
                    self.open = self.batch.len() < self.limits.max_messages;
                    assert(self.batch@.drop_last() =~= before);
                }
            },
        }
    }

    /// Hands the batch over.
    pub fn finish(self) -> (r: Drained)
        ensures
            r.batch@ == self.state().taken,
            r.held == self.state().held,
    {
        Drained { batch: self.batch, held: self.held }
    }
}

/// Greedy drain: makes a batch of `first` and of what is already buffered in the
/// channel, within the limits.
pub fn drain(
    rx: &mut mpsc::Receiver<BufferedMessage>,
    first: BufferedMessage,
    limits: BatchLimits,
) -> (r: Drained)
    ensures
        polled_on(*old(rx), *final(rx)),
        completes(first, answers_between(*old(rx), *final(rx)), limits),
        r.batch@ == batch_after(first, answers_between(*old(rx), *final(rx)), limits).taken,
        r.held == batch_after(first, answers_between(*old(rx), *final(rx)), limits).held,
{
    let mut collector = Collector::new(first, limits);
    assert(answers_between(*old(rx), *rx) =~= Seq::<Option<BufferedMessage>>::empty());
    while collector.is_open()
        invariant
            collector.wf(),
            collector.limits() == limits,
            polled_on(*old(rx), *rx),
            asked_for(first, answers_between(*old(rx), *rx), limits),
            collector.state() == batch_after(first, answers_between(*old(rx), *rx), limits),
        decreases
            (if collector.state().open { 1int } else { 0int }),
            limits.max_messages - collector.state().taken.len(),
    {
        let ghost before = answers_between(*old(rx), *rx);
        let answer = match poll(rx) {
            Ok(m) => Some(m),
            Err(_) => None,
        };
        proof {
            let after = answers_between(*old(rx), *rx);
            assert(after =~= before.push(answer));
            assert(after.drop_last() =~= before);
            assert forall|i: int| 0 <= i < after.len() implies (#[trigger] batch_after(
                first,
                after.take(i),
                limits,
            )).open by {
                if i < before.len() {
                    assert(after.take(i) =~= before.take(i));
                } else {
                    assert(after.take(i) =~= before);
                }
            }
        }
        collector.offer(answer);
    }
    collector.finish()
}

/// A message that is there or not, as a sequence.
pub open spec fn as_seq(m: Option<BufferedMessage>) -> Seq<BufferedMessage> {
    match m {
        Some(m) => seq![m],
        None => Seq::empty(),
    }
}

/// The messages among a run of answers, in order.
pub open spec fn arrivals(answers: Seq<Option<BufferedMessage>>) -> Seq<BufferedMessage>
    decreases answers.len(),
{
    if answers.len() == 0 {
        Seq::empty()
    } else {
        arrivals(answers.drop_last()) + as_seq(answers.last())
    }
}

proof fn lemma_asked_for_prefix(
    first: BufferedMessage,
    answers: Seq<Option<BufferedMessage>>,
    limits: BatchLimits,
)
    requires
        answers.len() > 0,
        asked_for(first, answers, limits),
    ensures
        asked_for(first, answers.drop_last(), limits),
        batch_after(first, answers.drop_last(), limits).open,
{
    let shorter = answers.drop_last();
    assert(shorter =~= answers.take(answers.len() - 1));
    assert forall|i: int| 0 <= i < shorter.len() implies (#[trigger] batch_after(
        first,
        shorter.take(i),
        limits,
    )).open by {
        assert(shorter.take(i) =~= answers.take(i));
    }
}

proof fn lemma_open_holds_nothing(
    first: BufferedMessage,
    answers: Seq<Option<BufferedMessage>>,
    limits: BatchLimits,
)
    requires
        asked_for(first, answers, limits),
    ensures
        batch_after(first, answers, limits).open ==> {
            &&& batch_after(first, answers, limits).held is None
            &&& batch_after(first, answers, limits).taken.len() < limits.max_messages
        },
    decreases answers.len(),
{
    if answers.len() > 0 {
        lemma_asked_for_prefix(first, answers, limits);
        lemma_open_holds_nothing(first, answers.drop_last(), limits);
    }
}

/// Nothing is lost, doubled or reordered: the batch followed by the message held
/// back is the first message followed by the messages that the channel gave.
pub proof fn law_drain_keeps_order(
    first: BufferedMessage,
    answers: Seq<Option<BufferedMessage>>,
    limits: BatchLimits,
)
    requires
        asked_for(first, answers, limits),
    ensures
        batch_after(first, answers, limits).taken + as_seq(
            batch_after(first, answers, limits).held,
        ) == seq![first] + arrivals(answers),
    decreases answers.len(),
{
    if answers.len() > 0 {
        let before = batch_after(first, answers.drop_last(), limits);
        lemma_asked_for_prefix(first, answers, limits);
        lemma_open_holds_nothing(first, answers.drop_last(), limits);
        law_drain_keeps_order(first, answers.drop_last(), limits);
        assert(before.taken =~= seq![first] + arrivals(answers.drop_last()));
    }
}

/// A batch has its first message, and no more messages than the limit allows.
pub proof fn law_batch_size(
    first: BufferedMessage,
    answers: Seq<Option<BufferedMessage>>,
    limits: BatchLimits,
)
    requires
        asked_for(first, answers, limits),
    ensures
        ({
            let taken = batch_after(first, answers, limits).taken;
            &&& taken.len() >= 1
            &&& taken[0] == first
            &&& taken.len() == 1 || taken.len() <= limits.max_messages
        }),
    decreases answers.len(),
{
    if answers.len() > 0 {
        lemma_asked_for_prefix(first, answers, limits);
        lemma_open_holds_nothing(first, answers.drop_last(), limits);
        law_batch_size(first, answers.drop_last(), limits);
    }
}

/// A batch of more than one message keeps to the token budget.
pub proof fn law_token_budget(
    first: BufferedMessage,
    answers: Seq<Option<BufferedMessage>>,
    limits: BatchLimits,
)
    requires
        asked_for(first, answers, limits),
    ensures
        ({
            let taken = batch_after(first, answers, limits).taken;
            taken.len() == 1 || batch_tokens(taken) <= limits.max_tokens
        }),
    decreases answers.len(),
{
    if answers.len() > 0 {
        let before = batch_after(first, answers.drop_last(), limits);
        lemma_asked_for_prefix(first, answers, limits);
        law_token_budget(first, answers.drop_last(), limits);
        if let Some(m) = answers.last() {
            assert(before.taken.push(m).drop_last() =~= before.taken);
        }
    }
}

/// A batch ends for one of three reasons: it is full, the channel had no more
/// messages, or the message held back would exceed the token budget. A message is
/// held back for no other reason.
pub proof fn law_drain_is_greedy(
    first: BufferedMessage,
    answers: Seq<Option<BufferedMessage>>,
    limits: BatchLimits,
)
    requires
        completes(first, answers, limits),
    ensures
        ({
            let batch = batch_after(first, answers, limits);
            match batch.held {
                Some(m) => batch_tokens(batch.taken) + m.tokens() > limits.max_tokens,
                None => batch.taken.len() >= limits.max_messages || (answers.len() > 0
                    && answers.last() is None),
            }
        }),
{
    if answers.len() > 0 {
        lemma_asked_for_prefix(first, answers, limits);
        lemma_open_holds_nothing(first, answers.drop_last(), limits);
    }
}

/// Whether a sequence of messages can be one batch.
pub open spec fn fits(batch: Seq<BufferedMessage>, limits: BatchLimits) -> bool {
    ||| batch.len() == 1
    ||| 1 <= batch.len() <= limits.max_messages && batch_tokens(batch) <= limits.max_tokens
}

/// How far a batch of at least `n` messages reaches into a queue.
pub open spec fn reach(queue: Seq<BufferedMessage>, n: int, limits: BatchLimits) -> int
    decreases queue.len() - n,
{
    if n < queue.len() && n < limits.max_messages && batch_tokens(queue.take(n + 1))
        <= limits.max_tokens {
        reach(queue, n + 1, limits)
    } else {
        n
    }
}

/// How many messages of a queue the next batch takes.
pub open spec fn next_batch_len(queue: Seq<BufferedMessage>, limits: BatchLimits) -> int {
    reach(queue, 1, limits)
}

proof fn lemma_tokens_grow(queue: Seq<BufferedMessage>, i: int, j: int)
    requires
        0 <= i <= j <= queue.len(),
    ensures
        batch_tokens(queue.take(i)) <= batch_tokens(queue.take(j)),
    decreases j - i,
{
    if i < j {
        assert(queue.take(j).drop_last() =~= queue.take(j - 1));
        lemma_tokens_grow(queue, i, j - 1);
    }
}

proof fn lemma_reach(queue: Seq<BufferedMessage>, n: int, limits: BatchLimits)
    requires
        1 <= n <= queue.len(),
        fits(queue.take(n), limits),
    ensures
        n <= reach(queue, n, limits) <= queue.len(),
        fits(queue.take(reach(queue, n, limits)), limits),
        forall|k: int|
            reach(queue, n, limits) < k <= queue.len() ==> !#[trigger] fits(queue.take(k), limits),
    decreases queue.len() - n,
{
    if n < queue.len() && n < limits.max_messages && batch_tokens(queue.take(n + 1))
        <= limits.max_tokens {
        lemma_reach(queue, n + 1, limits);
    } else {
        assert forall|k: int| n < k <= queue.len() implies !#[trigger] fits(
            queue.take(k),
            limits,
        ) by {
            lemma_tokens_grow(queue, n + 1, k);
        }
    }
}

/// The next batch takes the longest run from the front of the queue that can be
/// one batch.
pub proof fn law_next_batch_longest(queue: Seq<BufferedMessage>, limits: BatchLimits)
    requires
        queue.len() > 0,
    ensures
        1 <= next_batch_len(queue, limits) <= queue.len(),
        fits(queue.take(next_batch_len(queue, limits)), limits),
        forall|k: int|
            next_batch_len(queue, limits) < k <= queue.len() ==> !#[trigger] fits(
                queue.take(k),
                limits,
            ),
{
    lemma_reach(queue, 1, limits);
}

/// Whether a channel gives these answers when it holds the queue behind its first
/// message and nothing is sent meanwhile.
pub open spec fn answers_from(
    queue: Seq<BufferedMessage>,
    answers: Seq<Option<BufferedMessage>>,
) -> bool {
    forall|i: int|
        0 <= i < answers.len() ==> #[trigger] answers[i] == if i + 1 < queue.len() {
            Some(queue[i + 1])
        } else {
            None
        }
}

proof fn lemma_drain_of_queue(
    queue: Seq<BufferedMessage>,
    answers: Seq<Option<BufferedMessage>>,
    limits: BatchLimits,
)
    requires
        queue.len() > 0,
        asked_for(queue[0], answers, limits),
        answers_from(queue, answers),
    ensures
        ({
            let batch = batch_after(queue[0], answers, limits);
            let n = batch.taken.len() as int;
            &&& 1 <= n <= queue.len()
            &&& batch.taken == queue.take(n)
            &&& batch.open ==> n == answers.len() + 1
            &&& reach(queue, 1, limits) == reach(queue, n, limits)
            &&& !batch.open ==> reach(queue, n, limits) == n
            &&& batch.held == if n == answers.len() && n < queue.len() && !batch.open {
                Some(queue[n])
            } else {
                None::<BufferedMessage>
            }
        }),
    decreases answers.len(),
{
    if answers.len() == 0 {
        assert(seq![queue[0]] =~= queue.take(1));
    } else {
        let shorter = answers.drop_last();
        let before = batch_after(queue[0], shorter, limits);
        lemma_asked_for_prefix(queue[0], answers, limits);
        lemma_open_holds_nothing(queue[0], shorter, limits);
        lemma_drain_of_queue(queue, shorter, limits);
        let n = before.taken.len() as int;
        assert(answers.last() == answers[answers.len() - 1]);
        if n < queue.len() {
            assert(answers.last() == Some(queue[n]));
            assert(before.taken.push(queue[n]) =~= queue.take(n + 1));
            assert(queue.take(n + 1).drop_last() =~= queue.take(n));
        }
    }
}

/// Draining a queue that nothing is added to meanwhile takes its next batch, in
/// order, and leaves the rest: what is not taken is held back or still in the
/// channel.
pub proof fn law_drain_takes_next_batch(
    queue: Seq<BufferedMessage>,
    answers: Seq<Option<BufferedMessage>>,
    limits: BatchLimits,
)
    requires
        queue.len() > 0,
        completes(queue[0], answers, limits),
        answers_from(queue, answers),
    ensures
        ({
            let batch = batch_after(queue[0], answers, limits);
            let n = next_batch_len(queue, limits);
            &&& batch.taken == queue.take(n)
            &&& as_seq(batch.held) + queue.skip(n + as_seq(batch.held).len()) == queue.skip(n)
        }),
{
    lemma_drain_of_queue(queue, answers, limits);
    let batch = batch_after(queue[0], answers, limits);
    let n = next_batch_len(queue, limits);
    assert(as_seq(batch.held) + queue.skip(n + as_seq(batch.held).len()) =~= queue.skip(n));
}

/// The batches that a queue is dispatched in, if nothing is added to it.
pub open spec fn turns(queue: Seq<BufferedMessage>, limits: BatchLimits) -> Seq<
    Seq<BufferedMessage>,
>
    decreases queue.len(),
    via turns_shrink
{
    if queue.len() == 0 {
        Seq::empty()
    } else {
        let n = next_batch_len(queue, limits);
        seq![queue.take(n)] + turns(queue.skip(n), limits)
    }
}

#[via_fn]
proof fn turns_shrink(queue: Seq<BufferedMessage>, limits: BatchLimits) {
    if queue.len() > 0 {
        law_next_batch_longest(queue, limits);
    }
}

/// A queue is dispatched whole and in arrival order, in batches within the
/// limits.
pub proof fn law_turns_cover_queue(queue: Seq<BufferedMessage>, limits: BatchLimits)
    ensures
        turns(queue, limits).flatten() == queue,
        forall|i: int|
            0 <= i < turns(queue, limits).len() ==> fits(
                #[trigger] turns(queue, limits)[i],
                limits,
            ),
    decreases queue.len(),
{
    if queue.len() > 0 {
        let n = next_batch_len(queue, limits);
        law_next_batch_longest(queue, limits);
        let rest = turns(queue.skip(n), limits);
        law_turns_cover_queue(queue.skip(n), limits);
        let all = turns(queue, limits);
        assert(all.drop_first() =~= rest);
        assert(all.flatten() =~= queue.take(n) + queue.skip(n));
        assert(queue.take(n) + queue.skip(n) =~= queue);
        assert forall|i: int| 0 <= i < all.len() implies fits(#[trigger] all[i], limits) by {
            if i > 0 {
                assert(all[i] == rest[i - 1]);
            }
        }
    }
}

/// The tokens of a batch are the sum of the tokens of all its messages: they add
/// up over any split of the batch, and one message counts with its estimate.
pub proof fn law_batch_tokens_add_up(
    a: Seq<BufferedMessage>,
    b: Seq<BufferedMessage>,
    m: BufferedMessage,
)
    ensures
        batch_tokens(Seq::<BufferedMessage>::empty()) == 0,
        batch_tokens(seq![m]) == m.tokens(),
        batch_tokens(a + b) == batch_tokens(a) + batch_tokens(b),
    decreases b.len(),
{
    reveal_with_fuel(batch_tokens, 2);
    assert(seq![m].drop_last() =~= Seq::<BufferedMessage>::empty());
    if b.len() == 0 {
        assert(a + b =~= a);
    } else {
        assert((a + b).drop_last() =~= a + b.drop_last());
        law_batch_tokens_add_up(a, b.drop_last(), m);
    }
}

/// The tokens of a batch are what folding its messages' estimates with `+` gives.
pub proof fn law_batch_tokens_fold(batch: Seq<BufferedMessage>)
    ensures
        batch_tokens(batch) == batch.fold_left(
            0int,
            |sum: int, m: BufferedMessage| sum + m.tokens(),
        ),
    decreases batch.len(),
{
    if batch.len() > 0 {
        law_batch_tokens_fold(batch.drop_last());
    }
}

/// A batch asks for a second message exactly if it may hold two, and starts with
/// its first message alone.
pub proof fn law_batch_starts_alone(first: BufferedMessage, limits: BatchLimits)
    ensures
        ({
            let batch = batch_start(first, limits);
            &&& batch.taken.len() == 1
            &&& batch.taken[0] == first
            &&& batch.held is None
            &&& batch.open <==> limits.max_messages >= 2
        }),
{
}

/// One answer of the channel. Without a message the batch ends as it is. A message
/// joins it, behind the others, exactly if the estimates of all then add up to no
/// more than the budget, and otherwise is held back, as it came. The batch asks
/// for more exactly if a message joined it and it is not full.
pub proof fn law_one_answer(
    state: BatchState,
    answer: Option<BufferedMessage>,
    limits: BatchLimits,
)
    ensures
        ({
            let next = batch_next(state, answer, limits);
            match answer {
                None => next.taken == state.taken && next.held == state.held && !next.open,
                Some(m) => {
                    let sum = state.taken.push(m).fold_left(
                        0int,
                        |sum: int, m: BufferedMessage| sum + m.tokens(),
                    );
                    if sum <= limits.max_tokens {
                        &&& next.taken == state.taken.push(m)
                        &&& next.held == state.held
                        &&& next.open <==> next.taken.len() < limits.max_messages
                    } else {
                        &&& next.taken == state.taken
                        &&& next.held == Some(m)
                        &&& !next.open
                    }
                },
            }
        }),
{
    if let Some(m) = answer {
        law_batch_tokens_fold(state.taken.push(m));
        assert(state.taken.push(m).drop_last() =~= state.taken);
    }
}

proof fn lemma_taken_from_answers(
    first: BufferedMessage,
    answers: Seq<Option<BufferedMessage>>,
    limits: BatchLimits,
)
    requires
        asked_for(first, answers, limits),
    ensures
        ({
            let batch = batch_after(first, answers, limits);
            &&& batch.taken.len() >= 1
            &&& batch.taken.len() <= answers.len() + 1
            &&& batch.taken[0] == first
            &&& forall|k: int|
                1 <= k < batch.taken.len() ==> answers[k - 1] == Some(#[trigger] batch.taken[k])
            &&& batch.open ==> answers.len() == batch.taken.len() - 1
        }),
    decreases answers.len(),
{
    if answers.len() > 0 {
        let shorter = answers.drop_last();
        let before = batch_after(first, shorter, limits);
        let batch = batch_after(first, answers, limits);
        lemma_asked_for_prefix(first, answers, limits);
        lemma_taken_from_answers(first, shorter, limits);
        assert forall|k: int| 1 <= k < batch.taken.len() implies answers[k - 1] == Some(
            #[trigger] batch.taken[k],
        ) by {
            if k < before.taken.len() {
                assert(batch.taken[k] == before.taken[k]);
                assert(shorter[k - 1] == answers[k - 1]);
            }
        }
    }
}

/// A whole batch in terms of what the channel answered. It is the first message and
/// then, in order and as they came, the messages of the answers. It has no more
/// messages than the limit, unless it has one, and the estimates of all its
/// messages add up to no more than the budget, unless it has one. It ends because
/// the next message would exceed the budget, which is then the one held back, or
/// because it is full, or because the channel had no more.
pub proof fn law_whole_batch(
    first: BufferedMessage,
    answers: Seq<Option<BufferedMessage>>,
    limits: BatchLimits,
)
    requires
        completes(first, answers, limits),
    ensures
        ({
            let batch = batch_after(first, answers, limits);
            let n = batch.taken.len();
            let sum = batch.taken.fold_left(
                0int,
                |sum: int, m: BufferedMessage| sum + m.tokens(),
            );
            &&& n >= 1
            &&& batch.taken[0] == first
            &&& forall|k: int|
                1 <= k < n ==> answers[k - 1] == Some(#[trigger] batch.taken[k])
            &&& n == 1 || n <= limits.max_messages
            &&& n == 1 || sum <= limits.max_tokens
            &&& match batch.held {
                Some(held) => {
                    &&& answers.len() == n
                    &&& answers.last() == Some(held)
                    &&& n < limits.max_messages
                    &&& sum + held.tokens() > limits.max_tokens
                },
                None => {
                    ||| answers.len() == n - 1 && n >= limits.max_messages
                    ||| answers.len() == n && answers.last() is None && n < limits.max_messages
                },
            }
        }),
{
    let batch = batch_after(first, answers, limits);
    lemma_taken_from_answers(first, answers, limits);
    law_batch_size(first, answers, limits);
    law_token_budget(first, answers, limits);
    law_batch_tokens_fold(batch.taken);
    if answers.len() > 0 {
        lemma_asked_for_prefix(first, answers, limits);
        lemma_open_holds_nothing(first, answers.drop_last(), limits);
        lemma_taken_from_answers(first, answers.drop_last(), limits);
    }
}

/// The next batch of a queue is as long as the limits allow: it is full, or the
/// queue ends, or the estimates with one more message would exceed the budget; and
/// it is no longer than they allow.
pub proof fn law_next_batch_cut(queue: Seq<BufferedMessage>, limits: BatchLimits)
    requires
        queue.len() > 0,
    ensures
        ({
            let n = next_batch_len(queue, limits);
            let tokens = |sum: int, m: BufferedMessage| sum + m.tokens();
            &&& 1 <= n <= queue.len()
            &&& n == 1 || n <= limits.max_messages
            &&& n == 1 || queue.take(n).fold_left(0int, tokens) <= limits.max_tokens
            &&& n < queue.len() && n < limits.max_messages ==> queue.take(n + 1).fold_left(
                0int,
                tokens,
            ) > limits.max_tokens
        }),
{
    let n = next_batch_len(queue, limits);
    law_next_batch_longest(queue, limits);
    law_batch_tokens_fold(queue.take(n));
    if n < queue.len() {
        assert(!fits(queue.take(n + 1), limits));
        law_batch_tokens_fold(queue.take(n + 1));
    }
}

/// The first turn of a queue is its next batch, and the others are the turns of
/// what that leaves; an empty queue has no turn.
pub proof fn law_turns_one_by_one(queue: Seq<BufferedMessage>, limits: BatchLimits)
    ensures
        queue.len() == 0 ==> turns(queue, limits).len() == 0,
        queue.len() > 0 ==> ({
            let n = next_batch_len(queue, limits);
            &&& turns(queue, limits).len() == 1 + turns(queue.skip(n), limits).len()
            &&& turns(queue, limits)[0] == queue.take(n)
            &&& turns(queue, limits).skip(1) == turns(queue.skip(n), limits)
        }),
{
    if queue.len() > 0 {
        let n = next_batch_len(queue, limits);
        assert(turns(queue, limits).skip(1) =~= turns(queue.skip(n), limits));
    }
}

/// The messages among two runs of answers are those of the first, then those of
/// the second; an answer with a message has that message, one without has none.
pub proof fn law_arrivals_add_up(
    a: Seq<Option<BufferedMessage>>,
    b: Seq<Option<BufferedMessage>>,
    m: BufferedMessage,
)
    ensures
        arrivals(Seq::<Option<BufferedMessage>>::empty()).len() == 0,
        arrivals(seq![Some(m)]) == seq![m],
        arrivals(seq![None::<BufferedMessage>]).len() == 0,
        arrivals(a + b) == arrivals(a) + arrivals(b),
    decreases b.len(),
{
    reveal_with_fuel(arrivals, 2);
    assert(seq![Some(m)].drop_last() =~= Seq::<Option<BufferedMessage>>::empty());
    assert(seq![None::<BufferedMessage>].drop_last() =~= Seq::<
        Option<BufferedMessage>,
    >::empty());
    assert(arrivals(seq![Some(m)]) =~= seq![m]);
    if b.len() == 0 {
        assert(a + b =~= a);
        assert(arrivals(a + b) =~= arrivals(a) + arrivals(b));
    } else {
        assert((a + b).drop_last() =~= a + b.drop_last());
        law_arrivals_add_up(a, b.drop_last(), m);
        assert(arrivals(a + b) =~= arrivals(a) + arrivals(b));
    }
}

} // verus!
