//! The life of one buffer's consumer, event by event.
//!
//! Waiting for a message and running a turn are left to the caller. [`Consumer::step`]
//! is told what came of them and says what to do next.

use std::sync::Arc;

use tokio::sync::mpsc;
use vstd::prelude::*;

use crate::batch::{
    answers_from, arrivals, as_seq, batch_after, completes, drain, fits, law_batch_size,
    law_drain_keeps_order, law_drain_takes_next_batch, law_next_batch_longest, law_token_budget,
    law_whole_batch, next_batch_len, turns, BatchLimits,
};
use crate::channel::{answers_between, polled_on};
use crate::message::{BufferedMessage, ChannelRef};

verus! {

/// The consumer of one buffer, with what it captured when it was started.
#[verifier::reject_recursive_types(R)]
#[verifier::reject_recursive_types(A)]
pub struct Consumer<R, A> {
    /// The thread whose turns it dispatches.
    pub thread_key: String,
    /// Where that thread is.
    pub thread_channel: ChannelRef,
    /// The receiving half of the buffer.
    pub rx: mpsc::Receiver<BufferedMessage>,
    /// What turns are dispatched through.
    pub router: Arc<R>,
    /// The chat adapter of the thread.
    pub adapter: A,
    /// How much one turn may hold.
    pub limits: BatchLimits,
    /// Whether another bot takes part in the thread.
    pub other_bot_present: bool,
    /// The message that the last batch had no token budget for.
    pub pending: Option<BufferedMessage>,
}

/// What happened to a consumer.
pub enum Event {
    /// It was started, or the turn that it dispatched is over, well or not.
    TurnBoundary,
    /// It waited for a message, and got one, or learnt that no more will come.
    Received(Option<BufferedMessage>),
}

/// What a consumer does next.
pub enum Action {
    /// Wait for a message.
    Receive,
    /// Run one turn for these messages.
    Dispatch(Vec<BufferedMessage>),
    /// Stop.
    Exit,
}

/// The message that opens the next batch, if there is one.
pub open spec fn opening_message(
    pending: Option<BufferedMessage>,
    event: Event,
) -> Option<BufferedMessage> {
    match event {
        Event::TurnBoundary => pending,
        Event::Received(m) => m,
    }
}

/// What a consumer does after an event, and what it then holds back, given what
/// the channel answers while it drains.
pub open spec fn stepped(
    pending: Option<BufferedMessage>,
    event: Event,
    answers: Seq<Option<BufferedMessage>>,
    limits: BatchLimits,
    action: Action,
    pending_after: Option<BufferedMessage>,
) -> bool {
    match opening_message(pending, event) {
        Some(first) => {
            let batch = batch_after(first, answers, limits);
            &&& completes(first, answers, limits)
            &&& action matches Action::Dispatch(messages)
            &&& messages@ == batch.taken
            &&& pending_after == batch.held
        },
        None => {
            &&& answers.len() == 0
            &&& action == if event is TurnBoundary {
                Action::Receive
            } else {
                Action::Exit
            }
            &&& pending_after is None
        },
    }
}

impl<R, A> Consumer<R, A> {
    /// Whether another consumer captured the same when it was started.
    pub open spec fn same_capture(self, other: Self) -> bool {
        &&& self.thread_key == other.thread_key
        &&& self.thread_channel == other.thread_channel
        &&& self.router == other.router
        &&& self.adapter == other.adapter
        &&& self.limits == other.limits
        &&& self.other_bot_present == other.other_bot_present
    }

    /// Decides what to do after an event.
    ///
    /// At a turn boundary, a message held back opens the next batch; without one
    /// the consumer waits. A received message opens a batch at once. A batch also
    /// takes what is already buffered. When no more message will come, the
    /// consumer stops.
    pub fn step(&mut self, event: Event) -> (action: Action)
        requires
            event is Received ==> old(self).pending is None,
        ensures
            final(self).same_capture(*old(self)),
            final(self).thread_key == old(self).thread_key,
            final(self).thread_channel == old(self).thread_channel,
            final(self).router == old(self).router,
            final(self).adapter == old(self).adapter,
            final(self).limits == old(self).limits,
            final(self).other_bot_present == old(self).other_bot_present,
            polled_on(old(self).rx, final(self).rx),
            stepped(
                old(self).pending,
                event,
                answers_between(old(self).rx, final(self).rx),
                old(self).limits,
                action,
                final(self).pending,
            ),
    {
        let boundary = matches!(event, Event::TurnBoundary);
        let opening = match event {
            Event::TurnBoundary => self.pending.take(),
            Event::Received(m) => m,
        };
        match opening {
            Some(first) => {
                let drained = drain(&mut self.rx, first, self.limits);
                self.pending = drained.held;
                Action::Dispatch(drained.batch)
            },
            None => {
                assert(answers_between(self.rx, self.rx) =~= Seq::empty());
                if boundary {
                    Action::Receive
                } else {
                    Action::Exit
                }
            },
        }
    }
}

/// The messages that an action dispatches.
pub open spec fn dispatched(action: Action) -> Seq<BufferedMessage> {
    match action {
        Action::Dispatch(messages) => messages@,
        _ => Seq::empty(),
    }
}

/// The messages that reach a consumer in one step: the one it waited for, then
/// those it drains.
pub open spec fn incoming(
    event: Event,
    answers: Seq<Option<BufferedMessage>>,
) -> Seq<BufferedMessage> {
    match event {
        Event::TurnBoundary => arrivals(answers),
        Event::Received(m) => as_seq(m) + arrivals(answers),
    }
}

/// One step of a consumer.
pub struct Step {
    /// The message held back before the step.
    pub before: Option<BufferedMessage>,
    pub event: Event,
    /// What the channel answered while the consumer drained it.
    pub answers: Seq<Option<BufferedMessage>>,
    pub action: Action,
    /// The message held back after the step.
    pub after: Option<BufferedMessage>,
}

/// Whether these are the steps of a consumer from its start on. A message is
/// received only where none is held back.
pub open spec fn is_run(steps: Seq<Step>, limits: BatchLimits) -> bool {
    forall|i: int|
        0 <= i < steps.len() ==> {
            let step = #[trigger] steps[i];
            &&& step.before == if i == 0 {
                None
            } else {
                steps[i - 1].after
            }
            &&& step.event is Received ==> step.before is None
            &&& stepped(step.before, step.event, step.answers, limits, step.action, step.after)
        }
}

/// All messages that reach a consumer, in order.
pub open spec fn all_incoming(steps: Seq<Step>) -> Seq<BufferedMessage>
    decreases steps.len(),
{
    if steps.len() == 0 {
        Seq::empty()
    } else {
        all_incoming(steps.drop_last()) + incoming(steps.last().event, steps.last().answers)
    }
}

/// All messages that a consumer dispatches, in order.
pub open spec fn all_dispatched(steps: Seq<Step>) -> Seq<BufferedMessage>
    decreases steps.len(),
{
    if steps.len() == 0 {
        Seq::empty()
    } else {
        all_dispatched(steps.drop_last()) + dispatched(steps.last().action)
    }
}

/// The message that a consumer holds back after these steps.
pub open spec fn held_after(steps: Seq<Step>) -> Option<BufferedMessage> {
    if steps.len() == 0 {
        None
    } else {
        steps.last().after
    }
}

/// A step neither loses nor doubles nor reorders messages: what was held back
/// and what comes in is what is dispatched and what is held back then.
pub proof fn law_step_conserves(
    pending: Option<BufferedMessage>,
    event: Event,
    answers: Seq<Option<BufferedMessage>>,
    limits: BatchLimits,
    action: Action,
    pending_after: Option<BufferedMessage>,
)
    requires
        event is Received ==> pending is None,
        stepped(pending, event, answers, limits, action, pending_after),
    ensures
        as_seq(pending) + incoming(event, answers) == dispatched(action) + as_seq(pending_after),
{
    if let Some(first) = opening_message(pending, event) {
        law_drain_keeps_order(first, answers, limits);
    }
}

proof fn lemma_run_prefix(steps: Seq<Step>, limits: BatchLimits)
    requires
        steps.len() > 0,
        is_run(steps, limits),
    ensures
        is_run(steps.drop_last(), limits),
        steps.last().before == held_after(steps.drop_last()),
{
    let shorter = steps.drop_last();
    assert(steps.last() == steps[steps.len() - 1]);
    assert forall|i: int| 0 <= i < shorter.len() implies ({
        let step = #[trigger] shorter[i];
        &&& step.before == if i == 0 {
            None
        } else {
            shorter[i - 1].after
        }
        &&& step.event is Received ==> step.before is None
        &&& stepped(step.before, step.event, step.answers, limits, step.action, step.after)
    }) by {
        assert(shorter[i] == steps[i]);
    }
    if shorter.len() > 0 {
        assert(shorter.last() == steps[steps.len() - 2]);
    }
}

/// Over its whole life a consumer dispatches every message that reaches it, once
/// and in arrival order, but for at most one that it still holds back.
pub proof fn law_run_conserves(steps: Seq<Step>, limits: BatchLimits)
    requires
        is_run(steps, limits),
    ensures
        all_incoming(steps) == all_dispatched(steps) + as_seq(held_after(steps)),
    decreases steps.len(),
{
    if steps.len() > 0 {
        let shorter = steps.drop_last();
        let step = steps[steps.len() - 1];
        lemma_run_prefix(steps, limits);
        law_run_conserves(shorter, limits);
        law_step_conserves(
            step.before,
            step.event,
            step.answers,
            limits,
            step.action,
            step.after,
        );
        assert(all_dispatched(shorter) + (as_seq(step.before) + incoming(step.event, step.answers))
            =~= (all_dispatched(shorter) + as_seq(step.before)) + incoming(
            step.event,
            step.answers,
        ));
        assert(all_dispatched(shorter) + (dispatched(step.action) + as_seq(step.after)) =~= (
        all_dispatched(shorter) + dispatched(step.action)) + as_seq(step.after));
    }
}

/// A message received after idle opens a turn at once, as its first message.
pub proof fn law_first_message_fires(
    m: BufferedMessage,
    answers: Seq<Option<BufferedMessage>>,
    limits: BatchLimits,
    action: Action,
    pending_after: Option<BufferedMessage>,
)
    requires
        stepped(None, Event::Received(Some(m)), answers, limits, action, pending_after),
    ensures
        action is Dispatch,
        dispatched(action).len() >= 1,
        dispatched(action)[0] == m,
{
    law_batch_size(m, answers, limits);
}

/// A message held back for want of token budget opens the next turn.
pub proof fn law_held_message_goes_next(
    m: BufferedMessage,
    answers: Seq<Option<BufferedMessage>>,
    limits: BatchLimits,
    action: Action,
    pending_after: Option<BufferedMessage>,
)
    requires
        stepped(Some(m), Event::TurnBoundary, answers, limits, action, pending_after),
    ensures
        action is Dispatch,
        dispatched(action).len() >= 1,
        dispatched(action)[0] == m,
{
    law_batch_size(m, answers, limits);
}

/// Every turn is within the limits.
pub proof fn law_turn_within_limits(
    pending: Option<BufferedMessage>,
    event: Event,
    answers: Seq<Option<BufferedMessage>>,
    limits: BatchLimits,
    action: Action,
    pending_after: Option<BufferedMessage>,
)
    requires
        stepped(pending, event, answers, limits, action, pending_after),
        action is Dispatch,
    ensures
        fits(dispatched(action), limits),
{
    if let Some(first) = opening_message(pending, event) {
        law_batch_size(first, answers, limits);
        law_token_budget(first, answers, limits);
    }
}

/// The batches that a consumer dispatches, in order.
pub open spec fn batches(steps: Seq<Step>) -> Seq<Seq<BufferedMessage>>
    decreases steps.len(),
{
    if steps.len() == 0 {
        Seq::empty()
    } else {
        match steps.last().action {
            Action::Dispatch(messages) => batches(steps.drop_last()).push(messages@),
            _ => batches(steps.drop_last()),
        }
    }
}

/// The message of a queue at a position, if the queue reaches that far.
pub open spec fn queued(queue: Seq<BufferedMessage>, i: int) -> Option<BufferedMessage> {
    if 0 <= i < queue.len() {
        Some(queue[i])
    } else {
        None
    }
}

/// Whether a step takes its messages from a queue at position `from` and finds
/// none only where the queue is used up.
pub open spec fn takes_from(step: Step, queue: Seq<BufferedMessage>, from: int) -> bool {
    let drained_from = if step.event is Received {
        from + 1
    } else {
        from
    };
    &&& step.event matches Event::Received(m) ==> m == queued(queue, from)
    &&& forall|k: int|
        0 <= k < step.answers.len() ==> #[trigger] step.answers[k] == queued(
            queue,
            drained_from + k,
        )
}

/// Whether the messages that reach a consumer are those of a queue that nothing is
/// added to.
pub open spec fn over_queue(steps: Seq<Step>, queue: Seq<BufferedMessage>) -> bool {
    forall|i: int|
        0 <= i < steps.len() ==> takes_from(
            #[trigger] steps[i],
            queue,
            all_incoming(steps.take(i)).len() as int,
        )
}

/// What is left of a queue to be dispatched: what is held back, then what has not
/// reached the consumer.
pub open spec fn undispatched(steps: Seq<Step>, queue: Seq<BufferedMessage>) -> Seq<
    BufferedMessage,
> {
    as_seq(held_after(steps)) + queue.skip(all_incoming(steps).len() as int)
}

proof fn lemma_arrivals_of_queue(
    answers: Seq<Option<BufferedMessage>>,
    queue: Seq<BufferedMessage>,
    from: int,
)
    requires
        0 <= from <= queue.len(),
        forall|k: int|
            0 <= k < answers.len() ==> #[trigger] answers[k] == queued(queue, from + k),
    ensures
        from + arrivals(answers).len() <= queue.len(),
        from + arrivals(answers).len() == if from + answers.len() <= queue.len() {
            from + answers.len()
        } else {
            queue.len() as int
        },
        arrivals(answers) == queue.subrange(from, from + arrivals(answers).len()),
    decreases answers.len(),
{
    if answers.len() > 0 {
        let shorter = answers.drop_last();
        assert forall|k: int| 0 <= k < shorter.len() implies #[trigger] shorter[k] == queued(
            queue,
            from + k,
        ) by {
            assert(shorter[k] == answers[k]);
        }
        lemma_arrivals_of_queue(shorter, queue, from);
        assert(answers.last() == answers[answers.len() - 1]);
    }
    assert(arrivals(answers) =~= queue.subrange(from, from + arrivals(answers).len()));
}

proof fn lemma_incoming_of_queue(step: Step, queue: Seq<BufferedMessage>, from: int)
    requires
        0 <= from <= queue.len(),
        takes_from(step, queue, from),
        step.event == Event::Received(None) ==> step.answers.len() == 0,
    ensures
        from + incoming(step.event, step.answers).len() <= queue.len(),
        incoming(step.event, step.answers) == queue.subrange(
            from,
            from + incoming(step.event, step.answers).len(),
        ),
{
    match step.event {
        Event::TurnBoundary => {
            lemma_arrivals_of_queue(step.answers, queue, from);
        },
        Event::Received(Some(m)) => {
            lemma_arrivals_of_queue(step.answers, queue, from + 1);
        },
        Event::Received(None) => {},
    }
    assert(incoming(step.event, step.answers) =~= queue.subrange(
        from,
        from + incoming(step.event, step.answers).len(),
    ));
}

proof fn lemma_step_takes_turn(
    step: Step,
    queue: Seq<BufferedMessage>,
    from: int,
    limits: BatchLimits,
)
    requires
        0 <= from <= queue.len(),
        takes_from(step, queue, from),
        step.event is Received ==> step.before is None,
        stepped(step.before, step.event, step.answers, limits, step.action, step.after),
    ensures
        ({
            let more = incoming(step.event, step.answers);
            let left = as_seq(step.before) + queue.skip(from);
            let left_after = as_seq(step.after) + queue.skip(from + more.len());
            &&& from + more.len() <= queue.len()
            &&& more == queue.subrange(from, from + more.len())
            &&& match step.action {
                Action::Dispatch(messages) => turns(left, limits) == seq![messages@] + turns(
                    left_after,
                    limits,
                ),
                Action::Receive => left_after == left,
                Action::Exit => left_after == left && left.len() == 0,
            }
        }),
{
    let more = incoming(step.event, step.answers);
    let left = as_seq(step.before) + queue.skip(from);
    let left_after = as_seq(step.after) + queue.skip(from + more.len());
    lemma_incoming_of_queue(step, queue, from);
    if let Some(first) = opening_message(step.before, step.event) {
        let batch = batch_after(first, step.answers, limits);
        assert(left[0] == first);
        assert forall|k: int| 0 <= k < step.answers.len() implies #[trigger] step.answers[k]
            == if k + 1 < left.len() {
            Some(left[k + 1])
        } else {
            None
        } by {}
        law_drain_takes_next_batch(left, step.answers, limits);
        law_next_batch_longest(left, limits);
        let n = next_batch_len(left, limits);
        law_step_conserves(
            step.before,
            step.event,
            step.answers,
            limits,
            step.action,
            step.after,
        );
        assert(left =~= (as_seq(step.before) + more) + queue.skip(from + more.len()));
        assert(left =~= batch.taken + left_after);
        assert(left_after =~= left.skip(n));
    } else {
        assert(left_after =~= left);
    }
}

/// At every moment of a run over a standing queue, the batches dispatched so far
/// are the first turns of the queue, and the turns of what is left are the rest.
/// When the consumer stops, it has dispatched exactly the turns of the queue.
pub proof fn law_run_dispatches_turns(
    steps: Seq<Step>,
    queue: Seq<BufferedMessage>,
    limits: BatchLimits,
)
    requires
        is_run(steps, limits),
        over_queue(steps, queue),
    ensures
        all_incoming(steps).is_prefix_of(queue),
        batches(steps) + turns(undispatched(steps, queue), limits) == turns(queue, limits),
        steps.len() > 0 && steps.last().action is Exit ==> batches(steps) == turns(queue, limits),
    decreases steps.len(),
{
    if steps.len() == 0 {
        assert(undispatched(steps, queue) =~= queue);
        assert(batches(steps) + turns(queue, limits) =~= turns(queue, limits));
    } else {
        let shorter = steps.drop_last();
        let step = steps[steps.len() - 1];
        lemma_run_prefix(steps, limits);
        assert forall|i: int| 0 <= i < shorter.len() implies takes_from(
            #[trigger] shorter[i],
            queue,
            all_incoming(shorter.take(i)).len() as int,
        ) by {
            assert(shorter[i] == steps[i]);
            assert(shorter.take(i) =~= steps.take(i));
        }
        law_run_dispatches_turns(shorter, queue, limits);
        assert(steps.take(steps.len() - 1) =~= shorter);
        let from = all_incoming(shorter).len() as int;
        lemma_step_takes_turn(step, queue, from, limits);
        let more = incoming(step.event, step.answers);
        assert(all_incoming(steps) =~= queue.take(from + more.len()));
        let left = undispatched(shorter, queue);
        let left_after = undispatched(steps, queue);
        if let Action::Dispatch(messages) = step.action {
            assert(batches(shorter).push(messages@) + turns(left_after, limits) =~= batches(shorter)
                + (seq![messages@] + turns(left_after, limits)));
        }
        if step.action is Exit {
            assert(batches(steps) + turns(left_after, limits) =~= batches(steps));
        }
    }
}

/// A consumer that captured the same as another runs turns for the same thread, in
/// the same place, through the same router and adapter, within the same limits.
pub proof fn law_same_capture<R, A>(a: Consumer<R, A>, b: Consumer<R, A>)
    requires
        a.same_capture(b),
    ensures
        a.thread_key == b.thread_key,
        a.thread_channel == b.thread_channel,
        a.router == b.router,
        a.adapter == b.adapter,
        a.limits == b.limits,
        a.other_bot_present == b.other_bot_present,
{
}

/// A consumer with nothing to open a batch with asks nothing of the channel: at a
/// turn boundary it waits, and when no more message will come it stops.
pub proof fn law_idle_step(
    event: Event,
    answers: Seq<Option<BufferedMessage>>,
    limits: BatchLimits,
    action: Action,
    pending_after: Option<BufferedMessage>,
)
    requires
        stepped(None, event, answers, limits, action, pending_after),
    ensures
        event is TurnBoundary ==> action is Receive,
        event == Event::Received(None) ==> action is Exit,
        event is TurnBoundary || event == Event::Received(None) ==> answers.len() == 0
            && pending_after is None,
{
}

/// A step that has a message to open a batch with, the one held back at a turn
/// boundary or else the one received, dispatches that message and then, in order
/// and as they came, the messages that the channel gave, but for the last where
/// that would exceed the token budget: it is held back. The batch is within the
/// limits, unless it is that one message, and it ends only because it is full, the
/// channel had no more, or a message is held back.
pub proof fn law_busy_step(
    pending: Option<BufferedMessage>,
    event: Event,
    first: BufferedMessage,
    answers: Seq<Option<BufferedMessage>>,
    limits: BatchLimits,
    action: Action,
    pending_after: Option<BufferedMessage>,
)
    requires
        event is TurnBoundary && pending == Some(first) || event == Event::Received(Some(first)),
        stepped(pending, event, answers, limits, action, pending_after),
    ensures
        action matches Action::Dispatch(messages) && {
            let n = messages@.len();
            let sum = messages@.fold_left(
                0int,
                |sum: int, m: BufferedMessage| sum + m.tokens(),
            );
            &&& n >= 1
            &&& messages@[0] == first
            &&& forall|k: int|
                1 <= k < n ==> answers[k - 1] == Some(#[trigger] messages@[k])
            &&& n == 1 || n <= limits.max_messages
            &&& n == 1 || sum <= limits.max_tokens
            &&& match pending_after {
                Some(held) => {
                    &&& answers.len() == n
                    &&& answers.last() == Some(held)
                    &&& n < limits.max_messages
                    &&& sum + held.tokens() > limits.max_tokens
                },
                None => {
                    ||| answers.len() == n - 1 && n >= limits.max_messages
                    ||| answers.len() == n && answers.last() is None && n < limits.max_messages
                },
            }
        },
{
    law_whole_batch(first, answers, limits);
}

} // verus!
