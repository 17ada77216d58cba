//! Which buffer a message goes to.

use std::sync::Arc;

use tokio::sync::mpsc;
use vstd::hash_map::StringHashMap;
use vstd::prelude::*;

use crate::batch::BatchLimits;
use crate::channel::{
    answered_closed, apart, capacity, clone_sender, connected, is_closed, open_channel, polled, same_channel,
    same_senders, MAX_CHANNEL_CAPACITY,
};
use crate::consumer::{
    all_dispatched, all_incoming, is_run, law_run_conserves, Consumer, Step,
};
use crate::message::{BufferedMessage, ChannelRef};
use crate::mode::{law_lane_per_sender, MessageProcessingMode};
use crate::text::decimal;

verus! {

/// The capacity of a buffer, where none is configured.
pub const DEFAULT_MAX_BUFFERED_MESSAGES: usize = 10;

/// The token budget of a turn, where none is configured.
pub const DEFAULT_MAX_BATCH_TOKENS: usize = 24000;

/// Routes incoming messages through bounded buffers, one for each thread.
///
/// The adapter is supplied with every message and not stored, since it may not
/// exist yet when the dispatcher is built. The one that comes with the message
/// that starts a thread's consumer serves that consumer from then on. A thread
/// whose consumer is gone gets a new one with its next message.
#[verifier::reject_recursive_types(R)]
pub struct Dispatcher<R> {
    per_thread: StringHashMap<mpsc::Sender<BufferedMessage>>,
    router: Arc<R>,
    max_buffered_messages: usize,
    max_batch_tokens: usize,
}

/// What a submitted message asks for: to start the consumer, if there is a new
/// one, and to send the message to it.
#[verifier::reject_recursive_types(R)]
#[verifier::reject_recursive_types(A)]
pub struct Submission<R, A> {
    /// The sending half of the buffer that the message belongs to.
    pub tx: mpsc::Sender<BufferedMessage>,
    /// The message.
    pub msg: BufferedMessage,
    /// The consumer of the buffer, if this message opened it.
    pub consumer: Option<Consumer<R, A>>,
}

/// What becomes of a message in a processing mode.
#[verifier::reject_recursive_types(R)]
#[verifier::reject_recursive_types(A)]
pub enum Accepted<R, A> {
    /// It is a batch of its own, to be dispatched as it is.
    Alone(Vec<BufferedMessage>),
    /// It goes to a buffer.
    Buffered(Submission<R, A>),
}

impl<R> Dispatcher<R> {
    /// The sending half of every open buffer.
    pub closed spec fn senders(self) -> Map<Seq<char>, mpsc::Sender<BufferedMessage>> {
        self.per_thread@
    }

    /// What turns are dispatched through.
    pub closed spec fn router(self) -> Arc<R> {
        self.router
    }

    /// How much one turn may hold. A buffer holds as many messages as a turn.
    pub closed spec fn limits(self) -> BatchLimits {
        BatchLimits {
            max_messages: self.max_buffered_messages,
            max_tokens: self.max_batch_tokens,
        }
    }

    /// Buffers have room for at least one message, all have the same capacity,
    /// and no receiver is fed by two of them.
    pub open spec fn wf(self) -> bool {
        &&& self.limits().max_messages >= 1
        &&& forall|key: Seq<char>| #[trigger]
            self.senders().contains_key(key) ==> capacity(self.senders()[key])
                == self.limits().max_messages
        &&& forall|a: Seq<char>, b: Seq<char>|
            a != b && #[trigger] self.senders().contains_key(a)
                && #[trigger] self.senders().contains_key(b) ==> apart(
                self.senders()[a],
                self.senders()[b],
            )
    }

    /// A dispatcher without buffers. A capacity of zero counts as one.
    pub fn new(router: Arc<R>, max_buffered_messages: usize) -> (r: Self)
        ensures
            r.wf(),
            r.senders() == Map::<Seq<char>, mpsc::Sender<BufferedMessage>>::empty(),
            r.router() == router,
            r.limits().max_messages == if max_buffered_messages == 0 {
                1
            } else {
                max_buffered_messages
            },
            r.limits().max_tokens == DEFAULT_MAX_BATCH_TOKENS,
    {
        Dispatcher {
            per_thread: StringHashMap::new(),
            router,
            max_buffered_messages: if max_buffered_messages == 0 {
                1
            } else {
                max_buffered_messages
            },
            max_batch_tokens: DEFAULT_MAX_BATCH_TOKENS,
        }
    }

    /// Sets the token budget of a turn, for buffers opened from now on.
    pub fn with_max_batch_tokens(self, max_batch_tokens: usize) -> (r: Self)
        requires
            self.wf(),
        ensures
            r.wf(),
            r.senders() == self.senders(),
            r.router() == self.router(),
            r.limits() == (BatchLimits { max_tokens: max_batch_tokens, ..self.limits() }),
    {
        let r = Dispatcher { max_batch_tokens, ..self };
        assert(r.senders() == self.senders());
        r
    }

    /// How many messages a buffer, and a turn, can hold.
    pub fn max_buffered_messages(&self) -> (r: usize)
        ensures
            r == self.limits().max_messages,
    {
        self.max_buffered_messages
    }

    /// Whether `consumer` is what a message that opens a buffer starts: it
    /// listens to `tx`, has taken nothing yet, and has captured what came with
    /// that message.
    pub open spec fn starts<A>(
        self,
        consumer: Consumer<R, A>,
        tx: mpsc::Sender<BufferedMessage>,
        thread_key: Seq<char>,
        thread_channel: ChannelRef,
        adapter: A,
        other_bot_present: bool,
    ) -> bool {
        &&& connected(tx, consumer.rx)
        &&& polled(consumer.rx) == Seq::<Option<BufferedMessage>>::empty()
        &&& consumer.pending is None
        &&& consumer.thread_key@ == thread_key
        &&& consumer.thread_channel == thread_channel
        &&& consumer.router == self.router()
        &&& consumer.adapter == adapter
        &&& consumer.limits == self.limits()
        &&& consumer.other_bot_present == other_bot_present
    }

    /// Whether submitting a message to the buffer `key` turns the dispatcher
    /// `self` into `after` and asks for `s`, where `closed` tells whether the
    /// consumer of the buffer, if there was one, is gone.
    pub open spec fn submits<A>(
        self,
        closed: bool,
        after: Self,
        key: Seq<char>,
        thread_key: Seq<char>,
        thread_channel: ChannelRef,
        adapter: A,
        msg: BufferedMessage,
        other_bot_present: bool,
        s: Submission<R, A>,
    ) -> bool {
        &&& after.router() == self.router()
        &&& after.limits() == self.limits()
        &&& s.msg == msg
        &&& after.senders().contains_key(key)
        &&& same_channel(s.tx, after.senders()[key])
        &&& if self.senders().contains_key(key) && !closed {
            &&& after.senders() == self.senders()
            &&& s.consumer is None
        } else {
            &&& after.senders() == self.senders().insert(key, after.senders()[key])
            &&& s.consumer matches Some(consumer)
            &&& self.starts(
                consumer,
                s.tx,
                thread_key,
                thread_channel,
                adapter,
                other_bot_present,
            )
            &&& forall|k: Seq<char>| #[trigger]
                self.senders().contains_key(k) ==> !connected(self.senders()[k], consumer.rx)
        }
    }

    /// Accepts a message for the buffer `buffer_key` of a thread, where `closed`
    /// tells whether the consumer of the buffer, if there was one, is gone.
    ///
    /// If the buffer has no active consumer, a channel is made for it and a
    /// consumer is handed to the caller to be started, with `adapter` and
    /// `other_bot_present` captured for its lifetime. The caller then sends the
    /// message, and waits while the buffer is full.
    pub fn submit_where<A>(
        &mut self,
        closed: bool,
        buffer_key: String,
        thread_key: String,
        thread_channel: ChannelRef,
        adapter: A,
        msg: BufferedMessage,
        other_bot_present: bool,
    ) -> (s: Submission<R, A>)
        requires
            old(self).wf(),
            old(self).limits().max_messages <= MAX_CHANNEL_CAPACITY,
        ensures
            final(self).wf(),
            old(self).submits(
                closed,
                *final(self),
                buffer_key@,
                thread_key@,
                thread_channel,
                adapter,
                msg,
                other_bot_present,
                s,
            ),
            capacity(s.tx) == old(self).limits().max_messages,
            s.msg == msg,
            s.consumer matches Some(consumer) ==> {
                &&& connected(s.tx, consumer.rx)
                &&& consumer.thread_key@ == thread_key@
                &&& consumer.thread_channel == thread_channel
                &&& consumer.adapter == adapter
                &&& consumer.other_bot_present == other_bot_present
                &&& consumer.router == old(self).router()
                &&& consumer.limits == old(self).limits()
                &&& consumer.pending is None
            },
    {
        if !closed {
            if let Some(tx) = self.per_thread.get(buffer_key.as_str()) {
                return Submission { tx: clone_sender(tx), msg, consumer: None };
            }
        }
        let cap: usize = self.max_buffered_messages;
        let (tx, rx) = open_channel(cap, &self.per_thread);
        let consumer = Consumer {
            thread_key,
            thread_channel,
            rx,
            router: Arc::clone(&self.router),
            adapter,
            limits: BatchLimits { max_messages: cap, max_tokens: self.max_batch_tokens },
            other_bot_present,
            pending: None,
        };
        let handle = clone_sender(&tx);
        let ghost key = buffer_key@;
        self.per_thread.insert(buffer_key, handle);
        proof {
            let before = old(self).senders();
            let after = self.senders();
            assert(after == before.insert(key, handle));
            assert forall|k: Seq<char>| k != key && #[trigger] before.contains_key(k) implies apart(
                handle,
                before[k],
            ) by {
                assert(connected(handle, consumer.rx));
                assert forall|rx: mpsc::Receiver<BufferedMessage>| #[trigger]
                    connected(handle, rx) implies !connected(before[k], rx) by {
                    assert(connected(tx, rx));
                    assert(same_senders(rx, consumer.rx));
                }
            }
            assert forall|a: Seq<char>, b: Seq<char>|
                a != b && #[trigger] after.contains_key(a) && #[trigger] after.contains_key(
                    b,
                ) implies apart(after[a], after[b]) by {
                assert(a == key || before.contains_key(a));
                assert(b == key || before.contains_key(b));
            }
            assert forall|a: Seq<char>| #[trigger] after.contains_key(a) implies capacity(after[a])
                == self.limits().max_messages by {
                assert(a == key || before.contains_key(a));
            }
        }
        Submission { tx, msg, consumer: Some(consumer) }
    }

    /// Accepts a message for the buffer `buffer_key` of a thread, as
    /// [`Self::submit_where`] does, after asking the channel of the buffer
    /// whether its consumer is gone.
    pub fn submit_to<A>(
        &mut self,
        buffer_key: String,
        thread_key: String,
        thread_channel: ChannelRef,
        adapter: A,
        msg: BufferedMessage,
        other_bot_present: bool,
    ) -> (s: Submission<R, A>)
        requires
            old(self).wf(),
            old(self).limits().max_messages <= MAX_CHANNEL_CAPACITY,
        ensures
            final(self).wf(),
            exists|closed: bool|
                {
                    &&& old(self).senders().contains_key(buffer_key@) ==> answered_closed(
                        old(self).senders()[buffer_key@],
                        closed,
                    )
                    &&& #[trigger] old(self).submits(
                        closed,
                        *final(self),
                        buffer_key@,
                        thread_key@,
                        thread_channel,
                        adapter,
                        msg,
                        other_bot_present,
                        s,
                    )
                },
            capacity(s.tx) == old(self).limits().max_messages,
            s.msg == msg,
            s.consumer matches Some(consumer) ==> {
                &&& connected(s.tx, consumer.rx)
                &&& consumer.thread_key@ == thread_key@
                &&& consumer.thread_channel == thread_channel
                &&& consumer.adapter == adapter
                &&& consumer.other_bot_present == other_bot_present
                &&& consumer.router == old(self).router()
                &&& consumer.limits == old(self).limits()
                &&& consumer.pending is None
            },
    {
        let closed = match self.per_thread.get(buffer_key.as_str()) {
            Some(tx) => is_closed(tx),
            None => false,
        };
        self.submit_where(
            closed,
            buffer_key,
            thread_key,
            thread_channel,
            adapter,
            msg,
            other_bot_present,
        )
    }

    /// Accepts a message for the buffer of its thread, as [`Self::submit_to`]
    /// does.
    pub fn submit<A>(
        &mut self,
        thread_key: String,
        thread_channel: ChannelRef,
        adapter: A,
        msg: BufferedMessage,
        other_bot_present: bool,
    ) -> (s: Submission<R, A>)
        requires
            old(self).wf(),
            old(self).limits().max_messages <= MAX_CHANNEL_CAPACITY,
        ensures
            final(self).wf(),
            exists|closed: bool|
                {
                    &&& old(self).senders().contains_key(thread_key@) ==> answered_closed(
                        old(self).senders()[thread_key@],
                        closed,
                    )
                    &&& #[trigger] old(self).submits(
                        closed,
                        *final(self),
                        thread_key@,
                        thread_key@,
                        thread_channel,
                        adapter,
                        msg,
                        other_bot_present,
                        s,
                    )
                },
            capacity(s.tx) == old(self).limits().max_messages,
            s.msg == msg,
            s.consumer matches Some(consumer) ==> {
                &&& connected(s.tx, consumer.rx)
                &&& consumer.thread_key@ == thread_key@
                &&& consumer.thread_channel == thread_channel
                &&& consumer.adapter == adapter
                &&& consumer.other_bot_present == other_bot_present
                &&& consumer.router == old(self).router()
                &&& consumer.limits == old(self).limits()
                &&& consumer.pending is None
            },
    {
        let buffer_key = thread_key.clone();
        self.submit_to(buffer_key, thread_key, thread_channel, adapter, msg, other_bot_present)
    }

    /// Whether accepting a message in a mode turns the dispatcher `self` into
    /// `after` and gives `accepted`, where `closed` tells whether the consumer of
    /// the message's buffer, if there was one, is gone.
    pub open spec fn accepts<A>(
        self,
        closed: bool,
        after: Self,
        mode: MessageProcessingMode,
        thread_key: Seq<char>,
        sender_id: Seq<char>,
        thread_channel: ChannelRef,
        adapter: A,
        msg: BufferedMessage,
        other_bot_present: bool,
        accepted: Accepted<R, A>,
    ) -> bool {
        match mode.spec_buffer_key(thread_key, sender_id) {
            None => {
                &&& after == self
                &&& accepted matches Accepted::Alone(messages)
                &&& messages@ == seq![msg]
            },
            Some(key) => {
                &&& accepted matches Accepted::Buffered(s)
                &&& self.submits(
                    closed,
                    after,
                    key,
                    thread_key,
                    thread_channel,
                    adapter,
                    msg,
                    other_bot_present,
                    s,
                )
                &&& capacity(s.tx) == self.limits().max_messages
            },
        }
    }

    /// Accepts a message in a processing mode: for the buffer of its thread, for
    /// the buffer of its sender in the thread, or for a turn of its own.
    ///
    /// A dispatcher is meant for one mode. The keys of different modes are not
    /// kept apart: a thread's key can read like the key of a lane of another
    /// thread, and the two would share a buffer.
    pub fn accept<A>(
        &mut self,
        mode: MessageProcessingMode,
        thread_key: String,
        sender_id: &str,
        thread_channel: ChannelRef,
        adapter: A,
        msg: BufferedMessage,
        other_bot_present: bool,
    ) -> (accepted: Accepted<R, A>)
        requires
            old(self).wf(),
            mode != MessageProcessingMode::PerMessage ==> old(self).limits().max_messages
                <= MAX_CHANNEL_CAPACITY,
        ensures
            final(self).wf(),
            exists|closed: bool|
                {
                    &&& mode.spec_buffer_key(thread_key@, sender_id@) matches Some(key) ==> old(
                        self,
                    ).senders().contains_key(key) ==> answered_closed(
                        old(self).senders()[key],
                        closed,
                    )
                    &&& #[trigger] old(self).accepts(
                        closed,
                        *final(self),
                        mode,
                        thread_key@,
                        sender_id@,
                        thread_channel,
                        adapter,
                        msg,
                        other_bot_present,
                        accepted,
                    )
                },
            mode == MessageProcessingMode::PerMessage ==> (accepted matches Accepted::Alone(messages)
                && messages@ == seq![msg]),
            mode != MessageProcessingMode::PerMessage ==> (accepted matches Accepted::Buffered(s)
                && s.msg == msg),
    {
        let ghost thread = thread_key@;
        match mode.buffer_key(thread_key.as_str(), sender_id) {
            None => {
                let mut messages: Vec<BufferedMessage> = Vec::new();
                messages.push(msg);
                let accepted = Accepted::Alone(messages);
                proof {
                    assert(messages@ =~= seq![msg]);
                    assert(old(self).accepts(
                        false,
                        *self,
                        mode,
                        thread,
                        sender_id@,
                        thread_channel,
                        adapter,
                        msg,
                        other_bot_present,
                        accepted,
                    ));
                }
                accepted
            },
            Some(key) => {
                let ghost buffer = key@;
                let s = self.submit_to(
                    key,
                    thread_key,
                    thread_channel,
                    adapter,
                    msg,
                    other_bot_present,
                );
                let accepted = Accepted::Buffered(s);
                proof {
                    let closed = choose|closed: bool|
                        {
                            &&& old(self).senders().contains_key(buffer) ==> answered_closed(
                                old(self).senders()[buffer],
                                closed,
                            )
                            &&& #[trigger] old(self).submits(
                                closed,
                                *self,
                                buffer,
                                thread,
                                thread_channel,
                                adapter,
                                msg,
                                other_bot_present,
                                s,
                            )
                        };
                    assert(old(self).accepts(
                        closed,
                        *self,
                        mode,
                        thread,
                        sender_id@,
                        thread_channel,
                        adapter,
                        msg,
                        other_bot_present,
                        accepted,
                    ));
                }
                accepted
            },
        }
    }
}

/// One message submitted to a dispatcher.
#[verifier::reject_recursive_types(R)]
#[verifier::reject_recursive_types(A)]
pub struct Submit<R, A> {
    pub before: Dispatcher<R>,
    pub after: Dispatcher<R>,
    /// Whether the consumer of the buffer, if there was one, was gone.
    pub closed: bool,
    /// The key of the buffer.
    pub key: Seq<char>,
    pub thread_key: Seq<char>,
    pub thread_channel: ChannelRef,
    pub adapter: A,
    pub msg: BufferedMessage,
    pub other_bot_present: bool,
    pub submission: Submission<R, A>,
}

impl<R, A> Submit<R, A> {
    /// Whether the dispatcher did what submitting the message asks for.
    pub open spec fn holds(self) -> bool {
        &&& self.after.wf()
        &&& self.before.submits(
            self.closed,
            self.after,
            self.key,
            self.thread_key,
            self.thread_channel,
            self.adapter,
            self.msg,
            self.other_bot_present,
            self.submission,
        )
    }
}

/// Whether these messages were submitted to one dispatcher, one after the other.
pub open spec fn is_history<R, A>(history: Seq<Submit<R, A>>) -> bool {
    forall|i: int|
        0 <= i < history.len() ==> {
            &&& (#[trigger] history[i]).holds()
            &&& i > 0 ==> history[i].before == history[i - 1].after
        }
}

/// Whether the buffer `key` was not opened anew after submission `i` up to
/// submission `j`.
pub open spec fn not_reopened<R, A>(
    history: Seq<Submit<R, A>>,
    key: Seq<char>,
    i: int,
    j: int,
) -> bool {
    forall|k: int|
        i < k <= j ==> !((#[trigger] history[k]).key == key && history[k].closed)
}

/// A message leaves every other buffer as it is, and its own too, unless the
/// consumer of that one is gone.
pub proof fn law_buffers_stay_open<R, A>(submit: Submit<R, A>, open_key: Seq<char>)
    requires
        submit.holds(),
        submit.before.senders().contains_key(open_key),
        open_key != submit.key || !submit.closed,
    ensures
        submit.after.senders().contains_key(open_key),
        submit.after.senders()[open_key] == submit.before.senders()[open_key],
{
}

/// A buffer whose consumer is gone gets a new one, on a channel of its own, that
/// captures what came with the message.
pub proof fn law_gone_consumer_is_replaced<R, A>(submit: Submit<R, A>)
    requires
        submit.holds(),
        submit.before.senders().contains_key(submit.key),
        submit.closed,
    ensures
        submit.submission.consumer matches Some(consumer) && {
            &&& connected(submit.submission.tx, consumer.rx)
            &&& !connected(submit.before.senders()[submit.key], consumer.rx)
            &&& consumer.thread_channel == submit.thread_channel
            &&& consumer.adapter == submit.adapter
            &&& consumer.other_bot_present == submit.other_bot_present
        },
        submit.submission.msg == submit.msg,
{
}

proof fn lemma_channel_stays<R, A>(history: Seq<Submit<R, A>>, i: int, j: int)
    requires
        is_history(history),
        0 <= i <= j < history.len(),
        not_reopened(history, history[i].key, i, j),
    ensures
        history[j].after.senders().contains_key(history[i].key),
        same_channel(history[i].submission.tx, history[j].after.senders()[history[i].key]),
    decreases j - i,
{
    assert(history[j].holds());
    if i < j {
        lemma_channel_stays(history, i, j - 1);
        law_buffers_stay_open(history[j], history[i].key);
    }
}

/// A buffer has one consumer: as long as that consumer is not gone, later
/// messages for the buffer start none, whatever adapter comes with them, and go
/// to the consumer that the first message started.
pub proof fn law_one_consumer_per_buffer<R, A>(history: Seq<Submit<R, A>>, i: int, j: int)
    requires
        is_history(history),
        0 <= i < j < history.len(),
        history[j].key == history[i].key,
        not_reopened(history, history[i].key, i, j),
    ensures
        history[j].submission.consumer is None,
        same_channel(history[i].submission.tx, history[j].submission.tx),
        history[i].submission.consumer matches Some(consumer) ==> connected(
            history[j].submission.tx,
            consumer.rx,
        ),
{
    lemma_channel_stays(history, i, j - 1);
    lemma_channel_stays(history, i, j);
    assert(history[i].holds());
    assert(history[j].holds());
}

/// Whether the channels of submissions `i` and `j` were open at the same moment:
/// at some submission `m` between the two, the buffer of `i` still had the channel
/// that it had at `i`, and that of `j` already had the one that it has at `j`.
pub open spec fn open_together<R, A>(history: Seq<Submit<R, A>>, i: int, j: int) -> bool {
    exists|m: int|
        {
            &&& i <= m <= j
            &&& (#[trigger] history[m]).after.senders().contains_key(history[j].key)
            &&& not_reopened(history, history[i].key, i, m)
            &&& not_reopened(history, history[j].key, m, j)
        }
}

/// Two channels are open at the same moment wherever the earlier one is still open
/// at the later submission, and wherever the later one was open already at the
/// earlier submission.
pub proof fn law_open_together<R, A>(history: Seq<Submit<R, A>>, i: int, j: int)
    requires
        is_history(history),
        0 <= i < j < history.len(),
        not_reopened(history, history[i].key, i, j) || {
            &&& history[i].after.senders().contains_key(history[j].key)
            &&& not_reopened(history, history[j].key, i, j)
        },
    ensures
        open_together(history, i, j),
{
    assert(history[j].holds());
    if not_reopened(history, history[i].key, i, j) {
        assert(history[j].after.senders().contains_key(history[j].key));
    } else {
        assert(history[i].after.senders().contains_key(history[j].key));
    }
}

proof fn lemma_sender_stays<R, A>(history: Seq<Submit<R, A>>, key: Seq<char>, m: int, j: int)
    requires
        is_history(history),
        0 <= m <= j < history.len(),
        history[m].after.senders().contains_key(key),
        not_reopened(history, key, m, j),
    ensures
        history[j].after.senders().contains_key(key),
        history[j].after.senders()[key] == history[m].after.senders()[key],
    decreases j - m,
{
    if m < j {
        lemma_sender_stays(history, key, m, j - 1);
        assert(history[j].holds());
        law_buffers_stay_open(history[j], key);
    }
}

/// No receiver is fed by messages for two different buffers, however many
/// messages are submitted in between and whatever becomes of the consumers, as
/// long as the two channels were open at the same moment.
pub proof fn law_buffers_apart<R, A>(history: Seq<Submit<R, A>>, i: int, j: int)
    requires
        is_history(history),
        0 <= i < j < history.len(),
        history[i].key != history[j].key,
        open_together(history, i, j),
    ensures
        apart(history[i].submission.tx, history[j].submission.tx),
        forall|rx: mpsc::Receiver<BufferedMessage>|
            !(#[trigger] connected(history[i].submission.tx, rx) && connected(
                history[j].submission.tx,
                rx,
            )),
{
    let m = choose|m: int|
        {
            &&& i <= m <= j
            &&& (#[trigger] history[m]).after.senders().contains_key(history[j].key)
            &&& not_reopened(history, history[i].key, i, m)
            &&& not_reopened(history, history[j].key, m, j)
        };
    lemma_channel_stays(history, i, m);
    lemma_sender_stays(history, history[j].key, m, j);
    assert(history[m].holds());
    assert(history[j].holds());
    let d = history[m].after;
    let a = d.senders()[history[i].key];
    let b = d.senders()[history[j].key];
    assert(apart(a, b));
    let tx_a = history[i].submission.tx;
    let tx_b = history[j].submission.tx;
    let rx = choose|rx: mpsc::Receiver<BufferedMessage>| connected(a, rx) != connected(b, rx);
    assert(connected(tx_a, rx) != connected(tx_b, rx));
    assert forall|rx: mpsc::Receiver<BufferedMessage>|
        !(#[trigger] connected(tx_a, rx) && connected(tx_b, rx)) by {
        assert(connected(tx_a, rx) == connected(a, rx));
        assert(connected(tx_b, rx) == connected(b, rx));
    }
}

/// No batch mixes buffers: what a consumer has come to be after any number of
/// steps, `rx`, is not fed by a message for another buffer, be it submitted after
/// the message that started the consumer or before it.
pub proof fn law_consumer_serves_one_buffer<R, A>(
    history: Seq<Submit<R, A>>,
    i: int,
    j: int,
    rx: mpsc::Receiver<BufferedMessage>,
)
    requires
        is_history(history),
        0 <= i < history.len(),
        0 <= j < history.len(),
        history[i].key != history[j].key,
        i < j ==> open_together(history, i, j),
        j < i ==> open_together(history, j, i),
        history[i].submission.consumer matches Some(consumer) && same_senders(consumer.rx, rx),
    ensures
        connected(history[i].submission.tx, rx),
        !connected(history[j].submission.tx, rx),
{
    assert(history[i].holds());
    if i < j {
        law_buffers_apart(history, i, j);
    } else {
        law_buffers_apart(history, j, i);
    }
    assert(connected(history[i].submission.tx, rx));
}

/// In per-lane mode no receiver is fed by messages of two senders or of two
/// threads.
pub proof fn law_lanes_apart<R, A>(
    history: Seq<Submit<R, A>>,
    i: int,
    j: int,
    sender_i: Seq<char>,
    sender_j: Seq<char>,
)
    requires
        is_history(history),
        0 <= i < j < history.len(),
        ({
            let lanes = MessageProcessingMode::PerLane;
            let a = history[i];
            let b = history[j];
            &&& lanes.spec_buffer_key(a.thread_key, sender_i) == Some(a.key)
            &&& lanes.spec_buffer_key(b.thread_key, sender_j) == Some(b.key)
            &&& a.thread_key != b.thread_key || sender_i != sender_j
        }),
        open_together(history, i, j),
    ensures
        apart(history[i].submission.tx, history[j].submission.tx),
        forall|rx: mpsc::Receiver<BufferedMessage>|
            !(#[trigger] connected(history[i].submission.tx, rx) && connected(
                history[j].submission.tx,
                rx,
            )),
{
    law_lane_per_sender(history[i].thread_key, sender_i, history[j].thread_key, sender_j);
    law_buffers_apart(history, i, j);
}

/// The messages submitted for the buffer `key`, in order.
pub open spec fn submitted<R, A>(history: Seq<Submit<R, A>>, key: Seq<char>) -> Seq<
    BufferedMessage,
>
    decreases history.len(),
{
    if history.len() == 0 {
        Seq::empty()
    } else if history.last().key == key {
        submitted(history.drop_last(), key).push(history.last().msg)
    } else {
        submitted(history.drop_last(), key)
    }
}

/// The messages handed to the channel of the buffer `key` to be sent, in order.
pub open spec fn handed_to_channel<R, A>(history: Seq<Submit<R, A>>, key: Seq<char>) -> Seq<
    BufferedMessage,
>
    decreases history.len(),
{
    if history.len() == 0 {
        Seq::empty()
    } else if history.last().key == key {
        handed_to_channel(history.drop_last(), key).push(history.last().submission.msg)
    } else {
        handed_to_channel(history.drop_last(), key)
    }
}

proof fn lemma_handed_unaltered<R, A>(history: Seq<Submit<R, A>>, key: Seq<char>)
    requires
        is_history(history),
    ensures
        handed_to_channel(history, key) == submitted(history, key),
    decreases history.len(),
{
    if history.len() > 0 {
        let shorter = history.drop_last();
        assert(history[history.len() - 1].holds());
        assert forall|i: int| 0 <= i < shorter.len() implies {
            &&& (#[trigger] shorter[i]).holds()
            &&& i > 0 ==> shorter[i].before == shorter[i - 1].after
        } by {
            assert(shorter[i] == history[i]);
        }
        lemma_handed_unaltered(shorter, key);
    }
}

/// Messages for one buffer are dispatched unaltered, once each and in the order in
/// which they were submitted, as far as they have reached the consumer and but for
/// at most one that it still holds back.
///
/// The law starts from a channel that hands over what was sent to it in the order
/// of sending: what reaches the consumer is a first part of what was handed to
/// the channel.
pub proof fn law_dispatch_in_submission_order<R, A>(
    history: Seq<Submit<R, A>>,
    key: Seq<char>,
    steps: Seq<Step>,
    limits: BatchLimits,
)
    requires
        is_history(history),
        is_run(steps, limits),
        all_incoming(steps).is_prefix_of(handed_to_channel(history, key)),
    ensures
        all_dispatched(steps).is_prefix_of(submitted(history, key)),
        all_incoming(steps).len() <= all_dispatched(steps).len() + 1,
{
    lemma_handed_unaltered(history, key);
    law_run_conserves(steps, limits);
}

/// What submitting a message does, buffer by buffer.
///
/// The message itself is what is to be sent, into the buffer of its key. All other
/// buffers stay as they are, and none is lost. If the buffer is open and its
/// consumer is there, it stays too and no consumer is started. Else, be it the
/// first message or the consumer gone, a consumer is started that listens to the
/// buffer, to which no buffer of before leads, and that captures the thread, its
/// place, the adapter and the flag that came with the message, whole and as they
/// came.
pub proof fn law_submission<R, A>(
    before: Dispatcher<R>,
    closed: bool,
    after: Dispatcher<R>,
    key: Seq<char>,
    thread_key: Seq<char>,
    thread_channel: ChannelRef,
    adapter: A,
    msg: BufferedMessage,
    other_bot_present: bool,
    s: Submission<R, A>,
)
    requires
        before.submits(
            closed,
            after,
            key,
            thread_key,
            thread_channel,
            adapter,
            msg,
            other_bot_present,
            s,
        ),
    ensures
        s.msg == msg,
        after.router() == before.router(),
        after.limits() == before.limits(),
        forall|k: Seq<char>| #[trigger]
            after.senders().contains_key(k) <==> k == key || before.senders().contains_key(k),
        forall|k: Seq<char>|
            k != key && #[trigger] before.senders().contains_key(k) ==> after.senders()[k]
                == before.senders()[k],
        forall|rx: mpsc::Receiver<BufferedMessage>| #[trigger]
            connected(s.tx, rx) == connected(after.senders()[key], rx),
        before.senders().contains_key(key) && !closed ==> s.consumer is None
            && after.senders()[key] == before.senders()[key],
        !before.senders().contains_key(key) || closed ==> (s.consumer matches Some(consumer) && {
            &&& connected(s.tx, consumer.rx)
            &&& forall|k: Seq<char>| #[trigger]
                before.senders().contains_key(k) ==> !connected(before.senders()[k], consumer.rx)
            &&& polled(consumer.rx).len() == 0
            &&& consumer.pending is None
            &&& consumer.thread_key@ == thread_key
            &&& consumer.thread_channel == thread_channel
            &&& consumer.adapter == adapter
            &&& consumer.other_bot_present == other_bot_present
            &&& consumer.router == before.router()
            &&& consumer.limits.max_messages == before.limits().max_messages
            &&& consumer.limits.max_tokens == before.limits().max_tokens
        }),
{
}

/// What accepting a message does in each mode. Per message nothing changes, and the
/// message alone, as it came, is the batch to dispatch. Per thread it is submitted
/// to the buffer of the thread's key, per lane to that of the thread's key and the
/// sender, and it is sent as it came.
pub proof fn law_acceptance<R, A>(
    before: Dispatcher<R>,
    closed: bool,
    after: Dispatcher<R>,
    mode: MessageProcessingMode,
    thread_key: Seq<char>,
    sender_id: Seq<char>,
    thread_channel: ChannelRef,
    adapter: A,
    msg: BufferedMessage,
    other_bot_present: bool,
    accepted: Accepted<R, A>,
)
    requires
        before.accepts(
            closed,
            after,
            mode,
            thread_key,
            sender_id,
            thread_channel,
            adapter,
            msg,
            other_bot_present,
            accepted,
        ),
    ensures
        mode == MessageProcessingMode::PerMessage ==> after == before && (accepted matches Accepted::Alone(
            messages,
        ) && messages@.len() == 1 && messages@[0] == msg),
        mode != MessageProcessingMode::PerMessage ==> (accepted matches Accepted::Buffered(s) && {
            let key = if mode == MessageProcessingMode::PerThread {
                thread_key
            } else {
                decimal(thread_key.len()) + ":"@ + thread_key + sender_id
            };
            &&& s.msg == msg
            &&& capacity(s.tx) == before.limits().max_messages
            &&& before.submits(
                closed,
                after,
                key,
                thread_key,
                thread_channel,
                adapter,
                msg,
                other_bot_present,
                s,
            )
        }),
{
}

/// In a dispatcher every buffer has room for exactly as many messages as a turn
/// may hold, which is one at least, and no receiver is fed by two buffers.
pub proof fn law_buffers_sound<R>(
    d: Dispatcher<R>,
    a: Seq<char>,
    b: Seq<char>,
    rx: mpsc::Receiver<BufferedMessage>,
)
    requires
        d.wf(),
        d.senders().contains_key(a),
    ensures
        capacity(d.senders()[a]) == d.limits().max_messages,
        d.limits().max_messages >= 1,
        a != b && d.senders().contains_key(b) ==> !(connected(d.senders()[a], rx) && connected(
            d.senders()[b],
            rx,
        )),
{
}

} // verus!
