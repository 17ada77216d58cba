//! The bounded channel between the submitters of a buffer and its consumer.
//!
//! The channel is tokio's. What other tasks have sent by the time a call is made
//! is not known here, so a receiver is described by what it has answered so far,
//! which nothing but a call on that receiver changes.

use tokio::sync::mpsc;
use vstd::hash_map::StringHashMap;
use vstd::prelude::*;

use crate::message::BufferedMessage;

verus! {

/// The largest capacity a channel can have.
pub const MAX_CHANNEL_CAPACITY: usize = usize::MAX / 8;

/// `tokio::sync::mpsc::Sender`, the sending half of a bounded channel.
#[verifier::external_type_specification]
#[verifier::external_body]
#[verifier::reject_recursive_types(T)]
pub struct ExSender<T>(mpsc::Sender<T>);

/// `tokio::sync::mpsc::Receiver`, the receiving half of a bounded channel.
#[verifier::external_type_specification]
#[verifier::external_body]
#[verifier::reject_recursive_types(T)]
pub struct ExReceiver<T>(mpsc::Receiver<T>);

/// `tokio::sync::mpsc::error::TryRecvError`: the channel is empty, or it is empty
/// and no sender is left.
#[verifier::external_type_specification]
#[verifier::external_body]
pub struct ExTryRecvError(mpsc::error::TryRecvError);

/// What `try_recv` on this receiver has answered so far, oldest answer first:
/// the message that it took out of the channel, or `None` where there was none.
pub uninterp spec fn polled(rx: mpsc::Receiver<BufferedMessage>) -> Seq<Option<BufferedMessage>>;

/// The capacity that the channel of this sender was made with.
pub uninterp spec fn capacity(tx: mpsc::Sender<BufferedMessage>) -> nat;

/// Whether what is sent through `tx` arrives at `rx`.
pub uninterp spec fn connected(
    tx: mpsc::Sender<BufferedMessage>,
    rx: mpsc::Receiver<BufferedMessage>,
) -> bool;

/// Whether `is_closed` on this sender has answered `closed` at some time.
pub uninterp spec fn answered_closed(tx: mpsc::Sender<BufferedMessage>, closed: bool) -> bool;

/// Whether two senders feed the same receivers.
pub open spec fn same_channel(
    a: mpsc::Sender<BufferedMessage>,
    b: mpsc::Sender<BufferedMessage>,
) -> bool {
    forall|rx: mpsc::Receiver<BufferedMessage>|
        #![trigger connected(a, rx)]
        #![trigger connected(b, rx)]
        connected(a, rx) == connected(b, rx)
}

/// Whether two senders do not feed the same receivers, and no receiver is fed by
/// both.
pub open spec fn apart(
    a: mpsc::Sender<BufferedMessage>,
    b: mpsc::Sender<BufferedMessage>,
) -> bool {
    &&& !same_channel(a, b)
    &&& forall|rx: mpsc::Receiver<BufferedMessage>|
        #![trigger connected(a, rx)]
        #![trigger connected(b, rx)]
        !(connected(a, rx) && connected(b, rx))
}

/// Whether the same senders feed two states of a receiver.
pub open spec fn same_senders(
    a: mpsc::Receiver<BufferedMessage>,
    b: mpsc::Receiver<BufferedMessage>,
) -> bool {
    forall|tx: mpsc::Sender<BufferedMessage>|
        #![trigger connected(tx, a)]
        #![trigger connected(tx, b)]
        connected(tx, a) == connected(tx, b)
}

/// What `try_recv` answered between two states of a receiver.
pub open spec fn answers_between(
    before: mpsc::Receiver<BufferedMessage>,
    after: mpsc::Receiver<BufferedMessage>,
) -> Seq<Option<BufferedMessage>> {
    polled(after).skip(polled(before).len() as int)
}

/// Whether one state of a receiver comes from another by calls of `try_recv`.
pub open spec fn polled_on(
    before: mpsc::Receiver<BufferedMessage>,
    after: mpsc::Receiver<BufferedMessage>,
) -> bool {
    &&& polled(after) == polled(before) + answers_between(before, after)
    &&& same_senders(before, after)
}

/// `tokio::sync::mpsc::channel` makes a channel of the given capacity and returns
/// its two halves. It panics on a capacity of zero or above
/// [`MAX_CHANNEL_CAPACITY`]. The channel is new: nothing has been asked of its
/// receiver, and no sender that was there before the call, such as those of
/// `earlier`, feeds it. A channel has one receiver: whatever the new sender feeds
/// is a state of the receiver returned here.
#[verifier::external_body]
pub(crate) fn open_channel(
    cap: usize,
    earlier: &StringHashMap<mpsc::Sender<BufferedMessage>>,
) -> (halves: (mpsc::Sender<BufferedMessage>, mpsc::Receiver<BufferedMessage>))
    requires
        1 <= cap <= MAX_CHANNEL_CAPACITY,
    ensures
        capacity(halves.0) == cap,
        connected(halves.0, halves.1),
        polled(halves.1) == Seq::<Option<BufferedMessage>>::empty(),
        forall|key: Seq<char>| #[trigger]
            earlier@.contains_key(key) ==> !connected(earlier@[key], halves.1),
        forall|rx: mpsc::Receiver<BufferedMessage>| #[trigger]
            connected(halves.0, rx) ==> same_senders(rx, halves.1),
{
    mpsc::channel(cap)
}

/// `Sender::clone` gives another sender for the same channel.
#[verifier::external_body]
pub(crate) fn clone_sender(tx: &mpsc::Sender<BufferedMessage>) -> (r: mpsc::Sender<
    BufferedMessage,
>)
    ensures
        same_channel(r, *tx),
        capacity(r) == capacity(*tx),
{
    tx.clone()
}

/// `Sender::is_closed` tells whether the receiver of the channel has been dropped
/// or has closed the channel. Another task decides that at any time, so which
/// answer comes is left open; only that this sender gave it is recorded.
#[verifier::external_body]
pub(crate) fn is_closed(tx: &mpsc::Sender<BufferedMessage>) -> (r: bool)
    ensures
        answered_closed(*tx, r),
{
    tx.is_closed()
}

/// `Receiver::try_recv` takes the next message out of the channel, or reports
/// that there is none. Which of the two it does rests on what other tasks have
/// sent by then and is left open; the answer joins those given before.
#[verifier::external_body]
pub(crate) fn poll(rx: &mut mpsc::Receiver<BufferedMessage>) -> (r: Result<
    BufferedMessage,
    mpsc::error::TryRecvError,
>)
    ensures
        polled(*final(rx)) == polled(*old(rx)).push(
            match r {
                Ok(m) => Some(m),
                Err(_) => None,
            },
        ),
        same_senders(*old(rx), *final(rx)),
{
    rx.try_recv()
}

/// What a receiver has answered is what it had answered before, then the answers
/// in between; and what feeds it stays the same.
pub proof fn law_answers_in_between(
    before: mpsc::Receiver<BufferedMessage>,
    after: mpsc::Receiver<BufferedMessage>,
    tx: mpsc::Sender<BufferedMessage>,
)
    requires
        polled_on(before, after),
    ensures
        polled(after) == polled(before) + answers_between(before, after),
        connected(tx, after) == connected(tx, before),
{
}

/// Senders of one channel feed each receiver alike; senders that are apart never
/// feed the same receiver.
pub proof fn law_senders_and_receivers(
    a: mpsc::Sender<BufferedMessage>,
    b: mpsc::Sender<BufferedMessage>,
    rx: mpsc::Receiver<BufferedMessage>,
)
    ensures
        same_channel(a, b) ==> connected(a, rx) == connected(b, rx),
        apart(a, b) ==> !(connected(a, rx) && connected(b, rx)),
        apart(a, b) ==> !same_channel(a, b),
{
}

} // verus!
