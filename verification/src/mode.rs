//! The three ways of grouping messages into buffers.

use vstd::prelude::*;

use crate::text::{decimal, law_decimal_digits, law_decimal_roundtrip, push_decimal};

verus! {

/// How incoming messages are grouped into turns.
#[derive(Debug, Clone, Copy, PartialEq, Eq, Structural)]
pub enum MessageProcessingMode {
    /// Every message is a turn of its own; nothing is buffered.
    PerMessage,
    /// All messages of a thread share one buffer.
    PerThread,
    /// Every sender in a thread has a buffer of its own.
    PerLane,
}

/// The key of one sender's buffer in a thread: the length of the thread's key, a
/// colon, the thread's key and the sender.
pub open spec fn lane_key(thread_key: Seq<char>, sender_id: Seq<char>) -> Seq<char> {
    decimal(thread_key.len()) + ":"@ + thread_key + sender_id
}

impl MessageProcessingMode {
    /// The mode's name in a configuration.
    pub open spec fn spec_name(self) -> Seq<char> {
        match self {
            MessageProcessingMode::PerMessage => "per-message"@,
            MessageProcessingMode::PerThread => "per-thread"@,
            MessageProcessingMode::PerLane => "per-lane"@,
        }
    }

    /// The key of the buffer for a sender's messages in a thread, if messages
    /// are buffered.
    pub open spec fn spec_buffer_key(
        self,
        thread_key: Seq<char>,
        sender_id: Seq<char>,
    ) -> Option<Seq<char>> {
        match self {
            MessageProcessingMode::PerMessage => None,
            MessageProcessingMode::PerThread => Some(thread_key),
            MessageProcessingMode::PerLane => Some(lane_key(thread_key, sender_id)),
        }
    }

    /// The mode's name in a configuration.
    pub fn name(&self) -> (r: String)
        ensures
            r@ == self.spec_name(),
    {
        match self {
            MessageProcessingMode::PerMessage => "per-message".to_owned(),
            MessageProcessingMode::PerThread => "per-thread".to_owned(),
            MessageProcessingMode::PerLane => "per-lane".to_owned(),
        }
    }

    /// The mode of that name, if there is one.
    pub fn from_name(name: &str) -> (r: Option<Self>)
        ensures
            match r {
                Some(mode) => name@ == mode.spec_name(),
                None => forall|mode: Self| name@ != #[trigger] mode.spec_name(),
            },
    {
        let name = name.to_owned();
        if name == MessageProcessingMode::PerMessage.name() {
            Some(MessageProcessingMode::PerMessage)
        } else if name == MessageProcessingMode::PerThread.name() {
            Some(MessageProcessingMode::PerThread)
        } else if name == MessageProcessingMode::PerLane.name() {
            Some(MessageProcessingMode::PerLane)
        } else {
            None
        }
    }

    /// The key of the buffer for a sender's messages in a thread, or `None` where
    /// every message is dispatched on its own.
    pub fn buffer_key(&self, thread_key: &str, sender_id: &str) -> (r: Option<String>)
        ensures
            match r {
                Some(key) => self.spec_buffer_key(thread_key@, sender_id@) == Some(key@),
                None => self.spec_buffer_key(thread_key@, sender_id@) is None,
            },
    {
        match self {
            MessageProcessingMode::PerMessage => None,
            MessageProcessingMode::PerThread => Some(thread_key.to_owned()),
            MessageProcessingMode::PerLane => {
                let mut key = String::new();
                push_decimal(&mut key, thread_key.unicode_len());
                key.append(":");
                key.append(thread_key);
                key.append(sender_id);
                assert(key@ =~= lane_key(thread_key@, sender_id@));
                Some(key)
            },
        }
    }
}

impl Default for MessageProcessingMode {
    fn default() -> (r: Self)
        ensures
            r == MessageProcessingMode::PerMessage,
    {
        MessageProcessingMode::PerMessage
    }
}

/// No two modes have the same name.
pub proof fn law_mode_names_distinct(a: MessageProcessingMode, b: MessageProcessingMode)
    requires
        a.spec_name() == b.spec_name(),
    ensures
        a == b,
{
    reveal_strlit("per-message");
    reveal_strlit("per-thread");
    reveal_strlit("per-lane");
    assert("per-message"@.len() == 11);
    assert("per-thread"@.len() == 10);
    assert("per-lane"@.len() == 8);
}

/// In per-lane mode two messages share a buffer exactly if they have the same
/// sender in the same thread.
pub proof fn law_lane_per_sender(
    thread_a: Seq<char>,
    sender_a: Seq<char>,
    thread_b: Seq<char>,
    sender_b: Seq<char>,
)
    ensures
        ({
            let lanes = MessageProcessingMode::PerLane;
            lanes.spec_buffer_key(thread_a, sender_a) == lanes.spec_buffer_key(thread_b, sender_b)
        }) <==> thread_a == thread_b && sender_a == sender_b,
{
    let a = lane_key(thread_a, sender_a);
    let b = lane_key(thread_b, sender_b);
    if a == b {
        let da = decimal(thread_a.len());
        let db = decimal(thread_b.len());
        reveal_strlit(":");
        assert(a[da.len() as int] == ':');
        assert(b[db.len() as int] == ':');
        if da.len() < db.len() {
            law_decimal_digits(thread_b.len(), da.len() as int);
            assert(b[da.len() as int] == db[da.len() as int]);
        }
        if db.len() < da.len() {
            law_decimal_digits(thread_a.len(), db.len() as int);
            assert(a[db.len() as int] == da[db.len() as int]);
        }
        assert(da =~= a.take(da.len() as int));
        assert(db =~= b.take(da.len() as int));
        law_decimal_roundtrip(thread_a.len());
        law_decimal_roundtrip(thread_b.len());
        let from = da.len() as int + 1;
        assert(thread_a =~= a.subrange(from, from + thread_a.len()));
        assert(thread_b =~= b.subrange(from, from + thread_a.len()));
        assert(sender_a =~= a.skip(from + thread_a.len()));
        assert(sender_b =~= b.skip(from + thread_a.len()));
    }
}

/// In per-thread mode two messages share a buffer exactly if they are in the
/// same thread, whoever sent them.
pub proof fn law_thread_shared(
    thread_a: Seq<char>,
    sender_a: Seq<char>,
    thread_b: Seq<char>,
    sender_b: Seq<char>,
)
    ensures
        ({
            let threads = MessageProcessingMode::PerThread;
            threads.spec_buffer_key(thread_a, sender_a) == threads.spec_buffer_key(
                thread_b,
                sender_b,
            )
        }) <==> thread_a == thread_b,
{
}

/// What the modes are called.
pub proof fn law_mode_names(mode: MessageProcessingMode)
    ensures
        mode == MessageProcessingMode::PerMessage ==> mode.spec_name() == "per-message"@,
        mode == MessageProcessingMode::PerThread ==> mode.spec_name() == "per-thread"@,
        mode == MessageProcessingMode::PerLane ==> mode.spec_name() == "per-lane"@,
{
}

/// Per message nothing is buffered; per thread the buffer has the thread's key;
/// per lane the whole of the thread's key and the whole of the sender stand in the
/// key, behind the length of the former.
pub proof fn law_buffer_keys(
    mode: MessageProcessingMode,
    thread_key: Seq<char>,
    sender_id: Seq<char>,
)
    ensures
        mode.spec_buffer_key(thread_key, sender_id) == match mode {
            MessageProcessingMode::PerMessage => None,
            MessageProcessingMode::PerThread => Some(thread_key),
            MessageProcessingMode::PerLane => Some(
                decimal(thread_key.len()) + ":"@ + thread_key + sender_id,
            ),
        },
{
}

} // verus!
