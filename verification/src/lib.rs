//! Turn-boundary message batching for a chat broker.
//!
//! Every conversation buffer owns one bounded channel and one consumer. The
//! first message after idle opens a turn at once; messages that arrive while
//! the turn runs pile up in the channel, and when the turn is over the consumer
//! drains them into the next turn.
//!
//! * [`message`]: the data that travels, and how many tokens it is worth.
//! * [`channel`]: the bounded channel, as far as the library relies on it.
//! * [`batch`]: how buffered messages are cut into batches.
//! * [`packing`]: a batch as content blocks, one sender context per message.
//! * [`merging`]: a batch as one combined prompt.
//! * [`consumer`]: the life of one buffer's consumer, event by event.
//! * [`dispatcher`]: which buffer a message goes to.
//! * [`mode`]: the three ways of grouping messages into buffers.
//! * [`text`]: decimal numbers as text.

pub mod batch;
pub mod channel;
pub mod consumer;
pub mod dispatcher;
pub mod merging;
pub mod message;
pub mod mode;
pub mod packing;
pub mod text;
