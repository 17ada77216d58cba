# openab_dispatch

Turn-boundary message batching for a chat broker, verified with Verus.

Every conversation buffer owns one bounded channel and one consumer. The first
message after idle opens a turn at once. Messages that arrive while the turn runs
pile up in the channel; when the turn is over the consumer drains them, up to a
number of messages and a token budget, into the next turn. A message that would
exceed the budget opens the turn after that.

* `src/` is the verified library: cutting batches, packing and merging them,
  choosing buffers, and the consumer's decisions. `src/channel.rs` states what is
  relied on of tokio's channel.
* `app/` is the asynchronous shell: it locks, spawns, waits and logs.
* `tests/` runs the library against the real channel.

What holds of the library as a whole is stated in the proof functions whose names
start with `law_`.
