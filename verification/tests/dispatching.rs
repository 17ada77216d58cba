use std::sync::Arc;
use std::time::Instant;

use openab_dispatch::batch::{drain, BatchLimits, Collector};
use openab_dispatch::channel::MAX_CHANNEL_CAPACITY;
use openab_dispatch::consumer::{Action, Consumer, Event};
use openab_dispatch::dispatcher::{
    Accepted, Dispatcher, DEFAULT_MAX_BATCH_TOKENS, DEFAULT_MAX_BUFFERED_MESSAGES,
};
use openab_dispatch::message::{
    estimate_tokens, BufferedMessage, ChannelRef, ContentBlock, MessageRef,
};
use openab_dispatch::mode::MessageProcessingMode;
use tokio::sync::mpsc;

fn channel_ref(id: &str) -> ChannelRef {
    ChannelRef {
        platform: "discord".into(),
        channel_id: id.into(),
        thread_id: Some("T1".into()),
        parent_id: None,
    }
}

fn make(prompt: &str) -> BufferedMessage {
    BufferedMessage {
        prompt: prompt.into(),
        extra_blocks: vec![],
        sender_json: "{}".into(),
        trigger_msg: MessageRef {
            channel: channel_ref("C1"),
            message_id: prompt.into(),
        },
        arrived_at: Instant::now(),
        sender_name: "alice".into(),
    }
}

fn prompts(batch: &[BufferedMessage]) -> Vec<&str> {
    batch.iter().map(|m| m.prompt.as_str()).collect()
}

fn limits(max_messages: usize, max_tokens: usize) -> BatchLimits {
    BatchLimits { max_messages, max_tokens }
}

fn dispatched<R, A>(consumer: &mut Consumer<R, A>, event: Event) -> Vec<String> {
    match consumer.step(event) {
        Action::Dispatch(batch) => batch.into_iter().map(|m| m.prompt).collect(),
        Action::Receive => panic!("expected a turn, got Receive"),
        Action::Exit => panic!("expected a turn, got Exit"),
    }
}

fn consumer_with(
    max: usize,
    tokens: usize,
) -> (mpsc::Sender<BufferedMessage>, Consumer<u8, &'static str>) {
    let (tx, rx) = mpsc::channel(16);
    let consumer = Consumer {
        thread_key: "k".into(),
        thread_channel: channel_ref("C1"),
        rx,
        router: Arc::new(0u8),
        adapter: "adapter",
        limits: limits(max, tokens),
        other_bot_present: false,
        pending: None,
    };
    (tx, consumer)
}

/// Greedy drain coalesces messages already in the channel up to the cap, leaving
/// the remainder for the next round, in arrival order.
#[test]
fn drain_caps_at_max_buffered() {
    let runtime = tokio::runtime::Builder::new_current_thread().build().unwrap();
    runtime.block_on(async {
        let max = 3;
        let (tx, mut rx) = mpsc::channel::<BufferedMessage>(16);
        for i in 0..5 {
            tx.send(make(&format!("{i}"))).await.unwrap();
        }
        let first = rx.recv().await.unwrap();
        let drained = drain(&mut rx, first, limits(max, 24000));
        assert_eq!(prompts(&drained.batch), vec!["0", "1", "2"]);
        assert!(drained.held.is_none());
        assert_eq!(rx.try_recv().unwrap().prompt, "3");
        assert_eq!(rx.try_recv().unwrap().prompt, "4");
    });
}

#[test]
fn drain_takes_all_that_is_buffered() {
    let (tx, mut rx) = mpsc::channel(16);
    tx.try_send(make("b")).unwrap();
    tx.try_send(make("c")).unwrap();
    let drained = drain(&mut rx, make("a"), limits(10, 24000));
    assert_eq!(prompts(&drained.batch), vec!["a", "b", "c"]);
    assert!(drained.held.is_none());
}

#[test]
fn drain_of_a_closed_channel_stops() {
    let (tx, mut rx) = mpsc::channel(16);
    tx.try_send(make("b")).unwrap();
    drop(tx);
    let drained = drain(&mut rx, make("a"), limits(10, 24000));
    assert_eq!(prompts(&drained.batch), vec!["a", "b"]);
}

#[test]
fn drain_takes_the_first_message_whatever_the_limits() {
    let (tx, mut rx) = mpsc::channel(16);
    tx.try_send(make("b")).unwrap();
    let drained = drain(&mut rx, make("a"), limits(0, 0));
    assert_eq!(prompts(&drained.batch), vec!["a"]);
    assert!(drained.held.is_none());
    assert_eq!(rx.try_recv().unwrap().prompt, "b");
}

#[test]
fn drain_holds_back_what_exceeds_the_token_budget() {
    let (tx, mut rx) = mpsc::channel(16);
    tx.try_send(make("bbbb")).unwrap();
    tx.try_send(make("cccccccc")).unwrap();
    tx.try_send(make("d")).unwrap();
    let drained = drain(&mut rx, make("aaaa"), limits(10, 3));
    assert_eq!(prompts(&drained.batch), vec!["aaaa", "bbbb"]);
    assert_eq!(drained.held.unwrap().prompt, "cccccccc");
    assert_eq!(rx.try_recv().unwrap().prompt, "d");
}

#[test]
fn collector_follows_the_answers() {
    let mut c = Collector::new(make("aaaa"), limits(3, 4));
    assert!(c.is_open());
    c.offer(Some(make("bbbb")));
    assert!(c.is_open());
    c.offer(Some(make("cccc")));
    assert!(!c.is_open());
    let drained = c.finish();
    assert_eq!(prompts(&drained.batch), vec!["aaaa", "bbbb", "cccc"]);
    assert!(drained.held.is_none());

    let mut c = Collector::new(make("aaaa"), limits(3, 4));
    c.offer(None);
    assert!(!c.is_open());
    assert_eq!(prompts(&c.finish().batch), vec!["aaaa"]);

    let mut c = Collector::new(make("aaaa"), limits(3, 1));
    c.offer(Some(make("b")));
    assert!(!c.is_open());
    assert_eq!(c.finish().held.unwrap().prompt, "b");

    assert!(!Collector::new(make("a"), limits(1, 4)).is_open());
}

#[test]
fn token_estimates() {
    assert_eq!(estimate_tokens("", &vec![]), 0);
    assert_eq!(estimate_tokens("a", &vec![]), 1);
    assert_eq!(estimate_tokens("abcd", &vec![]), 1);
    assert_eq!(estimate_tokens("abcde", &vec![]), 2);
    assert_eq!(estimate_tokens("déjà", &vec![]), 1);
    assert_eq!(
        estimate_tokens(
            "abcd",
            &vec![
                ContentBlock::Text { text: "12345678".into() },
                ContentBlock::Image { media_type: "image/png".into(), data: "A".repeat(400) },
                ContentBlock::Text { text: "1".into() },
            ]
        ),
        4
    );
}

#[test]
fn consumer_waits_dispatches_and_exits() {
    let (tx, mut consumer) = consumer_with(10, 24000);
    assert!(matches!(consumer.step(Event::TurnBoundary), Action::Receive));
    tx.try_send(make("b")).unwrap();
    assert_eq!(dispatched(&mut consumer, Event::Received(Some(make("a")))), vec!["a", "b"]);
    assert!(matches!(consumer.step(Event::TurnBoundary), Action::Receive));
    drop(tx);
    assert!(matches!(consumer.step(Event::Received(None)), Action::Exit));
}

#[test]
fn first_message_after_idle_fires_immediately() {
    let (_tx, mut consumer) = consumer_with(10, 24000);
    assert_eq!(dispatched(&mut consumer, Event::Received(Some(make("a")))), vec!["a"]);
}

#[test]
fn held_message_opens_the_next_turn() {
    let (tx, mut consumer) = consumer_with(10, 2);
    for p in ["bbbb", "cccc", "dddd", "eeee"] {
        tx.try_send(make(p)).unwrap();
    }
    let first = Event::Received(Some(make("aaaa")));
    assert_eq!(dispatched(&mut consumer, first), vec!["aaaa", "bbbb"]);
    assert_eq!(consumer.pending.as_ref().unwrap().prompt, "cccc");
    assert_eq!(dispatched(&mut consumer, Event::TurnBoundary), vec!["cccc", "dddd"]);
    assert_eq!(dispatched(&mut consumer, Event::TurnBoundary), vec!["eeee"]);
    assert!(consumer.pending.is_none());
    assert!(matches!(consumer.step(Event::TurnBoundary), Action::Receive));
}

#[test]
fn turns_cover_the_queue_in_order() {
    let (tx, mut consumer) = consumer_with(3, 24000);
    for i in 1..8 {
        tx.try_send(make(&format!("{i}"))).unwrap();
    }
    let mut all: Vec<String> = Vec::new();
    let mut event = Event::Received(Some(make("0")));
    loop {
        match consumer.step(event) {
            Action::Dispatch(batch) => {
                assert!(batch.len() <= 3);
                all.extend(batch.into_iter().map(|m| m.prompt));
                event = Event::TurnBoundary;
            }
            Action::Receive => match consumer.rx.try_recv() {
                Ok(m) => event = Event::Received(Some(m)),
                Err(_) => break,
            },
            Action::Exit => panic!("senders are still there"),
        }
    }
    assert_eq!(all, vec!["0", "1", "2", "3", "4", "5", "6", "7"]);
}

#[test]
fn a_closed_queue_is_dispatched_in_its_turns() {
    let (tx, mut consumer) = consumer_with(3, 4);
    for p in ["a", "b", "c", "d", "eeeeeeeeeeee", "ffff", "g", "hhhhhhhhhhhhhhhhhhhhhhhh", "i"] {
        tx.try_send(make(p)).unwrap();
    }
    drop(tx);
    let mut turns: Vec<Vec<String>> = Vec::new();
    let mut event = Event::TurnBoundary;
    loop {
        match consumer.step(event) {
            Action::Dispatch(batch) => {
                turns.push(batch.into_iter().map(|m| m.prompt).collect());
                event = Event::TurnBoundary;
            }
            Action::Receive => event = Event::Received(consumer.rx.try_recv().ok()),
            Action::Exit => break,
        }
    }
    assert_eq!(
        turns,
        vec![
            vec!["a", "b", "c"],
            vec!["d", "eeeeeeeeeeee"],
            vec!["ffff", "g"],
            vec!["hhhhhhhhhhhhhhhhhhhhhhhh"],
            vec!["i"],
        ]
    );
}

#[test]
fn new_raises_a_zero_capacity_to_one() {
    assert_eq!(Dispatcher::new(Arc::new(()), 0).max_buffered_messages(), 1);
    assert_eq!(Dispatcher::new(Arc::new(()), 1).max_buffered_messages(), 1);
    assert_eq!(Dispatcher::new(Arc::new(()), 30).max_buffered_messages(), 30);
}

#[test]
fn defaults() {
    assert_eq!(DEFAULT_MAX_BUFFERED_MESSAGES, 10);
    assert_eq!(DEFAULT_MAX_BATCH_TOKENS, 24000);
    assert_eq!(MessageProcessingMode::default(), MessageProcessingMode::PerMessage);
}

#[test]
fn channel_limit_is_that_of_the_channel() {
    assert_eq!(MAX_CHANNEL_CAPACITY, tokio::sync::Semaphore::MAX_PERMITS);
}

#[test]
fn submit_starts_one_consumer_per_thread() {
    let mut d = Dispatcher::new(Arc::new("router"), 2);
    let a = d.submit("t1".into(), channel_ref("C1"), "first", make("a"), true);
    let consumer = a.consumer.expect("the first message starts the consumer");
    assert_eq!(consumer.thread_key, "t1");
    assert_eq!(consumer.thread_channel.channel_id, "C1");
    assert_eq!(consumer.adapter, "first");
    assert_eq!(*consumer.router, "router");
    assert!(consumer.other_bot_present);
    assert!(consumer.pending.is_none());
    assert_eq!(consumer.limits.max_messages, 2);
    assert_eq!(consumer.limits.max_tokens, 24000);
    assert_eq!(consumer.rx.max_capacity(), 2);
    assert_eq!(a.tx.max_capacity(), 2);
    assert_eq!(a.msg.prompt, "a");

    let b = d.submit("t1".into(), channel_ref("C2"), "second", make("b"), false);
    assert!(b.consumer.is_none());
    assert!(b.tx.same_channel(&a.tx));
    assert_eq!(b.msg.prompt, "b");

    let c = d.submit("t2".into(), channel_ref("C1"), "third", make("c"), false);
    assert!(c.consumer.is_some());
    assert!(!c.tx.same_channel(&a.tx));
}

#[test]
fn submitted_messages_reach_their_consumer_in_order() {
    let mut d = Dispatcher::new(Arc::new(()), 3).with_max_batch_tokens(100);
    let a = d.submit("t".into(), channel_ref("C1"), (), make("a"), false);
    let mut consumer = a.consumer.unwrap();
    assert_eq!(consumer.limits.max_tokens, 100);
    a.tx.try_send(a.msg).unwrap();
    for p in ["b", "c"] {
        let s = d.submit("t".into(), channel_ref("C1"), (), make(p), false);
        s.tx.try_send(s.msg).unwrap();
    }
    let full = d.submit("t".into(), channel_ref("C1"), (), make("d"), false);
    assert!(full.tx.try_send(full.msg).is_err());
    let first = consumer.rx.try_recv().unwrap();
    assert_eq!(dispatched(&mut consumer, Event::Received(Some(first))), vec!["a", "b", "c"]);
}

#[test]
fn gone_consumer_is_replaced() {
    let mut d = Dispatcher::new(Arc::new("router"), 2);
    let a = d.submit("t".into(), channel_ref("C1"), "first", make("a"), false);
    let other = d.submit("u".into(), channel_ref("C1"), "other", make("o"), false);
    drop(a.consumer.expect("the first message starts the consumer"));
    assert!(a.tx.try_send(a.msg).is_err());

    let b = d.submit("t".into(), channel_ref("C2"), "second", make("b"), true);
    let mut consumer = b.consumer.expect("a gone consumer is replaced");
    assert_eq!(consumer.adapter, "second");
    assert_eq!(consumer.thread_channel.channel_id, "C2");
    assert!(consumer.other_bot_present);
    assert!(!b.tx.same_channel(&a.tx));
    assert!(!b.tx.same_channel(&other.tx));
    b.tx.try_send(b.msg).unwrap();
    assert_eq!(consumer.rx.try_recv().unwrap().prompt, "b");

    let c = d.submit("t".into(), channel_ref("C3"), "third", make("c"), false);
    assert!(c.consumer.is_none());
    assert!(c.tx.same_channel(&b.tx));
    let again = d.submit("u".into(), channel_ref("C1"), "other", make("o"), false);
    assert!(again.consumer.is_none());
    assert!(again.tx.same_channel(&other.tx));
}

#[test]
fn gone_lane_consumer_is_replaced() {
    let mut d = Dispatcher::new(Arc::new(()), 2);
    let lane = MessageProcessingMode::PerLane;
    for adapter in ["first", "second"] {
        let accepted =
            d.accept(lane, "t".into(), "alice", channel_ref("C1"), adapter, make("m"), false);
        let Accepted::Buffered(s) = accepted else {
            panic!("expected a buffer");
        };
        assert_eq!(s.consumer.unwrap().adapter, adapter);
    }
}

#[test]
fn submission_follows_what_became_of_the_consumer() {
    let mut d = Dispatcher::new(Arc::new(()), 2);
    let mut submit = |closed: bool, key: &str| {
        d.submit_where(closed, key.into(), "t".into(), channel_ref("C1"), (), make("m"), false)
    };
    let a = submit(false, "k");
    assert!(a.consumer.is_some());
    let b = submit(false, "k");
    assert!(b.consumer.is_none());
    assert!(b.tx.same_channel(&a.tx));
    let c = submit(true, "k");
    assert!(c.consumer.is_some());
    assert!(!c.tx.same_channel(&a.tx));
    assert_eq!(c.tx.max_capacity(), 2);
    assert!(submit(true, "new").consumer.is_some());
}

#[test]
fn mode_names() {
    for (mode, name) in [
        (MessageProcessingMode::PerMessage, "per-message"),
        (MessageProcessingMode::PerThread, "per-thread"),
        (MessageProcessingMode::PerLane, "per-lane"),
    ] {
        assert_eq!(mode.name(), name);
        assert_eq!(MessageProcessingMode::from_name(name), Some(mode));
    }
    assert_eq!(MessageProcessingMode::from_name("per-user"), None);
    assert_eq!(MessageProcessingMode::from_name(""), None);
}

#[test]
fn buffer_keys() {
    let thread = MessageProcessingMode::PerThread;
    let lane = MessageProcessingMode::PerLane;
    assert_eq!(MessageProcessingMode::PerMessage.buffer_key("t", "s"), None);
    assert_eq!(thread.buffer_key("t", "s"), Some("t".to_string()));
    assert_eq!(thread.buffer_key("t", "other"), Some("t".to_string()));
    assert_eq!(lane.buffer_key("t1", "alice"), Some("2:t1alice".to_string()));
    assert_ne!(lane.buffer_key("t1", "alice"), lane.buffer_key("t1", "bob"));
    assert_ne!(lane.buffer_key("t1", "x"), lane.buffer_key("t", "1x"));
    assert_ne!(lane.buffer_key("1:", "x"), lane.buffer_key("1", ":x"));
}

#[test]
fn accept_follows_the_mode() {
    let mut d = Dispatcher::new(Arc::new(()), 4);
    let mut accept = |mode: MessageProcessingMode, thread: &str, sender: &str| {
        d.accept(mode, thread.into(), sender, channel_ref("C1"), (), make("m"), false)
    };
    match accept(MessageProcessingMode::PerMessage, "t", "alice") {
        Accepted::Alone(batch) => assert_eq!(prompts(&batch), vec!["m"]),
        Accepted::Buffered(_) => panic!("nothing is buffered per message"),
    }
    let lane = MessageProcessingMode::PerLane;
    let Accepted::Buffered(alice) = accept(lane, "t", "alice") else {
        panic!("expected a buffer");
    };
    let Accepted::Buffered(bob) = accept(lane, "t", "bob") else {
        panic!("expected a buffer");
    };
    let Accepted::Buffered(again) = accept(lane, "t", "alice") else {
        panic!("expected a buffer");
    };
    assert_eq!(alice.consumer.as_ref().unwrap().thread_key, "t");
    assert_eq!(bob.consumer.as_ref().unwrap().thread_key, "t");
    assert!(again.consumer.is_none());
    assert!(!alice.tx.same_channel(&bob.tx));
    assert!(alice.tx.same_channel(&again.tx));

    let thread = MessageProcessingMode::PerThread;
    let Accepted::Buffered(first) = accept(thread, "u", "alice") else {
        panic!("expected a buffer");
    };
    let Accepted::Buffered(second) = accept(thread, "u", "bob") else {
        panic!("expected a buffer");
    };
    assert!(first.tx.same_channel(&second.tx));
}

#[test]
fn clones_are_equal_field_by_field() {
    let mut m = make("p");
    m.extra_blocks.push(ContentBlock::Text { text: "x".into() });
    m.extra_blocks.push(ContentBlock::Image { media_type: "image/png".into(), data: "AA".into() });
    let c = m.clone();
    assert_eq!(format!("{m:?}"), format!("{c:?}"));
    assert_eq!(m.arrived_at, c.arrived_at);
}
