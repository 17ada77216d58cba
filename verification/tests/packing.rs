use std::time::Instant;

use openab_dispatch::message::{BufferedMessage, ChannelRef, ContentBlock, MessageRef};
use openab_dispatch::packing::{pack_arrival_event, pack_batch};

fn dummy_channel() -> ChannelRef {
    ChannelRef {
        platform: "discord".into(),
        channel_id: "C1".into(),
        thread_id: None,
        parent_id: None,
    }
}

fn make(prompt: &str, sender_id: &str, ts: &str, mid: &str) -> BufferedMessage {
    let sender_json = format!(
        r#"{{"schema":"openab.sender.v1","sender_id":"{sender_id}","sender_name":"{sender_id}","display_name":"{sender_id}","channel":"discord","channel_id":"C1","is_bot":false,"timestamp":"{ts}"}}"#
    );
    BufferedMessage {
        prompt: prompt.into(),
        extra_blocks: vec![],
        sender_json,
        trigger_msg: MessageRef {
            channel: dummy_channel(),
            message_id: mid.into(),
        },
        arrived_at: Instant::now(),
        sender_name: sender_id.into(),
    }
}

fn texts(blocks: &[ContentBlock]) -> Vec<&str> {
    blocks
        .iter()
        .map(|b| match b {
            ContentBlock::Text { text } => text.as_str(),
            _ => panic!("expected text-only test fixtures"),
        })
        .collect()
}

/// One arrival event packs into one text block that carries its full sender
/// context and its prompt. No banner, no wrapper tag.
#[test]
fn pack_single_event_yields_one_text_block() {
    let m = make("hello", "alice", "2026-04-27T00:00:00Z", "1");
    let blocks = pack_arrival_event(&m.sender_json, &m.prompt, m.extra_blocks);
    assert_eq!(blocks.len(), 1);
    let ContentBlock::Text { text } = &blocks[0] else {
        panic!("expected Text block");
    };
    assert!(text.contains("<sender_context>"));
    assert!(text.contains(r#""sender_id":"alice""#));
    assert!(text.contains(r#""timestamp":"2026-04-27T00:00:00Z""#));
    assert!(text.ends_with("</sender_context>\n\nhello"));
}

/// Two events concatenated: each gets its own sender context; nothing stands
/// between them; attachments interleave in arrival order.
#[test]
fn concatenated_events_keep_per_event_sender_context() {
    let mut m1 = make("look at this", "alice", "2026-04-27T00:00:01Z", "1");
    m1.extra_blocks.push(ContentBlock::Text {
        text: "[ImageBlock-screenshot]".into(),
    });
    let m2 = make("listen to this", "alice", "2026-04-27T00:00:02Z", "2");

    let mut blocks: Vec<ContentBlock> = Vec::new();
    blocks.extend(pack_arrival_event(&m1.sender_json, &m1.prompt, m1.extra_blocks));
    blocks.extend(pack_arrival_event(&m2.sender_json, &m2.prompt, m2.extra_blocks));

    assert_eq!(blocks.len(), 3);
    let texts = texts(&blocks);

    assert!(texts[0].contains(r#""timestamp":"2026-04-27T00:00:01Z""#));
    assert!(texts[0].ends_with("</sender_context>\n\nlook at this"));
    assert_eq!(texts[1], "[ImageBlock-screenshot]");
    assert!(texts[2].contains(r#""timestamp":"2026-04-27T00:00:02Z""#));
    assert!(texts[2].ends_with("</sender_context>\n\nlisten to this"));
    assert!(!texts.iter().any(|t| t.contains("[Batched:")));
    assert!(!texts.iter().any(|t| t.contains("<message index=")));
}

/// Voice-only and attachment-only events still emit their own sender context,
/// with an empty prompt.
#[test]
fn empty_prompt_event_still_dispatches_sender_context() {
    let mut m = make("", "alice", "2026-04-27T00:00:03Z", "3");
    m.extra_blocks.push(ContentBlock::Text {
        text: "[Voice message transcript]: hi".into(),
    });
    let blocks = pack_arrival_event(&m.sender_json, &m.prompt, m.extra_blocks);
    assert_eq!(blocks.len(), 2);
    let ContentBlock::Text { text } = &blocks[0] else {
        panic!("expected Text block");
    };
    assert!(text.contains("<sender_context>"));
    assert!(text.ends_with("</sender_context>\n\n"));
}

#[test]
fn packed_text_is_exact() {
    let blocks = pack_arrival_event("{}", "hi", vec![]);
    assert_eq!(texts(&blocks), vec!["<sender_context>\n{}\n</sender_context>\n\nhi"]);
}

#[test]
fn packed_batch_keeps_attachments_next_to_their_message() {
    let mut m1 = make("one", "alice", "t1", "1");
    m1.sender_json = "{1}".into();
    m1.extra_blocks.push(ContentBlock::Text { text: "a1".into() });
    m1.extra_blocks.push(ContentBlock::Text { text: "a2".into() });
    let mut m2 = make("", "bob", "t2", "2");
    m2.sender_json = "{2}".into();
    m2.extra_blocks.push(ContentBlock::Text { text: "b1".into() });
    let mut m3 = make("three", "alice", "t3", "3");
    m3.sender_json = "{3}".into();

    let turn = pack_batch(vec![m1, m2, m3]);
    assert_eq!(turn.trigger_msg.message_id, "3");
    assert_eq!(
        texts(&turn.content_blocks),
        vec![
            "<sender_context>\n{1}\n</sender_context>\n\none",
            "a1",
            "a2",
            "<sender_context>\n{2}\n</sender_context>\n\n",
            "b1",
            "<sender_context>\n{3}\n</sender_context>\n\nthree",
        ]
    );
}

#[test]
fn images_pass_through_packing() {
    let blocks = pack_arrival_event(
        "{}",
        "see",
        vec![ContentBlock::Image { media_type: "image/png".into(), data: "AAAA".into() }],
    );
    assert_eq!(blocks.len(), 2);
    match &blocks[1] {
        ContentBlock::Image { media_type, data } => {
            assert_eq!(media_type, "image/png");
            assert_eq!(data, "AAAA");
        }
        ContentBlock::Text { .. } => panic!("expected an image"),
    }
}
