use std::time::Instant;

use openab_dispatch::merging::{merge_batch, xml_escape};
use openab_dispatch::message::{BufferedMessage, ChannelRef, ContentBlock, MessageRef};
use openab_dispatch::text::push_decimal;

fn dummy_channel() -> ChannelRef {
    ChannelRef {
        platform: "discord".into(),
        channel_id: "C1".into(),
        thread_id: None,
        parent_id: None,
    }
}

fn make(prompt: &str, sender: &str, mid: &str) -> BufferedMessage {
    BufferedMessage {
        prompt: prompt.into(),
        extra_blocks: vec![],
        sender_json: format!("{{\"sender\":\"{sender}\"}}"),
        trigger_msg: MessageRef {
            channel: dummy_channel(),
            message_id: mid.into(),
        },
        arrived_at: Instant::now(),
        sender_name: sender.into(),
    }
}

#[test]
fn merge_single_message_is_verbatim() {
    let m = make("hello world", "alice", "1");
    let (prompt, sender, trigger, extras) = merge_batch(vec![m.clone()]);
    assert_eq!(prompt, "hello world");
    assert_eq!(sender, m.sender_json);
    assert_eq!(trigger.message_id, "1");
    assert!(extras.is_empty());
}

#[test]
fn merge_multiple_messages_combines_prompts() {
    let batch = vec![
        make("can you check the build", "alice", "1"),
        make("actually wait", "alice", "2"),
        make("check the build *and* run e2e tests", "alice", "3"),
    ];
    let (prompt, sender, trigger, extras) = merge_batch(batch);
    assert!(prompt.contains("[Batched: 3 messages"));
    assert!(prompt.contains("can you check the build"));
    assert!(prompt.contains("actually wait"));
    assert!(prompt.contains("check the build *and* run e2e tests"));
    assert!(prompt.contains("index=\"1\""));
    assert!(prompt.contains("index=\"3\""));
    assert_eq!(trigger.message_id, "3");
    assert!(sender.contains("alice"));
    assert!(extras.is_empty());
}

#[test]
fn merge_preserves_extra_blocks_in_order() {
    let mut m1 = make("look at this", "alice", "1");
    m1.extra_blocks.push(ContentBlock::Text {
        text: "transcript-1".into(),
    });
    let mut m2 = make("and this", "alice", "2");
    m2.extra_blocks.push(ContentBlock::Text {
        text: "transcript-2".into(),
    });
    let (_p, _s, _t, extras) = merge_batch(vec![m1, m2]);
    assert_eq!(extras.len(), 2);
    match (&extras[0], &extras[1]) {
        (ContentBlock::Text { text: t1 }, ContentBlock::Text { text: t2 }) => {
            assert_eq!(t1, "transcript-1");
            assert_eq!(t2, "transcript-2");
        }
        _ => panic!("expected two Text blocks"),
    }
}

#[test]
fn xml_escape_replaces_special_chars() {
    assert_eq!(xml_escape("a & b"), "a &amp; b");
    assert_eq!(xml_escape("<x>"), "&lt;x&gt;");
    assert_eq!(xml_escape("say \"hi\""), "say &quot;hi&quot;");
}

#[test]
fn merged_prompt_is_exact() {
    let (prompt, sender, trigger, _) =
        merge_batch(vec![make("first", "Al \"A\" <x>", "1"), make("second", "bob", "2")]);
    assert_eq!(
        prompt,
        "[Batched: 2 messages received during the previous turn — handle as one logical unit]\n\n\
         <message index=\"1\" from=\"Al &quot;A&quot; &lt;x&gt;\">\nfirst\n</message>\n\n\
         <message index=\"2\" from=\"bob\">\nsecond\n</message>\n\n"
    );
    assert_eq!(sender, "{\"sender\":\"Al \"A\" <x>\"}");
    assert_eq!(trigger.message_id, "2");
}

#[test]
fn merge_numbers_more_than_nine_messages() {
    let batch: Vec<BufferedMessage> =
        (1..=12).map(|i| make(&format!("m{i}"), "alice", &format!("{i}"))).collect();
    let (prompt, _, trigger, _) = merge_batch(batch);
    assert!(prompt.starts_with("[Batched: 12 messages received"));
    assert!(prompt.contains("<message index=\"10\" from=\"alice\">\nm10\n</message>\n\n"));
    assert!(prompt.ends_with("<message index=\"12\" from=\"alice\">\nm12\n</message>\n\n"));
    assert_eq!(trigger.message_id, "12");
}

#[test]
fn merge_single_message_keeps_attachments() {
    let mut m = make("", "alice", "7");
    m.extra_blocks.push(ContentBlock::Text { text: "x".into() });
    let (prompt, _, trigger, extras) = merge_batch(vec![m]);
    assert_eq!(prompt, "");
    assert_eq!(trigger.message_id, "7");
    assert_eq!(extras.len(), 1);
}

#[test]
fn escape_equals_four_replacements() {
    for s in ["", "plain", "&amp;", "<<&>>\"\"", "déjà & vu — \"ok\""] {
        let in_turn = s
            .replace('&', "&amp;")
            .replace('<', "&lt;")
            .replace('>', "&gt;")
            .replace('"', "&quot;");
        assert_eq!(xml_escape(s), in_turn);
    }
    assert_eq!(xml_escape("&amp;"), "&amp;amp;");
    assert_ne!(xml_escape("<"), xml_escape("&lt;"));
}

#[test]
fn escaped_text_cannot_end_an_attribute() {
    let e = xml_escape("\"><script a=\"&");
    assert!(!e.contains('<') && !e.contains('>') && !e.contains('"'));
}

#[test]
fn decimals() {
    for (n, expected) in [
        (0usize, "0"),
        (9, "9"),
        (10, "10"),
        (105, "105"),
        (usize::MAX, "18446744073709551615"),
    ] {
        let mut s = String::from(">");
        push_decimal(&mut s, n);
        assert_eq!(s, format!(">{expected}"));
        assert_eq!(s[1..].parse::<usize>().unwrap(), n);
    }
}
