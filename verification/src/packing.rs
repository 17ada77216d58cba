//! A batch as content blocks. Every message keeps its own sender context,
//! followed by its own attachments, so that who said what can be read off the
//! order of the blocks.

use vstd::prelude::*;

use crate::message::{block_views, BlockView, BufferedMessage, ContentBlock, MessageRef};

verus! {

/// The text block of one message: its sender context, then its prompt.
pub open spec fn event_text(sender_json: Seq<char>, prompt: Seq<char>) -> Seq<char> {
    "<sender_context>\n"@ + sender_json + "\n</sender_context>\n\n"@ + prompt
}

/// The blocks of one message: its text block, then its attachments.
pub open spec fn packed_event(
    sender_json: Seq<char>,
    prompt: Seq<char>,
    extra_blocks: Seq<BlockView>,
) -> Seq<BlockView> {
    seq![BlockView::Text { text: event_text(sender_json, prompt) }] + extra_blocks
}

/// The blocks of one buffered message.
pub open spec fn packed_message(m: BufferedMessage) -> Seq<BlockView> {
    packed_event(m.sender_json@, m.prompt@, block_views(m.extra_blocks@))
}

/// The blocks of a batch: those of its messages, one message after the other.
pub open spec fn packed_batch(batch: Seq<BufferedMessage>) -> Seq<BlockView>
    decreases batch.len(),
{
    if batch.len() == 0 {
        Seq::empty()
    } else {
        packed_batch(batch.drop_last()) + packed_message(batch.last())
    }
}

/// Packs one message: a text block that holds the sender context and the
/// prompt, then the attachments. An empty prompt does not suppress the block.
pub fn pack_arrival_event(
    sender_json: &str,
    prompt: &str,
    extra_blocks: Vec<ContentBlock>,
) -> (blocks: Vec<ContentBlock>)
    ensures
        block_views(blocks@) == packed_event(sender_json@, prompt@, block_views(extra_blocks@)),
        blocks@.skip(1) == extra_blocks@,
        blocks@.len() == 1 + extra_blocks@.len(),
        blocks@[0] matches ContentBlock::Text { text } && text@ == "<sender_context>\n"@
            + sender_json@ + "\n</sender_context>\n\n"@ + prompt@,
{
    let mut text = String::new();
    text.append("<sender_context>\n");
    text.append(sender_json);
    text.append("\n</sender_context>\n\n");
    text.append(prompt);
    let mut blocks: Vec<ContentBlock> = Vec::new();
    blocks.push(ContentBlock::Text { text });
    let mut extra_blocks = extra_blocks;
    blocks.append(&mut extra_blocks);
    assert(text@ =~= event_text(sender_json@, prompt@));
    blocks
}

/// What a batch is dispatched as: its content, and the message that reactions
/// are anchored to.
pub struct PackedTurn {
    pub content_blocks: Vec<ContentBlock>,
    pub trigger_msg: MessageRef,
}

/// Packs a batch into the content of one turn, anchored to its trailing message.
pub fn pack_batch(batch: Vec<BufferedMessage>) -> (turn: PackedTurn)
    requires
        batch@.len() > 0,
    ensures
        block_views(turn.content_blocks@) == packed_batch(batch@),
        turn.trigger_msg == batch@.last().trigger_msg,
{
    let trigger_msg = batch[batch.len() - 1].trigger_msg.clone();
    let ghost messages = batch@;
    let mut content_blocks: Vec<ContentBlock> = Vec::new();
    for m in it: batch
        invariant
            it.seq() == messages,
            block_views(content_blocks@) == packed_batch(messages.take(it.index() as int)),
    {
        let ghost before = content_blocks@;
        let mut blocks = pack_arrival_event(
            m.sender_json.as_str(),
            m.prompt.as_str(),
            m.extra_blocks,
        );
        let ghost more = blocks@;
        content_blocks.append(&mut blocks);
        proof {
            let longer = messages.take(it.index() as int + 1);
            assert(longer.drop_last() =~= messages.take(it.index() as int));
            assert(block_views(before + more) =~= block_views(before) + block_views(more));
        }
    }
    assert(messages.take(messages.len() as int) =~= messages);
    PackedTurn { content_blocks, trigger_msg }
}

/// Packing two batches one after the other packs their concatenation: nothing is
/// put between messages.
pub proof fn law_packing_concatenates(a: Seq<BufferedMessage>, b: Seq<BufferedMessage>)
    ensures
        packed_batch(a + b) == packed_batch(a) + packed_batch(b),
    decreases b.len(),
{
    if b.len() == 0 {
        assert(a + b =~= a);
    } else {
        assert((a + b).drop_last() =~= a + b.drop_last());
        law_packing_concatenates(a, b.drop_last());
        assert(packed_batch(a + b) =~= packed_batch(a) + packed_batch(b));
    }
}

/// Who said what can be read off the order of the blocks: behind the blocks of
/// the messages before it come a message's sender context with its prompt, and
/// right behind that its own attachments.
pub proof fn law_attribution_by_adjacency(batch: Seq<BufferedMessage>, i: int)
    requires
        0 <= i < batch.len(),
    ensures
        ({
            let from = packed_batch(batch.take(i)).len() as int;
            let m = batch[i];
            let extras = block_views(m.extra_blocks@);
            &&& from + 1 + extras.len() <= packed_batch(batch).len()
            &&& packed_batch(batch)[from] == (BlockView::Text {
                text: "<sender_context>\n"@ + m.sender_json@ + "\n</sender_context>\n\n"@
                    + m.prompt@,
            })
            &&& packed_batch(batch).subrange(from + 1, from + 1 + extras.len()) == extras
            &&& packed_batch(batch.take(i + 1)).len() == from + 1 + extras.len()
        }),
{
    let front = batch.take(i);
    let upto = batch.take(i + 1);
    let rest = batch.skip(i + 1);
    assert(upto.drop_last() =~= front);
    assert(upto + rest =~= batch);
    law_packing_concatenates(upto, rest);
    let from = packed_batch(front).len() as int;
    let extras = block_views(batch[i].extra_blocks@);
    assert(packed_batch(batch).subrange(from + 1, from + 1 + extras.len()) =~= extras);
}

/// The text block of a message is the literal opening of a sender context, the
/// whole sender context, the literal closing, and the whole prompt.
pub proof fn law_event_text_whole(sender_json: Seq<char>, prompt: Seq<char>)
    ensures
        ({
            let text = event_text(sender_json, prompt);
            let opening = "<sender_context>\n"@;
            let closing = "\n</sender_context>\n\n"@;
            let from = opening.len() as int;
            let to = from + sender_json.len();
            &&& text.len() == opening.len() + sender_json.len() + closing.len() + prompt.len()
            &&& text.take(from) == opening
            &&& text.subrange(from, to) == sender_json
            &&& text.subrange(to, to + closing.len()) == closing
            &&& text.skip(to + closing.len()) == prompt
        }),
{
    let text = event_text(sender_json, prompt);
    let opening = "<sender_context>\n"@;
    let closing = "\n</sender_context>\n\n"@;
    let from = opening.len() as int;
    let to = from + sender_json.len();
    assert(text.take(from) =~= opening);
    assert(text.subrange(from, to) =~= sender_json);
    assert(text.subrange(to, to + closing.len()) =~= closing);
    assert(text.skip(to + closing.len()) =~= prompt);
}

/// A message is packed into one text block, which holds its whole sender context
/// and its whole prompt between fixed tags, and then all its attachments, as they
/// are and in order.
pub proof fn law_message_packed_whole(m: BufferedMessage)
    ensures
        ({
            let blocks = packed_batch(seq![m]);
            &&& blocks.len() == 1 + m.extra_blocks@.len()
            &&& blocks[0] == (BlockView::Text {
                text: "<sender_context>\n"@ + m.sender_json@ + "\n</sender_context>\n\n"@
                    + m.prompt@,
            })
            &&& forall|k: int|
                0 <= k < m.extra_blocks@.len() ==> blocks[1 + k] == match #[trigger] m.extra_blocks@[k] {
                    ContentBlock::Text { text } => BlockView::Text { text: text@ },
                    ContentBlock::Image { media_type, data } => BlockView::Image {
                        media_type: media_type@,
                        data: data@,
                    },
                }
        }),
        packed_batch(Seq::<BufferedMessage>::empty()).len() == 0,
{
    reveal_with_fuel(packed_batch, 2);
    assert(seq![m].drop_last() =~= Seq::<BufferedMessage>::empty());
    assert(packed_batch(seq![m]) =~= packed_message(m));
}

} // verus!
