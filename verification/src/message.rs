//! Messages, their attachments and where they came from.

use std::time::Instant;

use vstd::prelude::*;

verus! {

/// `std::time::Instant`, an opaque reading of a monotonic clock. Messages carry
/// one along; nothing in the library looks inside it.
#[verifier::external_type_specification]
#[verifier::external_body]
pub struct ExInstant(Instant);

/// One block of the content of a turn.
#[derive(Debug)]
pub enum ContentBlock {
    /// Plain text.
    Text { text: String },
    /// An image: its media type, and its bytes in base64.
    Image { media_type: String, data: String },
}

/// A content block with its strings taken by their characters.
pub enum BlockView {
    Text { text: Seq<char> },
    Image { media_type: Seq<char>, data: Seq<char> },
}

impl View for ContentBlock {
    type V = BlockView;

    open spec fn view(&self) -> BlockView {
        match *self {
            ContentBlock::Text { text } => BlockView::Text { text: text@ },
            ContentBlock::Image { media_type, data } => BlockView::Image {
                media_type: media_type@,
                data: data@,
            },
        }
    }
}

/// The views of a sequence of blocks.
pub open spec fn block_views(blocks: Seq<ContentBlock>) -> Seq<BlockView> {
    blocks.map_values(|b: ContentBlock| b@)
}

/// A channel or thread on a chat platform.
#[derive(Debug)]
pub struct ChannelRef {
    pub platform: String,
    pub channel_id: String,
    pub thread_id: Option<String>,
    pub parent_id: Option<String>,
}

/// One message on a chat platform.
#[derive(Debug)]
pub struct MessageRef {
    pub channel: ChannelRef,
    pub message_id: String,
}

impl Clone for ContentBlock {
    fn clone(&self) -> (r: Self)
        ensures
            r == *self,
    {
        match self {
            ContentBlock::Text { text } => ContentBlock::Text { text: text.clone() },
            ContentBlock::Image { media_type, data } => ContentBlock::Image {
                media_type: media_type.clone(),
                data: data.clone(),
            },
        }
    }
}

fn clone_opt(s: &Option<String>) -> (r: Option<String>)
    ensures
        r == *s,
{
    match s {
        Some(s) => Some(s.clone()),
        None => None,
    }
}

impl Clone for ChannelRef {
    fn clone(&self) -> (r: Self)
        ensures
            r == *self,
    {
        ChannelRef {
            platform: self.platform.clone(),
            channel_id: self.channel_id.clone(),
            thread_id: clone_opt(&self.thread_id),
            parent_id: clone_opt(&self.parent_id),
        }
    }
}

impl Clone for MessageRef {
    fn clone(&self) -> (r: Self)
        ensures
            r == *self,
    {
        MessageRef { channel: self.channel.clone(), message_id: self.message_id.clone() }
    }
}

/// One queued user message awaiting dispatch.
#[derive(Debug)]
pub struct BufferedMessage {
    /// The user's text, already pre-processed by the adapter: mentions
    /// stripped, voice transcribed, and so on.
    pub prompt: String,
    /// Attachments carried alongside the prompt.
    pub extra_blocks: Vec<ContentBlock>,
    /// The serialized sender context of this message.
    pub sender_json: String,
    /// The message that a reaction is anchored to. Of a batch, only the
    /// trailing message's reference is used, so that the reaction lands on what
    /// the user typed last.
    pub trigger_msg: MessageRef,
    /// When the message was enqueued. The channel already keeps arrival order,
    /// so nothing depends on it.
    pub arrived_at: Instant,
    /// The sender's display name, which labels the message in a merged prompt.
    pub sender_name: String,
}

fn clone_blocks(blocks: &Vec<ContentBlock>) -> (r: Vec<ContentBlock>)
    ensures
        r@ == blocks@,
{
    let mut r: Vec<ContentBlock> = Vec::new();
    for i in 0..blocks.len()
        invariant
            r@ == blocks@.take(i as int),
    {
        r.push(blocks[i].clone());
    }
    r
}

impl Clone for BufferedMessage {
    fn clone(&self) -> (r: Self)
        ensures
            r.prompt == self.prompt,
            r.extra_blocks@ == self.extra_blocks@,
            r.sender_json == self.sender_json,
            r.trigger_msg == self.trigger_msg,
            r.arrived_at == self.arrived_at,
            r.sender_name == self.sender_name,
    {
        BufferedMessage {
            prompt: self.prompt.clone(),
            extra_blocks: clone_blocks(&self.extra_blocks),
            sender_json: self.sender_json.clone(),
            trigger_msg: self.trigger_msg.clone(),
            arrived_at: self.arrived_at,
            sender_name: self.sender_name.clone(),
        }
    }
}

/// How many tokens `chars` characters of text are worth: one token for every
/// four characters, a remainder counting as one more.
pub open spec fn text_tokens(chars: nat) -> nat {
    (chars + 3) / 4
}

/// How many tokens an attachment is worth. Only text is estimated.
pub open spec fn block_tokens(block: BlockView) -> nat {
    match block {
        BlockView::Text { text } => text_tokens(text.len()),
        BlockView::Image { .. } => 0,
    }
}

/// How many tokens a sequence of attachments is worth.
pub open spec fn blocks_tokens(blocks: Seq<BlockView>) -> nat
    decreases blocks.len(),
{
    if blocks.len() == 0 {
        0
    } else {
        blocks_tokens(blocks.drop_last()) + block_tokens(blocks.last())
    }
}

/// The token estimate of a prompt with its attachments, cut off at the largest
/// `usize`.
pub open spec fn token_estimate(prompt: Seq<char>, extra_blocks: Seq<BlockView>) -> nat {
    let exact = text_tokens(prompt.len()) + blocks_tokens(extra_blocks);
    if exact > usize::MAX {
        usize::MAX as nat
    } else {
        exact
    }
}

impl BufferedMessage {
    /// The token estimate of the message.
    pub open spec fn tokens(self) -> nat {
        token_estimate(self.prompt@, block_views(self.extra_blocks@))
    }
}

fn estimate_text(text: &str) -> (r: usize)
    ensures
        r == text_tokens(text@.len()),
{
    let chars: usize = text.unicode_len();
    if chars % 4 == 0 {
        chars / 4
    } else {
        chars / 4 + 1
    }
}

/// Estimates how many tokens a prompt and its attachments are worth, at about
/// four characters a token.
pub fn estimate_tokens(prompt: &str, extra_blocks: &Vec<ContentBlock>) -> (r: usize)
    ensures
        r == token_estimate(prompt@, block_views(extra_blocks@)),
{
    let mut total: usize = estimate_text(prompt);
    let ghost views = block_views(extra_blocks@);
    for i in 0..extra_blocks.len()
        invariant
            views == block_views(extra_blocks@),
            total == token_estimate(prompt@, views.take(i as int)),
    {
        let more: usize = match &extra_blocks[i] {
            ContentBlock::Text { text } => estimate_text(text.as_str()),
            ContentBlock::Image { .. } => 0,
        };
        total = total.saturating_add(more);
        proof {
            let longer = views.take(i as int + 1);
            assert(longer.drop_last() =~= views.take(i as int));
            assert(longer.last() == extra_blocks@[i as int]@);
        }
    }
    assert(views.take(extra_blocks@.len() as int) =~= views);
    total
}

/// A block and its view agree in kind and, character for character, in every
/// string, block by block.
pub proof fn law_block_views(blocks: Seq<ContentBlock>, i: int)
    requires
        0 <= i < blocks.len(),
    ensures
        block_views(blocks).len() == blocks.len(),
        blocks[i] matches ContentBlock::Text { text } ==> block_views(blocks)[i] == (
        BlockView::Text { text: text@ }),
        blocks[i] matches ContentBlock::Image { media_type, data } ==> block_views(blocks)[i] == (
        BlockView::Image { media_type: media_type@, data: data@ }),
{
}

/// Text is worth a token for every four characters begun: four times its tokens
/// cover its characters, and one token less would not.
pub proof fn law_text_tokens(chars: nat)
    ensures
        chars <= 4 * text_tokens(chars) < chars + 4,
{
}

/// A message is worth what is estimated for its prompt and its attachments.
pub proof fn law_message_estimate(m: BufferedMessage)
    ensures
        m.tokens() == token_estimate(m.prompt@, block_views(m.extra_blocks@)),
        m.tokens() <= usize::MAX,
{
}

/// A message without attachments is worth a token for every four characters of
/// its prompt begun.
pub proof fn law_prompt_tokens(m: BufferedMessage)
    requires
        m.extra_blocks@.len() == 0,
        m.prompt@.len() <= usize::MAX,
    ensures
        m.prompt@.len() <= 4 * m.tokens() < m.prompt@.len() + 4,
{
    assert(block_views(m.extra_blocks@).len() == 0);
}

/// One more attachment makes a message worth more by a token for every four
/// characters of its text begun, up to the largest `usize`; an image adds nothing.
pub proof fn law_attachment_tokens(
    m: BufferedMessage,
    longer: BufferedMessage,
    block: ContentBlock,
)
    requires
        longer.prompt@ == m.prompt@,
        longer.extra_blocks@ == m.extra_blocks@.push(block),
    ensures
        match block {
            ContentBlock::Text { text } => {
                let more = longer.tokens() - m.tokens();
                &&& longer.tokens() < usize::MAX ==> text@.len() <= 4 * more
                &&& 4 * more < text@.len() + 4
            },
            ContentBlock::Image { .. } => longer.tokens() == m.tokens(),
        },
        longer.tokens() <= usize::MAX,
{
    let views = block_views(longer.extra_blocks@);
    assert(views.drop_last() =~= block_views(m.extra_blocks@));
    assert(views.last() == block@);
}

} // verus!
