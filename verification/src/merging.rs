//! A batch as one combined prompt.

use vstd::prelude::*;

use crate::message::{BufferedMessage, ContentBlock, MessageRef};
use crate::text::{decimal, push_decimal};

verus! {

/// What a character becomes inside an XML attribute.
pub open spec fn escaped_char(c: char) -> Seq<char> {
    if c == '&' {
        "&amp;"@
    } else if c == '<' {
        "&lt;"@
    } else if c == '>' {
        "&gt;"@
    } else if c == '"' {
        "&quot;"@
    } else {
        seq![c]
    }
}

/// What a text becomes inside an XML attribute.
pub open spec fn escaped(s: Seq<char>) -> Seq<char>
    decreases s.len(),
{
    if s.len() == 0 {
        Seq::empty()
    } else {
        escaped(s.drop_last()) + escaped_char(s.last())
    }
}

/// Minimal XML attribute escape: sender names can contain `"`, `<`, `>`, `&`.
pub fn xml_escape(s: &str) -> (r: String)
    ensures
        r@ == escaped(s@),
{
    let mut r = String::new();
    for c in it: s.chars()
        invariant
            it.seq() == s@,
            r@ == escaped(s@.take(it.index() as int)),
    {
        assert(s@.take(it.index() as int + 1).drop_last() =~= s@.take(it.index() as int));
        if c == '&' {
            r.append("&amp;");
        } else if c == '<' {
            r.append("&lt;");
        } else if c == '>' {
            r.append("&gt;");
        } else if c == '"' {
            r.append("&quot;");
        } else {
            r.push(c);
        }
    }
    assert(s@.take(s@.len() as int) =~= s@);
    r
}

/// The line that opens a merged prompt of `n` messages.
pub open spec fn banner(n: nat) -> Seq<char> {
    "[Batched: "@ + decimal(n)
        + " messages received during the previous turn — handle as one logical unit]\n\n"@
}

/// One message inside a merged prompt: its position, its sender's name and its
/// text.
pub open spec fn merged_entry(index: nat, from: Seq<char>, body: Seq<char>) -> Seq<char> {
    "<message index=\""@ + decimal(index) + "\" from=\""@ + escaped(from) + "\">\n"@ + body
        + "\n</message>\n\n"@
}

/// The messages of a batch inside a merged prompt, numbered from one.
pub open spec fn merged_entries(batch: Seq<BufferedMessage>) -> Seq<char>
    decreases batch.len(),
{
    if batch.len() == 0 {
        Seq::empty()
    } else {
        merged_entries(batch.drop_last()) + merged_entry(
            batch.len(),
            batch.last().sender_name@,
            batch.last().prompt@,
        )
    }
}

/// The prompt of a batch: that of the message, if it is alone, else a banner and
/// one entry for each message.
pub open spec fn merged_prompt(batch: Seq<BufferedMessage>) -> Seq<char> {
    if batch.len() == 1 {
        batch[0].prompt@
    } else {
        banner(batch.len()) + merged_entries(batch)
    }
}

/// The attachments of a batch, in arrival order.
pub open spec fn merged_extras(batch: Seq<BufferedMessage>) -> Seq<ContentBlock>
    decreases batch.len(),
{
    if batch.len() == 0 {
        Seq::empty()
    } else {
        merged_extras(batch.drop_last()) + batch.last().extra_blocks@
    }
}

/// Merges a batch into a prompt, the sender context of its leading message, the
/// message that reactions are anchored to, and the attachments.
///
/// A single message is passed on verbatim. The anchor is the trailing message.
pub fn merge_batch(batch: Vec<BufferedMessage>) -> (merged: (
    String,
    String,
    MessageRef,
    Vec<ContentBlock>,
))
    requires
        batch@.len() > 0,
    ensures
        merged.0@ == merged_prompt(batch@),
        merged.1 == batch@[0].sender_json,
        merged.2 == batch@.last().trigger_msg,
        merged.3@ == merged_extras(batch@),
        batch@.len() == 1 ==> merged.0 == batch@[0].prompt && merged.3 == batch@[0].extra_blocks,
{
    let mut batch = batch;
    let n: usize = batch.len();
    let ghost messages = batch@;
    if n == 1 {
        let m = batch.pop().unwrap();
        proof {
            assert(messages =~= seq![m]);
            law_single_message_verbatim(m);
        }
        return (m.prompt, m.sender_json, m.trigger_msg, m.extra_blocks);
    }
    let lead_sender_json = batch[0].sender_json.clone();
    let trailing_trigger = batch[n - 1].trigger_msg.clone();
    let mut combined = String::new();
    combined.append("[Batched: ");
    push_decimal(&mut combined, n);
    combined.append(
        " messages received during the previous turn — handle as one logical unit]\n\n",
    );
    let mut extras: Vec<ContentBlock> = Vec::new();
    let mut index: usize = 0;
    for m in it: batch
        invariant
            it.seq() == messages,
            messages.len() == n,
            index == it.index(),
            combined@ == banner(n as nat) + merged_entries(messages.take(index as int)),
            extras@ == merged_extras(messages.take(index as int)),
    {
        let ghost before = combined@;
        let from = xml_escape(m.sender_name.as_str());
        let mut extra_blocks = m.extra_blocks;
        index = index + 1;
        combined.append("<message index=\"");
        push_decimal(&mut combined, index);
        combined.append("\" from=\"");
        combined.append(from.as_str());
        combined.append("\">\n");
        combined.append(m.prompt.as_str());
        combined.append("\n</message>\n\n");
        extras.append(&mut extra_blocks);
        proof {
            let longer = messages.take(index as int);
            assert(longer.drop_last() =~= messages.take(index - 1));
            assert(combined@ =~= before + merged_entry(index as nat, m.sender_name@, m.prompt@));
        }
    }
    assert(messages.take(n as int) =~= messages);
    (combined, lead_sender_json, trailing_trigger, extras)
}

/// `s` with every `from` replaced by `to`.
pub open spec fn replaced(s: Seq<char>, from: char, to: Seq<char>) -> Seq<char>
    decreases s.len(),
{
    if s.len() == 0 {
        Seq::empty()
    } else {
        replaced(s.drop_last(), from, to) + if s.last() == from {
            to
        } else {
            seq![s.last()]
        }
    }
}

proof fn lemma_replaced_concat(a: Seq<char>, b: Seq<char>, from: char, to: Seq<char>)
    ensures
        replaced(a + b, from, to) == replaced(a, from, to) + replaced(b, from, to),
    decreases b.len(),
{
    if b.len() == 0 {
        assert(a + b =~= a);
    } else {
        assert((a + b).drop_last() =~= a + b.drop_last());
        lemma_replaced_concat(a, b.drop_last(), from, to);
        assert(replaced(a + b, from, to) =~= replaced(a, from, to) + replaced(b, from, to));
    }
}

proof fn lemma_replaced_absent(s: Seq<char>, from: char, to: Seq<char>)
    requires
        !s.contains(from),
    ensures
        replaced(s, from, to) == s,
    decreases s.len(),
{
    if s.len() > 0 {
        assert(s.contains(s.last()));
        assert forall|c: char| s.drop_last().contains(c) implies s.contains(c) by {
            let i = choose|i: int| 0 <= i < s.drop_last().len() && s.drop_last()[i] == c;
            assert(s[i] == c);
        }
        lemma_replaced_absent(s.drop_last(), from, to);
        assert(replaced(s, from, to) =~= s);
    }
}

proof fn lemma_replaced_one(c: char, from: char, to: Seq<char>)
    ensures
        replaced(seq![c], from, to) == if c == from {
            to
        } else {
            seq![c]
        },
{
    reveal_with_fuel(replaced, 2);
    assert(seq![c].drop_last() =~= Seq::<char>::empty());
    assert(replaced(seq![c], from, to) =~= if c == from {
        to
    } else {
        seq![c]
    });
}

proof fn lemma_entities()
    ensures
        "&amp;"@ == seq!['&', 'a', 'm', 'p', ';'],
        "&lt;"@ == seq!['&', 'l', 't', ';'],
        "&gt;"@ == seq!['&', 'g', 't', ';'],
        "&quot;"@ == seq!['&', 'q', 'u', 'o', 't', ';'],
{
    reveal_strlit("&amp;");
    reveal_strlit("&lt;");
    reveal_strlit("&gt;");
    reveal_strlit("&quot;");
}

/// The four replacements one after the other.
pub open spec fn replaced_in_turn(s: Seq<char>) -> Seq<char> {
    replaced(
        replaced(replaced(replaced(s, '&', "&amp;"@), '<', "&lt;"@), '>', "&gt;"@),
        '"',
        "&quot;"@,
    )
}

/// Escaping is replacing `&`, then `<`, then `>`, then `"` by their entities.
pub proof fn law_escape_in_four_steps(s: Seq<char>)
    ensures
        escaped(s) == replaced_in_turn(s),
    decreases s.len(),
{
    if s.len() > 0 {
        let front = s.drop_last();
        let c = s.last();
        law_escape_in_four_steps(front);
        assert(front + seq![c] =~= s);
        let a1 = replaced(front, '&', "&amp;"@);
        let b1 = replaced(seq![c], '&', "&amp;"@);
        lemma_replaced_concat(front, seq![c], '&', "&amp;"@);
        let a2 = replaced(a1, '<', "&lt;"@);
        let b2 = replaced(b1, '<', "&lt;"@);
        lemma_replaced_concat(a1, b1, '<', "&lt;"@);
        let a3 = replaced(a2, '>', "&gt;"@);
        let b3 = replaced(b2, '>', "&gt;"@);
        lemma_replaced_concat(a2, b2, '>', "&gt;"@);
        lemma_replaced_concat(a3, b3, '"', "&quot;"@);
        lemma_entities();
        lemma_replaced_one(c, '&', "&amp;"@);
        lemma_replaced_one(c, '<', "&lt;"@);
        lemma_replaced_one(c, '>', "&gt;"@);
        lemma_replaced_one(c, '"', "&quot;"@);
        if c == '&' {
            lemma_replaced_absent("&amp;"@, '<', "&lt;"@);
            lemma_replaced_absent("&amp;"@, '>', "&gt;"@);
            lemma_replaced_absent("&amp;"@, '"', "&quot;"@);
        } else if c == '<' {
            lemma_replaced_absent("&lt;"@, '>', "&gt;"@);
            lemma_replaced_absent("&lt;"@, '"', "&quot;"@);
        } else if c == '>' {
            lemma_replaced_absent("&gt;"@, '"', "&quot;"@);
        }
    }
}

/// An escaped text holds none of `<`, `>` and `"`, so it cannot end the attribute
/// that it stands in.
pub proof fn law_escaped_stays_in_attribute(s: Seq<char>, i: int)
    requires
        0 <= i < escaped(s).len(),
    ensures
        escaped(s)[i] != '<',
        escaped(s)[i] != '>',
        escaped(s)[i] != '"',
    decreases s.len(),
{
    if s.len() > 0 {
        let front = escaped(s.drop_last());
        lemma_entities();
        if i < front.len() {
            law_escaped_stays_in_attribute(s.drop_last(), i);
        } else {
            assert(escaped(s)[i] == escaped_char(s.last())[i - front.len()]);
        }
    }
}

/// A text without special characters is its own escape.
pub proof fn law_escape_leaves_plain_text(s: Seq<char>)
    requires
        forall|i: int|
            0 <= i < s.len() ==> #[trigger] s[i] != '&' && s[i] != '<' && s[i] != '>' && s[i]
                != '"',
    ensures
        escaped(s) == s,
    decreases s.len(),
{
    if s.len() > 0 {
        assert forall|i: int| 0 <= i < s.drop_last().len() implies #[trigger] s.drop_last()[i]
            != '&' && s.drop_last()[i] != '<' && s.drop_last()[i] != '>' && s.drop_last()[i]
            != '"' by {
            assert(s.drop_last()[i] == s[i]);
        }
        law_escape_leaves_plain_text(s.drop_last());
        assert(escaped(s) =~= s);
    }
}

proof fn lemma_escaped_from_front(s: Seq<char>)
    requires
        s.len() > 0,
    ensures
        escaped(s) == escaped_char(s[0]) + escaped(s.drop_first()),
    decreases s.len(),
{
    if s.len() == 1 {
        assert(s.drop_last() =~= Seq::<char>::empty());
        assert(s.drop_first() =~= Seq::<char>::empty());
        assert(escaped(s) =~= escaped_char(s[0]) + escaped(s.drop_first()));
    } else {
        lemma_escaped_from_front(s.drop_last());
        assert(s.drop_last().drop_first() =~= s.drop_first().drop_last());
        assert(escaped(s) =~= escaped_char(s[0]) + escaped(s.drop_first()));
    }
}

proof fn lemma_entity_starts(c: char)
    ensures
        escaped_char(c).len() >= 1,
        escaped_char(c)[0] == '&' ==> escaped_char(c).len() >= 2 && (c == '&' || c == '<' || c
            == '>' || c == '"'),
        escaped_char(c)[0] != '&' ==> escaped_char(c)[0] == c,
        c == '&' ==> escaped_char(c)[1] == 'a',
        c == '<' ==> escaped_char(c)[1] == 'l',
        c == '>' ==> escaped_char(c)[1] == 'g',
        c == '"' ==> escaped_char(c)[1] == 'q',
{
    lemma_entities();
}

proof fn lemma_entities_tell_apart(c: char, x: Seq<char>, d: char, y: Seq<char>)
    requires
        escaped_char(c) + x == escaped_char(d) + y,
    ensures
        c == d,
        x == y,
{
    let ec = escaped_char(c);
    let ed = escaped_char(d);
    lemma_entity_starts(c);
    lemma_entity_starts(d);
    assert((ec + x)[0] == ec[0]);
    assert((ed + y)[0] == ed[0]);
    if ec[0] == '&' {
        assert((ec + x)[1] == ec[1]);
        assert((ed + y)[1] == ed[1]);
    }
    assert(x =~= (ec + x).skip(ec.len() as int));
    assert(y =~= (ed + y).skip(ed.len() as int));
}

/// Two texts with the same escape are the same text.
pub proof fn law_escape_is_injective(a: Seq<char>, b: Seq<char>)
    requires
        escaped(a) == escaped(b),
    ensures
        a == b,
    decreases a.len(),
{
    if a.len() > 0 {
        lemma_escaped_from_front(a);
        lemma_entity_starts(a[0]);
        assert(escaped(a).len() > 0);
    }
    if b.len() > 0 {
        lemma_escaped_from_front(b);
        lemma_entity_starts(b[0]);
        assert(escaped(b).len() > 0);
    }
    if a.len() > 0 && b.len() > 0 {
        lemma_entities_tell_apart(
            a[0],
            escaped(a.drop_first()),
            b[0],
            escaped(b.drop_first()),
        );
        law_escape_is_injective(a.drop_first(), b.drop_first());
        assert(a =~= seq![a[0]] + a.drop_first());
        assert(b =~= seq![b[0]] + b.drop_first());
    } else {
        assert(a =~= b);
    }
}

proof fn lemma_entries_extend(batch: Seq<BufferedMessage>, i: int)
    requires
        0 <= i <= batch.len(),
    ensures
        merged_entries(batch.take(i)).is_prefix_of(merged_entries(batch)),
    decreases batch.len() - i,
{
    if i < batch.len() {
        assert(batch.take(i + 1).drop_last() =~= batch.take(i));
        lemma_entries_extend(batch, i + 1);
    } else {
        assert(batch.take(i) =~= batch);
    }
}

/// In a merged prompt every message stands with its position, its sender's name
/// and its text, behind the banner and the messages before it.
pub proof fn law_merged_prompt_keeps_messages(batch: Seq<BufferedMessage>, i: int)
    requires
        batch.len() > 1,
        0 <= i < batch.len(),
    ensures
        (banner(batch.len()) + merged_entries(batch.take(i)) + merged_entry(
            (i + 1) as nat,
            batch[i].sender_name@,
            batch[i].prompt@,
        )).is_prefix_of(merged_prompt(batch)),
{
    let upto = batch.take(i + 1);
    assert(upto.drop_last() =~= batch.take(i));
    lemma_entries_extend(batch, i + 1);
    let head = banner(batch.len());
    assert(head + merged_entries(batch.take(i)) + merged_entry(
        (i + 1) as nat,
        batch[i].sender_name@,
        batch[i].prompt@,
    ) =~= head + merged_entries(upto));
}

proof fn lemma_extras_extend(batch: Seq<BufferedMessage>, i: int)
    requires
        0 <= i <= batch.len(),
    ensures
        merged_extras(batch.take(i)).is_prefix_of(merged_extras(batch)),
    decreases batch.len() - i,
{
    if i < batch.len() {
        assert(batch.take(i + 1).drop_last() =~= batch.take(i));
        lemma_extras_extend(batch, i + 1);
    } else {
        assert(batch.take(i) =~= batch);
    }
}

/// The attachments of a merged batch are those of its messages, in arrival
/// order: behind the attachments of the messages before it come a message's own.
pub proof fn law_merged_extras_in_order(batch: Seq<BufferedMessage>, i: int)
    requires
        0 <= i < batch.len(),
    ensures
        (merged_extras(batch.take(i)) + batch[i].extra_blocks@).is_prefix_of(merged_extras(batch)),
{
    assert(batch.take(i + 1).drop_last() =~= batch.take(i));
    lemma_extras_extend(batch, i + 1);
}

/// A message alone is passed on verbatim.
pub proof fn law_single_message_verbatim(m: BufferedMessage)
    ensures
        merged_prompt(seq![m]) == m.prompt@,
        merged_extras(seq![m]) == m.extra_blocks@,
{
    reveal_with_fuel(merged_extras, 2);
    assert(seq![m].drop_last() =~= Seq::<BufferedMessage>::empty());
    assert(merged_extras(seq![m]) =~= m.extra_blocks@);
}

/// Escaping goes character by character: the four special characters become their
/// entities, every other character stays, and nothing is added between them.
pub proof fn law_escape_by_character(a: Seq<char>, b: Seq<char>, c: char)
    ensures
        escaped(Seq::<char>::empty()).len() == 0,
        escaped(a + b) == escaped(a) + escaped(b),
        escaped(seq!['&']) == "&amp;"@,
        escaped(seq!['<']) == "&lt;"@,
        escaped(seq!['>']) == "&gt;"@,
        escaped(seq!['"']) == "&quot;"@,
        c != '&' && c != '<' && c != '>' && c != '"' ==> escaped(seq![c]) == seq![c],
    decreases b.len(),
{
    if b.len() == 0 {
        assert(a + b =~= a);
        assert(escaped(a + b) =~= escaped(a) + escaped(b));
    } else {
        assert((a + b).drop_last() =~= a + b.drop_last());
        law_escape_by_character(a, b.drop_last(), c);
        assert(escaped(a + b) =~= escaped(a) + escaped(b));
    }
    lemma_escaped_one('&');
    lemma_escaped_one('<');
    lemma_escaped_one('>');
    lemma_escaped_one('"');
    lemma_escaped_one(c);
}

proof fn lemma_escaped_one(c: char)
    ensures
        escaped(seq![c]) == escaped_char(c),
{
    lemma_escaped_from_front(seq![c]);
    assert(seq![c].drop_first() =~= Seq::<char>::empty());
    assert(escaped(seq![c]) =~= escaped_char(c));
}

/// What stands in a merged prompt of more than one message before message `i`, and
/// the message itself: behind the entries of the messages before it come the tag
/// with its position and its sender's name, its whole prompt character for
/// character, and the closing tag. The first entry comes right behind the banner,
/// and nothing comes behind the last.
pub proof fn law_merged_prompt_verbatim(batch: Seq<BufferedMessage>, i: int)
    requires
        batch.len() > 1,
        0 <= i < batch.len(),
    ensures
        ({
            let prompt = merged_prompt(batch);
            let head = "[Batched: "@ + decimal(batch.len())
                + " messages received during the previous turn — handle as one logical unit]\n\n"@;
            let tag = "<message index=\""@ + decimal((i + 1) as nat) + "\" from=\""@ + escaped(
                batch[i].sender_name@,
            ) + "\">\n"@;
            let closing = "\n</message>\n\n"@;
            let at = head.len() + merged_entries(batch.take(i)).len();
            let body = at + tag.len();
            let end = body + batch[i].prompt@.len();
            let next = end + closing.len();
            &&& head.is_prefix_of(prompt)
            &&& merged_entries(batch.take(0)).len() == 0
            &&& next <= prompt.len()
            &&& prompt.subrange(at as int, body as int) == tag
            &&& prompt.subrange(body as int, end as int) == batch[i].prompt@
            &&& prompt.subrange(end as int, next as int) == closing
            &&& next == head.len() + merged_entries(batch.take(i + 1)).len()
            &&& i == batch.len() - 1 ==> next == prompt.len()
        }),
{
    let prompt = merged_prompt(batch);
    let head = "[Batched: "@ + decimal(batch.len())
        + " messages received during the previous turn — handle as one logical unit]\n\n"@;
    let tag = "<message index=\""@ + decimal((i + 1) as nat) + "\" from=\""@ + escaped(
        batch[i].sender_name@,
    ) + "\">\n"@;
    let closing = "\n</message>\n\n"@;
    let body = batch[i].prompt@;
    let before = merged_entries(batch.take(i));
    let upto = batch.take(i + 1);
    assert(upto.drop_last() =~= batch.take(i));
    assert(merged_entries(upto) =~= before + (tag + body + closing));
    lemma_entries_extend(batch, i + 1);
    let known = head + (before + (tag + body + closing));
    assert(known.is_prefix_of(prompt)) by {
        assert(known =~= head + merged_entries(upto));
    }
    let at = (head.len() + before.len()) as int;
    assert(known =~= prompt.take(known.len() as int));
    let from = at + tag.len();
    let end = from + body.len();
    let next = end + closing.len();
    assert(known.len() == next);
    assert(prompt.subrange(at, from) =~= known.subrange(at, from));
    assert(prompt.subrange(from, end) =~= known.subrange(from, end));
    assert(prompt.subrange(end, next) =~= known.subrange(end, next));
    assert(known.subrange(at, from) =~= tag);
    assert(known.subrange(from, end) =~= body);
    assert(known.subrange(end, next) =~= closing);
    assert(batch.take(0) =~= Seq::<BufferedMessage>::empty());
    if i == batch.len() - 1 {
        assert(upto =~= batch);
    }
}

/// The attachments of two batches one after the other are those of the first, then
/// those of the second; those of one message are its own.
pub proof fn law_merged_extras_concatenate(
    a: Seq<BufferedMessage>,
    b: Seq<BufferedMessage>,
    m: BufferedMessage,
)
    ensures
        merged_extras(Seq::<BufferedMessage>::empty()).len() == 0,
        merged_extras(a + b) == merged_extras(a) + merged_extras(b),
        merged_extras(seq![m]) == m.extra_blocks@,
    decreases b.len(),
{
    law_single_message_verbatim(m);
    if b.len() == 0 {
        assert(a + b =~= a);
        assert(merged_extras(a + b) =~= merged_extras(a) + merged_extras(b));
    } else {
        assert((a + b).drop_last() =~= a + b.drop_last());
        law_merged_extras_concatenate(a, b.drop_last(), m);
        assert(merged_extras(a + b) =~= merged_extras(a) + merged_extras(b));
    }
}

} // verus!
