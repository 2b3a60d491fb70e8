//! What the prompt of a chat says: it can be read back.

use crate::error::ModelError;
use crate::tokenizer::{self, ChatMessage};
use vstd::prelude::*;

verus! {

/// Where the opening marker of a message stands in the prompt: behind the markers,
/// the roles and the contents of those before it.
pub open spec fn opening(messages: Seq<ChatMessage>, i: int) -> int
    decreases i,
{
    if i <= 0 {
        0
    } else {
        let before = messages[i - 1];
        opening(messages, i - 1) + 12 + before.role@.len() + 1 + before.content@.len() + 11
    }
}

/// Whether `part` stands in a text from `at` on.
pub open spec fn stands_at(whole: Seq<char>, part: Seq<char>, at: int) -> bool {
    &&& 0 <= at
    &&& at + part.len() <= whole.len()
    &&& whole.subrange(at, at + part.len()) == part
}

/// Whether a content keeps clear of the marker that ends one.
pub open spec fn unmarked(content: Seq<char>) -> bool {
    forall|at: int| !(#[trigger] stands_at(content, "<|im_end|>"@, at))
}

proof fn lemma_markers()
    ensures
        "<|im_start|>"@.len() == 12,
        "\n"@.len() == 1,
        "\n"@[0] == '\n',
        "<|im_end|>\n"@.len() == 11,
        "<|im_end|>"@.len() == 10,
        "<|im_end|>\n"@ == "<|im_end|>"@.push('\n'),
        "<|im_end|>"@[0] == '<',
        forall|i: int| 0 < i < 10 ==> #[trigger] "<|im_end|>"@[i] != '<',
        "<|im_start|>assistant\n"@.len() == 22,
        "<|im_start|>assistant\n"@ == "<|im_start|>"@ + "assistant"@ + "\n"@,
{
    reveal_strlit("<|im_start|>");
    reveal_strlit("\n");
    reveal_strlit("<|im_end|>\n");
    reveal_strlit("<|im_end|>");
    reveal_strlit("assistant");
    reveal_strlit("<|im_start|>assistant\n");
    assert("<|im_end|>\n"@ =~= "<|im_end|>"@.push('\n'));
    assert("<|im_start|>assistant\n"@ =~= "<|im_start|>"@ + "assistant"@ + "\n"@);
}

/// No role has a line break in it.
proof fn lemma_role(role: Seq<char>)
    requires
        tokenizer::supported_role(role),
    ensures
        0 < role.len() <= 9,
        forall|i: int| 0 <= i < role.len() ==> #[trigger] role[i] != '\n',
{
    reveal_strlit("system");
    reveal_strlit("user");
    reveal_strlit("assistant");
    reveal_strlit("tool");
}

proof fn lemma_texts_are_prefixes(messages: Seq<ChatMessage>, i: int)
    requires
        0 <= i <= messages.len(),
    ensures
        tokenizer::messages_text(messages.take(i)).len() == opening(messages, i),
        opening(messages, i) <= tokenizer::messages_text(messages).len(),
        tokenizer::messages_text(messages).take(opening(messages, i))
            == tokenizer::messages_text(messages.take(i)),
    decreases messages.len() - i, i,
{
    lemma_markers();
    lemma_opening(messages, i);
    if i < messages.len() {
        lemma_texts_are_prefixes(messages, i + 1);
        let shown = messages.take(i + 1);
        assert(shown.drop_last() =~= messages.take(i));
        let longer = tokenizer::messages_text(shown);
        assert(longer.take(opening(messages, i)) =~= tokenizer::messages_text(messages.take(i)));
        assert(tokenizer::messages_text(messages).take(opening(messages, i)) =~= longer.take(
            opening(messages, i),
        ));
    } else {
        assert(messages.take(i) =~= messages);
        assert(tokenizer::messages_text(messages).take(opening(messages, i))
            =~= tokenizer::messages_text(messages));
    }
}

proof fn lemma_opening(messages: Seq<ChatMessage>, i: int)
    requires
        0 <= i <= messages.len(),
    ensures
        tokenizer::messages_text(messages.take(i)).len() == opening(messages, i),
        opening(messages, i) >= 0,
    decreases i,
{
    lemma_markers();
    if i > 0 {
        lemma_opening(messages, i - 1);
        assert(messages.take(i).drop_last() =~= messages.take(i - 1));
        assert(messages.take(i).last() == messages[i - 1]);
    } else {
        assert(messages.take(0) =~= Seq::empty());
    }
}

/// The prompt of a chat can be read message by message, whatever the roles and
/// the contents are: behind the opening marker of a message stands its own role,
/// then a line break, its own content and the closing marker. Behind the last
/// message the answer of the assistant is opened, and nothing follows.
pub proof fn a_prompt_shows_every_message(messages: Seq<ChatMessage>, i: int)
    requires
        0 <= i < messages.len(),
    ensures
        ({
            let prompt = tokenizer::chat_text(messages);
            let role = messages[i].role@;
            let content = messages[i].content@;
            let start = opening(messages, i);
            &&& stands_at(prompt, "<|im_start|>"@, start)
            &&& stands_at(prompt, role, start + 12)
            &&& stands_at(prompt, "\n"@, start + 12 + role.len())
            &&& stands_at(prompt, content, start + 13 + role.len())
            &&& stands_at(prompt, "<|im_end|>\n"@, start + 13 + role.len() + content.len())
            &&& stands_at(prompt, "<|im_start|>assistant\n"@, opening(messages, messages.len() as int))
            &&& prompt.len() == opening(messages, messages.len() as int) + 22
        }),
{
    lemma_markers();
    let last = messages.len() as int;
    lemma_texts_are_prefixes(messages, i);
    lemma_texts_are_prefixes(messages, i + 1);
    lemma_texts_are_prefixes(messages, last);
    assert(messages.take(last) =~= messages);
    let all = tokenizer::messages_text(messages);
    let prompt = tokenizer::chat_text(messages);
    let shown = messages.take(i + 1);
    let role = messages[i].role@;
    let content = messages[i].content@;
    let start = opening(messages, i);
    assert(shown.drop_last() =~= messages.take(i));
    assert(shown.last() == messages[i]);
    let longer = tokenizer::messages_text(shown);
    let one = tokenizer::message_text(messages[i]);
    assert(longer == tokenizer::messages_text(messages.take(i)) + one);
    assert forall|p: int| 0 <= p < one.len() implies prompt[start + p] == #[trigger] one[p] by {
        assert(longer[start + p] == one[p]);
        assert(all.take(opening(messages, i + 1))[start + p] == longer[start + p]);
    }
    assert(one == "<|im_start|>"@ + role + "\n"@ + content + "<|im_end|>\n"@);
    assert forall|p: int, q: int| 0 <= p <= q <= one.len() implies #[trigger] prompt.subrange(
        start + p,
        start + q,
    ) == one.subrange(p, q) by {
        assert(prompt.subrange(start + p, start + q) =~= one.subrange(p, q));
    }
    let a = 12int;
    let b = 12 + role.len() as int;
    let c = b + 1;
    let d = c + content.len() as int;
    assert(one.subrange(0, a) =~= "<|im_start|>"@);
    assert(one.subrange(a, b) =~= role);
    assert(one.subrange(b, c) =~= "\n"@);
    assert(one.subrange(c, d) =~= content);
    assert(one.subrange(d, d + 11) =~= "<|im_end|>\n"@);
    assert(prompt.subrange(start + 0, start + a) == one.subrange(0, a));
    assert(prompt.subrange(start + a, start + b) == one.subrange(a, b));
    assert(prompt.subrange(start + b, start + c) == one.subrange(b, c));
    assert(prompt.subrange(start + c, start + d) == one.subrange(c, d));
    assert(prompt.subrange(start + d, start + (d + 11)) == one.subrange(d, d + 11));
    let end = opening(messages, last);
    assert(prompt.subrange(end, end + 22) =~= "<|im_start|>assistant\n"@);
}

proof fn lemma_first_message(messages: Seq<ChatMessage>)
    requires
        messages.len() > 0,
    ensures
        tokenizer::messages_text(messages) == tokenizer::message_text(messages[0])
            + tokenizer::messages_text(messages.drop_first()),
    decreases messages.len(),
{
    let rest = messages.drop_first();
    if rest.len() == 0 {
        assert(messages.drop_last() =~= Seq::empty());
        assert(tokenizer::messages_text(messages.drop_last()) =~= Seq::empty());
        assert(tokenizer::messages_text(rest) =~= Seq::empty());
        assert(messages.last() == messages[0]);
        assert(tokenizer::messages_text(messages) =~= tokenizer::message_text(messages[0])
            + tokenizer::messages_text(rest));
    } else {
        lemma_first_message(messages.drop_last());
        assert(messages.drop_last().drop_first() =~= rest.drop_last());
        assert(rest.last() == messages.last());
        assert(tokenizer::messages_text(messages) =~= tokenizer::message_text(messages[0])
            + tokenizer::messages_text(rest));
    }
}

/// Two messages whose prompts go on equally are the same message.
proof fn lemma_same_start(
    a: ChatMessage,
    b: ChatMessage,
    after_a: Seq<char>,
    after_b: Seq<char>,
)
    requires
        tokenizer::supported_role(a.role@),
        tokenizer::supported_role(b.role@),
        unmarked(a.content@),
        unmarked(b.content@),
        tokenizer::message_text(a) + after_a == tokenizer::message_text(b) + after_b,
        a.role@.len() <= b.role@.len(),
        a.role@.len() == b.role@.len() ==> a.content@.len() <= b.content@.len(),
    ensures
        a.role@ == b.role@,
        a.content@ == b.content@,
        after_a == after_b,
{
    lemma_markers();
    lemma_role(a.role@);
    lemma_role(b.role@);
    let left = tokenizer::message_text(a) + after_a;
    let right = tokenizer::message_text(b) + after_b;
    let n = a.role@.len() as int;
    assert(left[12 + n] == '\n');
    if n < b.role@.len() {
        assert(right[12 + n] == b.role@[n]);
        assert(false);
    }
    assert forall|i: int| 0 <= i < n implies a.role@[i] == b.role@[i] by {
        assert(left[12 + i] == a.role@[i]);
        assert(right[12 + i] == b.role@[i]);
    }
    assert(a.role@ =~= b.role@);
    let o = 13 + n;
    let c = a.content@.len() as int;
    let d = b.content@.len() as int;
    let marker = "<|im_end|>"@;
    assert forall|i: int| 0 <= i < 10 implies left[o + c + i] == #[trigger] marker[i] by {
        assert("<|im_end|>\n"@[i] == marker[i]);
    }
    assert forall|i: int| 0 <= i < 10 implies right[o + d + i] == #[trigger] marker[i] by {
        assert("<|im_end|>\n"@[i] == marker[i]);
    }
    assert forall|i: int| 0 <= i < d implies right[o + i] == #[trigger] b.content@[i] by {}
    if c < d {
        if d - c >= 10 {
            assert forall|i: int| 0 <= i < 10 implies b.content@.subrange(c, c + 10)[i]
                == marker[i] by {
                assert(right[o + (c + i)] == b.content@[c + i]);
                assert(left[o + c + i] == marker[i]);
            }
            assert(b.content@.subrange(c, c + 10) =~= marker);
            assert(stands_at(b.content@, marker, c));
        } else {
            let gap = d - c;
            assert(left[o + c + gap] == marker[gap]);
            assert(right[o + d + 0] == marker[0]);
        }
        assert(false);
    }
    assert forall|i: int| 0 <= i < c implies a.content@[i] == b.content@[i] by {
        assert(left[o + i] == a.content@[i]);
        assert(right[o + i] == b.content@[i]);
    }
    assert(a.content@ =~= b.content@);
    let end = o + c + 11;
    assert(after_a =~= left.skip(end));
    assert(after_b =~= right.skip(end));
}

/// Chats with different messages have different prompts: from a prompt whose
/// contents keep clear of the closing marker, every role and every content can be
/// told, and how many messages there are.
pub proof fn prompts_tell_chats_apart(a: Seq<ChatMessage>, b: Seq<ChatMessage>)
    requires
        forall|i: int|
            0 <= i < a.len() ==> tokenizer::supported_role((#[trigger] a[i]).role@) && unmarked(
                a[i].content@,
            ),
        forall|i: int|
            0 <= i < b.len() ==> tokenizer::supported_role((#[trigger] b[i]).role@) && unmarked(
                b[i].content@,
            ),
        tokenizer::chat_text(a) == tokenizer::chat_text(b),
    ensures
        a.len() == b.len(),
        forall|i: int| 0 <= i < a.len() ==> (#[trigger] a[i]).role@ == b[i].role@,
        forall|i: int| 0 <= i < a.len() ==> (#[trigger] a[i]).content@ == b[i].content@,
    decreases a.len(),
{
    lemma_markers();
    if a.len() > 0 {
        lemma_first_message(a);
    }
    if b.len() > 0 {
        lemma_first_message(b);
    }
    if a.len() > 0 && b.len() > 0 {
        let rest_a = a.drop_first();
        let rest_b = b.drop_first();
        let after_a = tokenizer::chat_text(rest_a);
        let after_b = tokenizer::chat_text(rest_b);
        assert(tokenizer::chat_text(a) =~= tokenizer::message_text(a[0]) + after_a);
        assert(tokenizer::chat_text(b) =~= tokenizer::message_text(b[0]) + after_b);
        if a[0].role@.len() < b[0].role@.len() || (a[0].role@.len() == b[0].role@.len()
            && a[0].content@.len() <= b[0].content@.len()) {
            lemma_same_start(a[0], b[0], after_a, after_b);
        } else {
            lemma_same_start(b[0], a[0], after_b, after_a);
        }
        assert forall|i: int| 0 <= i < rest_a.len() implies tokenizer::supported_role(
            (#[trigger] rest_a[i]).role@,
        ) && unmarked(rest_a[i].content@) by {
            assert(rest_a[i] == a[i + 1]);
        }
        assert forall|i: int| 0 <= i < rest_b.len() implies tokenizer::supported_role(
            (#[trigger] rest_b[i]).role@,
        ) && unmarked(rest_b[i].content@) by {
            assert(rest_b[i] == b[i + 1]);
        }
        prompts_tell_chats_apart(rest_a, rest_b);
        assert forall|i: int| 0 <= i < a.len() implies (#[trigger] a[i]).role@ == b[i].role@
            && a[i].content@ == b[i].content@ by {
            if i > 0 {
                assert(rest_a[i - 1] == a[i]);
                assert(rest_b[i - 1] == b[i]);
            }
        }
    } else if a.len() > 0 {
        assert(tokenizer::messages_text(b) =~= Seq::empty());
        assert(tokenizer::chat_text(a).len() > 22);
        assert(tokenizer::chat_text(b).len() == 22);
    } else if b.len() > 0 {
        assert(tokenizer::messages_text(a) =~= Seq::empty());
        assert(tokenizer::chat_text(b).len() > 22);
        assert(tokenizer::chat_text(a).len() == 22);
    }
}

/// Four roles may speak in a chat, and no other: a chat of such messages is rendered, one
/// without messages or with another role is refused.
pub proof fn only_four_roles_may_speak(messages: Seq<ChatMessage>)
    ensures
        messages.len() == 0 ==> tokenizer::chat_error(messages) == Some(ModelError::EmptyChat),
        messages.len() > 0 ==> {
            let known = forall|i: int|
                0 <= i < messages.len() ==> {
                    let role = (#[trigger] messages[i]).role@;
                    role == "system"@ || role == "user"@ || role == "assistant"@ || role == "tool"@
                };
            &&& known ==> tokenizer::chat_error(messages) is None
            &&& !known ==> tokenizer::chat_error(messages) == Some(ModelError::UnsupportedChatRole)
        },
{
}

} // verus!
