//! Request-surface feature extraction shared by hot-path prediction and telemetry.
use crate::request::{ContentPart, Message, MessageContent};
use crate::text::same_text;
use vstd::prelude::*;
use vstd::utf8::encode_utf8;

verus! {

/// Message-derived features that distinguish phases within a reused graph node.
#[derive(Debug)]
pub struct RequestMessageFeatures {
    /// Estimated tokens of all messages.
    pub prompt_tokens_estimate: u32,
    /// Whether any message says anything.
    pub has_prompt_content: bool,
    /// Number of messages.
    pub message_count: u32,
    /// Number of assistant messages.
    pub assistant_message_count: u32,
    /// Number of tool results.
    pub tool_message_count: u32,
    /// Estimated tokens of all tool results.
    pub tool_message_tokens_estimate: u32,
    /// Number of tool results at the end.
    pub trailing_tool_message_count: u32,
    /// Estimated tokens of the tool results at the end.
    pub trailing_tool_message_tokens_estimate: u32,
    /// Role of the last message, when there is one.
    pub last_message_role: Option<&'static str>,
}

/// Bytes of one part of a content.
pub open spec fn part_bytes(part: ContentPart) -> nat {
    match part {
        ContentPart::Text { text } => encode_utf8(text@).len(),
        ContentPart::ImageUrl { .. } => 0,
    }
}

/// Bytes of some parts.
pub open spec fn parts_bytes(parts: Seq<ContentPart>) -> nat
    decreases parts.len(),
{
    if parts.len() == 0 {
        0
    } else {
        parts_bytes(parts.drop_last()) + part_bytes(parts.last())
    }
}

/// Bytes of a content.
pub open spec fn content_bytes(content: MessageContent) -> nat {
    match content {
        MessageContent::Text(text) => encode_utf8(text@).len(),
        MessageContent::Parts(parts) => parts_bytes(parts@),
    }
}

/// Bytes of what a message says.
pub open spec fn message_bytes(message: Message) -> nat {
    match message {
        Message::System { content } => content_bytes(content),
        Message::User { content } => content_bytes(content),
        Message::Tool { content, .. } => content_bytes(content),
        Message::Assistant { content } => match content {
            Some(content) => content_bytes(content),
            None => 0,
        },
    }
}

/// Bytes of what some messages say.
pub open spec fn total_bytes(messages: Seq<Message>) -> nat
    decreases messages.len(),
{
    if messages.len() == 0 {
        0
    } else {
        total_bytes(messages.drop_last()) + message_bytes(messages.last())
    }
}

/// The tool results among messages, in order.
pub open spec fn tool_results(messages: Seq<Message>) -> Seq<Message>
    decreases messages.len(),
{
    if messages.len() == 0 {
        Seq::empty()
    } else if messages.last() is Tool {
        tool_results(messages.drop_last()).push(messages.last())
    } else {
        tool_results(messages.drop_last())
    }
}

/// The tool results at the end of messages.
pub open spec fn trailing_results(messages: Seq<Message>) -> Seq<Message>
    decreases messages.len(),
{
    if messages.len() > 0 && messages.last() is Tool {
        trailing_results(messages.drop_last()).push(messages.last())
    } else {
        Seq::empty()
    }
}

/// How many messages come from the assistant.
pub open spec fn assistant_turns(messages: Seq<Message>) -> nat
    decreases messages.len(),
{
    if messages.len() == 0 {
        0
    } else {
        assistant_turns(messages.drop_last()) + if messages.last() is Assistant {
            1nat
        } else {
            0nat
        }
    }
}

/// The role of a message, as text.
pub open spec fn role_name(message: Message) -> Seq<char> {
    match message {
        Message::System { .. } => "system"@,
        Message::User { .. } => "user"@,
        Message::Assistant { .. } => "assistant"@,
        Message::Tool { .. } => "tool"@,
    }
}

/// Estimated tokens of a number of bytes: a quarter, at least one, in 32 bits.
pub open spec fn tokens_at_least_one(bytes: nat) -> int {
    (if bytes / 4 == 0 {
        1int
    } else {
        (bytes / 4) as int
    }) % 0x1_0000_0000
}

/// Estimated tokens of a number of bytes, none of none.
pub open spec fn tokens_or_none(bytes: nat) -> int {
    if bytes == 0 {
        0
    } else {
        tokens_at_least_one(bytes)
    }
}

/// Whether `features` describe messages.
pub open spec fn describes(features: RequestMessageFeatures, messages: Seq<Message>) -> bool {
    &&& features.prompt_tokens_estimate == tokens_at_least_one(total_bytes(messages))
    &&& features.has_prompt_content == (total_bytes(messages) > 0)
    &&& features.message_count == messages.len() as int % 0x1_0000_0000
    &&& features.assistant_message_count == assistant_turns(messages)
    &&& features.tool_message_count == tool_results(messages).len()
    &&& features.tool_message_tokens_estimate == tokens_or_none(
        total_bytes(tool_results(messages)),
    )
    &&& features.trailing_tool_message_count == trailing_results(messages).len()
    &&& features.trailing_tool_message_tokens_estimate == tokens_or_none(
        total_bytes(trailing_results(messages)),
    )
    &&& match features.last_message_role {
        Some(role) => messages.len() > 0 && role@ == role_name(messages.last()),
        None => messages.len() == 0,
    }
}

impl RequestMessageFeatures {
    /// Whether the last message is a tool result.
    pub open spec fn ends_with_result(self) -> bool {
        self.last_message_role matches Some(role) && role@ == "tool"@
    }

    /// Tests whether the last message is a tool result.
    pub fn last_message_is_tool(&self) -> (r: bool)
        ensures
            r == self.ends_with_result(),
    {
        match self.last_message_role {
            Some(role) => same_text(role, "tool"),
            None => false,
        }
    }

    /// Returns the estimated tokens of all messages, when any says anything.
    pub fn prompt_tokens_estimate_nonzero(&self) -> (r: Option<u32>)
        ensures
            r == if self.has_prompt_content {
                Some(self.prompt_tokens_estimate)
            } else {
                None
            },
    {
        if self.has_prompt_content {
            Some(self.prompt_tokens_estimate)
        } else {
            None
        }
    }

    /// Returns how many tool results the request joins, when it joins any.
    pub fn tool_result_join_width(&self) -> (r: Option<u32>)
        ensures
            r == if self.ends_with_result() && self.trailing_tool_message_count > 0 {
                Some(self.trailing_tool_message_count)
            } else {
                None
            },
    {
        if self.last_message_is_tool() && self.trailing_tool_message_count > 0 {
            Some(self.trailing_tool_message_count)
        } else {
            None
        }
    }
}

/// Tool results take no more bytes than all messages.
proof fn lemma_result_bytes(messages: Seq<Message>)
    ensures
        total_bytes(tool_results(messages)) <= total_bytes(messages),
        total_bytes(trailing_results(messages)) <= total_bytes(messages),
        tool_results(messages).len() <= messages.len(),
        trailing_results(messages).len() <= messages.len(),
        assistant_turns(messages) <= messages.len(),
    decreases messages.len(),
{
    if messages.len() > 0 {
        let front = messages.drop_last();
        lemma_result_bytes(front);
        if messages.last() is Tool {
            let results = tool_results(front);
            let trailing = trailing_results(front);
            assert(results.push(messages.last()).drop_last() =~= results);
            assert(trailing.push(messages.last()).drop_last() =~= trailing);
        }
    }
}

/// A prefix takes no more bytes than the whole.
proof fn lemma_prefix_bytes(messages: Seq<Message>, i: int)
    requires
        0 <= i <= messages.len(),
    ensures
        total_bytes(messages.take(i)) <= total_bytes(messages),
    decreases messages.len() - i,
{
    if i < messages.len() {
        lemma_prefix_bytes(messages, i + 1);
        assert(messages.take(i + 1).drop_last() =~= messages.take(i));
    } else {
        assert(messages.take(i) =~= messages);
    }
}

proof fn lemma_prefix_counts(messages: Seq<Message>, i: int)
    requires
        0 <= i <= messages.len(),
    ensures
        assistant_turns(messages.take(i)) <= assistant_turns(messages),
        tool_results(messages.take(i)).len() <= tool_results(messages).len(),
    decreases messages.len() - i,
{
    if i < messages.len() {
        lemma_prefix_counts(messages, i + 1);
        assert(messages.take(i + 1).drop_last() =~= messages.take(i));
    } else {
        assert(messages.take(i) =~= messages);
    }
}

proof fn lemma_prefix_part_bytes(parts: Seq<ContentPart>, i: int)
    requires
        0 <= i <= parts.len(),
    ensures
        parts_bytes(parts.take(i)) <= parts_bytes(parts),
    decreases parts.len() - i,
{
    if i < parts.len() {
        lemma_prefix_part_bytes(parts, i + 1);
        assert(parts.take(i + 1).drop_last() =~= parts.take(i));
    } else {
        assert(parts.take(i) =~= parts);
    }
}

fn content_char_len(content: &MessageContent) -> (r: usize)
    requires
        content_bytes(*content) <= usize::MAX,
    ensures
        r == content_bytes(*content),
{
    match content {
        MessageContent::Text(text) => text.as_str().as_bytes().len(),
        MessageContent::Parts(parts) => {
            let mut total: usize = 0;
            let mut i: usize = 0;
            while i < parts.len()
                invariant
                    i <= parts.len(),
                    parts_bytes(parts@) <= usize::MAX,
                    total == parts_bytes(parts@.take(i as int)),
                decreases parts.len() - i,
            {
                proof {
                    lemma_prefix_part_bytes(parts@, i + 1);
                    assert(parts@.take(i + 1).drop_last() =~= parts@.take(i as int));
                    assert(parts@.take(i + 1).last() == parts@[i as int]);
                }
                let bytes: usize = match &parts[i] {
                    ContentPart::Text { text } => text.as_str().as_bytes().len(),
                    ContentPart::ImageUrl { .. } => 0,
                };
                total = total + bytes;
                i += 1;
            }
            proof {
                assert(parts@.take(parts.len() as int) =~= parts@);
            }
            total
        },
    }
}

fn message_char_len(message: &Message) -> (r: usize)
    requires
        message_bytes(*message) <= usize::MAX,
    ensures
        r == message_bytes(*message),
{
    match message {
        Message::System { content } => content_char_len(content),
        Message::User { content } => content_char_len(content),
        Message::Tool { content, .. } => content_char_len(content),
        Message::Assistant { content } => match content {
            Some(content) => content_char_len(content),
            None => 0,
        },
    }
}

fn message_role(message: &Message) -> (r: &'static str)
    ensures
        r@ == role_name(*message),
{
    match message {
        Message::System { .. } => "system",
        Message::User { .. } => "user",
        Message::Assistant { .. } => "assistant",
        Message::Tool { .. } => "tool",
    }
}

fn estimate_tokens_floor(chars: usize) -> (r: u32)
    ensures
        r == tokens_at_least_one(chars as nat),
{
    let quarter: u64 = chars as u64 / 4;
    let tokens: u64 = if quarter == 0 {
        1
    } else {
        quarter
    };
    (tokens % 0x1_0000_0000) as u32
}

fn estimate_tokens_optional(chars: usize) -> (r: u32)
    ensures
        r == tokens_or_none(chars as nat),
{
    if chars == 0 {
        0
    } else {
        estimate_tokens_floor(chars)
    }
}

/// Derive prompt-size and conversation-stage features from request messages.
pub fn extract_message_features(messages: &[Message]) -> (r: RequestMessageFeatures)
    requires
        assistant_turns(messages@) <= u32::MAX,
        tool_results(messages@).len() <= u32::MAX,
        total_bytes(messages@) <= usize::MAX,
    ensures
        describes(r, messages@),
{
    let mut prompt_chars: usize = 0;
    let mut tool_chars: usize = 0;
    let mut trailing_tool_chars: usize = 0;
    let mut assistant_message_count: u32 = 0;
    let mut tool_message_count: u32 = 0;
    let mut trailing_tool_message_count: u32 = 0;
    let mut last_message_role: Option<&'static str> = None;
    let mut i: usize = 0;
    while i < messages.len()
        invariant
            i <= messages@.len(),
            assistant_turns(messages@) <= u32::MAX,
            tool_results(messages@).len() <= u32::MAX,
            total_bytes(messages@) <= usize::MAX,
            prompt_chars == total_bytes(messages@.take(i as int)),
            tool_chars == total_bytes(tool_results(messages@.take(i as int))),
            trailing_tool_chars == total_bytes(trailing_results(messages@.take(i as int))),
            assistant_message_count == assistant_turns(messages@.take(i as int)),
            tool_message_count == tool_results(messages@.take(i as int)).len(),
            trailing_tool_message_count == trailing_results(messages@.take(i as int)).len(),
            match last_message_role {
                Some(role) => i > 0 && role@ == role_name(messages@[i - 1]),
                None => i == 0,
            },
        decreases messages@.len() - i,
    {
        let message = &messages[i];
        proof {
            let seen = messages@.take(i + 1);
            let before = messages@.take(i as int);
            assert(seen.drop_last() =~= before);
            assert(seen.last() == *message);
            lemma_prefix_bytes(messages@, i + 1);
            lemma_prefix_counts(messages@, i + 1);
            lemma_trailing_are_results(before);
            lemma_result_bytes(seen);
            lemma_result_bytes(before);
            if *message is Tool {
                assert(tool_results(seen).drop_last() =~= tool_results(before));
                assert(trailing_results(seen).drop_last() =~= trailing_results(before));
            }
        }
        last_message_role = Some(message_role(message));
        let message_chars: usize = message_char_len(message);
        prompt_chars = prompt_chars + message_chars;
        match message {
            Message::Assistant { .. } => {
                assistant_message_count = assistant_message_count + 1;
                trailing_tool_message_count = 0;
                trailing_tool_chars = 0;
            },
            Message::Tool { .. } => {
                tool_message_count = tool_message_count + 1;
                tool_chars = tool_chars + message_chars;
                trailing_tool_message_count = trailing_tool_message_count + 1;
                trailing_tool_chars = trailing_tool_chars + message_chars;
            },
            Message::System { .. } | Message::User { .. } => {
                trailing_tool_message_count = 0;
                trailing_tool_chars = 0;
            },
        }
        i += 1;
    }
    proof {
        assert(messages@.take(messages@.len() as int) =~= messages@);
    }
    RequestMessageFeatures {
        prompt_tokens_estimate: estimate_tokens_floor(prompt_chars),
        has_prompt_content: prompt_chars > 0,
        message_count: (messages.len() as u64 % 0x1_0000_0000) as u32,
        assistant_message_count,
        tool_message_count,
        tool_message_tokens_estimate: estimate_tokens_optional(tool_chars),
        trailing_tool_message_count,
        trailing_tool_message_tokens_estimate: estimate_tokens_optional(trailing_tool_chars),
        last_message_role,
    }
}

/// Of messages that end with a tool result, the join width is how many tool results stand at the end;
/// of others there is none.
#[verifier::spinoff_prover]
pub proof fn law_join_width_counts_trailing_results(
    features: RequestMessageFeatures,
    messages: Seq<Message>,
)
    requires
        describes(features, messages),
    ensures
        features.ends_with_result() <==> messages.len() > 0 && messages.last() is Tool,
        features.ends_with_result() <==> features.trailing_tool_message_count > 0,
        features.trailing_tool_message_count <= features.tool_message_count,
{
    lemma_trailing_are_results(messages);
    if messages.len() > 0 {
        lemma_role_names_apart(messages.last());
    }
}

/// Only a tool result has the role name of one.
#[verifier::spinoff_prover]
proof fn lemma_role_names_apart(message: Message)
    ensures
        role_name(message) == "tool"@ <==> message is Tool,
{
    reveal_strlit("tool");
    assert("tool"@.len() == 4 && "tool"@[0] == 't');
    match message {
        Message::System { .. } => {
            reveal_strlit("system");
            assert("system"@.len() == 6);
        },
        Message::User { .. } => {
            reveal_strlit("user");
            assert("user"@[0] == 'u');
        },
        Message::Assistant { .. } => {
            reveal_strlit("assistant");
            assert("assistant"@.len() == 9);
        },
        Message::Tool { .. } => {},
    }
}

proof fn lemma_trailing_are_results(messages: Seq<Message>)
    ensures
        trailing_results(messages).len() <= tool_results(messages).len(),
    decreases messages.len(),
{
    if messages.len() > 0 {
        lemma_trailing_are_results(messages.drop_last());
    }
}

/// Features count the messages that they describe, those of the assistant and those with tool results
/// among them, and the tool results at the end: that many of the last messages are tool results, and
/// the one before them is none.
pub proof fn law_features_count_messages(features: RequestMessageFeatures, messages: Seq<Message>)
    requires
        describes(features, messages),
        messages.len() <= u32::MAX,
    ensures
        features.message_count == messages.len(),
        features.assistant_message_count == messages.filter(|m: Message| m is Assistant).len(),
        features.tool_message_count == messages.filter(|m: Message| m is Tool).len(),
        features.trailing_tool_message_count <= messages.len(),
        forall|i: int|
            messages.len() - features.trailing_tool_message_count <= i < messages.len() ==> (
            #[trigger] messages[i]) is Tool,
        features.trailing_tool_message_count < messages.len() ==> !(messages[messages.len()
            - features.trailing_tool_message_count - 1] is Tool),
        messages.len() == 0 ==> features.last_message_role is None,
        messages.len() > 0 ==> features.last_message_role is Some && match messages.last() {
            Message::System { .. } => features.last_message_role->0@ == "system"@,
            Message::User { .. } => features.last_message_role->0@ == "user"@,
            Message::Assistant { .. } => features.last_message_role->0@ == "assistant"@,
            Message::Tool { .. } => features.last_message_role->0@ == "tool"@,
        },
{
    lemma_counted(messages);
    lemma_trailing(messages);
}

proof fn lemma_counted(messages: Seq<Message>)
    ensures
        assistant_turns(messages) == messages.filter(|m: Message| m is Assistant).len(),
        tool_results(messages) == messages.filter(|m: Message| m is Tool),
    decreases messages.len(),
{
    reveal(Seq::filter);
    if messages.len() > 0 {
        lemma_counted(messages.drop_last());
    }
}

proof fn lemma_trailing(messages: Seq<Message>)
    ensures
        ({
            let n = trailing_results(messages).len();
            &&& n <= messages.len()
            &&& trailing_results(messages) == messages.skip(messages.len() - n)
            &&& forall|i: int|
                messages.len() - n <= i < messages.len() ==> (#[trigger] messages[i]) is Tool
            &&& n < messages.len() ==> !(messages[messages.len() - n - 1] is Tool)
        }),
    decreases messages.len(),
{
    if messages.len() > 0 && messages.last() is Tool {
        let front = messages.drop_last();
        lemma_trailing(front);
        let n = trailing_results(messages).len();
        assert forall|i: int| messages.len() - n <= i < messages.len() implies (
        #[trigger] messages[i]) is Tool by {
            if i < front.len() {
                assert(front[i] == messages[i]);
            }
        }
        if n < messages.len() {
            assert(front[front.len() - (n - 1) - 1] == messages[messages.len() - n - 1]);
        }
        assert(trailing_results(messages) =~= messages.skip(messages.len() - n));
    }
}

/// The bytes of a text.
pub open spec fn said(text: String) -> int {
    encode_utf8(text@).len() as int
}

/// One more message adds the bytes of its texts to what all messages say: a text counts whole, an
/// image counts nothing, and an assistant that only asks for tools says nothing.
pub proof fn law_messages_say_their_texts(
    messages: Seq<Message>,
    message: Message,
    parts: Seq<ContentPart>,
    part: ContentPart,
)
    ensures
        total_bytes(Seq::empty()) == 0,
        parts_bytes(Seq::empty()) == 0,
        parts_bytes(parts.push(part)) - parts_bytes(parts) == match part {
            ContentPart::Text { text } => said(text),
            ContentPart::ImageUrl { .. } => 0,
        },
        total_bytes(messages.push(message)) - total_bytes(messages) == match message {
            Message::System { content: MessageContent::Text(text) } => said(text),
            Message::User { content: MessageContent::Text(text) } => said(text),
            Message::Tool { content: MessageContent::Text(text), .. } => said(text),
            Message::Assistant { content: Some(MessageContent::Text(text)) } => said(text),
            Message::System { content: MessageContent::Parts(given) } => parts_bytes(given@) as int,
            Message::User { content: MessageContent::Parts(given) } => parts_bytes(given@) as int,
            Message::Tool { content: MessageContent::Parts(given), .. } => parts_bytes(
                given@,
            ) as int,
            Message::Assistant { content: Some(MessageContent::Parts(given)) } => parts_bytes(
                given@,
            ) as int,
            Message::Assistant { content: None } => 0,
        },
{
    assert(messages.push(message).drop_last() =~= messages);
    assert(parts.push(part).drop_last() =~= parts);
}

/// Four bytes count as one token, and what is said counts as one at least. Tool results that say
/// nothing count as none.
pub proof fn law_four_bytes_are_a_token(features: RequestMessageFeatures, messages: Seq<Message>)
    requires
        describes(features, messages),
        total_bytes(messages) <= u32::MAX,
        total_bytes(messages.filter(|m: Message| m is Tool)) <= u32::MAX,
        total_bytes(messages.skip(messages.len() - features.trailing_tool_message_count))
            <= u32::MAX,
    ensures
        ({
            let all = total_bytes(messages) as int;
            let tools = total_bytes(messages.filter(|m: Message| m is Tool)) as int;
            let last = total_bytes(
                messages.skip(messages.len() - features.trailing_tool_message_count),
            ) as int;
            let estimate = features.prompt_tokens_estimate as int;
            let of_tools = features.tool_message_tokens_estimate as int;
            let of_last = features.trailing_tool_message_tokens_estimate as int;
            &&& features.has_prompt_content <==> all > 0
            &&& all < 8 ==> estimate == 1
            &&& all >= 8 ==> 4 * estimate <= all < 4 * (estimate + 1)
            &&& tools == 0 ==> of_tools == 0
            &&& 0 < tools < 8 ==> of_tools == 1
            &&& tools >= 8 ==> 4 * of_tools <= tools < 4 * (of_tools + 1)
            &&& last == 0 ==> of_last == 0
            &&& 0 < last < 8 ==> of_last == 1
            &&& last >= 8 ==> 4 * of_last <= last < 4 * (of_last + 1)
        }),
{
    lemma_counted(messages);
    lemma_trailing(messages);
}

} // verus!
