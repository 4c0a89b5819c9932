use adaptive::request::{ContentPart, Message, MessageContent};
use adaptive::request_features::extract_message_features;

fn user(text: &str) -> Message {
    Message::User {
        content: MessageContent::Text(text.into()),
    }
}

fn assistant(text: &str) -> Message {
    Message::Assistant {
        content: Some(MessageContent::Text(text.into())),
    }
}

fn tool(id: &str, text: &str) -> Message {
    Message::Tool {
        content: MessageContent::Text(text.into()),
        tool_call_id: id.into(),
    }
}

#[test]
fn trailing_tool_messages_measure_current_join_width() {
    let features = extract_message_features(&[
        user("question"),
        assistant("calling tools"),
        tool("call-1", "first result"),
        tool("call-2", "second result"),
    ]);

    assert_eq!(features.tool_message_count, 2);
    assert_eq!(features.trailing_tool_message_count, 2);
    assert!(features.trailing_tool_message_tokens_estimate > 0);
    assert_eq!(features.tool_result_join_width(), Some(2));
}

#[test]
fn non_tool_tail_resets_join_width() {
    let features = extract_message_features(&[
        user("question"),
        assistant("calling tools"),
        tool("call-1", "first result"),
        user("follow-up"),
    ]);

    assert_eq!(features.tool_message_count, 1);
    assert_eq!(features.trailing_tool_message_count, 0);
    assert_eq!(features.trailing_tool_message_tokens_estimate, 0);
    assert_eq!(features.tool_result_join_width(), None);
}

#[test]
fn no_messages_have_no_features() {
    let features = extract_message_features(&[]);
    assert_eq!(features.message_count, 0);
    assert_eq!(features.prompt_tokens_estimate, 1);
    assert!(!features.has_prompt_content);
    assert_eq!(features.prompt_tokens_estimate_nonzero(), None);
    assert_eq!(features.last_message_role, None);
    assert!(!features.last_message_is_tool());
}

#[test]
fn parts_count_like_text() {
    let whole = extract_message_features(&[user("abcdefgh")]);
    let parts = extract_message_features(&[Message::User {
        content: MessageContent::Parts(vec![
            ContentPart::Text { text: "abcd".into() },
            ContentPart::ImageUrl { url: "u".into() },
            ContentPart::Text { text: "efgh".into() },
        ]),
    }]);
    assert_eq!(whole.prompt_tokens_estimate, 2);
    assert_eq!(parts.prompt_tokens_estimate, 2);
    assert!(parts.has_prompt_content);
    assert_eq!(whole.last_message_role, Some("user"));
    assert_eq!(whole.message_count, 1);
    assert_eq!(whole.assistant_message_count, 0);
    assert_eq!(
        whole.prompt_tokens_estimate_nonzero(),
        Some(whole.prompt_tokens_estimate)
    );
    assert_eq!(parts.last_message_role, Some("user"));
}

#[test]
fn tool_tail_is_recognized() {
    let features = extract_message_features(&[tool("call-1", "r")]);
    assert!(features.last_message_is_tool());
    assert_eq!(features.last_message_role, Some("tool"));
    assert_eq!(features.tool_result_join_width(), Some(1));
    assert_eq!(features.tool_message_tokens_estimate, 1);
}
