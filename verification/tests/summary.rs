use compaction::message::{
    CanonicalMessage, ContentPart, MessageContent, Origin, Role, ToolCall, ToolResult,
};
use compaction::summary::{durable_state, fallback_summary, summary_message};

fn user_message(id: &str, text: &str) -> CanonicalMessage {
    CanonicalMessage::text(id, Role::User, Origin::Runtime, text)
}

#[test]
fn fallback_summary_keeps_the_oldest_prefix_bytes() {
    let messages = vec![
        user_message("u1", "alpha-goal"),
        user_message("u2", &"z".repeat(20_000)),
    ];
    let fallback = fallback_summary(&messages);
    assert!(fallback.contains("alpha-goal"));
}

#[test]
fn a_long_conversation_is_cut_in_its_fallback_summary() {
    let messages = vec![user_message("u1", &"\u{e9}".repeat(20_000))];
    let fallback = fallback_summary(&messages);
    let heading = "Durable conversation state:\n";
    assert!(fallback.starts_with(heading));
    assert_eq!(fallback.chars().count(), heading.chars().count() + 11_999);
    assert!(fallback.ends_with('\u{e9}'));
}

#[test]
fn a_fallback_summary_is_the_conversation_as_json() {
    assert_eq!(fallback_summary(&[]), "Durable conversation state:\n[]");
    let mut message = user_message("u1", "say \"hi\"\n");
    message.runtime_event_id = Some("e1".into());
    assert_eq!(
        fallback_summary(&[message]),
        "Durable conversation state:\n[{\"message_id\":\"u1\",\"role\":\"User\",\
         \"origin\":\"Runtime\",\"content\":{\"Parts\":{\"parts\":[{\"Text\":\
         {\"text\":\"say \\\"hi\\\"\\n\"}}]}},\"runtime_event_id\":\"e1\"}]"
    );
}

#[test]
fn every_kind_of_content_is_in_a_fallback_summary() {
    let image = CanonicalMessage {
        message_id: "u".into(),
        role: Role::User,
        origin: Origin::Runtime,
        content: MessageContent::Parts {
            parts: vec![ContentPart::Image {
                media_type: "image/png".into(),
                data: "AA==".into(),
            }],
        },
        runtime_event_id: None,
    };
    let call = CanonicalMessage {
        message_id: "a".into(),
        role: Role::Assistant,
        origin: Origin::Assistant,
        content: MessageContent::Assistant {
            text: "t".into(),
            thinking: "h".into(),
            replay_state: None,
            calls: vec![ToolCall {
                call_id: "c".into(),
                name: "Read".into(),
                arguments: "{}".into(),
            }],
        },
        runtime_event_id: None,
    };
    let result = CanonicalMessage {
        message_id: "r".into(),
        role: Role::Tool,
        origin: Origin::Tool,
        content: MessageContent::ToolResult(ToolResult {
            call_id: "c".into(),
            name: "Read".into(),
            content: "body".into(),
        }),
        runtime_event_id: None,
    };
    assert_eq!(
        fallback_summary(&[image, call, result]),
        "Durable conversation state:\n[\
         {\"message_id\":\"u\",\"role\":\"User\",\"origin\":\"Runtime\",\"content\":{\"Parts\":\
         {\"parts\":[{\"Image\":{\"media_type\":\"image/png\",\"data\":\"AA==\"}}]}},\
         \"runtime_event_id\":null},\
         {\"message_id\":\"a\",\"role\":\"Assistant\",\"origin\":\"Assistant\",\"content\":\
         {\"Assistant\":{\"text\":\"t\",\"thinking\":\"h\",\"replay_state\":null,\"calls\":\
         [{\"call_id\":\"c\",\"name\":\"Read\",\"arguments\":\"{}\"}]}},\
         \"runtime_event_id\":null},\
         {\"message_id\":\"r\",\"role\":\"Tool\",\"origin\":\"Tool\",\"content\":{\"ToolResult\":\
         {\"call_id\":\"c\",\"name\":\"Read\",\"content\":\"body\"}},\
         \"runtime_event_id\":null}]"
    );
}

#[test]
fn a_durable_state_is_cut_just_below_its_limit() {
    let heading = "Durable conversation state:\n";
    for (length, kept) in [(0, 0), (5, 5), (11_999, 11_999), (12_000, 11_999), (30_000, 11_999)] {
        let text = "x".repeat(length);
        assert_eq!(durable_state(&text), format!("{heading}{}", "x".repeat(kept)));
    }
}

#[test]
fn a_summary_is_wrapped_in_a_user_message() {
    let message = summary_message("s".into(), "goals");
    assert_eq!(
        message,
        CanonicalMessage {
            message_id: "runtime:s".into(),
            role: Role::User,
            origin: Origin::Runtime,
            content: MessageContent::Parts {
                parts: vec![ContentPart::Text {
                    text: "<conversation_summary>\ngoals\n</conversation_summary>".into(),
                }],
            },
            runtime_event_id: Some("s".into()),
        }
    );
}
