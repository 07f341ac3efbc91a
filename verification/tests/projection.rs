use compaction::message::{
    CanonicalMessage, ContentPart, MessageContent, Origin, ProjectedContent, ProjectedMessage,
    Role, ToolCall, ToolResult,
};
use compaction::projection::{project_messages, ProjectionError};
use compaction::tokens::estimate_projected_messages_tokens;

fn call(id: &str, call_id: &str) -> CanonicalMessage {
    CanonicalMessage {
        message_id: id.into(),
        role: Role::Assistant,
        origin: Origin::Assistant,
        content: MessageContent::Assistant {
            text: "12345".into(),
            thinking: "1234".into(),
            replay_state: Some("123".into()),
            calls: vec![ToolCall {
                call_id: call_id.into(),
                name: "Read".into(),
                arguments: "{\"a\":1}".into(),
            }],
        },
        runtime_event_id: None,
    }
}

fn result(id: &str, call_id: &str) -> CanonicalMessage {
    CanonicalMessage {
        message_id: id.into(),
        role: Role::Tool,
        origin: Origin::Tool,
        content: MessageContent::ToolResult(ToolResult {
            call_id: call_id.into(),
            name: "Read".into(),
            content: "123456789".into(),
        }),
        runtime_event_id: None,
    }
}

#[test]
fn messages_are_projected_one_for_one() {
    let user = CanonicalMessage::text("u", Role::User, Origin::Runtime, "hi");
    let projected = project_messages(&[user, call("a", "c"), result("r", "c")]).unwrap();
    assert_eq!(projected.len(), 3);
    assert_eq!(
        projected[0],
        ProjectedMessage {
            message_id: "u".into(),
            role: Role::User,
            content: ProjectedContent::Parts(vec![ContentPart::Text { text: "hi".into() }]),
        }
    );
    // 1 for the user, 2 + 1 + 1 + 1 + 2 for the call, 3 for the result.
    assert_eq!(estimate_projected_messages_tokens(&projected[..1]), 1);
    assert_eq!(estimate_projected_messages_tokens(&projected[1..2]), 7);
    assert_eq!(estimate_projected_messages_tokens(&projected[2..]), 3);
    assert_eq!(estimate_projected_messages_tokens(&projected), 11);
    assert_eq!(estimate_projected_messages_tokens(&[]), 0);
}

#[test]
fn the_first_result_without_a_call_is_an_error() {
    let messages = [
        call("a", "c"),
        result("r1", "c"),
        result("r2", "other"),
        result("r3", "another"),
    ];
    assert_eq!(
        project_messages(&messages),
        Err(ProjectionError {
            message_id: "r2".into()
        })
    );
    assert!(project_messages(&messages[..2]).is_ok());
    // A call answers nothing that stands before it.
    assert!(project_messages(&[result("r", "c"), call("a", "c")]).is_err());
}
