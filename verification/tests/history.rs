use compaction::budget::{context_budget, OUTPUT_TOKENS};
use compaction::history::{
    compaction_history, is_turn_boundary, trim_to_context, user_terminated, INSTRUCTIONS,
};
use compaction::message::{
    ContentPart, ProjectedContent, ProjectedMessage, Role, ToolCall, ToolResult,
};
use compaction::tokens::estimate_projected_messages_tokens;

fn user(id: &str, text: &str) -> ProjectedMessage {
    ProjectedMessage {
        message_id: id.into(),
        role: Role::User,
        content: ProjectedContent::Parts(vec![ContentPart::Text { text: text.into() }]),
    }
}

fn assistant(id: &str, text: &str) -> ProjectedMessage {
    ProjectedMessage {
        message_id: id.into(),
        role: Role::Assistant,
        content: ProjectedContent::Assistant {
            text: text.into(),
            thinking: String::new(),
            replay_state: None,
            calls: Vec::new(),
        },
    }
}

fn tool_result(id: &str, content: &str) -> ProjectedMessage {
    ProjectedMessage {
        message_id: id.into(),
        role: Role::Tool,
        content: ProjectedContent::ToolResult(ToolResult {
            call_id: "call".into(),
            name: "Read".into(),
            content: content.into(),
        }),
    }
}

fn ids(messages: &[ProjectedMessage]) -> Vec<&str> {
    messages
        .iter()
        .map(|message| message.message_id.as_str())
        .collect()
}

#[test]
fn compaction_history_always_ends_with_a_user_message() {
    // Providers reject an assistant-terminated history as a prefill, which
    // made every automatic compaction fall back to the truncated summary.
    let history = vec![user("u1", "question"), assistant("a1", "answer")];
    let prepared = compaction_history(history, Some(200_000));
    assert_eq!(prepared.last().unwrap().role, Role::User);
    assert_eq!(
        prepared.last().unwrap().message_id,
        "compaction:instruction"
    );

    // An already user-terminated history is left alone.
    let history = vec![assistant("a1", "answer"), user("u2", "next")];
    let prepared = compaction_history(history.clone(), Some(200_000));
    assert_eq!(prepared, history);
}

#[test]
fn compaction_history_is_trimmed_to_fit_the_context_window() {
    // The summarizer sees the dropped prefix. If that prefix is itself over
    // the window, keep the oldest turns: goals live there, and the newest
    // turns are already retained as window_tail.
    let big = "x".repeat(400_000);
    let history = vec![
        user("u1", &big),
        assistant("a1", &big),
        user("u2", &big),
        assistant("a2", "recent answer"),
    ];
    let window = 200_000;
    let prepared = compaction_history(history, Some(window));

    let budget = context_budget(window) - OUTPUT_TOKENS;
    assert!(
        estimate_projected_messages_tokens(&prepared) <= budget
            || prepared.iter().any(|message| message.message_id == "u1")
    );
    assert_eq!(prepared.last().unwrap().role, Role::User);
    assert!(prepared.iter().any(|message| message.message_id == "u1"));
    assert!(!prepared.iter().any(|message| message.message_id == "u2"));
}

#[test]
fn compaction_history_keeps_the_oldest_turn_even_when_it_is_over_budget() {
    // A prefix whose oldest turn alone exceeds the budget is still sent
    // rather than trimmed to nothing: a summary of nothing would replace
    // the whole conversation.
    let history = vec![
        user("u1", &"x".repeat(400_000)),
        assistant("a1", "old answer"),
        user("u2", "recent"),
        assistant("a2", "answer"),
    ];
    let prepared = compaction_history(history, Some(50_000));
    assert_eq!(prepared[0].message_id, "u1");
    assert!(!prepared.iter().any(|message| message.message_id == "u2"));
    assert_eq!(prepared.last().unwrap().role, Role::User);
}

#[test]
fn compaction_history_without_a_context_window_is_untouched_apart_from_termination() {
    let history = vec![user("u1", "question"), assistant("a1", "answer")];
    let prepared = compaction_history(history.clone(), None);
    assert_eq!(prepared[..2], history[..]);
    assert_eq!(prepared.last().unwrap().role, Role::User);
}

#[test]
fn an_empty_history_is_given_the_instructions() {
    let prepared = compaction_history(Vec::new(), Some(200_000));
    assert_eq!(prepared, vec![user("compaction:instruction", INSTRUCTIONS)]);
}

#[test]
fn as_many_whole_turns_as_fit_are_kept() {
    // Window 50,000 leaves 45,000 - 4,096 = 40,904 tokens: two turns of 20,000 and not three.
    let turn = "x".repeat(80_000);
    let history = vec![
        user("u1", &turn),
        assistant("a1", ""),
        user("u2", &turn),
        assistant("a2", "answer"),
        user("u3", &turn),
        assistant("a3", "answer"),
    ];
    let trimmed = trim_to_context(history.clone(), Some(50_000));
    assert_eq!(ids(&trimmed), ["u1", "a1", "u2", "a2"]);
    let prepared = compaction_history(history, Some(50_000));
    assert_eq!(
        ids(&prepared),
        ["u1", "a1", "u2", "a2", "compaction:instruction"]
    );
}

#[test]
fn a_call_stays_with_its_results() {
    let call = ProjectedMessage {
        message_id: "a1".into(),
        role: Role::Assistant,
        content: ProjectedContent::Assistant {
            text: String::new(),
            thinking: String::new(),
            replay_state: None,
            calls: vec![ToolCall {
                call_id: "call".into(),
                name: "Read".into(),
                arguments: "{}".into(),
            }],
        },
    };
    let history = vec![
        user("u1", "read"),
        call,
        tool_result("t1", &"x".repeat(400_000)),
        user("u2", "go on"),
    ];
    let trimmed = trim_to_context(history, Some(50_000));
    assert_eq!(ids(&trimmed), ["u1", "a1", "t1"]);
}

#[test]
fn a_history_exactly_at_the_budget_is_kept_whole() {
    // Window 10,000 leaves 9,000 - 4,096 = 4,904 tokens.
    let history = vec![user("u1", &"x".repeat(4_904 * 4)), user("u2", "")];
    assert_eq!(trim_to_context(history.clone(), Some(10_000)), history);
    let history = vec![user("u1", &"x".repeat(4_904 * 4)), user("u2", "y")];
    assert_eq!(ids(&trim_to_context(history, Some(10_000))), ["u1"]);
}

#[test]
fn a_window_without_room_for_an_answer_sets_no_limit() {
    let history = vec![user("u1", &"x".repeat(400_000)), user("u2", "next")];
    assert_eq!(trim_to_context(history.clone(), Some(0)), history);
    // 4,551 leaves exactly 4,096, all of it for the answer.
    assert_eq!(context_budget(4_551), 4_096);
    assert_eq!(trim_to_context(history.clone(), Some(4_551)), history);
    assert_eq!(ids(&trim_to_context(history, Some(4_552))), ["u1"]);
}

#[test]
fn only_user_messages_with_content_open_a_turn() {
    assert!(is_turn_boundary(&user("u", "text")));
    assert!(!is_turn_boundary(&assistant("a", "text")));
    let mut result = tool_result("t", "text");
    assert!(!is_turn_boundary(&result));
    result.role = Role::User;
    assert!(!is_turn_boundary(&result));
}

#[test]
fn a_history_is_terminated_with_the_given_message() {
    let history = user_terminated(vec![tool_result("t", "text")], "id", "go on");
    assert_eq!(history, vec![tool_result("t", "text"), user("id", "go on")]);
}
