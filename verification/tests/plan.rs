use compaction::budget::{should_compact, validate_compacted};
use compaction::file_window::COMPACTED_IDENTITY_SUFFIX;
use compaction::message::{
    CanonicalMessage, ContentPart, MessageContent, Origin, Role, ToolResult,
};
use compaction::plan::{
    is_canonical_turn_boundary, last_turn_start, message_ids, partition, plan, tail_start_index,
    tail_token_budget, CompactionKind,
};
use compaction::projection::project_messages;
use compaction::run::{
    CheckpointId, ConversationId, ModelSpec, PreparedRun, PromptSpec, RunAction, RunId, RunKind,
};
use compaction::summary::{replacement, summary_message};

fn prepared(context_window_tokens: u64) -> PreparedRun {
    let mut model = ModelSpec::new("model");
    model.context_window_tokens = Some(context_window_tokens);
    PreparedRun {
        run_id: RunId::new("run"),
        cursor_request_id: None,
        conversation_id: ConversationId::new("conversation"),
        kind: RunKind::Root,
        model,
        prompt: PromptSpec {
            instructions: String::new(),
            tools: Vec::new(),
        },
        initial_messages: Vec::new(),
        action: RunAction::Start,
        base_checkpoint_id: CheckpointId(1),
    }
}

fn user_message(id: &str, text: &str) -> CanonicalMessage {
    CanonicalMessage::text(id, Role::User, Origin::Runtime, text)
}

fn assistant_message(id: &str, text: &str) -> CanonicalMessage {
    CanonicalMessage::text(id, Role::Assistant, Origin::Assistant, text)
}

fn read_result(id: &str, content: &str) -> CanonicalMessage {
    CanonicalMessage {
        message_id: id.into(),
        role: Role::Tool,
        origin: Origin::Tool,
        content: MessageContent::ToolResult(ToolResult {
            call_id: "call".into(),
            name: "Read".into(),
            content: content.into(),
        }),
        runtime_event_id: None,
    }
}

fn file_window_user(id: &str, query: &str, body: &str) -> CanonicalMessage {
    user_message(
        id,
        &format!(
            "<selected_context>\n<file path=\"src/big.rs\">\n{body}\n</file>\n</selected_context>\n\n<user_query>\n{query}\n</user_query>"
        ),
    )
}

fn message_text(message: &CanonicalMessage) -> String {
    match &message.content {
        MessageContent::Parts { parts } => parts
            .iter()
            .filter_map(|part| match part {
                ContentPart::Text { text } => Some(text.as_str()),
                _ => None,
            })
            .collect::<Vec<_>>()
            .join(""),
        MessageContent::ToolResult(result) => result.content.clone(),
        MessageContent::Assistant { text, .. } => text.clone(),
    }
}

fn listed(messages: &[CanonicalMessage]) -> Vec<&str> {
    messages
        .iter()
        .map(|message| message.message_id.as_str())
        .collect()
}

#[test]
fn auto_plan_keeps_a_recent_turn_as_window_tail() {
    let old = user_message("u1", &"x".repeat(200_000));
    let old_answer = assistant_message("a1", "old");
    let recent = user_message("u2", "recent work");
    let recent_answer = assistant_message("a2", "done");
    let current = user_message("u3", "continue");
    let messages = vec![old, old_answer, recent, recent_answer, current.clone()];
    let current_ids = message_ids(std::slice::from_ref(&current));
    let mut prepared = prepared(50_000);
    prepared.initial_messages = vec![current.clone()];

    let plan = plan(&messages, &current_ids, &prepared, CompactionKind::Auto).unwrap();
    assert_eq!(
        plan.prefix
            .iter()
            .map(|message| message.message_id.as_str())
            .collect::<Vec<_>>(),
        ["u1", "a1"]
    );
    assert_eq!(
        plan.tail
            .iter()
            .map(|message| message.message_id.as_str())
            .collect::<Vec<_>>(),
        ["u2", "a2"]
    );
    assert_eq!(plan.window_tail(), 2);
    let assembled = replacement(&plan, summary_message("s".into(), "goals and files"), &[]);
    assert_eq!(assembled[0].message_id, "runtime:s");
    assert_eq!(assembled[1].message_id, "u2");
}

#[test]
fn auto_plan_skips_when_the_compactable_dialogue_already_fits_in_the_tail() {
    let context = user_message("request-context:rules", &"x".repeat(80_000));
    let user = user_message("u1", "hi");
    let assistant = assistant_message("a1", "hello");
    let current = user_message("u2", "again");
    let messages = vec![context, user, assistant, current.clone()];
    let current_ids = message_ids(std::slice::from_ref(&current));
    let mut prepared = prepared(200_000);
    prepared.initial_messages = vec![current.clone()];

    assert!(plan(&messages, &current_ids, &prepared, CompactionKind::Auto).is_none());
}

#[test]
fn auto_plan_moves_selected_context_file_window_into_the_prefix() {
    // A token-budget tail would keep this dump because it still fits.
    let old = user_message("u1", &"x".repeat(200_000));
    let old_answer = assistant_message("a1", "old");
    let files = file_window_user("u2", "recent work", &"secret-file-body".repeat(8_000));
    let files_answer = assistant_message("a2", "noted");
    let current = user_message("u3", "continue");
    let messages = vec![old, old_answer, files, files_answer, current.clone()];
    let current_ids = message_ids(std::slice::from_ref(&current));
    let mut prepared = prepared(200_000);
    prepared.initial_messages = vec![current.clone()];

    let plan = plan(&messages, &current_ids, &prepared, CompactionKind::Auto).unwrap();
    assert!(
        plan.prefix.iter().any(|message| {
            message.message_id == "u2" && message_text(message).contains("secret-file-body")
        }),
        "summarizer must see the file window"
    );
    assert!(
        plan.tail.iter().any(|message| {
            message.message_id != "u2" && message_text(message).contains("recent work")
        }),
        "recent query stays in the tail under a new identity"
    );
    assert!(
        plan.tail
            .iter()
            .all(|message| !message_text(message).contains("secret-file-body")),
        "tail must not keep file bodies"
    );
    let assembled = replacement(
        &plan,
        summary_message("s".into(), "files were summarized"),
        &prepared.initial_messages,
    );
    assert!(assembled
        .iter()
        .all(|message| !message_text(message).contains("secret-file-body")));
    assert!(assembled.iter().all(|message| message.message_id != "u2"));
    assert!(assembled.iter().any(|message| message.message_id == "u3"));
}

#[test]
fn replacement_strips_file_window_from_current_initial() {
    let old = user_message("u1", &"x".repeat(200_000));
    let old_answer = assistant_message("a1", "old");
    let current = file_window_user("u2", "continue", &"current-file-body".repeat(8_000));
    let messages = vec![old, old_answer, current.clone()];
    let current_ids = message_ids(std::slice::from_ref(&current));
    let mut prepared = prepared(50_000);
    prepared.initial_messages = vec![current.clone()];

    let plan = plan(&messages, &current_ids, &prepared, CompactionKind::Auto).unwrap();
    assert!(plan.prefix.iter().any(|message| {
        message.message_id == "u2" && message_text(message).contains("current-file-body")
    }));
    let assembled = replacement(
        &plan,
        summary_message("s".into(), "current files summarized"),
        &prepared.initial_messages,
    );
    let slim = assembled
        .iter()
        .find(|message| message_text(message).contains("continue"))
        .unwrap();
    assert_ne!(slim.message_id, "u2");
    assert!(message_text(slim).contains("continue"));
    assert!(!message_text(slim).contains("current-file-body"));
    assert!(!message_text(slim).contains("<selected_context>"));
}

#[test]
fn shrinking_file_windows_does_not_reuse_a_persisted_identity() {
    let mut current = file_window_user(
        "cursor-root:N5ZiHeATMhBKSyUyDvOkWZ2Br3ygG+guJez/HoE0lqo=:4",
        "continue",
        "current-file-body",
    );
    current.runtime_event_id = Some(current.message_id.clone());
    let original_id = current.message_id.clone();
    let original_event = current.runtime_event_id.clone();
    let old = user_message("u1", &"x".repeat(200_000));
    let old_answer = assistant_message("a1", "old");
    let messages = vec![old, old_answer, current.clone()];
    let current_ids = message_ids(std::slice::from_ref(&current));
    let mut prepared = prepared(50_000);
    prepared.initial_messages = vec![current.clone()];

    let plan = plan(&messages, &current_ids, &prepared, CompactionKind::Auto).unwrap();
    let assembled = replacement(
        &plan,
        summary_message("s".into(), "current files summarized"),
        &prepared.initial_messages,
    );
    for message in &assembled {
        let same_id =
            message.message_id == original_id || message.runtime_event_id == original_event;
        assert!(
            !same_id,
            "shrunk replacement reused {}:{}",
            message.message_id,
            message.runtime_event_id.as_deref().unwrap_or("-")
        );
    }
    assert!(assembled.iter().any(|message| {
        message.message_id.ends_with(COMPACTED_IDENTITY_SUFFIX)
            && message_text(message).contains("continue")
    }));
}

#[test]
fn manual_plan_summarizes_a_single_turn_when_there_is_no_tail() {
    let user = user_message("u1", "remember alpha");
    let assistant = assistant_message("a1", "old answer");
    let messages = vec![user, assistant];
    let prepared = prepared(200_000);
    let plan = plan(
        &messages,
        &message_ids(&[]),
        &prepared,
        CompactionKind::Manual,
    )
    .unwrap();
    assert_eq!(plan.prefix.len(), 2);
    assert!(plan.tail.is_empty());
    assert_eq!(plan.window_tail(), 0);
}

#[test]
fn only_the_latest_request_context_is_set_aside() {
    let messages = vec![
        user_message("request-context:1", "old rules"),
        user_message("u1", "question"),
        user_message("request-context:2", "rules"),
        assistant_message("a1", "answer"),
        user_message("u2", "current"),
    ];
    let current_ids = message_ids(&messages[4..]);
    let (compactable, retained) = partition(&messages, &current_ids);
    assert_eq!(listed(&compactable), ["request-context:1", "u1", "a1"]);
    assert_eq!(retained.as_ref(), Some(&messages[2]));

    // A request context of the current run is neither compacted nor retained.
    let current_ids = message_ids(&messages[2..3]);
    let (compactable, retained) = partition(&messages, &current_ids);
    assert_eq!(listed(&compactable), ["request-context:1", "u1", "a1", "u2"]);
    assert_eq!(retained, None);

    let (compactable, retained) = partition(&[], &current_ids);
    assert!(compactable.is_empty());
    assert_eq!(retained, None);
}

#[test]
fn the_retained_context_opens_the_replacement() {
    let messages = vec![
        user_message("request-context:1", "rules"),
        user_message("u1", &"x".repeat(200_000)),
        user_message("u2", "recent"),
    ];
    let plan = plan(
        &messages,
        &message_ids(&[]),
        &prepared(50_000),
        CompactionKind::Auto,
    )
    .unwrap();
    assert_eq!(listed(&plan.prefix), ["u1"]);
    assert_eq!(listed(&plan.tail), ["u2"]);
    let assembled = replacement(
        &plan,
        summary_message("s".into(), "summary"),
        &[user_message("u3", "now")],
    );
    assert_eq!(
        listed(&assembled),
        ["request-context:1", "runtime:s", "u2", "u3"]
    );
}

#[test]
fn there_is_no_plan_for_nothing() {
    for kind in [CompactionKind::Auto, CompactionKind::Manual] {
        assert!(plan(&[], &message_ids(&[]), &prepared(50_000), kind).is_none());
        let context = [user_message("request-context:1", "rules")];
        assert!(plan(&context, &message_ids(&[]), &prepared(50_000), kind).is_none());
    }
}

#[test]
fn files_of_the_current_run_alone_are_planned() {
    let current = file_window_user("u1", "query", "body");
    let mut prepared = prepared(200_000);
    prepared.initial_messages = vec![current.clone()];
    let ids = message_ids(std::slice::from_ref(&current));
    for kind in [CompactionKind::Auto, CompactionKind::Manual] {
        let plan = plan(std::slice::from_ref(&current), &ids, &prepared, kind).unwrap();
        assert_eq!(plan.prefix, vec![current.clone()]);
        assert!(plan.tail.is_empty());
    }
}

#[test]
fn without_a_window_the_last_turn_is_kept() {
    let messages = vec![
        user_message("u1", "one"),
        assistant_message("a1", "answer"),
        user_message("u2", "two"),
        assistant_message("a2", "answer"),
    ];
    let mut prepared = prepared(1);
    prepared.model.context_window_tokens = None;
    let plan = plan(
        &messages,
        &message_ids(&[]),
        &prepared,
        CompactionKind::Auto,
    )
    .unwrap();
    assert_eq!(listed(&plan.prefix), ["u1", "a1"]);
    assert_eq!(listed(&plan.tail), ["u2", "a2"]);
    assert_eq!(last_turn_start(&messages), 2);
    assert_eq!(last_turn_start(&messages[1..2]), 0);
    assert_eq!(last_turn_start(&[]), 0);
}

#[test]
fn a_tail_is_the_longest_that_fits() {
    let messages = vec![
        user_message("u1", &"x".repeat(40)),
        assistant_message("a1", &"x".repeat(40)),
        user_message("u2", &"x".repeat(40)),
        assistant_message("a2", &"x".repeat(40)),
    ];
    assert_eq!(tail_start_index(&messages, Some(40)), 0);
    assert_eq!(tail_start_index(&messages, Some(39)), 2);
    assert_eq!(tail_start_index(&messages, Some(20)), 2);
    assert_eq!(tail_start_index(&messages, Some(19)), 4);
    assert_eq!(tail_start_index(&messages, Some(0)), 4);
    assert_eq!(tail_start_index(&messages, None), 2);
    assert_eq!(tail_start_index(&[], Some(10)), 0);
}

#[test]
fn messages_that_cannot_be_projected_leave_no_tail() {
    let messages = vec![user_message("u1", "one"), read_result("t1", "orphan")];
    assert_eq!(tail_start_index(&messages, Some(1_000)), 2);
}

#[test]
fn the_tail_budget_is_what_the_held_messages_leave() {
    let mut prepared = prepared(10_000);
    assert_eq!(tail_token_budget(&prepared, None), Some(9_000 - 4_096));
    prepared.initial_messages = vec![user_message("u1", &"x".repeat(400))];
    assert_eq!(tail_token_budget(&prepared, None), Some(9_000 - 100 - 4_096));
    let context = user_message("request-context:1", &"x".repeat(4_000));
    assert_eq!(
        tail_token_budget(&prepared, Some(&context)),
        Some(9_000 - 1_100 - 4_096)
    );
    let large = user_message("request-context:1", &"x".repeat(40_000));
    assert_eq!(tail_token_budget(&prepared, Some(&large)), Some(0));
    // Held messages that cannot be projected are not counted.
    prepared.initial_messages.push(read_result("t1", "orphan"));
    assert_eq!(
        tail_token_budget(&prepared, Some(&large)),
        Some(9_000 - 4_096)
    );
    prepared.model.context_window_tokens = None;
    assert_eq!(tail_token_budget(&prepared, None), None);
}

#[test]
fn a_stored_user_message_with_content_opens_a_turn() {
    assert!(is_canonical_turn_boundary(&user_message("u", "text")));
    assert!(!is_canonical_turn_boundary(&assistant_message("a", "text")));
    let mut result = read_result("t", "text");
    result.role = Role::User;
    assert!(!is_canonical_turn_boundary(&result));
}

#[test]
fn a_compacted_conversation_is_within_its_budget() {
    let messages = vec![
        user_message("request-context:1", &"r".repeat(4_000)),
        user_message("u1", &"x".repeat(200_000)),
        assistant_message("a1", "old"),
        file_window_user("u2", "recent work", &"body".repeat(2_000)),
        assistant_message("a2", "done"),
        file_window_user("u3", "continue", &"body".repeat(1_000)),
    ];
    let current_ids = message_ids(&messages[5..]);
    let mut prepared = prepared(50_000);
    prepared.initial_messages = messages[5..].to_vec();
    let projected = project_messages(&messages).unwrap();
    assert!(validate_compacted(&prepared, &projected).is_err());

    let plan = plan(&messages, &current_ids, &prepared, CompactionKind::Auto).unwrap();
    assert_eq!(listed(&plan.prefix), ["u1", "a1", "u2", "u3"]);
    let summary = summary_message("s".into(), &"s".repeat(16_000));
    let assembled = replacement(&plan, summary, &prepared.initial_messages);
    assert_eq!(
        listed(&assembled),
        [
            "request-context:1",
            "runtime:s",
            "u2:compacted-file-window",
            "a2",
            "u3:compacted-file-window"
        ]
    );
    let projected = project_messages(&assembled).unwrap();
    assert!(validate_compacted(&prepared, &projected).is_ok());
    assert!(!should_compact(&prepared, &projected, None));
}

#[test]
fn a_second_compaction_leaves_compacted_messages_alone() {
    let messages = vec![file_window_user("u1", "work", "body")];
    let first = plan(
        &messages,
        &message_ids(&[]),
        &prepared(200_000),
        CompactionKind::Auto,
    )
    .unwrap();
    assert_eq!(listed(&first.prefix), ["u1"]);
    assert_eq!(listed(&first.tail), ["u1:compacted-file-window"]);
    assert!(plan(
        &first.tail,
        &message_ids(&[]),
        &prepared(200_000),
        CompactionKind::Auto
    )
    .is_none());
}
