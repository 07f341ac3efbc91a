use compaction::budget::{
    compaction_estimate, context_budget, estimated_tokens, input_budget, is_context_overflow,
    should_compact, validate_compacted,
};
use compaction::message::{CanonicalMessage, Origin, Role};
use compaction::projection::project_messages;
use compaction::run::{
    CheckpointId, ContextUsageAnchor, ConversationId, ModelSpec, PreparedRun, PromptSpec,
    RunAction, RunId, RunKind, ToolSpec,
};
use compaction::tokens::{estimate_context_tokens, estimate_projected_messages_tokens};

fn prepared(context_window_tokens: u64) -> PreparedRun {
    let mut model = ModelSpec::new("model");
    model.context_window_tokens = Some(context_window_tokens);
    PreparedRun {
        run_id: RunId::new("run"),
        cursor_request_id: None,
        conversation_id: ConversationId::new("conversation"),
        kind: RunKind::Root,
        model,
        prompt: PromptSpec {
            instructions: String::new(),
            tools: Vec::new(),
        },
        initial_messages: Vec::new(),
        action: RunAction::Start,
        base_checkpoint_id: CheckpointId(1),
    }
}

fn user_message(id: &str, text: &str) -> CanonicalMessage {
    CanonicalMessage::text(id, Role::User, Origin::Runtime, text)
}

#[test]
fn automatic_compaction_uses_proportional_reserve_for_every_action() {
    let messages = vec![user_message("user", &"x".repeat(40_000))];
    let projected = project_messages(&messages).unwrap();
    let estimated = estimate_context_tokens(&prepared(1).prompt, &projected);
    // Smallest multiple-of-ten window whose 90% budget covers the estimate.
    let window = estimated.div_ceil(9) * 10;
    let mut prepared = prepared(window);
    assert!(context_budget(window) >= estimated);
    assert!(context_budget(window - 10) < estimated);

    assert!(!should_compact(&prepared, &projected, None));
    prepared.model.context_window_tokens = Some(window - 10);
    assert!(should_compact(&prepared, &projected, None));

    prepared.action = RunAction::Resume {
        pending_tool_round: None,
    };
    assert!(should_compact(&prepared, &projected, None));
}

#[test]
fn the_reserve_leaves_room_for_the_estimate_to_run_behind() {
    // The anchor says 947,797 tokens, so a small fixed reserve would find room in a window of a
    // million and let the request through, where the provider counts 1,017,628 and refuses it.
    let messages = vec![user_message("user", "hello")];
    let projected = project_messages(&messages).unwrap();
    let anchor = ContextUsageAnchor {
        context_input_tokens: 947_797,
        message_count: 1,
    };
    assert!(should_compact(
        &prepared(1_000_000),
        &projected,
        Some(anchor)
    ));
}

#[test]
fn the_reserve_scales_with_the_window() {
    assert_eq!(context_budget(200_000), 180_000);
    assert_eq!(context_budget(1_000_000), 900_000);
    assert_eq!(context_budget(0), 0);
    assert_eq!(context_budget(1), 1);
}

#[test]
fn the_largest_window_has_a_budget() {
    assert_eq!(context_budget(u64::MAX), u64::MAX - u64::MAX / 10);
    assert_eq!(context_budget(9), 9);
    assert_eq!(context_budget(10), 9);
    assert_eq!(context_budget(19), 18);
}

#[test]
fn provider_refusals_that_mean_the_prompt_did_not_fit_are_recognized() {
    assert!(is_context_overflow(
        "provider error: Anthropic 400 Bad Request: {\"type\":\"error\",\"error\":\
         {\"type\":\"invalid_request_error\",\"message\":\"prompt is too long: \
         1017628 tokens > 1000000 maximum\"}}"
    ));
    assert!(is_context_overflow("model_context_window_exceeded"));
    assert!(is_context_overflow("context_length_exceeded"));
    assert!(is_context_overflow(
        "This model's maximum context length is 128000 tokens"
    ));

    // Unrelated failures must not trigger a compaction, which would
    // destroy history to fix something compaction cannot fix.
    assert!(!is_context_overflow("401 Unauthorized: invalid api key"));
    assert!(!is_context_overflow("429 Too Many Requests"));
    assert!(!is_context_overflow(
        "This model does not support assistant message prefill"
    ));
}

#[test]
fn overflow_is_recognized_whatever_the_case() {
    assert!(is_context_overflow("PROMPT IS TOO LONG"));
    assert!(is_context_overflow("The Context Window Exceeded its size"));
    assert!(is_context_overflow("TOKEN: Maximum Context Length"));
    assert!(!is_context_overflow("maximum context length"));
    assert!(!is_context_overflow(""));
    assert!(!is_context_overflow("prompt is too lon"));
}

#[test]
fn provider_usage_anchor_only_estimates_messages_added_after_last_request() {
    let messages = vec![
        user_message("old", &"x".repeat(400_000)),
        user_message("new", "short follow-up"),
    ];
    let projected = project_messages(&messages).unwrap();
    let anchor = ContextUsageAnchor {
        context_input_tokens: 103_904,
        message_count: 1,
    };
    let expected = 103_904 + estimate_projected_messages_tokens(&projected[1..]);

    assert_eq!(
        estimated_tokens(&prepared(200_000), &projected, Some(anchor)),
        expected
    );
    assert!(!should_compact(
        &prepared(200_000),
        &projected,
        Some(anchor)
    ));
}

#[test]
fn provider_usage_anchor_triggers_after_new_messages_cross_budget() {
    let messages = vec![
        user_message("old", "old"),
        user_message("new", &"x".repeat(80_000)),
    ];
    let projected = project_messages(&messages).unwrap();

    assert!(should_compact(
        &prepared(200_000),
        &projected,
        Some(ContextUsageAnchor {
            context_input_tokens: 180_000,
            message_count: 1,
        })
    ));
}

#[test]
fn missing_anchor_uses_full_fallback() {
    let messages = vec![user_message("user", &"x".repeat(40_000))];
    let projected = project_messages(&messages).unwrap();
    let prepared = prepared(200_000);

    assert_eq!(
        estimated_tokens(&prepared, &projected, None),
        estimate_context_tokens(&prepared.prompt, &projected)
    );
}

#[test]
fn invalid_anchor_message_count_uses_full_fallback() {
    let messages = vec![user_message("user", &"x".repeat(40_000))];
    let projected = project_messages(&messages).unwrap();
    let expected = estimate_context_tokens(&prepared(200_000).prompt, &projected);

    assert_eq!(
        estimated_tokens(
            &prepared(200_000),
            &projected,
            Some(ContextUsageAnchor {
                context_input_tokens: 1,
                message_count: 2,
            })
        ),
        expected
    );
}

#[test]
fn compacted_history_is_validated_against_the_same_budget() {
    let messages = vec![user_message("user", &"x".repeat(40_000))];
    let projected = project_messages(&messages).unwrap();
    let estimated = estimate_context_tokens(&prepared(1).prompt, &projected);
    let window = estimated.div_ceil(9) * 10;
    assert!(context_budget(window) >= estimated);
    assert!(context_budget(window - 10) < estimated);

    assert_eq!(
        validate_compacted(&prepared(window), &projected),
        Ok(estimated)
    );
    assert!(validate_compacted(&prepared(window - 10), &projected)
        .unwrap_err()
        .contains("context overflow after compaction"));
}

#[test]
fn an_overflow_report_names_the_estimate_and_the_budget() {
    let messages = vec![user_message("user", &"x".repeat(40_000))];
    let projected = project_messages(&messages).unwrap();
    assert_eq!(
        validate_compacted(&prepared(1_000), &projected),
        Err(
            "context overflow after compaction: estimated input 10000 tokens exceeds budget 900 \
             tokens"
                .to_string()
        )
    );
    assert_eq!(
        validate_compacted(&prepared(0), &projected),
        Err(
            "context overflow after compaction: estimated input 10000 tokens exceeds budget 0 \
             tokens"
                .to_string()
        )
    );
}

#[test]
fn without_a_window_nothing_is_compacted() {
    let messages = vec![user_message("user", &"x".repeat(40_000))];
    let projected = project_messages(&messages).unwrap();
    let mut prepared = prepared(1);
    prepared.model.context_window_tokens = None;
    assert_eq!(input_budget(&prepared), None);
    assert_eq!(compaction_estimate(&prepared, &projected, None), None);
    assert!(!should_compact(&prepared, &projected, None));
    assert_eq!(validate_compacted(&prepared, &projected), Ok(10_000));
}

#[test]
fn the_estimate_that_starts_a_compaction_is_reported() {
    let messages = vec![user_message("user", &"x".repeat(40_001))];
    let projected = project_messages(&messages).unwrap();
    assert_eq!(
        compaction_estimate(&prepared(10_000), &projected, None),
        Some(10_001)
    );
    let huge = ContextUsageAnchor {
        context_input_tokens: u64::MAX,
        message_count: 0,
    };
    assert_eq!(
        compaction_estimate(&prepared(10_000), &projected, Some(huge)),
        Some(u64::MAX)
    );
}

#[test]
fn an_exact_anchor_gives_the_full_estimate() {
    let messages = vec![user_message("u1", "first"), user_message("u2", "second")];
    let projected = project_messages(&messages).unwrap();
    let mut prepared = prepared(1_000);
    prepared.prompt.instructions = "be brief".to_string();
    prepared.prompt.tools.push(ToolSpec {
        name: "Read".to_string(),
        description: "reads a file".to_string(),
        parameters: "{}".to_string(),
    });
    // 2 for the instructions, 1 + 3 + 1 for the tool, 2 for each message.
    assert_eq!(estimated_tokens(&prepared, &projected, None), 11);
    let anchor = ContextUsageAnchor {
        context_input_tokens: estimate_context_tokens(&prepared.prompt, &projected[..1]),
        message_count: 1,
    };
    assert_eq!(anchor.context_input_tokens, 9);
    assert_eq!(estimated_tokens(&prepared, &projected, Some(anchor)), 11);
}
