use compaction::file_window::{
    collect_file_windows, contains_selected_file_window, is_file_window, peel_file_windows,
    retarget_compacted_identity, shrink_file_window, strip_selected_context,
    COMPACTED_FILE_WINDOW,
};
use compaction::message::{
    CanonicalMessage, ContentPart, MessageContent, Origin, Role, ToolCall, ToolResult,
};

fn user_message(id: &str, text: &str) -> CanonicalMessage {
    CanonicalMessage::text(id, Role::User, Origin::Runtime, text)
}

fn tool_result(id: &str, name: &str, content: &str) -> CanonicalMessage {
    CanonicalMessage {
        message_id: id.into(),
        role: Role::Tool,
        origin: Origin::Tool,
        content: MessageContent::ToolResult(ToolResult {
            call_id: "call".into(),
            name: name.into(),
            content: content.into(),
        }),
        runtime_event_id: None,
    }
}

#[test]
fn a_closed_block_with_a_file_or_code_is_a_file_window() {
    assert!(contains_selected_file_window(
        "<selected_context><file path=\"a\">x</file></selected_context>"
    ));
    assert!(contains_selected_file_window(
        "ask <selected_context>\n<code lines=\"1\">x</code>\n</selected_context>"
    ));
    assert!(!contains_selected_file_window(
        "<selected_context><code>x</code></selected_context>"
    ));
    assert!(!contains_selected_file_window(
        "<selected_context>notes</selected_context><file>"
    ));
    assert!(!contains_selected_file_window("<selected_context><file>"));
    assert!(!contains_selected_file_window("<file></selected_context>"));
    assert!(!contains_selected_file_window(""));
    // Only the first block counts.
    assert!(!contains_selected_file_window(
        "<selected_context></selected_context><selected_context><file></selected_context>"
    ));
}

#[test]
fn blocks_are_stripped_with_the_white_space_around_them() {
    let open = "<selected_context>";
    let close = "</selected_context>";
    let strip = |text: String| strip_selected_context(&text);
    assert_eq!(strip("plain text ".into()), "plain text ");
    assert_eq!(strip(String::new()), "");
    assert_eq!(strip(format!("{open}x{close}")), "");
    assert_eq!(strip(format!(" {open}x{close}\n query ")), "query ");
    assert_eq!(
        strip(format!("before \n{open}x{close}\u{2003}after")),
        "before\n\nafter"
    );
    assert_eq!(strip(format!("before {open}x{close} \n")), "before");
    assert_eq!(
        strip(format!("a{open}1{close}b{open}2{close}c")),
        "a\n\nb\n\nc"
    );
    // Two blocks with nothing between them set what follows apart twice.
    assert_eq!(
        strip(format!("a{open}1{close} {open}2{close}c")),
        "a\n\n\n\nc"
    );
    // A block that is not closed stays.
    assert_eq!(strip(format!("a \n{open}x")), format!("a{open}x"));
    assert_eq!(
        strip(format!("a{open}1{close}b {open} x")),
        format!("a\n\nb{open} x")
    );
    assert_eq!(strip(format!("h\u{e9}llo {open}\u{1f600}{close}w\u{f6}rld")), "h\u{e9}llo\n\nw\u{f6}rld");
}

#[test]
fn results_of_the_read_tool_are_file_windows() {
    assert!(is_file_window(&tool_result("t", "Read", "fn main() {}")));
    assert!(!is_file_window(&tool_result("t", "Read", "")));
    assert!(!is_file_window(&tool_result("t", "Read", COMPACTED_FILE_WINDOW)));
    assert!(!is_file_window(&tool_result("t", "Shell", "output")));
}

#[test]
fn assistant_messages_are_never_file_windows() {
    let message = CanonicalMessage {
        message_id: "a".into(),
        role: Role::Assistant,
        origin: Origin::Assistant,
        content: MessageContent::Assistant {
            text: "<selected_context><file></selected_context>".into(),
            thinking: String::new(),
            replay_state: None,
            calls: vec![ToolCall {
                call_id: "c".into(),
                name: "Read".into(),
                arguments: "{}".into(),
            }],
        },
        runtime_event_id: None,
    };
    assert!(!is_file_window(&message));
    let slim = shrink_file_window(message.clone());
    assert_eq!(slim.content, message.content);
    assert_eq!(slim.message_id, "a:compacted-file-window");
}

#[test]
fn a_shrunk_read_result_is_no_file_window() {
    let slim = shrink_file_window(tool_result("t", "Read", "fn main() {}"));
    assert_eq!(
        slim,
        tool_result("t:compacted-file-window", "Read", "[compacted file window]")
    );
    assert!(!is_file_window(&slim));
}

#[test]
fn other_tool_results_keep_their_content() {
    let slim = shrink_file_window(tool_result("t", "Shell", "output"));
    assert_eq!(
        slim,
        tool_result("t:compacted-file-window", "Shell", "output")
    );
}

#[test]
fn every_text_part_is_stripped_and_images_stay() {
    let image = ContentPart::Image {
        media_type: "image/png".into(),
        data: "<selected_context><file></selected_context>".into(),
    };
    let text = |text: &str| ContentPart::Text { text: text.into() };
    let mut message = user_message("u", "");
    message.content = MessageContent::Parts {
        parts: vec![
            text("<selected_context><file></selected_context> one"),
            image.clone(),
            text("two"),
        ],
    };
    assert!(is_file_window(&message));
    let slim = shrink_file_window(message.clone());
    assert_eq!(
        slim.content,
        MessageContent::Parts {
            parts: vec![text("one"), image.clone(), text("two")],
        }
    );
    assert!(!is_file_window(&slim));

    message.content = MessageContent::Parts { parts: vec![image] };
    assert!(!is_file_window(&message));
}

#[test]
fn identities_are_marked_once() {
    let mut message = user_message("u", "text");
    message.runtime_event_id = Some("event".into());
    retarget_compacted_identity(&mut message);
    assert_eq!(message.message_id, "u:compacted-file-window");
    assert_eq!(
        message.runtime_event_id.as_deref(),
        Some("event:compacted-file-window")
    );
    let marked = message.clone();
    retarget_compacted_identity(&mut message);
    assert_eq!(message, marked);
}

#[test]
fn peeling_moves_files_from_the_tail_to_the_prefix() {
    let old = user_message("u1", "old");
    let read = tool_result("t1", "Read", "body");
    let plain = user_message("u2", "plain");
    let mut prefix = vec![old.clone()];
    let mut tail = vec![read.clone(), plain.clone()];
    assert_eq!(collect_file_windows(&tail), vec![read.clone()]);
    peel_file_windows(&mut prefix, &mut tail);
    assert_eq!(prefix, vec![old, read.clone()]);
    assert_eq!(tail, vec![shrink_file_window(read), plain]);
}
