//! What stands in place of a compacted conversation.
use crate::budget::{run_budget, OUTPUT_TOKENS};
use crate::file_window::{
    all_without_files, file_window, file_windows, is_file_window, no_kept_part_holds_a_file,
    only_messages_with_files_change, shrink_file_window,
    shrinking_never_reuses_an_identity, shrunk_messages_carry_no_files, stripped_part,
    stripping_never_adds_text, without_files, COMPACTED_FILE_WINDOW, COMPACTED_IDENTITY_SUFFIX,
};
use crate::json::{json_text, messages_json, serialize_messages};
use crate::message::{
    message_models, CanonicalMessage, ContentModel, ContentPart,
    MessageContent, MessageModel, Origin, PartModel, Role,
};
use crate::plan::{
    compactable_messages, division, held_messages, planned, planned_tail_carries_no_files,
    retained_context, tail_budget_of, tail_is_the_longest_that_fits,
    tail_leaves_room_for_the_answer, tail_opens_with_a_turn, tail_start, CompactionKind,
    CompactionPlan, PlanModel,
};
use crate::projection::{projectable, projection};
use crate::run::RunModel;
use crate::text::{ends_with, occurs};
use crate::tokens::{
    content_tokens, context_estimate, messages_tokens, parts_tokens, text_tokens, tokens_add_up,
};
use vstd::prelude::*;

verus! {

/// One more than the characters of the conversation that a fallback summary keeps.
pub const FALLBACK_CHARS: usize = 12_000;

/// The message that holds a summary.
pub open spec fn summary_of(event_id: Seq<char>, summary: Seq<char>) -> MessageModel {
    MessageModel {
        message_id: "runtime:"@ + event_id,
        role: Role::User,
        origin: Origin::Runtime,
        content: ContentModel::Parts {
            parts: seq![
                PartModel::Text {
                    text: "<conversation_summary>\n"@ + summary + "\n</conversation_summary>"@,
                },
            ],
        },
        runtime_event_id: Some(event_id),
    }
}

/// The conversation after a compaction: the retained request context, the summary, the tail, and
/// the messages of the current run without their files.
pub open spec fn replaced(
    plan: PlanModel,
    summary: MessageModel,
    initial: Seq<MessageModel>,
) -> Seq<MessageModel> {
    (match plan.retained {
        Some(context) => seq![context],
        None => seq![],
    }) + seq![summary] + plan.tail + all_without_files(initial)
}

/// The beginning of a text that a fallback summary keeps.
pub open spec fn kept_beginning(serialized: Seq<char>) -> Seq<char> {
    if serialized.len() < FALLBACK_CHARS {
        serialized
    } else {
        serialized.take(FALLBACK_CHARS - 1)
    }
}

/// The summary that is made of a conversation as text.
pub open spec fn fallback_of(serialized: Seq<char>) -> Seq<char> {
    "Durable conversation state:\n"@ + kept_beginning(serialized)
}

/// The summary that is made of messages without a provider.
pub open spec fn conversation_state(messages: Seq<MessageModel>) -> Seq<char> {
    fallback_of(
        match json_text(messages_json(messages)) {
            Some(serialized) => serialized,
            None => Seq::empty(),
        },
    )
}

/// The message that holds a summary.
pub fn summary_message(event_id: String, summary: &str) -> (message: CanonicalMessage)
    ensures
        message@ == summary_of(event_id@, summary@),
{
    let mut message_id = "runtime:".to_owned();
    message_id.append(event_id.as_str());
    let mut text = "<conversation_summary>\n".to_owned();
    text.append(summary);
    text.append("\n</conversation_summary>");
    let message = CanonicalMessage {
        message_id,
        role: Role::User,
        origin: Origin::Runtime,
        content: MessageContent::Parts { parts: vec![ContentPart::Text { text }] },
        runtime_event_id: Some(event_id),
    };
    proof {
        assert(message@.content->parts =~= summary_of(event_id@, summary@).content->parts);
    }
    message
}

/// The conversation after a compaction.
pub fn replacement(
    plan: &CompactionPlan,
    summary: CanonicalMessage,
    initial: &[CanonicalMessage],
) -> (messages: Vec<CanonicalMessage>)
    ensures
        message_models(messages@) == replaced(plan@, summary@, message_models(initial@)),
{
    let mut messages: Vec<CanonicalMessage> = Vec::new();
    if let Some(context) = &plan.retained_request_context {
        messages.push(context.clone());
    }
    messages.push(summary);
    messages.extend_from_slice(&plan.tail);
    let ghost start = replaced(plan@, summary@, Seq::empty());
    proof {
        assert(message_models(messages@) =~= start);
    }
    let ghost models = message_models(initial@);
    let mut i: usize = 0;
    proof {
        assert(start + all_without_files(models.take(0)) =~= start);
    }
    while i < initial.len()
        invariant
            i <= initial@.len(),
            models == message_models(initial@),
            message_models(messages@) == start + all_without_files(models.take(i as int)),
        decreases initial.len() - i,
    {
        let ghost before = messages@;
        proof {
            assert(models[i as int] == initial@[i as int]@);
        }
        let message = initial[i].clone();
        let message = if is_file_window(&message) {
            shrink_file_window(message)
        } else {
            message
        };
        messages.push(message);
        proof {
            assert(message_models(messages@) =~= message_models(before).push(
                without_files(models[i as int]),
            ));
            assert(start + all_without_files(models.take(i + 1)) =~= (start + all_without_files(
                models.take(i as int),
            )).push(without_files(models[i as int])));
        }
        i += 1;
    }
    proof {
        assert(models.take(i as int) =~= models);
        assert(replaced(plan@, summary@, models) =~= start + all_without_files(models));
    }
    messages
}

/// The summary of a conversation that is given as text: the beginning of the text, under a
/// heading. The oldest messages hold the goals, so the beginning is what is kept.
pub fn durable_state(serialized: &str) -> (summary: String)
    ensures
        summary@ == fallback_of(serialized@),
{
    let mut summary = "Durable conversation state:\n".to_owned();
    if serialized.unicode_len() < FALLBACK_CHARS {
        summary.append(serialized);
    } else {
        let kept = serialized.substring_char(0, FALLBACK_CHARS - 1);
        proof {
            assert(kept@ =~= serialized@.take(FALLBACK_CHARS - 1));
        }
        summary.append(kept);
    }
    summary
}

/// The summary that is made without a provider: the beginning of the conversation as JSON text.
pub fn fallback_summary(messages: &[CanonicalMessage]) -> (summary: String)
    ensures
        summary@ == fallback_of(
            match json_text(messages_json(message_models(messages@))) {
                Some(serialized) => serialized,
                None => Seq::empty(),
            },
        ),
        summary@ == conversation_state(message_models(messages@)),
{
    match serialize_messages(messages) {
        Some(serialized) => durable_state(&serialized),
        None => durable_state(String::new().as_str()),
    }
}

/// After a compaction only the retained request context and the summary can carry files: the
/// tail and the messages of the current run do not.
pub proof fn replacement_carries_no_files(
    messages: Seq<MessageModel>,
    current_ids: Set<Seq<char>>,
    run: RunModel,
    kind: CompactionKind,
    summary: MessageModel,
)
    ensures
        planned(messages, current_ids, run, kind) matches Some(plan) ==> ({
            let result = replaced(plan, summary, run.initial);
            let kept_from = if plan.retained is Some {
                2int
            } else {
                1int
            };
            forall|i: int| kept_from <= i < result.len() ==> !file_window(#[trigger] result[i])
        }),
{
    if let Some(plan) = planned(messages, current_ids, run, kind) {
        planned_tail_carries_no_files(messages, current_ids, run, kind);
        let result = replaced(plan, summary, run.initial);
        let kept_from = if plan.retained is Some {
            2int
        } else {
            1int
        };
        assert forall|i: int| kept_from <= i < result.len() implies !file_window(
            #[trigger] result[i],
        ) by {
            let k = i - kept_from;
            if k < plan.tail.len() {
                assert(result[i] == plan.tail[k]);
            } else {
                let j = k - plan.tail.len();
                assert(result[i] == without_files(run.initial[j]));
                shrunk_messages_carry_no_files(run.initial[j]);
            }
        }
    }
}

/// Whether a message is none that a marker longer than its content would replace: what a file
/// that was read says takes at least the tokens of the marker that stands in its place.
pub open spec fn outweighs_the_marker(message: MessageModel) -> bool {
    message.content matches ContentModel::ToolResult { result } ==> file_window(message)
        ==> text_tokens(COMPACTED_FILE_WINDOW@) <= text_tokens(result.content)
}

proof fn lemma_stripped_parts_weigh_no_more(parts: Seq<PartModel>)
    ensures
        parts_tokens(parts.map_values(|part: PartModel| stripped_part(part))) <= parts_tokens(
            parts,
        ),
    decreases parts.len(),
{
    let slim = parts.map_values(|part: PartModel| stripped_part(part));
    if parts.len() > 0 {
        assert(slim.drop_last() =~= parts.drop_last().map_values(
            |part: PartModel| stripped_part(part),
        ));
        lemma_stripped_parts_weigh_no_more(parts.drop_last());
        if let PartModel::Text { text } = parts.last() {
            stripping_never_adds_text(text);
        }
    }
}

/// A message weighs no more without its files.
pub proof fn shrinking_never_adds_tokens(message: MessageModel)
    requires
        outweighs_the_marker(message),
    ensures
        content_tokens(without_files(message).content) <= content_tokens(message.content),
{
    if let ContentModel::Parts { parts } = message.content {
        lemma_stripped_parts_weigh_no_more(parts);
    }
}

proof fn lemma_messages_weigh_no_more(messages: Seq<MessageModel>)
    requires
        forall|i: int| 0 <= i < messages.len() ==> outweighs_the_marker(#[trigger] messages[i]),
    ensures
        messages_tokens(projection(all_without_files(messages))) <= messages_tokens(
            projection(messages),
        ),
    decreases messages.len(),
{
    if messages.len() > 0 {
        let before = messages.drop_last();
        assert(projection(all_without_files(messages)).drop_last() =~= projection(
            all_without_files(before),
        ));
        assert(projection(messages).drop_last() =~= projection(before));
        lemma_messages_weigh_no_more(before);
        shrinking_never_adds_tokens(messages.last());
    }
}

proof fn lemma_one_message(message: MessageModel)
    ensures
        messages_tokens(projection(seq![message])) == content_tokens(message.content),
{
    let one = projection(seq![message]);
    assert(one.drop_last() =~= Seq::empty());
    reveal_with_fuel(messages_tokens, 2);
}

/// The tokens of the conversation after a compaction.
proof fn lemma_replaced_tokens(plan: PlanModel, summary: MessageModel, initial: Seq<MessageModel>)
    ensures
        messages_tokens(projection(replaced(plan, summary, initial))) == (match plan.retained {
            Some(context) => content_tokens(context.content),
            None => 0,
        }) + content_tokens(summary.content) + messages_tokens(projection(plan.tail))
            + messages_tokens(projection(all_without_files(initial))),
{
    let contexts: Seq<MessageModel> = match plan.retained {
        Some(context) => seq![context],
        None => seq![],
    };
    let slim = all_without_files(initial);
    let head = contexts + seq![summary];
    assert(projection(replaced(plan, summary, initial)) =~= projection(head + plan.tail)
        + projection(slim));
    assert(projection(head + plan.tail) =~= projection(head) + projection(plan.tail));
    assert(projection(head) =~= projection(contexts) + projection(seq![summary]));
    tokens_add_up(projection(head + plan.tail), projection(slim));
    tokens_add_up(projection(head), projection(plan.tail));
    tokens_add_up(projection(contexts), projection(seq![summary]));
    lemma_one_message(summary);
    if let Some(context) = plan.retained {
        lemma_one_message(context);
    }
}

/// A compaction brings the context within its budget: with a summary that takes no more than what
/// was kept free for it, the conversation after the compaction passes the check that it is held
/// to. This needs room beside the messages that stay, and files that outweigh the markers that
/// replace them.
pub proof fn compaction_brings_the_context_within_its_budget(
    messages: Seq<MessageModel>,
    current_ids: Set<Seq<char>>,
    run: RunModel,
    kind: CompactionKind,
    summary: MessageModel,
)
    requires
        content_tokens(summary.content) <= OUTPUT_TOKENS,
        projectable(held_messages(run, retained_context(messages, current_ids))),
        tail_budget_of(run, retained_context(messages, current_ids)) matches Some(budget) && 0
            < budget,
        forall|i: int|
            0 <= i < compactable_messages(messages, current_ids).len() ==> outweighs_the_marker(
                #[trigger] compactable_messages(messages, current_ids)[i],
            ),
        forall|i: int|
            0 <= i < run.initial.len() ==> outweighs_the_marker(#[trigger] run.initial[i]),
    ensures
        planned(messages, current_ids, run, kind) matches Some(plan) ==> run_budget(
            run,
        ) matches Some(budget) && context_estimate(
            run.prompt,
            projection(replaced(plan, summary, run.initial)),
        ) <= budget,
{
    if let Some(plan) = planned(messages, current_ids, run, kind) {
        let compactable = compactable_messages(messages, current_ids);
        let retained = retained_context(messages, current_ids);
        let budget = tail_budget_of(run, retained);
        let at = division(
            compactable,
            file_windows(run.initial),
            tail_start(compactable, budget),
            kind,
        )->0;
        let tail = compactable.skip(at);
        tail_opens_with_a_turn(compactable, budget);
        assert(projection(tail) =~= projection(compactable).skip(at));
        if projectable(compactable) {
            tail_is_the_longest_that_fits(compactable, budget->0, 0);
        }
        if at == compactable.len() {
            assert(projection(tail) =~= Seq::empty());
        }
        tail_leaves_room_for_the_answer(run, retained, projection(tail));
        assert forall|i: int| 0 <= i < tail.len() implies outweighs_the_marker(
            #[trigger] tail[i],
        ) by {
            assert(compactable[at + i] == tail[i]);
        }
        lemma_messages_weigh_no_more(tail);
        lemma_messages_weigh_no_more(run.initial);
        lemma_replaced_tokens(plan, summary, run.initial);
        let held = held_messages(run, retained);
        if let Some(context) = retained {
            assert(projection(held) =~= projection(seq![context]) + projection(run.initial));
            tokens_add_up(projection(seq![context]), projection(run.initial));
            lemma_one_message(context);
        }
    }
}

/// The conversation after a compaction is the retained request context if there is one, the
/// summary, as many messages as the tail holds, and as many as the current run has.
pub proof fn replacement_keeps_its_order(
    plan: PlanModel,
    summary: MessageModel,
    initial: Seq<MessageModel>,
)
    ensures
        ({
            let result = replaced(plan, summary, initial);
            let contexts = if plan.retained is Some {
                1int
            } else {
                0int
            };
            let tail_from = contexts + 1;
            let initial_from = tail_from + plan.tail.len();
            &&& result.len() == initial_from + initial.len()
            &&& plan.retained matches Some(context) ==> result[0] == context
            &&& result[contexts] == summary
            &&& forall|i: int|
                0 <= i < plan.tail.len() ==> result[tail_from + i] == #[trigger] plan.tail[i]
            &&& forall|i: int|
                0 <= i < initial.len() ==> result[initial_from + i] == without_files(
                    #[trigger] initial[i],
                )
        }),
{
}

/// A message that is kept after a compaction stands under the identity that it had only if it is
/// unchanged, or if that identity was marked already.
pub proof fn kept_messages_never_change_under_their_identity(message: MessageModel)
    ensures
        without_files(message).message_id == message.message_id ==> {
            ||| without_files(message) == message
            ||| ends_with(message.message_id, COMPACTED_IDENTITY_SUFFIX@)
        },
{
    shrinking_never_reuses_an_identity(message);
}

/// A fallback summary keeps the oldest part of the conversation: after its heading it is a
/// beginning of the text, and the whole text where that is short enough.
pub proof fn fallback_keeps_the_beginning(serialized: Seq<char>)
    ensures
        ({
            let heading = "Durable conversation state:\n"@;
            let summary = fallback_of(serialized);
            let kept = summary.len() - heading.len();
            &&& summary.take(heading.len() as int) == heading
            &&& 0 <= kept <= serialized.len()
            &&& summary.skip(heading.len() as int) == serialized.take(kept)
            &&& kept < FALLBACK_CHARS
            &&& serialized.len() < FALLBACK_CHARS ==> kept == serialized.len()
            &&& serialized.len() >= FALLBACK_CHARS ==> kept == FALLBACK_CHARS - 1
        }),
{
    let heading = "Durable conversation state:\n"@;
    let summary = fallback_of(serialized);
    assert(summary.take(heading.len() as int) =~= heading);
    assert(summary.skip(heading.len() as int) =~= serialized.take(summary.len() - heading.len()));
}

/// A summary stands in a user's message of the runtime, under an identity made of its event's, as
/// one text between the tags of a summary.
pub proof fn summaries_stand_between_their_tags(event_id: Seq<char>, summary: Seq<char>)
    ensures
        ({
            let message = summary_of(event_id, summary);
            &&& message.message_id == "runtime:"@ + event_id
            &&& message.role == Role::User
            &&& message.origin == Origin::Runtime
            &&& message.runtime_event_id == Some(event_id)
            &&& message.content matches ContentModel::Parts { parts }
            &&& parts.len() == 1
            &&& parts[0] matches PartModel::Text { text }
            &&& text == "<conversation_summary>\n"@ + summary + "\n</conversation_summary>"@
        }),
{
}

/// Of a conversation as text a fallback summary keeps all where that is less than twelve thousand
/// characters, and otherwise the first that are one fewer; texts that begin alike that far have
/// the same summary.
pub proof fn fallback_is_a_heading_and_a_beginning(serialized: Seq<char>, more: Seq<char>)
    ensures
        serialized.len() <= 11_999 ==> fallback_of(serialized) == "Durable conversation state:\n"@
            + serialized,
        serialized.len() == 11_999 ==> fallback_of(serialized + more) == fallback_of(serialized),
{
    assert((serialized + more).take(serialized.len() as int) =~= serialized);
    if more.len() == 0 {
        assert(serialized + more =~= serialized);
    }
}

/// The fallback summary of messages is made of their JSON text, of all of them and in their order;
/// where they cannot be written it is the heading alone.
pub proof fn fallback_is_made_of_the_whole_conversation(messages: Seq<MessageModel>)
    ensures
        match json_text(messages_json(messages)) {
            Some(serialized) => {
                &&& serialized.len() < 12_000 ==> conversation_state(messages)
                    == "Durable conversation state:\n"@ + serialized
                &&& serialized.len() >= 12_000 ==> conversation_state(messages)
                    == "Durable conversation state:\n"@ + serialized.take(11_999)
            },
            None => conversation_state(messages) == "Durable conversation state:\n"@,
        },
{
    assert("Durable conversation state:\n"@ + Seq::<char>::empty()
        =~= "Durable conversation state:\n"@);
}

/// After a compaction no text part of the tail or of the current run's messages, at any position,
/// is a closed block with a file or a piece of code in it and text around the block.
pub proof fn replacement_holds_no_files_in_any_part(
    messages: Seq<MessageModel>,
    current_ids: Set<Seq<char>>,
    run: RunModel,
    kind: CompactionKind,
    summary: MessageModel,
    at: int,
    part: int,
    before: Seq<char>,
    inside: Seq<char>,
    after: Seq<char>,
)
    requires
        !occurs(before, "<selected_context>"@),
        !occurs(inside, "</selected_context>"@),
        occurs(inside, "<file"@) || occurs(inside, "<code "@),
    ensures
        planned(messages, current_ids, run, kind) matches Some(plan) ==> ({
            let result = replaced(plan, summary, run.initial);
            let kept_from = if plan.retained is Some {
                2int
            } else {
                1int
            };
            kept_from <= at < result.len() ==> (result[at].content matches ContentModel::Parts {
                parts,
            } ==> 0 <= part < parts.len() ==> parts[part] != (PartModel::Text {
                text: before + "<selected_context>"@ + inside + "</selected_context>"@ + after,
            }))
        }),
{
    replacement_carries_no_files(messages, current_ids, run, kind, summary);
    if let Some(plan) = planned(messages, current_ids, run, kind) {
        let message = replaced(plan, summary, run.initial)[at];
        only_messages_with_files_change(message);
        no_kept_part_holds_a_file(message, part, before, inside, after);
    }
}

/// What is left of each message of the current run stands behind the tail, and what is left of it
/// depends on that message alone.
pub proof fn the_current_run_stays_behind_the_tail(
    plan: PlanModel,
    summary: MessageModel,
    first: Seq<MessageModel>,
    second: Seq<MessageModel>,
)
    ensures
        replaced(plan, summary, first + second) == replaced(plan, summary, first)
            + all_without_files(second),
        replaced(plan, summary, Seq::empty()) == (match plan.retained {
            Some(context) => seq![context],
            None => Seq::empty(),
        }) + seq![summary] + plan.tail,
{
    assert(all_without_files(first + second) =~= all_without_files(first) + all_without_files(
        second,
    ));
    assert(replaced(plan, summary, first + second) =~= replaced(plan, summary, first)
        + all_without_files(second));
    assert(all_without_files(Seq::empty()) =~= Seq::empty());
}

} // verus!
