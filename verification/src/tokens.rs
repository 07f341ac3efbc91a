//! Estimates how many tokens a provider will count.
use crate::message::{
    call_models, part_models, projected_models, CallModel, ContentModel, ContentPart, PartModel,
    ProjectedContent, ProjectedMessage, ProjectedModel, ToolCall,
};
use crate::run::{tool_models, PromptModel, PromptSpec, ToolModel, ToolSpec};
use vstd::prelude::*;

verus! {

/// How many characters are taken for one token.
pub const CHARS_PER_TOKEN: usize = 4;

/// The tokens of a text: its characters over `CHARS_PER_TOKEN`, rounded up.
pub open spec fn text_tokens(text: Seq<char>) -> nat {
    (text.len() + CHARS_PER_TOKEN as nat - 1) as nat / (CHARS_PER_TOKEN as nat)
}

/// The tokens of a part.
pub open spec fn part_tokens(part: PartModel) -> nat {
    match part {
        PartModel::Text { text } => text_tokens(text),
        PartModel::Image { media_type, data } => text_tokens(data),
    }
}

/// The tokens of a list of parts.
pub open spec fn parts_tokens(parts: Seq<PartModel>) -> nat
    decreases parts.len(),
{
    if parts.len() == 0 {
        0
    } else {
        parts_tokens(parts.drop_last()) + part_tokens(parts.last())
    }
}

/// The tokens of a call.
pub open spec fn call_tokens(call: CallModel) -> nat {
    text_tokens(call.name) + text_tokens(call.arguments)
}

/// The tokens of a list of calls.
pub open spec fn calls_tokens(calls: Seq<CallModel>) -> nat
    decreases calls.len(),
{
    if calls.len() == 0 {
        0
    } else {
        calls_tokens(calls.drop_last()) + call_tokens(calls.last())
    }
}

/// The tokens of a message's content.
pub open spec fn content_tokens(content: ContentModel) -> nat {
    match content {
        ContentModel::Parts { parts } => parts_tokens(parts),
        ContentModel::ToolResult { result } => text_tokens(result.content),
        ContentModel::Assistant { text, thinking, replay_state, calls } => text_tokens(text)
            + text_tokens(thinking) + (match replay_state {
            Some(state) => text_tokens(state),
            None => 0,
        }) + calls_tokens(calls),
    }
}

/// The tokens of a list of messages.
pub open spec fn messages_tokens(messages: Seq<ProjectedModel>) -> nat
    decreases messages.len(),
{
    if messages.len() == 0 {
        0
    } else {
        messages_tokens(messages.drop_last()) + content_tokens(messages.last().content)
    }
}

/// The tokens of a tool's description.
pub open spec fn tool_tokens(tool: ToolModel) -> nat {
    text_tokens(tool.name) + text_tokens(tool.description) + text_tokens(tool.parameters)
}

/// The tokens of a list of tools.
pub open spec fn tools_tokens(tools: Seq<ToolModel>) -> nat
    decreases tools.len(),
{
    if tools.len() == 0 {
        0
    } else {
        tools_tokens(tools.drop_last()) + tool_tokens(tools.last())
    }
}

/// The tokens of what goes before the messages.
pub open spec fn prompt_tokens(prompt: PromptModel) -> nat {
    text_tokens(prompt.instructions) + tools_tokens(prompt.tools)
}

/// A count as it is reported: counts beyond the range of `u64` are reported as its maximum.
pub open spec fn reported(count: nat) -> u64 {
    if count > u64::MAX {
        u64::MAX
    } else {
        count as u64
    }
}

/// The estimate for a list of messages.
pub open spec fn messages_estimate(messages: Seq<ProjectedModel>) -> u64 {
    reported(messages_tokens(messages))
}

/// The estimate for a prompt followed by messages.
pub open spec fn context_estimate(prompt: PromptModel, messages: Seq<ProjectedModel>) -> u64 {
    reported(prompt_tokens(prompt) + messages_tokens(messages))
}

fn count_text(text: &str) -> (tokens: u64)
    ensures
        tokens == text_tokens(text@),
{
    let chars: usize = text.unicode_len();
    let whole: u64 = (chars / CHARS_PER_TOKEN) as u64;
    if chars % CHARS_PER_TOKEN == 0 {
        whole
    } else {
        whole + 1
    }
}

fn count_part(part: &ContentPart) -> (tokens: u64)
    ensures
        tokens == part_tokens(part@),
{
    match part {
        ContentPart::Text { text } => count_text(text),
        ContentPart::Image { media_type: _, data } => count_text(data),
    }
}

fn count_parts(parts: &Vec<ContentPart>) -> (tokens: u64)
    ensures
        tokens == reported(parts_tokens(part_models(parts@))),
{
    let ghost models = part_models(parts@);
    let mut tokens: u64 = 0;
    let mut i: usize = 0;
    while i < parts.len()
        invariant
            i <= parts@.len(),
            models == part_models(parts@),
            tokens == reported(parts_tokens(models.take(i as int))),
        decreases parts.len() - i,
    {
        proof {
            assert(models.take(i + 1).drop_last() =~= models.take(i as int));
        }
        tokens = tokens.saturating_add(count_part(&parts[i]));
        i += 1;
    }
    proof {
        assert(models.take(i as int) =~= models);
    }
    tokens
}

fn count_calls(calls: &Vec<ToolCall>) -> (tokens: u64)
    ensures
        tokens == reported(calls_tokens(call_models(calls@))),
{
    let ghost models = call_models(calls@);
    let mut tokens: u64 = 0;
    let mut i: usize = 0;
    while i < calls.len()
        invariant
            i <= calls@.len(),
            models == call_models(calls@),
            tokens == reported(calls_tokens(models.take(i as int))),
        decreases calls.len() - i,
    {
        proof {
            assert(models.take(i + 1).drop_last() =~= models.take(i as int));
        }
        tokens = tokens.saturating_add(count_text(&calls[i].name)).saturating_add(
            count_text(&calls[i].arguments),
        );
        i += 1;
    }
    proof {
        assert(models.take(i as int) =~= models);
    }
    tokens
}

fn count_content(content: &ProjectedContent) -> (tokens: u64)
    ensures
        tokens == reported(content_tokens(content@)),
{
    match content {
        ProjectedContent::Parts(parts) => count_parts(parts),
        ProjectedContent::ToolResult(result) => count_text(&result.content),
        ProjectedContent::Assistant { text, thinking, replay_state, calls } => {
            let state: u64 = match replay_state {
                Some(state) => count_text(state),
                None => 0,
            };
            count_text(text).saturating_add(count_text(thinking)).saturating_add(
                state,
            ).saturating_add(count_calls(calls))
        },
    }
}

fn count_tools(tools: &Vec<ToolSpec>) -> (tokens: u64)
    ensures
        tokens == reported(tools_tokens(tool_models(tools@))),
{
    let ghost models = tool_models(tools@);
    let mut tokens: u64 = 0;
    let mut i: usize = 0;
    while i < tools.len()
        invariant
            i <= tools@.len(),
            models == tool_models(tools@),
            tokens == reported(tools_tokens(models.take(i as int))),
        decreases tools.len() - i,
    {
        proof {
            assert(models.take(i + 1).drop_last() =~= models.take(i as int));
        }
        tokens = tokens.saturating_add(count_text(&tools[i].name)).saturating_add(
            count_text(&tools[i].description),
        ).saturating_add(count_text(&tools[i].parameters));
        i += 1;
    }
    proof {
        assert(models.take(i as int) =~= models);
    }
    tokens
}

/// Estimates the tokens of a list of messages.
pub fn estimate_projected_messages_tokens(messages: &[ProjectedMessage]) -> (tokens: u64)
    ensures
        tokens == messages_estimate(projected_models(messages@)),
{
    let ghost models = projected_models(messages@);
    let mut tokens: u64 = 0;
    let mut i: usize = 0;
    while i < messages.len()
        invariant
            i <= messages@.len(),
            models == projected_models(messages@),
            tokens == messages_estimate(models.take(i as int)),
        decreases messages.len() - i,
    {
        proof {
            assert(models.take(i + 1).drop_last() =~= models.take(i as int));
        }
        tokens = tokens.saturating_add(count_content(&messages[i].content));
        i += 1;
    }
    proof {
        assert(models.take(i as int) =~= models);
    }
    tokens
}

/// Estimates the tokens of a whole request: the prompt and the messages after it.
pub fn estimate_context_tokens(prompt: &PromptSpec, messages: &[ProjectedMessage]) -> (tokens: u64)
    ensures
        tokens == context_estimate(prompt@, projected_models(messages@)),
{
    count_text(&prompt.instructions).saturating_add(count_tools(&prompt.tools)).saturating_add(
        estimate_projected_messages_tokens(messages),
    )
}

/// The tokens of two lists of messages add up.
pub proof fn tokens_add_up(first: Seq<ProjectedModel>, second: Seq<ProjectedModel>)
    ensures
        messages_tokens(first + second) == messages_tokens(first) + messages_tokens(second),
    decreases second.len(),
{
    if second.len() == 0 {
        assert(first + second =~= first);
    } else {
        assert((first + second).drop_last() =~= first + second.drop_last());
        tokens_add_up(first, second.drop_last());
    }
}

/// A longer beginning of a list never has fewer tokens.
pub proof fn longer_prefix_has_more_tokens(messages: Seq<ProjectedModel>, short: int, long: int)
    requires
        0 <= short <= long <= messages.len(),
    ensures
        messages_estimate(messages.take(short)) <= messages_estimate(messages.take(long)),
{
    assert(messages.take(long) =~= messages.take(short) + messages.subrange(short, long));
    tokens_add_up(messages.take(short), messages.subrange(short, long));
}

/// A longer end of a list never has fewer tokens.
pub proof fn longer_suffix_has_more_tokens(messages: Seq<ProjectedModel>, long: int, short: int)
    requires
        0 <= long <= short <= messages.len(),
    ensures
        messages_estimate(messages.skip(short)) <= messages_estimate(messages.skip(long)),
{
    assert(messages.skip(long) =~= messages.subrange(long, short) + messages.skip(short));
    tokens_add_up(messages.subrange(long, short), messages.skip(short));
}

/// A text has a token for every four characters, and one more for what is left over.
pub proof fn four_characters_are_a_token(text: Seq<char>)
    ensures
        text.len() <= 4 * text_tokens(text) < text.len() + 4,
{
}

/// The tokens of parts add up, and each part weighs what its text or its data does.
pub proof fn every_part_is_counted(first: Seq<PartModel>, second: Seq<PartModel>, part: PartModel)
    ensures
        parts_tokens(first + second) == parts_tokens(first) + parts_tokens(second),
        parts_tokens(seq![part]) == match part {
            PartModel::Text { text } => text_tokens(text),
            PartModel::Image { media_type, data } => text_tokens(data),
        },
    decreases second.len(),
{
    assert(seq![part].drop_last() =~= Seq::empty());
    reveal_with_fuel(parts_tokens, 2);
    if second.len() == 0 {
        assert(first + second =~= first);
    } else {
        assert((first + second).drop_last() =~= first + second.drop_last());
        every_part_is_counted(first, second.drop_last(), part);
    }
}

/// The tokens of calls add up, and each call weighs what its name and its arguments do.
pub proof fn every_call_is_counted(first: Seq<CallModel>, second: Seq<CallModel>, call: CallModel)
    ensures
        calls_tokens(first + second) == calls_tokens(first) + calls_tokens(second),
        calls_tokens(seq![call]) == text_tokens(call.name) + text_tokens(call.arguments),
    decreases second.len(),
{
    assert(seq![call].drop_last() =~= Seq::empty());
    reveal_with_fuel(calls_tokens, 2);
    if second.len() == 0 {
        assert(first + second =~= first);
    } else {
        assert((first + second).drop_last() =~= first + second.drop_last());
        every_call_is_counted(first, second.drop_last(), call);
    }
}

/// A message weighs what all that it holds does.
pub proof fn all_of_a_message_is_counted(message: ProjectedModel)
    ensures
        messages_tokens(seq![message]) == match message.content {
            ContentModel::Parts { parts } => parts_tokens(parts),
            ContentModel::ToolResult { result } => text_tokens(result.content),
            ContentModel::Assistant { text, thinking, replay_state: Some(state), calls } =>
                text_tokens(text) + text_tokens(thinking) + text_tokens(state) + calls_tokens(
                    calls,
                ),
            ContentModel::Assistant { text, thinking, replay_state: None, calls } => text_tokens(
                text,
            ) + text_tokens(thinking) + calls_tokens(calls),
        },
{
    assert(seq![message].drop_last() =~= Seq::empty());
    reveal_with_fuel(messages_tokens, 2);
}

/// The tokens of tools add up, and each tool weighs what its texts do; a prompt weighs what its
/// instructions and its tools do.
pub proof fn all_of_a_prompt_is_counted(
    first: Seq<ToolModel>,
    second: Seq<ToolModel>,
    tool: ToolModel,
    prompt: PromptModel,
)
    ensures
        tools_tokens(first + second) == tools_tokens(first) + tools_tokens(second),
        tools_tokens(seq![tool]) == text_tokens(tool.name) + text_tokens(tool.description)
            + text_tokens(tool.parameters),
        prompt_tokens(prompt) == text_tokens(prompt.instructions) + tools_tokens(prompt.tools),
    decreases second.len(),
{
    assert(seq![tool].drop_last() =~= Seq::empty());
    reveal_with_fuel(tools_tokens, 2);
    if second.len() == 0 {
        assert(first + second =~= first);
    } else {
        assert((first + second).drop_last() =~= first + second.drop_last());
        all_of_a_prompt_is_counted(first, second.drop_last(), tool, prompt);
    }
}

/// An estimate is the count, where that is in the range of `u64`; otherwise it is the largest
/// number of that range.
pub proof fn estimates_are_counts(prompt: PromptModel, messages: Seq<ProjectedModel>)
    ensures
        ({
            let count = messages_tokens(messages);
            &&& count <= 0xffff_ffff_ffff_ffff ==> messages_estimate(messages) == count
            &&& count > 0xffff_ffff_ffff_ffff ==> messages_estimate(messages)
                == 0xffff_ffff_ffff_ffff
        }),
        ({
            let count = prompt_tokens(prompt) + messages_tokens(messages);
            &&& count <= 0xffff_ffff_ffff_ffff ==> context_estimate(prompt, messages) == count
            &&& count > 0xffff_ffff_ffff_ffff ==> context_estimate(prompt, messages)
                == 0xffff_ffff_ffff_ffff
        }),
{
}

} // verus!
