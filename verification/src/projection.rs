//! Turns stored messages into the messages that a provider sees.
use crate::message::{
    call_models, clone_calls, clone_optional, clone_parts, message_models, projected_models,
    CanonicalMessage, ContentModel, MessageContent, MessageModel, ProjectedContent,
    ProjectedMessage, ProjectedModel, ToolCall,
};
use vstd::prelude::*;

verus! {

/// A tool result that answers no earlier call cannot be shown to a provider.
#[derive(Debug, PartialEq, Eq)]
pub struct ProjectionError {
    pub message_id: String,
}

/// Whether a message makes the call.
pub open spec fn makes_call(message: MessageModel, call_id: Seq<char>) -> bool {
    message.content matches ContentModel::Assistant { calls, .. } && exists|k: int|
        0 <= k < calls.len() && (#[trigger] calls[k]).call_id == call_id
}

/// Whether the message at `at` is no tool result, or answers a call made before it.
pub open spec fn is_answered(messages: Seq<MessageModel>, at: int) -> bool {
    messages[at].content matches ContentModel::ToolResult { result } ==> exists|from: int|
        0 <= from < at && makes_call(#[trigger] messages[from], result.call_id)
}

/// Whether every tool result answers a call made before it.
pub open spec fn projectable(messages: Seq<MessageModel>) -> bool {
    forall|at: int| 0 <= at < messages.len() ==> #[trigger] is_answered(messages, at)
}

/// What a provider sees of a message.
pub open spec fn project(message: MessageModel) -> ProjectedModel {
    ProjectedModel {
        message_id: message.message_id,
        role: message.role,
        content: message.content,
    }
}

/// What a provider sees of a list of messages.
pub open spec fn projection(messages: Seq<MessageModel>) -> Seq<ProjectedModel> {
    messages.map_values(|message: MessageModel| project(message))
}

fn lists_call(calls: &Vec<ToolCall>, call_id: &String) -> (found: bool)
    ensures
        found == exists|k: int|
            0 <= k < calls@.len() && (#[trigger] call_models(calls@)[k]).call_id == call_id@,
{
    let mut k: usize = 0;
    while k < calls.len()
        invariant
            k <= calls@.len(),
            forall|before: int|
                0 <= before < k ==> (#[trigger] call_models(calls@)[before]).call_id != call_id@,
        decreases calls.len() - k,
    {
        if calls[k].call_id == *call_id {
            proof {
                assert(call_models(calls@)[k as int].call_id == call_id@);
            }
            return true;
        }
        k += 1;
    }
    false
}

fn call_is_made(messages: &[CanonicalMessage], end: usize, call_id: &String) -> (found: bool)
    requires
        end <= messages@.len(),
    ensures
        found == exists|from: int|
            0 <= from < end && makes_call(
                #[trigger] message_models(messages@)[from],
                call_id@,
            ),
{
    let ghost models = message_models(messages@);
    let mut from: usize = 0;
    while from < end
        invariant
            from <= end <= messages@.len(),
            models == message_models(messages@),
            forall|before: int|
                0 <= before < from ==> !makes_call(#[trigger] models[before], call_id@),
        decreases end - from,
    {
        proof {
            assert(models[from as int] == messages@[from as int]@);
        }
        if let MessageContent::Assistant { calls, .. } = &messages[from].content {
            if lists_call(calls, call_id) {
                proof {
                    let made = call_models(calls@);
                    let k = choose|k: int|
                        0 <= k < calls@.len() && (#[trigger] made[k]).call_id == call_id@;
                    assert(models[from as int].content->calls == made);
                    assert(models[from as int].content->calls[k].call_id == call_id@);
                }
                return true;
            }
        }
        from += 1;
    }
    false
}

/// What a provider sees of a stored message.
pub fn project_message(message: &CanonicalMessage) -> (projected: ProjectedMessage)
    ensures
        projected@ == project(message@),
{
    let content = match &message.content {
        MessageContent::Parts { parts } => ProjectedContent::Parts(clone_parts(parts)),
        MessageContent::ToolResult(result) => ProjectedContent::ToolResult(result.clone()),
        MessageContent::Assistant { text, thinking, replay_state, calls } =>
            ProjectedContent::Assistant {
                text: text.clone(),
                thinking: thinking.clone(),
                replay_state: clone_optional(replay_state),
                calls: clone_calls(calls),
            },
    };
    ProjectedMessage { message_id: message.message_id.clone(), role: message.role, content }
}

/// Turns stored messages into what a provider sees of them, one for one. The first tool result
/// that answers no earlier call is an error.
pub fn project_messages(messages: &[CanonicalMessage]) -> (projected: Result<
    Vec<ProjectedMessage>,
    ProjectionError,
>)
    ensures
        match projected {
            Ok(projected) => {
                &&& projectable(message_models(messages@))
                &&& projected_models(projected@) == projection(message_models(messages@))
            },
            Err(error) => exists|at: int|
                {
                    &&& 0 <= at < messages@.len()
                    &&& !(#[trigger] is_answered(message_models(messages@), at))
                    &&& forall|before: int|
                        0 <= before < at ==> #[trigger] is_answered(
                            message_models(messages@),
                            before,
                        )
                    &&& error.message_id@ == message_models(messages@)[at].message_id
                },
        },
        projected is Err ==> !projectable(message_models(messages@)),
{
    let ghost models = message_models(messages@);
    let mut projected: Vec<ProjectedMessage> = Vec::new();
    let mut i: usize = 0;
    while i < messages.len()
        invariant
            i <= messages@.len(),
            models == message_models(messages@),
            projected_models(projected@) == projection(models.take(i as int)),
            forall|before: int| 0 <= before < i ==> #[trigger] is_answered(models, before),
        decreases messages.len() - i,
    {
        proof {
            assert(models[i as int] == messages@[i as int]@);
        }
        if let MessageContent::ToolResult(result) = &messages[i].content {
            if !call_is_made(messages, i, &result.call_id) {
                proof {
                    assert(!is_answered(models, i as int));
                }
                return Err(ProjectionError { message_id: messages[i].message_id.clone() });
            }
        }
        let ghost before = projected@;
        projected.push(project_message(&messages[i]));
        proof {
            assert(models.take(i + 1) =~= models.take(i as int).push(models[i as int]));
            assert(projected_models(projected@) =~= projected_models(before).push(
                project(models[i as int]),
            ));
            assert(projection(models.take(i + 1)) =~= projection(models.take(i as int)).push(
                project(models[i as int]),
            ));
        }
        i += 1;
    }
    proof {
        assert(models.take(i as int) =~= models);
    }
    Ok(projected)
}

/// A provider sees every message, in its order, with its identity, its role and its content.
pub proof fn projection_shows_every_message(messages: Seq<MessageModel>, i: int)
    requires
        0 <= i < messages.len(),
    ensures
        projection(messages).len() == messages.len(),
        projection(messages)[i].message_id == messages[i].message_id,
        projection(messages)[i].role == messages[i].role,
        projection(messages)[i].content == messages[i].content,
{
}

/// Messages stay projectable with one more message exactly when that message is no tool result,
/// or answers a call that one of them makes. No messages are projectable.
pub proof fn results_need_an_earlier_call(messages: Seq<MessageModel>, message: MessageModel)
    ensures
        projectable(Seq::empty()),
        projectable(messages.push(message)) <==> {
            &&& projectable(messages)
            &&& message.content matches ContentModel::ToolResult { result } ==> exists|
                i: int,
                k: int,
            |
                {
                    &&& 0 <= i < messages.len()
                    &&& messages[i].content is Assistant
                    &&& 0 <= k < messages[i].content->calls.len()
                    &&& (#[trigger] messages[i].content->calls[k]).call_id == result.call_id
                }
        },
{
    let longer = messages.push(message);
    let last = messages.len() as int;
    assert forall|at: int| 0 <= at < messages.len() implies (#[trigger] is_answered(longer, at)
        <==> is_answered(messages, at)) by {
        if let ContentModel::ToolResult { result } = messages[at].content {
            assert forall|from: int| 0 <= from < at implies makes_call(
                #[trigger] longer[from],
                result.call_id,
            ) == makes_call(messages[from], result.call_id) by {}
            if is_answered(longer, at) {
                let from = choose|from: int|
                    0 <= from < at && makes_call(#[trigger] longer[from], result.call_id);
                assert(makes_call(messages[from], result.call_id));
            }
            if is_answered(messages, at) {
                let from = choose|from: int|
                    0 <= from < at && makes_call(#[trigger] messages[from], result.call_id);
                assert(makes_call(longer[from], result.call_id));
            }
        }
    }
    if projectable(longer) {
        assert(is_answered(longer, last));
        assert forall|at: int| 0 <= at < messages.len() implies #[trigger] is_answered(
            messages,
            at,
        ) by {
            assert(is_answered(longer, at));
        }
        if let ContentModel::ToolResult { result } = message.content {
            let from = choose|from: int|
                0 <= from < last && makes_call(#[trigger] longer[from], result.call_id);
            let calls = messages[from].content->calls;
            let k = choose|k: int|
                0 <= k < calls.len() && (#[trigger] calls[k]).call_id == result.call_id;
            assert(messages[from].content->calls[k].call_id == result.call_id);
        }
    }
    if projectable(messages) && (message.content matches ContentModel::ToolResult { result }
        ==> exists|i: int, k: int|
        {
            &&& 0 <= i < messages.len()
            &&& messages[i].content is Assistant
            &&& 0 <= k < messages[i].content->calls.len()
            &&& (#[trigger] messages[i].content->calls[k]).call_id == result.call_id
        }) {
        if let ContentModel::ToolResult { result } = message.content {
            let (i, k) = choose|i: int, k: int|
                {
                    &&& 0 <= i < messages.len()
                    &&& messages[i].content is Assistant
                    &&& 0 <= k < messages[i].content->calls.len()
                    &&& (#[trigger] messages[i].content->calls[k]).call_id == result.call_id
                };
            assert(makes_call(longer[i], result.call_id));
        }
        assert forall|at: int| 0 <= at < longer.len() implies #[trigger] is_answered(
            longer,
            at,
        ) by {
            if at < last {
                assert(is_answered(messages, at));
            }
        }
    }
}

} // verus!
