//! A run that is about to call a provider.
use crate::message::{message_models, CanonicalMessage, MessageModel};
use vstd::prelude::*;

verus! {

/// The identity of a run.
#[derive(Debug, PartialEq, Eq)]
pub struct RunId(pub String);

/// The identity of a conversation.
#[derive(Debug, PartialEq, Eq)]
pub struct ConversationId(pub String);

/// The identity of a stored checkpoint.
#[derive(Clone, Copy, Debug, PartialEq, Eq, Structural)]
pub struct CheckpointId(pub u64);

/// Whether a run was started by a user or by another run.
#[derive(Clone, Copy, Debug, PartialEq, Eq, Structural)]
pub enum RunKind {
    Root,
    Child,
}

/// What a run does first.
#[derive(Clone, Copy, Debug, PartialEq, Eq, Structural)]
pub enum RunAction {
    Start,
    Resume { pending_tool_round: Option<u64> },
}

/// The model that a run calls.
#[derive(Debug, PartialEq, Eq)]
pub struct ModelSpec {
    pub name: String,
    /// The size of the context window, where it is known.
    pub context_window_tokens: Option<u64>,
}

/// A tool that a provider is told of.
#[derive(Debug, PartialEq, Eq)]
pub struct ToolSpec {
    pub name: String,
    pub description: String,
    pub parameters: String,
}

/// What goes to the provider before the messages.
#[derive(Debug, PartialEq, Eq)]
pub struct PromptSpec {
    pub instructions: String,
    pub tools: Vec<ToolSpec>,
}

/// A run with everything that its next provider call needs.
#[derive(Debug, PartialEq, Eq)]
pub struct PreparedRun {
    pub run_id: RunId,
    pub cursor_request_id: Option<String>,
    pub conversation_id: ConversationId,
    pub kind: RunKind,
    pub model: ModelSpec,
    pub prompt: PromptSpec,
    /// The messages that this run adds to the conversation.
    pub initial_messages: Vec<CanonicalMessage>,
    pub action: RunAction,
    pub base_checkpoint_id: CheckpointId,
}

/// What the provider charged for the context of the last call, and how many messages that
/// context held.
#[derive(Clone, Copy, Debug, PartialEq, Eq, Structural)]
pub struct ContextUsageAnchor {
    pub context_input_tokens: u64,
    pub message_count: usize,
}

/// What a `ToolSpec` holds.
#[verifier::ext_equal]
pub struct ToolModel {
    pub name: Seq<char>,
    pub description: Seq<char>,
    pub parameters: Seq<char>,
}

/// What a `PromptSpec` holds.
#[verifier::ext_equal]
pub struct PromptModel {
    pub instructions: Seq<char>,
    pub tools: Seq<ToolModel>,
}

/// What of a `PreparedRun` decides about its context.
#[verifier::ext_equal]
pub struct RunModel {
    pub context_window: Option<u64>,
    pub prompt: PromptModel,
    pub initial: Seq<MessageModel>,
}

/// What a list of tools holds.
pub open spec fn tool_models(tools: Seq<ToolSpec>) -> Seq<ToolModel> {
    tools.map_values(|tool: ToolSpec| tool@)
}

impl View for ToolSpec {
    type V = ToolModel;

    open spec fn view(&self) -> ToolModel {
        ToolModel {
            name: self.name@,
            description: self.description@,
            parameters: self.parameters@,
        }
    }
}

impl View for PromptSpec {
    type V = PromptModel;

    open spec fn view(&self) -> PromptModel {
        PromptModel { instructions: self.instructions@, tools: tool_models(self.tools@) }
    }
}

impl View for PreparedRun {
    type V = RunModel;

    open spec fn view(&self) -> RunModel {
        RunModel {
            context_window: self.model.context_window_tokens,
            prompt: self.prompt@,
            initial: message_models(self.initial_messages@),
        }
    }
}

impl RunId {
    pub fn new(id: &str) -> (run_id: Self)
        ensures
            run_id.0@ == id@,
    {
        RunId(id.to_owned())
    }
}

impl ConversationId {
    pub fn new(id: &str) -> (conversation_id: Self)
        ensures
            conversation_id.0@ == id@,
    {
        ConversationId(id.to_owned())
    }
}

impl ModelSpec {
    /// A model whose context window is not known.
    pub fn new(name: &str) -> (model: Self)
        ensures
            model.name@ == name@,
            model.context_window_tokens == None::<u64>,
    {
        ModelSpec { name: name.to_owned(), context_window_tokens: None }
    }
}

/// What decides about a run's context is the window of its model, all of its prompt and all of
/// its messages.
pub proof fn run_models_lose_nothing(prepared: PreparedRun, i: int)
    ensures
        prepared@.context_window == prepared.model.context_window_tokens,
        prepared@.prompt.instructions == prepared.prompt.instructions@,
        prepared@.prompt.tools.len() == prepared.prompt.tools@.len(),
        0 <= i < prepared.prompt.tools@.len() ==> ({
            let tool = prepared.prompt.tools@[i];
            let model = prepared@.prompt.tools[i];
            &&& model.name == tool.name@
            &&& model.description == tool.description@
            &&& model.parameters == tool.parameters@
        }),
        prepared@.initial.len() == prepared.initial_messages@.len(),
        0 <= i < prepared.initial_messages@.len() ==> prepared@.initial[i]
            == prepared.initial_messages@[i]@,
{
}

} // verus!
