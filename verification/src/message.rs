//! Conversation messages as they are stored, and as a provider sees them.
use vstd::prelude::*;

verus! {

/// Who speaks in a message.
#[derive(Clone, Copy, Debug, PartialEq, Eq, Structural)]
pub enum Role {
    User,
    Assistant,
    Tool,
}

/// Where a message came from.
#[derive(Clone, Copy, Debug, PartialEq, Eq, Structural)]
pub enum Origin {
    Runtime,
    Assistant,
    Tool,
}

/// A piece of user-visible content.
#[derive(Debug, PartialEq, Eq)]
pub enum ContentPart {
    Text { text: String },
    Image { media_type: String, data: String },
}

/// A tool call that an assistant message makes.
#[derive(Debug, PartialEq, Eq)]
pub struct ToolCall {
    pub call_id: String,
    pub name: String,
    pub arguments: String,
}

/// What a tool answered to a call.
#[derive(Debug, PartialEq, Eq)]
pub struct ToolResult {
    pub call_id: String,
    pub name: String,
    pub content: String,
}

/// The content of a stored message.
#[derive(Debug, PartialEq, Eq)]
pub enum MessageContent {
    Parts { parts: Vec<ContentPart> },
    ToolResult(ToolResult),
    Assistant {
        text: String,
        thinking: String,
        replay_state: Option<String>,
        calls: Vec<ToolCall>,
    },
}

/// A stored message. A message is never changed under its identity.
#[derive(Debug, PartialEq, Eq)]
pub struct CanonicalMessage {
    pub message_id: String,
    pub role: Role,
    pub origin: Origin,
    pub content: MessageContent,
    pub runtime_event_id: Option<String>,
}

/// The content of a message that a provider sees.
#[derive(Debug, PartialEq, Eq)]
pub enum ProjectedContent {
    Parts(Vec<ContentPart>),
    ToolResult(ToolResult),
    Assistant {
        text: String,
        thinking: String,
        replay_state: Option<String>,
        calls: Vec<ToolCall>,
    },
}

/// A message that a provider sees.
#[derive(Debug, PartialEq, Eq)]
pub struct ProjectedMessage {
    pub message_id: String,
    pub role: Role,
    pub content: ProjectedContent,
}

/// What a `ContentPart` holds.
#[verifier::ext_equal]
pub enum PartModel {
    Text { text: Seq<char> },
    Image { media_type: Seq<char>, data: Seq<char> },
}

/// What a `ToolCall` holds.
#[verifier::ext_equal]
pub struct CallModel {
    pub call_id: Seq<char>,
    pub name: Seq<char>,
    pub arguments: Seq<char>,
}

/// What a `ToolResult` holds.
#[verifier::ext_equal]
pub struct ResultModel {
    pub call_id: Seq<char>,
    pub name: Seq<char>,
    pub content: Seq<char>,
}

/// What a `MessageContent` or a `ProjectedContent` holds.
#[verifier::ext_equal]
pub enum ContentModel {
    Parts { parts: Seq<PartModel> },
    ToolResult { result: ResultModel },
    Assistant {
        text: Seq<char>,
        thinking: Seq<char>,
        replay_state: Option<Seq<char>>,
        calls: Seq<CallModel>,
    },
}

/// What a `CanonicalMessage` holds.
#[verifier::ext_equal]
pub struct MessageModel {
    pub message_id: Seq<char>,
    pub role: Role,
    pub origin: Origin,
    pub content: ContentModel,
    pub runtime_event_id: Option<Seq<char>>,
}

/// What a `ProjectedMessage` holds.
#[verifier::ext_equal]
pub struct ProjectedModel {
    pub message_id: Seq<char>,
    pub role: Role,
    pub content: ContentModel,
}

/// What an optional text holds.
pub open spec fn optional(text: Option<String>) -> Option<Seq<char>> {
    match text {
        Some(text) => Some(text@),
        None => None,
    }
}

/// What a list of parts holds.
pub open spec fn part_models(parts: Seq<ContentPart>) -> Seq<PartModel> {
    parts.map_values(|part: ContentPart| part@)
}

/// What a list of calls holds.
pub open spec fn call_models(calls: Seq<ToolCall>) -> Seq<CallModel> {
    calls.map_values(|call: ToolCall| call@)
}

/// What a list of stored messages holds.
pub open spec fn message_models(messages: Seq<CanonicalMessage>) -> Seq<MessageModel> {
    messages.map_values(|message: CanonicalMessage| message@)
}

/// What a list of provider messages holds.
pub open spec fn projected_models(messages: Seq<ProjectedMessage>) -> Seq<ProjectedModel> {
    messages.map_values(|message: ProjectedMessage| message@)
}

impl View for ContentPart {
    type V = PartModel;

    open spec fn view(&self) -> PartModel {
        match *self {
            ContentPart::Text { text } => PartModel::Text { text: text@ },
            ContentPart::Image { media_type, data } => PartModel::Image {
                media_type: media_type@,
                data: data@,
            },
        }
    }
}

impl View for ToolCall {
    type V = CallModel;

    open spec fn view(&self) -> CallModel {
        CallModel { call_id: self.call_id@, name: self.name@, arguments: self.arguments@ }
    }
}

impl View for ToolResult {
    type V = ResultModel;

    open spec fn view(&self) -> ResultModel {
        ResultModel { call_id: self.call_id@, name: self.name@, content: self.content@ }
    }
}

impl View for MessageContent {
    type V = ContentModel;

    open spec fn view(&self) -> ContentModel {
        match *self {
            MessageContent::Parts { parts } => ContentModel::Parts { parts: part_models(parts@) },
            MessageContent::ToolResult(result) => ContentModel::ToolResult { result: result@ },
            MessageContent::Assistant { text, thinking, replay_state, calls } =>
                ContentModel::Assistant {
                    text: text@,
                    thinking: thinking@,
                    replay_state: optional(replay_state),
                    calls: call_models(calls@),
                },
        }
    }
}

impl View for CanonicalMessage {
    type V = MessageModel;

    open spec fn view(&self) -> MessageModel {
        MessageModel {
            message_id: self.message_id@,
            role: self.role,
            origin: self.origin,
            content: self.content@,
            runtime_event_id: optional(self.runtime_event_id),
        }
    }
}

impl View for ProjectedContent {
    type V = ContentModel;

    open spec fn view(&self) -> ContentModel {
        match *self {
            ProjectedContent::Parts(parts) => ContentModel::Parts { parts: part_models(parts@) },
            ProjectedContent::ToolResult(result) => ContentModel::ToolResult { result: result@ },
            ProjectedContent::Assistant { text, thinking, replay_state, calls } =>
                ContentModel::Assistant {
                    text: text@,
                    thinking: thinking@,
                    replay_state: optional(replay_state),
                    calls: call_models(calls@),
                },
        }
    }
}

impl View for ProjectedMessage {
    type V = ProjectedModel;

    open spec fn view(&self) -> ProjectedModel {
        ProjectedModel {
            message_id: self.message_id@,
            role: self.role,
            content: self.content@,
        }
    }
}

impl Clone for ContentPart {
    fn clone(&self) -> (copy: Self)
        ensures
            copy@ == self@,
    {
        match self {
            ContentPart::Text { text } => ContentPart::Text { text: text.clone() },
            ContentPart::Image { media_type, data } => ContentPart::Image {
                media_type: media_type.clone(),
                data: data.clone(),
            },
        }
    }
}

impl Clone for ToolCall {
    fn clone(&self) -> (copy: Self)
        ensures
            copy@ == self@,
    {
        ToolCall {
            call_id: self.call_id.clone(),
            name: self.name.clone(),
            arguments: self.arguments.clone(),
        }
    }
}

impl Clone for ToolResult {
    fn clone(&self) -> (copy: Self)
        ensures
            copy@ == self@,
    {
        ToolResult {
            call_id: self.call_id.clone(),
            name: self.name.clone(),
            content: self.content.clone(),
        }
    }
}

impl Clone for MessageContent {
    fn clone(&self) -> (copy: Self)
        ensures
            copy@ == self@,
    {
        match self {
            MessageContent::Parts { parts } => MessageContent::Parts { parts: clone_parts(parts) },
            MessageContent::ToolResult(result) => MessageContent::ToolResult(result.clone()),
            MessageContent::Assistant { text, thinking, replay_state, calls } =>
                MessageContent::Assistant {
                    text: text.clone(),
                    thinking: thinking.clone(),
                    replay_state: clone_optional(replay_state),
                    calls: clone_calls(calls),
                },
        }
    }
}

impl Clone for CanonicalMessage {
    fn clone(&self) -> (copy: Self)
        ensures
            copy@ == self@,
    {
        CanonicalMessage {
            message_id: self.message_id.clone(),
            role: self.role,
            origin: self.origin,
            content: self.content.clone(),
            runtime_event_id: clone_optional(&self.runtime_event_id),
        }
    }
}

impl Clone for ProjectedContent {
    fn clone(&self) -> (copy: Self)
        ensures
            copy@ == self@,
    {
        match self {
            ProjectedContent::Parts(parts) => ProjectedContent::Parts(clone_parts(parts)),
            ProjectedContent::ToolResult(result) => ProjectedContent::ToolResult(result.clone()),
            ProjectedContent::Assistant { text, thinking, replay_state, calls } =>
                ProjectedContent::Assistant {
                    text: text.clone(),
                    thinking: thinking.clone(),
                    replay_state: clone_optional(replay_state),
                    calls: clone_calls(calls),
                },
        }
    }
}

impl Clone for ProjectedMessage {
    fn clone(&self) -> (copy: Self)
        ensures
            copy@ == self@,
    {
        ProjectedMessage {
            message_id: self.message_id.clone(),
            role: self.role,
            content: self.content.clone(),
        }
    }
}

/// A copy of an optional text.
pub fn clone_optional(text: &Option<String>) -> (copy: Option<String>)
    ensures
        optional(copy) == optional(*text),
{
    match text {
        Some(text) => Some(text.clone()),
        None => None,
    }
}

/// A copy of a list of parts.
pub fn clone_parts(parts: &Vec<ContentPart>) -> (copy: Vec<ContentPart>)
    ensures
        part_models(copy@) == part_models(parts@),
{
    let copy = parts.clone();
    proof {
        assert(part_models(copy@) =~= part_models(parts@));
    }
    copy
}

/// A copy of a list of calls.
pub fn clone_calls(calls: &Vec<ToolCall>) -> (copy: Vec<ToolCall>)
    ensures
        call_models(copy@) == call_models(calls@),
{
    let copy = calls.clone();
    proof {
        assert(call_models(copy@) =~= call_models(calls@));
    }
    copy
}

impl CanonicalMessage {
    /// A message that holds one text.
    pub fn text(message_id: &str, role: Role, origin: Origin, text: &str) -> (message: Self)
        ensures
            message@ == (MessageModel {
                message_id: message_id@,
                role,
                origin,
                content: ContentModel::Parts { parts: seq![PartModel::Text { text: text@ }] },
                runtime_event_id: None,
            }),
    {
        let message = CanonicalMessage {
            message_id: message_id.to_owned(),
            role,
            origin,
            content: MessageContent::Parts {
                parts: vec![ContentPart::Text { text: text.to_owned() }],
            },
            runtime_event_id: None,
        };
        proof {
            assert(message@.content->parts =~= seq![PartModel::Text { text: text@ }]);
        }
        message
    }
}

/// What a part holds is its kind and its texts, and a list of parts holds them all in their order.
pub proof fn part_models_lose_nothing(parts: Seq<ContentPart>, i: int)
    requires
        0 <= i < parts.len(),
    ensures
        part_models(parts).len() == parts.len(),
        match parts[i] {
            ContentPart::Text { text } => part_models(parts)[i] == (PartModel::Text { text: text@ }),
            ContentPart::Image { media_type, data } => part_models(parts)[i] == (PartModel::Image {
                media_type: media_type@,
                data: data@,
            }),
        },
{
}

/// What a call holds are its texts, and a list of calls holds them all in their order.
pub proof fn call_models_lose_nothing(calls: Seq<ToolCall>, i: int)
    requires
        0 <= i < calls.len(),
    ensures
        call_models(calls).len() == calls.len(),
        call_models(calls)[i].call_id == calls[i].call_id@,
        call_models(calls)[i].name == calls[i].name@,
        call_models(calls)[i].arguments == calls[i].arguments@,
{
}

/// What a stored message holds are its identities, its role, its origin and all of its content,
/// and a list of messages holds them all in their order.
pub proof fn message_models_lose_nothing(messages: Seq<CanonicalMessage>, i: int)
    requires
        0 <= i < messages.len(),
    ensures
        ({
            let message = messages[i];
            let model = message_models(messages)[i];
            &&& message_models(messages).len() == messages.len()
            &&& model.message_id == message.message_id@
            &&& model.role == message.role
            &&& model.origin == message.origin
            &&& match message.runtime_event_id {
                Some(id) => model.runtime_event_id == Some(id@),
                None => model.runtime_event_id is None,
            }
            &&& match message.content {
                MessageContent::Parts { parts } => model.content matches ContentModel::Parts {
                    parts: held,
                } && held == part_models(parts@),
                MessageContent::ToolResult(result) => model.content matches ContentModel::ToolResult {
                    result: held,
                } && held.call_id == result.call_id@ && held.name == result.name@ && held.content
                    == result.content@,
                MessageContent::Assistant { text, thinking, replay_state, calls } =>
                    model.content matches ContentModel::Assistant {
                    text: held_text,
                    thinking: held_thinking,
                    replay_state: held_state,
                    calls: held_calls,
                } && held_text == text@ && held_thinking == thinking@ && held_calls == call_models(
                    calls@,
                ) && (match replay_state {
                    Some(state) => held_state == Some(state@),
                    None => held_state is None,
                }),
            }
        }),
{
}

/// What a provider message holds are its identity, its role and all of its content, and a list of
/// messages holds them all in their order.
pub proof fn projected_models_lose_nothing(messages: Seq<ProjectedMessage>, i: int)
    requires
        0 <= i < messages.len(),
    ensures
        ({
            let message = messages[i];
            let model = projected_models(messages)[i];
            &&& projected_models(messages).len() == messages.len()
            &&& model.message_id == message.message_id@
            &&& model.role == message.role
            &&& match message.content {
                ProjectedContent::Parts(parts) => model.content matches ContentModel::Parts {
                    parts: held,
                } && held == part_models(parts@),
                ProjectedContent::ToolResult(result) => model.content
                    matches ContentModel::ToolResult { result: held } && held.call_id
                    == result.call_id@ && held.name == result.name@ && held.content
                    == result.content@,
                ProjectedContent::Assistant { text, thinking, replay_state, calls } =>
                    model.content matches ContentModel::Assistant {
                    text: held_text,
                    thinking: held_thinking,
                    replay_state: held_state,
                    calls: held_calls,
                } && held_text == text@ && held_thinking == thinking@ && held_calls == call_models(
                    calls@,
                ) && (match replay_state {
                    Some(state) => held_state == Some(state@),
                    None => held_state is None,
                }),
            }
        }),
{
}

} // verus!
