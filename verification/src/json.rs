//! Messages as JSON text, rendered by `serde_json`.
use crate::message::{
    call_models, message_models, optional, part_models, CallModel, CanonicalMessage, ContentModel,
    ContentPart, MessageContent, MessageModel, Origin, PartModel, ResultModel, Role, ToolCall,
    ToolResult,
};
use vstd::prelude::*;

verus! {

/// The JSON values of `serde_json`.
#[verifier::external_type_specification]
#[verifier::external_body]
pub struct ExValue(serde_json::Value);

/// The errors of `serde_json`.
#[verifier::external_type_specification]
#[verifier::external_body]
pub struct ExError(serde_json::Error);

/// What a JSON value holds. The fields of an object stand in their order.
pub enum JsonModel {
    Null,
    Text { text: Seq<char> },
    List { items: Seq<JsonModel> },
    Object { fields: Seq<(Seq<char>, JsonModel)> },
}

/// What a `serde_json::Value` holds.
pub uninterp spec fn json_contents(value: serde_json::Value) -> JsonModel;

/// The text that `serde_json::to_string` gives to a value with these contents; none where it
/// reports an error. Nothing more is stated of the text: how strings are escaped is left to
/// `serde_json`.
pub uninterp spec fn json_text(contents: JsonModel) -> Option<Seq<char>>;

/// What a list of JSON values holds.
pub open spec fn all_json_contents(values: Seq<serde_json::Value>) -> Seq<JsonModel> {
    values.map_values(|value: serde_json::Value| json_contents(value))
}

/// What a list of fields holds.
pub open spec fn field_contents(fields: Seq<(&'static str, serde_json::Value)>) -> Seq<
    (Seq<char>, JsonModel),
> {
    fields.map_values(
        |field: (&'static str, serde_json::Value)| (field.0@, json_contents(field.1)),
    )
}

/// `serde_json::Value::Null` is the null value.
#[verifier::external_body]
fn null_value() -> (value: serde_json::Value)
    ensures
        json_contents(value) == JsonModel::Null,
{
    serde_json::Value::Null
}

/// `serde_json::Value::from` makes of a text the JSON string that holds it.
#[verifier::external_body]
fn text_value(text: &str) -> (value: serde_json::Value)
    ensures
        json_contents(value) == (JsonModel::Text { text: text@ }),
{
    serde_json::Value::from(text)
}

/// `serde_json::Value::Array` is the array of the values in their order.
#[verifier::external_body]
fn list_value(items: Vec<serde_json::Value>) -> (value: serde_json::Value)
    ensures
        json_contents(value) == (JsonModel::List { items: all_json_contents(items@) }),
{
    serde_json::Value::Array(items)
}

/// `serde_json::Value::from_iter` makes of pairs the object with these fields. With the
/// `preserve_order` feature, which this crate switches on, they stay in the order in which they
/// are given. Of two fields with one name the first would take the value of the second, so the
/// names have to differ.
#[verifier::external_body]
fn object_value(fields: Vec<(&'static str, serde_json::Value)>) -> (value: serde_json::Value)
    requires
        forall|i: int, j: int|
            0 <= i < j < fields@.len() ==> (#[trigger] fields@[i]).0@ != (#[trigger] fields@[j]).0@,
    ensures
        json_contents(value) == (JsonModel::Object { fields: field_contents(fields@) }),
{
    serde_json::Value::from_iter(fields)
}

/// An object with one field.
pub open spec fn tagged(name: Seq<char>, contents: JsonModel) -> JsonModel {
    JsonModel::Object { fields: seq![(name, contents)] }
}

/// A text as a JSON string.
pub open spec fn string_json(text: Seq<char>) -> JsonModel {
    JsonModel::Text { text }
}

/// An optional text as a JSON string or null.
pub open spec fn optional_json(text: Option<Seq<char>>) -> JsonModel {
    match text {
        Some(text) => string_json(text),
        None => JsonModel::Null,
    }
}

/// A role by its name.
pub open spec fn role_json(role: Role) -> JsonModel {
    match role {
        Role::User => string_json("User"@),
        Role::Assistant => string_json("Assistant"@),
        Role::Tool => string_json("Tool"@),
    }
}

/// An origin by its name.
pub open spec fn origin_json(origin: Origin) -> JsonModel {
    match origin {
        Origin::Runtime => string_json("Runtime"@),
        Origin::Assistant => string_json("Assistant"@),
        Origin::Tool => string_json("Tool"@),
    }
}

/// A part as an object under the name of its kind.
pub open spec fn part_json(part: PartModel) -> JsonModel {
    match part {
        PartModel::Text { text } => tagged(
            "Text"@,
            JsonModel::Object { fields: seq![("text"@, string_json(text))] },
        ),
        PartModel::Image { media_type, data } => tagged(
            "Image"@,
            JsonModel::Object {
                fields: seq![
                    ("media_type"@, string_json(media_type)),
                    ("data"@, string_json(data)),
                ],
            },
        ),
    }
}

/// A list of parts.
pub open spec fn parts_json(parts: Seq<PartModel>) -> JsonModel {
    JsonModel::List { items: parts.map_values(|part: PartModel| part_json(part)) }
}

/// A call as an object.
pub open spec fn call_json(call: CallModel) -> JsonModel {
    JsonModel::Object {
        fields: seq![
            ("call_id"@, string_json(call.call_id)),
            ("name"@, string_json(call.name)),
            ("arguments"@, string_json(call.arguments)),
        ],
    }
}

/// A list of calls.
pub open spec fn calls_json(calls: Seq<CallModel>) -> JsonModel {
    JsonModel::List { items: calls.map_values(|call: CallModel| call_json(call)) }
}

/// A tool result as an object.
pub open spec fn result_json(result: ResultModel) -> JsonModel {
    JsonModel::Object {
        fields: seq![
            ("call_id"@, string_json(result.call_id)),
            ("name"@, string_json(result.name)),
            ("content"@, string_json(result.content)),
        ],
    }
}

/// A message's content as an object under the name of its kind.
pub open spec fn content_json(content: ContentModel) -> JsonModel {
    match content {
        ContentModel::Parts { parts } => tagged(
            "Parts"@,
            JsonModel::Object { fields: seq![("parts"@, parts_json(parts))] },
        ),
        ContentModel::ToolResult { result } => tagged("ToolResult"@, result_json(result)),
        ContentModel::Assistant { text, thinking, replay_state, calls } => tagged(
            "Assistant"@,
            JsonModel::Object {
                fields: seq![
                    ("text"@, string_json(text)),
                    ("thinking"@, string_json(thinking)),
                    ("replay_state"@, optional_json(replay_state)),
                    ("calls"@, calls_json(calls)),
                ],
            },
        ),
    }
}

/// A message as an object.
pub open spec fn message_json(message: MessageModel) -> JsonModel {
    JsonModel::Object {
        fields: seq![
            ("message_id"@, string_json(message.message_id)),
            ("role"@, role_json(message.role)),
            ("origin"@, origin_json(message.origin)),
            ("content"@, content_json(message.content)),
            ("runtime_event_id"@, optional_json(message.runtime_event_id)),
        ],
    }
}

/// A list of messages.
pub open spec fn messages_json(messages: Seq<MessageModel>) -> JsonModel {
    JsonModel::List { items: messages.map_values(|message: MessageModel| message_json(message)) }
}

/// Whether a JSON value is a list of messages.
pub open spec fn lists_messages(contents: JsonModel) -> bool {
    exists|messages: Seq<MessageModel>| contents == #[trigger] messages_json(messages)
}

/// `serde_json::to_string` writes a value as text. The text depends on what the value holds
/// alone. Writing goes down into nested values, so the nesting has to be bounded, as it is in a
/// list of messages.
#[verifier::external_body]
fn value_text(value: &serde_json::Value) -> (text: Result<String, serde_json::Error>)
    requires
        lists_messages(json_contents(*value)),
    ensures
        match text {
            Ok(text) => json_text(json_contents(*value)) == Some(text@),
            Err(_) => json_text(json_contents(*value)) is None,
        },
{
    serde_json::to_string(value)
}

fn tagged_value(name: &'static str, value: serde_json::Value) -> (tagged_value: serde_json::Value)
    ensures
        json_contents(tagged_value) == tagged(name@, json_contents(value)),
{
    let fields: Vec<(&'static str, serde_json::Value)> = vec![(name, value)];
    proof {
        assert(field_contents(fields@) =~= seq![(name@, json_contents(value))]);
    }
    object_value(fields)
}

fn optional_value(text: &Option<String>) -> (value: serde_json::Value)
    ensures
        json_contents(value) == optional_json(optional(*text)),
{
    match text {
        Some(text) => text_value(text),
        None => null_value(),
    }
}

fn role_value(role: Role) -> (value: serde_json::Value)
    ensures
        json_contents(value) == role_json(role),
{
    match role {
        Role::User => text_value("User"),
        Role::Assistant => text_value("Assistant"),
        Role::Tool => text_value("Tool"),
    }
}

fn origin_value(origin: Origin) -> (value: serde_json::Value)
    ensures
        json_contents(value) == origin_json(origin),
{
    match origin {
        Origin::Runtime => text_value("Runtime"),
        Origin::Assistant => text_value("Assistant"),
        Origin::Tool => text_value("Tool"),
    }
}

fn part_value(part: &ContentPart) -> (value: serde_json::Value)
    ensures
        json_contents(value) == part_json(part@),
{
    match part {
        ContentPart::Text { text } => {
            let text = text_value(text);
            tagged_value("Text", tagged_value("text", text))
        },
        ContentPart::Image { media_type, data } => {
            let fields: Vec<(&'static str, serde_json::Value)> = vec![
                ("media_type", text_value(media_type)),
                ("data", text_value(data)),
            ];
            proof {
                reveal_strlit("media_type");
                reveal_strlit("data");
                assert(fields@[0].0@.len() == 10 && fields@[1].0@.len() == 4);
                assert(field_contents(fields@) =~= part_json(part@)->fields[0].1->fields);
            }
            tagged_value("Image", object_value(fields))
        },
    }
}

fn parts_value(parts: &Vec<ContentPart>) -> (value: serde_json::Value)
    ensures
        json_contents(value) == parts_json(part_models(parts@)),
{
    let mut items: Vec<serde_json::Value> = Vec::new();
    let mut i: usize = 0;
    while i < parts.len()
        invariant
            i <= parts@.len(),
            items@.len() == i,
            forall|k: int|
                0 <= k < i ==> json_contents(#[trigger] items@[k]) == part_json(parts@[k]@),
        decreases parts.len() - i,
    {
        items.push(part_value(&parts[i]));
        i += 1;
    }
    proof {
        assert(all_json_contents(items@) =~= part_models(parts@).map_values(
            |part: PartModel| part_json(part),
        ));
    }
    list_value(items)
}

fn call_value(call: &ToolCall) -> (value: serde_json::Value)
    ensures
        json_contents(value) == call_json(call@),
{
    let fields: Vec<(&'static str, serde_json::Value)> = vec![
        ("call_id", text_value(&call.call_id)),
        ("name", text_value(&call.name)),
        ("arguments", text_value(&call.arguments)),
    ];
    proof {
        reveal_strlit("call_id");
        reveal_strlit("name");
        reveal_strlit("arguments");
        assert(fields@[0].0@.len() == 7 && fields@[1].0@.len() == 4 && fields@[2].0@.len() == 9);
        assert(field_contents(fields@) =~= call_json(call@)->fields);
    }
    object_value(fields)
}

fn calls_value(calls: &Vec<ToolCall>) -> (value: serde_json::Value)
    ensures
        json_contents(value) == calls_json(call_models(calls@)),
{
    let mut items: Vec<serde_json::Value> = Vec::new();
    let mut i: usize = 0;
    while i < calls.len()
        invariant
            i <= calls@.len(),
            items@.len() == i,
            forall|k: int|
                0 <= k < i ==> json_contents(#[trigger] items@[k]) == call_json(calls@[k]@),
        decreases calls.len() - i,
    {
        items.push(call_value(&calls[i]));
        i += 1;
    }
    proof {
        assert(all_json_contents(items@) =~= call_models(calls@).map_values(
            |call: CallModel| call_json(call),
        ));
    }
    list_value(items)
}

fn result_value(result: &ToolResult) -> (value: serde_json::Value)
    ensures
        json_contents(value) == result_json(result@),
{
    let fields: Vec<(&'static str, serde_json::Value)> = vec![
        ("call_id", text_value(&result.call_id)),
        ("name", text_value(&result.name)),
        ("content", text_value(&result.content)),
    ];
    proof {
        reveal_strlit("call_id");
        reveal_strlit("name");
        reveal_strlit("content");
        assert(fields@[0].0@.len() == 7 && fields@[1].0@.len() == 4 && fields@[2].0@.len() == 7);
        assert(fields@[0].0@[1] == 'a' && fields@[2].0@[1] == 'o');
        assert(field_contents(fields@) =~= result_json(result@)->fields);
    }
    object_value(fields)
}

fn content_value(content: &MessageContent) -> (value: serde_json::Value)
    ensures
        json_contents(value) == content_json(content@),
{
    match content {
        MessageContent::Parts { parts } => {
            let parts = parts_value(parts);
            tagged_value("Parts", tagged_value("parts", parts))
        },
        MessageContent::ToolResult(result) => tagged_value("ToolResult", result_value(result)),
        MessageContent::Assistant { text, thinking, replay_state, calls } => {
            let fields: Vec<(&'static str, serde_json::Value)> = vec![
                ("text", text_value(text)),
                ("thinking", text_value(thinking)),
                ("replay_state", optional_value(replay_state)),
                ("calls", calls_value(calls)),
            ];
            proof {
                reveal_strlit("text");
                reveal_strlit("thinking");
                reveal_strlit("replay_state");
                reveal_strlit("calls");
                assert(fields@[0].0@.len() == 4 && fields@[1].0@.len() == 8);
                assert(fields@[2].0@.len() == 12 && fields@[3].0@.len() == 5);
                assert(field_contents(fields@) =~= content_json(content@)->fields[0].1->fields);
            }
            tagged_value("Assistant", object_value(fields))
        },
    }
}

fn message_value(message: &CanonicalMessage) -> (value: serde_json::Value)
    ensures
        json_contents(value) == message_json(message@),
{
    let fields: Vec<(&'static str, serde_json::Value)> = vec![
        ("message_id", text_value(&message.message_id)),
        ("role", role_value(message.role)),
        ("origin", origin_value(message.origin)),
        ("content", content_value(&message.content)),
        ("runtime_event_id", optional_value(&message.runtime_event_id)),
    ];
    proof {
        reveal_strlit("message_id");
        reveal_strlit("role");
        reveal_strlit("origin");
        reveal_strlit("content");
        reveal_strlit("runtime_event_id");
        assert(fields@[0].0@.len() == 10 && fields@[1].0@.len() == 4 && fields@[2].0@.len() == 6);
        assert(fields@[3].0@.len() == 7 && fields@[4].0@.len() == 16);
        assert(field_contents(fields@) =~= message_json(message@)->fields);
    }
    object_value(fields)
}

/// Messages as JSON text; nothing where they cannot be written.
pub fn serialize_messages(messages: &[CanonicalMessage]) -> (text: Option<String>)
    ensures
        optional(text) == json_text(messages_json(message_models(messages@))),
{
    let mut items: Vec<serde_json::Value> = Vec::new();
    let mut i: usize = 0;
    while i < messages.len()
        invariant
            i <= messages@.len(),
            items@.len() == i,
            forall|k: int|
                0 <= k < i ==> json_contents(#[trigger] items@[k]) == message_json(messages@[k]@),
        decreases messages.len() - i,
    {
        items.push(message_value(&messages[i]));
        i += 1;
    }
    proof {
        assert(all_json_contents(items@) =~= message_models(messages@).map_values(
            |message: MessageModel| message_json(message),
        ));
    }
    let list = list_value(items);
    proof {
        assert(json_contents(list) == messages_json(message_models(messages@)));
    }
    match value_text(&list) {
        Ok(text) => Some(text),
        Err(_) => None,
    }
}

/// A list of messages is a JSON array with one object for each message, in their order, and
/// nothing else; so are the parts and the calls of a message.
pub proof fn lists_keep_every_item(
    messages: Seq<MessageModel>,
    parts: Seq<PartModel>,
    calls: Seq<CallModel>,
)
    ensures
        messages_json(messages) matches JsonModel::List { items } && items.len() == messages.len()
            && forall|i: int|
            0 <= i < messages.len() ==> #[trigger] items[i] == message_json(messages[i]),
        parts_json(parts) matches JsonModel::List { items } && items.len() == parts.len()
            && forall|i: int| 0 <= i < parts.len() ==> #[trigger] items[i] == part_json(parts[i]),
        calls_json(calls) matches JsonModel::List { items } && items.len() == calls.len()
            && forall|i: int| 0 <= i < calls.len() ==> #[trigger] items[i] == call_json(calls[i]),
{
}

/// A message is an object with its identity, its role and its origin by their names, its content,
/// and the identity of its event or null.
pub proof fn messages_are_written_field_by_field(message: MessageModel)
    ensures
        message_json(message) matches JsonModel::Object { fields } && {
            &&& fields.len() == 5
            &&& fields[0] == ("message_id"@, JsonModel::Text { text: message.message_id })
            &&& fields[1].0 == "role"@
            &&& fields[1].1 == (JsonModel::Text {
                text: match message.role {
                    Role::User => "User"@,
                    Role::Assistant => "Assistant"@,
                    Role::Tool => "Tool"@,
                },
            })
            &&& fields[2].0 == "origin"@
            &&& fields[2].1 == (JsonModel::Text {
                text: match message.origin {
                    Origin::Runtime => "Runtime"@,
                    Origin::Assistant => "Assistant"@,
                    Origin::Tool => "Tool"@,
                },
            })
            &&& fields[3] == ("content"@, content_json(message.content))
            &&& fields[4].0 == "runtime_event_id"@
            &&& fields[4].1 == match message.runtime_event_id {
                Some(id) => JsonModel::Text { text: id },
                None => JsonModel::Null,
            }
        },
{
}

/// A message's content is an object with one field, under the name of the content's kind, which
/// holds all that the content holds.
pub proof fn contents_are_written_under_their_kind(content: ContentModel)
    ensures
        content_json(content) matches JsonModel::Object { fields } && fields.len() == 1 && {
            &&& fields[0].1 matches JsonModel::Object { fields: inner }
            &&& match content {
                ContentModel::Parts { parts } => {
                    &&& fields[0].0 == "Parts"@
                    &&& inner.len() == 1
                    &&& inner[0] == ("parts"@, parts_json(parts))
                },
                ContentModel::ToolResult { result } => {
                    &&& fields[0].0 == "ToolResult"@
                    &&& inner.len() == 3
                    &&& inner[0] == ("call_id"@, JsonModel::Text { text: result.call_id })
                    &&& inner[1] == ("name"@, JsonModel::Text { text: result.name })
                    &&& inner[2] == ("content"@, JsonModel::Text { text: result.content })
                },
                ContentModel::Assistant { text, thinking, replay_state, calls } => {
                    &&& fields[0].0 == "Assistant"@
                    &&& inner.len() == 4
                    &&& inner[0] == ("text"@, JsonModel::Text { text })
                    &&& inner[1] == ("thinking"@, JsonModel::Text { text: thinking })
                    &&& inner[2].0 == "replay_state"@
                    &&& inner[2].1 == match replay_state {
                        Some(state) => JsonModel::Text { text: state },
                        None => JsonModel::Null,
                    }
                    &&& inner[3] == ("calls"@, calls_json(calls))
                },
            }
        },
{
}

/// A part is an object with one field, under the name of the part's kind, which holds all that the
/// part holds; a call is an object with its three fields.
pub proof fn parts_and_calls_are_written_whole(part: PartModel, call: CallModel)
    ensures
        part_json(part) matches JsonModel::Object { fields } && fields.len() == 1 && {
            &&& fields[0].1 matches JsonModel::Object { fields: inner }
            &&& match part {
                PartModel::Text { text } => {
                    &&& fields[0].0 == "Text"@
                    &&& inner.len() == 1
                    &&& inner[0] == ("text"@, JsonModel::Text { text })
                },
                PartModel::Image { media_type, data } => {
                    &&& fields[0].0 == "Image"@
                    &&& inner.len() == 2
                    &&& inner[0] == ("media_type"@, JsonModel::Text { text: media_type })
                    &&& inner[1] == ("data"@, JsonModel::Text { text: data })
                },
            }
        },
        call_json(call) matches JsonModel::Object { fields } && {
            &&& fields.len() == 3
            &&& fields[0] == ("call_id"@, JsonModel::Text { text: call.call_id })
            &&& fields[1] == ("name"@, JsonModel::Text { text: call.name })
            &&& fields[2] == ("arguments"@, JsonModel::Text { text: call.arguments })
        },
{
}

} // verus!
