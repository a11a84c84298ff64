//! The messages of a conversation with a provider, and their form in a request.
use crate::json;
use crate::json::{json_array, json_object, json_str, Json, JsonView};
use crate::sse::{CallView, ToolCallAccum};
use crate::text;
use vstd::prelude::*;

verus! {

/// A message of a conversation.
pub enum ChatMessage {
    System(String),
    User(String),
    /// The assistant asks for tool calls.
    Assistant(Vec<ToolCallAccum>),
    /// What the tool call with this identifier gave.
    Tool { call_id: String, content: String },
}

/// A message of a conversation, over mathematical sequences.
pub enum MessageView {
    System(Seq<char>),
    User(Seq<char>),
    Assistant(Seq<CallView>),
    Tool { call_id: Seq<char>, content: Seq<char> },
}

impl View for ChatMessage {
    type V = MessageView;

    open spec fn view(&self) -> MessageView {
        match self {
            ChatMessage::System(c) => MessageView::System(c@),
            ChatMessage::User(c) => MessageView::User(c@),
            ChatMessage::Assistant(calls) => MessageView::Assistant(text::views(calls@)),
            ChatMessage::Tool { call_id, content } => MessageView::Tool {
                call_id: call_id@,
                content: content@,
            },
        }
    }
}

/// The JSON form of a tool call.
pub open spec fn call_json(call: CallView) -> JsonView {
    JsonView::Object(
        seq![
            ("id"@, JsonView::Str(call.id)),
            ("type"@, JsonView::Str("function"@)),
            (
                "function"@,
                JsonView::Object(
                    seq![
                        ("name"@, JsonView::Str(call.name)),
                        ("arguments"@, JsonView::Str(call.arguments)),
                    ],
                ),
            ),
        ],
    )
}

/// The JSON form of a message.
pub open spec fn message_json(m: MessageView) -> JsonView {
    match m {
        MessageView::System(c) => JsonView::Object(
            seq![("role"@, JsonView::Str("system"@)), ("content"@, JsonView::Str(c))],
        ),
        MessageView::User(c) => JsonView::Object(
            seq![("role"@, JsonView::Str("user"@)), ("content"@, JsonView::Str(c))],
        ),
        MessageView::Assistant(calls) => JsonView::Object(
            seq![
                ("role"@, JsonView::Str("assistant"@)),
                ("content"@, JsonView::Null),
                ("tool_calls"@, JsonView::Array(calls.map_values(|c: CallView| call_json(c)))),
            ],
        ),
        MessageView::Tool { call_id, content } => JsonView::Object(
            seq![
                ("role"@, JsonView::Str("tool"@)),
                ("tool_call_id"@, JsonView::Str(call_id)),
                ("content"@, JsonView::Str(content)),
            ],
        ),
    }
}

/// The JSON form of a tool call.
pub fn call_to_json(call: &ToolCallAccum) -> (j: Json)
    ensures
        j@ == call_json(call@),
{
    let function = json_object(
        vec![
            ("name".to_owned(), json_str(call.name.as_str())),
            ("arguments".to_owned(), json_str(call.arguments.as_str())),
        ],
    );
    assert(function@->Object_0 =~= seq![
        ("name"@, JsonView::Str(call@.name)),
        ("arguments"@, JsonView::Str(call@.arguments)),
    ]);
    let j = json_object(
        vec![
            ("id".to_owned(), json_str(call.id.as_str())),
            ("type".to_owned(), json_str("function")),
            ("function".to_owned(), function),
        ],
    );
    assert(j@->Object_0 =~= call_json(call@)->Object_0);
    j
}

impl ChatMessage {
    /// The JSON form of a message.
    pub fn to_json(&self) -> (j: Json)
        ensures
            j@ == message_json(self@),
    {
        let j = match self {
            ChatMessage::System(c) => json_object(
                vec![
                    ("role".to_owned(), json_str("system")),
                    ("content".to_owned(), json_str(c.as_str())),
                ],
            ),
            ChatMessage::User(c) => json_object(
                vec![
                    ("role".to_owned(), json_str("user")),
                    ("content".to_owned(), json_str(c.as_str())),
                ],
            ),
            ChatMessage::Assistant(calls) => {
                let mut items: Vec<Json> = Vec::new();
                let mut i: usize = 0;
                let ghost goal = text::views(calls@).map_values(|c: CallView| call_json(c));
                while i < calls.len()
                    invariant
                        i <= calls@.len(),
                        goal == text::views(calls@).map_values(|c: CallView| call_json(c)),
                        text::views(items@) =~= goal.take(i as int),
                    decreases calls@.len() - i,
                {
                    let ghost before = text::views(items@);
                    items.push(call_to_json(&calls[i]));
                    assert(text::views(items@) =~= before.push(goal[i as int]));
                    i = i + 1;
                }
                assert(goal.take(i as int) =~= goal);
                json_object(
                    vec![
                        ("role".to_owned(), json_str("assistant")),
                        ("content".to_owned(), Json::Null),
                        ("tool_calls".to_owned(), json_array(items)),
                    ],
                )
            },
            ChatMessage::Tool { call_id, content } => json_object(
                vec![
                    ("role".to_owned(), json_str("tool")),
                    ("tool_call_id".to_owned(), json_str(call_id.as_str())),
                    ("content".to_owned(), json_str(content.as_str())),
                ],
            ),
        };
        assert(j@->Object_0 =~= message_json(self@)->Object_0);
        j
    }
}

/// The JSON form of a conversation.
pub fn messages_to_json(messages: &Vec<ChatMessage>) -> (j: Json)
    ensures
        j@ == JsonView::Array(text::views(messages@).map_values(|m: MessageView| message_json(m))),
{
    let mut items: Vec<Json> = Vec::new();
    let mut i: usize = 0;
    let ghost goal = text::views(messages@).map_values(|m: MessageView| message_json(m));
    while i < messages.len()
        invariant
            i <= messages@.len(),
            goal == text::views(messages@).map_values(|m: MessageView| message_json(m)),
            text::views(items@) =~= goal.take(i as int),
        decreases messages@.len() - i,
    {
        let ghost before = text::views(items@);
        items.push(messages[i].to_json());
        assert(text::views(items@) =~= before.push(goal[i as int]));
        i = i + 1;
    }
    assert(goal.take(i as int) =~= goal);
    json_array(items)
}

/// A message of the system or of the user says its role and its text.
pub proof fn law_spoken_message(c: Seq<char>)
    ensures
        message_json(MessageView::System(c)).field("role"@) == Some(JsonView::Str("system"@)),
        message_json(MessageView::System(c)).field("content"@) == Some(JsonView::Str(c)),
        message_json(MessageView::System(c))->Object_0.len() == 2,
        message_json(MessageView::User(c)).field("role"@) == Some(JsonView::Str("user"@)),
        message_json(MessageView::User(c)).field("content"@) == Some(JsonView::Str(c)),
        message_json(MessageView::User(c))->Object_0.len() == 2,
{
    reveal_strlit("role");
    reveal_strlit("content");
    assert("role"@.len() != "content"@.len());
    reveal_with_fuel(json::lookup, 3);
    let s = message_json(MessageView::System(c))->Object_0;
    let u = message_json(MessageView::User(c))->Object_0;
    assert(s.drop_first()[0] == s[1]);
    assert(u.drop_first()[0] == u[1]);
}

/// The assistant's message holds each of its calls, in their order: the identifier, the
/// name and the arguments.
pub proof fn law_assistant_message(calls: Seq<CallView>, i: int)
    requires
        0 <= i < calls.len(),
    ensures
        ({
            let m = message_json(MessageView::Assistant(calls));
            let items = m.items_field("tool_calls"@)->0;
            let function = items[i].field("function"@)->0;
            &&& m.field("role"@) == Some(JsonView::Str("assistant"@))
            &&& m.field("content"@) == Some(JsonView::Null)
            &&& m.items_field("tool_calls"@) is Some
            &&& m->Object_0.len() == 3
            &&& items.len() == calls.len()
            &&& items[i].field("id"@) == Some(JsonView::Str(calls[i].id))
            &&& items[i].field("type"@) == Some(JsonView::Str("function"@))
            &&& items[i].field("function"@) is Some
            &&& items[i]->Object_0.len() == 3
            &&& function.field("name"@) == Some(JsonView::Str(calls[i].name))
            &&& function.field("arguments"@) == Some(JsonView::Str(calls[i].arguments))
            &&& function->Object_0.len() == 2
        }),
{
    reveal_strlit("role");
    reveal_strlit("content");
    reveal_strlit("tool_calls");
    reveal_strlit("id");
    reveal_strlit("type");
    reveal_strlit("function");
    reveal_strlit("name");
    reveal_strlit("arguments");
    assert("role"@.len() == 4 && "content"@.len() == 7 && "tool_calls"@.len() == 10);
    assert("id"@.len() == 2 && "type"@.len() == 4 && "function"@.len() == 8);
    assert("name"@.len() == 4 && "arguments"@.len() == 9);
    reveal_with_fuel(json::lookup, 4);
    let m = message_json(MessageView::Assistant(calls))->Object_0;
    assert(m.drop_first()[0] == m[1]);
    assert(m.drop_first().drop_first()[0] == m[2]);
    let c = call_json(calls[i])->Object_0;
    assert(c.drop_first()[0] == c[1]);
    assert(c.drop_first().drop_first()[0] == c[2]);
    let f = c[2].1->Object_0;
    assert(f.drop_first()[0] == f[1]);
}

/// The answer of a tool says which call it answers and what the tool gave.
pub proof fn law_tool_message(call_id: Seq<char>, content: Seq<char>)
    ensures
        ({
            let m = message_json(MessageView::Tool { call_id, content });
            &&& m.field("role"@) == Some(JsonView::Str("tool"@))
            &&& m.field("tool_call_id"@) == Some(JsonView::Str(call_id))
            &&& m.field("content"@) == Some(JsonView::Str(content))
            &&& m->Object_0.len() == 3
        }),
{
    reveal_strlit("role");
    reveal_strlit("content");
    reveal_strlit("tool_call_id");
    assert("role"@.len() == 4 && "content"@.len() == 7 && "tool_call_id"@.len() == 12);
    reveal_with_fuel(json::lookup, 4);
    let m = message_json(MessageView::Tool { call_id, content })->Object_0;
    assert(m.drop_first()[0] == m[1]);
    assert(m.drop_first().drop_first()[0] == m[2]);
}

} // verus!
