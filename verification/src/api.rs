//! The chat endpoint that the gateway offers: what it makes of a request, and the
//! replies that it sends.
use crate::text;
use crate::text::{joined, same, trimmed};
use vstd::prelude::*;

verus! {

/// A request for a chat completion.
pub struct ChatCompletionRequest {
    pub messages: Vec<Message>,
    pub stream: bool,
    pub model: Option<String>,
}

/// A message of a request.
pub struct Message {
    pub role: String,
    pub content: Option<String>,
}

#[verifier::ext_equal]
pub struct RequestMessageView {
    pub role: Seq<char>,
    pub content: Option<Seq<char>>,
}

impl View for Message {
    type V = RequestMessageView;

    open spec fn view(&self) -> RequestMessageView {
        RequestMessageView { role: self.role@, content: text::opt_view(self.content) }
    }
}

/// The status for a request without a prompt.
pub const BAD_REQUEST: u16 = 400;

/// The status for a request that no provider answered.
pub const BAD_GATEWAY: u16 = 502;

/// The status for a request that was not answered in time.
pub const GATEWAY_TIMEOUT: u16 = 504;

/// How long a reply in one piece may take, in seconds.
pub const REPLY_TIMEOUT: u64 = 120;

/// The last message of the user.
pub open spec fn last_of_user(messages: Seq<RequestMessageView>) -> Option<RequestMessageView>
    decreases messages.len(),
{
    if messages.len() == 0 {
        None
    } else if messages.last().role == "user"@ {
        Some(messages.last())
    } else {
        last_of_user(messages.drop_last())
    }
}

/// What the user asks: the text of their last message, which may be missing.
pub open spec fn asked(messages: Seq<RequestMessageView>) -> Seq<char> {
    match last_of_user(messages) {
        Some(m) => match m.content {
            Some(c) => text::trim(c),
            None => Seq::empty(),
        },
        None => Seq::empty(),
    }
}

/// What the user asks.
fn question(messages: &[Message]) -> (r: String)
    ensures
        r@ == asked(text::views(messages@)),
{
    let ghost all = text::views(messages@);
    let mut i: usize = messages.len();
    assert(all.take(i as int) =~= all);
    while i > 0
        invariant
            i <= messages@.len(),
            all == text::views(messages@),
            last_of_user(all.take(i as int)) == last_of_user(all),
        decreases i,
    {
        assert(all.take(i as int).drop_last() =~= all.take(i - 1));
        let m = &messages[i - 1];
        assert(all[i - 1] == m@);
        if same(m.role.as_str(), "user") {
            return match &m.content {
                Some(c) => trimmed(c.as_str()),
                None => String::new(),
            };
        }
        i = i - 1;
    }
    String::new()
}

/// The prompt of a request. Without one the request is bad.
pub fn user_prompt(messages: &[Message]) -> (r: Result<String, u16>)
    ensures
        match r {
            Ok(prompt) => asked(text::views(messages@)).len() > 0 && prompt@ == asked(
                text::views(messages@),
            ),
            Err(status) => asked(text::views(messages@)).len() == 0 && status == BAD_REQUEST,
        },
{
    let prompt = question(messages);
    if prompt.as_str().is_empty() {
        Err(BAD_REQUEST)
    } else {
        Ok(prompt)
    }
}

/// The line of the history for a message. Those of the system have none, nor those
/// without a text.
pub open spec fn history_line(m: RequestMessageView) -> Option<Seq<char>> {
    if m.role == "system"@ {
        None
    } else {
        match m.content {
            Some(c) => Some("["@ + m.role + "]: "@ + c),
            None => None,
        }
    }
}

/// The lines of the history.
pub open spec fn history(messages: Seq<RequestMessageView>) -> Seq<Seq<char>>
    decreases messages.len(),
{
    if messages.len() == 0 {
        Seq::empty()
    } else {
        let before = history(messages.drop_last());
        match history_line(messages.last()) {
            Some(line) => before.push(line),
            None => before,
        }
    }
}

/// A system prompt with the history of the conversation.
pub open spec fn with_history(base: Seq<char>, messages: Seq<RequestMessageView>) -> Seq<char> {
    let lines = history(messages);
    if lines.len() > 0 {
        base + "\n\n## Conversation History\n"@ + text::join(lines, "\n"@)
    } else {
        base
    }
}

/// The system prompt of a request: the one of the assistant, with the history of the
/// conversation.
pub fn build_preamble(base: String, messages: &[Message]) -> (r: String)
    ensures
        r@ == with_history(base@, text::views(messages@)),
{
    let ghost all = text::views(messages@);
    let mut lines: Vec<String> = Vec::new();
    let mut i: usize = 0;
    assert(text::views(lines@) =~= history(all.take(0)));
    while i < messages.len()
        invariant
            i <= messages@.len(),
            all == text::views(messages@),
            text::views(lines@) == history(all.take(i as int)),
        decreases messages@.len() - i,
    {
        let ghost before = lines@;
        let m = &messages[i];
        proof {
            assert(all.take(i + 1).drop_last() =~= all.take(i as int));
            assert(all.take(i + 1).last() == m@);
        }
        if !same(m.role.as_str(), "system") {
            match &m.content {
                Some(c) => {
                    let mut line = "[".to_owned();
                    line.append(m.role.as_str());
                    line.append("]: ");
                    line.append(c.as_str());
                    let ghost v = line@;
                    lines.push(line);
                    assert(text::views(lines@) =~= text::views(before).push(v));
                },
                None => {},
            }
        }
        i = i + 1;
    }
    assert(all.take(i as int) =~= all);
    let mut preamble = base;
    assert(text::views(lines@).len() == lines@.len());
    if lines.len() > 0 {
        preamble.append("\n\n## Conversation History\n");
        let prior = joined(&lines, "\n");
        preamble.append(prior.as_str());
    }
    preamble
}

/// A part of a reply that is streamed.
pub struct ChatCompletionChunk {
    pub id: String,
    pub object: String,
    pub created: u64,
    pub model: String,
    pub choices: Vec<ChoiceDelta>,
}

/// What a part of a reply adds.
pub struct ChoiceDelta {
    pub index: u32,
    pub delta: DeltaContent,
    pub finish_reason: Option<String>,
}

/// The text that a part of a reply adds.
pub struct DeltaContent {
    pub content: Option<String>,
}

/// A part of a reply, over mathematical sequences.
#[verifier::ext_equal]
pub struct ChunkView {
    pub id: Seq<char>,
    pub object: Seq<char>,
    pub created: u64,
    pub model: Seq<char>,
    pub choices: Seq<DeltaView>,
}

#[verifier::ext_equal]
pub struct DeltaView {
    pub index: u32,
    pub content: Option<Seq<char>>,
    pub finish_reason: Option<Seq<char>>,
}

impl View for ChoiceDelta {
    type V = DeltaView;

    open spec fn view(&self) -> DeltaView {
        DeltaView {
            index: self.index,
            content: text::opt_view(self.delta.content),
            finish_reason: text::opt_view(self.finish_reason),
        }
    }
}

impl View for ChatCompletionChunk {
    type V = ChunkView;

    open spec fn view(&self) -> ChunkView {
        ChunkView {
            id: self.id@,
            object: self.object@,
            created: self.created,
            model: self.model@,
            choices: text::views(self.choices@),
        }
    }
}

/// What a part of a reply adds: a piece of text, or the error that ends it.
pub open spec fn delta_of(item: Result<Seq<char>, Seq<char>>) -> DeltaView {
    match item {
        Ok(token) => DeltaView { index: 0, content: Some(token), finish_reason: None },
        Err(e) => DeltaView {
            index: 0,
            content: Some("\n\n[Error: "@ + e + "]"@),
            finish_reason: Some("stop"@),
        },
    }
}

/// The view of a piece of a reply.
pub open spec fn item_view(item: Result<String, String>) -> Result<Seq<char>, Seq<char>> {
    match item {
        Ok(token) => Ok(token@),
        Err(e) => Err(e@),
    }
}

/// The part of a reply for a piece of its text, or for the error that ends it.
pub fn stream_chunk(id: &str, created: u64, model: &str, item: Result<String, String>) -> (r:
    ChatCompletionChunk)
    ensures
        r@ == (ChunkView {
            id: id@,
            object: "chat.completion.chunk"@,
            created,
            model: model@,
            choices: seq![delta_of(item_view(item))],
        }),
{
    let ghost wanted = delta_of(item_view(item));
    let choice = match item {
        Ok(token) => ChoiceDelta {
            index: 0,
            delta: DeltaContent { content: Some(token) },
            finish_reason: None,
        },
        Err(e) => {
            let mut words = "\n\n[Error: ".to_owned();
            words.append(e.as_str());
            words.append("]");
            ChoiceDelta {
                index: 0,
                delta: DeltaContent { content: Some(words) },
                finish_reason: Some("stop".to_owned()),
            }
        },
    };
    let r = ChatCompletionChunk {
        id: id.to_owned(),
        object: "chat.completion.chunk".to_owned(),
        created,
        model: model.to_owned(),
        choices: vec![choice],
    };
    assert(r@.choices =~= seq![wanted]);
    r
}

/// What ends a reply that is streamed.
pub fn end_of_stream() -> (r: &'static str)
    ensures
        r@ == "[DONE]"@,
{
    "[DONE]"
}

/// A reply in one piece.
pub struct NonStreamingResponse {
    pub id: String,
    pub object: String,
    pub created: u64,
    pub model: String,
    pub choices: Vec<NonStreamingChoice>,
}

pub struct NonStreamingChoice {
    pub index: u32,
    pub message: ResponseMessage,
    pub finish_reason: String,
}

pub struct ResponseMessage {
    pub role: String,
    pub content: String,
}

/// A reply in one piece, over mathematical sequences.
#[verifier::ext_equal]
pub struct ResponseView {
    pub id: Seq<char>,
    pub object: Seq<char>,
    pub created: u64,
    pub model: Seq<char>,
    pub choices: Seq<ChoiceView>,
}

#[verifier::ext_equal]
pub struct ChoiceView {
    pub index: u32,
    pub role: Seq<char>,
    pub content: Seq<char>,
    pub finish_reason: Seq<char>,
}

impl View for NonStreamingChoice {
    type V = ChoiceView;

    open spec fn view(&self) -> ChoiceView {
        ChoiceView {
            index: self.index,
            role: self.message.role@,
            content: self.message.content@,
            finish_reason: self.finish_reason@,
        }
    }
}

impl View for NonStreamingResponse {
    type V = ResponseView;

    open spec fn view(&self) -> ResponseView {
        ResponseView {
            id: self.id@,
            object: self.object@,
            created: self.created,
            model: self.model@,
            choices: text::views(self.choices@),
        }
    }
}

/// What came of asking the providers for a reply in one piece.
pub enum LightOutcome {
    Answered(String),
    Failed,
    TimedOut,
}

/// The reply to a request, or the status where there is none.
pub fn respond(id: &str, created: u64, model: &str, outcome: LightOutcome) -> (r: Result<
    NonStreamingResponse,
    u16,
>)
    ensures
        match outcome {
            LightOutcome::Answered(answer) => r is Ok && r->Ok_0@ == (ResponseView {
                id: id@,
                object: "chat.completion"@,
                created,
                model: model@,
                choices: seq![
                    ChoiceView {
                        index: 0,
                        role: "assistant"@,
                        content: answer@,
                        finish_reason: "stop"@,
                    },
                ],
            }),
            LightOutcome::Failed => r == Err::<NonStreamingResponse, u16>(BAD_GATEWAY),
            LightOutcome::TimedOut => r == Err::<NonStreamingResponse, u16>(GATEWAY_TIMEOUT),
        },
{
    match outcome {
        LightOutcome::Answered(answer) => {
            let ghost wanted = ChoiceView {
                index: 0,
                role: "assistant"@,
                content: answer@,
                finish_reason: "stop"@,
            };
            let choice = NonStreamingChoice {
                index: 0,
                message: ResponseMessage { role: "assistant".to_owned(), content: answer },
                finish_reason: "stop".to_owned(),
            };
            let r = NonStreamingResponse {
                id: id.to_owned(),
                object: "chat.completion".to_owned(),
                created,
                model: model.to_owned(),
                choices: vec![choice],
            };
            assert(r@.choices =~= seq![wanted]);
            Ok(r)
        },
        LightOutcome::Failed => Err(BAD_GATEWAY),
        LightOutcome::TimedOut => Err(GATEWAY_TIMEOUT),
    }
}

/// A model that the gateway offers.
pub struct ModelEntry {
    pub id: String,
    pub object: String,
    pub created: u64,
    pub owned_by: String,
}

/// The models that the gateway offers.
pub struct ModelListResponse {
    pub object: String,
    pub data: Vec<ModelEntry>,
}

/// The models that the gateway offers: itself, whatever providers are behind it.
pub fn list_models() -> (r: ModelListResponse)
    ensures
        r.object@ == "list"@,
        r.data@.len() == 1,
        r.data@[0].id@ == "angelos"@,
        r.data@[0].object@ == "model"@,
        r.data@[0].created == 0,
        r.data@[0].owned_by@ == "angelos"@,
{
    ModelListResponse {
        object: "list".to_owned(),
        data: vec![
            ModelEntry {
                id: "angelos".to_owned(),
                object: "model".to_owned(),
                created: 0,
                owned_by: "angelos".to_owned(),
            },
        ],
    }
}

/// What the gateway says of its health.
pub fn health() -> (r: &'static str)
    ensures
        r@ == "OK"@,
{
    "OK"
}

/// A request is accepted exactly when the last message of the user holds more than
/// white space.
pub proof fn law_accepted_when_asked(messages: Seq<RequestMessageView>)
    ensures
        asked(messages).len() > 0 <==> match last_of_user(messages) {
            Some(m) => match m.content {
                Some(c) => !text::is_blank(c),
                None => false,
            },
            None => false,
        },
{
    if let Some(m) = last_of_user(messages) {
        if let Some(c) = m.content {
            text::lemma_blank_iff_trim_empty(c);
        }
    }
}

/// Messages of the system leave no trace in the system prompt.
pub proof fn law_system_messages_are_left_out(
    base: Seq<char>,
    messages: Seq<RequestMessageView>,
    m: RequestMessageView,
)
    requires
        m.role == "system"@,
    ensures
        with_history(base, messages.push(m)) == with_history(base, messages),
{
    assert(messages.push(m).drop_last() =~= messages);
}

/// What the user asks is the text of the last message of the user, without the white space
/// around it, whatever other messages stand before or behind. A message without a text asks
/// nothing, and nor does a conversation without one of the user.
pub proof fn law_last_message_of_the_user_is_asked(
    before: Seq<RequestMessageView>,
    m: RequestMessageView,
    after: Seq<RequestMessageView>,
)
    requires
        forall|i: int| 0 <= i < after.len() ==> (#[trigger] after[i]).role != "user"@,
    ensures
        m.role == "user"@ ==> asked(before + seq![m] + after) == (match m.content {
            Some(c) => text::trim(c),
            None => Seq::empty(),
        }),
        asked(after).len() == 0,
    decreases after.len(),
{
    let all = before + seq![m] + after;
    if after.len() == 0 {
        assert(all.last() == m);
    } else {
        let low = after.drop_last();
        assert(all.last() == after.last());
        assert(after[after.len() - 1].role != "user"@);
        assert(all.drop_last() =~= before + seq![m] + low);
        assert forall|i: int| 0 <= i < low.len() implies (#[trigger] low[i]).role != "user"@ by {
            assert(low[i] == after[i]);
        }
        law_last_message_of_the_user_is_asked(before, m, low);
    }
}

/// The history has a line for each message with a text that is not of the system, in their
/// order, with the role before the text. It follows the system prompt under a heading, and
/// without lines there is none.
pub proof fn law_history_grows_by_messages(
    base: Seq<char>,
    messages: Seq<RequestMessageView>,
    role: Seq<char>,
    c: Seq<char>,
)
    ensures
        ({
            let line = "["@ + role + "]: "@ + c;
            let spoken = messages.push(RequestMessageView { role, content: Some(c) });
            let silent = messages.push(RequestMessageView { role, content: None });
            &&& with_history(base, Seq::empty()) == base
            &&& with_history(base, silent) == with_history(base, messages)
            &&& role == "system"@ ==> with_history(base, spoken) == with_history(base, messages)
            &&& role != "system"@ && history(messages).len() == 0 ==> with_history(base, spoken)
                == base + "\n\n## Conversation History\n"@ + line
            &&& role != "system"@ && history(messages).len() > 0 ==> with_history(base, spoken)
                == with_history(base, messages) + "\n"@ + line
            &&& history(messages).len() == 0 <==> forall|i: int|
                0 <= i < messages.len() ==> (#[trigger] messages[i]).role == "system"@
                    || messages[i].content is None
        }),
{
    let line = "["@ + role + "]: "@ + c;
    let spoken = messages.push(RequestMessageView { role, content: Some(c) });
    let silent = messages.push(RequestMessageView { role, content: None });
    assert(spoken.drop_last() =~= messages);
    assert(silent.drop_last() =~= messages);
    let lines = history(messages);
    lemma_no_history(messages);
    assert(lines.push(line).drop_last() =~= lines);
    if role != "system"@ {
        let head = base + "\n\n## Conversation History\n"@;
        assert(history(spoken) == lines.push(line));
        if lines.len() > 0 {
            assert(head + (text::join(lines, "\n"@) + "\n"@ + line) =~= head + text::join(
                lines,
                "\n"@,
            ) + "\n"@ + line);
        }
    }
}

proof fn lemma_no_history(messages: Seq<RequestMessageView>)
    ensures
        history(messages).len() == 0 <==> forall|i: int|
            0 <= i < messages.len() ==> (#[trigger] messages[i]).role == "system"@
                || messages[i].content is None,
    decreases messages.len(),
{
    if messages.len() > 0 {
        let low = messages.drop_last();
        lemma_no_history(low);
        let last = messages[messages.len() - 1];
        assert(last == messages.last());
        if forall|i: int|
            0 <= i < messages.len() ==> (#[trigger] messages[i]).role == "system"@
                || messages[i].content is None {
            assert forall|i: int| 0 <= i < low.len() implies (#[trigger] low[i]).role
                == "system"@ || low[i].content is None by {
                assert(low[i] == messages[i]);
            }
        } else {
            let i = choose|i: int|
                0 <= i < messages.len() && !((#[trigger] messages[i]).role == "system"@
                    || messages[i].content is None);
            if i < low.len() {
                assert(low[i] == messages[i]);
            }
        }
    }
}

/// A piece of a reply is handed on as it is and leaves the reply open. An error is told in
/// brackets and ends it.
pub proof fn law_pieces_are_handed_on(t: Seq<char>)
    ensures
        delta_of(Ok(t)) == (DeltaView { index: 0, content: Some(t), finish_reason: None }),
        delta_of(Err(t)) == (DeltaView {
            index: 0,
            content: Some("\n\n[Error: "@ + t + "]"@),
            finish_reason: Some("stop"@),
        }),
{
}

/// A piece of a reply is seen as it is, as text or as an error.
pub proof fn law_item_view(s: String)
    ensures
        item_view(Ok(s)) == Ok::<Seq<char>, Seq<char>>(s@),
        item_view(Err(s)) == Err::<Seq<char>, Seq<char>>(s@),
{
}

/// A bad request, a failure of the providers and a lack of time each have the status of
/// HTTP for it, and a reply in one piece may take two minutes.
pub proof fn law_statuses()
    ensures
        BAD_REQUEST == 400,
        BAD_GATEWAY == 502,
        GATEWAY_TIMEOUT == 504,
        REPLY_TIMEOUT == 120,
{
}

} // verus!
