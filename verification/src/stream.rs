//! The streaming agent: which provider is asked next, what is shown to the
//! client, which tools are run, and when the work is over.
//!
//! The agent does no input or output. It says what to do next with a `Command`
//! and is told what came of it by a call of the method for that event.
use crate::chain;
use crate::chain::{label_text, ModelChain, ProviderEntry, ProviderView};
use crate::feed;
use crate::feed::{arguments_text, heading_text, report_text, result_text};
use crate::json;
use crate::json::{json_array, json_object, json_str, Json, JsonView};
use crate::messages;
use crate::messages::{messages_to_json, ChatMessage, MessageView};
use crate::sse;
use crate::sse::{push_out, CallView, Outgoing, OutgoingView, ReadView, StreamRead, ToolCallAccum};
use crate::text;
use crate::text::{blank, decimal_text, lossy_text, quoted_text, same};
use crate::tools;
use crate::tools::tool_definitions;
use vstd::prelude::*;

verus! {

/// How many rounds of tool calls the agent goes through.
pub const MAX_ROUNDS: usize = 7;

/// What the agent is waiting for.
#[derive(PartialEq, Eq, Structural)]
pub enum Phase {
    /// A provider to accept or refuse a request.
    Asking,
    /// More of a provider's reply.
    Reading,
    /// A tool call to end.
    Running,
    /// Nothing: the work is over.
    Over,
}

/// What to do next.
pub enum Command {
    /// Send the request to the current provider.
    Ask,
    /// Read a further chunk of the reply.
    Read,
    RunTool { name: String, arguments: String },
    /// The work is over, and went well.
    Finish,
    /// The work is over, and failed.
    Fail(String),
}

/// What to do next, over mathematical sequences.
pub enum CommandView {
    Ask,
    Read,
    RunTool { name: Seq<char>, arguments: Seq<char> },
    Finish,
    Fail(Seq<char>),
}

impl View for Command {
    type V = CommandView;

    open spec fn view(&self) -> CommandView {
        match self {
            Command::Ask => CommandView::Ask,
            Command::Read => CommandView::Read,
            Command::RunTool { name, arguments } => CommandView::RunTool {
                name: name@,
                arguments: arguments@,
            },
            Command::Finish => CommandView::Finish,
            Command::Fail(e) => CommandView::Fail(e@),
        }
    }
}

/// An agent at work on one prompt.
pub struct StreamAgent {
    pub providers: Vec<ProviderEntry>,
    /// The conversation so far.
    pub messages: Vec<ChatMessage>,
    /// The model that was announced last.
    pub last_model: Option<String>,
    /// Whether only a summary is asked for, without tools: the rounds are used up, or one
    /// of them has given no text.
    pub summary: bool,
    pub round: usize,
    /// Whether a provider of this round has stopped without having said anything.
    pub silent: bool,
    /// The index of the current provider.
    pub provider: usize,
    /// What has been read of the current reply.
    pub read: StreamRead,
    /// The tool calls of this round.
    pub calls: Vec<ToolCallAccum>,
    /// What the first of these calls gave.
    pub results: Vec<String>,
    pub phase: Phase,
}

/// An agent at work, over mathematical values.
#[verifier::ext_equal]
pub struct AgentView {
    pub providers: Seq<ProviderView>,
    pub messages: Seq<MessageView>,
    pub last_model: Option<Seq<char>>,
    pub summary: bool,
    pub round: nat,
    pub silent: bool,
    pub provider: nat,
    pub read: ReadView,
    pub calls: Seq<CallView>,
    pub results: Seq<Seq<char>>,
    pub phase: Phase,
}

impl View for StreamAgent {
    type V = AgentView;

    open spec fn view(&self) -> AgentView {
        AgentView {
            providers: text::views(self.providers@),
            messages: text::views(self.messages@),
            last_model: text::opt_view(self.last_model),
            summary: self.summary,
            round: self.round as nat,
            silent: self.silent,
            provider: self.provider as nat,
            read: self.read@,
            calls: text::views(self.calls@),
            results: text::views(self.results@),
            phase: self.phase,
        }
    }
}

/// The agent after an event, the text that it shows, and what it does next.
#[verifier::ext_equal]
pub struct Turn {
    pub agent: AgentView,
    pub out: Seq<OutgoingView>,
    pub command: CommandView,
}

/// An event that the agent is told of.
pub enum EventView {
    /// The provider answers the request with a success status.
    Accepted,
    /// The request could not be sent, timed out, or was answered with another
    /// status.
    Refused,
    /// A further piece of the reply's text.
    Text(Seq<char>),
    /// The reply is over, was broken off, or has stalled.
    Ended,
    /// The tool call is over, after so many seconds.
    ToolDone(Result<Seq<char>, Seq<char>>, Seq<char>),
}

impl AgentView {
    /// What holds of an agent between events.
    pub open spec fn wf(self) -> bool {
        &&& self.round <= MAX_ROUNDS
        &&& self.provider <= self.providers.len()
        &&& self.phase == Phase::Asking || self.phase == Phase::Reading ==> {
            &&& self.provider < self.providers.len()
            &&& self.summary || self.round < MAX_ROUNDS
            &&& self.phase == Phase::Reading && !self.summary ==> self.read.finish is None
        }
        &&& self.phase == Phase::Running ==> {
            &&& !self.summary
            &&& self.round < MAX_ROUNDS
            &&& self.provider < self.providers.len()
            &&& self.results.len() < self.calls.len()
        }
    }

    /// The provider that is asked, or whose reply is read.
    pub open spec fn current(self) -> ProviderView {
        self.providers[self.provider as int]
    }

    /// Whether the agent is waiting for such an event.
    pub open spec fn awaits(self, event: EventView) -> bool {
        match event {
            EventView::Accepted | EventView::Refused => self.phase == Phase::Asking,
            EventView::Text(_) | EventView::Ended => self.phase == Phase::Reading,
            EventView::ToolDone(_, _) => self.phase == Phase::Running,
        }
    }
}

/// Why the work fails when no provider is left.
pub open spec fn exhausted(a: AgentView) -> Seq<char> {
    let count = "All "@ + text::decimal(a.providers.len());
    if a.summary {
        count + " providers exhausted in fallback"@
    } else {
        count + " providers exhausted at round "@ + text::decimal(a.round)
    }
}

/// The agent turns to its current provider. Its model is announced before it is
/// asked, unless it was announced last. Where no provider is left, the work
/// fails.
pub open spec fn turn_to_provider(a: AgentView, out: Seq<OutgoingView>) -> Turn {
    if a.provider < a.providers.len() {
        let model = a.current().model;
        let announced = a.last_model == Some(model);
        Turn {
            agent: AgentView { last_model: Some(model), phase: Phase::Asking, ..a },
            out: if announced {
                out
            } else {
                out.push(sse::say(chain::model_label(a.last_model is None, model), false))
            },
            command: CommandView::Ask,
        }
    } else {
        Turn {
            agent: AgentView { phase: Phase::Over, ..a },
            out,
            command: CommandView::Fail(exhausted(a)),
        }
    }
}

/// What the model is asked for when there is no other answer.
pub open spec fn summary_request() -> Seq<char> {
    "You haven't produced any response yet. Please now synthesize a comprehensive final answer based on everything gathered so far. Always use the same language as the user's question."@
}

/// The agent asks for a summary, from the first provider on. The models are announced
/// anew.
pub open spec fn begin_summary(a: AgentView, out: Seq<OutgoingView>) -> Turn {
    turn_to_provider(
        AgentView {
            messages: a.messages.push(MessageView::User(summary_request())),
            summary: true,
            last_model: None,
            provider: 0,
            ..a
        },
        out,
    )
}

/// The agent gives the current provider up and turns to the next. Where none is left in
/// a round in which a provider has stopped without a word, a summary is asked for.
pub open spec fn turn_to_next(a: AgentView, out: Seq<OutgoingView>) -> Turn {
    if a.provider + 1 >= a.providers.len() && a.silent && !a.summary {
        begin_summary(a, out)
    } else {
        turn_to_provider(AgentView { provider: a.provider + 1, ..a }, out)
    }
}

/// The work is over and went well, with a last piece of text where there is one.
pub open spec fn finished(
    a: AgentView,
    out: Seq<OutgoingView>,
    notice: Option<Seq<char>>,
) -> Turn {
    Turn {
        agent: AgentView { phase: Phase::Over, ..a },
        out: match notice {
            Some(n) => out.push(sse::say(n, false)),
            None => out,
        },
        command: CommandView::Finish,
    }
}

/// A reply that ended without a reason counts as stopped, if something of it is
/// unread or it asks for tools.
pub open spec fn settled(r: ReadView) -> ReadView {
    if r.finish is None && (r.line_buf.len() > 0 || !r.calls.is_empty()) {
        ReadView { finish: Some("stop"@), ..r }
    } else {
        r
    }
}

/// The agent announces the next tool call of the round and has it run.
pub open spec fn run_next_call(a: AgentView, out: Seq<OutgoingView>) -> Turn {
    let call = a.calls[a.results.len() as int];
    Turn {
        agent: AgentView { phase: Phase::Running, ..a },
        out: out.push(sse::say(feed::call_heading(call.name), false)).push(
            sse::say(feed::call_arguments(call.arguments), false),
        ),
        command: CommandView::RunTool { name: call.name, arguments: call.arguments },
    }
}

/// What is told of a reason to finish that the agent does not know, given the reason
/// in quotes.
pub open spec fn unexpected_words(p: ProviderView, shown: Seq<char>) -> Seq<char> {
    p.base_url + "/"@ + p.model + " unexpected finish_reason: "@ + shown
}

/// Why the work fails on a reason to finish that the agent does not know.
pub open spec fn unexpected_reason(p: ProviderView, reason: Seq<char>) -> Seq<char> {
    unexpected_words(p, text::quoted(reason))
}

/// What is told of a reason to finish that the agent does not know, given the reason
/// in quotes.
pub fn unexpected_text(provider: &ProviderEntry, shown: &str) -> (r: String)
    ensures
        r@ == unexpected_words(provider@, shown@),
{
    let mut r = provider.base_url.clone();
    r.append("/");
    r.append(provider.model.as_str());
    r.append(" unexpected finish_reason: ");
    r.append(shown);
    r
}

/// What the agent makes of a reply that is over, in a round.
pub open spec fn conclude_round(a: AgentView, out: Seq<OutgoingView>) -> Turn {
    let read = settled(a.read);
    let b = AgentView { read, ..a };
    match read.finish {
        None => turn_to_next(b, out),
        Some(reason) => if reason == "tool_calls"@ && !read.calls.is_empty() {
            run_next_call(
                AgentView {
                    calls: sse::calls_in_order(read.calls),
                    results: Seq::empty(),
                    ..b
                },
                out,
            )
        } else if reason == "stop"@ {
            if text::is_blank(read.content) {
                turn_to_next(AgentView { silent: true, ..b }, out)
            } else {
                finished(b, out, None)
            }
        } else if reason == "length"@ {
            finished(b, out, Some("\n\n ⚠️ Response truncated (max tokens)\n"@))
        } else if reason == "content_filter"@ {
            finished(b, out, Some("\n\n 🚫 Content filtered by provider\n"@))
        } else {
            Turn {
                agent: AgentView { phase: Phase::Over, ..b },
                out,
                command: CommandView::Fail(unexpected_reason(b.current(), reason)),
            }
        },
    }
}

/// What the agent makes of a reply that is over.
pub open spec fn conclude(a: AgentView, out: Seq<OutgoingView>) -> Turn {
    if a.summary {
        if text::is_blank(a.read.content) {
            turn_to_next(a, out)
        } else {
            finished(a, out, None)
        }
    } else {
        conclude_round(a, out)
    }
}

/// The answers to the tool calls of a round, in the order of the calls.
pub open spec fn tool_answers(calls: Seq<CallView>, results: Seq<Seq<char>>) -> Seq<MessageView> {
    Seq::new(
        calls.len(),
        |i: int| MessageView::Tool { call_id: calls[i].id, content: results[i] },
    )
}

/// All the tool calls of a round are done: they and their answers join the
/// conversation, and the next round begins with the first provider. After the
/// last round a summary is asked for instead.
pub open spec fn close_round(a: AgentView, out: Seq<OutgoingView>) -> Turn {
    let messages = a.messages.push(MessageView::Assistant(a.calls)) + tool_answers(
        a.calls,
        a.results,
    );
    let b = AgentView { messages, round: a.round + 1, silent: false, provider: 0, ..a };
    if b.round < MAX_ROUNDS {
        turn_to_provider(b, out)
    } else {
        begin_summary(b, out.push(max_rounds_notice()))
    }
}

/// What is shown when the rounds are used up.
pub open spec fn max_rounds_notice() -> OutgoingView {
    sse::say("\n\n---\n⚡ Max rounds reached — synthesizing final response...\n\n"@, false)
}

/// What the agent makes of a tool call that is over.
pub open spec fn take_result(
    a: AgentView,
    result: Result<Seq<char>, Seq<char>>,
    elapsed: Seq<char>,
) -> Turn {
    let content = feed::result_text_of(result);
    let b = AgentView { results: a.results.push(content), ..a };
    let out = seq![sse::say(feed::call_report(content, elapsed), false)];
    if b.results.len() < b.calls.len() {
        run_next_call(b, out)
    } else {
        close_round(b, out)
    }
}

/// What the agent makes of a further piece of a reply. In a round the reply is
/// over once it says why.
pub open spec fn take_text(a: AgentView, piece: Seq<char>) -> Turn {
    let f = sse::fed((a.read, Seq::empty()), piece, !a.summary);
    let b = AgentView { read: f.0, ..a };
    if !a.summary && f.0.finish is Some {
        conclude(b, f.1)
    } else {
        Turn { agent: b, out: f.1, command: CommandView::Read }
    }
}

/// What the agent makes of an event.
pub open spec fn after(a: AgentView, event: EventView) -> Turn {
    match event {
        EventView::Accepted => Turn {
            agent: AgentView { read: sse::fresh_read(), phase: Phase::Reading, ..a },
            out: Seq::empty(),
            command: CommandView::Read,
        },
        EventView::Refused => turn_to_next(a, Seq::empty()),
        EventView::Text(piece) => take_text(a, piece),
        EventView::Ended => conclude(a, Seq::empty()),
        EventView::ToolDone(result, elapsed) => take_result(a, result, elapsed),
    }
}

/// The client is gone: the work is over, nothing more is shown, and nothing more is asked
/// for. The conversation stays as it is.
pub open spec fn abandoned(a: AgentView) -> Turn {
    Turn {
        agent: AgentView { phase: Phase::Over, ..a },
        out: Seq::empty(),
        command: CommandView::Finish,
    }
}

/// An agent that has not begun.
pub open spec fn new_agent(
    providers: Seq<ProviderView>,
    user_prompt: Seq<char>,
    preamble: Seq<char>,
) -> AgentView {
    AgentView {
        providers,
        messages: seq![MessageView::System(preamble), MessageView::User(user_prompt)],
        last_model: None,
        summary: false,
        round: 0,
        silent: false,
        provider: 0,
        read: sse::fresh_read(),
        calls: Seq::empty(),
        results: Seq::empty(),
        phase: Phase::Over,
    }
}

proof fn lemma_conclude_wf(a: AgentView, out: Seq<OutgoingView>)
    requires
        a.provider < a.providers.len(),
        a.round <= MAX_ROUNDS,
        a.summary || a.round < MAX_ROUNDS,
    ensures
        conclude(a, out).agent.wf(),
{
    let read = settled(a.read);
    if !a.summary && !read.calls.is_empty() {
        sse::lemma_some_call_in_order(read.calls);
    }
}

/// Every event that the agent awaits leaves it well-formed.
pub proof fn law_stays_well_formed(a: AgentView, event: EventView)
    requires
        a.wf(),
        a.awaits(event),
    ensures
        after(a, event).agent.wf(),
{
    match event {
        EventView::Text(piece) => {
            let f = sse::fed((a.read, Seq::empty()), piece, !a.summary);
            lemma_conclude_wf(AgentView { read: f.0, ..a }, f.1);
        },
        EventView::Ended => lemma_conclude_wf(a, Seq::empty()),
        _ => {},
    }
}

/// No event discards a message: whatever fails, the conversation with all its
/// tool results is kept.
pub proof fn law_messages_kept(a: AgentView, event: EventView)
    requires
        a.wf(),
        a.awaits(event),
    ensures
        a.messages.is_prefix_of(after(a, event).agent.messages),
{
}

/// Whether `t` is what becomes of an agent that gives its provider up. The next provider
/// is asked for the same round and with the same conversation. After the last provider a
/// silent round goes to the summary, which adds the request for it, and any other fails.
pub open spec fn moved_on(a: AgentView, silent: bool, t: Turn) -> bool {
    &&& t.agent.providers == a.providers
    &&& t.agent.round == a.round
    &&& if a.provider + 1 < a.providers.len() {
        &&& t.command == CommandView::Ask
        &&& t.agent.phase == Phase::Asking
        &&& t.agent.messages == a.messages
        &&& t.agent.summary == a.summary
        &&& t.agent.silent == silent
        &&& t.agent.provider == a.provider + 1
    } else if silent && !a.summary {
        &&& t.command == CommandView::Ask
        &&& t.agent.phase == Phase::Asking
        &&& t.agent.messages == a.messages.push(
            MessageView::User(
                "You haven't produced any response yet. Please now synthesize a comprehensive final answer based on everything gathered so far. Always use the same language as the user's question."@,
            ),
        )
        &&& t.agent.summary
        &&& t.agent.provider == 0
    } else {
        &&& t.agent.phase == Phase::Over
        &&& t.agent.messages == a.messages
        &&& t.command == CommandView::Fail(
            if a.summary {
                "All "@ + text::decimal(a.providers.len()) + " providers exhausted in fallback"@
            } else {
                "All "@ + text::decimal(a.providers.len()) + " providers exhausted at round "@
                    + text::decimal(a.round)
            },
        )
    }
}

/// A refused request is repeated with the next provider.
pub proof fn law_refusal_moves_on(a: AgentView)
    requires
        a.wf(),
        a.awaits(EventView::Refused),
    ensures
        moved_on(a, a.silent, after(a, EventView::Refused)),
{
}

/// Whether a reply stops without having said anything.
pub open spec fn stops_silent(a: AgentView) -> bool {
    let read = settled(a.read);
    !a.summary && read.finish == Some("stop"@) && text::is_blank(read.content)
}

/// Whether a reply that is over gives nothing to go on with: it says no reason to
/// finish, or it stops without having said anything.
pub open spec fn is_void(a: AgentView) -> bool {
    if a.summary {
        text::is_blank(a.read.content)
    } else {
        settled(a.read).finish is None || stops_silent(a)
    }
}

/// A reply that gives nothing is treated like a refusal, and one that stops without a
/// word makes the round a silent one.
pub proof fn law_void_reply_moves_on(a: AgentView)
    requires
        a.wf(),
        a.awaits(EventView::Ended),
        is_void(a),
    ensures
        moved_on(a, a.silent || stops_silent(a), after(a, EventView::Ended)),
{
    reveal_strlit("stop");
    reveal_strlit("tool_calls");
    assert("stop"@.len() != "tool_calls"@.len());
}

/// What the agent shows before it turns to a provider.
pub open spec fn shown_before(a: AgentView, event: EventView) -> Seq<OutgoingView> {
    match event {
        EventView::Text(piece) => sse::fed((a.read, Seq::empty()), piece, !a.summary).1,
        EventView::ToolDone(result, elapsed) => {
            let report = seq![
                sse::say(feed::call_report(feed::result_text_of(result), elapsed), false),
            ];
            if a.round + 1 < MAX_ROUNDS {
                report
            } else {
                report.push(max_rounds_notice())
            }
        },
        _ => Seq::empty(),
    }
}

/// The model of a provider is announced before the provider is asked, and last of all,
/// unless it is the one that was announced last: then it is not announced. The summary
/// begins anew.
pub proof fn law_model_announced(a: AgentView, event: EventView)
    requires
        a.wf(),
        a.awaits(event),
        after(a, event).command == CommandView::Ask,
    ensures
        ({
            let t = after(a, event);
            let model = t.agent.current().model;
            let last = if t.agent.summary && !a.summary {
                None
            } else {
                a.last_model
            };
            &&& t.agent.last_model == Some(model)
            &&& t.out == (if last == Some(model) {
                shown_before(a, event)
            } else {
                shown_before(a, event).push(
                    sse::say(chain::model_label(last is None, model), false),
                )
            })
        }),
{
}

/// How many more requests there can be.
pub open spec fn requests_left(a: AgentView) -> int {
    let n = a.providers.len();
    if a.phase == Phase::Over {
        0
    } else if a.summary {
        n - a.provider - 1
    } else {
        (MAX_ROUNDS - a.round) * n + (n - a.provider - 1)
    }
}

/// Every request uses one up, and no event adds to them. So no prompt takes more
/// requests than there are rounds, and one more, for each provider.
pub proof fn law_requests_bounded(a: AgentView, event: EventView)
    requires
        a.wf(),
        a.awaits(event),
    ensures
        0 <= requests_left(after(a, event).agent) <= requests_left(a),
        after(a, event).command == CommandView::Ask ==> requests_left(after(a, event).agent)
            < requests_left(a),
{
    let n = a.providers.len();
    let t = after(a, event);
    assert((MAX_ROUNDS - a.round) * n >= 0) by (nonlinear_arith)
        requires
            a.round <= MAX_ROUNDS,
            n >= 0,
    ;
    assert((MAX_ROUNDS - a.round) * n == (MAX_ROUNDS - (a.round + 1)) * n + n) by (nonlinear_arith);
    assert(a.round < MAX_ROUNDS ==> (MAX_ROUNDS - (a.round + 1)) * n >= 0) by (nonlinear_arith)
        requires
            n >= 0,
    ;
    assert(a.round < MAX_ROUNDS ==> (MAX_ROUNDS - a.round) * n >= n) by (nonlinear_arith)
        requires
            n >= 0,
    ;
    assert(t.agent.providers == a.providers);
    assert(t.agent.round == a.round || t.agent.round == a.round + 1);
}

/// The requests that an agent can make when it has asked its first provider.
pub proof fn law_requests_at_start(
    providers: Seq<ProviderView>,
    user_prompt: Seq<char>,
    preamble: Seq<char>,
)
    requires
        providers.len() > 0,
    ensures
        ({
            let t = turn_to_provider(
                new_agent(providers, user_prompt, preamble),
                Seq::empty(),
            );
            &&& t.command == CommandView::Ask
            &&& requests_left(t.agent) + 1 == (MAX_ROUNDS + 1) * providers.len()
        }),
{
    let n = providers.len();
    assert((MAX_ROUNDS + 1) * n == MAX_ROUNDS * n + n) by (nonlinear_arith);
}

/// When the last call of a round is done, the conversation grows by the assistant's calls
/// and one answer for each of them, in their order: the tool's output, or its error behind
/// a mark. The next round begins with the first provider and with nothing held against it.
/// After the seventh round the request for a summary follows, and nothing else.
pub proof fn law_every_call_answered(
    a: AgentView,
    result: Result<Seq<char>, Seq<char>>,
    elapsed: Seq<char>,
)
    requires
        a.wf(),
        a.awaits(EventView::ToolDone(result, elapsed)),
        a.results.len() + 1 == a.calls.len(),
    ensures
        ({
            let t = after(a, EventView::ToolDone(result, elapsed));
            let m = t.agent.messages;
            let old_len = a.messages.len() as int;
            let n = a.calls.len() as int;
            let results = a.results.push(
                match result {
                    Ok(output) => output,
                    Err(e) => "Error: "@ + e,
                },
            );
            &&& m.len() == old_len + 1 + n + (if a.round + 1 < 7 {
                0int
            } else {
                1
            })
            &&& m.take(old_len) == a.messages
            &&& m[old_len] == MessageView::Assistant(a.calls)
            &&& forall|i: int|
                #![trigger a.calls[i]]
                0 <= i < n ==> m[old_len + 1 + i] == (MessageView::Tool {
                    call_id: a.calls[i].id,
                    content: results[i],
                })
            &&& a.round + 1 >= 7 ==> m.last() == MessageView::User(
                "You haven't produced any response yet. Please now synthesize a comprehensive final answer based on everything gathered so far. Always use the same language as the user's question."@,
            )
            &&& t.command == CommandView::Ask
            &&& t.agent.providers == a.providers
            &&& t.agent.round == a.round + 1
            &&& t.agent.provider == 0
            &&& !t.agent.silent
            &&& t.agent.summary <==> a.round + 1 >= 7
        }),
{
    let results = a.results.push(feed::result_text_of(result));
    let answers = tool_answers(a.calls, results);
    let grown = a.messages.push(MessageView::Assistant(a.calls)) + answers;
    let m = after(a, EventView::ToolDone(result, elapsed)).agent.messages;
    assert(grown.is_prefix_of(m));
    assert(m.take(a.messages.len() as int) =~= a.messages) by {
        assert forall|i: int| 0 <= i < a.messages.len() implies m[i] == a.messages[i] by {
            assert(m[i] == grown[i]);
        }
    }
    assert forall|i: int|
        #![trigger a.calls[i]]
        0 <= i < a.calls.len() implies m[a.messages.len() + 1 + i] == (MessageView::Tool {
        call_id: a.calls[i].id,
        content: results[i],
    }) by {
        assert(m[a.messages.len() + 1 + i] == grown[a.messages.len() + 1 + i]);
        assert(grown[a.messages.len() + 1 + i] == answers[i]);
    }
    assert(m[a.messages.len() as int] == grown[a.messages.len() as int]);
}

/// The work goes well only with an answer: what was shown is not blank, unless
/// the provider cut its reply off.
pub proof fn law_success_has_answer(a: AgentView, event: EventView)
    requires
        a.wf(),
        a.awaits(event),
        after(a, event).command == CommandView::Finish,
    ensures
        ({
            let read = after(a, event).agent.read;
            ||| !text::is_blank(read.content)
            ||| read.finish == Some("length"@)
            ||| read.finish == Some("content_filter"@)
        }),
{
}

/// The text to show and what to do next.
pub struct Reply {
    pub out: Vec<Outgoing>,
    pub command: Command,
}

/// The turn that an agent has made.
pub open spec fn made(agent: StreamAgent, reply: Reply) -> Turn {
    Turn { agent: agent@, out: text::views(reply.out@), command: reply.command@ }
}

impl StreamAgent {
    /// An agent that begins its work on a prompt. Its first turn is to the first
    /// provider.
    pub fn start(providers: Vec<ProviderEntry>, user_prompt: &str, preamble: &str) -> (r: (
        StreamAgent,
        Reply,
    ))
        ensures
            made(r.0, r.1) == turn_to_provider(
                new_agent(text::views(providers@), user_prompt@, preamble@),
                Seq::empty(),
            ),
            r.0@.wf(),
    {
        let ghost given = text::views(providers@);
        let mut agent = StreamAgent {
            providers,
            messages: vec![
                ChatMessage::System(preamble.to_owned()),
                ChatMessage::User(user_prompt.to_owned()),
            ],
            last_model: None,
            summary: false,
            round: 0,
            silent: false,
            provider: 0,
            read: StreamRead::new(),
            calls: Vec::new(),
            results: Vec::new(),
            phase: Phase::Over,
        };
        assert(agent@ =~= new_agent(given, user_prompt@, preamble@)) by {
            assert(agent@.messages =~= new_agent(given, user_prompt@, preamble@).messages);
            assert(agent@.calls =~= Seq::empty());
            assert(agent@.results =~= Seq::empty());
        }
        let mut out: Vec<Outgoing> = Vec::new();
        assert(text::views(out@) =~= Seq::empty());
        let command = agent.turn_to_provider(&mut out);
        (agent, Reply { out, command })
    }

    fn turn_to_provider(&mut self, out: &mut Vec<Outgoing>) -> (command: Command)
        requires
            old(self)@.provider <= old(self)@.providers.len(),
        ensures
            (Turn {
                agent: final(self)@,
                out: text::views(final(out)@),
                command: command@,
            }) == turn_to_provider(old(self)@, text::views(old(out)@)),
    {
        if self.provider < self.providers.len() {
            let model = self.providers[self.provider].model.clone();
            let first = self.last_model.is_none();
            let announced = match &self.last_model {
                Some(last) => same(last.as_str(), model.as_str()),
                None => false,
            };
            assert(model@ == self@.current().model);
            if !announced {
                let label = label_text(first, model.as_str());
                push_out(out, label.as_str(), false);
            }
            self.last_model = Some(model);
            self.phase = Phase::Asking;
            Command::Ask
        } else {
            self.phase = Phase::Over;
            let mut e = "All ".to_owned();
            let count = decimal_text(self.providers.len() as u64);
            e.append(count.as_str());
            if self.summary {
                e.append(" providers exhausted in fallback");
            } else {
                e.append(" providers exhausted at round ");
                let round = decimal_text(self.round as u64);
                e.append(round.as_str());
            }
            Command::Fail(e)
        }
    }

    fn begin_summary(&mut self, out: &mut Vec<Outgoing>) -> (command: Command)
        ensures
            (Turn {
                agent: final(self)@,
                out: text::views(final(out)@),
                command: command@,
            }) == begin_summary(old(self)@, text::views(old(out)@)),
    {
        let ghost before = self@.messages;
        self.messages.push(
            ChatMessage::User(
                "You haven't produced any response yet. Please now synthesize a comprehensive final answer based on everything gathered so far. Always use the same language as the user's question.".to_owned(),
            ),
        );
        assert(self@.messages =~= before.push(MessageView::User(summary_request())));
        self.summary = true;
        self.last_model = None;
        self.provider = 0;
        self.turn_to_provider(out)
    }

    fn turn_to_next(&mut self, out: &mut Vec<Outgoing>) -> (command: Command)
        requires
            old(self)@.provider < old(self)@.providers.len(),
        ensures
            (Turn {
                agent: final(self)@,
                out: text::views(final(out)@),
                command: command@,
            }) == turn_to_next(old(self)@, text::views(old(out)@)),
    {
        assert(self.providers@.len() == self@.providers.len());
        let n: usize = self.providers.len();
        assert(self.provider < n);
        if self.provider + 1 >= n && self.silent && !self.summary {
            self.begin_summary(out)
        } else {
            self.provider = self.provider + 1;
            self.turn_to_provider(out)
        }
    }

    fn run_next_call(&mut self, out: &mut Vec<Outgoing>) -> (command: Command)
        requires
            old(self)@.results.len() < old(self)@.calls.len(),
        ensures
            (Turn {
                agent: final(self)@,
                out: text::views(final(out)@),
                command: command@,
            }) == run_next_call(old(self)@, text::views(old(out)@)),
    {
        let call = &self.calls[self.results.len()];
        let name = call.name.clone();
        let arguments = call.arguments.clone();
        let ghost view = call@;
        assert(view == self@.calls[self@.results.len() as int]);
        let heading = heading_text(name.as_str());
        push_out(out, heading.as_str(), false);
        let shown = arguments_text(arguments.as_str());
        push_out(out, shown.as_str(), false);
        self.phase = Phase::Running;
        Command::RunTool { name, arguments }
    }

    fn finish(&mut self, out: &mut Vec<Outgoing>, notice: Option<&str>) -> (command: Command)
        ensures
            (Turn {
                agent: final(self)@,
                out: text::views(final(out)@),
                command: command@,
            }) == finished(old(self)@, text::views(old(out)@), text::opt_view(notice)),
    {
        self.phase = Phase::Over;
        if let Some(n) = notice {
            push_out(out, n, false);
        }
        Command::Finish
    }

    fn conclude_round(&mut self, out: &mut Vec<Outgoing>) -> (command: Command)
        requires
            old(self)@.provider < old(self)@.providers.len(),
        ensures
            (Turn {
                agent: final(self)@,
                out: text::views(final(out)@),
                command: command@,
            }) == conclude_round(old(self)@, text::views(old(out)@)),
    {
        let some_calls = self.read.has_calls();
        if self.read.finish_reason.is_none() && (!self.read.line_buf.as_str().is_empty()
            || some_calls) {
            self.read.finish_reason = Some("stop".to_owned());
        }
        assert(self@ == (AgentView { read: settled(old(self)@.read), ..old(self)@ }));
        let reason = match &self.read.finish_reason {
            Some(r) => r.clone(),
            None => {
                return self.turn_to_next(out);
            },
        };
        if same(reason.as_str(), "tool_calls") && some_calls {
            self.calls = self.read.ordered_calls();
            self.results = Vec::new();
            proof {
                sse::lemma_some_call_in_order(self@.read.calls);
                assert(self@.results =~= Seq::empty());
            }
            self.run_next_call(out)
        } else if same(reason.as_str(), "stop") {
            if blank(self.read.content.as_str()) {
                self.silent = true;
                self.turn_to_next(out)
            } else {
                self.finish(out, None)
            }
        } else if same(reason.as_str(), "length") {
            self.finish(out, Some("\n\n ⚠️ Response truncated (max tokens)\n"))
        } else if same(reason.as_str(), "content_filter") {
            self.finish(out, Some("\n\n 🚫 Content filtered by provider\n"))
        } else {
            let provider = &self.providers[self.provider];
            assert(provider@ == self@.current());
            let shown = quoted_text(reason.as_str());
            let e = unexpected_text(provider, shown.as_str());
            self.phase = Phase::Over;
            Command::Fail(e)
        }
    }

    fn conclude(&mut self, out: &mut Vec<Outgoing>) -> (command: Command)
        requires
            old(self)@.provider < old(self)@.providers.len(),
        ensures
            (Turn {
                agent: final(self)@,
                out: text::views(final(out)@),
                command: command@,
            }) == conclude(old(self)@, text::views(old(out)@)),
    {
        if self.summary {
            if blank(self.read.content.as_str()) {
                self.turn_to_next(out)
            } else {
                self.finish(out, None)
            }
        } else {
            self.conclude_round(out)
        }
    }

    fn close_round(&mut self, out: &mut Vec<Outgoing>) -> (command: Command)
        requires
            old(self)@.round < MAX_ROUNDS,
            old(self)@.results.len() == old(self)@.calls.len(),
        ensures
            (Turn {
                agent: final(self)@,
                out: text::views(final(out)@),
                command: command@,
            }) == close_round(old(self)@, text::views(old(out)@)),
    {
        let mut asked: Vec<ToolCallAccum> = Vec::new();
        let mut i: usize = 0;
        while i < self.calls.len()
            invariant
                i <= self.calls@.len(),
                text::views(asked@) =~= text::views(self.calls@).take(i as int),
            decreases self.calls@.len() - i,
        {
            let ghost before = text::views(asked@);
            let call = self.calls[i].duplicate();
            asked.push(call);
            assert(text::views(asked@) =~= before.push(text::views(self.calls@)[i as int]));
            i = i + 1;
        }
        assert(text::views(asked@) =~= self@.calls);
        let ghost start = self@.messages;
        self.messages.push(ChatMessage::Assistant(asked));
        assert(self@.messages =~= start.push(MessageView::Assistant(self@.calls)));
        let ghost base = self@;
        let ghost answers = tool_answers(self@.calls, self@.results);
        i = 0;
        assert(base.messages + answers.take(0) =~= base.messages);
        while i < self.calls.len()
            invariant
                i <= self.calls@.len(),
                self.calls@.len() == self.results@.len(),
                answers == tool_answers(base.calls, base.results),
                base.calls == self@.calls,
                base.results == self@.results,
                self@ == (AgentView { messages: base.messages + answers.take(i as int), ..base }),
            decreases self.calls@.len() - i,
        {
            let ghost before = self@.messages;
            let answer = ChatMessage::Tool {
                call_id: self.calls[i].id.clone(),
                content: self.results[i].clone(),
            };
            assert(self@.calls[i as int] == self.calls@[i as int]@);
            assert(self@.results[i as int] == self.results@[i as int]@);
            assert(answer@ == answers[i as int]);
            self.messages.push(answer);
            assert(self@.messages =~= before.push(answers[i as int]));
            assert(before.push(answers[i as int]) =~= base.messages + answers.take(i + 1));
            i = i + 1;
        }
        assert(answers.take(i as int) =~= answers);
        self.round = self.round + 1;
        self.silent = false;
        self.provider = 0;
        if self.round < MAX_ROUNDS {
            self.turn_to_provider(out)
        } else {
            push_out(
                out,
                "\n\n---\n⚡ Max rounds reached — synthesizing final response...\n\n",
                false,
            );
            self.begin_summary(out)
        }
    }

    /// The provider answers the request with a success status.
    pub fn accepted(&mut self) -> (r: Reply)
        requires
            old(self)@.wf(),
            old(self)@.awaits(EventView::Accepted),
        ensures
            made(*final(self), r) == after(old(self)@, EventView::Accepted),
            final(self)@.wf(),
    {
        self.read = StreamRead::new();
        self.phase = Phase::Reading;
        let out: Vec<Outgoing> = Vec::new();
        assert(text::views(out@) =~= Seq::empty());
        Reply { out, command: Command::Read }
    }

    /// The request could not be sent, timed out, or was answered with another
    /// status.
    pub fn refused(&mut self) -> (r: Reply)
        requires
            old(self)@.wf(),
            old(self)@.awaits(EventView::Refused),
        ensures
            made(*final(self), r) == after(old(self)@, EventView::Refused),
            final(self)@.wf(),
    {
        let mut out: Vec<Outgoing> = Vec::new();
        assert(text::views(out@) =~= Seq::empty());
        let command = self.turn_to_next(&mut out);
        Reply { out, command }
    }

    /// A further piece of the reply's text has come in.
    pub fn text(&mut self, piece: &str) -> (r: Reply)
        requires
            old(self)@.wf(),
            old(self)@.awaits(EventView::Text(piece@)),
        ensures
            made(*final(self), r) == after(old(self)@, EventView::Text(piece@)),
            final(self)@.wf(),
    {
        let mut out: Vec<Outgoing> = Vec::new();
        assert(text::views(out@) =~= Seq::empty());
        self.read.feed_text(piece, !self.summary, &mut out);
        if !self.summary && self.read.finish_reason.is_some() {
            proof {
                lemma_conclude_wf(self@, text::views(out@));
            }
            let command = self.conclude(&mut out);
            Reply { out, command }
        } else {
            Reply { out, command: Command::Read }
        }
    }

    /// A further chunk of the reply has come in.
    pub fn chunk(&mut self, bytes: &[u8]) -> (r: Reply)
        requires
            old(self)@.wf(),
            old(self)@.phase == Phase::Reading,
        ensures
            made(*final(self), r) == after(
                old(self)@,
                EventView::Text(text::utf8_lossy(bytes@)),
            ),
            vstd::utf8::valid_utf8(bytes@) ==> made(*final(self), r) == after(
                old(self)@,
                EventView::Text(vstd::utf8::decode_utf8(bytes@)),
            ),
            final(self)@.wf(),
    {
        let piece = lossy_text(bytes);
        self.text(piece.as_str())
    }

    /// The reply is over, was broken off, or has stalled.
    pub fn ended(&mut self) -> (r: Reply)
        requires
            old(self)@.wf(),
            old(self)@.awaits(EventView::Ended),
        ensures
            made(*final(self), r) == after(old(self)@, EventView::Ended),
            final(self)@.wf(),
    {
        let mut out: Vec<Outgoing> = Vec::new();
        assert(text::views(out@) =~= Seq::empty());
        let command = self.conclude(&mut out);
        proof {
            lemma_conclude_wf(old(self)@, Seq::empty());
        }
        Reply { out, command }
    }

    /// The tool call is over, after so many seconds.
    pub fn tool_done(&mut self, result: Result<String, String>, elapsed: &str) -> (r: Reply)
        requires
            old(self)@.wf(),
            old(self)@.phase == Phase::Running,
        ensures
            made(*final(self), r) == after(
                old(self)@,
                EventView::ToolDone(feed::outcome_view(result), elapsed@),
            ),
            final(self)@.wf(),
    {
        let content = result_text(result);
        let report = report_text(content.as_str(), elapsed);
        let mut out: Vec<Outgoing> = Vec::new();
        push_out(&mut out, report.as_str(), false);
        assert(text::views(out@) =~= seq![
            sse::say(feed::call_report(content@, elapsed@), false),
        ]);
        let ghost before = self@.results;
        let ghost given = content@;
        self.results.push(content);
        assert(self@.results =~= before.push(given));
        if self.results.len() < self.calls.len() {
            let command = self.run_next_call(&mut out);
            Reply { out, command }
        } else {
            let command = self.close_round(&mut out);
            Reply { out, command }
        }
    }

    /// The client is gone.
    pub fn gone(&mut self) -> (r: Reply)
        requires
            old(self)@.wf(),
        ensures
            made(*final(self), r) == abandoned(old(self)@),
            final(self)@.wf(),
    {
        self.phase = Phase::Over;
        let out: Vec<Outgoing> = Vec::new();
        assert(text::views(out@) =~= Seq::empty());
        Reply { out, command: Command::Finish }
    }

    /// A piece of text could not be delivered. Where it is vital the client is gone;
    /// where it is not, the work goes on.
    pub fn lost(&mut self, piece: &Outgoing) -> (r: Option<Reply>)
        requires
            old(self)@.wf(),
        ensures
            match r {
                Some(reply) => piece.vital && made(*final(self), reply) == abandoned(
                    old(self)@,
                ),
                None => !piece.vital && *final(self) == *old(self),
            },
            final(self)@.wf(),
    {
        if piece.vital {
            Some(self.gone())
        } else {
            None
        }
    }
}

/// Once the client is gone the agent waits for nothing: no request, no reply and no tool
/// call follows, and nothing more is shown. It is still well-formed, and but for that it is
/// as it was.
pub proof fn law_gone_is_the_end(a: AgentView, event: EventView)
    requires
        a.wf(),
    ensures
        abandoned(a).agent.wf(),
        !abandoned(a).agent.awaits(event),
        abandoned(a).agent == (AgentView { phase: Phase::Over, ..a }),
        abandoned(a).command == CommandView::Finish,
        abandoned(a).out.len() == 0,
        abandoned(a).agent.phase == phase_for(abandoned(a).command),
{
}

/// What an agent has to be told next.
pub open spec fn phase_for(command: CommandView) -> Phase {
    match command {
        CommandView::Ask => Phase::Asking,
        CommandView::Read => Phase::Reading,
        CommandView::RunTool { .. } => Phase::Running,
        CommandView::Finish | CommandView::Fail(_) => Phase::Over,
    }
}

/// What an agent wants done is what it then waits for: after each event its command
/// fits its phase, so that it can be told what came of it.
pub proof fn law_command_fits_phase(a: AgentView, event: EventView)
    requires
        a.wf(),
        a.awaits(event),
    ensures
        after(a, event).agent.phase == phase_for(after(a, event).command),
{
}

/// The first command of an agent fits its phase.
pub proof fn law_first_command_fits_phase(
    providers: Seq<ProviderView>,
    user_prompt: Seq<char>,
    preamble: Seq<char>,
)
    ensures
        ({
            let t = turn_to_provider(new_agent(providers, user_prompt, preamble), Seq::empty());
            t.agent.phase == phase_for(t.command)
        }),
{
}

/// How long a reply may become, in tokens.
pub const MAX_TOKENS: u64 = 4096;

/// The conversation in the form of a request.
pub open spec fn conversation_json(messages: Seq<MessageView>) -> JsonView {
    JsonView::Array(messages.map_values(|m: MessageView| messages::message_json(m)))
}

/// What the current provider is asked: to go on with the conversation, with the tools
/// at hand unless it is for the summary. The sampling parameters are not part of it.
pub open spec fn request_of(a: AgentView) -> JsonView {
    let model = ("model"@, JsonView::Str(a.current().model));
    let conversation = ("messages"@, conversation_json(a.messages));
    let max_tokens = ("max_tokens"@, JsonView::Number(Some(MAX_TOKENS)));
    let stream = ("stream"@, JsonView::Bool(true));
    if a.summary {
        JsonView::Object(seq![model, conversation, max_tokens, stream])
    } else {
        JsonView::Object(
            seq![
                model,
                conversation,
                ("tools"@, JsonView::Array(tools::definitions())),
                max_tokens,
                stream,
            ],
        )
    }
}

impl StreamAgent {
    /// The provider that is asked.
    pub fn asked(&self) -> (r: &ProviderEntry)
        requires
            self@.wf(),
            self@.phase == Phase::Asking,
        ensures
            r@ == self@.current(),
    {
        &self.providers[self.provider]
    }

    /// What the provider is asked.
    pub fn request(&self) -> (r: Json)
        requires
            self@.wf(),
            self@.phase == Phase::Asking,
        ensures
            r@ == request_of(self@),
    {
        let model = json_str(self.providers[self.provider].model.as_str());
        let conversation = messages_to_json(&self.messages);
        let r = if self.summary {
            json_object(
                vec![
                    ("model".to_owned(), model),
                    ("messages".to_owned(), conversation),
                    ("max_tokens".to_owned(), Json::Number(Some(MAX_TOKENS))),
                    ("stream".to_owned(), Json::Bool(true)),
                ],
            )
        } else {
            json_object(
                vec![
                    ("model".to_owned(), model),
                    ("messages".to_owned(), conversation),
                    ("tools".to_owned(), json_array(tool_definitions())),
                    ("max_tokens".to_owned(), Json::Number(Some(MAX_TOKENS))),
                    ("stream".to_owned(), Json::Bool(true)),
                ],
            )
        };
        assert(r@->Object_0 =~= request_of(self@)->Object_0);
        r
    }
}

impl ModelChain {
    /// Begins to answer a prompt piece by piece. A provider that fails is passed over
    /// within its round, so that what the tools gave before is kept.
    pub fn prompt_streaming(&self, user_prompt: &str, preamble: &str) -> (r: (StreamAgent, Reply))
        ensures
            made(r.0, r.1) == turn_to_provider(
                new_agent(text::views(self.providers@), user_prompt@, preamble@),
                Seq::empty(),
            ),
            r.0@.wf(),
    {
        StreamAgent::start(self.copies(), user_prompt, preamble)
    }
}

// What becomes of each event, told by the reply that was read and the tools' results.

proof fn lemma_reasons()
    ensures
        "tool_calls"@ != "stop"@,
        "tool_calls"@ != "length"@,
        "tool_calls"@ != "content_filter"@,
        "stop"@ != "length"@,
        "stop"@ != "content_filter"@,
        "length"@ != "content_filter"@,
{
    reveal_strlit("tool_calls");
    reveal_strlit("stop");
    reveal_strlit("length");
    reveal_strlit("content_filter");
    assert("tool_calls"@.len() == 10 && "stop"@.len() == 4);
    assert("length"@.len() == 6 && "content_filter"@.len() == 14);
}

/// An agent begins with the system prompt and the user's prompt, and with the first
/// provider, whose model it announces. Without providers it fails.
pub proof fn law_beginning(
    providers: Seq<ProviderView>,
    user_prompt: Seq<char>,
    preamble: Seq<char>,
)
    ensures
        ({
            let t = turn_to_provider(new_agent(providers, user_prompt, preamble), Seq::empty());
            &&& t.agent.providers == providers
            &&& t.agent.messages == seq![
                MessageView::System(preamble),
                MessageView::User(user_prompt),
            ]
            &&& t.agent.round == 0 && t.agent.provider == 0
            &&& !t.agent.summary && !t.agent.silent
            &&& providers.len() > 0 ==> t.command == CommandView::Ask && t.out == seq![
                OutgoingView { text: "**Model: "@ + providers[0].model + "**\n\n"@, vital: false },
            ]
            &&& providers.len() == 0 ==> t.out.len() == 0 && t.command == CommandView::Fail(
                "All "@ + text::decimal(0) + " providers exhausted at round "@ + text::decimal(0),
            )
        }),
{
    let t = turn_to_provider(new_agent(providers, user_prompt, preamble), Seq::empty());
    if providers.len() > 0 {
        assert(t.out =~= seq![
            OutgoingView { text: "**Model: "@ + providers[0].model + "**\n\n"@, vital: false },
        ]);
    }
}

/// An accepted request is followed by a reply of which nothing has been read. Nothing else
/// changes, and nothing is shown.
pub proof fn law_accepted_reply_is_read_anew(a: AgentView)
    requires
        a.wf(),
        a.awaits(EventView::Accepted),
    ensures
        ({
            let t = after(a, EventView::Accepted);
            &&& t.command == CommandView::Read
            &&& t.out.len() == 0
            &&& t.agent.read.line_buf.len() == 0
            &&& t.agent.read.content.len() == 0
            &&& t.agent.read.finish is None
            &&& !t.agent.read.thinking
            &&& forall|k: usize| !#[trigger] t.agent.read.calls.contains_key(k)
            &&& t.agent == (AgentView { read: t.agent.read, phase: Phase::Reading, ..a })
        }),
{
}

/// As long as no reason to finish has come, and in the summary in any case, the words of a
/// reply are shown and the next are read.
pub proof fn law_reading_goes_on(a: AgentView, piece: Seq<char>)
    requires
        a.wf(),
        a.awaits(EventView::Text(piece)),
    ensures
        ({
            let f = sse::fed((a.read, Seq::empty()), piece, !a.summary);
            let t = after(a, EventView::Text(piece));
            a.summary || f.0.finish is None ==> {
                &&& t.command == CommandView::Read
                &&& t.out == f.1
                &&& t.agent == (AgentView { read: f.0, ..a })
            }
        }),
{
}

/// A reply that ends for its tool calls, and holds some, has them run, whatever else it
/// says: the one with the lowest index first, the others in their order. The words of the
/// reply are shown, then the call. The conversation waits for the results.
pub proof fn law_tool_calls_are_run(a: AgentView, piece: Seq<char>, at: usize)
    requires
        a.wf(),
        a.awaits(EventView::Text(piece)),
        !a.summary,
        ({
            let read = sse::fed((a.read, Seq::empty()), piece, true).0;
            &&& read.finish == Some("tool_calls"@)
            &&& read.calls.contains_key(at)
            &&& forall|k: usize| #[trigger] read.calls.contains_key(k) ==> at <= k
        }),
    ensures
        ({
            let f = sse::fed((a.read, Seq::empty()), piece, true);
            let call = f.0.calls[at];
            let t = after(a, EventView::Text(piece));
            &&& t.command == (CommandView::RunTool {
                name: call.name,
                arguments: call.arguments,
            })
            &&& t.agent.phase == Phase::Running
            &&& t.agent.results.len() == 0
            &&& exists|keys: Seq<usize>| #[trigger]
                sse::lists_calls(f.0.calls, keys, t.agent.calls)
            &&& t.agent.messages == a.messages
            &&& t.agent.providers == a.providers
            &&& t.agent.round == a.round && t.agent.provider == a.provider && !t.agent.summary
            &&& t.agent.last_model == a.last_model && t.agent.silent == a.silent
            &&& t.out == f.1 + seq![
                OutgoingView {
                    text: "┊ "@ + feed::icon_of(call.name) + " `"@ + call.name + "`\n"@,
                    vital: false,
                },
                OutgoingView { text: "┊   ```` "@ + call.arguments + " ````\n"@, vital: false },
            ]
        }),
{
    let f = sse::fed((a.read, Seq::empty()), piece, true);
    let call = f.0.calls[at];
    let t = after(a, EventView::Text(piece));
    assert(f.0.calls.dom().contains(at));
    sse::law_lowest_index_comes_first(f.0.calls, at);
    sse::law_calls_in_order(f.0.calls);
    assert(t.agent.calls == sse::calls_in_order(f.0.calls));
    assert(t.out =~= f.1 + seq![
        OutgoingView {
            text: "┊ "@ + feed::icon_of(call.name) + " `"@ + call.name + "`\n"@,
            vital: false,
        },
        OutgoingView { text: "┊   ```` "@ + call.arguments + " ````\n"@, vital: false },
    ]);
}

/// A reply that stops with words has given the answer: the work is over. One that stops
/// without is passed over, and the round is a silent one.
pub proof fn law_stop_ends_the_work(a: AgentView, piece: Seq<char>)
    requires
        a.wf(),
        a.awaits(EventView::Text(piece)),
        !a.summary,
        sse::fed((a.read, Seq::empty()), piece, true).0.finish == Some("stop"@),
    ensures
        ({
            let f = sse::fed((a.read, Seq::empty()), piece, true);
            let t = after(a, EventView::Text(piece));
            if exists|i: int| 0 <= i < f.0.content.len() && !text::is_white(
                #[trigger] f.0.content[i],
            ) {
                &&& t.command == CommandView::Finish
                &&& t.out == f.1
                &&& t.agent.phase == Phase::Over
                &&& t.agent.messages == a.messages
            } else {
                moved_on(a, true, t)
            }
        }),
{
    lemma_reasons();
    text::law_blank(sse::fed((a.read, Seq::empty()), piece, true).0.content);
}

/// A reply that is cut off, for its length or by a filter, ends the work with a notice.
pub proof fn law_cut_off_reply_ends_the_work(a: AgentView, piece: Seq<char>)
    requires
        a.wf(),
        a.awaits(EventView::Text(piece)),
        !a.summary,
        ({
            let finish = sse::fed((a.read, Seq::empty()), piece, true).0.finish;
            finish == Some("length"@) || finish == Some("content_filter"@)
        }),
    ensures
        ({
            let f = sse::fed((a.read, Seq::empty()), piece, true);
            let t = after(a, EventView::Text(piece));
            &&& t.command == CommandView::Finish
            &&& t.agent.phase == Phase::Over
            &&& t.agent.messages == a.messages
            &&& t.out == f.1.push(
                OutgoingView {
                    text: if f.0.finish == Some("length"@) {
                        "\n\n ⚠️ Response truncated (max tokens)\n"@
                    } else {
                        "\n\n 🚫 Content filtered by provider\n"@
                    },
                    vital: false,
                },
            )
        }),
{
    lemma_reasons();
}

/// A reply that ends for any other reason fails the work, and so does one that ends for
/// tool calls and holds none. What is told names the provider, the model and the reason.
pub proof fn law_unknown_reason_fails_the_work(a: AgentView, piece: Seq<char>, reason: Seq<char>)
    requires
        a.wf(),
        a.awaits(EventView::Text(piece)),
        !a.summary,
        sse::fed((a.read, Seq::empty()), piece, true).0.finish == Some(reason),
        reason != "stop"@ && reason != "length"@ && reason != "content_filter"@,
        reason == "tool_calls"@ ==> forall|k: usize|
            !#[trigger] sse::fed((a.read, Seq::empty()), piece, true).0.calls.contains_key(k),
    ensures
        ({
            let f = sse::fed((a.read, Seq::empty()), piece, true);
            let t = after(a, EventView::Text(piece));
            let p = a.providers[a.provider as int];
            &&& t.command == CommandView::Fail(
                p.base_url + "/"@ + p.model + " unexpected finish_reason: "@ + text::quoted(reason),
            )
            &&& t.out == f.1
            &&& t.agent.phase == Phase::Over
            &&& t.agent.messages == a.messages
        }),
{
    let calls = sse::fed((a.read, Seq::empty()), piece, true).0.calls;
    if reason == "tool_calls"@ {
        assert(calls =~= Map::empty());
    }
}

/// A reply that ends in a round without a reason counts as stopped where something of it
/// is unread or it has begun a tool call: with words it is the answer, without it makes the
/// round a silent one. Otherwise it is passed over like a refusal.
pub proof fn law_broken_off_reply(a: AgentView)
    requires
        a.wf(),
        a.awaits(EventView::Ended),
        !a.summary,
    ensures
        ({
            let t = after(a, EventView::Ended);
            let begun = a.read.line_buf.len() > 0 || exists|k: usize| #[trigger]
                a.read.calls.contains_key(k);
            let spoken = exists|i: int|
                0 <= i < a.read.content.len() && !text::is_white(#[trigger] a.read.content[i]);
            if begun && spoken {
                &&& t.command == CommandView::Finish
                &&& t.out.len() == 0
                &&& t.agent.phase == Phase::Over
                &&& t.agent.messages == a.messages
            } else {
                moved_on(a, a.silent || begun, t)
            }
        }),
{
    lemma_reasons();
    text::law_blank(a.read.content);
    if exists|k: usize| #[trigger] a.read.calls.contains_key(k) {
        let k = choose|k: usize| #[trigger] a.read.calls.contains_key(k);
        assert(a.read.calls.dom().contains(k));
    } else {
        assert(a.read.calls =~= Map::empty());
    }
}

/// A summary that ends with words is the answer. One without is passed over.
pub proof fn law_summary_ends_the_work(a: AgentView)
    requires
        a.wf(),
        a.awaits(EventView::Ended),
        a.summary,
    ensures
        ({
            let t = after(a, EventView::Ended);
            if exists|i: int| 0 <= i < a.read.content.len() && !text::is_white(
                #[trigger] a.read.content[i],
            ) {
                &&& t.command == CommandView::Finish
                &&& t.out.len() == 0
                &&& t.agent.phase == Phase::Over
                &&& t.agent.messages == a.messages
            } else {
                moved_on(a, a.silent, t)
            }
        }),
{
    text::law_blank(a.read.content);
}

/// The work goes well only when a reply says that it is over, with words or cut off, or
/// when it breaks off after words. Neither a refusal nor a tool ends it so.
pub proof fn law_only_a_reply_ends_the_work_well(a: AgentView, event: EventView)
    requires
        a.wf(),
        a.awaits(event),
        after(a, event).command == CommandView::Finish,
    ensures
        match event {
            EventView::Text(piece) => {
                let finish = sse::fed((a.read, Seq::empty()), piece, true).0.finish;
                &&& !a.summary
                &&& finish == Some("stop"@) || finish == Some("length"@) || finish == Some(
                    "content_filter"@,
                )
            },
            EventView::Ended => exists|i: int|
                0 <= i < a.read.content.len() && !text::is_white(#[trigger] a.read.content[i]),
            _ => false,
        },
{
    text::law_blank(a.read.content);
}

/// When a call is done and others of the round are left, the next of them is run. The
/// result is kept, as the tool gave it or as its error behind a mark, and reported.
pub proof fn law_next_call_is_run(
    a: AgentView,
    result: Result<Seq<char>, Seq<char>>,
    elapsed: Seq<char>,
)
    requires
        a.wf(),
        a.awaits(EventView::ToolDone(result, elapsed)),
        a.results.len() + 1 < a.calls.len(),
    ensures
        ({
            let t = after(a, EventView::ToolDone(result, elapsed));
            let call = a.calls[a.results.len() as int + 1];
            let given = match result {
                Ok(output) => output,
                Err(e) => "Error: "@ + e,
            };
            &&& t.command == (CommandView::RunTool {
                name: call.name,
                arguments: call.arguments,
            })
            &&& t.agent == (AgentView { results: a.results.push(given), ..a })
            &&& t.out == seq![
                OutgoingView { text: feed::call_report(given, elapsed), vital: false },
                OutgoingView {
                    text: "┊ "@ + feed::icon_of(call.name) + " `"@ + call.name + "`\n"@,
                    vital: false,
                },
                OutgoingView { text: "┊   ```` "@ + call.arguments + " ````\n"@, vital: false },
            ]
        }),
{
    let t = after(a, EventView::ToolDone(result, elapsed));
    let call = a.calls[a.results.len() as int + 1];
    let given = feed::result_text_of(result);
    assert(t.out =~= seq![
        OutgoingView { text: feed::call_report(given, elapsed), vital: false },
        OutgoingView {
            text: "┊ "@ + feed::icon_of(call.name) + " `"@ + call.name + "`\n"@,
            vital: false,
        },
        OutgoingView { text: "┊   ```` "@ + call.arguments + " ````\n"@, vital: false },
    ]);
}

/// When a round is over, the report on its last call is shown. After the seventh round the
/// notice that the rounds are used up follows. The label of the model comes last of all,
/// unless it is the one that was announced last.
pub proof fn law_round_is_reported(
    a: AgentView,
    result: Result<Seq<char>, Seq<char>>,
    elapsed: Seq<char>,
)
    requires
        a.wf(),
        a.awaits(EventView::ToolDone(result, elapsed)),
        a.results.len() + 1 == a.calls.len(),
    ensures
        ({
            let t = after(a, EventView::ToolDone(result, elapsed));
            let given = match result {
                Ok(output) => output,
                Err(e) => "Error: "@ + e,
            };
            let report = seq![
                OutgoingView { text: feed::call_report(given, elapsed), vital: false },
            ];
            let model = a.providers[0].model;
            &&& a.round + 1 < 7 && a.last_model == Some(model) ==> t.out == report
            &&& a.round + 1 < 7 && a.last_model is Some && a.last_model != Some(model) ==> t.out
                == report.push(
                OutgoingView {
                    text: "\n\n🔄 Switched to **Model: "@ + model + "**\n\n"@,
                    vital: false,
                },
            )
            &&& a.round + 1 >= 7 ==> t.out == report.push(
                OutgoingView {
                    text: "\n\n---\n⚡ Max rounds reached — synthesizing final response...\n\n"@,
                    vital: false,
                },
            ).push(OutgoingView { text: "**Model: "@ + model + "**\n\n"@, vital: false })
        }),
{
}

/// What a provider is asked names its model and holds the whole conversation, message by
/// message. The tools are offered in the rounds, and not for the summary.
pub proof fn law_request_holds_the_conversation(a: AgentView, i: int)
    requires
        a.wf(),
        a.phase == Phase::Asking,
        0 <= i < a.messages.len(),
    ensures
        ({
            let r = request_of(a);
            let sent = r.items_field("messages"@)->0;
            &&& a.current() == a.providers[a.provider as int]
            &&& r.field("model"@) == Some(JsonView::Str(a.providers[a.provider as int].model))
            &&& r.items_field("messages"@) is Some
            &&& sent.len() == a.messages.len()
            &&& sent[i] == messages::message_json(a.messages[i])
            &&& r.field("stream"@) == Some(JsonView::Bool(true))
            &&& r.field("max_tokens"@) == Some(JsonView::Number(Some(4096)))
            &&& a.summary ==> r.field("tools"@) is None && r->Object_0.len() == 4
            &&& !a.summary ==> r.field("tools"@) == Some(JsonView::Array(tools::definitions()))
                && r->Object_0.len() == 5
        }),
{
    reveal_strlit("model");
    reveal_strlit("messages");
    reveal_strlit("tools");
    reveal_strlit("max_tokens");
    reveal_strlit("stream");
    assert("model"@.len() == 5 && "messages"@.len() == 8 && "tools"@.len() == 5);
    assert("model"@[0] == 'm' && "tools"@[0] == 't');
    assert("max_tokens"@.len() == 10 && "stream"@.len() == 6);
    reveal_with_fuel(json::lookup, 6);
    let e = request_of(a)->Object_0;
    let e1 = e.drop_first();
    let e2 = e1.drop_first();
    let e3 = e2.drop_first();
    assert(e1[0] == e[1] && e2[0] == e[2] && e3[0] == e[3]);
    if !a.summary {
        let e4 = e3.drop_first();
        assert(e4[0] == e[4]);
    }
}

/// When the work fails, the words that the last reply gave are shown and nothing else.
pub proof fn law_failure_adds_no_words(a: AgentView, event: EventView)
    requires
        a.wf(),
        a.awaits(event),
        after(a, event).command is Fail,
    ensures
        match event {
            EventView::Text(piece) => after(a, event).out == sse::fed(
                (a.read, Seq::empty()),
                piece,
                !a.summary,
            ).1,
            _ => after(a, event).out.len() == 0,
        },
        after(a, event).agent.messages == a.messages,
        after(a, event).agent.phase == Phase::Over,
{
}

/// What is told of a reason to finish that is not known names the provider's address, the
/// model and the reason.
pub proof fn law_unexpected_words(p: ProviderView, shown: Seq<char>)
    ensures
        unexpected_words(p, shown) == p.base_url + "/"@ + p.model + " unexpected finish_reason: "@
            + shown,
{
}

/// A provider that answers a request with one event, in which its tool calls stand and
/// which ends the reply for them, gets them run. The command names the tool and gives the
/// arguments as the deltas for the lowest index say them, whatever words come along, and
/// these words are shown.
pub proof fn law_requested_tool_is_run(
    a: AgentView,
    data: Seq<char>,
    doc: JsonView,
    choices: Seq<JsonView>,
    delta: JsonView,
    at: usize,
)
    requires
        a.wf(),
        a.awaits(EventView::Accepted),
        !a.summary,
        forall|i: int| 0 <= i < data.len() ==> #[trigger] data[i] != '\n',
        data.len() > 0,
        !text::is_white(data.last()),
        data != "[DONE]"@,
        json::json_document(data) == Some(doc),
        doc.field("choices"@) == Some(JsonView::Array(choices)),
        choices.len() > 0,
        choices[0].field("delta"@) == Some(delta),
        choices[0].field("finish_reason"@) == Some(JsonView::Str("tool_calls"@)),
        exists|i: int|
            0 <= i < sse::deltas_in(doc).len() && sse::meant_for(
                #[trigger] sse::deltas_in(doc)[i],
                at,
            ),
        forall|i: int, k: usize|
            0 <= i < sse::deltas_in(doc).len() && #[trigger] sse::meant_for(
                sse::deltas_in(doc)[i],
                k,
            ) ==> at <= k,
    ensures
        ({
            let t = after(a, EventView::Accepted);
            let u = after(t.agent, EventView::Text(("data: "@ + data).push('\n')));
            let deltas = sse::deltas_in(doc);
            &&& u.command == (CommandView::RunTool {
                name: sse::parts_of(deltas, at, true, "name"@),
                arguments: sse::parts_of(deltas, at, true, "arguments"@),
            })
            &&& u.agent.messages == a.messages
            &&& u.agent.calls[0].id == sse::parts_of(deltas, at, false, "id"@)
        }),
{
    let t = after(a, EventView::Accepted);
    let piece = ("data: "@ + data).push('\n');
    let fresh = (t.agent.read, Seq::<OutgoingView>::empty());
    let none = Seq::<char>::empty();
    sse::law_event_line(fresh, none, data, none, true);
    assert(none + ("data: "@ + data) + none =~= "data: "@ + data);
    let f = sse::fed(fresh, piece, true);
    sse::law_document_tells_the_reason(fresh, doc, choices, delta, "tool_calls"@);
    let docs = seq![doc];
    assert(docs.drop_last() =~= Seq::empty());
    assert(sse::after_documents(fresh, docs.drop_last()) == fresh);
    assert(sse::after_documents(fresh, docs) == f);
    assert(sse::all_deltas(docs.drop_last()) == Seq::<JsonView>::empty());
    assert(sse::all_deltas(docs) =~= sse::deltas_in(doc));
    assert forall|k: usize| #[trigger] f.0.calls.contains_key(k) implies at <= k by {
        sse::law_calls_are_pieced_together(fresh, docs, k);
        let i = choose|i: int|
            0 <= i < sse::deltas_in(doc).len() && sse::meant_for(
                #[trigger] sse::deltas_in(doc)[i],
                k,
            );
    }
    sse::law_calls_are_pieced_together(fresh, docs, at);
    law_tool_calls_are_run(t.agent, piece, at);
    sse::law_lowest_index_comes_first(f.0.calls, at);
    let call = f.0.calls[at];
    assert(call.name =~= sse::parts_of(sse::deltas_in(doc), at, true, "name"@));
    assert(call.arguments =~= sse::parts_of(sse::deltas_in(doc), at, true, "arguments"@));
    assert(call.id =~= sse::parts_of(sse::deltas_in(doc), at, false, "id"@));
}

/// A provider that answers a request with one event, in which words stand and which stops
/// the reply, has given the answer: the words are shown as they are, and the work is over.
pub proof fn law_answer_is_shown(
    a: AgentView,
    data: Seq<char>,
    doc: JsonView,
    choices: Seq<JsonView>,
    delta: JsonView,
    words: Seq<char>,
    i: int,
)
    requires
        a.wf(),
        a.awaits(EventView::Accepted),
        !a.summary,
        forall|i: int| 0 <= i < data.len() ==> #[trigger] data[i] != '\n',
        data.len() > 0,
        !text::is_white(data.last()),
        data != "[DONE]"@,
        json::json_document(data) == Some(doc),
        doc.field("choices"@) == Some(JsonView::Array(choices)),
        choices.len() > 0,
        choices[0].field("delta"@) == Some(delta),
        choices[0].field("finish_reason"@) == Some(JsonView::Str("stop"@)),
        delta.field("reasoning_content"@) is None,
        delta.field("content"@) == Some(JsonView::Str(words)),
        0 <= i < words.len(),
        !text::is_white(words[i]),
    ensures
        ({
            let t = after(a, EventView::Accepted);
            let u = after(t.agent, EventView::Text(("data: "@ + data).push('\n')));
            &&& u.command == CommandView::Finish
            &&& u.out == seq![OutgoingView { text: words, vital: true }]
            &&& u.agent.messages == a.messages
        }),
{
    let t = after(a, EventView::Accepted);
    let piece = ("data: "@ + data).push('\n');
    let fresh = (t.agent.read, Seq::<OutgoingView>::empty());
    let none = Seq::<char>::empty();
    sse::law_event_line(fresh, none, data, none, true);
    assert(none + ("data: "@ + data) + none =~= "data: "@ + data);
    let f = sse::fed(fresh, piece, true);
    sse::law_document_tells_the_reason(fresh, doc, choices, delta, "stop"@);
    sse::law_document_shows_its_words(fresh, doc, choices, delta, true);
    text::law_replace_line_feeds(none, 'a', "\n> "@);
    assert(sse::words_in(delta, "reasoning_content"@) =~= none);
    assert(f.0.content =~= words);
    assert(f.1 =~= seq![OutgoingView { text: words, vital: true }]);
    assert(!text::is_white(f.0.content[i]));
    law_stop_ends_the_work(t.agent, piece);
}

} // verus!
