//! The plain prompt: an agent with tools whose answer comes in one piece, for the
//! command line and for scheduled work.
//!
//! As with the streaming agent, the agent says what to do next and is told what
//! came of it.
use crate::chain;
use crate::chain::{label_text, ModelChain, ProviderEntry, ProviderView};
use crate::stream::{MAX_ROUNDS, MAX_TOKENS};
use crate::text;
use crate::text::blank;
use crate::tools::ToolKind;
use vstd::prelude::*;

verus! {

/// A message of the history that a provider is given.
pub struct HistoryMessage {
    pub role: String,
    pub content: String,
}

/// A message of the history, over mathematical sequences.
#[verifier::ext_equal]
pub struct HistoryView {
    pub role: Seq<char>,
    pub content: Seq<char>,
}

impl HistoryMessage {
    /// The same message again.
    pub fn duplicate(&self) -> (r: HistoryMessage)
        ensures
            r@ == self@,
    {
        HistoryMessage { role: self.role.clone(), content: self.content.clone() }
    }
}

impl View for HistoryMessage {
    type V = HistoryView;

    open spec fn view(&self) -> HistoryView {
        HistoryView { role: self.role@, content: self.content@ }
    }
}

/// What came of asking a provider.
pub enum PromptReply {
    /// The provider could not be asked, or gave no reply.
    Failed,
    Message(String),
    ToolCall { name: String, arguments: String },
}

/// What came of asking a provider, over mathematical sequences.
pub enum PromptReplyView {
    Failed,
    Message(Seq<char>),
    ToolCall { name: Seq<char>, arguments: Seq<char> },
}

impl View for PromptReply {
    type V = PromptReplyView;

    open spec fn view(&self) -> PromptReplyView {
        match self {
            PromptReply::Failed => PromptReplyView::Failed,
            PromptReply::Message(m) => PromptReplyView::Message(m@),
            PromptReply::ToolCall { name, arguments } => PromptReplyView::ToolCall {
                name: name@,
                arguments: arguments@,
            },
        }
    }
}

/// What to do next.
pub enum PromptCommand {
    /// Ask the current provider.
    Ask,
    RunTool { name: String, arguments: String },
    Answer { model: String, text: String },
    Fail(String),
}

/// What to do next, over mathematical sequences.
pub enum PromptCommandView {
    Ask,
    RunTool { name: Seq<char>, arguments: Seq<char> },
    Answer { model: Seq<char>, text: Seq<char> },
    Fail(Seq<char>),
}

impl View for PromptCommand {
    type V = PromptCommandView;

    open spec fn view(&self) -> PromptCommandView {
        match self {
            PromptCommand::Ask => PromptCommandView::Ask,
            PromptCommand::RunTool { name, arguments } => PromptCommandView::RunTool {
                name: name@,
                arguments: arguments@,
            },
            PromptCommand::Answer { model, text } => PromptCommandView::Answer {
                model: model@,
                text: text@,
            },
            PromptCommand::Fail(e) => PromptCommandView::Fail(e@),
        }
    }
}

/// An agent at work on one prompt.
pub struct PromptAgent {
    pub providers: Vec<ProviderEntry>,
    pub user_prompt: String,
    /// The system prompt.
    pub preamble: String,
    /// What the provider is asked in this round.
    pub prompt: String,
    pub history: Vec<HistoryMessage>,
    /// Whether only a summary of the history is asked for.
    pub summary: bool,
    pub round: usize,
    /// The index of the current provider.
    pub provider: usize,
}

/// An agent at work, over mathematical values.
#[verifier::ext_equal]
pub struct PromptView {
    pub providers: Seq<ProviderView>,
    pub user_prompt: Seq<char>,
    pub preamble: Seq<char>,
    pub prompt: Seq<char>,
    pub history: Seq<HistoryView>,
    pub summary: bool,
    pub round: nat,
    pub provider: nat,
}

impl View for PromptAgent {
    type V = PromptView;

    open spec fn view(&self) -> PromptView {
        PromptView {
            providers: text::views(self.providers@),
            user_prompt: self.user_prompt@,
            preamble: self.preamble@,
            prompt: self.prompt@,
            history: text::views(self.history@),
            summary: self.summary,
            round: self.round as nat,
            provider: self.provider as nat,
        }
    }
}

impl PromptView {
    /// What holds of an agent that waits for a provider or a tool.
    pub open spec fn wf(self) -> bool {
        &&& self.provider < self.providers.len()
        &&& self.summary || self.round < MAX_ROUNDS
    }
}

/// What a provider is asked when only a summary is wanted.
pub open spec fn summary_prompt() -> Seq<char> {
    "Based on the conversation above, produce a final response."@
}

/// Why the work fails when no provider gives a summary.
pub open spec fn no_summary() -> Seq<char> {
    "Max tool call rounds (7) exceeded and all final summaries failed"@
}

/// The agent turns to its current provider. When a round has no provider left,
/// a summary is asked for, from the first provider on. When no provider is left
/// to summarise, the work fails.
pub open spec fn prompt_turn(a: PromptView) -> (PromptView, PromptCommandView) {
    if a.provider < a.providers.len() {
        (a, PromptCommandView::Ask)
    } else if !a.summary && a.providers.len() > 0 {
        (begin_summary(a), PromptCommandView::Ask)
    } else {
        (a, PromptCommandView::Fail(no_summary()))
    }
}

/// The agent asks for a summary, from the first provider on.
pub open spec fn begin_summary(a: PromptView) -> PromptView {
    PromptView { summary: true, provider: 0, prompt: summary_prompt(), ..a }
}

/// The agent gives the current provider up and turns to the next.
pub open spec fn prompt_next(a: PromptView) -> (PromptView, PromptCommandView) {
    prompt_turn(PromptView { provider: a.provider + 1, ..a })
}

/// What the agent makes of a reply. A message that is not blank is the answer. A
/// tool call is run, unless only a summary is wanted. Otherwise the next provider
/// is asked.
pub open spec fn prompt_after(
    a: PromptView,
    reply: PromptReplyView,
) -> (PromptView, PromptCommandView) {
    match reply {
        PromptReplyView::Failed => prompt_next(a),
        PromptReplyView::Message(m) => if text::is_blank(m) {
            prompt_next(a)
        } else {
            (
                a,
                PromptCommandView::Answer {
                    model: a.providers[a.provider as int].model,
                    text: m,
                },
            )
        },
        PromptReplyView::ToolCall { name, arguments } => if a.summary {
            prompt_next(a)
        } else {
            (a, PromptCommandView::RunTool { name, arguments })
        },
    }
}

/// The two messages that a tool call leaves in the history.
pub open spec fn tool_exchange(
    name: Seq<char>,
    arguments: Seq<char>,
    result: Seq<char>,
) -> Seq<HistoryView> {
    seq![
        HistoryView {
            role: "assistant"@,
            content: "I called the tool `"@ + name + "` with arguments: "@ + arguments,
        },
        HistoryView {
            role: "user"@,
            content: "Tool `"@ + name + "` returned:\n"@ + result,
        },
    ]
}

/// What a provider is asked after a tool call.
pub open spec fn follow_up(user_prompt: Seq<char>) -> Seq<char> {
    "The tool result is above. Continue working on the original request: \""@ + user_prompt
        + "\""@
}

/// What the agent makes of a tool call that is over. Its result joins the history
/// and the next round begins with the first provider; after the last round a
/// summary is asked for. A tool that fails ends the work.
pub open spec fn prompt_tool_done(
    a: PromptView,
    name: Seq<char>,
    arguments: Seq<char>,
    result: Result<Seq<char>, Seq<char>>,
) -> (PromptView, PromptCommandView) {
    match result {
        Err(e) => (a, PromptCommandView::Fail("Tool error: "@ + e)),
        Ok(output) => {
            let b = PromptView {
                history: a.history + tool_exchange(name, arguments, output),
                prompt: follow_up(a.user_prompt),
                round: a.round + 1,
                provider: 0,
                ..a
            };
            if b.round < MAX_ROUNDS {
                (b, PromptCommandView::Ask)
            } else {
                (begin_summary(b), PromptCommandView::Ask)
            }
        },
    }
}

/// An agent that has not begun.
pub open spec fn new_prompt(
    providers: Seq<ProviderView>,
    user_prompt: Seq<char>,
    preamble: Seq<char>,
) -> PromptView {
    PromptView {
        providers,
        user_prompt,
        preamble,
        prompt: user_prompt,
        history: Seq::empty(),
        summary: false,
        round: 0,
        provider: 0,
    }
}

/// An agent that asks a provider or runs a tool is well-formed, whatever came
/// before.
pub proof fn law_prompt_stays_well_formed(a: PromptView, reply: PromptReplyView)
    requires
        a.wf(),
    ensures
        ({
            let (b, c) = prompt_after(a, reply);
            c is Ask || c is RunTool ==> b.wf()
        }),
{
}

/// The same after a tool call.
pub proof fn law_prompt_tool_stays_well_formed(
    a: PromptView,
    name: Seq<char>,
    arguments: Seq<char>,
    result: Result<Seq<char>, Seq<char>>,
)
    requires
        a.wf(),
        !a.summary,
    ensures
        ({
            let (b, c) = prompt_tool_done(a, name, arguments, result);
            c is Ask ==> b.wf()
        }),
{
}

/// A provider that gives no answer costs nothing of what the tools have given:
/// the history stays as it is.
pub proof fn law_replies_keep_history(a: PromptView, reply: PromptReplyView)
    requires
        a.wf(),
    ensures
        prompt_after(a, reply).0.history == a.history,
{
}

/// A tool call that succeeds adds exactly its two messages to the history.
pub proof fn law_tool_call_joins_history(
    a: PromptView,
    name: Seq<char>,
    arguments: Seq<char>,
    output: Seq<char>,
)
    requires
        a.wf(),
    ensures
        prompt_tool_done(a, name, arguments, Ok(output)).0.history == a.history
            + tool_exchange(name, arguments, output),
        tool_exchange(name, arguments, output).len() == 2,
{
}

/// The answer of a prompt is never blank, and is that of the provider asked.
pub proof fn law_answer_is_not_blank(a: PromptView, reply: PromptReplyView)
    requires
        a.wf(),
        prompt_after(a, reply).1 is Answer,
    ensures
        !text::is_blank(prompt_after(a, reply).1->text),
        prompt_after(a, reply).1->model == a.providers[a.provider as int].model,
        reply == PromptReplyView::Message(prompt_after(a, reply).1->text),
{
}

/// How many more requests there can be.
pub open spec fn prompts_left(a: PromptView) -> int {
    let n = a.providers.len();
    if a.summary {
        n - a.provider - 1
    } else {
        (MAX_ROUNDS - a.round) * n + (n - a.provider - 1)
    }
}

/// Every reply after which a provider is asked uses a request up, and a reply that
/// has a tool run changes nothing.
pub proof fn law_replies_use_up_requests(a: PromptView, reply: PromptReplyView)
    requires
        a.wf(),
    ensures
        prompt_after(a, reply).1 is Ask ==> 0 <= prompts_left(prompt_after(a, reply).0)
            < prompts_left(a),
        prompt_after(a, reply).1 is RunTool ==> prompt_after(a, reply).0 == a,
{
    let n = a.providers.len();
    assert(a.round < MAX_ROUNDS ==> (MAX_ROUNDS - a.round) * n >= n) by (nonlinear_arith)
        requires
            n >= 0,
    ;
}

/// Every tool call after which a provider is asked uses a request up.
pub proof fn law_tool_calls_use_up_requests(
    a: PromptView,
    name: Seq<char>,
    arguments: Seq<char>,
    result: Result<Seq<char>, Seq<char>>,
)
    requires
        a.wf(),
        !a.summary,
        prompt_tool_done(a, name, arguments, result).1 is Ask,
    ensures
        0 <= prompts_left(prompt_tool_done(a, name, arguments, result).0) < prompts_left(a),
{
    let n = a.providers.len();
    assert((MAX_ROUNDS - a.round) * n == (MAX_ROUNDS - (a.round + 1)) * n + n) by (nonlinear_arith);
    assert((MAX_ROUNDS - (a.round + 1)) * n >= 0) by (nonlinear_arith)
        requires
            n >= 0,
            a.round < MAX_ROUNDS,
    ;
}

/// No prompt takes more requests than there are rounds, and one more, for each
/// provider.
pub proof fn law_prompts_at_start(
    providers: Seq<ProviderView>,
    user_prompt: Seq<char>,
    preamble: Seq<char>,
)
    ensures
        prompts_left(new_prompt(providers, user_prompt, preamble)) + 1 == (MAX_ROUNDS + 1)
            * providers.len(),
{
    let n = providers.len();
    assert((MAX_ROUNDS + 1) * n == (MAX_ROUNDS - 0) * n + n) by (nonlinear_arith);
}

impl PromptAgent {
    /// An agent that begins its work on a prompt.
    pub fn start(providers: Vec<ProviderEntry>, user_prompt: &str, preamble: &str) -> (r: (
        PromptAgent,
        PromptCommand,
    ))
        ensures
            (r.0@, r.1@) == prompt_turn(
                new_prompt(text::views(providers@), user_prompt@, preamble@),
            ),
            r.1@ is Ask ==> r.0@.wf(),
    {
        let mut agent = PromptAgent {
            providers,
            user_prompt: user_prompt.to_owned(),
            preamble: preamble.to_owned(),
            prompt: user_prompt.to_owned(),
            history: Vec::new(),
            summary: false,
            round: 0,
            provider: 0,
        };
        assert(agent@.history =~= Seq::empty());
        let command = agent.turn();
        (agent, command)
    }

    fn begin_summary(&mut self)
        ensures
            final(self)@ == begin_summary(old(self)@),
    {
        self.summary = true;
        self.provider = 0;
        self.prompt = "Based on the conversation above, produce a final response.".to_owned();
    }

    fn turn(&mut self) -> (c: PromptCommand)
        ensures
            (final(self)@, c@) == prompt_turn(old(self)@),
    {
        if self.provider < self.providers.len() {
            PromptCommand::Ask
        } else if !self.summary && self.providers.len() > 0 {
            self.begin_summary();
            PromptCommand::Ask
        } else {
            PromptCommand::Fail(
                "Max tool call rounds (7) exceeded and all final summaries failed".to_owned(),
            )
        }
    }

    fn next(&mut self) -> (c: PromptCommand)
        requires
            old(self)@.provider < old(self)@.providers.len(),
        ensures
            (final(self)@, c@) == prompt_next(old(self)@),
    {
        let n: usize = self.providers.len();
        assert(self.provider < n);
        self.provider = self.provider + 1;
        self.turn()
    }

    /// The current provider has replied.
    pub fn replied(&mut self, reply: PromptReply) -> (c: PromptCommand)
        requires
            old(self)@.wf(),
        ensures
            (final(self)@, c@) == prompt_after(old(self)@, reply@),
            c@ is Ask || c@ is RunTool ==> final(self)@.wf(),
    {
        match reply {
            PromptReply::Failed => self.next(),
            PromptReply::Message(m) => {
                if blank(m.as_str()) {
                    self.next()
                } else {
                    let model = self.providers[self.provider].model.clone();
                    assert(model@ == self@.providers[self@.provider as int].model);
                    PromptCommand::Answer { model, text: m }
                }
            },
            PromptReply::ToolCall { name, arguments } => {
                if self.summary {
                    self.next()
                } else {
                    PromptCommand::RunTool { name, arguments }
                }
            },
        }
    }

    /// The tool call with this name and these arguments is over.
    pub fn tool_done(
        &mut self,
        name: &str,
        arguments: &str,
        result: Result<String, String>,
    ) -> (c: PromptCommand)
        requires
            old(self)@.wf(),
            !old(self)@.summary,
        ensures
            (final(self)@, c@) == prompt_tool_done(
                old(self)@,
                name@,
                arguments@,
                crate::feed::outcome_view(result),
            ),
            c@ is Ask ==> final(self)@.wf(),
    {
        match result {
            Err(e) => {
                let mut failure = "Tool error: ".to_owned();
                failure.append(e.as_str());
                PromptCommand::Fail(failure)
            },
            Ok(output) => {
                let mut called = "I called the tool `".to_owned();
                called.append(name);
                called.append("` with arguments: ");
                called.append(arguments);
                let mut returned = "Tool `".to_owned();
                returned.append(name);
                returned.append("` returned:\n");
                returned.append(output.as_str());
                let ghost before = self@.history;
                let ghost exchange = tool_exchange(name@, arguments@, output@);
                self.history.push(
                    HistoryMessage { role: "assistant".to_owned(), content: called },
                );
                self.history.push(HistoryMessage { role: "user".to_owned(), content: returned });
                assert(self@.history =~= before + exchange) by {
                    assert(self@.history[before.len() as int] == exchange[0]);
                    assert(self@.history[before.len() as int + 1] == exchange[1]);
                }
                let mut prompt =
                    "The tool result is above. Continue working on the original request: \"".to_owned();
                prompt.append(self.user_prompt.as_str());
                prompt.append("\"");
                self.prompt = prompt;
                self.round = self.round + 1;
                self.provider = 0;
                if self.round >= MAX_ROUNDS {
                    self.begin_summary();
                }
                PromptCommand::Ask
            },
        }
    }
}

/// An answer under the name of its model.
pub fn tagged_response(model: &str, response: &str) -> (r: String)
    ensures
        r@ == chain::model_label(true, model@) + response@,
{
    let mut r = label_text(true, model);
    r.append(response);
    r
}

/// A tool is run only while the rounds last, never for the summary.
pub proof fn law_no_tools_in_summary(a: PromptView, reply: PromptReplyView)
    requires
        a.wf(),
        prompt_after(a, reply).1 is RunTool,
    ensures
        !prompt_after(a, reply).0.summary,
{
}

/// What a provider is asked for an answer in one piece. The sampling parameters are not
/// part of it.
pub struct CompletionRequest {
    pub model: String,
    /// The system prompt, where there is one.
    pub preamble: Option<String>,
    /// The tools that the provider may call.
    pub tools: Vec<ToolKind>,
    pub prompt: String,
    pub history: Vec<HistoryMessage>,
    /// How long the answer may become, in tokens.
    pub max_tokens: u64,
}

/// What a provider is asked, over mathematical values.
#[verifier::ext_equal]
pub struct CompletionView {
    pub model: Seq<char>,
    pub preamble: Option<Seq<char>>,
    pub tools: Seq<ToolKind>,
    pub prompt: Seq<char>,
    pub history: Seq<HistoryView>,
    pub max_tokens: u64,
}

impl View for CompletionRequest {
    type V = CompletionView;

    open spec fn view(&self) -> CompletionView {
        CompletionView {
            model: self.model@,
            preamble: text::opt_view(self.preamble),
            tools: self.tools@,
            prompt: self.prompt@,
            history: text::views(self.history@),
            max_tokens: self.max_tokens,
        }
    }
}

/// All the tools, in the order in which an agent is given them.
pub open spec fn all_tools() -> Seq<ToolKind> {
    seq![ToolKind::Read, ToolKind::Search, ToolKind::Write, ToolKind::Update, ToolKind::Bash]
}

/// What the current provider is asked: the prompt of the round, after the history. The
/// system prompt and the tools are for the rounds only; the summary does without.
pub open spec fn prompt_request(a: PromptView) -> CompletionView {
    CompletionView {
        model: a.providers[a.provider as int].model,
        preamble: if a.summary {
            None
        } else {
            Some(a.preamble)
        },
        tools: if a.summary {
            Seq::empty()
        } else {
            all_tools()
        },
        prompt: a.prompt,
        history: a.history,
        max_tokens: MAX_TOKENS,
    }
}

impl PromptAgent {
    /// What the current provider is asked.
    pub fn request(&self) -> (r: CompletionRequest)
        requires
            self@.wf(),
        ensures
            r@ == prompt_request(self@),
    {
        let ghost all = text::views(self.history@);
        let mut history: Vec<HistoryMessage> = Vec::new();
        let mut i: usize = 0;
        while i < self.history.len()
            invariant
                i <= self.history@.len(),
                all == text::views(self.history@),
                text::views(history@) =~= all.take(i as int),
            decreases self.history@.len() - i,
        {
            let ghost before = text::views(history@);
            history.push(self.history[i].duplicate());
            assert(text::views(history@) =~= before.push(all[i as int]));
            i = i + 1;
        }
        assert(all.take(i as int) =~= all);
        let tools = if self.summary {
            Vec::new()
        } else {
            vec![
                ToolKind::Read,
                ToolKind::Search,
                ToolKind::Write,
                ToolKind::Update,
                ToolKind::Bash,
            ]
        };
        let preamble = if self.summary {
            None
        } else {
            Some(self.preamble.clone())
        };
        let r = CompletionRequest {
            model: self.providers[self.provider].model.clone(),
            preamble,
            tools,
            prompt: self.prompt.clone(),
            history,
            max_tokens: MAX_TOKENS,
        };
        assert(r@.tools =~= prompt_request(self@).tools);
        r
    }
}

impl ModelChain {
    /// Begins to answer a prompt in one piece, with the tools at hand.
    pub fn prompt(&self, user_prompt: &str, preamble: &str) -> (r: (PromptAgent, PromptCommand))
        ensures
            (r.0@, r.1@) == prompt_turn(
                new_prompt(text::views(self.providers@), user_prompt@, preamble@),
            ),
            r.1@ is Ask ==> r.0@.wf(),
    {
        PromptAgent::start(self.copies(), user_prompt, preamble)
    }
}

// What becomes of each reply and each tool call, told by what came back.

/// An agent begins with the user's prompt, no history and the first provider. Without
/// providers it fails.
pub proof fn law_prompt_beginning(
    providers: Seq<ProviderView>,
    user_prompt: Seq<char>,
    preamble: Seq<char>,
)
    ensures
        ({
            let (a, c) = prompt_turn(new_prompt(providers, user_prompt, preamble));
            &&& a.providers == providers
            &&& a.user_prompt == user_prompt && a.prompt == user_prompt && a.preamble == preamble
            &&& a.history.len() == 0
            &&& a.round == 0 && a.provider == 0 && !a.summary
            &&& providers.len() > 0 ==> c == PromptCommandView::Ask
            &&& providers.len() == 0 ==> c == PromptCommandView::Fail(
                "Max tool call rounds (7) exceeded and all final summaries failed"@,
            )
        }),
{
}

/// A message with a word in it is the answer, in every round and in the summary: it is
/// given out as it is, under the model of the provider that sent it.
pub proof fn law_message_is_the_answer(a: PromptView, m: Seq<char>, i: int)
    requires
        a.wf(),
        0 <= i < m.len(),
        !text::is_white(m[i]),
    ensures
        prompt_after(a, PromptReplyView::Message(m)) == (
            a,
            PromptCommandView::Answer { model: a.providers[a.provider as int].model, text: m },
        ),
{
    text::law_blank(m);
}

/// A tool call in a round is run as it was asked for, and changes nothing by itself.
pub proof fn law_tool_call_is_run(a: PromptView, name: Seq<char>, arguments: Seq<char>)
    requires
        a.wf(),
        !a.summary,
    ensures
        prompt_after(a, PromptReplyView::ToolCall { name, arguments }) == (
            a,
            PromptCommandView::RunTool { name, arguments },
        ),
{
}

/// A reply that is neither an answer nor a call to run is passed over: the next provider is
/// asked the same. After the last provider of a round the summary is asked for, from the
/// first provider on; after the last of the summary the work fails.
pub proof fn law_other_replies_are_passed_over(a: PromptView, reply: PromptReplyView)
    requires
        a.wf(),
        match reply {
            PromptReplyView::Failed => true,
            PromptReplyView::Message(m) => forall|i: int|
                0 <= i < m.len() ==> text::is_white(#[trigger] m[i]),
            PromptReplyView::ToolCall { .. } => a.summary,
        },
    ensures
        ({
            let (b, c) = prompt_after(a, reply);
            if a.provider + 1 < a.providers.len() {
                &&& c == PromptCommandView::Ask
                &&& b == (PromptView { provider: a.provider + 1, ..a })
            } else if !a.summary {
                &&& c == PromptCommandView::Ask
                &&& b == (PromptView {
                    summary: true,
                    provider: 0,
                    prompt: "Based on the conversation above, produce a final response."@,
                    ..a
                })
            } else {
                c == PromptCommandView::Fail(
                    "Max tool call rounds (7) exceeded and all final summaries failed"@,
                )
            }
        }),
{
    if let PromptReplyView::Message(m) = reply {
        text::law_blank(m);
    }
}

/// A tool call that succeeds leaves two messages in the history, the call and the result,
/// and the next round begins with the first provider and the original request. After the
/// seventh call the summary is asked for instead. A tool that fails ends the work.
pub proof fn law_tool_result_opens_the_next_round(
    a: PromptView,
    name: Seq<char>,
    arguments: Seq<char>,
    output: Seq<char>,
)
    requires
        a.wf(),
        !a.summary,
    ensures
        ({
            let (b, c) = prompt_tool_done(a, name, arguments, Ok(output));
            let n = a.history.len() as int;
            &&& c == PromptCommandView::Ask
            &&& b.history.len() == n + 2
            &&& b.history.take(n) == a.history
            &&& b.history[n] == (HistoryView {
                role: "assistant"@,
                content: "I called the tool `"@ + name + "` with arguments: "@ + arguments,
            })
            &&& b.history[n + 1] == (HistoryView {
                role: "user"@,
                content: "Tool `"@ + name + "` returned:\n"@ + output,
            })
            &&& b.round == a.round + 1 && b.provider == 0
            &&& b.providers == a.providers && b.user_prompt == a.user_prompt && b.preamble
                == a.preamble
            &&& b.summary <==> a.round + 1 >= 7
            &&& b.prompt == (if a.round + 1 >= 7 {
                "Based on the conversation above, produce a final response."@
            } else {
                "The tool result is above. Continue working on the original request: \""@
                    + a.user_prompt + "\""@
            })
        }),
        prompt_tool_done(a, name, arguments, Err(output)) == (
            a,
            PromptCommandView::Fail("Tool error: "@ + output),
        ),
{
    let b = prompt_tool_done(a, name, arguments, Ok(output)).0;
    assert(b.history.take(a.history.len() as int) =~= a.history);
}

/// What a provider is asked is the prompt of the round behind the whole history. The
/// system prompt and the five tools are for the rounds, and not for the summary.
pub proof fn law_prompt_request(a: PromptView)
    requires
        a.wf(),
    ensures
        ({
            let r = prompt_request(a);
            &&& r.model == a.providers[a.provider as int].model
            &&& r.prompt == a.prompt && r.history == a.history
            &&& r.max_tokens == 4096
            &&& a.summary ==> r.preamble is None && r.tools.len() == 0
            &&& !a.summary ==> r.preamble == Some(a.preamble) && r.tools == seq![
                ToolKind::Read,
                ToolKind::Search,
                ToolKind::Write,
                ToolKind::Update,
                ToolKind::Bash,
            ]
        }),
{
}

} // verus!
