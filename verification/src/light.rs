//! The light prompt: a single completion without tools, for titles, tags and the
//! like. The providers are tried in order until one gives an answer.
use crate::chain::{ModelChain, ProviderEntry, ProviderView};
use crate::prompt::{CompletionRequest, CompletionView};
use crate::text;
use crate::text::{blank, decimal_text, quoted_text};
use vstd::prelude::*;

verus! {

/// What came of asking a provider.
pub enum LightReply {
    /// The provider could not be asked, or gave no reply.
    Failed(String),
    Message(String),
    /// A reply that is not a message.
    Other,
}

/// What came of asking a provider, over mathematical sequences.
pub enum LightReplyView {
    Failed(Seq<char>),
    Message(Seq<char>),
    Other,
}

impl View for LightReply {
    type V = LightReplyView;

    open spec fn view(&self) -> LightReplyView {
        match self {
            LightReply::Failed(e) => LightReplyView::Failed(e@),
            LightReply::Message(m) => LightReplyView::Message(m@),
            LightReply::Other => LightReplyView::Other,
        }
    }
}

impl LightReplyView {
    /// Whether a reply is an answer: a message that is not blank.
    pub open spec fn answers(self) -> bool {
        match self {
            LightReplyView::Message(m) => !text::is_blank(m),
            _ => false,
        }
    }

    /// Why a reply is no answer.
    pub open spec fn complaint(self) -> Seq<char> {
        match self {
            LightReplyView::Failed(e) => e,
            LightReplyView::Message(_) => "empty response"@,
            LightReplyView::Other => "unexpected response type"@,
        }
    }
}

/// What to do next.
pub enum LightCommand {
    /// Ask the current provider.
    Ask,
    Answer(String),
    Fail(String),
}

/// What to do next, over mathematical sequences.
pub enum LightCommandView {
    Ask,
    Answer(Seq<char>),
    Fail(Seq<char>),
}

impl View for LightCommand {
    type V = LightCommandView;

    open spec fn view(&self) -> LightCommandView {
        match self {
            LightCommand::Ask => LightCommandView::Ask,
            LightCommand::Answer(t) => LightCommandView::Answer(t@),
            LightCommand::Fail(e) => LightCommandView::Fail(e@),
        }
    }
}

/// A light prompt at work.
pub struct LightPrompt {
    pub providers: Vec<ProviderEntry>,
    pub user_prompt: String,
    /// The system prompt.
    pub preamble: String,
    /// The index of the current provider.
    pub provider: usize,
    pub last_error: Option<String>,
}

/// A light prompt at work, over mathematical values.
#[verifier::ext_equal]
pub struct LightView {
    pub providers: Seq<ProviderView>,
    pub user_prompt: Seq<char>,
    pub preamble: Seq<char>,
    pub provider: nat,
    pub last_error: Option<Seq<char>>,
}

impl View for LightPrompt {
    type V = LightView;

    open spec fn view(&self) -> LightView {
        LightView {
            providers: text::views(self.providers@),
            user_prompt: self.user_prompt@,
            preamble: self.preamble@,
            provider: self.provider as nat,
            last_error: text::opt_view(self.last_error),
        }
    }
}

/// What is told when none of so many providers has answered, given the last complaint
/// in quotes.
pub open spec fn exhausted_words(count: nat, shown: Option<Seq<char>>) -> Seq<char> {
    "All "@ + text::decimal(count) + " providers exhausted in light mode. Last error: "@ + (
    match shown {
        Some(t) => "Some("@ + t + ")"@,
        None => "None"@,
    })
}

/// Why the prompt fails when no provider is left.
pub open spec fn light_exhausted(p: LightView) -> Seq<char> {
    exhausted_words(
        p.providers.len(),
        match p.last_error {
            Some(t) => Some(text::quoted(t)),
            None => None,
        },
    )
}

/// What is told when none of so many providers has answered, given the last complaint
/// in quotes.
pub fn exhausted_text(count: usize, shown: Option<String>) -> (r: String)
    ensures
        r@ == exhausted_words(count as nat, text::opt_view(shown)),
{
    let mut r = "All ".to_owned();
    let digits = decimal_text(count as u64);
    r.append(digits.as_str());
    r.append(" providers exhausted in light mode. Last error: ");
    let mut last = "None".to_owned();
    if let Some(t) = shown {
        last = "Some(".to_owned();
        last.append(t.as_str());
        last.append(")");
    }
    r.append(last.as_str());
    r
}

/// What is done with the current provider, where there is one.
pub open spec fn light_command(p: LightView) -> LightCommandView {
    if p.provider < p.providers.len() {
        LightCommandView::Ask
    } else {
        LightCommandView::Fail(light_exhausted(p))
    }
}

/// What is made of a reply: an answer is the answer; otherwise the next provider
/// is asked.
pub open spec fn light_after(p: LightView, reply: LightReplyView) -> (LightView, LightCommandView) {
    if reply.answers() {
        (p, LightCommandView::Answer(reply->Message_0))
    } else {
        let q = LightView {
            provider: p.provider + 1,
            last_error: Some(reply.complaint()),
            ..p
        };
        (q, light_command(q))
    }
}

/// A light prompt that has not begun.
pub open spec fn new_light(
    providers: Seq<ProviderView>,
    user_prompt: Seq<char>,
    preamble: Seq<char>,
) -> LightView {
    LightView { providers, user_prompt, preamble, provider: 0, last_error: None }
}

/// How long an answer may become, in tokens.
pub const LIGHT_TOKENS: u64 = 2048;

/// What the current provider is asked: the prompt alone, without history and without
/// tools.
pub open spec fn light_request(p: LightView) -> CompletionView {
    CompletionView {
        model: p.providers[p.provider as int].model,
        preamble: Some(p.preamble),
        tools: Seq::empty(),
        prompt: p.user_prompt,
        history: Seq::empty(),
        max_tokens: LIGHT_TOKENS,
    }
}

/// A light prompt after a number of replies that are no answers.
pub open spec fn light_passed_over(p: LightView, replies: Seq<LightReplyView>) -> LightView
    decreases replies.len(),
{
    if replies.len() == 0 {
        p
    } else {
        light_after(light_passed_over(p, replies.drop_last()), replies.last()).0
    }
}

proof fn lemma_passed_over(p: LightView, replies: Seq<LightReplyView>)
    requires
        forall|i: int| 0 <= i < replies.len() ==> !(#[trigger] replies[i]).answers(),
    ensures
        light_passed_over(p, replies).provider == p.provider + replies.len(),
        light_passed_over(p, replies).providers == p.providers,
        replies.len() > 0 ==> light_passed_over(p, replies).last_error == Some(
            replies.last().complaint(),
        ),
    decreases replies.len(),
{
    if replies.len() > 0 {
        lemma_passed_over(p, replies.drop_last());
        assert(!replies.last().answers());
    }
}

/// The first answer wins: whatever the providers before it said, it is the answer
/// of the prompt.
pub proof fn law_first_answer_wins(
    providers: Seq<ProviderView>,
    user_prompt: Seq<char>,
    preamble: Seq<char>,
    before: Seq<LightReplyView>,
    answer: Seq<char>,
)
    requires
        before.len() < providers.len(),
        forall|i: int| 0 <= i < before.len() ==> !(#[trigger] before[i]).answers(),
        !text::is_blank(answer),
    ensures
        ({
            let p = light_passed_over(new_light(providers, user_prompt, preamble), before);
            &&& p.provider == before.len()
            &&& light_command(p) == LightCommandView::Ask
            &&& light_after(p, LightReplyView::Message(answer)).1 == LightCommandView::Answer(
                answer,
            )
        }),
{
    lemma_passed_over(new_light(providers, user_prompt, preamble), before);
}

/// When every provider has given no answer, and not before, the prompt fails. The
/// failure tells how many were asked and why the last one gave none.
pub proof fn law_fails_when_all_failed(
    providers: Seq<ProviderView>,
    user_prompt: Seq<char>,
    preamble: Seq<char>,
    replies: Seq<LightReplyView>,
)
    requires
        replies.len() <= providers.len(),
        forall|i: int| 0 <= i < replies.len() ==> !(#[trigger] replies[i]).answers(),
    ensures
        light_command(light_passed_over(new_light(providers, user_prompt, preamble), replies)) is Fail <==> replies.len()
            == providers.len(),
        replies.len() == providers.len() && replies.len() > 0 ==> light_command(
            light_passed_over(new_light(providers, user_prompt, preamble), replies),
        ) == LightCommandView::Fail(
            exhausted_words(
                providers.len(),
                Some(text::quoted(replies.last().complaint())),
            ),
        ),
{
    lemma_passed_over(new_light(providers, user_prompt, preamble), replies);
}

impl LightPrompt {
    /// A light prompt that begins with the first provider.
    pub fn start(providers: Vec<ProviderEntry>, user_prompt: &str, preamble: &str) -> (r: (
        LightPrompt,
        LightCommand,
    ))
        ensures
            r.0@ == new_light(text::views(providers@), user_prompt@, preamble@),
            r.1@ == light_command(r.0@),
    {
        let p = LightPrompt {
            providers,
            user_prompt: user_prompt.to_owned(),
            preamble: preamble.to_owned(),
            provider: 0,
            last_error: None,
        };
        let command = p.command();
        (p, command)
    }

    fn command(&self) -> (r: LightCommand)
        ensures
            r@ == light_command(self@),
    {
        if self.provider < self.providers.len() {
            LightCommand::Ask
        } else {
            let shown = match &self.last_error {
                Some(t) => Some(quoted_text(t.as_str())),
                None => None,
            };
            LightCommand::Fail(exhausted_text(self.providers.len(), shown))
        }
    }

    /// The current provider has replied.
    pub fn replied(&mut self, reply: LightReply) -> (r: LightCommand)
        requires
            old(self)@.provider < old(self)@.providers.len(),
        ensures
            (final(self)@, r@) == light_after(old(self)@, reply@),
    {
        let complaint = match reply {
            LightReply::Failed(e) => e,
            LightReply::Message(m) => {
                if !blank(m.as_str()) {
                    return LightCommand::Answer(m);
                }
                "empty response".to_owned()
            },
            LightReply::Other => "unexpected response type".to_owned(),
        };
        let n: usize = self.providers.len();
        assert(self.provider < n);
        self.provider = self.provider + 1;
        self.last_error = Some(complaint);
        self.command()
    }
}

impl LightPrompt {
    /// What the current provider is asked.
    pub fn request(&self) -> (r: CompletionRequest)
        requires
            self@.provider < self@.providers.len(),
        ensures
            r@ == light_request(self@),
    {
        let r = CompletionRequest {
            model: self.providers[self.provider].model.clone(),
            preamble: Some(self.preamble.clone()),
            tools: Vec::new(),
            prompt: self.user_prompt.clone(),
            history: Vec::new(),
            max_tokens: LIGHT_TOKENS,
        };
        assert(r@.history =~= Seq::empty());
        r
    }
}

impl ModelChain {
    /// Begins to answer a prompt in one piece, without tools and without a word on the
    /// model.
    pub fn prompt_light(&self, user_prompt: &str, preamble: &str) -> (r: (
        LightPrompt,
        LightCommand,
    ))
        ensures
            r.0@ == new_light(text::views(self.providers@), user_prompt@, preamble@),
            r.1@ == light_command(r.0@),
    {
        LightPrompt::start(self.copies(), user_prompt, preamble)
    }
}

// What becomes of each reply, told by what came back.

/// A light prompt begins with the first provider. Without providers it fails.
pub proof fn law_light_beginning(
    providers: Seq<ProviderView>,
    user_prompt: Seq<char>,
    preamble: Seq<char>,
)
    ensures
        ({
            let p = new_light(providers, user_prompt, preamble);
            &&& p.providers == providers && p.user_prompt == user_prompt && p.preamble == preamble
            &&& p.provider == 0 && p.last_error is None
            &&& providers.len() > 0 ==> light_command(p) == LightCommandView::Ask
            &&& providers.len() == 0 ==> light_command(p) == LightCommandView::Fail(
                "All "@ + text::decimal(0) + " providers exhausted in light mode. Last error: "@
                    + "None"@,
            )
        }),
{
}

/// A message with a word in it is the answer, as it is.
pub proof fn law_light_message_is_the_answer(p: LightView, m: Seq<char>, i: int)
    requires
        p.provider < p.providers.len(),
        0 <= i < m.len(),
        !text::is_white(m[i]),
    ensures
        light_after(p, LightReplyView::Message(m)) == (p, LightCommandView::Answer(m)),
{
    text::law_blank(m);
}

/// Any other reply is passed over and its complaint is kept: the next provider is asked
/// the same. After the last one the prompt fails, and tells how many there were and the
/// last complaint.
pub proof fn law_light_reply_is_passed_over(p: LightView, reply: LightReplyView)
    requires
        p.provider < p.providers.len(),
        reply matches LightReplyView::Message(m) ==> forall|i: int|
            0 <= i < m.len() ==> text::is_white(#[trigger] m[i]),
    ensures
        ({
            let complaint = match reply {
                LightReplyView::Failed(e) => e,
                LightReplyView::Message(_) => "empty response"@,
                LightReplyView::Other => "unexpected response type"@,
            };
            let (q, c) = light_after(p, reply);
            &&& q == (LightView {
                provider: p.provider + 1,
                last_error: Some(complaint),
                ..p
            })
            &&& p.provider + 1 < p.providers.len() ==> c == LightCommandView::Ask
            &&& p.provider + 1 == p.providers.len() ==> c == LightCommandView::Fail(
                "All "@ + text::decimal(p.providers.len())
                    + " providers exhausted in light mode. Last error: "@ + ("Some("@
                    + text::quoted(complaint) + ")"@),
            )
        }),
{
    if let LightReplyView::Message(m) = reply {
        text::law_blank(m);
    }
}

/// What a provider is asked is the user's prompt under the system prompt, without history
/// and without tools.
pub proof fn law_light_request(p: LightView)
    requires
        p.provider < p.providers.len(),
    ensures
        ({
            let r = light_request(p);
            &&& r.model == p.providers[p.provider as int].model
            &&& r.preamble == Some(p.preamble)
            &&& r.prompt == p.user_prompt
            &&& r.tools.len() == 0 && r.history.len() == 0
            &&& r.max_tokens == 2048
        }),
{
}

/// What is told of the last complaint tells the number of the providers and shows it, or
/// that there was none.
pub proof fn law_exhausted_words(count: nat, shown: Seq<char>)
    ensures
        exhausted_words(count, Some(shown)) == "All "@ + text::decimal(count)
            + " providers exhausted in light mode. Last error: "@ + ("Some("@ + shown + ")"@),
        exhausted_words(count, None) == "All "@ + text::decimal(count)
            + " providers exhausted in light mode. Last error: "@ + "None"@,
{
}

} // verus!
