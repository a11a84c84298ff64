//! Whole runs of the streaming agent: what its providers and its tools answer, step by
//! step, and that it does not matter how the replies are cut on their way.
use crate::chain::ProviderView;
use crate::sse;
use crate::sse::ReadView;
use crate::stream;
use crate::stream::{AgentView, CommandView, EventView, Phase, Turn};
use vstd::prelude::*;

verus! {

/// What comes back from the world for one command of the agent.
pub enum Step {
    /// The request is refused.
    Refused,
    /// The request is accepted, and the reply comes in these pieces and ends.
    Reply(Seq<Seq<char>>),
    /// The tool call is over, after so many seconds.
    Tool(Result<Seq<char>, Seq<char>>, Seq<char>),
}

/// The pieces of a text put together.
pub open spec fn joined(pieces: Seq<Seq<char>>) -> Seq<char>
    decreases pieces.len(),
{
    if pieces.len() == 0 {
        Seq::empty()
    } else {
        joined(pieces.drop_last()) + pieces.last()
    }
}

/// The agent after an event, with all that it has shown since `t` began.
#[verifier::opaque]
pub open spec fn next(t: Turn, event: EventView) -> Turn {
    let u = stream::after(t.agent, event);
    Turn { agent: u.agent, out: t.out + u.out, command: u.command }
}

/// The agent after the pieces of a reply, as far as it wants to read.
pub open spec fn hears(t: Turn, pieces: Seq<Seq<char>>) -> Turn
    decreases pieces.len(),
{
    if pieces.len() == 0 {
        t
    } else {
        let u = hears(t, pieces.drop_last());
        if u.command is Read {
            next(u, EventView::Text(pieces.last()))
        } else {
            u
        }
    }
}

/// The agent after a whole reply.
pub open spec fn replied(t: Turn, pieces: Seq<Seq<char>>) -> Turn {
    let u = hears(next(t, EventView::Accepted), pieces);
    if u.command is Read {
        next(u, EventView::Ended)
    } else {
        u
    }
}

/// The agent after a step. One that does not answer its command passes it by.
#[verifier::opaque]
pub open spec fn stepped(t: Turn, step: Step) -> Turn {
    match step {
        Step::Refused => if t.command is Ask {
            next(t, EventView::Refused)
        } else {
            t
        },
        Step::Reply(pieces) => if t.command is Ask {
            replied(t, pieces)
        } else {
            t
        },
        Step::Tool(result, elapsed) => if t.command is RunTool {
            next(t, EventView::ToolDone(result, elapsed))
        } else {
            t
        },
    }
}

/// The agent after many steps.
pub open spec fn run(t: Turn, steps: Seq<Step>) -> Turn
    decreases steps.len(),
{
    if steps.len() == 0 {
        t
    } else {
        stepped(run(t, steps.drop_last()), steps.last())
    }
}

/// The same agent but for the text of a reply that it has not read.
pub open spec fn alike(a: AgentView, b: AgentView) -> bool {
    a == (AgentView { read: ReadView { line_buf: a.read.line_buf, ..b.read }, ..b })
}

/// The same output, the same command, and the same agent but for the text that it has
/// not read. The conversation is the same too.
pub open spec fn same_turn(t: Turn, u: Turn) -> bool {
    t.out == u.out && t.command == u.command && alike(t.agent, u.agent)
}

/// The same answer of the world, however a reply is cut.
pub open spec fn same_step(x: Step, y: Step) -> bool {
    match (x, y) {
        (Step::Reply(p), Step::Reply(q)) => joined(p) == joined(q),
        _ => x == y,
    }
}

/// The agent is well-formed and waits for what its command asks for.
pub open spec fn sound(t: Turn) -> bool {
    t.agent.wf() && t.agent.phase == stream::phase_for(t.command)
}

proof fn lemma_next_sound(t: Turn, event: EventView)
    requires
        sound(t),
        t.agent.awaits(event),
    ensures
        sound(next(t, event)),
{
    reveal(next);
    stream::law_stays_well_formed(t.agent, event);
    stream::law_command_fits_phase(t.agent, event);
}

/// What stands behind the line with the reason to finish does not matter.
proof fn lemma_conclude_unread(a: AgentView, b: AgentView, out: Seq<sse::OutgoingView>)
    requires
        alike(a, b),
        !a.summary,
        a.read.finish is Some,
    ensures
        same_turn(stream::conclude(a, out), stream::conclude(b, out)),
{
}

/// Two pieces of a reply one after the other give what both at once give: the same
/// output, command and conversation, and, while the reply goes on, the same agent. Once
/// the agent has heard why the reply is over it reads no further.
pub proof fn law_agent_ignores_cuts(t: Turn, x: Seq<char>, y: Seq<char>)
    requires
        t.agent.wf(),
        t.agent.phase == Phase::Reading,
    ensures
        ({
            let u = next(t, EventView::Text(x));
            let whole = next(t, EventView::Text(x + y));
            if u.command is Read {
                next(u, EventView::Text(y)) == whole
            } else {
                same_turn(u, whole)
            }
        }),
{
    reveal(next);
    let a = t.agent;
    let tools = !a.summary;
    let f = sse::fed((a.read, Seq::empty()), x, tools);
    let g = sse::fed((a.read, Seq::empty()), x + y, tools);
    sse::law_chunks_do_not_matter((a.read, Seq::empty()), x, y, tools);
    if tools && f.0.finish is Some {
        sse::lemma_fed_after_finish(f, y, tools);
        lemma_conclude_unread(AgentView { read: f.0, ..a }, AgentView { read: g.0, ..a }, f.1);
    } else {
        sse::lemma_fed_shows_more(f, y, tools);
        let h = sse::fed((f.0, Seq::empty()), y, tools);
        if tools && g.0.finish is Some {
            lemma_conclude_shows_more(AgentView { read: g.0, ..a }, t.out + f.1, h.1);
            lemma_conclude_shows_more(AgentView { read: g.0, ..a }, t.out, g.1);
            lemma_conclude_shows_more(AgentView { read: g.0, ..a }, f.1, h.1);
        }
        assert(t.out + (f.1 + h.1) =~= t.out + f.1 + h.1);
    }
}

/// What the agent makes of a reply comes after what it has shown.
proof fn lemma_conclude_shows_more(
    a: AgentView,
    shown: Seq<sse::OutgoingView>,
    out: Seq<sse::OutgoingView>,
)
    ensures
        ({
            let t = stream::conclude(a, out);
            stream::conclude(a, shown + out) == (Turn { out: shown + t.out, ..t })
        }),
{
    let t = stream::conclude(a, out);
    assert(stream::conclude(a, shown + out).out =~= shown + t.out);
}

proof fn lemma_nothing_heard(t: Turn)
    requires
        t.command is Read,
        t.agent.wf(),
        t.agent.phase == Phase::Reading,
        t.agent.read == sse::fresh_read(),
    ensures
        next(t, EventView::Text(Seq::empty())) == t,
{
    reveal(next);
    sse::lemma_fed_nothing((t.agent.read, Seq::empty()), !t.agent.summary);
    assert(t.out + Seq::<sse::OutgoingView>::empty() =~= t.out);
}

/// What the agent hears in pieces is what it hears at once.
proof fn lemma_hears_joined(t: Turn, pieces: Seq<Seq<char>>)
    requires
        sound(t),
        t.command is Read,
        t.agent.read == sse::fresh_read(),
    ensures
        ({
            let u = hears(t, pieces);
            let whole = next(t, EventView::Text(joined(pieces)));
            &&& sound(u)
            &&& if u.command is Read {
                u == whole
            } else {
                same_turn(u, whole)
            }
        }),
    decreases pieces.len(),
{
    if pieces.len() == 0 {
        lemma_nothing_heard(t);
    } else {
        let heard = joined(pieces.drop_last());
        let last = pieces.last();
        let u = hears(t, pieces.drop_last());
        lemma_hears_joined(t, pieces.drop_last());
        law_agent_ignores_cuts(t, heard, last);
        if u.command is Read {
            lemma_next_sound(u, EventView::Text(last));
        }
    }
}

/// A request that is accepted begins a reply, whatever was left of the last one.
proof fn lemma_accepted(t: Turn, u: Turn)
    requires
        same_turn(t, u),
    ensures
        next(t, EventView::Accepted) == next(u, EventView::Accepted),
        next(t, EventView::Accepted).command is Read,
        next(t, EventView::Accepted).agent.read == sse::fresh_read(),
{
    reveal(next);
}

/// A reply gives the same however it is cut.
pub proof fn law_reply_ignores_cuts(t: Turn, xs: Seq<Seq<char>>, ys: Seq<Seq<char>>)
    requires
        sound(t),
        t.command is Ask,
        joined(xs) == joined(ys),
    ensures
        sound(replied(t, xs)),
        same_turn(replied(t, xs), replied(t, ys)),
{
    let s = next(t, EventView::Accepted);
    lemma_next_sound(t, EventView::Accepted);
    lemma_accepted(t, t);
    lemma_hears_joined(s, xs);
    lemma_hears_joined(s, ys);
    let u = hears(s, xs);
    let v = hears(s, ys);
    if u.command is Read {
        assert(u == v);
        lemma_next_sound(u, EventView::Ended);
    }
}

proof fn lemma_step_sound(t: Turn, x: Step)
    requires
        sound(t),
    ensures
        sound(stepped(t, x)),
{
    reveal(stepped);
    match x {
        Step::Refused => {
            if t.command is Ask {
                lemma_next_sound(t, EventView::Refused);
            }
        },
        Step::Reply(p) => {
            if t.command is Ask {
                law_reply_ignores_cuts(t, p, p);
            }
        },
        Step::Tool(result, elapsed) => {
            if t.command is RunTool {
                lemma_next_sound(t, EventView::ToolDone(result, elapsed));
            }
        },
    }
}

/// What the agent has not read of a reply that is over does not matter.
proof fn lemma_unread(t: Turn, u: Turn, event: EventView)
    requires
        same_turn(t, u),
        event is Refused || event is ToolDone,
    ensures
        same_turn(next(t, event), next(u, event)),
{
    reveal(next);
}

proof fn lemma_step(t: Turn, u: Turn, x: Step, y: Step)
    requires
        sound(t),
        same_turn(t, u),
        same_step(x, y),
    ensures
        same_turn(stepped(t, x), stepped(u, y)),
{
    reveal(stepped);
    match x {
        Step::Refused => {
            lemma_unread(t, u, EventView::Refused);
        },
        Step::Reply(p) => {
            if t.command is Ask {
                lemma_accepted(t, u);
                law_reply_ignores_cuts(t, p, y->Reply_0);
            }
        },
        Step::Tool(result, elapsed) => {
            lemma_unread(t, u, EventView::ToolDone(result, elapsed));
        },
    }
}

/// What the agent starts with.
pub open spec fn first_turn(
    providers: Seq<ProviderView>,
    user_prompt: Seq<char>,
    preamble: Seq<char>,
) -> Turn {
    stream::turn_to_provider(stream::new_agent(providers, user_prompt, preamble), Seq::empty())
}

/// A whole run does not depend on how the replies are cut. Two runs for the same prompt,
/// in which the providers and the tools answer the same, show the same pieces of text in
/// the same order, come to the same command, and hold the same conversation.
pub proof fn law_run_ignores_cuts(
    providers: Seq<ProviderView>,
    user_prompt: Seq<char>,
    preamble: Seq<char>,
    xs: Seq<Step>,
    ys: Seq<Step>,
)
    requires
        xs.len() == ys.len(),
        forall|i: int| 0 <= i < xs.len() ==> same_step(#[trigger] xs[i], ys[i]),
    ensures
        ({
            let t = run(first_turn(providers, user_prompt, preamble), xs);
            let u = run(first_turn(providers, user_prompt, preamble), ys);
            &&& t.out == u.out
            &&& t.command == u.command
            &&& t.agent.messages == u.agent.messages
        }),
{
    lemma_runs(first_turn(providers, user_prompt, preamble), xs, ys);
}

proof fn lemma_runs(t: Turn, xs: Seq<Step>, ys: Seq<Step>)
    requires
        sound(t),
        xs.len() == ys.len(),
        forall|i: int| 0 <= i < xs.len() ==> same_step(#[trigger] xs[i], ys[i]),
    ensures
        sound(run(t, xs)),
        same_turn(run(t, xs), run(t, ys)),
    decreases xs.len(),
{
    if xs.len() > 0 {
        let k = xs.len() - 1;
        assert forall|i: int| 0 <= i < k implies same_step(
            #[trigger] xs.drop_last()[i],
            ys.drop_last()[i],
        ) by {
            assert(same_step(xs[i], ys[i]));
        }
        lemma_runs(t, xs.drop_last(), ys.drop_last());
        let u = run(t, xs.drop_last());
        let v = run(t, ys.drop_last());
        assert(same_step(xs[k], ys[k]));
        lemma_step(u, v, xs.last(), ys.last());
        lemma_step_sound(u, xs.last());
    }
}

/// The chunks of a body put together.
pub open spec fn body(chunks: Seq<Seq<u8>>) -> Seq<u8>
    decreases chunks.len(),
{
    if chunks.len() == 0 {
        Seq::empty()
    } else {
        body(chunks.drop_last()) + chunks.last()
    }
}

/// The texts of chunks that are cut between characters.
pub open spec fn texts(chunks: Seq<Seq<u8>>) -> Seq<Seq<char>> {
    chunks.map_values(|c: Seq<u8>| vstd::utf8::decode_utf8(c))
}

/// Whether a body is cut between characters only.
pub open spec fn whole_chars(chunks: Seq<Seq<u8>>) -> bool {
    forall|i: int| 0 <= i < chunks.len() ==> vstd::utf8::valid_utf8(#[trigger] chunks[i])
}

/// Two ways to cut the bytes of one body between characters are the same reply.
pub proof fn law_byte_cuts_are_text_cuts(xs: Seq<Seq<u8>>, ys: Seq<Seq<u8>>)
    requires
        whole_chars(xs),
        whole_chars(ys),
        body(xs) == body(ys),
    ensures
        same_step(Step::Reply(texts(xs)), Step::Reply(texts(ys))),
{
    lemma_body_text(xs);
    lemma_body_text(ys);
}

proof fn lemma_body_text(chunks: Seq<Seq<u8>>)
    requires
        whole_chars(chunks),
    ensures
        vstd::utf8::encode_utf8(joined(texts(chunks))) == body(chunks),
        joined(texts(chunks)) == vstd::utf8::decode_utf8(body(chunks)),
    decreases chunks.len(),
{
    if chunks.len() > 0 {
        let some = chunks.drop_last();
        let last = chunks.last();
        assert forall|i: int| 0 <= i < some.len() implies vstd::utf8::valid_utf8(
            #[trigger] some[i],
        ) by {
            assert(vstd::utf8::valid_utf8(chunks[i]));
        }
        lemma_body_text(some);
        assert(texts(chunks).drop_last() =~= texts(some));
        assert(vstd::utf8::valid_utf8(chunks[chunks.len() - 1]));
        vstd::utf8::decode_utf8_encode_utf8(last);
        lemma_encode_append(joined(texts(some)), vstd::utf8::decode_utf8(last));
    }
    vstd::utf8::encode_utf8_decode_utf8(joined(texts(chunks)));
}

proof fn lemma_encode_append(a: Seq<char>, b: Seq<char>)
    ensures
        vstd::utf8::encode_utf8(a + b) == vstd::utf8::encode_utf8(a) + vstd::utf8::encode_utf8(b),
    decreases a.len(),
{
    if a.len() == 0 {
        assert(a + b =~= b);
        assert(vstd::utf8::encode_utf8(a) =~= Seq::<u8>::empty());
        assert(Seq::<u8>::empty() + vstd::utf8::encode_utf8(b) =~= vstd::utf8::encode_utf8(b));
    } else {
        assert((a + b).drop_first() =~= a.drop_first() + b);
        lemma_encode_append(a.drop_first(), b);
        assert(vstd::utf8::encode_utf8(a + b) =~= vstd::utf8::encode_utf8(a)
            + vstd::utf8::encode_utf8(b));
    }
}

} // verus!
