//! Reading a provider's streamed reply: server-sent events whose data are JSON
//! documents, taken line by line from chunks of any size.
use crate::json;
use crate::json::{parse_json, Json, JsonView};
use crate::text;
use crate::text::{
    after_prefix, from_chars, index_of, same, to_chars, trimmed, with_all_replaced,
};
use std::collections::BTreeMap;
use vstd::prelude::*;

verus! {

/// A tool call, pieced together from the deltas of a stream.
pub struct ToolCallAccum {
    pub id: String,
    pub name: String,
    pub arguments: String,
}

/// A tool call over mathematical sequences.
#[verifier::ext_equal]
pub struct CallView {
    pub id: Seq<char>,
    pub name: Seq<char>,
    pub arguments: Seq<char>,
}

impl View for ToolCallAccum {
    type V = CallView;

    open spec fn view(&self) -> CallView {
        CallView { id: self.id@, name: self.name@, arguments: self.arguments@ }
    }
}

impl ToolCallAccum {
    /// The same call again.
    pub fn duplicate(&self) -> (r: ToolCallAccum)
        ensures
            r@ == self@,
    {
        ToolCallAccum {
            id: self.id.clone(),
            name: self.name.clone(),
            arguments: self.arguments.clone(),
        }
    }
}

/// A piece of text for the client. Where a `vital` piece cannot be delivered the
/// client is gone, and the work for it ends.
pub struct Outgoing {
    pub text: String,
    pub vital: bool,
}

/// A piece of text for the client, over mathematical sequences.
#[verifier::ext_equal]
pub struct OutgoingView {
    pub text: Seq<char>,
    pub vital: bool,
}

impl View for Outgoing {
    type V = OutgoingView;

    open spec fn view(&self) -> OutgoingView {
        OutgoingView { text: self.text@, vital: self.vital }
    }
}

/// What has been read of one streamed reply.
pub struct StreamRead {
    /// The text after the last line feed so far.
    pub line_buf: String,
    /// The tool calls so far, by their index.
    pub calls: BTreeMap<usize, ToolCallAccum>,
    pub finish_reason: Option<String>,
    /// All the text shown so far, reasoning included.
    pub content: String,
    /// Whether the text shown last was reasoning.
    pub thinking_open: bool,
}

/// What has been read of one streamed reply, over mathematical values.
#[verifier::ext_equal]
pub struct ReadView {
    pub line_buf: Seq<char>,
    pub calls: Map<usize, CallView>,
    pub finish: Option<Seq<char>>,
    pub content: Seq<char>,
    pub thinking: bool,
}

impl View for StreamRead {
    type V = ReadView;

    open spec fn view(&self) -> ReadView {
        ReadView {
            line_buf: self.line_buf@,
            calls: self.calls@.map_values(|c: ToolCallAccum| c@),
            finish: text::opt_view(self.finish_reason),
            content: self.content@,
            thinking: self.thinking_open,
        }
    }
}

/// A reply as far as it has been read, and the pieces of text it has given.
pub type Flow = (ReadView, Seq<OutgoingView>);

/// Nothing read yet.
pub open spec fn fresh_read() -> ReadView {
    ReadView {
        line_buf: Seq::empty(),
        calls: Map::empty(),
        finish: None,
        content: Seq::empty(),
        thinking: false,
    }
}

/// A piece of text for the client.
pub open spec fn say(text: Seq<char>, vital: bool) -> OutgoingView {
    OutgoingView { text, vital }
}

/// Reasoning is shown as a block quote under a heading of its own: the heading
/// comes before its first piece, and every line feed in it goes on with the
/// quote's mark.
pub open spec fn with_reasoning(f: Flow, text: Option<Seq<char>>) -> Flow {
    match text {
        Some(t) => if t.len() > 0 {
            let quoted = text::replace_all(t, "\n"@, "\n> "@);
            let heading = if f.0.thinking {
                Seq::empty()
            } else {
                seq![say("\n💭 **Thinking:**\n> "@, false)]
            };
            (
                ReadView { content: f.0.content + quoted, thinking: true, ..f.0 },
                f.1 + heading + seq![say(quoted, true)],
            )
        } else {
            f
        },
        None => f,
    }
}

/// Content is shown as it is. After reasoning a rule comes before it.
pub open spec fn with_content(f: Flow, text: Option<Seq<char>>) -> Flow {
    match text {
        Some(t) => if t.len() > 0 {
            let rule = if f.0.thinking {
                seq![say("\n\n---\n\n"@, false)]
            } else {
                Seq::empty()
            };
            (
                ReadView { content: f.0.content + t, thinking: false, ..f.0 },
                f.1 + rule + seq![say(t, true)],
            )
        } else {
            f
        },
        None => f,
    }
}

/// The text `more` after `so_far`, where there is more.
pub open spec fn extended(so_far: Seq<char>, more: Option<Seq<char>>) -> Seq<char> {
    match more {
        Some(m) => so_far + m,
        None => so_far,
    }
}

/// The index of the call that a tool call delta belongs to; zero where it does
/// not say.
pub open spec fn call_index(delta: JsonView) -> usize {
    match delta.field("index"@) {
        Some(v) => match v.uint() {
            Some(n) => n as usize,
            None => 0,
        },
        None => 0,
    }
}

/// The text of the string under `key` in the delta's `function`.
pub open spec fn function_field(delta: JsonView, key: Seq<char>) -> Option<Seq<char>> {
    match delta.field("function"@) {
        Some(func) => func.text_field(key),
        None => None,
    }
}

/// The calls so far with one delta added to the call that it belongs to.
pub open spec fn with_call_delta(
    calls: Map<usize, CallView>,
    delta: JsonView,
) -> Map<usize, CallView> {
    let at = call_index(delta);
    let prior = if calls.contains_key(at) {
        calls[at]
    } else {
        CallView { id: Seq::empty(), name: Seq::empty(), arguments: Seq::empty() }
    };
    calls.insert(
        at,
        CallView {
            id: extended(prior.id, delta.text_field("id"@)),
            name: extended(prior.name, function_field(delta, "name"@)),
            arguments: extended(prior.arguments, function_field(delta, "arguments"@)),
        },
    )
}

/// The calls so far with a list of deltas added, in their order.
pub open spec fn with_call_deltas(
    calls: Map<usize, CallView>,
    deltas: Seq<JsonView>,
) -> Map<usize, CallView>
    decreases deltas.len(),
{
    if deltas.len() == 0 {
        calls
    } else {
        with_call_delta(with_call_deltas(calls, deltas.drop_last()), deltas.last())
    }
}

/// The first choice of a document.
pub open spec fn first_choice(doc: JsonView) -> Option<JsonView> {
    match doc.items_field("choices"@) {
        Some(choices) => if choices.len() > 0 {
            Some(choices[0])
        } else {
            None
        },
        None => None,
    }
}

/// What one document of the stream adds. Only a read that is after tools takes
/// tool calls and the reason to finish from it.
pub open spec fn with_document(f: Flow, doc: JsonView, tools: bool) -> Flow {
    match first_choice(doc) {
        Some(choice) => match choice.field("delta"@) {
            Some(delta) => {
                let g = with_content(
                    with_reasoning(f, delta.text_field("reasoning_content"@)),
                    delta.text_field("content"@),
                );
                if tools {
                    (
                        ReadView {
                            calls: match delta.items_field("tool_calls"@) {
                                Some(deltas) => with_call_deltas(g.0.calls, deltas),
                                None => g.0.calls,
                            },
                            finish: match choice.text_field("finish_reason"@) {
                                Some(reason) => Some(reason),
                                None => g.0.finish,
                            },
                            ..g.0
                        },
                        g.1,
                    )
                } else {
                    g
                }
            },
            None => f,
        },
        None => f,
    }
}

/// The data of an event line. Empty lines, the line that ends the stream and
/// lines of other kinds have none.
pub open spec fn event_data(line: Seq<char>) -> Option<Seq<char>> {
    if line.len() == 0 || line == "data: [DONE]"@ {
        None
    } else {
        text::strip_prefix(line, "data: "@)
    }
}

/// What one line of the stream adds. Data that are not JSON add nothing.
pub open spec fn with_line(f: Flow, line: Seq<char>, tools: bool) -> Flow {
    match event_data(line) {
        Some(data) => match json::json_document(data) {
            Some(doc) => with_document(f, doc, tools),
            None => f,
        },
        None => f,
    }
}

/// The same reply with another text after its last line feed.
pub open spec fn with_buf(f: Flow, buf: Seq<char>) -> Flow {
    (ReadView { line_buf: buf, ..f.0 }, f.1)
}

/// The reply after the first whole line in its buffer has been taken.
pub open spec fn take_line(f: Flow, tools: bool) -> Flow {
    let buf = f.0.line_buf;
    let i = text::first_index(buf, '\n');
    with_line(with_buf(f, buf.skip(i + 1)), text::trim(buf.take(i)), tools)
}

/// The reply after every whole line in its buffer has been taken, up to the one
/// that brings the reason to finish.
pub open spec fn drained(f: Flow, tools: bool) -> Flow
    decreases f.0.line_buf.len(),
    via drained_decreases
{
    if f.0.finish is Some || text::first_index(f.0.line_buf, '\n') == f.0.line_buf.len() {
        f
    } else {
        drained(take_line(f, tools), tools)
    }
}

#[via_fn]
proof fn drained_decreases(f: Flow, tools: bool) {
    let buf = f.0.line_buf;
    text::lemma_first_index(buf, '\n');
    let i = text::first_index(buf, '\n');
    lemma_line_keeps_buf(with_buf(f, buf.skip(i + 1)), text::trim(buf.take(i)), tools);
}

/// The reply after a further piece of its text has come in.
pub open spec fn fed(f: Flow, text: Seq<char>, tools: bool) -> Flow {
    drained(with_buf(f, f.0.line_buf + text), tools)
}

/// A line adds the same whatever stands in the buffer, and leaves the buffer.
proof fn lemma_line_keeps_buf(f: Flow, line: Seq<char>, tools: bool)
    ensures
        with_line(f, line, tools).0.line_buf == f.0.line_buf,
{
}

proof fn lemma_line_any_buf(f: Flow, line: Seq<char>, tools: bool, buf: Seq<char>)
    ensures
        with_line(with_buf(f, buf), line, tools) == with_buf(with_line(f, line, tools), buf),
{
    match event_data(line) {
        Some(data) => match json::json_document(data) {
            Some(doc) => lemma_document_any_buf(f, doc, tools, buf),
            None => {},
        },
        None => {},
    }
}

proof fn lemma_document_any_buf(f: Flow, doc: JsonView, tools: bool, buf: Seq<char>)
    ensures
        with_document(with_buf(f, buf), doc, tools) == with_buf(with_document(f, doc, tools), buf),
{
}

/// How a reply is cut into chunks does not matter: two pieces of text one after
/// the other give the same as both at once.
pub proof fn law_chunks_do_not_matter(f: Flow, a: Seq<char>, b: Seq<char>, tools: bool)
    ensures
        fed(fed(f, a, tools), b, tools) == fed(f, a + b, tools),
{
    let g = with_buf(f, f.0.line_buf + a);
    lemma_drained_append(g, b, tools);
    assert(f.0.line_buf + a + b =~= f.0.line_buf + (a + b));
    assert(with_buf(g, g.0.line_buf + b) == with_buf(f, f.0.line_buf + (a + b)));
}

proof fn lemma_drained_append(f: Flow, b: Seq<char>, tools: bool)
    ensures
        drained(with_buf(drained(f, tools), drained(f, tools).0.line_buf + b), tools) == drained(
            with_buf(f, f.0.line_buf + b),
            tools,
        ),
    decreases f.0.line_buf.len(),
{
    let buf = f.0.line_buf;
    let i = text::first_index(buf, '\n');
    text::lemma_first_index(buf, '\n');
    if f.0.finish is Some || i == buf.len() {
    } else {
        let rest = buf.skip(i + 1);
        let line = text::trim(buf.take(i));
        let g = take_line(f, tools);
        lemma_line_keeps_buf(with_buf(f, rest), line, tools);
        lemma_drained_append(g, b, tools);
        let long = buf + b;
        text::lemma_first_index_is(long, '\n', i);
        assert(long.take(i) =~= buf.take(i));
        assert(long.skip(i + 1) =~= rest + b);
        lemma_line_any_buf(with_buf(f, rest), line, tools, rest + b);
        assert(with_buf(with_buf(f, rest), rest + b) == with_buf(f, rest + b));
        assert(with_buf(with_buf(f, long), rest + b) == with_buf(f, rest + b));
        assert(take_line(with_buf(f, long), tools) == with_buf(g, rest + b));
    }
}

/// A reply that has nothing to read stays as it is.
pub proof fn lemma_fed_nothing(f: Flow, tools: bool)
    requires
        f.0.line_buf.len() == 0,
    ensures
        fed(f, Seq::empty(), tools) == f,
{
    assert(f.0.line_buf + Seq::<char>::empty() =~= f.0.line_buf);
    text::lemma_first_index(f.0.line_buf, '\n');
}

/// After the reason to finish has come, further text is only kept.
pub proof fn lemma_fed_after_finish(f: Flow, text: Seq<char>, tools: bool)
    requires
        f.0.finish is Some,
    ensures
        fed(f, text, tools) == with_buf(f, f.0.line_buf + text),
{
}

/// What a reply has shown before does not change what a further piece shows: it only
/// comes before it.
pub proof fn lemma_fed_shows_more(f: Flow, text: Seq<char>, tools: bool)
    ensures
        fed(f, text, tools).0 == fed((f.0, Seq::empty()), text, tools).0,
        fed(f, text, tools).1 == f.1 + fed((f.0, Seq::empty()), text, tools).1,
{
    let buf = f.0.line_buf + text;
    let bare = with_buf((f.0, Seq::empty()), buf);
    assert(f.1 + bare.1 =~= f.1);
    lemma_drained_shows_more(bare, f.1, tools);
}

proof fn lemma_drained_shows_more(f: Flow, shown: Seq<OutgoingView>, tools: bool)
    ensures
        drained((f.0, shown + f.1), tools).0 == drained(f, tools).0,
        drained((f.0, shown + f.1), tools).1 == shown + drained(f, tools).1,
    decreases f.0.line_buf.len(),
{
    let buf = f.0.line_buf;
    let i = text::first_index(buf, '\n');
    text::lemma_first_index(buf, '\n');
    if f.0.finish is Some || i == buf.len() {
    } else {
        let cut = with_buf(f, buf.skip(i + 1));
        let line = text::trim(buf.take(i));
        lemma_line_keeps_buf(cut, line, tools);
        lemma_line_shows_more(cut, shown, line, tools);
        lemma_drained_shows_more(take_line(f, tools), shown, tools);
    }
}

proof fn lemma_line_shows_more(
    f: Flow,
    shown: Seq<OutgoingView>,
    line: Seq<char>,
    tools: bool,
)
    ensures
        with_line((f.0, shown + f.1), line, tools) == (
            with_line(f, line, tools).0,
            shown + with_line(f, line, tools).1,
        ),
{
    match event_data(line) {
        Some(data) => match json::json_document(data) {
            Some(doc) => lemma_document_shows_more(f, shown, doc, tools),
            None => {},
        },
        None => {},
    }
}

proof fn lemma_document_shows_more(
    f: Flow,
    shown: Seq<OutgoingView>,
    doc: JsonView,
    tools: bool,
)
    ensures
        with_document((f.0, shown + f.1), doc, tools) == (
            with_document(f, doc, tools).0,
            shown + with_document(f, doc, tools).1,
        ),
{
    match first_choice(doc) {
        Some(choice) => match choice.field("delta"@) {
            Some(delta) => {
                let reasoning = delta.text_field("reasoning_content"@);
                let g = with_reasoning(f, reasoning);
                assert(with_reasoning((f.0, shown + f.1), reasoning).1 =~= shown + g.1);
                let content = delta.text_field("content"@);
                assert(with_content((g.0, shown + g.1), content).1 =~= shown + with_content(
                    g,
                    content,
                ).1);
            },
            None => {},
        },
        None => {},
    }
}

/// The vital pieces of text, one after the other.
pub open spec fn delivered(out: Seq<OutgoingView>) -> Seq<char>
    decreases out.len(),
{
    if out.len() == 0 {
        Seq::empty()
    } else {
        let rest = delivered(out.drop_last());
        if out.last().vital {
            rest + out.last().text
        } else {
            rest
        }
    }
}

proof fn lemma_delivered_push(out: Seq<OutgoingView>, o: OutgoingView)
    ensures
        delivered(out.push(o)) == (if o.vital {
            delivered(out) + o.text
        } else {
            delivered(out)
        }),
{
    assert(out.push(o).drop_last() =~= out);
}

/// What counts as the content of a reply is what has been shown of it: where that
/// held before a piece of text, it holds after it.
pub proof fn law_content_is_shown(f: Flow, piece: Seq<char>, tools: bool)
    requires
        f.0.content == delivered(f.1),
    ensures
        fed(f, piece, tools).0.content == delivered(fed(f, piece, tools).1),
{
    lemma_drained_shown(with_buf(f, f.0.line_buf + piece), tools);
}

proof fn lemma_drained_shown(f: Flow, tools: bool)
    requires
        f.0.content == delivered(f.1),
    ensures
        drained(f, tools).0.content == delivered(drained(f, tools).1),
    decreases f.0.line_buf.len(),
{
    let buf = f.0.line_buf;
    text::lemma_first_index(buf, '\n');
    let i = text::first_index(buf, '\n');
    if f.0.finish is None && i < buf.len() {
        let g = with_buf(f, buf.skip(i + 1));
        let line = text::trim(buf.take(i));
        lemma_line_keeps_buf(g, line, tools);
        if let Some(data) = event_data(line) {
            if let Some(doc) = json::json_document(data) {
                lemma_document_shown(g, doc, tools);
            }
        }
        lemma_drained_shown(take_line(f, tools), tools);
    }
}

proof fn lemma_document_shown(f: Flow, doc: JsonView, tools: bool)
    requires
        f.0.content == delivered(f.1),
    ensures
        with_document(f, doc, tools).0.content == delivered(with_document(f, doc, tools).1),
{
    if let Some(choice) = first_choice(doc) {
        if let Some(delta) = choice.field("delta"@) {
            let r = delta.text_field("reasoning_content"@);
            let g = with_reasoning(f, r);
            lemma_reasoning_shown(f, r);
            lemma_content_shown(g, delta.text_field("content"@));
        }
    }
}

proof fn lemma_reasoning_shown(f: Flow, t: Option<Seq<char>>)
    requires
        f.0.content == delivered(f.1),
    ensures
        with_reasoning(f, t).0.content == delivered(with_reasoning(f, t).1),
{
    if let Some(t) = t {
        let quoted = text::replace_all(t, "\n"@, "\n> "@);
        let heading = say("\n💭 **Thinking:**\n> "@, false);
        assert(f.1 + Seq::empty() + seq![say(quoted, true)] =~= f.1.push(say(quoted, true)));
        assert(f.1 + seq![heading] + seq![say(quoted, true)] =~= f.1.push(heading).push(
            say(quoted, true),
        ));
        lemma_delivered_push(f.1, say(quoted, true));
        lemma_delivered_push(f.1, heading);
        lemma_delivered_push(f.1.push(heading), say(quoted, true));
    }
}

proof fn lemma_content_shown(f: Flow, t: Option<Seq<char>>)
    requires
        f.0.content == delivered(f.1),
    ensures
        with_content(f, t).0.content == delivered(with_content(f, t).1),
{
    if let Some(t) = t {
        let rule = say("\n\n---\n\n"@, false);
        assert(f.1 + Seq::empty() + seq![say(t, true)] =~= f.1.push(say(t, true)));
        assert(f.1 + seq![rule] + seq![say(t, true)] =~= f.1.push(rule).push(say(t, true)));
        lemma_delivered_push(f.1, say(t, true));
        lemma_delivered_push(f.1, rule);
        lemma_delivered_push(f.1.push(rule), say(t, true));
    }
}

/// Reasoning stays in its block quote: every line feed in what is shown of it is
/// followed by the mark of the quote.
pub proof fn law_reasoning_stays_quoted(t: Seq<char>)
    ensures
        ({
            let quoted = text::replace_all(t, "\n"@, "\n> "@);
            forall|i: int|
                0 <= i < quoted.len() && #[trigger] quoted[i] == '\n' ==> i + 2 < quoted.len()
                    && quoted[i + 1] == '>' && quoted[i + 2] == ' '
        }),
    decreases t.len(),
{
    reveal_strlit("\n");
    reveal_strlit("\n> ");
    let pat = "\n"@;
    let rep = "\n> "@;
    let quoted = text::replace_all(t, pat, rep);
    assert(pat =~= seq!['\n']);
    assert(rep =~= seq!['\n', '>', ' ']);
    lemma_find_newline(t);
    text::lemma_find_bounds(t, pat);
    match text::find(t, pat) {
        Some(k) => {
            let rest = t.skip(k + 1);
            law_reasoning_stays_quoted(rest);
            let tail = text::replace_all(rest, pat, rep);
            assert(quoted == t.take(k) + rep + tail);
            assert forall|i: int| 0 <= i < quoted.len() && #[trigger] quoted[i] == '\n' implies i + 2
                < quoted.len() && quoted[i + 1] == '>' && quoted[i + 2] == ' ' by {
                if i < k {
                    assert(quoted[i] == t[i]);
                } else if i < k + 3 {
                    assert(quoted[i] == rep[i - k]);
                } else {
                    assert(quoted[i] == tail[i - k - 3]);
                    assert(quoted[i + 1] == tail[i - k - 2]);
                    assert(quoted[i + 2] == tail[i - k - 1]);
                }
            }
        },
        None => {},
    }
}

/// The first line feed is where it is found first.
proof fn lemma_find_newline(t: Seq<char>)
    ensures
        match text::find(t, seq!['\n']) {
            Some(k) => 0 <= k < t.len() && forall|i: int| 0 <= i < k ==> t[i] != '\n',
            None => forall|i: int| 0 <= i < t.len() ==> t[i] != '\n',
        },
    decreases t.len(),
{
    if t.len() > 0 {
        assert(t.take(1) =~= seq![t[0]]);
        assert(seq![t[0]] == seq!['\n'] ==> t[0] == '\n') by {
            assert(seq![t[0]][0] == t[0]);
            assert(seq!['\n'][0] == '\n');
        }
        let rest = t.drop_first();
        lemma_find_newline(rest);
        assert forall|i: int| 0 < i < t.len() implies t[i] == rest[i - 1] by {}
    }
}

// The tool calls in the order of their indices.

/// The calls with an index below `n`, by increasing index.
pub open spec fn calls_below(calls: Map<usize, CallView>, n: nat) -> Seq<CallView>
    decreases n,
{
    if n == 0 {
        Seq::empty()
    } else {
        let rest = calls_below(calls, (n - 1) as nat);
        let at = (n - 1) as usize;
        if n - 1 <= usize::MAX && calls.contains_key(at) {
            rest.push(calls[at])
        } else {
            rest
        }
    }
}

/// All the calls, by increasing index.
pub open spec fn calls_in_order(calls: Map<usize, CallView>) -> Seq<CallView> {
    calls_below(calls, usize::MAX as nat + 1)
}

proof fn lemma_calls_below_gap(calls: Map<usize, CallView>, from: nat, to: nat)
    requires
        from <= to,
        forall|k: usize| from <= k < to ==> !calls.contains_key(k),
    ensures
        calls_below(calls, to) == calls_below(calls, from),
    decreases to,
{
    if from < to {
        lemma_calls_below_gap(calls, from, (to - 1) as nat);
    }
}

/// Where there is a call, it comes in the order.
pub proof fn lemma_some_call_in_order(calls: Map<usize, CallView>)
    requires
        !calls.is_empty(),
    ensures
        calls_in_order(calls).len() > 0,
{
    let k = choose|k: usize| calls.dom().contains(k);
    assert(calls.contains_key(k));
    lemma_calls_below_grows(calls, k as nat + 1, usize::MAX as nat + 1);
}

proof fn lemma_calls_below_grows(calls: Map<usize, CallView>, m: nat, n: nat)
    requires
        m <= n,
    ensures
        calls_below(calls, m).len() <= calls_below(calls, n).len(),
    decreases n,
{
    if m < n {
        lemma_calls_below_grows(calls, m, (n - 1) as nat);
    }
}

proof fn lemma_increasing(keys: Seq<usize>)
    requires
        vstd::std_specs::btree::increasing_seq(keys),
    ensures
        forall|i: int, j: int| 0 <= i < j < keys.len() ==> keys[i] < keys[j],
{
    assert forall|i: int, j: int| 0 <= i < j < keys.len() implies keys[i] < keys[j] by {
        assert(vstd::std_specs::cmp::OrdSpec::cmp_spec(&keys[i], &keys[j]) is Less);
    }
}

/// The first index after `below`.
spec fn past(below: Option<usize>) -> nat {
    match below {
        Some(k) => k as nat + 1,
        None => 0,
    }
}

// Executable counterparts.

/// Adds a piece of text for the client.
pub fn push_out(out: &mut Vec<Outgoing>, text: &str, vital: bool)
    ensures
        text::views(final(out)@) == text::views(old(out)@).push(say(text@, vital)),
{
    out.push(Outgoing { text: text.to_owned(), vital });
    assert(text::views(out@) =~= text::views(old(out)@).push(say(text@, vital)));
}

impl StreamRead {
    /// Nothing read yet.
    pub fn new() -> (r: StreamRead)
        ensures
            r@ == fresh_read(),
    {
        let r = StreamRead {
            line_buf: String::new(),
            calls: BTreeMap::new(),
            finish_reason: None,
            content: String::new(),
            thinking_open: false,
        };
        assert(r@.calls =~= Map::empty());
        r
    }

    fn reasoning(&mut self, text: Option<&str>, out: &mut Vec<Outgoing>)
        ensures
            (final(self)@, text::views(final(out)@)) == with_reasoning(
                (old(self)@, text::views(old(out)@)),
                text::opt_view(text),
            ),
    {
        if let Some(t) = text {
            if !t.is_empty() {
                if !self.thinking_open {
                    self.thinking_open = true;
                    push_out(out, "\n💭 **Thinking:**\n> ", false);
                }
                proof {
                    reveal_strlit("\n");
                }
                let quoted = with_all_replaced(t, "\n", "\n> ");
                self.content.append(quoted.as_str());
                push_out(out, quoted.as_str(), true);
                proof {
                    let f = with_reasoning((old(self)@, text::views(old(out)@)), text::opt_view(text));
                    assert(text::views(out@) =~= f.1);
                }
            }
        }
    }

    fn show(&mut self, text: Option<&str>, out: &mut Vec<Outgoing>)
        ensures
            (final(self)@, text::views(final(out)@)) == with_content(
                (old(self)@, text::views(old(out)@)),
                text::opt_view(text),
            ),
    {
        if let Some(t) = text {
            if !t.is_empty() {
                if self.thinking_open {
                    self.thinking_open = false;
                    push_out(out, "\n\n---\n\n", false);
                }
                self.content.append(t);
                push_out(out, t, true);
                proof {
                    let f = with_content((old(self)@, text::views(old(out)@)), text::opt_view(text));
                    assert(text::views(out@) =~= f.1);
                }
            }
        }
    }

    fn call_delta(&mut self, delta: &Json)
        ensures
            final(self)@ == (ReadView {
                calls: with_call_delta(old(self)@.calls, delta@),
                ..old(self)@
            }),
    {
        let at: usize = match delta.get("index") {
            Some(v) => match v.as_u64() {
                Some(n) => n as usize,
                None => 0,
            },
            None => 0,
        };
        let ghost before = self.calls@;
        let mut call = match self.calls.remove(&at) {
            Some(c) => c,
            None => ToolCallAccum {
                id: String::new(),
                name: String::new(),
                arguments: String::new(),
            },
        };
        if let Some(id) = delta.get_str("id") {
            call.id.append(id);
        }
        if let Some(func) = delta.get("function") {
            if let Some(name) = func.get_str("name") {
                call.name.append(name);
            }
            if let Some(arguments) = func.get_str("arguments") {
                call.arguments.append(arguments);
            }
        }
        let ghost made = call;
        self.calls.insert(at, call);
        proof {
            assert(self.calls@ =~= before.insert(at, made));
            assert(made@ == with_call_delta(old(self)@.calls, delta@)[at]);
            assert(self@.calls =~= with_call_delta(old(self)@.calls, delta@));
        }
    }

    /// Takes one document of the stream.
    pub fn document(&mut self, doc: &Json, tools: bool, out: &mut Vec<Outgoing>)
        ensures
            (final(self)@, text::views(final(out)@)) == with_document(
                (old(self)@, text::views(old(out)@)),
                doc@,
                tools,
            ),
    {
        let choices = match doc.get("choices") {
            Some(c) => match c.as_array() {
                Some(v) => v,
                None => {
                    return;
                },
            },
            None => {
                return;
            },
        };
        if choices.len() == 0 {
            return;
        }
        let choice = &choices[0];
        let delta = match choice.get("delta") {
            Some(d) => d,
            None => {
                return;
            },
        };
        self.reasoning(delta.get_str("reasoning_content"), out);
        self.show(delta.get_str("content"), out);
        if tools {
            if let Some(list) = delta.get("tool_calls") {
                if let Some(deltas) = list.as_array() {
                    let ghost g = self@;
                    let ghost all = text::views(deltas@);
                    let mut i: usize = 0;
                    assert(all.take(0) =~= Seq::<JsonView>::empty());
                    while i < deltas.len()
                        invariant
                            i <= deltas@.len(),
                            all == text::views(deltas@),
                            self@ == (ReadView {
                                calls: with_call_deltas(g.calls, all.take(i as int)),
                                ..g
                            }),
                        decreases deltas@.len() - i,
                    {
                        assert(all.take(i + 1).drop_last() =~= all.take(i as int));
                        self.call_delta(&deltas[i]);
                        i = i + 1;
                    }
                    assert(all.take(i as int) =~= all);
                }
            }
            if let Some(reason) = choice.get_str("finish_reason") {
                self.finish_reason = Some(reason.to_owned());
            }
        }
    }

    /// Takes one line of the stream.
    pub fn line(&mut self, line: &str, tools: bool, out: &mut Vec<Outgoing>)
        ensures
            (final(self)@, text::views(final(out)@)) == with_line(
                (old(self)@, text::views(old(out)@)),
                line@,
                tools,
            ),
    {
        if line.is_empty() || same(line, "data: [DONE]") {
            return;
        }
        if let Some(data) = after_prefix(line, "data: ") {
            if let Some(doc) = parse_json(data.as_str()) {
                self.document(&doc, tools, out);
            }
        }
    }

    /// Takes a further piece of the stream's text.
    pub fn feed_text(&mut self, text: &str, tools: bool, out: &mut Vec<Outgoing>)
        ensures
            (final(self)@, text::views(final(out)@)) == fed(
                (old(self)@, text::views(old(out)@)),
                text@,
                tools,
            ),
    {
        self.line_buf.append(text);
        let ghost goal = drained((self@, text::views(out@)), tools);
        loop
            invariant
                drained((self@, text::views(out@)), tools) == goal,
            ensures
                (self@, text::views(out@)) == goal,
            decreases self@.line_buf.len(),
        {
            if self.finish_reason.is_some() {
                break;
            }
            let v = to_chars(self.line_buf.as_str());
            assert(v@.skip(0) =~= v@);
            let i = index_of(&v, '\n', 0);
            if i == v.len() {
                break;
            }
            let line = trimmed(from_chars(&v, 0, i).as_str());
            let ghost before = (self@, text::views(out@));
            self.line_buf = from_chars(&v, i + 1, v.len());
            proof {
                assert(v@.subrange(0, i as int) =~= v@.take(i as int));
                assert(v@.subrange(i + 1, v@.len() as int) =~= v@.skip(i + 1));
                lemma_line_keeps_buf(with_buf(before, v@.skip(i + 1)), line@, tools);
            }
            self.line(line.as_str(), tools, out);
            assert((self@, text::views(out@)) == take_line(before, tools));
        }
    }

    /// Whether there are tool calls.
    pub fn has_calls(&self) -> (r: bool)
        ensures
            r == !self@.calls.is_empty(),
    {
        assert(self@.calls.dom() =~= self.calls@.dom());
        !self.calls.is_empty()
    }

    /// The tool calls, by increasing index.
    pub fn ordered_calls(&self) -> (r: Vec<ToolCallAccum>)
        ensures
            text::views(r@) == calls_in_order(self@.calls),
    {
        let mut r: Vec<ToolCallAccum> = Vec::new();
        let mut below: Option<usize> = None;
        let entries = self.calls.iter();
        proof {
            let items = vstd::std_specs::iter::IteratorSpec::remaining(&entries);
            let keys = items.map_values(|e: (&usize, &ToolCallAccum)| *e.0);
            lemma_increasing(keys);
            assert forall|i: int, j: int| 0 <= i < j < items.len() implies *(
            #[trigger] items[i]).0 < *(#[trigger] items[j]).0 by {
                assert(keys[i] == *items[i].0 && keys[j] == *items[j].0);
            }
        }
        for entry in it: entries
            invariant
                text::views(r@) == calls_below(self@.calls, past(below)),
                it.seq().len() == self.calls@.dom().len(),
                forall|i: int, j: int|
                    0 <= i < j < it.seq().len() ==> *(#[trigger] it.seq()[i]).0 < *(
                    #[trigger] it.seq()[j]).0,
                forall|i: int|
                    0 <= i < it.seq().len() ==> self.calls@.contains_key(
                        *(#[trigger] it.seq()[i]).0,
                    ) && self.calls@[*it.seq()[i].0] == *it.seq()[i].1,
                forall|k: usize|
                    #[trigger] self.calls@.contains_key(k) ==> exists|i: int|
                        0 <= i < it.seq().len() && *(#[trigger] it.seq()[i]).0 == k,
                it.index() == 0 ==> below is None,
                it.index() > 0 ==> below == Some(*it.seq()[it.index() - 1].0),
        {
            let (at, call) = entry;
            proof {
                assert(*at == *it.seq()[it.index() as int].0);
                lemma_calls_below_gap(self@.calls, past(below), *at as nat);
            }
            let ghost before = text::views(r@);
            r.push(call.duplicate());
            below = Some(*at);
            assert(text::views(r@) =~= before.push(call@));
        }
        proof {
            lemma_calls_below_gap(self@.calls, past(below), usize::MAX as nat + 1);
        }
        r
    }
}

// What is read of a stream, told by its text and its documents.

/// Text without a line feed is kept until its line is whole.
pub proof fn law_unended_line_waits(f: Flow, text: Seq<char>, tools: bool)
    requires
        forall|i: int| 0 <= i < f.0.line_buf.len() ==> #[trigger] f.0.line_buf[i] != '\n',
        forall|i: int| 0 <= i < text.len() ==> #[trigger] text[i] != '\n',
    ensures
        fed(f, text, tools) == (ReadView { line_buf: f.0.line_buf + text, ..f.0 }, f.1),
{
    let buf = f.0.line_buf + text;
    assert forall|i: int| 0 <= i < buf.len() implies buf[i] != '\n' by {
        if i < f.0.line_buf.len() {
            assert(buf[i] == f.0.line_buf[i]);
        } else {
            assert(buf[i] == text[i - f.0.line_buf.len()]);
        }
    }
    text::lemma_first_index_is(buf, '\n', buf.len() as int);
}

/// Once the reason to finish has come, nothing more is read: no text is shown and no call
/// changes.
pub proof fn law_nothing_is_read_after_the_end(f: Flow, text: Seq<char>, tools: bool)
    requires
        f.0.finish is Some,
    ensures
        fed(f, text, tools) == (ReadView { line_buf: f.0.line_buf + text, ..f.0 }, f.1),
{
    lemma_fed_after_finish(f, text, tools);
}

proof fn lemma_one_line(f: Flow, line: Seq<char>, tools: bool)
    requires
        f.0.finish is None,
        f.0.line_buf.len() == 0,
        forall|i: int| 0 <= i < line.len() ==> #[trigger] line[i] != '\n',
    ensures
        fed(f, line.push('\n'), tools) == with_line(f, text::trim(line), tools),
{
    let buf = line.push('\n');
    let n = line.len() as int;
    assert(f.0.line_buf + buf =~= buf);
    assert forall|i: int| 0 <= i < n implies buf[i] != '\n' by {
        assert(buf[i] == line[i]);
    }
    text::lemma_first_index_is(buf, '\n', n);
    assert(buf.take(n) =~= line);
    assert(buf.skip(n + 1) =~= f.0.line_buf);
    let g = with_buf(f, buf);
    assert(with_buf(g, buf.skip(n + 1)) == f);
    let r = with_line(f, text::trim(line), tools);
    assert(take_line(g, tools) == r);
    lemma_line_keeps_buf(f, text::trim(line), tools);
    text::lemma_first_index(r.0.line_buf, '\n');
    assert(drained(r, tools) == r);
}

/// A line with the mark `data: ` is an event: the document behind the mark is taken, and
/// what is no document is passed over. White space around the line does not matter.
pub proof fn law_event_line(
    f: Flow,
    before: Seq<char>,
    data: Seq<char>,
    after: Seq<char>,
    tools: bool,
)
    requires
        f.0.finish is None,
        f.0.line_buf.len() == 0,
        forall|i: int|
            0 <= i < before.len() ==> text::is_white(#[trigger] before[i]) && before[i] != '\n',
        forall|i: int|
            0 <= i < after.len() ==> text::is_white(#[trigger] after[i]) && after[i] != '\n',
        forall|i: int| 0 <= i < data.len() ==> #[trigger] data[i] != '\n',
        data.len() > 0,
        !text::is_white(data.last()),
        data != "[DONE]"@,
    ensures
        ({
            let line = before + ("data: "@ + data) + after;
            match json::json_document(data) {
                Some(doc) => fed(f, line.push('\n'), tools) == with_document(f, doc, tools),
                None => fed(f, line.push('\n'), tools) == f,
            }
        }),
{
    reveal_strlit("data: ");
    reveal_strlit("data: [DONE]");
    reveal_strlit("[DONE]");
    let core = "data: "@ + data;
    let line = before + core + after;
    assert forall|i: int| 0 <= i < line.len() implies #[trigger] line[i] != '\n' by {
        if i < before.len() {
            assert(line[i] == before[i]);
        } else if i < before.len() + core.len() {
            let k = i - before.len();
            assert(line[i] == core[k]);
            if k >= 6 {
                assert(core[k] == data[k - 6]);
            }
        } else {
            assert(line[i] == after[i - before.len() - core.len()]);
        }
    }
    assert(core.last() == data.last());
    text::law_trim_of_padded(before, core, after);
    lemma_one_line(f, line, tools);
    text::law_strip_prefix(core, "data: "@, data);
    if core == "data: [DONE]"@ {
        assert(data =~= core.skip(6));
        assert("data: [DONE]"@.skip(6) =~= "[DONE]"@);
    }
}

/// A line of another kind adds nothing, nor does the one that ends the stream.
pub proof fn law_other_lines_are_passed_over(f: Flow, line: Seq<char>, tools: bool)
    requires
        f.0.finish is None,
        f.0.line_buf.len() == 0,
        forall|i: int| 0 <= i < line.len() ==> #[trigger] line[i] != '\n',
        text::trim(line) == "data: [DONE]"@ || forall|rest: Seq<char>| text::trim(line)
            != #[trigger] ("data: "@ + rest),
    ensures
        fed(f, line.push('\n'), tools) == f,
{
    let core = text::trim(line);
    lemma_one_line(f, line, tools);
    text::law_strip_prefix(core, "data: "@, core.skip(6));
    if text::starts_with(core, "data: "@) {
        assert(core == "data: "@ + core.skip("data: "@.len() as int));
    }
}

/// The words of a document: of reasoning, or of the answer itself.
pub open spec fn words_in(delta: JsonView, key: Seq<char>) -> Seq<char> {
    match delta.field(key) {
        Some(JsonView::Str(t)) => t,
        _ => Seq::empty(),
    }
}

/// What a document shows. Its reasoning comes first, as a quote, under a heading where the
/// quote begins; its content follows as it is, behind a rule where it ends a quote. Both
/// are vital, and both count as content; heading and rule are neither.
pub proof fn law_document_shows_its_words(
    f: Flow,
    doc: JsonView,
    choices: Seq<JsonView>,
    delta: JsonView,
    tools: bool,
)
    requires
        doc.field("choices"@) == Some(JsonView::Array(choices)),
        choices.len() > 0,
        choices[0].field("delta"@) == Some(delta),
    ensures
        ({
            let r = with_document(f, doc, tools);
            let reasoning = words_in(delta, "reasoning_content"@);
            let content = words_in(delta, "content"@);
            let quote = text::replace_all(reasoning, "\n"@, "\n> "@);
            let quoting = f.0.thinking || reasoning.len() > 0;
            let heading = OutgoingView { text: "\n💭 **Thinking:**\n> "@, vital: false };
            let rule = OutgoingView { text: "\n\n---\n\n"@, vital: false };
            &&& r.0.line_buf == f.0.line_buf
            &&& r.0.content == f.0.content + quote + content
            &&& r.0.thinking == (quoting && content.len() == 0)
            &&& r.1 == f.1 + (if reasoning.len() > 0 && !f.0.thinking {
                seq![heading]
            } else {
                Seq::empty()
            }) + (if reasoning.len() > 0 {
                seq![OutgoingView { text: quote, vital: true }]
            } else {
                Seq::empty()
            }) + (if content.len() > 0 && quoting {
                seq![rule]
            } else {
                Seq::empty()
            }) + (if content.len() > 0 {
                seq![OutgoingView { text: content, vital: true }]
            } else {
                Seq::empty()
            })
        }),
{
    let r = with_document(f, doc, tools);
    let reasoning = words_in(delta, "reasoning_content"@);
    let content = words_in(delta, "content"@);
    let quote = text::replace_all(reasoning, "\n"@, "\n> "@);
    if reasoning.len() == 0 {
        assert(reasoning =~= Seq::empty());
        text::law_replace_line_feeds(reasoning, 'a', "\n> "@);
    }
    let quoting = f.0.thinking || reasoning.len() > 0;
    let heading = OutgoingView { text: "\n💭 **Thinking:**\n> "@, vital: false };
    let rule = OutgoingView { text: "\n\n---\n\n"@, vital: false };
    let none = Seq::<OutgoingView>::empty();
    assert(r.0.content =~= f.0.content + quote + content);
    assert(r.1 =~= f.1 + (if reasoning.len() > 0 && !f.0.thinking {
        seq![heading]
    } else {
        none
    }) + (if reasoning.len() > 0 {
        seq![OutgoingView { text: quote, vital: true }]
    } else {
        none
    }) + (if content.len() > 0 && quoting {
        seq![rule]
    } else {
        none
    }) + (if content.len() > 0 {
        seq![OutgoingView { text: content, vital: true }]
    } else {
        none
    }));
}

/// The reason to finish is taken from the first choice of a document, where tools are
/// looked for; a document that gives none leaves it as it was. Where no tools are looked
/// for, neither it nor any call changes.
pub proof fn law_document_tells_the_reason(
    f: Flow,
    doc: JsonView,
    choices: Seq<JsonView>,
    delta: JsonView,
    reason: Seq<char>,
)
    requires
        doc.field("choices"@) == Some(JsonView::Array(choices)),
        choices.len() > 0,
        choices[0].field("delta"@) == Some(delta),
    ensures
        choices[0].field("finish_reason"@) == Some(JsonView::Str(reason)) ==> with_document(
            f,
            doc,
            true,
        ).0.finish == Some(reason),
        !(choices[0].field("finish_reason"@) matches Some(JsonView::Str(_))) ==> with_document(
            f,
            doc,
            true,
        ).0.finish == f.0.finish,
        with_document(f, doc, false).0.finish == f.0.finish,
        with_document(f, doc, false).0.calls == f.0.calls,
{
}

/// A document without a first choice, or whose first choice has no delta, adds nothing.
pub proof fn law_document_without_delta(f: Flow, doc: JsonView, tools: bool)
    requires
        match doc.field("choices"@) {
            Some(JsonView::Array(choices)) => choices.len() == 0 || choices[0].field("delta"@) is None,
            _ => true,
        },
    ensures
        with_document(f, doc, tools) == f,
{
}

/// Whether a delta is for the call at an index: it says so, or says no index and the
/// index is zero.
pub open spec fn meant_for(delta: JsonView, at: usize) -> bool {
    match delta.field("index"@) {
        Some(JsonView::Number(Some(n))) => n as usize == at,
        _ => at == 0,
    }
}

/// A part of a call in a delta: the text under `key`, in its `function` or not.
pub open spec fn part_of(delta: JsonView, in_function: bool, key: Seq<char>) -> Seq<char> {
    if in_function {
        match delta.field("function"@) {
            Some(function) => words_in(function, key),
            None => Seq::empty(),
        }
    } else {
        words_in(delta, key)
    }
}

/// The parts of a call in all the deltas that are for it, one after the other.
pub open spec fn parts_of(
    deltas: Seq<JsonView>,
    at: usize,
    in_function: bool,
    key: Seq<char>,
) -> Seq<char>
    decreases deltas.len(),
{
    if deltas.len() == 0 {
        Seq::empty()
    } else {
        let before = parts_of(deltas.drop_last(), at, in_function, key);
        if meant_for(deltas.last(), at) {
            before + part_of(deltas.last(), in_function, key)
        } else {
            before
        }
    }
}

/// Whether `calls` are the calls `prior` after these deltas: each has got the parts in the
/// deltas that are for it, and there is a call for each index that is spoken of.
pub open spec fn pieced_together(
    prior: Map<usize, CallView>,
    deltas: Seq<JsonView>,
    calls: Map<usize, CallView>,
    at: usize,
) -> bool {
    let none = CallView { id: Seq::empty(), name: Seq::empty(), arguments: Seq::empty() };
    let old_call = if prior.contains_key(at) {
        prior[at]
    } else {
        none
    };
    &&& calls.contains_key(at) <==> prior.contains_key(at) || exists|i: int|
        0 <= i < deltas.len() && meant_for(#[trigger] deltas[i], at)
    &&& calls.contains_key(at) ==> {
        &&& calls[at].id == old_call.id + parts_of(deltas, at, false, "id"@)
        &&& calls[at].name == old_call.name + parts_of(deltas, at, true, "name"@)
        &&& calls[at].arguments == old_call.arguments + parts_of(deltas, at, true, "arguments"@)
    }
}

proof fn lemma_pieced_together(prior: Map<usize, CallView>, deltas: Seq<JsonView>, at: usize)
    ensures
        pieced_together(prior, deltas, with_call_deltas(prior, deltas), at),
    decreases deltas.len(),
{
    let none = CallView { id: Seq::empty(), name: Seq::empty(), arguments: Seq::empty() };
    let old_call = if prior.contains_key(at) {
        prior[at]
    } else {
        none
    };
    let calls = with_call_deltas(prior, deltas);
    if deltas.len() == 0 {
        assert(old_call.id + Seq::<char>::empty() =~= old_call.id);
        assert(old_call.name + Seq::<char>::empty() =~= old_call.name);
        assert(old_call.arguments + Seq::<char>::empty() =~= old_call.arguments);
    } else {
        let low = deltas.drop_last();
        let d = deltas.last();
        let before = with_call_deltas(prior, low);
        lemma_pieced_together(prior, low, at);
        assert(call_index(d) == at <==> meant_for(d, at));
        assert forall|i: int| 0 <= i < low.len() implies low[i] == deltas[i] by {}
        if meant_for(d, at) {
            assert(deltas[deltas.len() - 1] == d);
            let was = if before.contains_key(at) {
                before[at]
            } else {
                none
            };
            if !before.contains_key(at) {
                lemma_no_parts(low, at, false, "id"@);
                lemma_no_parts(low, at, true, "name"@);
                lemma_no_parts(low, at, true, "arguments"@);
            }
            assert(was.id =~= old_call.id + parts_of(low, at, false, "id"@));
            assert(was.name =~= old_call.name + parts_of(low, at, true, "name"@));
            assert(was.arguments =~= old_call.arguments + parts_of(low, at, true, "arguments"@));
            assert(calls[at].id =~= was.id + part_of(d, false, "id"@));
            assert(calls[at].name =~= was.name + part_of(d, true, "name"@));
            assert(calls[at].arguments =~= was.arguments + part_of(d, true, "arguments"@));
            assert(calls[at].id =~= old_call.id + parts_of(deltas, at, false, "id"@));
            assert(calls[at].name =~= old_call.name + parts_of(deltas, at, true, "name"@));
            assert(calls[at].arguments =~= old_call.arguments + parts_of(
                deltas,
                at,
                true,
                "arguments"@,
            ));
        } else {
            if exists|i: int| 0 <= i < deltas.len() && meant_for(#[trigger] deltas[i], at) {
                let i = choose|i: int|
                    0 <= i < deltas.len() && meant_for(#[trigger] deltas[i], at);
                assert(meant_for(low[i], at));
            }
            if exists|i: int| 0 <= i < low.len() && meant_for(#[trigger] low[i], at) {
                let i = choose|i: int| 0 <= i < low.len() && meant_for(#[trigger] low[i], at);
                assert(meant_for(deltas[i], at));
            }
        }
    }
}

proof fn lemma_no_parts(deltas: Seq<JsonView>, at: usize, in_function: bool, key: Seq<char>)
    requires
        forall|i: int| 0 <= i < deltas.len() ==> !meant_for(#[trigger] deltas[i], at),
    ensures
        parts_of(deltas, at, in_function, key) == Seq::<char>::empty(),
    decreases deltas.len(),
{
    if deltas.len() > 0 {
        assert(!meant_for(deltas[deltas.len() - 1], at));
        assert forall|i: int| 0 <= i < deltas.drop_last().len() implies !meant_for(
            #[trigger] deltas.drop_last()[i],
            at,
        ) by {
            assert(deltas.drop_last()[i] == deltas[i]);
        }
        lemma_no_parts(deltas.drop_last(), at, in_function, key);
    }
}

/// The deltas for tool calls in a document.
pub open spec fn deltas_in(doc: JsonView) -> Seq<JsonView> {
    match doc.field("choices"@) {
        Some(JsonView::Array(choices)) => if choices.len() == 0 {
            Seq::empty()
        } else {
            match choices[0].field("delta"@) {
                Some(delta) => match delta.field("tool_calls"@) {
                    Some(JsonView::Array(deltas)) => deltas,
                    _ => Seq::empty(),
                },
                None => Seq::empty(),
            }
        },
        _ => Seq::empty(),
    }
}

/// The deltas for tool calls in all the documents of a reply.
pub open spec fn all_deltas(docs: Seq<JsonView>) -> Seq<JsonView>
    decreases docs.len(),
{
    if docs.len() == 0 {
        Seq::empty()
    } else {
        all_deltas(docs.drop_last()) + deltas_in(docs.last())
    }
}

/// A reply after some documents.
pub open spec fn after_documents(f: Flow, docs: Seq<JsonView>) -> Flow
    decreases docs.len(),
{
    if docs.len() == 0 {
        f
    } else {
        with_document(after_documents(f, docs.drop_last()), docs.last(), true)
    }
}

/// The calls of a reply are pieced together from all its deltas. The identifier, the name
/// and the arguments of the call at an index are what the deltas for that index say of
/// them, one after the other, in as many documents as they come, and whatever else a delta
/// says or leaves out.
pub proof fn law_calls_are_pieced_together(f: Flow, docs: Seq<JsonView>, at: usize)
    ensures
        pieced_together(f.0.calls, all_deltas(docs), after_documents(f, docs).0.calls, at),
{
    lemma_document_calls(f, docs);
    lemma_pieced_together(f.0.calls, all_deltas(docs), at);
}

proof fn lemma_document_calls(f: Flow, docs: Seq<JsonView>)
    ensures
        after_documents(f, docs).0.calls == with_call_deltas(f.0.calls, all_deltas(docs)),
    decreases docs.len(),
{
    if docs.len() > 0 {
        let low = docs.drop_last();
        let doc = docs.last();
        lemma_document_calls(f, low);
        lemma_call_deltas_append(f.0.calls, all_deltas(low), deltas_in(doc));
    }
}

proof fn lemma_call_deltas_append(
    calls: Map<usize, CallView>,
    a: Seq<JsonView>,
    b: Seq<JsonView>,
)
    ensures
        with_call_deltas(with_call_deltas(calls, a), b) == with_call_deltas(calls, a + b),
    decreases b.len(),
{
    if b.len() == 0 {
        assert(a + b =~= a);
    } else {
        assert((a + b).drop_last() =~= a + b.drop_last());
        lemma_call_deltas_append(calls, a, b.drop_last());
    }
}

proof fn lemma_keys_below(calls: Map<usize, CallView>, n: nat) -> (keys: Seq<usize>)
    requires
        n <= usize::MAX + 1,
    ensures
        keys.len() == calls_below(calls, n).len(),
        forall|i: int|
            0 <= i < keys.len() ==> (#[trigger] keys[i]) < n && calls.contains_key(keys[i])
                && calls_below(calls, n)[i] == calls[keys[i]],
        forall|i: int, j: int| 0 <= i < j < keys.len() ==> keys[i] < keys[j],
        forall|k: usize| k < n && #[trigger] calls.contains_key(k) ==> keys.contains(k),
    decreases n,
{
    if n == 0 {
        Seq::empty()
    } else {
        let low = lemma_keys_below(calls, (n - 1) as nat);
        let at = (n - 1) as usize;
        if calls.contains_key(at) {
            let keys = low.push(at);
            assert forall|k: usize| k < n && #[trigger] calls.contains_key(k) implies keys.contains(
                k,
            ) by {
                if k < n - 1 {
                    assert(low.contains(k));
                    assert(keys[low.index_of(k)] == k);
                } else {
                    assert(keys[keys.len() - 1] == k);
                }
            }
            keys
        } else {
            low
        }
    }
}

/// Whether a list holds the calls at these indices, which go up and are all that there are.
pub open spec fn lists_calls(
    calls: Map<usize, CallView>,
    keys: Seq<usize>,
    list: Seq<CallView>,
) -> bool {
    &&& keys.len() == list.len()
    &&& forall|i: int, j: int| 0 <= i < j < keys.len() ==> keys[i] < keys[j]
    &&& forall|k: usize| #[trigger] calls.contains_key(k) <==> keys.contains(k)
    &&& forall|i: int| 0 <= i < keys.len() ==> list[i] == calls[#[trigger] keys[i]]
}

/// The calls come in the order of their indices, each once.
pub proof fn law_calls_in_order(calls: Map<usize, CallView>)
    ensures
        exists|keys: Seq<usize>| #[trigger] lists_calls(calls, keys, calls_in_order(calls)),
{
    let keys = lemma_keys_below(calls, usize::MAX as nat + 1);
    assert forall|k: usize| #[trigger] calls.contains_key(k) <==> keys.contains(k) by {
        if keys.contains(k) {
            assert(calls.contains_key(keys[keys.index_of(k)]));
        }
    }
    assert(lists_calls(calls, keys, calls_in_order(calls)));
}

/// The first of the calls is the one with the lowest index.
pub proof fn law_lowest_index_comes_first(calls: Map<usize, CallView>, at: usize)
    requires
        calls.contains_key(at),
        forall|k: usize| #[trigger] calls.contains_key(k) ==> at <= k,
    ensures
        calls_in_order(calls).len() > 0,
        calls_in_order(calls)[0] == calls[at],
{
    let keys = lemma_keys_below(calls, usize::MAX as nat + 1);
    assert(keys.contains(at));
    let i = keys.index_of(at);
    if i > 0 {
        assert(keys[0] < keys[i]);
        assert(calls.contains_key(keys[0]));
    }
}

} // verus!
