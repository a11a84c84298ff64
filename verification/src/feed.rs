//! The tool feed: how a tool call and its result are shown to the client.
use crate::text;
use crate::text::{blank, decimal_text, joined, same, split_lines};
use vstd::prelude::*;

verus! {

/// The icon of a tool.
pub open spec fn icon_of(name: Seq<char>) -> Seq<char> {
    if name == "read_self"@ {
        "📖"@
    } else if name == "search_self"@ {
        "🔍"@
    } else if name == "write_self"@ {
        "✏️"@
    } else if name == "update_task"@ {
        "✅"@
    } else if name == "run_bash"@ {
        "🔧"@
    } else {
        "💻"@
    }
}

/// Maps a tool name to its emoji icon.
pub fn tool_icon(name: &str) -> (icon: &'static str)
    ensures
        icon@ == icon_of(name@),
{
    if same(name, "read_self") {
        "📖"
    } else if same(name, "search_self") {
        "🔍"
    } else if same(name, "write_self") {
        "✏️"
    } else if same(name, "update_task") {
        "✅"
    } else if same(name, "run_bash") {
        "🔧"
    } else {
        "💻"
    }
}

/// The number of lines that a preview shows.
pub const PREVIEW_LINES: usize = 5;

/// The first lines of a text, at most as many as a preview shows.
pub open spec fn shown_lines(lines: Seq<Seq<char>>) -> Seq<Seq<char>> {
    if lines.len() > PREVIEW_LINES {
        lines.take(PREVIEW_LINES as int)
    } else {
        lines
    }
}

/// Lines with the mark of the feed before each.
pub open spec fn marked(lines: Seq<Seq<char>>) -> Seq<Seq<char>> {
    lines.map_values(|l: Seq<char>| "┊   "@ + l)
}

/// The preview of a tool's result: its first lines, each with the mark of the
/// feed, and an ellipsis where there are more. A blank result has none.
pub open spec fn preview_of(result: Seq<char>) -> Seq<char> {
    if text::is_blank(result) {
        Seq::empty()
    } else {
        let lines = text::lines(result);
        let dots = if lines.len() > PREVIEW_LINES {
            "\n┊   …"@
        } else {
            Seq::empty()
        };
        "\n"@ + text::join(marked(shown_lines(lines)), "\n"@) + dots
    }
}

/// Formats the preview of a tool's result.
pub fn format_result_preview(result: &str) -> (r: String)
    ensures
        r@ == preview_of(result@),
{
    if blank(result) {
        return String::new();
    }
    let lines = split_lines(result);
    let shown: usize = if lines.len() > PREVIEW_LINES {
        PREVIEW_LINES
    } else {
        lines.len()
    };
    let mut rows: Vec<String> = Vec::new();
    let mut i: usize = 0;
    let ghost goal = marked(shown_lines(text::lines(result@)));
    while i < shown
        invariant
            i <= shown <= lines@.len(),
            text::views(lines@) == text::lines(result@),
            goal == marked(shown_lines(text::lines(result@))),
            shown == goal.len(),
            text::views(rows@) =~= goal.take(i as int),
        decreases shown - i,
    {
        let mut row = "┊   ".to_owned();
        row.append(lines[i].as_str());
        assert(text::views(lines@)[i as int] == lines@[i as int]@);
        assert(row@ == goal[i as int]);
        let ghost before = text::views(rows@);
        rows.push(row);
        assert(text::views(rows@) =~= before.push(goal[i as int]));
        i = i + 1;
    }
    assert(goal.take(i as int) =~= goal);
    let mut r = "\n".to_owned();
    let body = joined(&rows, "\n");
    r.append(body.as_str());
    if lines.len() > PREVIEW_LINES {
        r.append("\n┊   …");
    }
    assert(r@ =~= preview_of(result@));
    r
}

/// The line that announces a tool call.
pub open spec fn call_heading(name: Seq<char>) -> Seq<char> {
    "┊ "@ + icon_of(name) + " `"@ + name + "`\n"@
}

/// The line that shows a tool call's arguments.
pub open spec fn call_arguments(arguments: Seq<char>) -> Seq<char> {
    "┊   ```` "@ + arguments + " ````\n"@
}

/// The line that announces a tool call.
pub fn heading_text(name: &str) -> (r: String)
    ensures
        r@ == call_heading(name@),
{
    let mut r = "┊ ".to_owned();
    r.append(tool_icon(name));
    r.append(" `");
    r.append(name);
    r.append("`\n");
    r
}

/// The line that shows a tool call's arguments.
pub fn arguments_text(arguments: &str) -> (r: String)
    ensures
        r@ == call_arguments(arguments@),
{
    let mut r = "┊   ```` ".to_owned();
    r.append(arguments);
    r.append(" ````\n");
    r
}

/// The report on a finished tool call: the size of the result in bytes and in
/// lines, the seconds it took, and a preview.
pub open spec fn call_report(result: Seq<char>, elapsed: Seq<char>) -> Seq<char> {
    "┊   ✅ "@ + text::decimal(text::byte_len(result)) + "B, "@ + text::decimal(
        text::lines(result).len(),
    ) + " lines ("@ + elapsed + "s)"@ + preview_of(result) + "\n\n---\n\n"@
}

/// The report on a finished tool call.
pub fn report_text(result: &str, elapsed: &str) -> (r: String)
    ensures
        r@ == call_report(result@, elapsed@),
{
    let size = decimal_text(result.as_bytes().len() as u64);
    let rows = split_lines(result);
    assert(text::views(rows@).len() == rows@.len());
    let count = decimal_text(rows.len() as u64);
    let preview = format_result_preview(result);
    let mut r = "┊   ✅ ".to_owned();
    r.append(size.as_str());
    r.append("B, ");
    r.append(count.as_str());
    r.append(" lines (");
    r.append(elapsed);
    r.append("s)");
    r.append(preview.as_str());
    r.append("\n\n---\n\n");
    r
}

/// What the model is told a tool call gave: its output, or its error with a mark
/// in front.
pub open spec fn result_text_of(result: Result<Seq<char>, Seq<char>>) -> Seq<char> {
    match result {
        Ok(output) => output,
        Err(e) => "Error: "@ + e,
    }
}

/// The view of a tool call's outcome.
pub open spec fn outcome_view(result: Result<String, String>) -> Result<Seq<char>, Seq<char>> {
    match result {
        Ok(output) => Ok(output@),
        Err(e) => Err(e@),
    }
}

/// What the model is told a tool call gave.
pub fn result_text(result: Result<String, String>) -> (r: String)
    ensures
        r@ == result_text_of(outcome_view(result)),
{
    match result {
        Ok(output) => output,
        Err(e) => {
            let mut r = "Error: ".to_owned();
            r.append(e.as_str());
            r
        },
    }
}

/// Each tool has an icon of its own, and all other names share one.
pub proof fn law_icons(name: Seq<char>)
    ensures
        icon_of("read_self"@) == "📖"@,
        icon_of("search_self"@) == "🔍"@,
        icon_of("write_self"@) == "✏️"@,
        icon_of("update_task"@) == "✅"@,
        icon_of("run_bash"@) == "🔧"@,
        name != "read_self"@ && name != "search_self"@ && name != "write_self"@ && name
            != "update_task"@ && name != "run_bash"@ ==> icon_of(name) == "💻"@,
{
    reveal_strlit("read_self");
    reveal_strlit("search_self");
    reveal_strlit("write_self");
    reveal_strlit("update_task");
    reveal_strlit("run_bash");
    assert("read_self"@.len() == 9);
    assert("search_self"@[0] == 's' && "update_task"@[0] == 'u');
    assert("write_self"@.len() == 10 && "run_bash"@.len() == 8);
}

/// A call is shown with its icon and its name, and its arguments as they are.
pub proof fn law_call_is_shown(name: Seq<char>, arguments: Seq<char>)
    ensures
        call_heading(name) == "┊ "@ + icon_of(name) + " `"@ + name + "`\n"@,
        call_arguments(arguments) == "┊   ```` "@ + arguments + " ````\n"@,
{
}

/// A blank result has no preview. Any other is shown by its first five lines, or fewer
/// where it has fewer, each behind the mark of the feed; an ellipsis follows exactly when
/// it has more.
pub proof fn law_preview(result: Seq<char>)
    ensures
        ({
            let lines = text::lines(result);
            let rows = Seq::new(
                if lines.len() < 5 {
                    lines.len()
                } else {
                    5
                },
                |i: int| "┊   "@ + lines[i],
            );
            &&& text::is_blank(result) ==> preview_of(result).len() == 0
            &&& !text::is_blank(result) && lines.len() <= 5 ==> preview_of(result) == "\n"@
                + text::join(rows, "\n"@)
            &&& !text::is_blank(result) && lines.len() > 5 ==> preview_of(result) == "\n"@
                + text::join(rows, "\n"@) + "\n┊   …"@
        }),
{
    let lines = text::lines(result);
    let rows = Seq::new(
        if lines.len() < 5 {
            lines.len()
        } else {
            5
        },
        |i: int| "┊   "@ + lines[i],
    );
    assert(marked(shown_lines(lines)) =~= rows);
    let body = "\n"@ + text::join(rows, "\n"@);
    assert(body + Seq::<char>::empty() =~= body);
}

/// The report on a call tells the bytes and the lines of its result and the seconds, and
/// shows the preview.
pub proof fn law_report(result: Seq<char>, elapsed: Seq<char>)
    ensures
        call_report(result, elapsed) == "┊   ✅ "@ + text::decimal(
            vstd::utf8::encode_utf8(result).len(),
        ) + "B, "@ + text::decimal(text::lines(result).len()) + " lines ("@ + elapsed + "s)"@
            + preview_of(result) + "\n\n---\n\n"@,
{
}

/// What a tool gives reaches the model as it is, and an error behind a mark.
pub proof fn law_result_reaches_the_model(t: Seq<char>)
    ensures
        result_text_of(Ok(t)) == t,
        result_text_of(Err(t)) == "Error: "@ + t,
{
}

/// What a tool call gave is seen as it is, as an output or as an error.
pub proof fn law_outcome_view(s: String)
    ensures
        outcome_view(Ok(s)) == Ok::<Seq<char>, Seq<char>>(s@),
        outcome_view(Err(s)) == Err::<Seq<char>, Seq<char>>(s@),
{
}

} // verus!
