//! The list of tasks: lines with a mark, pending `[ ]` or done `[x]`, of which one at a
//! time gets the other mark.
use crate::text;
use crate::text::{from_chars, index_of, occurs_in, same, to_chars, with_first_replaced};
use vstd::prelude::*;

verus! {

/// Whether a line is one that a search is for: it holds the text and the mark.
pub open spec fn is_task(line: Seq<char>, search: Seq<char>, mark: Seq<char>) -> bool {
    text::contains(line, search) && text::contains(line, mark)
}

/// The first line of a text, without what ends it.
pub open spec fn first_line(content: Seq<char>) -> Seq<char> {
    let i = text::first_index(content, '\n');
    if i < content.len() {
        text::without_cr(content.take(i))
    } else {
        content
    }
}

/// The tasks after the first line that a search is for got the mark `to` in place of
/// its first `from`. All else stays.
pub open spec fn remarked(
    content: Seq<char>,
    search: Seq<char>,
    from: Seq<char>,
    to: Seq<char>,
) -> Seq<char>
    decreases content.len(),
    via remarked_decreases
{
    let i = text::first_index(content, '\n');
    let line = first_line(content);
    if is_task(line, search, from) {
        text::replace_first(line, from, to) + content.skip(line.len() as int)
    } else if i < content.len() {
        content.take(i + 1) + remarked(content.skip(i + 1), search, from, to)
    } else {
        content
    }
}

#[via_fn]
proof fn remarked_decreases(
    content: Seq<char>,
    search: Seq<char>,
    from: Seq<char>,
    to: Seq<char>,
) {
    text::lemma_first_index(content, '\n');
}

/// The tasks after an update, for each status that there is.
pub open spec fn updated(content: Seq<char>, search: Seq<char>, status: Seq<char>) -> Option<
    Seq<char>,
> {
    if status == "done"@ {
        Some(remarked(content, search, "[ ]"@, "[x]"@))
    } else if status == "undo"@ {
        Some(remarked(content, search, "[x]"@, "[ ]"@))
    } else {
        None
    }
}

/// The tasks after the first line that a search is for got another mark.
fn remark(content: &str, search: &str, from: &str, to: &str) -> (r: String)
    ensures
        r@ == remarked(content@, search@, from@, to@),
{
    let v = to_chars(content);
    let n: usize = v.len();
    let mut pos: usize = 0;
    assert(v@.skip(0) =~= v@);
    assert(v@.take(0) + remarked(v@, search@, from@, to@) =~= remarked(v@, search@, from@, to@));
    loop
        invariant
            pos <= n == v@.len(),
            v@ == content@,
            v@.take(pos as int) + remarked(v@.skip(pos as int), search@, from@, to@) == remarked(
                content@,
                search@,
                from@,
                to@,
            ),
        decreases n - pos,
    {
        let ghost rest = v@.skip(pos as int);
        let i = index_of(&v, '\n', pos);
        let end: usize = if i < n && i > pos && v[i - 1] == '\r' {
            i - 1
        } else {
            i
        };
        let line = from_chars(&v, pos, end);
        proof {
            assert(rest.take(i - pos) =~= v@.subrange(pos as int, i as int));
            assert(line@ =~= first_line(rest));
        }
        if occurs_in(line.as_str(), search) && occurs_in(line.as_str(), from) {
            let new_line = with_first_replaced(line.as_str(), from, to);
            let mut r = from_chars(&v, 0, pos);
            let tail = from_chars(&v, end, n);
            r.append(new_line.as_str());
            r.append(tail.as_str());
            proof {
                assert(tail@ =~= rest.skip(line@.len() as int));
                assert(r@ =~= v@.take(pos as int) + (new_line@ + tail@));
            }
            return r;
        }
        if i == n {
            assert(v@.take(pos as int) + rest =~= v@);
            return content.to_owned();
        }
        proof {
            let next = v@.skip(i + 1);
            assert(rest.skip(i - pos + 1) =~= next);
            assert(v@.take(pos as int) + (rest.take(i - pos + 1) + remarked(
                next,
                search@,
                from@,
                to@,
            )) =~= v@.take(i + 1) + remarked(next, search@, from@, to@));
        }
        pos = i + 1;
    }
}

/// The tasks after an update, or nothing where there is no such status.
pub fn update(content: &str, search: &str, status: &str) -> (r: Option<String>)
    ensures
        text::opt_view(r) == updated(content@, search@, status@),
{
    if same(status, "done") {
        Some(remark(content, search, "[ ]", "[x]"))
    } else if same(status, "undo") {
        Some(remark(content, search, "[x]", "[ ]"))
    } else {
        None
    }
}

// What an update changes.

/// Whether a text is a mark that stands within a line.
pub open spec fn is_mark(s: Seq<char>) -> bool {
    s.len() > 0 && forall|i: int| 0 <= i < s.len() ==> #[trigger] s[i] != '\n' && s[i] != '\r'
}

proof fn lemma_marks()
    ensures
        is_mark("[ ]"@),
        is_mark("[x]"@),
        "[ ]"@ == seq!['[', ' ', ']'],
        "[x]"@ == seq!['[', 'x', ']'],
{
    reveal_strlit("[ ]");
    reveal_strlit("[x]");
    assert("[ ]"@ =~= seq!['[', ' ', ']']);
    assert("[x]"@ =~= seq!['[', 'x', ']']);
}

/// The lines of a text are its first line and those after it.
proof fn lemma_lines_first(content: Seq<char>)
    requires
        content.len() > 0,
    ensures
        ({
            let i = text::first_index(content, '\n');
            &&& 0 <= i <= content.len()
            &&& first_line(content).len() <= i
            &&& first_line(content) == content.take(first_line(content).len() as int)
            &&& text::lines(content)[0] == first_line(content)
            &&& text::lines(content).len() > 0
            &&& i < content.len() ==> text::lines(content) == seq![first_line(content)]
                + text::lines(content.skip(i + 1))
            &&& i < content.len() ==> text::lines(content).drop_first() == text::lines(
                content.skip(i + 1),
            )
            &&& i == content.len() ==> text::lines(content) == seq![first_line(content)]
        }),
{
    text::lemma_first_index(content, '\n');
    let i = text::first_index(content, '\n');
    let line = first_line(content);
    assert(line =~= content.take(line.len() as int));
    if i < content.len() {
        assert(text::lines(content).drop_first() =~= text::lines(content.skip(i + 1)));
    }
}

/// With another mark in its first line, the text has the new line in place of the old
/// one.
proof fn lemma_first_line_replaced(
    content: Seq<char>,
    search: Seq<char>,
    from: Seq<char>,
    to: Seq<char>,
)
    requires
        is_mark(from),
        is_mark(to),
        is_task(first_line(content), search, from),
    ensures
        ({
            let line = first_line(content);
            let new_line = text::replace_first(line, from, to);
            let made = new_line + content.skip(line.len() as int);
            &&& content.len() > 0
            &&& made.len() > 0
            &&& first_line(made) == new_line
            &&& text::lines(made) == text::lines(content).update(0, new_line)
        }),
{
    let line = first_line(content);
    let i = text::first_index(content, '\n');
    text::lemma_first_index(content, '\n');
    text::lemma_find_bounds(line, from);
    let k = text::find(line, from)->0;
    assert(content.len() > 0);
    lemma_lines_first(content);
    let new_line = text::replace_first(line, from, to);
    let tail = content.skip(line.len() as int);
    let made = new_line + tail;
    let j = new_line.len() + (i - line.len());
    assert forall|p: int| 0 <= p < new_line.len() implies new_line[p] != '\n' by {
        if p < k {
            assert(new_line[p] == line[p]);
            assert(line[p] == content[p]);
        } else if p < k + to.len() {
            assert(new_line[p] == to[p - k]);
        } else {
            let q = p - to.len() + from.len();
            assert(new_line[p] == line[q]);
            assert(line[q] == content[q]);
        }
    }
    assert forall|p: int| 0 <= p < j implies made[p] != '\n' by {
        if p >= new_line.len() {
            assert(made[p] == content[p - new_line.len() + line.len()]);
        }
    }
    if i < content.len() {
        assert(made[j] == content[i]);
    }
    text::lemma_first_index_is(made, '\n', j);
    if i < content.len() {
        assert(made.skip(j + 1) =~= content.skip(i + 1));
        if line.len() < i {
            assert(made.take(j) =~= new_line.push('\r')) by {
                assert(content[i - 1] == '\r');
                assert(made[j - 1] == content[i - 1]);
            }
            assert(text::without_cr(made.take(j)) =~= new_line);
        } else {
            assert(made.take(j) =~= new_line);
            assert(new_line.last() != '\r') by {
                let p = new_line.len() - 1;
                if p < k + to.len() {
                    assert(new_line[p] == to[p - k]);
                } else {
                    assert(new_line[p] == line.last());
                    assert(line == content.take(i));
                }
            }
        }
    } else {
        assert(made =~= new_line);
    }
    assert(first_line(made) == new_line);
    lemma_lines_first(made);
    assert(text::lines(made) =~= text::lines(content).update(0, new_line));
}

/// A text whose first line ends goes on with any other after it.
proof fn lemma_first_line_kept(content: Seq<char>, rest: Seq<char>)
    requires
        text::first_index(content, '\n') < content.len(),
    ensures
        ({
            let i = text::first_index(content, '\n');
            let made = content.take(i + 1) + rest;
            &&& text::first_index(made, '\n') == i
            &&& first_line(made) == first_line(content)
            &&& made.skip(i + 1) == rest
            &&& made.take(i + 1) == content.take(i + 1)
            &&& made.len() > 0
        }),
{
    text::lemma_first_index(content, '\n');
    let i = text::first_index(content, '\n');
    let made = content.take(i + 1) + rest;
    text::lemma_first_index_is(made, '\n', i);
    assert(made.take(i) =~= content.take(i));
    assert(made.skip(i + 1) =~= rest);
    assert(made.take(i + 1) =~= content.take(i + 1));
}

/// Whether the line at the index `k` is the first that a search is for.
pub open spec fn is_first_task(
    lines: Seq<Seq<char>>,
    search: Seq<char>,
    mark: Seq<char>,
    k: int,
) -> bool {
    &&& 0 <= k < lines.len()
    &&& is_task(lines[k], search, mark)
    &&& forall|j: int| 0 <= j < k ==> !is_task(#[trigger] lines[j], search, mark)
}

/// An update changes one line, the first that the search is for, and in it the first of
/// the marks. The other lines stay.
pub proof fn law_one_line_changes(
    content: Seq<char>,
    search: Seq<char>,
    from: Seq<char>,
    to: Seq<char>,
    k: int,
)
    requires
        is_mark(from),
        is_mark(to),
        is_first_task(text::lines(content), search, from, k),
    ensures
        text::lines(remarked(content, search, from, to)) == text::lines(content).update(
            k,
            text::replace_first(text::lines(content)[k], from, to),
        ),
    decreases content.len(),
{
    let lines = text::lines(content);
    assert(content.len() > 0);
    lemma_lines_first(content);
    let i = text::first_index(content, '\n');
    if k == 0 {
        lemma_first_line_replaced(content, search, from, to);
    } else {
        assert(!is_task(lines[0], search, from));
        let rest = content.skip(i + 1);
        let below = text::lines(rest);
        assert forall|j: int| 0 <= j < k - 1 implies !is_task(#[trigger] below[j], search, from) by {
            assert(below[j] == lines[j + 1]);
        }
        assert(below[k - 1] == lines[k]);
        law_one_line_changes(rest, search, from, to, k - 1);
        let made = remarked(content, search, from, to);
        lemma_first_line_kept(content, remarked(rest, search, from, to));
        lemma_lines_first(made);
        assert(text::lines(made) =~= lines.update(k, text::replace_first(lines[k], from, to)));
    }
}

/// Where no line is one that the search is for, an update changes nothing.
pub proof fn law_without_task_nothing_changes(
    content: Seq<char>,
    search: Seq<char>,
    from: Seq<char>,
    to: Seq<char>,
)
    requires
        is_mark(from),
        forall|j: int|
            0 <= j < text::lines(content).len() ==> !is_task(
                #[trigger] text::lines(content)[j],
                search,
                from,
            ),
    ensures
        remarked(content, search, from, to) == content,
    decreases content.len(),
{
    let lines = text::lines(content);
    if content.len() == 0 {
        text::lemma_find_bounds(content, from);
    } else {
        lemma_lines_first(content);
        assert(!is_task(lines[0], search, from));
        let i = text::first_index(content, '\n');
        if i < content.len() {
            let rest = content.skip(i + 1);
            let below = text::lines(rest);
            assert forall|j: int| 0 <= j < below.len() implies !is_task(
                #[trigger] below[j],
                search,
                from,
            ) by {
                assert(below[j] == lines[j + 1]);
            }
            law_without_task_nothing_changes(rest, search, from, to);
            assert(content.take(i + 1) + rest =~= content);
        }
    }
}

/// Whether `b` is `a` with some characters `from` turned into `to`.
pub open spec fn turned(a: Seq<char>, b: Seq<char>, from: char, to: char) -> bool {
    &&& a.len() == b.len()
    &&& forall|i: int|
        0 <= i < a.len() ==> #[trigger] b[i] == a[i] || (a[i] == from && b[i] == to)
}

proof fn lemma_turned_join(
    a: Seq<char>,
    b: Seq<char>,
    x: Seq<char>,
    y: Seq<char>,
    from: char,
    to: char,
)
    requires
        turned(a, b, from, to),
        turned(x, y, from, to),
    ensures
        turned(a + x, b + y, from, to),
{
    assert forall|i: int| 0 <= i < (a + x).len() implies #[trigger] (b + y)[i] == (a + x)[i] || (
    (a + x)[i] == from && (b + y)[i] == to) by {
        if i < a.len() {
            assert(b[i] == a[i] || (a[i] == from && b[i] == to));
        } else {
            let k = i - a.len();
            assert(y[k] == x[k] || (x[k] == from && y[k] == to));
        }
    }
}

proof fn lemma_replace_first_turned(
    s: Seq<char>,
    pat: Seq<char>,
    rep: Seq<char>,
    from: char,
    to: char,
)
    requires
        turned(pat, rep, from, to),
    ensures
        turned(s, text::replace_first(s, pat, rep), from, to),
{
    text::lemma_find_bounds(s, pat);
    if let Some(i) = text::find(s, pat) {
        let rest = s.skip(i + pat.len());
        lemma_turned_join(s.take(i), s.take(i), pat, rep, from, to);
        lemma_turned_join(s.take(i) + pat, s.take(i) + rep, rest, rest, from, to);
        assert(s =~= s.take(i) + s.subrange(i, i + pat.len()) + rest);
    }
}

proof fn lemma_remarked_turned(
    content: Seq<char>,
    search: Seq<char>,
    mark: Seq<char>,
    other: Seq<char>,
    from: char,
    to: char,
)
    requires
        turned(mark, other, from, to),
    ensures
        turned(content, remarked(content, search, mark, other), from, to),
    decreases content.len(),
{
    let i = text::first_index(content, '\n');
    text::lemma_first_index(content, '\n');
    let line = first_line(content);
    if is_task(line, search, mark) {
        let tail = content.skip(line.len() as int);
        lemma_replace_first_turned(line, mark, other, from, to);
        lemma_turned_join(line, text::replace_first(line, mark, other), tail, tail, from, to);
        assert(content =~= line + tail);
    } else if i < content.len() {
        let rest = content.skip(i + 1);
        let head = content.take(i + 1);
        lemma_remarked_turned(rest, search, mark, other, from, to);
        lemma_turned_join(head, head, rest, remarked(rest, search, mark, other), from, to);
        assert(content =~= head + rest);
    }
}

/// An update changes nothing but marks: `done` turns blanks into crosses, `undo`
/// crosses into blanks, and all else stays where it is.
pub proof fn law_update_changes_marks_only(content: Seq<char>, search: Seq<char>)
    ensures
        turned(content, updated(content, search, "done"@)->0, ' ', 'x'),
        turned(content, updated(content, search, "undo"@)->0, 'x', ' '),
{
    lemma_marks();
    lemma_statuses();
    lemma_remarked_turned(content, search, "[ ]"@, "[x]"@, ' ', 'x');
    lemma_remarked_turned(content, search, "[x]"@, "[ ]"@, 'x', ' ');
}

proof fn lemma_statuses()
    ensures
        "done"@ != "undo"@,
{
    reveal_strlit("done");
    reveal_strlit("undo");
    assert("done"@[0] != "undo"@[0]);
}

// What `undo` takes back.

/// A line of tasks with its first pending mark turned into a done one.
pub open spec fn ticked(line: Seq<char>) -> Seq<char> {
    text::replace_first(line, "[ ]"@, "[x]"@)
}

/// Whether `undo` finds the mark again that `done` has set in a line: the line still
/// holds the search text, and had no cross before that mark.
pub open spec fn found_again(line: Seq<char>, search: Seq<char>) -> bool {
    &&& text::contains(ticked(line), search)
    &&& match text::find(line, "[x]"@) {
        Some(j) => text::find(line, "[ ]"@)->0 < j,
        None => true,
    }
}

/// A cross before the new one was there before.
proof fn lemma_earlier_cross(line: Seq<char>, done: Seq<char>, m: int, j: int)
    requires
        0 <= j < m,
        m + 3 <= line.len(),
        done == line.take(m) + seq!['[', 'x', ']'] + line.skip(m + 3),
        done.subrange(j, j + 3) == seq!['[', 'x', ']'],
    ensures
        j + 3 <= m,
        line.subrange(j, j + 3) == seq!['[', 'x', ']'],
{
    let hit = done.subrange(j, j + 3);
    assert(hit[1] == 'x' && hit[2] == ']');
    assert(hit[1] == done[j + 1] && hit[2] == done[j + 2]);
    assert(done[m] == '[');
    assert(line.subrange(j, j + 3) =~= hit);
}

/// The first cross of a ticked line is the new one.
proof fn lemma_first_cross(line: Seq<char>, m: int)
    requires
        text::find(line, "[ ]"@) == Some(m),
        match text::find(line, "[x]"@) {
            Some(j) => m < j,
            None => true,
        },
    ensures
        text::find(ticked(line), "[x]"@) == Some(m),
        0 <= m,
        m + 3 <= line.len(),
        ticked(line) == line.take(m) + "[x]"@ + line.skip(m + 3),
{
    lemma_marks();
    let shut = "[x]"@;
    let done = ticked(line);
    text::lemma_find_bounds(line, "[ ]"@);
    assert(done.subrange(m, m + 3) =~= shut);
    assert forall|j: int| 0 <= j < m implies #[trigger] done.subrange(j, j + shut.len()) != shut by {
        if done.subrange(j, j + 3) == shut {
            lemma_earlier_cross(line, done, m, j);
            text::lemma_found_at(line, shut, j);
        }
    }
    text::lemma_find_is(done, shut, m);
}

/// Taking the first cross of a ticked line back gives the line.
proof fn lemma_tick_taken_back(line: Seq<char>, search: Seq<char>)
    requires
        text::contains(line, "[ ]"@),
        found_again(line, search),
    ensures
        is_task(ticked(line), search, "[x]"@),
        text::replace_first(ticked(line), "[x]"@, "[ ]"@) == line,
{
    lemma_marks();
    let m = text::find(line, "[ ]"@)->0;
    lemma_first_cross(line, m);
    text::lemma_find_bounds(line, "[ ]"@);
    let done = ticked(line);
    assert(done.take(m) =~= line.take(m));
    assert(done.skip(m + 3) =~= line.skip(m + 3));
    assert(line =~= line.take(m) + line.subrange(m, m + 3) + line.skip(m + 3));
}

/// `undo` takes `done` back, to the letter: where no line before the task is a done one
/// that the search is for, and the mark is found again in the task's line.
pub proof fn law_undo_takes_done_back(content: Seq<char>, search: Seq<char>, k: int)
    requires
        is_first_task(text::lines(content), search, "[ ]"@, k),
        forall|j: int|
            0 <= j < k ==> !is_task(#[trigger] text::lines(content)[j], search, "[x]"@),
        found_again(text::lines(content)[k], search),
    ensures
        updated(updated(content, search, "done"@)->0, search, "undo"@) == Some(content),
{
    lemma_statuses();
    lemma_undone(content, search, k);
}

proof fn lemma_undone(content: Seq<char>, search: Seq<char>, k: int)
    requires
        is_first_task(text::lines(content), search, "[ ]"@, k),
        forall|j: int|
            0 <= j < k ==> !is_task(#[trigger] text::lines(content)[j], search, "[x]"@),
        found_again(text::lines(content)[k], search),
    ensures
        remarked(remarked(content, search, "[ ]"@, "[x]"@), search, "[x]"@, "[ ]"@) == content,
    decreases content.len(),
{
    lemma_marks();
    let lines = text::lines(content);
    assert(content.len() > 0);
    lemma_lines_first(content);
    let i = text::first_index(content, '\n');
    let done = remarked(content, search, "[ ]"@, "[x]"@);
    let line = first_line(content);
    if k == 0 {
        lemma_first_line_replaced(content, search, "[ ]"@, "[x]"@);
        lemma_tick_taken_back(line, search);
        let tail = content.skip(line.len() as int);
        assert(done == ticked(line) + tail);
        assert(done.skip(ticked(line).len() as int) =~= tail);
        assert(content =~= line + tail);
    } else {
        assert(!is_task(lines[0], search, "[ ]"@));
        assert(!is_task(lines[0], search, "[x]"@));
        let rest = content.skip(i + 1);
        let below = text::lines(rest);
        assert forall|j: int| 0 <= j < k - 1 implies !is_task(
            #[trigger] below[j],
            search,
            "[ ]"@,
        ) && !is_task(below[j], search, "[x]"@) by {
            assert(below[j] == lines[j + 1]);
        }
        assert(below[k - 1] == lines[k]);
        lemma_undone(rest, search, k - 1);
        lemma_first_line_kept(content, remarked(rest, search, "[ ]"@, "[x]"@));
        assert(content.take(i + 1) + rest =~= content);
    }
}

/// Whether a search text is clear of the marks: no part of it can lie on the blank of a
/// pending mark.
pub open spec fn clear_of_marks(search: Seq<char>) -> bool {
    &&& search != " "@
    &&& !text::contains(search, "[ "@)
    &&& !text::contains(search, " ]"@)
}

/// A search text that is clear of the marks is still held by a line after its mark was
/// set.
pub proof fn law_tick_keeps_the_words(line: Seq<char>, search: Seq<char>)
    requires
        text::contains(line, "[ ]"@),
        text::contains(line, search),
        clear_of_marks(search),
    ensures
        text::contains(ticked(line), search),
{
    lemma_marks();
    reveal_strlit(" ");
    reveal_strlit("[ ");
    reveal_strlit(" ]");
    let done = ticked(line);
    text::lemma_find_bounds(line, "[ ]"@);
    text::lemma_find_bounds(line, search);
    let m = text::find(line, "[ ]"@)->0;
    let p = text::find(line, search)->0;
    let n = search.len() as int;
    let mark = line.subrange(m, m + 3);
    assert(mark[0] == line[m] && mark[1] == line[m + 1] && mark[2] == line[m + 2]);
    let hit = line.subrange(p, p + n);
    if p <= m + 1 < p + n {
        if n == 1 {
            assert(hit[0] == ' ');
            assert(search =~= " "@);
        } else if p <= m {
            assert(hit[m - p] == '[' && hit[m + 1 - p] == ' ');
            assert(search.subrange(m - p, m - p + 2) =~= "[ "@);
            text::lemma_found_at(search, "[ "@, m - p);
        } else {
            assert(hit[0] == ' ' && hit[1] == ']');
            assert(search.subrange(0, 2) =~= " ]"@);
            text::lemma_found_at(search, " ]"@, 0);
        }
    }
    assert forall|q: int| p <= q < p + n implies done[q] == line[q] by {
        assert(q != m + 1);
    }
    assert(done.subrange(p, p + n) =~= hit);
    text::lemma_found_at(done, search, p);
}

/// Where exactly one line holds the search text, with a pending mark and no done one,
/// and the text is one without blanks: `done` changes that line alone, in the first of
/// its marks, and `undo` gives the tasks back to the letter.
pub proof fn law_done_and_undo_on_the_only_line(content: Seq<char>, search: Seq<char>, k: int)
    requires
        0 <= k < text::lines(content).len(),
        text::contains(text::lines(content)[k], search),
        forall|j: int|
            0 <= j < text::lines(content).len() && j != k ==> !text::contains(
                #[trigger] text::lines(content)[j],
                search,
            ),
        text::contains(text::lines(content)[k], "[ ]"@),
        !text::contains(text::lines(content)[k], "[x]"@),
        forall|i: int| 0 <= i < search.len() ==> #[trigger] search[i] != ' ',
    ensures
        ({
            let done = updated(content, search, "done"@)->0;
            &&& text::lines(done) == text::lines(content).update(
                k,
                ticked(text::lines(content)[k]),
            )
            &&& turned(content, done, ' ', 'x')
            &&& updated(done, search, "undo"@) == Some(content)
        }),
{
    lemma_marks();
    reveal_strlit(" ");
    reveal_strlit("[ ");
    reveal_strlit(" ]");
    assert(search != " "@) by {
        if search == " "@ {
            assert(search[0] == ' ');
        }
    }
    text::lemma_find_bounds(search, "[ "@);
    if let Some(i) = text::find(search, "[ "@) {
        assert(search.subrange(i, i + 2)[1] == search[i + 1]);
    }
    text::lemma_find_bounds(search, " ]"@);
    if let Some(i) = text::find(search, " ]"@) {
        assert(search.subrange(i, i + 2)[0] == search[i]);
    }
    law_tick_keeps_the_words(text::lines(content)[k], search);
    law_one_line_changes(content, search, "[ ]"@, "[x]"@, k);
    law_update_changes_marks_only(content, search);
    law_undo_takes_done_back(content, search, k);
}

// What an update does, told by the lines of the text before and after it.

/// Whether the line at the index `k` is the first that holds both the search text and a
/// mark, and the mark stands in it first at the index `m`.
pub open spec fn first_with_mark(
    lines: Seq<Seq<char>>,
    search: Seq<char>,
    mark: Seq<char>,
    k: int,
    m: int,
) -> bool {
    &&& 0 <= k < lines.len()
    &&& text::stands_in(search, lines[k])
    &&& 0 <= m
    &&& m + mark.len() <= lines[k].len()
    &&& lines[k].subrange(m, m + mark.len()) == mark
    &&& forall|i: int| 0 <= i < m ==> #[trigger] lines[k].subrange(i, i + mark.len()) != mark
    &&& forall|j: int|
        0 <= j < k ==> !(text::stands_in(search, #[trigger] lines[j]) && text::stands_in(mark, lines[j]))
}

/// Whether `made` is `content` with the mark `to` in one place where `from` stood.
pub open spec fn one_mark_turned(
    content: Seq<char>,
    made: Seq<char>,
    from: Seq<char>,
    to: Seq<char>,
) -> bool {
    exists|p: int|
        {
            &&& 0 <= p
            &&& p + from.len() <= content.len()
            &&& #[trigger] content.subrange(p, p + from.len()) == from
            &&& made == content.take(p) + to + content.skip(p + from.len())
        }
}

proof fn lemma_is_task(line: Seq<char>, search: Seq<char>, mark: Seq<char>)
    ensures
        is_task(line, search, mark) <==> text::stands_in(search, line) && text::stands_in(mark, line),
{
    text::law_find(line, search);
    text::law_find(line, mark);
}

proof fn lemma_one_mark_turned(
    content: Seq<char>,
    search: Seq<char>,
    from: Seq<char>,
    to: Seq<char>,
    k: int,
)
    requires
        is_first_task(text::lines(content), search, from, k),
    ensures
        one_mark_turned(content, remarked(content, search, from, to), from, to),
    decreases content.len(),
{
    assert(content.len() > 0);
    lemma_lines_first(content);
    let lines = text::lines(content);
    let line = first_line(content);
    let i = text::first_index(content, '\n');
    text::lemma_first_index(content, '\n');
    let made = remarked(content, search, from, to);
    if k == 0 {
        text::lemma_find_bounds(line, from);
        let p = text::find(line, from)->0;
        assert(content.subrange(p, p + from.len()) =~= line.subrange(p, p + from.len()));
        assert(made =~= content.take(p) + to + content.skip(p + from.len()));
    } else {
        assert(!is_task(lines[0], search, from));
        let rest = content.skip(i + 1);
        let below = text::lines(rest);
        assert forall|j: int| 0 <= j < k - 1 implies !is_task(#[trigger] below[j], search, from) by {
            assert(below[j] == lines[j + 1]);
        }
        assert(below[k - 1] == lines[k]);
        lemma_one_mark_turned(rest, search, from, to, k - 1);
        let tail = remarked(rest, search, from, to);
        let q = choose|q: int|
            {
                &&& 0 <= q
                &&& q + from.len() <= rest.len()
                &&& #[trigger] rest.subrange(q, q + from.len()) == from
                &&& tail == rest.take(q) + to + rest.skip(q + from.len())
            };
        let p = i + 1 + q;
        assert(content.subrange(p, p + from.len()) =~= rest.subrange(q, q + from.len()));
        assert(made =~= content.take(p) + to + content.skip(p + from.len()));
    }
}

proof fn lemma_first_with_mark(
    content: Seq<char>,
    search: Seq<char>,
    from: Seq<char>,
    to: Seq<char>,
    k: int,
    m: int,
)
    requires
        is_mark(from),
        is_mark(to),
        first_with_mark(text::lines(content), search, from, k, m),
    ensures
        ({
            let lines = text::lines(content);
            let made = remarked(content, search, from, to);
            &&& text::lines(made) == lines.update(
                k,
                lines[k].take(m) + to + lines[k].skip(m + from.len()),
            )
            &&& one_mark_turned(content, made, from, to)
        }),
{
    let lines = text::lines(content);
    lemma_is_task(lines[k], search, from);
    assert forall|j: int| 0 <= j < k implies !is_task(#[trigger] lines[j], search, from) by {
        lemma_is_task(lines[j], search, from);
    }
    text::lemma_find_is(lines[k], from, m);
    law_one_line_changes(content, search, from, to, k);
    lemma_one_mark_turned(content, search, from, to, k);
}

/// `done` marks the first line that holds the search text and a pending mark, whatever the
/// text is made of: the first `[ ]` of that line becomes `[x]`. All other lines stay, and
/// so does all else in the text.
pub proof fn law_done_marks_the_task(content: Seq<char>, search: Seq<char>, k: int, m: int)
    requires
        first_with_mark(text::lines(content), search, seq!['[', ' ', ']'], k, m),
    ensures
        ({
            let lines = text::lines(content);
            let done = updated(content, search, "done"@);
            &&& done is Some
            &&& text::lines(done->0) == lines.update(
                k,
                lines[k].take(m) + seq!['[', 'x', ']'] + lines[k].skip(m + 3),
            )
            &&& one_mark_turned(content, done->0, seq!['[', ' ', ']'], seq!['[', 'x', ']'])
        }),
{
    lemma_marks();
    lemma_first_with_mark(content, search, "[ ]"@, "[x]"@, k, m);
}

/// `undo` marks the first line that holds the search text and a done mark, whatever the
/// text is made of: the first `[x]` of that line becomes `[ ]`. All other lines stay, and
/// so does all else in the text.
pub proof fn law_undo_marks_the_task(content: Seq<char>, search: Seq<char>, k: int, m: int)
    requires
        first_with_mark(text::lines(content), search, seq!['[', 'x', ']'], k, m),
    ensures
        ({
            let lines = text::lines(content);
            let undone = updated(content, search, "undo"@);
            &&& undone is Some
            &&& text::lines(undone->0) == lines.update(
                k,
                lines[k].take(m) + seq!['[', ' ', ']'] + lines[k].skip(m + 3),
            )
            &&& one_mark_turned(content, undone->0, seq!['[', 'x', ']'], seq!['[', ' ', ']'])
        }),
{
    lemma_marks();
    lemma_statuses();
    lemma_first_with_mark(content, search, "[x]"@, "[ ]"@, k, m);
}

/// Where no line holds both the search text and the mark, an update changes nothing. Only
/// `done` and `undo` are a status.
pub proof fn law_nothing_to_mark(content: Seq<char>, search: Seq<char>, status: Seq<char>)
    ensures
        (forall|j: int|
            0 <= j < text::lines(content).len() ==> !(text::stands_in(
                search,
                #[trigger] text::lines(content)[j],
            ) && text::stands_in(seq!['[', ' ', ']'], text::lines(content)[j]))) ==> updated(
            content,
            search,
            "done"@,
        ) == Some(content),
        (forall|j: int|
            0 <= j < text::lines(content).len() ==> !(text::stands_in(
                search,
                #[trigger] text::lines(content)[j],
            ) && text::stands_in(seq!['[', 'x', ']'], text::lines(content)[j]))) ==> updated(
            content,
            search,
            "undo"@,
        ) == Some(content),
        status != "done"@ && status != "undo"@ ==> updated(content, search, status) is None,
{
    lemma_marks();
    lemma_statuses();
    let lines = text::lines(content);
    if forall|j: int|
        0 <= j < lines.len() ==> !(text::stands_in(search, #[trigger] lines[j]) && text::stands_in(
            "[ ]"@,
            lines[j],
        )) {
        assert forall|j: int| 0 <= j < lines.len() implies !is_task(
            #[trigger] lines[j],
            search,
            "[ ]"@,
        ) by {
            lemma_is_task(lines[j], search, "[ ]"@);
        }
        law_without_task_nothing_changes(content, search, "[ ]"@, "[x]"@);
    }
    if forall|j: int|
        0 <= j < lines.len() ==> !(text::stands_in(search, #[trigger] lines[j]) && text::stands_in(
            "[x]"@,
            lines[j],
        )) {
        assert forall|j: int| 0 <= j < lines.len() implies !is_task(
            #[trigger] lines[j],
            search,
            "[x]"@,
        ) by {
            lemma_is_task(lines[j], search, "[x]"@);
        }
        law_without_task_nothing_changes(content, search, "[x]"@, "[ ]"@);
    }
}

} // verus!
