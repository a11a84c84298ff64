//! The system prompt: the assistant's soul, the notes of the day, the pending tasks,
//! and the skills.
use crate::memory;
use crate::skills;
use crate::skills::{build_catalog, Skill};
use crate::text;
use crate::tools::tasks_path;
use vstd::prelude::*;

verus! {

/// Where the soul is, given the value of `SOUL_PATH`.
pub fn soul_path(configured: Option<String>) -> (r: String)
    ensures
        r@ == (match configured {
            Some(p) => p@,
            None => "./SOUL.md"@,
        }),
{
    match configured {
        Some(p) => p,
        None => "./SOUL.md".to_owned(),
    }
}

/// The soul, given what could be read of it.
pub open spec fn soul_or_default(read: Option<Seq<char>>) -> Seq<char> {
    match read {
        Some(soul) => soul,
        None => "You are a helpful personal assistant."@,
    }
}

/// Whether a character stands in a date: a digit or a sign.
pub open spec fn is_date_char(c: char) -> bool {
    '0' <= c <= '9' || c == '-' || c == '+'
}

/// Whether a text is a date: the digits of a year, a month and a day with dashes between
/// them. The year has four digits, or more, and then a sign before it.
pub open spec fn is_date(s: Seq<char>) -> bool {
    &&& s.len() >= 10
    &&& s[s.len() - 6] == '-'
    &&& s[s.len() - 3] == '-'
    &&& is_date_char(s[0])
    &&& forall|i: int|
        1 <= i < s.len() && i != s.len() - 6 && i != s.len() - 3 ==> '0' <= #[trigger] s[i] <= '9'
}

/// `Local::now` of `chrono`, in the form that `DateTime::format` gives it: today's date
/// where the machine is, as year, month and day. Which date it is, the clock says, and
/// the time zone, which `chrono` takes from `TZ` and the machine's zone file. That it has
/// the form of a date is claimed here.
#[verifier::external_body]
fn local_date(pattern: &str) -> (r: String)
    requires
        pattern@ == "%Y-%m-%d"@,
    ensures
        is_date(r@),
{
    chrono::Local::now().format(pattern).to_string()
}

/// The file with the notes of a day.
pub open spec fn note_of(day: Seq<char>) -> Seq<char> {
    "memory/daily/"@ + day + ".md"@
}

/// The file with the notes of a day.
pub fn note_path(day: &str) -> (r: String)
    ensures
        r@ == note_of(day@),
{
    let mut r = "memory/daily/".to_owned();
    r.append(day);
    r.append(".md");
    r
}

/// What has to be read before a system prompt can be built.
pub struct PreamblePlan {
    /// The date.
    pub today: String,
    /// The file with the notes of the day.
    pub note: String,
    /// The file with the pending tasks.
    pub tasks: String,
}

/// What has to be read today.
pub fn plan_preamble() -> (plan: PreamblePlan)
    ensures
        is_date(plan.today@),
        plan.note@ == note_of(plan.today@),
        plan.tasks@ == "memory/tasks/pending.md"@,
        !memory::climbs(plan.note@),
        !memory::climbs(plan.tasks@),
{
    let today = local_date("%Y-%m-%d");
    proof {
        law_notes_can_be_reached(today@);
        reveal_strlit("memory/tasks/pending.md");
        lemma_does_not_climb("memory/tasks/pending.md"@);
    }
    let note = note_path(today.as_str());
    PreamblePlan { today, note, tasks: tasks_path() }
}

/// A path without two dots in a row does not lead upwards.
proof fn lemma_does_not_climb(path: Seq<char>)
    requires
        forall|i: int| 0 <= i < path.len() - 1 && #[trigger] path[i] == '.' ==> path[i + 1] != '.',
    ensures
        !memory::climbs(path),
{
    reveal_strlit("..");
    text::lemma_contains_iff(path, ".."@);
    if memory::climbs(path) {
        let i = choose|i: int|
            0 <= i && i + ".."@.len() <= path.len() && #[trigger] path.subrange(
                i,
                i + ".."@.len(),
            ) == ".."@;
        assert(path.subrange(i, i + 2)[0] == path[i]);
        assert(path.subrange(i, i + 2)[1] == path[i + 1]);
    }
}

/// The notes of a day are not rejected as a path that leads upwards.
pub proof fn law_notes_can_be_reached(day: Seq<char>)
    requires
        is_date(day),
    ensures
        !memory::climbs(note_of(day)),
{
    reveal_strlit("memory/daily/");
    reveal_strlit(".md");
    let s = note_of(day);
    let head = "memory/daily/"@.len() as int;
    assert forall|i: int| 0 <= i < s.len() - 1 && #[trigger] s[i] == '.' implies s[i + 1]
        != '.' by {
        if head <= i < head + day.len() {
            assert(s[i] == day[i - head]);
        }
    }
    lemma_does_not_climb(s);
}

/// The system prompt.
pub open spec fn preamble_of(
    soul: Seq<char>,
    today: Seq<char>,
    note: Seq<char>,
    tasks: Seq<char>,
    catalog: Seq<char>,
) -> Seq<char> {
    soul + "\n\n---\n\n## Current Context (auto-injected)\n- Today: "@ + today
        + "\n- Workspace: repository root (all paths are relative to the repo root)\n\n### Today's Note ("@
        + today + ")\n"@ + note + "\n\n### Pending Tasks\n"@ + tasks + "\n"@ + catalog
        + guidelines()
}

/// How the tools are to be used.
pub open spec fn guidelines() -> Seq<char> {
    "\n\n## Tool Usage Guidelines\n- Use `read_self` to read any file (paths relative to repo root, e.g. memory/tasks/pending.md).\n- Use `search_self` to search all Markdown files for keywords.\n- Use `write_self` to create or update a file atomically.\n- Use `update_task` to mark tasks as done/undo in memory/tasks/pending.md.\n- Use `run_bash` to execute shell commands for system operations.\n- Be concise. Use tools proactively. When you lack a tool, check the Skills catalog above.\n"@
}

/// The system prompt. `soul` is what could be read of the soul, `note` and `tasks` what
/// stands in the files of the plan, where they can be read.
pub fn build_full_preamble(
    soul: Option<String>,
    today: &str,
    note: &str,
    tasks: &str,
    skills: &[Skill],
) -> (r: String)
    ensures
        r@ == preamble_of(
            soul_or_default(text::opt_view(soul)),
            today@,
            note@,
            tasks@,
            skills::catalog_of(text::views(skills@)),
        ),
{
    let mut r = match soul {
        Some(s) => s,
        None => "You are a helpful personal assistant.".to_owned(),
    };
    r.append("\n\n---\n\n## Current Context (auto-injected)\n- Today: ");
    r.append(today);
    r.append(
        "\n- Workspace: repository root (all paths are relative to the repo root)\n\n### Today's Note (",
    );
    r.append(today);
    r.append(")\n");
    r.append(note);
    r.append("\n\n### Pending Tasks\n");
    r.append(tasks);
    r.append("\n");
    let catalog = build_catalog(skills);
    r.append(catalog.as_str());
    r.append(
        "\n\n## Tool Usage Guidelines\n- Use `read_self` to read any file (paths relative to repo root, e.g. memory/tasks/pending.md).\n- Use `search_self` to search all Markdown files for keywords.\n- Use `write_self` to create or update a file atomically.\n- Use `update_task` to mark tasks as done/undo in memory/tasks/pending.md.\n- Use `run_bash` to execute shell commands for system operations.\n- Be concise. Use tools proactively. When you lack a tool, check the Skills catalog above.\n",
    );
    r
}

/// The system prompt begins with the soul and holds the date, the notes, the tasks and
/// the catalog.
pub proof fn law_preamble_holds_its_parts(
    soul: Seq<char>,
    today: Seq<char>,
    note: Seq<char>,
    tasks: Seq<char>,
    catalog: Seq<char>,
)
    ensures
        text::starts_with(preamble_of(soul, today, note, tasks, catalog), soul),
        text::contains(preamble_of(soul, today, note, tasks, catalog), today),
        text::contains(preamble_of(soul, today, note, tasks, catalog), note),
        text::contains(preamble_of(soul, today, note, tasks, catalog), tasks),
        text::contains(preamble_of(soul, today, note, tasks, catalog), catalog),
{
    let all = preamble_of(soul, today, note, tasks, catalog);
    assert(all.take(soul.len() as int) =~= soul);
    let a = soul + "\n\n---\n\n## Current Context (auto-injected)\n- Today: "@;
    let b = a + today
        + "\n- Workspace: repository root (all paths are relative to the repo root)\n\n### Today's Note ("@
        + today + ")\n"@;
    let c = b + note + "\n\n### Pending Tasks\n"@;
    let d = c + tasks + "\n"@;
    assert(all =~= a + today + all.skip(a.len() + today.len() as int));
    assert(all =~= b + note + all.skip(b.len() + note.len() as int));
    assert(all =~= c + tasks + all.skip(c.len() + tasks.len() as int));
    assert(all =~= d + catalog + all.skip(d.len() + catalog.len() as int));
    text::lemma_contains_part(a, today, all.skip(a.len() + today.len() as int));
    text::lemma_contains_part(b, note, all.skip(b.len() + note.len() as int));
    text::lemma_contains_part(c, tasks, all.skip(c.len() + tasks.len() as int));
    text::lemma_contains_part(d, catalog, all.skip(d.len() + catalog.len() as int));
}

/// The system prompt puts each part under its heading: the soul first, then the date, the
/// notes of the day under the date, the pending tasks, the catalog, and how the tools are
/// to be used.
pub proof fn law_preamble_puts_parts_in_place(
    soul: Seq<char>,
    today: Seq<char>,
    note: Seq<char>,
    tasks: Seq<char>,
    catalog: Seq<char>,
)
    ensures
        preamble_of(soul, today, note, tasks, catalog) == soul
            + "\n\n---\n\n## Current Context (auto-injected)\n- Today: "@ + today
            + "\n- Workspace: repository root (all paths are relative to the repo root)\n\n### Today's Note ("@
            + today + ")\n"@ + note + "\n\n### Pending Tasks\n"@ + tasks + "\n"@ + catalog
            + "\n\n## Tool Usage Guidelines\n- Use `read_self` to read any file (paths relative to repo root, e.g. memory/tasks/pending.md).\n- Use `search_self` to search all Markdown files for keywords.\n- Use `write_self` to create or update a file atomically.\n- Use `update_task` to mark tasks as done/undo in memory/tasks/pending.md.\n- Use `run_bash` to execute shell commands for system operations.\n- Be concise. Use tools proactively. When you lack a tool, check the Skills catalog above.\n"@,
        soul_or_default(Some(soul)) == soul,
        soul_or_default(None) == "You are a helpful personal assistant."@,
        note_of(today) == "memory/daily/"@ + today + ".md"@,
{
}

} // verus!
