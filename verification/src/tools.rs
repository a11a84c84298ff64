//! The tools that a model can call: how they are described to it, which one a call
//! means, and what each makes of what it read, wrote or ran.
use crate::bytes;
use crate::bytes::{byte_prefix, text_bytes};
use crate::json;
use crate::json::{json_array, json_object, json_str, Json, JsonView};
use crate::memory;
use crate::memory::SearchMatch;
use crate::tasks;
use crate::text;
use crate::text::{decimal_int_text, joined, lossy_text, same};
use vstd::prelude::*;

verus! {

/// A tool as it is described to a model.
pub struct ToolDefinition {
    pub name: String,
    pub description: String,
    /// The JSON schema of the arguments.
    pub parameters: Json,
}

#[verifier::ext_equal]
pub struct DefinitionView {
    pub name: Seq<char>,
    pub description: Seq<char>,
    pub parameters: JsonView,
}

impl View for ToolDefinition {
    type V = DefinitionView;

    open spec fn view(&self) -> DefinitionView {
        DefinitionView {
            name: self.name@,
            description: self.description@,
            parameters: self.parameters@,
        }
    }
}

/// The schema of an argument.
pub open spec fn argument(kind: Seq<char>, description: Seq<char>) -> JsonView {
    JsonView::Object(
        seq![("type"@, JsonView::Str(kind)), ("description"@, JsonView::Str(description))],
    )
}

/// The schema of a text argument with a choice of values.
pub open spec fn choice(first: Seq<char>, second: Seq<char>, description: Seq<char>) -> JsonView {
    JsonView::Object(
        seq![
            ("type"@, JsonView::Str("string"@)),
            ("enum"@, JsonView::Array(seq![JsonView::Str(first), JsonView::Str(second)])),
            ("description"@, JsonView::Str(description)),
        ],
    )
}

/// The JSON strings that hold the texts of a list.
pub open spec fn strings(s: Seq<Seq<char>>) -> Seq<JsonView> {
    s.map_values(|t: Seq<char>| JsonView::Str(t))
}

/// The schema of the arguments of a tool.
pub open spec fn schema(
    arguments: Seq<(Seq<char>, JsonView)>,
    required: Seq<Seq<char>>,
) -> JsonView {
    JsonView::Object(
        seq![
            ("type"@, JsonView::Str("object"@)),
            ("properties"@, JsonView::Object(arguments)),
            ("required"@, JsonView::Array(strings(required))),
        ],
    )
}

/// A tool as the chat endpoint of a provider expects it.
pub open spec fn function_json(d: DefinitionView) -> JsonView {
    JsonView::Object(
        seq![
            ("type"@, JsonView::Str("function"@)),
            (
                "function"@,
                JsonView::Object(
                    seq![
                        ("name"@, JsonView::Str(d.name)),
                        ("description"@, JsonView::Str(d.description)),
                        ("parameters"@, d.parameters),
                    ],
                ),
            ),
        ],
    )
}

/// The description of `read_self`.
pub open spec fn read_definition() -> DefinitionView {
    DefinitionView {
        name: "read_self"@,
        description: "Read a file from the workspace. Accepts absolute paths or paths relative to the repository root."@,
        parameters: schema(
            seq![
                (
                    "path"@,
                    argument(
                        "string"@,
                        "Absolute path, or relative path to the file (e.g. memory/daily/2026-05-09.md)"@,
                    ),
                ),
            ],
            seq!["path"@],
        ),
    }
}

/// The description of `write_self`.
pub open spec fn write_definition() -> DefinitionView {
    DefinitionView {
        name: "write_self"@,
        description: "Atomically write content to a file. Creates parent directories automatically. Path is relative to the repository root."@,
        parameters: schema(
            seq![
                (
                    "path"@,
                    argument("string"@, "Relative path to write, e.g. memory/tasks/pending.md"@),
                ),
                ("content"@, argument("string"@, "Full Markdown content to write"@)),
            ],
            seq!["path"@, "content"@],
        ),
    }
}

/// The description of `update_task`, in words of the given file.
pub open spec fn update_definition(description: Seq<char>) -> DefinitionView {
    DefinitionView {
        name: "update_task"@,
        description,
        parameters: schema(
            seq![
                ("search"@, argument("string"@, "Text to find in the pending task line"@)),
                (
                    "status"@,
                    choice("done"@, "undo"@, "'done' marks complete, 'undo' unmarks"@),
                ),
            ],
            seq!["search"@, "status"@],
        ),
    }
}

/// How `update_task` is described to an agent.
pub open spec fn update_words() -> Seq<char> {
    "Update a task's status in tasks/pending.md. Searches for a line containing the search text and replaces `[ ]` with `[x]` (or vice versa if status is 'undo'). Status must be 'done' or 'undo'."@
}

/// How `update_task` is described to a provider.
pub open spec fn update_words_streaming() -> Seq<char> {
    "Update a task's status in memory/tasks/pending.md. Searches for a line containing the search text and replaces `[ ]` with `[x]` (or vice versa if status is 'undo'). Status must be 'done' or 'undo'."@
}

/// The description of `search_self`.
pub open spec fn search_definition() -> DefinitionView {
    DefinitionView {
        name: "search_self"@,
        description: "Search all Markdown files in the workspace for a keyword. Returns matching file paths and content snippets."@,
        parameters: schema(
            seq![("query"@, argument("string"@, "Keyword or phrase to search for"@))],
            seq!["query"@],
        ),
    }
}

/// The description of `run_bash`.
pub open spec fn bash_definition() -> DefinitionView {
    DefinitionView {
        name: "run_bash"@,
        description: "Execute a bash command and return stdout+stderr. Runs from the workspace directory. Max output 8KB. Use for system operations: check disk, list files, run scripts, etc. Avoid destructive commands (rm -rf, etc)."@,
        parameters: schema(
            seq![
                ("command"@, argument("string"@, "The bash command to execute"@)),
                (
                    "timeout_secs"@,
                    argument("integer"@, "Optional timeout in seconds (default 30)"@),
                ),
            ],
            seq!["command"@],
        ),
    }
}

/// The tools, as the chat endpoint of a provider expects them.
pub open spec fn definitions() -> Seq<JsonView> {
    seq![
        function_json(read_definition()),
        function_json(write_definition()),
        function_json(update_definition(update_words_streaming())),
        function_json(search_definition()),
        function_json(bash_definition()),
    ]
}

/// The schema of an argument.
fn argument_json(kind: &str, description: &str) -> (j: Json)
    ensures
        j@ == argument(kind@, description@),
{
    let j = json_object(
        vec![
            ("type".to_owned(), json_str(kind)),
            ("description".to_owned(), json_str(description)),
        ],
    );
    assert(j@->Object_0 =~= argument(kind@, description@)->Object_0);
    j
}

/// The schema of the arguments of a tool.
fn schema_json(arguments: Vec<(String, Json)>, required: Vec<Json>) -> (j: Json)
    ensures
        j@ == JsonView::Object(
            seq![
                ("type"@, JsonView::Str("object"@)),
                ("properties"@, JsonView::Object(json::entry_views(arguments@))),
                ("required"@, JsonView::Array(text::views(required@))),
            ],
        ),
{
    let ghost goal = seq![
        ("type"@, JsonView::Str("object"@)),
        ("properties"@, JsonView::Object(json::entry_views(arguments@))),
        ("required"@, JsonView::Array(text::views(required@))),
    ];
    let j = json_object(
        vec![
            ("type".to_owned(), json_str("object")),
            ("properties".to_owned(), json_object(arguments)),
            ("required".to_owned(), json_array(required)),
        ],
    );
    assert(j@->Object_0 =~= goal);
    j
}

/// A tool as the chat endpoint of a provider expects it.
fn function_to_json(d: ToolDefinition) -> (j: Json)
    ensures
        j@ == function_json(d@),
{
    let ghost goal = function_json(d@);
    let function = json_object(
        vec![
            ("name".to_owned(), json_str(d.name.as_str())),
            ("description".to_owned(), json_str(d.description.as_str())),
            ("parameters".to_owned(), d.parameters),
        ],
    );
    assert(function@->Object_0 =~= goal->Object_0[1].1->Object_0);
    let j = json_object(
        vec![("type".to_owned(), json_str("function")), ("function".to_owned(), function)],
    );
    assert(j@->Object_0 =~= goal->Object_0);
    j
}

/// The tool that reads a file.
pub struct ReadSelf;

/// What `read_self` is called with.
pub struct ReadArgs {
    pub path: String,
}

/// A file could not be read.
pub struct ReadError(pub String);

impl ReadError {
    /// What is told of the error.
    pub fn message(&self) -> (r: String)
        ensures
            r@ == "Read error: "@ + self.0@,
    {
        let mut r = "Read error: ".to_owned();
        r.append(self.0.as_str());
        r
    }
}

impl ReadSelf {
    pub fn definition(&self) -> (d: ToolDefinition)
        ensures
            d@ == read_definition(),
    {
        let parameters = schema_json(
            vec![
                (
                    "path".to_owned(),
                    argument_json(
                        "string",
                        "Absolute path, or relative path to the file (e.g. memory/daily/2026-05-09.md)",
                    ),
                ),
            ],
            vec![json_str("path")],
        );
        let ghost goal = read_definition().parameters->Object_0;
        assert(parameters@->Object_0[1].1->Object_0 =~= goal[1].1->Object_0);
        assert(parameters@->Object_0[2].1->Array_0 =~= goal[2].1->Array_0);
        assert(parameters@->Object_0 =~= goal);
        ToolDefinition {
            name: "read_self".to_owned(),
            description: "Read a file from the workspace. Accepts absolute paths or paths relative to the repository root.".to_owned(),
            parameters,
        }
    }

    /// The answer to a call, given what came of reading the file.
    pub fn call(&self, read: Result<String, String>) -> (r: Result<String, ReadError>)
        ensures
            match read {
                Ok(content) => r == Ok::<String, ReadError>(content),
                Err(e) => r == Err::<String, ReadError>(ReadError(e)),
            },
    {
        match read {
            Ok(content) => Ok(content),
            Err(e) => Err(ReadError(e)),
        }
    }
}

/// The tool that writes a file.
pub struct WriteSelf;

/// What `write_self` is called with.
pub struct WriteArgs {
    pub path: String,
    pub content: String,
}

/// A file could not be written.
pub struct WriteError(pub String);

impl WriteError {
    /// What is told of the error.
    pub fn message(&self) -> (r: String)
        ensures
            r@ == "Write error: "@ + self.0@,
    {
        let mut r = "Write error: ".to_owned();
        r.append(self.0.as_str());
        r
    }
}

impl WriteSelf {
    pub fn definition(&self) -> (d: ToolDefinition)
        ensures
            d@ == write_definition(),
    {
        let parameters = schema_json(
            vec![
                (
                    "path".to_owned(),
                    argument_json("string", "Relative path to write, e.g. memory/tasks/pending.md"),
                ),
                ("content".to_owned(), argument_json("string", "Full Markdown content to write")),
            ],
            vec![json_str("path"), json_str("content")],
        );
        let ghost goal = write_definition().parameters->Object_0;
        assert(parameters@->Object_0[1].1->Object_0 =~= goal[1].1->Object_0);
        assert(parameters@->Object_0[2].1->Array_0 =~= goal[2].1->Array_0);
        assert(parameters@->Object_0 =~= goal);
        ToolDefinition {
            name: "write_self".to_owned(),
            description: "Atomically write content to a file. Creates parent directories automatically. Path is relative to the repository root.".to_owned(),
            parameters,
        }
    }

    /// The answer to a call, given what came of writing the file.
    pub fn call(&self, args: &WriteArgs, written: Result<(), String>) -> (r: Result<
        String,
        WriteError,
    >)
        ensures
            match written {
                Ok(_) => r is Ok && r->Ok_0@ == "Written to "@ + args.path@,
                Err(e) => r == Err::<String, WriteError>(WriteError(e)),
            },
    {
        match written {
            Ok(_) => {
                let mut r = "Written to ".to_owned();
                r.append(args.path.as_str());
                Ok(r)
            },
            Err(e) => Err(WriteError(e)),
        }
    }
}

/// The tool that marks a task as done, or as pending again.
pub struct UpdateTask;

/// What `update_task` is called with: a part of the task's line, and the new status.
pub struct UpdateTaskArgs {
    pub search: String,
    pub status: String,
}

/// A task could not be updated.
pub struct UpdateTaskError(pub String);

impl UpdateTaskError {
    /// What is told of the error.
    pub fn message(&self) -> (r: String)
        ensures
            r@ == "Task update error: "@ + self.0@,
    {
        let mut r = "Task update error: ".to_owned();
        r.append(self.0.as_str());
        r
    }
}

/// The file with the tasks.
pub fn tasks_path() -> (r: String)
    ensures
        r@ == "memory/tasks/pending.md"@,
{
    "memory/tasks/pending.md".to_owned()
}

impl UpdateTask {
    pub fn definition(&self) -> (d: ToolDefinition)
        ensures
            d@ == update_definition(update_words()),
    {
        ToolDefinition {
            name: "update_task".to_owned(),
            description: "Update a task's status in tasks/pending.md. Searches for a line containing the search text and replaces `[ ]` with `[x]` (or vice versa if status is 'undo'). Status must be 'done' or 'undo'.".to_owned(),
            parameters: update_parameters(),
        }
    }

    /// The tasks after an update. The status is `done` or `undo`; there is no other.
    pub fn update(&self, args: &UpdateTaskArgs, content: &str) -> (r: Result<
        String,
        UpdateTaskError,
    >)
        ensures
            match r {
                Ok(tasks) => tasks::updated(content@, args.search@, args.status@) == Some(tasks@),
                Err(e) => tasks::updated(content@, args.search@, args.status@) is None && e.0@
                    == "Invalid status: "@ + args.status@,
            },
    {
        match tasks::update(content, args.search.as_str(), args.status.as_str()) {
            Some(tasks) => Ok(tasks),
            None => {
                let mut e = "Invalid status: ".to_owned();
                e.append(args.status.as_str());
                Err(UpdateTaskError(e))
            },
        }
    }

    /// The answer to a call, given what came of writing the updated tasks.
    pub fn call(&self, args: &UpdateTaskArgs, written: Result<(), String>) -> (r: Result<
        String,
        UpdateTaskError,
    >)
        ensures
            match written {
                Ok(_) => r is Ok && r->Ok_0@ == "Task matching '"@ + args.search@
                    + "' updated to status '"@ + args.status@ + "'"@,
                Err(e) => r == Err::<String, UpdateTaskError>(UpdateTaskError(e)),
            },
    {
        match written {
            Ok(_) => {
                let mut r = "Task matching '".to_owned();
                r.append(args.search.as_str());
                r.append("' updated to status '");
                r.append(args.status.as_str());
                r.append("'");
                Ok(r)
            },
            Err(e) => Err(UpdateTaskError(e)),
        }
    }
}

/// The schema of the arguments of `update_task`.
fn update_parameters() -> (j: Json)
    ensures
        j@ == update_definition(Seq::empty()).parameters,
{
    let status = json_object(
        vec![
            ("type".to_owned(), json_str("string")),
            ("enum".to_owned(), json_array(vec![json_str("done"), json_str("undo")])),
            ("description".to_owned(), json_str("'done' marks complete, 'undo' unmarks")),
        ],
    );
    let ghost wanted = choice("done"@, "undo"@, "'done' marks complete, 'undo' unmarks"@);
    assert(status@->Object_0[1].1->Array_0 =~= wanted->Object_0[1].1->Array_0);
    assert(status@->Object_0 =~= wanted->Object_0);
    let parameters = schema_json(
        vec![
            (
                "search".to_owned(),
                argument_json("string", "Text to find in the pending task line"),
            ),
            ("status".to_owned(), status),
        ],
        vec![json_str("search"), json_str("status")],
    );
    let ghost goal = update_definition(Seq::empty()).parameters->Object_0;
    assert(parameters@->Object_0[1].1->Object_0 =~= goal[1].1->Object_0);
    assert(parameters@->Object_0[2].1->Array_0 =~= goal[2].1->Array_0);
    assert(parameters@->Object_0 =~= goal);
    parameters
}

/// The tool that searches the Markdown files.
pub struct SearchSelf;

/// What `search_self` is called with.
pub struct SearchArgs {
    pub query: String,
}

/// A search failed.
pub struct SearchError(pub String);

impl SearchError {
    /// What is told of the error.
    pub fn message(&self) -> (r: String)
        ensures
            r@ == "Search error: "@ + self.0@,
    {
        let mut r = "Search error: ".to_owned();
        r.append(self.0.as_str());
        r
    }
}

/// How a match is shown.
pub open spec fn match_text(m: memory::MatchView) -> Seq<char> {
    "## "@ + m.path + "\n"@ + m.snippet
}

/// How the matches of a search are shown.
pub open spec fn matches_text(matches: Seq<memory::MatchView>) -> Seq<char> {
    if matches.len() == 0 {
        "No matches found."@
    } else {
        text::join(
            matches.map_values(|m: memory::MatchView| match_text(m)),
            "\n\n---\n\n"@,
        )
    }
}

/// How the matches of a search are shown.
fn show_matches(matches: &Vec<SearchMatch>) -> (r: String)
    ensures
        r@ == matches_text(text::views(matches@)),
{
    if matches.len() == 0 {
        return "No matches found.".to_owned();
    }
    let ghost goal = text::views(matches@).map_values(|m: memory::MatchView| match_text(m));
    let mut shown: Vec<String> = Vec::new();
    let mut i: usize = 0;
    while i < matches.len()
        invariant
            i <= matches@.len(),
            goal == text::views(matches@).map_values(|m: memory::MatchView| match_text(m)),
            text::views(shown@) =~= goal.take(i as int),
        decreases matches@.len() - i,
    {
        let ghost before = text::views(shown@);
        let mut s = "## ".to_owned();
        s.append(matches[i].path.as_str());
        s.append("\n");
        s.append(matches[i].snippet.as_str());
        assert(s@ == goal[i as int]);
        shown.push(s);
        assert(text::views(shown@) =~= before.push(goal[i as int]));
        i = i + 1;
    }
    assert(goal.take(i as int) =~= goal);
    joined(&shown, "\n\n---\n\n")
}

impl SearchSelf {
    pub fn definition(&self) -> (d: ToolDefinition)
        ensures
            d@ == search_definition(),
    {
        let parameters = schema_json(
            vec![
                ("query".to_owned(), argument_json("string", "Keyword or phrase to search for")),
            ],
            vec![json_str("query")],
        );
        let ghost goal = search_definition().parameters->Object_0;
        assert(parameters@->Object_0[1].1->Object_0 =~= goal[1].1->Object_0);
        assert(parameters@->Object_0[2].1->Array_0 =~= goal[2].1->Array_0);
        assert(parameters@->Object_0 =~= goal);
        ToolDefinition {
            name: "search_self".to_owned(),
            description: "Search all Markdown files in the workspace for a keyword. Returns matching file paths and content snippets.".to_owned(),
            parameters,
        }
    }

    /// The answer to a call, given what the search found.
    pub fn call(&self, found: Result<Vec<SearchMatch>, String>) -> (r: Result<String, SearchError>)
        ensures
            match found {
                Ok(matches) => r is Ok && r->Ok_0@ == matches_text(text::views(matches@)),
                Err(e) => r == Err::<String, SearchError>(SearchError(e)),
            },
    {
        match found {
            Ok(matches) => Ok(show_matches(&matches)),
            Err(e) => Err(SearchError(e)),
        }
    }
}

/// The tool that runs a command.
pub struct RunBash;

/// What `run_bash` is called with.
pub struct RunBashArgs {
    pub command: String,
    pub timeout_secs: Option<u64>,
}

/// A command could not be run.
pub struct BashError(pub String);

impl BashError {
    /// What is told of the error.
    pub fn message(&self) -> (r: String)
        ensures
            r@ == "Bash error: "@ + self.0@,
    {
        let mut r = "Bash error: ".to_owned();
        r.append(self.0.as_str());
        r
    }
}

/// What came of running a command.
pub enum BashOutcome {
    TimedOut,
    /// It could not be started, for this reason.
    Failed(String),
    Finished { stdout: Vec<u8>, stderr: Vec<u8>, code: Option<i32> },
}

/// The timeout of a command that asks for none, in seconds.
pub const DEFAULT_TIMEOUT: u64 = 30;

/// The longest timeout that a command is given, in seconds.
pub const MAX_TIMEOUT: u64 = 120;

/// The number of bytes of a command's output that are kept.
pub const MAX_OUTPUT: usize = 8192;

/// What a command wrote, or how it ended where it wrote nothing.
pub open spec fn output_of(stdout: Seq<char>, stderr: Seq<char>, code: Option<i32>) -> Seq<char> {
    if stdout.len() > 0 && stderr.len() > 0 {
        stdout + "\n--- stderr ---\n"@ + stderr
    } else if stdout.len() > 0 {
        stdout
    } else if stderr.len() > 0 {
        "--- stderr ---\n"@ + stderr
    } else {
        match code {
            Some(c) => "Command exited with code Some("@ + text::decimal_int(c as int) + ")"@,
            None => "Command exited with code None"@,
        }
    }
}

/// A text that is cut off where it is longer than `MAX_OUTPUT` bytes.
pub open spec fn truncated(s: Seq<char>) -> Seq<char> {
    if text::byte_len(s) > MAX_OUTPUT {
        bytes::first_bytes(s, MAX_OUTPUT as nat) + "\n... (output truncated)"@
    } else {
        s
    }
}

/// The report on a command that has ended, given what it wrote as texts.
pub fn bash_report(stdout: &str, stderr: &str, code: Option<i32>) -> (r: String)
    ensures
        r@ == truncated(output_of(stdout@, stderr@, code)),
{
    let ghost goal = output_of(stdout@, stderr@, code);
    proof {
        reveal_strlit("\n");
        reveal_strlit("--- stderr ---\n");
        reveal_strlit("\n--- stderr ---\n");
        assert("\n--- stderr ---\n"@ =~= "\n"@ + "--- stderr ---\n"@);
    }
    let mut combined = String::new();
    if !stdout.is_empty() {
        combined.append(stdout);
    }
    if !stderr.is_empty() {
        if !combined.as_str().is_empty() {
            combined.append("\n");
        }
        combined.append("--- stderr ---\n");
        combined.append(stderr);
    }
    if combined.as_str().is_empty() {
        combined = "Command exited with code ".to_owned();
        match code {
            Some(c) => {
                combined.append("Some(");
                let digits = decimal_int_text(c as i64);
                combined.append(digits.as_str());
                combined.append(")");
                proof {
                    reveal_strlit("Command exited with code ");
                    reveal_strlit("Some(");
                    reveal_strlit("Command exited with code Some(");
                    assert("Command exited with code Some("@ =~= "Command exited with code "@
                        + "Some("@);
                }
            },
            None => {
                combined.append("None");
                proof {
                    reveal_strlit("Command exited with code ");
                    reveal_strlit("None");
                    reveal_strlit("Command exited with code None");
                    assert("Command exited with code None"@ =~= "Command exited with code "@
                        + "None"@);
                }
            },
        }
    }
    assert(combined@ =~= goal);
    if text_bytes(combined.as_str()) > MAX_OUTPUT {
        let mut r = byte_prefix(combined.as_str(), MAX_OUTPUT);
        r.append("\n... (output truncated)");
        r
    } else {
        combined
    }
}

impl RunBash {
    pub fn definition(&self) -> (d: ToolDefinition)
        ensures
            d@ == bash_definition(),
    {
        let parameters = schema_json(
            vec![
                ("command".to_owned(), argument_json("string", "The bash command to execute")),
                (
                    "timeout_secs".to_owned(),
                    argument_json("integer", "Optional timeout in seconds (default 30)"),
                ),
            ],
            vec![json_str("command")],
        );
        let ghost goal = bash_definition().parameters->Object_0;
        assert(parameters@->Object_0[1].1->Object_0 =~= goal[1].1->Object_0);
        assert(parameters@->Object_0[2].1->Array_0 =~= goal[2].1->Array_0);
        assert(parameters@->Object_0 =~= goal);
        ToolDefinition {
            name: "run_bash".to_owned(),
            description: "Execute a bash command and return stdout+stderr. Runs from the workspace directory. Max output 8KB. Use for system operations: check disk, list files, run scripts, etc. Avoid destructive commands (rm -rf, etc).".to_owned(),
            parameters,
        }
    }

    /// How long a command may take, in seconds.
    pub fn timeout(&self, args: &RunBashArgs) -> (secs: u64)
        ensures
            secs == (match args.timeout_secs {
                Some(t) => if t < MAX_TIMEOUT {
                    t
                } else {
                    MAX_TIMEOUT
                },
                None => DEFAULT_TIMEOUT,
            }),
    {
        match args.timeout_secs {
            Some(t) => if t < MAX_TIMEOUT {
                t
            } else {
                MAX_TIMEOUT
            },
            None => DEFAULT_TIMEOUT,
        }
    }

    /// The answer to a call, given what came of the command.
    pub fn call(&self, outcome: BashOutcome) -> (r: Result<String, BashError>)
        ensures
            match outcome {
                BashOutcome::TimedOut => r is Err && r->Err_0.0@ == "Command timed out"@,
                BashOutcome::Failed(e) => r is Err && r->Err_0.0@ == "Failed to execute: "@ + e@,
                BashOutcome::Finished { stdout, stderr, code } => r is Ok && r->Ok_0@ == truncated(
                    output_of(text::utf8_lossy(stdout@), text::utf8_lossy(stderr@), code),
                ),
            },
    {
        match outcome {
            BashOutcome::TimedOut => Err(BashError("Command timed out".to_owned())),
            BashOutcome::Failed(e) => {
                let mut r = "Failed to execute: ".to_owned();
                r.append(e.as_str());
                Err(BashError(r))
            },
            BashOutcome::Finished { stdout, stderr, code } => {
                let out = lossy_text(stdout.as_slice());
                let err = lossy_text(stderr.as_slice());
                Ok(bash_report(out.as_str(), err.as_str(), code))
            },
        }
    }
}

/// The report on a command takes at most `MAX_OUTPUT` bytes, and those of the note
/// that it was cut off.
pub proof fn law_output_is_bounded(s: Seq<char>)
    ensures
        text::byte_len(truncated(s)) <= MAX_OUTPUT + text::byte_len(
            "\n... (output truncated)"@,
        ),
        text::byte_len(s) <= MAX_OUTPUT ==> truncated(s) == s,
{
    bytes::lemma_first_bytes(s, MAX_OUTPUT as nat);
    bytes::lemma_byte_len_append(
        bytes::first_bytes(s, MAX_OUTPUT as nat),
        "\n... (output truncated)"@,
    );
}

/// What is kept of a long output is a start of it.
pub proof fn law_output_keeps_the_start(s: Seq<char>)
    requires
        text::byte_len(s) > MAX_OUTPUT,
    ensures
        text::starts_with(s, bytes::first_bytes(s, MAX_OUTPUT as nat)),
        truncated(s) == bytes::first_bytes(s, MAX_OUTPUT as nat) + "\n... (output truncated)"@,
{
    bytes::lemma_first_bytes(s, MAX_OUTPUT as nat);
}

/// The tools that there are.
#[derive(Debug, Clone, Copy, PartialEq, Eq, Structural)]
pub enum ToolKind {
    Read,
    Write,
    Update,
    Search,
    Bash,
}

/// The tool that a name means.
pub open spec fn kind_of(name: Seq<char>) -> Option<ToolKind> {
    if name == "read_self"@ {
        Some(ToolKind::Read)
    } else if name == "write_self"@ {
        Some(ToolKind::Write)
    } else if name == "update_task"@ {
        Some(ToolKind::Update)
    } else if name == "search_self"@ {
        Some(ToolKind::Search)
    } else if name == "run_bash"@ {
        Some(ToolKind::Bash)
    } else {
        None
    }
}

/// The tool that a name means.
pub fn tool_named(name: &str) -> (r: Option<ToolKind>)
    ensures
        r == kind_of(name@),
{
    if same(name, "read_self") {
        Some(ToolKind::Read)
    } else if same(name, "write_self") {
        Some(ToolKind::Write)
    } else if same(name, "update_task") {
        Some(ToolKind::Update)
    } else if same(name, "search_self") {
        Some(ToolKind::Search)
    } else if same(name, "run_bash") {
        Some(ToolKind::Bash)
    } else {
        None
    }
}

/// The tools, as the chat endpoint of a provider expects them.
pub fn tool_definitions() -> (r: Vec<Json>)
    ensures
        text::views(r@) == definitions(),
{
    let update = ToolDefinition {
        name: "update_task".to_owned(),
        description: "Update a task's status in memory/tasks/pending.md. Searches for a line containing the search text and replaces `[ ]` with `[x]` (or vice versa if status is 'undo'). Status must be 'done' or 'undo'.".to_owned(),
        parameters: update_parameters(),
    };
    let r = vec![
        function_to_json(ReadSelf.definition()),
        function_to_json(WriteSelf.definition()),
        function_to_json(update),
        function_to_json(SearchSelf.definition()),
        function_to_json(RunBash.definition()),
    ];
    assert(text::views(r@) =~= definitions());
    r
}

/// The name of a tool in its definition.
pub open spec fn defined_name(d: JsonView) -> Option<Seq<char>> {
    match d.field("function"@) {
        Some(f) => f.text_field("name"@),
        None => None,
    }
}

/// The names in a list of definitions.
pub open spec fn defined_names(defs: Seq<JsonView>) -> Seq<Seq<char>>
    decreases defs.len(),
{
    if defs.len() == 0 {
        Seq::empty()
    } else {
        let before = defined_names(defs.drop_last());
        match defined_name(defs.last()) {
            Some(name) => before.push(name),
            None => before,
        }
    }
}

/// The names in a list of definitions.
fn names_in(defs: &Vec<Json>) -> (r: Vec<String>)
    ensures
        text::views(r@) == defined_names(text::views(defs@)),
{
    let ghost all = text::views(defs@);
    let mut r: Vec<String> = Vec::new();
    let mut i: usize = 0;
    assert(text::views(r@) =~= defined_names(all.take(0)));
    while i < defs.len()
        invariant
            i <= defs@.len(),
            all == text::views(defs@),
            text::views(r@) == defined_names(all.take(i as int)),
        decreases defs@.len() - i,
    {
        let ghost before = r@;
        proof {
            assert(all.take(i + 1).drop_last() =~= all.take(i as int));
            assert(all.take(i + 1).last() == defs@[i as int]@);
        }
        match defs[i].get("function") {
            Some(f) => match f.get_str("name") {
                Some(name) => {
                    r.push(name.to_owned());
                    assert(text::views(r@) =~= text::views(before).push(name@));
                },
                None => {},
            },
            None => {},
        }
        i = i + 1;
    }
    assert(all.take(i as int) =~= all);
    r
}

/// What a model is told when it calls a tool that does not exist.
pub open spec fn unknown_tool_words(name: Seq<char>) -> Seq<char> {
    "Tool '"@ + name + "' does not exist. Available tools: "@ + text::join(
        defined_names(definitions()),
        ", "@,
    ) + ".\nIf your task matches a skill in the Available Skills catalog (see system prompt), load that skill via read_self first and follow its instructions.\nIf no available tool or skill fits the task, explain clearly what you cannot do rather than guessing tool names."@
}

/// What a model is told when it calls a tool that does not exist.
pub fn unknown_tool(name: &str) -> (r: String)
    ensures
        r@ == unknown_tool_words(name@),
{
    let defs = tool_definitions();
    let names = names_in(&defs);
    let available = joined(&names, ", ");
    let mut r = "Tool '".to_owned();
    r.append(name);
    r.append("' does not exist. Available tools: ");
    r.append(available.as_str());
    r.append(
        ".\nIf your task matches a skill in the Available Skills catalog (see system prompt), load that skill via read_self first and follow its instructions.\nIf no available tool or skill fits the task, explain clearly what you cannot do rather than guessing tool names.",
    );
    r
}

/// What becomes of a call of a tool, `A` being the arguments as they were parsed.
pub enum CallPlan<A> {
    /// The tool is run on its arguments.
    Run(ToolKind, A),
    /// There is no such tool. No tool is run, and this is told.
    Unknown(String),
    /// The arguments are not those of the tool. No tool is run, and this is told.
    BadArguments(String),
}

/// What becomes of a call, over mathematical sequences.
pub enum PlanView<A> {
    Run(ToolKind, A),
    Unknown(Seq<char>),
    BadArguments(Seq<char>),
}

impl<A> View for CallPlan<A> {
    type V = PlanView<A>;

    open spec fn view(&self) -> PlanView<A> {
        match self {
            CallPlan::Run(kind, args) => PlanView::Run(*kind, *args),
            CallPlan::Unknown(told) => PlanView::Unknown(told@),
            CallPlan::BadArguments(told) => PlanView::BadArguments(told@),
        }
    }
}

/// What becomes of a call of the tool `name`, given what came of parsing its arguments.
pub open spec fn plan_of<A>(name: Seq<char>, parsed: Result<A, Seq<char>>) -> PlanView<A> {
    match kind_of(name) {
        None => PlanView::Unknown(unknown_tool_words(name)),
        Some(kind) => match parsed {
            Ok(args) => PlanView::Run(kind, args),
            Err(e) => PlanView::BadArguments(e),
        },
    }
}

/// The view of what came of parsing.
pub open spec fn parsed_view<A>(parsed: Result<A, String>) -> Result<A, Seq<char>> {
    match parsed {
        Ok(args) => Ok(args),
        Err(e) => Err(e@),
    }
}

/// What becomes of a call of the tool `name`, given what came of parsing its arguments.
pub fn plan_call<A>(name: &str, parsed: Result<A, String>) -> (r: CallPlan<A>)
    ensures
        r@ == plan_of(name@, parsed_view(parsed)),
{
    match tool_named(name) {
        None => CallPlan::Unknown(unknown_tool(name)),
        Some(kind) => match parsed {
            Ok(args) => CallPlan::Run(kind, args),
            Err(e) => CallPlan::BadArguments(e),
        },
    }
}

/// A call is told that there is no such tool exactly when no definition has its name.
/// A tool is run exactly when there is one and its arguments could be parsed.
pub proof fn law_only_sound_calls_run<A>(name: Seq<char>, parsed: Result<A, Seq<char>>)
    ensures
        plan_of(name, parsed) is Unknown <==> !defined_names(definitions()).contains(name),
        plan_of(name, parsed) is Run <==> defined_names(definitions()).contains(name)
            && parsed is Ok,
        parsed matches Err(e) ==> plan_of(name, parsed) == (if defined_names(
            definitions(),
        ).contains(name) {
            PlanView::<A>::BadArguments(e)
        } else {
            PlanView::<A>::Unknown(unknown_tool_words(name))
        }),
{
    law_definitions_match_dispatch(name);
}

/// The definitions are those of the tools that a call can mean.
pub proof fn law_definitions_match_dispatch(name: Seq<char>)
    ensures
        defined_names(definitions()) == seq![
            "read_self"@,
            "write_self"@,
            "update_task"@,
            "search_self"@,
            "run_bash"@,
        ],
        kind_of(name) is Some <==> defined_names(definitions()).contains(name),
{
    let defs = definitions();
    let names = seq!["read_self"@, "write_self"@, "update_task"@, "search_self"@, "run_bash"@];
    lemma_defined_name(read_definition());
    lemma_defined_name(write_definition());
    lemma_defined_name(update_definition(update_words_streaming()));
    lemma_defined_name(search_definition());
    lemma_defined_name(bash_definition());
    assert forall|i: int| 0 <= i < 5 implies defined_name(#[trigger] defs[i]) == Some(names[i]) by {
    }
    lemma_defined_names(defs, names, 5);
    assert(defs.take(5) =~= defs);
    assert(names.take(5) =~= names);
    if kind_of(name) is Some {
        assert(names[0] == name || names[1] == name || names[2] == name || names[3] == name
            || names[4] == name);
    }
}

proof fn lemma_defined_name(d: DefinitionView)
    ensures
        defined_name(function_json(d)) == Some(d.name),
{
    reveal_strlit("type");
    reveal_strlit("function");
    let entries = function_json(d)->Object_0;
    assert("type"@.len() != "function"@.len());
    assert(entries.drop_first()[0] == entries[1]);
    reveal_with_fuel(json::lookup, 3);
}

proof fn lemma_defined_names(defs: Seq<JsonView>, names: Seq<Seq<char>>, n: int)
    requires
        0 <= n <= defs.len() == names.len(),
        forall|i: int| 0 <= i < defs.len() ==> defined_name(#[trigger] defs[i]) == Some(names[i]),
    ensures
        defined_names(defs.take(n)) == names.take(n),
    decreases n,
{
    if n > 0 {
        lemma_defined_names(defs, names, n - 1);
        assert(defs.take(n).drop_last() =~= defs.take(n - 1));
        assert(names.take(n) =~= names.take(n - 1).push(names[n - 1]));
        assert(defs.take(n).last() == defs[n - 1]);
    } else {
        assert(defs.take(0) =~= Seq::empty());
        assert(names.take(0) =~= Seq::empty());
    }
}

// The tools, told by what they are given and what they answer.

/// What a command wrote is reported: the output, the errors behind a heading of their own,
/// or both. Where it wrote nothing, its exit code is told.
pub proof fn law_command_output(out: Seq<char>, err: Seq<char>, code: Option<i32>)
    ensures
        out.len() > 0 && err.len() == 0 ==> output_of(out, err, code) == out,
        out.len() == 0 && err.len() > 0 ==> output_of(out, err, code) == "--- stderr ---\n"@ + err,
        out.len() > 0 && err.len() > 0 ==> output_of(out, err, code) == out
            + "\n--- stderr ---\n"@ + err,
        out.len() == 0 && err.len() == 0 ==> output_of(out, err, code) == (match code {
            Some(c) => "Command exited with code Some("@ + text::decimal_int(c as int) + ")"@,
            None => "Command exited with code None"@,
        }),
{
}

/// An output of at most 8192 bytes is kept as it is. Of a longer one as many characters are
/// kept as fit, and a note says that it was cut off.
pub proof fn law_long_output_is_cut(s: Seq<char>)
    ensures
        text::byte_len(s) <= 8192 ==> truncated(s) == s,
        text::byte_len(s) > 8192 ==> exists|k: int|
            {
                &&& 0 <= k < s.len()
                &&& text::byte_len(#[trigger] s.take(k)) <= 8192
                &&& text::byte_len(s.take(k + 1)) > 8192
                &&& truncated(s) == s.take(k) + "\n... (output truncated)"@
            },
{
    bytes::law_first_bytes(s, 8192);
    let k = bytes::first_bytes(s, 8192).len() as int;
    if text::byte_len(s) > 8192 {
        if k == s.len() {
            assert(s.take(k) =~= s);
        }
        assert(text::byte_len(s.take(k)) <= 8192);
    }
}

/// Each of the five names means its tool, and no other name means any.
pub proof fn law_names_of_tools(name: Seq<char>)
    ensures
        kind_of("read_self"@) == Some(ToolKind::Read),
        kind_of("write_self"@) == Some(ToolKind::Write),
        kind_of("update_task"@) == Some(ToolKind::Update),
        kind_of("search_self"@) == Some(ToolKind::Search),
        kind_of("run_bash"@) == Some(ToolKind::Bash),
        kind_of(name) is Some ==> name == "read_self"@ || name == "write_self"@ || name
            == "update_task"@ || name == "search_self"@ || name == "run_bash"@,
{
    reveal_strlit("read_self");
    reveal_strlit("search_self");
    reveal_strlit("write_self");
    reveal_strlit("update_task");
    reveal_strlit("run_bash");
    assert("read_self"@.len() == 9);
    assert("search_self"@[0] == 's' && "update_task"@[0] == 'u');
    assert("write_self"@.len() == 10 && "run_bash"@.len() == 8);
}

/// A call of a tool with arguments that could be parsed runs that tool on them.
pub proof fn law_call_runs_its_tool<A>(name: Seq<char>, kind: ToolKind, args: A)
    ensures
        kind_of(name) == Some(kind) ==> plan_of(name, Ok::<A, Seq<char>>(args)) == PlanView::Run(
            kind,
            args,
        ),
{
}

/// The matches of a search are shown one after the other, each under its path, with a rule
/// between them.
pub proof fn law_matches_are_shown(matches: Seq<memory::MatchView>, m: memory::MatchView)
    ensures
        ({
            let shown = "## "@ + m.path + "\n"@ + m.snippet;
            &&& matches_text(Seq::empty()) == "No matches found."@
            &&& matches_text(seq![m]) == shown
            &&& matches.len() > 0 ==> matches_text(matches.push(m)) == matches_text(matches)
                + "\n\n---\n\n"@ + shown
        }),
{
    let one = seq![m].map_values(|m: memory::MatchView| match_text(m));
    assert(one =~= seq![match_text(m)]);
    let all = matches.push(m).map_values(|m: memory::MatchView| match_text(m));
    let low = matches.map_values(|m: memory::MatchView| match_text(m));
    assert(all.drop_last() =~= low);
    assert(all.last() == match_text(m));
}

/// A model that calls a tool that does not exist is told so, by its name, and which tools
/// there are.
pub proof fn law_unknown_tool_is_told(name: Seq<char>)
    ensures
        unknown_tool_words(name) == "Tool '"@ + name + "' does not exist. Available tools: "@
            + text::join(
            seq!["read_self"@, "write_self"@, "update_task"@, "search_self"@, "run_bash"@],
            ", "@,
        )
            + ".\nIf your task matches a skill in the Available Skills catalog (see system prompt), load that skill via read_self first and follow its instructions.\nIf no available tool or skill fits the task, explain clearly what you cannot do rather than guessing tool names."@,
{
    law_definitions_match_dispatch(name);
}

/// Whether a tool says that it takes an argument of that kind, and in these words.
pub open spec fn takes(
    d: DefinitionView,
    key: Seq<char>,
    kind: Seq<char>,
    words: Seq<char>,
) -> bool {
    match d.parameters.field("properties"@) {
        Some(properties) => match properties.field(key) {
            Some(schema) => schema.field("type"@) == Some(JsonView::Str(kind)) && schema.field(
                "description"@,
            ) == Some(JsonView::Str(words)),
            None => false,
        },
        None => false,
    }
}

/// Whether a tool says that it takes so many arguments, and which of them it needs.
pub open spec fn needs(d: DefinitionView, count: nat, required: Seq<Seq<char>>) -> bool {
    &&& d.parameters.field("type"@) == Some(JsonView::Str("object"@))
    &&& d.parameters.field("properties"@) matches Some(JsonView::Object(p)) && p.len() == count
    &&& d.parameters.field("required"@) == Some(
        JsonView::Array(required.map_values(|t: Seq<char>| JsonView::Str(t))),
    )
}

proof fn lemma_schema(arguments: Seq<(Seq<char>, JsonView)>, required: Seq<Seq<char>>)
    ensures
        ({
            let s = schema(arguments, required);
            &&& s.field("type"@) == Some(JsonView::Str("object"@))
            &&& s.field("properties"@) == Some(JsonView::Object(arguments))
            &&& s.field("required"@) == Some(
                JsonView::Array(required.map_values(|t: Seq<char>| JsonView::Str(t))),
            )
        }),
{
    reveal_strlit("type");
    reveal_strlit("properties");
    reveal_strlit("required");
    assert("type"@.len() == 4 && "properties"@.len() == 10 && "required"@.len() == 8);
    reveal_with_fuel(json::lookup, 4);
    let e = schema(arguments, required)->Object_0;
    assert(e.drop_first()[0] == e[1]);
    assert(e.drop_first().drop_first()[0] == e[2]);
    assert(strings(required) =~= required.map_values(|t: Seq<char>| JsonView::Str(t)));
}

proof fn lemma_first_argument(
    key: Seq<char>,
    value: JsonView,
    rest: Seq<(Seq<char>, JsonView)>,
)
    ensures
        JsonView::Object(seq![(key, value)] + rest).field(key) == Some(value),
{
    let e = seq![(key, value)] + rest;
    assert(e[0] == (key, value));
}

proof fn lemma_second_argument(
    other: (Seq<char>, JsonView),
    key: Seq<char>,
    value: JsonView,
)
    requires
        other.0 != key,
    ensures
        JsonView::Object(seq![other, (key, value)]).field(key) == Some(value),
{
    let e = seq![other, (key, value)];
    assert(e.drop_first()[0] == e[1]);
    reveal_with_fuel(json::lookup, 3);
}

proof fn lemma_argument(kind: Seq<char>, words: Seq<char>)
    ensures
        argument(kind, words).field("type"@) == Some(JsonView::Str(kind)),
        argument(kind, words).field("description"@) == Some(JsonView::Str(words)),
{
    reveal_strlit("type");
    reveal_strlit("description");
    assert("type"@.len() == 4 && "description"@.len() == 11);
    reveal_with_fuel(json::lookup, 3);
    let e = argument(kind, words)->Object_0;
    assert(e.drop_first()[0] == e[1]);
}

/// Each tool is described with the arguments that it takes, of their kinds, and with those
/// that it needs.
pub proof fn law_tools_name_their_arguments(words: Seq<char>)
    ensures
        takes(
            read_definition(),
            "path"@,
            "string"@,
            "Absolute path, or relative path to the file (e.g. memory/daily/2026-05-09.md)"@,
        ),
        needs(read_definition(), 1, seq!["path"@]),
        takes(
            write_definition(),
            "path"@,
            "string"@,
            "Relative path to write, e.g. memory/tasks/pending.md"@,
        ),
        takes(write_definition(), "content"@, "string"@, "Full Markdown content to write"@),
        needs(write_definition(), 2, seq!["path"@, "content"@]),
        takes(
            update_definition(words),
            "search"@,
            "string"@,
            "Text to find in the pending task line"@,
        ),
        takes(
            update_definition(words),
            "status"@,
            "string"@,
            "'done' marks complete, 'undo' unmarks"@,
        ),
        needs(update_definition(words), 2, seq!["search"@, "status"@]),
        takes(search_definition(), "query"@, "string"@, "Keyword or phrase to search for"@),
        needs(search_definition(), 1, seq!["query"@]),
        takes(bash_definition(), "command"@, "string"@, "The bash command to execute"@),
        takes(
            bash_definition(),
            "timeout_secs"@,
            "integer"@,
            "Optional timeout in seconds (default 30)"@,
        ),
        needs(bash_definition(), 2, seq!["command"@]),
        update_definition(words).description == words,
        ({
            let properties = update_definition(words).parameters.field("properties"@)->0;
            let status = properties.field("status"@)->0;
            status.field("enum"@) == Some(
                JsonView::Array(seq![JsonView::Str("done"@), JsonView::Str("undo"@)]),
            )
        }),
{
    law_tools_are_functions(
        DefinitionView {
            name: words,
            description: "'done' marks complete, 'undo' unmarks"@,
            parameters: JsonView::Null,
        },
    );
    lemma_argument(
        "string"@,
        "Absolute path, or relative path to the file (e.g. memory/daily/2026-05-09.md)"@,
    );
    lemma_argument("string"@, "Relative path to write, e.g. memory/tasks/pending.md"@);
    lemma_argument("string"@, "Full Markdown content to write"@);
    lemma_argument("string"@, "Text to find in the pending task line"@);
    lemma_argument("string"@, "Keyword or phrase to search for"@);
    lemma_argument("string"@, "The bash command to execute"@);
    lemma_argument("integer"@, "Optional timeout in seconds (default 30)"@);
    reveal_strlit("path");
    reveal_strlit("content");
    reveal_strlit("search");
    reveal_strlit("status");
    reveal_strlit("command");
    reveal_strlit("timeout_secs");
    assert("path"@.len() == 4 && "content"@.len() == 7);
    assert("search"@[1] == 'e' && "status"@[1] == 't');
    assert("command"@.len() == 7 && "timeout_secs"@.len() == 12);
    let r = read_definition().parameters->Object_0[1].1->Object_0;
    lemma_schema(r, seq!["path"@]);
    lemma_first_argument(r[0].0, r[0].1, Seq::empty());
    assert(seq![(r[0].0, r[0].1)] + Seq::<(Seq<char>, JsonView)>::empty() =~= r);
    let w = write_definition().parameters->Object_0[1].1->Object_0;
    lemma_schema(w, seq!["path"@, "content"@]);
    lemma_first_argument(w[0].0, w[0].1, seq![w[1]]);
    assert(seq![(w[0].0, w[0].1)] + seq![w[1]] =~= w);
    lemma_second_argument(w[0], w[1].0, w[1].1);
    assert(seq![w[0], (w[1].0, w[1].1)] =~= w);
    let u = update_definition(words).parameters->Object_0[1].1->Object_0;
    lemma_schema(u, seq!["search"@, "status"@]);
    lemma_first_argument(u[0].0, u[0].1, seq![u[1]]);
    assert(seq![(u[0].0, u[0].1)] + seq![u[1]] =~= u);
    lemma_second_argument(u[0], u[1].0, u[1].1);
    assert(seq![u[0], (u[1].0, u[1].1)] =~= u);
    let s = search_definition().parameters->Object_0[1].1->Object_0;
    lemma_schema(s, seq!["query"@]);
    lemma_first_argument(s[0].0, s[0].1, Seq::empty());
    assert(seq![(s[0].0, s[0].1)] + Seq::<(Seq<char>, JsonView)>::empty() =~= s);
    let b = bash_definition().parameters->Object_0[1].1->Object_0;
    lemma_schema(b, seq!["command"@]);
    lemma_first_argument(b[0].0, b[0].1, seq![b[1]]);
    assert(seq![(b[0].0, b[0].1)] + seq![b[1]] =~= b);
    lemma_second_argument(b[0], b[1].0, b[1].1);
    assert(seq![b[0], (b[1].0, b[1].1)] =~= b);
}

/// A provider is told of each tool as a function: its name, what it is for, and its
/// arguments. The two statuses of a task are the choices for one.
pub proof fn law_tools_are_functions(d: DefinitionView)
    ensures
        ({
            let j = function_json(d);
            let function = j.field("function"@)->0;
            &&& j.field("type"@) == Some(JsonView::Str("function"@))
            &&& j.field("function"@) is Some
            &&& function.field("name"@) == Some(JsonView::Str(d.name))
            &&& function.field("description"@) == Some(JsonView::Str(d.description))
            &&& function.field("parameters"@) == Some(d.parameters)
        }),
        definitions() == seq![
            function_json(read_definition()),
            function_json(write_definition()),
            function_json(update_definition(update_words_streaming())),
            function_json(search_definition()),
            function_json(bash_definition()),
        ],
        choice("done"@, "undo"@, d.description).field("enum"@) == Some(
            JsonView::Array(seq![JsonView::Str("done"@), JsonView::Str("undo"@)]),
        ),
        choice("done"@, "undo"@, d.description).field("type"@) == Some(JsonView::Str("string"@)),
        choice("done"@, "undo"@, d.description).field("description"@) == Some(
            JsonView::Str(d.description),
        ),
{
    reveal_strlit("type");
    reveal_strlit("function");
    reveal_strlit("name");
    reveal_strlit("description");
    reveal_strlit("parameters");
    reveal_strlit("enum");
    assert("type"@.len() == 4 && "function"@.len() == 8);
    assert("name"@.len() == 4 && "description"@.len() == 11 && "parameters"@.len() == 10);
    assert("type"@[0] == 't' && "enum"@[0] == 'e');
    reveal_with_fuel(json::lookup, 4);
    let e = function_json(d)->Object_0;
    assert(e.drop_first()[0] == e[1]);
    let f = e[1].1->Object_0;
    assert(f.drop_first()[0] == f[1]);
    assert(f.drop_first().drop_first()[0] == f[2]);
    let c = choice("done"@, "undo"@, d.description)->Object_0;
    assert(c.drop_first()[0] == c[1]);
    assert(c.drop_first().drop_first()[0] == c[2]);
}

/// What each tool is for is told to the model in these words.
pub proof fn law_tools_are_described()
    ensures
        read_definition().name == "read_self"@,
        read_definition().description
            == "Read a file from the workspace. Accepts absolute paths or paths relative to the repository root."@,
        write_definition().name == "write_self"@,
        write_definition().description
            == "Atomically write content to a file. Creates parent directories automatically. Path is relative to the repository root."@,
        update_definition(Seq::empty()).name == "update_task"@,
        update_words()
            == "Update a task's status in tasks/pending.md. Searches for a line containing the search text and replaces `[ ]` with `[x]` (or vice versa if status is 'undo'). Status must be 'done' or 'undo'."@,
        update_words_streaming()
            == "Update a task's status in memory/tasks/pending.md. Searches for a line containing the search text and replaces `[ ]` with `[x]` (or vice versa if status is 'undo'). Status must be 'done' or 'undo'."@,
        search_definition().name == "search_self"@,
        search_definition().description
            == "Search all Markdown files in the workspace for a keyword. Returns matching file paths and content snippets."@,
        bash_definition().name == "run_bash"@,
        bash_definition().description
            == "Execute a bash command and return stdout+stderr. Runs from the workspace directory. Max output 8KB. Use for system operations: check disk, list files, run scripts, etc. Avoid destructive commands (rm -rf, etc)."@,
        DEFAULT_TIMEOUT == 30,
        MAX_TIMEOUT == 120,
{
}

/// What came of parsing is seen as it is.
pub proof fn law_parsed_view<A>(args: A, e: String)
    ensures
        parsed_view(Ok::<A, String>(args)) == Ok::<A, Seq<char>>(args),
        parsed_view(Err::<A, String>(e)) == Err::<A, Seq<char>>(e@),
{
}

} // verus!
