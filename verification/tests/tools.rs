use gateway::json::Json;
use gateway::memory::SearchMatch;
use gateway::tools::{
    bash_report, plan_call, tasks_path, tool_definitions, tool_named, unknown_tool, BashOutcome, CallPlan, ReadSelf,
    RunBash, RunBashArgs, SearchSelf, ToolKind, UpdateTask, UpdateTaskArgs, WriteArgs, WriteSelf,
};

fn update(search: &str, status: &str, content: &str) -> Result<String, String> {
    let args = UpdateTaskArgs { search: search.to_string(), status: status.to_string() };
    UpdateTask.update(&args, content).map_err(|e| e.message())
}

fn names(defs: &[Json]) -> Vec<String> {
    defs.iter().map(|d| d.get("function").unwrap().get_str("name").unwrap().to_string()).collect()
}

#[test]
fn tools_are_defined_in_the_form_of_functions() {
    let defs = tool_definitions();
    assert_eq!(names(&defs), vec!["read_self", "write_self", "update_task", "search_self", "run_bash"]);
    for d in &defs {
        assert_eq!(d.get_str("type"), Some("function"));
        let f = d.get("function").unwrap();
        assert!(f.get_str("description").is_some());
        let p = f.get("parameters").unwrap();
        assert_eq!(p.get_str("type"), Some("object"));
        for r in p.get("required").unwrap().as_array().unwrap() {
            assert!(p.get("properties").unwrap().get(r.as_str().unwrap()).is_some());
        }
    }
    let status = defs[2].get("function").unwrap().get("parameters").unwrap().get("properties").unwrap().get("status").unwrap();
    let choices = status.get("enum").unwrap().as_array().unwrap();
    assert_eq!(choices[0].as_str(), Some("done"));
    assert_eq!(choices[1].as_str(), Some("undo"));
}

#[test]
fn each_tool_describes_itself() {
    assert_eq!(ReadSelf.definition().name, "read_self");
    assert_eq!(WriteSelf.definition().name, "write_self");
    assert_eq!(UpdateTask.definition().name, "update_task");
    assert!(UpdateTask.definition().description.starts_with("Update a task's status in tasks/pending.md."));
    assert_eq!(SearchSelf.definition().name, "search_self");
    assert_eq!(RunBash.definition().name, "run_bash");
    assert_eq!(
        RunBash.definition().parameters.get("properties").unwrap().get("timeout_secs").unwrap().get_str("type"),
        Some("integer")
    );
}

#[test]
fn every_defined_tool_can_be_called() {
    for name in names(&tool_definitions()) {
        assert!(tool_named(&name).is_some());
    }
    assert!(tool_named("run_bash") == Some(ToolKind::Bash));
    assert!(tool_named("delete_self").is_none());
}

#[test]
fn unknown_tool_is_told_of_the_others() {
    let told = unknown_tool("fly");
    assert!(told.starts_with(
        "Tool 'fly' does not exist. Available tools: read_self, write_self, update_task, search_self, run_bash.\nIf your task matches a skill"
    ));
    assert!(told.ends_with("rather than guessing tool names."));
}

#[test]
fn reading_and_writing_are_answered() {
    assert_eq!(ReadSelf.call(Ok("text".to_string())).ok(), Some("text".to_string()));
    match ReadSelf.call(Err("Path traversal rejected: ..".to_string())) {
        Err(e) => assert_eq!(e.message(), "Read error: Path traversal rejected: .."),
        Ok(_) => panic!("expected error"),
    }
    let args = WriteArgs { path: "a.md".to_string(), content: "x".to_string() };
    assert_eq!(WriteSelf.call(&args, Ok(())).ok(), Some("Written to a.md".to_string()));
    match WriteSelf.call(&args, Err("disk full".to_string())) {
        Err(e) => assert_eq!(e.message(), "Write error: disk full"),
        Ok(_) => panic!("expected error"),
    }
}

#[test]
fn task_is_marked_as_done() {
    let tasks = "# Tasks\n- [ ] buy milk\n- [ ] buy bread\n";
    assert_eq!(update("bread", "done", tasks).unwrap(), "# Tasks\n- [ ] buy milk\n- [x] buy bread\n");
    assert_eq!(update("buy", "done", tasks).unwrap(), "# Tasks\n- [x] buy milk\n- [ ] buy bread\n");
    assert_eq!(update("sell", "done", tasks).unwrap(), tasks);
    assert_eq!(tasks_path(), "memory/tasks/pending.md");
}

#[test]
fn task_is_marked_as_pending_again() {
    let tasks = "- [x] buy milk\r\n- [x] buy bread";
    assert_eq!(update("bread", "undo", tasks).unwrap(), "- [x] buy milk\r\n- [ ] buy bread");
    assert_eq!(update("", "undo", tasks).unwrap(), "- [ ] buy milk\r\n- [x] buy bread");
}

#[test]
fn undo_takes_done_back() {
    let tasks = "- [ ] a\n- [ ] b\n- [ ] c\n";
    let done = update("b", "done", tasks).unwrap();
    assert_eq!(done, "- [ ] a\n- [x] b\n- [ ] c\n");
    assert_eq!(update("b", "undo", &done).unwrap(), tasks);
}

#[test]
fn only_the_line_that_was_found_changes() {
    assert_eq!(update("a", "done", "- [ ] a\n- [ ] ab\n").unwrap(), "- [x] a\n- [ ] ab\n");
    assert_eq!(update("a", "done", "- [ ] a\n- [ ] a\n- [ ] ab\n").unwrap(), "- [x] a\n- [ ] a\n- [ ] ab\n");
    assert_eq!(update("ab", "done", "- [ ] a\n- [ ] ab\n").unwrap(), "- [ ] a\n- [x] ab\n");
    assert_eq!(update("b", "undo", "- [x] a\n- [x] b\n- [x] b\n").unwrap(), "- [x] a\n- [ ] b\n- [x] b\n");
    // Only the first mark of the line changes.
    assert_eq!(update("a", "done", "[ ] a [ ]").unwrap(), "[x] a [ ]");
    let args = UpdateTaskArgs { search: "a".to_string(), status: "done".to_string() };
    assert_eq!(
        UpdateTask.call(&args, Ok(())).ok(),
        Some("Task matching 'a' updated to status 'done'".to_string())
    );
}

#[test]
fn undo_on_the_only_line_restores_the_file() {
    let tasks = "# milk\r\n- [ ] buy [ ] bread  \n* [x] other\n\n";
    let done = update("bread", "done", tasks).unwrap();
    assert_eq!(done, "# milk\r\n- [x] buy [ ] bread  \n* [x] other\n\n");
    assert_eq!(update("bread", "undo", &done).unwrap(), tasks);
}

#[test]
fn undo_may_find_an_earlier_line() {
    // An earlier task that was done already is the one that is found again.
    let tasks = "- [x] a\n- [ ] a\n";
    let done = update("a", "done", tasks).unwrap();
    assert_eq!(done, "- [x] a\n- [x] a\n");
    assert_eq!(update("a", "undo", &done).unwrap(), "- [ ] a\n- [x] a\n");
}

#[test]
fn calls_are_planned() {
    match plan_call("run_bash", Ok(7)) {
        CallPlan::Run(kind, args) => {
            assert!(kind == ToolKind::Bash);
            assert_eq!(args, 7);
        }
        _ => panic!("the tool should run"),
    }
    match plan_call::<u8>("run_bash", Err("no JSON".to_string())) {
        CallPlan::BadArguments(e) => assert_eq!(e, "no JSON"),
        _ => panic!("the tool should not run"),
    }
    match plan_call("fly", Ok(7)) {
        CallPlan::Unknown(told) => assert_eq!(told, unknown_tool("fly")),
        _ => panic!("there is no such tool"),
    }
    match plan_call::<u8>("fly", Err("no JSON".to_string())) {
        CallPlan::Unknown(told) => assert!(told.starts_with("Tool 'fly' does not exist.")),
        _ => panic!("there is no such tool"),
    }
}

#[test]
fn update_changes_marks_only() {
    let tasks = "- [ ] a  b\n\n- [x] c\n";
    for (search, status) in [("a", "done"), ("c", "undo"), ("z", "done")] {
        let after = update(search, status, tasks).unwrap();
        assert_eq!(after.len(), tasks.len());
        assert_eq!(after.replace('x', " "), tasks.replace('x', " "));
    }
}

#[test]
fn other_status_is_invalid() {
    assert_eq!(update("a", "later", "- [ ] a").unwrap_err(), "Task update error: Invalid status: later");
    assert!(update("a", "DONE", "- [ ] a").is_err());
}

#[test]
fn update_is_answered() {
    let args = UpdateTaskArgs { search: "milk".to_string(), status: "done".to_string() };
    assert_eq!(
        UpdateTask.call(&args, Ok(())).ok(),
        Some("Task matching 'milk' updated to status 'done'".to_string())
    );
    match UpdateTask.call(&args, Err("no".to_string())) {
        Err(e) => assert_eq!(e.message(), "Task update error: no"),
        Ok(_) => panic!("expected error"),
    }
}

#[test]
fn matches_are_shown() {
    let found = vec![
        SearchMatch { path: "a.md".to_string(), snippet: "one".to_string() },
        SearchMatch { path: "b.md".to_string(), snippet: "two".to_string() },
    ];
    assert_eq!(SearchSelf.call(Ok(found)).ok(), Some("## a.md\none\n\n---\n\n## b.md\ntwo".to_string()));
    assert_eq!(SearchSelf.call(Ok(Vec::new())).ok(), Some("No matches found.".to_string()));
    match SearchSelf.call(Err("unreadable".to_string())) {
        Err(e) => assert_eq!(e.message(), "Search error: unreadable"),
        Ok(_) => panic!("expected error"),
    }
}

#[test]
fn timeouts_are_bounded() {
    let t = |secs| RunBash.timeout(&RunBashArgs { command: "ls".to_string(), timeout_secs: secs });
    assert_eq!(t(None), 30);
    assert_eq!(t(Some(0)), 0);
    assert_eq!(t(Some(5)), 5);
    assert_eq!(t(Some(120)), 120);
    assert_eq!(t(Some(u64::MAX)), 120);
}

#[test]
fn output_is_reported() {
    assert_eq!(bash_report("out", "", Some(0)), "out");
    assert_eq!(bash_report("out", "err", Some(0)), "out\n--- stderr ---\nerr");
    assert_eq!(bash_report("", "err", Some(1)), "--- stderr ---\nerr");
    assert_eq!(bash_report("", "", Some(0)), "Command exited with code Some(0)");
    assert_eq!(bash_report("", "", Some(-15)), "Command exited with code Some(-15)");
    assert_eq!(bash_report("", "", None), "Command exited with code None");
}

#[test]
fn long_output_is_cut_off() {
    let exact = "a".repeat(8192);
    assert_eq!(bash_report(&exact, "", Some(0)), exact);
    let long = "a".repeat(8193);
    assert_eq!(bash_report(&long, "", Some(0)), format!("{exact}\n... (output truncated)"));
    // The cut does not fall into a character.
    let wide = format!("a{}", "é".repeat(5000));
    let cut = bash_report(&wide, "", Some(0));
    assert_eq!(cut, format!("a{}\n... (output truncated)", "é".repeat(4095)));
}

#[test]
fn command_is_answered() {
    let done = BashOutcome::Finished { stdout: vec![0x68, 0x69, 0xff], stderr: Vec::new(), code: Some(0) };
    assert_eq!(RunBash.call(done).ok(), Some("hi\u{fffd}".to_string()));
    match RunBash.call(BashOutcome::TimedOut) {
        Err(e) => assert_eq!(e.message(), "Bash error: Command timed out"),
        Ok(_) => panic!("expected error"),
    }
    match RunBash.call(BashOutcome::Failed("no bash".to_string())) {
        Err(e) => assert_eq!(e.message(), "Bash error: Failed to execute: no bash"),
        Ok(_) => panic!("expected error"),
    }
}
