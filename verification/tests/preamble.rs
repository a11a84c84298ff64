use gateway::cli::{mode_for, parse_args, parse_port, prompt_from_input, read_options, Mode};
use gateway::preamble::{build_full_preamble, note_path, plan_preamble, soul_path};
use gateway::skills::Skill;

fn args(list: &[&str]) -> Vec<String> {
    list.iter().map(|a| a.to_string()).collect()
}

#[test]
fn build_full_preamble_with_custom_soul_path() {
    let preamble = build_full_preamble(Some("Custom AI soul content.".to_string()), "2026-05-09", "", "", &[]);
    assert!(preamble.contains("Custom AI soul content."));
    assert!(preamble.contains("Current Context"));
    assert!(preamble.contains("Tool Usage Guidelines"));
}

#[test]
fn build_full_preamble_missing_soul_falls_back() {
    let preamble = build_full_preamble(None, "2026-05-09", "", "", &[]);
    assert!(preamble.contains("You are a helpful personal assistant."));
    assert!(preamble.contains("Current Context"));
}

#[test]
fn preamble_is_exact() {
    let skill = Skill {
        name: "s".to_string(),
        description: "d".to_string(),
        location: "/s/SKILL.md".to_string(),
        dir: "/s".to_string(),
    };
    let preamble = build_full_preamble(Some("SOUL".to_string()), "2026-05-09", "NOTE", "TASKS", &[skill]);
    assert!(preamble.starts_with(
        "SOUL\n\n---\n\n## Current Context (auto-injected)\n- Today: 2026-05-09\n- Workspace: repository root (all paths are relative to the repo root)\n\n### Today's Note (2026-05-09)\nNOTE\n\n### Pending Tasks\nTASKS\n\n\n## Available Skills\n\n"
    ));
    assert!(preamble.ends_with(
        "`/s`\n\n\n## Tool Usage Guidelines\n- Use `read_self` to read any file (paths relative to repo root, e.g. memory/tasks/pending.md).\n- Use `search_self` to search all Markdown files for keywords.\n- Use `write_self` to create or update a file atomically.\n- Use `update_task` to mark tasks as done/undo in memory/tasks/pending.md.\n- Use `run_bash` to execute shell commands for system operations.\n- Be concise. Use tools proactively. When you lack a tool, check the Skills catalog above.\n"
    ));
}

#[test]
fn plan_names_the_files_of_the_day() {
    let plan = plan_preamble();
    assert_eq!(plan.note, format!("memory/daily/{}.md", plan.today));
    assert_eq!(plan.tasks, "memory/tasks/pending.md");
    assert_eq!(plan.today.len(), 10);
    for (i, c) in plan.today.chars().enumerate() {
        assert!(if i == 4 || i == 7 { c == '-' } else { c.is_ascii_digit() });
    }
    assert_eq!(plan.today, chrono::Local::now().format("%Y-%m-%d").to_string());
    assert!(!plan.note.contains(".."));
    assert_eq!(note_path("2026-05-09"), "memory/daily/2026-05-09.md");
}

#[test]
fn soul_has_a_default_place() {
    assert_eq!(soul_path(None), "./SOUL.md");
    assert_eq!(soul_path(Some("/s.md".to_string())), "/s.md");
}

#[test]
fn http_is_the_default_mode() {
    assert!(matches!(parse_args(&args(&["gateway"])), Mode::Http { port: 8000 }));
    assert!(matches!(parse_args(&Vec::new()), Mode::Http { port: 8000 }));
    assert!(matches!(parse_args(&args(&["gateway", "--mode", "other"])), Mode::Http { port: 8000 }));
    assert!(matches!(parse_args(&args(&["gateway", "--port", "9000"])), Mode::Http { port: 9000 }));
    assert!(matches!(parse_args(&args(&["--port", "9000"])), Mode::Http { port: 8000 }));
    assert!(matches!(parse_args(&args(&["g", "--port", "1", "--port", "2", "x"])), Mode::Http { port: 2 }));
    assert!(matches!(parse_args(&args(&["g", "--port"])), Mode::Http { port: 8000 }));
}

#[test]
fn cron_mode_takes_a_prompt() {
    match parse_args(&args(&["gateway", "--mode", "cron", "--prompt", "sum up"])) {
        Mode::Cron { prompt } => assert_eq!(prompt, "sum up"),
        m => panic!("{m:?}"),
    }
    assert!(matches!(parse_args(&args(&["gateway", "--mode", "cron"])), Mode::CronFromInput));
    // A value may look like a flag.
    match parse_args(&args(&["gateway", "--prompt", "--mode", "--mode", "cron"])) {
        Mode::Cron { prompt } => assert_eq!(prompt, "--mode"),
        m => panic!("{m:?}"),
    }
}

#[test]
fn options_are_read() {
    let o = read_options(&args(&["g", "--mode", "cron", "junk", "--prompt", "p", "--port", "x"]));
    assert_eq!((o.port, o.mode.as_str(), o.prompt.as_str()), (8000, "cron", "p"));
    assert!(matches!(mode_for(o), Mode::Cron { .. }));
}

#[test]
fn ports_are_numbers_that_fit() {
    assert_eq!(parse_port("80"), 80);
    assert_eq!(parse_port("+80"), 80);
    assert_eq!(parse_port("00080"), 80);
    assert_eq!(parse_port("0"), 0);
    assert_eq!(parse_port("65535"), 65535);
    for bad in ["65536", "99999999999999999999", "", "+", "-1", "8a", " 80", "++8", "٣"] {
        assert_eq!(parse_port(bad), 8000);
        assert_eq!(bad.parse::<u16>().unwrap_or(8000), 8000);
    }
}

#[test]
fn prompt_from_input_has_a_default() {
    assert_eq!(prompt_from_input(" do it \n"), "do it");
    assert_eq!(prompt_from_input(" \n"), "Generate a daily summary and update tasks");
    assert_eq!(prompt_from_input(""), "Generate a daily summary and update tasks");
}
