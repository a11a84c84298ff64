use gateway::memory::{
    can_snip, checked_search, checked_snippet, file_match, memory_dir, relative_path, resolve_path, search_memory,
    snippet_around, snippet_with, visit, MemoryFile, Visit,
};

fn file(path: &str, content: &str) -> MemoryFile {
    MemoryFile { path: path.to_string(), content: content.to_string() }
}

#[test]
fn test_resolve_path_rejects_traversal() {
    assert!(resolve_path("./memory", "../etc/passwd").is_err());
    assert!(resolve_path("./memory", "foo/../../bar").is_err());
}

#[test]
fn test_snippet_around() {
    let s = snippet_around("The quick brown fox jumps over the lazy dog", "fox", 20);
    assert!(s.contains("fox"));
}

#[test]
fn rejection_names_the_path() {
    match resolve_path("./memory", "a/..") {
        Err(e) => assert_eq!(e.message(), "Path traversal rejected: a/.."),
        Ok(_) => panic!("expected rejection"),
    }
    // Two dots are rejected wherever they stand.
    assert!(resolve_path("./memory", "a..md").is_err());
}

#[test]
fn paths_are_resolved_below_the_base() {
    assert_eq!(resolve_path("./memory", "tasks/pending.md").unwrap(), "./memory/tasks/pending.md");
    assert_eq!(resolve_path("mem/", "a.md").unwrap(), "mem/a.md");
    assert_eq!(resolve_path("", "a.md").unwrap(), "a.md");
    assert_eq!(resolve_path("./memory", "/etc/hosts").unwrap(), "/etc/hosts");
    assert_eq!(resolve_path("./memory", "").unwrap(), "./memory/");
}

#[test]
fn resolved_paths_do_not_climb() {
    for base in ["./memory", "/srv/m/", "", "a."] {
        for path in ["a.md", ".hidden", "d/e.md", "/abs"] {
            assert!(!resolve_path(base, path).unwrap().contains(".."));
        }
    }
}

#[test]
fn base_directory_has_a_default() {
    assert_eq!(memory_dir(None), "./memory");
    assert_eq!(memory_dir(Some("/srv".to_string())), "/srv");
}

#[test]
fn walk_reads_markdown_only() {
    assert_eq!(visit(true, "notes.md"), Visit::Descend);
    assert_eq!(visit(false, "notes.md"), Visit::Read);
    assert_eq!(visit(false, "..md"), Visit::Read);
    assert_eq!(visit(false, ".md"), Visit::Pass);
    assert_eq!(visit(false, "notes.MD"), Visit::Pass);
    assert_eq!(visit(false, "notesmd"), Visit::Pass);
    assert_eq!(visit(false, ""), Visit::Pass);
}

#[test]
fn relative_paths() {
    assert_eq!(relative_path("./memory", "./memory/daily/a.md"), "daily/a.md");
    assert_eq!(relative_path("mem/", "mem/a.md"), "a.md");
    assert_eq!(relative_path("mem", "memory/a.md"), "memory/a.md");
    assert_eq!(relative_path("mem", "other/a.md"), "other/a.md");
    assert_eq!(relative_path("/", "/a.md"), "a.md");
}

#[test]
fn relative_undoes_join() {
    for base in ["./memory", "mem/", "/"] {
        let full = resolve_path(base, "x/y.md").unwrap();
        assert_eq!(relative_path(base, &full), "x/y.md");
    }
}

#[test]
fn snippet_is_cut_to_the_radius() {
    assert_eq!(
        snippet_around("The quick brown fox jumps over the lazy dog", "fox", 20),
        "…ick brown fox jumps ove…"
    );
    assert_eq!(snippet_around("The quick brown fox", "THE", 10), "The quic…");
    assert_eq!(snippet_around("a fox", "fox", 100), "a fox");
    assert_eq!(snippet_around("abcdefgh", "zzz", 2), "abcd");
    assert_eq!(snippet_around("ab", "zzz", 2), "ab");
}

#[test]
fn snippet_ignores_case() {
    assert_eq!(snippet_around("xxFOXxx", "fOx", 2), "…xFOXx…");
    assert_eq!(snippet_around("ÄÖÜ straße", "äöü", 100), "ÄÖÜ straße");
}

#[test]
fn snippet_inside_a_character_is_refused() {
    // The cut would fall into the middle of a letter of two bytes.
    assert_eq!(checked_snippet("ééfox", "fox", 2), None);
    assert_eq!(checked_snippet("ééfox", "fox", 4), Some("…éfox".to_string()));
    assert_eq!(checked_snippet("plain fox", "fox", 4), Some("…n fox".to_string()));
    assert_eq!(checked_snippet("no match", "fox", usize::MAX), None);
}

#[test]
fn snippet_goes_by_the_lower_case_text() {
    assert!(can_snip("ABC", "b", "abc", "b", 2));
    assert_eq!(snippet_with("ABC", "b", "abc", "b", 2), "ABC");
    // A lower-case text that is longer than the text leads past its end.
    assert!(!can_snip("ABC", "b", "xxxxxxxxb", "b", 2));
    assert_eq!(snippet_with("ABC", "b", "zzz", "b", 1), "AB");
}

#[test]
fn search_finds_and_sorts() {
    let files = vec![
        file("./memory/z.md", "Buy MILK today"),
        file("./memory/daily/a.md", "milk and honey"),
        file("./memory/b.md", "nothing here"),
    ];
    let found = search_memory("./memory", &files, "Milk");
    assert_eq!(found.len(), 2);
    assert_eq!(found[0].path, "daily/a.md");
    assert_eq!(found[0].snippet, "milk and honey");
    assert_eq!(found[1].path, "z.md");
    assert_eq!(found[1].snippet, "Buy MILK today");
    assert!(search_memory("./memory", &files, "bread").is_empty());
    assert!(search_memory("./memory", &Vec::new(), "milk").is_empty());
}

#[test]
fn search_reaches_half_the_radius_to_either_side() {
    let long = format!("{}needle{}", "a".repeat(100), "b".repeat(100));
    let found = search_memory("m", &vec![file("m/x.md", &long)], "needle");
    assert_eq!(found[0].snippet, format!("…{}needle{}…", "a".repeat(60), "b".repeat(60)));
}

#[test]
fn equal_paths_stay_in_their_order() {
    let files = vec![file("m/x.md", "one fox"), file("m/x.md", "two fox")];
    let found = search_memory("m", &files, "fox");
    assert_eq!(found[0].snippet, "one fox");
    assert_eq!(found[1].snippet, "two fox");
}

#[test]
fn search_that_cannot_cut_is_refused() {
    let shifted = format!("{}x{}", "é".repeat(40), "fox");
    let files = vec![file("m/x.md", &shifted)];
    assert!(checked_search("m", &files, "fox").is_none());
    let files = vec![file("m/x.md", "a fox")];
    let found = checked_search("m", &files, "fox").unwrap();
    assert_eq!(found.len(), 1);
    // A file without a match is in nobody's way.
    let files = vec![file("m/x.md", &"é".repeat(200))];
    assert_eq!(checked_search("m", &files, "fox").unwrap().len(), 0);
}

#[test]
fn plain_texts_are_never_refused() {
    let long = format!("{}NEEDLE{}", "Ab ".repeat(50), "c".repeat(100));
    for radius in [0, 1, 7, 120, 1000] {
        assert!(checked_snippet(&long, "needle", radius).is_some());
    }
    // A radius that is as large as can be doubled.
    assert_eq!(checked_snippet("a FOX", "fox", usize::MAX / 2), Some("a FOX".to_string()));
    assert_eq!(checked_snippet("a FOX", "cat", usize::MAX / 2), Some("a FOX".to_string()));
    assert_eq!(checked_snippet("AB[Z]`@", "b[z]`", 2), Some("AB[Z]`@".to_string()));
    let files = vec![file("m/x.md", &long), file("m/y.md", "")];
    assert_eq!(checked_search("m", &files, "Needle").unwrap().len(), 1);
    assert_eq!(checked_search("m", &files, "").unwrap().len(), 2);
}

#[test]
fn match_in_a_file_goes_by_the_lower_case_text() {
    let f = file("m/x.md", "Fox");
    assert!(file_match("m", &f, "FOX", "fox", "fox").is_some());
    assert!(file_match("m", &f, "FOX", "fox", "cat").is_none());
}
