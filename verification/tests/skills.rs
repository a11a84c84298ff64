use gateway::skills::{
    build_catalog, can_read, discover, frontmatter, parse_frontmatter, parse_frontmatter_lenient, scan_dir,
    FrontmatterError, Skill, SkillFile, SkillMeta,
};

fn skill(name: &str, dir: &str) -> Skill {
    Skill {
        name: name.to_string(),
        description: format!("does {name}"),
        location: format!("{dir}/{name}/SKILL.md"),
        dir: format!("{dir}/{name}"),
    }
}

fn names(skills: &[Skill]) -> Vec<String> {
    skills.iter().map(|s| s.name.clone()).collect()
}

#[test]
fn front_matter_stands_between_dashes() {
    assert_eq!(frontmatter("---\nname: a\n---\nbody"), Some("name: a".to_string()));
    assert_eq!(frontmatter("---\r\nname: a\n---\n"), Some("name: a".to_string()));
    assert_eq!(frontmatter("name: a\n---"), Some("name: a".to_string()));
    assert_eq!(frontmatter("---\nname: a\n"), None);
    assert_eq!(frontmatter(""), None);
}

#[test]
fn strict_reading_goes_first() {
    let strict = SkillMeta { name: "s".to_string(), description: "d".to_string() };
    let meta = parse_frontmatter("---\nname: a\ndescription: b\n---\n", Some(strict)).unwrap();
    assert_eq!(meta.name, "s");
    assert_eq!(meta.description, "d");
}

#[test]
fn lenient_reading_copes_with_colons() {
    let meta = parse_frontmatter("---\nname: deploy\ndescription: Use when: always\n---\n", None).unwrap();
    assert_eq!(meta.name, "deploy");
    assert_eq!(meta.description, "Use when: always");
}

#[test]
fn front_matter_errors() {
    let e = parse_frontmatter("---\nname: a\n", None).unwrap_err();
    assert!(e == FrontmatterError::NotClosed);
    assert_eq!(e.message(), "No closing --- for frontmatter");
    let e = parse_frontmatter("---\nname: a\n---\n", None).unwrap_err();
    assert!(e == FrontmatterError::Unreadable);
    assert_eq!(e.message(), "Failed to parse SKILL.md frontmatter (strict and lenient)");
}

#[test]
fn lenient_reading_strips_quotes() {
    let meta = parse_frontmatter_lenient("name: \"a\"\ndescription: 'it is: so'").unwrap();
    assert_eq!(meta.name, "a");
    assert_eq!(meta.description, "it is: so");
    let meta = parse_frontmatter_lenient("name : 'b'\ndescription : \"x'").unwrap();
    assert_eq!(meta.name, "b");
    assert_eq!(meta.description, "\"x'");
}

#[test]
fn last_name_and_first_description_count() {
    let meta = parse_frontmatter_lenient("name: a\ndescription: x\nname: b\ndescription: y").unwrap();
    assert_eq!(meta.name, "b");
    assert_eq!(meta.description, "x");
}

#[test]
fn lenient_reading_needs_both() {
    assert!(parse_frontmatter_lenient("name: a").is_none());
    assert!(parse_frontmatter_lenient("description: a").is_none());
    assert!(parse_frontmatter_lenient("name: a\ndescription: \"\"").is_none());
    assert!(parse_frontmatter_lenient("name: a\ndescription:\ndescription: b").is_none());
    // Keys stand at the start of a line.
    assert!(parse_frontmatter_lenient(" name: a\n description: b").is_none());
}

#[test]
fn lone_quote_cannot_be_read() {
    assert!(!can_read("name: a\ndescription: \""));
    assert!(!can_read("name: a\ndescription: '"));
    assert!(can_read("name: a\ndescription: ''"));
    assert!(can_read("name: a"));
}

#[test]
fn scan_skips_what_it_cannot_read() {
    let files = vec![
        SkillFile {
            path: "./skills/a/SKILL.md".to_string(),
            content: "---\nname: a\ndescription: first\n---\n".to_string(),
            strict: None,
            location: "/w/skills/a/SKILL.md".to_string(),
            dir: "/w/skills/a".to_string(),
        },
        SkillFile {
            path: "./skills/b/SKILL.md".to_string(),
            content: "no front matter".to_string(),
            strict: None,
            location: "/w/skills/b/SKILL.md".to_string(),
            dir: "/w/skills/b".to_string(),
        },
    ];
    let scan = scan_dir(files);
    assert_eq!(names(&scan.skills), vec!["a"]);
    assert_eq!(scan.skills[0].location, "/w/skills/a/SKILL.md");
    assert_eq!(scan.skills[0].dir, "/w/skills/a");
    assert_eq!(scan.notices, vec!["Skipping ./skills/b/SKILL.md: No closing --- for frontmatter"]);
}

#[test]
fn skills_are_sorted_by_name() {
    let found = discover(vec![skill("b", "/p"), skill("a", "/p")], vec![skill("c", "/u"), skill("aa", "/u")]);
    assert_eq!(names(&found), vec!["a", "aa", "b", "c"]);
}

#[test]
fn project_skill_wins() {
    let found = discover(
        vec![skill("b", "/p"), skill("b", "/later")],
        vec![skill("b", "/u"), skill("a", "/u")],
    );
    assert_eq!(names(&found), vec!["a", "b"]);
    assert_eq!(found[1].dir, "/p/b");
    assert_eq!(found[0].dir, "/u/a");
}

#[test]
fn catalog_lists_the_skills() {
    assert_eq!(build_catalog(&[]), "");
    let catalog = build_catalog(&[skill("a", "/p"), skill("b", "/p")]);
    assert!(catalog.starts_with("\n\n## Available Skills\n\nWhen a task matches a skill's description, use `read_self` with the exact absolute path from _location_ to load the SKILL.md before proceeding. Do not construct a relative path — copy the _location_ value verbatim."));
    assert!(catalog.ends_with(
        "- **a**: does a\n  _location_: `/p/a/SKILL.md`\n  _dir_: `/p/a`\n- **b**: does b\n  _location_: `/p/b/SKILL.md`\n  _dir_: `/p/b`\n"
    ));
}
