use fixtures::types::{
    BranchDef, CommitDef, ExpectDef, FixtureDef, GenerateDef, Meta, PackageDef, TagDef,
};
use fixtures::validate::{check_definition, definition_files, validation_report, DefinitionOutcome};

fn def(name: &str, description: &str) -> FixtureDef {
    FixtureDef {
        meta: Meta {
            name: name.to_string(),
            description: description.to_string(),
            default_branch: None,
        },
        config: None,
        packages: Vec::new(),
        commits: Vec::new(),
        tags: Vec::new(),
        branches: Vec::new(),
        hooks: Vec::new(),
        generate: None,
        expect: Some(ExpectDef {
            check_contains: Vec::new(),
            check_not_contains: Vec::new(),
            output_order: Vec::new(),
            packages_released: None,
        }),
    }
}

fn tag(name: &str, at: i32) -> TagDef {
    TagDef { name: name.to_string(), at_commit: at }
}

fn commit(message: &str) -> CommitDef {
    CommitDef { message: message.to_string(), files: vec!["a.txt".to_string()], merge: false }
}

fn branch(name: &str, from: Option<&str>, at: Option<i32>, merge: Option<&str>) -> BranchDef {
    BranchDef {
        name: name.to_string(),
        from: from.map(|s| s.to_string()),
        at_commit: at,
        commits: Vec::new(),
        merge: merge.map(|s| s.to_string()),
    }
}

#[test]
fn minimal_definition_is_valid() {
    let mut d = def("test", "a test");
    d.expect = None;
    let warnings = check_definition(&d).unwrap();
    assert_eq!(
        warnings,
        vec!["no 'expect' section — consumers won't have assertions to validate".to_string()]
    );
}

#[test]
fn empty_meta_fields_are_errors() {
    let errors = check_definition(&def("", "")).unwrap_err();
    assert_eq!(
        errors,
        vec!["meta.name is empty".to_string(), "meta.description is empty".to_string()]
    );
}

#[test]
fn tag_index_out_of_range() {
    let mut d = def("t", "d");
    d.tags = vec![tag("v1", 5)];
    let errors = check_definition(&d).unwrap_err();
    assert_eq!(
        errors,
        vec!["tag 'v1': at_commit 5 is out of range (valid: -1..-1)".to_string()]
    );
    d.commits = vec![commit("a"), commit("b")];
    d.tags = vec![tag("v0", -1), tag("v1", 1), tag("v2", 2), tag("v3", -2)];
    let errors = check_definition(&d).unwrap_err();
    assert_eq!(
        errors,
        vec![
            "tag 'v2': at_commit 2 is out of range (valid: -1..1)".to_string(),
            "tag 'v3': at_commit -2 is out of range (valid: -1..1)".to_string(),
        ]
    );
}

#[test]
fn duplicate_tag_names_are_reported_once_per_extra_copy() {
    let mut d = def("t", "d");
    d.tags = vec![tag("v1", -1), tag("v1", -1), tag("a", -1)];
    d.packages = vec![
        PackageDef {
            name: "app".to_string(),
            path: ".".to_string(),
            initial_version: "1.0.0".to_string(),
            tag: Some("v1".to_string()),
        },
        PackageDef {
            name: "lib".to_string(),
            path: "lib".to_string(),
            initial_version: "1.0.0".to_string(),
            tag: Some("a".to_string()),
        },
    ];
    let errors = check_definition(&d).unwrap_err();
    assert_eq!(
        errors,
        vec![
            "duplicate tag name: 'a'".to_string(),
            "duplicate tag name: 'v1'".to_string(),
            "duplicate tag name: 'v1'".to_string(),
        ]
    );
}

#[test]
fn branch_references_are_checked() {
    let mut d = def("t", "d");
    d.commits = vec![commit("a")];
    d.branches = vec![
        branch("feat", Some("nonexistent"), None, None),
        branch("dev", Some("main"), Some(3), Some("feat")),
        branch("hot", Some("dev"), Some(-1), Some("gone")),
    ];
    let errors = check_definition(&d).unwrap_err();
    assert_eq!(
        errors,
        vec![
            "branch 'feat': from 'nonexistent' does not reference a known branch".to_string(),
            "branch 'dev': at_commit 3 is out of range (valid: -1..0)".to_string(),
            "branch 'hot': merge target 'gone' does not reference a known branch".to_string(),
        ]
    );
}

#[test]
fn custom_default_branch_is_known() {
    let mut d = def("t", "d");
    d.meta.default_branch = Some("master".to_string());
    d.branches = vec![branch("x", Some("master"), None, Some("main"))];
    let errors = check_definition(&d).unwrap_err();
    assert_eq!(
        errors,
        vec!["branch 'x': merge target 'main' does not reference a known branch".to_string()]
    );
}

#[test]
fn bulk_with_commits_warns() {
    let mut d = def("t", "d");
    d.commits = vec![commit("a")];
    d.generate = Some(GenerateDef { packages: 1, commits: 10, seed: 42, graph: false });
    let warnings = check_definition(&d).unwrap();
    assert_eq!(
        warnings,
        vec![
            "both 'generate' and 'commits' are set — 'commits' will be ignored in bulk mode"
                .to_string()
        ]
    );
}

#[test]
fn report_lines_and_summary() {
    let outcomes = vec![
        DefinitionOutcome { name: "a".to_string(), outcome: Ok(Vec::new()) },
        DefinitionOutcome {
            name: "b".to_string(),
            outcome: Ok(vec!["w1".to_string(), "w2".to_string()]),
        },
        DefinitionOutcome { name: "c".to_string(), outcome: Err(vec!["e1".to_string()]) },
    ];
    let report = validation_report(&outcomes);
    let lines: Vec<(bool, String)> =
        report.lines.iter().map(|l| (l.to_stderr, l.text.clone())).collect();
    assert_eq!(
        lines,
        vec![
            (false, "  ok  a".to_string()),
            (false, "  WARN b: w1".to_string()),
            (false, "  WARN b: w2".to_string()),
            (true, "  ERR c: e1".to_string()),
            (false, "\n2/3 definitions valid".to_string()),
        ]
    );
    assert!(!report.all_valid);
    let report = validation_report(&outcomes[..2].iter().map(|o| DefinitionOutcome {
        name: o.name.clone(),
        outcome: o.outcome.clone(),
    }).collect());
    assert!(report.all_valid);
}

/// What `{"meta":{"name":..,"description":..}}` reads as: every list empty,
/// no config, generation or expectation section.
fn parsed(name: &str, description: &str) -> FixtureDef {
    let mut d = def(name, description);
    d.expect = None;
    d
}

fn all_valid(d: &FixtureDef, name: &str) -> bool {
    let outcome = DefinitionOutcome { name: name.to_string(), outcome: check_definition(d) };
    validation_report(&vec![outcome]).all_valid
}

#[test]
fn valid_minimal_definition() {
    assert!(all_valid(&parsed("test", "a test"), "test"));
}

#[test]
fn tag_out_of_range() {
    let mut d = parsed("t", "d");
    d.tags = vec![tag("v1", 5)];
    assert!(!all_valid(&d, "bad-tag"));
}

#[test]
fn duplicate_tags() {
    let mut d = parsed("t", "d");
    d.tags = vec![tag("v1", -1), tag("v1", -1)];
    assert!(!all_valid(&d, "dup"));
}

#[test]
fn branch_from_unknown() {
    let mut d = parsed("t", "d");
    d.branches = vec![branch("feat", Some("nonexistent"), None, None)];
    assert!(!all_valid(&d, "bad-branch"));
}

#[test]
fn empty_meta_name() {
    assert!(!all_valid(&parsed("", "d"), "empty"));
}

#[test]
fn definition_files_are_json_files_in_name_order() {
    let names: Vec<String> = ["b.json", "a.json", ".json", "notes.txt", "c.JSON", "x.y.json", "json"]
        .iter()
        .map(|s| s.to_string())
        .collect();
    assert_eq!(
        definition_files(&names),
        vec!["a.json".to_string(), "b.json".to_string(), "x.y.json".to_string()]
    );
}
