use fixtures::bulk::{plan_bulk, BulkAction};
use fixtures::explicit::{plan_explicit, Action, CommitRef, ForkPoint, Record};
use fixtures::rng::RngError;
use fixtures::types::{
    BranchDef, ExpectDef, SerializableExpect, CommitDef, ConfigDef, FixtureDef, GenerateDef, HookFileDef, Meta, PackageDef,
    TagDef,
};

fn def() -> FixtureDef {
    FixtureDef {
        meta: Meta {
            name: "test".to_string(),
            description: "d".to_string(),
            default_branch: None,
        },
        config: None,
        packages: Vec::new(),
        commits: Vec::new(),
        tags: Vec::new(),
        branches: Vec::new(),
        hooks: Vec::new(),
        generate: None,
        expect: None,
    }
}

fn commit(message: &str, files: &[&str], merge: bool) -> CommitDef {
    CommitDef {
        message: message.to_string(),
        files: files.iter().map(|f| f.to_string()).collect(),
        merge,
    }
}

fn recorded_commits(actions: &[Action]) -> usize {
    actions
        .iter()
        .filter(|a| {
            matches!(
                a,
                Action::Commit { record: Record::Setup | Record::Listed, .. }
                    | Action::MergeCommit { record: Record::Setup | Record::Listed, .. }
            )
        })
        .count()
}

fn tags(actions: &[Action]) -> Vec<(String, CommitRef)> {
    actions
        .iter()
        .filter_map(|a| match a {
            Action::Tag { name, target } => Some((name.clone(), *target)),
            _ => None,
        })
        .collect()
}

#[test]
fn correct_commit_count() {
    let mut d = def();
    d.commits = vec![
        commit("feat: one", &["a.txt"], false),
        commit("fix: two", &["b.txt"], false),
        commit("chore: three", &["c.txt"], false),
    ];
    let plan = plan_explicit(&d);
    assert!(plan.failure.is_none());
    // 3 explicit commits + 1 initial setup = 4
    assert_eq!(recorded_commits(&plan.actions), 4);
    assert!(matches!(plan.actions.last(), Some(Action::WriteExpect)));
}

#[test]
fn explicit_plan_is_exact_for_a_small_fixture() {
    let mut d = def();
    d.meta.default_branch = Some("main".to_string());
    d.config = Some(ConfigDef {
        content: "[package]".to_string(),
        format: "toml".to_string(),
        filename: None,
    });
    d.packages = vec![PackageDef {
        name: "app".to_string(),
        path: ".".to_string(),
        initial_version: "1.0.0".to_string(),
        tag: Some("v1.0.0".to_string()),
    }];
    d.hooks = vec![HookFileDef { path: "hooks/pre-bump.sh".to_string(), content: "echo hi".to_string() }];
    d.commits = vec![commit("feat: bump", &["src/a.txt"], true)];
    d.tags = vec![TagDef { name: "v1.1.0".to_string(), at_commit: 0 }];
    let plan = plan_explicit(&d);
    let text: Vec<String> = plan.actions.iter().map(|a| format!("{a:?}")).collect();
    let expected = vec![
        format!("{:?}", Action::InitRepo { initial_branch: Some("main".to_string()) }),
        format!("{:?}", Action::SetIdentity { name: "Test".to_string(), email: "test@test.com".to_string() }),
        format!("{:?}", Action::WriteFile { path: vec![".ferrflow.toml".to_string()], content: "[package]".to_string(), create_parents: false }),
        format!("{:?}", Action::CreateDir { path: vec![".".to_string(), "src".to_string()] }),
        format!("{:?}", Action::WriteFile { path: vec!["version.toml".to_string()], content: "[package]\nname = \"app\"\nversion = \"1.0.0\"\n".to_string(), create_parents: false }),
        format!("{:?}", Action::WriteFile { path: vec!["hooks/pre-bump.sh".to_string()], content: "echo hi".to_string(), create_parents: true }),
        format!("{:?}", Action::MakeExecutable { path: vec!["hooks/pre-bump.sh".to_string()] }),
        format!("{:?}", Action::Commit { message: "chore: initial setup".to_string(), record: Record::Setup }),
        format!("{:?}", Action::Tag { name: "v1.0.0".to_string(), target: CommitRef::Setup }),
        format!("{:?}", Action::WriteFile { path: vec!["src/a.txt".to_string()], content: "// generated content for src/a.txt\n".to_string(), create_parents: true }),
        format!("{:?}", Action::MergeCommit { side_message: "feat: bump (branch)".to_string(), merge_message: "Merge branch: feat: bump".to_string(), record: Record::Listed }),
        format!("{:?}", Action::Tag { name: "v1.1.0".to_string(), target: CommitRef::Listed(0) }),
        format!("{:?}", Action::WriteExpect),
    ];
    assert_eq!(text, expected);
}

#[test]
fn explicit_plan_places_tags() {
    let mut d = def();
    d.packages = vec![PackageDef {
        name: "app".to_string(),
        path: "app".to_string(),
        initial_version: "1.0.0".to_string(),
        tag: Some("v1.0.0".to_string()),
    }];
    d.commits = vec![commit("feat: bump", &["a.txt"], false)];
    d.tags = vec![
        TagDef { name: "v1.1.0".to_string(), at_commit: 0 },
        TagDef { name: "v0".to_string(), at_commit: -1 },
        TagDef { name: "never".to_string(), at_commit: 7 },
    ];
    let plan = plan_explicit(&d);
    assert_eq!(
        tags(&plan.actions),
        vec![
            ("v1.0.0".to_string(), CommitRef::Setup),
            ("v0".to_string(), CommitRef::Setup),
            ("v1.1.0".to_string(), CommitRef::Listed(0)),
        ]
    );
}

#[test]
fn explicit_plan_branches() {
    let mut d = def();
    d.meta.default_branch = Some("main".to_string());
    d.commits = vec![commit("feat: base", &["a.txt"], false)];
    d.branches = vec![
        BranchDef {
            name: "feature".to_string(),
            from: None,
            at_commit: Some(0),
            commits: vec![commit("feat: on branch", &["b.txt"], false)],
            merge: Some("main".to_string()),
        },
        BranchDef {
            name: "tip".to_string(),
            from: Some("feature".to_string()),
            at_commit: None,
            commits: Vec::new(),
            merge: None,
        },
    ];
    let plan = plan_explicit(&d);
    assert!(plan.failure.is_none());
    let tail: Vec<String> = plan.actions.iter().skip(5).map(|a| format!("{a:?}")).collect();
    let expected = vec![
        format!("{:?}", Action::CreateBranch { name: "feature".to_string(), fork: ForkPoint::At(CommitRef::Listed(0)) }),
        format!("{:?}", Action::Checkout { reference: "refs/heads/feature".to_string() }),
        format!("{:?}", Action::WriteFile { path: vec!["b.txt".to_string()], content: "// generated content for b.txt\n".to_string(), create_parents: true }),
        format!("{:?}", Action::Commit { message: "feat: on branch".to_string(), record: Record::Unlisted }),
        format!("{:?}", Action::MergeInto { reference: "refs/heads/main".to_string(), message: "Merge branch 'feature'".to_string() }),
        format!("{:?}", Action::CreateBranch { name: "tip".to_string(), fork: ForkPoint::TipOf { branch: "feature".to_string(), missing: "branch 'tip': source branch 'feature' not found".to_string() } }),
        format!("{:?}", Action::Checkout { reference: "refs/heads/tip".to_string() }),
        format!("{:?}", Action::Checkout { reference: "refs/heads/main".to_string() }),
        format!("{:?}", Action::WriteExpect),
    ];
    assert_eq!(tail, expected);
}

#[test]
fn explicit_plan_stops_at_an_out_of_range_branch() {
    let mut d = def();
    d.commits = vec![commit("feat: base", &["a.txt"], false)];
    d.branches = vec![BranchDef {
        name: "late".to_string(),
        from: None,
        at_commit: Some(4),
        commits: vec![commit("x", &["x"], false)],
        merge: None,
    }];
    let plan = plan_explicit(&d);
    assert_eq!(
        plan.failure,
        Some("branch 'late': at_commit 4 out of range (only 1 commits)".to_string())
    );
    assert!(!plan.actions.iter().any(|a| matches!(a, Action::CreateBranch { .. } | Action::WriteExpect)));
}

#[test]
fn explicit_plan_negative_index_forks_from_tip() {
    let mut d = def();
    d.branches = vec![BranchDef {
        name: "b".to_string(),
        from: None,
        at_commit: Some(-3),
        commits: Vec::new(),
        merge: None,
    }];
    let plan = plan_explicit(&d);
    assert!(plan.actions.iter().any(|a| matches!(
        a,
        Action::CreateBranch { fork: ForkPoint::TipOf { branch, .. }, .. } if branch == "main"
    )));
}

fn bulk(packages: usize, commits: usize, seed: u64, graph: bool) -> FixtureDef {
    let mut d = def();
    d.config = Some(ConfigDef { content: "{}".to_string(), format: "json".to_string(), filename: None });
    d.generate = Some(GenerateDef { packages, commits, seed, graph });
    d
}

fn bulk_commits(actions: &[BulkAction]) -> usize {
    actions.iter().filter(|a| matches!(a, BulkAction::Commit { .. })).count()
}

fn bulk_tags(actions: &[BulkAction]) -> Vec<String> {
    actions
        .iter()
        .filter_map(|a| match a {
            BulkAction::TagInitial { name } => Some(name.clone()),
            _ => None,
        })
        .collect()
}

#[test]
fn bulk_generation_single_package() {
    let plan = plan_bulk(&bulk(1, 10, 42, false), 1_700_000_000).unwrap();
    // 10 commits + 1 initial = 11
    assert_eq!(bulk_commits(&plan.actions), 11);
    assert_eq!(bulk_tags(&plan.actions), vec!["v0.1.0".to_string()]);
    assert!(matches!(&plan.actions[0], BulkAction::SetFile { path, .. } if path == "ferrflow.json"));
    assert!(plan.actions.iter().all(|a| match a {
        BulkAction::AppendDummy { path } => path == "dummy.txt",
        _ => true,
    }));
}

#[test]
fn bulk_generation_monorepo() {
    let plan = plan_bulk(&bulk(3, 5, 1, false), 1_700_000_000).unwrap();
    // 5 commits + 1 initial = 6
    assert_eq!(bulk_commits(&plan.actions), 6);
    assert_eq!(
        bulk_tags(&plan.actions),
        vec!["pkg-001@v0.1.0".to_string(), "pkg-002@v0.1.0".to_string(), "pkg-003@v0.1.0".to_string()]
    );
    for a in &plan.actions {
        if let BulkAction::Commit { time, .. } = a {
            assert!(*time <= 1_700_000_000 && *time > 1_700_000_000 - 366 * 86400);
        }
    }
}

#[test]
fn graph_mode_writes_depends_on_config() {
    let mut d = def();
    d.meta.name = "graph".to_string();
    d.generate = Some(GenerateDef { packages: 10, commits: 5, seed: 7, graph: true });
    let plan = plan_bulk(&d, 1_700_000_000).unwrap();
    let config = match &plan.actions[0] {
        BulkAction::SetFile { path, content } if path == "ferrflow.json" => content.clone(),
        other => panic!("unexpected first action {other:?}"),
    };
    assert!(config.contains("\"dependsOn\""), "config lacks edges: {config}");
    assert!(config.contains("\"recoverMissedReleases\":true"));
    assert!(config.contains("pkg-001"));
    assert!(config.contains("pkg-010"));
    assert!(plan.actions.iter().any(|a| matches!(
        a,
        BulkAction::SetFile { path, .. } if path == "packages/pkg-001/package.json"
    )));
    // In graph mode only core packages (the first two of ten) get commits.
    for a in &plan.actions {
        if let BulkAction::AppendDummy { path } = a {
            assert!(path == "packages/pkg-001/dummy.txt" || path == "packages/pkg-002/dummy.txt");
        }
    }
}

#[test]
fn bulk_plan_is_deterministic() {
    let a = plan_bulk(&bulk(4, 20, 99, false), 1_000).unwrap();
    let b = plan_bulk(&bulk(4, 20, 99, false), 1_000).unwrap();
    assert_eq!(format!("{:?}", a.actions), format!("{:?}", b.actions));
}

#[test]
fn bulk_plan_refuses_zero_seed() {
    assert_eq!(plan_bulk(&bulk(1, 1, 0, false), 0).err(), Some(RngError::ZeroSeed));
}

#[test]
fn bulk_manifest_content() {
    let plan = plan_bulk(&bulk(2, 0, 5, false), 0).unwrap();
    assert!(plan.actions.iter().any(|a| matches!(
        a,
        BulkAction::SetFile { path, content }
            if path == "packages/pkg-002/package.json"
                && content == "{\n  \"name\": \"pkg-002\",\n  \"version\": \"0.1.0\"\n}\n"
    )));
}

fn package(name: &str, path: &str, version: &str, tag: Option<&str>) -> PackageDef {
    PackageDef {
        name: name.to_string(),
        path: path.to_string(),
        initial_version: version.to_string(),
        tag: tag.map(|t| t.to_string()),
    }
}

#[test]
fn generates_valid_git_repo() {
    let mut d = def();
    d.meta.description = "basic".to_string();
    d.packages = vec![package("app", ".", "1.0.0", Some("v1.0.0"))];
    d.commits = vec![commit("feat: add feature", &["src/main.rs"], false)];
    let plan = plan_explicit(&d);
    assert!(plan.failure.is_none());
    assert!(matches!(&plan.actions[0], Action::InitRepo { initial_branch: None }));
    // HEAD exists: the setup commit and the listed one are made.
    assert_eq!(recorded_commits(&plan.actions), 2);
    assert!(matches!(plan.actions.last(), Some(Action::WriteExpect)));
}

#[test]
fn tags_are_created() {
    let mut d = def();
    d.packages = vec![package("app", ".", "1.0.0", Some("v1.0.0"))];
    d.commits = vec![commit("feat: bump", &["a.txt"], false)];
    d.tags = vec![TagDef { name: "v1.1.0".to_string(), at_commit: 0 }];
    let plan = plan_explicit(&d);
    let names: Vec<String> = tags(&plan.actions).into_iter().map(|(n, _)| n).collect();
    assert!(names.contains(&"v1.0.0".to_string()));
    assert!(names.contains(&"v1.1.0".to_string()));
}

#[test]
fn config_file_is_written() {
    let mut d = def();
    d.config = Some(ConfigDef {
        content: "{\"package\":[]}".to_string(),
        format: "json".to_string(),
        filename: None,
    });
    let plan = plan_explicit(&d);
    assert!(plan.actions.iter().any(|a| matches!(
        a,
        Action::WriteFile { path, content, .. }
            if path == &vec!["ferrflow.json".to_string()] && content.contains("package")
    )));
}

#[test]
fn toml_config_format() {
    let mut d = def();
    d.config = Some(ConfigDef {
        content: "[package]".to_string(),
        format: "toml".to_string(),
        filename: None,
    });
    let plan = plan_explicit(&d);
    assert!(plan.actions.iter().any(|a| matches!(
        a,
        Action::WriteFile { path, .. } if path == &vec![".ferrflow.toml".to_string()]
    )));
}

#[test]
fn expect_toml_is_generated() {
    let mut d = def();
    d.meta.description = "my description".to_string();
    d.expect = Some(ExpectDef {
        check_contains: vec!["hello".to_string()],
        check_not_contains: Vec::new(),
        output_order: Vec::new(),
        packages_released: Some(1),
    });
    let plan = plan_explicit(&d);
    assert!(matches!(plan.actions.last(), Some(Action::WriteExpect)));
    let record = SerializableExpect::from_def(&d);
    assert_eq!(record.description, "my description");
    assert_eq!(record.check_contains, vec!["hello".to_string()]);
    assert_eq!(record.packages_released, Some(1));
}

#[test]
fn hook_files_are_created() {
    let mut d = def();
    d.hooks = vec![HookFileDef { path: "hooks/pre-bump.sh".to_string(), content: "echo hi".to_string() }];
    let plan = plan_explicit(&d);
    let hook = vec!["hooks/pre-bump.sh".to_string()];
    let at = plan
        .actions
        .iter()
        .position(|a| matches!(
            a,
            Action::WriteFile { path, content, create_parents: true }
                if path == &hook && content == "echo hi"
        ))
        .expect("hook file is written");
    assert!(matches!(&plan.actions[at + 1], Action::MakeExecutable { path } if path == &hook));
}

#[test]
fn branches_are_created() {
    let mut d = def();
    d.meta.default_branch = Some("main".to_string());
    d.commits = vec![commit("feat: base", &["a.txt"], false)];
    d.branches = vec![BranchDef {
        name: "develop".to_string(),
        from: None,
        at_commit: Some(0),
        commits: vec![commit("feat: dev work", &["b.txt"], false)],
        merge: None,
    }];
    let plan = plan_explicit(&d);
    assert!(plan.failure.is_none());
    assert!(plan.actions.iter().any(|a| matches!(
        a,
        Action::CreateBranch { name, fork: ForkPoint::At(CommitRef::Listed(0)) } if name == "develop"
    )));
}

#[test]
fn branch_merge_creates_merge_commit() {
    let mut d = def();
    d.meta.default_branch = Some("main".to_string());
    d.commits = vec![commit("feat: base", &["a.txt"], false)];
    d.branches = vec![BranchDef {
        name: "feature".to_string(),
        from: None,
        at_commit: Some(0),
        commits: vec![commit("feat: on branch", &["b.txt"], false)],
        merge: Some("main".to_string()),
    }];
    let plan = plan_explicit(&d);
    let n = plan.actions.len();
    // The merge into main is the last commit; main is checked out again after it.
    assert!(matches!(
        &plan.actions[n - 3],
        Action::MergeInto { reference, message }
            if reference == "refs/heads/main" && message == "Merge branch 'feature'"
    ));
    assert!(matches!(&plan.actions[n - 2], Action::Checkout { reference } if reference == "refs/heads/main"));
}

#[test]
fn custom_default_branch() {
    let mut d = def();
    d.meta.default_branch = Some("master".to_string());
    let plan = plan_explicit(&d);
    assert!(matches!(
        &plan.actions[0],
        Action::InitRepo { initial_branch: Some(b) } if b == "master"
    ));
}

#[test]
fn merge_commit_in_main_branch() {
    let mut d = def();
    d.commits = vec![commit("feat: merged feature", &["src/feature.rs"], true)];
    let plan = plan_explicit(&d);
    assert!(plan.actions.iter().any(|a| matches!(
        a,
        Action::MergeCommit { side_message, merge_message, record: Record::Listed }
            if side_message == "feat: merged feature (branch)"
                && merge_message == "Merge branch: feat: merged feature"
    )));
}

#[test]
fn valid_definition_is_generated_in_full() {
    let mut d = def();
    d.meta.default_branch = Some("main".to_string());
    d.commits = vec![commit("feat: base", &["a.txt"], false), commit("fix: b", &["b.txt"], true)];
    d.tags = vec![TagDef { name: "v1".to_string(), at_commit: 1 }];
    d.branches = vec![BranchDef {
        name: "dev".to_string(),
        from: Some("main".to_string()),
        at_commit: Some(-1),
        commits: vec![commit("feat: dev", &["c.txt"], false)],
        merge: Some("main".to_string()),
    }];
    assert!(fixtures::validate::check_definition(&d).is_ok());
    let plan = plan_explicit(&d);
    assert!(plan.failure.is_none());
    assert!(matches!(plan.actions.last(), Some(Action::WriteExpect)));
    assert_eq!(recorded_commits(&plan.actions), 3);
}
