use project_rules::remote_project_rules::{
    assemble_remote_rules, find_project_rule_files_in_tree, local_rules_model,
    matches_project_rule_file, remote_repositories, remote_rule_request_paths, FileContext,
    HydrationPlan, LocalOrRemotePath, MetadataEventAction, ProjectRule, RefreshAction,
    RemotePath, RemoteProjectRulesModel, RepoContent, RepoFile, RepoMetadataEvent,
    RepositoryCoverage, RepositoryIdentifier, RulesReplacement, select_local_project_rules,
};

fn local_repo(path: &str) -> RepositoryIdentifier {
    RepositoryIdentifier::Local(path.to_string())
}

fn remote_repo(host: &str, path: &str) -> RepositoryIdentifier {
    RepositoryIdentifier::Remote(RemotePath { host_id: host.to_string(), path: path.to_string() })
}

fn remote_path(host: &str, path: &str) -> LocalOrRemotePath {
    LocalOrRemotePath::Remote(RemotePath { host_id: host.to_string(), path: path.to_string() })
}

fn file(path: &str, name: Option<&str>, local: Option<&str>) -> RepoContent {
    RepoContent::File(RepoFile {
        path: path.to_string(),
        file_name: name.map(|n| n.to_string()),
        local_path: local.map(|l| l.to_string()),
    })
}

fn context(name: &str, text: Option<&str>) -> FileContext {
    FileContext { file_name: name.to_string(), text_content: text.map(|t| t.to_string()) }
}

#[test]
fn rule_file_names_ignore_ascii_case() {
    assert!(matches_project_rule_file(Some("WARP.md")));
    assert!(matches_project_rule_file(Some("warp.md")));
    assert!(matches_project_rule_file(Some("AGENTS.md")));
    assert!(matches_project_rule_file(Some("Agents.MD")));
    assert!(!matches_project_rule_file(Some("README.md")));
    assert!(!matches_project_rule_file(Some("WARP.md.bak")));
    assert!(!matches_project_rule_file(Some("WARP.m")));
    assert!(!matches_project_rule_file(Some("")));
    assert!(!matches_project_rule_file(None));
}

#[test]
fn rule_file_names_do_not_fold_non_ascii_letters() {
    // U+212A KELVIN SIGN lower-cases to 'k' in Unicode, but not in ASCII.
    assert!(!matches_project_rule_file(Some("WARP.md\u{212A}")));
    assert!(!matches_project_rule_file(Some("W\u{0391}RP.md")));
}

#[test]
fn generations_are_issued_in_order() {
    let mut model = local_rules_model();
    let a = local_repo("/a");
    let b = remote_repo("host", "/b");
    assert_eq!(model.advance_refresh_generation(&a), 1);
    assert_eq!(model.advance_refresh_generation(&b), 2);
    assert_eq!(model.advance_refresh_generation(&a), 3);
    assert!(model.is_refresh_current(&a, 3));
    assert!(!model.is_refresh_current(&a, 1));
    assert!(model.is_refresh_current(&b, 2));
}

#[test]
fn stale_refresh_results_are_dropped() {
    let mut model = RemoteProjectRulesModel::new();
    let repo = local_repo("/repo");
    let first = model.advance_refresh_generation(&repo);
    let second = model.advance_refresh_generation(&repo);
    let root = LocalOrRemotePath::Local("/repo".to_string());
    let rule = ProjectRule {
        path: LocalOrRemotePath::Local("/repo/WARP.md".to_string()),
        content: "rule".to_string(),
    };
    assert_eq!(model.replace_rules_if_current(&repo, first, root, vec![]), None);
    let root = LocalOrRemotePath::Local("/repo".to_string());
    assert_eq!(
        model.replace_rules_if_current(&repo, second, root, vec![rule]),
        Some(RulesReplacement {
            root_path: LocalOrRemotePath::Local("/repo".to_string()),
            rules: vec![ProjectRule {
                path: LocalOrRemotePath::Local("/repo/WARP.md".to_string()),
                content: "rule".to_string(),
            }],
        })
    );
}

#[test]
fn unknown_repository_has_no_current_generation() {
    let model = local_rules_model();
    let root = LocalOrRemotePath::Local("/repo".to_string());
    assert_eq!(model.replace_rules_if_current(&local_repo("/repo"), 0, root, vec![]), None);
}

#[test]
fn complete_local_repository_lists_rule_files() {
    let mut model = local_rules_model();
    let action =
        model.refresh_repository(&local_repo("/repo"), Some(RepositoryCoverage::Complete), false);
    assert_eq!(action, RefreshAction::ListRuleFiles { generation: 1 });
}

#[test]
fn degraded_local_repository_falls_back_to_the_file_system() {
    let mut model = local_rules_model();
    let repo = local_repo("/repo");
    let action = model.refresh_repository(&repo, Some(RepositoryCoverage::Degraded), false);
    assert_eq!(action, RefreshAction::UseFilesystemFallback { root: "/repo".to_string() });
    // The fallback issued a generation, so an older metadata result is stale.
    assert!(model.is_refresh_current(&repo, 1));
}

#[test]
fn failed_local_repository_falls_back_to_the_file_system() {
    let mut model = local_rules_model();
    let action = model.refresh_repository(&local_repo("/repo"), None, true);
    assert_eq!(action, RefreshAction::UseFilesystemFallback { root: "/repo".to_string() });
}

#[test]
fn local_repository_being_indexed_is_skipped() {
    let mut model = local_rules_model();
    let repo = local_repo("/repo");
    assert_eq!(model.refresh_repository(&repo, None, false), RefreshAction::Skip);
    assert!(!model.is_refresh_current(&repo, 1));
    assert_eq!(model.advance_refresh_generation(&repo), 1);
}

#[test]
fn remote_repository_always_lists_rule_files() {
    let mut model = local_rules_model();
    let repo = remote_repo("host", "/srv/repo");
    assert_eq!(
        model.refresh_repository(&repo, None, false),
        RefreshAction::ListRuleFiles { generation: 1 }
    );
    assert_eq!(
        model.refresh_repository(&repo, Some(RepositoryCoverage::Degraded), true),
        RefreshAction::ListRuleFiles { generation: 2 }
    );
}

#[test]
fn filesystem_refresh_of_a_remote_repository_only_issues_a_generation() {
    let mut model = local_rules_model();
    let repo = remote_repo("host", "/srv/repo");
    assert_eq!(model.refresh_local_repository_from_filesystem(&repo), RefreshAction::Skip);
    assert!(model.is_refresh_current(&repo, 1));
}

#[test]
fn repository_without_rule_files_clears_its_rules() {
    let mut model = local_rules_model();
    let repo = local_repo("/repo");
    let generation = model.advance_refresh_generation(&repo);
    assert_eq!(
        model.plan_rule_hydration(&repo, generation, vec![]),
        HydrationPlan::Replace(RulesReplacement {
            root_path: LocalOrRemotePath::Local("/repo".to_string()),
            rules: vec![],
        })
    );
    model.advance_refresh_generation(&repo);
    assert_eq!(model.plan_rule_hydration(&repo, generation, vec![]), HydrationPlan::Discard);
}

#[test]
fn local_rule_files_are_read_locally() {
    let mut model = local_rules_model();
    let repo = local_repo("/repo");
    let generation = model.advance_refresh_generation(&repo);
    let paths = vec![LocalOrRemotePath::Local("/repo/WARP.md".to_string())];
    assert_eq!(
        model.plan_rule_hydration(&repo, generation, paths),
        HydrationPlan::ReadLocalFiles {
            root_path: LocalOrRemotePath::Local("/repo".to_string()),
            rule_paths: vec![LocalOrRemotePath::Local("/repo/WARP.md".to_string())],
        }
    );
}

#[test]
fn remote_rule_files_are_requested_from_the_host() {
    let mut model = local_rules_model();
    let repo = remote_repo("host", "/srv");
    let generation = model.advance_refresh_generation(&repo);
    let paths = vec![remote_path("host", "/srv/WARP.md"), remote_path("host", "/srv/a/AGENTS.md")];
    assert_eq!(
        model.plan_rule_hydration(&repo, generation, paths),
        HydrationPlan::RequestRemoteFiles {
            host_id: "host".to_string(),
            root_path: remote_path("host", "/srv"),
            request_paths: vec!["/srv/WARP.md".to_string(), "/srv/a/AGENTS.md".to_string()],
            rule_paths: vec![remote_path("host", "/srv/WARP.md"), remote_path("host", "/srv/a/AGENTS.md")],
        }
    );
}

#[test]
fn rule_files_of_a_local_tree() {
    let contents = vec![
        RepoContent::Directory("src".to_string()),
        file("WARP.md", Some("WARP.md"), Some("/repo/WARP.md")),
        file("src/main.rs", Some("main.rs"), Some("/repo/src/main.rs")),
        file("src/agents.md", Some("agents.md"), Some("/repo/src/agents.md")),
        file("odd/WARP.md", Some("WARP.md"), None),
        file("..", None, Some("/")),
    ];
    assert_eq!(
        find_project_rule_files_in_tree(&local_repo("/repo"), &contents),
        vec![
            LocalOrRemotePath::Local("/repo/WARP.md".to_string()),
            LocalOrRemotePath::Local("/repo/src/agents.md".to_string()),
        ]
    );
}

#[test]
fn rule_files_of_a_remote_tree() {
    let contents = vec![
        file("/srv/WARP.md", Some("WARP.md"), None),
        file("/srv/lib.rs", Some("lib.rs"), None),
        file("/srv/x/AGENTS.md", Some("AGENTS.md"), Some("/ignored")),
    ];
    assert_eq!(
        find_project_rule_files_in_tree(&remote_repo("h1", "/srv"), &contents),
        vec![remote_path("h1", "/srv/WARP.md"), remote_path("h1", "/srv/x/AGENTS.md")]
    );
}

#[test]
fn request_covers_only_remote_rule_files() {
    let paths = vec![
        remote_path("h", "/a/WARP.md"),
        LocalOrRemotePath::Local("/local/WARP.md".to_string()),
        remote_path("h", "/b/AGENTS.md"),
    ];
    assert_eq!(
        remote_rule_request_paths(&paths),
        vec!["/a/WARP.md".to_string(), "/b/AGENTS.md".to_string()]
    );
}

#[test]
fn answered_rules_keep_rule_file_order() {
    let paths = vec![
        remote_path("h", "/a/WARP.md"),
        remote_path("h", "/b/AGENTS.md"),
        LocalOrRemotePath::Local("/a/WARP.md".to_string()),
        remote_path("h", "/c/WARP.md"),
    ];
    let contexts = vec![
        context("/b/AGENTS.md", Some("agents")),
        context("/a/WARP.md", Some("first")),
        context("/a/WARP.md", Some("second")),
        context("/a/WARP.md", None),
        context("/c/WARP.md", None),
    ];
    assert_eq!(
        assemble_remote_rules(paths, &contexts),
        vec![
            ProjectRule { path: remote_path("h", "/a/WARP.md"), content: "second".to_string() },
            ProjectRule { path: remote_path("h", "/b/AGENTS.md"), content: "agents".to_string() },
        ]
    );
}

#[test]
fn empty_answer_yields_no_rules() {
    let paths = vec![remote_path("h", "/a/WARP.md")];
    assert_eq!(assemble_remote_rules(paths, &vec![]), vec![]);
}

#[test]
fn updated_repository_is_refreshed() {
    let mut model = local_rules_model();
    let event = RepoMetadataEvent::RepositoryUpdated { id: local_repo("/repo") };
    assert_eq!(
        model.handle_repo_metadata_event(&event),
        MetadataEventAction::Refresh(vec![local_repo("/repo")])
    );
    let event = RepoMetadataEvent::FileTreeEntryUpdated { id: remote_repo("h", "/r") };
    assert_eq!(
        model.handle_repo_metadata_event(&event),
        MetadataEventAction::Refresh(vec![remote_repo("h", "/r")])
    );
    let event = RepoMetadataEvent::UpdatingRepositoryFailed { id: local_repo("/x") };
    assert_eq!(
        model.handle_repo_metadata_event(&event),
        MetadataEventAction::Refresh(vec![local_repo("/x")])
    );
}

#[test]
fn file_tree_update_refreshes_remote_repositories_only() {
    let mut model = local_rules_model();
    let event = RepoMetadataEvent::FileTreeUpdated {
        ids: vec![local_repo("/a"), remote_repo("h", "/b"), local_repo("/c"), remote_repo("g", "/d")],
    };
    assert_eq!(
        model.handle_repo_metadata_event(&event),
        MetadataEventAction::Refresh(vec![remote_repo("h", "/b"), remote_repo("g", "/d")])
    );
    assert_eq!(remote_repositories(&vec![local_repo("/a")]), vec![]);
}

#[test]
fn removed_repository_is_forgotten_and_cleared() {
    let mut model = local_rules_model();
    let repo = remote_repo("h", "/r");
    let generation = model.advance_refresh_generation(&repo);
    let other = local_repo("/o");
    let other_generation = model.advance_refresh_generation(&other);
    let event = RepoMetadataEvent::RepositoryRemoved { id: remote_repo("h", "/r") };
    assert_eq!(
        model.handle_repo_metadata_event(&event),
        MetadataEventAction::ReplaceRules(RulesReplacement {
            root_path: remote_path("h", "/r"),
            rules: vec![],
        })
    );
    assert!(!model.is_refresh_current(&repo, generation));
    assert!(model.is_refresh_current(&other, other_generation));
    // Generations keep counting after a removal.
    assert_eq!(model.advance_refresh_generation(&repo), 3);
}

#[test]
fn incremental_update_asks_for_nothing() {
    let mut model = local_rules_model();
    assert_eq!(
        model.handle_repo_metadata_event(&RepoMetadataEvent::IncrementalUpdateReady),
        MetadataEventAction::Nothing
    );
}

#[test]
fn identifiers_compare_by_location() {
    assert!(local_repo("/a").same_as(&local_repo("/a")));
    assert!(!local_repo("/a").same_as(&local_repo("/b")));
    assert!(!local_repo("/a").same_as(&remote_repo("h", "/a")));
    assert!(!remote_repo("h", "/a").same_as(&remote_repo("g", "/a")));
    assert_eq!(remote_repo("h", "/a").duplicate(), remote_repo("h", "/a"));
    assert_eq!(local_repo("/a").to_local_or_remote_path(), LocalOrRemotePath::Local("/a".to_string()));
}

#[test]
fn local_reads_keep_order_and_skip_failures() {
    let paths = vec![
        LocalOrRemotePath::Local("/r/WARP.md".to_string()),
        remote_path("h", "/r/AGENTS.md"),
        LocalOrRemotePath::Local("/r/a/WARP.md".to_string()),
        LocalOrRemotePath::Local("/r/b/WARP.md".to_string()),
    ];
    let contents = vec![Some("one".to_string()), Some("remote".to_string()), None, Some("three".to_string())];
    assert_eq!(
        select_local_project_rules(paths, contents),
        vec![
            ProjectRule { path: LocalOrRemotePath::Local("/r/WARP.md".to_string()), content: "one".to_string() },
            ProjectRule { path: LocalOrRemotePath::Local("/r/b/WARP.md".to_string()), content: "three".to_string() },
        ]
    );
}

#[test]
fn removal_drops_in_flight_results_even_after_a_new_refresh() {
    let mut model = local_rules_model();
    let repo = local_repo("/repo");
    let in_flight = model.advance_refresh_generation(&repo);
    model.handle_repo_metadata_event(&RepoMetadataEvent::RepositoryRemoved { id: local_repo("/repo") });
    let other = local_repo("/other");
    model.advance_refresh_generation(&other);
    let fresh = model.advance_refresh_generation(&repo);
    assert!(fresh > in_flight);
    let root = LocalOrRemotePath::Local("/repo".to_string());
    assert_eq!(model.replace_rules_if_current(&repo, in_flight, root, vec![]), None);
    assert!(model.is_refresh_current(&repo, fresh));
}

#[test]
fn repositories_never_share_a_generation() {
    let mut model = local_rules_model();
    let ids = [local_repo("/a"), remote_repo("h", "/b"), local_repo("/c")];
    let mut issued = Vec::new();
    for round in 0..3 {
        for id in &ids {
            issued.push(model.advance_refresh_generation(id));
        }
        let _ = round;
    }
    for (i, g) in issued.iter().enumerate() {
        assert!(*g >= 1);
        assert_eq!(*g, i as u64 + 1);
    }
    assert!(model.is_refresh_current(&ids[0], 7));
    assert!(!model.is_refresh_current(&ids[1], 7));
    assert!(model.is_refresh_current(&ids[1], 8));
}
