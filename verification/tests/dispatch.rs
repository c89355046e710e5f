use dot_agent_deck::dispatch::{
    available_orchestrations, derive_dispatch_paths, handle_dispatch, new_worktree_registry,
    record_worktree, render_available_targets, sanitize_name, shape_override_of, take_worktree,
    Dispatch, DispatchAction, DispatchEvent, DispatchResult, DispatchShape, ModeConfig,
    OrchestrationConfig, ProjectConfig, RemovalPolicy, RoleConfig, SpawnKind, SpawnRequest,
    SpawnShapeOverride, WorktreeCreation, WorktreeRegistry,
};
use dot_agent_deck::path::slash::{file_name, join, parent, same_path, split};
use dot_agent_deck::path::NativePath;
use std::path::Path;

fn at(text: &str) -> NativePath {
    NativePath::new(text)
}

fn role(name: &str, command: &str, start: bool) -> RoleConfig {
    RoleConfig {
        name: name.to_string(),
        command: command.to_string(),
        start,
    }
}

fn orchestration(name: &str, roles: Vec<RoleConfig>) -> OrchestrationConfig {
    OrchestrationConfig {
        name: name.to_string(),
        roles,
    }
}

fn config(orchestrations: Vec<OrchestrationConfig>) -> ProjectConfig {
    ProjectConfig {
        modes: vec![ModeConfig {
            name: "dev".to_string(),
        }],
        orchestrations,
    }
}

#[test]
fn sanitize_name_neutralizes_path_traversal_and_separators() {
    // `..` and `/` must never survive into a path segment.
    assert!(!sanitize_name("../../etc/passwd").contains(".."));
    assert!(!sanitize_name("../../etc/passwd").contains('/'));
    // An all-punctuation name still yields a usable slug.
    assert_eq!(sanitize_name("///"), "dispatch");
    assert_eq!(sanitize_name(""), "dispatch");
    // Ordinary LLM-chosen slugs pass through untouched.
    assert_eq!(sanitize_name("fix-auth-bug"), "fix-auth-bug");
    assert_eq!(sanitize_name("add_rate_limiter"), "add_rate_limiter");
}

#[test]
fn derive_dispatch_paths_places_worktree_as_sibling_not_nested() {
    let paths = derive_dispatch_paths(&at("/home/u/myrepo"), "fix-auth");
    assert_eq!(
        paths.worktree_dir.as_str(), "/home/u/myrepo-dispatch-fix-auth",
        "the worktree must be a SIBLING of the checkout, never nested inside it"
    );
    assert_eq!(paths.branch, "agent/dispatch-fix-auth");
}

#[test]
fn derive_dispatch_paths_survives_a_root_working_dir() {
    let paths = derive_dispatch_paths(&at("/"), "x");
    assert_eq!(paths.branch, "agent/dispatch-x");
    assert!(paths.worktree_dir.as_str().contains("dispatch-x"));
}

#[test]
fn registry_round_trip_preserves_each_producers_policy() {
    let mut reg = new_worktree_registry();
    let clone = "/ws/clone";
    let issue_wt = "/ws/clone/.worktrees/issue-7";
    let dispatch_wt = "/ws/clone-dispatch-fix-auth";

    record_worktree(&mut reg, &at(issue_wt), clone, RemovalPolicy::Force);
    record_worktree(&mut reg, &at(dispatch_wt), clone, RemovalPolicy::KeepIfDirty);

    assert_eq!(
        take_worktree(&mut reg, &at(issue_wt)).map(|e| e.policy),
        Some(RemovalPolicy::Force)
    );
    assert_eq!(
        take_worktree(&mut reg, &at(dispatch_wt)).map(|e| e.policy),
        Some(RemovalPolicy::KeepIfDirty)
    );
}

#[test]
fn available_targets_list_single_plus_every_role_bearing_orchestration() {
    let c = config(vec![
        orchestration(
            "digest",
            vec![role("orchestrator", "cat", true), role("worker", "sh", false)],
        ),
        orchestration("review", vec![role("lead", "cat", true)]),
    ]);
    let found = available_orchestrations(Some(&c), &at("/tmp/repo"));
    assert_eq!(
        found,
        vec![("digest".to_string(), 2), ("review".to_string(), 1)]
    );

    let rendered = render_available_targets(&found);
    assert!(rendered.contains("--single"), "single is always offered");
    assert!(rendered.contains("--orchestration digest"));
    assert!(rendered.contains("--orchestration review"));
    assert!(
        !rendered.contains("schedule") && !rendered.contains("dev"),
        "modes and schedule authoring are not dispatch targets:\n{rendered}"
    );
}

#[test]
fn available_targets_resolve_an_unnamed_orchestration_to_the_dir_basename() {
    let c = config(vec![orchestration(
        "",
        vec![role("orchestrator", "cat", true)],
    )]);
    let found = available_orchestrations(Some(&c), &at("/home/u/morning-digest"));
    assert_eq!(found, vec![("morning-digest".to_string(), 1)]);
}

#[test]
fn available_targets_without_config_offer_single_only() {
    let found = available_orchestrations(None, &at("/tmp/repo"));
    assert!(found.is_empty());
    let rendered = render_available_targets(&found);
    assert!(rendered.contains("--single"));
    assert!(
        rendered.contains("No orchestrations are defined"),
        "the empty case must state the situation:\n{rendered}"
    );
}

#[test]
fn wire_shape_maps_onto_the_spawn_override() {
    assert_eq!(shape_override_of(None), None);
    assert_eq!(
        shape_override_of(Some(&DispatchShape::SingleAgent)),
        Some(SpawnShapeOverride::SingleAgent)
    );
    assert_eq!(
        shape_override_of(Some(&DispatchShape::Orchestration { name: None })),
        Some(SpawnShapeOverride::Orchestration(None))
    );
    assert_eq!(
        shape_override_of(Some(&DispatchShape::Orchestration {
            name: Some("review".into())
        })),
        Some(SpawnShapeOverride::Orchestration(Some("review".into())))
    );
}

// --- more on naming ---

#[test]
fn names_become_slugs() {
    assert_eq!(sanitize_name("../../etc/passwd"), "_-_-etc-passwd");
    assert_eq!(sanitize_name("..."), "_");
    assert_eq!(sanitize_name("...."), "__");
    assert_eq!(sanitize_name("."), "dispatch");
    assert_eq!(sanitize_name(".\0."), "dispatch");
    assert_eq!(sanitize_name("a.\0.b"), "a--b");
    assert_eq!(sanitize_name("-a-"), "a");
    assert_eq!(sanitize_name("--"), "dispatch");
    assert_eq!(sanitize_name("\0"), "dispatch");
    assert_eq!(sanitize_name(" fix it! "), "fix-it");
    assert_eq!(sanitize_name("größe-Ⅳ"), "größe-Ⅳ");
    assert_eq!(sanitize_name("a😀b"), "a-b");
}

#[test]
fn every_slug_is_usable_and_stays_as_it_is() {
    for name in ["", "..", "/a/../b/", "-x-", "a b c", "ünï", "\u{1}", "x/../../y"] {
        let slug = sanitize_name(name);
        assert!(!slug.is_empty());
        assert!(!slug.starts_with('-') && !slug.ends_with('-'), "{slug}");
        assert!(slug
            .chars()
            .all(|c| c.is_alphanumeric() || c == '-' || c == '_'));
        assert_eq!(sanitize_name(&slug), slug);
    }
}

#[test]
fn worktrees_lie_beside_the_checkout() {
    for dir in ["/home/u/repo", "/repo", "repo", "./repo", "a/./b/", "/x/..hidden"] {
        let paths = derive_dispatch_paths(&at(dir), "n");
        assert_eq!(parent(paths.worktree_dir.as_str()), parent(dir), "{dir}");
        assert_ne!(file_name(paths.worktree_dir.as_str()), file_name(dir), "{dir}");
        assert!(!Path::new(paths.worktree_dir.as_str()).starts_with(dir));
    }
    assert_eq!(derive_dispatch_paths(&at("/"), "x").worktree_dir.as_str(), "/repo-dispatch-x");
    assert_eq!(
        derive_dispatch_paths(&at("/a/.."), "x").worktree_dir.as_str(),
        "/a/repo-dispatch-x"
    );
    assert_eq!(derive_dispatch_paths(&at(""), "x").worktree_dir.as_str(), "repo-dispatch-x");
    assert_eq!(derive_dispatch_paths(&at("."), "x").worktree_dir.as_str(), "repo-dispatch-x");
}

#[test]
fn different_slugs_work_apart() {
    let made = |name: &str| derive_dispatch_paths(&at("/ws/repo"), name);
    assert_ne!(made("a").worktree_dir.as_str(), made("b").worktree_dir.as_str());
    assert_ne!(made("a").branch, made("b").branch);
    assert_eq!(made("a b").worktree_dir.as_str(), made("a-b").worktree_dir.as_str());
    assert_eq!(made("a b").branch, made("-a/b-").branch);
}

#[test]
fn paths_split_and_join_as_in_std() {
    let pieces = ["", "/", ".", "..", "a", ".b", "c.", "...", "ü"];
    let mut all: Vec<String> = pieces.iter().map(|p| p.to_string()).collect();
    for a in pieces {
        for b in pieces {
            all.push(format!("{a}/{b}"));
            all.push(format!("/{a}/{b}/"));
            for c in pieces {
                all.push(format!("{a}/{b}/{c}"));
                all.push(format!("{a}//{b}/./{c}"));
            }
        }
    }
    for p in &all {
        let std_path = Path::new(p);
        assert_eq!(
            file_name(p),
            std_path.file_name().map(|n| n.to_str().unwrap().to_string()),
            "the name of {p:?}"
        );
        assert_eq!(
            parent(p),
            std_path.parent().map(|n| n.to_str().unwrap().to_string()),
            "the parent of {p:?}"
        );
        for q in pieces {
            assert_eq!(join(p, q), std_path.join(q).to_str().unwrap(), "{p:?} and {q:?}");
        }
        assert_eq!(join(p, "/abs"), "/abs");
    }
}

// --- more on targets ---

#[test]
fn the_listing_is_spelled_out() {
    assert_eq!(
        render_available_targets(&[]),
        "Available dispatch targets:\n  single            one agent (--single)\n\nNo orchestrations are defined here, so `single` is the only target.\nDispatch with `--single`.\n"
    );
    assert_eq!(
        render_available_targets(&[("digest".to_string(), 2), ("r".to_string(), 10)]),
        "Available dispatch targets:\n  single            one agent (--single)\n  orchestration     'digest' — 2 roles (--orchestration digest)\n  orchestration     'r' — 10 roles (--orchestration r)\n\nAsk the user which they want before dispatching, then pass the matching flag.\n"
    );
}

#[test]
fn an_orchestration_without_roles_is_not_offered() {
    let c = config(vec![
        orchestration("empty", vec![]),
        orchestration("full", vec![role("a", "sh", true)]),
    ]);
    assert_eq!(
        available_orchestrations(Some(&c), &at("/r")),
        vec![("full".to_string(), 1)]
    );
    let unnamed = config(vec![orchestration("", vec![role("a", "sh", true)])]);
    assert_eq!(
        available_orchestrations(Some(&unnamed), &at("/")),
        vec![("repo".to_string(), 1)]
    );
}

// --- more on the registry ---

#[test]
fn a_worktree_is_taken_once_and_recorded_anew() {
    let mut reg = new_worktree_registry();
    assert!(take_worktree(&mut reg, &at("/w")).is_none());
    record_worktree(&mut reg, &at("/w"), "/c1", RemovalPolicy::Force);
    record_worktree(&mut reg, &at("/v"), "/c2", RemovalPolicy::Force);
    record_worktree(&mut reg, &at("/w"), "/c3", RemovalPolicy::KeepIfDirty);
    let entry = take_worktree(&mut reg, &at("/w")).unwrap();
    assert_eq!(entry.clone_dir, "/c3");
    assert_eq!(entry.policy, RemovalPolicy::KeepIfDirty);
    assert!(take_worktree(&mut reg, &at("/w")).is_none());
    assert_eq!(take_worktree(&mut reg, &at("/v")).unwrap().clone_dir, "/c2");
}

// --- whole dispatches ---

fn begin(name: &str, shape: Option<&DispatchShape>) -> Dispatch {
    let (dispatch, action) = handle_dispatch(&at("/ws/repo"), name, "do it", shape);
    match action {
        DispatchAction::CreateWorktree {
            clone_dir,
            worktree_dir,
            branch,
        } => {
            assert_eq!(clone_dir, "/ws/repo");
            assert_eq!(worktree_dir, "/ws/repo-dispatch-unit");
            assert_eq!(branch, "agent/dispatch-unit");
        }
        other => panic!("expected a worktree, got {other:?}"),
    }
    dispatch
}

fn step(
    dispatch: Dispatch,
    event: DispatchEvent,
    reg: &mut WorktreeRegistry,
) -> (Dispatch, DispatchAction) {
    assert!(dispatch.is_awaiting(&event));
    dispatch.advance(event, reg)
}

fn finished(action: DispatchAction) -> DispatchResult {
    match action {
        DispatchAction::Finish(result) => result,
        other => panic!("expected the end, got {other:?}"),
    }
}

fn spawn_request(action: DispatchAction) -> SpawnRequest {
    match action {
        DispatchAction::Spawn(request) => request,
        other => panic!("expected a spawn, got {other:?}"),
    }
}

fn refused(name: &str, outcome: Result<WorktreeCreation, String>) -> DispatchResult {
    let mut reg = new_worktree_registry();
    record_worktree(&mut reg, &at("/ws/other"), "/ws/repo", RemovalPolicy::Force);
    let (done, action) = step(begin(name, None), DispatchEvent::Worktree(outcome), &mut reg);
    assert!(!done.is_awaiting(&DispatchEvent::WorktreeRemoved));
    assert!(take_worktree(&mut reg, &at("/ws/repo-dispatch-unit")).is_none());
    assert!(take_worktree(&mut reg, &at("/ws/other")).is_some());
    let result = finished(action);
    assert!(!result.success);
    assert_eq!(result.worktree_dir, "/ws/repo-dispatch-unit");
    result
}

#[test]
fn a_worktree_is_found_under_every_spelling_of_its_path() {
    let mut reg = new_worktree_registry();
    record_worktree(&mut reg, &at("/a/./b//x/"), "/c1", RemovalPolicy::Force);
    record_worktree(&mut reg, &at("a/b/x"), "/c2", RemovalPolicy::Force);
    record_worktree(&mut reg, &at("/a/b/../x"), "/c3", RemovalPolicy::Force);
    record_worktree(&mut reg, &at("/a/b/x"), "/c4", RemovalPolicy::KeepIfDirty);
    let entry = take_worktree(&mut reg, &at("/a/b/x/.")).unwrap();
    assert_eq!(entry.clone_dir, "/c4");
    assert_eq!(entry.policy, RemovalPolicy::KeepIfDirty);
    assert!(take_worktree(&mut reg, &at("/a/./b//x/")).is_none());
    assert!(take_worktree(&mut reg, &at("./a/b/x")).is_none());
    assert_eq!(take_worktree(&mut reg, &at("a//b/./x")).unwrap().clone_dir, "/c2");
    assert_eq!(take_worktree(&mut reg, &at("/a/b/../x")).unwrap().clone_dir, "/c3");
}

#[test]
fn paths_of_this_host_are_read_as_std_reads_them() {
    for text in ["", "/", ".", "..", "/a/b", "/a/b/..", "a//b/.", "/a\\b", "C:\\a", "/it's/\n"] {
        let native = at(text);
        let path = Path::new(text);
        assert_eq!(native.as_str(), text);
        assert_eq!(native.file_name(), path.file_name().map(|n| n.to_str().unwrap().to_string()));
        assert_eq!(
            native.parent().map(|p| p.as_str().to_string()),
            path.parent().map(|p| p.to_str().unwrap().to_string())
        );
        assert_eq!(native.join("x y").as_str(), path.join("x y").to_str().unwrap());
        assert_eq!(native.shown(), format!("{path:?}"));
        for other in ["/a/./b", "/a/b/", "/a", ".", "C:/a", "/a/b"] {
            assert_eq!(native.same(&at(other)), path == Path::new(other));
            assert_eq!(native.with_text(other).as_str(), other);
        }
        assert!(native.copied().same(&native));
    }
}

#[test]
fn paths_are_the_same_where_their_components_are() {
    let spellings = [
        "", ".", "/", "./", "/.", "//", "a", "./a", "a/", "a/.", "a/./", "/a", "/./a", "//a", "..",
        "../a", "a/..", "a/b", "a//b", "a/./b", "./a/b", ".a", "a.", "/a/b", "/a/b/", "/a/../b",
        "...", "/...", ".//a", "././a",
    ];
    for a in spellings {
        for b in spellings {
            assert_eq!(
                same_path(a, b),
                Path::new(a) == Path::new(b),
                "{a:?} and {b:?}"
            );
        }
        let parts: Vec<String> = Path::new(a)
            .components()
            .map(|c| c.as_os_str().to_string_lossy().into_owned())
            .collect();
        assert_eq!(split(a), parts, "{a:?}");
        let mut inside = split(a);
        inside.push("name".to_string());
        assert_eq!(split(&join(a, "name")), inside);
    }
}

#[test]
fn a_refused_dispatch_says_why_and_registers_nothing() {
    assert_eq!(
        refused("unit", Ok(WorktreeCreation::AlreadyClaimed)).message,
        "dispatch: worktree /ws/repo-dispatch-unit is already claimed by another dispatch. Wait for it to finish, or dispatch under a different name."
    );
    assert_eq!(
        refused("unit!", Ok(WorktreeCreation::BranchExists)).message,
        "dispatch: branch agent/dispatch-unit already exists from an earlier dispatch named 'unit!' (its worktree is already gone). That branch may hold committed work, so it is left alone. Dispatch under a different name, or run `git -C /ws/repo branch -D agent/dispatch-unit` first if you are done with it."
    );
    assert_eq!(
        refused("unit", Err("no git".to_string())).message,
        "dispatch: failed to create worktree: no git"
    );
}

#[test]
fn a_dispatch_starts_what_was_asked_for_and_reports_what_was_started() {
    let mut reg = new_worktree_registry();
    let shape = DispatchShape::Orchestration {
        name: Some("review".to_string()),
    };
    let created = DispatchEvent::Worktree(Ok(WorktreeCreation::Created));
    let (dispatch, action) = step(begin("unit", Some(&shape)), created, &mut reg);
    let request = spawn_request(action);
    assert_eq!(request.task_name, "dispatch-unit");
    assert_eq!(request.working_dir, "/ws/repo-dispatch-unit");
    assert_eq!(request.command, None);
    assert_eq!(request.prompt, "do it");
    assert_eq!(
        request.shape_override,
        Some(SpawnShapeOverride::Orchestration(Some("review".to_string())))
    );
    let spawned = DispatchEvent::Spawned(Ok(SpawnKind::Orchestration {
        name: "review".to_string(),
    }));
    let (_, action) = step(dispatch, spawned, &mut reg);
    let result = finished(action);
    assert!(result.success);
    assert_eq!(result.worktree_dir, "/ws/repo-dispatch-unit");
    assert_eq!(
        result.message,
        "dispatch: spawned isolated orchestration 'review' for 'unit' in /ws/repo-dispatch-unit"
    );
    let entry = take_worktree(&mut reg, &at("/ws/repo-dispatch-unit")).unwrap();
    assert_eq!(entry.clone_dir, "/ws/repo");
    assert_eq!(entry.policy, RemovalPolicy::KeepIfDirty);
}

#[test]
fn a_single_agent_is_reported_as_one() {
    let mut reg = new_worktree_registry();
    let created = DispatchEvent::Worktree(Ok(WorktreeCreation::Created));
    let (dispatch, action) = step(begin("unit", None), created, &mut reg);
    assert_eq!(spawn_request(action).shape_override, None);
    let spawned = DispatchEvent::Spawned(Ok(SpawnKind::SingleAgent));
    let (_, action) = step(dispatch, spawned, &mut reg);
    assert_eq!(
        finished(action).message,
        "dispatch: spawned isolated agent for 'unit' in /ws/repo-dispatch-unit"
    );
}

#[test]
fn a_failed_spawn_is_rolled_back_and_unregistered() {
    for (deleted, note) in [
        (true, ""),
        (
            false,
            " (cleanup failed: branch may still exist — name may be wedged)",
        ),
    ] {
        let mut reg = new_worktree_registry();
        record_worktree(&mut reg, &at("/ws/other"), "/ws/repo", RemovalPolicy::Force);
        let created = DispatchEvent::Worktree(Ok(WorktreeCreation::Created));
        let (dispatch, _) = step(begin("unit", None), created, &mut reg);
        let failed = DispatchEvent::Spawned(Err("no pty".to_string()));
        let (dispatch, action) = step(dispatch, failed, &mut reg);
        match action {
            DispatchAction::RemoveWorktree {
                worktree_dir,
                clone_dir,
                policy,
            } => {
                assert_eq!(worktree_dir, "/ws/repo-dispatch-unit");
                assert_eq!(clone_dir, "/ws/repo");
                assert_eq!(policy, RemovalPolicy::Force);
            }
            other => panic!("expected a removal, got {other:?}"),
        }
        let (dispatch, action) = step(dispatch, DispatchEvent::WorktreeRemoved, &mut reg);
        match action {
            DispatchAction::DeleteBranch { clone_dir, branch } => {
                assert_eq!(clone_dir, "/ws/repo");
                assert_eq!(branch, "agent/dispatch-unit");
            }
            other => panic!("expected a deletion, got {other:?}"),
        }
        let (_, action) = step(dispatch, DispatchEvent::BranchDeleted(deleted), &mut reg);
        let result = finished(action);
        assert!(!result.success);
        assert_eq!(
            result.message,
            format!("dispatch: spawn failed: no pty{note}")
        );
        assert!(take_worktree(&mut reg, &at("/ws/repo-dispatch-unit")).is_none());
        assert!(take_worktree(&mut reg, &at("/ws/other")).is_some());
    }
}

#[test]
fn a_dispatch_takes_only_the_outcome_of_what_it_asked_for() {
    let dispatch = begin("unit", None);
    assert!(!dispatch.is_awaiting(&DispatchEvent::WorktreeRemoved));
    assert!(!dispatch.is_awaiting(&DispatchEvent::BranchDeleted(true)));
    assert!(!dispatch.is_awaiting(&DispatchEvent::Spawned(Ok(SpawnKind::SingleAgent))));
    assert!(dispatch.is_awaiting(&DispatchEvent::Worktree(Err(String::new()))));
}
