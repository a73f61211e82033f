//! The plan materializer: validation, the emitted action script, rollback.

use merges::action::GitAction;
use merges::action::WorkDir;
use merges::error::MergesError;
use merges::group::ChunkPlan;
use merges::plan::apply_plan;
use merges::plan::commit_plan;
use merges::plan::created_in_prefix;
use merges::plan::rollback_plan;
use merges::state::Chunk;
use merges::state::MergesState;
use merges::state::Strategy;

fn state_with(chunks: Vec<Chunk>, use_worktrees: bool) -> MergesState {
    MergesState {
        base_branch: "main".to_string(),
        source_branch: "feat/big".to_string(),
        repo_owner: "acme".to_string(),
        repo_name: "myrepo".to_string(),
        strategy: Strategy::Stacked,
        use_worktrees,
        chunks,
    }
}

fn plan_entry(name: &str, files: &[&str]) -> ChunkPlan {
    ChunkPlan {
        name: name.to_string(),
        files: files.iter().map(|f| f.to_string()).collect(),
    }
}

fn diff(files: &[&str]) -> Vec<String> {
    files.iter().map(|f| f.to_string()).collect()
}

#[test]
fn test_apply_plan_two_chunks_scenario() {
    let state = state_with(vec![], false);
    let changed =
        diff(&["src/models/user.rs", "src/models/post.rs", "src/api/routes.rs",
            "src/api/handlers.rs"]);
    let plan = vec![
        plan_entry("models", &["src/models/user.rs", "src/models/post.rs"]),
        plan_entry("api", &["src/api/routes.rs", "src/api/handlers.rs"]),
    ];
    let script = apply_plan(&state, &plan, &changed, "abc123").unwrap();

    assert_eq!(script.new_chunks.len(), 2);
    assert_eq!(script.new_chunks[0].name, "models");
    assert_eq!(script.new_chunks[0].branch, "feat/big-chunk-1-models");
    assert_eq!(
        script.new_chunks[0].files,
        vec!["src/models/user.rs".to_string(), "src/models/post.rs".to_string()]
    );
    assert_eq!(script.new_chunks[1].branch, "feat/big-chunk-2-api");

    let after = commit_plan(&state, script.new_chunks);
    assert_eq!(after.chunks.len(), 2);
    assert_eq!(after.chunks[0].name, "models");
    assert_eq!(after.chunks[1].name, "api");
}

#[test]
fn test_apply_plan_shared_tree_action_order() {
    let state = state_with(vec![], false);
    let changed = diff(&["src/a.rs"]);
    let plan = vec![plan_entry("part-a", &["src/a.rs"])];
    let script = apply_plan(&state, &plan, &changed, "abc123").unwrap();

    assert_eq!(script.actions.len(), 4);
    assert!(matches!(
        &script.actions[0],
        GitAction::CreateBranch { branch, base_ref }
            if branch == "feat/big-chunk-1-part-a" && base_ref == "abc123"
    ));
    assert!(matches!(
        &script.actions[1],
        GitAction::CopyFiles { dir: WorkDir::Root, source, files }
            if source == "feat/big" && files == &vec!["src/a.rs".to_string()]
    ));
    assert!(matches!(&script.actions[2], GitAction::Commit { dir: WorkDir::Root, .. }));
    assert!(matches!(
        &script.actions[3],
        GitAction::Checkout { branch } if branch == "feat/big"
    ));
}

#[test]
fn test_apply_plan_worktree_action_order() {
    let state = state_with(vec![], true);
    let changed = diff(&["src/a.rs"]);
    let plan = vec![plan_entry("part-a", &["src/a.rs"])];
    let script = apply_plan(&state, &plan, &changed, "abc123").unwrap();

    assert_eq!(script.actions.len(), 3);
    assert!(matches!(
        &script.actions[0],
        GitAction::AddWorktree { branch, base_ref }
            if branch == "feat/big-chunk-1-part-a" && base_ref == "abc123"
    ));
    assert!(matches!(
        &script.actions[1],
        GitAction::CopyFiles { dir: WorkDir::Worktree { branch }, .. }
            if branch == "feat/big-chunk-1-part-a"
    ));
    assert!(matches!(&script.actions[2], GitAction::Commit { .. }));
}

#[test]
fn test_apply_plan_commit_message_names_chunk_and_files() {
    let state = state_with(vec![], false);
    let changed = diff(&["src/a.rs", "src/b.rs"]);
    let plan = vec![plan_entry("My Part", &["src/a.rs", "src/b.rs"])];
    let script = apply_plan(&state, &plan, &changed, "abc123").unwrap();

    match &script.actions[2] {
        GitAction::Commit { message, .. } => {
            assert_eq!(message, "feat(my-part): chunk 1 - My Part\n\nFiles:\nsrc/a.rs\nsrc/b.rs");
        },
        other => panic!("expected a commit action, got {:?}", other),
    }
}

#[test]
fn test_apply_plan_prefixes_message_with_ticket() {
    let mut state = state_with(vec![], false);
    state.source_branch = "JCLARK-97246-poc".to_string();
    let changed = diff(&["src/a.rs"]);
    let plan = vec![plan_entry("models", &["src/a.rs"])];
    let script = apply_plan(&state, &plan, &changed, "abc123").unwrap();

    match &script.actions[2] {
        GitAction::Commit { message, .. } => {
            assert!(message.starts_with("JCLARK-97246 feat(models): chunk 1 - models"));
        },
        other => panic!("expected a commit action, got {:?}", other),
    }
}

#[test]
fn test_apply_plan_ordinals_continue_after_existing_chunks() {
    let existing = Chunk {
        name: "first".to_string(),
        branch: "feat/big-chunk-1-first".to_string(),
        files: vec!["src/z.rs".to_string()],
        pr_number: None,
        pr_url: None,
    };
    let state = state_with(vec![existing], false);
    let changed = diff(&["src/a.rs"]);
    let plan = vec![plan_entry("second", &["src/a.rs"])];
    let script = apply_plan(&state, &plan, &changed, "abc123").unwrap();
    assert_eq!(script.new_chunks[0].branch, "feat/big-chunk-2-second");
}

#[test]
fn test_apply_plan_returns_to_source_branch() {
    let state = state_with(vec![], false);
    let changed = diff(&["src/models/user.rs", "src/models/post.rs"]);
    let plan = vec![plan_entry("models", &["src/models/user.rs", "src/models/post.rs"])];
    let script = apply_plan(&state, &plan, &changed, "abc123").unwrap();
    assert!(
        matches!(
            script.actions.last().unwrap(),
            GitAction::Checkout { branch } if branch == "feat/big"
        ),
        "Should return to source branch after split"
    );
}

#[test]
fn test_apply_plan_updates_state_file() {
    let state = state_with(vec![], false);
    let changed = diff(&["src/models/user.rs", "src/models/post.rs", "src/api/routes.rs"]);
    let plan = vec![
        plan_entry("models", &["src/models/user.rs", "src/models/post.rs"]),
        plan_entry("api", &["src/api/routes.rs"]),
    ];
    let script = apply_plan(&state, &plan, &changed, "abc123").unwrap();
    let after = commit_plan(&state, script.new_chunks);
    assert_eq!(after.chunks[0].name, "models");
    assert_eq!(after.chunks[1].name, "api");
    assert!(after.chunks[0].files.contains(&"src/models/user.rs".to_string()));
    assert!(after.chunks[0].files.contains(&"src/models/post.rs".to_string()));
}

#[test]
fn test_apply_plan_chunk_branches_contain_correct_files() {
    let state = state_with(vec![], false);
    let changed = diff(&["src/models/user.rs", "src/models/post.rs", "src/api/routes.rs"]);
    let plan = vec![
        plan_entry("models", &["src/models/post.rs", "src/models/user.rs"]),
        plan_entry("api", &["src/api/routes.rs"]),
    ];
    let script = apply_plan(&state, &plan, &changed, "abc123").unwrap();
    match &script.actions[1] {
        GitAction::CopyFiles { files, .. } => {
            let mut copied = files.clone();
            copied.sort();
            assert_eq!(
                copied,
                vec!["src/models/post.rs".to_string(), "src/models/user.rs".to_string()],
                "models chunk should only contain model files, got: {:?}",
                copied
            );
        },
        other => panic!("expected a copy action, got {:?}", other),
    }
}

#[test]
fn test_apply_plan_empty_plan_returns_error() {
    let state = state_with(vec![], false);
    let changed = diff(&["src/a.rs"]);
    let err = apply_plan(&state, &Vec::new(), &changed, "abc123").unwrap_err();
    assert!(matches!(err, MergesError::EmptyPlan));
}

#[test]
fn test_apply_plan_file_not_in_diff_returns_error() {
    let state = state_with(vec![], false);
    let changed = diff(&["src/a.rs"]);
    let plan = vec![plan_entry("nonexistent", &["does/not/exist.rs"])];
    let err = apply_plan(&state, &plan, &changed, "abc123").unwrap_err();
    match err {
        MergesError::FileNotInDiff { file } => assert_eq!(file, "does/not/exist.rs"),
        other => panic!("expected a file-not-in-diff error, got {:?}", other),
    }
    let msg = MergesError::FileNotInDiff { file: "does/not/exist.rs".to_string() }.message();
    assert!(msg.contains("does/not/exist.rs"), "Error should name the bad file, got: {}", msg);
}

#[test]
fn test_apply_plan_rejects_duplicate_file_within_chunk() {
    let state = state_with(vec![], false);
    let changed = diff(&["src/models/user.rs"]);
    let plan = vec![plan_entry("models", &["src/models/user.rs", "src/models/user.rs"])];
    let err = apply_plan(&state, &plan, &changed, "abc123").unwrap_err();
    assert!(matches!(err, MergesError::DuplicateFile { .. }),
        "Should reject duplicate within a single chunk");
}

#[test]
fn test_apply_plan_rejects_duplicate_file_across_chunks() {
    let state = state_with(vec![], false);
    let changed = diff(&["src/models/user.rs", "src/api/routes.rs"]);
    let plan = vec![
        plan_entry("models", &["src/models/user.rs"]),
        plan_entry("api", &["src/models/user.rs", "src/api/routes.rs"]),
    ];
    let err = apply_plan(&state, &plan, &changed, "abc123").unwrap_err();
    match err {
        MergesError::DuplicateFile { file } => assert_eq!(file, "src/models/user.rs"),
        other => panic!("expected a duplicate-file error, got {:?}", other),
    }
}

#[test]
fn test_apply_plan_rejects_file_already_in_existing_chunk() {
    let existing = Chunk {
        name: "first".to_string(),
        branch: "feat/big-chunk-1-first".to_string(),
        files: vec!["src/models/user.rs".to_string()],
        pr_number: None,
        pr_url: None,
    };
    let state = state_with(vec![existing], false);
    let changed = diff(&["src/models/user.rs"]);
    let plan = vec![plan_entry("second", &["src/models/user.rs"])];
    let err = apply_plan(&state, &plan, &changed, "abc123").unwrap_err();
    assert!(matches!(err, MergesError::DuplicateFile { .. }),
        "Should reject file already in an existing chunk");
}

#[test]
fn test_created_in_prefix_lists_branches_made_so_far() {
    let state = state_with(vec![], false);
    let changed = diff(&["src/a.rs", "src/b.rs"]);
    let plan = vec![
        plan_entry("first", &["src/a.rs"]),
        plan_entry("second", &["src/b.rs"]),
    ];
    let script = apply_plan(&state, &plan, &changed, "abc123").unwrap();
    // failure during the second chunk's copy step: 4 actions of chunk one,
    // plus the create of chunk two, have run
    let created = created_in_prefix(&script.actions, 5);
    assert_eq!(
        created,
        vec!["feat/big-chunk-1-first".to_string(), "feat/big-chunk-2-second".to_string()]
    );
    assert_eq!(created_in_prefix(&script.actions, 0), Vec::<String>::new());
}

#[test]
fn test_rollback_plan_shared_tree_checks_out_source_then_deletes() {
    let created = vec!["feat/big-chunk-1-first".to_string()];
    let actions = rollback_plan(&created, false, "feat/big");
    assert_eq!(actions.len(), 2);
    assert!(matches!(
        &actions[0],
        GitAction::Checkout { branch } if branch == "feat/big"
    ));
    assert!(matches!(
        &actions[1],
        GitAction::DeleteBranch { branch } if branch == "feat/big-chunk-1-first"
    ));
}

#[test]
fn test_rollback_plan_worktrees_removes_worktree_before_branch() {
    let created = vec!["b1".to_string(), "b2".to_string()];
    let actions = rollback_plan(&created, true, "feat/big");
    assert_eq!(actions.len(), 4);
    assert!(matches!(&actions[0], GitAction::RemoveWorktree { branch } if branch == "b1"));
    assert!(matches!(&actions[1], GitAction::DeleteBranch { branch } if branch == "b1"));
    assert!(matches!(&actions[2], GitAction::RemoveWorktree { branch } if branch == "b2"));
    assert!(matches!(&actions[3], GitAction::DeleteBranch { branch } if branch == "b2"));
}

#[test]
fn test_commit_plan_keeps_prior_chunks_and_appends() {
    let existing = Chunk {
        name: "first".to_string(),
        branch: "feat/big-chunk-1-first".to_string(),
        files: vec!["src/z.rs".to_string()],
        pr_number: Some(7),
        pr_url: Some("https://github.com/acme/myrepo/pull/7".to_string()),
    };
    let state = state_with(vec![existing], false);
    let new_chunk = Chunk {
        name: "second".to_string(),
        branch: "feat/big-chunk-2-second".to_string(),
        files: vec!["src/a.rs".to_string()],
        pr_number: None,
        pr_url: None,
    };
    let after = commit_plan(&state, vec![new_chunk]);
    assert_eq!(after.chunks.len(), 2);
    assert_eq!(after.chunks[0].name, "first");
    assert_eq!(after.chunks[0].pr_number, Some(7));
    assert_eq!(after.chunks[1].name, "second");
    assert_eq!(after.base_branch, "main");
    assert_eq!(after.source_branch, "feat/big");
}
