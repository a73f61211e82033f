//! Adding files to a chunk and moving a file between chunks.

use merges::action::GitAction;
use merges::action::WorkDir;
use merges::error::MergesError;
use merges::mutate::add_files;
use merges::mutate::move_file;
use merges::state::Chunk;
use merges::state::MergesState;
use merges::state::Strategy;

fn chunk(name: &str, branch: &str, files: &[&str]) -> Chunk {
    Chunk {
        name: name.to_string(),
        branch: branch.to_string(),
        files: files.iter().map(|f| f.to_string()).collect(),
        pr_number: None,
        pr_url: None,
    }
}

fn two_chunk_state() -> MergesState {
    MergesState {
        base_branch: "main".to_string(),
        source_branch: "feat/big".to_string(),
        repo_owner: "acme".to_string(),
        repo_name: "myrepo".to_string(),
        strategy: Strategy::Stacked,
        use_worktrees: false,
        chunks: vec![
            chunk("chunk-a", "feat/big-chunk-1-chunk-a", &["src/a.rs", "src/b.rs"]),
            chunk("chunk-b", "feat/big-chunk-2-chunk-b", &["src/c.rs"]),
        ],
    }
}

fn diff(files: &[&str]) -> Vec<String> {
    files.iter().map(|f| f.to_string()).collect()
}

#[test]
fn test_add_files_appends_new_files_to_chunk() {
    let state = two_chunk_state();
    let changed = diff(&["src/a.rs", "src/b.rs", "src/c.rs", "src/d.rs"]);
    let script =
        add_files(&state, "chunk-a", &vec!["src/d.rs".to_string()], &changed).unwrap();
    assert_eq!(
        script.new_state.chunks[0].files,
        vec!["src/a.rs".to_string(), "src/b.rs".to_string(), "src/d.rs".to_string()]
    );
    assert_eq!(script.new_state.chunks[1].files, vec!["src/c.rs".to_string()]);
    assert_eq!(script.actions.len(), 4);
    assert!(matches!(
        &script.actions[0],
        GitAction::Checkout { branch } if branch == "feat/big-chunk-1-chunk-a"
    ));
    assert!(matches!(&script.actions[2], GitAction::Amend { dir: WorkDir::Root }));
    assert!(matches!(
        &script.actions[3],
        GitAction::Checkout { branch } if branch == "feat/big"
    ));
}

#[test]
fn test_add_files_idempotent_for_existing_file() {
    let state = two_chunk_state();
    let changed = diff(&["src/a.rs", "src/b.rs", "src/c.rs"]);
    let script =
        add_files(&state, "chunk-a", &vec!["src/a.rs".to_string()], &changed).unwrap();
    assert!(script.actions.is_empty(), "Nothing to do when the file is already in the chunk");
    assert_eq!(
        script.new_state.chunks[0].files,
        vec!["src/a.rs".to_string(), "src/b.rs".to_string()],
        "File should appear exactly once even after duplicate add"
    );
}

#[test]
fn test_add_files_drops_only_already_present_files() {
    let state = two_chunk_state();
    let changed = diff(&["src/a.rs", "src/b.rs", "src/c.rs", "src/d.rs"]);
    let script = add_files(
        &state,
        "chunk-a",
        &vec!["src/a.rs".to_string(), "src/d.rs".to_string()],
        &changed,
    )
    .unwrap();
    assert_eq!(
        script.new_state.chunks[0].files,
        vec!["src/a.rs".to_string(), "src/b.rs".to_string(), "src/d.rs".to_string()]
    );
    match &script.actions[1] {
        GitAction::CopyFiles { files, .. } => {
            assert_eq!(files, &vec!["src/d.rs".to_string()]);
        },
        other => panic!("expected a copy action, got {:?}", other),
    }
}

#[test]
fn test_add_files_in_worktree_mode_never_switches_branch() {
    let mut state = two_chunk_state();
    state.use_worktrees = true;
    let changed = diff(&["src/a.rs", "src/b.rs", "src/c.rs", "src/d.rs"]);
    let script =
        add_files(&state, "chunk-a", &vec!["src/d.rs".to_string()], &changed).unwrap();
    assert_eq!(script.actions.len(), 2);
    assert!(matches!(
        &script.actions[0],
        GitAction::CopyFiles { dir: WorkDir::Worktree { branch }, .. }
            if branch == "feat/big-chunk-1-chunk-a"
    ));
    assert!(matches!(&script.actions[1], GitAction::Amend { dir: WorkDir::Worktree { .. } }));
}

#[test]
fn test_add_to_nonexistent_chunk_returns_error() {
    let state = two_chunk_state();
    let changed = diff(&["src/a.rs", "src/b.rs", "src/c.rs"]);
    let err = add_files(&state, "no-such-chunk", &vec!["src/b.rs".to_string()], &changed)
        .unwrap_err();
    match err {
        MergesError::UnknownChunk { ref name, ref available } => {
            assert_eq!(name, "no-such-chunk");
            assert_eq!(available, &vec!["chunk-a".to_string(), "chunk-b".to_string()]);
        },
        ref other => panic!("expected an unknown-chunk error, got {:?}", other),
    }
    let msg = err.message();
    assert!(msg.contains("no-such-chunk"), "Error should name the missing chunk: {}", msg);
}

#[test]
fn test_add_file_not_in_diff_returns_error() {
    let state = two_chunk_state();
    let changed = diff(&["src/a.rs", "src/b.rs", "src/c.rs"]);
    let err = add_files(&state, "chunk-a", &vec!["src/nonexistent.rs".to_string()], &changed)
        .unwrap_err();
    match err {
        MergesError::FileNotInDiff { ref file } => assert_eq!(file, "src/nonexistent.rs"),
        ref other => panic!("expected a file-not-in-diff error, got {:?}", other),
    }
    let msg = err.message();
    assert!(msg.contains("nonexistent.rs"), "Error should name the bad file: {}", msg);
}

#[test]
fn test_add_no_files_returns_error() {
    let state = two_chunk_state();
    let changed = diff(&["src/a.rs"]);
    let err = add_files(&state, "chunk-a", &Vec::new(), &changed).unwrap_err();
    assert!(matches!(err, MergesError::NoFiles));
}

#[test]
fn test_add_file_owned_by_other_chunk_returns_error() {
    let state = two_chunk_state();
    let changed = diff(&["src/a.rs", "src/b.rs", "src/c.rs"]);
    let err = add_files(&state, "chunk-a", &vec!["src/c.rs".to_string()], &changed)
        .unwrap_err();
    assert!(
        matches!(err, MergesError::DuplicateFile { ref file } if file == "src/c.rs"),
        "Adding a file another chunk owns must be rejected"
    );
}

#[test]
fn test_add_drops_duplicate_within_request() {
    let state = two_chunk_state();
    let changed = diff(&["src/a.rs", "src/b.rs", "src/c.rs", "src/d.rs"]);
    let script = add_files(
        &state,
        "chunk-a",
        &vec!["src/d.rs".to_string(), "src/d.rs".to_string()],
        &changed,
    )
    .unwrap();
    let count = script.new_state.chunks[0]
        .files
        .iter()
        .filter(|f| f.as_str() == "src/d.rs")
        .count();
    assert_eq!(count, 1, "A file named twice in one request is added once");
}

#[test]
fn test_unknown_chunk_error_lists_available_chunks() {
    let state = two_chunk_state();
    let changed = diff(&["src/a.rs"]);
    let msg = add_files(&state, "no-such-chunk", &vec!["src/a.rs".to_string()], &changed)
        .unwrap_err()
        .message();
    assert!(
        msg.contains("chunk-a") && msg.contains("chunk-b"),
        "Error should list the available chunks: {}",
        msg
    );
}

#[test]
fn test_file_not_in_chunk_error_lists_members() {
    let state = two_chunk_state();
    let msg = move_file(&state, "src/c.rs", "chunk-a", "chunk-b").unwrap_err().message();
    assert!(
        msg.contains("src/a.rs") && msg.contains("src/b.rs"),
        "Error should list the chunk's files: {}",
        msg
    );
}

#[test]
fn test_move_within_same_chunk_returns_error() {
    let state = two_chunk_state();
    let err = move_file(&state, "src/b.rs", "chunk-a", "chunk-a").unwrap_err();
    assert!(
        matches!(err, MergesError::SameChunk { ref chunk } if chunk == "chunk-a"),
        "Moving a file onto its own chunk must be rejected"
    );
}

#[test]
fn test_move_file_between_chunks_scenario() {
    let state = two_chunk_state();
    let script = move_file(&state, "src/b.rs", "chunk-a", "chunk-b").unwrap();

    assert_eq!(
        script.new_state.chunks[0].files,
        vec!["src/a.rs".to_string()],
        "File should be removed from source chunk"
    );
    assert_eq!(
        script.new_state.chunks[1].files,
        vec!["src/c.rs".to_string(), "src/b.rs".to_string()],
        "File should be appended to dest chunk"
    );

    assert_eq!(script.actions.len(), 6);
    assert!(matches!(
        &script.actions[0],
        GitAction::Checkout { branch } if branch == "feat/big-chunk-1-chunk-a"
    ));
    assert!(matches!(
        &script.actions[1],
        GitAction::RemoveFileFromTip { file, .. } if file == "src/b.rs"
    ));
    assert!(matches!(
        &script.actions[2],
        GitAction::Checkout { branch } if branch == "feat/big-chunk-2-chunk-b"
    ));
    assert!(matches!(
        &script.actions[3],
        GitAction::CopyFiles { files, .. } if files == &vec!["src/b.rs".to_string()]
    ));
    assert!(matches!(&script.actions[4], GitAction::Amend { .. }));
    assert!(matches!(
        &script.actions[5],
        GitAction::Checkout { branch } if branch == "feat/big"
    ));
}

#[test]
fn test_move_file_already_in_dest_skips_dest_actions() {
    let mut state = two_chunk_state();
    state.chunks[1].files.push("src/b.rs".to_string());
    let script = move_file(&state, "src/b.rs", "chunk-a", "chunk-b").unwrap();
    // no checkout of the destination branch, no copy, no amend
    assert_eq!(script.actions.len(), 3);
    assert_eq!(
        script.new_state.chunks[1].files,
        vec!["src/c.rs".to_string(), "src/b.rs".to_string()]
    );
}

#[test]
fn test_move_file_not_in_source_chunk_errors() {
    let state = two_chunk_state();
    let err = move_file(&state, "src/c.rs", "chunk-a", "chunk-b").unwrap_err();
    match err {
        MergesError::FileNotInChunk { ref file, ref chunk, ref members } => {
            assert_eq!(file, "src/c.rs");
            assert_eq!(chunk, "chunk-a");
            assert_eq!(members, &vec!["src/a.rs".to_string(), "src/b.rs".to_string()]);
        },
        ref other => panic!("expected a file-not-in-chunk error, got {:?}", other),
    }
    let msg = err.message();
    assert!(
        msg.contains("src/c.rs") && msg.contains("chunk-a"),
        "Error should name the file or chunk: {}",
        msg
    );
}

#[test]
fn test_move_to_nonexistent_chunk_errors() {
    let state = two_chunk_state();
    let err = move_file(&state, "src/b.rs", "chunk-a", "no-such-chunk").unwrap_err();
    assert!(
        matches!(err, MergesError::UnknownChunk { ref name, .. } if name == "no-such-chunk"),
        "Should fail when dest chunk doesn't exist"
    );
}

#[test]
fn test_move_from_nonexistent_chunk_errors() {
    let state = two_chunk_state();
    let err = move_file(&state, "src/b.rs", "no-such-chunk", "chunk-b").unwrap_err();
    assert!(
        matches!(err, MergesError::UnknownChunk { ref name, .. } if name == "no-such-chunk"),
        "Should fail when src chunk doesn't exist"
    );
}
