//! Adding files to an existing chunk, at the state level: what the add flow
//! leaves in the chunk list and which branch the tree ends on.

use merges::action::GitAction;
use merges::mutate::add_files;
use merges::state::Chunk;
use merges::state::MergesState;
use merges::state::Strategy;

fn one_chunk_state() -> MergesState {
    MergesState {
        base_branch: "main".to_string(),
        source_branch: "feat/big".to_string(),
        repo_owner: "acme".to_string(),
        repo_name: "myrepo".to_string(),
        strategy: Strategy::Stacked,
        use_worktrees: false,
        chunks: vec![Chunk {
            name: "part-a".to_string(),
            branch: "feat/big-chunk-1-part-a".to_string(),
            files: vec!["src/a.rs".to_string()],
            pr_number: None,
            pr_url: None,
        }],
    }
}

fn diff(files: &[&str]) -> Vec<String> {
    files.iter().map(|f| f.to_string()).collect()
}

#[test]
fn test_add_file_to_existing_chunk() {
    let state = one_chunk_state();
    let changed = diff(&["src/a.rs", "src/b.rs"]);
    let script =
        add_files(&state, "part-a", &vec!["src/b.rs".to_string()], &changed).unwrap();
    let files = &script.new_state.chunks[0].files;
    assert!(
        files.contains(&"src/a.rs".to_string()) && files.contains(&"src/b.rs".to_string()),
        "Both original and newly added file should be in chunk"
    );
}

#[test]
fn test_add_updates_state_file() {
    let state = one_chunk_state();
    let changed = diff(&["src/a.rs", "src/b.rs"]);
    let script =
        add_files(&state, "part-a", &vec!["src/b.rs".to_string()], &changed).unwrap();
    assert!(
        script.new_state.chunks[0].files.contains(&"src/b.rs".to_string()),
        "State should include newly added file, files: {:?}",
        script.new_state.chunks[0].files
    );
}

#[test]
fn test_add_idempotent_for_existing_file() {
    let state = one_chunk_state();
    let changed = diff(&["src/a.rs", "src/b.rs"]);
    let script =
        add_files(&state, "part-a", &vec!["src/a.rs".to_string()], &changed).unwrap();
    let count = script.new_state.chunks[0]
        .files
        .iter()
        .filter(|f| f.as_str() == "src/a.rs")
        .count();
    assert_eq!(count, 1, "File should appear exactly once even after duplicate add");
}

#[test]
fn test_add_restores_source_branch() {
    let state = one_chunk_state();
    let changed = diff(&["src/a.rs", "src/c.rs"]);
    let script =
        add_files(&state, "part-a", &vec!["src/c.rs".to_string()], &changed).unwrap();
    assert!(
        matches!(
            script.actions.last().unwrap(),
            GitAction::Checkout { branch } if branch == "feat/big"
        ),
        "Source branch should be active after add"
    );
}

#[test]
fn test_add_multiple_files_at_once() {
    let state = one_chunk_state();
    let changed = diff(&["src/a.rs", "src/b.rs", "src/c.rs"]);
    let script = add_files(
        &state,
        "part-a",
        &vec!["src/b.rs".to_string(), "src/c.rs".to_string()],
        &changed,
    )
    .unwrap();
    let files = &script.new_state.chunks[0].files;
    assert!(files.contains(&"src/b.rs".to_string()));
    assert!(files.contains(&"src/c.rs".to_string()));
}
