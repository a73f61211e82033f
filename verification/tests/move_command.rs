//! Moving a file between chunks, at the state level: what the move flow
//! leaves in the chunk list and which branch the tree ends on.

use merges::action::GitAction;
use merges::mutate::move_file;
use merges::state::Chunk;
use merges::state::MergesState;
use merges::state::Strategy;

fn two_chunk_state() -> MergesState {
    MergesState {
        base_branch: "main".to_string(),
        source_branch: "feat/big".to_string(),
        repo_owner: "acme".to_string(),
        repo_name: "myrepo".to_string(),
        strategy: Strategy::Stacked,
        use_worktrees: false,
        chunks: vec![
            Chunk {
                name: "chunk-a".to_string(),
                branch: "feat/big-chunk-1-chunk-a".to_string(),
                files: vec!["src/a.rs".to_string(), "src/b.rs".to_string()],
                pr_number: None,
                pr_url: None,
            },
            Chunk {
                name: "chunk-b".to_string(),
                branch: "feat/big-chunk-2-chunk-b".to_string(),
                files: vec!["src/c.rs".to_string()],
                pr_number: None,
                pr_url: None,
            },
        ],
    }
}

#[test]
fn test_move_removes_from_source_chunk() {
    let script = move_file(&two_chunk_state(), "src/b.rs", "chunk-a", "chunk-b").unwrap();
    assert!(
        !script.new_state.chunks[0].files.contains(&"src/b.rs".to_string()),
        "File should be removed from source chunk, files: {:?}",
        script.new_state.chunks[0].files
    );
}

#[test]
fn test_move_adds_to_dest_chunk() {
    let script = move_file(&two_chunk_state(), "src/b.rs", "chunk-a", "chunk-b").unwrap();
    assert!(
        script.new_state.chunks[1].files.contains(&"src/b.rs".to_string()),
        "File should be in dest chunk, files: {:?}",
        script.new_state.chunks[1].files
    );
}

#[test]
fn test_move_restores_source_branch() {
    let script = move_file(&two_chunk_state(), "src/b.rs", "chunk-a", "chunk-b").unwrap();
    assert!(
        matches!(
            script.actions.last().unwrap(),
            GitAction::Checkout { branch } if branch == "feat/big"
        ),
        "Source branch should be restored after move"
    );
}
