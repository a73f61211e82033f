//! The persisted state model: strategies, chunks, lookups, paths.

use merges::state::Chunk;
use merges::state::MergesState;
use merges::state::Strategy;

fn sample_state() -> MergesState {
    MergesState {
        base_branch: "main".to_string(),
        source_branch: "feat/big-feature".to_string(),
        repo_owner: "acme".to_string(),
        repo_name: "myrepo".to_string(),
        strategy: Strategy::Stacked,
        use_worktrees: false,
        chunks: vec![],
    }
}

fn sample_chunk() -> Chunk {
    Chunk {
        name: "models".to_string(),
        branch: "feat/big-feature-chunk-1-models".to_string(),
        files: vec!["src/models/user.rs".to_string()],
        pr_number: None,
        pr_url: None,
    }
}

#[test]
fn test_strategy_display_stacked() {
    assert_eq!(Strategy::Stacked.label(), "stacked");
}

#[test]
fn test_strategy_display_independent() {
    assert_eq!(Strategy::Independent.label(), "independent");
}

#[test]
fn test_strategy_equality() {
    assert_eq!(Strategy::Stacked, Strategy::Stacked);
    assert_ne!(Strategy::Stacked, Strategy::Independent);
}

#[test]
fn test_path_returns_state_file_in_repo_root() {
    let path = MergesState::path("/work/repo");
    assert_eq!(path, "/work/repo/.merges.json");
}

#[test]
fn test_find_chunk_by_name() {
    let mut state = sample_state();
    state.chunks.push(sample_chunk());
    assert_eq!(state.find_chunk("models"), Some(0));
    assert_eq!(state.find_chunk("api"), None);
}

#[test]
fn test_chunk_duplicate_copies_every_field() {
    let mut chunk = sample_chunk();
    chunk.pr_number = Some(42);
    chunk.pr_url = Some("https://github.com/acme/myrepo/pull/42".to_string());
    let copy = chunk.duplicate();
    assert_eq!(copy.name, chunk.name);
    assert_eq!(copy.branch, chunk.branch);
    assert_eq!(copy.files, chunk.files);
    assert_eq!(copy.pr_number, Some(42));
    assert_eq!(copy.pr_url, chunk.pr_url);
}
