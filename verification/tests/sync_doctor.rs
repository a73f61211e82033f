//! The sync engine's action scripts, and the consistency checker.

use merges::action::fetch_and_rebase;
use merges::action::fetch_and_rebase_stacked;
use merges::action::GitAction;
use merges::action::WorkDir;
use merges::doctor::diagnose;
use merges::state::Chunk;
use merges::state::MergesState;
use merges::state::Strategy;
use merges::sync::sync_all;

fn chunk(name: &str, branch: &str, files: &[&str]) -> Chunk {
    Chunk {
        name: name.to_string(),
        branch: branch.to_string(),
        files: files.iter().map(|f| f.to_string()).collect(),
        pr_number: None,
        pr_url: None,
    }
}

fn state(strategy: Strategy, use_worktrees: bool) -> MergesState {
    MergesState {
        base_branch: "main".to_string(),
        source_branch: "feat/big".to_string(),
        repo_owner: "acme".to_string(),
        repo_name: "myrepo".to_string(),
        strategy,
        use_worktrees,
        chunks: vec![
            chunk("a", "feat/big-chunk-1-a", &["src/a.rs"]),
            chunk("b", "feat/big-chunk-2-b", &["src/b.rs"]),
        ],
    }
}

#[test]
fn test_sync_all_sequential_checks_out_each_chunk_then_restores() {
    let actions = sync_all(&state(Strategy::Stacked, false), "feat/big");
    assert_eq!(actions.len(), 5);
    assert!(matches!(
        &actions[0],
        GitAction::Checkout { branch } if branch == "feat/big-chunk-1-a"
    ));
    assert!(matches!(
        &actions[1],
        GitAction::FetchAndRebase { dir: WorkDir::Root, base_branch, update_refs: true }
            if base_branch == "main"
    ));
    assert!(matches!(
        &actions[2],
        GitAction::Checkout { branch } if branch == "feat/big-chunk-2-b"
    ));
    assert!(matches!(
        &actions[4],
        GitAction::Checkout { branch } if branch == "feat/big"
    ));
}

#[test]
fn test_sync_all_worktrees_yields_one_independent_job_per_chunk() {
    let actions = sync_all(&state(Strategy::Independent, true), "feat/big");
    assert_eq!(actions.len(), 2);
    assert!(matches!(
        &actions[0],
        GitAction::FetchAndRebase {
            dir: WorkDir::Worktree { branch },
            update_refs: false,
            ..
        } if branch == "feat/big-chunk-1-a"
    ));
    assert!(matches!(
        &actions[1],
        GitAction::FetchAndRebase { dir: WorkDir::Worktree { branch }, .. }
            if branch == "feat/big-chunk-2-b"
    ));
}

#[test]
fn test_sync_all_no_chunks_does_nothing() {
    let mut s = state(Strategy::Stacked, false);
    s.chunks.clear();
    assert!(sync_all(&s, "feat/big").is_empty());
}

#[test]
fn test_fetch_and_rebase_flavors() {
    let plain = fetch_and_rebase(WorkDir::Root, "main");
    assert!(matches!(
        plain,
        GitAction::FetchAndRebase { update_refs: false, ref base_branch, .. }
            if base_branch == "main"
    ));
    let stacked = fetch_and_rebase_stacked(WorkDir::Root, "main");
    assert!(matches!(stacked, GitAction::FetchAndRebase { update_refs: true, .. }));
}

#[test]
fn test_doctor_healthy_state_returns_ok() {
    let s = state(Strategy::Stacked, false);
    let report = diagnose(&s, &vec![true, true], &vec![true, true], true, false);
    assert!(report.all_ok(), "Healthy state should report all checks ok: {:?}", report.issues);
}

#[test]
fn test_doctor_detects_missing_branch() {
    let s = state(Strategy::Stacked, false);
    let report = diagnose(&s, &vec![true, false], &vec![true, true], true, false);
    assert_eq!(report.issues.len(), 1, "Should detect missing branch");
    assert!(
        report.issues[0].contains("feat/big-chunk-2-b"),
        "Issue should name the missing branch: {:?}",
        report.issues
    );
}

#[test]
fn test_doctor_ignores_worktrees_in_shared_tree_mode() {
    let s = state(Strategy::Stacked, false);
    let report = diagnose(&s, &vec![true, true], &vec![false, false], true, false);
    assert!(report.all_ok());
}

#[test]
fn test_doctor_detects_missing_worktree() {
    let s = state(Strategy::Stacked, true);
    let report = diagnose(&s, &vec![true, true], &vec![false, true], true, false);
    assert_eq!(report.issues.len(), 1);
    assert!(report.issues[0].contains("feat/big-chunk-1-a"));
}

#[test]
fn test_doctor_detects_missing_gitignore_entry() {
    let s = state(Strategy::Stacked, false);
    let report = diagnose(&s, &vec![true, true], &vec![true, true], false, false);
    assert_eq!(report.issues.len(), 1);
    assert!(
        report.issues[0].contains("exclude"),
        "Should detect missing gitignore entry: {:?}",
        report.issues
    );
}

#[test]
fn test_doctor_repair_drops_the_gitignore_issue() {
    let s = state(Strategy::Stacked, false);
    let report = diagnose(&s, &vec![true, true], &vec![true, true], false, true);
    assert!(report.all_ok(), "Repair should absorb the exclusion issue: {:?}", report.issues);
}

#[test]
fn test_doctor_detects_duplicate_files_in_state() {
    let mut s = state(Strategy::Stacked, false);
    s.chunks[1].files.push("src/a.rs".to_string());
    let report = diagnose(&s, &vec![true, true], &vec![true, true], true, false);
    assert_eq!(report.issues.len(), 1);
    assert!(
        report.issues[0].contains("duplicate"),
        "Should detect duplicate file across chunks: {:?}",
        report.issues
    );
}
