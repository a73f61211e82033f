//! Ticket prefixes, commit messages, PR titles, sync labels, derived names.

use merges::names::chunk_branch_name;
use merges::names::commit_message;
use merges::names::pr_title;
use merges::names::sync_status;
use merges::names::ticket_prefix;
use merges::names::worktree_path;

#[test]
fn test_ticket_prefix_jclark() {
    assert_eq!(ticket_prefix("JCLARK-97246-poc"), Some("JCLARK-97246".to_string()));
}

#[test]
fn test_ticket_prefix_sol() {
    assert_eq!(ticket_prefix("SOL-123-my-feature"), Some("SOL-123".to_string()));
}

#[test]
fn test_ticket_prefix_bare_ticket() {
    assert_eq!(ticket_prefix("JCLARK-97246"), Some("JCLARK-97246".to_string()));
}

#[test]
fn test_ticket_prefix_with_slash_namespace() {
    assert_eq!(ticket_prefix("feature/JCLARK-97246-poc"), Some("JCLARK-97246".to_string()));
}

#[test]
fn test_ticket_prefix_no_match_feat_branch() {
    assert_eq!(ticket_prefix("feat/my-feature"), None);
}

#[test]
fn test_ticket_prefix_no_match_main() {
    assert_eq!(ticket_prefix("main"), None);
}

#[test]
fn test_ticket_prefix_lowercase_returns_none() {
    assert_eq!(ticket_prefix("jclark-123-branch"), None);
}

#[test]
fn test_ticket_prefix_requires_digits() {
    assert_eq!(ticket_prefix("ABC-"), None);
    assert_eq!(ticket_prefix("ABC-x12"), None);
}

#[test]
fn test_ticket_prefix_rejects_trailing_letters() {
    assert_eq!(ticket_prefix("ABC-12x"), None);
    assert_eq!(ticket_prefix("ABC-12-x"), Some("ABC-12".to_string()));
}

#[test]
fn test_commit_message_with_ticket() {
    let msg = commit_message("JCLARK-97246-poc", "chunk 1 - models");
    assert_eq!(msg, "JCLARK-97246 chunk 1 - models");
}

#[test]
fn test_commit_message_without_ticket() {
    let msg = commit_message("feat/my-feature", "chunk 1 - models");
    assert_eq!(msg, "chunk 1 - models");
}

#[test]
fn test_commit_message_preserves_multiline_body() {
    let body = "chunk 1 - models\n\nFiles:\nsrc/a.rs";
    let msg = commit_message("JCLARK-97246-poc", body);
    assert!(msg.starts_with("JCLARK-97246 chunk 1 - models"));
    assert!(msg.contains("Files:\nsrc/a.rs"));
}

#[test]
fn test_pr_title_with_ticket_branch() {
    let title = pr_title("JCLARK-97246-poc", "[1/3] models");
    assert_eq!(title, "JCLARK-97246 [1/3] models");
}

#[test]
fn test_pr_title_without_ticket_branch() {
    let title = pr_title("feat/my-feature", "[1/3] models");
    assert_eq!(title, "[1/3] models");
}

#[test]
fn test_pr_title_sol_prefix() {
    let title = pr_title("SOL-123-fix-auth", "[2/4] api");
    assert_eq!(title, "SOL-123 [2/4] api");
}

#[test]
fn test_sync_status_current() {
    let label = sync_status(0);
    assert_eq!(label, "✓ current");
}

#[test]
fn test_sync_status_behind() {
    let label = sync_status(3);
    assert!(label.contains('3'), "Should include count: {}", label);
    assert!(label.contains('↓'), "Should include down-arrow: {}", label);
}

#[test]
fn test_sync_status_renders_multi_digit_counts() {
    assert_eq!(sync_status(12), "↓ 12 behind");
    assert_eq!(sync_status(305), "↓ 305 behind");
}

#[test]
fn test_chunk_branch_name_lowercases_and_dashes() {
    let branch = chunk_branch_name("feat/big", 1, "Data Models");
    assert_eq!(branch, "feat/big-chunk-1-data-models");
}

#[test]
fn test_worktree_path_is_inside_git_dir() {
    let path = worktree_path("/repo", "feat/payments-v2-chunk-1-db");
    assert_eq!(path, "/repo/.git/merges-worktrees/feat-payments-v2-chunk-1-db");
}
