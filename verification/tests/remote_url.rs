//! Parsing owner/repo out of GitHub remote URLs.

use merges::remote::parse_github_owner_repo;

#[test]
fn test_parse_https_with_git_suffix() {
    let (owner, repo) = parse_github_owner_repo("https://github.com/acme/myrepo.git").unwrap();
    assert_eq!(owner, "acme");
    assert_eq!(repo, "myrepo");
}

#[test]
fn test_parse_https_without_git_suffix() {
    let (owner, repo) = parse_github_owner_repo("https://github.com/acme/myrepo").unwrap();
    assert_eq!(owner, "acme");
    assert_eq!(repo, "myrepo");
}

#[test]
fn test_parse_https_with_trailing_slash() {
    let (owner, repo) = parse_github_owner_repo("https://github.com/acme/myrepo/").unwrap();
    assert_eq!(owner, "acme");
    assert_eq!(repo, "myrepo");
}

#[test]
fn test_parse_ssh_with_git_suffix() {
    let (owner, repo) = parse_github_owner_repo("git@github.com:acme/myrepo.git").unwrap();
    assert_eq!(owner, "acme");
    assert_eq!(repo, "myrepo");
}

#[test]
fn test_parse_ssh_without_git_suffix() {
    let (owner, repo) = parse_github_owner_repo("git@github.com:acme/myrepo").unwrap();
    assert_eq!(owner, "acme");
    assert_eq!(repo, "myrepo");
}

#[test]
fn test_parse_url_with_hyphens_and_dots_in_names() {
    let (owner, repo) =
        parse_github_owner_repo("https://github.com/my-org/my.repo_name.git").unwrap();
    assert_eq!(owner, "my-org");
    assert_eq!(repo, "my.repo_name");
}

#[test]
fn test_parse_url_with_trailing_newline() {
    let (owner, repo) = parse_github_owner_repo("https://github.com/acme/myrepo.git\n").unwrap();
    assert_eq!(owner, "acme");
    assert_eq!(repo, "myrepo");
}

#[test]
fn test_parse_ssh_url_with_trailing_newline() {
    let (owner, repo) = parse_github_owner_repo("git@github.com:acme/myrepo.git\n").unwrap();
    assert_eq!(owner, "acme");
    assert_eq!(repo, "myrepo");
}

#[test]
fn test_parse_gitlab_url_returns_error() {
    let result = parse_github_owner_repo("https://gitlab.com/acme/myrepo.git");
    assert!(result.is_err(), "Non-GitHub URLs should be rejected");
    let msg = result.unwrap_err().message();
    assert!(msg.contains("Cannot parse"), "Error message should explain what failed: {}", msg);
}

#[test]
fn test_parse_empty_url_returns_error() {
    let result = parse_github_owner_repo("");
    assert!(result.is_err());
}

#[test]
fn test_parse_owner_only_url_returns_error() {
    let result = parse_github_owner_repo("https://github.com/acme");
    assert!(result.is_err(), "URL without repo should be rejected");
}

#[test]
fn test_parse_keeps_extra_path_segments_in_repo() {
    let (owner, repo) = parse_github_owner_repo("git@github.com:acme/group/myrepo").unwrap();
    assert_eq!(owner, "acme");
    assert_eq!(repo, "group/myrepo");
}
