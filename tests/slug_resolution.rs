use gh_issues::error::IssueError;
use gh_issues::slug::{contains_text, find_first, is_github_remote, matches_at, resolve_slug};

#[test]
fn https_url_with_git_suffix() {
    assert_eq!(resolve_slug("https://github.com/owner/repo.git"), Ok("owner/repo".to_string()));
}

#[test]
fn https_url_without_suffix() {
    assert_eq!(resolve_slug("https://github.com/owner/repo"), Ok("owner/repo".to_string()));
}

#[test]
fn only_one_git_suffix_is_removed() {
    assert_eq!(resolve_slug("https://github.com/owner/repo.git.git"), Ok("owner/repo.git".to_string()));
}

#[test]
fn inner_git_text_is_kept() {
    assert_eq!(resolve_slug("https://github.com/owner/repo.github.io"), Ok("owner/repo.github.io".to_string()));
}

#[test]
fn trailing_path_is_kept_verbatim() {
    assert_eq!(resolve_slug("https://github.com/owner/repo/"), Ok("owner/repo/".to_string()));
}

#[test]
fn ssh_style_url_is_malformed() {
    assert_eq!(resolve_slug("git@github.com:owner/repo.git"), Err(IssueError::MalformedRemoteUrl));
}

#[test]
fn other_host_is_malformed() {
    assert_eq!(resolve_slug("https://gitlab.com/owner/repo"), Err(IssueError::MalformedRemoteUrl));
    assert_eq!(resolve_slug(""), Err(IssueError::MalformedRemoteUrl));
}

#[test]
fn first_marker_decides() {
    assert_eq!(resolve_slug("https://github.com/a/github.com/b"), Ok("a/github.com/b".to_string()));
}

#[test]
fn github_remote_detection() {
    assert!(is_github_remote("git@github.com:owner/repo.git"));
    assert!(is_github_remote("https://github.com/owner/repo"));
    assert!(!is_github_remote("https://gitlab.com/owner/repo"));
    assert!(!is_github_remote("github.co"));
}

#[test]
fn text_search_helpers() {
    assert!(matches_at("abcabc", "cab", 2));
    assert!(!matches_at("abcabc", "cab", 3));
    assert!(!matches_at("ab", "abc", 0));
    assert_eq!(find_first("xxabab", "ab"), Some(2));
    assert_eq!(find_first("xx", "ab"), None);
    assert_eq!(find_first("ab", ""), Some(0));
    assert!(contains_text("héllo wörld", "wö"));
    assert!(!contains_text("héllo", "wö"));
}
