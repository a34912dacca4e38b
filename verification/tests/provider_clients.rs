//! The pure client halves: page filtering, URL building and content
//! decoding, exercised against the real base64 and urlencoding crates.

use tele_stats::encoding::ContentError;
use tele_stats::github;
use tele_stats::gitlab;
use tele_stats::github::types::ContentResponse;

fn gh_repo(name: &str, private: bool) -> github::types::Repository {
    github::types::Repository {
        id: 1,
        name: name.to_string(),
        default_branch: "main".to_string(),
        private,
        updated_at: "2024-01-01T00:00:00Z".to_string(),
    }
}

fn gl_repo(name: &str, visibility: &str) -> gitlab::types::Repository {
    gitlab::types::Repository {
        id: 1,
        name: name.to_string(),
        default_branch: Some("main".to_string()),
        visibility: visibility.to_string(),
        last_activity_at: "2024-01-01T00:00:00Z".to_string(),
    }
}

#[test]
fn github_page_filter_drops_private_repos() {
    let mut acc = Vec::new();
    let page = vec![gh_repo("a", false), gh_repo("b", true), gh_repo("c", false)];
    let more = github::client::filter_repos_page(&mut acc, page, false);
    assert!(more);
    let names: Vec<&str> = acc.iter().map(|r| r.name.as_str()).collect();
    assert_eq!(names, vec!["a", "c"]);
}

#[test]
fn github_page_filter_keeps_private_when_included() {
    let mut acc = Vec::new();
    let page = vec![gh_repo("a", false), gh_repo("b", true)];
    let more = github::client::filter_repos_page(&mut acc, page, true);
    assert!(more);
    assert_eq!(acc.len(), 2);
}

#[test]
fn github_empty_page_stops_pagination() {
    let mut acc = vec![gh_repo("kept", false)];
    let more = github::client::filter_repos_page(&mut acc, Vec::new(), true);
    assert!(!more);
    assert_eq!(acc.len(), 1);
}

#[test]
fn gitlab_page_filter_goes_by_visibility() {
    let mut acc = Vec::new();
    let page = vec![gl_repo("a", "public"), gl_repo("b", "private"), gl_repo("c", "internal")];
    let more = gitlab::client::filter_repos_page(&mut acc, page, false);
    assert!(more);
    let names: Vec<&str> = acc.iter().map(|r| r.name.as_str()).collect();
    assert_eq!(names, vec!["a"]);
}

#[test]
fn gitlab_tree_pages_concatenate() {
    let entry = |p: &str| gitlab::types::TreeItem {
        path: p.to_string(),
        item_type: "blob".to_string(),
    };
    let mut acc = Vec::new();
    assert!(gitlab::client::collect_tree_page(&mut acc, vec![entry("a.rs"), entry("b.rs")]));
    assert!(gitlab::client::collect_tree_page(&mut acc, vec![entry("c.rs")]));
    assert!(!gitlab::client::collect_tree_page(&mut acc, Vec::new()));
    let paths: Vec<&str> = acc.iter().map(|e| e.path.as_str()).collect();
    assert_eq!(paths, vec!["a.rs", "b.rs", "c.rs"]);
}

#[test]
fn github_urls_are_assembled_exactly() {
    assert_eq!(
        github::client::repos_page_url("https://api.github.com", 1, 100),
        "https://api.github.com/user/repos?page=1&per_page=100&affiliation=owner"
    );
    assert_eq!(
        github::client::tree_url("https://api.github.com", "alice", "proj", "main"),
        "https://api.github.com/repos/alice/proj/git/trees/main?recursive=1"
    );
    assert_eq!(
        github::client::file_url("https://api.github.com", "alice", "proj", "src/main.rs", "main"),
        "https://api.github.com/repos/alice/proj/contents/src/main.rs?ref=main"
    );
}

#[test]
fn gitlab_urls_are_assembled_exactly() {
    assert_eq!(
        gitlab::client::repos_page_url("https://gitlab.com/api/v4", "alice", 2, 100),
        "https://gitlab.com/api/v4/users/alice/projects?page=2&per_page=100&simple=true"
    );
    assert_eq!(
        gitlab::client::tree_page_url("https://gitlab.com/api/v4", 42, "main", 1, 100),
        "https://gitlab.com/api/v4/projects/42/repository/tree?ref=main&recursive=true&page=1&per_page=100"
    );
}

#[test]
fn gitlab_file_url_percent_encodes_the_path() {
    assert_eq!(
        gitlab::client::file_url("https://gitlab.com/api/v4", 42, "src/a b.rs", "main"),
        "https://gitlab.com/api/v4/projects/42/repository/files/src%2Fa%20b.rs?ref=main"
    );
}

#[test]
fn github_decode_handles_base64_with_embedded_newlines() {
    // "hello\nworld" in base64, split across lines as the endpoint sends it
    let resp = ContentResponse {
        content: "aGVsbG8K\nd29ybGQ=".to_string(),
        encoding: "base64".to_string(),
    };
    assert_eq!(github::client::decode_content(&resp), Ok("hello\nworld".to_string()));
}

#[test]
fn github_decode_rejects_other_encodings() {
    let resp = ContentResponse { content: "aGk=".to_string(), encoding: "utf-8".to_string() };
    assert_eq!(github::client::decode_content(&resp), Err(ContentError::UnsupportedEncoding));
}

#[test]
fn github_decode_rejects_invalid_base64() {
    let resp = ContentResponse { content: "!!!".to_string(), encoding: "base64".to_string() };
    assert_eq!(github::client::decode_content(&resp), Err(ContentError::InvalidBase64));
}

#[test]
fn gitlab_decode_needs_a_content_field() {
    assert_eq!(gitlab::client::decode_content(&None), Err(ContentError::MissingContent));
}

#[test]
fn gitlab_decode_reads_base64_content() {
    assert_eq!(
        gitlab::client::decode_content(&Some("aGVsbG8=".to_string())),
        Ok("hello".to_string())
    );
}

#[test]
fn gitlab_decode_rejects_invalid_base64() {
    assert_eq!(
        gitlab::client::decode_content(&Some("%%".to_string())),
        Err(ContentError::InvalidBase64)
    );
}

#[test]
fn invalid_utf8_decodes_lossily() {
    // base64 of the single byte 0xFF, which is not valid UTF-8
    assert_eq!(
        gitlab::client::decode_content(&Some("/w==".to_string())),
        Ok("\u{FFFD}".to_string())
    );
}
