//! The provider configuration and payload shapes, driven end to end.

use tele_stats::extensions::ExtensionTable;
use tele_stats::github::types::{GitHubConfig, TreeResponse};
use tele_stats::gitlab::types::GitLabConfig;
use tele_stats::walker::{matched_files, TreeEntry};

fn table() -> ExtensionTable {
    let mut t = ExtensionTable::new();
    t.insert("rs", "Rust");
    t
}

#[test]
fn github_config_table_drives_the_walker() {
    let config = GitHubConfig {
        github_token: "token".to_string(),
        message_id: 0,
        private_repo: false,
        quote: false,
        max_langs: 5,
        github_username: "alice".to_string(),
        languages: table(),
    };
    let response = TreeResponse {
        tree: vec![
            TreeEntry { path: "src/main.rs".to_string(), item_type: "blob".to_string() },
            TreeEntry { path: "README.md".to_string(), item_type: "blob".to_string() },
        ],
    };
    let matched = matched_files(&response.tree, &config.languages);
    assert_eq!(matched, vec![("src/main.rs".to_string(), "Rust".to_string())]);
}

#[test]
fn gitlab_config_table_drives_the_walker() {
    let config = GitLabConfig {
        gitlab_token: "token".to_string(),
        message_id: 7,
        private_repo: true,
        quote: true,
        max_langs: 3,
        gitlab_username: "bob".to_string(),
        languages: table(),
    };
    let tree = vec![TreeEntry { path: "lib.rs".to_string(), item_type: "blob".to_string() }];
    let matched = matched_files(&tree, &config.languages);
    assert_eq!(matched.len(), 1);
    assert_eq!(config.max_langs, 3);
}
