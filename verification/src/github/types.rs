//! The plain shapes that the GitHub endpoints hand the run.

use vstd::prelude::*;
use crate::extensions::ExtensionTable;

verus! {

/// Configuration for one GitHub analysis run, reloaded fresh by the caller
/// at the start of each cycle.
pub struct GitHubConfig {
    pub github_token: String,
    pub message_id: i64,
    /// Whether private repositories take part in the run.
    pub private_repo: bool,
    /// Whether the rendered language list is quoted.
    pub quote: bool,
    /// At most this many languages are retained after ranking.
    pub max_langs: usize,
    pub github_username: String,
    /// The extension-to-language table files are classified by.
    pub languages: ExtensionTable,
}

/// One repository as the listing endpoint reports it.
pub struct Repository {
    pub id: u64,
    pub name: String,
    pub default_branch: String,
    pub private: bool,
    /// Last-activity timestamp, compared lexicographically as the provider
    /// formats it.
    pub updated_at: String,
}

/// One entry of a repository tree.
pub type TreeItem = crate::walker::TreeEntry;

/// The body of the tree endpoint: the entries of the whole tree, resolved
/// in one recursive request.
pub struct TreeResponse {
    pub tree: Vec<TreeItem>,
}

/// The body of the file-content endpoint: the raw body and its transport
/// encoding tag.
pub struct ContentResponse {
    pub content: String,
    pub encoding: String,
}

/// One ranked language of the snapshot.
pub type LanguageStats = crate::ranking::LanguageStats;

/// The snapshot of one GitHub analysis run.
pub type GitHubStats = crate::aggregate::Snapshot;

} // verus!
