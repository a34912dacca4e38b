//! The plain shapes that the GitLab endpoints hand the run.

use vstd::prelude::*;
use crate::extensions::ExtensionTable;

verus! {

/// Configuration for one GitLab analysis run, reloaded fresh by the caller
/// at the start of each cycle.
pub struct GitLabConfig {
    pub gitlab_token: String,
    pub message_id: i64,
    /// Whether private projects take part in the run.
    pub private_repo: bool,
    /// Whether the rendered language list is quoted.
    pub quote: bool,
    /// At most this many languages are retained after ranking.
    pub max_langs: usize,
    pub gitlab_username: String,
    /// The extension-to-language table files are classified by.
    pub languages: ExtensionTable,
}

/// One project as the listing endpoint reports it.
pub struct Repository {
    pub id: u64,
    pub name: String,
    /// Absent for an empty repository, which then contributes no lines.
    pub default_branch: Option<String>,
    /// `"public"` for a public project.
    pub visibility: String,
    /// Last-activity timestamp, compared lexicographically as the provider
    /// formats it.
    pub last_activity_at: String,
}

/// One entry of a repository tree.
pub type TreeItem = crate::walker::TreeEntry;

/// One ranked language of the snapshot.
pub type LanguageStats = crate::ranking::LanguageStats;

/// The snapshot of one GitLab analysis run.
pub type GitLabStats = crate::aggregate::Snapshot;

} // verus!
