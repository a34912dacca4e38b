//! End-to-end aggregation runs over in-memory repositories: the walker, the
//! aggregator state and the snapshot, including the failure-isolation
//! scenarios.

use tele_stats::aggregate::AnalysisState;
use tele_stats::extensions::ExtensionTable;
use tele_stats::github;
use tele_stats::gitlab;
use tele_stats::ranking::percent_hundredths;
use tele_stats::walker::{FileOutcome, TreeEntry, matched_files, tally_files};

fn table() -> ExtensionTable {
    let mut t = ExtensionTable::new();
    t.insert("l1", "L1");
    t.insert("l2", "L2");
    t
}

fn gh_repo(name: &str, private: bool, updated_at: &str) -> github::types::Repository {
    github::types::Repository {
        id: 1,
        name: name.to_string(),
        default_branch: "main".to_string(),
        private,
        updated_at: updated_at.to_string(),
    }
}

fn outcome(language: &str, content: Option<&str>) -> FileOutcome {
    FileOutcome { language: language.to_string(), content: content.map(str::to_string) }
}

/// Ten newline-terminated lines.
const TEN_LINES: &str = "1\n2\n3\n4\n5\n6\n7\n8\n9\n10\n";
/// Five lines without a trailing newline.
const FIVE_LINES: &str = "a\nb\nc\nd\ne";

#[test]
fn walker_lists_matched_blobs_in_order() {
    let t = table();
    let entry = |p: &str, kind: &str| TreeEntry { path: p.to_string(), item_type: kind.to_string() };
    let tree = vec![
        entry("src", "tree"),
        entry("src/a.l1", "blob"),
        entry("src/skip.txt", "blob"),
        entry("b.l2", "blob"),
        entry("sub.l1", "commit"),
        entry("README", "blob"),
    ];
    let matched = matched_files(&tree, &t);
    assert_eq!(
        matched,
        vec![
            ("src/a.l1".to_string(), "L1".to_string()),
            ("b.l2".to_string(), "L2".to_string()),
        ]
    );
}

#[test]
fn walker_counts_only_fetched_files() {
    let files = vec![
        outcome("L1", Some(TEN_LINES)),
        outcome("L1", None),
        outcome("L2", Some(FIVE_LINES)),
    ];
    let t = tally_files(&files);
    assert_eq!(t.total, 15);
    assert_eq!(t.entries, vec![("L1".to_string(), 10), ("L2".to_string(), 5)]);
}

/// Two repositories: repo1 carries one ten-line and one five-line L1 file,
/// repo2 one five-line L2 file.
fn two_repo_run(max_langs: usize) -> tele_stats::aggregate::Snapshot {
    let mut state = AnalysisState::new();

    github::analyzer::record_repo(&mut state, &gh_repo("repo1", false, "2024-01-02T00:00:00Z"));
    let repo1 = tally_files(&vec![
        outcome("L1", Some(TEN_LINES)),
        outcome("L1", Some(FIVE_LINES)),
    ]);
    state.merge_repo_tally(&repo1);

    github::analyzer::record_repo(&mut state, &gh_repo("repo2", false, "2024-01-03T00:00:00Z"));
    let repo2 = tally_files(&vec![outcome("L2", Some(FIVE_LINES))]);
    state.merge_repo_tally(&repo2);

    state.finish(max_langs)
}

#[test]
fn two_repos_rank_both_languages() {
    let snap = two_repo_run(10);
    assert_eq!(snap.total_lines, 20);
    assert_eq!(snap.total_languages, 2);
    assert_eq!(snap.favorite_language, "L1");
    assert_eq!(snap.total_repos, 2);
    assert_eq!(snap.public_repos, 2);
    assert_eq!(snap.last_activity, "2024-01-03T00:00:00Z");
    assert_eq!(snap.language_stats.len(), 2);
    assert_eq!(snap.language_stats[0].name, "L1");
    assert_eq!(snap.language_stats[0].lines, 15);
    assert_eq!(percent_hundredths(snap.language_stats[0].lines, snap.total_lines), 7500);
    assert_eq!(snap.language_stats[1].name, "L2");
    assert_eq!(snap.language_stats[1].lines, 5);
    assert_eq!(percent_hundredths(snap.language_stats[1].lines, snap.total_lines), 2500);
}

#[test]
fn truncation_keeps_the_full_language_count() {
    let snap = two_repo_run(1);
    assert_eq!(snap.total_languages, 2);
    assert_eq!(snap.favorite_language, "L1");
    assert_eq!(snap.language_stats.len(), 1);
    assert_eq!(snap.language_stats[0].name, "L1");
    assert_eq!(percent_hundredths(snap.language_stats[0].lines, snap.total_lines), 7500);
}

#[test]
fn failed_tree_fetch_keeps_metadata_but_no_lines() {
    let mut state = AnalysisState::new();

    github::analyzer::record_repo(&mut state, &gh_repo("repo1", false, "2024-01-02T00:00:00Z"));
    let repo1 = tally_files(&vec![
        outcome("L1", Some(TEN_LINES)),
        outcome("L1", Some(FIVE_LINES)),
    ]);
    state.merge_repo_tally(&repo1);

    // repo2's tree fetch failed: its metadata is recorded, nothing is merged
    github::analyzer::record_repo(&mut state, &gh_repo("repo2", false, "2024-01-03T00:00:00Z"));

    let snap = state.finish(10);
    assert_eq!(snap.total_repos, 2);
    assert_eq!(snap.public_repos, 2);
    assert_eq!(snap.last_activity, "2024-01-03T00:00:00Z");
    assert_eq!(snap.total_lines, 15);
    assert_eq!(snap.total_languages, 1);
    assert_eq!(snap.language_stats.len(), 1);
    assert_eq!(snap.language_stats[0].name, "L1");
    assert_eq!(percent_hundredths(snap.language_stats[0].lines, snap.total_lines), 10000);
}

#[test]
fn failed_file_fetch_skips_only_that_file() {
    let mut state = AnalysisState::new();

    github::analyzer::record_repo(&mut state, &gh_repo("repo1", false, "2024-01-02T00:00:00Z"));
    let repo1 = tally_files(&vec![
        outcome("L1", Some(TEN_LINES)),
        outcome("L1", None),
    ]);
    state.merge_repo_tally(&repo1);

    github::analyzer::record_repo(&mut state, &gh_repo("repo2", false, "2024-01-03T00:00:00Z"));
    let repo2 = tally_files(&vec![outcome("L2", Some(FIVE_LINES))]);
    state.merge_repo_tally(&repo2);

    let snap = state.finish(10);
    assert_eq!(snap.total_lines, 15);
    assert_eq!(snap.total_repos, 2);
    assert_eq!(snap.language_stats[0].name, "L1");
    assert_eq!(snap.language_stats[0].lines, 10);
    assert_eq!(snap.language_stats[1].name, "L2");
    assert_eq!(snap.language_stats[1].lines, 5);
}

#[test]
fn empty_repository_set_snapshots_to_zero() {
    let state = AnalysisState::new();
    let snap = state.finish(10);
    assert_eq!(snap.total_lines, 0);
    assert_eq!(snap.total_languages, 0);
    assert_eq!(snap.favorite_language, "None");
    assert!(snap.language_stats.is_empty());
    assert_eq!(snap.total_repos, 0);
    assert_eq!(snap.public_repos, 0);
    assert_eq!(snap.last_activity, "");
}

#[test]
fn repo_without_default_branch_counts_but_adds_no_lines() {
    let mut state = AnalysisState::new();
    let repo = gitlab::types::Repository {
        id: 7,
        name: "empty".to_string(),
        default_branch: None,
        visibility: "public".to_string(),
        last_activity_at: "2024-02-01T00:00:00Z".to_string(),
    };
    gitlab::analyzer::record_repo(&mut state, &repo);
    // no default branch: the walker is never invoked for this repository
    let snap = state.finish(10);
    assert_eq!(snap.total_repos, 1);
    assert_eq!(snap.public_repos, 1);
    assert_eq!(snap.last_activity, "2024-02-01T00:00:00Z");
    assert_eq!(snap.total_lines, 0);
    assert_eq!(snap.total_languages, 0);
    assert_eq!(snap.favorite_language, "None");
}

#[test]
fn private_and_internal_projects_are_not_public() {
    let mut state = AnalysisState::new();
    let gl = |vis: &str, at: &str| gitlab::types::Repository {
        id: 7,
        name: "p".to_string(),
        default_branch: None,
        visibility: vis.to_string(),
        last_activity_at: at.to_string(),
    };
    gitlab::analyzer::record_repo(&mut state, &gl("private", "2024-01-05T00:00:00Z"));
    gitlab::analyzer::record_repo(&mut state, &gl("public", "2024-01-04T00:00:00Z"));
    gitlab::analyzer::record_repo(&mut state, &gl("internal", "2024-01-06T00:00:00Z"));
    let snap = state.finish(10);
    assert_eq!(snap.total_repos, 3);
    assert_eq!(snap.public_repos, 1);
    // the running maximum keeps the latest timestamp, not the last seen
    assert_eq!(snap.last_activity, "2024-01-06T00:00:00Z");
}

#[test]
fn retained_and_discarded_shares_cover_the_total() {
    let full = two_repo_run(10);
    let truncated = two_repo_run(1);
    let retained: usize = truncated.language_stats.iter().map(|s| s.lines).sum();
    let discarded: usize = full.language_stats[truncated.language_stats.len()..]
        .iter()
        .map(|s| s.lines)
        .sum();
    assert_eq!(retained + discarded, full.total_lines);
    let retained_pct: u64 = truncated
        .language_stats
        .iter()
        .map(|s| percent_hundredths(s.lines, full.total_lines))
        .sum();
    let discarded_pct: u64 = full.language_stats[truncated.language_stats.len()..]
        .iter()
        .map(|s| percent_hundredths(s.lines, full.total_lines))
        .sum();
    assert_eq!(retained_pct + discarded_pct, 10000);
}

#[test]
fn language_count_and_favorite_ignore_the_cap() {
    let tight = two_repo_run(1);
    let loose = two_repo_run(1000);
    assert_eq!(tight.total_languages, loose.total_languages);
    assert_eq!(tight.favorite_language, loose.favorite_language);
    assert!(tight.language_stats.len() <= 1);
    assert!(loose.language_stats.len() <= 1000);
}

#[test]
fn ties_rank_by_name_ascending() {
    let mut state = AnalysisState::new();
    github::analyzer::record_repo(&mut state, &gh_repo("r", false, "2024-01-01T00:00:00Z"));
    let t = tally_files(&vec![
        outcome("Zig", Some(FIVE_LINES)),
        outcome("Ada", Some(FIVE_LINES)),
    ]);
    state.merge_repo_tally(&t);
    let snap = state.finish(10);
    assert_eq!(snap.language_stats[0].name, "Ada");
    assert_eq!(snap.language_stats[1].name, "Zig");
    assert_eq!(snap.favorite_language, "Ada");
}
