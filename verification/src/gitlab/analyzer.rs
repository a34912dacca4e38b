//! GitLab's per-repository metadata rule: what one listed project adds to
//! the running analysis state.

use vstd::prelude::*;
use super::types::Repository;
use crate::aggregate::{AnalysisState, max_activity};
use crate::text::str_eq;

verus! {

/// Folds one listed project into the run's metadata: every project counts
/// toward the repository total and the activity maximum — before and
/// whether or not it has a walkable default branch — and one of `"public"`
/// visibility counts as public.  The tally is untouched, so a project
/// without a default branch, or whose tree fetch fails, contributes no
/// lines.
pub fn record_repo(state: &mut AnalysisState, repo: &Repository)
    requires
        old(state).wf(),
        old(state).total_repos < usize::MAX,
    ensures
        final(state).wf(),
        final(state).total_repos == old(state).total_repos + 1,
        final(state).public_repos == old(state).public_repos + (if repo.visibility@ == "public"@ {
            1int
        } else {
            0int
        }),
        final(state).last_activity@ == max_activity(
            old(state).last_activity@,
            repo.last_activity_at@,
        ),
        final(state).tally == old(state).tally,
{
    let is_public = str_eq(repo.visibility.as_str(), "public");
    state.record_repo_metadata(is_public, repo.last_activity_at.as_str());
}

} // verus!
