//! GitHub's per-repository metadata rule: what one listed repository adds
//! to the running analysis state.

use vstd::prelude::*;
use super::types::Repository;
use crate::aggregate::{AnalysisState, max_activity};

verus! {

/// Folds one listed repository into the run's metadata: every repository
/// counts toward the repository total and the activity maximum — before and
/// whether or not its tree can later be walked — and a non-private one
/// counts as public.  The tally is untouched, so a repository whose tree
/// fetch fails contributes no lines.
pub fn record_repo(state: &mut AnalysisState, repo: &Repository)
    requires
        old(state).wf(),
        old(state).total_repos < usize::MAX,
    ensures
        final(state).wf(),
        final(state).total_repos == old(state).total_repos + 1,
        final(state).public_repos == old(state).public_repos + (if !repo.private {
            1int
        } else {
            0int
        }),
        final(state).last_activity@ == max_activity(old(state).last_activity@, repo.updated_at@),
        final(state).tally == old(state).tally,
{
    state.record_repo_metadata(!repo.private, repo.updated_at.as_str());
}

} // verus!
