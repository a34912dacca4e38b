//! The aggregator: accumulates repository metadata and per-repository
//! tallies over one analysis run, and closes the run into a `Snapshot`.

use vstd::prelude::*;
use vstd::math::min;
use vstd::string::StringExecFns;
use crate::assoc::lemma_kv_map_finite;
use crate::ranking::{
    LanguageStats, build_ranking, is_favorite, is_full_ranking, lemma_favorite_unique,
    lemma_ranking_first_is_favorite, lemma_sum_stats_split, sum_stats,
};
use crate::tally::{LanguageTally, tally_merge};
use crate::text::{lex_lt, str_lt};

verus! {

/// The immutable result of one analysis run: totals, the ranked and
/// truncated language list, and repository-level metadata.
pub struct Snapshot {
    /// Lines summed over every successfully fetched matched file.
    pub total_lines: usize,
    /// The ranked language list, truncated to the configured cap.
    pub language_stats: Vec<LanguageStats>,
    /// How many distinct languages were tallied, counted before truncation.
    pub total_languages: usize,
    /// The highest-ranked language, or the sentinel `"None"`.
    pub favorite_language: String,
    /// How many repositories were enumerated.
    pub total_repos: usize,
    /// How many of them are public.
    pub public_repos: usize,
    /// The latest last-activity timestamp seen, by lexicographic comparison.
    pub last_activity: String,
}

/// The running maximum of activity timestamps: an empty running value is
/// replaced outright, otherwise the lexicographically later one wins.
pub open spec fn max_activity(last: Seq<char>, activity: Seq<char>) -> Seq<char> {
    if last.len() == 0 || lex_lt(last, activity) {
        activity
    } else {
        last
    }
}

/// What the ranked part of a snapshot promises about tally map `m` under a
/// truncation cap: the language count is the full count, the favorite comes
/// from the untruncated ranking, and the retained list is the longest-first
/// prefix of a full ranking whose counts sum to the grand total.
pub open spec fn ranked_snapshot(snap: Snapshot, m: Map<Seq<char>, nat>, cap: nat) -> bool {
    &&& snap.total_languages == m.dom().len()
    &&& exists|full: Seq<LanguageStats>|
        {
            &&& #[trigger] is_full_ranking(full, m)
            &&& snap.language_stats@ == full.take(min(cap as int, full.len() as int))
            &&& sum_stats(full) == snap.total_lines as nat
        }
    &&& (m.dom().len() == 0 ==> snap.favorite_language@ == "None"@)
    &&& (m.dom().len() > 0 ==> is_favorite(snap.favorite_language@, m))
}

/// The state the aggregator owns while one analysis run walks the
/// repositories.
pub struct AnalysisState {
    /// The running per-language tally and its grand total.
    pub tally: LanguageTally,
    /// Repositories enumerated so far, whatever became of their trees.
    pub total_repos: usize,
    /// Those of them that are public.
    pub public_repos: usize,
    /// Latest last-activity timestamp seen so far; empty before the first
    /// repository.
    pub last_activity: String,
}

impl AnalysisState {
    /// The tally is well formed and the public count cannot exceed the
    /// repository count.
    pub open spec fn wf(&self) -> bool {
        &&& self.tally.wf()
        &&& self.public_repos <= self.total_repos
    }

    /// The state at the start of a run: nothing seen yet.
    pub fn new() -> (s: AnalysisState)
        ensures
            s.wf(),
            s.tally@ =~= Map::<Seq<char>, nat>::empty(),
            s.tally.total == 0,
            s.total_repos == 0,
            s.public_repos == 0,
            s.last_activity@ == Seq::<char>::empty(),
    {
        AnalysisState {
            tally: LanguageTally::new(),
            total_repos: 0,
            public_repos: 0,
            last_activity: String::new(),
        }
    }

    /// Counts one enumerated repository and folds its activity timestamp
    /// into the running maximum.  This is done for every repository,
    /// whether or not its tree can later be walked, so a repository without
    /// a default branch or with a failing tree fetch still counts here and
    /// contributes no lines.
    pub fn record_repo_metadata(&mut self, is_public: bool, activity: &str)
        requires
            old(self).wf(),
            old(self).total_repos < usize::MAX,
        ensures
            final(self).wf(),
            final(self).total_repos == old(self).total_repos + 1,
            final(self).public_repos == old(self).public_repos + (if is_public {
                1int
            } else {
                0int
            }),
            final(self).last_activity@ == max_activity(old(self).last_activity@, activity@),
            final(self).tally == old(self).tally,
    {
        self.total_repos = self.total_repos + 1;
        if is_public {
            self.public_repos = self.public_repos + 1;
        }
        let empty_so_far = self.last_activity.as_str().unicode_len() == 0;
        if empty_so_far || str_lt(self.last_activity.as_str(), activity) {
            self.last_activity = activity.to_owned();
        }
    }

    /// Merges one successfully walked repository's tally into the running
    /// totals; the repository metadata is untouched.
    pub fn merge_repo_tally(&mut self, repo_tally: &LanguageTally)
        requires
            old(self).wf(),
            repo_tally.wf(),
            old(self).tally.total + repo_tally.total <= usize::MAX,
        ensures
            final(self).wf(),
            final(self).tally@ =~= tally_merge(old(self).tally@, repo_tally@),
            final(self).tally.total == old(self).tally.total + repo_tally.total,
            final(self).total_repos == old(self).total_repos,
            final(self).public_repos == old(self).public_repos,
            final(self).last_activity == old(self).last_activity,
    {
        self.tally.merge(repo_tally);
    }

    /// Closes the run: ranks the tally, captures the language count and the
    /// favorite before truncation, truncates to `max_langs` entries, and
    /// returns the snapshot.
    pub fn finish(&self, max_langs: usize) -> (snap: Snapshot)
        requires
            self.wf(),
        ensures
            snap.total_lines == self.tally.total,
            snap.total_repos == self.total_repos,
            snap.public_repos == self.public_repos,
            snap.last_activity@ == self.last_activity@,
            snap.language_stats@.len() == min(max_langs as int, snap.total_languages as int),
            ranked_snapshot(snap, self.tally@, max_langs as nat),
    {
        let mut stats = build_ranking(&self.tally);
        let ghost full = stats@;
        let total_languages = stats.len();
        proof {
            lemma_kv_map_finite(self.tally.pairs());
        }
        let favorite_language = if stats.is_empty() {
            String::from_str("None")
        } else {
            proof {
                lemma_ranking_first_is_favorite(full, self.tally@);
            }
            stats[0].name.clone()
        };
        if stats.len() > max_langs {
            stats.truncate(max_langs);
        }
        proof {
            assert(stats@ =~= full.take(min(max_langs as int, full.len() as int)));
        }
        Snapshot {
            total_lines: self.tally.total,
            language_stats: stats,
            total_languages,
            favorite_language,
            total_repos: self.total_repos,
            public_repos: self.public_repos,
            last_activity: self.last_activity.clone(),
        }
    }
}

/// Law: where the grand total is what a full ranking sums to, the lines
/// retained by truncation and the lines discarded by it partition that
/// total — so the retained and discarded percentage shares, each language's
/// being `100 * lines / total_lines`, together account for the whole.
pub proof fn lemma_truncation_partitions_total(
    full: Seq<LanguageStats>,
    k: int,
    total: nat,
)
    requires
        0 <= k <= full.len(),
        sum_stats(full) == total,
    ensures
        sum_stats(full.take(k)) + sum_stats(full.skip(k)) == total,
{
    lemma_sum_stats_split(full, k);
}

/// Law: the language count and the favorite language do not depend on the
/// truncation cap.  Two snapshots of the same tally, taken under any two
/// caps, agree on both; each retained list is bounded by its own cap.
pub proof fn lemma_cap_independent(
    s1: Snapshot,
    s2: Snapshot,
    m: Map<Seq<char>, nat>,
    cap1: nat,
    cap2: nat,
)
    requires
        ranked_snapshot(s1, m, cap1),
        ranked_snapshot(s2, m, cap2),
    ensures
        s1.total_languages == s2.total_languages,
        s1.favorite_language@ == s2.favorite_language@,
        s1.language_stats@.len() <= cap1,
        s2.language_stats@.len() <= cap2,
{
    if m.dom().len() > 0 {
        lemma_favorite_unique(s1.favorite_language@, s2.favorite_language@, m);
    }
    let full1 = choose|full: Seq<LanguageStats>|
        {
            &&& #[trigger] is_full_ranking(full, m)
            &&& s1.language_stats@ == full.take(min(cap1 as int, full.len() as int))
            &&& sum_stats(full) == s1.total_lines as nat
        };
    let full2 = choose|full: Seq<LanguageStats>|
        {
            &&& #[trigger] is_full_ranking(full, m)
            &&& s2.language_stats@ == full.take(min(cap2 as int, full.len() as int))
            &&& sum_stats(full) == s2.total_lines as nat
        };
    assert(s1.language_stats@.len() == min(cap1 as int, full1.len() as int));
    assert(s2.language_stats@.len() == min(cap2 as int, full2.len() as int));
}

/// Law: a run that saw no tallied language — in particular a run over an
/// empty repository set — snapshots to zero lines, zero languages, an empty
/// ranked list and the sentinel favorite.
pub proof fn lemma_empty_tally_snapshot(snap: Snapshot, cap: nat)
    requires
        ranked_snapshot(snap, Map::<Seq<char>, nat>::empty(), cap),
    ensures
        snap.total_lines == 0,
        snap.total_languages == 0,
        snap.favorite_language@ == "None"@,
        snap.language_stats@ =~= Seq::<LanguageStats>::empty(),
{
    assert(Map::<Seq<char>, nat>::empty().dom() =~= Set::<Seq<char>>::empty());
    let full = choose|full: Seq<LanguageStats>|
        {
            &&& #[trigger] is_full_ranking(full, Map::<Seq<char>, nat>::empty())
            &&& snap.language_stats@ == full.take(min(cap as int, full.len() as int))
            &&& sum_stats(full) == snap.total_lines as nat
        };
    assert(full.len() == 0);
    assert(sum_stats(full) == 0);
}

} // verus!
