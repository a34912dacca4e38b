//! Ranking a tally into an ordered list of per-language statistics: highest
//! line count first, ties broken by language name ascending.

use vstd::prelude::*;
use crate::assoc::{lemma_kv_map_dom, lemma_kv_map_finite, lemma_kv_map_push};
use crate::tally::{LanguageTally, sum_values, lemma_sum_take_step};
use crate::text::{lex_lt, str_eq, str_lt, lemma_lex_lt_asymmetric, lemma_lex_lt_transitive,
    lemma_lex_lt_trichotomy};

verus! {

/// One language's share of the total: its name and its line count.  The
/// percentage it stands for is `100 * lines / total_lines` of the snapshot
/// it belongs to.
pub struct LanguageStats {
    pub name: String,
    pub lines: usize,
}

/// The sort key of one entry: name and line count.
pub open spec fn stat_key(s: LanguageStats) -> (Seq<char>, nat) {
    (s.name@, s.lines as nat)
}

/// The ranking order: more lines first; among equal counts, the
/// lexicographically smaller name first.
pub open spec fn stat_lt(a: (Seq<char>, nat), b: (Seq<char>, nat)) -> bool {
    b.1 < a.1 || (a.1 == b.1 && lex_lt(a.0, b.0))
}

/// The ranking order never holds both ways.
pub proof fn lemma_stat_lt_asymmetric(a: (Seq<char>, nat), b: (Seq<char>, nat))
    ensures
        stat_lt(a, b) ==> !stat_lt(b, a),
{
    lemma_lex_lt_asymmetric(a.0, b.0);
}

/// Keys with distinct names are ordered one way or the other.
pub proof fn lemma_stat_lt_total(a: (Seq<char>, nat), b: (Seq<char>, nat))
    requires
        a.0 != b.0,
    ensures
        stat_lt(a, b) || stat_lt(b, a),
{
    lemma_lex_lt_trichotomy(a.0, b.0);
}

/// The ranking order is transitive.
pub proof fn lemma_stat_lt_transitive(a: (Seq<char>, nat), b: (Seq<char>, nat), c: (Seq<char>, nat))
    ensures
        stat_lt(a, b) && stat_lt(b, c) ==> stat_lt(a, c),
{
    lemma_lex_lt_transitive(a.0, b.0, c.0);
}

/// Whether a statistics list is strictly sorted by the ranking order.
pub open spec fn stats_sorted(s: Seq<LanguageStats>) -> bool {
    forall|i: int, j: int|
        0 <= i < j < s.len() ==> stat_lt(stat_key(#[trigger] s[i]), stat_key(#[trigger] s[j]))
}

/// Whether `s` is the full ranking of tally map `m`: one entry per language,
/// carrying that language's count, strictly sorted by the ranking order.
pub open spec fn is_full_ranking(s: Seq<LanguageStats>, m: Map<Seq<char>, nat>) -> bool {
    &&& s.len() == m.dom().len()
    &&& forall|i: int|
        0 <= i < s.len() ==> m.contains_key((#[trigger] s[i]).name@) && m[s[i].name@]
            == s[i].lines as nat
    &&& stats_sorted(s)
}

/// Sum of the line counts of a statistics list.
pub open spec fn sum_stats(s: Seq<LanguageStats>) -> nat
    decreases s.len(),
{
    if s.len() == 0 {
        0
    } else {
        sum_stats(s.drop_last()) + s.last().lines as nat
    }
}

/// Inserting an entry anywhere adds its count to the sum.
pub proof fn lemma_sum_stats_insert(s: Seq<LanguageStats>, i: int, x: LanguageStats)
    requires
        0 <= i <= s.len(),
    ensures
        sum_stats(s.insert(i, x)) == sum_stats(s) + x.lines,
    decreases s.len(),
{
    if i == s.len() {
        assert(s.insert(i, x) =~= s.push(x));
        assert(s.push(x).drop_last() =~= s);
    } else {
        assert(s.insert(i, x).drop_last() =~= s.drop_last().insert(i, x));
        assert(s.insert(i, x).last() == s.last());
        lemma_sum_stats_insert(s.drop_last(), i, x);
    }
}

/// Splitting a list splits its sum.
pub proof fn lemma_sum_stats_split(s: Seq<LanguageStats>, i: int)
    requires
        0 <= i <= s.len(),
    ensures
        sum_stats(s) == sum_stats(s.take(i)) + sum_stats(s.skip(i)),
    decreases s.len() - i,
{
    if i == s.len() {
        assert(s.take(i) =~= s);
        assert(s.skip(i) =~= Seq::<LanguageStats>::empty());
    } else {
        lemma_sum_stats_split(s, i + 1);
        assert(s.take(i + 1).drop_last() =~= s.take(i));
        assert(s.take(i + 1).last() == s[i]);
        assert(s.skip(i) =~= seq![s[i]] + s.skip(i + 1));
        lemma_sum_stats_cons(s[i], s.skip(i + 1));
    }
}

/// The sum of an element prepended to a list.
proof fn lemma_sum_stats_cons(x: LanguageStats, s: Seq<LanguageStats>)
    ensures
        sum_stats(seq![x] + s) == x.lines + sum_stats(s),
    decreases s.len(),
{
    if s.len() == 0 {
        assert(seq![x] + s =~= seq![x]);
        assert(seq![x].drop_last() =~= Seq::<LanguageStats>::empty());
        assert(seq![x].last() == x);
        assert(sum_stats(Seq::<LanguageStats>::empty()) == 0);
        assert(sum_stats(seq![x]) == x.lines as nat);
    } else {
        assert((seq![x] + s).drop_last() =~= seq![x] + s.drop_last());
        assert((seq![x] + s).last() == s.last());
        lemma_sum_stats_cons(x, s.drop_last());
    }
}

/// No key ranks before itself.
pub proof fn lemma_stat_lt_irreflexive(a: (Seq<char>, nat))
    ensures
        !stat_lt(a, a),
{
    crate::text::lemma_lex_lt_irreflexive(a.0);
}

/// The favorite language of a tally: tallied, and ranking strictly before
/// every other tallied language.
pub open spec fn is_favorite(name: Seq<char>, m: Map<Seq<char>, nat>) -> bool {
    &&& m.contains_key(name)
    &&& forall|k: Seq<char>|
        m.contains_key(k) && k != name ==> stat_lt((name, m[name]), (k, #[trigger] m[k]))
}

/// Two languages cannot both be the favorite.
pub proof fn lemma_favorite_unique(a: Seq<char>, b: Seq<char>, m: Map<Seq<char>, nat>)
    requires
        is_favorite(a, m),
        is_favorite(b, m),
    ensures
        a == b,
{
    if a != b {
        lemma_stat_lt_asymmetric((a, m[a]), (b, m[b]));
    }
}

/// A full ranking mentions every tallied language.
pub proof fn lemma_ranking_covers(s: Seq<LanguageStats>, m: Map<Seq<char>, nat>)
    requires
        is_full_ranking(s, m),
        m.dom().finite(),
    ensures
        forall|k: Seq<char>|
            m.contains_key(k) ==> exists|i: int| 0 <= i < s.len() && (#[trigger] s[i]).name@ == k,
{
    let names = s.map_values(|st: LanguageStats| st.name@);
    assert(names.no_duplicates()) by {
        assert forall|i: int, j: int|
            0 <= i < j < names.len() implies names[i] != names[j] by {
            if names[i] == names[j] {
                assert(stat_key(s[i]) == stat_key(s[j]));
                lemma_stat_lt_irreflexive(stat_key(s[i]));
            }
        }
    }
    names.unique_seq_to_set();
    assert(names.to_set().subset_of(m.dom())) by {
        assert forall|k: Seq<char>| names.to_set().contains(k) implies m.contains_key(k) by {
            let i = choose|i: int| 0 <= i < names.len() && names[i] == k;
            assert(s[i].name@ == k);
        }
    }
    vstd::set_lib::lemma_subset_equality(names.to_set(), m.dom());
    assert forall|k: Seq<char>| m.contains_key(k) implies exists|i: int|
        0 <= i < s.len() && (#[trigger] s[i]).name@ == k by {
        assert(names.to_set().contains(k));
        let i = choose|i: int| 0 <= i < names.len() && names[i] == k;
        assert(s[i].name@ == k);
    }
}

/// The first entry of a non-empty full ranking is the favorite language.
pub proof fn lemma_ranking_first_is_favorite(s: Seq<LanguageStats>, m: Map<Seq<char>, nat>)
    requires
        is_full_ranking(s, m),
        m.dom().finite(),
        s.len() > 0,
    ensures
        is_favorite(s[0].name@, m),
{
    lemma_ranking_covers(s, m);
    assert forall|k: Seq<char>|
        m.contains_key(k) && k != s[0].name@ implies stat_lt(
        (s[0].name@, m[s[0].name@]),
        (k, #[trigger] m[k]),
    ) by {
        let i = choose|i: int| 0 <= i < s.len() && (#[trigger] s[i]).name@ == k;
        assert(i != 0);
        assert(stat_lt(stat_key(s[0]), stat_key(s[i])));
        assert(stat_key(s[0]) == (s[0].name@, m[s[0].name@]));
        assert(stat_key(s[i]) == (k, m[k]));
    }
}

/// Whether `a` ranks no later than `b`: strictly before it, or with the very
/// same key.
pub open spec fn stat_leq(a: (Seq<char>, nat), b: (Seq<char>, nat)) -> bool {
    stat_lt(a, b) || a == b
}

/// Decides `stat_leq` on two entries.
fn stat_no_later(a: &LanguageStats, b: &LanguageStats) -> (r: bool)
    ensures
        r == stat_leq(stat_key(*a), stat_key(*b)),
{
    if b.lines < a.lines {
        true
    } else if a.lines < b.lines {
        false
    } else if str_lt(a.name.as_str(), b.name.as_str()) {
        true
    } else {
        str_eq(a.name.as_str(), b.name.as_str())
    }
}

/// Finds where a fresh-named entry belongs in a strictly sorted list: after
/// everything that ranks before it, before everything it ranks before.
fn insert_pos(out: &Vec<LanguageStats>, x: &LanguageStats) -> (idx: usize)
    requires
        stats_sorted(out@),
        forall|i: int| 0 <= i < out@.len() ==> (#[trigger] out@[i]).name@ != x.name@,
    ensures
        idx <= out@.len(),
        forall|i: int| 0 <= i < idx ==> stat_lt(stat_key(#[trigger] out@[i]), stat_key(*x)),
        idx < out@.len() ==> stat_lt(stat_key(*x), stat_key(out@[idx as int])),
{
    let n = out.len();
    let mut i: usize = 0;
    while i < n
        invariant
            stats_sorted(out@),
            forall|j: int| 0 <= j < out@.len() ==> (#[trigger] out@[j]).name@ != x.name@,
            n == out@.len(),
            i <= n,
            forall|j: int| 0 <= j < i ==> stat_lt(stat_key(#[trigger] out@[j]), stat_key(*x)),
        decreases n - i,
    {
        if stat_no_later(x, &out[i]) {
            proof {
                assert(stat_key(*x) != stat_key(out@[i as int]));
            }
            return i;
        }
        proof {
            lemma_stat_lt_total(stat_key(*x), stat_key(out@[i as int]));
        }
        i = i + 1;
    }
    n
}

/// Inserts an entry with a fresh name into a strictly sorted list, keeping
/// it strictly sorted.
fn sorted_insert(out: &mut Vec<LanguageStats>, x: LanguageStats)
    requires
        stats_sorted(old(out)@),
        forall|i: int| 0 <= i < old(out)@.len() ==> (#[trigger] old(out)@[i]).name@ != x.name@,
        old(out)@.len() < usize::MAX,
    ensures
        exists|p: int| 0 <= p <= old(out)@.len() && final(out)@ == old(out)@.insert(p, x),
        stats_sorted(final(out)@),
        final(out)@.len() == old(out)@.len() + 1,
{
    let idx = insert_pos(out, &x);
    proof {
        let s = out@;
        let t = s.insert(idx as int, x);
        s.insert_ensures(idx as int, x);
        assert forall|i: int, j: int| 0 <= i < j < t.len() implies stat_lt(
            stat_key(t[i]),
            stat_key(t[j]),
        ) by {
            if i == idx {
                if j > idx {
                    assert(t[j] == s[j - 1]);
                    if j - 1 > idx {
                        lemma_stat_lt_transitive(
                            stat_key(x),
                            stat_key(s[idx as int]),
                            stat_key(s[j - 1]),
                        );
                    }
                }
            } else if j == idx {
                assert(t[i] == s[i]);
            } else if i < idx && j > idx {
                assert(t[i] == s[i]);
                assert(t[j] == s[j - 1]);
                if i < j - 1 {
                } else {
                    assert(i == j - 1);
                    assert(stat_lt(stat_key(s[i]), stat_key(x)));
                }
            } else if j < idx {
                assert(t[i] == s[i]);
                assert(t[j] == s[j]);
            } else {
                assert(t[i] == s[i - 1]);
                assert(t[j] == s[j - 1]);
            }
        }
    }
    out.insert(idx, x);
}

/// The percentage share that `lines` of `total` lines stand for, in
/// hundredths of a percent rounded down: `100 * lines / total`, or zero
/// when the total is zero.
pub fn percent_hundredths(lines: usize, total: usize) -> (r: u64)
    requires
        lines <= total,
    ensures
        total > 0 ==> r == lines as nat * 10000 / total as nat,
        total == 0 ==> r == 0,
{
    if total == 0 {
        0
    } else {
        let p = (lines as u128) * 10000 / (total as u128);
        proof {
            assert(lines as int * 10000 / total as int <= 10000) by (nonlinear_arith)
                requires
                    0 < total,
                    lines <= total,
            ;
            assert(p == lines as int * 10000 / total as int);
        }
        p as u64
    }
}

/// Builds the full ranking of a tally: every tallied language exactly once,
/// strictly sorted by the ranking order, summing to the tally's total.
pub fn build_ranking(tally: &LanguageTally) -> (r: Vec<LanguageStats>)
    requires
        tally.wf(),
    ensures
        is_full_ranking(r@, tally@),
        sum_stats(r@) == tally.total,
{
    let n = tally.entries.len();
    let mut out: Vec<LanguageStats> = Vec::new();
    let mut i: usize = 0;
    proof {
        assert(tally.pairs().take(0) =~= Seq::<(Seq<char>, nat)>::empty());
    }
    while i < n
        invariant
            tally.wf(),
            n == tally.entries@.len(),
            i <= n,
            is_full_ranking(out@, crate::assoc::kv_map(tally.pairs().take(i as int))),
            sum_stats(out@) == sum_values(tally.pairs().take(i as int)),
            out@.len() == i,
        decreases n - i,
    {
        let ghost pre = tally.pairs().take(i as int);
        let ghost m = crate::assoc::kv_map(pre);
        let ghost k = tally.pairs()[i as int].0;
        let ghost v = tally.pairs()[i as int].1;
        let entry = &tally.entries[i];
        let x = LanguageStats { name: entry.0.clone(), lines: entry.1 };
        proof {
            assert(tally.pairs()[i as int] == (tally.entries@[i as int].0@,
            tally.entries@[i as int].1 as nat));
            assert(stat_key(x) == (k, v));
            // the new language is not among the processed prefix
            assert(forall|j: int| 0 <= j < i ==> (#[trigger] pre[j]) == tally.pairs()[j]);
            lemma_kv_map_dom(pre, k);
            assert(!m.contains_key(k));
            // hence not among the entries built so far
            assert(forall|j: int| 0 <= j < out@.len() ==> (#[trigger] out@[j]).name@ != k);
        }
        let ghost before = out@;
        sorted_insert(&mut out, x);
        proof {
            let p = choose|p: int| 0 <= p <= before.len() && out@ == before.insert(p, x);
            before.insert_ensures(p, x);
            lemma_sum_stats_insert(before, p, x);
            lemma_sum_take_step(tally.pairs(), i as int);
            lemma_kv_map_push(pre, k, v);
            assert(pre.push((k, v)) =~= tally.pairs().take(i as int + 1));
            let m2 = crate::assoc::kv_map(tally.pairs().take(i as int + 1));
            assert(m2 == m.insert(k, v));
            lemma_kv_map_finite(pre);
            assert(m2.dom().len() == m.dom().len() + 1);
            assert forall|j: int| 0 <= j < out@.len() implies m2.contains_key(
                (#[trigger] out@[j]).name@,
            ) && m2[out@[j].name@] == out@[j].lines as nat by {
                if j < p {
                    assert(out@[j] == before[j]);
                } else if j == p {
                    assert(out@[j] == x);
                } else {
                    assert(out@[j] == before[j - 1]);
                }
            }
            assert(is_full_ranking(out@, m2));
        }
        i = i + 1;
    }
    proof {
        assert(tally.pairs().take(n as int) =~= tally.pairs());
    }
    out
}

} // verus!
