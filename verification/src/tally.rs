//! The language tally: per-language accumulated line counts, kept together
//! with the running grand total of lines.

use vstd::prelude::*;
use crate::assoc::{
    kv_map, distinct_keys, lemma_kv_map_dom, lemma_kv_map_index, lemma_kv_map_push,
    lemma_kv_map_update,
};
use crate::text::str_eq;

verus! {

/// Sum of the line counts of a sequence of pairs.
pub open spec fn sum_values(s: Seq<(Seq<char>, nat)>) -> nat
    decreases s.len(),
{
    if s.len() == 0 {
        0
    } else {
        sum_values(s.drop_last()) + s.last().1
    }
}

/// Each line count is bounded by the sum.
pub proof fn lemma_value_le_sum(s: Seq<(Seq<char>, nat)>, i: int)
    requires
        0 <= i < s.len(),
    ensures
        s[i].1 <= sum_values(s),
    decreases s.len(),
{
    if i < s.len() - 1 {
        assert(s.drop_last()[i] == s[i]);
        lemma_value_le_sum(s.drop_last(), i);
    }
}

/// Appending a pair adds its count to the sum.
pub proof fn lemma_sum_push(s: Seq<(Seq<char>, nat)>, k: Seq<char>, v: nat)
    ensures
        sum_values(s.push((k, v))) == sum_values(s) + v,
{
    assert(s.push((k, v)).drop_last() =~= s);
}

/// Replacing one count moves the sum by the difference.
pub proof fn lemma_sum_update(s: Seq<(Seq<char>, nat)>, i: int, v: nat)
    requires
        0 <= i < s.len(),
    ensures
        sum_values(s.update(i, (s[i].0, v))) + s[i].1 == sum_values(s) + v,
    decreases s.len(),
{
    let t = s.update(i, (s[i].0, v));
    if i == s.len() - 1 {
        assert(t.drop_last() =~= s.drop_last());
    } else {
        assert(t.drop_last() =~= s.drop_last().update(i, (s[i].0, v)));
        assert(s.drop_last()[i] == s[i]);
        lemma_sum_update(s.drop_last(), i, v);
        assert(t.last() == s.last());
    }
}

/// The sum of a prefix never exceeds the sum of the whole.
pub proof fn lemma_sum_take_le(s: Seq<(Seq<char>, nat)>, i: int)
    requires
        0 <= i <= s.len(),
    ensures
        sum_values(s.take(i)) <= sum_values(s),
    decreases s.len() - i,
{
    if i == s.len() {
        assert(s.take(i) =~= s);
    } else {
        assert(s.take(i + 1).drop_last() =~= s.take(i));
        assert(s.take(i + 1).last() == s[i]);
        lemma_sum_take_le(s, i + 1);
    }
}

/// Extending a prefix by one pair adds that pair's count.
pub proof fn lemma_sum_take_step(s: Seq<(Seq<char>, nat)>, i: int)
    requires
        0 <= i < s.len(),
    ensures
        sum_values(s.take(i + 1)) == sum_values(s.take(i)) + s[i].1,
{
    assert(s.take(i + 1).drop_last() =~= s.take(i));
    assert(s.take(i + 1).last() == s[i]);
}

/// A tally map with one language's count raised by `n` (a missing language
/// counts as zero).
pub open spec fn tally_bump(m: Map<Seq<char>, nat>, k: Seq<char>, n: nat) -> Map<Seq<char>, nat> {
    m.insert(
        k,
        (if m.contains_key(k) {
            m[k]
        } else {
            0nat
        }) + n,
    )
}

/// The pointwise sum of two tally maps, over the union of their languages.
pub open spec fn tally_merge(a: Map<Seq<char>, nat>, b: Map<Seq<char>, nat>) -> Map<
    Seq<char>,
    nat,
> {
    Map::new(
        |k: Seq<char>| a.contains_key(k) || b.contains_key(k),
        |k: Seq<char>|
            (if a.contains_key(k) {
                a[k]
            } else {
                0nat
            }) + (if b.contains_key(k) {
                b[k]
            } else {
                0nat
            }),
    )
}

/// The mapping from language name to accumulated line count during one
/// analysis run, together with the grand total of all counted lines.
pub struct LanguageTally {
    /// One entry per language seen so far; keys are pairwise distinct.
    pub entries: Vec<(String, usize)>,
    /// Sum of all entries' line counts.
    pub total: usize,
}

impl View for LanguageTally {
    type V = Map<Seq<char>, nat>;

    open spec fn view(&self) -> Map<Seq<char>, nat> {
        kv_map(self.pairs())
    }
}

impl LanguageTally {
    /// The entries as a mathematical sequence of name/count pairs.
    pub open spec fn pairs(&self) -> Seq<(Seq<char>, nat)> {
        self.entries@.map_values(|p: (String, usize)| (p.0@, p.1 as nat))
    }

    /// Languages are tallied once each, and `total` is their counts' sum.
    pub open spec fn wf(&self) -> bool {
        &&& distinct_keys(self.pairs())
        &&& self.total as nat == sum_values(self.pairs())
    }

    /// An empty tally.
    pub fn new() -> (t: LanguageTally)
        ensures
            t.wf(),
            t@ =~= Map::<Seq<char>, nat>::empty(),
            t.total == 0,
            t.entries@.len() == 0,
    {
        let t = LanguageTally { entries: Vec::new(), total: 0 };
        proof {
            assert(t.pairs() =~= Seq::<(Seq<char>, nat)>::empty());
        }
        t
    }

    /// Adds `lines` to one language's count (starting it at zero if the
    /// language is new) and to the grand total.
    pub fn add(&mut self, lang: &str, lines: usize)
        requires
            old(self).wf(),
            old(self).total + lines <= usize::MAX,
        ensures
            final(self).wf(),
            final(self)@ =~= tally_bump(old(self)@, lang@, lines as nat),
            final(self).total == old(self).total + lines,
    {
        let ghost orig = self.pairs();
        let n = self.entries.len();
        let mut i: usize = 0;
        while i < n
            invariant
                *self == *old(self),
                old(self).wf(),
                old(self).total + lines <= usize::MAX,
                orig == old(self).pairs(),
                n == self.entries@.len(),
                i <= n,
                forall|j: int| 0 <= j < i ==> (#[trigger] self.pairs()[j]).0 != lang@,
            decreases n - i,
        {
            if str_eq(self.entries[i].0.as_str(), lang) {
                let cur = self.entries[i].1;
                proof {
                    lemma_value_le_sum(self.pairs(), i as int);
                    assert(self.pairs()[i as int] == (self.entries@[i as int].0@,
                    self.entries@[i as int].1 as nat));
                }
                self.entries[i].1 = cur + lines;
                self.total = self.total + lines;
                proof {
                    assert(self.pairs() =~= orig.update(i as int, (orig[i as int].0, (cur
                        + lines) as nat)));
                    lemma_kv_map_update(orig, i as int, (cur + lines) as nat);
                    lemma_sum_update(orig, i as int, (cur + lines) as nat);
                    lemma_kv_map_index(orig, i as int);
                    assert(orig[i as int].0 == lang@);
                    assert(final(self)@ =~= tally_bump(old(self)@, lang@, lines as nat));
                }
                return;
            }
            i = i + 1;
        }
        proof {
            lemma_kv_map_dom(orig, lang@);
            assert(!old(self)@.contains_key(lang@));
        }
        self.entries.push((lang.to_owned(), lines));
        self.total = self.total + lines;
        proof {
            assert(self.pairs() =~= orig.push((lang@, lines as nat)));
            lemma_kv_map_push(orig, lang@, lines as nat);
            lemma_sum_push(orig, lang@, lines as nat);
            assert(distinct_keys(self.pairs())) by {
                assert(forall|j: int|
                    0 <= j < orig.len() ==> (#[trigger] self.pairs()[j]) == orig[j]);
            }
            assert(final(self)@ =~= tally_bump(old(self)@, lang@, lines as nat));
        }
    }

    /// Merges another tally into this one, summing the counts per language
    /// and the totals.
    pub fn merge(&mut self, other: &LanguageTally)
        requires
            old(self).wf(),
            other.wf(),
            old(self).total + other.total <= usize::MAX,
        ensures
            final(self).wf(),
            final(self)@ =~= tally_merge(old(self)@, other@),
            final(self).total == old(self).total + other.total,
    {
        let n = other.entries.len();
        let mut j: usize = 0;
        proof {
            assert(other.pairs().take(0) =~= Seq::<(Seq<char>, nat)>::empty());
            lemma_merge_empty(old(self)@);
        }
        while j < n
            invariant
                old(self).wf(),
                other.wf(),
                old(self).total + other.total <= usize::MAX,
                n == other.entries@.len(),
                j <= n,
                self.wf(),
                self@ =~= tally_merge(old(self)@, kv_map(other.pairs().take(j as int))),
                self.total as nat == old(self).total + sum_values(other.pairs().take(j as int)),
            decreases n - j,
        {
            let lang_lines = &other.entries[j];
            proof {
                lemma_sum_take_step(other.pairs(), j as int);
                lemma_sum_take_le(other.pairs(), j as int + 1);
                assert(other.pairs()[j as int] == (other.entries@[j as int].0@,
                other.entries@[j as int].1 as nat));
            }
            let ghost mid = self@;
            self.add(lang_lines.0.as_str(), lang_lines.1);
            proof {
                assert(forall|x: int|
                    0 <= x < j ==> (#[trigger] other.pairs()[x]).0 != other.pairs()[j as int].0);
                lemma_kv_map_dom(other.pairs().take(j as int), other.pairs()[j as int].0);
                assert(forall|x: int|
                    0 <= x < j ==> #[trigger] other.pairs().take(j as int)[x] == other.pairs()[x]);
                assert(!kv_map(other.pairs().take(j as int)).contains_key(
                    other.pairs()[j as int].0,
                ));
                lemma_merge_bump(
                    old(self)@,
                    kv_map(other.pairs().take(j as int)),
                    other.pairs()[j as int].0,
                    other.pairs()[j as int].1,
                );
                lemma_kv_map_push(
                    other.pairs().take(j as int),
                    other.pairs()[j as int].0,
                    other.pairs()[j as int].1,
                );
                assert(other.pairs().take(j as int).push(other.pairs()[j as int])
                    =~= other.pairs().take(j as int + 1));
            }
            j = j + 1;
        }
        proof {
            assert(other.pairs().take(n as int) =~= other.pairs());
        }
    }
}

/// Merging the empty tally changes nothing.
proof fn lemma_merge_empty(a: Map<Seq<char>, nat>)
    ensures
        tally_merge(a, Map::<Seq<char>, nat>::empty()) =~= a,
{
}

/// Bumping a language after a merge equals merging with the bumped tally,
/// when the language is new to the merged-in side.
proof fn lemma_merge_bump(a: Map<Seq<char>, nat>, b: Map<Seq<char>, nat>, k: Seq<char>, v: nat)
    requires
        !b.contains_key(k),
    ensures
        tally_bump(tally_merge(a, b), k, v) =~= tally_merge(a, tally_bump(b, k, v)),
{
}

} // verus!
