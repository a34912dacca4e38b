//! The repository walker: which files of a tree count, and the tally one
//! repository contributes once its matched files' contents are in hand.

use vstd::prelude::*;
use crate::extensions::{ExtensionTable, classify, classify_spec};
use crate::tally::{LanguageTally, tally_bump};
use crate::text::{line_count, count_lines, str_eq};

verus! {

/// One entry of a repository's file tree: a path and the provider's kind
/// tag (`"blob"` for a regular file; other kinds are skipped).
pub struct TreeEntry {
    pub path: String,
    pub item_type: String,
}

/// The view of one tree entry: its path and kind as character sequences.
pub open spec fn entry_view(e: TreeEntry) -> (Seq<char>, Seq<char>) {
    (e.path@, e.item_type@)
}

/// Which files of a tree count, in tree order: the blob entries whose path
/// the classifier matches, each paired with its language.
pub open spec fn matched_of(tree: Seq<(Seq<char>, Seq<char>)>, t: Map<Seq<char>, Seq<char>>) -> Seq<
    (Seq<char>, Seq<char>),
>
    decreases tree.len(),
{
    if tree.len() == 0 {
        Seq::empty()
    } else {
        matched_of(tree.drop_last(), t) + (if tree.last().1 == "blob"@ && classify_spec(
            tree.last().0,
            t,
        ) is Some {
            seq![(tree.last().0, classify_spec(tree.last().0, t)->Some_0)]
        } else {
            Seq::empty()
        })
    }
}

/// Lists the files of a tree that count: blob entries with a mapped
/// extension, each with its language, in tree order.
pub fn matched_files(tree: &Vec<TreeEntry>, table: &ExtensionTable) -> (r: Vec<(String, String)>)
    requires
        table.wf(),
    ensures
        r@.map_values(|p: (String, String)| (p.0@, p.1@)) == matched_of(
            tree@.map_values(|e: TreeEntry| entry_view(e)),
            table@,
        ),
{
    let ghost tv = tree@.map_values(|e: TreeEntry| entry_view(e));
    let n = tree.len();
    let mut r: Vec<(String, String)> = Vec::new();
    let mut i: usize = 0;
    proof {
        assert(tv.take(0) =~= Seq::<(Seq<char>, Seq<char>)>::empty());
        assert(r@.map_values(|p: (String, String)| (p.0@, p.1@)) =~= matched_of(tv.take(0),
        table@));
    }
    while i < n
        invariant
            table.wf(),
            tv == tree@.map_values(|e: TreeEntry| entry_view(e)),
            n == tree@.len(),
            i <= n,
            r@.map_values(|p: (String, String)| (p.0@, p.1@)) == matched_of(
                tv.take(i as int),
                table@,
            ),
        decreases n - i,
    {
        let entry = &tree[i];
        let ghost before = r@;
        proof {
            assert(tv.take(i + 1).drop_last() =~= tv.take(i as int));
            assert(tv.take(i + 1).last() == tv[i as int]);
            assert(tv[i as int] == (tree@[i as int].path@, tree@[i as int].item_type@));
        }
        if str_eq(entry.item_type.as_str(), "blob") {
            match classify(entry.path.as_str(), table) {
                Some(lang) => {
                    r.push((entry.path.clone(), lang.clone()));
                    proof {
                        assert(r@.map_values(|p: (String, String)| (p.0@, p.1@)) =~= before
                            .map_values(|p: (String, String)| (p.0@, p.1@)).push((entry.path@,
                        lang@)));
                        assert(matched_of(tv.take(i + 1), table@) =~= matched_of(
                            tv.take(i as int),
                            table@,
                        ).push((entry.path@, lang@)));
                    }
                },
                None => {
                    proof {
                        assert(matched_of(tv.take(i + 1), table@) =~= matched_of(
                            tv.take(i as int),
                            table@,
                        ));
                    }
                },
            }
        } else {
            proof {
                assert(matched_of(tv.take(i + 1), table@) =~= matched_of(tv.take(i as int),
                table@));
            }
        }
        i = i + 1;
    }
    proof {
        assert(tv.take(n as int) =~= tv);
    }
    r
}

/// What came of fetching one matched file: its language, and its decoded
/// content where the fetch succeeded.
pub struct FileOutcome {
    pub language: String,
    /// The decoded text, or nothing when the fetch or decode failed and the
    /// file is skipped.
    pub content: Option<String>,
}

/// The lines that a sequence of fetch outcomes contributes: the line counts
/// of the fetched contents; a failed file contributes nothing.
pub open spec fn files_lines(s: Seq<FileOutcome>) -> nat
    decreases s.len(),
{
    if s.len() == 0 {
        0
    } else {
        files_lines(s.drop_last()) + (match s.last().content {
            Some(c) => line_count(c@),
            None => 0,
        })
    }
}

/// The tally that a sequence of fetch outcomes builds: each fetched file's
/// line count added under its language; failed files skipped.
pub open spec fn files_tally(s: Seq<FileOutcome>) -> Map<Seq<char>, nat>
    decreases s.len(),
{
    if s.len() == 0 {
        Map::empty()
    } else {
        match s.last().content {
            Some(c) => tally_bump(files_tally(s.drop_last()), s.last().language@, line_count(c@)),
            None => files_tally(s.drop_last()),
        }
    }
}

/// A prefix of the outcomes contributes at most as many lines as all of
/// them.
proof fn lemma_files_lines_take_le(s: Seq<FileOutcome>, i: int)
    requires
        0 <= i <= s.len(),
    ensures
        files_lines(s.take(i)) <= files_lines(s),
    decreases s.len() - i,
{
    if i == s.len() {
        assert(s.take(i) =~= s);
    } else {
        assert(s.take(i + 1).drop_last() =~= s.take(i));
        assert(s.take(i + 1).last() == s[i]);
        lemma_files_lines_take_le(s, i + 1);
    }
}

/// Walks one repository's fetched files into its tally: every fetched
/// file's lines are counted under its language, every failed file is
/// skipped, and the walk completes whatever mix of the two it meets.
pub fn tally_files(files: &Vec<FileOutcome>) -> (t: LanguageTally)
    requires
        files_lines(files@) <= usize::MAX,
    ensures
        t.wf(),
        t@ =~= files_tally(files@),
        t.total == files_lines(files@),
{
    let n = files.len();
    let mut t = LanguageTally::new();
    let mut i: usize = 0;
    proof {
        assert(files@.take(0) =~= Seq::<FileOutcome>::empty());
    }
    while i < n
        invariant
            files_lines(files@) <= usize::MAX,
            n == files@.len(),
            i <= n,
            t.wf(),
            t@ =~= files_tally(files@.take(i as int)),
            t.total == files_lines(files@.take(i as int)),
        decreases n - i,
    {
        proof {
            assert(files@.take(i + 1).drop_last() =~= files@.take(i as int));
            assert(files@.take(i + 1).last() == files@[i as int]);
            lemma_files_lines_take_le(files@, i + 1);
        }
        match &files[i].content {
            Some(c) => {
                let lines = count_lines(c.as_str());
                t.add(files[i].language.as_str(), lines);
            },
            None => {},
        }
        i = i + 1;
    }
    proof {
        assert(files@.take(n as int) =~= files@);
    }
    t
}

} // verus!
