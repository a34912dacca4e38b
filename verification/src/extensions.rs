//! The extension classifier: the final extension of a file path, and the
//! configured table mapping extensions to language names.

use vstd::prelude::*;
use vstd::string::StrSliceExecFns;
use crate::assoc::{
    kv_map, distinct_keys, lemma_kv_map_dom, lemma_kv_map_index, lemma_kv_map_push,
    lemma_kv_map_update,
};
use crate::text::str_eq;

verus! {

/// The largest index at which `c` occurs in `s`, or `-1` if it does not.
pub open spec fn last_pos(s: Seq<char>, c: char) -> int
    decreases s.len(),
{
    if s.len() == 0 {
        -1
    } else if s.last() == c {
        s.len() - 1
    } else {
        last_pos(s.drop_last(), c)
    }
}

/// What `last_pos` returns: a valid position of `c` with none after it, or
/// `-1` when `c` does not occur at all.
pub proof fn lemma_last_pos(s: Seq<char>, c: char)
    ensures
        -1 <= last_pos(s, c) < s.len(),
        last_pos(s, c) >= 0 ==> s[last_pos(s, c)] == c,
        forall|j: int| last_pos(s, c) < j < s.len() ==> s[j] != c,
    decreases s.len(),
{
    if s.len() > 0 && s.last() != c {
        lemma_last_pos(s.drop_last(), c);
        assert forall|j: int| last_pos(s, c) < j < s.len() implies s[j] != c by {
            if j < s.len() - 1 {
                assert(s.drop_last()[j] == s[j]);
            }
        }
    }
}

/// The final component of a path: everything after the last `/`, or the
/// whole path if it has none.
pub open spec fn file_name_of(p: Seq<char>) -> Seq<char> {
    p.skip(last_pos(p, '/') + 1)
}

/// The final extension of a path: what follows the last `.` of its file
/// name, provided that dot is preceded by at least one character.  A name
/// without a dot, or whose only dot leads it (a hidden file), has none.
pub open spec fn extension_of(p: Seq<char>) -> Option<Seq<char>> {
    let name = file_name_of(p);
    let d = last_pos(name, '.');
    if d <= 0 {
        None
    } else {
        Some(name.skip(d + 1))
    }
}

/// Finds the largest index at which `c` occurs in `s` at or after `from`.
fn rfind_from(s: &str, c: char, from: usize, n: usize) -> (r: Option<usize>)
    requires
        n == s@.len(),
        from <= n,
    ensures
        match r {
            Some(i) => from <= i < n && s@[i as int] == c && forall|j: int|
                i < j < n ==> s@[j] != c,
            None => forall|j: int| from <= j < n ==> s@[j] != c,
        },
{
    let mut k = n;
    while k > from
        invariant
            n == s@.len(),
            from <= k <= n,
            forall|j: int| k <= j < n ==> s@[j] != c,
        decreases k,
    {
        k = k - 1;
        if s.get_char(k) == c {
            return Some(k);
        }
    }
    None
}

/// The final extension of a path, as a borrowed slice of it.
pub fn extension(path: &str) -> (r: Option<&str>)
    ensures
        match r {
            Some(e) => extension_of(path@) == Some(e@),
            None => extension_of(path@) is None,
        },
{
    let n = path.unicode_len();
    let start = match rfind_from(path, '/', 0, n) {
        Some(i) => i + 1,
        None => 0,
    };
    proof {
        lemma_last_pos(path@, '/');
        assert(start == last_pos(path@, '/') + 1);
    }
    let ghost name = file_name_of(path@);
    proof {
        assert(name =~= path@.skip(start as int));
    }
    match rfind_from(path, '.', start, n) {
        Some(d_abs) => {
            proof {
                lemma_last_pos(name, '.');
                assert(name[d_abs - start] == path@[d_abs as int]);
                assert(forall|j: int|
                    d_abs - start < j < name.len() ==> name[j] == path@[j + start] && path@[j
                        + start] != '.');
                assert(last_pos(name, '.') == d_abs - start) by {
                    let lp = last_pos(name, '.');
                    if lp < d_abs - start {
                        assert(name[d_abs - start] != '.');
                    } else if lp > d_abs - start {
                        assert(path@[lp + start] == '.');
                    }
                }
            }
            if d_abs == start {
                proof {
                    assert(extension_of(path@) is None);
                }
                None
            } else {
                let e = path.substring_char(d_abs + 1, n);
                proof {
                    assert(e@ =~= name.skip(d_abs - start + 1));
                }
                Some(e)
            }
        },
        None => {
            proof {
                lemma_last_pos(name, '.');
                assert(forall|j: int|
                    0 <= j < name.len() ==> name[j] == path@[j + start] && path@[j + start]
                        != '.');
                assert(last_pos(name, '.') == -1) by {
                    let lp = last_pos(name, '.');
                    if lp >= 0 {
                        assert(name[lp] == '.');
                    }
                }
            }
            None
        },
    }
}

/// The configured mapping from file extension to language name.
pub struct ExtensionTable {
    /// One entry per extension; keys are pairwise distinct.
    pub entries: Vec<(String, String)>,
}

impl View for ExtensionTable {
    type V = Map<Seq<char>, Seq<char>>;

    open spec fn view(&self) -> Map<Seq<char>, Seq<char>> {
        kv_map(self.pairs())
    }
}

impl ExtensionTable {
    /// The entries as a mathematical sequence of extension/language pairs.
    pub open spec fn pairs(&self) -> Seq<(Seq<char>, Seq<char>)> {
        self.entries@.map_values(|p: (String, String)| (p.0@, p.1@))
    }

    /// Each extension is mapped at most once.
    pub open spec fn wf(&self) -> bool {
        distinct_keys(self.pairs())
    }

    /// An empty table.
    pub fn new() -> (t: ExtensionTable)
        ensures
            t.wf(),
            t@ =~= Map::<Seq<char>, Seq<char>>::empty(),
    {
        let t = ExtensionTable { entries: Vec::new() };
        proof {
            assert(t.pairs() =~= Seq::<(Seq<char>, Seq<char>)>::empty());
        }
        t
    }

    /// Maps an extension to a language, replacing any earlier mapping of the
    /// same extension.
    pub fn insert(&mut self, ext: &str, lang: &str)
        requires
            old(self).wf(),
        ensures
            final(self).wf(),
            final(self)@ =~= old(self)@.insert(ext@, lang@),
    {
        let ghost orig = self.pairs();
        let n = self.entries.len();
        let mut i: usize = 0;
        while i < n
            invariant
                *self == *old(self),
                old(self).wf(),
                orig == old(self).pairs(),
                n == self.entries@.len(),
                i <= n,
                forall|j: int| 0 <= j < i ==> (#[trigger] self.pairs()[j]).0 != ext@,
            decreases n - i,
        {
            if str_eq(self.entries[i].0.as_str(), ext) {
                self.entries[i].1 = lang.to_owned();
                proof {
                    assert(self.pairs() =~= orig.update(i as int, (orig[i as int].0, lang@)));
                    lemma_kv_map_update(orig, i as int, lang@);
                    assert(orig[i as int].0 == ext@);
                }
                return;
            }
            i = i + 1;
        }
        self.entries.push((ext.to_owned(), lang.to_owned()));
        proof {
            assert(self.pairs() =~= orig.push((ext@, lang@)));
            lemma_kv_map_push(orig, ext@, lang@);
            assert(distinct_keys(self.pairs())) by {
                lemma_kv_map_dom(orig, ext@);
                assert(forall|j: int|
                    0 <= j < orig.len() ==> (#[trigger] self.pairs()[j]) == orig[j]);
            }
        }
    }

    /// The language mapped to an extension, if any.
    pub fn lookup(&self, ext: &str) -> (r: Option<&String>)
        requires
            self.wf(),
        ensures
            match r {
                Some(l) => self@.contains_key(ext@) && l@ == self@[ext@],
                None => !self@.contains_key(ext@),
            },
    {
        let n = self.entries.len();
        let mut i: usize = 0;
        while i < n
            invariant
                self.wf(),
                n == self.entries@.len(),
                i <= n,
                forall|j: int| 0 <= j < i ==> (#[trigger] self.pairs()[j]).0 != ext@,
            decreases n - i,
        {
            if str_eq(self.entries[i].0.as_str(), ext) {
                proof {
                    lemma_kv_map_index(self.pairs(), i as int);
                }
                return Some(&self.entries[i].1);
            }
            i = i + 1;
        }
        proof {
            lemma_kv_map_dom(self.pairs(), ext@);
        }
        None
    }
}

/// What the classifier decides for a path under a table: the language mapped
/// to the path's final extension, or nothing when the path has no extension
/// or an unmapped one.
pub open spec fn classify_spec(p: Seq<char>, t: Map<Seq<char>, Seq<char>>) -> Option<Seq<char>> {
    match extension_of(p) {
        None => None,
        Some(e) => if t.contains_key(e) {
            Some(t[e])
        } else {
            None
        },
    }
}

/// Classifies a path: the language for its final extension, if the table
/// maps it.
pub fn classify<'a>(path: &str, table: &'a ExtensionTable) -> (r: Option<&'a String>)
    requires
        table.wf(),
    ensures
        match r {
            Some(l) => classify_spec(path@, table@) == Some(l@),
            None => classify_spec(path@, table@) is None,
        },
{
    match extension(path) {
        Some(e) => table.lookup(e),
        None => None,
    }
}

} // verus!
