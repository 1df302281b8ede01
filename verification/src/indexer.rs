//! The sorted index of markdown files discovered under the root.
//!
//! The caller walks the directory tree and hands over the relative path of
//! every file it saw; the index keeps those that name markdown files,
//! keyed by relative path in ascending lexicographic order, each with its
//! display name. The order makes the sidebar and the default route
//! deterministic.

use vstd::prelude::*;
use crate::order::lex_lt;
use crate::order::lemma_lex_lt_asymmetric;
use crate::order::lemma_lex_lt_irreflexive;
use crate::order::lemma_lex_lt_total;
use crate::order::lemma_lex_lt_transitive;
use crate::order::str_lt;
use crate::paths::display_name;
use crate::paths::display_of;
use crate::paths::is_md_path;

verus! {

/// One discovered markdown file: its root-relative path and the name the
/// sidebar shows for it.
pub struct IndexEntry {
    pub path: String,
    pub name: String,
}

/// The sorted index of all discovered markdown files.
pub struct FileIndex {
    pub entries: Vec<IndexEntry>,
}

/// The mathematical content of an entry sequence: a sequence of
/// (relative path, display name) pairs.
pub open spec fn entries_view(v: Seq<IndexEntry>) -> Seq<(Seq<char>, Seq<char>)> {
    v.map_values(|e: IndexEntry| (e.path@, e.name@))
}

/// Keys ascend strictly: no duplicates, lexicographic order.
pub open spec fn sorted_strict(s: Seq<(Seq<char>, Seq<char>)>) -> bool {
    forall|i: int, j: int| 0 <= i < j < s.len() ==> lex_lt(s[i].0, s[j].0)
}

/// Every key names a markdown file and carries that file's display name.
pub open spec fn names_ok(s: Seq<(Seq<char>, Seq<char>)>) -> bool {
    forall|i: int| 0 <= i < s.len() ==> is_md_path(s[i].0) && s[i].1 == display_of(s[i].0)
}

/// Some entry of `s` has key `k`.
pub open spec fn has_key(s: Seq<(Seq<char>, Seq<char>)>, k: Seq<char>) -> bool {
    exists|i: int| 0 <= i < s.len() && s[i].0 == k
}

impl View for FileIndex {
    type V = Seq<(Seq<char>, Seq<char>)>;

    open spec fn view(&self) -> Seq<(Seq<char>, Seq<char>)> {
        entries_view(self.entries@)
    }
}

impl FileIndex {
    /// Well-formed: strictly sorted by key, names determined by keys.
    pub open spec fn wf(self) -> bool {
        sorted_strict(self@) && names_ok(self@)
    }

    /// The index has an entry for relative path `k`.
    pub open spec fn contains_path(self, k: Seq<char>) -> bool {
        has_key(self@, k)
    }

    /// Number of indexed markdown files.
    pub fn len(&self) -> (n: usize)
        ensures
            n == self@.len(),
    {
        self.entries.len()
    }

    /// The relative path of the entry at position `i`.
    pub fn path_at(&self, i: usize) -> (p: &String)
        requires
            i < self@.len(),
        ensures
            p@ == self@[i as int].0,
    {
        &self.entries[i].path
    }

    /// The display name of the entry at position `i`.
    pub fn name_at(&self, i: usize) -> (n: &String)
        requires
            i < self@.len(),
        ensures
            n@ == self@[i as int].1,
    {
        &self.entries[i].name
    }

    /// Whether the index has an entry for the relative path `k`.
    pub fn contains(&self, k: &String) -> (r: bool)
        ensures
            r == self.contains_path(k@),
    {
        let n: usize = self.entries.len();
        let mut i: usize = 0;
        while i < n
            invariant
                i <= n,
                n == self@.len(),
                forall|j: int| 0 <= j < i ==> self@[j].0 != k@,
            decreases n - i,
        {
            if self.entries[i].path == *k {
                proof {
                    assert(self@[i as int].0 == k@);
                }
                return true;
            }
            i = i + 1;
        }
        false
    }

    /// The lexicographically smallest indexed path, if any file was found.
    pub fn first_path(&self) -> (r: Option<String>)
        requires
            self.wf(),
        ensures
            match r {
                Some(p) => self@.len() > 0 && p@ == self@[0].0 && forall|i: int|
                    0 <= i < self@.len() ==> !lex_lt(self@[i].0, p@),
                None => self@.len() == 0,
            },
    {
        if self.entries.len() == 0 {
            None
        } else {
            proof {
                assert forall|i: int| 0 <= i < self@.len() implies !lex_lt(
                    self@[i].0,
                    self@[0].0,
                ) by {
                    if i == 0 {
                        lemma_lex_lt_irreflexive(self@[0].0);
                    } else {
                        lemma_lex_lt_asymmetric(self@[0].0, self@[i].0);
                    }
                }
            }
            Some(self.entries[0].path.clone())
        }
    }
}

/// Inserts one markdown file into the sorted entry list, keeping the keys
/// strictly ascending; a path that is already present is left as it is,
/// since its display name is determined by the path.
fn insert_entry(entries: &mut Vec<IndexEntry>, path: String, name: String)
    requires
        sorted_strict(entries_view(old(entries)@)),
        names_ok(entries_view(old(entries)@)),
        is_md_path(path@),
        name@ == display_of(path@),
    ensures
        sorted_strict(entries_view(final(entries)@)),
        names_ok(entries_view(final(entries)@)),
        forall|k: Seq<char>|
            has_key(entries_view(final(entries)@), k) <==> (has_key(
                entries_view(old(entries)@),
                k,
            ) || k == path@),
{
    let n: usize = entries.len();
    let mut pos: usize = 0;
    while pos < n && str_lt(&entries[pos].path, &path)
        invariant
            pos <= n,
            n == entries@.len(),
            *entries == *old(entries),
            forall|i: int| 0 <= i < pos ==> lex_lt(entries_view(entries@)[i].0, path@),
        decreases n - pos,
    {
        pos = pos + 1;
    }
    let ghost old_s = entries_view(entries@);
    if pos < n && entries[pos].path == path {
        proof {
            assert(old_s[pos as int].0 == path@);
        }
        return ;
    }
    proof {
        if pos < n {
            lemma_lex_lt_total(old_s[pos as int].0, path@);
        }
        assert forall|j: int| pos <= j < old_s.len() implies lex_lt(path@, old_s[j].0) by {
            if j > pos {
                lemma_lex_lt_transitive(path@, old_s[pos as int].0, old_s[j].0);
            }
        }
    }
    entries.insert(pos, IndexEntry { path, name });
    proof {
        let new_s = entries_view(entries@);
        assert(new_s =~= old_s.insert(pos as int, (path@, name@)));
        assert forall|k: Seq<char>| has_key(old_s, k) || k == path@ implies has_key(
            new_s,
            k,
        ) by {
            if k == path@ {
                assert(new_s[pos as int].0 == k);
            } else {
                let i = choose|i: int| 0 <= i < old_s.len() && old_s[i].0 == k;
                if i < pos {
                    assert(new_s[i].0 == k);
                } else {
                    assert(new_s[i + 1].0 == k);
                }
            }
        }
    }
}

/// Builds the file index from the relative paths of every file found by a
/// walk of the root: exactly the markdown files among them are indexed,
/// in ascending lexicographic order of their relative paths, each under
/// its display name.
pub fn collect_md_files(paths: &Vec<String>) -> (idx: FileIndex)
    ensures
        idx.wf(),
        forall|k: Seq<char>|
            idx.contains_path(k) <==> (exists|i: int|
                0 <= i < paths.deep_view().len() && paths.deep_view()[i] == k && is_md_path(k)),
{
    let n: usize = paths.len();
    let mut entries: Vec<IndexEntry> = Vec::new();
    let mut i: usize = 0;
    while i < n
        invariant
            i <= n,
            n == paths@.len(),
            sorted_strict(entries_view(entries@)),
            names_ok(entries_view(entries@)),
            forall|k: Seq<char>|
                has_key(entries_view(entries@), k) <==> (exists|j: int|
                    0 <= j < i && paths.deep_view()[j] == k && is_md_path(k)),
        decreases n - i,
    {
        let p = &paths[i];
        proof {
            assert(paths.deep_view()[i as int] == paths@[i as int]@);
        }
        match display_name(p) {
            Some(name) => {
                insert_entry(&mut entries, p.clone(), name);
            },
            None => {},
        }
        i = i + 1;
    }
    FileIndex { entries }
}

/// Scanning the same directory listing twice yields the identical index:
/// a well-formed index is determined by the set of its keys, so two
/// well-formed indexes with the same keys are equal, order included.
pub proof fn lemma_index_deterministic(a: FileIndex, b: FileIndex)
    requires
        a.wf(),
        b.wf(),
        forall|k: Seq<char>| a.contains_path(k) <==> b.contains_path(k),
    ensures
        a@ == b@,
{
    assert forall|k: Seq<char>| #[trigger] has_key(a@, k) == has_key(b@, k) by {
        assert(a.contains_path(k) <==> b.contains_path(k));
    }
    lemma_sorted_same_keys(a@, b@);
    assert(a@ =~= b@);
}

/// Two strictly sorted entry sequences with the same keys and with names
/// determined by their keys are pointwise equal.
proof fn lemma_sorted_same_keys(s: Seq<(Seq<char>, Seq<char>)>, t: Seq<(Seq<char>, Seq<char>)>)
    requires
        sorted_strict(s),
        names_ok(s),
        sorted_strict(t),
        names_ok(t),
        forall|k: Seq<char>| has_key(s, k) <==> has_key(t, k),
    ensures
        s.len() == t.len(),
        forall|i: int| 0 <= i < s.len() ==> s[i] == t[i],
    decreases s.len(),
{
    if s.len() == 0 {
        if t.len() > 0 {
            assert(has_key(t, t[0].0));
        }
    } else {
        assert(has_key(s, s[0].0));
        assert(has_key(t, t[0].0));
        let m = choose|m: int| 0 <= m < t.len() && t[m].0 == s[0].0;
        let m2 = choose|m2: int| 0 <= m2 < s.len() && s[m2].0 == t[0].0;
        if m > 0 && m2 > 0 {
            assert(lex_lt(t[0].0, t[m].0));
            assert(lex_lt(s[0].0, s[m2].0));
            lemma_lex_lt_asymmetric(t[0].0, s[0].0);
            assert(false);
        }
        assert(s[0].0 == t[0].0);
        assert(s[0].1 == t[0].1);
        let s1 = s.skip(1);
        let t1 = t.skip(1);
        assert forall|k: Seq<char>| has_key(s1, k) implies has_key(t1, k) by {
            lemma_tail_key(s, k);
            lemma_key_tail(t, k);
        }
        assert forall|k: Seq<char>| has_key(t1, k) implies has_key(s1, k) by {
            lemma_tail_key(t, k);
            lemma_key_tail(s, k);
        }
        lemma_sorted_same_keys(s1, t1);
        assert forall|i: int| 0 <= i < s.len() implies s[i] == t[i] by {
            if i > 0 {
                assert(s1[i - 1] == t1[i - 1]);
            }
        }
    }
}

/// A key found past the head is found in the whole sequence and differs
/// from the head's key.
proof fn lemma_tail_key(s: Seq<(Seq<char>, Seq<char>)>, k: Seq<char>)
    requires
        sorted_strict(s),
        s.len() > 0,
        has_key(s.skip(1), k),
    ensures
        has_key(s, k),
        k != s[0].0,
{
    let i = choose|i: int| 0 <= i < s.skip(1).len() && s.skip(1)[i].0 == k;
    assert(s[i + 1].0 == k);
    assert(lex_lt(s[0].0, s[i + 1].0));
    if k == s[0].0 {
        lemma_lex_lt_irreflexive(s[0].0);
    }
}

/// A key of the whole sequence that is not the head's key is found past
/// the head.
proof fn lemma_key_tail(s: Seq<(Seq<char>, Seq<char>)>, k: Seq<char>)
    requires
        s.len() > 0,
        has_key(s, k),
        k != s[0].0,
    ensures
        has_key(s.skip(1), k),
{
    let i = choose|i: int| 0 <= i < s.len() && s[i].0 == k;
    assert(s.skip(1)[i - 1].0 == k);
}

} // verus!
