//! Classification of relative paths: which ones name markdown files, and
//! what display name each file gets in the navigation sidebar.

use vstd::prelude::*;
use vstd::string::StrSliceExecFns;

verus! {

/// The part of `p` after its last `'/'`; the whole of `p` when it has none.
pub open spec fn basename(p: Seq<char>) -> Seq<char>
    decreases p.len(),
{
    if p.len() == 0 {
        Seq::empty()
    } else if p.last() == '/' {
        Seq::empty()
    } else {
        basename(p.drop_last()).push(p.last())
    }
}

/// A file name carries the markdown extension: it ends in `.md`, with at
/// least one character before the dot. The match is case-sensitive.
pub open spec fn is_md_name(name: Seq<char>) -> bool {
    &&& name.len() > 3
    &&& name[name.len() - 3] == '.'
    &&& name[name.len() - 2] == 'm'
    &&& name[name.len() - 1] == 'd'
}

/// The final component of the relative path `p` names a markdown file.
pub open spec fn is_md_path(p: Seq<char>) -> bool {
    is_md_name(basename(p))
}

/// The display name of a markdown file: its base name with the `.md`
/// extension stripped.
pub open spec fn display_of(p: Seq<char>) -> Seq<char> {
    basename(p).take(basename(p).len() - 3)
}

/// `basename` agrees with the suffix that starts right after the last
/// slash: if nothing from `j` on is a slash, and `j` is either the start
/// of `p` or preceded by a slash, the basename is exactly `p[j..]`.
pub proof fn lemma_basename_subrange(p: Seq<char>, j: int)
    requires
        0 <= j <= p.len(),
        j == 0 || p[j - 1] == '/',
        forall|k: int| j <= k < p.len() ==> p[k] != '/',
    ensures
        basename(p) == p.subrange(j, p.len() as int),
    decreases p.len(),
{
    if p.len() == 0 {
        assert(basename(p) =~= p.subrange(0, 0));
    } else if j == p.len() {
        assert(p.last() == '/');
        assert(basename(p) =~= p.subrange(j, p.len() as int));
    } else {
        assert(p.last() != '/');
        lemma_basename_subrange(p.drop_last(), j);
        assert(p.drop_last().subrange(j, p.len() - 1).push(p.last()) =~= p.subrange(
            j,
            p.len() as int,
        ));
    }
}

/// Returns the display name of the file the relative path names, when
/// that file is a markdown file, and nothing otherwise.
pub fn display_name(path: &String) -> (r: Option<String>)
    ensures
        match r {
            Some(n) => is_md_path(path@) && n@ == display_of(path@),
            None => !is_md_path(path@),
        },
{
    let len: usize = path.as_str().unicode_len();
    let mut j: usize = len;
    while j > 0 && path.as_str().get_char(j - 1) != '/'
        invariant
            j <= len,
            len == path@.len(),
            forall|k: int| j <= k < len ==> path@[k] != '/',
        decreases j,
    {
        j = j - 1;
    }
    proof {
        lemma_basename_subrange(path@, j as int);
    }
    if len - j <= 3 {
        return None;
    }
    let dot = path.as_str().get_char(len - 3);
    let m = path.as_str().get_char(len - 2);
    let d = path.as_str().get_char(len - 1);
    if dot != '.' || m != 'm' || d != 'd' {
        return None;
    }
    let stem = path.as_str().substring_char(j, len - 3);
    proof {
        assert(display_of(path@) =~= path@.subrange(j as int, len - 3));
    }
    Some(stem.to_owned())
}

} // verus!
