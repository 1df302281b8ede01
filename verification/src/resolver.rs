//! Containment of a resolved path inside the configured root.
//!
//! A requested path is joined onto the root and canonicalized against the
//! real filesystem by the caller; what arrives here are the component
//! sequences of the canonical root and of the canonical candidate. The
//! check is component-wise: `/root2` must not count as lying under
//! `/root`, even though it shares a string prefix.

use vstd::prelude::*;

verus! {

broadcast use vstd::std_specs::vec::vec_clone_deep_view_proof;

/// The component sequence of `root` is a prefix of `path`'s components.
pub open spec fn components_within(root: Seq<Seq<char>>, path: Seq<Seq<char>>) -> bool {
    &&& root.len() <= path.len()
    &&& forall|i: int| 0 <= i < root.len() ==> path[i] == root[i]
}

/// Decides whether the canonical path `path` lies at or under the
/// canonical directory `root`, comparing whole components.
pub fn is_within_root(root: &Vec<String>, path: &Vec<String>) -> (r: bool)
    ensures
        r == components_within(root.deep_view(), path.deep_view()),
{
    if root.len() > path.len() {
        return false;
    }
    let n: usize = root.len();
    let mut i: usize = 0;
    while i < n
        invariant
            i <= n,
            n == root.deep_view().len(),
            n <= path.deep_view().len(),
            forall|j: int| 0 <= j < i ==> path.deep_view()[j] == root.deep_view()[j],
        decreases n - i,
    {
        if !(root[i] == path[i]) {
            proof {
                assert(root.deep_view()[i as int] == root@[i as int]@);
                assert(path.deep_view()[i as int] == path@[i as int]@);
            }
            return false;
        }
        proof {
            assert(root.deep_view()[i as int] == root@[i as int]@);
            assert(path.deep_view()[i as int] == path@[i as int]@);
        }
        i = i + 1;
    }
    true
}

/// Validates a canonicalized candidate path against the root: the path is
/// accepted exactly when the root's components are a prefix of its own, so
/// no accepted path ever escapes the root. The caller maps a rejection to
/// its uniform not-found outcome, which never tells why.
pub fn resolve(root: &Vec<String>, canonical: &Vec<String>) -> (r: Option<Vec<String>>)
    ensures
        match r {
            Some(p) => components_within(root.deep_view(), canonical.deep_view())
                && p.deep_view() == canonical.deep_view(),
            None => !components_within(root.deep_view(), canonical.deep_view()),
        },
{
    if is_within_root(root, canonical) {
        Some(canonical.clone())
    } else {
        None
    }
}

} // verus!
