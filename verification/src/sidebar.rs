//! The navigation sidebar: one item per indexed file, with the entry for
//! the currently viewed path marked active.

use vstd::prelude::*;
use crate::indexer::FileIndex;
use crate::indexer::has_key;
use crate::order::lemma_lex_lt_irreflexive;

verus! {

/// One sidebar item: the file's relative path (the link target), its
/// display name, and whether it is the page being viewed.
pub struct NavItem {
    pub path: String,
    pub name: String,
    pub active: bool,
}

/// How many items of `s` are marked active.
pub open spec fn active_count(s: Seq<NavItem>) -> nat
    decreases s.len(),
{
    if s.len() == 0 {
        0
    } else {
        active_count(s.drop_last()) + if s.last().active {
            1nat
        } else {
            0nat
        }
    }
}

/// Builds the sidebar for the index: one item per entry, in index order,
/// marking active exactly the entry whose path equals `current` — one
/// item when `current` is indexed, none otherwise.
pub fn build_sidebar(idx: &FileIndex, current: &String) -> (nav: Vec<NavItem>)
    requires
        idx.wf(),
    ensures
        nav@.len() == idx@.len(),
        forall|i: int|
            0 <= i < nav@.len() ==> nav@[i].path@ == idx@[i].0 && nav@[i].name@ == idx@[i].1 && (
            nav@[i].active <==> idx@[i].0 == current@),
        active_count(nav@) == if idx.contains_path(current@) {
            1nat
        } else {
            0nat
        },
{
    let n: usize = idx.len();
    let mut nav: Vec<NavItem> = Vec::new();
    let mut i: usize = 0;
    while i < n
        invariant
            i <= n,
            n == idx@.len(),
            idx.wf(),
            nav@.len() == i,
            forall|j: int|
                0 <= j < i ==> nav@[j].path@ == idx@[j].0 && nav@[j].name@ == idx@[j].1 && (
                nav@[j].active <==> idx@[j].0 == current@),
            active_count(nav@) == if has_key(idx@.take(i as int), current@) {
                1nat
            } else {
                0nat
            },
        decreases n - i,
    {
        let active = *idx.path_at(i) == *current;
        let item = NavItem { path: idx.path_at(i).clone(), name: idx.name_at(i).clone(), active };
        let ghost prev = nav@;
        nav.push(item);
        proof {
            assert(nav@.drop_last() =~= prev);
            assert(nav@.last() == item);
            if active {
                if has_key(idx@.take(i as int), current@) {
                    let j = choose|j: int|
                        0 <= j < i && #[trigger] idx@.take(i as int)[j].0 == current@;
                    assert(idx@[j].0 == current@);
                    assert(crate::order::lex_lt(idx@[j].0, idx@[i as int].0));
                    lemma_lex_lt_irreflexive(current@);
                    assert(false);
                }
                assert(idx@.take(i + 1)[i as int].0 == current@);
            } else {
                assert forall|j: int|
                    0 <= j < i + 1 && #[trigger] idx@.take(i + 1)[j].0 == current@ implies has_key(
                    idx@.take(i as int),
                    current@,
                ) by {
                    assert(j < i);
                    assert(idx@.take(i as int)[j].0 == current@);
                }
            }
        }
        i = i + 1;
    }
    proof {
        assert(idx@.take(n as int) =~= idx@);
    }
    nav
}

} // verus!
