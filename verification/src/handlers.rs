//! The decisions behind the two routes: where the default route points,
//! and what page a successful view shows. The transport layer performs
//! the redirect, the filesystem reads and the serialization.

use vstd::prelude::*;
use crate::indexer::FileIndex;
use crate::page::Page;
use crate::page::assemble;
use crate::sidebar::active_count;
use crate::sidebar::build_sidebar;

verus! {

/// Picks the target of the default route: the configured home file when
/// it is indexed, else the lexicographically first indexed file, and
/// nothing when the index is empty, so an empty root never redirects to
/// an undefined path.
pub fn index_target(idx: &FileIndex, home: &String) -> (r: Option<String>)
    requires
        idx.wf(),
    ensures
        match r {
            Some(p) => idx@.len() > 0 && if idx.contains_path(home@) {
                p@ == home@
            } else {
                p@ == idx@[0].0
            },
            None => idx@.len() == 0,
        },
{
    if idx.contains(home) {
        Some(home.clone())
    } else {
        idx.first_path()
    }
}

/// Builds the page a successful view shows: the requested path as the
/// title, the file's content verbatim, and the sidebar with exactly that
/// path's entry active when it is indexed.
pub fn view_page(path: &String, content: String, idx: &FileIndex) -> (p: Page)
    requires
        idx.wf(),
    ensures
        p.title@ == path@,
        p.content@ == content@,
        p.nav@.len() == idx@.len(),
        forall|i: int|
            0 <= i < p.nav@.len() ==> p.nav@[i].path@ == idx@[i].0 && p.nav@[i].name@ == idx@[i].1
                && (p.nav@[i].active <==> idx@[i].0 == path@),
        active_count(p.nav@) == if idx.contains_path(path@) {
            1nat
        } else {
            0nat
        },
{
    let nav = build_sidebar(idx, path);
    assemble(path.clone(), content, nav)
}

} // verus!
