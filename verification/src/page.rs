//! Assembly of the structured page payload handed to the transport layer
//! for serialization.

use vstd::prelude::*;
use crate::sidebar::NavItem;

verus! {

/// A full page: the title, the file's raw content, and the navigation
/// list. The transport layer serializes it; the content passes through
/// verbatim.
pub struct Page {
    pub title: String,
    pub content: String,
    pub nav: Vec<NavItem>,
}

/// Composes a page from its three parts, each taken over unchanged.
pub fn assemble(title: String, content: String, nav: Vec<NavItem>) -> (p: Page)
    ensures
        p.title@ == title@,
        p.content@ == content@,
        p.nav == nav,
{
    Page { title, content, nav }
}

} // verus!
