//! Serves a tree of markdown files as a navigable set of pages.
//!
//! The verified core covers the pieces with real design constraints:
//! containment of resolved paths inside the configured root, the sorted
//! index of discovered markdown files, and the navigation sidebar derived
//! from that index. Filesystem walking, HTTP transport and argument
//! parsing live outside the library and hand it plain values.

pub mod handlers;
pub mod indexer;
pub mod order;
pub mod page;
pub mod paths;
pub mod resolver;
pub mod sidebar;

pub use handlers::index_target;
pub use handlers::view_page;
pub use indexer::FileIndex;
pub use indexer::IndexEntry;
pub use indexer::collect_md_files;
pub use page::Page;
pub use page::assemble;
pub use order::str_lt;
pub use resolver::is_within_root;
pub use resolver::resolve;
pub use sidebar::NavItem;
pub use sidebar::build_sidebar;
