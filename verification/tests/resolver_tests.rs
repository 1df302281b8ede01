use displaymd::is_within_root;
use displaymd::resolve;

fn comps(v: &[&str]) -> Vec<String> {
    v.iter().map(|s| s.to_string()).collect()
}

#[test]
fn path_under_root_is_accepted() {
    let root = comps(&["srv", "docs"]);
    let candidate = comps(&["srv", "docs", "notes.md"]);
    let resolved = resolve(&root, &candidate).expect("path under root must resolve");
    assert_eq!(resolved, candidate);
}

#[test]
fn deeply_nested_path_is_accepted() {
    let root = comps(&["srv", "docs"]);
    let candidate = comps(&["srv", "docs", "sub", "dir", "notes.md"]);
    assert!(resolve(&root, &candidate).is_some());
}

#[test]
fn root_itself_is_accepted() {
    let root = comps(&["srv", "docs"]);
    let resolved = resolve(&root, &root).expect("the root lies within itself");
    assert_eq!(resolved, root);
}

#[test]
fn escape_to_an_ancestor_is_rejected() {
    let root = comps(&["srv", "docs"]);
    let candidate = comps(&["etc", "passwd"]);
    assert!(resolve(&root, &candidate).is_none());
}

#[test]
fn parent_of_root_is_rejected() {
    let root = comps(&["srv", "docs"]);
    let candidate = comps(&["srv"]);
    assert!(resolve(&root, &candidate).is_none());
}

#[test]
fn sibling_sharing_a_string_prefix_is_rejected() {
    let root = comps(&["srv", "docs"]);
    let candidate = comps(&["srv", "docs-evil", "x.md"]);
    assert!(resolve(&root, &candidate).is_none());
}

#[test]
fn containment_compares_whole_components() {
    let root = comps(&["srv", "docs"]);
    assert!(is_within_root(&root, &comps(&["srv", "docs", "a.md"])));
    assert!(!is_within_root(&root, &comps(&["srv", "docs2", "a.md"])));
    assert!(!is_within_root(&root, &comps(&["srv", "doc", "a.md"])));
}
