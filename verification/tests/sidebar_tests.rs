use displaymd::build_sidebar;
use displaymd::collect_md_files;
use displaymd::str_lt;
use displaymd::view_page;

fn strings(v: &[&str]) -> Vec<String> {
    v.iter().map(|s| s.to_string()).collect()
}

#[test]
fn exactly_one_entry_is_active_for_an_indexed_path() {
    let idx = collect_md_files(&strings(&["a.md", "b.md", "sub/c.md"]));
    let nav = build_sidebar(&idx, &"b.md".to_string());
    assert_eq!(nav.len(), 3);
    let active: Vec<&str> = nav.iter().filter(|i| i.active).map(|i| i.path.as_str()).collect();
    assert_eq!(active, vec!["b.md"]);
}

#[test]
fn no_entry_is_active_for_an_unknown_path() {
    let idx = collect_md_files(&strings(&["a.md", "b.md"]));
    let nav = build_sidebar(&idx, &"missing.md".to_string());
    assert_eq!(nav.len(), 2);
    assert!(nav.iter().all(|i| !i.active));
}

#[test]
fn sidebar_keeps_index_order_and_names() {
    let idx = collect_md_files(&strings(&["b.md", "a.md"]));
    let nav = build_sidebar(&idx, &"a.md".to_string());
    assert_eq!(nav[0].path, "a.md");
    assert_eq!(nav[0].name, "a");
    assert!(nav[0].active);
    assert_eq!(nav[1].path, "b.md");
    assert_eq!(nav[1].name, "b");
    assert!(!nav[1].active);
}

#[test]
fn view_page_passes_content_through_verbatim() {
    let idx = collect_md_files(&strings(&["a.md"]));
    let content = "# Title\n\nbody with <tags> & text\n".to_string();
    let page = view_page(&"a.md".to_string(), content.clone(), &idx);
    assert_eq!(page.title, "a.md");
    assert_eq!(page.content, content);
    assert_eq!(page.nav.len(), 1);
    assert!(page.nav[0].active);
}

#[test]
fn string_order_is_lexicographic_by_codepoint() {
    assert!(str_lt(&"a.md".to_string(), &"b.md".to_string()));
    assert!(str_lt(&"a".to_string(), &"a.md".to_string()));
    assert!(!str_lt(&"b.md".to_string(), &"a.md".to_string()));
    assert!(!str_lt(&"a.md".to_string(), &"a.md".to_string()));
    assert!(str_lt(&"A.md".to_string(), &"a.md".to_string()));
}
