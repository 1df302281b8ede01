use displaymd::collect_md_files;
use displaymd::index_target;

fn strings(v: &[&str]) -> Vec<String> {
    v.iter().map(|s| s.to_string()).collect()
}

#[test]
fn nested_file_gets_relative_key_and_stem_name() {
    let idx = collect_md_files(&strings(&["sub/dir/notes.md"]));
    assert_eq!(idx.len(), 1);
    assert_eq!(idx.path_at(0), "sub/dir/notes.md");
    assert_eq!(idx.name_at(0), "notes");
}

#[test]
fn index_is_sorted_whatever_the_walk_order() {
    let idx = collect_md_files(&strings(&["z.md", "a.md", "m/k.md", "b.md"]));
    assert_eq!(idx.len(), 4);
    assert_eq!(idx.path_at(0), "a.md");
    assert_eq!(idx.path_at(1), "b.md");
    assert_eq!(idx.path_at(2), "m/k.md");
    assert_eq!(idx.path_at(3), "z.md");
}

#[test]
fn non_markdown_files_are_left_out() {
    let idx = collect_md_files(&strings(&[
        "a.txt",
        "readme",
        "b.mdx",
        "c.MD",
        ".md",
        "dir/.md",
        "ok.md",
    ]));
    assert_eq!(idx.len(), 1);
    assert_eq!(idx.path_at(0), "ok.md");
}

#[test]
fn display_name_strips_only_the_final_extension() {
    let idx = collect_md_files(&strings(&["guide.tar.md"]));
    assert_eq!(idx.len(), 1);
    assert_eq!(idx.name_at(0), "guide.tar");
}

#[test]
fn duplicate_paths_collapse_to_one_entry() {
    let idx = collect_md_files(&strings(&["a.md", "a.md", "a.md"]));
    assert_eq!(idx.len(), 1);
    assert_eq!(idx.path_at(0), "a.md");
    assert_eq!(idx.name_at(0), "a");
}

#[test]
fn scanning_twice_yields_the_identical_index() {
    let listing = strings(&["z.md", "sub/one.md", "a.md", "skip.txt"]);
    let first = collect_md_files(&listing);
    let second = collect_md_files(&listing);
    assert_eq!(first.len(), second.len());
    for i in 0..first.len() {
        assert_eq!(first.path_at(i), second.path_at(i));
        assert_eq!(first.name_at(i), second.name_at(i));
    }
}

#[test]
fn empty_listing_yields_empty_index() {
    let idx = collect_md_files(&Vec::new());
    assert_eq!(idx.len(), 0);
    assert!(idx.first_path().is_none());
}

#[test]
fn first_path_is_lexicographically_smallest() {
    let idx = collect_md_files(&strings(&["b.md", "z.md", "a.md"]));
    assert_eq!(idx.first_path().unwrap(), "a.md");
}

#[test]
fn default_route_falls_back_to_first_entry() {
    let idx = collect_md_files(&strings(&["a.md", "b.md", "z.md"]));
    let target = index_target(&idx, &"README.md".to_string());
    assert_eq!(target.unwrap(), "a.md");
}

#[test]
fn default_route_honors_an_indexed_home() {
    let idx = collect_md_files(&strings(&["a.md", "README.md", "z.md"]));
    let target = index_target(&idx, &"README.md".to_string());
    assert_eq!(target.unwrap(), "README.md");
}

#[test]
fn default_route_of_empty_index_is_none() {
    let idx = collect_md_files(&Vec::new());
    assert!(index_target(&idx, &"README.md".to_string()).is_none());
}

#[test]
fn contains_finds_exactly_the_indexed_paths() {
    let idx = collect_md_files(&strings(&["a.md", "sub/b.md"]));
    assert!(idx.contains(&"a.md".to_string()));
    assert!(idx.contains(&"sub/b.md".to_string()));
    assert!(!idx.contains(&"b.md".to_string()));
    assert!(!idx.contains(&"a".to_string()));
}
