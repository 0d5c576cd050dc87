use model_browser::tree::{
    build_tree, classify_extension, scan_directory, DirListing, FileKind, ListedEntry,
};

fn file(name: &str, size: u64) -> ListedEntry {
    ListedEntry::File { name: name.to_string(), size }
}

fn dir(name: &str, entries: Vec<ListedEntry>) -> ListedEntry {
    ListedEntry::Dir {
        name: name.to_string(),
        listing: DirListing { name: Some(name.to_string()), entries: Some(entries) },
    }
}

fn root(entries: Vec<ListedEntry>) -> DirListing {
    DirListing { name: Some("library".to_string()), entries: Some(entries) }
}

#[test]
fn test_prunes_empty_dirs() {
    let listing = root(vec![dir("empty_dir", vec![]), file("readme.txt", 4)]);
    let tree = build_tree(&listing);
    assert!(tree.dirs.is_empty() || !tree.dirs.iter().any(|d| d.name == "empty_dir"));
}

#[test]
fn test_includes_stl_files() {
    let listing = root(vec![file("model.stl", 4), file("notes.txt", 7)]);
    let tree = build_tree(&listing);
    assert_eq!(tree.files.len(), 1);
    assert_eq!(tree.files[0].name, "model.stl");
    assert_eq!(tree.files[0].kind, FileKind::Stl);
}

#[test]
fn test_classify_extensions() {
    assert_eq!(classify_extension("3mf"), Some(FileKind::ThreeMf));
    assert_eq!(classify_extension("STL"), Some(FileKind::Stl));
    assert_eq!(classify_extension("jpg"), Some(FileKind::Image));
    assert_eq!(classify_extension("PNG"), Some(FileKind::Image));
    assert_eq!(classify_extension("txt"), None);
}

#[test]
fn empty_library_gives_bare_root() {
    let tree = build_tree(&root(vec![file("a.txt", 1)]));
    assert_eq!(tree.name, "root");
    assert!(tree.dirs.is_empty());
    assert!(tree.files.is_empty());
    let unreadable = DirListing { name: None, entries: None };
    assert_eq!(build_tree(&unreadable).name, "root");
}

#[test]
fn files_and_dirs_sorted_case_insensitively_with_paths() {
    let listing = root(vec![
        file("b.STL", 2),
        dir("Zeta", vec![file("z.3mf", 1)]),
        file("A.png", 3),
        dir("alpha", vec![dir("inner", vec![file("deep.jpeg", 9)]), dir("hollow", vec![])]),
        file("c.jpg", 5),
    ]);
    let tree = build_tree(&listing);
    assert_eq!(tree.name, "root");
    let names: Vec<&str> = tree.files.iter().map(|f| f.name.as_str()).collect();
    assert_eq!(names, vec!["A.png", "b.STL", "c.jpg"]);
    let dirs: Vec<&str> = tree.dirs.iter().map(|d| d.name.as_str()).collect();
    assert_eq!(dirs, vec!["alpha", "Zeta"]);
    assert_eq!(tree.files[1].kind, FileKind::Stl);
    assert_eq!(tree.files[1].size, 2);
    assert_eq!(tree.files[0].path, "A.png");
    let alpha = &tree.dirs[0];
    assert_eq!(alpha.dirs.len(), 1);
    assert!(alpha.files.is_empty());
    assert_eq!(alpha.dirs[0].name, "inner");
    assert_eq!(alpha.dirs[0].files[0].path, "alpha/inner/deep.jpeg");
    assert_eq!(alpha.dirs[0].files[0].kind, FileKind::Image);
    assert_eq!(tree.dirs[1].files[0].path, "Zeta/z.3mf");
    assert_eq!(tree.dirs[1].files[0].kind, FileKind::ThreeMf);
}

#[test]
fn equal_keys_keep_listing_order() {
    let listing = root(vec![file("X.stl", 1), file("x.stl", 2)]);
    let tree = build_tree(&listing);
    assert_eq!(tree.files[0].size, 1);
    assert_eq!(tree.files[1].size, 2);
}

#[test]
fn scan_of_subdirectory_uses_prefix_and_name() {
    let sub = DirListing { name: Some("parts".to_string()), entries: Some(vec![file("p.stl", 1)]) };
    let node = scan_directory(&sub, "models/parts").unwrap();
    assert_eq!(node.name, "parts");
    assert_eq!(node.files[0].path, "models/parts/p.stl");
    let nameless = DirListing { name: None, entries: Some(vec![file("p.stl", 1)]) };
    assert_eq!(scan_directory(&nameless, "x").unwrap().name, "unknown");
    assert!(scan_directory(&DirListing { name: None, entries: Some(vec![]) }, "x").is_none());
}

#[test]
fn other_entries_and_hidden_extensions_are_skipped() {
    let listing = root(vec![ListedEntry::Other, file(".stl", 1), file("model.Jpeg", 2)]);
    let tree = build_tree(&listing);
    assert_eq!(tree.files.len(), 1);
    assert_eq!(tree.files[0].kind, FileKind::Image);
}
