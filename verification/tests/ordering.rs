use felix_core::item::{FileType, ItemInfo, RawItem, SortKey, display_name, extension_of, make_item};
use felix_core::order::{push_entries, push_items};

fn file(name: &str, modified: Option<i64>) -> ItemInfo {
    ItemInfo {
        file_type: FileType::File,
        file_name: name.to_string(),
        file_path: format!("/home/u/{}", name),
        file_size: 1,
        file_ext: None,
        modified,
        selected: false,
    }
}

fn dir(name: &str, modified: Option<i64>) -> ItemInfo {
    ItemInfo {
        file_type: FileType::Directory,
        file_name: name.to_string(),
        file_path: format!("/home/u/{}", name),
        file_size: 0,
        file_ext: None,
        modified,
        selected: false,
    }
}

fn names(items: &[ItemInfo]) -> Vec<String> {
    items.iter().map(|i| i.file_name.clone()).collect()
}

#[test]
fn natural_order_by_name() {
    let items = vec![file("a2", None), file("a10", None), file("a1", None)];
    let sorted = push_items(items, SortKey::Name);
    assert_eq!(names(&sorted), vec!["a1", "a2", "a10"]);
}

#[test]
fn directories_before_files_by_name() {
    let items = vec![
        file("zz", None),
        dir("beta", None),
        file("alpha", None),
        dir("gamma", None),
    ];
    let sorted = push_items(items, SortKey::Name);
    assert_eq!(names(&sorted), vec!["beta", "gamma", "alpha", "zz"]);
    assert_eq!(sorted[0].file_type, FileType::Directory);
    assert_eq!(sorted[1].file_type, FileType::Directory);
    assert_eq!(sorted[2].file_type, FileType::File);
    assert_eq!(sorted[3].file_type, FileType::File);
}

#[test]
fn directories_before_files_by_time() {
    let items = vec![
        file("new", Some(300)),
        dir("old_dir", Some(10)),
        file("old", Some(100)),
        dir("new_dir", Some(200)),
    ];
    let sorted = push_items(items, SortKey::Time);
    assert_eq!(names(&sorted), vec!["new_dir", "old_dir", "new", "old"]);
}

#[test]
fn absent_time_sorts_oldest() {
    let items = vec![file("unknown", None), file("dated", Some(1))];
    let sorted = push_items(items, SortKey::Time);
    assert_eq!(names(&sorted), vec!["dated", "unknown"]);
}

#[test]
fn time_ties_break_by_name() {
    let items = vec![file("b", Some(5)), file("a10", Some(5)), file("a2", Some(5))];
    let sorted = push_items(items, SortKey::Time);
    assert_eq!(names(&sorted), vec!["a2", "a10", "b"]);
}

#[test]
fn make_item_classifies_and_degrades() {
    let ok = make_item(RawItem {
        name: "notes.txt".to_string(),
        path: "/home/u/notes.txt".to_string(),
        metadata_ok: true,
        is_dir: false,
        is_file: true,
        is_symlink: false,
        size: 42,
        modified: Some(77),
    });
    assert_eq!(ok.file_type, FileType::File);
    assert_eq!(ok.file_size, 42);
    assert_eq!(ok.modified, Some(77));
    assert_eq!(ok.file_ext, Some("txt".to_string()));
    assert!(!ok.selected);

    let degraded = make_item(RawItem {
        name: "mystery".to_string(),
        path: "/home/u/mystery".to_string(),
        metadata_ok: false,
        is_dir: true,
        is_file: false,
        is_symlink: false,
        size: 9,
        modified: Some(3),
    });
    assert_eq!(degraded.file_type, FileType::File);
    assert_eq!(degraded.file_size, 0);
    assert_eq!(degraded.modified, None);

    let link = make_item(RawItem {
        name: "ln".to_string(),
        path: "/home/u/ln".to_string(),
        metadata_ok: true,
        is_dir: false,
        is_file: false,
        is_symlink: true,
        size: 0,
        modified: None,
    });
    assert_eq!(link.file_type, FileType::Symlink);
}

#[test]
fn extension_rules() {
    assert_eq!(extension_of(&"a.txt".to_string()), Some("txt".to_string()));
    assert_eq!(extension_of(&"archive.tar.gz".to_string()), Some("gz".to_string()));
    assert_eq!(extension_of(&"Makefile".to_string()), None);
    assert_eq!(extension_of(&".bashrc".to_string()), None);
}

#[test]
fn display_name_truncation() {
    assert_eq!(display_name(&"short".to_string(), 10), "short");
    assert_eq!(display_name(&"abcdefghij".to_string(), 7), "abcd..");
    assert_eq!(display_name(&"abc".to_string(), 3), "abc");
}

#[test]
fn parent_pointer_entry_is_always_first() {
    // "!bang" would sort before "../" by plain character order; the
    // parent-pointer entry still comes first
    let items = vec![dir("!bang", None), file("a", None)];
    let with_parent = push_entries(Some("/home".to_string()), items, SortKey::Name);
    assert_eq!(names(&with_parent), vec!["../", "!bang", "a"]);
    assert_eq!(with_parent[0].file_type, FileType::Directory);
    assert_eq!(with_parent[0].file_path, "/home");

    let without = push_entries(None, vec![file("b", None), dir("c", None)], SortKey::Name);
    assert_eq!(names(&without), vec!["c", "b"]);
}
