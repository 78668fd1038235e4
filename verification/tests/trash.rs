use std::collections::BTreeMap;

use felix_core::item::{FileType, ItemInfo};
use felix_core::ops::{FsOp, TreeNode, plan_remove_dir, plan_remove_file};

/// An in-memory stand-in for the filesystem: path to `None` for a
/// directory, path to `Some(content)` for a file.
type Model = BTreeMap<String, Option<String>>;

fn apply(model: &mut Model, op: &FsOp) {
    match op {
        FsOp::CreateDir(p) => {
            model.insert(p.clone(), None);
        }
        FsOp::CopyFile(from, to) => {
            let content = model
                .get(from)
                .expect("copy source missing")
                .clone()
                .expect("copy source is a directory");
            model.insert(to.clone(), Some(content));
        }
        FsOp::RemoveFile(p) => {
            model.remove(p);
        }
        FsOp::RemoveDirAll(p) => {
            let prefix = format!("{}/", p);
            let doomed: Vec<String> = model
                .keys()
                .filter(|k| *k == p || k.starts_with(&prefix))
                .cloned()
                .collect();
            for k in doomed {
                model.remove(&k);
            }
        }
    }
}

fn apply_all(model: &mut Model, ops: &[FsOp]) {
    for op in ops {
        apply(model, op);
    }
}

fn dir_item(name: &str, path: &str) -> ItemInfo {
    ItemInfo {
        file_type: FileType::Directory,
        file_name: name.to_string(),
        file_path: path.to_string(),
        file_size: 0,
        file_ext: None,
        modified: Some(50),
        selected: false,
    }
}

fn file_item(name: &str, path: &str) -> ItemInfo {
    ItemInfo {
        file_type: FileType::File,
        file_name: name.to_string(),
        file_path: path.to_string(),
        file_size: 3,
        file_ext: None,
        modified: Some(50),
        selected: false,
    }
}

fn node(rel: &str, is_dir: bool) -> TreeNode {
    TreeNode { rel: rel.to_string(), is_dir }
}

fn sample_tree() -> (Model, ItemInfo, Vec<TreeNode>) {
    let mut model: Model = BTreeMap::new();
    model.insert("/home/u".to_string(), None);
    model.insert("/home/u/proj".to_string(), None);
    model.insert("/home/u/proj/a.txt".to_string(), Some("alpha".to_string()));
    model.insert("/home/u/proj/sub".to_string(), None);
    model.insert("/home/u/proj/sub/b.txt".to_string(), Some("beta".to_string()));
    let item = dir_item("proj", "/home/u/proj");
    let nodes = vec![
        node("", true),
        node("a.txt", false),
        node("sub", true),
        node("sub/b.txt", false),
    ];
    (model, item, nodes)
}

#[test]
fn stamped_trash_name() {
    let item = file_item("notes.txt", "/home/u/notes.txt");
    let trash = "/trash".to_string();
    let (ops, record) = plan_remove_file(&item, &trash, 1700000000, true);
    let record = record.expect("a live file leaves a clipboard record");
    assert_eq!(record.file_name, "1700000000_notes.txt");
    assert_eq!(record.file_path, "/trash/1700000000_notes.txt");
    assert!(!record.selected);
    assert_eq!(ops.len(), 2);
    match &ops[0] {
        FsOp::CopyFile(from, to) => {
            assert_eq!(from, "/home/u/notes.txt");
            assert_eq!(to, "/trash/1700000000_notes.txt");
        }
        other => panic!("expected a copy first, got {:?}", kind_of(other)),
    }
    match &ops[1] {
        FsOp::RemoveFile(p) => assert_eq!(p, "/home/u/notes.txt"),
        other => panic!("expected the unlink last, got {:?}", kind_of(other)),
    }
}

fn kind_of(op: &FsOp) -> &'static str {
    match op {
        FsOp::CreateDir(_) => "CreateDir",
        FsOp::CopyFile(_, _) => "CopyFile",
        FsOp::RemoveFile(_) => "RemoveFile",
        FsOp::RemoveDirAll(_) => "RemoveDirAll",
    }
}

#[test]
fn dangling_symlink_removed_without_trace() {
    let mut model: Model = BTreeMap::new();
    model.insert("/home/u/ln".to_string(), Some("".to_string()));
    let link = ItemInfo {
        file_type: FileType::Symlink,
        file_name: "ln".to_string(),
        file_path: "/home/u/ln".to_string(),
        file_size: 0,
        file_ext: None,
        modified: None,
        selected: false,
    };
    let trash = "/trash".to_string();
    let (ops, record) = plan_remove_file(&link, &trash, 1700000000, false);
    assert!(record.is_none(), "a dangling symlink leaves no clipboard record");
    assert_eq!(ops.len(), 1);
    match &ops[0] {
        FsOp::RemoveFile(p) => assert_eq!(p, "/home/u/ln"),
        other => panic!("expected only the unlink, got {:?}", kind_of(other)),
    }
    apply_all(&mut model, &ops);
    assert!(!model.contains_key("/home/u/ln"));
    assert!(
        model.keys().all(|k| !k.starts_with("/trash")),
        "a dangling symlink leaves no trash artifact"
    );
}

#[test]
fn directory_delete_mirrors_tree_into_trash() {
    let (mut model, item, nodes) = sample_tree();
    let trash = "/trash".to_string();
    let (ops, record) = plan_remove_dir(&item, &nodes, &trash, 1700000000);
    assert_eq!(record.file_name, "1700000000_proj");
    assert_eq!(record.file_path, "/trash/1700000000_proj");
    apply_all(&mut model, &ops);
    assert_eq!(model.get("/trash/1700000000_proj"), Some(&None));
    assert_eq!(
        model.get("/trash/1700000000_proj/a.txt"),
        Some(&Some("alpha".to_string()))
    );
    assert_eq!(model.get("/trash/1700000000_proj/sub"), Some(&None));
    assert_eq!(
        model.get("/trash/1700000000_proj/sub/b.txt"),
        Some(&Some("beta".to_string()))
    );
    assert!(!model.contains_key("/home/u/proj"));
    assert!(!model.contains_key("/home/u/proj/a.txt"));
}

#[test]
fn failed_mid_copy_leaves_original_intact() {
    let (model, item, nodes) = sample_tree();
    let trash = "/trash".to_string();
    let (ops, _record) = plan_remove_dir(&item, &nodes, &trash, 1700000000);
    let originals: Vec<(String, Option<String>)> = model
        .iter()
        .filter(|(k, _)| k.starts_with("/home/u/proj"))
        .map(|(k, v)| (k.clone(), v.clone()))
        .collect();
    // a driver stops at the first failing operation: simulate a failure
    // after each proper prefix of the copy phase
    for fail_at in 0..ops.len() - 1 {
        let mut m = model.clone();
        for op in &ops[..fail_at] {
            apply(&mut m, op);
        }
        for (k, v) in &originals {
            assert_eq!(
                m.get(k),
                Some(v),
                "original tree must be intact when the plan stops at step {}",
                fail_at
            );
        }
    }
}

#[test]
fn round_trip_restores_name_content_and_topology() {
    let (mut model, item, nodes) = sample_tree();
    let trash = "/trash".to_string();
    let (ops, record) = plan_remove_dir(&item, &nodes, &trash, 1700000000);
    apply_all(&mut model, &ops);
    assert!(!model.contains_key("/home/u/proj"));

    // paste the clipboard record back into the original directory
    let state = felix_core::state::State {
        list: Vec::new(),
        registered: vec![record],
        current_dir: "/home/u".to_string(),
        trash_dir: trash.clone(),
        colors: (
            felix_core::item::Color { red: 0, green: 0, blue: 0 },
            felix_core::item::Color { red: 0, green: 0, blue: 0 },
            felix_core::item::Color { red: 0, green: 0, blue: 0 },
        ),
        default: "less".to_string(),
        commands: Vec::new(),
        sort_by: felix_core::item::SortKey::Name,
        layout: felix_core::state::Layout {
            terminal_row: 0,
            terminal_column: 0,
            name_max_len: 0,
            time_start_pos: 0,
        },
    };
    // the walk of the trash tree mirrors the original walk
    let trees = vec![vec![
        node("", true),
        node("a.txt", false),
        node("sub", true),
        node("sub/b.txt", false),
    ]];
    let plan = state.put_items(&trees);
    assert_eq!(
        plan.outcomes,
        vec![Ok("proj".to_string())],
        "the stripped candidate name is free, so it resolves to itself"
    );
    apply_all(&mut model, &plan.ops);
    assert_eq!(model.get("/home/u/proj"), Some(&None));
    assert_eq!(model.get("/home/u/proj/a.txt"), Some(&Some("alpha".to_string())));
    assert_eq!(model.get("/home/u/proj/sub"), Some(&None));
    assert_eq!(
        model.get("/home/u/proj/sub/b.txt"),
        Some(&Some("beta".to_string()))
    );
    // restoration copies: the trash entry is left intact
    assert_eq!(model.get("/trash/1700000000_proj"), Some(&None));
    assert_eq!(
        model.get("/trash/1700000000_proj/a.txt"),
        Some(&Some("alpha".to_string()))
    );
}
