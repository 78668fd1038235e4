use felix_core::error::OpError;
use felix_core::item::{Color, FileType, ItemInfo, SortKey};
use felix_core::naming::{RENAME_LIMIT, i64_dec_string, make_stamp_name, resolve_name, strip_stamp_exec, u64_dec_string};
use felix_core::ops::{FsOp, TreeNode};
use felix_core::state::{Layout, State};

fn file_item(name: &str, path: &str) -> ItemInfo {
    ItemInfo {
        file_type: FileType::File,
        file_name: name.to_string(),
        file_path: path.to_string(),
        file_size: 3,
        file_ext: None,
        modified: Some(50),
        selected: false,
    }
}

fn state_with(list: Vec<ItemInfo>, registered: Vec<ItemInfo>) -> State {
    State {
        list,
        registered,
        current_dir: "/home/u".to_string(),
        trash_dir: "/trash".to_string(),
        colors: (
            Color { red: 0, green: 0, blue: 0 },
            Color { red: 0, green: 0, blue: 0 },
            Color { red: 0, green: 0, blue: 0 },
        ),
        default: "less".to_string(),
        commands: Vec::new(),
        sort_by: SortKey::Name,
        layout: Layout { terminal_row: 0, terminal_column: 0, name_max_len: 0, time_start_pos: 0 },
    }
}

#[test]
fn resolve_keeps_free_name() {
    let set = vec!["other".to_string()];
    let r = resolve_name(&"a.txt".to_string(), &set);
    assert_eq!(r, Ok("a.txt".to_string()));
}

#[test]
fn resolve_appends_suffix_before_extension() {
    let set = vec!["a.txt".to_string()];
    let r = resolve_name(&"a.txt".to_string(), &set);
    assert_eq!(r, Ok("a_1.txt".to_string()));
}

#[test]
fn resolve_skips_taken_variants() {
    let set = vec!["a".to_string(), "a_1".to_string(), "a_2".to_string()];
    let r = resolve_name(&"a".to_string(), &set);
    assert_eq!(r, Ok("a_3".to_string()));
}

#[test]
fn resolve_exhaustion_is_reported() {
    let mut set = vec!["a".to_string()];
    for k in 1..=RENAME_LIMIT {
        set.push(format!("a_{}", k));
    }
    let r = resolve_name(&"a".to_string(), &set);
    assert_eq!(r, Err(OpError::NameResolutionExhausted));
}

#[test]
fn trash_candidate_strips_stamp() {
    // a record living in the trash area: its candidate name is the
    // pre-deletion name, recovered by splitting at the first underscore
    let rec = file_item("1700000000_my_notes.txt", "/trash/1700000000_my_notes.txt");
    let state = state_with(Vec::new(), vec![rec]);
    let plan = state.put_items(&vec![Vec::<TreeNode>::new()]);
    assert_eq!(plan.outcomes, vec![Ok("my_notes.txt".to_string())]);
    assert_eq!(plan.ops.len(), 1);
    match &plan.ops[0] {
        FsOp::CopyFile(from, to) => {
            assert_eq!(from, "/trash/1700000000_my_notes.txt");
            assert_eq!(to, "/home/u/my_notes.txt");
        }
        _ => panic!("a file paste is a single copy"),
    }
}

#[test]
fn yanked_candidate_keeps_name() {
    // a plain yanked record (not from the trash area) keeps its name
    let rec = file_item("a.txt", "/home/elsewhere/a.txt");
    let state = state_with(Vec::new(), vec![rec]);
    let plan = state.put_items(&vec![Vec::<TreeNode>::new()]);
    assert_eq!(plan.outcomes, vec![Ok("a.txt".to_string())]);
}

#[test]
fn pasting_twice_never_collides() {
    let rec = file_item("a.txt", "/home/elsewhere/a.txt");

    // first paste into a directory where the name is free
    let first = state_with(Vec::new(), vec![rec.clone()]);
    let plan1 = first.put_items(&vec![Vec::<TreeNode>::new()]);
    assert_eq!(plan1.outcomes, vec![Ok("a.txt".to_string())]);

    // after the paste the catalog holds the pasted entry; pasting the
    // same clipboard again resolves to a different name
    let second = state_with(
        vec![file_item("a.txt", "/home/u/a.txt")],
        vec![rec],
    );
    let plan2 = second.put_items(&vec![Vec::<TreeNode>::new()]);
    assert_eq!(plan2.outcomes, vec![Ok("a_1.txt".to_string())]);
    assert_ne!(plan1.outcomes[0], plan2.outcomes[0]);
}

#[test]
fn one_paste_resolves_duplicates_apart() {
    // two records with the same name in one paste: the second sees the
    // first's resolved name in the set and picks the next variant
    let rec1 = file_item("a.txt", "/one/a.txt");
    let rec2 = file_item("a.txt", "/two/a.txt");
    let state = state_with(Vec::new(), vec![rec1, rec2]);
    let plan = state.put_items(&vec![Vec::<TreeNode>::new(), Vec::<TreeNode>::new()]);
    assert_eq!(
        plan.outcomes,
        vec![Ok("a.txt".to_string()), Ok("a_1.txt".to_string())]
    );
}

#[test]
fn paste_plan_never_removes() {
    let rec = file_item("1700000000_a.txt", "/trash/1700000000_a.txt");
    let dir_rec = ItemInfo {
        file_type: FileType::Directory,
        file_name: "1700000000_proj".to_string(),
        file_path: "/trash/1700000000_proj".to_string(),
        file_size: 0,
        file_ext: None,
        modified: None,
        selected: false,
    };
    let state = state_with(Vec::new(), vec![rec, dir_rec]);
    let trees = vec![
        Vec::<TreeNode>::new(),
        vec![
            TreeNode { rel: "".to_string(), is_dir: true },
            TreeNode { rel: "x.txt".to_string(), is_dir: false },
        ],
    ];
    let plan = state.put_items(&trees);
    for op in &plan.ops {
        match op {
            FsOp::RemoveFile(_) | FsOp::RemoveDirAll(_) => {
                panic!("restoration copies, never moves")
            }
            _ => {}
        }
    }
    // the directory record is mirrored under its stripped name
    match &plan.ops[1] {
        FsOp::CreateDir(p) => assert_eq!(p, "/home/u/proj"),
        _ => panic!("the directory paste starts by creating its root"),
    }
    match &plan.ops[2] {
        FsOp::CopyFile(from, to) => {
            assert_eq!(from, "/trash/1700000000_proj/x.txt");
            assert_eq!(to, "/home/u/proj/x.txt");
        }
        _ => panic!("the leaf is copied under the new root"),
    }
}

#[test]
fn stamp_strip_handles_any_timestamp_width() {
    // the tag is stripped at the first underscore, not at a fixed
    // width, so short, long and negative timestamps all round-trip
    let n = make_stamp_name(-5, &"my_file.txt".to_string());
    assert_eq!(n, "-5_my_file.txt");
    assert_eq!(strip_stamp_exec(&n), "my_file.txt");
    let n2 = make_stamp_name(1700000000, &"a".to_string());
    assert_eq!(n2, "1700000000_a");
    assert_eq!(strip_stamp_exec(&n2), "a");
    assert_eq!(strip_stamp_exec(&"plain".to_string()), "plain");
}

#[test]
fn decimal_rendering() {
    assert_eq!(u64_dec_string(0), "0");
    assert_eq!(u64_dec_string(90210), "90210");
    assert_eq!(i64_dec_string(-1), "-1");
    assert_eq!(i64_dec_string(i64::MIN), "-9223372036854775808");
    assert_eq!(i64_dec_string(i64::MAX), "9223372036854775807");
}
