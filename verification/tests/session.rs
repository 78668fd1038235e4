use felix_core::error::OpError;
use felix_core::item::{Color, FileType, ItemInfo, RawItem, SortKey};
use felix_core::state::{Config, Layout, State};

fn item(name: &str, selected: bool) -> ItemInfo {
    ItemInfo {
        file_type: FileType::File,
        file_name: name.to_string(),
        file_path: format!("/home/u/{}", name),
        file_size: 1,
        file_ext: felix_core::item::extension_of(&name.to_string()),
        modified: None,
        selected,
    }
}

fn session(list: Vec<ItemInfo>) -> State {
    let mut s = State::new(Config {
        default: "less".to_string(),
        commands: vec![
            ("rs".to_string(), "code".to_string()),
            ("txt".to_string(), "vim".to_string()),
        ],
        sort_by: SortKey::Name,
        colors: (
            Color { red: 255, green: 0, blue: 0 },
            Color { red: 0, green: 255, blue: 0 },
            Color { red: 0, green: 0, blue: 255 },
        ),
    });
    s.current_dir = "/home/u".to_string();
    s.trash_dir = "/trash".to_string();
    s.list = list;
    s
}

fn marks(s: &State) -> Vec<bool> {
    s.list.iter().map(|i| i.selected).collect()
}

#[test]
fn new_session_is_empty() {
    let s = State::new(Config {
        default: "less".to_string(),
        commands: Vec::new(),
        sort_by: SortKey::Time,
        colors: (
            Color { red: 0, green: 0, blue: 0 },
            Color { red: 0, green: 0, blue: 0 },
            Color { red: 0, green: 0, blue: 0 },
        ),
    });
    assert!(s.list.is_empty());
    assert!(s.registered.is_empty());
    assert_eq!(s.current_dir, "");
    assert_eq!(s.sort_by, SortKey::Time);
}

#[test]
fn get_item_reports_stale_index() {
    let s = session(vec![item("a", false)]);
    assert!(s.get_item(0).is_ok());
    assert_eq!(s.get_item(1).err(), Some(OpError::ItemNotFound));
}

#[test]
fn command_for_uses_extension_map() {
    let s = session(vec![item("main.rs", false), item("notes.txt", false), item("img.png", false), item("README", false)]);
    assert_eq!(s.command_for(0), Ok("code".to_string()));
    assert_eq!(s.command_for(1), Ok("vim".to_string()));
    assert_eq!(s.command_for(2), Ok("less".to_string()));
    assert_eq!(s.command_for(3), Ok("less".to_string()));
    assert_eq!(s.command_for(4), Err(OpError::ItemNotFound));
}

#[test]
fn selection_prefix_suffix_and_reset() {
    let mut s = session(vec![
        item("a", false),
        item("b", false),
        item("c", false),
        item("d", false),
    ]);
    s.select_from_top(1);
    assert_eq!(marks(&s), vec![true, true, false, false]);
    s.select_to_bottom(2);
    assert_eq!(marks(&s), vec![false, false, true, true]);
    s.reset_selection();
    assert_eq!(marks(&s), vec![false, false, false, false]);
}

#[test]
fn selection_range_and_toggle() {
    let mut s = session(vec![
        item("a", false),
        item("b", false),
        item("c", false),
        item("d", false),
        item("e", false),
    ]);
    s.select_range(3, 1);
    assert_eq!(marks(&s), vec![false, true, true, true, false]);
    assert!(s.toggle(0).is_ok());
    assert!(s.toggle(1).is_ok());
    assert_eq!(marks(&s), vec![true, false, true, true, false]);
    assert_eq!(s.toggle(9).err(), Some(OpError::ItemNotFound));
}

#[test]
fn yank_single_item() {
    let mut s = session(vec![item("a", false), item("b", false)]);
    assert!(s.yank_item(1, false).is_ok());
    assert_eq!(s.registered.len(), 1);
    assert_eq!(s.registered[0].file_name, "b");
    assert_eq!(s.yank_item(5, false).err(), Some(OpError::ItemNotFound));
}

#[test]
fn yank_marked_items_replaces_clipboard() {
    let mut s = session(vec![item("a", true), item("b", false), item("c", true)]);
    s.registered.push(item("stale", false));
    assert!(s.yank_item(0, true).is_ok());
    let names: Vec<&str> = s.registered.iter().map(|i| i.file_name.as_str()).collect();
    assert_eq!(names, vec!["a", "c"]);
}

#[test]
fn update_list_rebuilds_ordered_and_unselected() {
    let mut s = session(Vec::new());
    let raw = |name: &str, is_dir: bool| RawItem {
        name: name.to_string(),
        path: format!("/home/u/{}", name),
        metadata_ok: true,
        is_dir,
        is_file: !is_dir,
        is_symlink: false,
        size: 1,
        modified: Some(1),
    };
    s.update_list(vec![raw("z2", false), raw("dir", true), raw("z10", false)]);
    let names: Vec<&str> = s.list.iter().map(|i| i.file_name.as_str()).collect();
    assert_eq!(names, vec!["dir", "z2", "z10"]);
    assert!(s.list.iter().all(|i| !i.selected));
    assert_eq!(s.list[0].file_type, FileType::Directory);
}
