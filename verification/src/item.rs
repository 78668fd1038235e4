//! One filesystem object as the browser sees it, and the degradation
//! rules that turn a raw scan result into a catalog entry.

use vstd::prelude::*;
use vstd::string::*;
use crate::naming::ext_of;
use crate::naming::find_last_dot;

verus! {

/// The classification of an entry.  Symbolic-link status wins over the
/// target's type, so a dangling link is still a [`FileType::Symlink`].
#[derive(Copy, Clone, Debug, PartialEq, Eq, Structural)]
pub enum FileType {
    Directory,
    File,
    Symlink,
}

/// The key the ordering policy sorts by within each group.
#[derive(Copy, Clone, Debug, PartialEq, Eq, Structural)]
pub enum SortKey {
    Name,
    Time,
}

/// A foreground color, as plain data; mapping it onto the terminal is the
/// renderer's business.
#[derive(Copy, Clone, Debug, PartialEq, Eq, Structural)]
pub struct Color {
    pub red: u8,
    pub green: u8,
    pub blue: u8,
}

/// One catalog entry: a snapshot of one filesystem object.
pub struct ItemInfo {
    pub file_type: FileType,
    /// Display name; inside the trash area it carries the timestamp tag.
    pub file_name: String,
    /// Absolute `/`-separated location.
    pub file_path: String,
    /// Byte length; 0 when the metadata could not be read.
    pub file_size: u64,
    /// Extension derived from the name, without its dot.
    pub file_ext: Option<String>,
    /// Modification time in Unix seconds; absent when unreadable.
    pub modified: Option<i64>,
    /// Selection mark, owned by the selection operations.
    pub selected: bool,
}

/// The mathematical value of an [`ItemInfo`].
pub struct ItemView {
    pub file_type: FileType,
    pub file_name: Seq<char>,
    pub file_path: Seq<char>,
    pub file_size: u64,
    pub file_ext: Option<Seq<char>>,
    pub modified: Option<i64>,
    pub selected: bool,
}

impl View for ItemInfo {
    type V = ItemView;

    open spec fn view(&self) -> ItemView {
        ItemView {
            file_type: self.file_type,
            file_name: self.file_name@,
            file_path: self.file_path@,
            file_size: self.file_size,
            file_ext: match self.file_ext {
                Some(e) => Some(e@),
                None => None,
            },
            modified: self.modified,
            selected: self.selected,
        }
    }
}

impl Clone for ItemInfo {
    fn clone(&self) -> (r: Self)
        ensures
            r@ == self@,
    {
        ItemInfo {
            file_type: self.file_type,
            file_name: self.file_name.clone(),
            file_path: self.file_path.clone(),
            file_size: self.file_size,
            file_ext: match &self.file_ext {
                Some(e) => Some(e.clone()),
                None => None,
            },
            modified: self.modified,
            selected: self.selected,
        }
    }
}

/// What the scanner read for one directory child, before classification:
/// plain values only, so that a metadata failure degrades the entry
/// instead of aborting the scan.
pub struct RawItem {
    pub name: String,
    pub path: String,
    /// Whether the symlink-aware metadata read succeeded.
    pub metadata_ok: bool,
    pub is_dir: bool,
    pub is_file: bool,
    pub is_symlink: bool,
    pub size: u64,
    pub modified: Option<i64>,
}

impl Clone for RawItem {
    fn clone(&self) -> (r: Self)
        ensures
            r@ == self@,
    {
        RawItem {
            name: self.name.clone(),
            path: self.path.clone(),
            metadata_ok: self.metadata_ok,
            is_dir: self.is_dir,
            is_file: self.is_file,
            is_symlink: self.is_symlink,
            size: self.size,
            modified: self.modified,
        }
    }
}

/// The mathematical value of a [`RawItem`].
pub struct RawView {
    pub name: Seq<char>,
    pub path: Seq<char>,
    pub metadata_ok: bool,
    pub is_dir: bool,
    pub is_file: bool,
    pub is_symlink: bool,
    pub size: u64,
    pub modified: Option<i64>,
}

impl View for RawItem {
    type V = RawView;

    open spec fn view(&self) -> RawView {
        RawView {
            name: self.name@,
            path: self.path@,
            metadata_ok: self.metadata_ok,
            is_dir: self.is_dir,
            is_file: self.is_file,
            is_symlink: self.is_symlink,
            size: self.size,
            modified: self.modified,
        }
    }
}

/// Classification of a raw child; an unreadable one counts as a file.
pub open spec fn kind_of_raw(r: RawView) -> FileType {
    if !r.metadata_ok {
        FileType::File
    } else if r.is_dir {
        FileType::Directory
    } else if r.is_file {
        FileType::File
    } else if r.is_symlink {
        FileType::Symlink
    } else {
        FileType::File
    }
}

/// The catalog entry a raw child becomes: metadata failures degrade size
/// and time, and the entry starts unselected.
pub open spec fn item_of_raw(r: RawView) -> ItemView {
    ItemView {
        file_type: kind_of_raw(r),
        file_name: r.name,
        file_path: r.path,
        file_size: if r.metadata_ok { r.size } else { 0 },
        file_ext: ext_of(r.name),
        modified: if r.metadata_ok { r.modified } else { None },
        selected: false,
    }
}

/// Builds the catalog entry for one scanned child.
pub fn make_item(raw: RawItem) -> (r: ItemInfo)
    ensures
        r@ == item_of_raw(raw@),
{
    let file_type = if !raw.metadata_ok {
        FileType::File
    } else if raw.is_dir {
        FileType::Directory
    } else if raw.is_file {
        FileType::File
    } else if raw.is_symlink {
        FileType::Symlink
    } else {
        FileType::File
    };
    let ext = extension_of(&raw.name);
    ItemInfo {
        file_type,
        file_name: raw.name,
        file_path: raw.path,
        file_size: if raw.metadata_ok { raw.size } else { 0 },
        file_ext: ext,
        modified: if raw.metadata_ok { raw.modified } else { None },
        selected: false,
    }
}

/// The extension of `name`, as [`ext_of`] defines it.
pub fn extension_of(name: &String) -> (r: Option<String>)
    ensures
        match r {
            Some(e) => ext_of(name@) == Some(e@),
            None => ext_of(name@) is None,
        },
{
    let n = name.as_str().unicode_len();
    match find_last_dot(name) {
        Some(j) => Some(name.as_str().substring_char(j + 1, n).to_owned()),
        None => None,
    }
}

/// The name as the viewport shows it: unchanged when it fits in
/// `max_len` character cells, else cut and marked with `".."`.
pub fn display_name(name: &String, max_len: usize) -> (r: String)
    requires
        max_len >= 3,
    ensures
        name@.len() <= max_len ==> r@ == name@,
        name@.len() > max_len ==> r@ == name@.subrange(0, max_len - 3) + ".."@,
{
    let n = name.as_str().unicode_len();
    if n <= max_len {
        name.clone()
    } else {
        let head = name.as_str().substring_char(0, max_len - 3).to_owned();
        head.concat("..")
    }
}

} // verus!
