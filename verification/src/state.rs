//! The browsing session: the catalog of the current directory, the
//! clipboard of registered items, the selection operations, and the
//! planners for soft-delete and paste.

use vstd::prelude::*;
use crate::error::OpError;
use crate::item::{Color, FileType, ItemInfo, ItemView, RawItem, SortKey, item_of_raw, make_item};
use crate::naming::{
    in_set, join, name_seqs, resolution_exhausted, resolve_name, resolved_from, stamp_name,
};
use crate::ops::{
    FsOp, OpView, TreeNode, build_put_ops, candidate_name, candidate_of, node_views, op_views,
    plan_remove_dir, plan_remove_file, put_ops, remove_dir_plan, remove_file_plan, trash_record,
    wf_walk,
};
use crate::order::{dirs_first, grouped_sorted, push_items, views};

verus! {

/// Where the viewport lives on the terminal.
#[derive(Copy, Clone, Debug, PartialEq, Eq, Structural)]
pub struct Layout {
    pub terminal_row: u16,
    pub terminal_column: u16,
    pub name_max_len: usize,
    pub time_start_pos: u16,
}

/// The configuration a session is constructed with, built once at
/// startup and passed in: no global state.
pub struct Config {
    /// The command that opens a file whose extension has no entry.
    pub default: String,
    /// Extension to command, first match wins.
    pub commands: Vec<(String, String)>,
    pub sort_by: SortKey,
    /// Foreground colors for directories, files and symlinks.
    pub colors: (Color, Color, Color),
}

/// One browsing session.
pub struct State {
    /// The catalog: the ordered entries of the current directory.
    pub list: Vec<ItemInfo>,
    /// The clipboard: snapshots registered for a pending move.
    pub registered: Vec<ItemInfo>,
    pub current_dir: String,
    pub trash_dir: String,
    pub colors: (Color, Color, Color),
    pub default: String,
    pub commands: Vec<(String, String)>,
    pub sort_by: SortKey,
    pub layout: Layout,
}

/// Everything of the session except the catalog is the same.
pub open spec fn same_but_list(a: State, b: State) -> bool {
    a.registered == b.registered && a.current_dir == b.current_dir && a.trash_dir == b.trash_dir
        && a.colors == b.colors && a.default == b.default && a.commands == b.commands && a.sort_by
        == b.sort_by && a.layout == b.layout
}

/// Everything of the session except the clipboard is the same.
pub open spec fn same_but_registered(a: State, b: State) -> bool {
    a.list == b.list && a.current_dir == b.current_dir && a.trash_dir == b.trash_dir && a.colors
        == b.colors && a.default == b.default && a.commands == b.commands && a.sort_by == b.sort_by
        && a.layout == b.layout
}

/// `v` with its selection mark set to `s`.
pub open spec fn with_sel(v: ItemView, s: bool) -> ItemView {
    ItemView { selected: s, ..v }
}

/// The predicate the yank of marked entries filters by.
pub open spec fn sel_filter() -> spec_fn(ItemView) -> bool {
    |v: ItemView| v.selected
}

/// The command registered for `key`, first match first.
pub open spec fn lookup_command(cmds: Seq<(String, String)>, key: Seq<char>) -> Option<Seq<char>>
    decreases cmds.len(),
{
    if cmds.len() == 0 {
        None
    } else if cmds[0].0@ == key {
        Some(cmds[0].1@)
    } else {
        lookup_command(cmds.drop_first(), key)
    }
}

/// The command that opens `item`: its extension's entry, else the
/// default; entries without an extension always open with the default.
pub open spec fn chosen_command(
    item: ItemView,
    cmds: Seq<(String, String)>,
    default: Seq<char>,
) -> Seq<char> {
    match item.file_ext {
        Some(e) => match lookup_command(cmds, e) {
            Some(c) => c,
            None => default,
        },
        None => default,
    }
}

proof fn lemma_lookup_at(cmds: Seq<(String, String)>, key: Seq<char>, j: int)
    requires
        0 <= j < cmds.len(),
        cmds[j].0@ == key,
        forall|i: int| 0 <= i < j ==> (#[trigger] cmds[i]).0@ != key,
    ensures
        lookup_command(cmds, key) == Some(cmds[j].1@),
    decreases j,
{
    if j > 0 {
        lemma_lookup_at(cmds.drop_first(), key, j - 1);
    }
}

proof fn lemma_lookup_none(cmds: Seq<(String, String)>, key: Seq<char>)
    requires
        forall|i: int| 0 <= i < cmds.len() ==> (#[trigger] cmds[i]).0@ != key,
    ensures
        lookup_command(cmds, key) is None,
    decreases cmds.len(),
{
    if cmds.len() > 0 {
        lemma_lookup_none(cmds.drop_first(), key);
    }
}

fn lookup_exec(cmds: &Vec<(String, String)>, key: &String) -> (r: Option<String>)
    ensures
        match r {
            Some(c) => lookup_command(cmds@, key@) == Some(c@),
            None => lookup_command(cmds@, key@) is None,
        },
{
    let mut i: usize = 0;
    while i < cmds.len()
        invariant
            i <= cmds@.len(),
            forall|j: int| 0 <= j < i ==> (#[trigger] cmds@[j]).0@ != key@,
        decreases cmds@.len() - i,
    {
        if cmds[i].0 == *key {
            proof {
                lemma_lookup_at(cmds@, key@, i as int);
            }
            return Some(cmds[i].1.clone());
        }
        i = i + 1;
    }
    proof {
        lemma_lookup_none(cmds@, key@);
    }
    None
}

impl State {
    /// A fresh session from its configuration: empty catalog, empty
    /// clipboard, no directories chosen yet, a zeroed layout.
    pub fn new(config: Config) -> (r: State)
        ensures
            r.list@.len() == 0,
            r.registered@.len() == 0,
            r.current_dir@.len() == 0,
            r.trash_dir@.len() == 0,
            r.colors == config.colors,
            r.default == config.default,
            r.commands == config.commands,
            r.sort_by == config.sort_by,
            r.layout == (Layout { terminal_row: 0, terminal_column: 0, name_max_len: 0, time_start_pos: 0 }),
    {
        State {
            list: Vec::new(),
            registered: Vec::new(),
            current_dir: String::new(),
            trash_dir: String::new(),
            colors: config.colors,
            default: config.default,
            commands: config.commands,
            sort_by: config.sort_by,
            layout: Layout { terminal_row: 0, terminal_column: 0, name_max_len: 0, time_start_pos: 0 },
        }
    }

    /// The catalog entry at `index`, or [`OpError::ItemNotFound`] when
    /// the index no longer refers to one.
    pub fn get_item(&self, index: usize) -> (r: Result<&ItemInfo, OpError>)
        ensures
            index < self.list@.len() <==> r is Ok,
            r matches Ok(item) ==> *item == self.list@[index as int],
            r matches Err(e) ==> e == OpError::ItemNotFound,
    {
        if index < self.list.len() {
            Ok(&self.list[index])
        } else {
            Err(OpError::ItemNotFound)
        }
    }

    /// The external command that opens the entry at `index`: the one
    /// registered for its extension, else the default command.
    pub fn command_for(&self, index: usize) -> (r: Result<String, OpError>)
        ensures
            index < self.list@.len() <==> r is Ok,
            r matches Ok(c) ==> c@ == chosen_command(
                self.list@[index as int]@,
                self.commands@,
                self.default@,
            ),
            r matches Err(e) ==> e == OpError::ItemNotFound,
    {
        if index >= self.list.len() {
            return Err(OpError::ItemNotFound);
        }
        let item = &self.list[index];
        match &item.file_ext {
            Some(ext) => match lookup_exec(&self.commands, ext) {
                Some(c) => Ok(c),
                None => Ok(self.default.clone()),
            },
            None => Ok(self.default.clone()),
        }
    }

    /// Clears every selection mark.
    pub fn reset_selection(&mut self)
        ensures
            final(self).list@.len() == old(self).list@.len(),
            forall|i: int|
                0 <= i < old(self).list@.len() ==> views(final(self).list@)[i] == with_sel(
                    #[trigger] views(old(self).list@)[i],
                    false,
                ),
            same_but_list(*final(self), *old(self)),
    {
        let n = self.list.len();
        let mut i: usize = 0;
        while i < n
            invariant
                i <= n,
                n == self.list@.len(),
                same_but_list(*self, *old(self)),
                forall|j: int|
                    0 <= j < i ==> views(self.list@)[j] == with_sel(
                        #[trigger] views(old(self).list@)[j],
                        false,
                    ),
                forall|j: int|
                    i <= j < n ==> views(self.list@)[j] == #[trigger] views(old(self).list@)[j],
            decreases n - i,
        {
            self.list[i].selected = false;
            i = i + 1;
        }
    }

    /// Marks the contiguous prefix of the catalog ending at `start_pos`
    /// inclusive, and unmarks everything after it.
    pub fn select_from_top(&mut self, start_pos: usize)
        ensures
            final(self).list@.len() == old(self).list@.len(),
            forall|i: int|
                0 <= i < old(self).list@.len() ==> views(final(self).list@)[i] == with_sel(
                    #[trigger] views(old(self).list@)[i],
                    i <= start_pos,
                ),
            same_but_list(*final(self), *old(self)),
    {
        let n = self.list.len();
        let mut i: usize = 0;
        while i < n
            invariant
                i <= n,
                n == self.list@.len(),
                same_but_list(*self, *old(self)),
                forall|j: int|
                    0 <= j < i ==> views(self.list@)[j] == with_sel(
                        #[trigger] views(old(self).list@)[j],
                        j <= start_pos,
                    ),
                forall|j: int|
                    i <= j < n ==> views(self.list@)[j] == #[trigger] views(old(self).list@)[j],
            decreases n - i,
        {
            if i <= start_pos {
                self.list[i].selected = true;
            } else {
                self.list[i].selected = false;
            }
            i = i + 1;
        }
    }

    /// Marks the contiguous suffix of the catalog starting at
    /// `start_pos`, and unmarks everything before it.
    pub fn select_to_bottom(&mut self, start_pos: usize)
        ensures
            final(self).list@.len() == old(self).list@.len(),
            forall|i: int|
                0 <= i < old(self).list@.len() ==> views(final(self).list@)[i] == with_sel(
                    #[trigger] views(old(self).list@)[i],
                    i >= start_pos,
                ),
            same_but_list(*final(self), *old(self)),
    {
        let n = self.list.len();
        let mut i: usize = 0;
        while i < n
            invariant
                i <= n,
                n == self.list@.len(),
                same_but_list(*self, *old(self)),
                forall|j: int|
                    0 <= j < i ==> views(self.list@)[j] == with_sel(
                        #[trigger] views(old(self).list@)[j],
                        j >= start_pos,
                    ),
                forall|j: int|
                    i <= j < n ==> views(self.list@)[j] == #[trigger] views(old(self).list@)[j],
            decreases n - i,
        {
            if i >= start_pos {
                self.list[i].selected = true;
            } else {
                self.list[i].selected = false;
            }
            i = i + 1;
        }
    }

    /// Flips the selection mark of the entry at `index`.
    pub fn toggle(&mut self, index: usize) -> (r: Result<(), OpError>)
        ensures
            index < old(self).list@.len() <==> r is Ok,
            r matches Err(e) ==> e == OpError::ItemNotFound && *final(self) == *old(self),
            r is Ok ==> final(self).list@.len() == old(self).list@.len() && views(
                final(self).list@,
            )[index as int] == with_sel(
                views(old(self).list@)[index as int],
                !views(old(self).list@)[index as int].selected,
            ) && (forall|i: int|
                0 <= i < old(self).list@.len() && i != index ==> views(final(self).list@)[i]
                    == #[trigger] views(old(self).list@)[i]) && same_but_list(
                *final(self),
                *old(self),
            ),
    {
        if index >= self.list.len() {
            return Err(OpError::ItemNotFound);
        }
        let was = self.list[index].selected;
        self.list[index].selected = !was;
        Ok(())
    }

    /// Marks every entry between `anchor` and `cursor` inclusive,
    /// whichever order they come in, and unmarks the rest.
    pub fn select_range(&mut self, anchor: usize, cursor: usize)
        ensures
            final(self).list@.len() == old(self).list@.len(),
            forall|i: int|
                0 <= i < old(self).list@.len() ==> views(final(self).list@)[i] == with_sel(
                    #[trigger] views(old(self).list@)[i],
                    (anchor <= i <= cursor) || (cursor <= i <= anchor),
                ),
            same_but_list(*final(self), *old(self)),
    {
        let lo = if anchor <= cursor {
            anchor
        } else {
            cursor
        };
        let hi = if anchor <= cursor {
            cursor
        } else {
            anchor
        };
        let n = self.list.len();
        let mut i: usize = 0;
        while i < n
            invariant
                i <= n,
                n == self.list@.len(),
                same_but_list(*self, *old(self)),
                lo == if anchor <= cursor { anchor } else { cursor },
                hi == if anchor <= cursor { cursor } else { anchor },
                forall|j: int|
                    0 <= j < i ==> views(self.list@)[j] == with_sel(
                        #[trigger] views(old(self).list@)[j],
                        (anchor <= j <= cursor) || (cursor <= j <= anchor),
                    ),
                forall|j: int|
                    i <= j < n ==> views(self.list@)[j] == #[trigger] views(old(self).list@)[j],
            decreases n - i,
        {
            if lo <= i && i <= hi {
                self.list[i].selected = true;
            } else {
                self.list[i].selected = false;
            }
            i = i + 1;
        }
    }

    /// Appends one clipboard record; the planners hand the record back
    /// and the driver registers it once the copy phase succeeded.
    pub fn register(&mut self, record: ItemInfo)
        ensures
            final(self).registered@ == old(self).registered@.push(record),
            same_but_registered(*final(self), *old(self)),
    {
        self.registered.push(record);
    }

    /// Empties the clipboard.
    pub fn clear_registered(&mut self)
        ensures
            final(self).registered@.len() == 0,
            same_but_registered(*final(self), *old(self)),
    {
        self.registered.clear();
    }

    /// Stages entries for a move: the marked entries of the catalog
    /// when `selected` is set, else the single entry at `index`.  The
    /// previous clipboard is replaced.
    pub fn yank_item(&mut self, index: usize, selected: bool) -> (r: Result<(), OpError>)
        ensures
            r is Ok <==> (selected || index < old(self).list@.len()),
            r matches Err(e) ==> e == OpError::ItemNotFound && *final(self) == *old(self),
            selected ==> views(final(self).registered@) == views(old(self).list@).filter(
                sel_filter(),
            ),
            !selected && index < old(self).list@.len() ==> views(final(self).registered@) == seq![
                views(old(self).list@)[index as int],
            ],
            r is Ok ==> same_but_registered(*final(self), *old(self)),
    {
        if !selected && index >= self.list.len() {
            return Err(OpError::ItemNotFound);
        }
        self.registered.clear();
        if selected {
            let n = self.list.len();
            let mut i: usize = 0;
            proof {
                assert(views(self.registered@) =~= Seq::<ItemView>::empty());
                assert(views(old(self).list@).take(0).filter(sel_filter())
                    =~= Seq::<ItemView>::empty());
            }
            while i < n
                invariant
                    i <= n,
                    n == self.list@.len(),
                    self.list == old(self).list,
                    same_but_registered(*self, *old(self)),
                    views(self.registered@) == views(old(self).list@).take(i as int).filter(
                        sel_filter(),
                    ),
                decreases n - i,
            {
                let ghost pre = views(self.registered@);
                let ghost taken = views(old(self).list@).take(i as int);
                if self.list[i].selected {
                    let it = self.list[i].clone();
                    self.registered.push(it);
                    proof {
                        assert(views(self.registered@) =~= pre.push(
                            views(old(self).list@)[i as int],
                        ));
                    }
                }
                proof {
                    let taken1 = views(old(self).list@).take(i + 1);
                    assert(taken1 =~= taken.push(views(old(self).list@)[i as int]));
                    taken.lemma_filter_push(views(old(self).list@)[i as int], sel_filter());
                }
                i = i + 1;
            }
            proof {
                assert(views(old(self).list@).take(n as int) =~= views(old(self).list@));
            }
            Ok(())
        } else {
            let it = self.list[index].clone();
            self.registered.push(it);
            proof {
                assert(views(self.registered@) =~= seq![views(old(self).list@)[index as int]]);
            }
            Ok(())
        }
    }

    /// Rebuilds the catalog from a fresh scan of the current directory:
    /// every raw child becomes an entry, directories are grouped first,
    /// each group is ordered by the session's sort key, and all
    /// selection marks start cleared.
    pub fn update_list(&mut self, entries: Vec<RawItem>)
        ensures
            final(self).list@.len() == entries@.len(),
            dirs_first(views(final(self).list@)),
            grouped_sorted(views(final(self).list@), old(self).sort_by),
            views(final(self).list@).to_multiset() == entries@.map_values(
                |r: RawItem| item_of_raw(r@),
            ).to_multiset(),
            same_but_list(*final(self), *old(self)),
    {
        let ghost evs = entries@.map_values(|r: RawItem| item_of_raw(r@));
        let mut items: Vec<ItemInfo> = Vec::new();
        let n = entries.len();
        let mut i: usize = 0;
        while i < n
            invariant
                i <= n,
                n == entries@.len(),
                evs == entries@.map_values(|r: RawItem| item_of_raw(r@)),
                items@.len() == i,
                forall|j: int| 0 <= j < i ==> views(items@)[j] == evs[j],
            decreases n - i,
        {
            let ghost before = views(items@);
            let raw = entries[i].clone();
            let it = make_item(raw);
            items.push(it);
            proof {
                assert(views(items@) =~= before.push(item_of_raw(entries@[i as int]@)));
            }
            i = i + 1;
        }
        proof {
            assert(views(items@) =~= evs);
        }
        let sorted = push_items(items, self.sort_by);
        self.list = sorted;
    }
}


// ---------------------------------------------------------------------------
// Soft delete and paste
// ---------------------------------------------------------------------------

/// Relies on chrono::Local::now: the Unix timestamp, in seconds, of the
/// current local time.  Nothing is promised of the value; every caller
/// handles every timestamp.
#[verifier::external_body]
fn now_timestamp() -> i64 {
    chrono::Local::now().timestamp()
}

/// The names present in the catalog, in order.
pub open spec fn list_names(s: Seq<ItemView>) -> Seq<Seq<char>> {
    s.map_values(|v: ItemView| v.file_name)
}

fn collect_names(list: &Vec<ItemInfo>) -> (r: Vec<String>)
    ensures
        name_seqs(r@) == list_names(views(list@)),
{
    let mut out: Vec<String> = Vec::new();
    let mut i: usize = 0;
    while i < list.len()
        invariant
            i <= list@.len(),
            out@.len() == i,
            forall|j: int| 0 <= j < i ==> (#[trigger] out@[j])@ == views(list@)[j].file_name,
        decreases list@.len() - i,
    {
        out.push(list[i].file_name.clone());
        i = i + 1;
    }
    proof {
        assert(name_seqs(out@) =~= list_names(views(list@)));
    }
    out
}

/// The destination names already claimed by the successful outcomes.
pub open spec fn ok_names(outcomes: Seq<Result<String, OpError>>) -> Seq<Seq<char>>
    decreases outcomes.len(),
{
    if outcomes.len() == 0 {
        Seq::empty()
    } else {
        ok_names(outcomes.drop_last()) + (match outcomes.last() {
            Ok(name) => seq![name@],
            Err(_) => Seq::empty(),
        })
    }
}

/// The name set the record at position `i` of a paste is resolved
/// against: the names of the catalog plus every name already resolved
/// earlier in the same paste.
pub open spec fn paste_set(
    list: Seq<ItemInfo>,
    outcomes: Seq<Result<String, OpError>>,
    i: int,
) -> Seq<Seq<char>> {
    list_names(views(list)) + ok_names(outcomes.subrange(0, i))
}

/// What a paste guarantees of the record at position `j`: a successful
/// outcome carries the name its candidate resolved to against the names
/// taken so far, and a failed one reports exhaustion of the variants.
pub open spec fn outcome_resolved(
    list: Seq<ItemInfo>,
    rec: ItemView,
    trash_dir: Seq<char>,
    outcomes: Seq<Result<String, OpError>>,
    j: int,
) -> bool {
    match outcomes[j] {
        Ok(name) => resolved_from(
            paste_set(list, outcomes, j),
            candidate_name(rec, trash_dir),
            name@,
        ),
        Err(e) => e == OpError::NameResolutionExhausted && resolution_exhausted(
            paste_set(list, outcomes, j),
            candidate_name(rec, trash_dir),
        ),
    }
}

/// The operations one record contributes: its paste when its name
/// resolved, nothing when it failed.
pub open spec fn put_block(
    rec: ItemView,
    dest: Seq<char>,
    outcome: Result<String, OpError>,
    nodes: Seq<crate::ops::NodeView>,
) -> Seq<OpView> {
    match outcome {
        Ok(name) => put_ops(rec, dest, name@, nodes),
        Err(_) => Seq::empty(),
    }
}

/// The per-record operation blocks of a paste, in clipboard order.
pub open spec fn paste_blocks(
    recs: Seq<ItemInfo>,
    dest: Seq<char>,
    outcomes: Seq<Result<String, OpError>>,
    trees: Seq<Vec<TreeNode>>,
) -> Seq<Seq<OpView>> {
    Seq::new(
        outcomes.len() as nat,
        |i: int| put_block(recs[i]@, dest, outcomes[i], node_views(trees[i]@)),
    )
}

/// The blocks of a plan, laid out one after the other.
pub open spec fn cat_ops(blocks: Seq<Seq<OpView>>) -> Seq<OpView>
    decreases blocks.len(),
{
    if blocks.len() == 0 {
        Seq::empty()
    } else {
        cat_ops(blocks.drop_last()) + blocks.last()
    }
}

proof fn lemma_cat_ops_push(blocks: Seq<Seq<OpView>>, b: Seq<OpView>)
    ensures
        cat_ops(blocks.push(b)) == cat_ops(blocks) + b,
{
    assert(blocks.push(b).drop_last() =~= blocks);
    assert(blocks.push(b).last() == b);
}

proof fn lemma_op_views_add(a: Seq<FsOp>, b: Seq<FsOp>)
    ensures
        op_views(a + b) == op_views(a) + op_views(b),
{
    assert(op_views(a + b) =~= op_views(a) + op_views(b));
}

proof fn lemma_paste_set_stable(
    list: Seq<ItemInfo>,
    outcomes: Seq<Result<String, OpError>>,
    o: Result<String, OpError>,
    j: int,
)
    requires
        0 <= j <= outcomes.len(),
    ensures
        paste_set(list, outcomes.push(o), j) == paste_set(list, outcomes, j),
{
    assert(outcomes.push(o).subrange(0, j) =~= outcomes.subrange(0, j));
}

proof fn lemma_paste_set_next(
    list: Seq<ItemInfo>,
    outcomes: Seq<Result<String, OpError>>,
    o: Result<String, OpError>,
)
    ensures
        paste_set(list, outcomes.push(o), outcomes.len() as int + 1) == paste_set(
            list,
            outcomes,
            outcomes.len() as int,
        ) + (match o {
            Ok(name) => seq![name@],
            Err(_) => Seq::<Seq<char>>::empty(),
        }),
{
    let pushed = outcomes.push(o);
    assert(pushed.subrange(0, outcomes.len() as int + 1) =~= pushed);
    assert(pushed.drop_last() =~= outcomes);
    assert(outcomes.subrange(0, outcomes.len() as int) =~= outcomes);
    assert(paste_set(list, pushed, outcomes.len() as int + 1) =~= paste_set(
        list,
        outcomes,
        outcomes.len() as int,
    ) + (match o {
        Ok(name) => seq![name@],
        Err(_) => Seq::<Seq<char>>::empty(),
    }));
}

/// The outcome of planning one paste: the operations to execute and,
/// per clipboard record, either its resolved destination name or the
/// error for that record alone — one record's failure does not abort
/// its siblings.
pub struct PastePlan {
    pub ops: Vec<FsOp>,
    pub outcomes: Vec<Result<String, OpError>>,
}

impl State {
    /// Plans pasting the whole clipboard into the current directory.
    /// `trees[i]` is the walk of record `i`'s tree (ignored for
    /// non-directories).  Candidate names strip the trash tag, every
    /// resolved name is fresh against the catalog and against the names
    /// resolved earlier in the same paste, and the returned operations
    /// are exactly the per-record paste blocks in clipboard order:
    /// copies and directory creations only, never a removal.
    #[verifier::rlimit(100)]
    pub fn put_items(&self, trees: &Vec<Vec<TreeNode>>) -> (r: PastePlan)
        requires
            trees@.len() == self.registered@.len(),
            forall|i: int|
                0 <= i < self.registered@.len() && (#[trigger] self.registered@[i])@.file_type
                    == FileType::Directory ==> wf_walk(node_views(trees@[i]@)),
        ensures
            r.outcomes@.len() == self.registered@.len(),
            forall|j: int|
                0 <= j < r.outcomes@.len() ==> #[trigger] outcome_resolved(
                    self.list@,
                    self.registered@[j]@,
                    self.trash_dir@,
                    r.outcomes@,
                    j,
                ),
            op_views(r.ops@) == cat_ops(
                paste_blocks(self.registered@, self.current_dir@, r.outcomes@, trees@),
            ),
    {
        let name_set0 = collect_names(&self.list);
        let mut name_set = name_set0;
        let mut ops: Vec<FsOp> = Vec::new();
        let mut outcomes: Vec<Result<String, OpError>> = Vec::new();
        let n = self.registered.len();
        let mut i: usize = 0;
        proof {
            assert(outcomes@.subrange(0, 0) =~= Seq::<Result<String, OpError>>::empty());
            assert(name_seqs(name_set@) =~= paste_set(self.list@, outcomes@, 0));
            assert(paste_blocks(self.registered@, self.current_dir@, outcomes@, trees@)
                =~= Seq::<Seq<OpView>>::empty());
            assert(op_views(ops@) =~= cat_ops(
                paste_blocks(self.registered@, self.current_dir@, outcomes@, trees@),
            ));
        }
        while i < n
            invariant
                i <= n,
                n == self.registered@.len(),
                trees@.len() == n,
                forall|k: int|
                    0 <= k < n && (#[trigger] self.registered@[k])@.file_type
                        == FileType::Directory ==> wf_walk(node_views(trees@[k]@)),
                outcomes@.len() == i,
                name_seqs(name_set@) == paste_set(self.list@, outcomes@, i as int),
                forall|j: int|
                    0 <= j < i ==> #[trigger] outcome_resolved(
                        self.list@,
                        self.registered@[j]@,
                        self.trash_dir@,
                        outcomes@,
                        j,
                    ),
                op_views(ops@) == cat_ops(
                    paste_blocks(self.registered@, self.current_dir@, outcomes@, trees@),
                ),
            decreases n - i,
        {
            let ghost pre_out = outcomes@;
            let ghost pre_ops = ops@;
            let rec = &self.registered[i];
            let cand = candidate_of(rec, &self.trash_dir);
            match resolve_name(&cand, &name_set) {
                Ok(name) => {
                    let block = build_put_ops(rec, &self.current_dir, &name, &trees[i]);
                    let ghost block_v = op_views(block@);
                    let ghost block_seq = block@;
                    let mut block = block;
                    ops.append(&mut block);
                    name_set.push(name.clone());
                    outcomes.push(Ok(name));
                    proof {
                        let o = outcomes@.last();
                        lemma_paste_set_next(self.list@, pre_out, o);
                        assert(name_seqs(name_set@) =~= paste_set(
                            self.list@,
                            outcomes@,
                            i + 1,
                        ));
                        assert forall|j: int| 0 <= j < i + 1 implies #[trigger] outcome_resolved(
                            self.list@,
                            self.registered@[j]@,
                            self.trash_dir@,
                            outcomes@,
                            j,
                        ) by {
                            lemma_paste_set_stable(self.list@, pre_out, o, j);
                            if j < i {
                                assert(outcome_resolved(
                                    self.list@,
                                    self.registered@[j]@,
                                    self.trash_dir@,
                                    pre_out,
                                    j,
                                ));
                                assert(outcomes@[j] == pre_out[j]);
                            } else {
                                assert(paste_set(self.list@, outcomes@, j) == paste_set(
                                    self.list@,
                                    pre_out,
                                    j,
                                ));
                            }
                        }
                        lemma_op_views_add(pre_ops, block_seq);
                    }
                    proof {
                        let blocks0 = paste_blocks(
                            self.registered@,
                            self.current_dir@,
                            pre_out,
                            trees@,
                        );
                        let blocks1 = paste_blocks(
                            self.registered@,
                            self.current_dir@,
                            outcomes@,
                            trees@,
                        );
                        assert(blocks1 =~= blocks0.push(block_v));
                        lemma_cat_ops_push(blocks0, block_v);
                        assert(op_views(ops@) =~= cat_ops(blocks0) + block_v);
                    }
                }
                Err(e) => {
                    outcomes.push(Err(e));
                    proof {
                        let o = outcomes@.last();
                        lemma_paste_set_next(self.list@, pre_out, o);
                        assert(name_seqs(name_set@) =~= paste_set(
                            self.list@,
                            outcomes@,
                            i + 1,
                        ));
                        assert forall|j: int| 0 <= j < i + 1 implies #[trigger] outcome_resolved(
                            self.list@,
                            self.registered@[j]@,
                            self.trash_dir@,
                            outcomes@,
                            j,
                        ) by {
                            lemma_paste_set_stable(self.list@, pre_out, o, j);
                            if j < i {
                                assert(outcome_resolved(
                                    self.list@,
                                    self.registered@[j]@,
                                    self.trash_dir@,
                                    pre_out,
                                    j,
                                ));
                                assert(outcomes@[j] == pre_out[j]);
                            } else {
                                assert(paste_set(self.list@, outcomes@, j) == paste_set(
                                    self.list@,
                                    pre_out,
                                    j,
                                ));
                            }
                        }
                        let blocks0 = paste_blocks(
                            self.registered@,
                            self.current_dir@,
                            pre_out,
                            trees@,
                        );
                        let blocks1 = paste_blocks(
                            self.registered@,
                            self.current_dir@,
                            outcomes@,
                            trees@,
                        );
                        assert(blocks1 =~= blocks0.push(Seq::<OpView>::empty()));
                        lemma_cat_ops_push(blocks0, Seq::<OpView>::empty());
                        assert(op_views(ops@) =~= cat_ops(blocks1));
                    }
                }
            }
            i = i + 1;
        }
        PastePlan { ops, outcomes }
    }
}


impl State {
    /// Plans the soft-delete of one non-directory entry, stamping its
    /// trash name with the clock read during the call.  A dangling
    /// symlink is only unlinked: no trash artifact and no clipboard
    /// record.  Everything else is copied into the trash area before
    /// the original is unlinked, and the returned record, once the
    /// driver has executed the plan and called [`State::register`],
    /// lets a later paste restore the item.
    pub fn remove_and_yank_file(&self, item: &ItemInfo, target_exists: bool) -> (r: (
        Vec<FsOp>,
        Option<ItemInfo>,
    ))
        ensures
            item@.file_type == FileType::Symlink && !target_exists ==> op_views(r.0@) == seq![
                OpView::RemoveFile(item.file_path@),
            ] && r.1 is None,
            !(item@.file_type == FileType::Symlink && !target_exists) ==> exists|t: int|
                op_views(r.0@) == remove_file_plan(
                    item.file_path@,
                    join(self.trash_dir@, #[trigger] stamp_name(t, item.file_name@)),
                ) && (r.1 matches Some(rec) && rec@ == trash_record(
                    item@,
                    self.trash_dir@,
                    stamp_name(t, item.file_name@),
                )),
    {
        let now = now_timestamp();
        plan_remove_file(item, &self.trash_dir, now, target_exists)
    }

    /// Plans the soft-delete of one directory entry whose tree was
    /// walked as `nodes`, stamping its trash root with the clock read
    /// during the call.  The plan mirrors the whole tree under the
    /// trash root and removes the original only as its last operation,
    /// so a failure anywhere in the copy phase leaves the original
    /// tree intact.
    pub fn remove_and_yank_dir(&self, item: &ItemInfo, nodes: &Vec<TreeNode>) -> (r: (
        Vec<FsOp>,
        ItemInfo,
    ))
        requires
            wf_walk(node_views(nodes@)),
        ensures
            exists|t: int|
                op_views(r.0@) == remove_dir_plan(
                    item.file_path@,
                    join(self.trash_dir@, #[trigger] stamp_name(t, item.file_name@)),
                    node_views(nodes@),
                ) && r.1@ == trash_record(
                    item@,
                    self.trash_dir@,
                    stamp_name(t, item.file_name@),
                ),
    {
        let now = now_timestamp();
        plan_remove_dir(item, nodes, &self.trash_dir, now)
    }
}

proof fn lemma_ok_names_contains(outcomes: Seq<Result<String, OpError>>, i: int)
    requires
        0 <= i < outcomes.len(),
        outcomes[i] is Ok,
    ensures
        in_set(ok_names(outcomes), outcomes[i]->Ok_0@),
    decreases outcomes.len(),
{
    let head = ok_names(outcomes.drop_last());
    let tail = match outcomes.last() {
        Ok(name) => seq![name@],
        Err(_) => Seq::<Seq<char>>::empty(),
    };
    if i == outcomes.len() - 1 {
        assert((head + tail)[head.len() as int] == outcomes[i]->Ok_0@);
    } else {
        lemma_ok_names_contains(outcomes.drop_last(), i);
        crate::naming::lemma_in_set_grows(head, tail, outcomes[i]->Ok_0@);
    }
}

proof fn lemma_cat_ops_nondestructive(blocks: Seq<Seq<OpView>>)
    requires
        forall|i: int, j: int|
            0 <= i < blocks.len() && 0 <= j < blocks[i].len() ==> !crate::ops::is_destructive(
                #[trigger] blocks[i][j],
            ),
    ensures
        forall|k: int|
            0 <= k < cat_ops(blocks).len() ==> !crate::ops::is_destructive(
                #[trigger] cat_ops(blocks)[k],
            ),
    decreases blocks.len(),
{
    if blocks.len() > 0 {
        let head = blocks.drop_last();
        lemma_cat_ops_nondestructive(head);
        assert forall|k: int| 0 <= k < cat_ops(blocks).len() implies !crate::ops::is_destructive(
            #[trigger] cat_ops(blocks)[k],
        ) by {
            if k < cat_ops(head).len() {
                assert(cat_ops(blocks)[k] == cat_ops(head)[k]);
            } else {
                assert(cat_ops(blocks)[k] == blocks.last()[k - cat_ops(head).len()]);
                assert(blocks.last() == blocks[blocks.len() - 1]);
            }
        }
    }
}

/// Restoration always copies and never moves: a whole paste plan holds
/// no destructive operation, so the sources — trash entries and yanked
/// originals — survive it, and the same clipboard can be pasted again
/// into another destination.
pub proof fn lemma_paste_plan_copy_only(
    recs: Seq<ItemInfo>,
    dest: Seq<char>,
    outcomes: Seq<Result<String, OpError>>,
    trees: Seq<Vec<TreeNode>>,
)
    ensures
        forall|k: int|
            0 <= k < cat_ops(paste_blocks(recs, dest, outcomes, trees)).len()
                ==> !crate::ops::is_destructive(
                #[trigger] cat_ops(paste_blocks(recs, dest, outcomes, trees))[k],
            ),
{
    let blocks = paste_blocks(recs, dest, outcomes, trees);
    assert forall|i: int, j: int|
        0 <= i < blocks.len() && 0 <= j < blocks[i].len() implies !crate::ops::is_destructive(
        #[trigger] blocks[i][j],
    ) by {
        match outcomes[i] {
            Ok(name) => {
                crate::ops::lemma_put_ops_copy_only(
                    recs[i]@,
                    dest,
                    name@,
                    node_views(trees[i]@),
                );
            }
            Err(_) => {}
        }
    }
    lemma_cat_ops_nondestructive(blocks);
}

/// No paste reuses a name.  Every successfully resolved destination
/// name is fresh against the catalog of the target directory, and two
/// records of one paste never resolve to the same name.  Pasting the
/// same clipboard twice therefore cannot produce two entries with one
/// name either: after the first paste the catalog holds the first
/// resolved name, and the second paste resolves against that catalog.
pub proof fn lemma_paste_names_fresh(
    list: Seq<ItemInfo>,
    recs: Seq<ItemInfo>,
    trash_dir: Seq<char>,
    outcomes: Seq<Result<String, OpError>>,
)
    requires
        outcomes.len() == recs.len(),
        forall|j: int|
            0 <= j < outcomes.len() ==> #[trigger] outcome_resolved(
                list,
                recs[j]@,
                trash_dir,
                outcomes,
                j,
            ),
    ensures
        forall|j: int|
            0 <= j < outcomes.len() && (#[trigger] outcomes[j]) is Ok ==> !in_set(
                list_names(views(list)),
                outcomes[j]->Ok_0@,
            ),
        forall|i: int, j: int|
            0 <= i < j < outcomes.len() && (#[trigger] outcomes[i]) is Ok && (
            #[trigger] outcomes[j]) is Ok ==> outcomes[i]->Ok_0@ != outcomes[j]->Ok_0@,
{
    let base = list_names(views(list));
    assert forall|j: int| 0 <= j < outcomes.len() && (#[trigger] outcomes[j]) is Ok implies
        !in_set(base, outcomes[j]->Ok_0@) by {
        assert(outcome_resolved(list, recs[j]@, trash_dir, outcomes, j));
        crate::naming::lemma_resolved_fresh(
            paste_set(list, outcomes, j),
            crate::ops::candidate_name(recs[j]@, trash_dir),
            outcomes[j]->Ok_0@,
        );
        crate::naming::lemma_in_set_grows(
            base,
            ok_names(outcomes.subrange(0, j)),
            outcomes[j]->Ok_0@,
        );
    }
    assert forall|i: int, j: int|
        0 <= i < j < outcomes.len() && (#[trigger] outcomes[i]) is Ok && (
        #[trigger] outcomes[j]) is Ok implies outcomes[i]->Ok_0@ != outcomes[j]->Ok_0@ by {
        let name_i = outcomes[i]->Ok_0@;
        let name_j = outcomes[j]->Ok_0@;
        let prefix = outcomes.subrange(0, j);
        assert(prefix[i] == outcomes[i]);
        lemma_ok_names_contains(prefix, i);
        crate::naming::lemma_in_set_grows(base, ok_names(prefix), name_i);
        assert(in_set(paste_set(list, outcomes, j), name_i));
        assert(outcome_resolved(list, recs[j]@, trash_dir, outcomes, j));
        crate::naming::lemma_resolved_fresh(
            paste_set(list, outcomes, j),
            crate::ops::candidate_name(recs[j]@, trash_dir),
            name_j,
        );
    }
}

} // verus!
