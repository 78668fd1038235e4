//! Plans for the trash and restore engines.
//!
//! Deleting or pasting a subtree touches the filesystem many times; here
//! each request is turned into an explicit operation list whose shape is
//! proved: a delete plan copies everything under the trash root before
//! its one destructive step, and a paste plan only creates and copies.
//! An unverified driver executes a plan in order and stops at the first
//! failing operation.

use vstd::prelude::*;
use crate::item::{FileType, ItemInfo, ItemView};
use crate::naming::{
    in_set, join, join_path, join_rel, join_rel_path, make_stamp_name, resolved_from, stamp_name,
    strip_stamp, strip_stamp_exec, lemma_stamp_strip_roundtrip,
};

verus! {

/// One filesystem operation of a plan.
pub enum FsOp {
    /// Create an empty directory at the path.
    CreateDir(String),
    /// Copy one file's contents, following a symlink whose target exists.
    CopyFile(String, String),
    /// Unlink one file or symbolic link.
    RemoveFile(String),
    /// Remove a directory tree recursively.
    RemoveDirAll(String),
}

/// The mathematical value of an [`FsOp`].
pub enum OpView {
    CreateDir(Seq<char>),
    CopyFile(Seq<char>, Seq<char>),
    RemoveFile(Seq<char>),
    RemoveDirAll(Seq<char>),
}

impl View for FsOp {
    type V = OpView;

    open spec fn view(&self) -> OpView {
        match self {
            FsOp::CreateDir(p) => OpView::CreateDir(p@),
            FsOp::CopyFile(f, t) => OpView::CopyFile(f@, t@),
            FsOp::RemoveFile(p) => OpView::RemoveFile(p@),
            FsOp::RemoveDirAll(p) => OpView::RemoveDirAll(p@),
        }
    }
}

/// The mathematical values of a run of operations.
pub open spec fn op_views(s: Seq<FsOp>) -> Seq<OpView> {
    s.map_values(|op: FsOp| op@)
}

/// An operation that deletes something.
pub open spec fn is_destructive(op: OpView) -> bool {
    op matches OpView::RemoveFile(_) || op matches OpView::RemoveDirAll(_)
}

/// One node of a walked subtree, in deterministic (lexicographic path)
/// walk order.
pub struct TreeNode {
    /// Path relative to the walked root; empty for the root itself.
    pub rel: String,
    pub is_dir: bool,
}

/// The mathematical value of a [`TreeNode`].
pub struct NodeView {
    pub rel: Seq<char>,
    pub is_dir: bool,
}

impl View for TreeNode {
    type V = NodeView;

    open spec fn view(&self) -> NodeView {
        NodeView { rel: self.rel@, is_dir: self.is_dir }
    }
}

/// The mathematical values of a run of walked nodes.
pub open spec fn node_views(s: Seq<TreeNode>) -> Seq<NodeView> {
    s.map_values(|n: TreeNode| n@)
}

/// A well-formed walk: the first node is the walked root itself.
pub open spec fn wf_walk(nodes: Seq<NodeView>) -> bool {
    nodes.len() >= 1 && nodes[0].rel.len() == 0 && nodes[0].is_dir
}

/// The operation that recreates `node` of the tree at `src` under the new
/// root `dst`: a directory is created, a leaf is copied.
pub open spec fn mirror_op(src: Seq<char>, dst: Seq<char>, node: NodeView) -> OpView {
    if node.is_dir {
        OpView::CreateDir(join_rel(dst, node.rel))
    } else {
        OpView::CopyFile(join_rel(src, node.rel), join_rel(dst, node.rel))
    }
}

/// The copy phase that mirrors the whole tree at `src` (walked as
/// `nodes`) under `dst`, in walk order.
pub open spec fn mirror_ops(src: Seq<char>, dst: Seq<char>, nodes: Seq<NodeView>) -> Seq<OpView> {
    Seq::new(nodes.len(), |i: int| mirror_op(src, dst, nodes[i]))
}

fn build_mirror_ops(src: &String, dst: &String, nodes: &Vec<TreeNode>) -> (ops: Vec<FsOp>)
    ensures
        op_views(ops@) == mirror_ops(src@, dst@, node_views(nodes@)),
{
    let mut ops: Vec<FsOp> = Vec::new();
    let mut i: usize = 0;
    while i < nodes.len()
        invariant
            i <= nodes@.len(),
            ops@.len() == i,
            forall|j: int|
                0 <= j < i ==> (#[trigger] ops@[j])@ == mirror_op(
                    src@,
                    dst@,
                    node_views(nodes@)[j],
                ),
        decreases nodes@.len() - i,
    {
        let n = &nodes[i];
        if n.is_dir {
            ops.push(FsOp::CreateDir(join_rel_path(dst, &n.rel)));
        } else {
            ops.push(
                FsOp::CopyFile(join_rel_path(src, &n.rel), join_rel_path(dst, &n.rel)),
            );
        }
        i = i + 1;
    }
    proof {
        assert(op_views(ops@) =~= mirror_ops(src@, dst@, node_views(nodes@)));
    }
    ops
}

/// The full plan that soft-deletes the directory tree at `src`: mirror
/// every node under the trash root `dst` first, and only then, as the
/// very last operation, remove the original tree.
pub open spec fn remove_dir_plan(src: Seq<char>, dst: Seq<char>, nodes: Seq<NodeView>) -> Seq<
    OpView,
> {
    mirror_ops(src, dst, nodes) + seq![OpView::RemoveDirAll(src)]
}

/// The plan that soft-deletes one file or live symlink: copy it to its
/// trash name, then unlink the original.
pub open spec fn remove_file_plan(src: Seq<char>, dst: Seq<char>) -> Seq<OpView> {
    seq![OpView::CopyFile(src, dst), OpView::RemoveFile(src)]
}

/// The clipboard snapshot for a soft-deleted item: the same metadata,
/// relocated to its stamped trash name, unselected.
pub open spec fn trash_record(item: ItemView, trash_dir: Seq<char>, stamped: Seq<char>) -> ItemView {
    ItemView {
        file_name: stamped,
        file_path: join(trash_dir, stamped),
        selected: false,
        ..item
    }
}

fn make_trash_record(item: &ItemInfo, trash_dir: &String, stamped: String) -> (r: ItemInfo)
    ensures
        r@ == trash_record(item@, trash_dir@, stamped@),
{
    let file_path = join_path(trash_dir, stamped.as_str());
    ItemInfo {
        file_type: item.file_type,
        file_name: stamped,
        file_path,
        file_size: item.file_size,
        file_ext: match &item.file_ext {
            Some(e) => Some(e.clone()),
            None => None,
        },
        modified: item.modified,
        selected: false,
    }
}

/// Plans the soft-delete of the directory tree at `item`, walked as
/// `nodes`, into the trash area at time `now`: the returned operations
/// are exactly [`remove_dir_plan`] for the stamped trash root, and the
/// returned record is the clipboard snapshot for it.
pub fn plan_remove_dir(item: &ItemInfo, nodes: &Vec<TreeNode>, trash_dir: &String, now: i64) -> (r:
    (Vec<FsOp>, ItemInfo))
    requires
        wf_walk(node_views(nodes@)),
    ensures
        op_views(r.0@) == remove_dir_plan(
            item.file_path@,
            join(trash_dir@, stamp_name(now as int, item.file_name@)),
            node_views(nodes@),
        ),
        r.1@ == trash_record(item@, trash_dir@, stamp_name(now as int, item.file_name@)),
{
    let stamped = make_stamp_name(now, &item.file_name);
    let trash_path = join_path(trash_dir, stamped.as_str());
    let mut ops = build_mirror_ops(&item.file_path, &trash_path, nodes);
    ops.push(FsOp::RemoveDirAll(item.file_path.clone()));
    let record = make_trash_record(item, trash_dir, stamped);
    proof {
        assert(op_views(ops@) =~= remove_dir_plan(
            item.file_path@,
            join(trash_dir@, stamp_name(now as int, item.file_name@)),
            node_views(nodes@),
        ));
    }
    (ops, record)
}

/// Plans the soft-delete of one non-directory item at time `now`.  A
/// dangling symlink (`target_exists` false) is unlinked directly and
/// leaves no clipboard record and no trash artifact; anything else is
/// copied to its stamped trash name and then unlinked, with a record.
pub fn plan_remove_file(item: &ItemInfo, trash_dir: &String, now: i64, target_exists: bool) -> (r:
    (Vec<FsOp>, Option<ItemInfo>))
    ensures
        item@.file_type == FileType::Symlink && !target_exists ==> op_views(r.0@) == seq![
            OpView::RemoveFile(item.file_path@),
        ] && r.1 is None,
        !(item@.file_type == FileType::Symlink && !target_exists) ==> op_views(r.0@)
            == remove_file_plan(
            item.file_path@,
            join(trash_dir@, stamp_name(now as int, item.file_name@)),
        ) && (r.1 matches Some(rec) && rec@ == trash_record(
            item@,
            trash_dir@,
            stamp_name(now as int, item.file_name@),
        )),
{
    let dangling = match item.file_type {
        FileType::Symlink => !target_exists,
        _ => false,
    };
    if dangling {
        let mut ops: Vec<FsOp> = Vec::new();
        ops.push(FsOp::RemoveFile(item.file_path.clone()));
        proof {
            assert(op_views(ops@) =~= seq![OpView::RemoveFile(item.file_path@)]);
        }
        (ops, None)
    } else {
        let stamped = make_stamp_name(now, &item.file_name);
        let trash_path = join_path(trash_dir, stamped.as_str());
        let mut ops: Vec<FsOp> = Vec::new();
        ops.push(FsOp::CopyFile(item.file_path.clone(), trash_path));
        ops.push(FsOp::RemoveFile(item.file_path.clone()));
        let record = make_trash_record(item, trash_dir, stamped);
        proof {
            assert(op_views(ops@) =~= remove_file_plan(
                item.file_path@,
                join(trash_dir@, stamp_name(now as int, item.file_name@)),
            ));
        }
        (ops, Some(record))
    }
}

/// A deletion that cannot be proven copied must never destroy data: in a
/// directory delete plan every operation but the last one only creates a
/// directory or copies a file under the trash root, and the single
/// destructive operation—removing the original tree—comes last.  A driver
/// that executes the plan in order and stops at the first failure
/// therefore leaves the original tree fully intact whenever any copy
/// fails.
pub proof fn lemma_remove_dir_plan_copies_first(
    src: Seq<char>,
    dst: Seq<char>,
    nodes: Seq<NodeView>,
)
    requires
        wf_walk(nodes),
    ensures
        remove_dir_plan(src, dst, nodes).len() == nodes.len() + 1,
        forall|i: int|
            0 <= i < nodes.len() ==> !is_destructive(#[trigger] remove_dir_plan(src, dst, nodes)[i]),
        remove_dir_plan(src, dst, nodes)[nodes.len() as int] == OpView::RemoveDirAll(src),
        forall|i: int|
            0 <= i < nodes.len() ==> #[trigger] remove_dir_plan(src, dst, nodes)[i] == mirror_op(
                src,
                dst,
                nodes[i],
            ),
{
    let plan = remove_dir_plan(src, dst, nodes);
    assert forall|i: int| 0 <= i < nodes.len() implies !is_destructive(#[trigger] plan[i])
        && plan[i] == mirror_op(src, dst, nodes[i]) by {
        assert(plan[i] == mirror_ops(src, dst, nodes)[i]);
    }
}

/// The candidate destination name of a clipboard record: a record that
/// lives directly in the trash area has its timestamp tag stripped to
/// recover the pre-deletion name; a plain yanked record keeps its name.
pub open spec fn candidate_name(rec: ItemView, trash_dir: Seq<char>) -> Seq<char> {
    if rec.file_path == join(trash_dir, rec.file_name) {
        strip_stamp(rec.file_name)
    } else {
        rec.file_name
    }
}

/// Computes [`candidate_name`].
pub fn candidate_of(rec: &ItemInfo, trash_dir: &String) -> (r: String)
    ensures
        r@ == candidate_name(rec@, trash_dir@),
{
    let expected = join_path(trash_dir, rec.file_name.as_str());
    if rec.file_path == expected {
        strip_stamp_exec(&rec.file_name)
    } else {
        rec.file_name.clone()
    }
}

/// The paste of one non-directory record: a single copy from wherever
/// the record lives (trash or original place) to the resolved name.
pub open spec fn put_file_ops(rec: ItemView, dest_dir: Seq<char>, resolved: Seq<char>) -> Seq<
    OpView,
> {
    seq![OpView::CopyFile(rec.file_path, join(dest_dir, resolved))]
}

/// The paste of one directory record, walked as `nodes`: its tree is
/// mirrored under the resolved name in the destination.
pub open spec fn put_dir_ops(
    rec: ItemView,
    dest_dir: Seq<char>,
    resolved: Seq<char>,
    nodes: Seq<NodeView>,
) -> Seq<OpView> {
    mirror_ops(rec.file_path, join(dest_dir, resolved), nodes)
}

/// The paste of one record, whatever its kind.
pub open spec fn put_ops(
    rec: ItemView,
    dest_dir: Seq<char>,
    resolved: Seq<char>,
    nodes: Seq<NodeView>,
) -> Seq<OpView> {
    if rec.file_type == FileType::Directory {
        put_dir_ops(rec, dest_dir, resolved, nodes)
    } else {
        put_file_ops(rec, dest_dir, resolved)
    }
}

/// Restoration always copies and never moves: no operation of a paste
/// plan deletes anything, so the source—trash entry or yanked
/// original—is left intact and the same clipboard can be pasted again.
pub proof fn lemma_put_ops_copy_only(
    rec: ItemView,
    dest_dir: Seq<char>,
    resolved: Seq<char>,
    nodes: Seq<NodeView>,
)
    ensures
        forall|i: int|
            0 <= i < put_ops(rec, dest_dir, resolved, nodes).len() ==> !is_destructive(
                #[trigger] put_ops(rec, dest_dir, resolved, nodes)[i],
            ),
{
}

/// Builds the operations that paste one record under its resolved name:
/// exactly [`put_ops`].
pub fn build_put_ops(
    rec: &ItemInfo,
    dest_dir: &String,
    resolved: &String,
    nodes: &Vec<TreeNode>,
) -> (ops: Vec<FsOp>)
    ensures
        op_views(ops@) == put_ops(rec@, dest_dir@, resolved@, node_views(nodes@)),
{
    let target = join_path(dest_dir, resolved.as_str());
    let is_dir = match rec.file_type {
        FileType::Directory => true,
        _ => false,
    };
    if is_dir {
        build_mirror_ops(&rec.file_path, &target, nodes)
    } else {
        let mut ops: Vec<FsOp> = Vec::new();
        ops.push(FsOp::CopyFile(rec.file_path.clone(), target));
        proof {
            assert(op_views(ops@) =~= put_file_ops(rec@, dest_dir@, resolved@));
        }
        ops
    }
}

/// Round trip for a directory: soft-deleting a tree and pasting its
/// clipboard record back into a directory where the original name is
/// still free reproduces the original name and, node for node, the
/// original relative topology under it.
pub proof fn lemma_round_trip_dir(
    item: ItemView,
    nodes: Seq<NodeView>,
    trash_dir: Seq<char>,
    dest_dir: Seq<char>,
    dest_names: Seq<Seq<char>>,
    t: int,
)
    requires
        wf_walk(nodes),
        !in_set(dest_names, item.file_name),
    ensures
        ({
            let stamped = stamp_name(t, item.file_name);
            let rec = trash_record(item, trash_dir, stamped);
            candidate_name(rec, trash_dir) == item.file_name && resolved_from(
                dest_names,
                item.file_name,
                item.file_name,
            ) && forall|j: int|
                0 <= j < nodes.len() ==> #[trigger] put_dir_ops(
                    rec,
                    dest_dir,
                    item.file_name,
                    nodes,
                )[j] == mirror_op(join(trash_dir, stamped), join(dest_dir, item.file_name), nodes[j])
        }),
{
    let stamped = stamp_name(t, item.file_name);
    let rec = trash_record(item, trash_dir, stamped);
    lemma_stamp_strip_roundtrip(t, item.file_name);
    assert(candidate_name(rec, trash_dir) == item.file_name);
    assert forall|j: int| 0 <= j < nodes.len() implies #[trigger] put_dir_ops(
        rec,
        dest_dir,
        item.file_name,
        nodes,
    )[j] == mirror_op(join(trash_dir, stamped), join(dest_dir, item.file_name), nodes[j]) by {
        assert(put_dir_ops(rec, dest_dir, item.file_name, nodes)[j] == mirror_op(
            rec.file_path,
            join(dest_dir, item.file_name),
            nodes[j],
        ));
    }
}

/// Round trip for a file: soft-deleting it and pasting its record back
/// into a directory where its name is still free reproduces an entry
/// with the original name, copied from the trash artifact.
pub proof fn lemma_round_trip_file(
    item: ItemView,
    trash_dir: Seq<char>,
    dest_dir: Seq<char>,
    dest_names: Seq<Seq<char>>,
    t: int,
)
    requires
        !in_set(dest_names, item.file_name),
    ensures
        ({
            let stamped = stamp_name(t, item.file_name);
            let rec = trash_record(item, trash_dir, stamped);
            candidate_name(rec, trash_dir) == item.file_name && resolved_from(
                dest_names,
                item.file_name,
                item.file_name,
            ) && put_file_ops(rec, dest_dir, item.file_name) == seq![
                OpView::CopyFile(join(trash_dir, stamped), join(dest_dir, item.file_name)),
            ]
        }),
{
    let stamped = stamp_name(t, item.file_name);
    lemma_stamp_strip_roundtrip(t, item.file_name);
    assert(put_file_ops(
        trash_record(item, trash_dir, stamped),
        dest_dir,
        item.file_name,
    ) =~= seq![OpView::CopyFile(join(trash_dir, stamped), join(dest_dir, item.file_name))]);
}

} // verus!
