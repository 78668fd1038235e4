//! The ordering policy: directories grouped before files and symlinks,
//! and within each group a natural-order sort by name, or newest-first by
//! modification time with absent times counting as oldest and ties broken
//! by name.

use vstd::prelude::*;
use vstd::seq_lib::lemma_multiset_commutative;
use vstd::string::*;
use crate::item::{FileType, ItemInfo, ItemView, SortKey};

verus! {

/// Names the verdict of natord's natural-order comparison:
/// `natural_le(a, b)` holds when `a` sorts at or before `b`.
pub uninterp spec fn natural_le(a: Seq<char>, b: Seq<char>) -> bool;

/// Relies on natord::compare: a deterministic natural-order comparison of
/// two strings in which runs of digits compare by numeric value.
/// `natural_le(a, b)` names `compare(a, b) != Greater`; `compare` is a
/// total comparator (`compare(a, b) == Greater` exactly when
/// `compare(b, a) == Less`), which the second clause states.
#[verifier::external_body]
fn natural_le_exec(a: &str, b: &str) -> (r: bool)
    ensures
        r == natural_le(a@, b@),
        !r ==> natural_le(b@, a@),
{
    match natord::compare(a, b) {
        core::cmp::Ordering::Less => true,
        core::cmp::Ordering::Equal => true,
        core::cmp::Ordering::Greater => false,
    }
}

/// The time an entry sorts by: absent timestamps count as older than
/// every present one.
pub open spec fn time_key(m: Option<i64>) -> int {
    match m {
        Some(t) => t as int,
        None => i64::MIN - 1,
    }
}

/// Whether `a` sorts at or before `b` under `key`, within one group:
/// by natural name order, or newest first with ties broken by name.
pub open spec fn item_le(a: ItemView, b: ItemView, key: SortKey) -> bool {
    match key {
        SortKey::Name => natural_le(a.file_name, b.file_name),
        SortKey::Time => time_key(a.modified) > time_key(b.modified) || (time_key(a.modified)
            == time_key(b.modified) && natural_le(a.file_name, b.file_name)),
    }
}

fn item_le_exec(a: &ItemInfo, b: &ItemInfo, key: SortKey) -> (r: bool)
    ensures
        r == item_le(a@, b@, key),
        !r ==> item_le(b@, a@, key),
{
    match key {
        SortKey::Name => natural_le_exec(a.file_name.as_str(), b.file_name.as_str()),
        SortKey::Time => match (a.modified, b.modified) {
            (Some(x), Some(y)) => {
                if x > y {
                    true
                } else if x < y {
                    false
                } else {
                    natural_le_exec(a.file_name.as_str(), b.file_name.as_str())
                }
            },
            (Some(_), None) => true,
            (None, Some(_)) => false,
            (None, None) => natural_le_exec(a.file_name.as_str(), b.file_name.as_str()),
        },
    }
}

/// The mathematical values of a run of entries.
pub open spec fn views(s: Seq<ItemInfo>) -> Seq<ItemView> {
    s.map_values(|x: ItemInfo| x@)
}

proof fn lemma_views_add(a: Seq<ItemInfo>, b: Seq<ItemInfo>)
    ensures
        views(a + b) == views(a) + views(b),
{
    assert(views(a + b) =~= views(a) + views(b));
}

/// Every adjacent pair is ordered under `key`.
pub open spec fn sorted_by(s: Seq<ItemView>, key: SortKey) -> bool {
    forall|i: int| 0 <= i < s.len() - 1 ==> #[trigger] item_le(s[i], s[i + 1], key)
}

/// Directories stand before everything else: no directory follows a
/// non-directory.
pub open spec fn dirs_first(s: Seq<ItemView>) -> bool {
    forall|i: int, j: int|
        0 <= i < j < s.len() && (#[trigger] s[j]).file_type == FileType::Directory ==> (
        #[trigger] s[i]).file_type == FileType::Directory
}

fn find_insert_pos(out: &Vec<ItemInfo>, x: &ItemInfo, key: SortKey) -> (p: usize)
    ensures
        p <= out@.len(),
        forall|i: int| 0 <= i < p ==> item_le(#[trigger] views(out@)[i], x@, key),
        p < out@.len() ==> item_le(x@, views(out@)[p as int], key),
{
    let mut p: usize = 0;
    while p < out.len()
        invariant
            p <= out@.len(),
            forall|i: int| 0 <= i < p ==> item_le(#[trigger] views(out@)[i], x@, key),
        decreases out@.len() - p,
    {
        if !item_le_exec(&out[p], x, key) {
            return p;
        }
        p = p + 1;
    }
    p
}

fn insert_sorted(out: &mut Vec<ItemInfo>, x: ItemInfo, key: SortKey)
    requires
        sorted_by(views(old(out)@), key),
    ensures
        final(out)@.len() == old(out)@.len() + 1,
        sorted_by(views(final(out)@), key),
        views(final(out)@).to_multiset() == views(old(out)@).to_multiset().insert(x@),
{
    let ghost before = views(out@);
    let p = find_insert_pos(out, &x, key);
    out.insert(p, x);
    proof {
        let after = views(out@);
        assert(after =~= before.insert(p as int, x@));
        before.insert_ensures(p as int, x@);
        assert(sorted_by(after, key)) by {
            assert forall|i: int| 0 <= i < after.len() - 1 implies #[trigger] item_le(
                after[i],
                after[i + 1],
                key,
            ) by {
                if i + 1 < p {
                    assert(after[i] == before[i]);
                    assert(after[i + 1] == before[i + 1]);
                } else if i + 1 == p {
                    assert(after[i] == before[i]);
                    assert(after[i + 1] == x@);
                } else if i == p {
                    assert(after[i] == x@);
                    assert(after[i + 1] == before[i]);
                } else {
                    assert(after[i] == before[i - 1]);
                    assert(after[i + 1] == before[i]);
                }
            }
        }
        assert(after.to_multiset() == before.to_multiset().insert(x@)) by {
            let head = before.subrange(0, p as int);
            let tail = before.subrange(p as int, before.len() as int);
            assert(after =~= head.push(x@) + tail);
            assert(head + tail =~= before);
            lemma_multiset_commutative(head.push(x@), tail);
            lemma_multiset_commutative(head, tail);
            head.to_multiset_ensures();
            assert(head.push(x@).to_multiset() =~= head.to_multiset().insert(x@));
            assert(after.to_multiset() =~= before.to_multiset().insert(x@));
        }
    }
}

/// Sorts one group of entries under `key`: the result is ordered and is a
/// rearrangement of the input.
pub fn sort_items(v: Vec<ItemInfo>, key: SortKey) -> (r: Vec<ItemInfo>)
    ensures
        r@.len() == v@.len(),
        sorted_by(views(r@), key),
        views(r@).to_multiset() == views(v@).to_multiset(),
{
    let mut out: Vec<ItemInfo> = Vec::new();
    let mut idx: usize = 0;
    proof {
        views(v@).to_multiset_ensures();
        assert(views(v@.subrange(0, 0)) =~= Seq::<ItemView>::empty());
        assert(views(out@) =~= Seq::<ItemView>::empty());
        Seq::<ItemView>::empty().to_multiset_ensures();
    }
    while idx < v.len()
        invariant
            idx <= v@.len(),
            out@.len() == idx,
            sorted_by(views(out@), key),
            views(out@).to_multiset() == views(v@.subrange(0, idx as int)).to_multiset(),
        decreases v@.len() - idx,
    {
        let ghost prefix = views(v@.subrange(0, idx as int));
        let x = v[idx].clone();
        insert_sorted(&mut out, x, key);
        proof {
            let next = views(v@.subrange(0, idx + 1 as int));
            assert(next =~= prefix.push(v@[idx as int]@));
            prefix.to_multiset_ensures();
            assert(next.to_multiset() =~= prefix.to_multiset().insert(v@[idx as int]@));
        }
        idx = idx + 1;
    }
    proof {
        assert(v@.subrange(0, v@.len() as int) =~= v@);
    }
    out
}

/// Within each of the two groups, adjacent entries are ordered under
/// `key`; the pair at the group boundary is exempt.
pub open spec fn grouped_sorted(s: Seq<ItemView>, key: SortKey) -> bool {
    forall|i: int|
        0 <= i < s.len() - 1 && (s[i].file_type == FileType::Directory <==> s[i
            + 1].file_type == FileType::Directory) ==> #[trigger] item_le(s[i], s[i + 1], key)
}

fn split_groups(v: Vec<ItemInfo>) -> (r: (Vec<ItemInfo>, Vec<ItemInfo>))
    ensures
        r.0@.len() + r.1@.len() == v@.len(),
        forall|i: int|
            0 <= i < r.0@.len() ==> (#[trigger] views(r.0@)[i]).file_type == FileType::Directory,
        forall|i: int|
            0 <= i < r.1@.len() ==> (#[trigger] views(r.1@)[i]).file_type != FileType::Directory,
        views(r.0@).to_multiset().add(views(r.1@).to_multiset()) == views(v@).to_multiset(),
{
    let mut dir_v: Vec<ItemInfo> = Vec::new();
    let mut file_v: Vec<ItemInfo> = Vec::new();
    let mut idx: usize = 0;
    proof {
        assert(views(v@.subrange(0, 0)) =~= Seq::<ItemView>::empty());
        assert(views(dir_v@) =~= Seq::<ItemView>::empty());
        assert(views(file_v@) =~= Seq::<ItemView>::empty());
        Seq::<ItemView>::empty().to_multiset_ensures();
        broadcast use vstd::multiset::group_multiset_axioms;
    }
    while idx < v.len()
        invariant
            idx <= v@.len(),
            dir_v@.len() + file_v@.len() == idx,
            forall|i: int|
                0 <= i < dir_v@.len() ==> (#[trigger] views(dir_v@)[i]).file_type
                    == FileType::Directory,
            forall|i: int|
                0 <= i < file_v@.len() ==> (#[trigger] views(file_v@)[i]).file_type
                    != FileType::Directory,
            views(dir_v@).to_multiset().add(views(file_v@).to_multiset()) == views(
                v@.subrange(0, idx as int),
            ).to_multiset(),
        decreases v@.len() - idx,
    {
        let ghost prefix = views(v@.subrange(0, idx as int));
        let ghost dv = views(dir_v@);
        let ghost fv = views(file_v@);
        let x = v[idx].clone();
        let is_dir = match x.file_type {
            FileType::Directory => true,
            _ => false,
        };
        if is_dir {
            dir_v.push(x);
            proof {
                assert(views(dir_v@) =~= dv.push(v@[idx as int]@));
                dv.to_multiset_ensures();
            }
        } else {
            file_v.push(x);
            proof {
                assert(views(file_v@) =~= fv.push(v@[idx as int]@));
                fv.to_multiset_ensures();
            }
        }
        proof {
            let next = views(v@.subrange(0, idx + 1 as int));
            assert(next =~= prefix.push(v@[idx as int]@));
            prefix.to_multiset_ensures();
            broadcast use vstd::multiset::group_multiset_axioms;

            assert(views(dir_v@).to_multiset().add(views(file_v@).to_multiset())
                =~= next.to_multiset());
        }
        idx = idx + 1;
    }
    proof {
        assert(v@.subrange(0, v@.len() as int) =~= v@);
    }
    (dir_v, file_v)
}

proof fn lemma_group_membership(s: Seq<ItemView>, orig: Seq<ItemView>, is_dir_group: bool)
    requires
        s.to_multiset() == orig.to_multiset(),
        forall|i: int|
            0 <= i < orig.len() ==> ((#[trigger] orig[i]).file_type == FileType::Directory)
                == is_dir_group,
    ensures
        forall|i: int|
            0 <= i < s.len() ==> ((#[trigger] s[i]).file_type == FileType::Directory)
                == is_dir_group,
{
    broadcast use vstd::multiset::group_multiset_axioms;

    assert forall|i: int| 0 <= i < s.len() implies ((#[trigger] s[i]).file_type
        == FileType::Directory) == is_dir_group by {
        let x = s[i];
        s.to_multiset_ensures();
        orig.to_multiset_ensures();
        assert(s.contains(x));
        assert(orig.to_multiset().count(x) > 0);
        assert(orig.contains(x));
        let j = choose|j: int| 0 <= j < orig.len() && orig[j] == x;
        assert((orig[j].file_type == FileType::Directory) == is_dir_group);
    }
}

#[verifier::rlimit(80)]
proof fn lemma_concat_groups(dsv: Seq<ItemView>, fsv: Seq<ItemView>, key: SortKey)
    requires
        sorted_by(dsv, key),
        sorted_by(fsv, key),
        forall|i: int|
            0 <= i < dsv.len() ==> (#[trigger] dsv[i]).file_type == FileType::Directory,
        forall|i: int|
            0 <= i < fsv.len() ==> (#[trigger] fsv[i]).file_type != FileType::Directory,
    ensures
        dirs_first(dsv + fsv),
        grouped_sorted(dsv + fsv, key),
{
    let rv = dsv + fsv;
    let d = dsv.len() as int;
    assert(forall|i: int|
        0 <= i < rv.len() ==> ((#[trigger] rv[i]).file_type == FileType::Directory <==> i < d));
    assert forall|i: int|
        0 <= i < rv.len() - 1 && (rv[i].file_type == FileType::Directory <==> rv[i
            + 1].file_type == FileType::Directory) implies #[trigger] item_le(rv[i], rv[i + 1], key) by {
        if i + 1 < d {
            assert(rv[i] == dsv[i]);
            assert(rv[i + 1] == dsv[i + 1]);
            assert(item_le(dsv[i], dsv[i + 1], key));
        } else if i >= d {
            let k = i - d;
            assert(rv[i] == fsv[k]);
            assert(rv[i + 1] == fsv[k + 1]);
            assert(item_le(fsv[k], fsv[k + 1], key));
        }
    }
}

fn arrange(dir_v: Vec<ItemInfo>, file_v: Vec<ItemInfo>, key: SortKey) -> (r: Vec<ItemInfo>)
    requires
        forall|i: int|
            0 <= i < dir_v@.len() ==> (#[trigger] views(dir_v@)[i]).file_type
                == FileType::Directory,
        forall|i: int|
            0 <= i < file_v@.len() ==> (#[trigger] views(file_v@)[i]).file_type
                != FileType::Directory,
    ensures
        r@.len() == dir_v@.len() + file_v@.len(),
        dirs_first(views(r@)),
        grouped_sorted(views(r@), key),
        views(r@).to_multiset() == views(dir_v@).to_multiset().add(
            views(file_v@).to_multiset(),
        ),
{
    let ghost dvv = views(dir_v@);
    let ghost fvv = views(file_v@);
    let dir_sorted = sort_items(dir_v, key);
    let file_sorted = sort_items(file_v, key);
    let ghost dsv = views(dir_sorted@);
    let ghost fsv = views(file_sorted@);
    let ghost ds = dir_sorted@;
    let ghost fs = file_sorted@;
    let mut result = dir_sorted;
    let mut file_sorted = file_sorted;
    result.append(&mut file_sorted);
    proof {
        lemma_views_add(ds, fs);
        lemma_group_membership(dsv, dvv, true);
        lemma_group_membership(fsv, fvv, false);
        lemma_concat_groups(dsv, fsv, key);
        lemma_multiset_commutative(dsv, fsv);
    }
    result
}

/// Splits scanned entries into the directory group and the rest, sorts
/// each group under `key`, and returns directories first.  The catalog
/// invariant: directories precede files and symlinks whatever the key,
/// each group is ordered, and nothing is lost or invented.
#[verifier::rlimit(100)]
pub fn push_items(v: Vec<ItemInfo>, key: SortKey) -> (r: Vec<ItemInfo>)
    ensures
        r@.len() == v@.len(),
        dirs_first(views(r@)),
        grouped_sorted(views(r@), key),
        views(r@).to_multiset() == views(v@).to_multiset(),
{
    let (dir_v, file_v) = split_groups(v);
    arrange(dir_v, file_v, key)
}


/// The synthetic parent-pointer entry: a directory named `"../"` whose
/// path is the parent directory, carrying no metadata.
pub open spec fn parent_item(p: Seq<char>) -> ItemView {
    ItemView {
        file_type: FileType::Directory,
        file_name: seq!['.', '.', '/'],
        file_path: p,
        file_size: 0,
        file_ext: None,
        modified: None,
        selected: false,
    }
}

/// Builds the parent-pointer entry for the parent directory `p`.
pub fn make_parent_dir(p: String) -> (r: ItemInfo)
    ensures
        r@ == parent_item(p@),
{
    proof {
        reveal_strlit("../");
    }
    let name = "../".to_owned();
    assert(name@ =~= seq!['.', '.', '/']);
    ItemInfo {
        file_type: FileType::Directory,
        file_name: name,
        file_path: p,
        file_size: 0,
        file_ext: None,
        modified: None,
        selected: false,
    }
}

/// Builds the whole catalog for one directory: the parent-pointer entry
/// first when the directory has a parent, then the scanned entries with
/// directories grouped before files and each group ordered under `key`.
pub fn push_entries(parent: Option<String>, v: Vec<ItemInfo>, key: SortKey) -> (r: Vec<ItemInfo>)
    ensures
        ({
            let body = if parent is Some {
                views(r@).subrange(1, r@.len() as int)
            } else {
                views(r@)
            };
            &&& parent matches Some(p) ==> r@.len() == v@.len() + 1 && views(r@)[0]
                == parent_item(p@)
            &&& parent is None ==> r@.len() == v@.len()
            &&& dirs_first(views(r@))
            &&& grouped_sorted(body, key)
            &&& body.to_multiset() == views(v@).to_multiset()
        }),
{
    match parent {
        Some(p) => {
            let mut out: Vec<ItemInfo> = Vec::new();
            out.push(make_parent_dir(p));
            let ghost head = views(out@);
            let rest = push_items(v, key);
            let ghost rv = views(rest@);
            let mut rest = rest;
            out.append(&mut rest);
            proof {
                assert(views(out@) =~= head + rv);
                let all = views(out@);
                assert(all[0] == parent_item(p@));
                assert(all.subrange(1, all.len() as int) =~= rv);
                assert forall|i: int, j: int|
                    0 <= i < j < all.len() && (#[trigger] all[j]).file_type
                        == FileType::Directory implies (#[trigger] all[i]).file_type
                    == FileType::Directory by {
                    if i > 0 {
                        assert(all[i] == rv[i - 1]);
                        assert(all[j] == rv[j - 1]);
                    }
                }
            }
            out
        },
        None => push_items(v, key),
    }
}

} // verus!
