//! The item catalog: listing the simulated folder subtree under the root
//! namespace, collecting the items those folders hold, and grouping items
//! by their directory prefix in first-seen order.

use vstd::prelude::*;
use crate::model::{
    clone_folder, clone_item, folder_views, item_views, FolderV, ItemV, VaultFolder, VaultItem,
    VaultState, spec_find_folder,
};
use crate::resolver::{item_dir, spec_item_dir};
use crate::text::{concat2, sep, starts_with_str, str_eq, str_to_string};
use crate::{spec_root, root_folder_name};

verus! {

/// Is this folder part of the simulated subtree below `root`?  Folders have
/// no parent pointer, so the subtree is exactly the folders whose name is
/// the root or extends it past a separator.
pub open spec fn spec_in_subtree(name: Seq<char>, root: Seq<char>) -> bool {
    name == root || (root + seq![sep()]).is_prefix_of(name)
}

/// The ids of the folders in the subtree below `root`, in listing order.
pub open spec fn spec_subtree_folder_ids(fs: Seq<FolderV>, root: Seq<char>) -> Seq<Seq<char>>
    decreases fs.len(),
{
    if fs.len() == 0 {
        Seq::empty()
    } else {
        spec_subtree_folder_ids(fs.drop_last(), root) + (if spec_in_subtree(
            fs.last().name,
            root,
        ) {
            seq![fs.last().id]
        } else {
            Seq::empty()
        })
    }
}

/// Collect the ids of every folder that belongs to the root-namespace
/// subtree: the folder named exactly `root`, and every folder whose name
/// begins with `root` followed by a separator.
pub fn get_bw_env_related_folders(folders: &Vec<VaultFolder>, root: &str) -> (r: Vec<String>)
    ensures
        r@.map_values(|s: String| s@) == spec_subtree_folder_ids(folder_views(folders@), root@),
{
    let ghost views = folder_views(folders@);
    proof {
        reveal_strlit("/");
    }
    let root_slash = concat2(root, "/");
    proof {
        assert(root@ + seq![sep()] =~= root_slash@);
    }
    let mut r: Vec<String> = Vec::new();
    proof {
        assert(views.take(0) =~= Seq::<FolderV>::empty());
        assert(r@.map_values(|s: String| s@) =~= spec_subtree_folder_ids(views.take(0), root@));
    }
    let mut i: usize = 0;
    while i < folders.len()
        invariant
            views == folder_views(folders@),
            i <= folders.len(),
            r@.map_values(|s: String| s@) == spec_subtree_folder_ids(views.take(i as int), root@),
            root@ + seq![sep()] == root_slash@,
        decreases folders.len() - i,
    {
        let f = &folders[i];
        proof {
            assert(views.take(i + 1).drop_last() =~= views.take(i as int));
            assert(views.take(i + 1).last() == views[i as int]);
        }
        if str_eq(f.name.as_str(), root) || starts_with_str(f.name.as_str(), root_slash.as_str()) {
            r.push(f.id.clone());
            proof {
                assert(r@.map_values(|s: String| s@) =~= spec_subtree_folder_ids(
                    views.take(i as int),
                    root@,
                ) + seq![views[i as int].id]);
            }
        } else {
            proof {
                assert(spec_subtree_folder_ids(views.take(i + 1), root@) =~= spec_subtree_folder_ids(
                    views.take(i as int),
                    root@,
                ));
            }
        }
        i += 1;
    }
    proof {
        assert(views.take(folders@.len() as int) =~= views);
    }
    r
}

/// The items associated to the folder with id `fid`, in listing order.
pub open spec fn spec_items_in_folder(items: Seq<ItemV>, fid: Seq<char>) -> Seq<ItemV>
    decreases items.len(),
{
    if items.len() == 0 {
        Seq::empty()
    } else {
        spec_items_in_folder(items.drop_last(), fid) + (if items.last().folder_id == Some(fid) {
            seq![items.last()]
        } else {
            Seq::empty()
        })
    }
}

/// List the items associated to one folder.
pub fn list_items(items: &Vec<VaultItem>, folder_id: &str) -> (r: Vec<VaultItem>)
    ensures
        item_views(r@) == spec_items_in_folder(item_views(items@), folder_id@),
{
    let ghost views = item_views(items@);
    let mut r: Vec<VaultItem> = Vec::new();
    proof {
        assert(views.take(0) =~= Seq::<ItemV>::empty());
        assert(item_views(r@) =~= spec_items_in_folder(views.take(0), folder_id@));
    }
    let mut i: usize = 0;
    while i < items.len()
        invariant
            views == item_views(items@),
            i <= items.len(),
            item_views(r@) == spec_items_in_folder(views.take(i as int), folder_id@),
        decreases items.len() - i,
    {
        let it = &items[i];
        proof {
            assert(views.take(i + 1).drop_last() =~= views.take(i as int));
            assert(views.take(i + 1).last() == views[i as int]);
        }
        let matches_folder = match &it.folder_id {
            Some(f) => str_eq(f.as_str(), folder_id),
            None => false,
        };
        if matches_folder {
            r.push(clone_item(it));
            proof {
                assert(item_views(r@) =~= spec_items_in_folder(views.take(i as int), folder_id@)
                    + seq![views[i as int]]);
            }
        } else {
            proof {
                assert(spec_items_in_folder(views.take(i + 1), folder_id@)
                    =~= spec_items_in_folder(views.take(i as int), folder_id@));
            }
        }
        i += 1;
    }
    proof {
        assert(views.take(items@.len() as int) =~= views);
    }
    r
}

/// The items of a folder subtree: folder by folder in listing order, each
/// folder's items in listing order.
pub open spec fn spec_subtree_items(items: Seq<ItemV>, fids: Seq<Seq<char>>) -> Seq<ItemV>
    decreases fids.len(),
{
    if fids.len() == 0 {
        Seq::empty()
    } else {
        spec_subtree_items(items, fids.drop_last()) + spec_items_in_folder(items, fids.last())
    }
}

/// List every item stored anywhere in the root-namespace subtree, folder by
/// folder.
pub fn get_all_items_in_subtree(state: &VaultState) -> (r: Vec<VaultItem>)
    ensures
        item_views(r@) == spec_subtree_items(
            item_views(state.items@),
            spec_subtree_folder_ids(folder_views(state.folders@), spec_root()),
        ),
{
    let fids = get_bw_env_related_folders(&state.folders, root_folder_name());
    let ghost fid_views = fids@.map_values(|s: String| s@);
    let ghost iviews = item_views(state.items@);
    let mut r: Vec<VaultItem> = Vec::new();
    proof {
        assert(fid_views.take(0) =~= Seq::<Seq<char>>::empty());
        assert(item_views(r@) =~= spec_subtree_items(iviews, fid_views.take(0)));
    }
    let mut i: usize = 0;
    while i < fids.len()
        invariant
            fid_views == fids@.map_values(|s: String| s@),
            iviews == item_views(state.items@),
            i <= fids.len(),
            item_views(r@) == spec_subtree_items(iviews, fid_views.take(i as int)),
        decreases fids.len() - i,
    {
        proof {
            assert(fid_views.take(i + 1).drop_last() =~= fid_views.take(i as int));
            assert(fid_views.take(i + 1).last() == fid_views[i as int]);
        }
        let mut chunk = list_items(&state.items, fids[i].as_str());
        let ghost chunk_views = item_views(chunk@);
        r.append(&mut chunk);
        proof {
            assert(item_views(r@) =~= spec_subtree_items(iviews, fid_views.take(i as int))
                + chunk_views);
        }
        i += 1;
    }
    proof {
        assert(fid_views.take(fids@.len() as int) =~= fid_views);
    }
    r
}

/// The first folder in the listing with the given id.
pub open spec fn spec_find_folder_by_id(fs: Seq<FolderV>, id: Seq<char>) -> Option<FolderV>
    decreases fs.len(),
{
    if fs.len() == 0 {
        None
    } else if fs.first().id == id {
        Some(fs.first())
    } else {
        spec_find_folder_by_id(fs.drop_first(), id)
    }
}

/// Find a folder by id; the first match wins.
pub fn find_folder_by_id(folders: &Vec<VaultFolder>, id: &str) -> (r: Option<VaultFolder>)
    ensures
        r is Some <==> spec_find_folder_by_id(folder_views(folders@), id@) is Some,
        r is Some ==> r->0@ == spec_find_folder_by_id(folder_views(folders@), id@)->0,
{
    let ghost views = folder_views(folders@);
    proof {
        assert(views.skip(0) =~= views);
    }
    let mut i: usize = 0;
    while i < folders.len()
        invariant
            views == folder_views(folders@),
            i <= folders.len(),
            spec_find_folder_by_id(views, id@) == spec_find_folder_by_id(
                views.skip(i as int),
                id@,
            ),
        decreases folders.len() - i,
    {
        proof {
            assert(views.skip(i as int).first() == views[i as int]);
            assert(views.skip(i as int).drop_first() =~= views.skip(i + 1));
        }
        let f = &folders[i];
        if str_eq(f.id.as_str(), id) {
            return Some(clone_folder(f));
        }
        i += 1;
    }
    proof {
        assert(views.skip(folders@.len() as int) =~= Seq::<FolderV>::empty());
    }
    None
}

/// The folder name and folder id displayed for an item: the item's own
/// folder when the listing resolves it; the root name with the unresolved
/// id when it does not; for an item with no folder association, the root
/// name with the root folder's id, or a fixed placeholder when even the
/// root folder is missing.
pub open spec fn spec_folder_info(fs: Seq<FolderV>, it: ItemV) -> (Seq<char>, Seq<char>) {
    match it.folder_id {
        Some(fid) => match spec_find_folder_by_id(fs, fid) {
            Some(f) => (f.name, fid),
            None => (spec_root(), fid),
        },
        None => (
            spec_root(),
            match spec_find_folder(fs, spec_root()) {
                Some(id) => id,
                None => "unknown"@,
            },
        ),
    }
}

/// Resolve the folder name and folder id under which an item is displayed.
pub fn get_folder_info(item: &VaultItem, folders: &Vec<VaultFolder>) -> (r: (String, String))
    ensures
        r.0@ == spec_folder_info(folder_views(folders@), item@).0,
        r.1@ == spec_folder_info(folder_views(folders@), item@).1,
{
    match &item.folder_id {
        Some(fid) => {
            match find_folder_by_id(folders, fid.as_str()) {
                Some(f) => (f.name, fid.clone()),
                None => (str_to_string(root_folder_name()), fid.clone()),
            }
        },
        None => {
            let id = match crate::model::find_folder_by_name(folders, root_folder_name()) {
                Some(id) => id,
                None => str_to_string("unknown"),
            };
            (str_to_string(root_folder_name()), id)
        },
    }
}

/// The browser link under which an item can be inspected in the vault.
pub fn vault_item_url(folder_id: &str, item_id: &str) -> (r: String)
    ensures
        r@ == "https://vault.bitwarden.com/#/vault?folderId="@ + folder_id@ + "&itemId="@
            + item_id@ + "&action=view"@,
{
    let mut s = concat2("https://vault.bitwarden.com/#/vault?folderId=", folder_id);
    s.append("&itemId=");
    s.append(item_id);
    s.append("&action=view");
    s
}

/// One directory-prefix group: the prefix and the indices (into the flat
/// item list) of the items under it, in first-seen order.
pub struct DirGroup {
    pub dir: String,
    pub indices: Vec<usize>,
}

/// The mathematical view of a group.
#[verifier::ext_equal]
pub struct GroupV {
    pub dir: Seq<char>,
    pub indices: Seq<int>,
}

impl View for DirGroup {
    type V = GroupV;

    open spec fn view(&self) -> GroupV {
        GroupV { dir: self.dir@, indices: self.indices@.map_values(|u: usize| u as int) }
    }
}

/// The views of a group list.
pub open spec fn group_views(gs: Seq<DirGroup>) -> Seq<GroupV> {
    gs.map_values(|g: DirGroup| g@)
}

/// The names of an item list.
pub open spec fn item_names(items: Seq<ItemV>) -> Seq<Seq<char>> {
    items.map_values(|it: ItemV| it.name)
}

/// The position of the group for directory `d`, or `-1` when none exists.
pub open spec fn group_index_of(gs: Seq<GroupV>, d: Seq<char>) -> int
    decreases gs.len(),
{
    if gs.len() == 0 {
        -1
    } else if gs.first().dir == d {
        0
    } else {
        let r = group_index_of(gs.drop_first(), d);
        if r == -1 {
            -1
        } else {
            r + 1
        }
    }
}

/// `group_index_of` names the first group with the sought directory.
pub proof fn lemma_group_index_of(gs: Seq<GroupV>, d: Seq<char>)
    ensures
        -1 <= group_index_of(gs, d) < gs.len(),
        group_index_of(gs, d) >= 0 ==> gs[group_index_of(gs, d)].dir == d && forall|k: int|
            0 <= k < group_index_of(gs, d) ==> (#[trigger] gs[k]).dir != d,
        group_index_of(gs, d) == -1 ==> forall|k: int|
            0 <= k < gs.len() ==> (#[trigger] gs[k]).dir != d,
    decreases gs.len(),
{
    if gs.len() > 0 && gs.first().dir != d {
        lemma_group_index_of(gs.drop_first(), d);
        let r = group_index_of(gs.drop_first(), d);
        if r >= 0 {
            assert(gs[r + 1].dir == d) by {
                assert(gs.drop_first()[r] == gs[r + 1]);
            }
            assert forall|k: int| 0 <= k < r + 1 implies (#[trigger] gs[k]).dir != d by {
                if k > 0 {
                    assert(gs.drop_first()[k - 1] == gs[k]);
                }
            }
        } else {
            assert forall|k: int| 0 <= k < gs.len() implies (#[trigger] gs[k]).dir != d by {
                if k > 0 {
                    assert(gs.drop_first()[k - 1] == gs[k]);
                }
            }
        }
    }
}

/// The groups over the first `n` items: built in first-seen order over the
/// flat list, each group collecting the indices of the items that share its
/// directory prefix.
pub open spec fn spec_groups_up_to(names: Seq<Seq<char>>, n: int) -> Seq<GroupV>
    decreases n,
{
    if n <= 0 {
        Seq::empty()
    } else {
        let gs = spec_groups_up_to(names, n - 1);
        match spec_item_dir(names[n - 1]) {
            None => gs,
            Some(d) => {
                let j = group_index_of(gs, d);
                if j >= 0 {
                    gs.update(j, GroupV { dir: d, indices: gs[j].indices.push(n - 1) })
                } else {
                    gs.push(GroupV { dir: d, indices: seq![n - 1] })
                }
            },
        }
    }
}

/// The directory-prefix groups of an item list, in first-seen order.
pub open spec fn spec_groups(names: Seq<Seq<char>>) -> Seq<GroupV> {
    spec_groups_up_to(names, names.len() as int)
}

/// Group items by their directory prefix: an item whose name has no
/// directory prefix joins no group; the others join the group of their
/// prefix, groups ordered by first appearance and indices in listing order.
pub fn group_items_by_dir(items: &Vec<VaultItem>) -> (r: Vec<DirGroup>)
    ensures
        group_views(r@) == spec_groups(item_names(item_views(items@))),
{
    let ghost names = item_names(item_views(items@));
    let mut r: Vec<DirGroup> = Vec::new();
    proof {
        assert(group_views(r@) =~= spec_groups_up_to(names, 0));
    }
    let mut i: usize = 0;
    while i < items.len()
        invariant
            names == item_names(item_views(items@)),
            i <= items.len(),
            group_views(r@) == spec_groups_up_to(names, i as int),
        decreases items.len() - i,
    {
        let it = &items[i];
        proof {
            assert(names[i as int] == it.name@);
        }
        match item_dir(it.name.as_str()) {
            None => {},
            Some(d) => {
                proof {
                    lemma_group_index_of(group_views(r@), d@);
                }
                let mut j: usize = 0;
                while j < r.len() && !str_eq(r[j].dir.as_str(), d.as_str())
                    invariant
                        0 <= j <= r.len(),
                        forall|k: int| 0 <= k < j ==> (#[trigger] group_views(r@)[k]).dir
                            != d@,
                    decreases r.len() - j,
                {
                    j += 1;
                }
                let found = j < r.len();
                if found {
                    // Append this index to the existing group for `d`.
                    proof {
                        assert(group_index_of(group_views(r@), d@) == j as int);
                    }
                    let mut g = r.remove(j);
                    g.indices.push(i);
                    let ghost gv = GroupV {
                        dir: d@,
                        indices: spec_groups_up_to(names, i as int)[j as int].indices.push(
                            i as int,
                        ),
                    };
                    proof {
                        assert(g@.indices =~= gv.indices);
                        assert(g@ == gv);
                    }
                    r.insert(j, g);
                    proof {
                        assert(group_views(r@) =~= spec_groups_up_to(names, i as int).update(
                            j as int,
                            gv,
                        ));
                    }
                } else {
                    proof {
                        assert(group_index_of(group_views(r@), d@) == -1);
                    }
                    let mut idxs: Vec<usize> = Vec::new();
                    idxs.push(i);
                    let g = DirGroup { dir: d, indices: idxs };
                    proof {
                        assert(g@.indices =~= seq![i as int]);
                    }
                    r.push(g);
                    proof {
                        assert(group_views(r@) =~= spec_groups_up_to(names, i as int).push(g@));
                    }
                }
            },
        }
        i += 1;
    }
    proof {
        assert(spec_groups(names) == spec_groups_up_to(names, items@.len() as int));
    }
    r
}

} // verus!
