//! The vault's data model as this system sees it: folders whose names encode
//! a whole path (the vault has no native nesting), items holding free-text
//! content, and an in-memory vault state against which the hierarchy and
//! store logic is stated and exercised.

use vstd::prelude::*;
use crate::text::{concat2, dec_str, str_eq, str_to_string, u64_to_string};

verus! {

/// A vault folder: an opaque identifier and a globally unique name that
/// encodes the folder's entire path.
pub struct VaultFolder {
    pub id: String,
    pub name: String,
}

/// The mathematical view of a folder.
#[verifier::ext_equal]
pub struct FolderV {
    pub id: Seq<char>,
    pub name: Seq<char>,
}

impl View for VaultFolder {
    type V = FolderV;

    open spec fn view(&self) -> FolderV {
        FolderV { id: self.id@, name: self.name@ }
    }
}

/// A stored item: a name that may embed path separators, free-text content,
/// and an optional association to a folder.
pub struct VaultItem {
    pub id: String,
    pub name: String,
    pub content: String,
    pub folder_id: Option<String>,
}

/// The mathematical view of an item.
#[verifier::ext_equal]
pub struct ItemV {
    pub id: Seq<char>,
    pub name: Seq<char>,
    pub content: Seq<char>,
    pub folder_id: Option<Seq<char>>,
}

impl View for VaultItem {
    type V = ItemV;

    open spec fn view(&self) -> ItemV {
        ItemV {
            id: self.id@,
            name: self.name@,
            content: self.content@,
            folder_id: match self.folder_id {
                Some(ref s) => Some(s@),
                None => None,
            },
        }
    }
}

/// The views of a folder list.
pub open spec fn folder_views(folders: Seq<VaultFolder>) -> Seq<FolderV> {
    folders.map_values(|f: VaultFolder| f@)
}

/// The views of an item list.
pub open spec fn item_views(items: Seq<VaultItem>) -> Seq<ItemV> {
    items.map_values(|i: VaultItem| i@)
}

/// Copy an item field by field.
pub fn clone_item(it: &VaultItem) -> (r: VaultItem)
    ensures
        r@ == it@,
{
    VaultItem {
        id: it.id.clone(),
        name: it.name.clone(),
        content: it.content.clone(),
        folder_id: match &it.folder_id {
            Some(s) => Some(s.clone()),
            None => None,
        },
    }
}

/// Copy a folder field by field.
pub fn clone_folder(f: &VaultFolder) -> (r: VaultFolder)
    ensures
        r@ == f@,
{
    VaultFolder { id: f.id.clone(), name: f.name.clone() }
}

/// The id of the first folder in the listing whose name equals `name`.
pub open spec fn spec_find_folder(folders: Seq<FolderV>, name: Seq<char>) -> Option<Seq<char>>
    decreases folders.len(),
{
    if folders.len() == 0 {
        None
    } else if folders.first().name == name {
        Some(folders.first().id)
    } else {
        spec_find_folder(folders.drop_first(), name)
    }
}

/// Find a folder by exact name over a current folder listing and return its
/// id; the first match wins, as the listing order is the vault's.
pub fn find_folder_by_name(folders: &Vec<VaultFolder>, name: &str) -> (r: Option<String>)
    ensures
        r is Some <==> spec_find_folder(folder_views(folders@), name@) is Some,
        r is Some ==> r->0@ == spec_find_folder(folder_views(folders@), name@)->0,
{
    let ghost views = folder_views(folders@);
    proof {
        assert(views.skip(0) =~= views);
    }
    let mut i: usize = 0;
    while i < folders.len()
        invariant
            views == folder_views(folders@),
            i <= folders.len(),
            spec_find_folder(views, name@) == spec_find_folder(views.skip(i as int), name@),
        decreases folders.len() - i,
    {
        proof {
            assert(views.skip(i as int).first() == views[i as int]);
            assert(views.skip(i as int).drop_first() =~= views.skip(i + 1));
        }
        let f = &folders[i];
        if str_eq(f.name.as_str(), name) {
            return Some(f.id.clone());
        }
        i += 1;
    }
    proof {
        assert(views.skip(folders@.len() as int) =~= Seq::<FolderV>::empty());
    }
    None
}

/// The in-memory vault state the core logic is stated against.  The real
/// vault lives behind an external client; this state mirrors exactly what
/// the logic reads of it: the folder listing and the item listing, plus a
/// count of the folder-creation calls issued so far.  Identifiers are
/// minted deterministically here; no logic depends on their shape, as the
/// external vault assigns opaque ones.
pub struct VaultState {
    pub folders: Vec<VaultFolder>,
    pub items: Vec<VaultItem>,
    pub creations: u64,
}

/// The id minted for a folder created with the given name.
pub open spec fn spec_mint_folder_id(name: Seq<char>) -> Seq<char> {
    "fld:"@ + name
}

/// The id minted for the `n`-th item created.
pub open spec fn spec_mint_item_id(n: nat) -> Seq<char> {
    "itm:"@ + dec_str(n)
}

impl VaultState {
    /// A fresh vault with no folders and no items.
    pub fn new() -> (r: VaultState)
        ensures
            folder_views(r.folders@) == Seq::<FolderV>::empty(),
            item_views(r.items@) == Seq::<ItemV>::empty(),
            r.creations == 0,
    {
        let r = VaultState { folders: Vec::new(), items: Vec::new(), creations: 0 };
        proof {
            assert(folder_views(r.folders@) =~= Seq::<FolderV>::empty());
            assert(item_views(r.items@) =~= Seq::<ItemV>::empty());
        }
        r
    }

    /// Create a folder with the given name, appending it to the listing and
    /// counting the creation call.
    pub fn create_folder(&mut self, name: &str) -> (r: String)
        requires
            old(self).creations < u64::MAX,
        ensures
            r@ == spec_mint_folder_id(name@),
            folder_views(final(self).folders@) == folder_views(old(self).folders@).push(
                FolderV { id: spec_mint_folder_id(name@), name: name@ },
            ),
            final(self).items == old(self).items,
            final(self).creations == old(self).creations + 1,
    {
        proof {
            reveal_strlit("fld:");
        }
        let id = concat2("fld:", name);
        let folder = VaultFolder { id: id.clone(), name: str_to_string(name) };
        self.folders.push(folder);
        self.creations = self.creations + 1;
        proof {
            assert(folder_views(self.folders@) =~= folder_views(old(self).folders@).push(
                FolderV { id: spec_mint_folder_id(name@), name: name@ },
            ));
        }
        id
    }

    /// Create an item, appending it to the listing; duplicate names are
    /// permitted, as the vault enforces no per-path uniqueness.
    pub fn create_item(&mut self, name: &str, content: &str, folder_id: Option<&str>) -> (r:
        String)
        ensures
            r@ == spec_mint_item_id(old(self).items@.len() as nat),
            item_views(final(self).items@) == item_views(old(self).items@).push(
                ItemV {
                    id: spec_mint_item_id(old(self).items@.len() as nat),
                    name: name@,
                    content: content@,
                    folder_id: match folder_id {
                        Some(f) => Some(f@),
                        None => None,
                    },
                },
            ),
            final(self).folders == old(self).folders,
            final(self).creations == old(self).creations,
    {
        proof {
            reveal_strlit("itm:");
        }
        let n = u64_to_string(self.items.len() as u64);
        let id = concat2("itm:", n.as_str());
        let item = VaultItem {
            id: id.clone(),
            name: str_to_string(name),
            content: str_to_string(content),
            folder_id: match folder_id {
                Some(f) => Some(str_to_string(f)),
                None => None,
            },
        };
        self.items.push(item);
        proof {
            assert(item_views(self.items@) =~= item_views(old(self).items@).push(
                ItemV {
                    id: spec_mint_item_id(old(self).items@.len() as nat),
                    name: name@,
                    content: content@,
                    folder_id: match folder_id {
                        Some(f) => Some(f@),
                        None => None,
                    },
                },
            ));
        }
        id
    }
}

} // verus!
