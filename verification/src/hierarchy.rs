//! Idempotent materialization of a simulated nested-folder chain.  A path
//! `p1/p2/.../pn` is complete when a folder exists whose name equals each
//! successive prefix; the manager lists the current folders at every
//! segment, reuses an exact name match, and creates the folder otherwise.
//! The vault offers no locking, so the list-then-create sequence is a race
//! that is accepted, not eliminated; within one process the second pass over
//! the same path finds everything and creates nothing, which is proved here.

use vstd::prelude::*;
use crate::model::{
    FolderV, ItemV, VaultState, find_folder_by_name, folder_views, item_views,
    spec_find_folder, spec_mint_folder_id, spec_mint_item_id,
};
use crate::resolver::{check_folder_path, resolve_store_name, valid_folder_path};
use crate::text::{lemma_last_sep_in, sep, spec_last_sep_in, str_to_string};
use crate::{root_folder_name, spec_root, VaultError};

verus! {

/// The folder-path prefixes generated by separators among the first `n`
/// characters of `s`, shortest first.
pub open spec fn spec_prefixes_up_to(s: Seq<char>, n: int) -> Seq<Seq<char>>
    decreases n,
{
    if n <= 0 {
        Seq::empty()
    } else {
        spec_prefixes_up_to(s, n - 1) + (if s[n - 1] == sep() {
            seq![s.take(n - 1)]
        } else {
            Seq::empty()
        })
    }
}

/// The successive prefixes of a folder path, shortest first and ending with
/// the whole path: one per separator, plus the path itself.
pub open spec fn spec_prefixes(s: Seq<char>) -> Seq<Seq<char>> {
    spec_prefixes_up_to(s, s.len() as int).push(s)
}

/// Split a folder path into its successive prefixes, shortest first; the
/// last entry is the path itself.
pub fn prefixes_of(path: &str) -> (r: Vec<String>)
    ensures
        r@.map_values(|p: String| p@) == spec_prefixes(path@),
        r@.len() >= 1,
        r@.len() <= path@.len() + 1,
{
    let len = path.unicode_len();
    let mut r: Vec<String> = Vec::new();
    proof {
        assert(r@.map_values(|p: String| p@) =~= spec_prefixes_up_to(path@, 0));
    }
    let mut i: usize = 0;
    while i < len
        invariant
            len == path@.len(),
            i <= len,
            r@.map_values(|p: String| p@) == spec_prefixes_up_to(path@, i as int),
            r@.len() <= i,
        decreases len - i,
    {
        if path.get_char(i) == '/' {
            let pre = str_to_string(path.substring_char(0, i));
            proof {
                assert(pre@ =~= path@.take(i as int));
            }
            r.push(pre);
            proof {
                assert(r@.map_values(|p: String| p@) =~= spec_prefixes_up_to(path@, i as int)
                    + seq![path@.take(i as int)]);
            }
        } else {
            proof {
                assert(spec_prefixes_up_to(path@, i + 1) =~= spec_prefixes_up_to(
                    path@,
                    i as int,
                ));
            }
        }
        i += 1;
    }
    let whole = str_to_string(path);
    r.push(whole);
    proof {
        assert(r@.map_values(|p: String| p@) =~= spec_prefixes(path@));
    }
    r
}

/// What one list-then-match-then-create step does to the folder listing:
/// reuse the first exact name match, or append a newly created folder.
pub struct EnsureOutcome {
    pub folders: Seq<FolderV>,
    pub leaf_id: Seq<char>,
    pub created: nat,
}

pub open spec fn spec_ensure_one(fs: Seq<FolderV>, name: Seq<char>) -> EnsureOutcome {
    match spec_find_folder(fs, name) {
        Some(id) => EnsureOutcome { folders: fs, leaf_id: id, created: 0 },
        None => EnsureOutcome {
            folders: fs.push(FolderV { id: spec_mint_folder_id(name), name: name }),
            leaf_id: spec_mint_folder_id(name),
            created: 1,
        },
    }
}

/// The effect of ensuring every prefix in order, left to right: the final
/// folder listing, the id produced for the last prefix, and how many
/// creation calls were made.
pub open spec fn spec_ensure_all(fs: Seq<FolderV>, names: Seq<Seq<char>>) -> EnsureOutcome
    decreases names.len(),
{
    if names.len() == 0 {
        EnsureOutcome { folders: fs, leaf_id: Seq::empty(), created: 0 }
    } else {
        let init = spec_ensure_all(fs, names.drop_last());
        let last = spec_ensure_one(init.folders, names.last());
        EnsureOutcome {
            folders: last.folders,
            leaf_id: last.leaf_id,
            created: init.created + last.created,
        }
    }
}

/// `g` is `h` with zero or more folders appended.
pub open spec fn grows_from(g: Seq<FolderV>, h: Seq<FolderV>) -> bool {
    h.len() <= g.len() && forall|i: int| 0 <= i < h.len() ==> g[i] == h[i]
}

/// Appending folders never changes an existing first name match.
proof fn lemma_find_in_grown(g: Seq<FolderV>, h: Seq<FolderV>, name: Seq<char>)
    requires
        grows_from(g, h),
        spec_find_folder(h, name) is Some,
    ensures
        spec_find_folder(g, name) == spec_find_folder(h, name),
    decreases h.len(),
{
    assert(h.len() > 0);
    assert(g.first() == h.first());
    if h.first().name != name {
        assert(grows_from(g.drop_first(), h.drop_first())) by {
            assert(forall|i: int| 0 <= i < h.len() - 1 ==> g.drop_first()[i] == h.drop_first()[i]);
        }
        lemma_find_in_grown(g.drop_first(), h.drop_first(), name);
    }
}

/// Appending a folder resolves a previously failing lookup exactly when the
/// appended folder carries the sought name.
proof fn lemma_find_after_push(fs: Seq<FolderV>, f: FolderV, name: Seq<char>)
    requires
        spec_find_folder(fs, name) is None,
    ensures
        spec_find_folder(fs.push(f), name) == if f.name == name {
            Some(f.id)
        } else {
            None::<Seq<char>>
        },
    decreases fs.len(),
{
    if fs.len() == 0 {
        assert(fs.push(f).first() == f);
        assert(fs.push(f).drop_first() =~= Seq::<FolderV>::empty());
    } else {
        assert(fs.first().name != name);
        assert(spec_find_folder(fs.drop_first(), name) is None);
        assert(fs.push(f).first() == fs.first());
        assert(fs.push(f).drop_first() =~= fs.drop_first().push(f));
        lemma_find_after_push(fs.drop_first(), f, name);
    }
}

/// After one ensure step the listing resolves the name to the id the step
/// produced.
proof fn lemma_ensure_one_finds(fs: Seq<FolderV>, name: Seq<char>)
    ensures
        spec_find_folder(spec_ensure_one(fs, name).folders, name) == Some(
            spec_ensure_one(fs, name).leaf_id,
        ),
        grows_from(spec_ensure_one(fs, name).folders, fs),
{
    if spec_find_folder(fs, name) is None {
        lemma_find_after_push(fs, FolderV { id: spec_mint_folder_id(name), name: name }, name);
    }
}

/// Once a chain of prefixes has been ensured, ensuring it again over any
/// listing grown from the result finds every prefix, creates nothing, and
/// returns the same leaf id.
proof fn lemma_ensure_all_stable(fs: Seq<FolderV>, names: Seq<Seq<char>>, g: Seq<FolderV>)
    requires
        grows_from(g, spec_ensure_all(fs, names).folders),
    ensures
        spec_ensure_all(g, names).folders == g,
        spec_ensure_all(g, names).created == 0,
        names.len() > 0 ==> spec_ensure_all(g, names).leaf_id == spec_ensure_all(
            fs,
            names,
        ).leaf_id,
    decreases names.len(),
{
    if names.len() > 0 {
        let init = spec_ensure_all(fs, names.drop_last());
        let last = spec_ensure_one(init.folders, names.last());
        lemma_ensure_one_finds(init.folders, names.last());
        // g grows from the final listing, which grows from the intermediate one.
        assert(grows_from(g, init.folders));
        lemma_ensure_all_stable(fs, names.drop_last(), g);
        lemma_find_in_grown(g, last.folders, names.last());
    }
}

/// Idempotence of hierarchy construction: with no intervening external
/// mutation, a second pass over the same prefixes leaves the folder listing
/// unchanged, issues no creation call, and yields the same leaf folder id.
pub proof fn lemma_ensure_all_idempotent(fs: Seq<FolderV>, names: Seq<Seq<char>>)
    ensures
        ({
            let a1 = spec_ensure_all(fs, names);
            let a2 = spec_ensure_all(a1.folders, names);
            &&& a2.folders == a1.folders
            &&& a2.created == 0
            &&& names.len() > 0 ==> a2.leaf_id == a1.leaf_id
        }),
{
    let a1 = spec_ensure_all(fs, names);
    assert(grows_from(a1.folders, a1.folders));
    lemma_ensure_all_stable(fs, names, a1.folders);
}

/// What `ensure_path` hands back: the id of the path's leaf folder, and how
/// many folders the call had to create.
pub struct EnsuredFolder {
    pub folder_id: String,
    pub created: usize,
}

/// Idempotently materialize the folder chain for `path` and return the leaf
/// folder's id.
///
/// The path must consist of non-empty segments under the root-namespace
/// token (or be the root itself); anything else is rejected as a path error
/// with the state untouched.  For a well-formed path every successive prefix
/// is looked up in the current listing and created only on a miss, exactly
/// as `spec_ensure_all` states; the items are never touched.
pub fn ensure_path(state: &mut VaultState, path: &str) -> (r: Result<EnsuredFolder, VaultError>)
    requires
        old(state).creations as int + path@.len() + 1 <= u64::MAX,
    ensures
        final(state).items == old(state).items,
        r is Ok <==> valid_folder_path(path@),
        !valid_folder_path(path@) ==> r is Err && r->Err_0 == VaultError::Path
            && final(state).folders == old(state).folders
            && final(state).creations == old(state).creations,
        valid_folder_path(path@) ==> ({
            let out = spec_ensure_all(folder_views(old(state).folders@), spec_prefixes(path@));
            &&& folder_views(final(state).folders@) == out.folders
            &&& r->Ok_0.folder_id@ == out.leaf_id
            &&& r->Ok_0.created as nat == out.created
            &&& final(state).creations == old(state).creations + out.created
        }),
{
    match check_folder_path(path) {
        Err(e) => {
            return Err(e);
        },
        Ok(_) => {},
    }
    let prefixes = prefixes_of(path);
    let ghost names = spec_prefixes(path@);
    let ghost fs0 = folder_views(old(state).folders@);
    let mut leaf: String = String::new();
    let mut created: usize = 0;
    let mut i: usize = 0;
    proof {
        assert(names.take(0) =~= Seq::<Seq<char>>::empty());
    }
    while i < prefixes.len()
        invariant
            old(state).creations as int + path@.len() + 1 <= u64::MAX,
            names == prefixes@.map_values(|p: String| p@),
            names == spec_prefixes(path@),
            prefixes@.len() <= path@.len() + 1,
            fs0 == folder_views(old(state).folders@),
            i <= prefixes.len(),
            created <= i,
            state.items == old(state).items,
            state.creations == old(state).creations + created,
            ({
                let out = spec_ensure_all(fs0, names.take(i as int));
                &&& folder_views(state.folders@) == out.folders
                &&& leaf@ == out.leaf_id
                &&& created as nat == out.created
            }),
        decreases prefixes.len() - i,
    {
        let name = &prefixes[i];
        proof {
            assert(names[i as int] == name@);
            assert(names.take(i + 1).drop_last() =~= names.take(i as int));
            assert(names.take(i + 1).last() == names[i as int]);
        }
        match find_folder_by_name(&state.folders, name.as_str()) {
            Some(id) => {
                leaf = id;
            },
            None => {
                let id = state.create_folder(name.as_str());
                leaf = id;
                created = created + 1;
            },
        }
        i += 1;
    }
    proof {
        assert(names.take(prefixes@.len() as int) =~= names);
    }
    Ok(EnsuredFolder { folder_id: leaf, created })
}

/// The root-namespace token alone is a well-formed folder path whose only
/// prefix is itself.
pub proof fn lemma_root_path_valid()
    ensures
        valid_folder_path(spec_root()),
        spec_prefixes(spec_root()) == seq![spec_root()],
{
    reveal_strlit("bw-env");
    assert(forall|i: int| 0 <= i < spec_root().len() ==> spec_root()[i] != sep());
    lemma_prefixes_no_sep(spec_root(), spec_root().len() as int);
    assert(spec_prefixes(spec_root()) =~= seq![spec_root()]);
}

/// A path without separators among its first `n` characters generates no
/// prefixes there.
proof fn lemma_prefixes_no_sep(s: Seq<char>, n: int)
    requires
        0 <= n <= s.len(),
        forall|i: int| 0 <= i < n ==> s[i] != sep(),
    ensures
        spec_prefixes_up_to(s, n) == Seq::<Seq<char>>::empty(),
    decreases n,
{
    if n > 0 {
        lemma_prefixes_no_sep(s, n - 1);
        assert(spec_prefixes_up_to(s, n) =~= Seq::<Seq<char>>::empty());
    }
}

/// Store one environment file into the vault state under a chosen naming
/// candidate.
///
/// In folder mode the candidate, prefixed with the root-namespace token, is
/// split into a nested folder path and a trailing item name; the folder
/// chain is materialized and the item is created in its leaf.  A candidate
/// producing a path with an empty segment is rejected as a path error with
/// the state untouched.  In flat mode the root folder alone is ensured and
/// the candidate itself becomes the item name, so the call always succeeds.
/// Either way a fresh item is appended — re-storing the same logical path
/// yields a duplicate, as the vault enforces no uniqueness.
pub fn store_env_into(
    state: &mut VaultState,
    candidate: &str,
    content: &str,
    folder_mode: bool,
) -> (r: Result<String, VaultError>)
    requires
        old(state).creations as int + spec_root().len() + candidate@.len() + 2 <= u64::MAX,
    ensures
        ({
            let full = spec_root() + seq![sep()] + candidate@;
            let p = spec_last_sep_in(full, false);
            let fpath = if folder_mode {
                full.take(p)
            } else {
                spec_root()
            };
            let iname = if folder_mode {
                full.subrange(p + 1, full.len() as int)
            } else {
                candidate@
            };
            &&& r is Ok <==> valid_folder_path(fpath)
            &&& !folder_mode ==> r is Ok
            &&& r is Err ==> r->Err_0 == VaultError::Path
                && final(state).folders == old(state).folders
                && final(state).items == old(state).items
            &&& r is Ok ==> ({
                let out = spec_ensure_all(folder_views(old(state).folders@), spec_prefixes(fpath));
                &&& folder_views(final(state).folders@) == out.folders
                &&& item_views(final(state).items@) == item_views(old(state).items@).push(
                    ItemV {
                        id: spec_mint_item_id(old(state).items@.len() as nat),
                        name: iname,
                        content: content@,
                        folder_id: Some(out.leaf_id),
                    },
                )
                &&& r->Ok_0@ == spec_mint_item_id(old(state).items@.len() as nat)
            })
        }),
{
    let sn = resolve_store_name(candidate, folder_mode);
    match sn.folder_path {
        Some(fpath) => {
            proof {
                let full = spec_root() + seq![sep()] + candidate@;
                lemma_last_sep_in(full, false);
                assert(full[spec_root().len() as int] == sep());
            }
            match ensure_path(state, fpath.as_str()) {
                Ok(ef) => {
                    let id = state.create_item(
                        sn.item_name.as_str(),
                        content,
                        Some(ef.folder_id.as_str()),
                    );
                    Ok(id)
                },
                Err(e) => Err(e),
            }
        },
        None => {
            proof {
                lemma_root_path_valid();
            }
            match ensure_path(state, root_folder_name()) {
                Ok(ef) => {
                    let id = state.create_item(
                        sn.item_name.as_str(),
                        content,
                        Some(ef.folder_id.as_str()),
                    );
                    Ok(id)
                },
                Err(e) => {
                    proof {
                        assert(false);
                    }
                    Err(e)
                },
            }
        },
    }
}

} // verus!
