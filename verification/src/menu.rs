//! The selection menu: turning a flat item list (plus an optional context
//! directory) into an ordered, context-biased list of options, and resolving
//! a 1-based numeric choice against it.  The caller prints the options in
//! the returned order, so that order is load-bearing, not cosmetic.

use vstd::prelude::*;
use crate::catalog::{
    group_index_of, group_items_by_dir, group_views, item_names, lemma_group_index_of,
    spec_groups, DirGroup, GroupV,
};
use crate::model::{item_views, VaultItem};
use crate::resolver::{last_segment, spec_last_segment};
use crate::text::{concat2, dec_str, join_with, spec_join, str_eq, str_to_string, u64_to_string};
use crate::VaultError;

verus! {

/// What selecting an option downloads: one item, or every member of a
/// directory group in the group's stored order.
pub enum MenuKind {
    Single(usize),
    Group(Vec<usize>),
}

/// One line of the selection menu.
pub struct MenuOption {
    pub label: String,
    pub kind: MenuKind,
}

/// The mathematical view of an option's kind.
#[verifier::ext_equal]
pub enum MenuKindV {
    Single(int),
    Group(Seq<int>),
}

/// The mathematical view of a menu option.
#[verifier::ext_equal]
pub struct MenuOptionV {
    pub label: Seq<char>,
    pub kind: MenuKindV,
}

impl View for MenuKind {
    type V = MenuKindV;

    open spec fn view(&self) -> MenuKindV {
        match self {
            MenuKind::Single(i) => MenuKindV::Single(*i as int),
            MenuKind::Group(v) => MenuKindV::Group(v@.map_values(|u: usize| u as int)),
        }
    }
}

impl View for MenuOption {
    type V = MenuOptionV;

    open spec fn view(&self) -> MenuOptionV {
        MenuOptionV { label: self.label@, kind: self.kind@ }
    }
}

/// The views of an option list.
pub open spec fn option_views(os: Seq<MenuOption>) -> Seq<MenuOptionV> {
    os.map_values(|o: MenuOption| o@)
}

/// The label of a directory-group header: `dir/* (n items)`.
pub open spec fn spec_group_label(dir: Seq<char>, n: nat) -> Seq<char> {
    dir + "/* ("@ + dec_str(n) + " items)"@
}

/// Render a directory-group header label.
pub fn group_label(dir: &str, n: usize) -> (r: String)
    ensures
        r@ == spec_group_label(dir@, n as nat),
{
    proof {
        reveal_strlit("/* (");
        reveal_strlit(" items)");
    }
    let mut s = concat2(dir, "/* (");
    let num = u64_to_string(n as u64);
    s.append(num.as_str());
    s.append(" items)");
    s
}

/// The header option of a multi-member group.
pub open spec fn spec_group_header(g: GroupV) -> MenuOptionV {
    MenuOptionV {
        label: spec_group_label(g.dir, g.indices.len()),
        kind: MenuKindV::Group(g.indices),
    }
}

/// The indented single options for a group's members, in the group's order.
pub open spec fn spec_member_options(names: Seq<Seq<char>>, idxs: Seq<int>) -> Seq<MenuOptionV>
    decreases idxs.len(),
{
    if idxs.len() == 0 {
        Seq::empty()
    } else {
        spec_member_options(names, idxs.drop_last()).push(
            MenuOptionV {
                label: "  - "@ + names[idxs.last()],
                kind: MenuKindV::Single(idxs.last()),
            },
        )
    }
}

/// A multi-member group's block: its header, then its members.
pub open spec fn spec_group_block(names: Seq<Seq<char>>, g: GroupV) -> Seq<MenuOptionV> {
    seq![spec_group_header(g)] + spec_member_options(names, g.indices)
}

/// The blocks of the first `k` groups, keeping only groups of two or more
/// members, in first-appearance order.
pub open spec fn spec_blocks_up_to(names: Seq<Seq<char>>, gs: Seq<GroupV>, k: int) -> Seq<
    MenuOptionV,
>
    decreases k,
{
    if k <= 0 {
        Seq::empty()
    } else {
        spec_blocks_up_to(names, gs, k - 1) + (if gs[k - 1].indices.len() >= 2 {
            spec_group_block(names, gs[k - 1])
        } else {
            Seq::empty()
        })
    }
}

/// Does item `i` belong to some group of two or more members?
pub open spec fn in_multi_group(gs: Seq<GroupV>, i: int) -> bool {
    exists|j: int|
        0 <= j < gs.len() && (#[trigger] gs[j]).indices.len() >= 2 && gs[j].indices.contains(i)
}

/// The plain single options for the items of the first `n` that belong to
/// no multi-member group, in listing order.
pub open spec fn spec_singles_up_to(names: Seq<Seq<char>>, gs: Seq<GroupV>, n: int) -> Seq<
    MenuOptionV,
>
    decreases n,
{
    if n <= 0 {
        Seq::empty()
    } else {
        spec_singles_up_to(names, gs, n - 1) + (if !in_multi_group(gs, n - 1) {
            seq![MenuOptionV { label: names[n - 1], kind: MenuKindV::Single(n - 1) }]
        } else {
            Seq::empty()
        })
    }
}

/// The fallback menu, used without a context or when the context matches
/// nothing: every directory prefix with two or more members yields its
/// header immediately followed by its members, in first-appearance order;
/// then every item belonging to no multi-member group, in listing order.
pub open spec fn spec_build(names: Seq<Seq<char>>) -> Seq<MenuOptionV> {
    let gs = spec_groups(names);
    spec_blocks_up_to(names, gs, gs.len() as int) + spec_singles_up_to(
        names,
        gs,
        names.len() as int,
    )
}

/// The de-duplicated trailing file-name segments of a group's members, in
/// first-seen order.
pub open spec fn spec_agg_parts_up_to(names: Seq<Seq<char>>, idxs: Seq<int>, k: int) -> Seq<
    Seq<char>,
>
    decreases k,
{
    if k <= 0 {
        Seq::empty()
    } else {
        let ps = spec_agg_parts_up_to(names, idxs, k - 1);
        let seg = spec_last_segment(names[idxs[k - 1]]);
        if ps.contains(seg) {
            ps
        } else {
            ps.push(seg)
        }
    }
}

/// The label of the aggregate option offered for a matching context group.
pub open spec fn spec_agg_label(names: Seq<Seq<char>>, idxs: Seq<int>) -> Seq<char> {
    "Download everything ("@ + spec_join(
        spec_agg_parts_up_to(names, idxs, idxs.len() as int),
        ", "@,
    ) + ")"@
}

/// The plain single options for a group's members, in the group's order.
pub open spec fn spec_plain_singles(names: Seq<Seq<char>>, idxs: Seq<int>) -> Seq<MenuOptionV>
    decreases idxs.len(),
{
    if idxs.len() == 0 {
        Seq::empty()
    } else {
        spec_plain_singles(names, idxs.drop_last()).push(
            MenuOptionV { label: names[idxs.last()], kind: MenuKindV::Single(idxs.last()) },
        )
    }
}

/// The plain single options for the items of the first `n` that are not
/// members of the context group, in listing order.
pub open spec fn spec_rest_singles(names: Seq<Seq<char>>, members: Seq<int>, n: int) -> Seq<
    MenuOptionV,
>
    decreases n,
{
    if n <= 0 {
        Seq::empty()
    } else {
        spec_rest_singles(names, members, n - 1) + (if !members.contains(n - 1) {
            seq![MenuOptionV { label: names[n - 1], kind: MenuKindV::Single(n - 1) }]
        } else {
            Seq::empty()
        })
    }
}

/// The context menu, used when the context directory names a group: an
/// aggregate option when the group has two or more members, then each
/// member individually, then every remaining item.
pub open spec fn spec_context_options(names: Seq<Seq<char>>, g: GroupV) -> Seq<MenuOptionV> {
    (if g.indices.len() >= 2 {
        seq![
            MenuOptionV {
                label: spec_agg_label(names, g.indices),
                kind: MenuKindV::Group(g.indices),
            },
        ]
    } else {
        Seq::empty()
    }) + spec_plain_singles(names, g.indices) + spec_rest_singles(
        names,
        g.indices,
        names.len() as int,
    )
}

/// The whole menu: the context menu when the context directory names a
/// group, the fallback menu otherwise.
pub open spec fn spec_menu(names: Seq<Seq<char>>, ctx: Option<Seq<char>>) -> Seq<MenuOptionV> {
    match ctx {
        None => spec_build(names),
        Some(d) => {
            let gs = spec_groups(names);
            let j = group_index_of(gs, d);
            if j >= 0 {
                spec_context_options(names, gs[j])
            } else {
                spec_build(names)
            }
        },
    }
}

/// Every index stored in the groups of the first `n` items points into
/// those items.
pub proof fn lemma_groups_indices_range(names: Seq<Seq<char>>, n: int)
    requires
        0 <= n <= names.len(),
    ensures
        forall|j: int, k: int|
            0 <= j < spec_groups_up_to_len(names, n) && 0 <= k < group_at(names, n, j).indices.len()
                ==> 0 <= #[trigger] group_at(names, n, j).indices[k] < n,
    decreases n,
{
    if n > 0 {
        lemma_groups_indices_range(names, n - 1);
        let gs = crate::catalog::spec_groups_up_to(names, n - 1);
        let gs2 = crate::catalog::spec_groups_up_to(names, n);
        assert forall|j: int, k: int|
            0 <= j < gs2.len() && 0 <= k < gs2[j].indices.len() implies 0 <= #[trigger] gs2[
            j].indices[k] < n by {
            match crate::resolver::spec_item_dir(names[n - 1]) {
                None => {
                    assert(gs2[j].indices[k] == group_at(names, n - 1, j).indices[k]);
                },
                Some(d) => {
                    let jj = group_index_of(gs, d);
                    lemma_group_index_of(gs, d);
                    if jj >= 0 {
                        if j == jj {
                            assert(gs2[j].indices == gs[j].indices.push(n - 1));
                            if k < gs[j].indices.len() {
                                assert(gs[j].indices[k] == group_at(names, n - 1, j).indices[k]);
                            }
                        } else {
                            assert(gs2[j].indices[k] == group_at(names, n - 1, j).indices[k]);
                        }
                    } else {
                        if j < gs.len() {
                            assert(gs2[j].indices[k] == group_at(names, n - 1, j).indices[k]);
                        } else {
                            assert(gs2[j].indices == seq![n - 1]);
                        }
                    }
                },
            }
        }
        assert(forall|j: int, k: int|
            0 <= j < spec_groups_up_to_len(names, n) && 0 <= k < group_at(names, n, j).indices.len()
                ==> 0 <= #[trigger] group_at(names, n, j).indices[k] < n);
    }
}

/// No two groups share a directory prefix, so each multi-member prefix
/// yields its header block once: together with `lemma_group_appears` and
/// `lemma_build_group_options`, the fallback menu's Group options are in
/// one-to-one correspondence with the multi-member prefixes.
pub proof fn lemma_group_dirs_distinct(names: Seq<Seq<char>>, n: int)
    requires
        0 <= n <= names.len(),
    ensures
        forall|j1: int, j2: int|
            0 <= j1 < j2 < spec_groups_up_to_len(names, n) ==> (#[trigger] group_at(
                names,
                n,
                j1,
            )).dir != (#[trigger] group_at(names, n, j2)).dir,
    decreases n,
{
    if n > 0 {
        lemma_group_dirs_distinct(names, n - 1);
        let gs = crate::catalog::spec_groups_up_to(names, n - 1);
        let gs2 = crate::catalog::spec_groups_up_to(names, n);
        assert forall|j1: int, j2: int|
            0 <= j1 < j2 < gs2.len() implies (#[trigger] gs2[j1]).dir != (#[trigger] gs2[
            j2]).dir by {
            match crate::resolver::spec_item_dir(names[n - 1]) {
                None => {
                    assert(gs2[j1] == group_at(names, n - 1, j1));
                    assert(gs2[j2] == group_at(names, n - 1, j2));
                },
                Some(d) => {
                    let jj = group_index_of(gs, d);
                    lemma_group_index_of(gs, d);
                    if jj >= 0 {
                        // An update keeps every directory in place.
                        assert(gs2[j1].dir == (group_at(names, n - 1, j1)).dir);
                        assert(gs2[j2].dir == (group_at(names, n - 1, j2)).dir);
                    } else {
                        if j2 < gs.len() {
                            assert(gs2[j1] == group_at(names, n - 1, j1));
                            assert(gs2[j2] == group_at(names, n - 1, j2));
                        } else {
                            // The appended group's directory matched nothing.
                            assert(gs2[j1] == group_at(names, n - 1, j1));
                            assert(gs2[j2].dir == d);
                        }
                    }
                },
            }
        }
        assert(forall|j1: int, j2: int|
            0 <= j1 < j2 < spec_groups_up_to_len(names, n) ==> (#[trigger] group_at(
                names,
                n,
                j1,
            )).dir != (#[trigger] group_at(names, n, j2)).dir);
    }
}

/// The number of groups over the first `n` items (helper for triggers).
pub open spec fn spec_groups_up_to_len(names: Seq<Seq<char>>, n: int) -> int {
    crate::catalog::spec_groups_up_to(names, n).len() as int
}

/// The `j`-th group over the first `n` items (helper for triggers).
pub open spec fn group_at(names: Seq<Seq<char>>, n: int, j: int) -> GroupV {
    crate::catalog::spec_groups_up_to(names, n)[j]
}

/// Copy a vector of indices.
fn copy_indices(v: &Vec<usize>) -> (r: Vec<usize>)
    ensures
        r@ == v@,
{
    let mut r: Vec<usize> = Vec::new();
    let mut i: usize = 0;
    while i < v.len()
        invariant
            i <= v.len(),
            r@ == v@.take(i as int),
        decreases v.len() - i,
    {
        r.push(v[i]);
        proof {
            assert(v@.take(i + 1) =~= v@.take(i as int).push(v@[i as int]));
        }
        i += 1;
    }
    proof {
        assert(v@.take(v@.len() as int) =~= v@);
    }
    r
}

/// Does the index vector contain `x`?
fn contains_usize(v: &Vec<usize>, x: usize) -> (r: bool)
    ensures
        r == v@.map_values(|u: usize| u as int).contains(x as int),
{
    let ghost m = v@.map_values(|u: usize| u as int);
    let mut i: usize = 0;
    while i < v.len()
        invariant
            m == v@.map_values(|u: usize| u as int),
            i <= v.len(),
            forall|k: int| 0 <= k < i ==> m[k] != x as int,
        decreases v.len() - i,
    {
        if v[i] == x {
            proof {
                assert(m[i as int] == x as int);
            }
            return true;
        }
        i += 1;
    }
    proof {
        assert(!m.contains(x as int));
    }
    false
}

/// Does item `i` belong to some group of two or more members?
fn in_multi_group_exec(groups: &Vec<DirGroup>, i: usize) -> (r: bool)
    ensures
        r == in_multi_group(group_views(groups@), i as int),
{
    let ghost gs = group_views(groups@);
    let mut j: usize = 0;
    while j < groups.len()
        invariant
            gs == group_views(groups@),
            j <= groups.len(),
            forall|jj: int|
                0 <= jj < j ==> !((#[trigger] gs[jj]).indices.len() >= 2 && gs[jj].indices.contains(
                    i as int,
                )),
        decreases groups.len() - j,
    {
        let g = &groups[j];
        if g.indices.len() >= 2 {
            if contains_usize(&g.indices, i) {
                proof {
                    assert(gs[j as int].indices.len() >= 2 && gs[j as int].indices.contains(
                        i as int,
                    ));
                }
                return true;
            }
        }
        j += 1;
    }
    false
}

/// Build the fallback menu over a flat item list: for every directory
/// prefix with two or more members, in first-appearance order, a group
/// header followed by its members as indented singles; then every item
/// belonging to no multi-member group, in listing order.
pub fn build_options(items: &Vec<VaultItem>) -> (r: Vec<MenuOption>)
    ensures
        option_views(r@) == spec_build(item_names(item_views(items@))),
{
    let ghost names = item_names(item_views(items@));
    let groups = group_items_by_dir(items);
    let ghost gs = group_views(groups@);
    proof {
        lemma_groups_indices_range(names, names.len() as int);
    }
    let mut r: Vec<MenuOption> = Vec::new();
    proof {
        assert(option_views(r@) =~~= spec_blocks_up_to(names, gs, 0));
    }
    let mut gi: usize = 0;
    while gi < groups.len()
        invariant
            names == item_names(item_views(items@)),
            gs == group_views(groups@),
            gs == spec_groups(names),
            items@.len() == names.len(),
            gi <= groups.len(),
            option_views(r@) == spec_blocks_up_to(names, gs, gi as int),
            forall|j: int, k: int|
                0 <= j < spec_groups_up_to_len(names, names.len() as int) && 0 <= k < group_at(
                    names,
                    names.len() as int,
                    j,
                ).indices.len() ==> 0 <= #[trigger] group_at(
                    names,
                    names.len() as int,
                    j,
                ).indices[k] < names.len(),
        decreases groups.len() - gi,
    {
        let g = &groups[gi];
        if g.indices.len() >= 2 {
            let label = group_label(g.dir.as_str(), g.indices.len());
            let idxs = copy_indices(&g.indices);
            r.push(MenuOption { label, kind: MenuKind::Group(idxs) });
            proof {
                assert(option_views(r@) =~~= spec_blocks_up_to(names, gs, gi as int) + seq![
                    spec_group_header(gs[gi as int]),
                ]);
            }
            let ghost base = spec_blocks_up_to(names, gs, gi as int) + seq![
                spec_group_header(gs[gi as int]),
            ];
            let mut k: usize = 0;
            while k < g.indices.len()
                invariant
                    names == item_names(item_views(items@)),
                    gs == group_views(groups@),
                    gs == spec_groups(names),
                    items@.len() == names.len(),
                    gi < groups@.len(),
                    g == groups@[gi as int],
                    k <= g.indices.len(),
                    option_views(r@) == base + spec_member_options(
                        names,
                        gs[gi as int].indices.take(k as int),
                    ),
                    forall|j: int, kk: int|
                        0 <= j < spec_groups_up_to_len(names, names.len() as int) && 0 <= kk
                            < group_at(names, names.len() as int, j).indices.len() ==> 0
                            <= #[trigger] group_at(names, names.len() as int, j).indices[kk]
                            < names.len(),
                decreases g.indices.len() - k,
            {
                let idx = g.indices[k];
                proof {
                    assert(group_at(names, names.len() as int, gi as int).indices[k as int]
                        == idx as int);
                    assert(names[idx as int] == item_views(items@)[idx as int].name);
                }
                proof {
                    reveal_strlit("  - ");
                }
                let label = concat2("  - ", items[idx].name.as_str());
                let ghost prev = option_views(r@);
                r.push(MenuOption { label, kind: MenuKind::Single(idx) });
                proof {
                    let tk = gs[gi as int].indices.take(k + 1);
                    assert(tk.drop_last() =~= gs[gi as int].indices.take(k as int));
                    assert(tk.last() == gs[gi as int].indices[k as int]);
                    assert(option_views(r@) =~~= prev.push(
                        MenuOptionV {
                            label: "  - "@ + names[idx as int],
                            kind: MenuKindV::Single(idx as int),
                        },
                    ));
                    assert(option_views(r@) =~~= base + spec_member_options(names, tk));
                }
                k += 1;
            }
            proof {
                assert(gs[gi as int].indices.take(gs[gi as int].indices.len() as int)
                    =~= gs[gi as int].indices);
                assert(option_views(r@) =~~= spec_blocks_up_to(names, gs, gi + 1));
            }
        } else {
            proof {
                assert(spec_blocks_up_to(names, gs, gi + 1) =~= spec_blocks_up_to(
                    names,
                    gs,
                    gi as int,
                ));
            }
        }
        gi += 1;
    }
    proof {
        assert(option_views(r@) == spec_blocks_up_to(names, gs, gs.len() as int));
    }
    let ghost blocks = spec_blocks_up_to(names, gs, gs.len() as int);
    let mut i: usize = 0;
    while i < items.len()
        invariant
            names == item_names(item_views(items@)),
            gs == group_views(groups@),
            gs == spec_groups(names),
            items@.len() == names.len(),
            i <= items.len(),
            option_views(r@) == blocks + spec_singles_up_to(names, gs, i as int),
        decreases items.len() - i,
    {
        if !in_multi_group_exec(&groups, i) {
            let it = &items[i];
            proof {
                assert(names[i as int] == item_views(items@)[i as int].name);
            }
            let label = str_to_string(it.name.as_str());
            let ghost prev = option_views(r@);
            r.push(MenuOption { label, kind: MenuKind::Single(i) });
            proof {
                assert(option_views(r@) =~~= prev.push(
                    MenuOptionV { label: names[i as int], kind: MenuKindV::Single(i as int) },
                ));
                assert(option_views(r@) =~~= blocks + (spec_singles_up_to(names, gs, i as int)
                    + seq![MenuOptionV { label: names[i as int], kind: MenuKindV::Single(i as int) }]));
            }
        } else {
            proof {
                assert(spec_singles_up_to(names, gs, i + 1) =~= spec_singles_up_to(
                    names,
                    gs,
                    i as int,
                ));
            }
        }
        i += 1;
    }
    proof {
        assert(option_views(r@) == spec_build(names));
    }
    r
}

/// Build the context menu for a matching group: the aggregate option when
/// the group has two or more members, then the members individually, then
/// every remaining item.
pub fn build_context_options(items: &Vec<VaultItem>, g: &DirGroup) -> (r: Vec<MenuOption>)
    requires
        forall|k: int| 0 <= k < g@.indices.len() ==> 0 <= #[trigger] g@.indices[k]
            < items@.len(),
    ensures
        option_views(r@) == spec_context_options(item_names(item_views(items@)), g@),
{
    let ghost names = item_names(item_views(items@));
    let ghost idxs = g@.indices;
    let mut r: Vec<MenuOption> = Vec::new();
    if g.indices.len() >= 2 {
        // The aggregate option's label joins the distinct trailing
        // file-name segments of the group's members.
        let mut parts: Vec<String> = Vec::new();
        proof {
            assert(parts@.map_values(|p: String| p@) =~= spec_agg_parts_up_to(names, idxs, 0));
        }
        let mut k: usize = 0;
        while k < g.indices.len()
            invariant
                names == item_names(item_views(items@)),
                idxs == g@.indices,
                items@.len() == names.len(),
                forall|kk: int| 0 <= kk < idxs.len() ==> 0 <= #[trigger] idxs[kk]
                    < items@.len(),
                k <= g.indices.len(),
                parts@.map_values(|p: String| p@) == spec_agg_parts_up_to(names, idxs, k as int),
            decreases g.indices.len() - k,
        {
            let idx = g.indices[k];
            proof {
                assert(idxs[k as int] == idx as int);
                assert(names[idx as int] == item_views(items@)[idx as int].name);
            }
            let seg = last_segment(items[idx].name.as_str());
            let ghost ps = parts@.map_values(|p: String| p@);
            let mut pj: usize = 0;
            while pj < parts.len() && !str_eq(parts[pj].as_str(), seg.as_str())
                invariant
                    ps == parts@.map_values(|p: String| p@),
                    pj <= parts.len(),
                    forall|kk: int| 0 <= kk < pj ==> ps[kk] != seg@,
                decreases parts.len() - pj,
            {
                pj += 1;
            }
            if pj == parts.len() {
                proof {
                    assert(!ps.contains(seg@));
                }
                parts.push(seg);
                proof {
                    assert(parts@.map_values(|p: String| p@) =~= ps.push(
                        spec_last_segment(names[idxs[k as int]]),
                    ));
                }
            } else {
                proof {
                    assert(ps[pj as int] == seg@);
                    assert(ps.contains(seg@));
                }
            }
            k += 1;
        }
        proof {
            reveal_strlit("Download everything (");
            reveal_strlit(")");
            reveal_strlit(", ");
        }
        let joined = join_with(&parts, ", ");
        let mut label = concat2("Download everything (", joined.as_str());
        label.append(")");
        proof {
            assert(idxs.take(idxs.len() as int) =~= idxs);
            assert(label@ == spec_agg_label(names, idxs));
        }
        let kidxs = copy_indices(&g.indices);
        r.push(MenuOption { label, kind: MenuKind::Group(kidxs) });
        proof {
            assert(option_views(r@) =~~= seq![
                MenuOptionV {
                    label: spec_agg_label(names, idxs),
                    kind: MenuKindV::Group(idxs),
                },
            ]);
        }
    } else {
        proof {
            assert(option_views(r@) =~~= Seq::<MenuOptionV>::empty());
        }
    }
    let ghost head = option_views(r@);
    let mut k: usize = 0;
    while k < g.indices.len()
        invariant
            names == item_names(item_views(items@)),
            idxs == g@.indices,
            items@.len() == names.len(),
            forall|kk: int| 0 <= kk < idxs.len() ==> 0 <= #[trigger] idxs[kk] < items@.len(),
            k <= g.indices.len(),
            option_views(r@) == head + spec_plain_singles(names, idxs.take(k as int)),
        decreases g.indices.len() - k,
    {
        let idx = g.indices[k];
        proof {
            assert(idxs[k as int] == idx as int);
            assert(names[idx as int] == item_views(items@)[idx as int].name);
        }
        let label = str_to_string(items[idx].name.as_str());
        let ghost prev = option_views(r@);
        r.push(MenuOption { label, kind: MenuKind::Single(idx) });
        proof {
            let tk = idxs.take(k + 1);
            assert(tk.drop_last() =~= idxs.take(k as int));
            assert(tk.last() == idxs[k as int]);
            assert(option_views(r@) =~~= prev.push(
                MenuOptionV { label: names[idx as int], kind: MenuKindV::Single(idx as int) },
            ));
            assert(option_views(r@) =~~= head + spec_plain_singles(names, tk));
        }
        k += 1;
    }
    proof {
        assert(idxs.take(idxs.len() as int) =~= idxs);
    }
    let ghost mid = head + spec_plain_singles(names, idxs);
    let mut i: usize = 0;
    while i < items.len()
        invariant
            names == item_names(item_views(items@)),
            idxs == g@.indices,
            items@.len() == names.len(),
            i <= items.len(),
            option_views(r@) == mid + spec_rest_singles(names, idxs, i as int),
        decreases items.len() - i,
    {
        if !contains_usize(&g.indices, i) {
            let it = &items[i];
            proof {
                assert(names[i as int] == item_views(items@)[i as int].name);
            }
            let label = str_to_string(it.name.as_str());
            let ghost prev = option_views(r@);
            r.push(MenuOption { label, kind: MenuKind::Single(i) });
            proof {
                assert(option_views(r@) =~~= prev.push(
                    MenuOptionV { label: names[i as int], kind: MenuKindV::Single(i as int) },
                ));
                assert(option_views(r@) =~~= mid + (spec_rest_singles(names, idxs, i as int)
                    + seq![MenuOptionV { label: names[i as int], kind: MenuKindV::Single(i as int) }]));
            }
        } else {
            proof {
                assert(spec_rest_singles(names, idxs, i + 1) =~= spec_rest_singles(
                    names,
                    idxs,
                    i as int,
                ));
            }
        }
        i += 1;
    }
    proof {
        assert(option_views(r@) == spec_context_options(names, g@));
    }
    r
}

/// Build the whole menu: the context menu when the optional context
/// directory names a group of stored items, the fallback menu otherwise.
pub fn build_menu(items: &Vec<VaultItem>, context_dir: &Option<String>) -> (r: Vec<MenuOption>)
    ensures
        option_views(r@) == spec_menu(
            item_names(item_views(items@)),
            match context_dir {
                Some(d) => Some(d@),
                None => None,
            },
        ),
{
    let ghost names = item_names(item_views(items@));
    match context_dir {
        None => build_options(items),
        Some(d) => {
            let groups = group_items_by_dir(items);
            let ghost gs = group_views(groups@);
            proof {
                lemma_group_index_of(gs, d@);
                lemma_groups_indices_range(names, names.len() as int);
            }
            let mut j: usize = 0;
            while j < groups.len() && !str_eq(groups[j].dir.as_str(), d.as_str())
                invariant
                    gs == group_views(groups@),
                    j <= groups.len(),
                    forall|k: int| 0 <= k < j ==> (#[trigger] gs[k]).dir != d@,
                decreases groups.len() - j,
            {
                j += 1;
            }
            if j < groups.len() {
                proof {
                    assert(gs[j as int].dir == groups@[j as int].dir@);
                    assert(group_index_of(gs, d@) == j as int);
                    assert forall|kk: int|
                        0 <= kk < gs[j as int].indices.len() implies 0 <= #[trigger] gs[
                        j as int].indices[kk] < names.len() by {
                        assert(group_at(names, names.len() as int, j as int).indices[kk] == gs[
                            j as int].indices[kk]);
                    }
                }
                build_context_options(items, &groups[j])
            } else {
                proof {
                    assert(group_index_of(gs, d@) == -1);
                }
                build_options(items)
            }
        },
    }
}

/// What a 1-based selection denotes in an option list: the chosen option's
/// position, or nothing when the number is out of range.
pub open spec fn spec_resolve(opts: Seq<MenuOptionV>, choice: int) -> Option<int> {
    if 1 <= choice <= opts.len() {
        Some(choice - 1)
    } else {
        None
    }
}

/// Resolve a 1-based menu choice to the index of the chosen option; zero or
/// anything past the end is an input error, reported without a retry loop.
pub fn resolve(options: &Vec<MenuOption>, choice: usize) -> (r: Result<usize, VaultError>)
    ensures
        r is Ok <==> 1 <= choice <= options@.len(),
        r is Ok ==> r->Ok_0 == choice - 1 && Some(r->Ok_0 as int) == spec_resolve(
            option_views(options@),
            choice as int,
        ),
        r is Err ==> r->Err_0 == VaultError::Input,
{
    if choice == 0 || choice > options.len() {
        Err(VaultError::Input)
    } else {
        Ok(choice - 1)
    }
}

/// Menu-order invariant: for every valid 1-based choice `k`, resolving `k`
/// against the menu built for `(names, ctx)` selects exactly the option at
/// position `k - 1` of the list the builder returned — the same list the
/// caller prints, in the same order, so the `k`-th printed option is the
/// `k`-th resolved one.
pub proof fn lemma_menu_order(names: Seq<Seq<char>>, ctx: Option<Seq<char>>, k: int)
    requires
        1 <= k <= spec_menu(names, ctx).len(),
    ensures
        spec_resolve(spec_menu(names, ctx), k) == Some(k - 1),
{
}

/// Does position `p` of the option list hold the whole block of group `g`:
/// its header, immediately followed by each of its members?
pub open spec fn group_block_at(
    opts: Seq<MenuOptionV>,
    names: Seq<Seq<char>>,
    g: GroupV,
    p: int,
) -> bool {
    &&& 0 <= p
    &&& p + 1 + g.indices.len() <= opts.len()
    &&& opts[p] == spec_group_header(g)
    &&& opts.subrange(p + 1, p + 1 + g.indices.len() as int) == spec_member_options(
        names,
        g.indices,
    )
}

/// A group block is undisturbed by anything appended after it.
proof fn lemma_block_at_append(
    opts: Seq<MenuOptionV>,
    more: Seq<MenuOptionV>,
    names: Seq<Seq<char>>,
    g: GroupV,
    p: int,
)
    requires
        group_block_at(opts, names, g, p),
    ensures
        group_block_at(opts + more, names, g, p),
{
    assert((opts + more).subrange(p + 1, p + 1 + g.indices.len() as int) =~= opts.subrange(
        p + 1,
        p + 1 + g.indices.len() as int,
    ));
    assert((opts + more)[p] == opts[p]);
}

/// A group's member options are as many as its members.
proof fn lemma_member_options_len(names: Seq<Seq<char>>, idxs: Seq<int>)
    ensures
        spec_member_options(names, idxs).len() == idxs.len(),
    decreases idxs.len(),
{
    if idxs.len() > 0 {
        lemma_member_options_len(names, idxs.drop_last());
    }
}

/// Every multi-member group among the first `k` has its block somewhere in
/// the first `k` blocks.
proof fn lemma_block_in_blocks(names: Seq<Seq<char>>, gs: Seq<GroupV>, k: int, j: int)
    requires
        0 <= j < k,
        gs[j].indices.len() >= 2,
    ensures
        exists|p: int| group_block_at(spec_blocks_up_to(names, gs, k), names, gs[j], p),
    decreases k,
{
    let b = spec_blocks_up_to(names, gs, k);
    let bprev = spec_blocks_up_to(names, gs, k - 1);
    if j == k - 1 {
        let p = bprev.len() as int;
        let block = spec_group_block(names, gs[j]);
        lemma_member_options_len(names, gs[j].indices);
        assert(b == bprev + block);
        assert(b[p] == block[0]);
        assert(b.subrange(p + 1, p + 1 + gs[j].indices.len() as int) =~= spec_member_options(
            names,
            gs[j].indices,
        ));
        assert(group_block_at(b, names, gs[j], p));
    } else {
        lemma_block_in_blocks(names, gs, k - 1, j);
        let p = choose|p: int| group_block_at(bprev, names, gs[j], p);
        lemma_block_at_append(
            bprev,
            if gs[k - 1].indices.len() >= 2 {
                spec_group_block(names, gs[k - 1])
            } else {
                Seq::empty()
            },
            names,
            gs[j],
            p,
        );
        assert(group_block_at(b, names, gs[j], p));
    }
}

/// Grouping correctness, existence half: every directory prefix shared by
/// two or more items yields, in the fallback menu, one Group option
/// immediately followed by the individual entries of exactly its members.
pub proof fn lemma_group_appears(names: Seq<Seq<char>>, j: int)
    requires
        0 <= j < spec_groups(names).len(),
        spec_groups(names)[j].indices.len() >= 2,
    ensures
        exists|p: int| group_block_at(spec_build(names), names, spec_groups(names)[j], p),
{
    let gs = spec_groups(names);
    lemma_block_in_blocks(names, gs, gs.len() as int, j);
    let blocks = spec_blocks_up_to(names, gs, gs.len() as int);
    let p = choose|p: int| group_block_at(blocks, names, gs[j], p);
    lemma_block_at_append(
        blocks,
        spec_singles_up_to(names, gs, names.len() as int),
        names,
        gs[j],
        p,
    );
    assert(group_block_at(spec_build(names), names, gs[j], p));
}

/// Member options are single options.
proof fn lemma_members_all_single(names: Seq<Seq<char>>, idxs: Seq<int>, q: int)
    requires
        0 <= q < spec_member_options(names, idxs).len(),
    ensures
        spec_member_options(names, idxs)[q].kind is Single,
    decreases idxs.len(),
{
    lemma_member_options_len(names, idxs);
    if idxs.len() > 0 && q < idxs.len() - 1 {
        lemma_member_options_len(names, idxs.drop_last());
        lemma_members_all_single(names, idxs.drop_last(), q);
    }
}

/// The trailing singles of the fallback menu are single options.
proof fn lemma_singles_all_single(names: Seq<Seq<char>>, gs: Seq<GroupV>, n: int, q: int)
    requires
        0 <= q < spec_singles_up_to(names, gs, n).len(),
    ensures
        spec_singles_up_to(names, gs, n)[q].kind is Single,
    decreases n,
{
    if n > 0 && q < spec_singles_up_to(names, gs, n - 1).len() {
        lemma_singles_all_single(names, gs, n - 1, q);
    }
}

/// Every Group option among the first `k` blocks is the header of a group
/// of two or more members.
proof fn lemma_blocks_group_option(names: Seq<Seq<char>>, gs: Seq<GroupV>, k: int, p: int)
    requires
        0 <= p < spec_blocks_up_to(names, gs, k).len(),
        spec_blocks_up_to(names, gs, k)[p].kind is Group,
    ensures
        exists|j: int|
            0 <= j < k && (#[trigger] gs[j]).indices.len() >= 2 && spec_blocks_up_to(
                names,
                gs,
                k,
            )[p] == spec_group_header(gs[j]),
    decreases k,
{
    let b = spec_blocks_up_to(names, gs, k);
    let bprev = spec_blocks_up_to(names, gs, k - 1);
    if p < bprev.len() {
        lemma_blocks_group_option(names, gs, k - 1, p);
        let j = choose|j: int|
            0 <= j < k - 1 && (#[trigger] gs[j]).indices.len() >= 2 && bprev[p]
                == spec_group_header(gs[j]);
        assert(b[p] == bprev[p]);
        assert(gs[j].indices.len() >= 2 && b[p] == spec_group_header(gs[j]));
    } else {
        assert(gs[k - 1].indices.len() >= 2);
        let block = spec_group_block(names, gs[k - 1]);
        let q = p - bprev.len();
        assert(b[p] == block[q]);
        if q > 0 {
            lemma_member_options_len(names, gs[k - 1].indices);
            assert(block[q] == spec_member_options(names, gs[k - 1].indices)[q - 1]);
            lemma_members_all_single(names, gs[k - 1].indices, q - 1);
            assert(false);
        }
        assert(gs[k - 1].indices.len() >= 2 && b[p] == spec_group_header(gs[k - 1]));
    }
}

/// Grouping correctness, exclusion half: every Group option of the fallback
/// menu is the header of a directory-prefix group with two or more members,
/// so a prefix shared by a single item never produces a Group option.
pub proof fn lemma_build_group_options(names: Seq<Seq<char>>, p: int)
    requires
        0 <= p < spec_build(names).len(),
        spec_build(names)[p].kind is Group,
    ensures
        exists|j: int|
            0 <= j < spec_groups(names).len() && (#[trigger] spec_groups(names)[j]).indices.len()
                >= 2 && spec_build(names)[p] == spec_group_header(spec_groups(names)[j]),
{
    let gs = spec_groups(names);
    let blocks = spec_blocks_up_to(names, gs, gs.len() as int);
    let singles = spec_singles_up_to(names, gs, names.len() as int);
    if p < blocks.len() {
        assert(spec_build(names)[p] == blocks[p]);
        lemma_blocks_group_option(names, gs, gs.len() as int, p);
        let j = choose|j: int|
            0 <= j < gs.len() && (#[trigger] gs[j]).indices.len() >= 2 && blocks[p]
                == spec_group_header(gs[j]);
        assert(gs[j].indices.len() >= 2 && spec_build(names)[p] == spec_group_header(gs[j]));
    } else {
        assert(spec_build(names)[p] == singles[p - blocks.len()]);
        lemma_singles_all_single(names, gs, names.len() as int, p - blocks.len());
        assert(false);
    }
}

} // verus!
