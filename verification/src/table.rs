//! Assembling the workspace table: the composition of tree filter, identity
//! parsing and classifier that turns one layout-tree snapshot plus the raw
//! outcomes of the per-window property queries into the full
//! workspace-to-categories table. Every rebuild produces a complete fresh
//! snapshot; nothing is patched incrementally.

use vstd::prelude::*;
use std::collections::HashMap;
use crate::classify::{WindowCategory, category_spec, classify_window};
use crate::tree_util::{LayoutNode, NodeKind, filter_childs_by_type, matching_nodes, views_of};
use crate::workspace::{parse_i32_spec, parse_workspace_id};
use crate::x11_util::{wm_class_spec, parse_xprop_wm_class};

verus! {

broadcast use vstd::std_specs::hash::group_hash_axioms;

/// The display name of a node as text; a nameless node counts as empty text.
pub open spec fn name_chars(n: LayoutNode) -> Seq<char> {
    match n.name {
        Some(s) => s@,
        None => Seq::<char>::empty(),
    }
}

/// The window handles carried by a sequence of container nodes, in order;
/// nodes without a handle contribute nothing.
pub open spec fn handles_of_nodes(cs: Seq<LayoutNode>) -> Seq<u32>
    decreases cs.len(),
{
    if cs.len() == 0 {
        Seq::<u32>::empty()
    } else {
        handles_of_nodes(cs.drop_last()) + (match cs.last().window {
            Some(h) => seq![h],
            None => Seq::<u32>::empty(),
        })
    }
}

/// The window handles found in the workspace subtree rooted at `w`: one per
/// window-bearing container node, in discovery order.
pub open spec fn handles_of(w: LayoutNode) -> Seq<u32> {
    handles_of_nodes(matching_nodes(w, NodeKind::Container))
}

/// The table row a workspace node yields: its name parsed as an identifier,
/// paired with the window handles of its subtree; `None` for a workspace
/// whose name is not an integer, which is excluded from tracking.
pub open spec fn row_of(w: LayoutNode) -> Option<(i32, Seq<u32>)> {
    match parse_i32_spec(name_chars(w)) {
        Some(id) => Some((id, handles_of(w))),
        None => None,
    }
}

/// The rows of a sequence of workspace nodes, in order, excluded workspaces
/// skipped.
pub open spec fn rows_of_nodes(ws: Seq<LayoutNode>) -> Seq<(i32, Seq<u32>)>
    decreases ws.len(),
{
    if ws.len() == 0 {
        Seq::<(i32, Seq<u32>)>::empty()
    } else {
        rows_of_nodes(ws.drop_last()) + (match row_of(ws.last()) {
            Some(r) => seq![r],
            None => Seq::<(i32, Seq<u32>)>::empty(),
        })
    }
}

/// One row per tracked workspace of the layout tree: the parsed workspace
/// identifier and the window handles discovered in that workspace's subtree.
pub open spec fn workspace_rows(root: LayoutNode) -> Seq<(i32, Seq<u32>)> {
    rows_of_nodes(matching_nodes(root, NodeKind::Workspace))
}

/// The view of collected rows as a sequence of identifier/handle pairs.
pub open spec fn rows_view(rows: Seq<(i32, Vec<u32>)>) -> Seq<(i32, Seq<u32>)> {
    rows.map_values(|p: (i32, Vec<u32>)| (p.0, p.1@))
}

/// Walks the layout tree once and collects, for each workspace whose display
/// name parses as an integer, the identifier and the window handles of the
/// window-bearing containers below it, in discovery order. Workspaces with
/// non-integer names and containers without a handle are skipped.
pub fn collect_workspace_windows(root: &LayoutNode) -> (rows: Vec<(i32, Vec<u32>)>)
    ensures
        rows_view(rows@) == workspace_rows(*root),
{
    let workspaces = filter_childs_by_type(root, NodeKind::Workspace);
    let ghost ws = views_of(workspaces@);
    let mut rows: Vec<(i32, Vec<u32>)> = Vec::new();
    proof {
        assert(ws.take(0) =~= Seq::<LayoutNode>::empty());
        assert(rows_view(rows@) =~= Seq::<(i32, Seq<u32>)>::empty());
    }
    let mut i: usize = 0;
    while i < workspaces.len()
        invariant
            i <= workspaces@.len(),
            ws == views_of(workspaces@),
            ws == matching_nodes(*root, NodeKind::Workspace),
            rows_view(rows@) == rows_of_nodes(ws.take(i as int)),
        decreases workspaces@.len() - i,
    {
        let w = workspaces[i];
        proof {
            assert(ws[i as int] == *w);
            assert(ws.take(i as int + 1).drop_last() =~= ws.take(i as int));
            assert(ws.take(i as int + 1).last() == ws[i as int]);
        }
        let parsed = match &w.name {
            Some(nm) => parse_workspace_id(nm.as_str()),
            None => None,
        };
        proof {
            assert(parsed == parse_i32_spec(name_chars(*w)));
        }
        match parsed {
            Some(id) => {
                let hs = collect_handles(w);
                let ghost before = rows_view(rows@);
                rows.push((id, hs));
                proof {
                    assert(rows_view(rows@) =~= before.push((id, hs@)));
                    assert(rows_view(rows@) =~= rows_of_nodes(ws.take(i as int))
                        + seq![(id, hs@)]);
                }
            },
            None => {
                proof {
                    assert(rows_view(rows@) =~= rows_of_nodes(ws.take(i as int))
                        + Seq::<(i32, Seq<u32>)>::empty());
                }
            },
        }
        i += 1;
    }
    proof {
        assert(ws.take(ws.len() as int) =~= ws);
    }
    rows
}

/// Collects the window handles of the window-bearing container nodes of the
/// subtree rooted at `w`, in discovery order; containers without a handle
/// are skipped.
fn collect_handles(w: &LayoutNode) -> (hs: Vec<u32>)
    ensures
        hs@ == handles_of(*w),
{
    let containers = filter_childs_by_type(w, NodeKind::Container);
    let ghost cs = views_of(containers@);
    let mut hs: Vec<u32> = Vec::new();
    proof {
        assert(cs.take(0) =~= Seq::<LayoutNode>::empty());
    }
    let mut j: usize = 0;
    while j < containers.len()
        invariant
            j <= containers@.len(),
            cs == views_of(containers@),
            cs == matching_nodes(*w, NodeKind::Container),
            hs@ == handles_of_nodes(cs.take(j as int)),
        decreases containers@.len() - j,
    {
        let c = containers[j];
        proof {
            assert(cs[j as int] == *c);
            assert(cs.take(j as int + 1).drop_last() =~= cs.take(j as int));
            assert(cs.take(j as int + 1).last() == cs[j as int]);
        }
        match c.window {
            Some(h) => {
                let ghost before = hs@;
                hs.push(h);
                proof {
                    assert(hs@ =~= before + seq![h]);
                }
            },
            None => {
                proof {
                    assert(hs@ =~= handles_of_nodes(cs.take(j as int)) + Seq::<u32>::empty());
                }
            },
        }
        j += 1;
    }
    proof {
        assert(cs.take(cs.len() as int) =~= cs);
    }
    hs
}

/// The identity a raw property-query outcome resolves to: `None` when the
/// query itself failed, otherwise the parse of its output bytes.
pub open spec fn ident_of_query(q: Option<Seq<u8>>) -> Option<(Seq<char>, Seq<char>)> {
    match q {
        Some(bytes) => wm_class_spec(bytes),
        None => None,
    }
}

/// The category row of one workspace, from the raw query outcomes of its
/// windows in order: each resolved identity is classified; unresolved
/// windows contribute nothing.
pub open spec fn categories_of_raw(row: Seq<Option<Seq<u8>>>) -> Seq<WindowCategory>
    decreases row.len(),
{
    if row.len() == 0 {
        Seq::<WindowCategory>::empty()
    } else {
        categories_of_raw(row.drop_last()) + (match ident_of_query(row.last()) {
            Some(p) => seq![category_spec(p.0, p.1)],
            None => Seq::<WindowCategory>::empty(),
        })
    }
}

/// The full table assembled from rows of raw query outcomes; on duplicate
/// workspace identifiers the later row wins.
pub open spec fn table_of_rows(rows: Seq<(i32, Seq<Option<Seq<u8>>>)>) -> Map<
    i32,
    Seq<WindowCategory>,
>
    decreases rows.len(),
{
    if rows.len() == 0 {
        Map::<i32, Seq<WindowCategory>>::empty()
    } else {
        table_of_rows(rows.drop_last()).insert(
            rows.last().0,
            categories_of_raw(rows.last().1),
        )
    }
}

/// The view of one row of raw query outcomes.
pub open spec fn raw_row_view(row: Seq<Option<Vec<u8>>>) -> Seq<Option<Seq<u8>>> {
    row.map_values(
        |q: Option<Vec<u8>>|
            match q {
                Some(v) => Some(v@),
                None => None,
            },
    )
}

/// The view of collected rows of raw query outcomes.
pub open spec fn raw_rows_view(rows: Seq<(i32, Vec<Option<Vec<u8>>>)>) -> Seq<
    (i32, Seq<Option<Seq<u8>>>),
> {
    rows.map_values(|r: (i32, Vec<Option<Vec<u8>>>)| (r.0, raw_row_view(r.1@)))
}

/// Builds the full workspace table from the collected rows and the raw
/// outcome of the property query of each window: per workspace, each
/// successfully parsed identity is classified, in order; failed queries and
/// malformed outputs are skipped silently. The result is a complete snapshot
/// keyed by workspace identifier.
pub fn build_table(rows: Vec<(i32, Vec<Option<Vec<u8>>>)>) -> (table: HashMap<
    i32,
    Vec<WindowCategory>,
>)
    ensures
        table@.dom() == table_of_rows(raw_rows_view(rows@)).dom(),
        forall|id: i32| #[trigger]
            table@.dom().contains(id) ==> table@[id]@ == table_of_rows(raw_rows_view(rows@))[id],
{
    let ghost all = raw_rows_view(rows@);
    let mut remaining = rows;
    let mut table: HashMap<i32, Vec<WindowCategory>> = HashMap::new();
    proof {
        assert(all.take(0) =~= Seq::<(i32, Seq<Option<Seq<u8>>>)>::empty());
        assert(raw_rows_view(remaining@) =~= all.skip(0));
    }
    let mut i: usize = 0;
    let n = remaining.len();
    while i < n
        invariant
            i <= n,
            n == all.len(),
            remaining@.len() == n - i,
            raw_rows_view(remaining@) == all.skip(i as int),
            table@.dom() == table_of_rows(all.take(i as int)).dom(),
            forall|id: i32| #[trigger]
                table@.dom().contains(id) ==> table@[id]@ == table_of_rows(all.take(i as int))[id],
        decreases n - i,
    {
        let ghost rem_before = raw_rows_view(remaining@);
        let row = remaining.remove(0);
        proof {
            assert(raw_rows_view(remaining@) =~= rem_before.drop_first());
            assert(rem_before.drop_first() =~= all.skip(i as int + 1));
            assert(rem_before[0] == all[i as int]);
            assert((row.0, raw_row_view(row.1@)) == all[i as int]);
        }
        let ghost tspec_before = table_of_rows(all.take(i as int));
        let cats = categories_of_row(row.1);
        proof {
            assert(all.take(i as int + 1).drop_last() =~= all.take(i as int));
            assert(all.take(i as int + 1).last() == all[i as int]);
        }
        let ghost cats_view = cats@;
        let ghost tb = table@;
        table.insert(row.0, cats);
        proof {
            let tspec = table_of_rows(all.take(i as int + 1));
            assert(tspec == tspec_before.insert(all[i as int].0, categories_of_raw(
                all[i as int].1,
            )));
            assert(cats_view == categories_of_raw(all[i as int].1));
            assert(table@ == tb.insert(row.0, cats));
            assert(table@.dom() =~= tspec.dom());
            assert forall|id: i32| #[trigger]
                table@.dom().contains(id) implies table@[id]@ == tspec[id] by {
                if id == row.0 {
                    assert(table@[id] == cats);
                    assert(tspec[id] == categories_of_raw(all[i as int].1));
                } else {
                    assert(table@[id] == tb[id]);
                    assert(tb.dom().contains(id));
                    assert(tspec[id] == tspec_before[id]);
                }
            }
        }
        i += 1;
    }
    proof {
        assert(all.take(n as int) =~= all);
    }
    table
}

/// Classifies one workspace's windows from the raw outcomes of their
/// property queries, in order; failed queries and unparsable outputs are
/// skipped.
fn categories_of_row(row: Vec<Option<Vec<u8>>>) -> (cats: Vec<WindowCategory>)
    ensures
        cats@ == categories_of_raw(raw_row_view(row@)),
{
    let ghost all = raw_row_view(row@);
    let mut remaining = row;
    let mut cats: Vec<WindowCategory> = Vec::new();
    proof {
        assert(all.take(0) =~= Seq::<Option<Seq<u8>>>::empty());
        assert(raw_row_view(remaining@) =~= all.skip(0));
        assert(cats@ =~= categories_of_raw(all.take(0)));
    }
    let mut j: usize = 0;
    let n = remaining.len();
    while j < n
        invariant
            j <= n,
            n == all.len(),
            remaining@.len() == n - j,
            raw_row_view(remaining@) == all.skip(j as int),
            cats@ == categories_of_raw(all.take(j as int)),
        decreases n - j,
    {
        let ghost rem_before = raw_row_view(remaining@);
        let q = remaining.remove(0);
        proof {
            assert(raw_row_view(remaining@) =~= rem_before.drop_first());
            assert(rem_before.drop_first() =~= all.skip(j as int + 1));
            assert(rem_before[0] == all[j as int]);
            assert(all.take(j as int + 1).drop_last() =~= all.take(j as int));
            assert(all.take(j as int + 1).last() == all[j as int]);
        }
        let ghost before = cats@;
        match q {
            Some(bytes) => {
                match parse_xprop_wm_class(bytes) {
                    Some(ident) => {
                        let ghost ident_view = (ident.0@, ident.1@);
                        let cat = classify_window(ident);
                        cats.push(cat);
                        proof {
                            assert(cats@ =~= before + seq![cat]);
                            assert(ident_of_query(all[j as int]) == Some(ident_view));
                        }
                    },
                    None => {
                        proof {
                            assert(cats@ =~= before + Seq::<WindowCategory>::empty());
                        }
                    },
                }
            },
            None => {
                proof {
                    assert(cats@ =~= before + Seq::<WindowCategory>::empty());
                }
            },
        }
        j += 1;
    }
    proof {
        assert(all.take(n as int) =~= all);
    }
    cats
}

/// A workspace's display name alone decides tracking: the node yields a
/// table row exactly when its name parses as an integer identifier, and the
/// row is keyed by that identifier. A workspace whose name does not parse —
/// `main`, say — is excluded from the table entirely.
pub proof fn lemma_tracking_by_name(w: LayoutNode)
    ensures
        (row_of(w) is Some) == (parse_i32_spec(name_chars(w)) is Some),
        row_of(w) matches Some(r) ==> parse_i32_spec(name_chars(w)) == Some(r.0) && r.1
            == handles_of(w),
{
}

/// Rebuilding is deterministic: two rebuilds that start from the same layout
/// tree and whose per-window property queries return the same outcomes
/// assemble structurally equal tables. Together with the contracts of
/// [`collect_workspace_windows`] and [`build_table`], which pin their
/// results as functions of the tree and the query outcomes alone, this says
/// that rebuilding twice with no intervening window-manager state change
/// yields two equal tables.
pub proof fn lemma_rebuild_deterministic(
    t1: Map<i32, Seq<WindowCategory>>,
    t2: Map<i32, Seq<WindowCategory>>,
    rows: Seq<(i32, Seq<Option<Seq<u8>>>)>,
)
    requires
        t1 == table_of_rows(rows),
        t2 == table_of_rows(rows),
    ensures
        t1 == t2,
{
}

} // verus!
