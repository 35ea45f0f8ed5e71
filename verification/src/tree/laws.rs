//! Properties of the directory tree's transitions that span several
//! calls or hold of every input.

use vstd::prelude::*;

use crate::config::DisplayFilter;
use crate::drag::{valid_target_spec, DragMsgView, DragOutcomeView};
use crate::cache::CachedView;
use crate::node::{
    admitted_spec, find_spec, fresh_spec, last_with_path, lemma_find_path, lemma_find_replace,
    lemma_last_with_path, lemma_refresh_list, lemma_replace_found, lemma_replace_replace, refresh_list,
    refresh_spec, refreshes_at, NodeView,
};
use crate::path::{contains_seq, depth_below_spec, parent_spec, file_name_spec, lossy_text, lower_seq, starts_with_spec};
use crate::scan::RequestView;
use crate::event::EventView;
use crate::keyboard::{key_spec, Modifiers, TreeKey};
use crate::search::{
    any_subtree_matches, match_count_list, match_count_spec, self_matches, subtree_matches, visible_set,
    visible_set_list,
};
use vstd::utf8::{encode_utf8, valid_utf8};
use crate::tree::transitions::{
    drag_spec, filter_spec, load_spec, search_spec, target_ok, toggle_spec, PayloadView,
};
use crate::tree::TreeView;
use crate::selection::{
    flags_synced, lemma_find_synced, lemma_push_distinct, lemma_remove_distinct, lemma_replace_synced,
    lemma_subrange_distinct, lemma_sync_gives_synced, lemma_sync_list, lemma_synced_list_all, SelectionMode,
};
use crate::path::first_index;
use crate::tree::transitions::{
    child_depth_spec, eligible_paths, lemma_row_index, merge_spec, prefetch_eligible, prefetch_targets_spec, range_paths,
    row_index, select_spec, skipped_spec,
};
use crate::tree::rows::rows_spec;

verus! {

/// A payload whose generation is not the tree's current one is
/// discarded, and the tree is left exactly as it was.
pub proof fn law_stale_payload_is_ignored(v: TreeView, pl: PayloadView)
    requires
        pl.generation != v.generation,
    ensures
        load_spec(v, pl) == (v, false, Seq::<crate::scan::RequestView>::empty()),
{
}

/// The tree never acts above its root: a gesture on a path that is not
/// the root or under it changes nothing and requests no scan.
pub proof fn law_outside_root_is_ignored(v: TreeView, p: Seq<Seq<u8>>)
    requires
        !starts_with_spec(p, v.root_path),
    ensures
        toggle_spec(v, p) == (v, Option::<crate::scan::RequestView>::None),
{
}

/// Expand an unloaded directory, collapse it while its scan is in
/// flight, and expand it again: the second expansion requests a fresh
/// scan under a new generation, and the first scan's result, arriving
/// late, is discarded without changing anything.
pub proof fn law_reexpansion_discards_the_first_scan(v: TreeView, p: Seq<Seq<u8>>, late: PayloadView)
    requires
        depth_below_spec(p, v.root_path) matches Some(d) && (v.max_depth matches Some(m) ==> d <= m),
        find_spec(v.root, p) matches Some(n) && n.is_dir && !n.is_expanded && !n.is_loaded,
        late.generation == toggle_spec(v, p).1->0.generation,
    ensures
        toggle_spec(v, p).1 is Some,
        ({
            let v1 = toggle_spec(v, p).0;
            let v2 = toggle_spec(v1, p).0;
            let (v3, r3) = toggle_spec(v2, p);
            &&& toggle_spec(v1, p).1 is None
            &&& r3 matches Some(q) && q.generation != late.generation
            &&& load_spec(v3, late) == (v3, false, Seq::<crate::scan::RequestView>::empty())
        }),
{
    let n = find_spec(v.root, p)->0;
    lemma_find_path(v.root, p);
    let v1 = toggle_spec(v, p).0;
    let n1 = NodeView { is_expanded: true, ..n };
    lemma_find_replace(v.root, p, n1);
    let v2 = toggle_spec(v1, p).0;
    let n2 = NodeView { is_expanded: false, ..n1 };
    lemma_find_replace(v1.root, p, n2);
}

/// Collapsing and re-expanding a loaded directory (or the reverse)
/// restores the state exactly, and neither gesture requests a scan.
pub proof fn law_toggle_loaded_twice_is_identity(v: TreeView, p: Seq<Seq<u8>>)
    requires
        depth_below_spec(p, v.root_path) is Some,
        find_spec(v.root, p) matches Some(n) && n.is_dir && n.is_loaded,
    ensures
        toggle_spec(v, p).1 is None,
        toggle_spec(toggle_spec(v, p).0, p).1 is None,
        toggle_spec(toggle_spec(v, p).0, p).0 == v,
{
    let n = find_spec(v.root, p)->0;
    lemma_find_path(v.root, p);
    let n1 = NodeView { is_expanded: !n.is_expanded, ..n };
    lemma_find_replace(v.root, p, n1);
    let v1 = toggle_spec(v, p).0;
    let n2 = NodeView { is_expanded: n.is_expanded, ..n1 };
    assert(n2 == n);
    lemma_replace_replace(v.root, p, n1, n);
    lemma_replace_found(v.root, p);
    assert(toggle_spec(v1, p).0.root == v.root);
}

/// Switching the display filter never scans: the generation, the cache,
/// the speculative-scan registry, the selection and an active drag are
/// all unchanged; setting the filter already in force changes nothing.
pub proof fn law_filter_change_is_free(v: TreeView, f: DisplayFilter)
    ensures
        filter_spec(v, v.filter) == v,
        filter_spec(v, f).generation == v.generation,
        filter_spec(v, f).cache == v.cache,
        filter_spec(v, f).prefetching == v.prefetching,
        filter_spec(v, f).selected == v.selected,
        filter_spec(v, f).drag == v.drag,
{
}

/// Searching never scans and never touches the selection, the node
/// graph or an active drag.
pub proof fn law_search_is_free(v: TreeView, q: Seq<char>, qb: Seq<u8>)
    ensures
        search_spec(v, q, qb) == (TreeView { search: search_spec(v, q, qb).search, ..v }),
{
}

/// A drag message changes nothing but the drag session.
pub proof fn law_drag_touches_only_the_session(v: TreeView, m: DragMsgView)
    ensures
        drag_spec(v, m).0 == (TreeView { drag: drag_spec(v, m).0.drag, ..v }),
{
}

/// A hovered target is always a valid one: a directory in the tree that
/// is neither a source nor under one.
pub proof fn law_hover_is_valid(v: TreeView, m: DragMsgView)
    requires
        v.drag matches Some(d) ==> (d.hovered_target matches Some(t) ==> target_ok(v.root, t, d.sources)),
    ensures
        drag_spec(v, m).0.drag matches Some(d) ==> (d.hovered_target matches Some(t) ==> target_ok(
            drag_spec(v, m).0.root,
            t,
            d.sources,
        )),
{
}

/// A completed drop never lands on a source or inside one.
pub proof fn law_completed_drop_is_valid(v: TreeView, m: DragMsgView)
    ensures
        drag_spec(v, m).1 matches DragOutcomeView::Completed { sources, destination } ==> (
        valid_target_spec(destination, sources, true) && forall|k: int|
            0 <= k < sources.len() ==> !starts_with_spec(destination, #[trigger] sources[k])),
{
    match drag_spec(v, m).1 {
        DragOutcomeView::Completed { sources, destination } => {
            assert forall|k: int| 0 <= k < sources.len() implies !starts_with_spec(
                destination,
                #[trigger] sources[k],
            ) by {}
        },
        _ => {},
    }
}

/// An accepted scan marks its directory loaded and leaves its expansion
/// as it was: a speculative scan loads a collapsed directory without
/// opening it.
pub proof fn law_merge_loads_without_expanding(v: TreeView, pl: PayloadView)
    requires
        load_spec(v, pl).1,
    ensures
        find_spec(v.root, pl.path) matches Some(n) && find_spec(load_spec(v, pl).0.root, pl.path) matches Some(
            m,
        ) && m.is_loaded && m.is_expanded == n.is_expanded,
{
    let n = find_spec(v.root, pl.path)->0;
    lemma_find_path(v.root, pl.path);
    let merged = crate::tree::transitions::merge_spec(n, pl.result, v.filter);
    lemma_find_replace(v.root, pl.path, merged);
    crate::selection::lemma_find_sync(crate::node::replace_spec(v.root, pl.path, merged), pl.path, v.selected);
}

/// A scan that was itself speculative never triggers more speculative
/// scans, and a user-initiated one triggers at most the configured
/// number.
pub proof fn law_prefetch_is_bounded(v: TreeView, pl: PayloadView)
    ensures
        load_spec(v, pl).2.len() <= v.prefetch_per_parent,
        v.prefetching.contains(pl.path) ==> load_spec(v, pl).2.len() == 0,
{
}

/// A freshly mounted tree starts with its flags in step: nothing is
/// selected and the root is unselected.
pub proof fn law_fresh_tree_is_synced(root_path: Seq<Seq<u8>>)
    ensures
        flags_synced(crate::tree::fresh_root_view(root_path), Seq::empty()),
{
    lemma_synced_list_all(Seq::<NodeView>::empty(), Seq::empty());
}

/// A node whose children are synced and whose own flag agrees is synced.
proof fn lemma_node_synced(n: NodeView, m: NodeView, sel: Seq<Seq<Seq<u8>>>)
    requires
        flags_synced(n, sel),
        m.path == n.path,
        m.is_selected == n.is_selected,
        m.children == n.children || m.children.len() == 0,
    ensures
        flags_synced(m, sel),
{
    if m.children.len() == 0 {
        lemma_synced_list_all(m.children, sel);
    }
}

/// Expanding or collapsing keeps each node's selection flag in step.
pub proof fn lemma_toggle_keeps_synced(v: TreeView, p: Seq<Seq<u8>>)
    requires
        flags_synced(v.root, v.selected),
    ensures
        flags_synced(toggle_spec(v, p).0.root, toggle_spec(v, p).0.selected),
{
    match find_spec(v.root, p) {
        Some(n) => {
            lemma_find_synced(v.root, p, v.selected);
            let e = NodeView { is_expanded: !n.is_expanded, ..n };
            lemma_node_synced(n, e, v.selected);
            lemma_replace_synced(v.root, p, e, v.selected);
            let t = NodeView { is_expanded: true, ..n };
            lemma_node_synced(n, t, v.selected);
            lemma_replace_synced(v.root, p, t, v.selected);
            let c = NodeView { is_expanded: false, ..n };
            lemma_node_synced(n, c, v.selected);
            lemma_replace_synced(v.root, p, c, v.selected);
            let z = NodeView { is_loaded: true, is_expanded: true, children: Seq::empty(), ..n };
            lemma_node_synced(n, z, v.selected);
            lemma_replace_synced(v.root, p, z, v.selected);
        },
        None => {},
    }
}

/// Every transition keeps each node's selection flag equal to whether
/// its path is selected: expand/collapse, merging a scan, switching the
/// filter, selecting, searching and dragging.
pub proof fn law_flags_stay_synced(
    v: TreeView,
    p: Seq<Seq<u8>>,
    pl: PayloadView,
    f: DisplayFilter,
    mode: SelectionMode,
    q: Seq<char>,
    qb: Seq<u8>,
    m: DragMsgView,
)
    requires
        flags_synced(v.root, v.selected),
    ensures
        flags_synced(toggle_spec(v, p).0.root, toggle_spec(v, p).0.selected),
        flags_synced(load_spec(v, pl).0.root, load_spec(v, pl).0.selected),
        flags_synced(filter_spec(v, f).root, filter_spec(v, f).selected),
        flags_synced(select_spec(v, p, mode).root, select_spec(v, p, mode).selected),
        flags_synced(search_spec(v, q, qb).root, search_spec(v, q, qb).selected),
        flags_synced(drag_spec(v, m).0.root, drag_spec(v, m).0.selected),
{
    lemma_toggle_keeps_synced(v, p);
    let w = load_spec(v, pl).0;
    if w != v {
        lemma_sync_gives_synced(
            crate::node::replace_spec(
                v.root,
                pl.path,
                crate::tree::transitions::merge_spec(find_spec(v.root, pl.path)->0, pl.result, v.filter),
            ),
            v.selected,
        );
    }
    if f != v.filter {
        lemma_sync_gives_synced(crate::node::refresh_spec(v.root, v.cache, f), v.selected);
    }
    let s = select_spec(v, p, mode).selected;
    lemma_sync_gives_synced(v.root, s);
}

/// Nodes whose paths agree one by one have the same last node per path.
proof fn lemma_last_with_path_same_paths(a: Seq<NodeView>, b: Seq<NodeView>, p: Seq<Seq<u8>>)
    requires
        a.len() == b.len(),
        forall|i: int| 0 <= i < a.len() ==> #[trigger] a[i].path == b[i].path,
    ensures
        last_with_path(a, p) == last_with_path(b, p),
    decreases a.len(),
{
    if a.len() > 0 {
        assert(a.last().path == b.last().path);
        assert forall|i: int| 0 <= i < a.drop_last().len() implies #[trigger] a.drop_last()[i].path
            == b.drop_last()[i].path by {
            assert(a[i].path == b[i].path);
        }
        lemma_last_with_path_same_paths(a.drop_last(), b.drop_last(), p);
    }
}

/// Re-deriving a loaded, error-free, cached directory under filter `f`
/// lists exactly the cached entries `f` admits, in order. A child whose
/// path was listed before (at its first admitted occurrence) keeps its
/// expansion, loaded state and error; any other child is a fresh,
/// collapsed, unloaded node.
pub proof fn law_refresh_rederives_children(
    n: NodeView,
    cache: Map<Seq<Seq<u8>>, CachedView>,
    f: DisplayFilter,
    k: int,
)
    requires
        refreshes_at(n, cache),
        0 <= k < admitted_spec(cache[n.path].entries, f).len(),
    ensures
        ({
            let adm = admitted_spec(cache[n.path].entries, f);
            let c = refresh_spec(n, cache, f).children;
            &&& c.len() == adm.len()
            &&& c[k].path == adm[k].path
            &&& match last_with_path(n.children, adm[k].path) {
                Some(q) => if forall|j: int| 0 <= j < k ==> #[trigger] adm[j].path != adm[k].path {
                    &&& c[k].is_expanded == n.children[q].is_expanded
                    &&& c[k].is_loaded == n.children[q].is_loaded
                    &&& c[k].error == n.children[q].error
                } else {
                    c[k] == fresh_spec(adm[k])
                },
                None => c[k] == fresh_spec(adm[k]),
            }
        }),
{
    let kids = refresh_list(n.children, cache, f);
    lemma_refresh_list(n.children, cache, f);
    let adm = admitted_spec(cache[n.path].entries, f);
    assert forall|i: int| 0 <= i < kids.len() implies #[trigger] kids[i].path == n.children[i].path by {
        assert(kids[i] == refresh_spec(n.children[i], cache, f));
    }
    lemma_last_with_path_same_paths(kids, n.children, adm[k].path);
    lemma_last_with_path(kids, adm[k].path);
    match last_with_path(n.children, adm[k].path) {
        Some(q) => {
            assert(kids[q] == refresh_spec(n.children[q], cache, f));
        },
        None => {},
    }
}

/// On a real filter change a loaded, error-free, cached root is
/// re-derived as [`law_refresh_rederives_children`] says; each of its
/// children's selection flag then tells whether its path is selected.
pub proof fn law_filter_rederives_root(v: TreeView, f: DisplayFilter, k: int)
    requires
        f != v.filter,
        refreshes_at(v.root, v.cache),
        0 <= k < admitted_spec(v.cache[v.root.path].entries, f).len(),
    ensures
        ({
            let w = filter_spec(v, f).root;
            let r = refresh_spec(v.root, v.cache, f);
            &&& w.children.len() == r.children.len()
            &&& w.children[k].path == r.children[k].path
            &&& w.children[k].is_expanded == r.children[k].is_expanded
            &&& w.children[k].is_loaded == r.children[k].is_loaded
            &&& w.children[k].error == r.children[k].error
            &&& w.children[k].is_selected == v.selected.contains(w.children[k].path)
        }),
{
    law_refresh_rederives_children(v.root, v.cache, f, k);
    let r = refresh_spec(v.root, v.cache, f);
    lemma_sync_list(r.children, v.selected);
}

/// The paths of the drawn rows, in row order.
pub open spec fn row_paths(v: TreeView) -> Seq<Seq<Seq<u8>>> {
    rows_spec(v).map_values(|x: (NodeView, u32)| x.0.path)
}

/// A selection gesture never repeats a path in the selection, provided
/// the selection did not before and, for a range, the drawn rows do not
/// repeat a path (they can when a scan lists one path twice).
pub proof fn law_selection_stays_distinct(v: TreeView, p: Seq<Seq<u8>>, mode: SelectionMode)
    requires
        v.selected.no_duplicates(),
        mode == SelectionMode::ExtendRange ==> row_paths(v).no_duplicates(),
    ensures
        select_spec(v, p, mode).selected.no_duplicates(),
{
    crate::path::lemma_first_index(v.selected, p);
    match mode {
        SelectionMode::Replace => {},
        SelectionMode::Toggle => match first_index(v.selected, p) {
            Some(i) => lemma_remove_distinct(v.selected, i),
            None => lemma_push_distinct(v.selected, p),
        },
        SelectionMode::ExtendRange => match v.anchor {
            None => {},
            Some(a) => {
                let rows = rows_spec(v);
                match (row_index(rows, a), row_index(rows, p)) {
                    (Some(ai), Some(ti)) => {
                        lemma_row_index(rows, a);
                        lemma_row_index(rows, p);
                        let (lo, hi) = if ai <= ti { (ai, ti) } else { (ti, ai) };
                        assert(range_paths(rows, lo, hi) =~= row_paths(v).subrange(lo, hi + 1));
                        lemma_subrange_distinct(row_paths(v), lo, hi + 1);
                    },
                    _ => {},
                }
            },
        },
    }
}

/// No skip-list entry names `name`, ASCII case aside.
pub open spec fn not_on_skip_list(name: Seq<u8>, skip: Seq<Seq<u8>>) -> bool {
    forall|j: int| 0 <= j < skip.len() ==> lower_seq(#[trigger] skip[j]) != lower_seq(name)
}

/// `p` is the path of a child in `cs` that is eligible for prefetch.
spec fn eligible_child(cs: Seq<NodeView>, p: Seq<Seq<u8>>, skip: Seq<Seq<u8>>, max_depth: Option<u32>, d: u32) -> bool {
    exists|k: int| 0 <= k < cs.len() && prefetch_eligible(cs[k], skip, max_depth, d) && cs[k].path == p
}

proof fn lemma_eligible_paths(cs: Seq<NodeView>, skip: Seq<Seq<u8>>, max_depth: Option<u32>, d: u32)
    ensures
        eligible_paths(cs, skip, max_depth, d).len() <= cs.len(),
        forall|k: int|
            0 <= k < cs.len() && prefetch_eligible(cs[k], skip, max_depth, d) ==> eligible_paths(
                cs,
                skip,
                max_depth,
                d,
            ).contains(#[trigger] cs[k].path),
        forall|j: int|
            0 <= j < eligible_paths(cs, skip, max_depth, d).len() ==> eligible_child(
                cs,
                #[trigger] eligible_paths(cs, skip, max_depth, d)[j],
                skip,
                max_depth,
                d,
            ),
    decreases cs.len(),
{
    if cs.len() > 0 {
        let p = cs.drop_last();
        lemma_eligible_paths(p, skip, max_depth, d);
        let a = eligible_paths(p, skip, max_depth, d);
        let e = eligible_paths(cs, skip, max_depth, d);
        assert forall|k: int| 0 <= k < cs.len() && prefetch_eligible(cs[k], skip, max_depth, d) implies e.contains(
            #[trigger] cs[k].path,
        ) by {
            if k < cs.len() - 1 {
                assert(p[k] == cs[k]);
                assert(a.contains(p[k].path));
                let i = choose|i: int| 0 <= i < a.len() && a[i] == p[k].path;
                assert(e[i] == a[i]);
            } else {
                assert(e[e.len() - 1] == cs[k].path);
            }
        }
        assert forall|j: int| 0 <= j < e.len() implies eligible_child(cs, #[trigger] e[j], skip, max_depth, d) by {
            if j < a.len() {
                assert(e[j] == a[j]);
                assert(eligible_child(p, a[j], skip, max_depth, d));
                let k = choose|k: int|
                    0 <= k < p.len() && prefetch_eligible(p[k], skip, max_depth, d) && p[k].path == a[j];
                assert(cs[k] == p[k]);
                assert(0 <= k < cs.len() && prefetch_eligible(cs[k], skip, max_depth, d) && cs[k].path == e[j]);
            } else {
                let k = cs.len() - 1;
                assert(prefetch_eligible(cs.last(), skip, max_depth, d));
                assert(0 <= k < cs.len() && prefetch_eligible(cs[k], skip, max_depth, d) && cs[k].path == e[j]);
            }
        }
    } else {
        assert(eligible_paths(cs, skip, max_depth, d) =~= Seq::empty());
    }
}

/// After a user-initiated scan of `pl.path` is merged, every child of
/// that directory which is an unloaded directory, not on the skip list
/// and at a depth within the cap (a child one level below the scanned
/// directory may sit exactly at the cap) is requested for speculative
/// loading at that depth under the new generation, provided the limit
/// covers all the children.
pub proof fn law_prefetch_requests_every_eligible_child(v: TreeView, pl: PayloadView, k: int)
    requires
        pl.generation == v.generation,
        find_spec(v.root, pl.path) is Some,
        !v.prefetching.contains(pl.path),
        pl.depth < u32::MAX,
        ({
            let kids = merge_spec(find_spec(v.root, pl.path)->0, pl.result, v.filter).children;
            &&& 0 <= k < kids.len()
            &&& kids.len() <= v.prefetch_per_parent
            &&& kids[k].is_dir
            &&& !kids[k].is_loaded
            &&& not_on_skip_list(file_name_spec(kids[k].path), v.prefetch_skip)
            &&& (v.max_depth matches Some(m) ==> pl.depth + 1 <= m)
        }),
    ensures
        load_spec(v, pl).1,
        ({
            let kids = merge_spec(find_spec(v.root, pl.path)->0, pl.result, v.filter).children;
            let reqs = load_spec(v, pl).2;
            exists|j: int|
                0 <= j < reqs.len() && #[trigger] reqs[j] == (RequestView {
                    path: kids[k].path,
                    generation: load_spec(v, pl).0.generation,
                    depth: (pl.depth + 1) as u32,
                })
        }),
{
    let kids = merge_spec(find_spec(v.root, pl.path)->0, pl.result, v.filter).children;
    let d = child_depth_spec(pl.depth);
    assert(d == pl.depth + 1);
    lemma_eligible_paths(kids, v.prefetch_skip, v.max_depth, d);
    assert(!skipped_spec(file_name_spec(kids[k].path), v.prefetch_skip)) by {
        if skipped_spec(file_name_spec(kids[k].path), v.prefetch_skip) {
            let j = choose|j: int|
                0 <= j < v.prefetch_skip.len() && lower_seq(#[trigger] v.prefetch_skip[j]) == lower_seq(
                    file_name_spec(kids[k].path),
                );
            assert(lower_seq(v.prefetch_skip[j]) != lower_seq(file_name_spec(kids[k].path)));
        }
    }
    assert(prefetch_eligible(kids[k], v.prefetch_skip, v.max_depth, d));
    let e = eligible_paths(kids, v.prefetch_skip, v.max_depth, d);
    assert(e.contains(kids[k].path));
    let i = choose|i: int| 0 <= i < e.len() && e[i] == kids[k].path;
    let reqs = load_spec(v, pl).2;
    assert(reqs[i] == RequestView { path: kids[k].path, generation: load_spec(v, pl).0.generation, depth: d });
}

/// After a user-initiated scan is merged, each child of the scanned
/// directory that is an unloaded directory, not on the skip list and at a
/// depth within the cap is requested, unless the requests already reach
/// the configured limit.
pub proof fn law_prefetch_fills_up_to_the_limit(v: TreeView, pl: PayloadView, k: int)
    requires
        pl.generation == v.generation,
        find_spec(v.root, pl.path) is Some,
        !v.prefetching.contains(pl.path),
        pl.depth < u32::MAX,
        ({
            let kids = merge_spec(find_spec(v.root, pl.path)->0, pl.result, v.filter).children;
            &&& 0 <= k < kids.len()
            &&& kids[k].is_dir
            &&& !kids[k].is_loaded
            &&& not_on_skip_list(file_name_spec(kids[k].path), v.prefetch_skip)
            &&& (v.max_depth matches Some(m) ==> pl.depth + 1 <= m)
        }),
    ensures
        ({
            let kids = merge_spec(find_spec(v.root, pl.path)->0, pl.result, v.filter).children;
            let reqs = load_spec(v, pl).2;
            ||| reqs.len() == v.prefetch_per_parent
            ||| exists|j: int| 0 <= j < reqs.len() && #[trigger] reqs[j].path == kids[k].path
        }),
{
    let kids = merge_spec(find_spec(v.root, pl.path)->0, pl.result, v.filter).children;
    let d = child_depth_spec(pl.depth);
    lemma_eligible_paths(kids, v.prefetch_skip, v.max_depth, d);
    assert(!skipped_spec(file_name_spec(kids[k].path), v.prefetch_skip)) by {
        if skipped_spec(file_name_spec(kids[k].path), v.prefetch_skip) {
            let j = choose|j: int|
                0 <= j < v.prefetch_skip.len() && lower_seq(#[trigger] v.prefetch_skip[j]) == lower_seq(
                    file_name_spec(kids[k].path),
                );
            assert(lower_seq(v.prefetch_skip[j]) != lower_seq(file_name_spec(kids[k].path)));
        }
    }
    assert(prefetch_eligible(kids[k], v.prefetch_skip, v.max_depth, d));
    let e = eligible_paths(kids, v.prefetch_skip, v.max_depth, d);
    assert(e.contains(kids[k].path));
    let reqs = load_spec(v, pl).2;
    if e.len() <= v.prefetch_per_parent {
        let i = choose|i: int| 0 <= i < e.len() && e[i] == kids[k].path;
        assert(reqs[i].path == kids[k].path);
    }
}

/// Every speculative request after a merge names a child of the scanned
/// directory that is an unloaded directory, not on the skip list, at a
/// depth within the cap; there are at most as many as the limit, and
/// none at all after a scan that was itself speculative.
pub proof fn law_prefetch_requests_are_eligible(v: TreeView, pl: PayloadView, j: int)
    requires
        0 <= j < load_spec(v, pl).2.len(),
    ensures
        ({
            let kids = merge_spec(find_spec(v.root, pl.path)->0, pl.result, v.filter).children;
            let r = load_spec(v, pl).2[j];
            &&& !v.prefetching.contains(pl.path)
            &&& load_spec(v, pl).2.len() <= v.prefetch_per_parent
            &&& r.depth == child_depth_spec(pl.depth)
            &&& (v.max_depth matches Some(m) ==> r.depth <= m)
            &&& exists|k: int|
                0 <= k < kids.len() && #[trigger] kids[k].path == r.path && kids[k].is_dir && !kids[k].is_loaded
                    && not_on_skip_list(file_name_spec(kids[k].path), v.prefetch_skip)
        }),
{
    let kids = merge_spec(find_spec(v.root, pl.path)->0, pl.result, v.filter).children;
    let d = child_depth_spec(pl.depth);
    lemma_eligible_paths(kids, v.prefetch_skip, v.max_depth, d);
    let e = eligible_paths(kids, v.prefetch_skip, v.max_depth, d);
    let limit = if v.prefetching.contains(pl.path) { 0 } else { v.prefetch_per_parent };
    let t = prefetch_targets_spec(kids, v.prefetch_skip, v.max_depth, d, limit);
    assert(t.len() > 0);
    assert(t[j] == e[j]);
    assert(eligible_child(kids, e[j], v.prefetch_skip, v.max_depth, d));
    let k = choose|k: int|
        0 <= k < kids.len() && prefetch_eligible(kids[k], v.prefetch_skip, v.max_depth, d) && kids[k].path == e[j];
    assert(kids[k].path == load_spec(v, pl).2[j].path);
    assert forall|x: int| 0 <= x < v.prefetch_skip.len() implies lower_seq(#[trigger] v.prefetch_skip[x]) != lower_seq(
        file_name_spec(kids[k].path),
    ) by {
        if lower_seq(v.prefetch_skip[x]) == lower_seq(file_name_spec(kids[k].path)) {
            assert(skipped_spec(file_name_spec(kids[k].path), v.prefetch_skip));
        }
    }
}

/// Search compares basenames without regard to ASCII letter case: for a
/// query `qb`, a node whose basename is valid UTF-8 is a direct match
/// exactly when its basename, ASCII-lower-cased, contains the query,
/// ASCII-lower-cased. Two basenames that differ only in ASCII case match
/// alike, and a childless node is shown and counted exactly when it
/// matches. A basename that is not valid UTF-8 is compared the same way
/// after `String::from_utf8_lossy` has read it.
pub proof fn law_search_ignores_ascii_case(v: TreeView, q: Seq<char>, qb: Seq<u8>, n: NodeView, m: NodeView)
    requires
        q.len() > 0,
        valid_utf8(file_name_spec(n.path)),
        valid_utf8(file_name_spec(m.path)) ==> lower_seq(file_name_spec(n.path)) == lower_seq(
            file_name_spec(m.path),
        ),
        n.children.len() == 0,
    ensures
        search_spec(v, q, qb).search is Some,
        ({
            let ql = search_spec(v, q, qb).search->0.query_lower;
            let hit = contains_seq(lower_seq(file_name_spec(n.path)), lower_seq(qb));
            &&& ql == lower_seq(qb)
            &&& self_matches(n, ql) == hit
            &&& (!valid_utf8(file_name_spec(m.path)) ==> self_matches(m, ql) == contains_seq(
                lower_seq(encode_utf8(lossy_text(file_name_spec(m.path)))),
                ql,
            ))
            &&& (valid_utf8(file_name_spec(m.path)) ==> self_matches(m, ql) == hit)
            &&& match_count_spec(n, ql) == (if hit { 1nat } else { 0nat })
            &&& visible_set(n, ql).contains(n.path) == hit
        }),
{
    let ql = lower_seq(qb);
    assert(match_count_list(n.children, ql) == 0);
    assert(!any_subtree_matches(n.children, ql));
    assert(visible_set_list(n.children, ql) =~= Set::empty());
}

/// `i` is the first drawn row holding the active path.
pub open spec fn active_at(v: TreeView, i: int) -> bool {
    &&& 0 <= i < rows_spec(v).len()
    &&& v.active == Some(rows_spec(v)[i].0.path)
    &&& forall|j: int| 0 <= j < i ==> #[trigger] rows_spec(v)[j].0.path != rows_spec(v)[i].0.path
}

proof fn lemma_active_row(v: TreeView, i: int)
    requires
        active_at(v, i),
    ensures
        row_index(rows_spec(v), rows_spec(v)[i].0.path) == Some(i),
{
    let rows = rows_spec(v);
    let p = rows[i].0.path;
    lemma_row_index(rows, p);
    match row_index(rows, p) {
        Some(k) => {
            if k < i {
                assert(rows[k].0.path != p);
            }
            if k > i {
                assert(rows[i].0.path != p);
            }
        },
        None => {
            assert(rows[i].0.path != p);
        },
    }
}

/// The event that selects drawn row `k` with mode `m`.
pub open spec fn select_event(v: TreeView, k: int, m: SelectionMode) -> Option<EventView> {
    Some(EventView::Selected { path: rows_spec(v)[k].0.path, is_dir: rows_spec(v)[k].0.is_dir, mode: m })
}

/// Keyboard on the active row `i`: Space toggles its selection whatever
/// the modifiers; Enter expands or collapses it when it is a directory
/// and does nothing on a file; Up and Down select the row above and
/// below, doing nothing past the ends, extending the range with Shift and
/// replacing the selection otherwise.
pub proof fn law_keys_on_the_active_row(v: TreeView, mods: Modifiers, i: int)
    requires
        active_at(v, i),
    ensures
        ({
            let rows = rows_spec(v);
            let m = if mods.shift { SelectionMode::ExtendRange } else { SelectionMode::Replace };
            &&& key_spec(v, TreeKey::Space, mods) == select_event(v, i, SelectionMode::Toggle)
            &&& rows[i].0.is_dir ==> key_spec(v, TreeKey::Enter, mods) == Some(EventView::Toggled(rows[i].0.path))
            &&& !rows[i].0.is_dir ==> key_spec(v, TreeKey::Enter, mods) is None
            &&& i > 0 ==> key_spec(v, TreeKey::Up, mods) == select_event(v, i - 1, m)
            &&& i == 0 ==> key_spec(v, TreeKey::Up, mods) is None
            &&& i + 1 < rows.len() ==> key_spec(v, TreeKey::Down, mods) == select_event(v, i + 1, m)
            &&& i + 1 == rows.len() ==> key_spec(v, TreeKey::Down, mods) is None
        }),
{
    lemma_active_row(v, i);
}

/// Without a drawn active row, Up, Down, Enter, Space, Left and Right do
/// nothing.
pub proof fn law_keys_without_active_row(v: TreeView, mods: Modifiers)
    requires
        v.active matches Some(a) ==> forall|j: int| 0 <= j < rows_spec(v).len() ==> #[trigger] rows_spec(v)[j].0.path != a,
    ensures
        key_spec(v, TreeKey::Up, mods) is None,
        key_spec(v, TreeKey::Down, mods) is None,
        key_spec(v, TreeKey::Enter, mods) is None,
        key_spec(v, TreeKey::Space, mods) is None,
        key_spec(v, TreeKey::Left, mods) is None,
        key_spec(v, TreeKey::Right, mods) is None,
{
    match v.active {
        Some(a) => {
            lemma_row_index(rows_spec(v), a);
            if row_index(rows_spec(v), a) is Some {
                let k = row_index(rows_spec(v), a)->0;
                assert(rows_spec(v)[k].0.path != a);
            }
        },
        None => {},
    }
}

/// Home and End select the first and the last drawn row, with or without
/// an active row, extending the range with Shift; Escape cancels an
/// active drag and otherwise does nothing.
pub proof fn law_home_end_escape(v: TreeView, mods: Modifiers)
    requires
        rows_spec(v).len() > 0,
    ensures
        ({
            let m = if mods.shift { SelectionMode::ExtendRange } else { SelectionMode::Replace };
            &&& key_spec(v, TreeKey::Home, mods) == select_event(v, 0, m)
            &&& key_spec(v, TreeKey::End, mods) == select_event(v, rows_spec(v).len() - 1, m)
            &&& v.drag is Some ==> key_spec(v, TreeKey::Escape, mods) == Some(EventView::Drag(DragMsgView::Cancelled))
            &&& v.drag is None ==> key_spec(v, TreeKey::Escape, mods) is None
        }),
{
}

/// Left on the active row collapses an expanded directory; otherwise it
/// selects the parent directory, except at the mounted root. Right on a
/// collapsed directory expands it, and on a file does nothing.
pub proof fn law_left_right_on_the_active_row(v: TreeView, mods: Modifiers, i: int)
    requires
        active_at(v, i),
    ensures
        ({
            let n = rows_spec(v)[i].0;
            &&& n.is_dir && n.is_expanded ==> key_spec(v, TreeKey::Left, mods) == Some(EventView::Toggled(n.path))
            &&& !(n.is_dir && n.is_expanded) && n.path == v.root_path ==> key_spec(v, TreeKey::Left, mods) is None
            &&& (!(n.is_dir && n.is_expanded) && n.path != v.root_path && parent_spec(n.path) is Some)
                ==> key_spec(v, TreeKey::Left, mods) == Some(
                EventView::Selected {
                    path: n.path.drop_last(),
                    is_dir: true,
                    mode: SelectionMode::Replace,
                },
            )
            &&& n.is_dir && !n.is_expanded ==> key_spec(v, TreeKey::Right, mods) == Some(EventView::Toggled(n.path))
            &&& !n.is_dir ==> key_spec(v, TreeKey::Right, mods) is None
        }),
{
    lemma_active_row(v, i);
}

proof fn lemma_search_list(s: Seq<NodeView>, q: Seq<u8>, k: int)
    requires
        0 <= k < s.len(),
    ensures
        visible_set(s[k], q).subset_of(visible_set_list(s, q)),
        subtree_matches(s[k], q) ==> any_subtree_matches(s, q),
        match_count_spec(s[k], q) <= match_count_list(s, q),
    decreases s.len(),
{
    if k < s.len() - 1 {
        lemma_search_list(s.drop_last(), q, k);
        assert(s.drop_last()[k] == s[k]);
    }
}

/// Search shows every ancestor of a match: when a child's subtree holds
/// a match, both the child and its parent are shown; a node that matches
/// is shown; whatever a child shows its parent shows too; and a parent
/// counts at least the matches of each child. Expansion plays no part.
pub proof fn law_search_shows_ancestors(n: NodeView, q: Seq<u8>, k: int)
    requires
        0 <= k < n.children.len(),
    ensures
        self_matches(n, q) ==> visible_set(n, q).contains(n.path),
        visible_set(n.children[k], q).subset_of(visible_set(n, q)),
        self_matches(n.children[k], q) ==> visible_set(n, q).contains(n.children[k].path) && visible_set(
            n,
            q,
        ).contains(n.path),
        subtree_matches(n.children[k], q) ==> visible_set(n, q).contains(n.path),
        match_count_spec(n.children[k], q) <= match_count_spec(n, q),
        match_count_spec(n, q) == (if self_matches(n, q) { 1nat } else { 0nat }) + match_count_list(n.children, q),
{
    lemma_search_list(n.children, q, k);
}

} // verus!
