//! State transitions of the lazy-loading state machine.
//!
//! Transitions mutate synchronously and return side effects as data;
//! none of them performs I/O.

use vstd::prelude::*;

use crate::cache::CachedView;
use crate::config::DisplayFilter;
use crate::entry::EntryView;
use crate::error::IssueView;
use crate::node::{
    children_view, find_spec, lemma_children_view, rebuild_children, rebuild_spec,
    replace_spec, NodeView, TreeNode,
};
use crate::path::{
    bytes_eq, depth_below_spec, file_name_spec, first_index, lower_bytes, lower_seq, paths_contain,
    paths_view, position_of, TreePath,
};
use crate::scan::{requests_view, result_view, LoadPayload, LoadedOutcome, RequestView, ScanRequest};
use crate::search::{match_count_spec, sat_add, visible_set, walk_for_search};
use crate::selection::{lemma_sync_gives_synced, sync_flags, sync_spec};
use crate::node::{refresh_from_cache, refresh_spec};
use crate::selection::SelectionMode;
use crate::tree::rows::{rows_spec, rows_view};
use crate::tree::{DirectoryTree, SearchView, TreeView};
use crate::drag::{
    is_valid_target, valid_target_spec, DragMsg, DragMsgView, DragOutcome, DragOutcomeView,
    DragState, DragView,
};
use crate::path::bytes_of_str;
use crate::search::SearchState;
use vstd::string::StringSliceAdditionalSpecFns;

verus! {

/// The generation after a bump: the counter wraps.
pub open spec fn next_generation(g: u32) -> u32 {
    if g == u32::MAX {
        0
    } else {
        (g + 1) as u32
    }
}

/// The value of an optional scan request.
pub open spec fn opt_request_view(r: Option<ScanRequest>) -> Option<RequestView> {
    match r {
        Some(q) => Some(q@),
        None => None,
    }
}

/// Effect of an expand/collapse gesture on `p`: the new state and the
/// scan to run, if any.
///
/// - `p` not under the root, not in the tree, or a file: nothing.
/// - expanded directory: collapse (no generation bump).
/// - collapsed and loaded: expand, no scan.
/// - collapsed and unloaded beyond `max_depth`: loaded, expanded, empty.
/// - collapsed and unloaded otherwise: expand, bump the generation, drop
///   `p` from the speculative-scan registry, and request a scan of `p`.
pub open spec fn toggle_spec(v: TreeView, p: Seq<Seq<u8>>) -> (TreeView, Option<RequestView>) {
    match depth_below_spec(p, v.root_path) {
        None => (v, None),
        Some(depth) => match find_spec(v.root, p) {
            None => (v, None),
            Some(n) => if !n.is_dir {
                (v, None)
            } else if n.is_expanded {
                (
                    TreeView {
                        root: replace_spec(v.root, p, NodeView { is_expanded: false, ..n }),
                        ..v
                    },
                    None,
                )
            } else if n.is_loaded {
                (
                    TreeView {
                        root: replace_spec(v.root, p, NodeView { is_expanded: true, ..n }),
                        ..v
                    },
                    None,
                )
            } else if v.max_depth matches Some(m) && depth > m {
                (
                    TreeView {
                        root: replace_spec(
                            v.root,
                            p,
                            NodeView {
                                is_loaded: true,
                                is_expanded: true,
                                children: Seq::empty(),
                                ..n
                            },
                        ),
                        ..v
                    },
                    None,
                )
            } else {
                let g = next_generation(v.generation);
                (
                    TreeView {
                        root: replace_spec(v.root, p, NodeView { is_expanded: true, ..n }),
                        generation: g,
                        prefetching: v.prefetching.remove(p),
                        ..v
                    },
                    Some(RequestView { path: p, generation: g, depth }),
                )
            },
        },
    }
}

/// Remove `p` from a duplicate-free path list.
pub(crate) fn remove_path(paths: &mut Vec<TreePath>, p: &TreePath)
    requires
        paths_view(old(paths)@).no_duplicates(),
    ensures
        paths_view(final(paths)@).no_duplicates(),
        paths_view(final(paths)@).to_set() == paths_view(old(paths)@).to_set().remove(p@),
{
    let ghost s = paths_view(paths@);
    match position_of(paths, p) {
        Some(i) => {
            paths.remove(i);
            proof {
                let t = paths_view(paths@);
                assert(t =~= s.remove(i as int));
                assert forall|a: int, b: int| 0 <= a < b < t.len() implies t[a] != t[b] by {
                    let a2 = if a < i { a } else { a + 1 };
                    let b2 = if b < i { b } else { b + 1 };
                    assert(t[a] == s[a2]);
                    assert(t[b] == s[b2]);
                }
                assert forall|x: Seq<Seq<u8>>| t.to_set().contains(x) <==> s.to_set().remove(
                    p@,
                ).contains(x) by {
                    if t.contains(x) {
                        let k = choose|k: int| 0 <= k < t.len() && t[k] == x;
                        let k2 = if k < i { k } else { k + 1 };
                        assert(s[k2] == x);
                        assert(k2 != i);
                        assert(s[i as int] == p@);
                        assert(x != p@);
                        assert(s.to_set().contains(x));
                    }
                    if s.contains(x) && x != p@ {
                        let k = choose|k: int| 0 <= k < s.len() && s[k] == x;
                        assert(k != i);
                        let k2 = if k < i { k } else { k - 1 };
                        assert(t[k2] == x);
                    }
                }
                assert(t.to_set() =~= s.to_set().remove(p@));
            }
        },
        None => {
            proof {
                assert(s.to_set() =~= s.to_set().remove(p@));
            }
        },
    }
}

/// The mathematical value of a payload.
pub struct PayloadView {
    pub path: Seq<Seq<u8>>,
    pub generation: u32,
    pub depth: u32,
    pub result: Result<Seq<EntryView>, IssueView>,
}

impl View for LoadPayload {
    type V = PayloadView;

    open spec fn view(&self) -> PayloadView {
        PayloadView {
            path: self.path@,
            generation: self.generation,
            depth: self.depth,
            result: result_view(self.result),
        }
    }
}

/// A node after a scan result is merged into it: rebuilt children and no
/// error on success; no children and the error on failure. Either way
/// it counts as loaded.
pub open spec fn merge_spec(
    n: NodeView,
    result: Result<Seq<EntryView>, IssueView>,
    f: DisplayFilter,
) -> NodeView {
    match result {
        Ok(es) => NodeView {
            children: rebuild_spec(n.children, es, f),
            error: None,
            is_loaded: true,
            ..n
        },
        Err(issue) => NodeView { children: Seq::empty(), error: Some(issue), is_loaded: true, ..n },
    }
}

/// Whether a basename is on the skip list (ASCII case-insensitive).
pub open spec fn skipped_spec(name: Seq<u8>, skip: Seq<Seq<u8>>) -> bool {
    exists|j: int| 0 <= j < skip.len() && lower_seq(#[trigger] skip[j]) == lower_seq(name)
}

/// A child is prefetched when it is an unloaded directory, not on the
/// skip list, and within the depth cap.
pub open spec fn prefetch_eligible(
    c: NodeView,
    skip: Seq<Seq<u8>>,
    max_depth: Option<u32>,
    child_depth: u32,
) -> bool {
    &&& c.is_dir
    &&& !c.is_loaded
    &&& !skipped_spec(file_name_spec(c.path), skip)
    &&& (max_depth matches Some(m) ==> child_depth <= m)
}

/// Paths of the eligible children, in order.
pub open spec fn eligible_paths(
    cs: Seq<NodeView>,
    skip: Seq<Seq<u8>>,
    max_depth: Option<u32>,
    child_depth: u32,
) -> Seq<Seq<Seq<u8>>>
    decreases cs.len(),
{
    if cs.len() == 0 {
        Seq::empty()
    } else {
        let a = eligible_paths(cs.drop_last(), skip, max_depth, child_depth);
        if prefetch_eligible(cs.last(), skip, max_depth, child_depth) {
            a.push(cs.last().path)
        } else {
            a
        }
    }
}

/// The first `limit` eligible children.
pub open spec fn prefetch_targets_spec(
    cs: Seq<NodeView>,
    skip: Seq<Seq<u8>>,
    max_depth: Option<u32>,
    child_depth: u32,
    limit: usize,
) -> Seq<Seq<Seq<u8>>> {
    let e = eligible_paths(cs, skip, max_depth, child_depth);
    if e.len() <= limit {
        e
    } else {
        e.take(limit as int)
    }
}

/// Depth of a child of a node at depth `d` (saturating).
pub open spec fn child_depth_spec(d: u32) -> u32 {
    if d == u32::MAX {
        d
    } else {
        (d + 1) as u32
    }
}

/// The search session recomputed over the node graph `root`.
pub open spec fn recompute_spec(s: Option<SearchView>, root: NodeView) -> Option<SearchView> {
    match s {
        None => None,
        Some(sv) => Some(
            SearchView {
                visible: visible_set(root, sv.query_lower),
                match_count: sat_add(0, match_count_spec(root, sv.query_lower) as int) as usize,
                ..sv
            },
        ),
    }
}

/// Effect of merging a completed scan: the new state, whether the
/// payload was accepted, and the speculative scans to issue.
///
/// A payload is accepted iff its generation equals the current counter
/// and its path is in the tree; otherwise nothing changes. On acceptance
/// the node is merged (see [`merge_spec`]), successful raw entries are
/// cached, selection flags are re-synced, the path leaves the
/// speculative-scan registry, an active search is recomputed, and, for a
/// scan that was not itself speculative, up to `prefetch_per_parent`
/// eligible child directories are requested under one fresh generation
/// and entered in the registry.
pub open spec fn load_spec(v: TreeView, pl: PayloadView) -> (TreeView, bool, Seq<RequestView>) {
    if pl.generation != v.generation {
        (v, false, Seq::empty())
    } else {
        match find_spec(v.root, pl.path) {
            None => (v, false, Seq::empty()),
            Some(n) => {
                let merged = merge_spec(n, pl.result, v.filter);
                let root = sync_spec(replace_spec(v.root, pl.path, merged), v.selected);
                let cache = match pl.result {
                    Ok(es) => v.cache.insert(
                        pl.path,
                        CachedView { generation: pl.generation, entries: es },
                    ),
                    Err(_) => v.cache,
                };
                let limit = if v.prefetching.contains(pl.path) {
                    0
                } else {
                    v.prefetch_per_parent
                };
                let cd = child_depth_spec(pl.depth);
                let targets = prefetch_targets_spec(
                    merged.children,
                    v.prefetch_skip,
                    v.max_depth,
                    cd,
                    limit,
                );
                let registry = v.prefetching.remove(pl.path);
                if targets.len() == 0 {
                    (
                        TreeView {
                            root,
                            cache,
                            prefetching: registry,
                            search: recompute_spec(v.search, root),
                            ..v
                        },
                        true,
                        Seq::empty(),
                    )
                } else {
                    let g = next_generation(v.generation);
                    (
                        TreeView {
                            root,
                            cache,
                            generation: g,
                            prefetching: registry.union(targets.to_set()),
                            search: recompute_spec(v.search, root),
                            ..v
                        },
                        true,
                        targets.map_values(
                            |t: Seq<Seq<u8>>| RequestView { path: t, generation: g, depth: cd },
                        ),
                    )
                }
            },
        }
    }
}

/// Whether `name` is on the skip list, ASCII case-insensitively.
fn is_skipped(name: &Vec<u8>, skip: &Vec<Vec<u8>>) -> (r: bool)
    ensures
        r == skipped_spec(name@, skip@.map_values(|c: Vec<u8>| c@)),
{
    let lname = lower_bytes(name);
    let ghost sv = skip@.map_values(|c: Vec<u8>| c@);
    let mut j: usize = 0;
    while j < skip.len()
        invariant
            j <= skip@.len(),
            sv == skip@.map_values(|c: Vec<u8>| c@),
            lname@ == lower_seq(name@),
            forall|k: int| 0 <= k < j ==> lower_seq(#[trigger] sv[k]) != lower_seq(name@),
        decreases skip@.len() - j,
    {
        let ls = lower_bytes(&skip[j]);
        if bytes_eq(&ls, &lname) {
            assert(lower_seq(sv[j as int]) == lower_seq(name@));
            return true;
        }
        j = j + 1;
    }
    false
}

/// The first `limit` prefetch-eligible children, as paths.
fn prefetch_targets(
    children: &Vec<TreeNode>,
    skip: &Vec<Vec<u8>>,
    max_depth: Option<u32>,
    child_depth: u32,
    limit: usize,
) -> (r: Vec<TreePath>)
    ensures
        paths_view(r@) == prefetch_targets_spec(
            children_view(children@),
            skip@.map_values(|c: Vec<u8>| c@),
            max_depth,
            child_depth,
            limit,
        ),
{
    let ghost cs = children_view(children@);
    let ghost sk = skip@.map_values(|c: Vec<u8>| c@);
    proof {
        lemma_children_view(children@);
        assert(cs.take(0) =~= Seq::<NodeView>::empty());
    }
    let mut out: Vec<TreePath> = Vec::new();
    let mut i: usize = 0;
    while i < children.len()
        invariant
            i <= children@.len(),
            cs == children_view(children@),
            cs.len() == children@.len(),
            forall|j: int| 0 <= j < cs.len() ==> #[trigger] cs[j] == children@[j]@,
            sk == skip@.map_values(|c: Vec<u8>| c@),
            paths_view(out@) == prefetch_targets_spec(cs.take(i as int), sk, max_depth, child_depth, limit),
        decreases children@.len() - i,
    {
        let c = &children[i];
        let ghost ep = eligible_paths(cs.take(i as int), sk, max_depth, child_depth);
        proof {
            assert(cs.take(i + 1).drop_last() =~= cs.take(i as int));
            assert(cs.take(i + 1).last() == cs[i as int]);
        }
        let name = c.file_name();
        let depth_ok = match max_depth {
            Some(m) => child_depth <= m,
            None => true,
        };
        if c.is_dir && !c.is_loaded && depth_ok && !is_skipped(&name, skip) {
            if out.len() < limit {
                let p = c.path.copy();
                proof {
                    assert(paths_view(out@.push(p)) =~= paths_view(out@).push(p@));
                    assert(ep.push(c.path@).take((ep.len() + 1) as int) =~= ep.push(c.path@));
                    if ep.len() > limit {
                    } else {
                        assert(paths_view(out@) == ep);
                    }
                }
                out.push(p);
            } else {
                proof {
                    if ep.len() <= limit {
                        assert(ep.push(c.path@).take(limit as int) =~= ep);
                    } else {
                        assert(ep.push(c.path@).take(limit as int) =~= ep.take(limit as int));
                    }
                }
            }
        }
        i = i + 1;
    }
    proof {
        assert(cs.take(children@.len() as int) =~= cs);
    }
    out
}

/// Effect of switching the display filter: unchanged for the current
/// filter; otherwise every loaded directory's child list is re-derived
/// from the cache, flags are re-synced and an active search recomputed.
/// No scan is issued and the generation, cache, selection and drag are
/// untouched.
pub open spec fn filter_spec(v: TreeView, f: DisplayFilter) -> TreeView {
    if f == v.filter {
        v
    } else {
        let root = sync_spec(refresh_spec(v.root, v.cache, f), v.selected);
        TreeView { filter: f, root, search: recompute_spec(v.search, root), ..v }
    }
}

/// Index of the first row whose node has path `p`.
pub open spec fn row_index(rows: Seq<(NodeView, u32)>, p: Seq<Seq<u8>>) -> Option<int>
    decreases rows.len(),
{
    if rows.len() == 0 {
        None
    } else {
        match row_index(rows.drop_last(), p) {
            Some(i) => Some(i),
            None => if rows.last().0.path == p {
                Some(rows.len() - 1)
            } else {
                None
            },
        }
    }
}

pub proof fn lemma_row_index(rows: Seq<(NodeView, u32)>, p: Seq<Seq<u8>>)
    ensures
        match row_index(rows, p) {
            Some(i) => 0 <= i < rows.len() && rows[i].0.path == p && forall|j: int|
                0 <= j < i ==> #[trigger] rows[j].0.path != p,
            None => forall|j: int| 0 <= j < rows.len() ==> #[trigger] rows[j].0.path != p,
        },
    decreases rows.len(),
{
    if rows.len() > 0 {
        lemma_row_index(rows.drop_last(), p);
        assert(forall|j: int| 0 <= j < rows.len() - 1 ==> rows.drop_last()[j] == rows[j]);
    }
}

/// The paths of the rows from index `lo` to index `hi`, inclusive.
pub open spec fn range_paths(rows: Seq<(NodeView, u32)>, lo: int, hi: int) -> Seq<Seq<Seq<u8>>> {
    rows.subrange(lo, hi + 1).map_values(|x: (NodeView, u32)| x.0.path)
}

/// The selection after a gesture of mode `mode` on `p`.
///
/// - `Replace`: exactly `[p]`.
/// - `Toggle`: the first occurrence of `p` removed if present, else `p`
///   appended.
/// - `ExtendRange`: without an anchor, exactly `[p]`; otherwise the paths
///   of the rows between the anchor's and `p`'s rows, inclusive, in row
///   order, when both are drawn, and the selection unchanged when not.
pub open spec fn selection_after(v: TreeView, p: Seq<Seq<u8>>, mode: SelectionMode) -> Seq<
    Seq<Seq<u8>>,
> {
    match mode {
        SelectionMode::Replace => seq![p],
        SelectionMode::Toggle => match first_index(v.selected, p) {
            Some(i) => v.selected.remove(i),
            None => v.selected.push(p),
        },
        SelectionMode::ExtendRange => match v.anchor {
            None => seq![p],
            Some(a) => {
                let rows = rows_spec(v);
                match (row_index(rows, a), row_index(rows, p)) {
                    (Some(ai), Some(ti)) => if ai <= ti {
                        range_paths(rows, ai, ti)
                    } else {
                        range_paths(rows, ti, ai)
                    },
                    _ => v.selected,
                }
            },
        },
    }
}

/// Effect of a selection gesture on `p`: `p` becomes active; the
/// selection changes per [`selection_after`]; the anchor moves to `p`
/// except for a range extension from an existing anchor; node flags are
/// re-synced. Nothing else changes, and no scan is issued.
pub open spec fn select_spec(v: TreeView, p: Seq<Seq<u8>>, mode: SelectionMode) -> TreeView {
    let sel = selection_after(v, p, mode);
    let anchor = if mode == SelectionMode::ExtendRange && v.anchor is Some {
        v.anchor
    } else {
        Some(p)
    };
    TreeView { active: Some(p), selected: sel, anchor, root: sync_spec(v.root, sel), ..v }
}

/// Whether `p` is a valid drop target in the node graph `root`: a
/// directory present in the tree that is neither a source nor under one.
pub open spec fn target_ok(root: NodeView, p: Seq<Seq<u8>>, sources: Seq<Seq<Seq<u8>>>) -> bool {
    find_spec(root, p) matches Some(n) && valid_target_spec(p, sources, n.is_dir)
}

/// Effect of a drag message: the new state and the outcome.
///
/// - `Pressed`: a new session starts; its sources are the whole selection
///   when the pressed row is selected, otherwise just that row.
/// - `Entered`: the hovered target becomes the row iff it is a valid
///   target, and is cleared otherwise.
/// - `Exited`: clears the hovered target only if it is that row.
/// - `Released`: ends the session; a click on the pressed row, a
///   completed drop on another valid target, nothing otherwise.
/// - `Cancelled`: ends the session.
///
/// Without an active session every message but `Pressed` and
/// `Cancelled` leaves the state unchanged; only the drag session ever
/// changes.
pub open spec fn drag_spec(v: TreeView, m: DragMsgView) -> (TreeView, DragOutcomeView) {
    match m {
        DragMsgView::Pressed { path, is_dir } => {
            let sources = if v.selected.contains(path) {
                v.selected
            } else {
                seq![path]
            };
            (
                TreeView {
                    drag: Some(
                        DragView {
                            sources,
                            hovered_target: None,
                            started_at: path,
                            started_is_dir: is_dir,
                        },
                    ),
                    ..v
                },
                DragOutcomeView::NoOp,
            )
        },
        DragMsgView::Entered(p) => match v.drag {
            None => (v, DragOutcomeView::NoOp),
            Some(d) => {
                let hover = if target_ok(v.root, p, d.sources) {
                    Some(p)
                } else {
                    None
                };
                (
                    TreeView { drag: Some(DragView { hovered_target: hover, ..d }), ..v },
                    DragOutcomeView::NoOp,
                )
            },
        },
        DragMsgView::Exited(p) => match v.drag {
            None => (v, DragOutcomeView::NoOp),
            Some(d) => if d.hovered_target == Some(p) {
                (
                    TreeView { drag: Some(DragView { hovered_target: None, ..d }), ..v },
                    DragOutcomeView::NoOp,
                )
            } else {
                (v, DragOutcomeView::NoOp)
            },
        },
        DragMsgView::Released(p) => match v.drag {
            None => (v, DragOutcomeView::NoOp),
            Some(d) => {
                let ended = TreeView { drag: None, ..v };
                if p == d.started_at {
                    (ended, DragOutcomeView::Clicked { path: p, is_dir: d.started_is_dir })
                } else if target_ok(v.root, p, d.sources) {
                    (ended, DragOutcomeView::Completed { sources: d.sources, destination: p })
                } else {
                    (ended, DragOutcomeView::NoOp)
                }
            },
        },
        DragMsgView::Cancelled => (TreeView { drag: None, ..v }, DragOutcomeView::NoOp),
    }
}

/// Effect of setting the search query `q` (whose UTF-8 bytes are `qb`):
/// an empty query ends the search; any other starts or replaces it,
/// matching ASCII-case-insensitively over the loaded node graph. Nothing
/// but the search session changes.
pub open spec fn search_spec(v: TreeView, q: Seq<char>, qb: Seq<u8>) -> TreeView {
    if q.len() == 0 {
        TreeView { search: None, ..v }
    } else {
        let fresh = SearchView {
            query: q,
            query_lower: lower_seq(qb),
            visible: Set::empty(),
            match_count: 0,
        };
        TreeView { search: recompute_spec(Some(fresh), v.root), ..v }
    }
}

impl DirectoryTree {
    /// React to an expand/collapse gesture on `path`.
    ///
    /// Returns `Some(request)` exactly when a scan must be executed: the
    /// slow-path expansion of an unloaded directory (see [`toggle_spec`]).
    /// Collapse never bumps the generation, so a scan in flight for the
    /// subtree stays valid and merges into the collapsed node.
    pub fn on_toggled(&mut self, path: &TreePath) -> (r: Option<ScanRequest>)
        requires
            old(self).wf(),
        ensures
            final(self).wf(),
            (final(self)@, opt_request_view(r)) == toggle_spec(old(self)@, path@),
    {
        proof {
            crate::tree::laws::lemma_toggle_keeps_synced(self@, path@);
        }
        let depth = match self.depth_of(path) {
            Some(d) => d,
            None => return None,
        };
        let (is_dir, is_expanded, is_loaded) = match self.root.find(path) {
            Some(n) => (n.is_dir, n.is_expanded, n.is_loaded),
            None => return None,
        };
        if !is_dir {
            return None;
        }
        let max_depth = self.config.max_depth;
        let beyond = match max_depth {
            Some(m) => depth > m,
            None => false,
        };
        if !is_expanded && !is_loaded && !beyond {
            remove_path(&mut self.prefetching_paths.paths, path);
            self.generation = if self.generation == u32::MAX {
                0
            } else {
                self.generation + 1
            };
        }
        let node = self.root.find_mut(path).unwrap();
        if is_expanded {
            node.is_expanded = false;
            return None;
        }
        if is_loaded {
            node.is_expanded = true;
            return None;
        }
        if beyond {
            node.is_loaded = true;
            node.is_expanded = true;
            node.children.clear();
            proof {
                crate::node::lemma_children_view(node.children@);
            }
            return None;
        }
        node.is_expanded = true;
        Some(ScanRequest { path: path.copy(), generation: self.generation, depth })
    }

    /// Feed a drag gesture (see [`drag_spec`]). Never issues a scan and
    /// never touches the filesystem.
    pub fn on_drag_msg(&mut self, msg: DragMsg) -> (r: DragOutcome)
        requires
            old(self).wf(),
        ensures
            final(self).wf(),
            (final(self)@, r@) == drag_spec(old(self)@, msg@),
    {
        match msg {
            DragMsg::Pressed { path, is_dir } => {
                let sources = if paths_contain(&self.selected_paths, &path) {
                    crate::path::copy_paths(&self.selected_paths)
                } else {
                    let mut one: Vec<TreePath> = Vec::new();
                    one.push(path.copy());
                    proof {
                        assert(paths_view(one@) =~= seq![path@]);
                    }
                    one
                };
                self.drag = Some(
                    DragState { sources, hovered_target: None, started_at: path, started_is_dir: is_dir },
                );
                DragOutcome::NoOp
            },
            DragMsg::Entered(p) => {
                let ok = match &self.drag {
                    None => return DragOutcome::NoOp,
                    Some(d) => match self.root.find(&p) {
                        Some(n) => is_valid_target(&p, &d.sources, n.is_dir),
                        None => false,
                    },
                };
                match &mut self.drag {
                    Some(d) => {
                        d.hovered_target = if ok {
                            Some(p)
                        } else {
                            None
                        };
                    },
                    None => {},
                }
                DragOutcome::NoOp
            },
            DragMsg::Exited(p) => {
                match &mut self.drag {
                    Some(d) => {
                        let hit = match &d.hovered_target {
                            Some(h) => h.same_as(&p),
                            None => false,
                        };
                        if hit {
                            d.hovered_target = None;
                        }
                    },
                    None => {},
                }
                DragOutcome::NoOp
            },
            DragMsg::Released(p) => {
                let d = match self.drag.take() {
                    Some(d) => d,
                    None => return DragOutcome::NoOp,
                };
                if p.same_as(&d.started_at) {
                    return DragOutcome::Clicked { path: p, is_dir: d.started_is_dir };
                }
                let ok = match self.root.find(&p) {
                    Some(n) => is_valid_target(&p, &d.sources, n.is_dir),
                    None => false,
                };
                if ok {
                    DragOutcome::Completed { sources: d.sources, destination: p }
                } else {
                    DragOutcome::NoOp
                }
            },
            DragMsg::Cancelled => {
                self.drag = None;
                DragOutcome::NoOp
            },
        }
    }

    /// Start, replace or end the search (see [`search_spec`]). Filters
    /// the loaded graph only: no scan, no generation bump, and the
    /// selection is untouched.
    pub fn set_search_query(&mut self, query: &str)
        requires
            old(self).wf(),
        ensures
            final(self).wf(),
            final(self)@ == search_spec(old(self)@, query@, query.spec_bytes()),
    {
        if query.is_empty() {
            self.search = None;
            return;
        }
        let raw = bytes_of_str(query);
        let lower = lower_bytes(&raw);
        let st = SearchState {
            query: query.to_owned(),
            query_lower: lower,
            visible_paths: Vec::new(),
            match_count: 0,
        };
        proof {
            assert(paths_view(st.visible_paths@) =~= Seq::empty());
            assert(paths_view(st.visible_paths@).to_set() =~= Set::empty());
        }
        self.search = Some(st);
        self.recompute_search();
    }

    /// End the search; the same as an empty query.
    pub fn clear_search(&mut self)
        requires
            old(self).wf(),
        ensures
            final(self).wf(),
            final(self)@ == (TreeView { search: None, ..old(self)@ }),
    {
        self.search = None;
    }

    /// Synchronously expand `path`: run [`Self::on_toggled`], run any
    /// scan it requests through `scan` on the current thread, and merge
    /// the result. `None` when no scan was needed (fast-path expand,
    /// collapse, no-op).
    pub fn expand_blocking<S: FnOnce(&ScanRequest) -> LoadPayload>(
        &mut self,
        path: &TreePath,
        scan: S,
    ) -> (r: Option<LoadedOutcome>)
        requires
            old(self).wf(),
            forall|q: &ScanRequest| #[trigger] scan.requires((q,)),
        ensures
            final(self).wf(),
            match toggle_spec(old(self)@, path@) {
                (v1, None) => r is None && final(self)@ == v1,
                (v1, Some(q)) => r matches Some(o) && exists|req: ScanRequest, pl: LoadPayload|
                    #![trigger scan.ensures((&req,), pl)]
                    req@ == q && scan.ensures((&req,), pl) && (
                        final(self)@,
                        o.accepted,
                        requests_view(o.prefetch_requests@),
                    ) == load_spec(v1, pl@),
            },
    {
        let request = match self.on_toggled(path) {
            Some(q) => q,
            None => return None,
        };
        let payload = scan(&request);
        let ghost pl = payload@;
        let o = self.on_loaded(payload);
        proof {
            assert(scan.ensures((&request,), payload));
        }
        Some(o)
    }

    /// Recompute the active search over the current node graph.
    pub(crate) fn recompute_search(&mut self)
        requires
            old(self).wf(),
        ensures
            final(self).wf(),
            final(self)@ == (TreeView {
                search: recompute_spec(old(self)@.search, old(self)@.root),
                ..old(self)@
            }),
    {
        match &mut self.search {
            Some(s) => {
                let mut visible: Vec<TreePath> = Vec::new();
                let mut count: usize = 0;
                proof {
                    assert(paths_view(visible@) =~= Seq::empty());
                    assert(paths_view(visible@).to_set() =~= Set::empty());
                }
                walk_for_search(&self.root, &s.query_lower, &mut visible, &mut count);
                proof {
                    assert(paths_view(visible@).to_set() =~= visible_set(
                        self.root@,
                        s.query_lower@,
                    ));
                }
                s.visible_paths = visible;
                s.match_count = count;
            },
            None => {},
        }
    }

    /// Merge a completed scan (see [`load_spec`]).
    ///
    /// A payload is accepted iff its generation strictly equals the
    /// tree's current counter (the counter wraps, so ordering comparisons
    /// would be meaningless) and its path is still in the tree. A stale
    /// payload leaves the state untouched.
    #[verifier::rlimit(60)]
    #[verifier::spinoff_prover]
    pub fn on_loaded(&mut self, payload: LoadPayload) -> (r: LoadedOutcome)
        requires
            old(self).wf(),
        ensures
            final(self).wf(),
            (final(self)@, r.accepted, requests_view(r.prefetch_requests@)) == load_spec(
                old(self)@,
                payload@,
            ),
    {
        if payload.generation != self.generation {
            return LoadedOutcome::discarded();
        }
        if self.root.find(&payload.path).is_none() {
            return LoadedOutcome::discarded();
        }
        let ghost pv = payload@;
        let ghost v = self@;
        let filter = self.config.filter;
        let LoadPayload { path, generation, depth, result } = payload;
        let was_prefetch = paths_contain(&self.prefetching_paths.paths, &path);
        let limit = if was_prefetch {
            0
        } else {
            self.config.prefetch_per_parent
        };
        let child_depth = if depth == u32::MAX {
            depth
        } else {
            depth + 1
        };
        let targets: Vec<TreePath>;
        let mut cached: Option<Vec<crate::entry::LoadedEntry>> = None;
        {
            let node = self.root.find_mut(&path).unwrap();
            match result {
                Ok(entries) => {
                    rebuild_children(node, &entries, filter);
                    node.error = None;
                    node.is_loaded = true;
                    cached = Some(entries);
                },
                Err(issue) => {
                    node.children.clear();
                    node.error = Some(issue);
                    node.is_loaded = true;
                    proof {
                        lemma_children_view(node.children@);
                        assert(children_view(node.children@) =~= Seq::empty());
                    }
                },
            }
            targets =
                prefetch_targets(
                    &node.children,
                    &self.config.prefetch_skip,
                    self.config.max_depth,
                    child_depth,
                    limit,
                );
        }
        match cached {
            Some(entries) => {
                self.cache.insert(path.copy(), generation, entries);
            },
            None => {},
        }
        let ghost unsynced = self.root@;
        sync_flags(&mut self.root, &self.selected_paths);
        proof {
            lemma_sync_gives_synced(unsynced, paths_view(self.selected_paths@));
        }
        remove_path(&mut self.prefetching_paths.paths, &path);
        let mut requests: Vec<ScanRequest> = Vec::new();
        if targets.len() > 0 {
            self.generation = if self.generation == u32::MAX {
                0
            } else {
                self.generation + 1
            };
            let g = self.generation;
            let mut reg: Vec<TreePath> = Vec::new();
            std::mem::swap(&mut reg, &mut self.prefetching_paths.paths);
            let ghost reg0 = paths_view(reg@).to_set();
            let mut i: usize = 0;
            while i < targets.len()
                invariant
                    i <= targets@.len(),
                    paths_view(reg@).no_duplicates(),
                    paths_view(reg@).to_set() == reg0.union(
                        paths_view(targets@).take(i as int).to_set(),
                    ),
                    requests_view(requests@) == paths_view(targets@).take(i as int).map_values(
                        |t: Seq<Seq<u8>>|
                            RequestView { path: t, generation: g, depth: child_depth },
                    ),
                decreases targets@.len() - i,
            {
                let t = &targets[i];
                let ghost before = paths_view(reg@);
                proof {
                    assert(paths_view(targets@).take(i + 1) =~= paths_view(targets@).take(
                        i as int,
                    ).push(t@));
                    Seq::lemma_to_set_insert_commutes(paths_view(targets@).take(i as int), t@);
                    assert(paths_view(targets@).take(i as int) + seq![t@] =~= paths_view(
                        targets@,
                    ).take(i + 1));
                }
                if !paths_contain(&reg, t) {
                    reg.push(t.copy());
                    proof {
                        assert(paths_view(reg@) =~= before + seq![t@]);
                        Seq::lemma_to_set_insert_commutes(before, t@);
                    }
                }
                let req = ScanRequest { path: t.copy(), generation: g, depth: child_depth };
                proof {
                    assert(requests_view(requests@.push(req)) =~= requests_view(requests@).push(req@));
                }
                requests.push(req);
                proof {
                    assert(paths_view(reg@).to_set() =~= reg0.union(
                        paths_view(targets@).take(i + 1).to_set(),
                    ));
                }
                i = i + 1;
            }
            proof {
                assert(paths_view(targets@).take(targets@.len() as int) =~= paths_view(targets@));
            }
            self.prefetching_paths.paths = reg;
        }
        self.recompute_search();
        proof {
            assert(requests_view(requests@) =~= load_spec(v, pv).2);
        }
        LoadedOutcome::accepted(requests)
    }

    /// Switch the display filter (see [`filter_spec`]). Instant: issues
    /// no scan and does not bump the generation; expansion and loaded
    /// state survive because children are matched by path.
    pub fn set_filter(&mut self, filter: DisplayFilter)
        requires
            old(self).wf(),
        ensures
            final(self).wf(),
            final(self)@ == filter_spec(old(self)@, filter),
    {
        if filter == self.config.filter {
            return;
        }
        self.config.filter = filter;
        refresh_from_cache(&mut self.root, &self.cache, filter);
        let ghost unsynced = self.root@;
        sync_flags(&mut self.root, &self.selected_paths);
        proof {
            lemma_sync_gives_synced(unsynced, paths_view(self.selected_paths@));
        }
        self.recompute_search();
    }

    /// React to a selection gesture on `path` (see [`select_spec`]). No
    /// scan is issued; `is_dir` is informational.
    pub fn on_selected(&mut self, path: &TreePath, is_dir: bool, mode: SelectionMode)
        requires
            old(self).wf(),
        ensures
            final(self).wf(),
            final(self)@ == select_spec(old(self)@, path@, mode),
    {
        let ghost v = self@;
        let new_selection: Vec<TreePath> = match mode {
            SelectionMode::Replace => {
                let mut sel: Vec<TreePath> = Vec::new();
                sel.push(path.copy());
                proof {
                    assert(paths_view(sel@) =~= seq![path@]);
                }
                sel
            },
            SelectionMode::Toggle => {
                let mut sel = crate::path::copy_paths(&self.selected_paths);
                match position_of(&sel, path) {
                    Some(pos) => {
                        let ghost before = paths_view(sel@);
                        sel.remove(pos);
                        proof {
                            assert(paths_view(sel@) =~= before.remove(pos as int));
                        }
                    },
                    None => {
                        let ghost before = paths_view(sel@);
                        sel.push(path.copy());
                        proof {
                            assert(paths_view(sel@) =~= before.push(path@));
                        }
                    },
                }
                sel
            },
            SelectionMode::ExtendRange => {
                match &self.anchor_path {
                    None => {
                        let mut sel: Vec<TreePath> = Vec::new();
                        sel.push(path.copy());
                        proof {
                            assert(paths_view(sel@) =~= seq![path@]);
                        }
                        sel
                    },
                    Some(anchor) => {
                        let rows = self.visible_rows();
                        let ghost rv = rows_view(rows@);
                        let ai = Self::row_position(&rows, anchor);
                        let ti = Self::row_position(&rows, path);
                        match (ai, ti) {
                            (Some(a), Some(t)) => {
                                let (lo, hi) = if a <= t {
                                    (a, t)
                                } else {
                                    (t, a)
                                };
                                let mut sel: Vec<TreePath> = Vec::new();
                                let rl = rows.len();
                                let mut k: usize = lo;
                                while k <= hi
                                    invariant
                                        lo <= k <= hi + 1,
                                        hi < rows@.len(),
                                        rl == rows@.len(),
                                        rv == rows_view(rows@),
                                        paths_view(sel@) == range_paths(rv, lo as int, k as int - 1),
                                    decreases hi + 1 - k,
                                {
                                    let p = rows[k].0.path.copy();
                                    proof {
                                        assert(paths_view(sel@.push(p)) =~= paths_view(sel@).push(p@));
                                        assert(rv[k as int].0 == rows@[k as int].0@);
                                        assert(range_paths(rv, lo as int, k as int) =~= range_paths(
                                            rv,
                                            lo as int,
                                            k as int - 1,
                                        ).push(rv[k as int].0.path));
                                    }
                                    sel.push(p);
                                    k = k + 1;
                                }
                                sel
                            },
                            _ => crate::path::copy_paths(&self.selected_paths),
                        }
                    },
                }
            },
        };
        let keep_anchor = match mode {
            SelectionMode::ExtendRange => self.anchor_path.is_some(),
            _ => false,
        };
        if !keep_anchor {
            self.anchor_path = Some(path.copy());
        }
        self.active_path = Some(path.copy());
        self.selected_paths = new_selection;
        let ghost unsynced = self.root@;
        sync_flags(&mut self.root, &self.selected_paths);
        proof {
            lemma_sync_gives_synced(unsynced, paths_view(self.selected_paths@));
        }
    }

    /// Index of the first row whose node has path `p`.
    pub(crate) fn row_position(rows: &Vec<(&TreeNode, u32)>, p: &TreePath) -> (r: Option<usize>)
        ensures
            match r {
                Some(i) => i < rows@.len() && row_index(rows_view(rows@), p@) == Some(i as int),
                None => row_index(rows_view(rows@), p@) is None,
            },
    {
        let ghost rv = rows_view(rows@);
        proof {
            lemma_row_index(rv, p@);
        }
        let mut i: usize = 0;
        while i < rows.len()
            invariant
                i <= rows@.len(),
                rv == rows_view(rows@),
                rv.len() == rows@.len(),
                forall|j: int| 0 <= j < i ==> #[trigger] rv[j].0.path != p@,
                match row_index(rv, p@) {
                    Some(q) => 0 <= q < rv.len() && rv[q].0.path == p@ && forall|j: int|
                        0 <= j < q ==> #[trigger] rv[j].0.path != p@,
                    None => forall|j: int| 0 <= j < rv.len() ==> #[trigger] rv[j].0.path != p@,
                },
            decreases rows@.len() - i,
        {
            if rows[i].0.path.same_as(p) {
                proof {
                    assert(rv[i as int].0.path == p@);
                }
                return Some(i);
            }
            proof {
                assert(rv[i as int].0.path != p@);
            }
            i = i + 1;
        }
        None
    }
}

} // verus!
