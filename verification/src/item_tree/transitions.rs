//! State transitions of `ItemTree`: replacing the content, expanding,
//! selecting, searching, key handling and drag-and-drop.

use vstd::prelude::*;

use crate::item_tree::node::{
    find_index, ids_contain, ids_view, item_node_view, items_view, lemma_lookup, lookup, opt_id,
    InternalItem, ItemNode, ItemNodeView, ItemView, NodeId,
};
use crate::item_tree::search::{recompute_item_search, ItemSearchState, ItemSearchView};
use crate::item_tree::node::{first_pos, lemma_first_pos, position_in, VisibleItem, VisibleItemView};
use crate::item_tree::rows::{item_rows, rows_for, visible_view};
use crate::selection::SelectionMode;
use crate::item_event::ItemTreeEvent;
use crate::item_tree::drag::{
    is_valid_drop, valid_drop_spec, DropPosition, ItemDragMsg, ItemDragOutcome, ItemDragState,
    ItemDragView, ItemOutcomeView, hover_view,
};
use crate::keyboard::{Modifiers, TreeKey};
use crate::path::{bytes_of_str, lower_bytes, lower_seq};
use vstd::string::StringSliceAdditionalSpecFns;
use crate::item_tree::{
    arena_wf, display_total, labelled, labels_ok, ItemTree, ItemTreeView,
};

verus! {

/// `d + 1`, saturating.
pub open spec fn next_level(d: u32) -> u32 {
    if d == u32::MAX {
        d
    } else {
        (d + 1) as u32
    }
}

/// The expansion flag `id` had before a content replacement: that of
/// the item it resolved to, `false` for a new id.
pub open spec fn old_expanded<T>(old: Seq<ItemView<T>>, id: u64) -> bool {
    match lookup(old, id) {
        Some(i) => old[i].is_expanded,
        None => false,
    }
}

/// The selection flag `id` had before a content replacement.
pub open spec fn old_selected<T>(old: Seq<ItemView<T>>, id: u64) -> bool {
    match lookup(old, id) {
        Some(i) => old[i].is_selected,
        None => false,
    }
}

/// The ids of a list of input nodes.
pub open spec fn node_ids<T>(s: Seq<ItemNodeView<T>>) -> Seq<u64> {
    s.map_values(|c: ItemNodeView<T>| c.id)
}

/// The arena items of the subtree `n` in pre-order: `n` at `depth` under
/// `parent`, then each child's subtree one level deeper. Each keeps the
/// flags its id had in `old`.
pub open spec fn flatten_spec<T>(
    n: ItemNodeView<T>,
    parent: Option<u64>,
    depth: u32,
    old: Seq<ItemView<T>>,
) -> Seq<ItemView<T>>
    decreases n,
{
    seq![
        ItemView {
            id: n.id,
            data: n.data,
            depth,
            children: node_ids(n.children),
            parent,
            is_expanded: old_expanded(old, n.id),
            is_selected: old_selected(old, n.id),
        },
    ] + flatten_list(n.children, Some(n.id), next_level(depth), old)
}

/// [`flatten_spec`] of each node of a list, concatenated.
pub open spec fn flatten_list<T>(
    s: Seq<ItemNodeView<T>>,
    parent: Option<u64>,
    depth: u32,
    old: Seq<ItemView<T>>,
) -> Seq<ItemView<T>>
    decreases s,
{
    if s.len() == 0 {
        Seq::empty()
    } else {
        flatten_list(s.drop_last(), parent, depth, old) + flatten_spec(s.last(), parent, depth, old)
    }
}

/// `x` is the id of some item at an index in `lo..items.len()`.
pub open spec fn occurs_from<T>(items: Seq<ItemView<T>>, x: u64, lo: int) -> bool {
    exists|j: int| lo <= j < items.len() && #[trigger] items[j].id == x
}

/// Every child id of an item occurs later in the sequence.
pub open spec fn kids_follow<T>(items: Seq<ItemView<T>>) -> bool {
    forall|i: int, k: int|
        #![trigger items[i].children[k]]
        0 <= i < items.len() && 0 <= k < items[i].children.len() ==> occurs_from(
            items,
            items[i].children[k],
            i + 1,
        )
}

/// Every id of `s` occurs in `items`.
pub open spec fn ids_occur<T>(items: Seq<ItemView<T>>, s: Seq<u64>) -> bool {
    forall|k: int| 0 <= k < s.len() ==> occurs_from(items, #[trigger] s[k], 0)
}

proof fn lemma_kids_follow_concat<T>(a: Seq<ItemView<T>>, b: Seq<ItemView<T>>)
    requires
        kids_follow(a),
        kids_follow(b),
    ensures
        kids_follow(a + b),
{
    let c = a + b;
    assert forall|i: int, k: int|
        #![trigger c[i].children[k]]
        0 <= i < c.len() && 0 <= k < c[i].children.len() implies occurs_from(
        c,
        c[i].children[k],
        i + 1,
    ) by {
        if i < a.len() {
            assert(c[i] == a[i]);
            assert(a[i].children[k] == a[i].children[k]);
            let j = choose|j: int| i + 1 <= j < a.len() && #[trigger] a[j].id == a[i].children[k];
            assert(c[j] == a[j]);
        } else {
            let i2 = i - a.len();
            assert(c[i] == b[i2]);
            assert(b[i2].children[k] == b[i2].children[k]);
            let j = choose|j: int| i2 + 1 <= j < b.len() && #[trigger] b[j].id == b[i2].children[k];
            assert(c[j + a.len()] == b[j]);
        }
    }
}

/// A flattened subtree keeps every child after its parent, and starts
/// with the subtree's root.
proof fn lemma_flatten_follow<T>(n: ItemNodeView<T>, parent: Option<u64>, depth: u32, old: Seq<ItemView<T>>)
    ensures
        kids_follow(flatten_spec(n, parent, depth, old)),
        flatten_spec(n, parent, depth, old).len() >= 1,
        flatten_spec(n, parent, depth, old)[0].id == n.id,
    decreases n,
{
    let l = flatten_list(n.children, Some(n.id), next_level(depth), old);
    lemma_flatten_list_follow(n.children, Some(n.id), next_level(depth), old);
    let head = seq![flatten_spec(n, parent, depth, old)[0]];
    let f = flatten_spec(n, parent, depth, old);
    assert(f =~= head + l);
    assert forall|i: int, k: int|
        #![trigger f[i].children[k]]
        0 <= i < f.len() && 0 <= k < f[i].children.len() implies occurs_from(
        f,
        f[i].children[k],
        i + 1,
    ) by {
        if i == 0 {
            assert(f[0].children == node_ids(n.children));
            assert(f[0].children[k] == node_ids(n.children)[k]);
            let j = choose|j: int| 0 <= j < l.len() && #[trigger] l[j].id == node_ids(n.children)[k];
            assert(f[j + 1] == l[j]);
        } else {
            let i2 = i - 1;
            assert(f[i] == l[i2]);
            assert(l[i2].children[k] == l[i2].children[k]);
            let j = choose|j: int| i2 + 1 <= j < l.len() && #[trigger] l[j].id == l[i2].children[k];
            assert(f[j + 1] == l[j]);
        }
    }
}

proof fn lemma_flatten_list_follow<T>(
    s: Seq<ItemNodeView<T>>,
    parent: Option<u64>,
    depth: u32,
    old: Seq<ItemView<T>>,
)
    ensures
        kids_follow(flatten_list(s, parent, depth, old)),
        ids_occur(flatten_list(s, parent, depth, old), node_ids(s)),
    decreases s,
{
    if s.len() > 0 {
        let a = flatten_list(s.drop_last(), parent, depth, old);
        let b = flatten_spec(s.last(), parent, depth, old);
        lemma_flatten_list_follow(s.drop_last(), parent, depth, old);
        lemma_flatten_follow(s.last(), parent, depth, old);
        lemma_kids_follow_concat(a, b);
        let c = a + b;
        assert forall|k: int| 0 <= k < node_ids(s).len() implies occurs_from(
            c,
            #[trigger] node_ids(s)[k],
            0,
        ) by {
            if k < s.len() - 1 {
                assert(node_ids(s.drop_last())[k] == node_ids(s)[k]);
                let j = choose|j: int| 0 <= j < a.len() && #[trigger] a[j].id == node_ids(s.drop_last())[k];
                assert(c[j] == a[j]);
            } else {
                assert(c[a.len() as int] == b[0]);
            }
        }
    } else {
        assert(node_ids(s) =~= Seq::empty());
    }
}

/// Children that occur later resolve, through [`lookup`], to later items.
pub proof fn lemma_follow_wf<T>(items: Seq<ItemView<T>>)
    requires
        kids_follow(items),
    ensures
        arena_wf(items),
{
    assert forall|i: int, k: int|
        #![trigger items[i].children[k]]
        0 <= i < items.len() && 0 <= k < items[i].children.len() implies (lookup(
            items,
            items[i].children[k],
        ) matches Some(j) && i < j < items.len()) by {
        let c = items[i].children[k];
        let j = choose|j: int| i + 1 <= j < items.len() && #[trigger] items[j].id == c;
        lemma_lookup(items, c);
        match lookup(items, c) {
            Some(m) => {
                if m < j {
                    assert(items[j].id != c);
                }
            },
            None => {
                assert(items[j].id != c);
            },
        }
    }
}

/// Whether `id` is live in the arena.
pub open spec fn live<T>(items: Seq<ItemView<T>>, id: u64) -> bool {
    lookup(items, id) is Some
}

/// The ids of `sel` still live in `items`, in order.
pub open spec fn prune<T>(sel: Seq<u64>, items: Seq<ItemView<T>>) -> Seq<u64>
    decreases sel.len(),
{
    if sel.len() == 0 {
        Seq::empty()
    } else {
        let p = prune(sel.drop_last(), items);
        if live(items, sel.last()) {
            p.push(sel.last())
        } else {
            p
        }
    }
}

/// An optional id, kept only while it is live.
pub open spec fn keep_live<T>(o: Option<u64>, items: Seq<ItemView<T>>) -> Option<u64> {
    match o {
        Some(a) => if live(items, a) {
            Some(a)
        } else {
            None
        },
        None => None,
    }
}

/// Every item's selection flag set to whether its id is in `sel`.
pub open spec fn sync_items<T>(items: Seq<ItemView<T>>, sel: Seq<u64>) -> Seq<ItemView<T>> {
    items.map_values(|it: ItemView<T>| ItemView { is_selected: sel.contains(it.id), ..it })
}

proof fn lemma_sync_keeps<T>(items: Seq<ItemView<T>>, sel: Seq<u64>)
    ensures
        sync_items(items, sel).len() == items.len(),
        forall|i: int|
            0 <= i < items.len() ==> #[trigger] sync_items(items, sel)[i].id == items[i].id
                && sync_items(items, sel)[i].children == items[i].children,
        kids_follow(items) ==> kids_follow(sync_items(items, sel)),
        forall|id: u64| lookup(sync_items(items, sel), id) == lookup(items, id),
{
    let s = sync_items(items, sel);
    if kids_follow(items) {
        assert forall|i: int, k: int|
            #![trigger s[i].children[k]]
            0 <= i < s.len() && 0 <= k < s[i].children.len() implies occurs_from(
            s,
            s[i].children[k],
            i + 1,
        ) by {
            assert(s[i].children == items[i].children);
            assert(items[i].children[k] == items[i].children[k]);
            let j = choose|j: int| i + 1 <= j < items.len() && #[trigger] items[j].id == items[i].children[k];
            assert(s[j].id == items[j].id);
        }
    }
    assert forall|id: u64| lookup(s, id) == lookup(items, id) by {
        lemma_lookup_same_ids(s, items, id);
    }
}

/// Two arenas with the same ids resolve every id alike.
pub proof fn lemma_lookup_same_ids<T>(a: Seq<ItemView<T>>, b: Seq<ItemView<T>>, id: u64)
    requires
        a.len() == b.len(),
        forall|i: int| 0 <= i < a.len() ==> #[trigger] a[i].id == b[i].id,
    ensures
        lookup(a, id) == lookup(b, id),
    decreases a.len(),
{
    if a.len() > 0 {
        assert(forall|i: int| 0 <= i < a.len() - 1 ==> a.drop_last()[i] == a[i] && b.drop_last()[i] == b[i]);
        lemma_lookup_same_ids(a.drop_last(), b.drop_last(), id);
    }
}

/// Effect of replacing the content with the tree `root`, given the
/// labels the display function produced: the arena is the pre-order
/// flattening of `root` (ids keep their expansion flag), the selection,
/// active and anchor ids are pruned to live ids, selection flags are
/// re-synced and an active search is recomputed. Drag state and
/// settings are untouched.
pub open spec fn set_tree_spec<T, F>(
    v: ItemTreeView<T, F>,
    root: ItemNodeView<T>,
    labels: Seq<Seq<char>>,
) -> ItemTreeView<T, F> {
    let flat = flatten_spec(root, None, 0, v.items);
    let sel = prune(v.selected, flat);
    let base = ItemTreeView {
        items: sync_items(flat, sel),
        labels,
        root: Some(root.id),
        selected: sel,
        active: keep_live(v.active, flat),
        anchor: keep_live(v.anchor, flat),
        ..v
    };
    ItemTreeView {
        search: match v.search {
            Some(s) => Some(recompute_item_search(base, s)),
            None => None,
        },
        ..base
    }
}

/// Append the pre-order flattening of `node` to the arena.
fn flatten<T, F: Fn(&T) -> String>(
    node: ItemNode<T>,
    parent: Option<NodeId>,
    depth: u32,
    prev: &Vec<InternalItem<T>>,
    display: &Option<F>,
    items: &mut Vec<InternalItem<T>>,
    labels: &mut Vec<String>,
)
    requires
        display_total(*display),
        old(labels)@.len() == old(items)@.len(),
    ensures
        items_view(final(items)@) == items_view(old(items)@) + flatten_spec(
            node@,
            opt_id(parent),
            depth,
            items_view(prev@),
        ),
        final(labels)@.len() == final(items)@.len(),
        forall|i: int| 0 <= i < old(items)@.len() ==> #[trigger] final(labels)@[i] == old(labels)@[i],
        forall|i: int|
            old(items)@.len() <= i < final(items)@.len() ==> labelled(
                *display,
                #[trigger] final(items)@[i].data,
                final(labels)@[i]@,
            ),
    decreases node,
{
    let ghost nv = node@;
    let ghost ov = items_view(prev@);
    let ghost start = items_view(items@);
    let ghost start_len = items@.len();
    let ghost start_labels = labels@;
    let ghost kids = node.children@;
    proof {
        assert forall|j: int| 0 <= j < kids.len() implies decreases_to!(node => #[trigger] kids[j]) by {
            assert(decreases_to!(node => node.children@[j]));
        }
    }
    let ItemNode { id, data, children } = node;
    proof {
        assert(children@ == kids);
    }
    let mut cids: Vec<NodeId> = Vec::new();
    let mut k: usize = 0;
    while k < children.len()
        invariant
            k <= children@.len(),
            nv.children.len() == children@.len(),
            forall|j: int| 0 <= j < children@.len() ==> #[trigger] nv.children[j] == item_node_view(children@[j]),
            ids_view(cids@) == node_ids(nv.children).take(k as int),
        decreases children@.len() - k,
    {
        proof {
            assert(node_ids(nv.children).take(k + 1) =~= node_ids(nv.children).take(k as int).push(
                children@[k as int].id.0,
            ));
            assert(ids_view(cids@.push(children@[k as int].id)) =~= ids_view(cids@).push(children@[k as int].id.0));
        }
        cids.push(children[k].id);
        k = k + 1;
    }
    proof {
        assert(node_ids(nv.children).take(children@.len() as int) =~= node_ids(nv.children));
        lemma_lookup(ov, id.0);
    }
    let (is_expanded, is_selected) = match find_index(prev, id) {
        Some(i) => {
            proof {
                assert(ov[i as int] == prev@[i as int]@);
            }
            (prev[i].is_expanded, prev[i].is_selected)
        },
        None => (false, false),
    };
    let label = match display {
        Some(f) => {
            let l = f(&data);
            proof {
                assert(f.ensures((&data,), l));
                assert(labelled(*display, data, l@));
            }
            l
        },
        None => String::new(),
    };
    let item = InternalItem { id, data, depth, children_ids: cids, parent_id: parent, is_expanded, is_selected };
    items.push(item);
    labels.push(label);
    let ghost after_head = items_view(items@);
    proof {
        assert(after_head =~= start + seq![flatten_spec(nv, opt_id(parent), depth, ov)[0]]);
    }
    let child_depth = if depth == u32::MAX {
        depth
    } else {
        depth + 1
    };
    let nkids = children.len();
    let mut rest = children;
    let ghost all = kids;
    let mut done: usize = 0;
    while rest.len() > 0
        invariant
            display_total(*display),
            ov == items_view(prev@),
            all.len() == nv.children.len(),
            all == kids,
            all.len() == nkids,
            forall|j: int| 0 <= j < all.len() ==> decreases_to!(node => #[trigger] kids[j]),
            forall|j: int| 0 <= j < all.len() ==> #[trigger] nv.children[j] == item_node_view(all[j]),
            done <= all.len(),
            start_len == old(items)@.len(),
            rest@ == all.subrange(done as int, all.len() as int),
            labels@.len() == items@.len(),
            items@.len() >= start_len + 1,
            items_view(items@).len() == items@.len(),
            items_view(items@) == after_head + flatten_list(
                nv.children.take(done as int),
                Some(id.0),
                child_depth,
                ov,
            ),
            start_labels.len() == start_len,
            forall|i: int| 0 <= i < start_len ==> #[trigger] labels@[i] == start_labels[i],
            forall|i: int|
                start_len <= i < items@.len() ==> labelled(
                    *display,
                    #[trigger] items@[i].data,
                    labels@[i]@,
                ),
        decreases rest@.len(),
    {
        let c = rest.remove(0);
        proof {
            assert(c == all[done as int]);
            assert(decreases_to!(node => kids[done as int]));
            assert(nv.children.take(done + 1).drop_last() =~= nv.children.take(done as int));
            assert(nv.children.take(done + 1).last() == item_node_view(c));
            assert(rest@ =~= all.subrange(done + 1, all.len() as int));
        }
        let ghost before_items = items@;
        let ghost before_labels = labels@;
        flatten(c, Some(id), child_depth, prev, display, items, labels);
        proof {
            assert(items_view(items@).len() == items@.len());
            assert(items_view(before_items).len() == before_items.len());
            assert forall|i: int| start_len <= i < items@.len() implies labelled(
                *display,
                #[trigger] items@[i].data,
                labels@[i]@,
            ) by {
                if i < before_items.len() {
                    assert(items_view(items@)[i] == items_view(before_items)[i]);
                    assert(labels@[i] == before_labels[i]);
                    assert(before_items[i].data == items@[i].data);
                }
            }
        }
        done = done + 1;
    }
    proof {
        assert(done == all.len());
        assert(nv.children.take(done as int) =~= nv.children);
        assert(nv.id == id.0);
        assert(nv.data == data);
    }
}

/// Effect of an expand/collapse gesture on `id`: the item `id` resolves
/// to flips its expansion, unless `id` is absent or a leaf.
pub open spec fn item_toggle_spec<T, F>(v: ItemTreeView<T, F>, id: u64) -> ItemTreeView<T, F> {
    match lookup(v.items, id) {
        None => v,
        Some(i) => if v.items[i].children.len() == 0 {
            v
        } else {
            ItemTreeView {
                items: v.items.update(i, ItemView { is_expanded: !v.items[i].is_expanded, ..v.items[i] }),
                ..v
            }
        },
    }
}

/// The ids of the drawn rows, in order.
pub open spec fn row_ids<T, F>(v: ItemTreeView<T, F>) -> Seq<u64> {
    item_rows(v).map_values(|i: int| v.items[i].id)
}

/// The selection and anchor after a gesture of mode `mode` on `id`.
///
/// - `Replace`: exactly `[id]`, anchored at `id`.
/// - `Toggle`: the first occurrence of `id` removed if present, else
///   `id` appended; anchored at `id`.
/// - `ExtendRange`: without an anchor, as `Replace`. Otherwise the ids of
///   the drawn rows between the anchor's and `id`'s rows inclusive, when
///   both are drawn, and the selection unchanged when not; the anchor
///   stays.
pub open spec fn item_selection_after<T, F>(v: ItemTreeView<T, F>, id: u64, mode: SelectionMode) -> (
    Seq<u64>,
    Option<u64>,
) {
    match mode {
        SelectionMode::Replace => (seq![id], Some(id)),
        SelectionMode::Toggle => (
            match first_pos(v.selected, id) {
                Some(p) => v.selected.remove(p),
                None => v.selected.push(id),
            },
            Some(id),
        ),
        SelectionMode::ExtendRange => match v.anchor {
            None => (seq![id], Some(id)),
            Some(a) => {
                let ids = row_ids(v);
                match (first_pos(ids, a), first_pos(ids, id)) {
                    (Some(x), Some(y)) => (
                        if x <= y {
                            ids.subrange(x, y + 1)
                        } else {
                            ids.subrange(y, x + 1)
                        },
                        v.anchor,
                    ),
                    _ => (v.selected, v.anchor),
                }
            },
        },
    }
}

/// Effect of a selection gesture on `id`: nothing for an absent id;
/// otherwise `id` becomes active, selection and anchor change per
/// [`item_selection_after`] and selection flags are re-synced.
pub open spec fn item_select_spec<T, F>(v: ItemTreeView<T, F>, id: u64, mode: SelectionMode) -> ItemTreeView<T, F> {
    if !live(v.items, id) {
        v
    } else {
        let (sel, anchor) = item_selection_after(v, id, mode);
        ItemTreeView { active: Some(id), selected: sel, anchor, items: sync_items(v.items, sel), ..v }
    }
}


/// The event a key press stands for, if any.
///
/// Nothing while no row is drawn. With `a` the first drawn row holding
/// the active id (`Up`/`Down` start from the first row without one):
/// - `Up`/`Down`: select the row above/below `a`, clamped to the ends,
///   extending the range with Shift;
/// - `Home`/`End`: select the first/last row; nothing with Shift;
/// - `Enter`/`Space`: select the active id;
/// - `Left`: collapse the active node when expanded, else select its
///   parent;
/// - `Right`: expand the active node when collapsed with children, else
///   select its first child when that child is in the tree;
/// - `Escape`: cancel the drag when one is active.
pub open spec fn item_key_spec<T, F>(v: ItemTreeView<T, F>, key: TreeKey, mods: Modifiers) -> Option<ItemTreeEvent> {
    let ids = row_ids(v);
    if ids.len() == 0 {
        None
    } else {
        let last = ids.len() - 1;
        let at = match v.active {
            Some(a) => first_pos(ids, a),
            None => None,
        };
        let mode = if mods.shift {
            SelectionMode::ExtendRange
        } else {
            SelectionMode::Replace
        };
        match key {
            TreeKey::Up => {
                let idx = match at {
                    Some(i) => if i >= 1 {
                        i - 1
                    } else {
                        0
                    },
                    None => 0,
                };
                Some(ItemTreeEvent::Selected(NodeId(ids[idx]), mode))
            },
            TreeKey::Down => {
                let idx = match at {
                    Some(i) => if i + 1 <= last {
                        i + 1
                    } else {
                        last
                    },
                    None => 0,
                };
                Some(ItemTreeEvent::Selected(NodeId(ids[idx]), mode))
            },
            TreeKey::Home => if mods.shift {
                None
            } else {
                Some(ItemTreeEvent::Selected(NodeId(ids[0]), SelectionMode::Replace))
            },
            TreeKey::End => if mods.shift {
                None
            } else {
                Some(ItemTreeEvent::Selected(NodeId(ids[last]), SelectionMode::Replace))
            },
            TreeKey::Enter | TreeKey::Space => match v.active {
                Some(a) => Some(ItemTreeEvent::Selected(NodeId(a), SelectionMode::Replace)),
                None => None,
            },
            TreeKey::Left => match v.active {
                Some(a) => match lookup(v.items, a) {
                    Some(i) => if v.items[i].is_expanded {
                        Some(ItemTreeEvent::Toggled(NodeId(a)))
                    } else {
                        match v.items[i].parent {
                            Some(p) => Some(ItemTreeEvent::Selected(NodeId(p), SelectionMode::Replace)),
                            None => None,
                        }
                    },
                    None => None,
                },
                None => None,
            },
            TreeKey::Right => match v.active {
                Some(a) => match lookup(v.items, a) {
                    Some(i) => {
                        let it = v.items[i];
                        if !it.is_expanded && it.children.len() > 0 {
                            Some(ItemTreeEvent::Toggled(NodeId(a)))
                        } else if it.children.len() > 0 && live(v.items, it.children[0]) {
                            Some(ItemTreeEvent::Selected(NodeId(it.children[0]), SelectionMode::Replace))
                        } else {
                            None
                        }
                    },
                    None => None,
                },
                None => None,
            },
            TreeKey::Escape => if v.drag is Some {
                Some(ItemTreeEvent::Drag(ItemDragMsg::Cancelled))
            } else {
                None
            },
        }
    }
}

/// Effect of setting the search query `q` (UTF-8 bytes `qb`): an empty
/// query ends the search; without a display function nothing changes;
/// otherwise the search starts or is replaced and is computed at once.
pub open spec fn item_search_spec<T, F>(v: ItemTreeView<T, F>, q: Seq<char>, qb: Seq<u8>) -> ItemTreeView<T, F> {
    if q.len() == 0 {
        ItemTreeView { search: None, ..v }
    } else if v.display is None {
        v
    } else {
        let fresh = ItemSearchView { query: q, query_lower: lower_seq(qb), visible: Set::empty(), match_count: 0 };
        ItemTreeView { search: Some(recompute_item_search(v, fresh)), ..v }
    }
}

/// The ids of the items whose id is in `sel`, in arena (pre-)order.
pub open spec fn in_tree_order<T>(items: Seq<ItemView<T>>, sel: Seq<u64>) -> Seq<u64>
    decreases items.len(),
{
    if items.len() == 0 {
        Seq::empty()
    } else {
        let p = in_tree_order(items.drop_last(), sel);
        if sel.contains(items.last().id) {
            p.push(items.last().id)
        } else {
            p
        }
    }
}

/// Effect of a drag message: the new state and the outcome.
///
/// - `Pressed`: ignored while drag-and-drop is off; otherwise starts a
///   session whose sources are the selection in tree order when the
///   pressed node is selected, and just that node otherwise.
/// - `Entered`: the hover becomes that zone iff the drop would be valid,
///   and is cleared otherwise.
/// - `Exited`: clears the hover only if it is that zone.
/// - `Released`: ends the session: a click on the pressed node, a drop
///   at the stored hover, or nothing without one.
/// - `Cancelled`: ends the session.
///
/// Without a session, `Entered`, `Exited` and `Released` change nothing.
/// Only the drag session ever changes; selection is never touched.
pub open spec fn item_drag_spec<T, F>(v: ItemTreeView<T, F>, m: ItemDragMsg) -> (ItemTreeView<T, F>, ItemOutcomeView) {
    match m {
        ItemDragMsg::Pressed(id) => if !v.dnd {
            (v, ItemOutcomeView::NoOp)
        } else {
            let sources = if v.selected.contains(id.0) {
                in_tree_order(v.items, v.selected)
            } else {
                seq![id.0]
            };
            (
                ItemTreeView { drag: Some(ItemDragView { sources, primary: id.0, hover: None }), ..v },
                ItemOutcomeView::NoOp,
            )
        },
        ItemDragMsg::Entered(t, p) => match v.drag {
            None => (v, ItemOutcomeView::NoOp),
            Some(d) => {
                let hover = if valid_drop_spec(v.items, d.sources, t.0, p) {
                    Some((t.0, p))
                } else {
                    None
                };
                (ItemTreeView { drag: Some(ItemDragView { hover, ..d }), ..v }, ItemOutcomeView::NoOp)
            },
        },
        ItemDragMsg::Exited(t, p) => match v.drag {
            None => (v, ItemOutcomeView::NoOp),
            Some(d) => if d.hover == Some((t.0, p)) {
                (ItemTreeView { drag: Some(ItemDragView { hover: None, ..d }), ..v }, ItemOutcomeView::NoOp)
            } else {
                (v, ItemOutcomeView::NoOp)
            },
        },
        ItemDragMsg::Released(t, _p) => match v.drag {
            None => (v, ItemOutcomeView::NoOp),
            Some(d) => {
                let ended = ItemTreeView { drag: None, ..v };
                if t.0 == d.primary {
                    (ended, ItemOutcomeView::Clicked(t.0))
                } else {
                    match d.hover {
                        Some((ht, hp)) => (
                            ended,
                            ItemOutcomeView::Completed { sources: d.sources, target: ht, position: hp },
                        ),
                        None => (ended, ItemOutcomeView::NoOp),
                    }
                }
            },
        },
        ItemDragMsg::Cancelled => (ItemTreeView { drag: None, ..v }, ItemOutcomeView::NoOp),
    }
}

/// Index of the first row with id `id`.
fn row_position(rows: &Vec<VisibleItem>, id: NodeId) -> (r: Option<usize>)
    ensures
        match r {
            Some(p) => first_pos(visible_view(rows@).map_values(|x: VisibleItemView| x.id), id.0)
                == Some(p as int),
            None => first_pos(visible_view(rows@).map_values(|x: VisibleItemView| x.id), id.0) is None,
        },
{
    let ghost sv = visible_view(rows@).map_values(|x: VisibleItemView| x.id);
    let mut i: usize = 0;
    while i < rows.len()
        invariant
            i <= rows@.len(),
            sv == visible_view(rows@).map_values(|x: VisibleItemView| x.id),
            sv.len() == rows@.len(),
            forall|j: int| 0 <= j < i ==> #[trigger] sv[j] != id.0,
        decreases rows@.len() - i,
    {
        proof {
            assert(sv[i as int] == rows@[i as int].id.0);
        }
        if rows[i].id == id {
            proof {
                crate::item_tree::node::lemma_first_pos_at(sv, id.0, i as int);
            }
            return Some(i);
        }
        i = i + 1;
    }
    proof {
        lemma_first_pos(sv, id.0);
        if first_pos(sv, id.0) is Some {
            let k = first_pos(sv, id.0)->0;
            assert(sv[k] != id.0);
        }
    }
    None
}

/// Set every item's selection flag to whether its id is in `sel`.
fn sync_item_flags<T>(items: &mut Vec<InternalItem<T>>, sel: &Vec<NodeId>)
    ensures
        items_view(final(items)@) == sync_items(items_view(old(items)@), ids_view(sel@)),
        forall|i: int| 0 <= i < old(items)@.len() ==> #[trigger] final(items)@[i].data == old(items)@[i].data,
        final(items)@.len() == old(items)@.len(),
{
    let ghost start = items_view(items@);
    let ghost start_raw = items@;
    let ghost sv = ids_view(sel@);
    let mut i: usize = 0;
    while i < items.len()
        invariant
            i <= items@.len(),
            items@.len() == start.len(),
            start == items_view(start_raw),
            start_raw.len() == start.len(),
            sv == ids_view(sel@),
            forall|j: int| 0 <= j < i ==> #[trigger] items@[j]@ == sync_items(start, sv)[j],
            forall|j: int| i <= j < items@.len() ==> #[trigger] items@[j] == start_raw[j],
            forall|j: int| 0 <= j < items@.len() ==> #[trigger] items@[j].data == start_raw[j].data,
        decreases items@.len() - i,
    {
        let b = ids_contain(sel, items[i].id);
        items[i].is_selected = b;
        proof {
            assert(start[i as int] == start_raw[i as int]@);
        }
        i = i + 1;
    }
    proof {
        assert(items_view(items@) =~= sync_items(start, sv));
    }
}

impl<T, F: Fn(&T) -> String> ItemTree<T, F> {
    /// Replace the whole content with the tree `root` (see
    /// [`set_tree_spec`]). State survives for every id that is still
    /// present, wherever it moved; ids that disappeared lose theirs.
    pub fn set_tree(&mut self, root: ItemNode<T>)
        requires
            old(self).wf(),
        ensures
            final(self).wf(),
            final(self)@ == set_tree_spec(old(self)@, root@, final(self)@.labels),
            labels_ok(final(self)@.display, final(self)@.items, final(self)@.labels),
    {
        let ghost v = self@;
        let ghost rv = root@;
        let root_id = root.id;
        let mut items: Vec<InternalItem<T>> = Vec::new();
        let mut labels: Vec<String> = Vec::new();
        proof {
            assert(items_view(items@) =~= Seq::empty());
        }
        flatten(root, None, 0, &self.items, &self.display_fn, &mut items, &mut labels);
        let ghost flat = items_view(items@);
        proof {
            assert(flat =~= flatten_spec(rv, None, 0, v.items));
            lemma_flatten_follow(rv, None, 0, v.items);
        }
        let mut sel: Vec<NodeId> = Vec::new();
        let mut i: usize = 0;
        while i < self.selected_ids.len()
            invariant
                i <= self.selected_ids@.len(),
                v.selected == ids_view(self.selected_ids@),
                flat == items_view(items@),
                ids_view(sel@) == prune(v.selected.take(i as int), flat),
            decreases self.selected_ids@.len() - i,
        {
            let id = self.selected_ids[i];
            proof {
                assert(v.selected.take(i + 1).drop_last() =~= v.selected.take(i as int));
                assert(v.selected.take(i + 1).last() == id.0);
                assert(ids_view(sel@.push(id)) =~= ids_view(sel@).push(id.0));
            }
            if find_index(&items, id).is_some() {
                sel.push(id);
            }
            i = i + 1;
        }
        proof {
            assert(v.selected.take(v.selected.len() as int) =~= v.selected);
        }
        let active = match self.active_id {
            Some(a) => if find_index(&items, a).is_some() {
                Some(a)
            } else {
                None
            },
            None => None,
        };
        let anchor = match self.anchor_id {
            Some(a) => if find_index(&items, a).is_some() {
                Some(a)
            } else {
                None
            },
            None => None,
        };
        let ghost raw = items@;
        sync_item_flags(&mut items, &sel);
        proof {
            lemma_sync_keeps(flat, ids_view(sel@));
            lemma_follow_wf(items_view(items@));
            assert forall|j: int| 0 <= j < items@.len() implies labelled(
                self.display_fn,
                #[trigger] items_view(items@)[j].data,
                labels@.map_values(|s: String| s@)[j],
            ) by {
                assert(items@[j].data == raw[j].data);
            }
        }
        self.items = items;
        self.labels = labels;
        self.root_id = Some(root_id);
        self.selected_ids = sel;
        self.active_id = active;
        self.anchor_id = anchor;
        proof {
            assert(self@.items == sync_items(flat, ids_view(self.selected_ids@)));
        }
        self.recompute_search();
    }

    /// Expand or collapse the node `id` resolves to (see
    /// [`item_toggle_spec`]); leaves and absent ids are ignored.
    pub fn on_toggled(&mut self, id: NodeId)
        requires
            old(self).wf(),
        ensures
            final(self).wf(),
            final(self)@ == item_toggle_spec(old(self)@, id.0),
    {
        let ghost v = self@;
        proof {
            lemma_lookup(v.items, id.0);
        }
        let i = match find_index(&self.items, id) {
            Some(i) => i,
            None => return,
        };
        proof {
            assert(v.items[i as int] == self.items@[i as int]@);
        }
        if !self.items[i].has_children() {
            return;
        }
        let e = self.items[i].is_expanded;
        self.items[i].is_expanded = !e;
        proof {
            let nv = self@.items;
            assert(nv =~= v.items.update(i as int, ItemView { is_expanded: !e, ..v.items[i as int] }));
            assert forall|j: int| 0 <= j < nv.len() implies #[trigger] nv[j].id == v.items[j].id by {}
            assert forall|x: u64| lookup(nv, x) == lookup(v.items, x) by {
                lemma_lookup_same_ids(nv, v.items, x);
            }
            assert forall|j: int, k: int|
                #![trigger nv[j].children[k]]
                0 <= j < nv.len() && 0 <= k < nv[j].children.len() implies (lookup(
                nv,
                nv[j].children[k],
            ) matches Some(m) && j < m < nv.len()) by {
                assert(nv[j].children == v.items[j].children);
                assert(v.items[j].children[k] == v.items[j].children[k]);
            }
            assert forall|j: int| 0 <= j < nv.len() implies labelled(
                self.display_fn,
                #[trigger] nv[j].data,
                self@.labels[j],
            ) by {
                assert(nv[j].data == v.items[j].data);
            }
        }
    }

    /// Apply a selection gesture (see [`item_select_spec`]). Ids not in
    /// the tree are ignored.
    pub fn on_selected(&mut self, id: NodeId, mode: SelectionMode)
        requires
            old(self).wf(),
        ensures
            final(self).wf(),
            final(self)@ == item_select_spec(old(self)@, id.0, mode),
    {
        let ghost v = self@;
        if find_index(&self.items, id).is_none() {
            return;
        }
        let (sel, anchor): (Vec<NodeId>, Option<NodeId>) = match mode {
            SelectionMode::Replace => {
                let mut s: Vec<NodeId> = Vec::new();
                s.push(id);
                proof {
                    assert(ids_view(s@) =~= seq![id.0]);
                }
                (s, Some(id))
            },
            SelectionMode::Toggle => {
                let mut s = copy_ids(&self.selected_ids);
                match position_in(&s, id) {
                    Some(p) => {
                        let ghost before = ids_view(s@);
                        proof {
                            lemma_first_pos(before, id.0);
                        }
                        s.remove(p);
                        proof {
                            assert(ids_view(s@) =~= before.remove(p as int));
                        }
                    },
                    None => {
                        let ghost before = ids_view(s@);
                        s.push(id);
                        proof {
                            assert(ids_view(s@) =~= before.push(id.0));
                        }
                    },
                }
                (s, Some(id))
            },
            SelectionMode::ExtendRange => {
                match self.anchor_id {
                    None => {
                        let mut s: Vec<NodeId> = Vec::new();
                        s.push(id);
                        proof {
                            assert(ids_view(s@) =~= seq![id.0]);
                        }
                        (s, Some(id))
                    },
                    Some(a) => {
                        let rows = self.visible_rows();
                        let ghost ids = visible_view(rows@).map_values(|x: VisibleItemView| x.id);
                        proof {
                            assert(ids =~= row_ids(v));
                        }
                        match (row_position(&rows, a), row_position(&rows, id)) {
                            (Some(x), Some(y)) => {
                                proof {
                                    lemma_first_pos(ids, a.0);
                                    lemma_first_pos(ids, id.0);
                                }
                                let (lo, hi) = if x <= y {
                                    (x, y)
                                } else {
                                    (y, x)
                                };
                                let mut s: Vec<NodeId> = Vec::new();
                                let n = rows.len();
                                let mut k: usize = lo;
                                while k <= hi
                                    invariant
                                        lo <= k <= hi + 1,
                                        hi < n,
                                        n == rows@.len(),
                                        ids == visible_view(rows@).map_values(|x: VisibleItemView| x.id),
                                        ids_view(s@) == ids.subrange(lo as int, k as int),
                                    decreases hi + 1 - k,
                                {
                                    proof {
                                        assert(ids[k as int] == rows@[k as int].id.0);
                                        assert(ids.subrange(lo as int, k + 1) =~= ids.subrange(lo as int, k as int).push(ids[k as int]));
                                        assert(ids_view(s@.push(rows@[k as int].id)) =~= ids_view(s@).push(rows@[k as int].id.0));
                                    }
                                    s.push(rows[k].id);
                                    k = k + 1;
                                }
                                (s, Some(a))
                            },
                            _ => (copy_ids(&self.selected_ids), Some(a)),
                        }
                    },
                }
            },
        };
        self.active_id = Some(id);
        self.anchor_id = anchor;
        self.selected_ids = sel;
        let ghost raw = self.items@;
        sync_item_flags(&mut self.items, &self.selected_ids);
        proof {
            let nv = self@.items;
            lemma_sync_keeps(v.items, self@.selected);
            assert forall|j: int, k: int|
                #![trigger nv[j].children[k]]
                0 <= j < nv.len() && 0 <= k < nv[j].children.len() implies (lookup(
                nv,
                nv[j].children[k],
            ) matches Some(m) && j < m < nv.len()) by {
                assert(nv[j].children == v.items[j].children);
                assert(v.items[j].children[k] == v.items[j].children[k]);
            }
            assert forall|j: int| 0 <= j < nv.len() implies labelled(
                self.display_fn,
                #[trigger] nv[j].data,
                self@.labels[j],
            ) by {
                assert(self.items@[j].data == raw[j].data);
            }
        }
    }

    /// Map a key press onto the event it stands for (see
    /// [`item_key_spec`]). Never mutates the tree.
    pub fn handle_key(&self, key: TreeKey, mods: Modifiers) -> (r: Option<ItemTreeEvent>)
        requires
            self.wf(),
        ensures
            r == item_key_spec(self@, key, mods),
    {
        let ghost v = self@;
        let rows = self.visible_rows();
        let ghost ids = visible_view(rows@).map_values(|x: VisibleItemView| x.id);
        proof {
            assert(ids =~= row_ids(v));
        }
        if rows.len() == 0 {
            return None;
        }
        let last = rows.len() - 1;
        let at: Option<usize> = match self.active_id {
            Some(a) => row_position(&rows, a),
            None => None,
        };
        proof {
            match v.active {
                Some(a) => lemma_first_pos(ids, a),
                None => {},
            }
            assert(forall|k: int| 0 <= k < rows@.len() ==> ids[k] == #[trigger] rows@[k].id.0);
        }
        let mode = if mods.shift {
            SelectionMode::ExtendRange
        } else {
            SelectionMode::Replace
        };
        match key {
            TreeKey::Up => {
                let idx = match at {
                    Some(i) => if i >= 1 {
                        i - 1
                    } else {
                        0
                    },
                    None => 0,
                };
                Some(ItemTreeEvent::Selected(rows[idx].id, mode))
            },
            TreeKey::Down => {
                let idx = match at {
                    Some(i) => if i + 1 <= last {
                        i + 1
                    } else {
                        last
                    },
                    None => 0,
                };
                Some(ItemTreeEvent::Selected(rows[idx].id, mode))
            },
            TreeKey::Home => if mods.shift {
                None
            } else {
                Some(ItemTreeEvent::Selected(rows[0].id, SelectionMode::Replace))
            },
            TreeKey::End => if mods.shift {
                None
            } else {
                Some(ItemTreeEvent::Selected(rows[last].id, SelectionMode::Replace))
            },
            TreeKey::Enter | TreeKey::Space => match self.active_id {
                Some(a) => Some(ItemTreeEvent::Selected(a, SelectionMode::Replace)),
                None => None,
            },
            TreeKey::Left => {
                let a = match self.active_id {
                    Some(a) => a,
                    None => return None,
                };
                proof {
                    lemma_lookup(v.items, a.0);
                }
                let i = match find_index(&self.items, a) {
                    Some(i) => i,
                    None => return None,
                };
                proof {
                    assert(v.items[i as int] == self.items@[i as int]@);
                }
                if self.items[i].is_expanded {
                    Some(ItemTreeEvent::Toggled(a))
                } else {
                    match self.items[i].parent_id {
                        Some(p) => Some(ItemTreeEvent::Selected(p, SelectionMode::Replace)),
                        None => None,
                    }
                }
            },
            TreeKey::Right => {
                let a = match self.active_id {
                    Some(a) => a,
                    None => return None,
                };
                proof {
                    lemma_lookup(v.items, a.0);
                }
                let i = match find_index(&self.items, a) {
                    Some(i) => i,
                    None => return None,
                };
                proof {
                    assert(v.items[i as int] == self.items@[i as int]@);
                }
                let item = &self.items[i];
                if !item.is_expanded && item.has_children() {
                    Some(ItemTreeEvent::Toggled(a))
                } else if item.has_children() {
                    let first = item.children_ids[0];
                    proof {
                        assert(v.items[i as int].children[0] == first.0);
                    }
                    if find_index(&self.items, first).is_some() {
                        Some(ItemTreeEvent::Selected(first, SelectionMode::Replace))
                    } else {
                        None
                    }
                } else {
                    None
                }
            },
            TreeKey::Escape => if self.drag.is_some() {
                Some(ItemTreeEvent::Drag(ItemDragMsg::Cancelled))
            } else {
                None
            },
        }
    }

    /// Start, replace or end the search (see [`item_search_spec`]). It
    /// filters the arena only; selection and drag are untouched.
    pub fn set_search_query(&mut self, query: &str)
        requires
            old(self).wf(),
        ensures
            final(self).wf(),
            final(self)@ == item_search_spec(old(self)@, query@, query.spec_bytes()),
    {
        if query.is_empty() {
            self.search = None;
            return;
        }
        if self.display_fn.is_none() {
            return;
        }
        let raw = bytes_of_str(query);
        let lower = lower_bytes(&raw);
        let st = ItemSearchState { query: query.to_owned(), query_lower: lower, visible_ids: Vec::new(), match_count: 0 };
        proof {
            assert(ids_view(st.visible_ids@) =~= Seq::empty());
            assert(ids_view(st.visible_ids@).to_set() =~= Set::empty());
        }
        self.search = Some(st);
        self.recompute_search();
    }

    /// End the search.
    pub fn clear_search(&mut self)
        requires
            old(self).wf(),
        ensures
            final(self).wf(),
            final(self)@ == (ItemTreeView { search: None, ..old(self)@ }),
    {
        self.search = None;
    }

    /// Feed a drag gesture (see [`item_drag_spec`]).
    pub fn on_drag_msg(&mut self, msg: ItemDragMsg) -> (r: ItemDragOutcome)
        requires
            old(self).wf(),
        ensures
            final(self).wf(),
            (final(self)@, r@) == item_drag_spec(old(self)@, msg),
    {
        let ghost v = self@;
        match msg {
            ItemDragMsg::Pressed(id) => {
                if !self.dnd_enabled {
                    return ItemDragOutcome::NoOp;
                }
                let sources = if ids_contain(&self.selected_ids, id) {
                    self.selected_in_tree_order()
                } else {
                    let mut one: Vec<NodeId> = Vec::new();
                    one.push(id);
                    proof {
                        assert(ids_view(one@) =~= seq![id.0]);
                    }
                    one
                };
                self.drag = Some(ItemDragState { sources, primary: id, hover: None });
                ItemDragOutcome::NoOp
            },
            ItemDragMsg::Entered(t, p) => {
                let ok = match &self.drag {
                    None => return ItemDragOutcome::NoOp,
                    Some(d) => is_valid_drop(&self.items, d.sources.as_slice(), t, p),
                };
                match &mut self.drag {
                    Some(d) => {
                        d.hover = if ok {
                            Some((t, p))
                        } else {
                            None
                        };
                    },
                    None => {},
                }
                ItemDragOutcome::NoOp
            },
            ItemDragMsg::Exited(t, p) => {
                match &mut self.drag {
                    Some(d) => {
                        let hit = match d.hover {
                            Some((ht, hp)) => ht == t && hp == p,
                            None => false,
                        };
                        if hit {
                            d.hover = None;
                        }
                    },
                    None => {},
                }
                ItemDragOutcome::NoOp
            },
            ItemDragMsg::Released(t, _p) => {
                let d = match self.drag.take() {
                    Some(d) => d,
                    None => return ItemDragOutcome::NoOp,
                };
                if t == d.primary {
                    return ItemDragOutcome::Clicked(t);
                }
                match d.hover {
                    Some((ht, hp)) => ItemDragOutcome::Completed { sources: d.sources, target: ht, position: hp },
                    None => ItemDragOutcome::NoOp,
                }
            },
            ItemDragMsg::Cancelled => {
                self.drag = None;
                ItemDragOutcome::NoOp
            },
        }
    }

    /// The selected ids in arena (pre-)order.
    fn selected_in_tree_order(&self) -> (r: Vec<NodeId>)
        ensures
            ids_view(r@) == in_tree_order(self@.items, self@.selected),
    {
        let ghost v = self@;
        let mut out: Vec<NodeId> = Vec::new();
        let mut i: usize = 0;
        while i < self.items.len()
            invariant
                i <= self.items@.len(),
                v == self@,
                ids_view(out@) == in_tree_order(v.items.take(i as int), v.selected),
            decreases self.items@.len() - i,
        {
            let id = self.items[i].id;
            proof {
                assert(v.items.take(i + 1).drop_last() =~= v.items.take(i as int));
                assert(v.items.take(i + 1).last() == self.items@[i as int]@);
                assert(ids_view(out@.push(id)) =~= ids_view(out@).push(id.0));
            }
            if ids_contain(&self.selected_ids, id) {
                out.push(id);
            }
            i = i + 1;
        }
        proof {
            assert(v.items.take(v.items.len() as int) =~= v.items);
        }
        out
    }
}

/// A copy of a list of ids.
fn copy_ids(ids: &Vec<NodeId>) -> (r: Vec<NodeId>)
    ensures
        r@ == ids@,
{
    let mut out: Vec<NodeId> = Vec::new();
    let mut i: usize = 0;
    while i < ids.len()
        invariant
            i <= ids@.len(),
            out@ == ids@.take(i as int),
        decreases ids@.len() - i,
    {
        proof {
            assert(ids@.take(i + 1) =~= ids@.take(i as int).push(ids@[i as int]));
        }
        out.push(ids[i]);
        i = i + 1;
    }
    proof {
        assert(ids@.take(ids@.len() as int) =~= ids@);
    }
    out
}

} // verus!
