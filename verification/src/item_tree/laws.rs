//! Properties of the item tree's transitions that span several calls or
//! hold of every input.

use vstd::prelude::*;

use crate::item_tree::drag::{ancestor_or_self_spec, valid_drop_spec, DropPosition, ItemDragMsg, ItemOutcomeView};
use crate::item_event::ItemTreeEvent;
use crate::item_tree::node::{first_pos, lookup, ItemNodeView, ItemView, NodeId};
use crate::keyboard::{Modifiers, TreeKey};
use crate::item_tree::transitions::{
    flatten_list, flatten_spec, item_drag_spec, item_key_spec, row_ids, item_search_spec, item_select_spec, item_toggle_spec,
    lemma_lookup_same_ids, live, old_expanded, prune, set_tree_spec, sync_items,
};
use crate::item_tree::{
    distinct_count, is_last, item_flags_synced, last_occurrences, law_item_tree_in_step, ItemTree, ItemTreeView,
};
use crate::item_tree::search::label_matches;
use crate::path::{contains_seq, lower_seq};
use vstd::utf8::encode_utf8;
use crate::selection::{lemma_push_distinct, lemma_remove_distinct, lemma_subrange_distinct, SelectionMode};

verus! {

/// Every item of a flattened subtree keeps the expansion its id had.
proof fn lemma_flatten_expansion<T>(n: ItemNodeView<T>, parent: Option<u64>, depth: u32, old: Seq<ItemView<T>>)
    ensures
        forall|i: int|
            0 <= i < flatten_spec(n, parent, depth, old).len() ==> #[trigger] flatten_spec(
                n,
                parent,
                depth,
                old,
            )[i].is_expanded == old_expanded(old, flatten_spec(n, parent, depth, old)[i].id),
    decreases n,
{
    lemma_flatten_list_expansion(n.children, Some(n.id), crate::item_tree::transitions::next_level(depth), old);
}

proof fn lemma_flatten_list_expansion<T>(
    s: Seq<ItemNodeView<T>>,
    parent: Option<u64>,
    depth: u32,
    old: Seq<ItemView<T>>,
)
    ensures
        forall|i: int|
            0 <= i < flatten_list(s, parent, depth, old).len() ==> #[trigger] flatten_list(
                s,
                parent,
                depth,
                old,
            )[i].is_expanded == old_expanded(old, flatten_list(s, parent, depth, old)[i].id),
    decreases s,
{
    if s.len() > 0 {
        lemma_flatten_list_expansion(s.drop_last(), parent, depth, old);
        lemma_flatten_expansion(s.last(), parent, depth, old);
    }
}

/// Every id kept by [`prune`] is live.
proof fn lemma_prune_live<T>(sel: Seq<u64>, items: Seq<ItemView<T>>)
    ensures
        forall|k: int| 0 <= k < prune(sel, items).len() ==> live(items, #[trigger] prune(sel, items)[k]),
        forall|x: u64| sel.contains(x) && live(items, x) ==> prune(sel, items).contains(x),
    decreases sel.len(),
{
    if sel.len() > 0 {
        lemma_prune_live(sel.drop_last(), items);
        let p = prune(sel.drop_last(), items);
        assert forall|x: u64| sel.contains(x) && live(items, x) implies prune(sel, items).contains(x) by {
            let k = choose|k: int| 0 <= k < sel.len() && sel[k] == x;
            if k < sel.len() - 1 {
                assert(sel.drop_last()[k] == x);
                assert(sel.drop_last().contains(x));
                assert(p.contains(x));
                let j = choose|j: int| 0 <= j < p.len() && p[j] == x;
                if live(items, sel.last()) {
                    assert(p.push(sel.last())[j] == x);
                }
            } else {
                assert(p.push(sel.last())[p.len() as int] == x);
            }
        }
    }
}

/// Replacing the content keeps the expansion of every id that survives,
/// wherever it moved; a new id starts collapsed.
pub proof fn law_set_tree_keeps_expansion<T, F>(
    v: ItemTreeView<T, F>,
    root: ItemNodeView<T>,
    labels: Seq<Seq<char>>,
    x: u64,
)
    ensures
        lookup(set_tree_spec(v, root, labels).items, x) matches Some(i)
            ==> set_tree_spec(v, root, labels).items[i].is_expanded == old_expanded(v.items, x),
{
    let flat = flatten_spec(root, None, 0, v.items);
    let sel = prune(v.selected, flat);
    let items = set_tree_spec(v, root, labels).items;
    assert(items == sync_items(flat, sel));
    assert forall|i: int| 0 <= i < items.len() implies #[trigger] items[i].id == flat[i].id by {}
    lemma_lookup_same_ids(items, flat, x);
    lemma_flatten_expansion(root, None, 0, v.items);
    crate::item_tree::node::lemma_lookup(flat, x);
}

/// After a content replacement every selected id, and the active and
/// anchor ids, are live; every selected id that survived stays selected,
/// and each item's selection flag tells whether its id is selected.
pub proof fn law_set_tree_prunes_selection<T, F>(v: ItemTreeView<T, F>, root: ItemNodeView<T>, labels: Seq<Seq<char>>)
    ensures
        ({
            let w = set_tree_spec(v, root, labels);
            &&& forall|k: int| 0 <= k < w.selected.len() ==> live(w.items, #[trigger] w.selected[k])
            &&& forall|x: u64| v.selected.contains(x) && live(w.items, x) ==> w.selected.contains(x)
            &&& w.active matches Some(a) ==> live(w.items, a)
            &&& w.anchor matches Some(a) ==> live(w.items, a)
            &&& forall|i: int| 0 <= i < w.items.len() ==> #[trigger] w.items[i].is_selected == w.selected.contains(w.items[i].id)
        }),
{
    let flat = flatten_spec(root, None, 0, v.items);
    let sel = prune(v.selected, flat);
    let w = set_tree_spec(v, root, labels);
    assert forall|i: int| 0 <= i < w.items.len() implies #[trigger] w.items[i].id == flat[i].id by {}
    assert forall|y: u64| live(w.items, y) == live(flat, y) by {
        lemma_lookup_same_ids(w.items, flat, y);
    }
    lemma_prune_live(v.selected, flat);
}

/// Expanding and collapsing a node (or the reverse) restores the tree.
pub proof fn law_item_toggle_twice_is_identity<T, F>(v: ItemTreeView<T, F>, id: u64)
    ensures
        item_toggle_spec(item_toggle_spec(v, id), id) == v,
{
    match lookup(v.items, id) {
        Some(i) => {
            if v.items[i].children.len() > 0 {
                let w = item_toggle_spec(v, id);
                crate::item_tree::node::lemma_lookup(v.items, id);
                assert forall|j: int| 0 <= j < w.items.len() implies #[trigger] w.items[j].id == v.items[j].id by {}
                lemma_lookup_same_ids(w.items, v.items, id);
                assert(item_toggle_spec(w, id).items =~= v.items);
            }
        },
        None => {},
    }
}

/// A selection gesture leaves each item's flag telling whether its id is
/// selected, and makes the gesture's id active when it is in the tree.
pub proof fn law_item_selection_flags_follow<T, F>(v: ItemTreeView<T, F>, id: u64, mode: SelectionMode)
    requires
        live(v.items, id),
    ensures
        ({
            let w = item_select_spec(v, id, mode);
            &&& w.active == Some(id)
            &&& forall|i: int| 0 <= i < w.items.len() ==> #[trigger] w.items[i].is_selected == w.selected.contains(w.items[i].id)
        }),
{
}

/// Searching changes nothing but the search session.
pub proof fn law_item_search_is_free<T, F>(v: ItemTreeView<T, F>, q: Seq<char>, qb: Seq<u8>)
    ensures
        item_search_spec(v, q, qb) == (ItemTreeView { search: item_search_spec(v, q, qb).search, ..v }),
{
}

/// A drag message changes nothing but the drag session: in particular a
/// click-release never touches the selection.
pub proof fn law_item_drag_touches_only_the_session<T, F>(v: ItemTreeView<T, F>, m: ItemDragMsg)
    ensures
        item_drag_spec(v, m).0 == (ItemTreeView { drag: item_drag_spec(v, m).0.drag, ..v }),
{
}

/// A hover is only ever set on a zone where the drop is valid.
pub proof fn law_item_hover_is_valid<T, F>(v: ItemTreeView<T, F>, m: ItemDragMsg)
    requires
        v.drag matches Some(d) ==> (d.hover matches Some((t, p)) ==> valid_drop_spec(v.items, d.sources, t, p)),
    ensures
        item_drag_spec(v, m).0.drag matches Some(d) ==> (d.hover matches Some((t, p)) ==> valid_drop_spec(
            item_drag_spec(v, m).0.items,
            d.sources,
            t,
            p,
        )),
{
}

/// A node is never dropped onto itself, and never nested into its own
/// subtree.
pub proof fn law_no_drop_into_own_subtree<T>(items: Seq<ItemView<T>>, sources: Seq<u64>, target: u64, s: u64, pos: DropPosition)
    requires
        sources.contains(s),
        ancestor_or_self_spec(items, s, target),
    ensures
        !valid_drop_spec(items, sources, target, DropPosition::Into),
        !valid_drop_spec(items, sources, s, pos),
{
    let k = choose|k: int| 0 <= k < sources.len() && sources[k] == s;
    assert(sources[k] == s);
}

/// Releasing on the pressed node is a click; a completed drop goes to
/// the stored hover.
pub proof fn law_item_release_outcome<T, F>(v: ItemTreeView<T, F>, t: u64, p: DropPosition)
    requires
        v.drag is Some,
    ensures
        ({
            let d = v.drag->0;
            let out = item_drag_spec(v, ItemDragMsg::Released(crate::item_tree::node::NodeId(t), p)).1;
            &&& t == d.primary ==> out == ItemOutcomeView::Clicked(t)
            &&& t != d.primary ==> match d.hover {
                Some((ht, hp)) => out == ItemOutcomeView::Completed { sources: d.sources, target: ht, position: hp },
                None => out == ItemOutcomeView::NoOp,
            }
        }),
{
}

/// Every transition keeps each item's selection flag in step with the
/// selection: replacing the content, expanding, selecting, searching and
/// dragging.
pub proof fn law_item_flags_stay_synced<T, F>(
    v: ItemTreeView<T, F>,
    root: ItemNodeView<T>,
    labels: Seq<Seq<char>>,
    id: u64,
    mode: SelectionMode,
    q: Seq<char>,
    qb: Seq<u8>,
    m: ItemDragMsg,
)
    requires
        item_flags_synced(v.items, v.selected),
    ensures
        item_flags_synced(set_tree_spec(v, root, labels).items, set_tree_spec(v, root, labels).selected),
        item_flags_synced(item_toggle_spec(v, id).items, item_toggle_spec(v, id).selected),
        item_flags_synced(item_select_spec(v, id, mode).items, item_select_spec(v, id, mode).selected),
        item_flags_synced(item_search_spec(v, q, qb).items, item_search_spec(v, q, qb).selected),
        item_flags_synced(item_drag_spec(v, m).0.items, item_drag_spec(v, m).0.selected),
{
    law_set_tree_prunes_selection(v, root, labels);
    lemma_item_toggle_keeps_synced(v, id);
}

/// Expanding or collapsing never touches a selection flag.
pub proof fn lemma_item_toggle_keeps_synced<T, F>(v: ItemTreeView<T, F>, id: u64)
    requires
        item_flags_synced(v.items, v.selected),
    ensures
        item_flags_synced(item_toggle_spec(v, id).items, item_toggle_spec(v, id).selected),
{
    crate::item_tree::node::lemma_lookup(v.items, id);
    let w = item_toggle_spec(v, id);
    assert(w.items.len() == v.items.len());
    assert forall|i: int| 0 <= i < w.items.len() implies #[trigger] w.items[i].is_selected == w.selected.contains(
        w.items[i].id,
    ) by {
        assert(v.items[i].is_selected == v.selected.contains(v.items[i].id));
    }
}

/// Right on the active item, when it is expanded and has children,
/// selects its first child, and that child is always in the tree.
pub proof fn law_item_right_enters_first_child<T, F: Fn(&T) -> String>(
    t: &ItemTree<T, F>,
    mods: Modifiers,
    a: u64,
    i: int,
)
    requires
        t.wf(),
        row_ids(t@).len() > 0,
        t@.active == Some(a),
        lookup(t@.items, a) == Some(i),
        t@.items[i].is_expanded,
        t@.items[i].children.len() > 0,
    ensures
        live(t@.items, t@.items[i].children[0]),
        item_key_spec(t@, TreeKey::Right, mods) == Some(
            ItemTreeEvent::Selected(NodeId(t@.items[i].children[0]), SelectionMode::Replace),
        ),
{
    law_item_tree_in_step(t);
    crate::item_tree::node::lemma_lookup(t@.items, a);
    assert(0 <= i < t@.items.len());
    let c = t@.items[i].children[0];
    assert(lookup(t@.items, c) is Some);
}

/// The ids of the subtree `n` in pre-order.
pub open spec fn subtree_ids<T>(n: ItemNodeView<T>) -> Seq<u64>
    decreases n,
{
    seq![n.id] + list_ids(n.children)
}

/// [`subtree_ids`] of each node of a list, concatenated.
pub open spec fn list_ids<T>(s: Seq<ItemNodeView<T>>) -> Seq<u64>
    decreases s,
{
    if s.len() == 0 {
        Seq::empty()
    } else {
        list_ids(s.drop_last()) + subtree_ids(s.last())
    }
}

/// Flattening a subtree yields one item per node, carrying the node ids
/// in pre-order.
proof fn lemma_flatten_ids<T>(n: ItemNodeView<T>, parent: Option<u64>, depth: u32, old: Seq<ItemView<T>>)
    ensures
        flatten_spec(n, parent, depth, old).len() == subtree_ids(n).len(),
        forall|i: int|
            0 <= i < subtree_ids(n).len() ==> #[trigger] flatten_spec(n, parent, depth, old)[i].id
                == subtree_ids(n)[i],
    decreases n,
{
    lemma_flatten_list_ids(n.children, Some(n.id), crate::item_tree::transitions::next_level(depth), old);
}

proof fn lemma_flatten_list_ids<T>(s: Seq<ItemNodeView<T>>, parent: Option<u64>, depth: u32, old: Seq<ItemView<T>>)
    ensures
        flatten_list(s, parent, depth, old).len() == list_ids(s).len(),
        forall|i: int|
            0 <= i < list_ids(s).len() ==> #[trigger] flatten_list(s, parent, depth, old)[i].id == list_ids(s)[i],
    decreases s,
{
    if s.len() > 0 {
        lemma_flatten_list_ids(s.drop_last(), parent, depth, old);
        lemma_flatten_ids(s.last(), parent, depth, old);
        let a = flatten_list(s.drop_last(), parent, depth, old);
        let b = flatten_spec(s.last(), parent, depth, old);
        assert forall|i: int| 0 <= i < list_ids(s).len() implies #[trigger] flatten_list(s, parent, depth, old)[i].id
            == list_ids(s)[i] by {
            if i >= a.len() {
                assert(b[i - a.len()].id == subtree_ids(s.last())[i - a.len()]);
            }
        }
    }
}

/// When no id repeats, each of the first `n` items is counted.
proof fn lemma_distinct_counts_all<T>(items: Seq<ItemView<T>>, n: int)
    requires
        0 <= n <= items.len(),
        forall|a: int, b: int| 0 <= a < b < items.len() ==> items[a].id != items[b].id,
    ensures
        last_occurrences(items, n) == n,
    decreases n,
{
    if n > 0 {
        lemma_distinct_counts_all(items, n - 1);
        assert(is_last(items, n - 1));
    }
}

/// Replacing the content with a tree whose ids are all different leaves
/// exactly one node per id of the new tree.
pub proof fn law_set_tree_node_count<T, F>(v: ItemTreeView<T, F>, root: ItemNodeView<T>, labels: Seq<Seq<char>>)
    requires
        subtree_ids(root).no_duplicates(),
    ensures
        distinct_count(set_tree_spec(v, root, labels).items) == subtree_ids(root).len(),
{
    let flat = flatten_spec(root, None, 0, v.items);
    let items = set_tree_spec(v, root, labels).items;
    let ids = subtree_ids(root);
    lemma_flatten_ids(root, None, 0, v.items);
    assert forall|a: int, b: int| 0 <= a < b < items.len() implies items[a].id != items[b].id by {
        assert(items[a].id == ids[a]);
        assert(items[b].id == ids[b]);
    }
    lemma_distinct_counts_all(items, items.len() as int);
}

/// After a content replacement an id is in the tree exactly when it is
/// the id of a node of the new content; an id that is in the tree keeps
/// the expansion it had, and any other id has none.
pub proof fn law_set_tree_ids<T, F>(v: ItemTreeView<T, F>, root: ItemNodeView<T>, labels: Seq<Seq<char>>, x: u64)
    ensures
        live(set_tree_spec(v, root, labels).items, x) <==> subtree_ids(root).contains(x),
        set_tree_spec(v, root, labels).items.len() == subtree_ids(root).len(),
        lookup(set_tree_spec(v, root, labels).items, x) matches Some(i)
            ==> set_tree_spec(v, root, labels).items[i].is_expanded == old_expanded(v.items, x),
{
    let flat = flatten_spec(root, None, 0, v.items);
    let items = set_tree_spec(v, root, labels).items;
    lemma_flatten_ids(root, None, 0, v.items);
    assert forall|i: int| 0 <= i < items.len() implies #[trigger] items[i].id == flat[i].id by {}
    crate::item_tree::node::lemma_lookup(items, x);
    let ids = subtree_ids(root);
    if live(items, x) {
        let i = lookup(items, x)->0;
        assert(ids[i] == x);
    }
    if ids.contains(x) {
        let k = choose|k: int| 0 <= k < ids.len() && ids[k] == x;
        assert(items[k].id == x);
    }
    law_set_tree_keeps_expansion(v, root, labels, x);
}

/// A selection gesture never repeats an id in the selection, provided the
/// selection did not before and, for a range, the drawn rows do not
/// repeat an id (they can when the content lists one id at two places).
pub proof fn law_item_selection_stays_distinct<T, F>(v: ItemTreeView<T, F>, id: u64, mode: SelectionMode)
    requires
        v.selected.no_duplicates(),
        mode == SelectionMode::ExtendRange ==> row_ids(v).no_duplicates(),
    ensures
        item_select_spec(v, id, mode).selected.no_duplicates(),
{
    crate::item_tree::node::lemma_first_pos(v.selected, id);
    match mode {
        SelectionMode::Replace => {},
        SelectionMode::Toggle => match first_pos(v.selected, id) {
            Some(p) => lemma_remove_distinct(v.selected, p),
            None => lemma_push_distinct(v.selected, id),
        },
        SelectionMode::ExtendRange => match v.anchor {
            None => {},
            Some(a) => {
                let ids = row_ids(v);
                crate::item_tree::node::lemma_first_pos(ids, a);
                crate::item_tree::node::lemma_first_pos(ids, id);
                match (first_pos(ids, a), first_pos(ids, id)) {
                    (Some(x), Some(y)) => if x <= y {
                        lemma_subrange_distinct(ids, x, y + 1);
                    } else {
                        lemma_subrange_distinct(ids, y, x + 1);
                    },
                    _ => {},
                }
            },
        },
    }
}

/// With rows drawn and an active item, Space and Enter both select the
/// active item alone, whatever the modifiers; without an active item
/// they do nothing.
pub proof fn law_item_space_and_enter_select_active<T, F>(v: ItemTreeView<T, F>, mods: Modifiers)
    requires
        row_ids(v).len() > 0,
    ensures
        item_key_spec(v, TreeKey::Space, mods) == item_key_spec(v, TreeKey::Enter, mods),
        v.active matches Some(a) ==> item_key_spec(v, TreeKey::Space, mods) == Some(
            ItemTreeEvent::Selected(NodeId(a), SelectionMode::Replace),
        ),
        v.active is None ==> item_key_spec(v, TreeKey::Space, mods) is None,
{
}

/// No key does anything while no row is drawn.
pub proof fn law_item_keys_need_rows<T, F>(v: ItemTreeView<T, F>, key: TreeKey, mods: Modifiers)
    requires
        row_ids(v).len() == 0,
    ensures
        item_key_spec(v, key, mods) is None,
{
}

/// Home and End select the first and the last drawn row alone; with
/// Shift they do nothing.
pub proof fn law_item_home_end<T, F>(v: ItemTreeView<T, F>, mods: Modifiers)
    requires
        row_ids(v).len() > 0,
    ensures
        !mods.shift ==> item_key_spec(v, TreeKey::Home, mods) == Some(
            ItemTreeEvent::Selected(NodeId(row_ids(v)[0]), SelectionMode::Replace),
        ),
        !mods.shift ==> item_key_spec(v, TreeKey::End, mods) == Some(
            ItemTreeEvent::Selected(NodeId(row_ids(v).last()), SelectionMode::Replace),
        ),
        mods.shift ==> item_key_spec(v, TreeKey::Home, mods) is None,
        mods.shift ==> item_key_spec(v, TreeKey::End, mods) is None,
{
}

/// Up and Down move one drawn row from the first row of the active item,
/// stopping at the ends; Shift extends the range, otherwise the
/// selection is replaced.
pub proof fn law_item_up_down_move_one_row<T, F>(v: ItemTreeView<T, F>, mods: Modifiers, i: int)
    requires
        0 <= i < row_ids(v).len(),
        v.active == Some(row_ids(v)[i]),
        forall|j: int| 0 <= j < i ==> #[trigger] row_ids(v)[j] != row_ids(v)[i],
    ensures
        ({
            let ids = row_ids(v);
            let m = if mods.shift { SelectionMode::ExtendRange } else { SelectionMode::Replace };
            &&& item_key_spec(v, TreeKey::Up, mods) == Some(
                ItemTreeEvent::Selected(NodeId(ids[if i > 0 { i - 1 } else { 0 }]), m),
            )
            &&& item_key_spec(v, TreeKey::Down, mods) == Some(
                ItemTreeEvent::Selected(NodeId(ids[if i + 1 < ids.len() { i + 1 } else { i }]), m),
            )
        }),
{
    crate::item_tree::node::lemma_first_pos_at(row_ids(v), row_ids(v)[i], i);
}

/// Without a drawn active item, Up and Down go to the first drawn row.
pub proof fn law_item_up_down_start_at_the_top<T, F>(v: ItemTreeView<T, F>, mods: Modifiers)
    requires
        row_ids(v).len() > 0,
        v.active matches Some(a) ==> !row_ids(v).contains(a),
    ensures
        ({
            let m = if mods.shift { SelectionMode::ExtendRange } else { SelectionMode::Replace };
            &&& item_key_spec(v, TreeKey::Up, mods) == Some(ItemTreeEvent::Selected(NodeId(row_ids(v)[0]), m))
            &&& item_key_spec(v, TreeKey::Down, mods) == Some(ItemTreeEvent::Selected(NodeId(row_ids(v)[0]), m))
        }),
{
    match v.active {
        Some(a) => crate::item_tree::node::lemma_first_pos(row_ids(v), a),
        None => {},
    }
}

/// Escape cancels an active drag and otherwise does nothing.
pub proof fn law_item_escape_cancels_drag<T, F>(v: ItemTreeView<T, F>, mods: Modifiers)
    requires
        row_ids(v).len() > 0,
    ensures
        v.drag is Some ==> item_key_spec(v, TreeKey::Escape, mods) == Some(
            ItemTreeEvent::Drag(ItemDragMsg::Cancelled),
        ),
        v.drag is None ==> item_key_spec(v, TreeKey::Escape, mods) is None,
{
}

/// Left on the active item collapses it when expanded and otherwise
/// selects its parent (nothing at the top); Right expands it when it is
/// collapsed with children and does nothing on a leaf.
pub proof fn law_item_left_right<T, F>(v: ItemTreeView<T, F>, mods: Modifiers, a: u64, i: int)
    requires
        row_ids(v).len() > 0,
        v.active == Some(a),
        lookup(v.items, a) == Some(i),
    ensures
        v.items[i].is_expanded ==> item_key_spec(v, TreeKey::Left, mods) == Some(
            ItemTreeEvent::Toggled(NodeId(a)),
        ),
        !v.items[i].is_expanded ==> item_key_spec(v, TreeKey::Left, mods) == match v.items[i].parent {
            Some(p) => Some(ItemTreeEvent::Selected(NodeId(p), SelectionMode::Replace)),
            None => None,
        },
        !v.items[i].is_expanded && v.items[i].children.len() > 0 ==> item_key_spec(v, TreeKey::Right, mods)
            == Some(ItemTreeEvent::Toggled(NodeId(a))),
        v.items[i].children.len() == 0 ==> item_key_spec(v, TreeKey::Right, mods) is None,
{
}

/// Item search compares labels without regard to ASCII letter case: an
/// active search holds the query ASCII-lower-cased, a label matches
/// exactly when its UTF-8 text, ASCII-lower-cased, contains that query,
/// and two labels that differ only in ASCII case match alike.
pub proof fn law_item_search_ignores_ascii_case<T, F>(
    v: ItemTreeView<T, F>,
    q: Seq<char>,
    qb: Seq<u8>,
    l1: Seq<char>,
    l2: Seq<char>,
)
    requires
        q.len() > 0,
        v.display is Some,
        lower_seq(encode_utf8(l1)) == lower_seq(encode_utf8(l2)),
    ensures
        item_search_spec(v, q, qb).search is Some,
        ({
            let ql = item_search_spec(v, q, qb).search->0.query_lower;
            &&& ql == lower_seq(qb)
            &&& label_matches(l1, ql) == contains_seq(lower_seq(encode_utf8(l1)), lower_seq(qb))
            &&& label_matches(l1, ql) == label_matches(l2, ql)
        }),
{
}

} // verus!
