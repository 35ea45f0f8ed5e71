//! Generic in-memory item tree: the sibling of `DirectoryTree` over
//! caller-supplied, fully preloaded data keyed by [`NodeId`].
//!
//! It offers the same keyboard navigation, multi-selection,
//! expand/collapse, incremental search and drag-and-drop, with no lazy
//! loading, no generation counter and no filesystem. The caller builds
//! an [`ItemNode`] tree from its own model and hands it to `set_tree`;
//! expansion and selection survive for every id that is still present.

use vstd::prelude::*;

pub mod node;
pub mod drag;
pub mod rows;
pub mod search;
pub mod transitions;
pub mod laws;

pub use self::drag::{DropPosition, ItemDragMsg, ItemDragOutcome};
pub use self::node::{ItemNode, NodeId, VisibleItem};
pub use self::search::ItemSearchState;

use crate::item_tree::drag::{hover_view, ItemDragState, ItemDragView};
use crate::item_tree::node::{
    find_index, ids_view, items_view, lemma_lookup, lookup, opt_id, InternalItem, ItemView,
};
use crate::item_tree::search::ItemSearchView;

verus! {

/// Generic in-memory item tree.
///
/// `F` is the display function mapping an item's data to its label; it
/// drives label rendering and search. Without one, labels are empty and
/// search is disabled.
#[derive(Debug, Clone)]
pub struct ItemTree<T, F = fn(&T) -> String> {
    /// The arena, in pre-order of the last `set_tree`.
    pub(crate) items: Vec<InternalItem<T>>,
    /// The display string of each item, by arena index.
    pub(crate) labels: Vec<String>,
    pub(crate) root_id: Option<NodeId>,
    /// Selected ids in insertion order.
    pub(crate) selected_ids: Vec<NodeId>,
    /// The keyboard-focus node.
    pub(crate) active_id: Option<NodeId>,
    /// The pivot of range selection.
    pub(crate) anchor_id: Option<NodeId>,
    pub(crate) search: Option<ItemSearchState>,
    pub(crate) display_fn: Option<F>,
    /// Whether drag-and-drop is enabled (off by default).
    pub(crate) dnd_enabled: bool,
    pub(crate) drag: Option<ItemDragState>,
}

/// The mathematical value of an item tree.
pub struct ItemTreeView<T, F> {
    /// The arena, in pre-order.
    pub items: Seq<ItemView<T>>,
    /// The label of each arena item.
    pub labels: Seq<Seq<char>>,
    pub root: Option<u64>,
    pub selected: Seq<u64>,
    pub active: Option<u64>,
    pub anchor: Option<u64>,
    pub search: Option<ItemSearchView>,
    pub display: Option<F>,
    pub dnd: bool,
    pub drag: Option<ItemDragView>,
}

/// The value of an optional drag session.
pub open spec fn item_drag_view(d: Option<ItemDragState>) -> Option<ItemDragView> {
    match d {
        Some(s) => Some(s@),
        None => None,
    }
}

/// The value of an optional search session.
pub open spec fn item_search_view(s: Option<ItemSearchState>) -> Option<ItemSearchView> {
    match s {
        Some(st) => Some(st@),
        None => None,
    }
}

impl<T, F> View for ItemTree<T, F> {
    type V = ItemTreeView<T, F>;

    closed spec fn view(&self) -> ItemTreeView<T, F> {
        ItemTreeView {
            items: items_view(self.items@),
            labels: self.labels@.map_values(|s: String| s@),
            root: opt_id(self.root_id),
            selected: ids_view(self.selected_ids@),
            active: opt_id(self.active_id),
            anchor: opt_id(self.anchor_id),
            search: item_search_view(self.search),
            display: self.display_fn,
            dnd: self.dnd_enabled,
            drag: item_drag_view(self.drag),
        }
    }
}

/// `label` is what the display function gives for `data`: some value
/// the function may return on it; empty without a function.
pub open spec fn labelled<T, F: Fn(&T) -> String>(display: Option<F>, data: T, label: Seq<char>) -> bool {
    match display {
        Some(f) => labelled_by(f, data, label),
        None => label.len() == 0,
    }
}

/// `label` is a value `f` may return on `data`.
pub open spec fn labelled_by<T, F: Fn(&T) -> String>(f: F, data: T, label: Seq<char>) -> bool {
    exists|s: String| #[trigger] f.ensures((&data,), s) && s@ == label
}

/// Every label is what the display function gives for its item's data.
pub open spec fn labels_ok<T, F: Fn(&T) -> String>(
    display: Option<F>,
    items: Seq<ItemView<T>>,
    labels: Seq<Seq<char>>,
) -> bool {
    &&& labels.len() == items.len()
    &&& forall|i: int| 0 <= i < items.len() ==> labelled(display, #[trigger] items[i].data, labels[i])
}

/// The display function accepts every input.
pub open spec fn display_total<T, F: Fn(&T) -> String>(display: Option<F>) -> bool {
    display matches Some(f) ==> forall|x: &T| #[trigger] f.requires((x,))
}

/// Every child id of an item resolves to an item later in the arena.
pub open spec fn arena_wf<T>(items: Seq<ItemView<T>>) -> bool {
    forall|i: int, k: int|
        #![trigger items[i].children[k]]
        0 <= i < items.len() && 0 <= k < items[i].children.len() ==> (lookup(
            items,
            items[i].children[k],
        ) matches Some(j) && i < j < items.len())
}

/// Each item's selection flag tells whether its id is selected.
pub open spec fn item_flags_synced<T>(items: Seq<ItemView<T>>, sel: Seq<u64>) -> bool {
    forall|i: int| 0 <= i < items.len() ==> #[trigger] items[i].is_selected == sel.contains(items[i].id)
}

impl<T, F: Fn(&T) -> String> ItemTree<T, F> {
    /// The tree's internal invariant.
    pub closed spec fn wf(&self) -> bool {
        &&& arena_wf(self@.items)
        &&& item_flags_synced(self@.items, self@.selected)
        &&& labels_ok(self.display_fn, self@.items, self@.labels)
        &&& display_total(self.display_fn)
        &&& (self.search matches Some(s) ==> ids_view(s.visible_ids@).no_duplicates())
    }

    /// An empty tree without display function and with drag-and-drop off.
    pub fn new() -> (r: Self)
        ensures
            r.wf(),
            r@.items.len() == 0,
            r@.root is None,
            r@.selected.len() == 0,
            r@.active is None,
            r@.anchor is None,
            r@.search is None,
            r@.display is None,
            !r@.dnd,
            r@.drag is None,
    {
        let r = ItemTree {
            items: Vec::new(),
            labels: Vec::new(),
            root_id: None,
            selected_ids: Vec::new(),
            active_id: None,
            anchor_id: None,
            search: None,
            display_fn: None,
            dnd_enabled: false,
            drag: None,
        };
        proof {
            assert(r@.labels =~= Seq::empty());
            assert(r@.selected =~= Seq::empty());
        }
        r
    }

    /// Builder: attach the display function used for labels and search.
    /// Labels of items already present are recomputed.
    pub fn with_display(self, f: F) -> (r: Self)
        requires
            self.wf(),
            forall|x: &T| #[trigger] f.requires((x,)),
        ensures
            r.wf(),
            r@.display == Some(f),
            labels_ok(r@.display, r@.items, r@.labels),
            r@.items == self@.items,
            r@.root == self@.root,
            r@.selected == self@.selected,
            r@.active == self@.active,
            r@.anchor == self@.anchor,
            r@.search == self@.search,
            r@.dnd == self@.dnd,
            r@.drag == self@.drag,
    {
        let mut s = self;
        let mut labels: Vec<String> = Vec::new();
        let mut i: usize = 0;
        while i < s.items.len()
            invariant
                i <= s.items@.len(),
                labels@.len() == i,
                forall|x: &T| #[trigger] f.requires((x,)),
                forall|j: int| 0 <= j < i ==> labelled(Some(f), #[trigger] s.items@[j].data, labels@[j]@),
            decreases s.items@.len() - i,
        {
            let l = f(&s.items[i].data);
            let ghost old_labels = labels@;
            proof {
                assert(f.ensures((&s.items@[i as int].data,), l));
                assert(labelled(Some(f), s.items@[i as int].data, l@));
            }
            labels.push(l);
            proof {
                assert forall|j: int| 0 <= j < i + 1 implies labelled(
                    Some(f),
                    #[trigger] s.items@[j].data,
                    labels@[j]@,
                ) by {
                    if j < i {
                        assert(labels@[j] == old_labels[j]);
                    }
                }
            }
            i = i + 1;
        }
        s.labels = labels;
        s.display_fn = Some(f);
        proof {
            assert forall|j: int| 0 <= j < s@.items.len() implies labelled(
                s.display_fn,
                #[trigger] s@.items[j].data,
                s@.labels[j],
            ) by {
                assert(s@.items[j] == s.items@[j]@);
            }
        }
        s
    }

    /// Builder: enable or disable drag-and-drop (off by default; when
    /// off, a press selects directly).
    pub fn with_drag_and_drop(self, enabled: bool) -> (r: Self)
        requires
            self.wf(),
        ensures
            r.wf(),
            r@ == (ItemTreeView { dnd: enabled, ..self@ }),
    {
        let mut s = self;
        s.dnd_enabled = enabled;
        s
    }

    /// `true` iff `id` is in the selection.
    pub fn is_selected(&self, id: NodeId) -> (r: bool)
        ensures
            r == self@.selected.contains(id.0),
    {
        let ghost sv = self@.selected;
        let mut i: usize = 0;
        while i < self.selected_ids.len()
            invariant
                i <= self.selected_ids@.len(),
                sv == ids_view(self.selected_ids@),
                forall|j: int| 0 <= j < i ==> #[trigger] sv[j] != id.0,
            decreases self.selected_ids@.len() - i,
        {
            if self.selected_ids[i] == id {
                proof {
                    assert(sv[i as int] == id.0);
                }
                return true;
            }
            i = i + 1;
        }
        false
    }

    /// The selected ids, in insertion order.
    pub fn selected_ids(&self) -> (r: &[NodeId])
        ensures
            ids_view(r@) == self@.selected,
    {
        self.selected_ids.as_slice()
    }

    /// The keyboard-focus node.
    pub fn active_id(&self) -> (r: Option<NodeId>)
        ensures
            opt_id(r) == self@.active,
    {
        self.active_id
    }

    /// The active search session, if any.
    pub fn search_state(&self) -> (r: Option<&ItemSearchState>)
        ensures
            match r {
                Some(s) => self@.search == Some(s@),
                None => self@.search is None,
            },
    {
        match &self.search {
            Some(s) => Some(s),
            None => None,
        }
    }

    /// The current search query, if a search is active.
    pub fn search_query(&self) -> (r: Option<&str>)
        ensures
            match r {
                Some(q) => self@.search matches Some(s) && q@ == s.query,
                None => self@.search is None,
            },
    {
        match &self.search {
            Some(s) => Some(s.query.as_str()),
            None => None,
        }
    }

    /// Number of direct matches of the active search; `0` without one.
    pub fn search_match_count(&self) -> (r: usize)
        ensures
            r == match self@.search {
                Some(s) => s.match_count,
                None => 0,
            },
    {
        match &self.search {
            Some(s) => s.match_count,
            None => 0,
        }
    }

    /// Number of distinct ids in the tree.
    pub fn node_count(&self) -> (r: usize)
        ensures
            r == distinct_count(self@.items),
    {
        let ghost v = self@.items;
        let mut n: usize = 0;
        let mut i: usize = 0;
        while i < self.items.len()
            invariant
                i <= self.items@.len(),
                v == items_view(self.items@),
                n <= i,
                n == last_occurrences(v, i as int),
            decreases self.items@.len() - i,
        {
            let id = self.items[i].id;
            let mut later = false;
            let mut j: usize = i + 1;
            while j < self.items.len()
                invariant
                    i < j <= self.items@.len(),
                    v == items_view(self.items@),
                    id.0 == v[i as int].id,
                    later == exists|k: int| i < k < j && #[trigger] v[k].id == id.0,
                decreases self.items@.len() - j,
            {
                if self.items[j].id == id {
                    proof {
                        assert(v[j as int].id == id.0);
                    }
                    later = true;
                }
                j = j + 1;
            }
            proof {
                assert(v[i as int] == self.items@[i as int]@);
                assert(is_last(v, i as int) == !later);
            }
            if !later {
                n = n + 1;
            }
            i = i + 1;
        }
        n
    }

    /// Whether drag-and-drop is enabled.
    pub fn is_drag_and_drop_enabled(&self) -> (r: bool)
        ensures
            r == self@.dnd,
    {
        self.dnd_enabled
    }

    /// Whether a drag is in progress.
    pub fn is_dragging(&self) -> (r: bool)
        ensures
            r == self@.drag is Some,
    {
        self.drag.is_some()
    }

    /// The dragged ids in pre-order, or an empty slice when idle.
    pub fn drag_sources(&self) -> (r: &[NodeId])
        ensures
            ids_view(r@) == match self@.drag {
                Some(d) => d.sources,
                None => Seq::empty(),
            },
    {
        match &self.drag {
            Some(d) => d.sources.as_slice(),
            None => {
                let e: &[NodeId] = &[];
                proof {
                    assert(ids_view(e@) =~= Seq::empty());
                }
                e
            },
        }
    }

    /// The current valid drop target and position, if any.
    pub fn drop_target(&self) -> (r: Option<(NodeId, DropPosition)>)
        ensures
            hover_view(r) == match self@.drag {
                Some(d) => d.hover,
                None => None,
            },
    {
        match &self.drag {
            Some(d) => d.hover,
            None => None,
        }
    }

    /// Whether the node `id` resolves to is expanded; `None` when `id` is
    /// not in the tree.
    pub fn is_expanded(&self, id: NodeId) -> (r: Option<bool>)
        ensures
            r == match lookup(self@.items, id.0) {
                Some(i) => Some(self@.items[i].is_expanded),
                None => None,
            },
    {
        proof {
            lemma_lookup(self@.items, id.0);
        }
        match find_index(&self.items, id) {
            Some(i) => {
                proof {
                    assert(self@.items[i as int] == self.items@[i as int]@);
                }
                Some(self.items[i].is_expanded)
            },
            None => None,
        }
    }
}

/// Whether item `i` is the last occurrence of its id.
pub open spec fn is_last<T>(items: Seq<ItemView<T>>, i: int) -> bool {
    forall|k: int| i < k < items.len() ==> #[trigger] items[k].id != items[i].id
}

/// Number of items among the first `n` that are the last occurrence of
/// their id.
pub open spec fn last_occurrences<T>(items: Seq<ItemView<T>>, n: int) -> nat
    decreases n,
{
    if n <= 0 {
        0
    } else {
        last_occurrences(items, n - 1) + if is_last(items, n - 1) {
            1nat
        } else {
            0nat
        }
    }
}

/// Number of distinct ids in the arena: each id counted at its last
/// occurrence.
pub open spec fn distinct_count<T>(items: Seq<ItemView<T>>) -> nat {
    last_occurrences(items, items.len() as int)
}

impl<T, F: Fn(&T) -> String> Default for ItemTree<T, F> {
    fn default() -> (r: Self)
        ensures
            r.wf(),
            r@.items.len() == 0,
            r@.root is None,
            r@.selected.len() == 0,
            r@.active is None,
            r@.anchor is None,
            r@.search is None,
            r@.display is None,
            !r@.dnd,
            r@.drag is None,
    {
        Self::new()
    }
}

/// In every item tree that the public operations produce, each child id
/// resolves to an item later in the arena, and each item's selection flag
/// tells whether its id is selected.
pub proof fn law_item_tree_in_step<T, F: Fn(&T) -> String>(t: &ItemTree<T, F>)
    requires
        t.wf(),
    ensures
        arena_wf(t@.items),
        item_flags_synced(t@.items, t@.selected),
{
}

} // verus!
