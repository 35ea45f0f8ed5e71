//! Node types for `ItemTree`.
//!
//! [`ItemNode`] is the caller-facing input of `ItemTree::set_tree`;
//! [`InternalItem`] is the stored, flattened representation enriched with
//! position and UI state; [`VisibleItem`] is the owned row data handed to
//! the view.
//!
//! The arena holds items in pre-order. An id is resolved to its last
//! occurrence, so a later item with a repeated id shadows earlier ones,
//! exactly as successive inserts into a map keyed by id would.

use vstd::prelude::*;

verus! {

/// Opaque node identity assigned by the caller.
#[derive(Debug, Clone, Copy, PartialEq, Eq, Hash, Structural)]
pub struct NodeId(pub u64);

/// Caller-facing input to `ItemTree::set_tree`: a recursive tree of items.
#[derive(Debug)]
pub struct ItemNode<T> {
    /// Stable, caller-assigned identity.
    pub id: NodeId,
    /// Application data displayed and searched.
    pub data: T,
    /// Ordered children; empty for a leaf.
    pub children: Vec<ItemNode<T>>,
}

/// The mathematical value of an input node.
pub struct ItemNodeView<T> {
    pub id: u64,
    pub data: T,
    pub children: Seq<ItemNodeView<T>>,
}

/// The value of an input node and its whole subtree.
pub open spec fn item_node_view<T>(n: ItemNode<T>) -> ItemNodeView<T>
    decreases n,
{
    ItemNodeView {
        id: n.id.0,
        data: n.data,
        children: Seq::new(
            n.children@.len(),
            |i: int|
                if 0 <= i < n.children@.len() {
                    item_node_view(n.children@[i])
                } else {
                    ItemNodeView { id: 0, data: n.data, children: Seq::empty() }
                },
        ),
    }
}

impl<T> View for ItemNode<T> {
    type V = ItemNodeView<T>;

    open spec fn view(&self) -> ItemNodeView<T> {
        item_node_view(*self)
    }
}

impl<T> ItemNode<T> {
    /// A node without children.
    pub fn leaf(id: NodeId, data: T) -> (r: ItemNode<T>)
        ensures
            r.id == id,
            r.data == data,
            r.children@.len() == 0,
    {
        ItemNode { id, data, children: Vec::new() }
    }

    /// A node with the given ordered children.
    pub fn branch(id: NodeId, data: T, children: Vec<ItemNode<T>>) -> (r: ItemNode<T>)
        ensures
            r.id == id,
            r.data == data,
            r.children == children,
    {
        ItemNode { id, data, children }
    }
}

/// A flattened node as stored in the arena.
#[derive(Debug, Clone)]
pub struct InternalItem<T> {
    pub id: NodeId,
    pub data: T,
    /// Depth below the root; the root is `0`.
    pub depth: u32,
    /// Ordered child ids; empty for a leaf.
    pub children_ids: Vec<NodeId>,
    /// Parent id; `None` for the root.
    pub parent_id: Option<NodeId>,
    pub is_expanded: bool,
    pub is_selected: bool,
}

/// The mathematical value of a stored item.
pub struct ItemView<T> {
    pub id: u64,
    pub data: T,
    pub depth: u32,
    pub children: Seq<u64>,
    pub parent: Option<u64>,
    pub is_expanded: bool,
    pub is_selected: bool,
}

/// Ids as plain integers.
pub open spec fn ids_view(s: Seq<NodeId>) -> Seq<u64> {
    s.map_values(|c: NodeId| c.0)
}

/// `true` iff `id` occurs in `ids`.
pub fn ids_contain(ids: &Vec<NodeId>, id: NodeId) -> (r: bool)
    ensures
        r == ids_view(ids@).contains(id.0),
{
    let ghost sv = ids_view(ids@);
    let mut i: usize = 0;
    while i < ids.len()
        invariant
            i <= ids@.len(),
            sv == ids_view(ids@),
            forall|j: int| 0 <= j < i ==> #[trigger] sv[j] != id.0,
        decreases ids@.len() - i,
    {
        if ids[i] == id {
            proof {
                assert(sv[i as int] == id.0);
            }
            return true;
        }
        i = i + 1;
    }
    false
}

/// Index of the first occurrence of `x` in `s`.
pub open spec fn first_pos(s: Seq<u64>, x: u64) -> Option<int>
    decreases s.len(),
{
    if s.len() == 0 {
        None
    } else {
        match first_pos(s.drop_last(), x) {
            Some(i) => Some(i),
            None => if s.last() == x {
                Some(s.len() - 1)
            } else {
                None
            },
        }
    }
}

/// What [`first_pos`] finds.
pub proof fn lemma_first_pos(s: Seq<u64>, x: u64)
    ensures
        match first_pos(s, x) {
            Some(i) => 0 <= i < s.len() && s[i] == x && forall|j: int| 0 <= j < i ==> #[trigger] s[j] != x,
            None => !s.contains(x),
        },
    decreases s.len(),
{
    if s.len() > 0 {
        lemma_first_pos(s.drop_last(), x);
        assert(forall|j: int| 0 <= j < s.len() - 1 ==> s.drop_last()[j] == s[j]);
        if first_pos(s, x) is None {
            assert forall|j: int| 0 <= j < s.len() implies s[j] != x by {
                if j < s.len() - 1 {
                    assert(s.drop_last()[j] == s[j]);
                }
            }
        }
    }
}

/// A sequence position where `s[p] == x` and no earlier element is `x`
/// is what [`first_pos`] finds.
pub proof fn lemma_first_pos_at(s: Seq<u64>, x: u64, p: int)
    requires
        0 <= p < s.len(),
        s[p] == x,
        forall|j: int| 0 <= j < p ==> #[trigger] s[j] != x,
    ensures
        first_pos(s, x) == Some(p),
{
    lemma_first_pos(s, x);
    match first_pos(s, x) {
        Some(k) => {
            if k < p {
                assert(s[k] != x);
            }
            if k > p {
                assert(s[p] != x);
            }
        },
        None => {
            assert(s.contains(x));
        },
    }
}

/// Index of the first occurrence of `id` in `ids`.
pub fn position_in(ids: &Vec<NodeId>, id: NodeId) -> (r: Option<usize>)
    ensures
        match r {
            Some(p) => first_pos(ids_view(ids@), id.0) == Some(p as int),
            None => first_pos(ids_view(ids@), id.0) is None,
        },
{
    let ghost sv = ids_view(ids@);
    let mut i: usize = 0;
    while i < ids.len()
        invariant
            i <= ids@.len(),
            sv == ids_view(ids@),
            forall|j: int| 0 <= j < i ==> #[trigger] sv[j] != id.0,
        decreases ids@.len() - i,
    {
        if ids[i] == id {
            proof {
                lemma_first_pos_at(sv, id.0, i as int);
            }
            return Some(i);
        }
        i = i + 1;
    }
    proof {
        lemma_first_pos(sv, id.0);
        if first_pos(sv, id.0) is Some {
            let k = first_pos(sv, id.0)->0;
            assert(sv[k] != id.0);
        }
    }
    None
}

/// An optional id as a plain integer.
pub open spec fn opt_id(o: Option<NodeId>) -> Option<u64> {
    match o {
        Some(x) => Some(x.0),
        None => None,
    }
}

impl<T> View for InternalItem<T> {
    type V = ItemView<T>;

    open spec fn view(&self) -> ItemView<T> {
        ItemView {
            id: self.id.0,
            data: self.data,
            depth: self.depth,
            children: ids_view(self.children_ids@),
            parent: opt_id(self.parent_id),
            is_expanded: self.is_expanded,
            is_selected: self.is_selected,
        }
    }
}

impl<T> InternalItem<T> {
    /// Whether the item has at least one child.
    pub fn has_children(&self) -> (r: bool)
        ensures
            r == (self@.children.len() > 0),
    {
        self.children_ids.len() > 0
    }
}

/// A list of stored items as values.
pub open spec fn items_view<T>(s: Seq<InternalItem<T>>) -> Seq<ItemView<T>> {
    s.map_values(|x: InternalItem<T>| x@)
}

/// Index of the item an id resolves to: its last occurrence.
pub open spec fn lookup<T>(items: Seq<ItemView<T>>, id: u64) -> Option<int>
    decreases items.len(),
{
    if items.len() == 0 {
        None
    } else if items.last().id == id {
        Some(items.len() - 1)
    } else {
        lookup(items.drop_last(), id)
    }
}

/// What [`lookup`] finds.
pub proof fn lemma_lookup<T>(items: Seq<ItemView<T>>, id: u64)
    ensures
        match lookup(items, id) {
            Some(i) => 0 <= i < items.len() && items[i].id == id && forall|j: int|
                i < j < items.len() ==> #[trigger] items[j].id != id,
            None => forall|j: int| 0 <= j < items.len() ==> #[trigger] items[j].id != id,
        },
    decreases items.len(),
{
    if items.len() > 0 {
        lemma_lookup(items.drop_last(), id);
        assert(forall|j: int| 0 <= j < items.len() - 1 ==> items.drop_last()[j] == items[j]);
    }
}

/// Resolve `id` to its index in the arena (its last occurrence).
pub fn find_index<T>(items: &Vec<InternalItem<T>>, id: NodeId) -> (r: Option<usize>)
    ensures
        match r {
            Some(i) => lookup(items_view(items@), id.0) == Some(i as int),
            None => lookup(items_view(items@), id.0) is None,
        },
{
    let ghost v = items_view(items@);
    proof {
        lemma_lookup(v, id.0);
    }
    let mut i: usize = items.len();
    while i > 0
        invariant
            i <= items@.len(),
            v == items_view(items@),
            v.len() == items@.len(),
            forall|j: int| i <= j < v.len() ==> #[trigger] v[j].id != id.0,
            match lookup(v, id.0) {
                Some(k) => 0 <= k < v.len() && v[k].id == id.0 && forall|j: int|
                    k < j < v.len() ==> #[trigger] v[j].id != id.0,
                None => forall|j: int| 0 <= j < v.len() ==> #[trigger] v[j].id != id.0,
            },
        decreases i,
    {
        i = i - 1;
        if items[i].id == id {
            proof {
                assert(v[i as int].id == id.0);
                match lookup(v, id.0) {
                    Some(k) => {
                        if k < i {
                            assert(v[i as int].id != id.0);
                        }
                        if k > i {
                            assert(v[k].id != id.0);
                        }
                    },
                    None => {},
                }
            }
            return Some(i);
        }
        proof {
            assert(v[i as int].id != id.0);
        }
    }
    proof {
        match lookup(v, id.0) {
            Some(k) => {
                assert(v[k].id != id.0);
            },
            None => {},
        }
    }
    None
}

/// Owned row data returned by `ItemTree::visible_rows`.
#[derive(Debug, Clone, PartialEq)]
pub struct VisibleItem {
    pub id: NodeId,
    /// The display string; empty without a display function.
    pub label: String,
    /// Indentation level; the root is `0`.
    pub depth: u32,
    pub is_expanded: bool,
    /// Whether the node has at least one child.
    pub has_children: bool,
    pub is_selected: bool,
    /// Whether this is the keyboard-focus node.
    pub is_active: bool,
}

/// The mathematical value of a row.
pub struct VisibleItemView {
    pub id: u64,
    pub label: Seq<char>,
    pub depth: u32,
    pub is_expanded: bool,
    pub has_children: bool,
    pub is_selected: bool,
    pub is_active: bool,
}

impl View for VisibleItem {
    type V = VisibleItemView;

    open spec fn view(&self) -> VisibleItemView {
        VisibleItemView {
            id: self.id.0,
            label: self.label@,
            depth: self.depth,
            is_expanded: self.is_expanded,
            has_children: self.has_children,
            is_selected: self.is_selected,
            is_active: self.is_active,
        }
    }
}

} // verus!
