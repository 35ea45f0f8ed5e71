//! Drag-and-drop state and drop validity for `ItemTree`.
//!
//! The widget mutates nothing on a completed drop: it reports the drop
//! intent ([`ItemDragOutcome::Completed`]) and the host rebuilds its model
//! and calls `set_tree`. A drop lands relative to a target node at one of
//! three [`DropPosition`]s, expressing both reorder (sibling) and nest
//! (child).
//!
//! A drop of sources `S` at `(target, position)` is valid iff:
//! 1. `target` is a live node;
//! 2. `target` is not in `S`;
//! 3. for `Before`/`After`, `target` is not the root (no sibling slot);
//! 4. no cycle: the effective new parent (`target` for `Into`, otherwise
//!    `target`'s parent) is neither a source nor a descendant of one.

use vstd::prelude::*;

use crate::item_tree::node::{find_index, ids_view, items_view, lemma_lookup, lookup, InternalItem, ItemView, NodeId};

verus! {

/// Where a dragged node lands relative to the drop target.
#[derive(Debug, Clone, Copy, PartialEq, Eq, Structural)]
pub enum DropPosition {
    /// As a sibling immediately before the target.
    Before,
    /// As the last child of the target (nest).
    Into,
    /// As a sibling immediately after the target.
    After,
}

/// A drag gesture from the view, routed back to `ItemTree::on_drag_msg`.
#[derive(Debug, Clone, Copy, PartialEq, Eq, Structural)]
pub enum ItemDragMsg {
    /// Mouse pressed on a row body: begins a drag.
    Pressed(NodeId),
    /// The cursor entered a drop zone of a target.
    Entered(NodeId, DropPosition),
    /// The cursor left a drop zone of a target.
    Exited(NodeId, DropPosition),
    /// Mouse released over a drop zone; the drop goes to the stored hover.
    Released(NodeId, DropPosition),
    /// Drag cancelled (Escape, or release over nothing valid).
    Cancelled,
}

/// The side effect produced by `ItemTree::on_drag_msg`.
#[derive(Debug, Clone, PartialEq, Eq)]
pub enum ItemDragOutcome {
    /// Nothing to do.
    NoOp,
    /// Release on the pressed row: a click. The host selects it.
    Clicked(NodeId),
    /// A genuine drop. The host moves the nodes and calls `set_tree`.
    Completed { sources: Vec<NodeId>, target: NodeId, position: DropPosition },
}

/// The mathematical value of a drag outcome.
pub enum ItemOutcomeView {
    NoOp,
    Clicked(u64),
    Completed { sources: Seq<u64>, target: u64, position: DropPosition },
}

impl View for ItemDragOutcome {
    type V = ItemOutcomeView;

    open spec fn view(&self) -> ItemOutcomeView {
        match self {
            ItemDragOutcome::NoOp => ItemOutcomeView::NoOp,
            ItemDragOutcome::Clicked(id) => ItemOutcomeView::Clicked(id.0),
            ItemDragOutcome::Completed { sources, target, position } => ItemOutcomeView::Completed {
                sources: ids_view(sources@),
                target: target.0,
                position: *position,
            },
        }
    }
}

/// An in-flight drag session.
#[derive(Debug, Clone)]
pub struct ItemDragState {
    /// Dragged ids, in tree pre-order.
    pub sources: Vec<NodeId>,
    /// The node actually pressed; tells a click from a drag.
    pub primary: NodeId,
    /// The current valid hover target, or `None` over an invalid zone.
    pub hover: Option<(NodeId, DropPosition)>,
}

/// The mathematical value of a drag session.
pub struct ItemDragView {
    pub sources: Seq<u64>,
    pub primary: u64,
    pub hover: Option<(u64, DropPosition)>,
}

/// An optional hover as plain values.
pub open spec fn hover_view(h: Option<(NodeId, DropPosition)>) -> Option<(u64, DropPosition)> {
    match h {
        Some((t, p)) => Some((t.0, p)),
        None => None,
    }
}

impl View for ItemDragState {
    type V = ItemDragView;

    open spec fn view(&self) -> ItemDragView {
        ItemDragView {
            sources: ids_view(self.sources@),
            primary: self.primary.0,
            hover: hover_view(self.hover),
        }
    }
}

/// The parent of the item `id` resolves to, if both exist.
pub open spec fn parent_of<T>(items: Seq<ItemView<T>>, id: u64) -> Option<u64> {
    match lookup(items, id) {
        Some(i) => items[i].parent,
        None => None,
    }
}

/// The id reached from `node` by following `k` parent links, if the
/// chain is that long.
pub open spec fn ancestor_at<T>(items: Seq<ItemView<T>>, node: u64, k: nat) -> Option<u64>
    decreases k,
{
    if k == 0 {
        Some(node)
    } else {
        match ancestor_at(items, node, (k - 1) as nat) {
            Some(c) => parent_of(items, c),
            None => None,
        }
    }
}

/// `a` is `node` or one of its ancestors, following at most as many
/// parent links as there are items. That bound covers every parent chain
/// that ends; a chain that cycles through repeated ids is cut there.
pub open spec fn ancestor_or_self_spec<T>(items: Seq<ItemView<T>>, a: u64, node: u64) -> bool {
    exists|k: nat| k <= items.len() && #[trigger] ancestor_at(items, node, k) == Some(a)
}

/// Once a parent chain ends it stays ended.
proof fn lemma_chain_ended<T>(items: Seq<ItemView<T>>, node: u64, k: nat, m: nat)
    requires
        k <= m,
        ancestor_at(items, node, k) is None,
    ensures
        ancestor_at(items, node, m) is None,
    decreases m - k,
{
    if k < m {
        lemma_chain_ended(items, node, (k + 1) as nat, m);
    }
}

/// Two chain positions that agree keep agreeing.
proof fn lemma_chain_shift<T>(items: Seq<ItemView<T>>, node: u64, i: nat, j: nat, t: nat)
    requires
        ancestor_at(items, node, i) == ancestor_at(items, node, j),
    ensures
        ancestor_at(items, node, i + t) == ancestor_at(items, node, j + t),
    decreases t,
{
    if t > 0 {
        lemma_chain_shift(items, node, i, j, (t - 1) as nat);
        assert(ancestor_at(items, node, i + t) == match ancestor_at(items, node, (i + t - 1) as nat) {
            Some(c) => parent_of(items, c),
            None => None,
        });
        assert(ancestor_at(items, node, j + t) == match ancestor_at(items, node, (j + t - 1) as nat) {
            Some(c) => parent_of(items, c),
            None => None,
        });
    }
}

/// A chain that comes back to an id it passed never ends.
proof fn lemma_repeat_never_ends<T>(items: Seq<ItemView<T>>, node: u64, i: nat, j: nat, n: nat)
    requires
        i < j,
        ancestor_at(items, node, i) == ancestor_at(items, node, j),
        ancestor_at(items, node, j) is Some,
    ensures
        ancestor_at(items, node, n) is Some,
    decreases n,
{
    if n <= j {
        if ancestor_at(items, node, n) is None {
            lemma_chain_ended(items, node, n, j);
        }
    } else {
        let p = (j - i) as nat;
        let n2 = (n - p) as nat;
        lemma_repeat_never_ends(items, node, i, j, n2);
        lemma_chain_shift(items, node, i, j, (n - j) as nat);
        assert(i + (n - j) == n2);
        assert(j + (n - j) == n);
    }
}

/// The first position at or before `m` where the chain has ended.
proof fn lemma_first_end<T>(items: Seq<ItemView<T>>, node: u64, m: nat) -> (m0: nat)
    requires
        ancestor_at(items, node, m) is None,
    ensures
        m0 <= m,
        0 < m0,
        ancestor_at(items, node, m0) is None,
        forall|k: nat| k < m0 ==> (#[trigger] ancestor_at(items, node, k)) is Some,
    decreases m,
{
    if m == 0 {
        assert(ancestor_at(items, node, 0) == Some(node));
        0
    } else if ancestor_at(items, node, (m - 1) as nat) is None {
        lemma_first_end(items, node, (m - 1) as nat)
    } else {
        assert forall|k: nat| k < m implies (#[trigger] ancestor_at(items, node, k)) is Some by {
            if ancestor_at(items, node, k) is None {
                lemma_chain_ended(items, node, k, (m - 1) as nat);
            }
        }
        m
    }
}

/// The bound of [`ancestor_or_self_spec`] loses nothing on a chain that
/// ends: whenever `a` lies on a parent chain from `node` that reaches its
/// end, the bounded walk finds it.
pub proof fn law_bounded_walk_is_exact<T>(items: Seq<ItemView<T>>, a: u64, node: u64, k: nat, m: nat)
    requires
        ancestor_at(items, node, k) == Some(a),
        ancestor_at(items, node, m) is None,
    ensures
        ancestor_or_self_spec(items, a, node),
{
    let m0 = lemma_first_end(items, node, m);
    if k >= m0 {
        lemma_chain_ended(items, node, m0, k);
    }
    let n = (m0 - 1) as nat;
    assert forall|t: nat| t < n implies (#[trigger] lookup(items, ancestor_at(items, node, t)->0)) is Some by {
        assert(ancestor_at(items, node, (t + 1) as nat) is Some);
        assert(ancestor_at(items, node, (t + 1) as nat) == match ancestor_at(items, node, t) {
            Some(c) => parent_of(items, c),
            None => None,
        });
    }
    let f = |t: int| lookup(items, ancestor_at(items, node, t as nat)->0)->0;
    let x = vstd::set_lib::set_int_range(0, n as int);
    let y = x.map(f);
    vstd::set_lib::lemma_int_range(0, n as int);
    vstd::set_lib::lemma_int_range(0, items.len() as int);
    assert forall|t1: int, t2: int| x.contains(t1) && x.contains(t2) && #[trigger] f(t1) == #[trigger] f(t2) implies t1 == t2 by {
        let c1 = ancestor_at(items, node, t1 as nat)->0;
        let c2 = ancestor_at(items, node, t2 as nat)->0;
        assert(lookup(items, c1) is Some);
        assert(lookup(items, c2) is Some);
        lemma_lookup(items, c1);
        lemma_lookup(items, c2);
        assert(c1 == c2);
        if t1 < t2 {
            lemma_repeat_never_ends(items, node, t1 as nat, t2 as nat, m0);
        } else if t2 < t1 {
            lemma_repeat_never_ends(items, node, t2 as nat, t1 as nat, m0);
        }
    }
    assert(vstd::relations::injective_on(f, x));
    vstd::set_lib::lemma_map_size(x, y, f);
    assert forall|i: int| y.contains(i) implies vstd::set_lib::set_int_range(0, items.len() as int).contains(i) by {
        let t = choose|t: int| x.contains(t) && f(t) == i;
        let c = ancestor_at(items, node, t as nat)->0;
        assert(lookup(items, c) is Some);
        lemma_lookup(items, c);
    }
    vstd::set_lib::lemma_len_subset(y, vstd::set_lib::set_int_range(0, items.len() as int));
    assert(ancestor_at(items, node, k) == Some(a));
}

/// Where the dragged nodes would hang after the drop: the target for
/// `Into`, otherwise the target's parent (none for the root).
pub open spec fn effective_parent<T>(items: Seq<ItemView<T>>, target: u64, pos: DropPosition) -> Option<u64> {
    match pos {
        DropPosition::Into => Some(target),
        _ => parent_of(items, target),
    }
}

/// Validity of a drop of `sources` at `(target, pos)` (rules 1 to 4).
pub open spec fn valid_drop_spec<T>(
    items: Seq<ItemView<T>>,
    sources: Seq<u64>,
    target: u64,
    pos: DropPosition,
) -> bool {
    &&& lookup(items, target) is Some
    &&& !sources.contains(target)
    &&& effective_parent(items, target, pos) matches Some(p) && forall|k: int|
        0 <= k < sources.len() ==> !ancestor_or_self_spec(items, #[trigger] sources[k], p)
}

/// Whether `maybe_ancestor` is `node` or an ancestor of it (see
/// [`ancestor_or_self_spec`]).
pub fn is_ancestor_or_self<T>(items: &Vec<InternalItem<T>>, maybe_ancestor: NodeId, node: NodeId) -> (r: bool)
    ensures
        r == ancestor_or_self_spec(items_view(items@), maybe_ancestor.0, node.0),
{
    let ghost v = items_view(items@);
    let n = items.len();
    let mut cur: Option<NodeId> = Some(node);
    let mut steps: usize = 0;
    loop
        invariant
            n == items@.len(),
            v == items_view(items@),
            v.len() == n,
            steps <= n,
            match cur {
                Some(c) => ancestor_at(v, node.0, steps as nat) == Some(c.0),
                None => ancestor_at(v, node.0, steps as nat) is None,
            },
            forall|k: nat| k < steps ==> #[trigger] ancestor_at(v, node.0, k) != Some(
                maybe_ancestor.0,
            ),
        decreases n - steps,
    {
        let c = match cur {
            Some(c) => c,
            None => {
                proof {
                    assert forall|k: nat| k <= v.len() implies #[trigger] ancestor_at(
                        v,
                        node.0,
                        k,
                    ) != Some(maybe_ancestor.0) by {
                        if k >= steps {
                            lemma_chain_ended(v, node.0, steps as nat, k);
                        }
                    }
                }
                return false;
            },
        };
        if c == maybe_ancestor {
            return true;
        }
        if steps == n {
            proof {
                assert forall|k: nat| k <= v.len() implies #[trigger] ancestor_at(
                    v,
                    node.0,
                    k,
                ) != Some(maybe_ancestor.0) by {
                    if k == steps {
                    }
                }
            }
            return false;
        }
        proof {
            lemma_lookup(v, c.0);
        }
        let next = match find_index(items, c) {
            Some(i) => items[i].parent_id,
            None => None,
        };
        proof {
            assert(ancestor_at(v, node.0, (steps + 1) as nat) == parent_of(v, c.0));
            match lookup(v, c.0) {
                Some(i) => {
                    assert(v[i] == items@[i]@);
                },
                None => {},
            }
        }
        cur = next;
        steps = steps + 1;
    }
}

/// Whether a drop of `sources` at `(target, position)` is valid (rules
/// 1 to 4), checked against the arena `items`.
pub fn is_valid_drop<T>(
    items: &Vec<InternalItem<T>>,
    sources: &[NodeId],
    target: NodeId,
    position: DropPosition,
) -> (r: bool)
    ensures
        r == valid_drop_spec(items_view(items@), ids_view(sources@), target.0, position),
{
    let ghost v = items_view(items@);
    let ghost sv = ids_view(sources@);
    let ti = match find_index(items, target) {
        Some(i) => i,
        None => return false,
    };
    proof {
        lemma_lookup(v, target.0);
    }
    let mut i: usize = 0;
    while i < sources.len()
        invariant
            i <= sources@.len(),
            sv == ids_view(sources@),
            v == items_view(items@),
            ti < items@.len(),
            forall|k: int| 0 <= k < i ==> #[trigger] sv[k] != target.0,
        decreases sources@.len() - i,
    {
        if sources[i] == target {
            proof {
                assert(sv[i as int] == target.0);
            }
            return false;
        }
        i = i + 1;
    }
    proof {
        assert(!sv.contains(target.0));
    }
    let effective = match position {
        DropPosition::Into => target,
        _ => match items[ti].parent_id {
            Some(p) => p,
            None => {
                proof {
                    assert(v[ti as int] == items@[ti as int]@);
                }
                return false;
            },
        },
    };
    proof {
        if position != DropPosition::Into {
            assert(v[ti as int] == items@[ti as int]@);
        }
        assert(effective_parent(v, target.0, position) == Some(effective.0));
    }
    let mut j: usize = 0;
    while j < sources.len()
        invariant
            j <= sources@.len(),
            sv == ids_view(sources@),
            v == items_view(items@),
            effective_parent(v, target.0, position) == Some(effective.0),
            lookup(v, target.0) is Some,
            !sv.contains(target.0),
            forall|k: int| 0 <= k < j ==> !ancestor_or_self_spec(v, #[trigger] sv[k], effective.0),
        decreases sources@.len() - j,
    {
        if is_ancestor_or_self(items, sources[j], effective) {
            proof {
                assert(sv[j as int] == sources@[j as int].0);
                assert(ancestor_or_self_spec(v, sv[j as int], effective.0));
            }
            return false;
        }
        j = j + 1;
    }
    true
}

} // verus!
