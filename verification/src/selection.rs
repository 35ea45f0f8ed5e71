//! Selection mode, and the re-derivation of per-node selection flags.
//!
//! The authoritative selection is held by path on the tree, never by
//! node, so it survives node rebuilds, filter changes and re-merges.
//! Per-node `is_selected` flags are view hints re-synced after every
//! mutation.

use vstd::prelude::*;

use crate::node::{
    children_view, find_spec, first_prefix_child, lemma_children_view, node_view, replace_spec,
    NodeView, TreeNode,
};
use crate::path::{paths_contain, paths_view, TreePath};

verus! {

/// How a click or keyboard gesture modifies the selection set.
#[derive(Debug, Clone, Copy, PartialEq, Eq, Structural)]
pub enum SelectionMode {
    /// Clear the selection and select only this path. Clicking an
    /// already-selected row still leaves exactly that row selected.
    Replace,
    /// Add if absent; remove if already selected. Updates the anchor.
    Toggle,
    /// Select the contiguous range from the anchor to this path in
    /// visible-row order. Without an anchor, behaves as `Replace`. The
    /// anchor does not move.
    ExtendRange,
}

/// The selection mode of a mouse click: Shift extends the range from the
/// anchor, otherwise Ctrl toggles the row, otherwise the click replaces
/// the selection.
pub open spec fn click_mode_spec(shift: bool, ctrl: bool) -> SelectionMode {
    if shift {
        SelectionMode::ExtendRange
    } else if ctrl {
        SelectionMode::Toggle
    } else {
        SelectionMode::Replace
    }
}

/// The selection mode of a mouse click (see [`click_mode_spec`]).
pub fn mode_for_click(shift: bool, ctrl: bool) -> (r: SelectionMode)
    ensures
        r == click_mode_spec(shift, ctrl),
{
    if shift {
        SelectionMode::ExtendRange
    } else if ctrl {
        SelectionMode::Toggle
    } else {
        SelectionMode::Replace
    }
}

/// The subtree `n` with every node's flag set to whether its path is in
/// `sel`.
pub open spec fn sync_spec(n: NodeView, sel: Seq<Seq<Seq<u8>>>) -> NodeView
    decreases n,
{
    NodeView { is_selected: sel.contains(n.path), children: sync_list(n.children, sel), ..n }
}

/// [`sync_spec`] applied to each node of a list.
pub open spec fn sync_list(s: Seq<NodeView>, sel: Seq<Seq<Seq<u8>>>) -> Seq<NodeView>
    decreases s,
{
    if s.len() == 0 {
        Seq::empty()
    } else {
        sync_list(s.drop_last(), sel).push(sync_spec(s.last(), sel))
    }
}

pub proof fn lemma_sync_list(s: Seq<NodeView>, sel: Seq<Seq<Seq<u8>>>)
    ensures
        sync_list(s, sel).len() == s.len(),
        forall|i: int|
            0 <= i < s.len() ==> #[trigger] sync_list(s, sel)[i] == sync_spec(s[i], sel),
    decreases s.len(),
{
    if s.len() > 0 {
        lemma_sync_list(s.drop_last(), sel);
    }
}

/// Every node's flag in `n` agrees with membership of its path in `sel`.
pub open spec fn flags_synced(n: NodeView, sel: Seq<Seq<Seq<u8>>>) -> bool
    decreases n,
{
    &&& n.is_selected == sel.contains(n.path)
    &&& flags_synced_list(n.children, sel)
}

/// [`flags_synced`] holds for each node of a list.
pub open spec fn flags_synced_list(s: Seq<NodeView>, sel: Seq<Seq<Seq<u8>>>) -> bool
    decreases s,
{
    s.len() == 0 || (flags_synced_list(s.drop_last(), sel) && flags_synced(s.last(), sel))
}

/// Re-derive the per-node `is_selected` flag for every node of the
/// subtree from the selection list.
pub fn sync_flags(node: &mut TreeNode, selected: &Vec<TreePath>)
    ensures
        final(node)@ == sync_spec(old(node)@, paths_view(selected@)),
    decreases *old(node),
{
    node.is_selected = paths_contain(selected, &node.path);
    let ghost old_children = node.children@;
    proof {
        lemma_children_view(old_children);
    }
    let len = node.children.len();
    let mut i: usize = 0;
    while i < len
        invariant
            len == node.children@.len(),
            len == old_children.len(),
            i <= len,
            old_children == old(node).children@,
            node.path@ == old(node).path@,
            node.is_dir == old(node).is_dir,
            node.is_loaded == old(node).is_loaded,
            node.is_expanded == old(node).is_expanded,
            node.is_selected == paths_view(selected@).contains(old(node).path@),
            node.error == old(node).error,
            forall|j: int| i <= j < len ==> #[trigger] node.children@[j] == old_children[j],
            forall|j: int|
                0 <= j < i ==> #[trigger] node_view(node.children@[j]) == sync_spec(
                    node_view(old_children[j]),
                    paths_view(selected@),
                ),
        decreases len - i,
    {
        proof {
            assert(decreases_to!(*old(node) => old(node).children@[i as int]));
        }
        let ghost before = node.children@;
        let c = &mut node.children[i];
        sync_flags(c, selected);
        proof {
            assert(node.children@ == before.update(i as int, node.children@[i as int]));
        }
        i = i + 1;
    }
    proof {
        lemma_children_view(node.children@);
        lemma_sync_list(children_view(old_children), paths_view(selected@));
        assert(children_view(node.children@) =~= sync_list(
            children_view(old_children),
            paths_view(selected@),
        ));
    }
}

pub proof fn lemma_sync_gives_synced(n: NodeView, sel: Seq<Seq<Seq<u8>>>)
    ensures
        flags_synced(sync_spec(n, sel), sel),
    decreases n,
{
    lemma_sync_list_gives_synced(n.children, sel);
}

pub proof fn lemma_sync_list_gives_synced(s: Seq<NodeView>, sel: Seq<Seq<Seq<u8>>>)
    ensures
        flags_synced_list(sync_list(s, sel), sel),
    decreases s,
{
    if s.len() > 0 {
        lemma_sync_list_gives_synced(s.drop_last(), sel);
        lemma_sync_gives_synced(s.last(), sel);
        assert(sync_list(s, sel).drop_last() =~= sync_list(s.drop_last(), sel));
    }
}

/// Syncing flags does not move nodes: a lookup in the synced tree finds
/// the synced version of what it found before.
pub proof fn lemma_find_sync(n: NodeView, p: Seq<Seq<u8>>, sel: Seq<Seq<Seq<u8>>>)
    ensures
        find_spec(sync_spec(n, sel), p) == match find_spec(n, p) {
            Some(m) => Some(sync_spec(m, sel)),
            None => None,
        },
    decreases n,
{
    lemma_sync_list(n.children, sel);
    let sc = sync_list(n.children, sel);
    assert forall|j: int| 0 <= j < sc.len() implies #[trigger] sc[j].path == n.children[j].path by {}
    crate::node::lemma_first_prefix_same_paths(sc, n.children, p);
    if n.path != p {
        match first_prefix_child(n.children, p) {
            Some(i) => if 0 <= i < n.children.len() {
                assert(decreases_to!(n => n.children[i]));
                lemma_find_sync(n.children[i], p, sel);
            },
            None => {},
        }
    }
}

/// [`flags_synced_list`] is [`flags_synced`] of every element.
pub proof fn lemma_synced_list_all(s: Seq<NodeView>, sel: Seq<Seq<Seq<u8>>>)
    ensures
        flags_synced_list(s, sel) <==> forall|i: int| 0 <= i < s.len() ==> #[trigger] flags_synced(s[i], sel),
    decreases s.len(),
{
    if s.len() > 0 {
        lemma_synced_list_all(s.drop_last(), sel);
        assert(forall|i: int| 0 <= i < s.len() - 1 ==> s.drop_last()[i] == s[i]);
        if forall|i: int| 0 <= i < s.len() ==> #[trigger] flags_synced(s[i], sel) {
            assert forall|i: int| 0 <= i < s.drop_last().len() implies #[trigger] flags_synced(
                s.drop_last()[i],
                sel,
            ) by {
                assert(s.drop_last()[i] == s[i]);
            }
            assert(flags_synced(s[s.len() - 1], sel));
        }
        if flags_synced_list(s, sel) {
            assert forall|i: int| 0 <= i < s.len() implies #[trigger] flags_synced(s[i], sel) by {
                if i < s.len() - 1 {
                    assert(s.drop_last()[i] == s[i]);
                    assert(flags_synced(s.drop_last()[i], sel));
                }
            }
        }
    }
}

/// Every node found in a synced subtree is synced.
pub proof fn lemma_find_synced(n: NodeView, p: Seq<Seq<u8>>, sel: Seq<Seq<Seq<u8>>>)
    requires
        flags_synced(n, sel),
    ensures
        find_spec(n, p) matches Some(m) ==> flags_synced(m, sel),
    decreases n,
{
    if n.path != p {
        match first_prefix_child(n.children, p) {
            Some(i) => if 0 <= i < n.children.len() {
                lemma_synced_list_all(n.children, sel);
                assert(flags_synced(n.children[i], sel));
                assert(decreases_to!(n => n.children[i]));
                lemma_find_synced(n.children[i], p, sel);
            },
            None => {},
        }
    }
}

/// Replacing a node of a synced subtree by a synced node keeps it synced.
pub proof fn lemma_replace_synced(n: NodeView, p: Seq<Seq<u8>>, new: NodeView, sel: Seq<Seq<Seq<u8>>>)
    requires
        flags_synced(n, sel),
        flags_synced(new, sel),
    ensures
        flags_synced(replace_spec(n, p, new), sel),
    decreases n,
{
    if n.path != p {
        match first_prefix_child(n.children, p) {
            Some(i) => if 0 <= i < n.children.len() {
                lemma_synced_list_all(n.children, sel);
                assert(flags_synced(n.children[i], sel));
                assert(decreases_to!(n => n.children[i]));
                lemma_replace_synced(n.children[i], p, new, sel);
                let c2 = n.children.update(i, replace_spec(n.children[i], p, new));
                lemma_synced_list_all(c2, sel);
                assert forall|j: int| 0 <= j < c2.len() implies #[trigger] flags_synced(c2[j], sel) by {
                    if j != i {
                        assert(c2[j] == n.children[j]);
                    }
                }
            },
            None => {},
        }
    }
}

/// Removing one element keeps a sequence free of repeats.
pub proof fn lemma_remove_distinct<A>(s: Seq<A>, p: int)
    requires
        s.no_duplicates(),
        0 <= p < s.len(),
    ensures
        s.remove(p).no_duplicates(),
{
    let r = s.remove(p);
    assert forall|i: int, j: int| 0 <= i < j < r.len() implies r[i] != r[j] by {
        let a = if i < p { i } else { i + 1 };
        let b = if j < p { j } else { j + 1 };
        assert(r[i] == s[a]);
        assert(r[j] == s[b]);
    }
}

/// Appending an absent element keeps a sequence free of repeats.
pub proof fn lemma_push_distinct<A>(s: Seq<A>, x: A)
    requires
        s.no_duplicates(),
        !s.contains(x),
    ensures
        s.push(x).no_duplicates(),
{
    let r = s.push(x);
    assert forall|i: int, j: int| 0 <= i < j < r.len() implies r[i] != r[j] by {
        if j == s.len() {
            assert(r[i] == s[i]);
        } else {
            assert(r[i] == s[i] && r[j] == s[j]);
        }
    }
}

/// A slice of a sequence free of repeats is free of repeats.
pub proof fn lemma_subrange_distinct<A>(s: Seq<A>, lo: int, hi: int)
    requires
        s.no_duplicates(),
        0 <= lo <= hi <= s.len(),
    ensures
        s.subrange(lo, hi).no_duplicates(),
{
    let r = s.subrange(lo, hi);
    assert forall|i: int, j: int| 0 <= i < j < r.len() implies r[i] != r[j] by {
        assert(r[i] == s[lo + i] && r[j] == s[lo + j]);
    }
}

} // verus!
