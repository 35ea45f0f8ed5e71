//! Incremental search for `ItemTree`: the same rules as the directory
//! tree's search, over labels from the display function.

use vstd::prelude::*;

use crate::item_tree::node::{find_index, ids_contain, ids_view, lookup, ItemView, NodeId};
use crate::item_tree::rows::{child_index, lemma_child_index};
use crate::item_tree::{ItemTree, ItemTreeView};
use crate::path::{text_contains, text_matches};
use crate::search::sat_add;

verus! {

/// An active search session.
#[derive(Debug, Clone, PartialEq, Eq)]
pub struct ItemSearchState {
    /// The query as given (its own casing).
    pub query: String,
    /// The query's bytes, ASCII-lower-cased: what comparisons use.
    pub query_lower: Vec<u8>,
    /// Visible ids: direct matches and their ancestors, each once.
    pub visible_ids: Vec<NodeId>,
    /// Direct matches only.
    pub match_count: usize,
}

/// The mathematical value of a search session.
pub struct ItemSearchView {
    pub query: Seq<char>,
    pub query_lower: Seq<u8>,
    pub visible: Set<u64>,
    pub match_count: usize,
}

impl View for ItemSearchState {
    type V = ItemSearchView;

    open spec fn view(&self) -> ItemSearchView {
        ItemSearchView {
            query: self.query@,
            query_lower: self.query_lower@,
            visible: ids_view(self.visible_ids@).to_set(),
            match_count: self.match_count,
        }
    }
}

/// Whether a label, ASCII-lower-cased, contains the lower-case query `q`.
pub open spec fn label_matches(label: Seq<char>, q: Seq<u8>) -> bool {
    text_contains(label, q)
}

/// Whether the subtree at arena index `i` contains a match.
pub open spec fn subtree_matches<T>(items: Seq<ItemView<T>>, labels: Seq<Seq<char>>, q: Seq<u8>, i: int) -> bool
    decreases items.len() - i, items[i].children.len() + 1,
{
    0 <= i < items.len() && (label_matches(labels[i], q) || kids_match(
        items,
        labels,
        q,
        i,
        items[i].children.len() as int,
    ))
}

/// Whether the subtree of one of the first `k` children of `i` contains
/// a match.
pub open spec fn kids_match<T>(items: Seq<ItemView<T>>, labels: Seq<Seq<char>>, q: Seq<u8>, i: int, k: int) -> bool
    decreases items.len() - i, k,
{
    if k <= 0 || !(0 <= i < items.len()) {
        false
    } else {
        kids_match(items, labels, q, i, k - 1) || match child_index(items, i, k - 1) {
            Some(j) => subtree_matches(items, labels, q, j),
            None => false,
        }
    }
}

/// Number of direct matches met by the walk from arena index `i` (an
/// item reached along several paths counts each time).
pub open spec fn match_count_at<T>(items: Seq<ItemView<T>>, labels: Seq<Seq<char>>, q: Seq<u8>, i: int) -> nat
    decreases items.len() - i, items[i].children.len() + 1,
{
    if !(0 <= i < items.len()) {
        0
    } else {
        (if label_matches(labels[i], q) {
            1nat
        } else {
            0nat
        }) + kids_count(items, labels, q, i, items[i].children.len() as int)
    }
}

/// [`match_count_at`] summed over the first `k` children of `i`.
pub open spec fn kids_count<T>(items: Seq<ItemView<T>>, labels: Seq<Seq<char>>, q: Seq<u8>, i: int, k: int) -> nat
    decreases items.len() - i, k,
{
    if k <= 0 || !(0 <= i < items.len()) {
        0
    } else {
        kids_count(items, labels, q, i, k - 1) + match child_index(items, i, k - 1) {
            Some(j) => match_count_at(items, labels, q, j),
            None => 0,
        }
    }
}

/// Ids visible in search mode within the subtree at `i`: each item whose
/// subtree contains a match.
pub open spec fn visible_at<T>(items: Seq<ItemView<T>>, labels: Seq<Seq<char>>, q: Seq<u8>, i: int) -> Set<u64>
    decreases items.len() - i, items[i].children.len() + 1,
{
    if !(0 <= i < items.len()) {
        Set::empty()
    } else {
        let below = kids_visible(items, labels, q, i, items[i].children.len() as int);
        if subtree_matches(items, labels, q, i) {
            below.insert(items[i].id)
        } else {
            below
        }
    }
}

/// Union of [`visible_at`] over the first `k` children of `i`.
pub open spec fn kids_visible<T>(items: Seq<ItemView<T>>, labels: Seq<Seq<char>>, q: Seq<u8>, i: int, k: int) -> Set<u64>
    decreases items.len() - i, k,
{
    if k <= 0 || !(0 <= i < items.len()) {
        Set::empty()
    } else {
        kids_visible(items, labels, q, i, k - 1).union(
            match child_index(items, i, k - 1) {
                Some(j) => visible_at(items, labels, q, j),
                None => Set::empty(),
            },
        )
    }
}

/// A search session recomputed over the tree `v`: visibility and the
/// (saturating) match count of the walk from the root. Without a root
/// the session is unchanged.
pub open spec fn recompute_item_search<T, F>(v: ItemTreeView<T, F>, s: ItemSearchView) -> ItemSearchView {
    match v.root {
        None => s,
        Some(r) => match lookup(v.items, r) {
            None => ItemSearchView { visible: Set::empty(), match_count: 0, ..s },
            Some(i) => ItemSearchView {
                visible: visible_at(v.items, v.labels, s.query_lower, i),
                match_count: sat_add(0, match_count_at(v.items, v.labels, s.query_lower, i) as int) as usize,
                ..s
            },
        },
    }
}

impl<T, F: Fn(&T) -> String> ItemTree<T, F> {
    /// Walk the subtree at arena index `i`, adding to `visible` every id
    /// whose subtree contains a match and counting direct matches into
    /// `count` (saturating). Expansion state is ignored.
    pub(crate) fn walk_for_search_item(
        &self,
        i: usize,
        q: &Vec<u8>,
        visible: &mut Vec<NodeId>,
        count: &mut usize,
    ) -> (r: bool)
        requires
            self.wf(),
            i < self@.items.len(),
            ids_view(old(visible)@).no_duplicates(),
        ensures
            r == subtree_matches(self@.items, self@.labels, q@, i as int),
            ids_view(final(visible)@).no_duplicates(),
            ids_view(final(visible)@).to_set() == ids_view(old(visible)@).to_set().union(
                visible_at(self@.items, self@.labels, q@, i as int),
            ),
            *final(count) == sat_add(
                *old(count) as int,
                match_count_at(self@.items, self@.labels, q@, i as int) as int,
            ),
        decreases self@.items.len() - i,
    {
        let ghost v = self@;
        let ghost qv = q@;
        proof {
            assert(v.items[i as int] == self.items@[i as int]@);
            assert(v.labels[i as int] == self.labels@[i as int]@);
        }
        let self_match = text_matches(self.labels[i].as_str(), q);
        if self_match {
            if *count < usize::MAX {
                *count = *count + 1;
            }
        }
        let ghost count_after_self = *count;
        let ghost visible_start = ids_view(visible@).to_set();
        let mut descendant = false;
        let n = self.items[i].children_ids.len();
        let mut k: usize = 0;
        while k < n
            invariant
                self.wf(),
                v == self@,
                qv == q@,
                i < v.items.len(),
                v.items[i as int] == self.items@[i as int]@,
                n == v.items[i as int].children.len(),
                k <= n,
                ids_view(visible@).no_duplicates(),
                ids_view(visible@).to_set() == visible_start.union(
                    kids_visible(v.items, v.labels, qv, i as int, k as int),
                ),
                descendant == kids_match(v.items, v.labels, qv, i as int, k as int),
                *count == sat_add(
                    count_after_self as int,
                    kids_count(v.items, v.labels, qv, i as int, k as int) as int,
                ),
            decreases n - k,
        {
            let c = self.items[i].children_ids[k];
            proof {
                lemma_child_index(v.items, i as int, k as int);
                assert(v.items[i as int].children[k as int] == c.0);
            }
            match find_index(&self.items, c) {
                Some(j) => {
                    let found = self.walk_for_search_item(j, q, visible, count);
                    if found {
                        descendant = true;
                    }
                },
                None => {},
            }
            proof {
                assert(ids_view(visible@).to_set() =~= visible_start.union(
                    kids_visible(v.items, v.labels, qv, i as int, k + 1),
                ));
            }
            k = k + 1;
        }
        let has_visible = self_match || descendant;
        let id = self.items[i].id;
        if has_visible {
            if !ids_contain(visible, id) {
                let ghost before = visible@;
                visible.push(id);
                proof {
                    assert(ids_view(visible@) =~= ids_view(before) + seq![id.0]);
                    Seq::lemma_to_set_insert_commutes(ids_view(before), id.0);
                }
            }
        }
        proof {
            assert(self_match == label_matches(v.labels[i as int], qv));
            assert(has_visible == subtree_matches(v.items, v.labels, qv, i as int));
            if has_visible {
                assert(ids_view(visible@).to_set().contains(id.0));
            }
            assert(ids_view(visible@).to_set() =~= ids_view(old(visible)@).to_set().union(
                visible_at(v.items, v.labels, qv, i as int),
            ));
        }
        has_visible
    }

    /// Recompute the active search over the current arena.
    pub(crate) fn recompute_search(&mut self)
        requires
            old(self).wf(),
        ensures
            final(self).wf(),
            final(self)@ == (ItemTreeView {
                search: match old(self)@.search {
                    Some(s) => Some(recompute_item_search(old(self)@, s)),
                    None => None,
                },
                ..old(self)@
            }),
    {
        let ghost v = self@;
        let root = match self.root_id {
            Some(r) => r,
            None => return,
        };
        let q = match &self.search {
            Some(s) => lower_copy(&s.query_lower),
            None => return,
        };
        let mut visible: Vec<NodeId> = Vec::new();
        let mut count: usize = 0;
        proof {
            assert(ids_view(visible@) =~= Seq::empty());
            assert(ids_view(visible@).to_set() =~= Set::empty());
        }
        match find_index(&self.items, root) {
            Some(i) => {
                proof {
                    crate::item_tree::node::lemma_lookup(v.items, root.0);
                }
                self.walk_for_search_item(i, &q, &mut visible, &mut count);
            },
            None => {},
        }
        proof {
            assert(ids_view(visible@).to_set() =~= recompute_item_search(v, v.search->0).visible);
        }
        match &mut self.search {
            Some(s) => {
                s.visible_ids = visible;
                s.match_count = count;
            },
            None => {},
        }
    }
}

/// A copy of a byte string.
fn lower_copy(b: &Vec<u8>) -> (r: Vec<u8>)
    ensures
        r@ == b@,
{
    crate::path::copy_bytes(b)
}

} // verus!
