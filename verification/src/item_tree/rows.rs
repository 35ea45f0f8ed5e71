//! The ordered list of drawn rows of an `ItemTree`: the single source of
//! draw order for the view, keyboard navigation and range selection.
//!
//! Rows are arena indices. In normal mode they are the root and every
//! descendant under expanded nodes; in search mode, the visible ids and
//! their visible descendants, regardless of expansion.

use vstd::prelude::*;

use crate::item_tree::node::{find_index, ids_contain, ids_view, NodeId, items_view, lemma_lookup, lookup, ItemView, VisibleItem, VisibleItemView};
use crate::item_tree::{arena_wf, ItemTree, ItemTreeView};

verus! {

/// The arena index the `k`-th child of item `i` resolves to, provided it
/// lies later in the arena.
pub open spec fn child_index<T>(items: Seq<ItemView<T>>, i: int, k: int) -> Option<int> {
    match lookup(items, items[i].children[k]) {
        Some(j) => if i < j < items.len() {
            Some(j)
        } else {
            None
        },
        None => None,
    }
}

/// Normal-mode rows of the subtree at arena index `i`: the item itself
/// and, when it is expanded, the rows of each child in order.
pub open spec fn normal_rows<T>(items: Seq<ItemView<T>>, i: int) -> Seq<int>
    decreases items.len() - i, items[i].children.len() + 1,
{
    if !(0 <= i < items.len()) {
        Seq::empty()
    } else {
        seq![i] + if items[i].is_expanded {
            kids_normal_rows(items, i, items[i].children.len() as int)
        } else {
            Seq::empty()
        }
    }
}

/// Normal-mode rows of the first `k` children of item `i`, concatenated.
pub open spec fn kids_normal_rows<T>(items: Seq<ItemView<T>>, i: int, k: int) -> Seq<int>
    decreases items.len() - i, k,
{
    if k <= 0 || !(0 <= i < items.len()) {
        Seq::empty()
    } else {
        kids_normal_rows(items, i, k - 1) + match child_index(items, i, k - 1) {
            Some(j) => normal_rows(items, j),
            None => Seq::empty(),
        }
    }
}

/// Search-mode rows of the subtree at `i`: the item when its id is
/// visible, followed by the search rows of its children, expanded or not.
pub open spec fn search_rows<T>(items: Seq<ItemView<T>>, vis: Set<u64>, i: int) -> Seq<int>
    decreases items.len() - i, items[i].children.len() + 1,
{
    if !(0 <= i < items.len()) || !vis.contains(items[i].id) {
        Seq::empty()
    } else {
        seq![i] + kids_search_rows(items, vis, i, items[i].children.len() as int)
    }
}

/// Search-mode rows of the first `k` children of item `i`.
pub open spec fn kids_search_rows<T>(items: Seq<ItemView<T>>, vis: Set<u64>, i: int, k: int) -> Seq<
    int,
>
    decreases items.len() - i, k,
{
    if k <= 0 || !(0 <= i < items.len()) {
        Seq::empty()
    } else {
        kids_search_rows(items, vis, i, k - 1) + match child_index(items, i, k - 1) {
            Some(j) => search_rows(items, vis, j),
            None => Seq::empty(),
        }
    }
}

/// The drawn rows, as arena indices: from the item the root id resolves
/// to, in search mode while a search is active.
pub open spec fn item_rows<T, F>(v: ItemTreeView<T, F>) -> Seq<int> {
    match v.root {
        None => Seq::empty(),
        Some(r) => match lookup(v.items, r) {
            None => Seq::empty(),
            Some(i) => match v.search {
                Some(s) => search_rows(v.items, s.visible, i),
                None => normal_rows(v.items, i),
            },
        },
    }
}

/// The row drawn for arena item `i`.
pub open spec fn row_item<T, F>(v: ItemTreeView<T, F>, i: int) -> VisibleItemView {
    VisibleItemView {
        id: v.items[i].id,
        label: v.labels[i],
        depth: v.items[i].depth,
        is_expanded: v.items[i].is_expanded,
        has_children: v.items[i].children.len() > 0,
        is_selected: v.items[i].is_selected,
        is_active: v.active == Some(v.items[i].id),
    }
}

/// Rows for a list of arena indices.
pub open spec fn rows_for<T, F>(v: ItemTreeView<T, F>, idx: Seq<int>) -> Seq<VisibleItemView> {
    idx.map_values(|i: int| row_item(v, i))
}

/// A list of rows as values.
pub open spec fn visible_view(r: Seq<VisibleItem>) -> Seq<VisibleItemView> {
    r.map_values(|x: VisibleItem| x@)
}

/// Under a well-formed arena, children resolve through [`child_index`].
pub proof fn lemma_child_index<T>(items: Seq<ItemView<T>>, i: int, k: int)
    requires
        arena_wf(items),
        0 <= i < items.len(),
        0 <= k < items[i].children.len(),
    ensures
        lookup(items, items[i].children[k]) matches Some(j) && i < j < items.len() && child_index(
            items,
            i,
            k,
        ) == Some(j),
{
    assert(items[i].children[k] == items[i].children[k]);
}

impl<T, F: Fn(&T) -> String> ItemTree<T, F> {
    /// The row for arena item `i`.
    fn to_visible(&self, i: usize) -> (r: VisibleItem)
        requires
            self.wf(),
            i < self@.items.len(),
        ensures
            r@ == row_item(self@, i as int),
    {
        proof {
            assert(self@.items[i as int] == self.items@[i as int]@);
            assert(self@.labels[i as int] == self.labels@[i as int]@);
        }
        let item = &self.items[i];
        let is_active = match self.active_id {
            Some(a) => a == item.id,
            None => false,
        };
        VisibleItem {
            id: item.id,
            label: self.labels[i].clone(),
            depth: item.depth,
            is_expanded: item.is_expanded,
            has_children: item.has_children(),
            is_selected: item.is_selected,
            is_active,
        }
    }

    fn collect_normal(&self, i: usize, rows: &mut Vec<VisibleItem>)
        requires
            self.wf(),
            i < self@.items.len(),
        ensures
            visible_view(final(rows)@) == visible_view(old(rows)@) + rows_for(
                self@,
                normal_rows(self@.items, i as int),
            ),
        decreases self@.items.len() - i,
    {
        let ghost v = self@;
        let ghost start = visible_view(rows@);
        let r = self.to_visible(i);
        rows.push(r);
        proof {
            assert(v.items[i as int] == self.items@[i as int]@);
            assert(visible_view(rows@) =~= start + rows_for(v, seq![i as int] + kids_normal_rows(v.items, i as int, 0)));
        }
        if self.items[i].is_expanded {
            let n = self.items[i].children_ids.len();
            let mut k: usize = 0;
            while k < n
                invariant
                    self.wf(),
                    v == self@,
                    i < v.items.len(),
                    v.items[i as int] == self.items@[i as int]@,
                    n == v.items[i as int].children.len(),
                    k <= n,
                    visible_view(rows@) == start + rows_for(
                        v,
                        seq![i as int] + kids_normal_rows(v.items, i as int, k as int),
                    ),
                decreases n - k,
            {
                let c = self.items[i].children_ids[k];
                proof {
                    lemma_child_index(v.items, i as int, k as int);
                    assert(v.items[i as int].children[k as int] == c.0);
                }
                let ghost before = visible_view(rows@);
                match find_index(&self.items, c) {
                    Some(j) => {
                        self.collect_normal(j, rows);
                    },
                    None => {},
                }
                proof {
                    assert(rows_for(v, seq![i as int] + kids_normal_rows(v.items, i as int, k + 1))
                        =~= rows_for(v, seq![i as int] + kids_normal_rows(v.items, i as int, k as int))
                        + rows_for(v, normal_rows(v.items, child_index(v.items, i as int, k as int)->0)));
                }
                k = k + 1;
            }
        }
        proof {
            if !v.items[i as int].is_expanded {
                assert(normal_rows(v.items, i as int) =~= seq![i as int]);
            }
        }
    }

    fn collect_search(&self, i: usize, vis: &Vec<NodeId>, rows: &mut Vec<VisibleItem>)
        requires
            self.wf(),
            i < self@.items.len(),
        ensures
            visible_view(final(rows)@) == visible_view(old(rows)@) + rows_for(
                self@,
                search_rows(self@.items, ids_view(vis@).to_set(), i as int),
            ),
        decreases self@.items.len() - i,
    {
        let ghost v = self@;
        let ghost vs = ids_view(vis@).to_set();
        let ghost start = visible_view(rows@);
        proof {
            assert(v.items[i as int] == self.items@[i as int]@);
        }
        if !ids_contain(vis, self.items[i].id) {
            proof {
                assert(search_rows(v.items, vs, i as int) =~= Seq::empty());
                assert(rows_for(v, Seq::empty()) =~= Seq::empty());
                assert(visible_view(rows@) =~= start + Seq::empty());
            }
            return;
        }
        let r = self.to_visible(i);
        rows.push(r);
        proof {
            assert(visible_view(rows@) =~= start + rows_for(
                v,
                seq![i as int] + kids_search_rows(v.items, vs, i as int, 0),
            ));
        }
        let n = self.items[i].children_ids.len();
        let mut k: usize = 0;
        while k < n
            invariant
                self.wf(),
                v == self@,
                vs == ids_view(vis@).to_set(),
                i < v.items.len(),
                v.items[i as int] == self.items@[i as int]@,
                n == v.items[i as int].children.len(),
                k <= n,
                visible_view(rows@) == start + rows_for(
                    v,
                    seq![i as int] + kids_search_rows(v.items, vs, i as int, k as int),
                ),
            decreases n - k,
        {
            let c = self.items[i].children_ids[k];
            proof {
                lemma_child_index(v.items, i as int, k as int);
                assert(v.items[i as int].children[k as int] == c.0);
            }
            match find_index(&self.items, c) {
                Some(j) => {
                    self.collect_search(j, vis, rows);
                },
                None => {},
            }
            proof {
                assert(rows_for(v, seq![i as int] + kids_search_rows(v.items, vs, i as int, k + 1))
                    =~= rows_for(v, seq![i as int] + kids_search_rows(v.items, vs, i as int, k as int))
                    + rows_for(
                    v,
                    search_rows(v.items, vs, child_index(v.items, i as int, k as int)->0),
                ));
            }
            k = k + 1;
        }
    }

    /// The drawn rows, in order (see [`item_rows`]): in normal mode the
    /// root and every descendant under expanded nodes, in search mode the
    /// visible ids regardless of expansion. Empty before the first
    /// `set_tree`.
    pub fn visible_rows(&self) -> (r: Vec<VisibleItem>)
        requires
            self.wf(),
        ensures
            visible_view(r@) == rows_for(self@, item_rows(self@)),
    {
        let mut rows: Vec<VisibleItem> = Vec::new();
        proof {
            assert(visible_view(rows@) =~= Seq::empty());
        }
        let root = match self.root_id {
            Some(r) => r,
            None => {
                proof {
                    assert(rows_for(self@, Seq::empty()) =~= Seq::empty());
                }
                return rows;
            },
        };
        let i = match find_index(&self.items, root) {
            Some(i) => i,
            None => {
                proof {
                    assert(rows_for(self@, Seq::empty()) =~= Seq::empty());
                }
                return rows;
            },
        };
        proof {
            lemma_lookup(self@.items, root.0);
        }
        match &self.search {
            Some(s) => {
                self.collect_search(i, &s.visible_ids, &mut rows);
            },
            None => {
                self.collect_normal(i, &mut rows);
            },
        }
        proof {
            assert(visible_view(rows@) =~= rows_for(self@, item_rows(self@)));
        }
        rows
    }
}

} // verus!
