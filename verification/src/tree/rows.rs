//! The ordered list of drawn rows: the single source of draw order that
//! the view, keyboard navigation and range selection all consume.

use vstd::prelude::*;

use crate::node::{children_view, lemma_children_view, node_view, NodeView, TreeNode};
use crate::path::{paths_contain, paths_view, TreePath};
use crate::tree::{DirectoryTree, TreeView};

verus! {

/// `d + 1`, saturating.
pub open spec fn next_depth(d: u32) -> u32 {
    if d == u32::MAX {
        d
    } else {
        (d + 1) as u32
    }
}

/// Rows of the subtree `n` drawn at depth `d`: `n` itself and, beneath a
/// directory that is expanded and loaded, the rows of its children.
pub open spec fn normal_rows(n: NodeView, d: u32) -> Seq<(NodeView, u32)>
    decreases n,
{
    seq![(n, d)] + if n.is_dir && n.is_expanded && n.is_loaded {
        normal_rows_list(n.children, next_depth(d))
    } else {
        Seq::empty()
    }
}

/// Rows of each subtree of a list, concatenated.
pub open spec fn normal_rows_list(s: Seq<NodeView>, d: u32) -> Seq<(NodeView, u32)>
    decreases s,
{
    if s.len() == 0 {
        Seq::empty()
    } else {
        normal_rows_list(s.drop_last(), d) + normal_rows(s.last(), d)
    }
}

/// Rows of the subtree `n` in search mode: nodes whose path is in
/// `vis`, descending regardless of expansion.
pub open spec fn search_rows(n: NodeView, vis: Set<Seq<Seq<u8>>>, d: u32) -> Seq<(NodeView, u32)>
    decreases n,
{
    if vis.contains(n.path) {
        seq![(n, d)] + search_rows_list(n.children, vis, next_depth(d))
    } else {
        Seq::empty()
    }
}

/// Search-mode rows of each subtree of a list, concatenated.
pub open spec fn search_rows_list(s: Seq<NodeView>, vis: Set<Seq<Seq<u8>>>, d: u32) -> Seq<
    (NodeView, u32),
>
    decreases s,
{
    if s.len() == 0 {
        Seq::empty()
    } else {
        search_rows_list(s.drop_last(), vis, d) + search_rows(s.last(), vis, d)
    }
}

/// The rows of the whole tree: the search-mode rows while a search is
/// active, the normal rows otherwise.
pub open spec fn rows_spec(v: TreeView) -> Seq<(NodeView, u32)> {
    match v.search {
        Some(s) => search_rows(v.root, s.visible, 0),
        None => normal_rows(v.root, 0),
    }
}

/// The value of a list of drawn rows.
pub open spec fn rows_view(r: Seq<(&TreeNode, u32)>) -> Seq<(NodeView, u32)> {
    r.map_values(|x: (&TreeNode, u32)| (x.0@, x.1))
}

proof fn lemma_rows_view_push<'a>(r: Seq<(&'a TreeNode, u32)>, x: (&'a TreeNode, u32))
    ensures
        rows_view(r.push(x)) == rows_view(r).push((x.0@, x.1)),
{
    assert(rows_view(r.push(x)) =~= rows_view(r).push((x.0@, x.1)));
}

fn depth_after(d: u32) -> (r: u32)
    ensures
        r == next_depth(d),
{
    if d == u32::MAX {
        d
    } else {
        d + 1
    }
}

fn collect_rows<'a>(node: &'a TreeNode, depth: u32, rows: &mut Vec<(&'a TreeNode, u32)>)
    ensures
        rows_view(final(rows)@) == rows_view(old(rows)@) + normal_rows(node@, depth),
    decreases node,
{
    proof {
        lemma_rows_view_push(rows@, (node, depth));
    }
    rows.push((node, depth));
    let ghost start = rows_view(rows@);
    let ghost cs = children_view(node.children@);
    proof {
        lemma_children_view(node.children@);
    }
    if node.is_dir && node.is_expanded && node.is_loaded {
        let d = depth_after(depth);
        let mut i: usize = 0;
        while i < node.children.len()
            invariant
                i <= node.children@.len(),
                cs == children_view(node.children@),
                cs.len() == node.children@.len(),
                forall|j: int| 0 <= j < cs.len() ==> #[trigger] cs[j] == node_view(node.children@[j]),
                rows_view(rows@) == start + normal_rows_list(cs.take(i as int), d),
            decreases node.children@.len() - i,
        {
            proof {
                assert(decreases_to!(node => node.children@[i as int]));
                assert(cs.take(i + 1).drop_last() =~= cs.take(i as int));
            }
            collect_rows(&node.children[i], d, rows);
            proof {
                assert(rows_view(rows@) =~= start + normal_rows_list(cs.take(i + 1), d));
            }
            i = i + 1;
        }
        proof {
            assert(cs.take(cs.len() as int) =~= cs);
            assert(rows_view(rows@) =~= rows_view(old(rows)@) + normal_rows(node@, depth));
        }
    } else {
        proof {
            assert(rows_view(rows@) =~= rows_view(old(rows)@) + normal_rows(node@, depth));
        }
    }
}

fn collect_search_rows<'a>(
    node: &'a TreeNode,
    visible: &Vec<TreePath>,
    depth: u32,
    rows: &mut Vec<(&'a TreeNode, u32)>,
)
    ensures
        rows_view(final(rows)@) == rows_view(old(rows)@) + search_rows(
            node@,
            paths_view(visible@).to_set(),
            depth,
        ),
    decreases node,
{
    let ghost vis = paths_view(visible@).to_set();
    if !paths_contain(visible, &node.path) {
        proof {
            assert(rows_view(rows@) =~= rows_view(old(rows)@) + search_rows(node@, vis, depth));
        }
        return;
    }
    proof {
        lemma_rows_view_push(rows@, (node, depth));
    }
    rows.push((node, depth));
    let ghost start = rows_view(rows@);
    let ghost cs = children_view(node.children@);
    proof {
        lemma_children_view(node.children@);
    }
    let d = depth_after(depth);
    let mut i: usize = 0;
    while i < node.children.len()
        invariant
            i <= node.children@.len(),
            cs == children_view(node.children@),
            cs.len() == node.children@.len(),
            forall|j: int| 0 <= j < cs.len() ==> #[trigger] cs[j] == node_view(node.children@[j]),
            vis == paths_view(visible@).to_set(),
            rows_view(rows@) == start + search_rows_list(cs.take(i as int), vis, d),
        decreases node.children@.len() - i,
    {
        proof {
            assert(decreases_to!(node => node.children@[i as int]));
            assert(cs.take(i + 1).drop_last() =~= cs.take(i as int));
        }
        collect_search_rows(&node.children[i], visible, d, rows);
        proof {
            assert(rows_view(rows@) =~= start + search_rows_list(cs.take(i + 1), vis, d));
        }
        i = i + 1;
    }
    proof {
        assert(cs.take(cs.len() as int) =~= cs);
        assert(rows_view(rows@) =~= rows_view(old(rows)@) + search_rows(node@, vis, depth));
    }
}

impl DirectoryTree {
    /// The ordered list of rows currently drawn, each with its depth: a
    /// depth-first pre-order walk visiting the root and, beneath every
    /// directory that is expanded and loaded, its children. While a
    /// search is active, only the search's visible paths are drawn, and
    /// collapsed subtrees are walked too.
    pub fn visible_rows(&self) -> (r: Vec<(&TreeNode, u32)>)
        requires
            self.wf(),
        ensures
            rows_view(r@) == rows_spec(self@),
    {
        let mut rows: Vec<(&TreeNode, u32)> = Vec::new();
        proof {
            assert(rows_view(rows@) =~= Seq::empty());
        }
        match &self.search {
            Some(s) => {
                collect_search_rows(&self.root, &s.visible_paths, 0, &mut rows);
            },
            None => {
                collect_rows(&self.root, 0, &mut rows);
            },
        }
        proof {
            assert(rows_view(rows@) =~= rows_spec(self@));
        }
        rows
    }
}

} // verus!
