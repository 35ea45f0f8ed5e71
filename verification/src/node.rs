//! The recursive node value making up the in-memory tree.
//!
//! Invariants upheld by the `DirectoryTree` transitions (see
//! [`node_wf`]):
//!
//! 1. `is_expanded` implies `is_dir`: files are never expanded.
//! 2. `error.is_some()` implies `is_loaded` and an empty child list.
//!
//! Nodes are ephemeral: rebuilt when filters change or fresh scan data
//! merges. The selection set lives on the tree, keyed by path; a node's
//! `is_selected` flag is a derived view hint.

use vstd::prelude::*;

use crate::cache::{CachedView, TreeCache};
use crate::config::{admits_spec, DisplayFilter};
use crate::entry::{entries_view, EntryView, LoadedEntry};
use crate::error::{IssueView, ScanIssue};
use crate::path::{file_name_spec, starts_with_spec, TreePath};

verus! {

/// One directory entry in the tree.
#[derive(Debug, PartialEq, Eq)]
pub struct TreeNode {
    /// Path of the entry.
    pub path: TreePath,
    /// `true` for directories.
    pub is_dir: bool,
    /// `true` if the node's children are drawn on screen.
    pub is_expanded: bool,
    /// `true` once a scan has populated (or errored) this node.
    pub is_loaded: bool,
    /// Derived view hint: `true` iff this path is in the tree's selection.
    pub is_selected: bool,
    /// Filtered children; empty until loaded.
    pub children: Vec<TreeNode>,
    /// Set when the scan for this directory failed.
    pub error: Option<ScanIssue>,
}

/// The mathematical value of a node and its whole subtree.
pub struct NodeView {
    pub path: Seq<Seq<u8>>,
    pub is_dir: bool,
    pub is_expanded: bool,
    pub is_loaded: bool,
    pub is_selected: bool,
    pub children: Seq<NodeView>,
    pub error: Option<IssueView>,
}

/// The value of an optional scan issue.
pub open spec fn error_view(e: Option<ScanIssue>) -> Option<IssueView> {
    match e {
        Some(i) => Some(i@),
        None => None,
    }
}

/// The value of a node.
pub open spec fn node_view(n: TreeNode) -> NodeView
    decreases n,
{
    NodeView {
        path: n.path@,
        is_dir: n.is_dir,
        is_expanded: n.is_expanded,
        is_loaded: n.is_loaded,
        is_selected: n.is_selected,
        children: children_view(n.children@),
        error: error_view(n.error),
    }
}

/// The values of a list of nodes.
pub open spec fn children_view(s: Seq<TreeNode>) -> Seq<NodeView>
    decreases s,
{
    if s.len() == 0 {
        Seq::empty()
    } else {
        children_view(s.drop_last()).push(node_view(s.last()))
    }
}

impl View for TreeNode {
    type V = NodeView;

    open spec fn view(&self) -> NodeView {
        node_view(*self)
    }
}

pub proof fn lemma_children_view(s: Seq<TreeNode>)
    ensures
        children_view(s).len() == s.len(),
        forall|i: int| 0 <= i < s.len() ==> #[trigger] children_view(s)[i] == node_view(s[i]),
    decreases s.len(),
{
    if s.len() > 0 {
        lemma_children_view(s.drop_last());
    }
}

pub proof fn lemma_children_view_update(s: Seq<TreeNode>, i: int, x: TreeNode)
    requires
        0 <= i < s.len(),
    ensures
        children_view(s.update(i, x)) == children_view(s).update(i, node_view(x)),
{
    lemma_children_view(s);
    lemma_children_view(s.update(i, x));
    assert(children_view(s.update(i, x)) =~= children_view(s).update(i, node_view(x)));
}

impl Clone for TreeNode {
    fn clone(&self) -> (r: TreeNode)
        ensures
            r@ == self@,
    {
        self.copy()
    }
}

/// Index of the first child whose path is a component-wise prefix of `p`:
/// the only child a lookup for `p` descends into.
pub open spec fn first_prefix_child(cs: Seq<NodeView>, p: Seq<Seq<u8>>) -> Option<int>
    decreases cs.len(),
{
    if cs.len() == 0 {
        None
    } else {
        match first_prefix_child(cs.drop_last(), p) {
            Some(i) => Some(i),
            None => if starts_with_spec(p, cs.last().path) {
                Some(cs.len() - 1)
            } else {
                None
            },
        }
    }
}

pub proof fn lemma_first_prefix_child(cs: Seq<NodeView>, p: Seq<Seq<u8>>)
    ensures
        match first_prefix_child(cs, p) {
            Some(i) => 0 <= i < cs.len() && starts_with_spec(p, cs[i].path) && forall|j: int|
                0 <= j < i ==> !starts_with_spec(p, #[trigger] cs[j].path),
            None => forall|j: int| 0 <= j < cs.len() ==> !starts_with_spec(p, #[trigger] cs[j].path),
        },
    decreases cs.len(),
{
    if cs.len() > 0 {
        lemma_first_prefix_child(cs.drop_last(), p);
        assert(forall|j: int| 0 <= j < cs.len() - 1 ==> cs.drop_last()[j] == cs[j]);
    }
}

/// The node with path `p` in the subtree `n`: `n` itself, or the result
/// of descending into the first child whose path is a prefix of `p`.
pub open spec fn find_spec(n: NodeView, p: Seq<Seq<u8>>) -> Option<NodeView>
    decreases n,
{
    if n.path == p {
        Some(n)
    } else {
        match first_prefix_child(n.children, p) {
            Some(i) => if 0 <= i < n.children.len() {
                find_spec(n.children[i], p)
            } else {
                None
            },
            None => None,
        }
    }
}

/// The subtree `n` with the node that `find_spec(n, p)` locates replaced
/// by `new`.
pub open spec fn replace_spec(n: NodeView, p: Seq<Seq<u8>>, new: NodeView) -> NodeView
    decreases n,
{
    if n.path == p {
        new
    } else {
        match first_prefix_child(n.children, p) {
            Some(i) => if 0 <= i < n.children.len() {
                NodeView { children: n.children.update(i, replace_spec(n.children[i], p, new)), ..n }
            } else {
                n
            },
            None => n,
        }
    }
}

/// A lookup of `p` only ever finds a node whose path is `p`.
pub proof fn lemma_find_path(n: NodeView, p: Seq<Seq<u8>>)
    ensures
        find_spec(n, p) matches Some(m) ==> m.path == p,
    decreases n,
{
    if n.path != p {
        match first_prefix_child(n.children, p) {
            Some(i) => if 0 <= i < n.children.len() {
                assert(decreases_to!(n => n.children[i]));
                lemma_find_path(n.children[i], p);
            },
            None => {},
        }
    }
}

/// Replacing a node by one with the same path keeps the subtree's path.
pub proof fn lemma_replace_keeps_path(n: NodeView, p: Seq<Seq<u8>>, new: NodeView)
    requires
        new.path == p,
    ensures
        replace_spec(n, p, new).path == n.path,
{
}

/// Lists with the same paths descend alike.
pub proof fn lemma_first_prefix_same_paths(a: Seq<NodeView>, b: Seq<NodeView>, p: Seq<Seq<u8>>)
    requires
        a.len() == b.len(),
        forall|i: int| 0 <= i < a.len() ==> #[trigger] a[i].path == b[i].path,
    ensures
        first_prefix_child(a, p) == first_prefix_child(b, p),
    decreases a.len(),
{
    if a.len() > 0 {
        assert(forall|i: int| 0 <= i < a.len() - 1 ==> a.drop_last()[i] == a[i] && b.drop_last()[i] == b[i]);
        lemma_first_prefix_same_paths(a.drop_last(), b.drop_last(), p);
        assert(a.last().path == b[b.len() - 1].path);
    }
}

/// After replacing the node at `p` by `new` (same path), a lookup of `p`
/// finds `new`.
pub proof fn lemma_find_replace(n: NodeView, p: Seq<Seq<u8>>, new: NodeView)
    requires
        find_spec(n, p) is Some,
        new.path == p,
    ensures
        find_spec(replace_spec(n, p, new), p) == Some(new),
    decreases n,
{
    if n.path != p {
        let i = first_prefix_child(n.children, p)->0;
        let c2 = n.children.update(i, replace_spec(n.children[i], p, new));
        lemma_replace_keeps_path(n.children[i], p, new);
        assert forall|j: int| 0 <= j < c2.len() implies #[trigger] c2[j].path == n.children[j].path by {}
        lemma_first_prefix_same_paths(c2, n.children, p);
        assert(decreases_to!(n => n.children[i]));
        lemma_find_replace(n.children[i], p, new);
    }
}

/// Replacing the node at `p` twice keeps only the second replacement.
pub proof fn lemma_replace_replace(n: NodeView, p: Seq<Seq<u8>>, a: NodeView, b: NodeView)
    requires
        a.path == p,
    ensures
        replace_spec(replace_spec(n, p, a), p, b) == replace_spec(n, p, b),
    decreases n,
{
    if n.path != p {
        match first_prefix_child(n.children, p) {
            Some(i) => {
                if 0 <= i < n.children.len() {
                    let c2 = n.children.update(i, replace_spec(n.children[i], p, a));
                    lemma_replace_keeps_path(n.children[i], p, a);
                    assert forall|j: int| 0 <= j < c2.len() implies #[trigger] c2[j].path == n.children[j].path by {}
                    lemma_first_prefix_same_paths(c2, n.children, p);
                    assert(decreases_to!(n => n.children[i]));
                    lemma_replace_replace(n.children[i], p, a, b);
                    assert(c2.update(i, replace_spec(c2[i], p, b)) =~= n.children.update(
                        i,
                        replace_spec(n.children[i], p, b),
                    ));
                }
            },
            None => {},
        }
    }
}

/// Replacing the node at `p` by itself changes nothing.
pub proof fn lemma_replace_found(n: NodeView, p: Seq<Seq<u8>>)
    requires
        find_spec(n, p) is Some,
    ensures
        replace_spec(n, p, find_spec(n, p)->0) == n,
    decreases n,
{
    if n.path != p {
        let i = first_prefix_child(n.children, p)->0;
        assert(decreases_to!(n => n.children[i]));
        lemma_replace_found(n.children[i], p);
        assert(n.children.update(i, replace_spec(n.children[i], p, find_spec(n, p)->0)) =~= n.children);
    }
}

/// A fresh, unloaded node for a scanned entry.
pub open spec fn fresh_spec(e: EntryView) -> NodeView {
    NodeView {
        path: e.path,
        is_dir: e.is_dir,
        is_expanded: false,
        is_loaded: false,
        is_selected: false,
        children: Seq::empty(),
        error: None,
    }
}

/// The entries that survive filter `f`, in order.
pub open spec fn admitted_spec(es: Seq<EntryView>, f: DisplayFilter) -> Seq<EntryView>
    decreases es.len(),
{
    if es.len() == 0 {
        Seq::empty()
    } else {
        let a = admitted_spec(es.drop_last(), f);
        if admits_spec(f, es.last()) {
            a.push(es.last())
        } else {
            a
        }
    }
}

/// Index of the last node of `prev` whose path is `p`.
pub open spec fn last_with_path(prev: Seq<NodeView>, p: Seq<Seq<u8>>) -> Option<int>
    decreases prev.len(),
{
    if prev.len() == 0 {
        None
    } else if prev.last().path == p {
        Some(prev.len() - 1)
    } else {
        last_with_path(prev.drop_last(), p)
    }
}

pub proof fn lemma_last_with_path(prev: Seq<NodeView>, p: Seq<Seq<u8>>)
    ensures
        match last_with_path(prev, p) {
            Some(q) => 0 <= q < prev.len() && prev[q].path == p && forall|j: int|
                q < j < prev.len() ==> #[trigger] prev[j].path != p,
            None => forall|j: int| 0 <= j < prev.len() ==> #[trigger] prev[j].path != p,
        },
    decreases prev.len(),
{
    if prev.len() > 0 {
        lemma_last_with_path(prev.drop_last(), p);
        assert(forall|j: int| 0 <= j < prev.len() - 1 ==> prev.drop_last()[j] == prev[j]);
    }
}

/// The `k`-th new child when rebuilding from `prev` against the admitted
/// entries `adm`: the previous node with that path (the last one, when
/// several share it) if this is the path's first admitted occurrence,
/// otherwise a fresh node.
pub open spec fn rebuilt_child(prev: Seq<NodeView>, adm: Seq<EntryView>, k: int) -> NodeView {
    match last_with_path(prev, adm[k].path) {
        Some(q) => if forall|j: int| 0 <= j < k ==> #[trigger] adm[j].path != adm[k].path {
            prev[q]
        } else {
            fresh_spec(adm[k])
        },
        None => fresh_spec(adm[k]),
    }
}

/// The child list rebuilt from the previous children `prev` and the raw
/// entries `es` under filter `f`: one node per admitted entry, in entry
/// order, reusing a previous subtree (with its expansion, loaded flag,
/// grandchildren and error) wherever its path reappears.
pub open spec fn rebuild_spec(prev: Seq<NodeView>, es: Seq<EntryView>, f: DisplayFilter) -> Seq<
    NodeView,
> {
    let adm = admitted_spec(es, f);
    Seq::new(adm.len(), |k: int| rebuilt_child(prev, adm, k))
}

impl TreeNode {
    /// A deep copy of this subtree.
    pub fn copy(&self) -> (r: TreeNode)
        ensures
            r@ == self@,
        decreases self,
    {
        let mut children: Vec<TreeNode> = Vec::new();
        let mut i: usize = 0;
        proof {
            lemma_children_view(self.children@);
        }
        while i < self.children.len()
            invariant
                i <= self.children@.len(),
                children@.len() == i,
                forall|j: int| 0 <= j < i ==> #[trigger] node_view(children@[j]) == node_view(self.children@[j]),
            decreases self.children@.len() - i,
        {
            proof {
                assert(decreases_to!(self => self.children@[i as int]));
            }
            let c = self.children[i].copy();
            children.push(c);
            i = i + 1;
        }
        let error = match &self.error {
            Some(e) => Some(e.copy()),
            None => None,
        };
        let r = TreeNode {
            path: self.path.copy(),
            is_dir: self.is_dir,
            is_expanded: self.is_expanded,
            is_loaded: self.is_loaded,
            is_selected: self.is_selected,
            children,
            error,
        };
        proof {
            lemma_children_view(r.children@);
            assert(children_view(r.children@) =~= children_view(self.children@));
        }
        r
    }

    /// The eagerly created root node: a directory, neither loaded nor
    /// expanded.
    pub fn new_root(path: TreePath) -> (r: TreeNode)
        ensures
            r@ == (NodeView {
                path: path@,
                is_dir: true,
                is_expanded: false,
                is_loaded: false,
                is_selected: false,
                children: Seq::empty(),
                error: None,
            }),
    {
        let r = TreeNode {
            path,
            is_dir: true,
            is_expanded: false,
            is_loaded: false,
            is_selected: false,
            children: Vec::new(),
            error: None,
        };
        assert(children_view(r.children@) =~= Seq::empty());
        r
    }

    /// A fresh, unloaded node for a scanned entry.
    pub fn from_entry(entry: &LoadedEntry) -> (r: TreeNode)
        ensures
            r@ == fresh_spec(entry@),
    {
        let r = TreeNode {
            path: entry.path.copy(),
            is_dir: entry.is_dir,
            is_expanded: false,
            is_loaded: false,
            is_selected: false,
            children: Vec::new(),
            error: None,
        };
        assert(children_view(r.children@) =~= Seq::empty());
        r
    }

    /// Final path component, for use as a row label.
    pub fn file_name(&self) -> (r: Vec<u8>)
        ensures
            r@ == file_name_spec(self.path@),
    {
        self.path.file_name()
    }

    /// Index of the first child whose path is a prefix of `path`.
    fn prefix_child(&self, path: &TreePath) -> (r: Option<usize>)
        ensures
            match r {
                Some(i) => i < self.children@.len() && first_prefix_child(self@.children, path@)
                    == Some(i as int),
                None => first_prefix_child(self@.children, path@) is None,
            },
    {
        proof {
            lemma_children_view(self.children@);
            lemma_first_prefix_child(self@.children, path@);
        }
        let mut i: usize = 0;
        while i < self.children.len()
            invariant
                i <= self.children@.len(),
                self@.children.len() == self.children@.len(),
                forall|j: int| #![trigger self.children@[j]]
                    0 <= j < i ==> !starts_with_spec(path@, self.children@[j].path@),
                forall|j: int|
                    0 <= j < self.children@.len() ==> #[trigger] self@.children[j] == node_view(
                        self.children@[j],
                    ),
                match first_prefix_child(self@.children, path@) {
                    Some(q) => 0 <= q < self@.children.len() && starts_with_spec(
                        path@,
                        self@.children[q].path,
                    ) && forall|j: int|
                        0 <= j < q ==> !starts_with_spec(path@, #[trigger] self@.children[j].path),
                    None => forall|j: int|
                        0 <= j < self@.children.len() ==> !starts_with_spec(
                            path@,
                            #[trigger] self@.children[j].path,
                        ),
                },
            decreases self.children@.len() - i,
        {
            if path.starts_with(&self.children[i].path) {
                proof {
                    assert(self@.children[i as int] == node_view(self.children@[i as int]));
                    match first_prefix_child(self@.children, path@) {
                        Some(q) => {
                            if q < i {
                                assert(self@.children[q] == node_view(self.children@[q]));
                            }
                            if q > i {
                                assert(!starts_with_spec(path@, self@.children[i as int].path));
                            }
                        },
                        None => {
                            assert(!starts_with_spec(path@, self@.children[i as int].path));
                        },
                    }
                }
                return Some(i);
            }
            proof {
                assert(self@.children[i as int] == node_view(self.children@[i as int]));
            }
            i = i + 1;
        }
        proof {
            match first_prefix_child(self@.children, path@) {
                Some(q) => {
                    assert(self@.children[q] == node_view(self.children@[q]));
                },
                None => {},
            }
        }
        None
    }

    /// Find the node for `path` in this subtree.
    ///
    /// Descends only into the first child whose path is a component-wise
    /// prefix of `path`, so lookup cost is proportional to depth.
    pub fn find(&self, path: &TreePath) -> (r: Option<&TreeNode>)
        ensures
            match r {
                Some(n) => find_spec(self@, path@) == Some(n@),
                None => find_spec(self@, path@) is None,
            },
        decreases self,
    {
        if self.path.same_as(path) {
            return Some(self);
        }
        match self.prefix_child(path) {
            Some(i) => {
                proof {
                    lemma_children_view(self.children@);
                    assert(decreases_to!(self => self.children@[i as int]));
                }
                self.children[i].find(path)
            },
            None => None,
        }
    }

    /// Mutable variant of [`TreeNode::find`]; when the node is found, the
    /// final subtree is this one with that node replaced by its final value.
    pub fn find_mut(&mut self, path: &TreePath) -> (r: Option<&mut TreeNode>)
        ensures
            match r {
                Some(m) => find_spec(old(self)@, path@) == Some(m@) && final(self)@
                    == replace_spec(old(self)@, path@, final(m)@),
                None => find_spec(old(self)@, path@) is None && final(self)@ == old(self)@,
            },
        decreases *old(self),
    {
        if self.path.same_as(path) {
            return Some(self);
        }
        match self.prefix_child(path) {
            Some(i) => {
                proof {
                    lemma_children_view(self.children@);
                    assert(decreases_to!(*old(self) => old(self).children@[i as int]));
                }
                let ghost old_children = self.children@;
                proof {
                    assert(old(self)@.children == children_view(old_children));
                    assert(old(self)@.children[i as int] == node_view(old_children[i as int]));
                    assert(old(self)@.path != path@);
                }
                let c = &mut self.children[i];
                let r = c.find_mut(path);
                proof {
                    assert forall|x: TreeNode|
                        children_view(old_children.update(i as int, x)) == children_view(
                            old_children,
                        ).update(i as int, node_view(x)) by {
                        lemma_children_view_update(old_children, i as int, x);
                    }
                    let cv = children_view(old_children);
                    assert(cv.update(i as int, cv[i as int]) =~= cv);
                }
                r
            },
            None => None,
        }
    }
}


pub proof fn lemma_admitted_step(es: Seq<EntryView>, k: int, f: DisplayFilter)
    requires
        0 <= k < es.len(),
    ensures
        admitted_spec(es.take(k + 1), f) == if admits_spec(f, es[k]) {
            admitted_spec(es.take(k), f).push(es[k])
        } else {
            admitted_spec(es.take(k), f)
        },
{
    assert(es.take(k + 1).drop_last() =~= es.take(k));
}

pub proof fn lemma_rebuilt_child_push(pv: Seq<NodeView>, a: Seq<EntryView>, e: EntryView, m: int)
    requires
        0 <= m < a.len(),
    ensures
        rebuilt_child(pv, a.push(e), m) == rebuilt_child(pv, a, m),
{
    assert(a.push(e)[m] == a[m]);
    assert(forall|j: int| 0 <= j < m ==> a.push(e)[j] == a[j]);
}

/// Index of the first occupied slot holding a node with path `p`.
fn find_slot(slots: &Vec<Option<TreeNode>>, p: &TreePath) -> (r: Option<usize>)
    ensures
        match r {
            Some(j) => j < slots@.len() && slots@[j as int] is Some && slots@[j as int]->0.path@ == p@
                && forall|i: int|
                0 <= i < j ==> (#[trigger] slots@[i] is Some ==> slots@[i]->0.path@ != p@),
            None => forall|i: int|
                0 <= i < slots@.len() ==> (#[trigger] slots@[i] is Some ==> slots@[i]->0.path@ != p@),
        },
{
    let mut j: usize = 0;
    while j < slots.len()
        invariant
            j <= slots@.len(),
            forall|i: int|
                0 <= i < j ==> (#[trigger] slots@[i] is Some ==> slots@[i]->0.path@ != p@),
        decreases slots@.len() - j,
    {
        match &slots[j] {
            Some(x) => {
                if x.path.same_as(p) {
                    return Some(j);
                }
            },
            None => {},
        }
        j = j + 1;
    }
    None
}

/// `true` iff some node of `out` has path `p`.
fn has_path(out: &Vec<TreeNode>, p: &TreePath) -> (r: bool)
    ensures
        r == exists|m: int| 0 <= m < out@.len() && #[trigger] out@[m].path@ == p@,
{
    let mut m: usize = 0;
    while m < out.len()
        invariant
            m <= out@.len(),
            forall|i: int| 0 <= i < m ==> #[trigger] out@[i].path@ != p@,
        decreases out@.len() - m,
    {
        if out[m].path.same_as(p) {
            return true;
        }
        m = m + 1;
    }
    false
}

/// Rebuild `node.children` from a raw entry list under `filter`,
/// preserving every previous child subtree whose path still appears:
/// expansion, loaded flags, grandchildren and errors all survive.
pub fn rebuild_children(node: &mut TreeNode, entries: &Vec<LoadedEntry>, filter: DisplayFilter)
    ensures
        final(node)@ == (NodeView {
            children: rebuild_spec(old(node)@.children, entries_view(entries@), filter),
            ..old(node)@
        }),
{
    let mut prev: Vec<TreeNode> = Vec::new();
    std::mem::swap(&mut prev, &mut node.children);
    let ghost orig = prev@;
    let ghost pv = children_view(orig);
    proof {
        lemma_children_view(orig);
    }
    let n = prev.len();
    let mut slots: Vec<Option<TreeNode>> = Vec::new();
    while prev.len() > 0
        invariant
            n == orig.len(),
            pv == children_view(orig),
            pv.len() == n,
            forall|i: int| 0 <= i < n ==> #[trigger] pv[i] == node_view(orig[i]),
            slots@.len() + prev@.len() == n,
            prev@ == orig.take(prev@.len() as int),
            forall|j: int|
                0 <= j < slots@.len() ==> #[trigger] slots@[j] == Some(orig[n - 1 - j]),
        decreases prev@.len(),
    {
        let x = prev.pop().unwrap();
        slots.push(Some(x));
        proof {
            assert(prev@ =~= orig.take(prev@.len() as int));
        }
    }
    let ghost es = entries_view(entries@);
    let mut out: Vec<TreeNode> = Vec::new();
    let mut k: usize = 0;
    proof {
        assert(es.take(0) =~= Seq::<EntryView>::empty());
        assert(entries_view(entries@).len() == entries@.len());
    }
    while k < entries.len()
        invariant
            n == orig.len(),
            pv.len() == n,
            forall|i: int| 0 <= i < n ==> #[trigger] pv[i] == node_view(orig[i]),
            es == entries_view(entries@),
            es.len() == entries@.len(),
            k <= entries@.len(),
            slots@.len() == n,
            out@.len() == admitted_spec(es.take(k as int), filter).len(),
            forall|m: int|
                0 <= m < out@.len() ==> #[trigger] node_view(out@[m]) == rebuilt_child(
                    pv,
                    admitted_spec(es.take(k as int), filter),
                    m,
                ),
            forall|m: int|
                0 <= m < out@.len() ==> #[trigger] out@[m].path@ == admitted_spec(
                    es.take(k as int),
                    filter,
                )[m].path,
            forall|j: int|
                0 <= j < n ==> (#[trigger] slots@[j] is Some ==> node_view(slots@[j]->0) == pv[n
                    - 1 - j]),
            forall|j: int|
                0 <= j < n ==> (#[trigger] slots@[j] is None ==> exists|m: int|
                    0 <= m < out@.len() && #[trigger] out@[m].path@ == pv[n - 1 - j].path),
        decreases entries@.len() - k,
    {
        let ghost adm = admitted_spec(es.take(k as int), filter);
        proof {
            lemma_admitted_step(es, k as int, filter);
            assert(es[k as int] == entries@[k as int]@);
        }
        let e = &entries[k];
        if filter.admits(e) {
            let ghost adm2 = adm.push(es[k as int]);
            let ghost m0 = out@.len() as int;
            let dup = has_path(&out, &e.path);
            let ghost mut taken_j: int = -1;
            let ghost slots_before = slots@;
            let ghost out_before = out@;
            let child: TreeNode;
            if dup {
                child = TreeNode::from_entry(e);
                proof {
                    let m = choose|m: int| 0 <= m < out@.len() && #[trigger] out@[m].path@
                        == e.path@;
                    assert(adm2[m].path == adm2[m0].path);
                    assert(rebuilt_child(pv, adm2, m0) == fresh_spec(es[k as int]));
                }
            } else {
                match find_slot(&slots, &e.path) {
                    Some(j) => {
                        let ghost slots0 = slots@;
                        let taken = slots[j].take();
                        child = taken.unwrap();
                        proof {
                            taken_j = j as int;
                            let p = es[k as int].path;
                            lemma_last_with_path(pv, p);
                            let q = n - 1 - j;
                            assert(pv[q].path == p);
                            assert forall|i: int| q < i < n implies #[trigger] pv[i].path != p by {
                                let jj = n - 1 - i;
                                assert(n - 1 - jj == i);
                                if slots0[jj] is None && pv[i].path == p {
                                    let m = choose|m: int|
                                        0 <= m < out@.len() && #[trigger] out@[m].path@ == pv[n - 1
                                            - jj].path;
                                    assert(out@[m].path@ == e.path@);
                                }
                            }
                            assert(last_with_path(pv, p) == Some(q));
                            assert forall|jx: int| 0 <= jx < m0 implies #[trigger] adm2[jx].path
                                != adm2[m0].path by {
                                assert(out@[jx].path@ == adm[jx].path);
                            }
                            assert(rebuilt_child(pv, adm2, m0) == pv[q]);
                        }
                    },
                    None => {
                        child = TreeNode::from_entry(e);
                        proof {
                            let p = es[k as int].path;
                            lemma_last_with_path(pv, p);
                            assert forall|i: int| 0 <= i < n implies #[trigger] pv[i].path != p by {
                                let jj = n - 1 - i;
                                assert(n - 1 - jj == i);
                                if slots@[jj] is None && pv[i].path == p {
                                    let m = choose|m: int|
                                        0 <= m < out@.len() && #[trigger] out@[m].path@ == pv[n - 1
                                            - jj].path;
                                    assert(out@[m].path@ == e.path@);
                                }
                            }
                            assert(last_with_path(pv, p) is None);
                            assert(rebuilt_child(pv, adm2, m0) == fresh_spec(es[k as int]));
                        }
                    },
                }
            }
            out.push(child);
            proof {
                assert forall|jx: int| 0 <= jx < n && #[trigger] slots@[jx] is None implies exists|
                    m: int|
                    0 <= m < out@.len() && #[trigger] out@[m].path@ == pv[n - 1 - jx].path by {
                    if jx == taken_j {
                        assert(out@[m0].path@ == pv[n - 1 - jx].path);
                    } else {
                        assert(slots_before[jx] is None);
                        let m = choose|m: int|
                            0 <= m < out_before.len() && #[trigger] out_before[m].path@ == pv[n - 1
                                - jx].path;
                        assert(out@[m] == out_before[m]);
                    }
                }
                assert forall|m: int| 0 <= m < out@.len() implies #[trigger] node_view(out@[m])
                    == rebuilt_child(pv, adm2, m) by {
                    if m < m0 {
                        lemma_rebuilt_child_push(pv, adm, es[k as int], m);
                    }
                }
            }
        }
        k = k + 1;
    }
    proof {
        assert(es.take(entries@.len() as int) =~= es);
        lemma_children_view(out@);
        assert(children_view(out@) =~= rebuild_spec(pv, es, filter));
    }
    node.children = out;
}

/// Whether `n` re-derives its child list from the cache on a filter
/// change: a loaded directory without error whose scan is cached.
pub open spec fn refreshes_at(n: NodeView, cache: Map<Seq<Seq<u8>>, CachedView>) -> bool {
    n.is_dir && n.is_loaded && n.error is None && cache.contains_key(n.path)
}

/// The subtree `n` with every loaded directory's child list re-derived
/// from the cache under filter `f`.
pub open spec fn refresh_spec(
    n: NodeView,
    cache: Map<Seq<Seq<u8>>, CachedView>,
    f: DisplayFilter,
) -> NodeView
    decreases n,
{
    let kids = refresh_list(n.children, cache, f);
    if refreshes_at(n, cache) {
        NodeView { children: rebuild_spec(kids, cache[n.path].entries, f), ..n }
    } else {
        NodeView { children: kids, ..n }
    }
}

/// [`refresh_spec`] applied to each node of a list.
pub open spec fn refresh_list(
    s: Seq<NodeView>,
    cache: Map<Seq<Seq<u8>>, CachedView>,
    f: DisplayFilter,
) -> Seq<NodeView>
    decreases s,
{
    if s.len() == 0 {
        Seq::empty()
    } else {
        refresh_list(s.drop_last(), cache, f).push(refresh_spec(s.last(), cache, f))
    }
}

pub proof fn lemma_refresh_list(
    s: Seq<NodeView>,
    cache: Map<Seq<Seq<u8>>, CachedView>,
    f: DisplayFilter,
)
    ensures
        refresh_list(s, cache, f).len() == s.len(),
        forall|i: int|
            0 <= i < s.len() ==> #[trigger] refresh_list(s, cache, f)[i] == refresh_spec(
                s[i],
                cache,
                f,
            ),
    decreases s.len(),
{
    if s.len() > 0 {
        lemma_refresh_list(s.drop_last(), cache, f);
    }
}

/// Re-derive the child list of every loaded directory in `node`'s
/// subtree from the cache, under `filter`. Pure in-memory work.
pub fn refresh_from_cache(node: &mut TreeNode, cache: &TreeCache, filter: DisplayFilter)
    requires
        cache.wf(),
    ensures
        final(node)@ == refresh_spec(old(node)@, cache@, filter),
    decreases *old(node),
{
    let ghost old_children = node.children@;
    let ghost ov = node_view(*node);
    proof {
        lemma_children_view(old_children);
    }
    let len = node.children.len();
    let mut i: usize = 0;
    while i < len
        invariant
            cache.wf(),
            len == node.children@.len(),
            len == old_children.len(),
            i <= len,
            ov == old(node)@,
            ov.children == children_view(old_children),
            node.path@ == old(node).path@,
            node.is_dir == old(node).is_dir,
            node.is_loaded == old(node).is_loaded,
            node.is_expanded == old(node).is_expanded,
            node.is_selected == old(node).is_selected,
            error_view(node.error) == error_view(old(node).error),
            forall|j: int| i <= j < len ==> #[trigger] node.children@[j] == old_children[j],
            forall|j: int|
                0 <= j < i ==> #[trigger] node_view(node.children@[j]) == refresh_spec(
                    node_view(old_children[j]),
                    cache@,
                    filter,
                ),
            old_children == old(node).children@,
        decreases len - i,
    {
        proof {
            assert(decreases_to!(*old(node) => old(node).children@[i as int]));
        }
        let ghost before = node.children@;
        let c = &mut node.children[i];
        refresh_from_cache(c, cache, filter);
        proof {
            assert(node.children@ == before.update(i as int, node.children@[i as int]));
        }
        i = i + 1;
    }
    proof {
        lemma_children_view(node.children@);
        lemma_refresh_list(ov.children, cache@, filter);
        assert(children_view(node.children@) =~= refresh_list(ov.children, cache@, filter));
    }
    if node.is_dir && node.is_loaded && node.error.is_none() {
        match cache.get(&node.path) {
            Some(cached) => {
                rebuild_children(node, &cached.entries, filter);
            },
            None => {},
        }
    }
}
} // verus!
