//! Incremental search over the already-loaded node graph.
//!
//! Search never triggers I/O: it filters the currently loaded tree. A
//! node matches when its basename, read as (lossily decoded) text and
//! ASCII-lower-cased, contains the lower-cased query. The visible set is
//! every match together with every ancestor of a match; collapsed
//! subtrees are searched too.

use vstd::prelude::*;
use vstd::utf8::{decode_utf8_encode_utf8, valid_utf8};

use crate::node::{children_view, lemma_children_view, node_view, NodeView, TreeNode};
use crate::path::{
    bytes_eq, contains_seq, copy_bytes, copy_paths, file_name_spec, lower_seq, lossy_text, paths_contain, paths_view, text_contains, text_from_bytes,
    same_path_set, text_matches, TreePath,
};

verus! {

/// Active search session held on the tree. Two sessions are equal when
/// their queries, counts and sets of visible paths are.
#[derive(Debug, Clone, Eq)]
pub struct SearchState {
    /// Query as provided by the application (its own casing).
    pub query: String,
    /// The query's bytes, ASCII-lower-cased: what comparisons use.
    pub query_lower: Vec<u8>,
    /// Paths visible in search mode: direct matches and their ancestors,
    /// each once.
    pub visible_paths: Vec<TreePath>,
    /// Count of direct matches only; ancestors shown for context are not
    /// counted.
    pub match_count: usize,
}

impl SearchState {
    /// A copy of this search session.
    pub fn copy(&self) -> (r: SearchState)
        ensures
            r.query@ == self.query@,
            r.query_lower@ == self.query_lower@,
            paths_view(r.visible_paths@) == paths_view(self.visible_paths@),
            r.match_count == self.match_count,
    {
        SearchState {
            query: self.query.clone(),
            query_lower: copy_bytes(&self.query_lower),
            visible_paths: copy_paths(&self.visible_paths),
            match_count: self.match_count,
        }
    }
}

/// Whether the basename of `n`, ASCII-lower-cased, contains the
/// lower-case query `q`. A basename that is not valid UTF-8 is first read
/// as text the way `String::from_utf8_lossy` reads it (for valid UTF-8
/// both readings are the same bytes).
pub open spec fn self_matches(n: NodeView, q: Seq<u8>) -> bool {
    let name = file_name_spec(n.path);
    if valid_utf8(name) {
        contains_seq(lower_seq(name), q)
    } else {
        text_contains(lossy_text(name), q)
    }
}

/// Whether the subtree `n` contains a match.
pub open spec fn subtree_matches(n: NodeView, q: Seq<u8>) -> bool
    decreases n,
{
    self_matches(n, q) || any_subtree_matches(n.children, q)
}

/// Whether some subtree of the list contains a match.
pub open spec fn any_subtree_matches(s: Seq<NodeView>, q: Seq<u8>) -> bool
    decreases s,
{
    s.len() > 0 && (any_subtree_matches(s.drop_last(), q) || subtree_matches(s.last(), q))
}

/// Number of direct matches in the subtree `n`.
pub open spec fn match_count_spec(n: NodeView, q: Seq<u8>) -> nat
    decreases n,
{
    (if self_matches(n, q) {
        1nat
    } else {
        0nat
    }) + match_count_list(n.children, q)
}

/// Number of direct matches in the subtrees of a list.
pub open spec fn match_count_list(s: Seq<NodeView>, q: Seq<u8>) -> nat
    decreases s,
{
    if s.len() == 0 {
        0
    } else {
        match_count_list(s.drop_last(), q) + match_count_spec(s.last(), q)
    }
}

/// Paths of the subtree `n` visible in search mode: each node whose
/// subtree contains a match.
pub open spec fn visible_set(n: NodeView, q: Seq<u8>) -> Set<Seq<Seq<u8>>>
    decreases n,
{
    let below = visible_set_list(n.children, q);
    if subtree_matches(n, q) {
        below.insert(n.path)
    } else {
        below
    }
}

/// Union of [`visible_set`] over a list.
pub open spec fn visible_set_list(s: Seq<NodeView>, q: Seq<u8>) -> Set<Seq<Seq<u8>>>
    decreases s,
{
    if s.len() == 0 {
        Set::empty()
    } else {
        visible_set_list(s.drop_last(), q).union(visible_set(s.last(), q))
    }
}

/// `a + b`, or `usize::MAX` when that does not fit.
pub open spec fn sat_add(a: int, b: int) -> int {
    if a + b <= usize::MAX {
        a + b
    } else {
        usize::MAX as int
    }
}

/// Walk `node` and its loaded descendants, adding to `visible` every
/// matching path and every ancestor of a match, and counting direct
/// matches into `match_count` (saturating at `usize::MAX`). Returns
/// `true` iff the subtree contains a match. Expansion state is ignored:
/// collapsed subtrees are searched too.
pub fn walk_for_search(
    node: &TreeNode,
    query_lower: &Vec<u8>,
    visible: &mut Vec<TreePath>,
    match_count: &mut usize,
) -> (r: bool)
    requires
        paths_view(old(visible)@).no_duplicates(),
    ensures
        r == subtree_matches(node@, query_lower@),
        paths_view(final(visible)@).no_duplicates(),
        paths_view(final(visible)@).to_set() == paths_view(old(visible)@).to_set().union(
            visible_set(node@, query_lower@),
        ),
        *final(match_count) == sat_add(
            *old(match_count) as int,
            match_count_spec(node@, query_lower@) as int,
        ),
    decreases node,
{
    let ghost q = query_lower@;
    let name = node.file_name();
    let text = text_from_bytes(&name);
    let self_match = text_matches(text.as_str(), query_lower);
    proof {
        if valid_utf8(name@) {
            decode_utf8_encode_utf8(name@);
        }
    }
    if self_match {
        if *match_count < usize::MAX {
            *match_count = *match_count + 1;
        }
    }
    let ghost count_after_self = *match_count;
    let ghost visible_start = paths_view(visible@).to_set();
    let ghost cs = children_view(node.children@);
    proof {
        lemma_children_view(node.children@);
    }
    let mut descendant = false;
    let mut i: usize = 0;
    while i < node.children.len()
        invariant
            i <= node.children@.len(),
            cs == children_view(node.children@),
            cs.len() == node.children@.len(),
            forall|j: int| 0 <= j < cs.len() ==> #[trigger] cs[j] == node_view(node.children@[j]),
            q == query_lower@,
            paths_view(visible@).no_duplicates(),
            paths_view(visible@).to_set() == visible_start.union(
                visible_set_list(cs.take(i as int), q),
            ),
            descendant == any_subtree_matches(cs.take(i as int), q),
            *match_count == sat_add(count_after_self as int, match_count_list(cs.take(i as int), q) as int),
        decreases node.children@.len() - i,
    {
        proof {
            assert(decreases_to!(node => node.children@[i as int]));
            assert(cs.take(i + 1).drop_last() =~= cs.take(i as int));
            assert(cs.take(i + 1).last() == cs[i as int]);
        }
        let ghost before = paths_view(visible@).to_set();
        let ghost count_before = *match_count;
        let found = walk_for_search(&node.children[i], query_lower, visible, match_count);
        if found {
            descendant = true;
        }
        proof {
            assert(paths_view(visible@).to_set() =~= visible_start.union(
                visible_set_list(cs.take(i + 1), q),
            ));
        }
        i = i + 1;
    }
    proof {
        assert(cs.take(cs.len() as int) =~= cs);
    }
    let has_visible = self_match || descendant;
    if has_visible {
        if !paths_contain(visible, &node.path) {
            let ghost before = visible@;
            let p = node.path.copy();
            visible.push(p);
            proof {
                assert(paths_view(visible@) =~= paths_view(before) + seq![node.path@]);
                Seq::lemma_to_set_insert_commutes(paths_view(before), node.path@);
            }
        }
    }
    proof {
        assert(node@.children == cs);
        assert(self_match == self_matches(node@, q));
        assert(has_visible == subtree_matches(node@, q));
        if has_visible {
            assert(paths_view(visible@).to_set().contains(node.path@));
        }
        assert(paths_view(visible@).to_set() =~= paths_view(old(visible)@).to_set().union(
            visible_set(node@, q),
        ));
    }
    has_visible
}

impl PartialEq for SearchState {
    fn eq(&self, other: &SearchState) -> (r: bool) {
        self.query == other.query && bytes_eq(&self.query_lower, &other.query_lower) && self.match_count
            == other.match_count && same_path_set(&self.visible_paths, &other.visible_paths)
    }
}

impl vstd::std_specs::cmp::PartialEqSpecImpl for SearchState {
    open spec fn obeys_eq_spec() -> bool {
        true
    }

    open spec fn eq_spec(&self, other: &SearchState) -> bool {
        &&& self.query@ == other.query@
        &&& self.query_lower@ == other.query_lower@
        &&& self.match_count == other.match_count
        &&& paths_view(self.visible_paths@).to_set() == paths_view(other.visible_paths@).to_set()
    }
}

} // verus!
