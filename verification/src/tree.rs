//! The widget root: all state, all accessors, and the entry points the
//! embedding layer calls. State transitions live in `transitions`.
//!
//! The tree owns UI state only: which folders are open, what has loaded,
//! the active filter, the selection, an active drag or search, and the
//! registry of speculative scans in flight. It never touches the disk.

use vstd::prelude::*;
use vstd::string::StringSliceAdditionalSpecFns;

pub mod rows;
pub mod transitions;
pub mod laws;

use crate::cache::{CachedView, TreeCache};
use crate::config::{default_skip_spec, DisplayFilter, TreeConfig};
use crate::drag::{copy_opt_path, opt_path_view, DragState, DragView};
use crate::node::{find_spec, NodeView, TreeNode};
use crate::path::{bytes_of_str, copy_paths, depth_below_spec, paths_view, PathSet, TreePath};
use crate::search::SearchState;
use crate::selection::{flags_synced, lemma_synced_list_all};

verus! {

/// The directory-tree widget state.
#[derive(Debug, PartialEq, Eq)]
pub struct DirectoryTree {
    pub(crate) root: TreeNode,
    pub(crate) config: TreeConfig,
    pub(crate) cache: TreeCache,
    pub(crate) generation: u32,
    pub(crate) selected_paths: Vec<TreePath>,
    pub(crate) active_path: Option<TreePath>,
    pub(crate) anchor_path: Option<TreePath>,
    pub(crate) drag: Option<DragState>,
    pub(crate) search: Option<SearchState>,
    pub(crate) prefetching_paths: PathSet,
}

/// The mathematical value of an active search.
pub struct SearchView {
    pub query: Seq<char>,
    pub query_lower: Seq<u8>,
    pub visible: Set<Seq<Seq<u8>>>,
    pub match_count: usize,
}

/// The value of an optional search session.
pub open spec fn search_view(s: Option<SearchState>) -> Option<SearchView> {
    match s {
        Some(st) => Some(
            SearchView {
                query: st.query@,
                query_lower: st.query_lower@,
                visible: paths_view(st.visible_paths@).to_set(),
                match_count: st.match_count,
            },
        ),
        None => None,
    }
}

/// The value of an optional drag session.
pub open spec fn drag_view(d: Option<DragState>) -> Option<DragView> {
    match d {
        Some(st) => Some(st@),
        None => None,
    }
}

/// The mathematical value of the whole widget state.
pub struct TreeView {
    /// The node graph.
    pub root: NodeView,
    /// The mounted root path.
    pub root_path: Seq<Seq<u8>>,
    /// The active display filter.
    pub filter: DisplayFilter,
    /// The load-depth cap.
    pub max_depth: Option<u32>,
    /// Speculative scans issued per user-initiated scan.
    pub prefetch_per_parent: usize,
    /// Basenames never prefetched.
    pub prefetch_skip: Seq<Seq<u8>>,
    /// Raw accepted scan results by path.
    pub cache: Map<Seq<Seq<u8>>, CachedView>,
    /// The scan generation counter.
    pub generation: u32,
    /// Selected paths in insertion order.
    pub selected: Seq<Seq<Seq<u8>>>,
    /// The most recently touched path.
    pub active: Option<Seq<Seq<u8>>>,
    /// The pivot of range selection.
    pub anchor: Option<Seq<Seq<u8>>>,
    /// The active drag session.
    pub drag: Option<DragView>,
    /// The active search.
    pub search: Option<SearchView>,
    /// Paths whose speculative scan is in flight.
    pub prefetching: Set<Seq<Seq<u8>>>,
}

impl View for DirectoryTree {
    type V = TreeView;

    closed spec fn view(&self) -> TreeView {
        TreeView {
            root: self.root@,
            root_path: self.config.root_path@,
            filter: self.config.filter,
            max_depth: self.config.max_depth,
            prefetch_per_parent: self.config.prefetch_per_parent,
            prefetch_skip: self.config.prefetch_skip@.map_values(|c: Vec<u8>| c@),
            cache: self.cache@,
            generation: self.generation,
            selected: paths_view(self.selected_paths@),
            active: opt_path_view(self.active_path),
            anchor: opt_path_view(self.anchor_path),
            drag: drag_view(self.drag),
            search: search_view(self.search),
            prefetching: paths_view(self.prefetching_paths.paths@).to_set(),
        }
    }
}

/// The root view of a freshly mounted tree.
pub open spec fn fresh_root_view(root_path: Seq<Seq<u8>>) -> NodeView {
    NodeView {
        path: root_path,
        is_dir: true,
        is_expanded: false,
        is_loaded: false,
        is_selected: false,
        children: Seq::empty(),
        error: None,
    }
}

impl DirectoryTree {
    /// The tree's internal invariant.
    pub closed spec fn wf(&self) -> bool {
        &&& self.cache.wf()
        &&& paths_view(self.prefetching_paths.paths@).no_duplicates()
        &&& (self.search matches Some(s) ==> paths_view(s.visible_paths@).no_duplicates())
        &&& flags_synced(self@.root, self@.selected)
    }

    /// Mount a tree at `root_path`. The root node is created eagerly and
    /// is never removed; loading it still requires the first expansion.
    pub fn new(root_path: TreePath) -> (r: DirectoryTree)
        ensures
            r.wf(),
            r@.root == fresh_root_view(root_path@),
            r@.root_path == root_path@,
            r@.filter == DisplayFilter::FilesAndFolders,
            r@.max_depth is None,
            r@.prefetch_per_parent == 0,
            r@.prefetch_skip == default_skip_spec(),
            r@.cache == Map::<Seq<Seq<u8>>, CachedView>::empty(),
            r@.generation == 0,
            r@.selected.len() == 0,
            r@.active is None,
            r@.anchor is None,
            r@.drag is None,
            r@.search is None,
            r@.prefetching == Set::<Seq<Seq<u8>>>::empty(),
    {
        let root = TreeNode::new_root(root_path.copy());
        let config = TreeConfig::new(root_path);
        let r = DirectoryTree {
            root,
            config,
            cache: TreeCache::new(),
            generation: 0,
            selected_paths: Vec::new(),
            active_path: None,
            anchor_path: None,
            drag: None,
            search: None,
            prefetching_paths: PathSet { paths: Vec::new() },
        };
        proof {
            assert(paths_view(r.prefetching_paths.paths@) =~= Seq::empty());
            assert(paths_view(r.prefetching_paths.paths@).to_set() =~= Set::empty());
            assert(paths_view(r.selected_paths@) =~= Seq::empty());
            lemma_synced_list_all(r@.root.children, r@.selected);
        }
        r
    }

    /// Builder: set the initial display filter.
    pub fn with_filter(self, filter: DisplayFilter) -> (r: DirectoryTree)
        requires
            self.wf(),
        ensures
            r.wf(),
            r@ == (TreeView { filter, ..self@ }),
    {
        let mut s = self;
        s.config.filter = filter;
        s
    }

    /// Builder: cap the load depth (components below the root; `0` means
    /// only the root's direct children are ever loaded).
    pub fn with_max_depth(self, max_depth: u32) -> (r: DirectoryTree)
        requires
            self.wf(),
        ensures
            r.wf(),
            r@ == (TreeView { max_depth: Some(max_depth), ..self@ }),
    {
        let mut s = self;
        s.config.max_depth = Some(max_depth);
        s
    }

    /// Builder: issue up to `limit` speculative scans of direct
    /// sub-directories after each user-initiated scan completes
    /// (`0` disables prefetch).
    pub fn with_prefetch_limit(self, limit: usize) -> (r: DirectoryTree)
        requires
            self.wf(),
        ensures
            r.wf(),
            r@ == (TreeView { prefetch_per_parent: limit, ..self@ }),
    {
        let mut s = self;
        s.config.prefetch_per_parent = limit;
        s
    }

    /// Builder: replace the list of directory basenames never prefetched
    /// (compared ASCII case-insensitively).
    pub fn with_prefetch_skip(self, names: &[&str]) -> (r: DirectoryTree)
        requires
            self.wf(),
        ensures
            r.wf(),
            r@ == (TreeView {
                prefetch_skip: names@.map_values(|s: &str| s.spec_bytes()),
                ..self@
            }),
    {
        let mut skip: Vec<Vec<u8>> = Vec::new();
        let mut i: usize = 0;
        while i < names.len()
            invariant
                i <= names@.len(),
                skip@.map_values(|c: Vec<u8>| c@) == names@.subrange(0, i as int).map_values(
                    |s: &str| s.spec_bytes(),
                ),
            decreases names@.len() - i,
        {
            let b = bytes_of_str(names[i]);
            proof {
                assert(skip@.push(b).map_values(|c: Vec<u8>| c@) =~= skip@.map_values(
                    |c: Vec<u8>| c@,
                ).push(b@));
                assert(names@.subrange(0, i + 1).map_values(|s: &str| s.spec_bytes())
                    =~= names@.subrange(0, i as int).map_values(|s: &str| s.spec_bytes()).push(
                    names@[i as int].spec_bytes(),
                ));
            }
            skip.push(b);
            i = i + 1;
        }
        proof {
            assert(names@.subrange(0, names@.len() as int) =~= names@);
        }
        let mut s = self;
        s.config.prefetch_skip = skip;
        s
    }

    /// The root node. Always present.
    pub fn root(&self) -> (r: &TreeNode)
        ensures
            r@ == self@.root,
    {
        &self.root
    }

    /// Current configuration.
    pub fn config(&self) -> (r: &TreeConfig)
        ensures
            r.root_path@ == self@.root_path,
            r.filter == self@.filter,
            r.max_depth == self@.max_depth,
            r.prefetch_per_parent == self@.prefetch_per_parent,
            r.prefetch_skip@.map_values(|c: Vec<u8>| c@) == self@.prefetch_skip,
    {
        &self.config
    }

    /// Current display filter.
    pub fn filter(&self) -> (r: DisplayFilter)
        ensures
            r == self@.filter,
    {
        self.config.filter
    }

    /// Current generation counter.
    pub fn generation(&self) -> (r: u32)
        ensures
            r == self@.generation,
    {
        self.generation
    }

    /// Raw scan results accepted so far.
    pub fn cache(&self) -> (r: &TreeCache)
        requires
            self.wf(),
        ensures
            r.wf(),
            r@ == self@.cache,
    {
        &self.cache
    }

    /// Find the node for `path`, if it is currently in the tree.
    pub fn find(&self, path: &TreePath) -> (r: Option<&TreeNode>)
        ensures
            match r {
                Some(n) => find_spec(self@.root, path@) == Some(n@),
                None => find_spec(self@.root, path@) is None,
            },
    {
        self.root.find(path)
    }

    /// Depth of `path` below the root in components; `None` if `path` is
    /// not the root or under it. The root itself is depth `0`.
    pub fn depth_of(&self, path: &TreePath) -> (r: Option<u32>)
        ensures
            r == depth_below_spec(path@, self@.root_path),
    {
        path.depth_below(&self.config.root_path)
    }

    /// The selected paths, in insertion order.
    pub fn selected_paths(&self) -> (r: &[TreePath])
        ensures
            paths_view(r@) == self@.selected,
    {
        self.selected_paths.as_slice()
    }

    /// The active path: the most recently touched row, which is not
    /// necessarily the last selected one.
    pub fn selected_path(&self) -> (r: Option<&TreePath>)
        ensures
            match r {
                Some(p) => self@.active == Some(p@),
                None => self@.active is None,
            },
    {
        match &self.active_path {
            Some(p) => Some(p),
            None => None,
        }
    }

    /// `true` iff `path` is in the selection set.
    pub fn is_selected(&self, path: &TreePath) -> (r: bool)
        ensures
            r == self@.selected.contains(path@),
    {
        crate::path::paths_contain(&self.selected_paths, path)
    }

    /// The active drag session, if any.
    pub fn drag_state(&self) -> (r: Option<&DragState>)
        ensures
            match r {
                Some(d) => self@.drag == Some(d@),
                None => self@.drag is None,
            },
    {
        match &self.drag {
            Some(d) => Some(d),
            None => None,
        }
    }

    /// The active search session, if any.
    pub fn search_state(&self) -> (r: Option<&SearchState>)
        ensures
            match r {
                Some(s) => search_view(Some(*s)) == self@.search,
                None => self@.search is None,
            },
    {
        match &self.search {
            Some(s) => Some(s),
            None => None,
        }
    }

    /// The current search query, if a search is active.
    pub fn search_query(&self) -> (r: Option<&str>)
        ensures
            match r {
                Some(q) => self@.search matches Some(s) && q@ == s.query,
                None => self@.search is None,
            },
    {
        match &self.search {
            Some(s) => Some(s.query.as_str()),
            None => None,
        }
    }

    /// Number of direct matches of the active search; `0` without one.
    pub fn search_match_count(&self) -> (r: usize)
        ensures
            r == match self@.search {
                Some(s) => s.match_count,
                None => 0,
            },
    {
        match &self.search {
            Some(s) => s.match_count,
            None => 0,
        }
    }

    /// Paths whose speculative scan is in flight, each once.
    pub fn prefetching_paths(&self) -> (r: &[TreePath])
        requires
            self.wf(),
        ensures
            paths_view(r@).to_set() == self@.prefetching,
            paths_view(r@).no_duplicates(),
    {
        self.prefetching_paths.paths.as_slice()
    }
}

impl DirectoryTree {
    /// A deep copy of the whole widget state.
    pub fn copy(&self) -> (r: DirectoryTree)
        ensures
            r@ == self@,
            self.wf() ==> r.wf(),
    {
        let search = match &self.search {
            Some(st) => Some(st.copy()),
            None => None,
        };
        let drag = match &self.drag {
            Some(d) => Some(d.copy()),
            None => None,
        };
        let r = DirectoryTree {
            root: self.root.copy(),
            config: self.config.copy(),
            cache: self.cache.copy(),
            generation: self.generation,
            selected_paths: copy_paths(&self.selected_paths),
            active_path: copy_opt_path(&self.active_path),
            anchor_path: copy_opt_path(&self.anchor_path),
            drag,
            search,
            prefetching_paths: PathSet { paths: copy_paths(&self.prefetching_paths.paths) },
        };
        proof {
            assert(search_view(r.search) == search_view(self.search));
            assert(r@ == self@);
        }
        r
    }
}

impl Clone for DirectoryTree {
    fn clone(&self) -> (r: DirectoryTree)
        ensures
            r@ == self@,
            self.wf() ==> r.wf(),
    {
        self.copy()
    }
}

/// In every tree that the public operations produce, each node's
/// selection flag tells whether its path is selected.
pub proof fn law_flags_in_step(t: &DirectoryTree)
    requires
        t.wf(),
    ensures
        flags_synced(t@.root, t@.selected),
{
}

} // verus!
