//! Widget configuration: display filter modes and the per-tree settings.

use vstd::prelude::*;
use vstd::string::StringSliceAdditionalSpecFns;

use crate::entry::{EntryView, LoadedEntry};
use crate::path::{bytes_of_str, copy_bytes, TreePath};

verus! {

/// Which scanned entries become visible tree nodes.
///
/// Switching the mode at runtime through `DirectoryTree::set_filter` is
/// instant: child lists are re-derived from the raw entries kept in the
/// cache.
#[derive(Debug, Clone, Copy, PartialEq, Eq, Structural)]
pub enum DisplayFilter {
    /// Non-hidden directories only. A hidden directory is hidden under
    /// this mode too.
    FoldersOnly,
    /// Non-hidden files and directories. The default.
    FilesAndFolders,
    /// Everything the scan returned, hidden entries included.
    AllIncludingHidden,
}

impl Default for DisplayFilter {
    fn default() -> (r: DisplayFilter)
        ensures
            r == DisplayFilter::FilesAndFolders,
    {
        DisplayFilter::FilesAndFolders
    }
}

/// Whether `e` survives filter `f`.
pub open spec fn admits_spec(f: DisplayFilter, e: EntryView) -> bool {
    match f {
        DisplayFilter::FoldersOnly => e.is_dir && !e.is_hidden,
        DisplayFilter::FilesAndFolders => !e.is_hidden,
        DisplayFilter::AllIncludingHidden => true,
    }
}

impl DisplayFilter {
    /// `true` if `entry` survives this filter mode. The filter applies to
    /// children only; the root node is always visible.
    pub fn admits(self, entry: &LoadedEntry) -> (r: bool)
        ensures
            r == admits_spec(self, entry@),
    {
        match self {
            DisplayFilter::FoldersOnly => entry.is_dir && !entry.is_hidden,
            DisplayFilter::FilesAndFolders => !entry.is_hidden,
            DisplayFilter::AllIncludingHidden => true,
        }
    }
}

/// The directory basenames skipped by prefetch unless the application
/// supplies its own list: version-control metadata and build or
/// dependency caches, which are large and rarely browsed.
pub open spec fn default_skip_spec() -> Seq<Seq<u8>> {
    seq![
        ".git".spec_bytes(),
        ".hg".spec_bytes(),
        ".svn".spec_bytes(),
        "node_modules".spec_bytes(),
        "target".spec_bytes(),
        "__pycache__".spec_bytes(),
    ]
}

/// The default prefetch skip list (see [`default_skip_spec`]).
pub fn default_prefetch_skip() -> (r: Vec<Vec<u8>>)
    ensures
        r@.map_values(|c: Vec<u8>| c@) == default_skip_spec(),
{
    let mut v: Vec<Vec<u8>> = Vec::new();
    v.push(bytes_of_str(".git"));
    v.push(bytes_of_str(".hg"));
    v.push(bytes_of_str(".svn"));
    v.push(bytes_of_str("node_modules"));
    v.push(bytes_of_str("target"));
    v.push(bytes_of_str("__pycache__"));
    proof {
        assert(v@.map_values(|c: Vec<u8>| c@) =~= default_skip_spec());
    }
    v
}

/// Settings fixed at construction or changed by the application at
/// runtime.
#[derive(Debug, Clone, PartialEq, Eq)]
pub struct TreeConfig {
    /// The mounted root. The tree never navigates above it.
    pub root_path: TreePath,
    /// Active display filter.
    pub filter: DisplayFilter,
    /// Maximum load depth in components below the root; `None` is
    /// unbounded. `Some(0)` means only the root's direct children are
    /// ever loaded.
    pub max_depth: Option<u32>,
    /// Maximum number of speculative child scans issued after a
    /// user-initiated scan completes; `0` disables prefetch.
    pub prefetch_per_parent: usize,
    /// Directory basenames never prefetched (ASCII case-insensitive).
    pub prefetch_skip: Vec<Vec<u8>>,
}

impl TreeConfig {
    /// A copy of this configuration.
    pub fn copy(&self) -> (r: TreeConfig)
        ensures
            r.root_path@ == self.root_path@,
            r.filter == self.filter,
            r.max_depth == self.max_depth,
            r.prefetch_per_parent == self.prefetch_per_parent,
            r.prefetch_skip@.map_values(|c: Vec<u8>| c@) == self.prefetch_skip@.map_values(
                |c: Vec<u8>| c@,
            ),
    {
        let mut skip: Vec<Vec<u8>> = Vec::new();
        let mut i: usize = 0;
        while i < self.prefetch_skip.len()
            invariant
                i <= self.prefetch_skip@.len(),
                skip@.map_values(|c: Vec<u8>| c@) == self.prefetch_skip@.subrange(
                    0,
                    i as int,
                ).map_values(|c: Vec<u8>| c@),
            decreases self.prefetch_skip@.len() - i,
        {
            let c = copy_bytes(&self.prefetch_skip[i]);
            proof {
                assert(skip@.push(c).map_values(|c: Vec<u8>| c@) =~= skip@.map_values(
                    |c: Vec<u8>| c@,
                ).push(c@));
                assert(self.prefetch_skip@.subrange(0, i + 1).map_values(|c: Vec<u8>| c@)
                    =~= self.prefetch_skip@.subrange(0, i as int).map_values(|c: Vec<u8>| c@).push(
                    self.prefetch_skip@[i as int]@,
                ));
            }
            skip.push(c);
            i = i + 1;
        }
        proof {
            assert(self.prefetch_skip@.subrange(0, self.prefetch_skip@.len() as int)
                =~= self.prefetch_skip@);
        }
        TreeConfig {
            root_path: self.root_path.copy(),
            filter: self.filter,
            max_depth: self.max_depth,
            prefetch_per_parent: self.prefetch_per_parent,
            prefetch_skip: skip,
        }
    }

    /// Configuration with the default filter, unbounded depth, and
    /// prefetch disabled.
    pub fn new(root_path: TreePath) -> (r: TreeConfig)
        ensures
            r.root_path@ == root_path@,
            r.filter == DisplayFilter::FilesAndFolders,
            r.max_depth is None,
            r.prefetch_per_parent == 0,
            r.prefetch_skip@.map_values(|c: Vec<u8>| c@) == default_skip_spec(),
    {
        TreeConfig {
            root_path,
            filter: DisplayFilter::FilesAndFolders,
            max_depth: None,
            prefetch_per_parent: 0,
            prefetch_skip: default_prefetch_skip(),
        }
    }
}

} // verus!
