//! One scanned directory entry, reduced to what the tree model needs.
//!
//! Hiddenness is decided once, when the scan result is converted, and is
//! carried as a plain flag from then on.

use vstd::prelude::*;

use crate::path::{file_name_spec, TreePath};

verus! {

/// One scanned directory entry.
#[derive(Debug, PartialEq, Eq)]
pub struct LoadedEntry {
    /// Path of the entry.
    pub path: TreePath,
    /// `true` for directories (symlinks are not followed).
    pub is_dir: bool,
    /// `true` if the entry is hidden by the host OS's convention.
    pub is_hidden: bool,
}

/// The mathematical value of an entry.
pub struct EntryView {
    pub path: Seq<Seq<u8>>,
    pub is_dir: bool,
    pub is_hidden: bool,
}

impl View for LoadedEntry {
    type V = EntryView;

    open spec fn view(&self) -> EntryView {
        EntryView { path: self.path@, is_dir: self.is_dir, is_hidden: self.is_hidden }
    }
}

/// A list of entries as mathematical values.
pub open spec fn entries_view(es: Seq<LoadedEntry>) -> Seq<EntryView> {
    es.map_values(|e: LoadedEntry| e@)
}

/// Whether two entry lists hold the same entries in the same order.
pub fn same_entries(a: &Vec<LoadedEntry>, b: &Vec<LoadedEntry>) -> (r: bool)
    ensures
        r == (entries_view(a@) == entries_view(b@)),
{
    if a.len() != b.len() {
        proof {
            assert(entries_view(a@).len() != entries_view(b@).len());
        }
        return false;
    }
    let mut i: usize = 0;
    while i < a.len()
        invariant
            i <= a@.len(),
            a@.len() == b@.len(),
            forall|k: int| 0 <= k < i ==> #[trigger] a@[k]@ == b@[k]@,
        decreases a@.len() - i,
    {
        if !a[i].path.same_as(&b[i].path) || a[i].is_dir != b[i].is_dir || a[i].is_hidden != b[i].is_hidden {
            proof {
                assert(entries_view(a@)[i as int] != entries_view(b@)[i as int]);
            }
            return false;
        }
        i = i + 1;
    }
    proof {
        assert(entries_view(a@) =~= entries_view(b@));
    }
    true
}

/// `true` iff a basename starts with an ASCII dot.
pub open spec fn is_dotfile_spec(name: Seq<u8>) -> bool {
    name.len() > 0 && name[0] == 46u8
}

/// `true` if the basename starts with an ASCII dot: the dotfile rule for
/// hidden entries.
pub fn is_dotfile(name: &Vec<u8>) -> (r: bool)
    ensures
        r == is_dotfile_spec(name@),
{
    name.len() > 0 && name[0] == 46u8
}

impl LoadedEntry {
    /// An entry built from its three facts.
    pub fn new(path: TreePath, is_dir: bool, is_hidden: bool) -> (r: LoadedEntry)
        ensures
            r@ == (EntryView { path: path@, is_dir, is_hidden }),
    {
        LoadedEntry { path, is_dir, is_hidden }
    }

    /// Final path component, for use as a row label; empty if the path
    /// has no file name.
    pub fn file_name(&self) -> (r: Vec<u8>)
        ensures
            r@ == file_name_spec(self.path@),
    {
        self.path.file_name()
    }

    /// A copy of this entry.
    pub fn copy(&self) -> (r: LoadedEntry)
        ensures
            r@ == self@,
    {
        LoadedEntry { path: self.path.copy(), is_dir: self.is_dir, is_hidden: self.is_hidden }
    }
}

impl Clone for LoadedEntry {
    fn clone(&self) -> (r: LoadedEntry)
        ensures
            r@ == self@,
    {
        self.copy()
    }
}

/// A copy of a list of entries.
pub fn copy_entries(es: &Vec<LoadedEntry>) -> (r: Vec<LoadedEntry>)
    ensures
        entries_view(r@) == entries_view(es@),
{
    let mut out: Vec<LoadedEntry> = Vec::new();
    let mut i: usize = 0;
    while i < es.len()
        invariant
            i <= es@.len(),
            entries_view(out@) == entries_view(es@).subrange(0, i as int),
        decreases es@.len() - i,
    {
        let c = es[i].copy();
        proof {
            assert(entries_view(out@.push(c)) =~= entries_view(out@).push(c@));
            assert(entries_view(es@).subrange(0, i + 1) =~= entries_view(es@).subrange(
                0,
                i as int,
            ).push(es@[i as int]@));
        }
        out.push(c);
        i = i + 1;
    }
    assert(entries_view(es@).subrange(0, es@.len() as int) =~= entries_view(es@));
    out
}

} // verus!
