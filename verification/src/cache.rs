//! Cache of raw, unfiltered scan results, keyed by path.
//!
//! The cache lets `DirectoryTree::set_filter` re-derive every loaded
//! node's child list in memory. A newer accepted scan for the same path
//! overwrites the earlier one.

use vstd::prelude::*;

use crate::entry::{copy_entries, entries_view, same_entries, EntryView, LoadedEntry};
use crate::path::TreePath;

verus! {

/// One completed scan: the generation it was accepted under and the
/// complete (unfiltered) entry list.
#[derive(Debug, Clone, PartialEq, Eq)]
pub struct CachedScan {
    /// Generation the result carried when it was accepted.
    pub generation: u32,
    /// Raw entries, exactly as returned by the scan.
    pub entries: Vec<LoadedEntry>,
}

/// The mathematical value of a cached scan.
pub struct CachedView {
    pub generation: u32,
    pub entries: Seq<EntryView>,
}

impl View for CachedScan {
    type V = CachedView;

    open spec fn view(&self) -> CachedView {
        CachedView { generation: self.generation, entries: entries_view(self.entries@) }
    }
}

/// One cache slot: a scanned path and its latest accepted result.
#[derive(Debug, Clone, PartialEq, Eq)]
struct CacheSlot {
    path: TreePath,
    scan: CachedScan,
}

/// Map from scanned path to its latest accepted result. Two caches are
/// equal when they map the same paths to the same results, whatever the
/// order in which the results arrived.
#[derive(Debug, Eq)]
pub struct TreeCache {
    slots: Vec<CacheSlot>,
}

/// The map denoted by a list of slots (a later slot overrides an earlier
/// one for the same path).
spec fn slots_map(s: Seq<CacheSlot>) -> Map<Seq<Seq<u8>>, CachedView>
    decreases s.len(),
{
    if s.len() == 0 {
        Map::empty()
    } else {
        slots_map(s.drop_last()).insert(s.last().path@, s.last().scan@)
    }
}

/// No two slots hold the same path.
spec fn slots_unique(s: Seq<CacheSlot>) -> bool {
    forall|i: int, j: int| 0 <= i < j < s.len() ==> s[i].path@ != s[j].path@
}

proof fn lemma_slots_map(s: Seq<CacheSlot>)
    requires
        slots_unique(s),
    ensures
        forall|k: Seq<Seq<u8>>| #[trigger]
            slots_map(s).contains_key(k) <==> exists|i: int| 0 <= i < s.len() && s[i].path@ == k,
        forall|i: int| 0 <= i < s.len() ==> #[trigger] slots_map(s)[s[i].path@] == s[i].scan@,
        slots_map(s).dom().finite(),
        slots_map(s).dom().len() == s.len(),
    decreases s.len(),
{
    if s.len() > 0 {
        let p = s.drop_last();
        assert(slots_unique(p));
        lemma_slots_map(p);
        assert forall|k: Seq<Seq<u8>>| #[trigger]
            slots_map(s).contains_key(k) <==> exists|i: int| 0 <= i < s.len() && s[i].path@ == k by {
            if slots_map(s).contains_key(k) && k != s.last().path@ {
                let i = choose|i: int| 0 <= i < p.len() && p[i].path@ == k;
                assert(s[i].path@ == k);
            }
            if exists|i: int| 0 <= i < s.len() && s[i].path@ == k {
                let i = choose|i: int| 0 <= i < s.len() && s[i].path@ == k;
                if i < s.len() - 1 {
                    assert(p[i].path@ == k);
                }
            }
        }
        assert forall|i: int| 0 <= i < s.len() implies #[trigger] slots_map(s)[s[i].path@]
            == s[i].scan@ by {
            if i < s.len() - 1 {
                assert(p[i] == s[i]);
                assert(s[i].path@ != s.last().path@);
            }
        }
        assert(!slots_map(p).contains_key(s.last().path@)) by {
            if slots_map(p).contains_key(s.last().path@) {
                let i = choose|i: int| 0 <= i < p.len() && p[i].path@ == s.last().path@;
                assert(s[i].path@ == s[s.len() - 1].path@);
            }
        }
    }
}

impl View for TreeCache {
    type V = Map<Seq<Seq<u8>>, CachedView>;

    closed spec fn view(&self) -> Map<Seq<Seq<u8>>, CachedView> {
        slots_map(self.slots@)
    }
}

/// Two slot lists that hold the same paths and scans, slot by slot,
/// denote the same map.
proof fn lemma_slots_map_same(a: Seq<CacheSlot>, b: Seq<CacheSlot>)
    requires
        a.len() == b.len(),
        forall|i: int| 0 <= i < a.len() ==> #[trigger] a[i].path@ == b[i].path@ && a[i].scan@ == b[i].scan@,
    ensures
        slots_map(a) == slots_map(b),
    decreases a.len(),
{
    if a.len() > 0 {
        assert forall|i: int| 0 <= i < a.drop_last().len() implies #[trigger] a.drop_last()[i].path@
            == b.drop_last()[i].path@ && a.drop_last()[i].scan@ == b.drop_last()[i].scan@ by {
            assert(a[i].path@ == b[i].path@);
        }
        lemma_slots_map_same(a.drop_last(), b.drop_last());
        assert(a.last().path@ == b.last().path@);
    }
}

impl TreeCache {
    /// The cache's internal invariant: one slot per path.
    pub closed spec fn wf(&self) -> bool {
        slots_unique(self.slots@)
    }

    /// Every cache value keeps one slot per path.
    #[verifier::type_invariant]
    spec fn one_slot_per_path(self) -> bool {
        slots_unique(self.slots@)
    }

    /// Whether both caches map the same paths to the same results.
    pub fn same_map(&self, other: &TreeCache) -> (r: bool)
        requires
            self.wf(),
            other.wf(),
        ensures
            r == (self@ == other@),
    {
        proof {
            lemma_slots_map(self.slots@);
            lemma_slots_map(other.slots@);
        }
        if self.slots.len() != other.slots.len() {
            proof {
                if self@ == other@ {
                    assert(self@.dom().len() == other@.dom().len());
                }
            }
            return false;
        }
        let mut i: usize = 0;
        while i < self.slots.len()
            invariant
                i <= self.slots@.len(),
                self.wf(),
                other.wf(),
                self.slots@.len() == other.slots@.len(),
                forall|k: int|
                    0 <= k < i ==> other@.contains_key(#[trigger] self.slots@[k].path@) && other@[self.slots@[k].path@]
                        == self.slots@[k].scan@,
            decreases self.slots@.len() - i,
        {
            proof {
                lemma_slots_map(self.slots@);
            }
            let s = &self.slots[i];
            match other.get(&s.path) {
                Some(c) => {
                    if c.generation != s.scan.generation || !same_entries(&c.entries, &s.scan.entries) {
                        proof {
                            assert(self@[self.slots@[i as int].path@] == self.slots@[i as int].scan@);
                        }
                        return false;
                    }
                },
                None => {
                    proof {
                        assert(self.slots@[i as int].path@ == s.path@);
                        assert(self@.contains_key(self.slots@[i as int].path@));
                    }
                    return false;
                },
            }
            i = i + 1;
        }
        proof {
            assert(self@.dom().subset_of(other@.dom())) by {
                assert forall|p: Seq<Seq<u8>>| self@.contains_key(p) implies other@.contains_key(p) by {
                    let k = choose|k: int| 0 <= k < self.slots@.len() && self.slots@[k].path@ == p;
                    assert(other@.contains_key(self.slots@[k].path@));
                }
            }
            vstd::set_lib::lemma_subset_equality(self@.dom(), other@.dom());
            assert forall|p: Seq<Seq<u8>>| #[trigger] self@.contains_key(p) implies self@[p] == other@[p] by {
                let k = choose|k: int| 0 <= k < self.slots@.len() && self.slots@[k].path@ == p;
                assert(other@[self.slots@[k].path@] == self.slots@[k].scan@);
            }
            assert(self@ =~= other@);
        }
        true
    }

    /// A copy of this cache.
    pub fn copy(&self) -> (r: TreeCache)
        ensures
            r@ == self@,
            self.wf() ==> r.wf(),
    {
        proof {
            use_type_invariant(self);
        }
        let mut slots: Vec<CacheSlot> = Vec::new();
        let mut i: usize = 0;
        while i < self.slots.len()
            invariant
                i <= self.slots@.len(),
                slots@.len() == i,
                forall|k: int|
                    0 <= k < i ==> #[trigger] slots@[k].path@ == self.slots@[k].path@ && slots@[k].scan@
                        == self.slots@[k].scan@,
            decreases self.slots@.len() - i,
        {
            let s = &self.slots[i];
            let c = CacheSlot {
                path: s.path.copy(),
                scan: CachedScan { generation: s.scan.generation, entries: copy_entries(&s.scan.entries) },
            };
            slots.push(c);
            i = i + 1;
        }
        proof {
            lemma_slots_map_same(slots@, self.slots@);
            if slots_unique(self.slots@) {
                assert forall|a: int, b: int| 0 <= a < b < slots@.len() implies slots@[a].path@
                    != slots@[b].path@ by {
                    assert(slots@[a].path@ == self.slots@[a].path@);
                    assert(slots@[b].path@ == self.slots@[b].path@);
                }
            }
        }
        TreeCache { slots }
    }

    /// An empty cache.
    pub fn new() -> (r: TreeCache)
        ensures
            r.wf(),
            r@ == Map::<Seq<Seq<u8>>, CachedView>::empty(),
    {
        TreeCache { slots: Vec::new() }
    }

    /// Index of the slot for `path`.
    fn slot_of(&self, path: &TreePath) -> (r: Option<usize>)
        requires
            self.wf(),
        ensures
            match r {
                Some(i) => i < self.slots@.len() && self.slots@[i as int].path@ == path@,
                None => forall|i: int| 0 <= i < self.slots@.len() ==> self.slots@[i].path@ != path@,
            },
    {
        let mut i: usize = 0;
        while i < self.slots.len()
            invariant
                i <= self.slots@.len(),
                forall|j: int| 0 <= j < i ==> self.slots@[j].path@ != path@,
            decreases self.slots@.len() - i,
        {
            if self.slots[i].path.same_as(path) {
                return Some(i);
            }
            i = i + 1;
        }
        None
    }

    /// Store (or overwrite) the result for `path`.
    pub fn insert(&mut self, path: TreePath, generation: u32, entries: Vec<LoadedEntry>)
        requires
            old(self).wf(),
        ensures
            final(self).wf(),
            final(self)@ == old(self)@.insert(
                path@,
                CachedView { generation, entries: entries_view(entries@) },
            ),
    {
        proof {
            lemma_slots_map(self.slots@);
        }
        let ghost old_slots = self.slots@;
        let slot = CacheSlot { path, scan: CachedScan { generation, entries } };
        let found = self.slot_of(&slot.path);
        let mut slots: Vec<CacheSlot> = Vec::new();
        std::mem::swap(&mut slots, &mut self.slots);
        match found {
            Some(i) => {
                slots.set(i, slot);
                proof {
                    let s = slots@;
                    assert(slots_unique(s));
                    lemma_slots_map(s);
                    assert(slots_map(s) =~= slots_map(old_slots).insert(
                        slot.path@,
                        slot.scan@,
                    )) by {
                        assert forall|k: Seq<Seq<u8>>|
                            slots_map(s).contains_key(k) implies slots_map(old_slots).insert(
                            slot.path@,
                            slot.scan@,
                        ).contains_key(k) by {
                            let j = choose|j: int| 0 <= j < s.len() && s[j].path@ == k;
                            if j != i {
                                assert(old_slots[j].path@ == k);
                            }
                        }
                        assert forall|k: Seq<Seq<u8>>|
                            slots_map(old_slots).insert(slot.path@, slot.scan@).contains_key(
                                k,
                            ) implies slots_map(s).contains_key(k) by {
                            if k != slot.path@ {
                                let j = choose|j: int|
                                    0 <= j < old_slots.len() && old_slots[j].path@ == k;
                                assert(s[j].path@ == k);
                            } else {
                                assert(s[i as int].path@ == k);
                            }
                        }
                        assert forall|k: Seq<Seq<u8>>| #[trigger]
                            slots_map(s).contains_key(k) implies slots_map(s)[k]
                            == slots_map(old_slots).insert(slot.path@, slot.scan@)[k] by {
                            let j = choose|j: int| 0 <= j < s.len() && s[j].path@ == k;
                            if j != i {
                                assert(old_slots[j] == s[j]);
                            }
                        }
                    }
                }
            },
            None => {
                slots.push(slot);
                proof {
                    let s = slots@;
                    assert(s.drop_last() =~= old_slots);
                    assert(slots_unique(s));
                }
            },
        }
        self.slots = slots;
    }

    /// Latest accepted result for `path`, if any.
    pub fn get(&self, path: &TreePath) -> (r: Option<&CachedScan>)
        requires
            self.wf(),
        ensures
            match r {
                Some(c) => self@.contains_key(path@) && self@[path@] == c@,
                None => !self@.contains_key(path@),
            },
    {
        proof {
            lemma_slots_map(self.slots@);
        }
        match self.slot_of(path) {
            Some(i) => Some(&self.slots[i].scan),
            None => None,
        }
    }

    /// `true` if a result for `path` is cached.
    pub fn contains(&self, path: &TreePath) -> (r: bool)
        requires
            self.wf(),
        ensures
            r == self@.contains_key(path@),
    {
        proof {
            lemma_slots_map(self.slots@);
        }
        self.slot_of(path).is_some()
    }

    /// Number of cached scans.
    pub fn len(&self) -> (r: usize)
        requires
            self.wf(),
        ensures
            r == self@.len(),
    {
        proof {
            lemma_slots_map(self.slots@);
        }
        self.slots.len()
    }

    /// `true` if nothing has been cached yet.
    pub fn is_empty(&self) -> (r: bool)
        requires
            self.wf(),
        ensures
            r == (self@.len() == 0),
    {
        proof {
            lemma_slots_map(self.slots@);
        }
        self.slots.len() == 0
    }
}

impl Clone for TreeCache {
    fn clone(&self) -> (r: TreeCache)
        ensures
            r@ == self@,
    {
        self.copy()
    }
}

impl PartialEq for TreeCache {
    fn eq(&self, other: &TreeCache) -> (r: bool) {
        proof {
            use_type_invariant(self);
            use_type_invariant(other);
        }
        self.same_map(other)
    }
}

impl vstd::std_specs::cmp::PartialEqSpecImpl for TreeCache {
    open spec fn obeys_eq_spec() -> bool {
        true
    }

    open spec fn eq_spec(&self, other: &TreeCache) -> bool {
        self@ == other@
    }
}

} // verus!
