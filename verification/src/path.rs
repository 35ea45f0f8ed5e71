//! Paths as sequences of components, and the byte-level text helpers the
//! tree needs (equality, ASCII case folding, substring search).
//!
//! A [`TreePath`] is the component list of a filesystem path: each
//! component holds the raw OS bytes of one `Path::components()` item.
//! The root directory is the single-byte component `/`. Equality and
//! prefix tests are component-wise, exactly like `Path`'s own, so
//! `/r/bar` is never a prefix of `/r/barbaz`.

use vstd::prelude::*;
use vstd::string::StringSliceAdditionalSpecFns;
use vstd::utf8::{decode_utf8, encode_utf8, valid_utf8};

verus! {

/// The single byte `/`, which names the root-directory component.
pub const ROOT_COMPONENT_BYTE: u8 = 47u8;

/// `true` iff `c` is the root-directory component.
pub open spec fn is_root_component(c: Seq<u8>) -> bool {
    c.len() == 1 && c[0] == ROOT_COMPONENT_BYTE
}

/// A filesystem path held as its list of components.
#[derive(Debug, PartialEq, Eq, Hash)]
pub struct TreePath {
    pub components: Vec<Vec<u8>>,
}

/// The components of a path as mathematical byte sequences.
pub open spec fn components_view(cs: Seq<Vec<u8>>) -> Seq<Seq<u8>> {
    cs.map_values(|c: Vec<u8>| c@)
}

impl View for TreePath {
    type V = Seq<Seq<u8>>;

    open spec fn view(&self) -> Seq<Seq<u8>> {
        components_view(self.components@)
    }
}

/// `base` is a component-wise prefix of `p` (`p` is `base` or below it).
pub open spec fn starts_with_spec(p: Seq<Seq<u8>>, base: Seq<Seq<u8>>) -> bool {
    base.len() <= p.len() && p.subrange(0, base.len() as int) == base
}

/// `Path::parent`: drop the last component; none for the empty path and
/// for a path that ends in the root directory.
pub open spec fn parent_spec(p: Seq<Seq<u8>>) -> Option<Seq<Seq<u8>>> {
    if p.len() == 0 || is_root_component(p.last()) {
        None
    } else {
        Some(p.drop_last())
    }
}

/// The current-directory component `.` or the parent-directory
/// component `..`.
pub open spec fn is_dot_component(c: Seq<u8>) -> bool {
    c == seq![46u8] || c == seq![46u8, 46u8]
}

/// `Path::file_name`, with a missing name read as the empty string: a
/// path that is empty or ends in the root directory, in `.` or in `..`
/// has no file name.
pub open spec fn file_name_spec(p: Seq<Seq<u8>>) -> Seq<u8> {
    if p.len() == 0 || is_root_component(p.last()) || is_dot_component(p.last()) {
        Seq::empty()
    } else {
        p.last()
    }
}

/// Number of components of `p` below `root`, when `p` is `root` or under it.
pub open spec fn depth_below_spec(p: Seq<Seq<u8>>, root: Seq<Seq<u8>>) -> Option<u32> {
    if starts_with_spec(p, root) {
        Some((p.len() - root.len()) as u32)
    } else {
        None
    }
}

/// ASCII lower-casing of one byte; every other byte is unchanged.
pub open spec fn ascii_lower_spec(b: u8) -> u8 {
    if 65u8 <= b && b <= 90u8 {
        (b + 32) as u8
    } else {
        b
    }
}

/// ASCII lower-casing of a byte string.
pub open spec fn lower_seq(s: Seq<u8>) -> Seq<u8> {
    s.map_values(|b: u8| ascii_lower_spec(b))
}

/// `needle` occurs in `hay` at offset `i`.
pub open spec fn occurs_at(hay: Seq<u8>, needle: Seq<u8>, i: int) -> bool {
    0 <= i && i + needle.len() <= hay.len() && hay.subrange(i, i + needle.len()) == needle
}

/// `needle` is a contiguous substring of `hay` (the empty needle always is).
pub open spec fn contains_seq(hay: Seq<u8>, needle: Seq<u8>) -> bool {
    exists|i: int| occurs_at(hay, needle, i)
}

/// Equality of two byte strings.
pub fn bytes_eq(a: &Vec<u8>, b: &Vec<u8>) -> (r: bool)
    ensures
        r == (a@ == b@),
{
    if a.len() != b.len() {
        return false;
    }
    let mut i: usize = 0;
    while i < a.len()
        invariant
            a@.len() == b@.len(),
            i <= a@.len(),
            forall|j: int| 0 <= j < i ==> a@[j] == b@[j],
        decreases a@.len() - i,
    {
        if a[i] != b[i] {
            return false;
        }
        i = i + 1;
    }
    assert(a@ =~= b@);
    true
}

/// A byte-for-byte copy of a byte string.
pub fn copy_bytes(a: &Vec<u8>) -> (r: Vec<u8>)
    ensures
        r@ == a@,
{
    let mut out: Vec<u8> = Vec::new();
    let mut i: usize = 0;
    while i < a.len()
        invariant
            i <= a@.len(),
            out@ == a@.subrange(0, i as int),
        decreases a@.len() - i,
    {
        out.push(a[i]);
        i = i + 1;
    }
    assert(a@.subrange(0, a@.len() as int) =~= a@);
    out
}

/// ASCII lower-casing of one byte.
pub fn ascii_lower(b: u8) -> (r: u8)
    ensures
        r == ascii_lower_spec(b),
{
    if 65u8 <= b && b <= 90u8 {
        b + 32
    } else {
        b
    }
}

/// ASCII lower-casing of a byte string (`to_ascii_lowercase`).
pub fn lower_bytes(s: &Vec<u8>) -> (r: Vec<u8>)
    ensures
        r@ == lower_seq(s@),
{
    let mut out: Vec<u8> = Vec::new();
    let mut i: usize = 0;
    while i < s.len()
        invariant
            i <= s@.len(),
            out@ == lower_seq(s@.subrange(0, i as int)),
        decreases s@.len() - i,
    {
        let c = ascii_lower(s[i]);
        proof {
            assert(lower_seq(s@.subrange(0, i + 1)) =~= lower_seq(s@.subrange(0, i as int)).push(
                ascii_lower_spec(s@[i as int]),
            ));
        }
        out.push(c);
        i = i + 1;
    }
    assert(s@.subrange(0, s@.len() as int) =~= s@);
    out
}

/// `true` iff `needle` occurs at offset `at` of `hay`.
fn matches_at(hay: &Vec<u8>, needle: &Vec<u8>, at: usize) -> (r: bool)
    requires
        at + needle@.len() <= hay@.len(),
    ensures
        r == occurs_at(hay@, needle@, at as int),
{
    let hl = hay.len();
    let mut j: usize = 0;
    while j < needle.len()
        invariant
            hl == hay@.len(),
            at + needle@.len() <= hay@.len(),
            j <= needle@.len(),
            forall|k: int| 0 <= k < j ==> hay@[at + k] == needle@[k],
        decreases needle@.len() - j,
    {
        assert(at + j < hay@.len());
        if hay[at + j] != needle[j] {
            assert(hay@.subrange(at as int, at + needle@.len())[j as int] != needle@[j as int]);
            return false;
        }
        j = j + 1;
    }
    assert(hay@.subrange(at as int, at + needle@.len()) =~= needle@);
    true
}

/// Substring search on bytes (`str::contains` for a string needle).
pub fn contains_bytes(hay: &Vec<u8>, needle: &Vec<u8>) -> (r: bool)
    ensures
        r == contains_seq(hay@, needle@),
{
    if needle.len() > hay.len() {
        assert forall|i: int| !occurs_at(hay@, needle@, i) by {}
        return false;
    }
    if needle.len() == 0 {
        assert(hay@.subrange(0, 0) =~= needle@);
        assert(occurs_at(hay@, needle@, 0));
        return true;
    }
    let hl = hay.len();
    let last = hl - needle.len();
    let mut i: usize = 0;
    while i <= last
        invariant
            hl == hay@.len(),
            needle@.len() >= 1,
            last + needle@.len() == hay@.len(),
            i <= last + 1,
            forall|k: int| 0 <= k < i ==> !occurs_at(hay@, needle@, k),
        decreases last + 1 - i,
    {
        if matches_at(hay, needle, i) {
            return true;
        }
        i = i + 1;
    }
    assert forall|k: int| !occurs_at(hay@, needle@, k) by {}
    false
}

impl TreePath {
    /// A path built from its components.
    pub fn from_components(components: Vec<Vec<u8>>) -> (r: TreePath)
        ensures
            r@ == components_view(components@),
    {
        TreePath { components }
    }

    /// The empty path.
    pub fn empty() -> (r: TreePath)
        ensures
            r@.len() == 0,
    {
        TreePath { components: Vec::new() }
    }

    /// Number of components.
    pub fn len(&self) -> (r: usize)
        ensures
            r == self@.len(),
    {
        self.components.len()
    }

    /// The bytes this path is displayed as (see [`display_spec`]).
    pub fn display_bytes(&self) -> (r: Vec<u8>)
        ensures
            r@ == display_spec(self@),
    {
        let mut out: Vec<u8> = Vec::new();
        let mut i: usize = 0;
        while i < self.components.len()
            invariant
                i <= self@.len(),
                self@.len() == self.components@.len(),
                out@ == display_spec(self@.take(i as int)),
            decreases self.components@.len() - i,
        {
            let ghost before = out@;
            proof {
                assert(self@.take(i + 1).drop_last() =~= self@.take(i as int));
                assert(self@.take(i + 1).last() == self.components@[i as int]@);
            }
            if i > 0 {
                let prev = &self.components[i - 1];
                let prev_is_root = prev.len() == 1 && prev[0] == ROOT_COMPONENT_BYTE;
                proof {
                    assert(self@.take(i + 1)[i - 1] == self.components@[i - 1]@);
                }
                if !prev_is_root {
                    out.push(ROOT_COMPONENT_BYTE);
                }
            }
            let c = &self.components[i];
            let ghost mid = out@;
            let mut j: usize = 0;
            while j < c.len()
                invariant
                    j <= c@.len(),
                    out@ == mid + c@.take(j as int),
                decreases c@.len() - j,
            {
                proof {
                    assert(c@.take(j + 1) =~= c@.take(j as int).push(c@[j as int]));
                }
                out.push(c[j]);
                j = j + 1;
            }
            proof {
                assert(c@.take(c@.len() as int) =~= c@);
                if i > 0 && !is_root_component(self@.take(i + 1)[i - 1]) {
                    assert(out@ =~= before + seq![ROOT_COMPONENT_BYTE] + c@);
                } else {
                    assert(out@ =~= before + c@);
                }
            }
            i = i + 1;
        }
        proof {
            assert(self@.take(self@.len() as int) =~= self@);
        }
        out
    }

    /// A copy holding the same components.
    pub fn copy(&self) -> (r: TreePath)
        ensures
            r@ == self@,
    {
        let mut out: Vec<Vec<u8>> = Vec::new();
        let mut i: usize = 0;
        while i < self.components.len()
            invariant
                i <= self@.len(),
                self@.len() == self.components@.len(),
                components_view(out@) == self@.subrange(0, i as int),
            decreases self@.len() - i,
        {
            let c = copy_bytes(&self.components[i]);
            proof {
                assert(components_view(out@.push(c)) =~= components_view(out@).push(c@));
                assert(self@.subrange(0, i + 1) =~= self@.subrange(0, i as int).push(
                    self.components@[i as int]@,
                ));
            }
            out.push(c);
            i = i + 1;
        }
        assert(self@.subrange(0, self@.len() as int) =~= self@);
        TreePath { components: out }
    }

    /// Component-wise equality.
    pub fn same_as(&self, other: &TreePath) -> (r: bool)
        ensures
            r == (self@ == other@),
    {
        if self.components.len() != other.components.len() {
            return false;
        }
        let mut i: usize = 0;
        while i < self.components.len()
            invariant
                self@.len() == other@.len(),
                self@.len() == self.components@.len(),
                other@.len() == other.components@.len(),
                i <= self@.len(),
                forall|j: int| 0 <= j < i ==> self@[j] == other@[j],
            decreases self@.len() - i,
        {
            if !bytes_eq(&self.components[i], &other.components[i]) {
                assert(self@[i as int] != other@[i as int]);
                return false;
            }
            i = i + 1;
        }
        assert(self@ =~= other@);
        true
    }

    /// `Path::starts_with`: `base` is a component-wise prefix of `self`.
    pub fn starts_with(&self, base: &TreePath) -> (r: bool)
        ensures
            r == starts_with_spec(self@, base@),
    {
        if base.components.len() > self.components.len() {
            return false;
        }
        let mut i: usize = 0;
        while i < base.components.len()
            invariant
                base@.len() <= self@.len(),
                self@.len() == self.components@.len(),
                base@.len() == base.components@.len(),
                i <= base@.len(),
                forall|j: int| 0 <= j < i ==> self@[j] == base@[j],
            decreases base@.len() - i,
        {
            if !bytes_eq(&self.components[i], &base.components[i]) {
                assert(self@.subrange(0, base@.len() as int)[i as int] != base@[i as int]);
                return false;
            }
            i = i + 1;
        }
        assert(self@.subrange(0, base@.len() as int) =~= base@);
        true
    }

    /// `true` iff the last component is the root directory.
    fn ends_in_root(&self) -> (r: bool)
        requires
            self@.len() > 0,
        ensures
            r == is_root_component(self@.last()),
    {
        let last = &self.components[self.components.len() - 1];
        last.len() == 1 && last[0] == ROOT_COMPONENT_BYTE
    }

    /// `true` iff the last component is `.` or `..`.
    fn ends_in_dot(&self) -> (r: bool)
        requires
            self@.len() > 0,
        ensures
            r == is_dot_component(self@.last()),
    {
        let last = &self.components[self.components.len() - 1];
        proof {
            assert(last@ == self@.last());
        }
        if last.len() == 1 {
            let r = last[0] == 46u8;
            proof {
                if r {
                    assert(last@ =~= seq![46u8]);
                }
            }
            r
        } else if last.len() == 2 {
            let r = last[0] == 46u8 && last[1] == 46u8;
            proof {
                if r {
                    assert(last@ =~= seq![46u8, 46u8]);
                }
            }
            r
        } else {
            false
        }
    }

    /// `Path::parent`.
    pub fn parent(&self) -> (r: Option<TreePath>)
        ensures
            match r {
                Some(p) => parent_spec(self@) == Some(p@),
                None => parent_spec(self@) is None,
            },
    {
        if self.components.len() == 0 || self.ends_in_root() {
            return None;
        }
        let mut out: Vec<Vec<u8>> = Vec::new();
        let n = self.components.len() - 1;
        let mut i: usize = 0;
        while i < n
            invariant
                n + 1 == self@.len(),
                self@.len() == self.components@.len(),
                i <= n,
                components_view(out@) == self@.subrange(0, i as int),
            decreases n - i,
        {
            let c = copy_bytes(&self.components[i]);
            proof {
                assert(components_view(out@.push(c)) =~= components_view(out@).push(c@));
                assert(self@.subrange(0, i + 1) =~= self@.subrange(0, i as int).push(
                    self.components@[i as int]@,
                ));
            }
            out.push(c);
            i = i + 1;
        }
        assert(self@.subrange(0, n as int) =~= self@.drop_last());
        Some(TreePath { components: out })
    }

    /// `Path::file_name` as bytes; empty when the path has no file name.
    pub fn file_name(&self) -> (r: Vec<u8>)
        ensures
            r@ == file_name_spec(self@),
    {
        if self.components.len() == 0 || self.ends_in_root() || self.ends_in_dot() {
            return Vec::new();
        }
        copy_bytes(&self.components[self.components.len() - 1])
    }

    /// Components of `self` below `root`; `None` unless `self` is `root`
    /// or lies under it.
    pub fn depth_below(&self, root: &TreePath) -> (r: Option<u32>)
        ensures
            r == depth_below_spec(self@, root@),
    {
        if self.starts_with(root) {
            Some((self.components.len() - root.components.len()) as u32)
        } else {
            None
        }
    }

    /// `self` with one more component appended.
    pub fn join(&self, name: &Vec<u8>) -> (r: TreePath)
        ensures
            r@ == self@.push(name@),
    {
        let mut p = self.copy();
        let c = copy_bytes(name);
        proof {
            assert(components_view(p.components@.push(c)) =~= components_view(p.components@).push(
                c@,
            ));
        }
        p.components.push(c);
        p
    }
}

impl Clone for TreePath {
    fn clone(&self) -> (r: TreePath)
        ensures
            r@ == self@,
    {
        self.copy()
    }
}

/// `true` iff some element of `paths` equals `p`.
pub fn paths_contain(paths: &Vec<TreePath>, p: &TreePath) -> (r: bool)
    ensures
        r == paths_view(paths@).contains(p@),
{
    let mut i: usize = 0;
    while i < paths.len()
        invariant
            i <= paths@.len(),
            forall|j: int| 0 <= j < i ==> paths@[j]@ != p@,
        decreases paths@.len() - i,
    {
        if paths[i].same_as(p) {
            assert(paths_view(paths@)[i as int] == p@);
            return true;
        }
        i = i + 1;
    }
    assert(!paths_view(paths@).contains(p@));
    false
}

/// Index of the first element of `paths` that equals `p`.
pub fn position_of(paths: &Vec<TreePath>, p: &TreePath) -> (r: Option<usize>)
    ensures
        match r {
            Some(i) => i < paths@.len() && paths@[i as int]@ == p@ && forall|j: int|
                0 <= j < i ==> paths@[j]@ != p@,
            None => !paths_view(paths@).contains(p@),
        },
        match r {
            Some(i) => first_index(paths_view(paths@), p@) == Some(i as int),
            None => first_index(paths_view(paths@), p@) is None,
        },
{
    proof {
        lemma_first_index(paths_view(paths@), p@);
    }
    let mut i: usize = 0;
    while i < paths.len()
        invariant
            i <= paths@.len(),
            forall|j: int| 0 <= j < i ==> paths@[j]@ != p@,
        decreases paths@.len() - i,
    {
        if paths[i].same_as(p) {
            proof {
                let s = paths_view(paths@);
                lemma_first_index(s, p@);
                assert(s[i as int] == p@);
                match first_index(s, p@) {
                    Some(k) => {
                        if k < i {
                            assert(s[k] == paths@[k]@);
                        }
                        if k > i {
                            assert(s[i as int] != p@);
                        }
                    },
                    None => {
                        assert(s.contains(p@));
                    },
                }
            }
            return Some(i);
        }
        i = i + 1;
    }
    assert(!paths_view(paths@).contains(p@));
    None
}

/// A list of paths as mathematical component sequences.
pub open spec fn paths_view(ps: Seq<TreePath>) -> Seq<Seq<Seq<u8>>> {
    ps.map_values(|p: TreePath| p@)
}

/// How a path is displayed: its components joined by `/`, with no
/// separator after the root component.
pub open spec fn display_spec(p: Seq<Seq<u8>>) -> Seq<u8>
    decreases p.len(),
{
    if p.len() == 0 {
        Seq::empty()
    } else if p.len() == 1 || is_root_component(p[p.len() - 2]) {
        display_spec(p.drop_last()) + p.last()
    } else {
        display_spec(p.drop_last()) + seq![ROOT_COMPONENT_BYTE] + p.last()
    }
}

/// The text `String::from_utf8_lossy` makes of `bytes`: the bytes
/// decoded as UTF-8, each invalid sequence read as U+FFFD. It depends on
/// the bytes alone.
pub uninterp spec fn lossy_text(bytes: Seq<u8>) -> Seq<char>;

/// `String::from_utf8_lossy`, owned. The result is the named text of the
/// bytes; the standard library documents that valid UTF-8 comes back
/// decoded as is. What it makes of invalid sequences is carried by the
/// name and not spelled out.
#[verifier::external_body]
pub(crate) fn text_from_bytes(bytes: &Vec<u8>) -> (r: String)
    ensures
        r@ == lossy_text(bytes@),
        valid_utf8(bytes@) ==> r@ == decode_utf8(bytes@),
{
    String::from_utf8_lossy(bytes.as_slice()).into_owned()
}

/// Whether `text`, ASCII-lower-cased, contains the lower-case query `q`
/// (compared on the UTF-8 encoding).
pub open spec fn text_contains(text: Seq<char>, q: Seq<u8>) -> bool {
    contains_seq(lower_seq(encode_utf8(text)), q)
}

/// Whether `text`, ASCII-lower-cased, contains the lower-case query `q`.
pub fn text_matches(text: &str, q: &Vec<u8>) -> (r: bool)
    ensures
        r == text_contains(text@, q@),
{
    let raw = bytes_of_str(text);
    let lowered = lower_bytes(&raw);
    contains_bytes(&lowered, q)
}

/// The UTF-8 bytes of `s`, owned.
pub fn bytes_of_str(s: &str) -> (r: Vec<u8>)
    ensures
        r@ == s.spec_bytes(),
{
    let bytes = s.as_bytes();
    let mut b: Vec<u8> = Vec::new();
    let mut j: usize = 0;
    while j < bytes.len()
        invariant
            j <= bytes@.len(),
            b@ == bytes@.subrange(0, j as int),
        decreases bytes@.len() - j,
    {
        b.push(bytes[j]);
        j = j + 1;
    }
    proof {
        assert(bytes@.subrange(0, bytes@.len() as int) =~= bytes@);
    }
    b
}

/// Index of the first element of `s` equal to `p`.
pub open spec fn first_index(s: Seq<Seq<Seq<u8>>>, p: Seq<Seq<u8>>) -> Option<int>
    decreases s.len(),
{
    if s.len() == 0 {
        None
    } else {
        match first_index(s.drop_last(), p) {
            Some(i) => Some(i),
            None => if s.last() == p {
                Some(s.len() - 1)
            } else {
                None
            },
        }
    }
}

/// `first_index` finds the first occurrence, and only misses absent paths.
pub proof fn lemma_first_index(s: Seq<Seq<Seq<u8>>>, p: Seq<Seq<u8>>)
    ensures
        match first_index(s, p) {
            Some(i) => 0 <= i < s.len() && s[i] == p && forall|j: int|
                0 <= j < i ==> #[trigger] s[j] != p,
            None => !s.contains(p),
        },
    decreases s.len(),
{
    if s.len() > 0 {
        lemma_first_index(s.drop_last(), p);
        assert(forall|j: int| 0 <= j < s.len() - 1 ==> s.drop_last()[j] == s[j]);
        if first_index(s, p) is None {
            assert forall|j: int| 0 <= j < s.len() implies s[j] != p by {
                if j < s.len() - 1 {
                    assert(s.drop_last()[j] == s[j]);
                }
            }
        }
    }
}

/// Every path of `a` occurs in `b`.
fn all_paths_in(a: &Vec<TreePath>, b: &Vec<TreePath>) -> (r: bool)
    ensures
        r == paths_view(a@).to_set().subset_of(paths_view(b@).to_set()),
{
    let mut i: usize = 0;
    while i < a.len()
        invariant
            i <= a@.len(),
            forall|k: int| 0 <= k < i ==> paths_view(b@).contains(#[trigger] paths_view(a@)[k]),
        decreases a@.len() - i,
    {
        if !paths_contain(b, &a[i]) {
            proof {
                assert(paths_view(a@)[i as int] == a@[i as int]@);
                assert(paths_view(a@).to_set().contains(a@[i as int]@));
            }
            return false;
        }
        i = i + 1;
    }
    proof {
        assert forall|x: Seq<Seq<u8>>| paths_view(a@).to_set().contains(x) implies paths_view(b@).to_set().contains(x) by {
            let k = choose|k: int| 0 <= k < paths_view(a@).len() && paths_view(a@)[k] == x;
            assert(paths_view(b@).contains(paths_view(a@)[k]));
        }
    }
    true
}

/// Whether two lists of paths hold the same set of paths, regardless of
/// order and repetition.
pub fn same_path_set(a: &Vec<TreePath>, b: &Vec<TreePath>) -> (r: bool)
    ensures
        r == (paths_view(a@).to_set() == paths_view(b@).to_set()),
{
    let ab = all_paths_in(a, b);
    let ba = all_paths_in(b, a);
    proof {
        if ab && ba {
            assert(paths_view(a@).to_set() =~= paths_view(b@).to_set());
        }
    }
    ab && ba
}

/// A set of paths held as a list. Two sets are equal when they hold the
/// same paths, whatever the order in which the paths were added.
#[derive(Debug, Clone, Eq)]
pub struct PathSet {
    /// The paths.
    pub paths: Vec<TreePath>,
}

impl PartialEq for PathSet {
    fn eq(&self, other: &PathSet) -> (r: bool) {
        same_path_set(&self.paths, &other.paths)
    }
}

impl vstd::std_specs::cmp::PartialEqSpecImpl for PathSet {
    open spec fn obeys_eq_spec() -> bool {
        true
    }

    open spec fn eq_spec(&self, other: &PathSet) -> bool {
        paths_view(self.paths@).to_set() == paths_view(other.paths@).to_set()
    }
}

/// A copy of a list of paths.
pub fn copy_paths(ps: &Vec<TreePath>) -> (r: Vec<TreePath>)
    ensures
        paths_view(r@) == paths_view(ps@),
{
    let mut out: Vec<TreePath> = Vec::new();
    let mut i: usize = 0;
    while i < ps.len()
        invariant
            i <= ps@.len(),
            paths_view(out@) == paths_view(ps@).subrange(0, i as int),
        decreases ps@.len() - i,
    {
        let c = ps[i].copy();
        proof {
            assert(paths_view(out@.push(c)) =~= paths_view(out@).push(c@));
            assert(paths_view(ps@).subrange(0, i + 1) =~= paths_view(ps@).subrange(0, i as int).push(
                ps@[i as int]@,
            ));
        }
        out.push(c);
        i = i + 1;
    }
    assert(paths_view(ps@).subrange(0, ps@.len() as int) =~= paths_view(ps@));
    out
}

} // verus!
