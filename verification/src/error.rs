//! Cloneable, comparable record attached to a tree node whose scan
//! failed: the failing path, the I/O error kind, and the rendered message.

use vstd::prelude::*;

use crate::path::{bytes_of_str, display_spec, lossy_text, text_from_bytes, TreePath};
use vstd::string::StringSliceAdditionalSpecFns;
use vstd::utf8::{decode_utf8, encode_utf8, valid_utf8};

verus! {

/// `std::io::ErrorKind`, carried through the tree unchanged.
#[verifier::external_type_specification]
#[verifier::external_body]
pub struct ExErrorKind(std::io::ErrorKind);

/// Owned record of a failed directory scan.
#[derive(Debug, PartialEq, Eq)]
pub struct ScanIssue {
    pub(crate) path: TreePath,
    pub(crate) kind: std::io::ErrorKind,
    pub(crate) message: String,
}

/// The mathematical value of a scan issue.
pub struct IssueView {
    pub path: Seq<Seq<u8>>,
    pub kind: std::io::ErrorKind,
    pub message: Seq<char>,
}

impl View for ScanIssue {
    type V = IssueView;

    closed spec fn view(&self) -> IssueView {
        IssueView { path: self.path@, kind: self.kind, message: self.message@ }
    }
}

/// The bytes of an issue's description: `scan failed at <path>: <message>`.
pub open spec fn describe_spec(v: IssueView) -> Seq<u8> {
    "scan failed at ".spec_bytes() + display_spec(v.path) + ": ".spec_bytes() + encode_utf8(v.message)
}

impl ScanIssue {
    /// An issue from its parts.
    pub fn new(path: TreePath, kind: std::io::ErrorKind, message: String) -> (r: ScanIssue)
        ensures
            r@ == (IssueView { path: path@, kind, message: message@ }),
    {
        ScanIssue { path, kind, message }
    }

    /// Path the failure refers to.
    pub fn path(&self) -> (r: &TreePath)
        ensures
            r@ == self@.path,
    {
        &self.path
    }

    /// Kind of the underlying I/O error.
    pub fn kind(&self) -> (r: std::io::ErrorKind)
        ensures
            r == self@.kind,
    {
        self.kind
    }

    /// Human-readable message.
    pub fn message(&self) -> (r: &str)
        ensures
            r@ == self@.message,
    {
        self.message.as_str()
    }

    /// The bytes of the description (see [`describe_spec`]).
    pub fn describe_bytes(&self) -> (r: Vec<u8>)
        ensures
            r@ == describe_spec(self@),
    {
        let mut out = bytes_of_str("scan failed at ");
        let p = self.path.display_bytes();
        let sep = bytes_of_str(": ");
        let m = bytes_of_str(self.message.as_str());
        let ghost a = out@;
        append_bytes(&mut out, &p);
        append_bytes(&mut out, &sep);
        append_bytes(&mut out, &m);
        proof {
            assert(out@ =~= describe_spec(self@));
        }
        out
    }

    /// Human-readable description: `scan failed at <path>: <message>`,
    /// the path displayed with `/` separators; bytes that are not UTF-8
    /// are read as `String::from_utf8_lossy` reads them.
    pub fn describe(&self) -> (r: String)
        ensures
            r@ == lossy_text(describe_spec(self@)),
            valid_utf8(describe_spec(self@)) ==> r@ == decode_utf8(describe_spec(self@)),
    {
        let b = self.describe_bytes();
        text_from_bytes(&b)
    }

    /// A copy of this issue.
    pub fn copy(&self) -> (r: ScanIssue)
        ensures
            r@ == self@,
    {
        ScanIssue { path: self.path.copy(), kind: self.kind, message: self.message.clone() }
    }
}

impl Clone for ScanIssue {
    fn clone(&self) -> (r: ScanIssue)
        ensures
            r@ == self@,
    {
        self.copy()
    }
}

/// Append `b` to `out`.
fn append_bytes(out: &mut Vec<u8>, b: &Vec<u8>)
    ensures
        final(out)@ == old(out)@ + b@,
{
    let ghost start = out@;
    let mut j: usize = 0;
    while j < b.len()
        invariant
            j <= b@.len(),
            out@ == start + b@.take(j as int),
        decreases b@.len() - j,
    {
        proof {
            assert(b@.take(j + 1) =~= b@.take(j as int).push(b@[j as int]));
        }
        out.push(b[j]);
        j = j + 1;
    }
    proof {
        assert(b@.take(b@.len() as int) =~= b@);
    }
}

} // verus!
