//! The async-boundary types: side effects as data.
//!
//! Transitions never run a scan themselves. When disk access is needed
//! they return a [`ScanRequest`]; the embedding layer lists the directory
//! off the UI thread and feeds the [`LoadPayload`] back through
//! `DirectoryTree::on_loaded`.

use vstd::prelude::*;

use crate::entry::{entries_view, EntryView, LoadedEntry};
use crate::error::{IssueView, ScanIssue};
use crate::path::TreePath;

verus! {

/// A scan the embedding layer must execute off the UI thread.
#[derive(Debug, PartialEq, Eq)]
pub struct ScanRequest {
    /// Directory to list (one level, non-recursive).
    pub path: TreePath,
    /// Generation the result must carry to be accepted.
    pub generation: u32,
    /// Depth of `path` below the root, in components.
    pub depth: u32,
}

/// The mathematical value of a scan request.
pub struct RequestView {
    pub path: Seq<Seq<u8>>,
    pub generation: u32,
    pub depth: u32,
}

impl View for ScanRequest {
    type V = RequestView;

    open spec fn view(&self) -> RequestView {
        RequestView { path: self.path@, generation: self.generation, depth: self.depth }
    }
}

/// A list of requests as mathematical values.
pub open spec fn requests_view(rs: Seq<ScanRequest>) -> Seq<RequestView> {
    rs.map_values(|r: ScanRequest| r@)
}

impl ScanRequest {
    /// A copy of this request.
    pub fn copy(&self) -> (r: ScanRequest)
        ensures
            r@ == self@,
    {
        ScanRequest { path: self.path.copy(), generation: self.generation, depth: self.depth }
    }
}

impl Clone for ScanRequest {
    fn clone(&self) -> (r: ScanRequest)
        ensures
            r@ == self@,
    {
        self.copy()
    }
}

/// A completed scan, ready to merge.
#[derive(Debug, PartialEq, Eq)]
pub struct LoadPayload {
    /// Directory that was listed.
    pub path: TreePath,
    /// Generation copied from the originating request.
    pub generation: u32,
    /// Depth copied from the originating request.
    pub depth: u32,
    /// The entries, or the failure.
    pub result: Result<Vec<LoadedEntry>, ScanIssue>,
}

/// The outcome of a scan as a mathematical value.
pub open spec fn result_view(r: Result<Vec<LoadedEntry>, ScanIssue>) -> Result<
    Seq<EntryView>,
    IssueView,
> {
    match r {
        Ok(es) => Ok(entries_view(es@)),
        Err(issue) => Err(issue@),
    }
}

impl LoadPayload {
    /// Package the result of executing `request`: path, generation and
    /// depth are copied from the request.
    pub fn from_scan(request: &ScanRequest, result: Result<Vec<LoadedEntry>, ScanIssue>) -> (r:
        LoadPayload)
        ensures
            r.path@ == request.path@,
            r.generation == request.generation,
            r.depth == request.depth,
            r.result == result,
    {
        LoadPayload {
            path: request.path.copy(),
            generation: request.generation,
            depth: request.depth,
            result,
        }
    }
}

impl Clone for LoadPayload {
    fn clone(&self) -> (r: LoadPayload)
        ensures
            r.path@ == self.path@,
            r.generation == self.generation,
            r.depth == self.depth,
            result_view(r.result) == result_view(self.result),
    {
        let result = match &self.result {
            Ok(es) => Ok(crate::entry::copy_entries(es)),
            Err(e) => Err(e.copy()),
        };
        LoadPayload { path: self.path.copy(), generation: self.generation, depth: self.depth, result }
    }
}

/// What `DirectoryTree::on_loaded` did with a payload.
#[derive(Debug, Clone, PartialEq, Eq)]
pub struct LoadedOutcome {
    /// `false` means the payload was stale (or its node vanished) and the
    /// tree state is unchanged.
    pub accepted: bool,
    /// Speculative follow-up scans to execute.
    pub prefetch_requests: Vec<ScanRequest>,
}

impl LoadedOutcome {
    /// Outcome for a silently discarded payload.
    pub fn discarded() -> (r: LoadedOutcome)
        ensures
            !r.accepted,
            r.prefetch_requests@.len() == 0,
    {
        LoadedOutcome { accepted: false, prefetch_requests: Vec::new() }
    }

    /// Outcome for an accepted merge with the given follow-up scans.
    pub fn accepted(prefetch_requests: Vec<ScanRequest>) -> (r: LoadedOutcome)
        ensures
            r.accepted,
            r.prefetch_requests == prefetch_requests,
    {
        LoadedOutcome { accepted: true, prefetch_requests }
    }
}

} // verus!
