//! Drag-and-drop state and messages for `DirectoryTree`.
//!
//! The widget tracks mouse press, hover and release and emits
//! [`DragOutcome::Completed`] on a valid drop. No filesystem operation is
//! ever performed: moving, copying or rejecting the drop is the
//! application's decision.

use vstd::prelude::*;

use crate::path::{copy_paths, paths_view, starts_with_spec, TreePath};

verus! {

/// Active drag session.
#[derive(Debug, Clone, PartialEq, Eq)]
pub struct DragState {
    /// Paths being dragged: the whole selection when the pressed row was
    /// selected, otherwise just the pressed row.
    pub sources: Vec<TreePath>,
    /// The current valid drop target, if any.
    pub hovered_target: Option<TreePath>,
    /// The row where the mouse was pressed.
    pub started_at: TreePath,
    /// Whether `started_at` is a directory.
    pub started_is_dir: bool,
}

/// The mathematical value of a drag session.
pub struct DragView {
    pub sources: Seq<Seq<Seq<u8>>>,
    pub hovered_target: Option<Seq<Seq<u8>>>,
    pub started_at: Seq<Seq<u8>>,
    pub started_is_dir: bool,
}

/// The value of an optional path.
pub open spec fn opt_path_view(p: Option<TreePath>) -> Option<Seq<Seq<u8>>> {
    match p {
        Some(x) => Some(x@),
        None => None,
    }
}

impl View for DragState {
    type V = DragView;

    open spec fn view(&self) -> DragView {
        DragView {
            sources: paths_view(self.sources@),
            hovered_target: opt_path_view(self.hovered_target),
            started_at: self.started_at@,
            started_is_dir: self.started_is_dir,
        }
    }
}

/// A copy of an optional path.
pub fn copy_opt_path(p: &Option<TreePath>) -> (r: Option<TreePath>)
    ensures
        opt_path_view(r) == opt_path_view(*p),
{
    match p {
        Some(x) => Some(x.copy()),
        None => None,
    }
}

impl DragState {
    /// A copy of this drag session.
    pub fn copy(&self) -> (r: DragState)
        ensures
            r@ == self@,
    {
        DragState {
            sources: copy_paths(&self.sources),
            hovered_target: copy_opt_path(&self.hovered_target),
            started_at: self.started_at.copy(),
            started_is_dir: self.started_is_dir,
        }
    }
}

/// A drag gesture event sent by the view to `DirectoryTree::on_drag_msg`.
#[derive(Debug, Clone, PartialEq, Eq)]
pub enum DragMsg {
    /// Mouse pressed on a row: starts a drag session.
    Pressed { path: TreePath, is_dir: bool },
    /// Mouse entered a row during an active drag.
    Entered(TreePath),
    /// Mouse left a row during an active drag.
    Exited(TreePath),
    /// Mouse released over a row: a click on the pressed row, otherwise
    /// a drop.
    Released(TreePath),
    /// Drag cancelled (Escape key, or release over nothing).
    Cancelled,
}

/// The side effect produced by `DirectoryTree::on_drag_msg`.
#[derive(Debug, Clone, PartialEq, Eq)]
pub enum DragOutcome {
    /// Nothing to do.
    NoOp,
    /// Press and release on the same row: the host selects it.
    Clicked { path: TreePath, is_dir: bool },
    /// A genuine drop: the host performs the move or copy. The widget
    /// does not refresh afterwards.
    Completed { sources: Vec<TreePath>, destination: TreePath },
}

/// The mathematical value of a drag message.
pub enum DragMsgView {
    Pressed { path: Seq<Seq<u8>>, is_dir: bool },
    Entered(Seq<Seq<u8>>),
    Exited(Seq<Seq<u8>>),
    Released(Seq<Seq<u8>>),
    Cancelled,
}

impl View for DragMsg {
    type V = DragMsgView;

    open spec fn view(&self) -> DragMsgView {
        match self {
            DragMsg::Pressed { path, is_dir } => DragMsgView::Pressed { path: path@, is_dir: *is_dir },
            DragMsg::Entered(p) => DragMsgView::Entered(p@),
            DragMsg::Exited(p) => DragMsgView::Exited(p@),
            DragMsg::Released(p) => DragMsgView::Released(p@),
            DragMsg::Cancelled => DragMsgView::Cancelled,
        }
    }
}

/// The mathematical value of a drag outcome.
pub enum DragOutcomeView {
    NoOp,
    Clicked { path: Seq<Seq<u8>>, is_dir: bool },
    Completed { sources: Seq<Seq<Seq<u8>>>, destination: Seq<Seq<u8>> },
}

impl View for DragOutcome {
    type V = DragOutcomeView;

    open spec fn view(&self) -> DragOutcomeView {
        match self {
            DragOutcome::NoOp => DragOutcomeView::NoOp,
            DragOutcome::Clicked { path, is_dir } => DragOutcomeView::Clicked {
                path: path@,
                is_dir: *is_dir,
            },
            DragOutcome::Completed { sources, destination } => DragOutcomeView::Completed {
                sources: paths_view(sources@),
                destination: destination@,
            },
        }
    }
}

/// Whether `path` lies at or under one of `sources`.
pub open spec fn under_some_source(path: Seq<Seq<u8>>, sources: Seq<Seq<Seq<u8>>>) -> bool {
    exists|i: int| 0 <= i < sources.len() && starts_with_spec(path, #[trigger] sources[i])
}

/// A drop target is valid iff it is a directory that is neither a source
/// nor a descendant of one (component-wise).
pub open spec fn valid_target_spec(
    path: Seq<Seq<u8>>,
    sources: Seq<Seq<Seq<u8>>>,
    is_dir: bool,
) -> bool {
    is_dir && !under_some_source(path, sources)
}

/// `true` iff `path` is a valid drop target: a directory that is neither
/// a drag source nor a descendant of one.
pub fn is_valid_target(path: &TreePath, sources: &Vec<TreePath>, is_dir: bool) -> (r: bool)
    ensures
        r == valid_target_spec(path@, paths_view(sources@), is_dir),
{
    if !is_dir {
        return false;
    }
    let mut i: usize = 0;
    while i < sources.len()
        invariant
            i <= sources@.len(),
            forall|j: int| 0 <= j < i ==> !starts_with_spec(path@, #[trigger] sources@[j]@),
        decreases sources@.len() - i,
    {
        if path.starts_with(&sources[i]) {
            assert(paths_view(sources@)[i as int] == sources@[i as int]@);
            return false;
        }
        i = i + 1;
    }
    assert forall|j: int| 0 <= j < sources@.len() implies !starts_with_spec(
        path@,
        #[trigger] paths_view(sources@)[j],
    ) by {
        assert(paths_view(sources@)[j] == sources@[j]@);
    }
    true
}

} // verus!
