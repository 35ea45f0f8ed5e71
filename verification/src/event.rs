//! Events produced by the keyboard handler and the view component, and
//! consumed by the host, which dispatches each one back to the tree.

use vstd::prelude::*;

use crate::drag::{DragMsg, DragMsgView};
use crate::path::TreePath;
use crate::selection::SelectionMode;

verus! {

/// An event emitted by the tree's keyboard handler or the view component.
#[derive(Debug, Clone, PartialEq, Eq)]
pub enum DirectoryTreeEvent {
    /// Expand or collapse the directory at the path.
    Toggled(TreePath),
    /// Change the selection to include `path`.
    Selected {
        /// Target path.
        path: TreePath,
        /// Whether the target is a directory.
        is_dir: bool,
        /// How the selection should change.
        mode: SelectionMode,
    },
    /// A drag gesture, to be passed to `DirectoryTree::on_drag_msg`.
    Drag(DragMsg),
}

/// The mathematical value of an event.
pub enum EventView {
    Toggled(Seq<Seq<u8>>),
    Selected { path: Seq<Seq<u8>>, is_dir: bool, mode: SelectionMode },
    Drag(DragMsgView),
}

impl View for DirectoryTreeEvent {
    type V = EventView;

    open spec fn view(&self) -> EventView {
        match self {
            DirectoryTreeEvent::Toggled(p) => EventView::Toggled(p@),
            DirectoryTreeEvent::Selected { path, is_dir, mode } => EventView::Selected {
                path: path@,
                is_dir: *is_dir,
                mode: *mode,
            },
            DirectoryTreeEvent::Drag(m) => EventView::Drag(m@),
        }
    }
}

/// The value of an optional event.
pub open spec fn opt_event_view(e: Option<DirectoryTreeEvent>) -> Option<EventView> {
    match e {
        Some(x) => Some(x@),
        None => None,
    }
}

} // verus!
