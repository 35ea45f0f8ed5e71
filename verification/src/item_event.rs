//! Events of `ItemTree`, emitted by its keyboard handler or the view's
//! mouse handlers and dispatched back by the host through `on_toggled`,
//! `on_selected` or `on_drag_msg`.

use vstd::prelude::*;

use crate::item_tree::drag::ItemDragMsg;
use crate::item_tree::node::NodeId;
use crate::selection::SelectionMode;

verus! {

/// An event for `ItemTree`.
#[derive(Debug, Clone, Copy, PartialEq, Eq, Structural)]
pub enum ItemTreeEvent {
    /// Expand or collapse the node.
    Toggled(NodeId),
    /// Change the selection.
    Selected(NodeId, SelectionMode),
    /// A drag gesture, to be passed to `ItemTree::on_drag_msg`.
    Drag(ItemDragMsg),
}

} // verus!
