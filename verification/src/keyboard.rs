//! Framework-neutral keyboard navigation for `DirectoryTree`.
//!
//! [`handle_key`] only reads the tree: it returns the event the key
//! stands for, and the host dispatches that event back through
//! `on_toggled`, `on_selected` or `on_drag_msg`, keeping one mutation
//! funnel. All movement is computed over the drawn rows relative to the
//! active path; when the active path is not drawn, every key that needs
//! it does nothing, while `Home` and `End` still work.

use vstd::prelude::*;

use crate::drag::{DragMsg, DragMsgView};
use crate::event::{opt_event_view, DirectoryTreeEvent, EventView};
use crate::node::NodeView;
use crate::path::{parent_spec, TreePath};
use crate::selection::SelectionMode;
use crate::tree::rows::{rows_spec, rows_view};
use crate::tree::transitions::row_index;
use crate::tree::{DirectoryTree, TreeView};

verus! {

/// A bound key, independent of any UI framework.
#[derive(Debug, Clone, Copy, PartialEq, Eq, Structural)]
pub enum TreeKey {
    Up,
    Down,
    Home,
    End,
    Enter,
    /// Space and Ctrl+Space both map here.
    Space,
    Left,
    Right,
    /// Cancels an active drag; unbound otherwise.
    Escape,
}

/// Modifier keys held at the time of the key press.
#[derive(Debug, Clone, Copy, PartialEq, Eq, Structural)]
pub struct Modifiers {
    pub shift: bool,
    pub ctrl: bool,
}

impl Default for Modifiers {
    fn default() -> (r: Modifiers)
        ensures
            !r.shift,
            !r.ctrl,
    {
        Modifiers { shift: false, ctrl: false }
    }
}

/// The event selecting row `i` of `rows` with `mode`.
pub open spec fn select_row(rows: Seq<(NodeView, u32)>, i: int, mode: SelectionMode) -> Option<
    EventView,
> {
    Some(EventView::Selected { path: rows[i].0.path, is_dir: rows[i].0.is_dir, mode })
}

/// The event a key press stands for in state `v`, if any.
///
/// With `a` the index of the first drawn row holding the active path:
/// - `Up`/`Down`: select the row above/below `a` (no wrap), extending
///   the range with Shift and replacing the selection otherwise.
/// - `Home`/`End`: the same for the first/last row; need no active row.
/// - `Enter`: toggle row `a` when it is a directory.
/// - `Space`: toggle-select row `a`.
/// - `Left`: collapse row `a` when it is an expanded directory; otherwise
///   select its parent, except at the mounted root.
/// - `Right`: on a directory row `a`, expand it when collapsed; when
///   expanded, select the next row if that row is its direct child.
/// - `Escape`: cancel the drag when one is active.
pub open spec fn key_spec(v: TreeView, key: TreeKey, mods: Modifiers) -> Option<EventView> {
    let rows = rows_spec(v);
    let active = match v.active {
        Some(a) => row_index(rows, a),
        None => None,
    };
    let mode = if mods.shift {
        SelectionMode::ExtendRange
    } else {
        SelectionMode::Replace
    };
    match key {
        TreeKey::Up => match active {
            Some(i) => if i >= 1 {
                select_row(rows, i - 1, mode)
            } else {
                None
            },
            None => None,
        },
        TreeKey::Down => match active {
            Some(i) => if i + 1 < rows.len() {
                select_row(rows, i + 1, mode)
            } else {
                None
            },
            None => None,
        },
        TreeKey::Home => if rows.len() > 0 {
            select_row(rows, 0, mode)
        } else {
            None
        },
        TreeKey::End => if rows.len() > 0 {
            select_row(rows, rows.len() - 1, mode)
        } else {
            None
        },
        TreeKey::Enter => match active {
            Some(i) => if rows[i].0.is_dir {
                Some(EventView::Toggled(rows[i].0.path))
            } else {
                None
            },
            None => None,
        },
        TreeKey::Space => match active {
            Some(i) => select_row(rows, i, SelectionMode::Toggle),
            None => None,
        },
        TreeKey::Left => match active {
            Some(i) => {
                let n = rows[i].0;
                if n.is_dir && n.is_expanded {
                    Some(EventView::Toggled(n.path))
                } else if n.path == v.root_path {
                    None
                } else {
                    match parent_spec(n.path) {
                        Some(pp) => Some(
                            EventView::Selected { path: pp, is_dir: true, mode: SelectionMode::Replace },
                        ),
                        None => None,
                    }
                }
            },
            None => None,
        },
        TreeKey::Right => match active {
            Some(i) => {
                let n = rows[i].0;
                if !n.is_dir {
                    None
                } else if !n.is_expanded {
                    Some(EventView::Toggled(n.path))
                } else if i + 1 < rows.len() && parent_spec(rows[i + 1].0.path) == Some(n.path) {
                    select_row(rows, i + 1, SelectionMode::Replace)
                } else {
                    None
                }
            },
            None => None,
        },
        TreeKey::Escape => if v.drag is Some {
            Some(EventView::Drag(DragMsgView::Cancelled))
        } else {
            None
        },
    }
}

/// The `Selected` event for a drawn node.
fn selected_event(node: &crate::node::TreeNode, mode: SelectionMode) -> (r: DirectoryTreeEvent)
    ensures
        r@ == (EventView::Selected { path: node@.path, is_dir: node@.is_dir, mode }),
{
    DirectoryTreeEvent::Selected { path: node.path.copy(), is_dir: node.is_dir, mode }
}

/// Map a key press onto the event it stands for (see
/// [`key_spec`]), or `None` when the key does nothing here; the host may
/// then handle it itself. Never mutates the tree.
pub fn handle_key(tree: &DirectoryTree, key: TreeKey, modifiers: Modifiers) -> (r: Option<
    DirectoryTreeEvent,
>)
    requires
        tree.wf(),
    ensures
        opt_event_view(r) == key_spec(tree@, key, modifiers),
{
    let rows = tree.visible_rows();
    let ghost rv = rows_view(rows@);
    let active: Option<usize> = match tree.selected_path() {
        Some(a) => DirectoryTree::row_position(&rows, a),
        None => None,
    };
    proof {
        assert(rv.len() == rows@.len());
    }
    let mode = if modifiers.shift {
        SelectionMode::ExtendRange
    } else {
        SelectionMode::Replace
    };
    match key {
        TreeKey::Up => match active {
            Some(i) => if i >= 1 {
                proof {
                    assert(rv[i - 1] == (rows@[i - 1].0@, rows@[i - 1].1));
                }
                Some(selected_event(rows[i - 1].0, mode))
            } else {
                None
            },
            None => None,
        },
        TreeKey::Down => match active {
            Some(i) => if i + 1 < rows.len() {
                proof {
                    assert(rv[i + 1] == (rows@[i + 1].0@, rows@[i + 1].1));
                }
                Some(selected_event(rows[i + 1].0, mode))
            } else {
                None
            },
            None => None,
        },
        TreeKey::Home => if rows.len() > 0 {
            proof {
                assert(rv[0] == (rows@[0].0@, rows@[0].1));
            }
            Some(selected_event(rows[0].0, mode))
        } else {
            None
        },
        TreeKey::End => if rows.len() > 0 {
            let last = rows.len() - 1;
            proof {
                assert(rv[last as int] == (rows@[last as int].0@, rows@[last as int].1));
            }
            Some(selected_event(rows[last].0, mode))
        } else {
            None
        },
        TreeKey::Enter => match active {
            Some(i) => {
                let node = rows[i].0;
                proof {
                    assert(rv[i as int] == (rows@[i as int].0@, rows@[i as int].1));
                }
                if node.is_dir {
                    Some(DirectoryTreeEvent::Toggled(node.path.copy()))
                } else {
                    None
                }
            },
            None => None,
        },
        TreeKey::Space => match active {
            Some(i) => {
                proof {
                    assert(rv[i as int] == (rows@[i as int].0@, rows@[i as int].1));
                }
                Some(selected_event(rows[i].0, SelectionMode::Toggle))
            },
            None => None,
        },
        TreeKey::Left => match active {
            Some(i) => {
                let node = rows[i].0;
                proof {
                    assert(rv[i as int] == (rows@[i as int].0@, rows@[i as int].1));
                }
                if node.is_dir && node.is_expanded {
                    Some(DirectoryTreeEvent::Toggled(node.path.copy()))
                } else if node.path.same_as(&tree.config().root_path) {
                    None
                } else {
                    match node.path.parent() {
                        Some(pp) => Some(
                            DirectoryTreeEvent::Selected {
                                path: pp,
                                is_dir: true,
                                mode: SelectionMode::Replace,
                            },
                        ),
                        None => None,
                    }
                }
            },
            None => None,
        },
        TreeKey::Right => match active {
            Some(i) => {
                let node = rows[i].0;
                proof {
                    assert(rv[i as int] == (rows@[i as int].0@, rows@[i as int].1));
                }
                if !node.is_dir {
                    None
                } else if !node.is_expanded {
                    Some(DirectoryTreeEvent::Toggled(node.path.copy()))
                } else if i + 1 < rows.len() {
                    let next = rows[i + 1].0;
                    proof {
                        assert(rv[i + 1] == (rows@[i + 1].0@, rows@[i + 1].1));
                    }
                    let is_child = match next.path.parent() {
                        Some(pp) => pp.same_as(&node.path),
                        None => false,
                    };
                    if is_child {
                        Some(selected_event(next, SelectionMode::Replace))
                    } else {
                        None
                    }
                } else {
                    None
                }
            },
            None => None,
        },
        TreeKey::Escape => if tree.drag_state().is_some() {
            Some(DirectoryTreeEvent::Drag(DragMsg::Cancelled))
        } else {
            None
        },
    }
}

} // verus!
