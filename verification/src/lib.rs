//! Framework-free state machine for a lazy-loading directory-tree widget,
//! and its sibling over caller-supplied item trees.
//!
//! State transitions are synchronous methods on [`DirectoryTree`]. They
//! never block on I/O and never spawn tasks: a transition that needs the
//! disk returns a [`ScanRequest`] as data, the embedding layer executes
//! it and feeds the resulting [`LoadPayload`] back through
//! [`DirectoryTree::on_loaded`]. Every scan carries a wrapping `u32`
//! generation; a result is merged iff its generation equals the tree's
//! current counter, so out-of-order delivery cannot corrupt the tree.

pub mod path;
pub mod config;
pub mod entry;
pub mod error;
pub mod scan;
pub mod cache;
pub mod node;
pub mod selection;
pub mod search;
pub mod drag;
pub mod event;
pub mod keyboard;
pub mod icon;
pub mod tree;
pub mod item_tree;
pub mod item_event;

pub use cache::{CachedScan, TreeCache};
pub use config::{default_prefetch_skip, DisplayFilter, TreeConfig};
pub use drag::{DragMsg, DragOutcome, DragState};
pub use entry::LoadedEntry;
pub use error::ScanIssue;
pub use event::DirectoryTreeEvent;
pub use icon::{IconRole, LucideTheme, UnicodeTheme, LUCIDE_FONT_BYTES};
pub use item_event::ItemTreeEvent;
pub use item_tree::{
    DropPosition, ItemDragMsg, ItemDragOutcome, ItemNode, ItemSearchState, ItemTree, NodeId,
    VisibleItem,
};
pub use keyboard::{handle_key, Modifiers, TreeKey};
pub use node::TreeNode;
pub use path::TreePath;
pub use scan::{LoadPayload, LoadedOutcome, ScanRequest};
pub use search::SearchState;
pub use selection::SelectionMode;
pub use tree::DirectoryTree;
