use dioxus_swdir_tree_core::drag::{DragMsg, DragOutcome};
use dioxus_swdir_tree_core::event::DirectoryTreeEvent;
use dioxus_swdir_tree_core::keyboard::{handle_key, Modifiers, TreeKey};
use dioxus_swdir_tree_core::{
    DirectoryTree, DisplayFilter, LoadPayload, LoadedEntry, ScanIssue, ScanRequest, SelectionMode, TreeNode,
    TreePath,
};

use std::io;

/// In-memory copy of the on-disk fixture, listed the way the directory
/// scanner lists it (directories first, then files, each by name):
///
/// ```text
/// /r/
///   .hidden_dir/
///   alpha/
///     inner/
///       deep/
///     notes.txt
///   beta/
///   .hidden_file
///   zeta.txt
/// ```
struct Fixture {
    root: TreePath,
}

impl Fixture {
    fn path(&self, rel: &str) -> TreePath {
        tp(&format!("/r/{rel}"))
    }
}

fn fixture() -> Fixture {
    Fixture { root: tp("/r") }
}

fn tp(s: &str) -> TreePath {
    let mut comps: Vec<Vec<u8>> = Vec::new();
    if s.starts_with('/') {
        comps.push(b"/".to_vec());
    }
    for part in s.split('/').filter(|p| !p.is_empty()) {
        comps.push(part.as_bytes().to_vec());
    }
    TreePath::from_components(comps)
}

fn text(p: &TreePath) -> String {
    String::from_utf8(p.display_bytes()).unwrap()
}

fn listing(path: &TreePath) -> Result<Vec<LoadedEntry>, ScanIssue> {
    let e = |p: &str, d: bool, h: bool| LoadedEntry::new(tp(p), d, h);
    match text(path).as_str() {
        "/r" => Ok(vec![
            e("/r/.hidden_dir", true, true),
            e("/r/alpha", true, false),
            e("/r/beta", true, false),
            e("/r/.hidden_file", false, true),
            e("/r/zeta.txt", false, false),
        ]),
        "/r/alpha" => Ok(vec![e("/r/alpha/inner", true, false), e("/r/alpha/notes.txt", false, false)]),
        "/r/alpha/inner" => Ok(vec![e("/r/alpha/inner/deep", true, false)]),
        "/r/alpha/inner/deep" | "/r/beta" | "/r/.hidden_dir" => Ok(vec![]),
        _ => Err(ScanIssue::new(path.clone(), io::ErrorKind::NotFound, "No such file or directory".to_string())),
    }
}

/// Run a scan request against the fixture.
fn run(req: &ScanRequest) -> LoadPayload {
    LoadPayload::from_scan(req, listing(&req.path))
}

#[allow(dead_code)]
fn child_names(node: &TreeNode) -> Vec<String> {
    node.children.iter().map(|c| String::from_utf8_lossy(&c.file_name()).into_owned()).collect()
}

#[allow(dead_code)]
fn names_at(tree: &DirectoryTree, path: &TreePath) -> Vec<String> {
    tree.find(path).map(child_names).unwrap_or_default()
}

/// Pressing on a row not in the selection: sources = [path].
#[test]
fn s7_1_pressed_unselected_row_sources_single() {
    let fx = fixture();
    let mut tree = DirectoryTree::new(fx.root.clone());
    tree.expand_blocking(&fx.root, run).expect("root scan");

    let alpha = fx.path("alpha");
    let outcome = tree.on_drag_msg(DragMsg::Pressed {
        path: alpha.clone(),
        is_dir: true,
    });
    assert!(matches!(outcome, DragOutcome::NoOp));
    let drag = tree.drag_state().expect("drag active");
    assert_eq!(drag.sources, vec![alpha.clone()]);
    assert_eq!(drag.started_at, alpha);
    assert!(drag.started_is_dir);
    assert!(drag.hovered_target.is_none());
}

/// Pressing on a row that is in the selection: sources = all selected.
#[test]
fn s7_1_pressed_selected_row_sources_all_selected() {
    let fx = fixture();
    let mut tree = DirectoryTree::new(fx.root.clone());
    tree.expand_blocking(&fx.root, run).expect("root scan");

    let alpha = fx.path("alpha");
    let beta = fx.path("beta");
    tree.on_selected(&alpha, true, SelectionMode::Toggle);
    tree.on_selected(&beta, true, SelectionMode::Toggle);

    // Pressing on one of the selected rows: sources = full selection.
    tree.on_drag_msg(DragMsg::Pressed {
        path: alpha.clone(),
        is_dir: true,
    });
    let drag = tree.drag_state().expect("drag active");
    assert_eq!(drag.sources, vec![alpha.clone(), beta.clone()]);
}

/// Released on the same row as Pressed: DragOutcome::Clicked.
#[test]
fn s7_2_released_same_row_is_click() {
    let fx = fixture();
    let mut tree = DirectoryTree::new(fx.root.clone());
    tree.expand_blocking(&fx.root, run).expect("root scan");

    let alpha = fx.path("alpha");
    tree.on_drag_msg(DragMsg::Pressed {
        path: alpha.clone(),
        is_dir: true,
    });
    let outcome = tree.on_drag_msg(DragMsg::Released(alpha.clone()));
    assert!(
        matches!(&outcome, DragOutcome::Clicked { path, is_dir: true } if path == &alpha),
        "expected Clicked, got {outcome:?}"
    );
    assert!(tree.drag_state().is_none(), "drag cleared after release");
}

/// Released on a different row: DragOutcome::Completed.
#[test]
fn s7_2_released_different_row_is_drop() {
    let fx = fixture();
    let mut tree = DirectoryTree::new(fx.root.clone());
    tree.expand_blocking(&fx.root, run).expect("root scan");

    let alpha = fx.path("alpha");
    let beta = fx.path("beta");
    tree.on_drag_msg(DragMsg::Pressed {
        path: alpha.clone(),
        is_dir: true,
    });
    let outcome = tree.on_drag_msg(DragMsg::Released(beta.clone()));
    assert!(
        matches!(&outcome, DragOutcome::Completed { sources, destination }
            if sources == std::slice::from_ref(&alpha) && destination == &beta),
        "expected Completed, got {outcome:?}"
    );
    assert!(tree.drag_state().is_none());
}

/// A file is never a valid drop target.
#[test]
fn s7_3_file_is_not_valid_target() {
    let fx = fixture();
    let mut tree = DirectoryTree::new(fx.root.clone());
    tree.expand_blocking(&fx.root, run).expect("root scan");

    let alpha = fx.path("alpha");
    tree.on_drag_msg(DragMsg::Pressed {
        path: alpha.clone(),
        is_dir: true,
    });
    tree.on_drag_msg(DragMsg::Entered(fx.path("zeta.txt")));
    assert!(tree.drag_state().unwrap().hovered_target.is_none());
}

/// A source path is not a valid drop target.
#[test]
fn s7_3_source_is_not_valid_target() {
    let fx = fixture();
    let mut tree = DirectoryTree::new(fx.root.clone());
    tree.expand_blocking(&fx.root, run).expect("root scan");

    let alpha = fx.path("alpha");
    tree.on_drag_msg(DragMsg::Pressed {
        path: alpha.clone(),
        is_dir: true,
    });
    tree.on_drag_msg(DragMsg::Entered(alpha.clone()));
    assert!(tree.drag_state().unwrap().hovered_target.is_none());
}

/// A descendant of a source is not a valid drop target
/// (component-wise prefix check, not string prefix).
#[test]
fn s7_3_descendant_of_source_is_not_valid_target() {
    let fx = fixture();
    let mut tree = DirectoryTree::new(fx.root.clone());
    tree.expand_blocking(&fx.root, run).expect("root scan");
    tree.expand_blocking(&fx.path("alpha"), run).expect("alpha scan");

    let alpha = fx.path("alpha");
    let inner = fx.path("alpha/inner");
    tree.on_drag_msg(DragMsg::Pressed {
        path: alpha.clone(),
        is_dir: true,
    });
    tree.on_drag_msg(DragMsg::Entered(inner.clone()));
    assert!(tree.drag_state().unwrap().hovered_target.is_none());
}

/// A valid directory that is neither a source nor a descendant
/// becomes the hovered target.
#[test]
fn s7_3_valid_directory_becomes_target() {
    let fx = fixture();
    let mut tree = DirectoryTree::new(fx.root.clone());
    tree.expand_blocking(&fx.root, run).expect("root scan");

    let alpha = fx.path("alpha");
    let beta = fx.path("beta");
    tree.on_drag_msg(DragMsg::Pressed {
        path: alpha.clone(),
        is_dir: true,
    });
    tree.on_drag_msg(DragMsg::Entered(beta.clone()));
    assert_eq!(tree.drag_state().unwrap().hovered_target, Some(beta));
}

/// Exited clears hovered_target only if it still equals the exited path.
#[test]
fn s7_3_exited_guards_against_out_of_order() {
    let fx = fixture();
    let mut tree = DirectoryTree::new(fx.root.clone());
    tree.expand_blocking(&fx.root, run).expect("root scan");

    let alpha = fx.path("alpha");
    let beta = fx.path("beta");
    tree.on_drag_msg(DragMsg::Pressed {
        path: alpha.clone(),
        is_dir: true,
    });
    tree.on_drag_msg(DragMsg::Entered(beta.clone()));
    assert_eq!(
        tree.drag_state().unwrap().hovered_target,
        Some(beta.clone())
    );

    // Exited from a path that is NOT the current target: no-op.
    tree.on_drag_msg(DragMsg::Exited(fx.root.clone()));
    assert_eq!(
        tree.drag_state().unwrap().hovered_target,
        Some(beta.clone()),
        "hovered_target unchanged when Exited for a different path"
    );

    // Exited from the actual target: clears it.
    tree.on_drag_msg(DragMsg::Exited(beta.clone()));
    assert!(tree.drag_state().unwrap().hovered_target.is_none());
}

/// DragMsg::Cancelled clears the drag state.
#[test]
fn s7_4_cancelled_clears_drag() {
    let fx = fixture();
    let mut tree = DirectoryTree::new(fx.root.clone());
    tree.expand_blocking(&fx.root, run).expect("root scan");

    tree.on_drag_msg(DragMsg::Pressed {
        path: fx.path("alpha"),
        is_dir: true,
    });
    assert!(tree.drag_state().is_some());

    let outcome = tree.on_drag_msg(DragMsg::Cancelled);
    assert!(matches!(outcome, DragOutcome::NoOp));
    assert!(tree.drag_state().is_none());
}

/// Escape key via handle_key produces DragMsg::Cancelled when drag active.
#[test]
fn s7_4_escape_key_cancels_drag_when_active() {
    let fx = fixture();
    let mut tree = DirectoryTree::new(fx.root.clone());
    tree.expand_blocking(&fx.root, run).expect("root scan");

    tree.on_drag_msg(DragMsg::Pressed {
        path: fx.path("alpha"),
        is_dir: true,
    });
    let ev = handle_key(&tree, TreeKey::Escape, Modifiers::default())
        .expect("Escape should produce event when drag active");
    assert!(
        matches!(&ev, DirectoryTreeEvent::Drag(DragMsg::Cancelled)),
        "expected Drag(Cancelled), got {ev:?}"
    );
}

/// Escape returns None when no drag is active.
#[test]
fn s7_4_escape_key_is_noop_without_drag() {
    let fx = fixture();
    let tree = DirectoryTree::new(fx.root.clone());
    assert!(handle_key(&tree, TreeKey::Escape, Modifiers::default()).is_none());
}

/// The outcome carries all sources and the destination; the tree
/// does NOT auto-refresh (the application calls on_toggled explicitly).
#[test]
fn s7_5_drag_completed_carries_sources_and_destination() {
    let fx = fixture();
    let mut tree = DirectoryTree::new(fx.root.clone());
    tree.expand_blocking(&fx.root, run).expect("root scan");

    let alpha = fx.path("alpha");
    let beta = fx.path("beta");
    let zeta = fx.path("zeta.txt");

    // Select alpha and zeta, then press on alpha.
    tree.on_selected(&alpha, true, SelectionMode::Toggle);
    tree.on_selected(&zeta, false, SelectionMode::Toggle);
    tree.on_drag_msg(DragMsg::Pressed {
        path: alpha.clone(),
        is_dir: true,
    });
    tree.on_drag_msg(DragMsg::Entered(beta.clone()));

    let outcome = tree.on_drag_msg(DragMsg::Released(beta.clone()));
    match outcome {
        DragOutcome::Completed {
            sources,
            destination,
        } => {
            assert_eq!(sources, vec![alpha.clone(), zeta.clone()]);
            assert_eq!(destination, beta);
        }
        other => panic!("expected Completed, got {other:?}"),
    }
    // Tree is NOT automatically refreshed: beta is still in same state.
    assert!(tree.find(&beta).is_some());
    assert!(tree.drag_state().is_none());
}

/// set_filter does not clear the drag state.
#[test]
fn s7_6_set_filter_preserves_drag_state() {
    let fx = fixture();
    let mut tree = DirectoryTree::new(fx.root.clone());
    tree.expand_blocking(&fx.root, run).expect("root scan");

    let alpha = fx.path("alpha");
    tree.on_drag_msg(DragMsg::Pressed {
        path: alpha.clone(),
        is_dir: true,
    });
    assert!(tree.drag_state().is_some());

    tree.set_filter(DisplayFilter::FoldersOnly);
    assert!(
        tree.drag_state().is_some(),
        "drag must survive filter change"
    );
    assert_eq!(tree.drag_state().unwrap().started_at, alpha);
}

#[test]
fn cancelled_without_active_drag_is_noop() {
    let fx = fixture();
    let mut tree = DirectoryTree::new(fx.root.clone());
    let snapshot = tree.clone();
    let outcome = tree.on_drag_msg(DragMsg::Cancelled);
    assert!(matches!(outcome, DragOutcome::NoOp));
    assert_eq!(tree, snapshot);
}
