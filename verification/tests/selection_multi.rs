use dioxus_swdir_tree_core::{
    DirectoryTree, DisplayFilter, LoadPayload, LoadedEntry, ScanIssue, ScanRequest, SelectionMode, TreeNode,
    TreePath,
};

use std::io;

/// In-memory copy of the on-disk fixture, listed the way the directory
/// scanner lists it (directories first, then files, each by name):
///
/// ```text
/// /r/
///   .hidden_dir/
///   alpha/
///     inner/
///       deep/
///     notes.txt
///   beta/
///   .hidden_file
///   zeta.txt
/// ```
struct Fixture {
    root: TreePath,
}

impl Fixture {
    fn path(&self, rel: &str) -> TreePath {
        tp(&format!("/r/{rel}"))
    }
}

fn fixture() -> Fixture {
    Fixture { root: tp("/r") }
}

fn tp(s: &str) -> TreePath {
    let mut comps: Vec<Vec<u8>> = Vec::new();
    if s.starts_with('/') {
        comps.push(b"/".to_vec());
    }
    for part in s.split('/').filter(|p| !p.is_empty()) {
        comps.push(part.as_bytes().to_vec());
    }
    TreePath::from_components(comps)
}

fn text(p: &TreePath) -> String {
    String::from_utf8(p.display_bytes()).unwrap()
}

fn listing(path: &TreePath) -> Result<Vec<LoadedEntry>, ScanIssue> {
    let e = |p: &str, d: bool, h: bool| LoadedEntry::new(tp(p), d, h);
    match text(path).as_str() {
        "/r" => Ok(vec![
            e("/r/.hidden_dir", true, true),
            e("/r/alpha", true, false),
            e("/r/beta", true, false),
            e("/r/.hidden_file", false, true),
            e("/r/zeta.txt", false, false),
        ]),
        "/r/alpha" => Ok(vec![e("/r/alpha/inner", true, false), e("/r/alpha/notes.txt", false, false)]),
        "/r/alpha/inner" => Ok(vec![e("/r/alpha/inner/deep", true, false)]),
        "/r/alpha/inner/deep" | "/r/beta" | "/r/.hidden_dir" => Ok(vec![]),
        _ => Err(ScanIssue::new(path.clone(), io::ErrorKind::NotFound, "No such file or directory".to_string())),
    }
}

/// Run a scan request against the fixture.
fn run(req: &ScanRequest) -> LoadPayload {
    LoadPayload::from_scan(req, listing(&req.path))
}

#[allow(dead_code)]
fn child_names(node: &TreeNode) -> Vec<String> {
    node.children.iter().map(|c| String::from_utf8_lossy(&c.file_name()).into_owned()).collect()
}

#[allow(dead_code)]
fn names_at(tree: &DirectoryTree, path: &TreePath) -> Vec<String> {
    tree.find(path).map(child_names).unwrap_or_default()
}

/// `selected_paths` is insertion-ordered and duplicate-free.
#[test]
fn s6_1_insertion_order_and_no_duplicates() {
    let fx = fixture();
    let mut tree = DirectoryTree::new(fx.root.clone());
    tree.expand_blocking(&fx.root, run).expect("root scan");

    let alpha = fx.path("alpha");
    let beta = fx.path("beta");
    let zeta = fx.path("zeta.txt");

    tree.on_selected(&alpha, true, SelectionMode::Toggle);
    tree.on_selected(&beta, true, SelectionMode::Toggle);
    tree.on_selected(&zeta, false, SelectionMode::Toggle);

    assert_eq!(tree.selected_paths(), [alpha.clone(), beta.clone(), zeta.clone()]);

    tree.on_selected(&alpha, true, SelectionMode::Toggle);
    tree.on_selected(&alpha, true, SelectionMode::Toggle);
    assert_eq!(tree.selected_paths(), [beta.clone(), zeta.clone(), alpha.clone()]);
}

/// Toggle adds absent paths and removes present paths.
#[test]
fn s6_2_toggle_add_and_remove() {
    let fx = fixture();
    let mut tree = DirectoryTree::new(fx.root.clone());
    tree.expand_blocking(&fx.root, run).expect("root scan");

    let alpha = fx.path("alpha");
    assert!(!tree.is_selected(&alpha));

    tree.on_selected(&alpha, true, SelectionMode::Toggle);
    assert!(tree.is_selected(&alpha));
    assert!(tree.find(&alpha).unwrap().is_selected);

    tree.on_selected(&alpha, true, SelectionMode::Toggle);
    assert!(!tree.is_selected(&alpha));
    assert!(!tree.find(&alpha).unwrap().is_selected);
}

/// ExtendRange: the anchor does not move across repeated Shift-clicks.
#[test]
fn s6_3_extend_range_anchor_does_not_move() {
    let fx = fixture();
    let mut tree = DirectoryTree::new(fx.root.clone());
    tree.expand_blocking(&fx.root, run).expect("root scan");

    let root = fx.root.clone();
    let alpha = fx.path("alpha");
    let beta = fx.path("beta");
    let zeta = fx.path("zeta.txt");

    tree.on_selected(&alpha, true, SelectionMode::Replace);
    assert_eq!(tree.selected_paths(), std::slice::from_ref(&alpha));

    tree.on_selected(&beta, true, SelectionMode::ExtendRange);
    assert_eq!(tree.selected_paths(), [alpha.clone(), beta.clone()]);

    tree.on_selected(&zeta, false, SelectionMode::ExtendRange);
    assert_eq!(tree.selected_paths(), [alpha.clone(), beta.clone(), zeta.clone()]);

    tree.on_selected(&root, true, SelectionMode::ExtendRange);
    assert_eq!(tree.selected_paths(), [root.clone(), alpha.clone()]);

    tree.on_selected(&beta, true, SelectionMode::ExtendRange);
    assert_eq!(tree.selected_paths(), [alpha.clone(), beta.clone()]);
}

/// ExtendRange with no anchor behaves as Replace.
#[test]
fn s6_3_extend_range_without_anchor_is_replace() {
    let fx = fixture();
    let mut tree = DirectoryTree::new(fx.root.clone());
    tree.expand_blocking(&fx.root, run).expect("root scan");

    let beta = fx.path("beta");
    tree.on_selected(&beta, true, SelectionMode::ExtendRange);
    assert_eq!(tree.selected_paths(), std::slice::from_ref(&beta));
}

/// The selection set is not changed by `set_filter`; a path hidden by
/// the new filter stays selected and its node's flag is restored when it
/// becomes visible again.
#[test]
fn s6_4_selection_survives_filter_change() {
    let fx = fixture();
    let mut tree = DirectoryTree::new(fx.root.clone()).with_filter(DisplayFilter::AllIncludingHidden);
    tree.expand_blocking(&fx.root, run).expect("root scan");

    let hidden_dir = fx.path(".hidden_dir");
    tree.on_selected(&hidden_dir, true, SelectionMode::Replace);
    assert!(tree.is_selected(&hidden_dir));
    assert!(tree.find(&hidden_dir).unwrap().is_selected);

    tree.set_filter(DisplayFilter::FilesAndFolders);
    assert!(tree.find(&hidden_dir).is_none(), "node hidden by filter");
    assert!(tree.is_selected(&hidden_dir), "authoritative path survives filter change");

    tree.set_filter(DisplayFilter::AllIncludingHidden);
    let node = tree.find(&hidden_dir).expect("node visible again");
    assert!(node.is_selected, "flag re-synced when node becomes visible again");
}

/// Selection survives `on_loaded` merges, and a selected path that had
/// no node gains its flag once the node exists.
#[test]
fn s6_5_selection_survives_on_loaded_merge() {
    let fx = fixture();
    let mut tree = DirectoryTree::new(fx.root.clone());
    tree.expand_blocking(&fx.root, run).expect("initial root scan");

    let alpha = fx.path("alpha");
    let beta = fx.path("beta");
    let inner = fx.path("alpha/inner");

    tree.on_selected(&alpha, true, SelectionMode::Toggle);
    tree.on_selected(&beta, true, SelectionMode::Toggle);
    tree.on_selected(&inner, true, SelectionMode::Toggle);
    assert_eq!(tree.selected_paths(), [alpha.clone(), beta.clone(), inner.clone()]);
    assert!(tree.find(&inner).is_none(), "inner not yet loaded");

    let request = tree.on_toggled(&alpha).expect("alpha is unloaded; scan required");
    let payload = run(&request);
    let outcome = tree.on_loaded(payload);
    assert!(outcome.accepted);

    assert_eq!(tree.selected_paths(), [alpha.clone(), beta.clone(), inner.clone()]);
    assert!(tree.find(&alpha).unwrap().is_selected);
    assert!(tree.find(&beta).unwrap().is_selected);
    let inner_node = tree.find(&inner).expect("inner now visible");
    assert!(inner_node.is_selected);
}

/// A range uses visible-row order, so the children of a collapsed
/// directory are not between it and its next sibling.
#[test]
fn extend_range_respects_visible_rows_skipping_collapsed_children() {
    let fx = fixture();
    let mut tree = DirectoryTree::new(fx.root.clone());
    tree.expand_blocking(&fx.root, run).expect("root scan");
    tree.expand_blocking(&fx.path("alpha"), run).expect("alpha scan");

    let root = fx.root.clone();
    let beta = fx.path("beta");

    tree.on_toggled(&fx.path("alpha"));

    tree.on_selected(&root, true, SelectionMode::Replace);
    tree.on_selected(&beta, true, SelectionMode::ExtendRange);

    assert_eq!(tree.selected_paths(), [root.clone(), fx.path("alpha"), beta.clone()]);
    assert!(!tree.is_selected(&fx.path("alpha/inner")));
    assert!(!tree.is_selected(&fx.path("alpha/notes.txt")));
}
