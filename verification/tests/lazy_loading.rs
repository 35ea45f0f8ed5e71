use dioxus_swdir_tree_core::{DirectoryTree, LoadPayload, LoadedEntry, ScanIssue, ScanRequest, TreeNode, TreePath};

use std::io;

/// In-memory copy of the on-disk fixture, listed the way the directory
/// scanner lists it (directories first, then files, each by name):
///
/// ```text
/// /r/
///   .hidden_dir/
///   alpha/
///     inner/
///       deep/
///     notes.txt
///   beta/
///   .hidden_file
///   zeta.txt
/// ```
struct Fixture {
    root: TreePath,
}

impl Fixture {
    fn path(&self, rel: &str) -> TreePath {
        tp(&format!("/r/{rel}"))
    }
}

fn fixture() -> Fixture {
    Fixture { root: tp("/r") }
}

fn tp(s: &str) -> TreePath {
    let mut comps: Vec<Vec<u8>> = Vec::new();
    if s.starts_with('/') {
        comps.push(b"/".to_vec());
    }
    for part in s.split('/').filter(|p| !p.is_empty()) {
        comps.push(part.as_bytes().to_vec());
    }
    TreePath::from_components(comps)
}

fn text(p: &TreePath) -> String {
    String::from_utf8(p.display_bytes()).unwrap()
}

fn listing(path: &TreePath) -> Result<Vec<LoadedEntry>, ScanIssue> {
    let e = |p: &str, d: bool, h: bool| LoadedEntry::new(tp(p), d, h);
    match text(path).as_str() {
        "/r" => Ok(vec![
            e("/r/.hidden_dir", true, true),
            e("/r/alpha", true, false),
            e("/r/beta", true, false),
            e("/r/.hidden_file", false, true),
            e("/r/zeta.txt", false, false),
        ]),
        "/r/alpha" => Ok(vec![e("/r/alpha/inner", true, false), e("/r/alpha/notes.txt", false, false)]),
        "/r/alpha/inner" => Ok(vec![e("/r/alpha/inner/deep", true, false)]),
        "/r/alpha/inner/deep" | "/r/beta" | "/r/.hidden_dir" => Ok(vec![]),
        _ => Err(ScanIssue::new(path.clone(), io::ErrorKind::NotFound, "No such file or directory".to_string())),
    }
}

/// Run a scan request against the fixture.
fn run(req: &ScanRequest) -> LoadPayload {
    LoadPayload::from_scan(req, listing(&req.path))
}

#[allow(dead_code)]
fn child_names(node: &TreeNode) -> Vec<String> {
    node.children.iter().map(|c| String::from_utf8_lossy(&c.file_name()).into_owned()).collect()
}

#[allow(dead_code)]
fn names_at(tree: &DirectoryTree, path: &TreePath) -> Vec<String> {
    tree.find(path).map(child_names).unwrap_or_default()
}

/// Construction performs no I/O: the tree starts as a single unloaded,
/// unexpanded root row and the generation counter at zero.
#[test]
fn s1_1_construction_is_io_free() {
    let fx = fixture();
    let tree = DirectoryTree::new(fx.root.clone());

    let root = tree.root();
    assert!(root.is_dir);
    assert!(!root.is_loaded);
    assert!(!root.is_expanded);
    assert!(root.children.is_empty());
    assert_eq!(root.error, None);
    assert_eq!(tree.generation(), 0);
    assert!(tree.cache().is_empty());

    let rows = tree.visible_rows();
    assert_eq!(rows.len(), 1, "only the root row is drawn before expand");
    assert_eq!(rows[0].0.path, fx.root);
    assert_eq!(rows[0].1, 0);
}

/// Expansion scans exactly one level; the generation bumps before the
/// scan is issued; collapse never bumps; re-expansion of an unloaded
/// directory issues a fresh-generation scan and the older payload is
/// discarded while the fresh one is accepted.
#[test]
fn s1_2_generation_protocol_over_expand_collapse_expand() {
    let fx = fixture();
    let mut tree = DirectoryTree::new(fx.root.clone());

    let first = tree.on_toggled(&fx.root).expect("unloaded expand must produce a scan request");
    assert_eq!(first.generation, 1);
    assert_eq!(tree.generation(), 1, "bumped before the scan runs");
    assert!(tree.root().is_expanded, "expands optimistically");
    assert!(!tree.root().is_loaded, "not loaded until the payload lands");

    assert!(tree.on_toggled(&fx.root).is_none());
    assert_eq!(tree.generation(), 1, "collapse never bumps the generation");
    assert!(!tree.root().is_expanded);

    let second = tree.on_toggled(&fx.root).expect("still-unloaded expand must produce a scan request");
    assert_eq!(second.generation, 2);

    let stale = run(&first);
    let outcome = tree.on_loaded(stale);
    assert!(!outcome.accepted);
    assert!(!tree.root().is_loaded, "stale payload must not merge");

    let fresh = run(&second);
    let outcome = tree.on_loaded(fresh);
    assert!(outcome.accepted);
    let root = tree.root();
    assert!(root.is_loaded);
    assert!(root.is_expanded);
    assert_eq!(child_names(root), ["alpha", "beta", "zeta.txt"]);
    let alpha = tree.find(&fx.path("alpha")).expect("alpha listed");
    assert!(!alpha.is_loaded);
    assert!(alpha.children.is_empty());
}

/// A stale payload leaves the tree equal in every dimension (nodes,
/// cache, generation, config).
#[test]
fn s1_3_stale_payload_leaves_tree_identical() {
    let fx = fixture();
    let mut tree = DirectoryTree::new(fx.root.clone());

    let request = tree.on_toggled(&fx.root).expect("scan request");
    let payload = run(&request);

    tree.on_toggled(&fx.root);
    let _fresh = tree.on_toggled(&fx.root).expect("re-expand");

    let snapshot = tree.clone();
    let outcome = tree.on_loaded(payload);
    assert!(!outcome.accepted);
    assert!(outcome.prefetch_requests.is_empty());
    assert_eq!(tree, snapshot, "discard must be a perfect no-op");
}

/// Children stay in memory across collapse: re-expanding a loaded
/// directory never produces a scan request or a generation bump.
#[test]
fn s1_4_collapse_keeps_children_reexpand_is_io_free() {
    let fx = fixture();
    let mut tree = DirectoryTree::new(fx.root.clone());
    tree.expand_blocking(&fx.root, run).expect("initial scan");
    let gen_after_load = tree.generation();

    assert!(tree.on_toggled(&fx.root).is_none());
    let root = tree.root();
    assert!(!root.is_expanded);
    assert!(root.is_loaded);
    assert_eq!(root.children.len(), 3, "children survive collapse");
    assert_eq!(tree.visible_rows().len(), 1, "but are not drawn");

    assert!(tree.on_toggled(&fx.root).is_none());
    assert_eq!(tree.generation(), gen_after_load);
    assert!(tree.root().is_expanded);
    assert_eq!(tree.visible_rows().len(), 4);
}

/// Depth cap: a directory deeper than `max_depth` expands to a
/// permanently-empty loaded state without any scan being issued.
#[test]
fn s1_5_max_depth_caps_scanning() {
    let fx = fixture();
    let mut tree = DirectoryTree::new(fx.root.clone()).with_max_depth(0);

    tree.expand_blocking(&fx.root, run).expect("root scan allowed");
    let gen_after_root = tree.generation();

    let alpha = fx.path("alpha");
    assert!(tree.on_toggled(&alpha).is_none());
    assert_eq!(tree.generation(), gen_after_root);
    let node = tree.find(&alpha).expect("alpha node");
    assert!(node.is_loaded);
    assert!(node.is_expanded);
    assert!(node.children.is_empty());
    assert_eq!(node.error, None);
}

/// Scan failure: the node becomes a loaded error leaf; later toggles
/// collapse/expand it without retrying the scan.
#[test]
fn s1_6_error_nodes_are_loaded_and_not_auto_retried() {
    let fx = fixture();
    let mut tree = DirectoryTree::new(fx.root.clone());
    tree.expand_blocking(&fx.root, run).expect("root scan");

    // alpha has vanished from the listing by the time it is scanned.
    let alpha = fx.path("alpha");
    let request = tree.on_toggled(&alpha).expect("expand issues a scan");
    let removed = |req: &ScanRequest| {
        let result = if req.path.starts_with(&tp("/r/alpha")) {
            Err(ScanIssue::new(req.path.clone(), io::ErrorKind::NotFound, "No such file or directory".to_string()))
        } else {
            listing(&req.path)
        };
        LoadPayload::from_scan(req, result)
    };
    let payload = removed(&request);
    assert!(payload.result.is_err(), "scan of a removed dir must fail");

    let outcome = tree.on_loaded(payload);
    assert!(outcome.accepted, "an error result is still current");
    let node = tree.find(&alpha).expect("node remains in the tree");
    assert!(node.is_loaded, "error nodes count as loaded");
    assert!(node.children.is_empty());
    let issue = node.error.as_ref().expect("error recorded on the node");
    assert_eq!(issue.path(), &alpha);

    let generation = tree.generation();
    assert!(tree.on_toggled(&alpha).is_none(), "collapse");
    assert!(tree.on_toggled(&alpha).is_none(), "fast re-expand, no retry");
    assert_eq!(tree.generation(), generation);
    let node = tree.find(&alpha).expect("alpha node");
    assert!(node.error.is_some(), "error sticks until a real refresh");
}

/// Files are never expandable.
#[test]
fn toggling_a_file_is_a_no_op() {
    let fx = fixture();
    let mut tree = DirectoryTree::new(fx.root.clone());
    tree.expand_blocking(&fx.root, run).expect("root scan");

    let zeta = fx.path("zeta.txt");
    let snapshot = tree.clone();
    assert!(tree.on_toggled(&zeta).is_none());
    assert_eq!(tree, snapshot, "file toggle must not change anything");
}
