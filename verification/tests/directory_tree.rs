use dioxus_swdir_tree_core::drag::DragMsg;
use dioxus_swdir_tree_core::path::PathSet;
use dioxus_swdir_tree_core::{SearchState, TreeCache};
use dioxus_swdir_tree_core::{
    DirectoryTree, DisplayFilter, LoadPayload, LoadedEntry, ScanIssue, ScanRequest, SelectionMode, TreePath,
};
use std::io;

fn tp(s: &str) -> TreePath {
    let mut comps: Vec<Vec<u8>> = Vec::new();
    if s.starts_with('/') {
        comps.push(b"/".to_vec());
    }
    for part in s.split('/').filter(|p| !p.is_empty()) {
        comps.push(part.as_bytes().to_vec());
    }
    TreePath::from_components(comps)
}

fn text(p: &TreePath) -> String {
    String::from_utf8(p.display_bytes()).unwrap()
}

/// In-memory listing of the fixture:
///
/// /r/
///   .hidden_dir/
///   alpha/
///     inner/
///       deep/
///     notes.txt
///   beta/
///   .hidden_file
///   zeta.txt
fn listing(path: &TreePath) -> Result<Vec<LoadedEntry>, ScanIssue> {
    let e = |p: &str, d: bool, h: bool| LoadedEntry::new(tp(p), d, h);
    match text(path).as_str() {
        "/r" => Ok(vec![
            e("/r/.hidden_dir", true, true),
            e("/r/alpha", true, false),
            e("/r/beta", true, false),
            e("/r/.hidden_file", false, true),
            e("/r/zeta.txt", false, false),
        ]),
        "/r/alpha" => Ok(vec![e("/r/alpha/inner", true, false), e("/r/alpha/notes.txt", false, false)]),
        "/r/alpha/inner" => Ok(vec![e("/r/alpha/inner/deep", true, false)]),
        "/r/alpha/inner/deep" | "/r/beta" | "/r/.hidden_dir" => Ok(vec![]),
        _ => Err(ScanIssue::new(path.clone(), io::ErrorKind::NotFound, "No such file or directory".to_string())),
    }
}

fn run(req: &ScanRequest) -> LoadPayload {
    LoadPayload::from_scan(req, listing(&req.path))
}

fn expand(tree: &mut DirectoryTree, p: &str) {
    tree.expand_blocking(&tp(p), run).expect("scan ran");
}

fn expanded_tree() -> DirectoryTree {
    let mut tree = DirectoryTree::new(tp("/r"));
    expand(&mut tree, "/r");
    expand(&mut tree, "/r/alpha");
    tree
}

fn sel(tree: &DirectoryTree) -> Vec<String> {
    tree.selected_paths().iter().map(text).collect()
}

#[test]
fn toggling_outside_the_root_is_a_no_op() {
    let mut tree = DirectoryTree::new(tp("/r"));
    assert!(tree.on_toggled(&tp("/elsewhere")).is_none());
    assert_eq!(tree.generation(), 0);
}

#[test]
fn cache_keeps_raw_entries() {
    let mut tree = DirectoryTree::new(tp("/r")).with_filter(DisplayFilter::FoldersOnly);
    expand(&mut tree, "/r");
    let cached = tree.cache().get(&tp("/r")).expect("cached");
    assert_eq!(cached.entries.len(), 5, "unfiltered entries are cached");
    assert!(tree.cache().contains(&tp("/r")));
    assert!(!tree.cache().contains(&tp("/r/alpha")));
    assert_eq!(tree.depth_of(&tp("/r/alpha/inner")), Some(2));
    assert_eq!(tree.depth_of(&tp("/q")), None);
}

#[test]
fn payload_for_a_vanished_node_is_discarded() {
    let mut tree = DirectoryTree::new(tp("/r"));
    expand(&mut tree, "/r");
    let req = tree.on_toggled(&tp("/r/alpha")).unwrap();
    let mut stray = run(&req);
    stray.path = tp("/r/nowhere");
    let snapshot = tree.clone();
    assert!(!tree.on_loaded(stray).accepted);
    assert_eq!(tree, snapshot);
}

#[test]
fn generation_counts_each_slow_expansion() {
    let mut tree = DirectoryTree::new(tp("/r"));
    let mut last = 0u32;
    for _ in 0..3 {
        let req = tree.on_toggled(&tp("/r")).unwrap();
        assert_eq!(req.generation, last + 1);
        last = req.generation;
        tree.on_toggled(&tp("/r"));
    }
}

#[test]
fn toggling_a_loaded_directory_twice_restores_the_tree() {
    let mut tree = expanded_tree();
    let snapshot = tree.clone();
    assert!(tree.on_toggled(&tp("/r/alpha")).is_none());
    assert!(tree.on_toggled(&tp("/r/alpha")).is_none());
    assert_eq!(tree, snapshot);
}

#[test]
fn search_and_drag_leave_selection_and_flags_alone() {
    let mut tree = expanded_tree();
    tree.on_selected(&tp("/r/alpha"), true, SelectionMode::Toggle);
    tree.on_selected(&tp("/r/beta"), true, SelectionMode::Toggle);
    tree.set_search_query("alpha");
    tree.on_drag_msg(DragMsg::Pressed { path: tp("/r/beta"), is_dir: true });
    tree.on_drag_msg(DragMsg::Entered(tp("/r/alpha")));
    tree.on_drag_msg(DragMsg::Released(tp("/r/alpha")));
    tree.clear_search();
    assert_eq!(sel(&tree), ["/r/alpha", "/r/beta"]);
    tree.set_filter(DisplayFilter::FoldersOnly);
    for p in ["/r/alpha", "/r/beta"] {
        assert!(tree.find(&tp(p)).unwrap().is_selected, "{p} flag kept");
    }
    assert!(!tree.find(&tp("/r")).unwrap().is_selected);
    assert!(!tree.root().is_selected, "a fresh root is never selected");
}

#[test]
fn search_matches_the_lossily_decoded_basename() {
    // A basename holding the byte 0xFF reads as U+FFFD.
    let mut odd = b"odd".to_vec();
    odd.push(0xFF);
    let odd_path = TreePath::from_components(vec![b"/".to_vec(), b"r".to_vec(), odd]);
    let odd_entry = odd_path.clone();
    let scan = move |req: &ScanRequest| {
        LoadPayload::from_scan(req, Ok(vec![LoadedEntry::new(odd_entry.clone(), false, false)]))
    };
    let mut tree = DirectoryTree::new(tp("/r"));
    tree.expand_blocking(&tp("/r"), scan).expect("root scan");
    tree.set_search_query("\u{FFFD}");
    assert_eq!(tree.search_match_count(), 1);
    assert!(tree.search_state().unwrap().visible_paths.contains(&odd_path));
    tree.set_search_query("ODD\u{FFFD}");
    assert_eq!(tree.search_match_count(), 1, "ASCII case is folded around the replacement character");
    tree.set_search_query("\u{FFFE}");
    assert_eq!(tree.search_match_count(), 0);
}

#[test]
fn clone_copies_every_dimension() {
    let mut tree = DirectoryTree::new(tp("/r")).with_prefetch_limit(1);
    let req = tree.on_toggled(&tp("/r")).unwrap();
    tree.on_loaded(run(&req));
    tree.on_selected(&tp("/r/alpha"), true, SelectionMode::Toggle);
    tree.set_search_query("a");
    tree.on_drag_msg(DragMsg::Pressed { path: tp("/r/beta"), is_dir: true });
    let copy = tree.clone();
    assert_eq!(copy, tree);
    assert_eq!(copy.prefetching_paths(), tree.prefetching_paths());
    assert_eq!(copy.cache().len(), tree.cache().len());
    assert_eq!(copy.search_match_count(), tree.search_match_count());
}

#[test]
fn caches_compare_equal_whatever_order_scans_arrived_in() {
    let alpha = listing(&tp("/r/alpha")).unwrap();
    let root = listing(&tp("/r")).unwrap();
    let mut a = TreeCache::new();
    a.insert(tp("/r"), 1, root.clone());
    a.insert(tp("/r/alpha"), 2, alpha.clone());
    let mut b = TreeCache::new();
    b.insert(tp("/r/alpha"), 2, alpha.clone());
    b.insert(tp("/r"), 1, root.clone());
    assert_eq!(a, b, "the cache is compared as a map");
    let mut c = TreeCache::new();
    c.insert(tp("/r/alpha"), 3, alpha);
    c.insert(tp("/r"), 1, root);
    assert_ne!(a, c, "a different generation is a different result");
}

#[test]
fn path_sets_and_search_sessions_ignore_order() {
    let x = PathSet { paths: vec![tp("/r/a"), tp("/r/b")] };
    let y = PathSet { paths: vec![tp("/r/b"), tp("/r/a")] };
    let z = PathSet { paths: vec![tp("/r/a")] };
    assert_eq!(x, y);
    assert_ne!(x, z);
    let s = |paths: Vec<TreePath>| SearchState {
        query: "A".to_string(),
        query_lower: b"a".to_vec(),
        visible_paths: paths,
        match_count: 1,
    };
    assert_eq!(s(vec![tp("/r"), tp("/r/a")]), s(vec![tp("/r/a"), tp("/r")]));
    assert_ne!(s(vec![tp("/r")]), s(vec![tp("/r/a")]));
}
