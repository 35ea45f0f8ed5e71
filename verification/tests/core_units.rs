use dioxus_swdir_tree_core::entry::is_dotfile;
use dioxus_swdir_tree_core::icon::{
    dir_row_caret, dir_row_icon, item_row_caret, item_row_icon, CaretKind, IconRole, LucideTheme, UnicodeTheme,
    LUCIDE_FONT_BYTES,
};
use dioxus_swdir_tree_core::node::rebuild_children;
use dioxus_swdir_tree_core::selection::mode_for_click;
use dioxus_swdir_tree_core::{DisplayFilter, LoadedEntry, ScanIssue, SelectionMode, TreeNode, TreePath};
use std::io;

fn tp(s: &str) -> TreePath {
    let mut comps: Vec<Vec<u8>> = Vec::new();
    if s.starts_with('/') {
        comps.push(b"/".to_vec());
    }
    for part in s.split('/').filter(|p| !p.is_empty()) {
        comps.push(part.as_bytes().to_vec());
    }
    TreePath::from_components(comps)
}

fn entry(path: &str, is_dir: bool, is_hidden: bool) -> LoadedEntry {
    LoadedEntry::new(tp(path), is_dir, is_hidden)
}

#[test]
fn filter_predicates() {
    let dir = entry("/r/src", true, false);
    let hidden_dir = entry("/r/.git", true, true);
    let file = entry("/r/main.rs", false, false);
    let hidden_file = entry("/r/.env", false, true);

    let folders = DisplayFilter::FoldersOnly;
    assert!(folders.admits(&dir));
    assert!(!folders.admits(&hidden_dir));
    assert!(!folders.admits(&file));
    assert!(!folders.admits(&hidden_file));

    let both = DisplayFilter::FilesAndFolders;
    assert!(both.admits(&dir));
    assert!(!both.admits(&hidden_dir));
    assert!(both.admits(&file));
    assert!(!both.admits(&hidden_file));

    let all = DisplayFilter::AllIncludingHidden;
    for e in [&dir, &hidden_dir, &file, &hidden_file] {
        assert!(all.admits(e));
    }
}

#[test]
fn scan_issue_is_cloneable_and_comparable() {
    let a = ScanIssue::new(tp("/r/x"), io::ErrorKind::PermissionDenied, "denied".to_string());
    let b = a.clone();
    assert_eq!(a, b);
    assert_eq!(a.kind(), io::ErrorKind::PermissionDenied);
    assert!(a.describe().contains("/r/x"));
}

#[test]
fn s10_6_font_bytes_constant_exists() {
    let _: &[u8] = LUCIDE_FONT_BYTES;
}

#[test]
fn dotfile_detection() {
    assert!(is_dotfile(&b".git".to_vec()));
    assert!(!is_dotfile(&b"src".to_vec()));
    assert!(!is_dotfile(&Vec::new()));
}

#[test]
fn scan_issue_describe_is_exact() {
    let a = ScanIssue::new(tp("/r/x"), io::ErrorKind::NotFound, "gone".to_string());
    assert_eq!(a.describe(), "scan failed at /r/x: gone");
    assert_eq!(a.message(), "gone");
    assert_eq!(a.path(), &tp("/r/x"));
}

#[test]
fn scan_issue_describe_replaces_invalid_utf8() {
    let p = TreePath::from_components(vec![b"/".to_vec(), vec![0x66, 0xff, 0x6f]]);
    let a = ScanIssue::new(p, io::ErrorKind::Other, "bad".to_string());
    assert_eq!(a.describe(), "scan failed at /f\u{FFFD}o: bad");
}

#[test]
fn path_display_joins_components() {
    assert_eq!(tp("/r/alpha/inner").display_bytes(), b"/r/alpha/inner".to_vec());
    assert_eq!(tp("rel/x").display_bytes(), b"rel/x".to_vec());
    assert_eq!(tp("/").display_bytes(), b"/".to_vec());
}

#[test]
fn path_prefix_is_componentwise() {
    assert!(tp("/r/bar/x").starts_with(&tp("/r/bar")));
    assert!(!tp("/r/barbaz").starts_with(&tp("/r/bar")));
    assert_eq!(tp("/r/a").parent(), Some(tp("/r")));
    assert_eq!(tp("/").parent(), None);
    assert_eq!(tp("/r/a/b").depth_below(&tp("/r")), Some(2));
    assert_eq!(tp("/q/a").depth_below(&tp("/r")), None);
    assert_eq!(tp("/r/notes.txt").file_name(), b"notes.txt".to_vec());
    assert_eq!(tp("/r").join(&b"alpha".to_vec()), tp("/r/alpha"));
}

#[test]
fn unicode_theme_glyphs() {
    let t = UnicodeTheme;
    assert_eq!(t.glyph_text(IconRole::FolderClosed), "\u{1F4C1}");
    assert_eq!(t.glyph_text(IconRole::FolderOpen), "\u{1F4C2}");
    assert_eq!(t.glyph_text(IconRole::File), "\u{1F4C4}");
    assert_eq!(t.glyph_text(IconRole::Error), "\u{26A0}");
    assert_eq!(t.glyph_text(IconRole::CaretRight), "\u{25B8}");
    assert_eq!(t.glyph_text(IconRole::CaretDown), "\u{25BE}");
    assert_eq!(t.font_family(), None);
}

#[test]
fn s10_6_lucide_theme_uses_lucide_font_family() {
    let theme = LucideTheme;
    assert_eq!(theme.font_family(), Some("lucide"), "LucideTheme must declare font-family 'lucide'");
    assert!(!theme.glyph_text(IconRole::FolderClosed).is_empty());
}

#[test]
fn lucide_theme_glyphs() {
    let t = LucideTheme;
    assert_eq!(t.glyph_text(IconRole::FolderClosed), "\u{ea83}");
    assert!(!t.glyph_text(IconRole::CaretDown).is_empty());
}

/// All six roles are defined and each has a non-empty glyph.
#[test]
fn s10_1_all_six_roles_defined() {
    let theme = UnicodeTheme;
    let roles = [
        IconRole::FolderClosed,
        IconRole::FolderOpen,
        IconRole::File,
        IconRole::Error,
        IconRole::CaretRight,
        IconRole::CaretDown,
    ];
    for role in roles {
        let glyph = theme.glyph_text(role);
        assert!(!glyph.is_empty(), "role {role:?} must produce a non-empty glyph");
    }
}

#[test]
fn default_skip_list_names_known_caches() {
    let skip = dioxus_swdir_tree_core::default_prefetch_skip();
    for name in [".git", "node_modules", "target"] {
        assert!(skip.contains(&name.as_bytes().to_vec()), "{name} is skipped");
    }
}

#[test]
fn find_descends_componentwise_not_by_string_prefix() {
    let mut root = TreeNode::new_root(tp("/r"));
    rebuild_children(
        &mut root,
        &vec![entry("/r/bar", true, false), entry("/r/barbaz", true, false)],
        DisplayFilter::FilesAndFolders,
    );
    // "/r/barbaz" must not be reached through "/r/bar".
    assert_eq!(root.find(&tp("/r/barbaz")).map(|n| n.path.clone()), Some(tp("/r/barbaz")));
    assert!(root.find(&tp("/r/elsewhere")).is_none());
}

#[test]
fn rebuild_preserves_matched_subtrees_and_drops_vanished_ones() {
    let mut root = TreeNode::new_root(tp("/r"));
    rebuild_children(
        &mut root,
        &vec![entry("/r/keep", true, false), entry("/r/gone", true, false)],
        DisplayFilter::FilesAndFolders,
    );
    {
        let keep = root.find_mut(&tp("/r/keep")).unwrap();
        keep.is_expanded = true;
        keep.is_loaded = true;
        keep.children.push(TreeNode::from_entry(&entry("/r/keep/deep", false, false)));
    }
    rebuild_children(
        &mut root,
        &vec![entry("/r/keep", true, false), entry("/r/new", false, false)],
        DisplayFilter::FilesAndFolders,
    );
    let keep = root.find(&tp("/r/keep")).unwrap();
    assert!(keep.is_expanded && keep.is_loaded);
    assert_eq!(keep.children.len(), 1);
    assert!(root.find(&tp("/r/gone")).is_none());
    assert!(root.find(&tp("/r/new")).is_some());
}

#[test]
fn click_modifiers_pick_the_selection_mode() {
    assert_eq!(mode_for_click(false, false), SelectionMode::Replace);
    assert_eq!(mode_for_click(false, true), SelectionMode::Toggle);
    assert_eq!(mode_for_click(true, false), SelectionMode::ExtendRange);
    assert_eq!(mode_for_click(true, true), SelectionMode::ExtendRange, "shift wins over ctrl");
}

#[test]
fn directory_row_caret_and_icon() {
    assert_eq!(dir_row_caret(false, false, false), CaretKind::Blank);
    assert_eq!(dir_row_caret(true, true, false), CaretKind::Loading);
    assert_eq!(dir_row_caret(true, true, true), CaretKind::Glyph(IconRole::CaretDown));
    assert_eq!(dir_row_caret(true, false, true), CaretKind::Glyph(IconRole::CaretRight));
    assert_eq!(dir_row_icon(true, true, true), IconRole::Error, "an error marker wins");
    assert_eq!(dir_row_icon(false, false, false), IconRole::File);
    assert_eq!(dir_row_icon(true, true, false), IconRole::FolderOpen);
    assert_eq!(dir_row_icon(true, false, false), IconRole::FolderClosed);
}

#[test]
fn item_row_caret_and_icon() {
    assert_eq!(item_row_caret(false, true), CaretKind::Blank);
    assert_eq!(item_row_caret(true, true), CaretKind::Glyph(IconRole::CaretDown));
    assert_eq!(item_row_caret(true, false), CaretKind::Glyph(IconRole::CaretRight));
    assert_eq!(item_row_icon(true, true), IconRole::FolderOpen);
    assert_eq!(item_row_icon(true, false), IconRole::FolderClosed);
    assert_eq!(item_row_icon(false, true), IconRole::File);
}

#[test]
fn file_name_is_empty_for_dot_and_dot_dot() {
    assert_eq!(tp("/a/..").file_name(), Vec::<u8>::new());
    assert_eq!(tp(".").file_name(), Vec::<u8>::new());
    assert_eq!(tp("/").file_name(), Vec::<u8>::new());
    assert_eq!(tp("/a/b.txt").file_name(), b"b.txt".to_vec());
    assert_eq!(tp("/a/..b").file_name(), b"..b".to_vec());
}
