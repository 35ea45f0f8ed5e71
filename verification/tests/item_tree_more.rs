use dioxus_swdir_tree_core::keyboard::{Modifiers, TreeKey};
use dioxus_swdir_tree_core::selection::SelectionMode;
use dioxus_swdir_tree_core::{ItemNode, ItemTree, ItemTreeEvent, NodeId};

fn id(n: u64) -> NodeId {
    NodeId(n)
}

fn fixture() -> ItemNode<String> {
    ItemNode::branch(
        id(0),
        "root".into(),
        vec![
            ItemNode::branch(id(1), "alpha".into(), vec![ItemNode::leaf(id(3), "inner".into())]),
            ItemNode::leaf(id(2), "beta".into()),
        ],
    )
}

fn tree() -> ItemTree<String> {
    let t: ItemTree<String> = ItemTree::new();
    let mut t = t.with_display(|s: &String| s.to_uppercase());
    t.set_tree(fixture());
    t
}

fn ids(t: &ItemTree<String>) -> Vec<u64> {
    t.visible_rows().iter().map(|r| r.id.0).collect()
}

#[test]
fn rows_carry_labels_depths_and_flags() {
    let mut t = tree();
    t.on_toggled(id(0));
    t.on_selected(id(2), SelectionMode::Replace);
    let rows = t.visible_rows();
    assert_eq!(rows.len(), 3);
    assert_eq!(rows[0].label, "ROOT");
    assert_eq!(rows[1].label, "ALPHA");
    assert_eq!(rows[1].depth, 1);
    assert!(rows[1].has_children && !rows[1].is_expanded);
    assert!(rows[2].is_selected && rows[2].is_active);
    assert!(!rows[1].is_selected && !rows[1].is_active);
    assert!(rows[0].is_expanded);
}

#[test]
fn labels_are_empty_and_search_is_off_without_display() {
    let mut t: ItemTree<String> = ItemTree::new();
    t.set_tree(fixture());
    assert_eq!(t.visible_rows()[0].label, "");
    t.set_search_query("root");
    assert!(t.search_state().is_none());
    assert_eq!(t.search_query(), None);
}

#[test]
fn display_attached_later_relabels_items() {
    let mut t: ItemTree<String> = ItemTree::new();
    t.set_tree(fixture());
    let t = t.with_display(|s: &String| format!("<{s}>"));
    assert_eq!(t.visible_rows()[0].label, "<root>");
}

#[test]
fn search_counts_direct_matches_only() {
    let mut t = tree();
    t.set_search_query("a");
    assert_eq!(t.search_match_count(), 2, "alpha and beta");
    assert_eq!(ids(&t), vec![0, 1, 2]);
    assert_eq!(t.search_query(), Some("a"));
    t.set_search_query("zzz");
    assert_eq!(t.search_match_count(), 0);
    assert!(ids(&t).is_empty());
}

#[test]
fn duplicate_ids_resolve_to_the_last_occurrence() {
    let mut t = tree();
    let root = ItemNode::branch(
        id(0),
        "root".into(),
        vec![ItemNode::leaf(id(5), "first".into()), ItemNode::leaf(id(5), "second".into())],
    );
    t.set_tree(root);
    assert_eq!(t.node_count(), 2);
    t.on_toggled(id(0));
    let rows = t.visible_rows();
    assert_eq!(rows.iter().map(|r| r.label.clone()).collect::<Vec<_>>(), ["ROOT", "SECOND", "SECOND"]);
}

#[test]
fn keyboard_navigation_over_items() {
    let mut t = tree();
    let none = Modifiers::default();
    let shift = Modifiers { shift: true, ctrl: false };
    assert_eq!(t.handle_key(TreeKey::Down, none), Some(ItemTreeEvent::Selected(id(0), SelectionMode::Replace)));
    t.on_toggled(id(0));
    t.on_selected(id(1), SelectionMode::Replace);
    assert_eq!(t.handle_key(TreeKey::Up, shift), Some(ItemTreeEvent::Selected(id(0), SelectionMode::ExtendRange)));
    assert_eq!(t.handle_key(TreeKey::Down, none), Some(ItemTreeEvent::Selected(id(2), SelectionMode::Replace)));
    assert_eq!(t.handle_key(TreeKey::End, none), Some(ItemTreeEvent::Selected(id(2), SelectionMode::Replace)));
    assert_eq!(t.handle_key(TreeKey::End, shift), None);
    assert_eq!(t.handle_key(TreeKey::Home, none), Some(ItemTreeEvent::Selected(id(0), SelectionMode::Replace)));
    assert_eq!(t.handle_key(TreeKey::Enter, none), Some(ItemTreeEvent::Selected(id(1), SelectionMode::Replace)));
    assert_eq!(t.handle_key(TreeKey::Right, none), Some(ItemTreeEvent::Toggled(id(1))));
    assert_eq!(t.handle_key(TreeKey::Left, none), Some(ItemTreeEvent::Selected(id(0), SelectionMode::Replace)));
    t.on_toggled(id(1));
    assert_eq!(t.handle_key(TreeKey::Right, none), Some(ItemTreeEvent::Selected(id(3), SelectionMode::Replace)));
    assert_eq!(t.handle_key(TreeKey::Left, none), Some(ItemTreeEvent::Toggled(id(1))));
    t.on_selected(id(2), SelectionMode::Replace);
    assert_eq!(t.handle_key(TreeKey::Down, none), Some(ItemTreeEvent::Selected(id(2), SelectionMode::Replace)));
    assert_eq!(t.handle_key(TreeKey::Right, none), None);
}

#[test]
fn unknown_ids_are_ignored() {
    let mut t = tree();
    t.on_selected(id(42), SelectionMode::Replace);
    assert!(t.selected_ids().is_empty());
    assert_eq!(t.active_id(), None);
    t.on_toggled(id(42));
    assert_eq!(t.is_expanded(id(42)), None);
    assert_eq!(t.is_expanded(id(0)), Some(false));
}

#[test]
fn extend_range_keeps_the_anchor() {
    let mut t = tree();
    t.on_toggled(id(0));
    t.on_toggled(id(1));
    t.on_selected(id(3), SelectionMode::Replace);
    t.on_selected(id(0), SelectionMode::ExtendRange);
    assert_eq!(t.selected_ids(), &[id(0), id(1), id(3)]);
    t.on_selected(id(2), SelectionMode::ExtendRange);
    assert_eq!(t.selected_ids(), &[id(3), id(2)]);
    let flags: Vec<bool> = t.visible_rows().iter().map(|r| r.is_selected).collect();
    assert_eq!(flags, [false, false, true, true]);
}

#[test]
fn replacing_content_keeps_state_by_id() {
    let mut t = tree();
    t.on_toggled(id(0));
    t.on_toggled(id(1));
    assert_eq!(t.node_count(), 4);
    // New content: alpha (1) moves under a new parent, beta (2) and
    // inner (3) vanish, 4 and 5 are new.
    t.set_tree(ItemNode::branch(
        id(0),
        "root".into(),
        vec![ItemNode::branch(id(4), "gamma".into(), vec![ItemNode::leaf(id(1), "alpha".into())]), ItemNode::leaf(id(5), "delta".into())],
    ));
    assert_eq!(t.node_count(), 4);
    assert_eq!(t.is_expanded(id(0)), Some(true));
    assert_eq!(t.is_expanded(id(1)), Some(true), "a moved id keeps its expansion");
    assert_eq!(t.is_expanded(id(4)), Some(false), "a new id starts collapsed");
    assert_eq!(t.is_expanded(id(2)), None);
    assert_eq!(t.is_expanded(id(3)), None);
}

#[test]
fn right_on_an_expanded_item_enters_its_first_child() {
    let mut t = tree();
    t.on_toggled(id(0));
    t.on_selected(id(0), SelectionMode::Replace);
    let ev = t.handle_key(TreeKey::Right, Modifiers::default());
    assert_eq!(ev, Some(ItemTreeEvent::Selected(id(1), SelectionMode::Replace)));
    let ev = t.handle_key(TreeKey::Left, Modifiers::default());
    assert_eq!(ev, Some(ItemTreeEvent::Toggled(id(0))));
}

#[test]
fn a_range_over_an_id_listed_twice_selects_it_twice() {
    // Id 5 is listed under both 1 and 2, so it is drawn twice.
    let mut t: ItemTree<String> = ItemTree::new();
    t.set_tree(ItemNode::branch(
        id(0),
        "root".into(),
        vec![
            ItemNode::branch(id(1), "a".into(), vec![ItemNode::leaf(id(5), "shared".into())]),
            ItemNode::branch(id(2), "b".into(), vec![ItemNode::leaf(id(5), "shared".into())]),
            ItemNode::leaf(id(6), "c".into()),
        ],
    ));
    t.on_toggled(id(0));
    t.on_toggled(id(1));
    t.on_toggled(id(2));
    assert_eq!(ids(&t), [0, 1, 5, 2, 5, 6]);
    t.on_selected(id(0), SelectionMode::Replace);
    t.on_selected(id(6), SelectionMode::ExtendRange);
    let sel: Vec<u64> = t.selected_ids().iter().map(|n| n.0).collect();
    assert_eq!(sel, [0, 1, 5, 2, 5, 6]);
}
