use dar::config::SortMode;
use dar::state::AppState;
use dar::tree::{NodeType, TreeNode};
use dar::treemap::{Rect, TreemapNode};
use dar::ui_cache::{TreemapLayoutCache, Ui};

fn node(id: usize, size: u64) -> TreemapNode {
    TreemapNode { node_id: id, name: format!("n{id}"), size, is_directory: false, is_aggregated: false }
}

#[test]
fn treemap_layout_is_reused_for_the_same_request() {
    let mut cache = TreemapLayoutCache::new();
    let bounds = Rect { x: 0, y: 0, width: 40, height: 10 };
    let roots = vec![node(1, 30), node(2, 10)];
    let first = cache.layout_for(bounds, &Vec::new(), 1, &roots, 10, |_, _| Vec::new()).tiles.len();
    assert_eq!(first, 2);
    let other_roots = vec![node(1, 30)];
    let again = cache.layout_for(bounds, &Vec::new(), 1, &other_roots, 10, |_, _| Vec::new()).tiles.len();
    assert_eq!(again, 2);
    let fresh = cache.layout_for(bounds, &Vec::new(), 2, &other_roots, 10, |_, _| Vec::new()).tiles.len();
    assert_eq!(fresh, 1);
}

#[test]
fn tree_rows_follow_the_interface_revision() {
    let mut state = AppState::new("/r".to_string(), SortMode::SizeDesc);
    let mut ui = Ui::new();
    assert_eq!(ui.cached_tree_rows(&state).len(), 1);
    state.tree.add_child(0, TreeNode::new("/r/a".to_string(), NodeType::File));
    assert_eq!(ui.cached_tree_rows(&state).len(), 1);
    state.mark_ui_dirty();
    assert_eq!(ui.cached_tree_rows(&state).len(), 2);
}
