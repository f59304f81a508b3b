use dar::config::SortMode;
use dar::display::DisplayOptions;
use dar::state::AppState;
use dar::tree::{FileTree, NodeType, TreeNode};
use dar::treemap::{squarified_treemap, Rect};
use dar::view::{
    row_name_cell, selection_highlight_overlays, selection_path, size_cell_text, traverse, TreeRow,
};

fn flatten_rows(tree: &FileTree) -> Vec<TreeRow> {
    let mut rows = Vec::new();
    traverse(tree, tree.root(), 0, &mut rows, DisplayOptions::default());
    rows
}

fn flatten_ids(tree: &FileTree) -> Vec<usize> {
    flatten_rows(tree).into_iter().map(|row| row.id).collect()
}

#[test]
fn ui_flatten_tree_respects_depth() {
    let mut tree = FileTree::new("/root".to_string());
    let child = tree.add_child(0, TreeNode::new("/root/file".to_string(), NodeType::File));
    let rows = flatten_rows(&tree);
    assert!(rows.iter().any(|row| row.id == child));
    let depth = rows.into_iter().find(|row| row.id == child).unwrap().depth;
    assert_eq!(depth, 1);
}

#[test]
fn ui_collapsed_nodes_hidden() {
    let mut tree = FileTree::new("/root".to_string());
    let child = tree.add_child(0, TreeNode::new("/root/file".to_string(), NodeType::File));
    if let Some(root) = tree.node_mut(0) {
        root.expanded = false;
    }
    let ids = flatten_ids(&tree);
    assert_eq!(ids, vec![0]);
    assert!(!ids.contains(&child));
}

#[test]
fn helpers_flatten_tree_respects_depth() {
    let mut tree = FileTree::new("/root".to_string());
    let child = tree.add_child(0, TreeNode::new("/root/file".to_string(), NodeType::File));
    let rows = flatten_rows(&tree);
    assert!(rows.iter().any(|row| row.id == child));
    let depth = rows.into_iter().find(|row| row.id == child).unwrap().depth;
    assert_eq!(depth, 1);
}

#[test]
fn helpers_collapsed_nodes_hidden() {
    let mut tree = FileTree::new("/root".to_string());
    let child = tree.add_child(0, TreeNode::new("/root/file".to_string(), NodeType::File));
    if let Some(root) = tree.node_mut(0) {
        root.expanded = false;
    }
    let ids = flatten_ids(&tree);
    assert_eq!(ids, vec![0]);
    assert!(!ids.contains(&child));
}

#[test]
fn deep_selection_highlight_overlays_for_nested_entry() {

    let mut state = AppState::new("/root".to_string(), SortMode::SizeDesc);
    let top = state
        .tree
        .add_child(0, TreeNode::new("/root/top".to_string(), NodeType::Directory));
    let deep = state
        .tree
        .add_child(top, TreeNode::new("/root/top/deep".to_string(), NodeType::File));

    if let Some(node) = state.tree.node_mut(top) {
        node.size = 10;
    }
    if let Some(node) = state.tree.node_mut(deep) {
        node.size = 3;
    }

    state.selection = Some(deep);
    state.refresh_treemap_nodes();

    let tiles = squarified_treemap(&state.treemap_nodes, Rect::new(0, 0, 80, 20), 200);
    let path = selection_path(&state);
    let overlays = selection_highlight_overlays(&tiles, &path, &state);

    assert!(!overlays.is_empty());
}

#[test]
fn overlays_nest_inside_the_top_level_tile() {

    let mut state = AppState::new("/root".to_string(), SortMode::SizeDesc);
    let a = state
        .tree
        .add_child(0, TreeNode::new("/root/a".to_string(), NodeType::Directory));
    let b = state
        .tree
        .add_child(a, TreeNode::new("/root/a/b".to_string(), NodeType::Directory));
    let c = state
        .tree
        .add_child(b, TreeNode::new("/root/a/b/c".to_string(), NodeType::File));
    let other = state
        .tree
        .add_child(0, TreeNode::new("/root/other".to_string(), NodeType::File));
    for (id, size) in [(a, 40u64), (b, 30), (c, 30), (other, 20)] {
        state.tree.node_mut(id).unwrap().size = size;
    }
    state.selection = Some(c);
    state.refresh_treemap_nodes();

    let tiles = squarified_treemap(&state.treemap_nodes, Rect::new(0, 0, 60, 20), 200);
    let path = selection_path(&state);
    assert_eq!(path, vec![a, b, c]);
    let overlays = selection_highlight_overlays(&tiles, &path, &state);
    assert_eq!(overlays.len(), 2);
    let top = tiles.iter().find(|t| t.node.node_id == a).unwrap().rect;
    let inside = |inner: Rect, outer: Rect| {
        inner.x >= outer.x
            && inner.y >= outer.y
            && inner.x + inner.width <= outer.x + outer.width
            && inner.y + inner.height <= outer.y + outer.height
    };
    assert!(inside(overlays[0], top));
    assert!(inside(overlays[1], overlays[0]));

    let none = selection_highlight_overlays(&tiles, &Vec::new(), &state);
    assert!(none.is_empty());
}

#[test]
fn row_name_cell_indents_and_marks_the_kind() {
    let row = TreeRow {
        id: 3,
        depth: 2,
        name: "notes.txt".to_string(),
        size: 10,
        disk_size: 4096,
        kind: NodeType::File,
    };
    assert_eq!(row_name_cell(&row), "    \u{1F4C4} notes.txt");
    let dir = TreeRow { depth: 0, kind: NodeType::Directory, name: "src".to_string(), ..row.clone() };
    assert_eq!(row_name_cell(&dir), "\u{1F4C1} src");
    let link = TreeRow { depth: 1, kind: NodeType::Symlink, name: "l".to_string(), ..row.clone() };
    assert_eq!(row_name_cell(&link), "  \u{1F517} l");
    let other = TreeRow { depth: 0, kind: NodeType::Other, name: "x".to_string(), ..row };
    assert_eq!(row_name_cell(&other), "\u{2753} x");
}

#[test]
fn size_cell_text_right_aligns_and_cuts() {
    assert_eq!(size_cell_text("1.5 KiB", 10), "   1.5 KiB");
    assert_eq!(size_cell_text("1.5 KiB", 7), "1.5 KiB");
    assert_eq!(size_cell_text("123.4 MiB", 5), "123.4");
    assert_eq!(size_cell_text("12 B", 0), "");
}

#[test]
fn row_colors_mark_the_selection() {
    let theme = dar::theme::Theme::default();
    let row = TreeRow {
        id: 4,
        depth: 0,
        name: "a".to_string(),
        size: 1,
        disk_size: 1,
        kind: NodeType::File,
    };
    let picked = dar::view::row_colors(&row, Some(4), theme);
    assert_eq!(picked.background, theme.selection);
    assert_eq!(picked.foreground, theme.background);
    assert_eq!(picked.bar_background, None);
    let plain = dar::view::row_colors(&row, Some(5), theme);
    assert_eq!(plain.background, theme.background);
    assert_eq!(plain.foreground, theme.foreground);
    assert_eq!(plain.bar_background, Some(theme.bar_bg));
    assert_eq!(dar::view::row_colors(&row, None, theme), plain);
}

#[test]
fn percent_column_shares_its_width() {
    assert_eq!(dar::view::percent_cell_layout(20, 7), (13, 0));
    assert_eq!(dar::view::percent_cell_layout(5, 7), (0, 0));
    assert_eq!(dar::view::percent_cell_layout(7, 7), (0, 0));
    assert_eq!(dar::view::percent_cell_layout(0, 0), (0, 0));
}
