use dar::treemap::{
    contextual_treemap_layout, normalize_areas, normalized_areas, prepare_nodes, squarified_treemap, Rect,
    TreemapNode,
};

fn node(node_id: usize, name: &str, size: u64, is_directory: bool) -> TreemapNode {
    TreemapNode {
        node_id,
        name: name.to_string(),
        size,
        is_directory,
        is_aggregated: false,
    }
}

fn sample_nodes() -> Vec<TreemapNode> {
    vec![
        node(1, "alpha", 400, true),
        node(2, "beta", 250, false),
        node(3, "gamma", 200, true),
        node(4, "delta", 100, false),
        node(5, "zero", 0, false),
    ]
}

fn area(rect: Rect) -> u32 {
    u32::from(rect.width) * u32::from(rect.height)
}

fn overlaps(a: Rect, b: Rect) -> bool {
    let ax2 = a.x + a.width;
    let ay2 = a.y + a.height;
    let bx2 = b.x + b.width;
    let by2 = b.y + b.height;

    a.x < bx2 && b.x < ax2 && a.y < by2 && b.y < ay2
}

#[test]
fn normalization_preserves_total_panel_area() {
    let bounds = Rect::new(0, 0, 80, 30);
    let normalized = normalize_areas(&sample_nodes(), bounds, 200);
    let total: u32 = normalized.iter().map(|(_, area)| *area).sum();
    assert_eq!(total, area(bounds));
    assert!(normalized.iter().all(|(node, _)| node.size > 0));
}

#[test]
fn rectangles_are_inside_bounds_and_non_overlapping() {
    let bounds = Rect::new(2, 3, 90, 25);
    let tiles = squarified_treemap(&sample_nodes(), bounds, 200);
    assert!(!tiles.is_empty());

    for tile in &tiles {
        assert!(tile.rect.x >= bounds.x);
        assert!(tile.rect.y >= bounds.y);
        assert!(tile.rect.x + tile.rect.width <= bounds.x + bounds.width);
        assert!(tile.rect.y + tile.rect.height <= bounds.y + bounds.height);
    }

    for (idx, left) in tiles.iter().enumerate() {
        for right in tiles.iter().skip(idx + 1) {
            assert!(!overlaps(left.rect, right.rect));
        }
    }
}

#[test]
fn rectangle_areas_cover_panel_area() {
    let bounds = Rect::new(0, 0, 64, 20);
    let tiles = squarified_treemap(&sample_nodes(), bounds, 200);
    let covered: u32 = tiles.iter().map(|tile| area(tile.rect)).sum();
    assert_eq!(covered, area(bounds));
}

#[test]
fn respects_max_node_limit() {
    let bounds = Rect::new(0, 0, 100, 20);
    let tiles = squarified_treemap(&sample_nodes(), bounds, 2);
    assert_eq!(tiles.len(), 2);
}

#[test]
fn small_panel_never_overflows() {
    let mut nodes = Vec::new();
    for i in 0..64 {
        nodes.push(TreemapNode {
            node_id: i,
            name: format!("n{i}"),
            size: 1,
            is_directory: false,
            is_aggregated: false,
        });
    }

    let bounds = Rect::new(0, 0, 8, 4);
    let tiles = squarified_treemap(&nodes, bounds, 200);
    for tile in tiles {
        assert!(tile.rect.x + tile.rect.width <= bounds.x + bounds.width);
        assert!(tile.rect.y + tile.rect.height <= bounds.y + bounds.height);
    }
}

#[test]
fn largest_remainder_shares_exactly() {
    let nodes = vec![node(1, "a", 1, false), node(2, "b", 1, false), node(3, "c", 1, false)];
    let shares = normalized_areas(&nodes, 10);
    let total: u32 = shares.iter().map(|w| w.area).sum();
    assert_eq!(total, 10);
    let mut areas: Vec<u32> = shares.iter().map(|w| w.area).collect();
    areas.sort();
    assert_eq!(areas, vec![3, 3, 4]);
    assert!(normalized_areas(&nodes, 0).is_empty());
    assert!(normalized_areas(&vec![node(9, "z", 0, false)], 10).is_empty());
}

#[test]
fn normalization_ranks_by_size_then_name() {
    let nodes = vec![node(1, "b", 5, false), node(2, "a", 5, false), node(3, "c", 9, false)];
    let bounds = Rect::new(0, 0, 10, 10);
    let kept = normalize_areas(&nodes, bounds, 2);
    let names: Vec<&str> = kept.iter().map(|(n, _)| n.name.as_str()).collect();
    assert_eq!(names.len(), 2);
    assert!(names.contains(&"c"));
    assert!(names.contains(&"a"));
    assert!(normalize_areas(&nodes, Rect::new(0, 0, 0, 5), 2).is_empty());
}

#[test]
fn prepare_folds_the_rest_into_other() {
    let nodes = vec![
        node(1, "a", 50, false),
        node(2, "b", 40, false),
        node(3, "c", 30, false),
        node(4, "d", 20, false),
    ];
    let prepared = prepare_nodes(&nodes, 3, 7);
    assert_eq!(prepared.len(), 3);
    assert_eq!(prepared[0].name, "a");
    assert_eq!(prepared[1].name, "b");
    assert_eq!(prepared[2].name, "other");
    assert_eq!(prepared[2].size, 50);
    assert!(prepared[2].is_aggregated);
    assert_eq!(prepared[2].node_id, usize::MAX - 7);
    let few = prepare_nodes(&nodes, 10, 0);
    assert_eq!(few.len(), 4);
}

#[test]
fn contextual_layout_nests_selection_children() {
    let roots = sample_nodes();
    let bounds = Rect::new(0, 0, 60, 20);
    let layout = contextual_treemap_layout(&roots, bounds, &vec![1], 8, |parent, _limit| {
        if parent == 1 {
            vec![node(10, "inner-a", 3, false), node(11, "inner-b", 1, false)]
        } else {
            Vec::new()
        }
    });
    let parent_rect = *layout.node_rects.get(&1).unwrap();
    let nested: Vec<_> = layout.tiles.iter().filter(|t| t.depth == 1).collect();
    assert_eq!(nested.len(), 2);
    for tile in nested {
        assert!(tile.rect.x >= parent_rect.x && tile.rect.y >= parent_rect.y);
        assert!(tile.rect.x + tile.rect.width <= parent_rect.x + parent_rect.width);
        assert!(tile.rect.y + tile.rect.height <= parent_rect.y + parent_rect.height);
    }
    assert!(layout.node_rects.contains_key(&10));
}

#[test]
fn oversized_rect_is_shrunk_like_ratatui() {
    let r = Rect::new(3, 4, 1000, 1000);
    assert_eq!(r.x, 3);
    assert_eq!(r.y, 4);
    assert!(u32::from(r.width) * u32::from(r.height) <= u32::from(u16::MAX));
    let small = Rect::new(1, 2, 10, 20);
    assert_eq!((small.width, small.height), (10, 20));
}

#[test]
fn no_more_tiles_than_sized_nodes() {
    let mut nodes = Vec::new();
    for i in 0..6 {
        nodes.push(TreemapNode {
            node_id: i,
            name: format!("n{i}"),
            size: if i % 3 == 0 { 5 } else { 0 },
            is_directory: false,
            is_aggregated: false,
        });
    }
    let tiles = squarified_treemap(&nodes, Rect::new(0, 0, 40, 10), 200);
    assert_eq!(tiles.len(), 2);
    assert!(tiles.iter().all(|t| t.node.size > 0));
}
