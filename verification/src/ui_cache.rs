//! What the renderer keeps between frames: the treemap layout of the last
//! frame, reused while its bounds, revision and selection path stay the
//! same, and the filesystem rows, reused while the interface revision stays
//! the same.
use crate::state::AppState;
use crate::treemap::{
    contextual_treemap_layout, fits_screen, is_contextual_layout, rect_within, rects_from_tiles, rects_overlap,
    tiles_within, Rect, TreemapLayout, TreemapNode,
};
use crate::view::{collect_tree_rows, listing, TreeRow};
use vstd::prelude::*;

verus! {

/// What every contextual layout within `bounds` satisfies: its tiles and
/// recorded rectangles lie within the bounds, every recorded rectangle is a
/// tile's, and top-level tiles do not overlap on a screen-sized area.
pub open spec fn layout_laws(l: TreemapLayout, bounds: Rect) -> bool {
    &&& tiles_within(l.tiles@, bounds)
    &&& rects_from_tiles(l.node_rects@, l.tiles@)
    &&& forall|id: usize| #[trigger] l.node_rects@.contains_key(id) ==> rect_within(l.node_rects@[id], bounds)
    &&& fits_screen(bounds) ==> forall|i: int, j: int|
        0 <= i < j < l.tiles@.len() && l.tiles@[i].depth == 0 && l.tiles@[j].depth == 0 ==> !rects_overlap(
            #[trigger] l.tiles@[i].rect,
            #[trigger] l.tiles@[j].rect,
        )
}

/// What a treemap layout was computed for.
#[derive(Clone, Debug, PartialEq, Eq)]
pub struct TreemapLayoutKey {
    pub bounds: Rect,
    pub revision: u64,
    pub selection_path: Vec<usize>,
}

/// The treemap layout of the last frame and what it was computed for.
pub struct TreemapLayoutCache {
    pub key: Option<TreemapLayoutKey>,
    pub layout: Option<TreemapLayout>,
}

impl TreemapLayoutCache {
    /// The cache holds a layout exactly when it holds its key, and the
    /// layout obeys the layout laws for the key's bounds.
    pub open spec fn wf(&self) -> bool {
        match (self.key, self.layout) {
            (Some(k), Some(l)) => layout_laws(l, k.bounds),
            (None, None) => true,
            _ => false,
        }
    }

    pub fn new() -> (r: Self)
        ensures
            r.wf(),
            r.key is None,
    {
        TreemapLayoutCache { key: None, layout: None }
    }

    /// The layout for the bounds, revision and selection path: the cached
    /// one when all three match the last request, otherwise a new contextual
    /// layout (see `is_contextual_layout`), which is then cached.
    pub fn layout_for<F: Fn(usize, usize) -> Vec<TreemapNode>>(
        &mut self,
        bounds: Rect,
        selection_path: &Vec<usize>,
        revision: u64,
        root_nodes: &Vec<TreemapNode>,
        max_nodes: usize,
        child_provider: F,
    ) -> (r: &TreemapLayout)
        requires
            old(self).wf(),
            forall|a: usize, b: usize| call_requires(child_provider, (a, b)),
        ensures
            final(self).wf(),
            final(self).key matches Some(k) && k.bounds == bounds && k.revision == revision
                && k.selection_path@ == selection_path@,
            final(self).layout == Some(*r),
            layout_laws(*r, bounds),
            (old(self).key matches Some(k) && k.bounds == bounds && k.revision == revision
                && k.selection_path@ == selection_path@) ==> *final(self) == *old(self),
            !(old(self).key matches Some(k) && k.bounds == bounds && k.revision == revision
                && k.selection_path@ == selection_path@) ==> is_contextual_layout(
                *r,
                root_nodes@,
                bounds,
                selection_path@,
                max_nodes,
                child_provider,
            ),
    {
        let hit = match &self.key {
            Some(k) => k.bounds == bounds && k.revision == revision && same_path(&k.selection_path, selection_path),
            None => false,
        };
        if !hit {
            let layout = contextual_treemap_layout(root_nodes, bounds, selection_path, max_nodes, child_provider);
            self.key = Some(TreemapLayoutKey { bounds, revision, selection_path: copy_path(selection_path) });
            self.layout = Some(layout);
        }
        self.layout.as_ref().unwrap()
    }
}

fn same_path(a: &Vec<usize>, b: &Vec<usize>) -> (r: bool)
    ensures
        r == (a@ == b@),
{
    if a.len() != b.len() {
        return false;
    }
    let mut i: usize = 0;
    while i < a.len()
        invariant
            a@.len() == b@.len(),
            i <= a@.len(),
            forall|j: int| 0 <= j < i ==> a@[j] == b@[j],
        decreases a@.len() - i,
    {
        if a[i] != b[i] {
            return false;
        }
        i += 1;
    }
    assert(a@ =~= b@);
    true
}

fn copy_path(a: &Vec<usize>) -> (r: Vec<usize>)
    ensures
        r@ == a@,
{
    let mut out: Vec<usize> = Vec::new();
    let mut i: usize = 0;
    while i < a.len()
        invariant
            i <= a@.len(),
            out@ =~= a@.take(i as int),
        decreases a@.len() - i,
    {
        out.push(a[i]);
        i += 1;
    }
    out
}

/// The renderer's memory between frames.
pub struct Ui {
    pub treemap_cache: TreemapLayoutCache,
    /// The rows of the filesystem listing and the interface revision they
    /// were collected at.
    pub tree_rows_cache: Option<(u64, Vec<TreeRow>)>,
}

impl Ui {
    pub open spec fn wf(&self) -> bool {
        self.treemap_cache.wf()
    }

    pub fn new() -> (r: Self)
        ensures
            r.wf(),
            r.treemap_cache.key is None,
            r.tree_rows_cache is None,
    {
        Ui { treemap_cache: TreemapLayoutCache::new(), tree_rows_cache: None }
    }

    /// The filesystem rows for the state: those collected at the current
    /// interface revision if there are any, otherwise collected now.
    pub fn cached_tree_rows(&mut self, state: &AppState) -> (r: &Vec<TreeRow>)
        requires
            state.wf(),
        ensures
            final(self).treemap_cache == old(self).treemap_cache,
            final(self).tree_rows_cache == Some((state.ui_revision, *r)),
            (old(self).tree_rows_cache matches Some((rev, _)) && rev == state.ui_revision)
                ==> final(self).tree_rows_cache == old(self).tree_rows_cache,
            !(old(self).tree_rows_cache matches Some((rev, _)) && rev == state.ui_revision) ==> r@ == listing(
                state.tree@,
                state.filter.query@,
                state.filter.active,
                state.display_options,
            ),
    {
        let revision = state.ui_revision();
        let fresh = match &self.tree_rows_cache {
            Some((rev, _)) => *rev == revision,
            None => false,
        };
        if !fresh {
            let rows = collect_tree_rows(
                &state.tree,
                state.filter.query.as_str(),
                state.filter.active,
                state.display_options,
            );
            self.tree_rows_cache = Some((revision, rows));
        }
        &self.tree_rows_cache.as_ref().unwrap().1
    }
}

} // verus!
