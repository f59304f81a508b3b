//! Squarified treemap layout over terminal cells, in exact integer
//! arithmetic.
//!
//! Sizes are first turned into whole cell counts that add up to the panel
//! area (largest remainder first), then laid out row by row, each row filling
//! a strip along the shorter side of what is left.
use crate::order::{lex_order, lex_order_chars, merge_sort, TotalPreorder};
use crate::sums::{lemma_sum_nonneg, lemma_sum_nonneg_bound, lemma_sum_permutation, lemma_sum_push, seq_sum};
use vstd::arithmetic::div_mod::{lemma_div_by_multiple, lemma_div_is_ordered, lemma_div_pos_is_pos, lemma_fundamental_div_mod, lemma_mod_pos_bound};
use vstd::arithmetic::mul::lemma_mul_nonnegative;
use std::collections::HashMap;
use vstd::prelude::*;

verus! {

broadcast use vstd::std_specs::hash::group_hash_axioms;

/// A rectangle of terminal cells.
#[derive(Clone, Copy, Debug, PartialEq, Eq, Structural)]
pub struct Rect {
    pub x: u16,
    pub y: u16,
    pub width: u16,
    pub height: u16,
}

/// What `ratatui::layout::Rect::new` makes of the given position and size:
/// the position is kept, and the size is kept unless its area exceeds
/// `u16::MAX`, in which case it is shrunk.
pub uninterp spec fn spec_ratatui_rect(x: u16, y: u16, width: u16, height: u16) -> Rect;

/// Calls `ratatui::layout::Rect::new`. Claims the result is the named rect,
/// that position is kept, that the size never grows and that it is kept
/// exactly when `width * height <= u16::MAX`, as the ratatui source shows.
#[verifier::external_body]
fn ratatui_rect(x: u16, y: u16, width: u16, height: u16) -> (r: Rect)
    ensures
        r == spec_ratatui_rect(x, y, width, height),
        r.x == x,
        r.y == y,
        r.width <= width,
        r.height <= height,
        width as int * height as int <= u16::MAX ==> r.width == width && r.height == height,
{
    let r = ratatui::layout::Rect::new(x, y, width, height);
    Rect { x: r.x, y: r.y, width: r.width, height: r.height }
}

impl Rect {
    /// A rectangle at `(x, y)`; an area above `u16::MAX` is shrunk as ratatui does.
    pub fn new(x: u16, y: u16, width: u16, height: u16) -> (r: Rect)
        ensures
            r == spec_ratatui_rect(x, y, width, height),
            r.x == x,
            r.y == y,
            r.width <= width,
            r.height <= height,
            width as int * height as int <= u16::MAX ==> r.width == width && r.height == height,
    {
        ratatui_rect(x, y, width, height)
    }
}

pub open spec fn rect_area(r: Rect) -> int {
    r.width as int * r.height as int
}

/// `inner` lies within `outer`.
pub open spec fn rect_within(inner: Rect, outer: Rect) -> bool {
    &&& outer.x <= inner.x
    &&& outer.y <= inner.y
    &&& inner.x + inner.width <= outer.x + outer.width
    &&& inner.y + inner.height <= outer.y + outer.height
}

/// The two rectangles share a cell.
pub open spec fn rects_overlap(a: Rect, b: Rect) -> bool {
    &&& a.x < b.x + b.width
    &&& b.x < a.x + a.width
    &&& a.y < b.y + b.height
    &&& b.y < a.y + a.height
}

/// A filesystem entry to be drawn in the treemap.
#[derive(Clone, Debug, PartialEq, Eq)]
pub struct TreemapNode {
    pub node_id: usize,
    pub name: String,
    pub size: u64,
    pub is_directory: bool,
    pub is_aggregated: bool,
}

impl WeightedNode {
    /// A field-by-field copy.
    pub fn clone_node(&self) -> (r: WeightedNode)
        ensures
            r == *self,
    {
        WeightedNode { node: self.node.duplicate(), area: self.area }
    }
}

impl TreemapNode {
    /// A field-by-field copy.
    pub fn duplicate(&self) -> (r: TreemapNode)
        ensures
            r == *self,
    {
        TreemapNode {
            node_id: self.node_id,
            name: self.name.clone(),
            size: self.size,
            is_directory: self.is_directory,
            is_aggregated: self.is_aggregated,
        }
    }
}

/// A node placed in the treemap.
#[derive(Clone, Debug, PartialEq, Eq)]
pub struct TreemapTile {
    pub node: TreemapNode,
    pub rect: Rect,
    pub depth: usize,
    pub shade_variant: bool,
}

/// A node with the number of cells it is given.
#[derive(Clone, Debug)]
pub struct WeightedNode {
    pub node: TreemapNode,
    pub area: u32,
}

/// Order of treemap nodes: larger first, then by name, then by id.
pub open spec fn rank_order(a: TreemapNode, b: TreemapNode) -> int {
    if a.size > b.size {
        -1
    } else if a.size < b.size {
        1
    } else {
        let n = lex_order(a.name@, b.name@);
        if n != 0 {
            n
        } else if a.node_id < b.node_id {
            -1
        } else if a.node_id > b.node_id {
            1
        } else {
            0
        }
    }
}

/// Nodes that take part in a layout: those with a positive size.
pub open spec fn positive_nodes(s: Seq<TreemapNode>) -> Seq<TreemapNode> {
    s.filter(|n: TreemapNode| n.size > 0)
}

/// `r` holds the positive-size nodes of `s`, each as often as there, ordered
/// by `rank_order`.
pub open spec fn is_ranking(r: Seq<TreemapNode>, s: Seq<TreemapNode>) -> bool {
    &&& r.to_multiset() == positive_nodes(s).to_multiset()
    &&& forall|i: int, j: int| 0 <= i < j < r.len() ==> rank_order(#[trigger] r[i], #[trigger] r[j]) <= 0
}

/// A node together with the characters of its name, for comparison.
struct RankKey {
    node: TreemapNode,
    chars: Vec<char>,
}

spec fn key_order(a: RankKey, b: RankKey) -> int {
    if a.node.size > b.node.size {
        -1
    } else if a.node.size < b.node.size {
        1
    } else {
        let n = lex_order(a.chars@, b.chars@);
        if n != 0 {
            n
        } else if a.node.node_id < b.node.node_id {
            -1
        } else if a.node.node_id > b.node.node_id {
            1
        } else {
            0
        }
    }
}

spec fn key_ok(k: RankKey) -> bool {
    k.chars@ == k.node.name@
}

spec fn key_node(k: RankKey) -> TreemapNode {
    k.node
}

impl TotalPreorder for RankKey {
    closed spec fn le(self, other: Self) -> bool {
        key_order(self, other) <= 0
    }

    proof fn lemma_total(a: Self, b: Self) {
        crate::order::lemma_lex_order_antisym(a.chars@, b.chars@);
    }

    proof fn lemma_trans(a: Self, b: Self, c: Self) {
        crate::order::lemma_lex_order_antisym(a.chars@, b.chars@);
        crate::order::lemma_lex_order_antisym(b.chars@, c.chars@);
        crate::order::lemma_lex_order_antisym(a.chars@, c.chars@);
        if lex_order(a.chars@, b.chars@) <= 0 && lex_order(b.chars@, c.chars@) <= 0 {
            crate::order::lemma_lex_order_trans(a.chars@, b.chars@, c.chars@);
        }
    }

    fn exec_le(&self, other: &Self) -> (r: bool) {
        if self.node.size != other.node.size {
            return self.node.size > other.node.size;
        }
        let n = lex_order_chars(&self.chars, &other.chars);
        if n != 0 {
            n < 0
        } else {
            self.node.node_id <= other.node.node_id
        }
    }
}

/// The positive-size nodes, largest first, then by name and id.
pub(crate) fn rank_nodes(nodes: &Vec<TreemapNode>) -> (r: Vec<TreemapNode>)
    ensures
        is_ranking(r@, nodes@),
{
    let ghost pred = |n: TreemapNode| n.size > 0;
    let mut keys: Vec<RankKey> = Vec::new();
    let mut i: usize = 0;
    while i < nodes.len()
        invariant
            i <= nodes.len(),
            pred == (|n: TreemapNode| n.size > 0),
            keys@.map_values(|k: RankKey| key_node(k)) == nodes@.take(i as int).filter(pred),
            forall|m: int| 0 <= m < keys@.len() ==> key_ok(#[trigger] keys@[m]),
        decreases nodes.len() - i,
    {
        let ghost before = keys@;
        proof {
            assert(nodes@.take(i as int + 1) =~= nodes@.take(i as int).push(nodes@[i as int]));
            nodes@.take(i as int).lemma_filter_push(nodes@[i as int], pred);
        }
        if nodes[i].size > 0 {
            let node = nodes[i].duplicate();
            let chars = crate::text::str_chars(node.name.as_str());
            keys.push(RankKey { node, chars });
            assert(keys@.map_values(|k: RankKey| key_node(k)) =~= before.map_values(|k: RankKey| key_node(k)).push(nodes@[i as int]));
            assert(pred(nodes@[i as int]));
        } else {
            assert(keys@ == before);
            assert(!pred(nodes@[i as int]));
        }
        i += 1;
        assert(keys@.map_values(|k: RankKey| key_node(k)) == nodes@.take(i as int).filter(pred));
    }
    assert(nodes@.take(nodes@.len() as int) =~= nodes@);
    let ghost keys0 = keys@;
    let sorted_keys = merge_sort(keys);
    let mut out: Vec<TreemapNode> = Vec::new();
    let mut m: usize = 0;
    while m < sorted_keys.len()
        invariant
            m <= sorted_keys@.len(),
            out@ == sorted_keys@.take(m as int).map_values(|k: RankKey| key_node(k)),
        decreases sorted_keys@.len() - m,
    {
        out.push(sorted_keys[m].node.duplicate());
        assert(sorted_keys@.take(m as int + 1) =~= sorted_keys@.take(m as int).push(sorted_keys@[m as int]));
        m += 1;
        assert(out@ =~= sorted_keys@.take(m as int).map_values(|k: RankKey| key_node(k)));
    }
    proof {
        let sk = sorted_keys@;
        assert(sk.take(sk.len() as int) =~= sk);
        crate::order::lemma_map_preserves_multiset(keys0, sk, |k: RankKey| key_node(k));
        assert forall|q: int| 0 <= q < sk.len() implies key_ok(#[trigger] sk[q]) by {
            crate::order::lemma_permutation_member(keys0, sk, q);
        }
        assert forall|a: int, b: int| 0 <= a < b < out@.len() implies rank_order(#[trigger] out@[a], #[trigger] out@[b]) <= 0 by {
            assert(sk[a].le(sk[b]));
            assert(key_ok(sk[a]));
            assert(key_ok(sk[b]));
        }
    }
    out
}

/// The sizes of the nodes, in order.
pub open spec fn sizes_of(s: Seq<TreemapNode>) -> Seq<int> {
    s.map_values(|n: TreemapNode| n.size as int)
}

/// The sum of the sizes of the nodes.
pub open spec fn total_size(s: Seq<TreemapNode>) -> int {
    seq_sum(sizes_of(s))
}

/// The whole cells owed to a node of `size` when `cells` are shared out in
/// proportion to size over `total`: `size * cells / total`, rounded down.
pub open spec fn cell_share(size: int, cells: int, total: int) -> int {
    size * cells / total
}

/// What rounding down left over of that share, in units of `1 / total` cells.
pub open spec fn cell_remainder(size: int, cells: int, total: int) -> int {
    size * cells % total
}

pub open spec fn shares_of(s: Seq<TreemapNode>, cells: int, total: int) -> Seq<int> {
    s.map_values(|n: TreemapNode| cell_share(n.size as int, cells, total))
}

pub open spec fn remainders_of(s: Seq<TreemapNode>, cells: int, total: int) -> Seq<int> {
    s.map_values(|n: TreemapNode| cell_remainder(n.size as int, cells, total))
}

/// The cells that rounding every share down leaves unassigned.
pub open spec fn leftover_cells(s: Seq<TreemapNode>, cells: int) -> int {
    cells - seq_sum(shares_of(s, cells, total_size(s)))
}

pub open spec fn areas_of(s: Seq<WeightedNode>) -> Seq<int> {
    s.map_values(|w: WeightedNode| w.area as int)
}

pub open spec fn weighted_nodes(s: Seq<WeightedNode>) -> Seq<TreemapNode> {
    s.map_values(|w: WeightedNode| w.node)
}

/// `out` shares `cells` out over `nodes` by the largest-remainder rule: the
/// nodes are ordered by remainder, largest first, each gets its rounded-down
/// share, and the first `leftover_cells` of them one cell more. Nothing is
/// shared when there is nothing to share or nothing to share it over.
pub open spec fn is_cell_distribution(out: Seq<WeightedNode>, nodes: Seq<TreemapNode>, cells: int) -> bool {
    let total = total_size(nodes);
    if total == 0 || cells == 0 {
        out.len() == 0
    } else {
        &&& weighted_nodes(out).to_multiset() == nodes.to_multiset()
        &&& forall|i: int, j: int|
            0 <= i < j < out.len() ==> cell_remainder(#[trigger] out[j].node.size as int, cells, total)
                <= cell_remainder(#[trigger] out[i].node.size as int, cells, total)
        &&& forall|i: int|
            0 <= i < out.len() ==> #[trigger] out[i].area == cell_share(out[i].node.size as int, cells, total) + (if i
                < leftover_cells(nodes, cells) {
                1int
            } else {
                0int
            })
    }
}

proof fn lemma_share_identity(s: Seq<TreemapNode>, cells: int, total: int)
    requires
        total > 0,
        cells >= 0,
    ensures
        seq_sum(shares_of(s, cells, total)) * total + seq_sum(remainders_of(s, cells, total)) == cells
            * total_size(s),
        0 <= seq_sum(remainders_of(s, cells, total)) <= s.len() * (total - 1),
        0 <= seq_sum(shares_of(s, cells, total)),
        0 <= total_size(s),
    decreases s.len(),
{
    if s.len() > 0 {
        let p = s.drop_last();
        lemma_share_identity(p, cells, total);
        let size = s.last().size as int;
        let x = size * cells;
        assert(shares_of(s, cells, total) =~= shares_of(p, cells, total).push(cell_share(size, cells, total)));
        assert(remainders_of(s, cells, total) =~= remainders_of(p, cells, total).push(cell_remainder(size, cells, total)));
        assert(sizes_of(s) =~= sizes_of(p).push(size));
        lemma_sum_push(shares_of(p, cells, total), cell_share(size, cells, total));
        lemma_sum_push(remainders_of(p, cells, total), cell_remainder(size, cells, total));
        lemma_sum_push(sizes_of(p), size);
        lemma_mul_nonnegative(size, cells);
        lemma_fundamental_div_mod(x, total);
        lemma_mod_pos_bound(x, total);
        lemma_div_pos_is_pos(x, total);
        let sp = seq_sum(shares_of(p, cells, total));
        let sh = x / total;
        let tp = total_size(p);
        assert((sp + sh) * total == sp * total + total * sh) by (nonlinear_arith);
        assert(cells * (tp + size) == cells * tp + x) by (nonlinear_arith)
            requires
                x == size * cells,
        ;
        assert(s.len() * (total - 1) == p.len() * (total - 1) + (total - 1)) by (nonlinear_arith)
            requires
                s.len() == p.len() + 1,
        ;
    }
}

/// Rounding every share down leaves fewer cells unassigned than there are
/// nodes, and never a negative number.
proof fn lemma_leftover_bounds(s: Seq<TreemapNode>, cells: int)
    requires
        total_size(s) > 0,
        cells >= 0,
    ensures
        0 <= leftover_cells(s, cells) < s.len(),
        seq_sum(shares_of(s, cells, total_size(s))) >= 0,
{
    let t = total_size(s);
    lemma_share_identity(s, cells, t);
    let sh = seq_sum(shares_of(s, cells, t));
    let r = seq_sum(remainders_of(s, cells, t));
    let n = s.len() as int;
    if s.len() == 0 {
        assert(sizes_of(s) =~= Seq::<int>::empty());
    }
    let l = cells - sh;
    assert(l * t == r) by (nonlinear_arith)
        requires
            sh * t + r == cells * t,
            l == cells - sh,
    ;
    if l < 0 {
        assert(l * t <= -1 * t) by (nonlinear_arith)
            requires
                l <= -1,
                t > 0,
        ;
    }
    if l >= n {
        assert(l * t >= n * t) by (nonlinear_arith)
            requires
                l >= n,
                t > 0,
        ;
        assert(n * t > n * (t - 1)) by (nonlinear_arith)
            requires
                n > 0,
        ;
    }
}

/// Adding one to each of the first `k` of a sequence adds `k` to its sum.
proof fn lemma_sum_bonus(a: Seq<int>, b: Seq<int>, k: int)
    requires
        a.len() == b.len(),
        0 <= k <= a.len(),
        forall|i: int| 0 <= i < a.len() ==> #[trigger] b[i] == a[i] + (if i < k { 1int } else { 0int }),
    ensures
        seq_sum(b) == seq_sum(a) + k,
    decreases a.len(),
{
    if a.len() > 0 {
        let n = a.len() - 1;
        let k2 = if k > n { n } else { k };
        assert forall|i: int| 0 <= i < n implies #[trigger] b.drop_last()[i] == a.drop_last()[i] + (if i < k2 { 1int } else { 0int }) by {
            assert(b[i] == a[i] + (if i < k { 1int } else { 0int }));
        }
        lemma_sum_bonus(a.drop_last(), b.drop_last(), k2);
        assert(b[n] == a[n] + (if n < k { 1int } else { 0int }));
    }
}

/// A distribution gives each node at most one entry.
proof fn lemma_distribution_len(out: Seq<WeightedNode>, nodes: Seq<TreemapNode>, cells: int)
    requires
        is_cell_distribution(out, nodes, cells),
    ensures
        out.len() <= nodes.len(),
{
    if total_size(nodes) != 0 && cells != 0 {
        vstd::seq_lib::to_multiset_len(weighted_nodes(out));
        vstd::seq_lib::to_multiset_len(nodes);
    }
}

/// Largest-remainder shares always add up to the cells shared out.
pub proof fn lemma_distribution_total(out: Seq<WeightedNode>, nodes: Seq<TreemapNode>, cells: int)
    requires
        is_cell_distribution(out, nodes, cells),
        total_size(nodes) > 0,
        cells > 0,
    ensures
        seq_sum(areas_of(out)) == cells,
{
    let t = total_size(nodes);
    lemma_leftover_bounds(nodes, cells);
    let wn = weighted_nodes(out);
    let f = |n: TreemapNode| cell_share(n.size as int, cells, t);
    crate::order::lemma_map_preserves_multiset(nodes, wn, f);
    assert(wn.to_multiset() == nodes.to_multiset());
    vstd::seq_lib::to_multiset_len(wn);
    vstd::seq_lib::to_multiset_len(nodes);
    lemma_sum_permutation(nodes.map_values(f), wn.map_values(f));
    assert(nodes.map_values(f) =~= shares_of(nodes, cells, t));
    let a = wn.map_values(f);
    let b = areas_of(out);
    assert forall|i: int| 0 <= i < a.len() implies #[trigger] b[i] == a[i] + (if i < leftover_cells(nodes, cells) { 1int } else { 0int }) by {
        assert(out[i].area == cell_share(out[i].node.size as int, cells, t) + (if i < leftover_cells(nodes, cells) { 1int } else { 0int }));
    }
    lemma_sum_bonus(a, b, leftover_cells(nodes, cells));
}

/// A node with its rounded-down share and the remainder that orders it.
struct ShareKey {
    node: TreemapNode,
    share: u32,
    rem: u128,
}

impl TotalPreorder for ShareKey {
    closed spec fn le(self, other: Self) -> bool {
        self.rem >= other.rem
    }

    proof fn lemma_total(a: Self, b: Self) {
    }

    proof fn lemma_trans(a: Self, b: Self, c: Self) {
    }

    fn exec_le(&self, other: &Self) -> (r: bool) {
        self.rem >= other.rem
    }
}

spec fn share_key_ok(k: ShareKey, cells: int, total: int) -> bool {
    &&& k.share == cell_share(k.node.size as int, cells, total)
    &&& k.rem == cell_remainder(k.node.size as int, cells, total)
}

spec fn share_key_node(k: ShareKey) -> TreemapNode {
    k.node
}

/// Shares `total_cells` out over the nodes in proportion to their sizes, by
/// the largest-remainder rule (see `is_cell_distribution`).
pub fn normalized_areas(nodes: &Vec<TreemapNode>, total_cells: u32) -> (r: Vec<WeightedNode>)
    ensures
        is_cell_distribution(r@, nodes@, total_cells as int),
{
    let n = nodes.len();
    let mut total: u128 = 0;
    let mut i: usize = 0;
    while i < n
        invariant
            n == nodes@.len(),
            i <= n,
            total as int == total_size(nodes@.take(i as int)),
            total as int <= i as int * (u64::MAX as int),
        decreases n - i,
    {
        proof {
            assert(nodes@.take(i as int + 1) =~= nodes@.take(i as int).push(nodes@[i as int]));
            assert(sizes_of(nodes@.take(i as int + 1)) =~= sizes_of(nodes@.take(i as int)).push(nodes@[i as int].size as int));
            lemma_sum_push(sizes_of(nodes@.take(i as int)), nodes@[i as int].size as int);
            assert(i as int * (u64::MAX as int) <= (usize::MAX as int - 1) * (u64::MAX as int)) by (nonlinear_arith)
                requires
                    i < usize::MAX,
            ;
        }
        total = total + nodes[i].size as u128;
        i += 1;
    }
    assert(nodes@.take(n as int) =~= nodes@);
    if total == 0 || total_cells == 0 {
        return Vec::new();
    }
    let ghost t = total as int;
    let ghost c = total_cells as int;
    proof {
        assert forall|k: int| 0 <= k < sizes_of(nodes@).len() implies sizes_of(nodes@)[k] >= 0 by {}
    }
    let mut keys: Vec<ShareKey> = Vec::new();
    let mut base_sum: u128 = 0;
    i = 0;
    while i < n
        invariant
            n == nodes@.len(),
            i <= n,
            t == total as int,
            t == total_size(nodes@),
            t > 0,
            c == total_cells as int,
            forall|k: int| 0 <= k < sizes_of(nodes@).len() ==> sizes_of(nodes@)[k] >= 0,
            keys@.map_values(|k: ShareKey| share_key_node(k)) == nodes@.take(i as int),
            forall|m: int| 0 <= m < keys@.len() ==> share_key_ok(#[trigger] keys@[m], c, t),
            base_sum as int == seq_sum(shares_of(nodes@.take(i as int), c, t)),
            base_sum as int <= i as int * c,
        decreases n - i,
    {
        let size = nodes[i].size;
        proof {
            lemma_sum_nonneg_bound(sizes_of(nodes@), i as int);
            assert(size as int * c <= t * c) by (nonlinear_arith)
                requires
                    size as int <= t,
                    c >= 0,
            ;
            lemma_div_is_ordered(size as int * c, t * c, t);
            assert(t * c == c * t) by (nonlinear_arith);
            lemma_div_by_multiple(c, t);
            lemma_mul_nonnegative(size as int, c);
            lemma_div_pos_is_pos(size as int * c, t);
            assert(size as int * c <= (u64::MAX as int) * (u32::MAX as int)) by (nonlinear_arith)
                requires
                    size <= u64::MAX,
                    0 <= c <= u32::MAX,
            ;
        }
        let prod: u128 = size as u128 * total_cells as u128;
        let share128: u128 = prod / total;
        let share: u32 = share128 as u32;
        let rem: u128 = prod % total;
        let ghost before = keys@;
        keys.push(ShareKey { node: nodes[i].duplicate(), share, rem });
        proof {
            let tk = nodes@.take(i as int);
            assert(nodes@.take(i as int + 1) =~= tk.push(nodes@[i as int]));
            assert(keys@.map_values(|k: ShareKey| share_key_node(k)) =~= before.map_values(|k: ShareKey| share_key_node(k)).push(nodes@[i as int]));
            assert(shares_of(nodes@.take(i as int + 1), c, t) =~= shares_of(tk, c, t).push(share as int));
            lemma_sum_push(shares_of(tk, c, t), share as int);
            assert((i as int + 1) * c == i as int * c + c) by (nonlinear_arith);
            assert(i as int * c <= (usize::MAX as int) * (u32::MAX as int)) by (nonlinear_arith)
                requires
                    0 <= i <= usize::MAX,
                    0 <= c <= u32::MAX,
            ;
        }
        base_sum = base_sum + share as u128;
        i += 1;
    }
    proof {
        lemma_leftover_bounds(nodes@, c);
    }
    let remaining: u32 = (total_cells as u128 - base_sum) as u32;
    let ghost keys0 = keys@;
    let sorted = merge_sort(keys);
    let ghost sk = sorted@;
    proof {
        crate::order::lemma_map_preserves_multiset(keys0, sk, |k: ShareKey| share_key_node(k));
        crate::order::lemma_map_preserves_multiset(keys0, sk, |k: ShareKey| k.share as int);
        assert forall|q: int| 0 <= q < sk.len() implies share_key_ok(#[trigger] sk[q], c, t) by {
            crate::order::lemma_permutation_member(keys0, sk, q);
        }
        assert(keys0.map_values(|k: ShareKey| k.share as int) =~= shares_of(nodes@, c, t)) by {
            assert(keys0.map_values(|k: ShareKey| share_key_node(k)) =~= nodes@);
            assert forall|q: int| 0 <= q < keys0.len() implies keys0.map_values(|k: ShareKey| k.share as int)[q] == shares_of(nodes@, c, t)[q] by {
                assert(share_key_ok(keys0[q], c, t));
                assert(keys0[q].node == nodes@[q]) by {
                    assert(keys0.map_values(|k: ShareKey| share_key_node(k))[q] == nodes@[q]);
                }
            }
        }
        lemma_sum_permutation(keys0.map_values(|k: ShareKey| k.share as int), sk.map_values(|k: ShareKey| k.share as int));
        assert forall|q: int| 0 <= q < sk.len() implies (#[trigger] sk[q]).share <= base_sum by {
            let shares = sk.map_values(|k: ShareKey| k.share as int);
            assert forall|k: int| 0 <= k < shares.len() implies #[trigger] shares[k] >= 0 by {}
            lemma_sum_nonneg_bound(sk.map_values(|k: ShareKey| k.share as int), q);
        }
    }
    let mut out: Vec<WeightedNode> = Vec::new();
    let mut m: usize = 0;
    while m < sorted.len()
        invariant
            sk == sorted@,
            m <= sk.len(),
            out@.len() == m,
            remaining as int == leftover_cells(nodes@, c),
            base_sum as int + remaining as int == c,
            c <= u32::MAX,
            forall|q: int| 0 <= q < sk.len() ==> (#[trigger] sk[q]).share <= base_sum,
            forall|q: int| 0 <= q < m ==> (#[trigger] out@[q]).node == sk[q].node && out@[q].area == sk[q].share + (if q < remaining { 1int } else { 0int }),
        decreases sk.len() - m,
    {
        let bonus: u32 = if m < remaining as usize { 1 } else { 0 };
        let area = sorted[m].share + bonus;
        out.push(WeightedNode { node: sorted[m].node.duplicate(), area });
        m += 1;
    }
    proof {
        assert(weighted_nodes(out@) =~= sk.map_values(|k: ShareKey| share_key_node(k)));
        assert(keys0.map_values(|k: ShareKey| share_key_node(k)) =~= nodes@);
        assert forall|a: int, b: int| 0 <= a < b < out@.len() implies cell_remainder(#[trigger] out@[b].node.size as int, c, t)
            <= cell_remainder(#[trigger] out@[a].node.size as int, c, t) by {
            assert(sk[a].le(sk[b]));
            assert(share_key_ok(sk[a], c, t));
            assert(share_key_ok(sk[b], c, t));
        }
        assert forall|q: int| 0 <= q < out@.len() implies #[trigger] out@[q].area == cell_share(out@[q].node.size as int, c, t) + (if q
            < leftover_cells(nodes@, c) { 1int } else { 0int }) by {
            assert(share_key_ok(sk[q], c, t));
        }
    }
    out
}

/// The first `max` elements of `s`, or all of them when there are fewer.
pub open spec fn first_n<A>(s: Seq<A>, max: int) -> Seq<A> {
    if max < s.len() {
        s.take(max)
    } else {
        s
    }
}

pub open spec fn pairs_as_weighted(r: Seq<(TreemapNode, u32)>) -> Seq<WeightedNode> {
    r.map_values(|p: (TreemapNode, u32)| WeightedNode { node: p.0, area: p.1 })
}

/// `r` is what normalizing `nodes` into `bounds` gives: the `max` first of
/// the positive-size nodes by rank share the cells of `bounds` (see
/// `is_cell_distribution`); nothing when `bounds` is empty or `max` is zero.
pub open spec fn is_normalization(r: Seq<(TreemapNode, u32)>, nodes: Seq<TreemapNode>, bounds: Rect, max: usize) -> bool {
    if bounds.width == 0 || bounds.height == 0 || max == 0 {
        r.len() == 0
    } else {
        exists|ranked: Seq<TreemapNode>|
            is_ranking(ranked, nodes) && #[trigger] is_cell_distribution(
                pairs_as_weighted(r),
                first_n(ranked, max as int),
                rect_area(bounds),
            )
    }
}

/// Some node of `nodes` has a positive size.
pub open spec fn has_positive(nodes: Seq<TreemapNode>) -> bool {
    exists|i: int| 0 <= i < nodes.len() && #[trigger] nodes[i].size > 0
}

/// Every element of a ranking has a positive size; a ranking is empty only
/// when no node has a positive size.
proof fn lemma_ranking_positive(ranked: Seq<TreemapNode>, nodes: Seq<TreemapNode>)
    requires
        is_ranking(ranked, nodes),
    ensures
        forall|i: int| 0 <= i < ranked.len() ==> (#[trigger] ranked[i]).size > 0 && nodes.contains(ranked[i]),
        has_positive(nodes) ==> ranked.len() > 0,
        !has_positive(nodes) ==> ranked.len() == 0,
{
    broadcast use vstd::seq_lib::group_to_multiset_ensures;
    let pred = |n: TreemapNode| n.size > 0;
    let pos = positive_nodes(nodes);
    assert forall|i: int| 0 <= i < ranked.len() implies (#[trigger] ranked[i]).size > 0 && nodes.contains(ranked[i]) by {
        assert(ranked.contains(ranked[i]));
        assert(ranked.to_multiset().count(ranked[i]) > 0);
        assert(pos.contains(ranked[i]));
        let k = choose|k: int| 0 <= k < pos.len() && pos[k] == ranked[i];
        nodes.lemma_filter_pred(pred, k);
        nodes.lemma_filter_contains_rev(pred, ranked[i]);
    }
    if !has_positive(nodes) {
        assert(nodes.all(|x: TreemapNode| !pred(x)));
        nodes.lemma_all_neg_filter_empty(pred);
        vstd::seq_lib::to_multiset_len(pos);
        vstd::seq_lib::to_multiset_len(ranked);
    }
    if has_positive(nodes) {
        let i = choose|i: int| 0 <= i < nodes.len() && #[trigger] nodes[i].size > 0;
        nodes.lemma_filter_contains_rev(pred, nodes[i]);
        assert(nodes.contains(nodes[i]));
        assert(pos.to_multiset().count(nodes[i]) > 0);
        vstd::seq_lib::to_multiset_len(pos);
        vstd::seq_lib::to_multiset_len(ranked);
    }
}

/// The positive-size nodes of `nodes`, ranked by size (largest first), then
/// name and id, cut to the first `max_nodes`, with the cells of `bounds`
/// shared out over them by the largest-remainder rule.
pub fn normalize_areas(nodes: &Vec<TreemapNode>, bounds: Rect, max_nodes: usize) -> (r: Vec<(TreemapNode, u32)>)
    ensures
        is_normalization(r@, nodes@, bounds, max_nodes),
        r@.len() <= max_nodes,
        r@.len() <= positive_nodes(nodes@).len(),
        forall|i: int| 0 <= i < r@.len() ==> (#[trigger] r@[i]).0.size > 0 && nodes@.contains(r@[i].0),
        !has_positive(nodes@) ==> r@.len() == 0,
        bounds.width > 0 && bounds.height > 0 && max_nodes > 0 && has_positive(nodes@) ==> seq_sum(
            areas_of(pairs_as_weighted(r@)),
        ) == rect_area(bounds),
{
    if bounds.width == 0 || bounds.height == 0 || max_nodes == 0 {
        return Vec::new();
    }
    let ranked = rank_nodes(nodes);
    proof {
        lemma_ranking_positive(ranked@, nodes@);
    }
    let mut kept: Vec<TreemapNode> = Vec::new();
    let mut i: usize = 0;
    while i < ranked.len() && i < max_nodes
        invariant
            i <= ranked@.len(),
            i <= max_nodes,
            kept@ == ranked@.take(i as int),
        decreases ranked@.len() - i,
    {
        kept.push(ranked[i].duplicate());
        i += 1;
        assert(kept@ =~= ranked@.take(i as int));
    }
    proof {
        assert(kept@ =~= first_n(ranked@, max_nodes as int));
        assert(bounds.width as int * bounds.height as int <= 65535 * 65535) by (nonlinear_arith)
            requires
                bounds.width <= 65535,
                bounds.height <= 65535,
        ;
    }
    let cells: u32 = bounds.width as u32 * bounds.height as u32;
    let weighted = normalized_areas(&kept, cells);
    let mut out: Vec<(TreemapNode, u32)> = Vec::new();
    let mut m: usize = 0;
    while m < weighted.len()
        invariant
            m <= weighted@.len(),
            pairs_as_weighted(out@) == weighted@.take(m as int),
        decreases weighted@.len() - m,
    {
        let ghost before = out@;
        out.push((weighted[m].node.duplicate(), weighted[m].area));
        assert(pairs_as_weighted(out@) =~= pairs_as_weighted(before).push(weighted@[m as int]));
        assert(weighted@.take(m as int + 1) =~= weighted@.take(m as int).push(weighted@[m as int]));
        m += 1;
        assert(pairs_as_weighted(out@) =~= weighted@.take(m as int));
    }
    proof {
        assert(weighted@.take(weighted@.len() as int) =~= weighted@);
        assert(is_cell_distribution(pairs_as_weighted(out@), first_n(ranked@, max_nodes as int), rect_area(bounds)));
        let kp = kept@;
        if kp.len() > 0 {
            assert forall|k: int| 0 <= k < sizes_of(kp).len() implies #[trigger] sizes_of(kp)[k] >= 0 by {}
            lemma_sum_nonneg_bound(sizes_of(kp), 0);
            assert(total_size(kp) > 0);
        } else {
            assert(sizes_of(kp) =~= Seq::<int>::empty());
        }
        assert forall|q: int| 0 <= q < out@.len() implies (#[trigger] out@[q]).0.size > 0 && nodes@.contains(out@[q].0) by {
            let w = pairs_as_weighted(out@);
            assert(w[q].node == out@[q].0);
            broadcast use vstd::seq_lib::group_to_multiset_ensures;
            assert(weighted_nodes(w).contains(w[q].node)) by {
                assert(weighted_nodes(w)[q] == w[q].node);
            }
            assert(weighted_nodes(w).to_multiset().count(w[q].node) > 0);
            assert(kp.contains(w[q].node));
            let m = choose|m: int| 0 <= m < kp.len() && kp[m] == w[q].node;
            assert(kp[m] == ranked@[m]);
        }
        if has_positive(nodes@) {
            assert(rect_area(bounds) > 0) by (nonlinear_arith)
                requires
                    bounds.width > 0,
                    bounds.height > 0,
            ;
            lemma_distribution_total(pairs_as_weighted(out@), kp, rect_area(bounds));
        }
        lemma_distribution_len(pairs_as_weighted(out@), kp, rect_area(bounds));
        vstd::seq_lib::to_multiset_len(ranked@);
        vstd::seq_lib::to_multiset_len(positive_nodes(nodes@));
    }
    out
}

/// `a + b`, saturated at `u16::MAX`.
pub open spec fn sat_add16(a: int, b: int) -> int {
    if a + b > u16::MAX {
        u16::MAX as int
    } else {
        a + b
    }
}

/// `a - b`, saturated at zero.
pub open spec fn sat_sub(a: int, b: int) -> int {
    if a > b {
        a - b
    } else {
        0
    }
}

/// `a / b` rounded to the nearest integer, halves away from zero (for
/// `a >= 0`, `b > 0`).
pub open spec fn rounded_div(a: int, b: int) -> int {
    (2 * a + b) / (2 * b)
}

/// `v` held within `[lo, hi]`.
pub open spec fn clamp_to(v: int, lo: int, hi: int) -> int {
    if v < lo {
        lo
    } else if v > hi {
        hi
    } else {
        v
    }
}

/// The length along the row given to an item of `cells` cells in a strip
/// `thickness` thick, with `remaining` left along the row for it and the
/// `items_left - 1` after it: the last item takes what is left; every
/// other item gets its cells over the thickness, rounded, but at least one
/// and never so much that a later item gets none (zero when nothing can be
/// spared).
pub open spec fn item_extent(cells: int, thickness: int, remaining: int, items_left: int) -> int {
    if items_left == 1 {
        remaining
    } else {
        let max_allowed = sat_sub(remaining, items_left - 1);
        if max_allowed == 0 {
            0
        } else {
            clamp_to(rounded_div(cells, thickness), 1, max_allowed)
        }
    }
}

/// A tile's rectangle in a strip: along the x axis for a horizontal strip,
/// along the y axis otherwise.
pub open spec fn strip_rect(horizontal: bool, pos: int, across: int, extent: int, thickness: int) -> Rect {
    if horizontal {
        spec_ratatui_rect(pos as u16, across as u16, extent as u16, thickness as u16)
    } else {
        spec_ratatui_rect(across as u16, pos as u16, thickness as u16, extent as u16)
    }
}

/// The tiles of the items of `row` from `idx` on, placed one after the other
/// along the strip from `pos`, with `remaining` left along it; shades
/// alternate from `variant`. Placing stops when nothing is left.
pub open spec fn row_tiles(
    row: Seq<WeightedNode>,
    idx: int,
    horizontal: bool,
    pos: int,
    remaining: int,
    across: int,
    thickness: int,
    depth: usize,
    variant: bool,
) -> Seq<TreemapTile>
    decreases row.len() - idx,
{
    if idx < 0 || idx >= row.len() || remaining <= 0 {
        Seq::empty()
    } else {
        let extent = item_extent(row[idx].area as int, thickness, remaining, row.len() - idx);
        seq![TreemapTile { node: row[idx].node, rect: strip_rect(horizontal, pos, across, extent, thickness), depth, shade_variant: variant }]
            + row_tiles(row, idx + 1, horizontal, sat_add16(pos, extent), remaining - extent, across, thickness, depth, !variant)
    }
}

/// A strip runs along the longer side of the area (along x on a tie).
pub open spec fn is_horizontal(area: Rect) -> bool {
    area.width >= area.height
}

/// The length of the area along its strips.
pub open spec fn span_of(area: Rect) -> int {
    if is_horizontal(area) {
        area.width as int
    } else {
        area.height as int
    }
}

/// The length of the area across its strips.
pub open spec fn depth_of(area: Rect) -> int {
    if is_horizontal(area) {
        area.height as int
    } else {
        area.width as int
    }
}

/// The thickness of the strip a row takes: all that is left for the last
/// row, else its cells over the span, rounded, held within `[1, depth]`.
pub open spec fn row_thickness(row: Seq<WeightedNode>, area: Rect, last: bool) -> int {
    if last {
        depth_of(area)
    } else {
        clamp_to(rounded_div(seq_sum(areas_of(row)), span_of(area)), 1, depth_of(area))
    }
}

/// What is left of `area` once a strip `thickness` thick is taken off its
/// top (horizontal strips) or left side.
pub open spec fn rest_after_row(area: Rect, thickness: int) -> Rect {
    if is_horizontal(area) {
        spec_ratatui_rect(area.x, sat_add16(area.y as int, thickness) as u16, area.width, sat_sub(area.height as int, thickness) as u16)
    } else {
        spec_ratatui_rect(sat_add16(area.x as int, thickness) as u16, area.y, sat_sub(area.width as int, thickness) as u16, area.height)
    }
}

/// The right and bottom edges of the rectangle lie on the screen's `u16`
/// coordinates, so no coordinate inside it saturates.
pub open spec fn fits_screen(r: Rect) -> bool {
    &&& r.x + r.width <= u16::MAX
    &&& r.y + r.height <= u16::MAX
}

/// The rectangle's area is small enough that ratatui never shrinks a
/// rectangle inside it.
pub open spec fn small_area(r: Rect) -> bool {
    rect_area(r) <= u16::MAX
}

pub open spec fn tile_areas(s: Seq<TreemapTile>) -> Seq<int> {
    s.map_values(|t: TreemapTile| rect_area(t.rect))
}

pub open spec fn tiles_within(s: Seq<TreemapTile>, outer: Rect) -> bool {
    forall|i: int| 0 <= i < s.len() ==> rect_within(#[trigger] s[i].rect, outer)
}

pub open spec fn tiles_disjoint(s: Seq<TreemapTile>) -> bool {
    forall|i: int, j: int| 0 <= i < j < s.len() ==> !rects_overlap(#[trigger] s[i].rect, #[trigger] s[j].rect)
}

pub open spec fn tiles_apart(s: Seq<TreemapTile>, r: Rect) -> bool {
    forall|i: int| 0 <= i < s.len() ==> !rects_overlap(#[trigger] s[i].rect, r)
}

spec fn along_lo(r: Rect, h: bool) -> int {
    if h {
        r.x as int
    } else {
        r.y as int
    }
}

spec fn along_len(r: Rect, h: bool) -> int {
    if h {
        r.width as int
    } else {
        r.height as int
    }
}

spec fn across_lo(r: Rect, h: bool) -> int {
    if h {
        r.y as int
    } else {
        r.x as int
    }
}

spec fn across_len(r: Rect, h: bool) -> int {
    if h {
        r.height as int
    } else {
        r.width as int
    }
}

/// The tile sits in the strip of `area` that starts at `across` and is
/// `thickness` thick, between `start` and `end` along it.
spec fn in_strip(t: TreemapTile, h: bool, start: int, end: int, across: int, thickness: int, depth: usize) -> bool {
    &&& along_lo(t.rect, h) >= start
    &&& along_lo(t.rect, h) + along_len(t.rect, h) <= end
    &&& across_lo(t.rect, h) == across
    &&& across_len(t.rect, h) <= thickness
    &&& t.depth == depth
}

fn rounded_div_exec(a: u128, b: u128) -> (r: u128)
    requires
        b > 0,
        a < 0x1_0000_0000_0000_0000_0000_0000u128,
        b <= u64::MAX,
    ensures
        r == rounded_div(a as int, b as int),
{
    (2 * a + b) / (2 * b)
}

fn clamp_u16(v: u128, lo: u16, hi: u16) -> (r: u16)
    requires
        lo <= hi,
    ensures
        r == clamp_to(v as int, lo as int, hi as int),
{
    if v < lo as u128 {
        lo
    } else if v > hi as u128 {
        hi
    } else {
        v as u16
    }
}

/// Lays the items of `row` out one after the other in a strip along the
/// longer side of `area` and returns what is left of `area`.
#[verifier::rlimit(60)]
#[verifier::spinoff_prover]
fn layout_row(
    row: &Vec<WeightedNode>,
    area: Rect,
    output: &mut Vec<TreemapTile>,
    is_last_row: bool,
    depth: usize,
    variant: &mut bool,
) -> (rest: Rect)
    ensures
        row@.len() == 0 || area.width == 0 || area.height == 0 ==> rest == area && final(output)@ == old(output)@
            && *final(variant) == *old(variant),
        row@.len() > 0 && area.width > 0 && area.height > 0 ==> {
            let h = is_horizontal(area);
            let thickness = row_thickness(row@, area, is_last_row);
            &&& final(output)@ == old(output)@ + row_tiles(
                row@,
                0,
                h,
                if h { area.x as int } else { area.y as int },
                span_of(area),
                if h { area.y as int } else { area.x as int },
                thickness,
                depth,
                *old(variant),
            )
            &&& rest == rest_after_row(area, thickness)
            &&& *final(variant) == !*old(variant)
        },
        final(output)@.len() >= old(output)@.len(),
        final(output)@.take(old(output)@.len() as int) == old(output)@,
        tiles_of(final(output)@.skip(old(output)@.len() as int), weighted_nodes(row@)),
        rect_within(rest, area),
        tiles_within(final(output)@.skip(old(output)@.len() as int), area),
        forall|i: int| old(output)@.len() <= i < final(output)@.len() ==> (#[trigger] final(output)@[i]).depth == depth,
        fits_screen(area) ==> tiles_disjoint(final(output)@.skip(old(output)@.len() as int)),
        fits_screen(area) ==> tiles_apart(final(output)@.skip(old(output)@.len() as int), rest),
        fits_screen(area) && small_area(area) ==> seq_sum(tile_areas(final(output)@.skip(old(output)@.len() as int))) + rect_area(rest) == rect_area(area),
        is_last_row && row@.len() > 0 && area.width > 0 && area.height > 0 ==> rect_area(rest) == 0,
{
    let ghost old_out = output@;
    let ghost old_variant = *variant;
    if row.len() == 0 || area.width == 0 || area.height == 0 {
        proof {
            assert(output@.skip(old_out.len() as int) =~= Seq::<TreemapTile>::empty());
            assert(tile_areas(Seq::<TreemapTile>::empty()) =~= Seq::<int>::empty());
            if area.width == 0 || area.height == 0 {
                assert(rect_area(area) == 0) by (nonlinear_arith)
                    requires area.width == 0 || area.height == 0;
            }
        }
        return area;
    }
    let mut row_area: u128 = 0;
    let mut k: usize = 0;
    while k < row.len()
        invariant
            k <= row@.len(),
            row_area as int == seq_sum(areas_of(row@.take(k as int))),
            row_area as int <= k as int * (u32::MAX as int),
        decreases row@.len() - k,
    {
        proof {
            assert(row@.take(k as int + 1) =~= row@.take(k as int).push(row@[k as int]));
            assert(areas_of(row@.take(k as int + 1)) =~= areas_of(row@.take(k as int)).push(row@[k as int].area as int));
            lemma_sum_push(areas_of(row@.take(k as int)), row@[k as int].area as int);
            assert(k as int * (u32::MAX as int) <= (usize::MAX as int) * (u32::MAX as int)) by (nonlinear_arith)
                requires
                    k <= usize::MAX,
            ;
        }
        row_area = row_area + row[k].area as u128;
        k += 1;
    }
    assert(row@.take(row@.len() as int) =~= row@);
    let horizontal = area.width >= area.height;
    let span: u16 = if horizontal { area.width } else { area.height };
    let depthwise: u16 = if horizontal { area.height } else { area.width };
    let along_start: u16 = if horizontal { area.x } else { area.y };
    let across_start: u16 = if horizontal { area.y } else { area.x };
    proof {
        assert((row_area as int) < 0x1_0000_0000_0000_0000_0000_0000int) by (nonlinear_arith)
            requires
                row_area as int <= row@.len() * (u32::MAX as int),
                row@.len() <= usize::MAX,
                usize::MAX <= u64::MAX,
        ;
    }
    let thickness: u16 = if is_last_row {
        depthwise
    } else {
        clamp_u16(rounded_div_exec(row_area, span as u128), 1, depthwise)
    };
    let ghost t = thickness as int;
    let ghost full = row_tiles(row@, 0, horizontal, along_start as int, span as int, across_start as int, t, depth, old_variant);
    let mut pos: u16 = along_start;
    let mut remaining: u16 = span;
    let mut current: bool = *variant;
    let mut idx: usize = 0;
    while idx < row.len() && remaining > 0
        invariant
            1 <= t <= depthwise,
            t == thickness as int,
            row@.len() > 0,
            idx <= row@.len(),
            idx == row@.len() ==> remaining == 0,
            remaining <= span,
            horizontal == is_horizontal(area),
            span as int == span_of(area),
            depthwise as int == depth_of(area),
            along_start as int == (if horizontal { area.x as int } else { area.y as int }),
            across_start as int == (if horizontal { area.y as int } else { area.x as int }),
            pos as int == (if along_start as int + span - remaining > u16::MAX { u16::MAX as int } else { along_start as int + span - remaining }),
            output@.len() >= old_out.len(),
            output@.take(old_out.len() as int) == old_out,
            output@ + row_tiles(row@, idx as int, horizontal, pos as int, remaining as int, across_start as int, t, depth, current) == old_out + full,
            forall|i: int| old_out.len() <= i < output@.len() ==> in_strip(#[trigger] output@[i], horizontal, along_start as int,
                along_start as int + span - remaining, across_start as int, t, depth),
            fits_screen(area) ==> forall|i: int, j: int| old_out.len() <= i < j < output@.len() ==> !rects_overlap(#[trigger] output@[i].rect, #[trigger] output@[j].rect),
            fits_screen(area) && small_area(area) ==> seq_sum(tile_areas(output@.skip(old_out.len() as int))) == (span - remaining) * t,
        decreases row@.len() - idx,
    {
        let items_left: usize = row.len() - idx;
        let extent: u16 = if idx + 1 == row.len() {
            remaining
        } else {
            let max_allowed: u16 = if (remaining as usize) > items_left - 1 {
                remaining - (items_left - 1) as u16
            } else {
                0
            };
            if max_allowed == 0 {
                0
            } else {
                clamp_u16(rounded_div_exec(row[idx].area as u128, thickness as u128), 1, max_allowed)
            }
        };
        assert(extent as int == item_extent(row@[idx as int].area as int, t, remaining as int, row@.len() - idx));
        let rect = if horizontal {
            Rect::new(pos, across_start, extent, thickness)
        } else {
            Rect::new(across_start, pos, thickness, extent)
        };
        let tile = TreemapTile { node: row[idx].node.duplicate(), rect, depth, shade_variant: current };
        let ghost before = output@;
        let ghost tp = along_start as int + span - remaining;
        proof {
            assert(rect == strip_rect(horizontal, pos as int, across_start as int, extent as int, t));
            assert(row_tiles(row@, idx as int, horizontal, pos as int, remaining as int, across_start as int, t, depth, current)
                == seq![tile] + row_tiles(row@, idx as int + 1, horizontal, sat_add16(pos as int, extent as int), remaining - extent, across_start as int, t, depth, !current));
            assert(in_strip(tile, horizontal, along_start as int, tp + extent, across_start as int, t, depth));
        }
        output.push(tile);
        proof {
            assert(output@ =~= before.push(tile));
            assert(output@.take(old_out.len() as int) =~= before.take(old_out.len() as int));
            assert(output@ + row_tiles(row@, idx as int + 1, horizontal, sat_add16(pos as int, extent as int), remaining - extent, across_start as int, t, depth, !current)
                =~= before + (seq![tile] + row_tiles(row@, idx as int + 1, horizontal, sat_add16(pos as int, extent as int), remaining - extent, across_start as int, t, depth, !current)));
            if fits_screen(area) {
                assert(pos as int == tp);
                assert forall|i: int, j: int| old_out.len() <= i < j < output@.len() implies !rects_overlap(#[trigger] output@[i].rect, #[trigger] output@[j].rect) by {
                    if j == output@.len() - 1 {
                        assert(in_strip(before[i], horizontal, along_start as int, tp, across_start as int, t, depth));
                    } else {
                        assert(output@[i] == before[i] && output@[j] == before[j]);
                    }
                }
                if small_area(area) {
                    let ns = before.skip(old_out.len() as int);
                    assert(output@.skip(old_out.len() as int) =~= ns.push(tile));
                    assert(tile_areas(ns.push(tile)) =~= tile_areas(ns).push(rect_area(tile.rect)));
                    lemma_sum_push(tile_areas(ns), rect_area(tile.rect));
                    assert(extent as int * t <= span as int * depthwise as int) by (nonlinear_arith)
                        requires
                            0 <= extent <= span,
                            0 <= t <= depthwise,
                    ;
                    assert(span as int * depthwise as int == rect_area(area)) by (nonlinear_arith)
                        requires
                            span as int == span_of(area),
                            depthwise as int == depth_of(area),
                    ;
                    assert(rect_area(tile.rect) == extent as int * t) by (nonlinear_arith)
                        requires
                            horizontal ==> tile.rect.width == extent && tile.rect.height == t,
                            !horizontal ==> tile.rect.width == t && tile.rect.height == extent,
                    ;
                    assert((span - remaining) * t + extent * t == (span - (remaining - extent)) * t) by (nonlinear_arith);
                }
            }
        }
        pos = pos.saturating_add(extent);
        remaining = remaining - extent;
        current = !current;
        idx += 1;
    }
    proof {
        assert(row_tiles(row@, idx as int, horizontal, pos as int, remaining as int, across_start as int, t, depth, current) =~= Seq::<TreemapTile>::empty());
        assert(output@ =~= old_out + full);
        assert(thickness as int == row_thickness(row@, area, is_last_row));
    }
    *variant = !*variant;
    let rest = if horizontal {
        Rect::new(area.x, area.y.saturating_add(thickness), area.width, area.height - thickness)
    } else {
        Rect::new(area.x.saturating_add(thickness), area.y, area.width - thickness, area.height)
    };
    proof {
        if is_last_row {
            assert(rect_area(rest) == 0) by (nonlinear_arith)
                requires
                    rest.width == 0 || rest.height == 0,
            ;
        }
        let ns = output@.skip(old_out.len() as int);
        assert forall|i: int| 0 <= i < ns.len() implies rect_within(#[trigger] ns[i].rect, area) by {
            assert(in_strip(output@[old_out.len() + i], horizontal, along_start as int, along_start as int + span - remaining, across_start as int, t, depth));
        }
        assert forall|i: int| old_out.len() <= i < output@.len() implies (#[trigger] output@[i]).depth == depth by {
            assert(in_strip(output@[i], horizontal, along_start as int, along_start as int + span - remaining, across_start as int, t, depth));
        }
        if fits_screen(area) {
            assert forall|i: int, j: int| 0 <= i < j < ns.len() implies !rects_overlap(#[trigger] ns[i].rect, #[trigger] ns[j].rect) by {
                assert(ns[i] == output@[old_out.len() + i]);
                assert(ns[j] == output@[old_out.len() + j]);
            }
            assert forall|i: int| 0 <= i < ns.len() implies !rects_overlap(#[trigger] ns[i].rect, rest) by {
                assert(in_strip(output@[old_out.len() + i], horizontal, along_start as int, along_start as int + span - remaining, across_start as int, t, depth));
            }
            if small_area(area) {
                assert((depthwise as int - t) * span as int <= span as int * depthwise as int) by (nonlinear_arith)
                    requires
                        0 <= t <= depthwise,
                        span >= 0,
                ;
                assert(span as int * depthwise as int == rect_area(area)) by (nonlinear_arith)
                    requires
                        span as int == span_of(area),
                        depthwise as int == depth_of(area),
                ;
                assert(rect_area(rest) == (depthwise as int - t) * span as int) by (nonlinear_arith)
                    requires
                        horizontal ==> rest.width == span && rest.height == depthwise - t,
                        !horizontal ==> rest.width == depthwise - t && rest.height == span,
                ;
                assert(span as int * t + (depthwise as int - t) * span as int == span as int * depthwise as int) by (nonlinear_arith);
            }
        }
        assert(output@.skip(old_out.len() as int) =~= full);
        lemma_row_tiles_nodes(row@, 0, horizontal, along_start as int, span as int, across_start as int, t, depth, old_variant);
    }
    rest
}

/// The largest value of a sequence (zero for an empty one).
pub open spec fn seq_max(s: Seq<int>) -> int
    decreases s.len(),
{
    if s.len() == 0 {
        0
    } else if s.len() == 1 {
        s[0]
    } else if s.last() > seq_max(s.drop_last()) {
        s.last()
    } else {
        seq_max(s.drop_last())
    }
}

/// The smallest value of a sequence (zero for an empty one).
pub open spec fn seq_min(s: Seq<int>) -> int
    decreases s.len(),
{
    if s.len() == 0 {
        0
    } else if s.len() == 1 {
        s[0]
    } else if s.last() < seq_min(s.drop_last()) {
        s.last()
    } else {
        seq_min(s.drop_last())
    }
}

/// `a / b <= c / d`, for positive `b` and `d`.
pub open spec fn frac_le(a: int, b: int, c: int, d: int) -> bool {
    a * d <= c * b
}

/// `max(a1 / b1, c1 / d1) <= max(a2 / b2, c2 / d2)`.
pub open spec fn max_frac_le(a1: int, b1: int, c1: int, d1: int, a2: int, b2: int, c2: int, d2: int) -> bool {
    &&& (frac_le(a1, b1, a2, b2) || frac_le(a1, b1, c2, d2))
    &&& (frac_le(c1, d1, a2, b2) || frac_le(c1, d1, c2, d2))
}

/// How far from square the worst item of a row of cell counts is, laid in a
/// strip of side `side`, is `max(side² · largest / sum², sum² / (side² ·
/// smallest))`. The row `next` is no worse than `row` by that measure.
pub open spec fn no_worse(next: Seq<int>, row: Seq<int>, side: int) -> bool {
    let q = side * side;
    let s1 = seq_sum(row);
    let s2 = seq_sum(next);
    max_frac_le(
        q * seq_max(next),
        s2 * s2,
        s2 * s2,
        q * seq_min(next),
        q * seq_max(row),
        s1 * s1,
        s1 * s1,
        q * seq_min(row),
    )
}

fn no_worse_exec(s2: u64, big2: u32, small2: u32, s1: u64, big1: u32, small1: u32, side: u16) -> (r: bool)
    requires
        s1 <= u32::MAX,
        s2 <= u32::MAX,
    ensures
        r == max_frac_le(
            side * side * big2,
            s2 * s2,
            s2 * s2,
            side * side * small2,
            side * side * big1,
            s1 * s1,
            s1 * s1,
            side * side * small1,
        ),
{
    proof {
        assert(side * side <= 0xffff_ffffint) by (nonlinear_arith)
            requires
                side <= 0xffff,
        ;
        assert(side * side * big2 <= 0xffff_ffff_ffff_ffffint) by (nonlinear_arith)
            requires
                side * side <= 0xffff_ffffint,
                big2 <= 0xffff_ffff,
        ;
        assert(side * side * small2 <= 0xffff_ffff_ffff_ffffint) by (nonlinear_arith)
            requires
                side * side <= 0xffff_ffffint,
                small2 <= 0xffff_ffff,
        ;
        assert(side * side * big1 <= 0xffff_ffff_ffff_ffffint) by (nonlinear_arith)
            requires
                side * side <= 0xffff_ffffint,
                big1 <= 0xffff_ffff,
        ;
        assert(side * side * small1 <= 0xffff_ffff_ffff_ffffint) by (nonlinear_arith)
            requires
                side * side <= 0xffff_ffffint,
                small1 <= 0xffff_ffff,
        ;
        assert(s1 * s1 <= 0xffff_ffff_ffff_ffffint) by (nonlinear_arith)
            requires
                s1 <= 0xffff_ffff,
        ;
        assert(s2 * s2 <= 0xffff_ffff_ffff_ffffint) by (nonlinear_arith)
            requires
                s2 <= 0xffff_ffff,
        ;
    }
    let q: u128 = side as u128 * side as u128;
    let a1: u128 = q * big2 as u128;
    let b1: u128 = s2 as u128 * s2 as u128;
    let d1: u128 = q * small2 as u128;
    let a2: u128 = q * big1 as u128;
    let b2: u128 = s1 as u128 * s1 as u128;
    let d2: u128 = q * small1 as u128;
    proof {
        assert(a1 * b2 <= 0xffff_ffff_ffff_ffff * 0xffff_ffff_ffff_ffffint) by (nonlinear_arith)
            requires a1 <= 0xffff_ffff_ffff_ffffint, b2 <= 0xffff_ffff_ffff_ffffint;
        assert(a2 * b1 <= 0xffff_ffff_ffff_ffff * 0xffff_ffff_ffff_ffffint) by (nonlinear_arith)
            requires a2 <= 0xffff_ffff_ffff_ffffint, b1 <= 0xffff_ffff_ffff_ffffint;
        assert(a1 * d2 <= 0xffff_ffff_ffff_ffff * 0xffff_ffff_ffff_ffffint) by (nonlinear_arith)
            requires a1 <= 0xffff_ffff_ffff_ffffint, d2 <= 0xffff_ffff_ffff_ffffint;
        assert(b2 * b1 <= 0xffff_ffff_ffff_ffff * 0xffff_ffff_ffff_ffffint) by (nonlinear_arith)
            requires b2 <= 0xffff_ffff_ffff_ffffint, b1 <= 0xffff_ffff_ffff_ffffint;
        assert(b1 * b2 <= 0xffff_ffff_ffff_ffff * 0xffff_ffff_ffff_ffffint) by (nonlinear_arith)
            requires b2 <= 0xffff_ffff_ffff_ffffint, b1 <= 0xffff_ffff_ffff_ffffint;
        assert(a2 * d1 <= 0xffff_ffff_ffff_ffff * 0xffff_ffff_ffff_ffffint) by (nonlinear_arith)
            requires a2 <= 0xffff_ffff_ffff_ffffint, d1 <= 0xffff_ffff_ffff_ffffint;
        assert(b1 * d2 <= 0xffff_ffff_ffff_ffff * 0xffff_ffff_ffff_ffffint) by (nonlinear_arith)
            requires d2 <= 0xffff_ffff_ffff_ffffint, b1 <= 0xffff_ffff_ffff_ffffint;
        assert(b2 * d1 <= 0xffff_ffff_ffff_ffff * 0xffff_ffff_ffff_ffffint) by (nonlinear_arith)
            requires b2 <= 0xffff_ffff_ffff_ffffint, d1 <= 0xffff_ffff_ffff_ffffint;
    }
    let first = a1 * b2 <= a2 * b1 || a1 * d2 <= b2 * b1;
    let second = b1 * b2 <= a2 * d1 || b1 * d2 <= b2 * d1;
    first && second
}

/// The nodes of a normalization that were given cells, with their cells.
fn positive_weighted(normalized: &Vec<(TreemapNode, u32)>) -> (r: Vec<WeightedNode>)
    ensures
        r@ == pairs_as_weighted(normalized@).filter(|w: WeightedNode| w.area > 0),
        r@.len() <= normalized@.len(),
        forall|i: int| 0 <= i < r@.len() ==> (#[trigger] r@[i]).area > 0 && pairs_as_weighted(normalized@).contains(r@[i]),
        seq_sum(areas_of(r@)) == seq_sum(areas_of(pairs_as_weighted(normalized@))),
{
    let mut weighted: Vec<WeightedNode> = Vec::new();
    let mut k: usize = 0;
    while k < normalized.len()
        invariant
            k <= normalized@.len(),
            weighted@ == pairs_as_weighted(normalized@.take(k as int)).filter(|w: WeightedNode| w.area > 0),
        decreases normalized@.len() - k,
    {
        proof {
            assert(normalized@.take(k as int + 1) =~= normalized@.take(k as int).push(normalized@[k as int]));
            assert(pairs_as_weighted(normalized@.take(k as int + 1)) =~= pairs_as_weighted(normalized@.take(k as int)).push(
                WeightedNode { node: normalized@[k as int].0, area: normalized@[k as int].1 }));
            pairs_as_weighted(normalized@.take(k as int)).lemma_filter_push(
                WeightedNode { node: normalized@[k as int].0, area: normalized@[k as int].1 }, |w: WeightedNode| w.area > 0);
        }
        if normalized[k].1 > 0 {
            weighted.push(WeightedNode { node: normalized[k].0.duplicate(), area: normalized[k].1 });
        }
        k += 1;
    }
    proof {
        let all = pairs_as_weighted(normalized@);
        assert(normalized@.take(normalized@.len() as int) =~= normalized@);
        let pred = |w: WeightedNode| w.area > 0;
        assert forall|i: int| 0 <= i < weighted@.len() implies (#[trigger] weighted@[i]).area > 0 && all.contains(weighted@[i]) by {
            all.lemma_filter_pred(pred, i);
            assert(all.filter(pred).contains(weighted@[i]));
            all.lemma_filter_contains_rev(pred, weighted@[i]);
        }
        lemma_filter_positive_sum(all);
        all.lemma_filter_len(pred);
    }
    weighted
}

/// A row gives at most one tile per node from `idx` on.
proof fn lemma_row_tiles_len(
    row: Seq<WeightedNode>,
    idx: int,
    horizontal: bool,
    pos: int,
    remaining: int,
    across: int,
    thickness: int,
    depth: usize,
    variant: bool,
)
    requires
        0 <= idx <= row.len(),
    ensures
        row_tiles(row, idx, horizontal, pos, remaining, across, thickness, depth, variant).len() <= row.len() - idx,
    decreases row.len() - idx,
{
    if idx < row.len() && remaining > 0 {
        let extent = item_extent(row[idx].area as int, thickness, remaining, row.len() - idx);
        lemma_row_tiles_len(row, idx + 1, horizontal, sat_add16(pos, extent), remaining - extent, across, thickness, depth, !variant);
    }
}

/// Every row of `row`'s nodes gives at most one tile per node.
proof fn lemma_rows_short(row: Seq<WeightedNode>)
    ensures
        forall|h: bool, pos: int, remaining: int, across: int, thickness: int, depth: usize, variant: bool|
            #[trigger] row_tiles(row, 0, h, pos, remaining, across, thickness, depth, variant).len() <= row.len(),
{
    assert forall|h: bool, pos: int, remaining: int, across: int, thickness: int, depth: usize, variant: bool|
        #[trigger] row_tiles(row, 0, h, pos, remaining, across, thickness, depth, variant).len() <= row.len() by {
        lemma_row_tiles_len(row, 0, h, pos, remaining, across, thickness, depth, variant);
    }
}

/// Every tile holds the node of one of the nodes it was laid out for.
pub open spec fn tiles_of(tiles: Seq<TreemapTile>, nodes: Seq<TreemapNode>) -> bool {
    forall|i: int| 0 <= i < tiles.len() ==> nodes.contains(#[trigger] tiles[i].node)
}

/// The tiles of a row hold the nodes of the row, from `idx` on.
proof fn lemma_row_tiles_nodes(
    row: Seq<WeightedNode>,
    idx: int,
    horizontal: bool,
    pos: int,
    remaining: int,
    across: int,
    thickness: int,
    depth: usize,
    variant: bool,
)
    requires
        0 <= idx <= row.len(),
    ensures
        tiles_of(row_tiles(row, idx, horizontal, pos, remaining, across, thickness, depth, variant), weighted_nodes(row)),
    decreases row.len() - idx,
{
    let rt = row_tiles(row, idx, horizontal, pos, remaining, across, thickness, depth, variant);
    if idx < row.len() && remaining > 0 {
        let extent = item_extent(row[idx].area as int, thickness, remaining, row.len() - idx);
        let rest = row_tiles(row, idx + 1, horizontal, sat_add16(pos, extent), remaining - extent, across, thickness, depth, !variant);
        lemma_row_tiles_nodes(row, idx + 1, horizontal, sat_add16(pos, extent), remaining - extent, across, thickness, depth, !variant);
        assert forall|i: int| 0 <= i < rt.len() implies weighted_nodes(row).contains(#[trigger] rt[i].node) by {
            if i == 0 {
                assert(weighted_nodes(row)[idx] == row[idx].node);
            } else {
                assert(rt[i] == rest[i - 1]);
            }
        }
    }
}

/// Tiles appended after `prev` that hold nodes of `row` keep every tile's
/// node among `all`, when `row`'s nodes are.
proof fn lemma_tiles_of_extend(prev: Seq<TreemapTile>, next: Seq<TreemapTile>, row: Seq<WeightedNode>, all: Seq<TreemapNode>)
    requires
        next.len() >= prev.len(),
        next.take(prev.len() as int) == prev,
        tiles_of(prev, all),
        tiles_of(next.skip(prev.len() as int), weighted_nodes(row)),
        forall|i: int| 0 <= i < row.len() ==> all.contains(#[trigger] row[i].node),
    ensures
        tiles_of(next, all),
{
    assert forall|i: int| 0 <= i < next.len() implies all.contains(#[trigger] next[i].node) by {
        if i < prev.len() {
            assert(next.take(prev.len() as int)[i] == next[i]);
        } else {
            let tail = next.skip(prev.len() as int);
            assert(tail[i - prev.len()] == next[i]);
            assert(weighted_nodes(row).contains(tail[i - prev.len()].node));
            let m = choose|m: int| 0 <= m < weighted_nodes(row).len() && weighted_nodes(row)[m] == tail[i - prev.len()].node;
            assert(weighted_nodes(row)[m] == row[m].node);
        }
    }
}

/// The tiles of one row laid in a strip of `area` (see `layout_row`).
pub open spec fn strip(row: Seq<WeightedNode>, area: Rect, last: bool, depth: usize, variant: bool) -> Seq<TreemapTile> {
    let h = is_horizontal(area);
    row_tiles(
        row,
        0,
        h,
        if h { area.x as int } else { area.y as int },
        span_of(area),
        if h { area.y as int } else { area.x as int },
        row_thickness(row, area, last),
        depth,
        variant,
    )
}

/// The side rows are measured against: the shorter side of the area, at
/// least one.
pub open spec fn short_side(area: Rect) -> int {
    let s = if area.width < area.height { area.width as int } else { area.height as int };
    if s < 1 {
        1
    } else {
        s
    }
}

/// The tiles laid from node `next` on, with `row` being built in `area`:
/// the next node joins the row when the row is empty or stays no worse with
/// it (see `no_worse`); otherwise the row is laid in a strip and a new row
/// starts in what is left, unless nothing is. Once every node has joined a
/// row, the last row takes all that is left.
pub open spec fn strip_tiles(
    w: Seq<WeightedNode>,
    next: int,
    row: Seq<WeightedNode>,
    area: Rect,
    variant: bool,
    depth: usize,
) -> Seq<TreemapTile>
    decreases 2 * (w.len() - next) + (if row.len() > 0 { 1int } else { 0int }),
{
    if next < 0 || next >= w.len() {
        if row.len() > 0 && area.width > 0 && area.height > 0 {
            strip(row, area, true, depth, variant)
        } else {
            Seq::empty()
        }
    } else if row.len() == 0 {
        strip_tiles(w, next + 1, seq![w[next]], area, variant, depth)
    } else if no_worse(areas_of(row.push(w[next])), areas_of(row), short_side(area)) {
        strip_tiles(w, next + 1, row.push(w[next]), area, variant, depth)
    } else {
        let rest = rest_after_row(area, row_thickness(row, area, false));
        strip(row, area, false, depth, variant) + if rest.width == 0 || rest.height == 0 {
            Seq::<TreemapTile>::empty()
        } else {
            strip_tiles(w, next, Seq::empty(), rest, !variant, depth)
        }
    }
}

/// Lays the weighted nodes out in `bounds`, row by row: a row grows while
/// adding the next node leaves it no worse (see `no_worse`), else it is laid
/// in a strip (see `layout_row`) and a new row starts in what is left. The
/// last row takes all that is left.
fn place_rows(weighted: &Vec<WeightedNode>, bounds: Rect, output: &mut Vec<TreemapTile>, depth: usize)
    requires
        forall|i: int| 0 <= i < weighted@.len() ==> (#[trigger] weighted@[i]).area > 0,
        seq_sum(areas_of(weighted@)) <= u32::MAX,
    ensures
        final(output)@.len() >= old(output)@.len(),
        final(output)@.take(old(output)@.len() as int) == old(output)@,
        weighted@.len() == 0 ==> final(output)@ == old(output)@,
        bounds.width > 0 && bounds.height > 0 ==> final(output)@ == old(output)@ + strip_tiles(
            weighted@,
            0,
            Seq::empty(),
            bounds,
            false,
            depth,
        ),
        final(output)@.len() <= old(output)@.len() + weighted@.len(),
        tiles_of(final(output)@.skip(old(output)@.len() as int), weighted_nodes(weighted@)),
        tiles_within(final(output)@.skip(old(output)@.len() as int), bounds),
        forall|i: int| old(output)@.len() <= i < final(output)@.len() ==> (#[trigger] final(output)@[i]).depth == depth,
        fits_screen(bounds) ==> tiles_disjoint(final(output)@.skip(old(output)@.len() as int)),
        fits_screen(bounds) && small_area(bounds) && weighted@.len() > 0 ==> seq_sum(
            tile_areas(final(output)@.skip(old(output)@.len() as int)),
        ) == rect_area(bounds),
{
    let ghost start = output@;
    if weighted.len() == 0 || bounds.width == 0 || bounds.height == 0 {
        proof {
            assert(output@.skip(start.len() as int) =~= Seq::<TreemapTile>::empty());
            assert(tile_areas(Seq::<TreemapTile>::empty()) =~= Seq::<int>::empty());
            assert(output@.take(start.len() as int) =~= start);
            if bounds.width == 0 || bounds.height == 0 {
                assert(rect_area(bounds) == 0) by (nonlinear_arith)
                    requires bounds.width == 0 || bounds.height == 0;
            } else {
                assert(start + strip_tiles(weighted@, 0, Seq::empty(), bounds, false, depth) =~= start);
            }
        }
        return;
    }
    let ghost total = strip_tiles(weighted@, 0, Seq::empty(), bounds, false, depth);
    let mut remaining = bounds;
    let mut row: Vec<WeightedNode> = Vec::new();
    let mut row_sum: u64 = 0;
    let mut row_max: u32 = 0;
    let mut row_min: u32 = 0;
    let mut row_variant = false;
    let mut fresh: Vec<TreemapTile> = Vec::new();
    let mut next: usize = 0;
    proof {
        assert(fresh@ =~= Seq::<TreemapTile>::empty());
        assert(tile_areas(fresh@) =~= Seq::<int>::empty());
        assert(weighted@.skip(0) =~= weighted@);
        assert(areas_of(row@) =~= Seq::<int>::empty());
        assert(row@ =~= Seq::<WeightedNode>::empty());
        assert(fresh@ + strip_tiles(weighted@, 0, row@, remaining, row_variant, depth) =~= total);
    }
    while next < weighted.len()
        invariant_except_break
            remaining.width > 0 && remaining.height > 0,
        invariant
            weighted@.len() > 0,
            forall|i: int| 0 <= i < weighted@.len() ==> (#[trigger] weighted@[i]).area > 0,
            seq_sum(areas_of(weighted@)) <= u32::MAX,
            next <= weighted@.len(),
            fresh@.len() + row@.len() <= next,
            total == strip_tiles(weighted@, 0, Seq::empty(), bounds, false, depth),
            remaining.width > 0 && remaining.height > 0 ==> fresh@ + strip_tiles(weighted@, next as int, row@, remaining, row_variant, depth)
                == total,
            !(remaining.width > 0 && remaining.height > 0) ==> fresh@ == total,
            tiles_of(fresh@, weighted_nodes(weighted@)),
            forall|i: int| 0 <= i < row@.len() ==> weighted_nodes(weighted@).contains(#[trigger] row@[i].node),
            row@.len() == 0 ==> next < weighted@.len(),
            row_sum as int == seq_sum(areas_of(row@)),
            row_max as int == seq_max(areas_of(row@)),
            row_min as int == seq_min(areas_of(row@)),
            row_sum as int + seq_sum(areas_of(weighted@.skip(next as int))) <= seq_sum(areas_of(weighted@)),
            forall|i: int| 0 <= i < row@.len() ==> (#[trigger] row@[i]).area > 0,
            rect_within(remaining, bounds),
            tiles_within(fresh@, bounds),
            forall|i: int| 0 <= i < fresh@.len() ==> (#[trigger] fresh@[i]).depth == depth,
            fits_screen(bounds) ==> tiles_disjoint(fresh@),
            fits_screen(bounds) ==> tiles_apart(fresh@, remaining),
            fits_screen(bounds) && small_area(bounds) ==> seq_sum(tile_areas(fresh@)) + rect_area(remaining) == rect_area(bounds),
        ensures
            next >= weighted@.len() || remaining.width == 0 || remaining.height == 0,
        decreases 2 * (weighted@.len() - next) + (if row@.len() > 0 { 1int } else { 0int }),
    {
        let cand_area = weighted[next].area;
        proof {
            lemma_skip_sum(areas_of(weighted@), next as int);
            assert(areas_of(weighted@).skip(next as int) =~= areas_of(weighted@.skip(next as int)));
            assert(areas_of(weighted@).skip(next as int + 1) =~= areas_of(weighted@.skip(next as int + 1)));
            lemma_sum_nonneg(areas_of(weighted@.skip(next as int + 1)));
            let ar = areas_of(row@);
            assert(areas_of(row@.push(weighted@[next as int])) =~= ar.push(cand_area as int));
            lemma_sum_push(ar, cand_area as int);
        }
        if row.len() == 0 {
            row.push(weighted[next].clone_node());
            row_sum = cand_area as u64;
            row_max = cand_area;
            row_min = cand_area;
            proof {
                assert(areas_of(row@) =~= seq![cand_area as int]);
                assert(seq![cand_area as int].drop_last() =~= Seq::<int>::empty());
                assert(row@[0] == weighted@[next as int]);
                assert(weighted_nodes(weighted@)[next as int] == weighted@[next as int].node);
                assert(row@ =~= seq![weighted@[next as int]]);
                assert(strip_tiles(weighted@, next as int, Seq::empty(), remaining, row_variant, depth)
                    == strip_tiles(weighted@, next as int + 1, row@, remaining, row_variant, depth));
            }
            next += 1;
            continue;
        }
        let side: u16 = if remaining.width < remaining.height { remaining.width } else { remaining.height };
        let side: u16 = if side < 1 { 1 } else { side };
        let new_max: u32 = if cand_area > row_max { cand_area } else { row_max };
        let new_min: u32 = if cand_area < row_min { cand_area } else { row_min };
        let new_sum: u64 = row_sum + cand_area as u64;
        proof {
            let ar = areas_of(row@);
            let an = ar.push(cand_area as int);
            assert(an.drop_last() =~= ar);
            assert(seq_max(an) == new_max as int);
            assert(seq_min(an) == new_min as int);
        }
        let grows = no_worse_exec(new_sum, new_max, new_min, row_sum, row_max, row_min, side);
        proof {
            let ar = areas_of(row@);
            let an = areas_of(row@.push(weighted@[next as int]));
            assert(side as int == short_side(remaining));
            assert(seq_sum(an) == new_sum as int);
            assert(seq_max(an) == new_max as int);
            assert(seq_min(an) == new_min as int);
            assert(grows == no_worse(an, ar, short_side(remaining)));
        }
        if grows {
            let ghost before = row@;
            row.push(weighted[next].clone_node());
            proof {
                assert(row@ =~= before.push(weighted@[next as int]));
                assert(weighted_nodes(weighted@)[next as int] == weighted@[next as int].node);
                assert forall|i: int| 0 <= i < row@.len() implies weighted_nodes(weighted@).contains(#[trigger] row@[i].node) by {
                    if i < before.len() {
                        assert(row@[i] == before[i]);
                    }
                }
                assert(strip_tiles(weighted@, next as int, before, remaining, row_variant, depth)
                    == strip_tiles(weighted@, next as int + 1, row@, remaining, row_variant, depth));
            }
            row_sum = new_sum;
            row_max = new_max;
            row_min = new_min;
            next += 1;
        } else {
            let ghost prev_out = fresh@;
            let ghost prev_rem = remaining;
            let ghost prev_variant = row_variant;
            proof {
                lemma_rows_short(row@);
            }
            remaining = layout_row(&row, remaining, &mut fresh, false, depth, &mut row_variant);
            proof {
                lemma_rows_combine(prev_out, fresh@, prev_rem, remaining, bounds);
                lemma_tiles_of_extend(prev_out, fresh@, row@, weighted_nodes(weighted@));
                let laid = strip(row@, prev_rem, false, depth, prev_variant);
                assert(fresh@ == prev_out + laid);
                assert(remaining == rest_after_row(prev_rem, row_thickness(row@, prev_rem, false)));
                let later = if remaining.width == 0 || remaining.height == 0 {
                    Seq::<TreemapTile>::empty()
                } else {
                    strip_tiles(weighted@, next as int, Seq::empty(), remaining, row_variant, depth)
                };
                assert(strip_tiles(weighted@, next as int, row@, prev_rem, prev_variant, depth) == laid + later);
                assert(prev_out + (laid + later) =~= fresh@ + later);
                if remaining.width == 0 || remaining.height == 0 {
                    assert(fresh@ + later =~= fresh@);
                }
            }
            row = Vec::new();
            row_sum = 0;
            row_max = 0;
            row_min = 0;
            proof {
                assert(areas_of(row@) =~= Seq::<int>::empty());
            }
            if remaining.width == 0 || remaining.height == 0 {
                break;
            }
        }
    }
    if row.len() > 0 && remaining.width > 0 && remaining.height > 0 {
        let ghost prev_out = fresh@;
        let ghost prev_rem = remaining;
        proof {
            lemma_rows_short(row@);
        }
        let ghost prev_variant = row_variant;
        let rest = layout_row(&row, remaining, &mut fresh, true, depth, &mut row_variant);
        proof {
            lemma_rows_combine(prev_out, fresh@, prev_rem, rest, bounds);
            lemma_tiles_of_extend(prev_out, fresh@, row@, weighted_nodes(weighted@));
            assert(fresh@ == prev_out + strip(row@, prev_rem, true, depth, prev_variant));
            assert(strip_tiles(weighted@, next as int, row@, prev_rem, prev_variant, depth) == strip(row@, prev_rem, true, depth, prev_variant));
        }
        remaining = rest;
    } else {
        proof {
            if remaining.width > 0 && remaining.height > 0 {
                assert(strip_tiles(weighted@, next as int, row@, remaining, row_variant, depth) =~= Seq::<TreemapTile>::empty());
                assert(fresh@ + Seq::<TreemapTile>::empty() =~= fresh@);
            }
        }
    }
    assert(fresh@ == total);
    proof {
        assert(rect_area(remaining) == 0) by (nonlinear_arith)
            requires
                remaining.width == 0 || remaining.height == 0 || rect_area(remaining) == 0,
        ;
    }
    append_tiles(output, fresh);
}

/// Appends the tiles of `fresh` to `output`.
fn append_tiles(output: &mut Vec<TreemapTile>, fresh: Vec<TreemapTile>)
    ensures
        final(output)@ == old(output)@ + fresh@,
        final(output)@.take(old(output)@.len() as int) == old(output)@,
        final(output)@.skip(old(output)@.len() as int) == fresh@,
{
    let ghost f = fresh@;
    let mut fresh = fresh;
    output.append(&mut fresh);
    assert(output@.take(old(output)@.len() as int) =~= old(output)@);
    assert(output@.skip(old(output)@.len() as int) =~= f);
}

/// The treemap laid out from a normalization: the nodes given cells, in
/// order, laid in rows (see `strip_tiles`).
pub open spec fn squarified_from(norm: Seq<(TreemapNode, u32)>, bounds: Rect) -> Seq<TreemapTile> {
    strip_tiles(pairs_as_weighted(norm).filter(|w: WeightedNode| w.area > 0), 0, Seq::empty(), bounds, false, 0)
}

/// `l` is a squarified treemap of `nodes` in `bounds` (see
/// `squarified_from`); an empty area or a limit of zero gets no tiles.
pub open spec fn is_squarified(l: Seq<TreemapTile>, nodes: Seq<TreemapNode>, bounds: Rect, max_nodes: usize) -> bool {
    if bounds.width == 0 || bounds.height == 0 || max_nodes == 0 {
        l.len() == 0
    } else {
        exists|norm: Seq<(TreemapNode, u32)>|
            #[trigger] is_normalization(norm, nodes, bounds, max_nodes) && l == squarified_from(norm, bounds)
    }
}

/// A squarified treemap of `nodes` in `bounds`: the positive-size nodes are
/// ranked and cut to `max_nodes`, their cells shared out (see
/// `normalize_areas`), and the nodes given cells laid out in rows (see
/// `place_rows`).
pub fn squarified_treemap(nodes: &Vec<TreemapNode>, bounds: Rect, max_nodes: usize) -> (r: Vec<TreemapTile>)
    ensures
        is_squarified(r@, nodes@, bounds, max_nodes),
        tiles_within(r@, bounds),
        forall|i: int| 0 <= i < r@.len() ==> (#[trigger] r@[i]).depth == 0,
        bounds.width == 0 || bounds.height == 0 || max_nodes == 0 || !has_positive(nodes@) ==> r@.len() == 0,
        r@.len() <= max_nodes,
        r@.len() <= positive_nodes(nodes@).len(),
        forall|i: int| 0 <= i < r@.len() ==> (#[trigger] r@[i]).node.size > 0 && nodes@.contains(r@[i].node),
        fits_screen(bounds) ==> tiles_disjoint(r@),
        fits_screen(bounds) && small_area(bounds) && bounds.width > 0 && bounds.height > 0 && max_nodes > 0
            && has_positive(nodes@) ==> seq_sum(tile_areas(r@)) == rect_area(bounds),
{
    let mut output: Vec<TreemapTile> = Vec::new();
    if bounds.width == 0 || bounds.height == 0 || max_nodes == 0 {
        return output;
    }
    let normalized = normalize_areas(nodes, bounds, max_nodes);
    let weighted = positive_weighted(&normalized);
    proof {
        let all = pairs_as_weighted(normalized@);
        assert(rect_area(bounds) <= 0xffff * 0xffffint) by (nonlinear_arith)
            requires bounds.width <= 0xffff, bounds.height <= 0xffff;
        if has_positive(nodes@) {
            assert(rect_area(bounds) > 0) by (nonlinear_arith)
                requires bounds.width > 0, bounds.height > 0;
            if weighted@.len() == 0 {
                assert(areas_of(weighted@) =~= Seq::<int>::empty());
            }
        } else {
            assert(all =~= Seq::<WeightedNode>::empty());
            assert(areas_of(all) =~= Seq::<int>::empty());
            assert(all.filter(|w: WeightedNode| w.area > 0).len() == 0) by {
                all.lemma_filter_len(|w: WeightedNode| w.area > 0);
            }
        }
        assert(output@.skip(0) =~= output@);
    }
    place_rows(&weighted, bounds, &mut output, 0);
    proof {
        assert(output@.skip(0) =~= output@);
        assert(Seq::<TreemapTile>::empty() + strip_tiles(weighted@, 0, Seq::empty(), bounds, false, 0)
            =~= strip_tiles(weighted@, 0, Seq::empty(), bounds, false, 0));
        assert(output@ == squarified_from(normalized@, bounds));
        assert(is_normalization(normalized@, nodes@, bounds, max_nodes));
        let pw = pairs_as_weighted(normalized@);
        let wn = weighted_nodes(weighted@);
        assert forall|i: int| 0 <= i < output@.len() implies (#[trigger] output@[i]).node.size > 0 && nodes@.contains(output@[i].node) by {
            assert(wn.contains(output@[i].node));
            let m = choose|m: int| 0 <= m < wn.len() && wn[m] == output@[i].node;
            assert(wn[m] == weighted@[m].node);
            assert(pw.contains(weighted@[m]));
            let k = choose|k: int| 0 <= k < pw.len() && pw[k] == weighted@[m];
            assert(pw[k].node == normalized@[k].0);
        }
    }
    output
}

/// Dropping the zero areas keeps the sum.
proof fn lemma_filter_positive_sum(s: Seq<WeightedNode>)
    ensures
        seq_sum(areas_of(s.filter(|w: WeightedNode| w.area > 0))) == seq_sum(areas_of(s)),
    decreases s.len(),
{
    let pred = |w: WeightedNode| w.area > 0;
    if s.len() == 0 {
        assert(s.filter(pred) =~= s) by {
            s.lemma_filter_len(pred);
        }
    } else {
        let p = s.drop_last();
        lemma_filter_positive_sum(p);
        assert(s =~= p.push(s.last()));
        p.lemma_filter_push(s.last(), pred);
        assert(areas_of(s) =~= areas_of(p).push(s.last().area as int));
        lemma_sum_push(areas_of(p), s.last().area as int);
        if pred(s.last()) {
            assert(areas_of(p.filter(pred).push(s.last())) =~= areas_of(p.filter(pred)).push(s.last().area as int));
            lemma_sum_push(areas_of(p.filter(pred)), s.last().area as int);
        }
    }
}

/// The sum of a sequence is its first `k` plus the rest.
proof fn lemma_skip_sum(s: Seq<int>, k: int)
    requires
        0 <= k <= s.len(),
    ensures
        seq_sum(s) == seq_sum(s.take(k)) + seq_sum(s.skip(k)),
        k < s.len() ==> seq_sum(s.skip(k)) == s[k] + seq_sum(s.skip(k + 1)),
{
    assert(s =~= s.take(k) + s.skip(k));
    crate::sums::lemma_sum_concat(s.take(k), s.skip(k));
    if k < s.len() {
        assert(s.skip(k) =~= seq![s[k]] + s.skip(k + 1));
        crate::sums::lemma_sum_concat(seq![s[k]], s.skip(k + 1));
        assert(seq![s[k]] =~= Seq::<int>::empty().push(s[k]));
        lemma_sum_push(Seq::<int>::empty(), s[k]);
    }
}

/// Rows laid out one after the other keep the treemap's layout facts.
proof fn lemma_rows_combine(prev: Seq<TreemapTile>, out: Seq<TreemapTile>, prev_rem: Rect, rest: Rect, bounds: Rect)
    requires
        out.len() >= prev.len(),
        out.take(prev.len() as int) == prev,
        rect_within(prev_rem, bounds),
        rect_within(rest, prev_rem),
        tiles_within(prev, bounds),
        tiles_within(out.skip(prev.len() as int), prev_rem),
        fits_screen(bounds) ==> tiles_disjoint(prev),
        fits_screen(bounds) ==> tiles_apart(prev, prev_rem),
        fits_screen(bounds) && small_area(bounds) ==> seq_sum(tile_areas(prev)) + rect_area(prev_rem) == rect_area(bounds),
        fits_screen(prev_rem) ==> tiles_disjoint(out.skip(prev.len() as int)),
        fits_screen(prev_rem) ==> tiles_apart(out.skip(prev.len() as int), rest),
        fits_screen(prev_rem) && small_area(prev_rem) ==> seq_sum(tile_areas(out.skip(prev.len() as int))) + rect_area(rest) == rect_area(prev_rem),
    ensures
        rect_within(rest, bounds),
        tiles_within(out, bounds),
        fits_screen(bounds) ==> tiles_disjoint(out),
        fits_screen(bounds) ==> tiles_apart(out, rest),
        fits_screen(bounds) && small_area(bounds) ==> seq_sum(tile_areas(out)) + rect_area(rest) == rect_area(bounds),
{
    let n = prev.len() as int;
    let fresh = out.skip(n);
    assert(out =~= prev + fresh);
    assert forall|i: int| 0 <= i < out.len() implies rect_within(#[trigger] out[i].rect, bounds) by {
        if i >= n {
            assert(fresh[i - n] == out[i]);
        } else {
            assert(prev[i] == out[i]);
        }
    }
    if fits_screen(bounds) {
        assert(fits_screen(prev_rem));
        assert forall|i: int, j: int| 0 <= i < j < out.len() implies !rects_overlap(#[trigger] out[i].rect, #[trigger] out[j].rect) by {
            if j < n {
                assert(prev[i] == out[i] && prev[j] == out[j]);
            } else if i >= n {
                assert(fresh[i - n] == out[i] && fresh[j - n] == out[j]);
            } else {
                assert(prev[i] == out[i] && fresh[j - n] == out[j]);
                assert(rect_within(out[j].rect, prev_rem));
                assert(!rects_overlap(out[i].rect, prev_rem));
            }
        }
        assert forall|i: int| 0 <= i < out.len() implies !rects_overlap(#[trigger] out[i].rect, rest) by {
            if i < n {
                assert(prev[i] == out[i]);
                assert(!rects_overlap(out[i].rect, prev_rem));
            } else {
                assert(fresh[i - n] == out[i]);
            }
        }
        if small_area(bounds) {
            assert(rect_area(prev_rem) <= rect_area(bounds)) by (nonlinear_arith)
                requires
                    prev_rem.width <= bounds.width,
                    prev_rem.height <= bounds.height,
            ;
            assert(tile_areas(out) =~= tile_areas(prev) + tile_areas(fresh));
            crate::sums::lemma_sum_concat(tile_areas(prev), tile_areas(fresh));
        }
    }
}

/// The id given to the "other" tile that gathers the small children of
/// `parent_id`: `usize::MAX - parent_id`.
pub open spec fn spec_synthetic_other_id(parent_id: usize) -> usize {
    (usize::MAX - parent_id) as usize
}

fn synthetic_other_id(parent_id: usize) -> (r: usize)
    ensures
        r == spec_synthetic_other_id(parent_id),
{
    usize::MAX.saturating_sub(parent_id)
}

/// `x` saturated at `u64::MAX`.
pub open spec fn sat_u64(x: int) -> int {
    if x > u64::MAX {
        u64::MAX as int
    } else {
        x
    }
}

/// The tile that stands for the nodes left out of a level.
pub open spec fn is_other_node(n: TreemapNode, parent_id: usize, size: int) -> bool {
    &&& n.node_id == spec_synthetic_other_id(parent_id)
    &&& n.name@ == seq!['o', 't', 'h', 'e', 'r']
    &&& n.size == size
    &&& !n.is_directory
    &&& n.is_aggregated
}

/// `r` is `ranked` cut to `keep` nodes: when there are more, the last
/// place goes to an "other" node holding the sizes of the rest (saturated).
pub open spec fn prepared_from(r: Seq<TreemapNode>, ranked: Seq<TreemapNode>, keep: int, parent_id: usize) -> bool {
    if ranked.len() <= keep {
        r == ranked
    } else {
        &&& r.len() == keep
        &&& r.take(keep - 1) == ranked.take(keep - 1)
        &&& is_other_node(r[keep - 1], parent_id, sat_u64(total_size(ranked.skip(keep - 1))))
    }
}

/// How many nodes a level keeps: at least two.
pub open spec fn level_keep(max_nodes: usize) -> int {
    if max_nodes < 2 {
        2
    } else {
        max_nodes as int
    }
}

/// `r` is what preparing `nodes` for one level of the treemap gives: the
/// positive-size nodes ranked, cut to `max(max_nodes, 2)` with an "other"
/// node for the rest.
pub open spec fn is_prepared(r: Seq<TreemapNode>, nodes: Seq<TreemapNode>, max_nodes: usize, parent_id: usize) -> bool {
    exists|ranked: Seq<TreemapNode>| is_ranking(ranked, nodes) && #[trigger] prepared_from(r, ranked, level_keep(max_nodes), parent_id)
}

/// The nodes of one level, ready for layout (see `is_prepared`).
pub fn prepare_nodes(nodes: &Vec<TreemapNode>, max_nodes: usize, parent_id: usize) -> (r: Vec<TreemapNode>)
    ensures
        is_prepared(r@, nodes@, max_nodes, parent_id),
        has_positive(nodes@) <==> r@.len() > 0,
        r@.len() <= level_keep(max_nodes),
{
    let ranked = rank_nodes(nodes);
    proof {
        lemma_ranking_positive(ranked@, nodes@);
    }
    let keep: usize = if max_nodes < 2 { 2 } else { max_nodes };
    if ranked.len() <= keep {
        assert(prepared_from(ranked@, ranked@, level_keep(max_nodes), parent_id));
        return ranked;
    }
    let mut out: Vec<TreemapNode> = Vec::new();
    let mut i: usize = 0;
    while i < keep - 1
        invariant
            2 <= keep < ranked@.len(),
            i <= keep - 1,
            out@ == ranked@.take(i as int),
        decreases keep - 1 - i,
    {
        out.push(ranked[i].duplicate());
        i += 1;
        assert(out@ =~= ranked@.take(i as int));
    }
    let mut other_size: u64 = 0;
    let mut j: usize = keep - 1;
    while j < ranked.len()
        invariant
            2 <= keep < ranked@.len(),
            keep - 1 <= j <= ranked@.len(),
            other_size as int == sat_u64(total_size(ranked@.subrange(keep - 1, j as int))),
        decreases ranked@.len() - j,
    {
        proof {
            let sub = ranked@.subrange(keep - 1, j as int);
            assert(ranked@.subrange(keep - 1, j as int + 1) =~= sub.push(ranked@[j as int]));
            assert(sizes_of(sub.push(ranked@[j as int])) =~= sizes_of(sub).push(ranked@[j as int].size as int));
            lemma_sum_push(sizes_of(sub), ranked@[j as int].size as int);
            assert forall|k: int| 0 <= k < sizes_of(sub).len() implies #[trigger] sizes_of(sub)[k] >= 0 by {}
            lemma_sum_nonneg(sizes_of(sub));
        }
        other_size = other_size.saturating_add(ranked[j].size);
        j += 1;
    }
    proof {
        assert(ranked@.subrange(keep - 1, ranked@.len() as int) =~= ranked@.skip(keep - 1));
        reveal_strlit("other");
    }
    let name = crate::text::owned("other");
    let other = TreemapNode {
        node_id: synthetic_other_id(parent_id),
        name,
        size: other_size,
        is_directory: false,
        is_aggregated: true,
    };
    out.push(other);
    proof {
        assert(out@.take(keep - 1) =~= ranked@.take(keep - 1));
        assert(other.name@ =~= seq!['o', 't', 'h', 'e', 'r']);
        assert(prepared_from(out@, ranked@, level_keep(max_nodes), parent_id));
    }
    out
}

/// A laid-out treemap: its tiles, and for each node with a tile of its own
/// (not an "other" tile) the rectangle of the last such tile.
pub struct TreemapLayout {
    pub tiles: Vec<TreemapTile>,
    pub node_rects: HashMap<usize, Rect>,
}

/// Every recorded rectangle is that of a tile of the node it is recorded
/// for, which is no "other" tile.
pub open spec fn rects_from_tiles(rects: Map<usize, Rect>, tiles: Seq<TreemapTile>) -> bool {
    forall|id: usize|
        #[trigger] rects.contains_key(id) ==> exists|i: int|
            0 <= i < tiles.len() && (#[trigger] tiles[i]).node.node_id == id && !tiles[i].node.is_aggregated
                && tiles[i].rect == rects[id]
}

/// The rectangle of the last tile of node `id` that is no "other" tile.
pub open spec fn last_rect(tiles: Seq<TreemapTile>, id: usize) -> Option<Rect>
    decreases tiles.len(),
{
    if tiles.len() == 0 {
        None
    } else if tiles.last().node.node_id == id && !tiles.last().node.is_aggregated {
        Some(tiles.last().rect)
    } else {
        last_rect(tiles.drop_last(), id)
    }
}

/// The map holds, for each node with a tile that is no "other" tile, the
/// rectangle of its last such tile, and nothing else.
pub open spec fn rects_match(rects: Map<usize, Rect>, tiles: Seq<TreemapTile>) -> bool {
    forall|id: usize|
        (#[trigger] rects.contains_key(id) <==> last_rect(tiles, id) is Some) && (rects.contains_key(id) ==> last_rect(
            tiles,
            id,
        ) == Some(rects[id]))
}

/// How many nodes a level's cells are shared over: all that were prepared,
/// at least one.
pub open spec fn level_limit(n: int) -> int {
    if n > 1 {
        n
    } else {
        1
    }
}

/// `l` is a layout of one level: the nodes prepared (see `is_prepared`), the
/// cells of `area` shared out over them (see `is_normalization`), and those
/// given cells laid in rows (see `strip_tiles`) at `depth`. An empty area
/// gets no tiles.
pub open spec fn is_level_layout(
    l: Seq<TreemapTile>,
    nodes: Seq<TreemapNode>,
    area: Rect,
    depth: usize,
    parent_id: usize,
    max_nodes: usize,
) -> bool {
    if area.width == 0 || area.height == 0 {
        l.len() == 0
    } else {
        exists|prep: Seq<TreemapNode>, norm: Seq<(TreemapNode, u32)>|
            #![trigger is_prepared(prep, nodes, max_nodes, parent_id), is_normalization(norm, prep, area, level_limit(prep.len() as int) as usize)]
            is_prepared(prep, nodes, max_nodes, parent_id) && is_normalization(norm, prep, area, level_limit(prep.len() as int) as usize)
                && l == strip_tiles(pairs_as_weighted(norm).filter(|w: WeightedNode| w.area > 0), 0, Seq::empty(), area, false, depth)
    }
}

/// Records the rectangle of a tile under its node's id, unless it is an
/// "other" tile.
fn insert_node_rect(map: &mut HashMap<usize, Rect>, tile: &TreemapTile)
    ensures
        tile.node.is_aggregated ==> final(map)@ == old(map)@,
        !tile.node.is_aggregated ==> final(map)@ == old(map)@.insert(tile.node.node_id, tile.rect),
{
    if !tile.node.is_aggregated {
        map.insert(tile.node.node_id, tile.rect);
    }
}

/// Lays one level out in `area` (see `prepare_nodes`, `normalize_areas`,
/// `place_rows`) and records the rectangles of its tiles.
fn layout_nodes(
    tiles: &mut Vec<TreemapTile>,
    node_rects: &mut HashMap<usize, Rect>,
    nodes: &Vec<TreemapNode>,
    area: Rect,
    depth: usize,
    parent_id: usize,
    max_nodes: usize,
)
    requires
        rects_from_tiles(old(node_rects)@, old(tiles)@),
        rects_match(old(node_rects)@, old(tiles)@),
    ensures
        is_level_layout(final(tiles)@.skip(old(tiles)@.len() as int), nodes@, area, depth, parent_id, max_nodes),
        rects_match(final(node_rects)@, final(tiles)@),
        final(tiles)@.len() >= old(tiles)@.len(),
        final(tiles)@.take(old(tiles)@.len() as int) == old(tiles)@,
        tiles_within(final(tiles)@.skip(old(tiles)@.len() as int), area),
        forall|i: int| old(tiles)@.len() <= i < final(tiles)@.len() ==> (#[trigger] final(tiles)@[i]).depth == depth,
        fits_screen(area) ==> tiles_disjoint(final(tiles)@.skip(old(tiles)@.len() as int)),
        rects_from_tiles(final(node_rects)@, final(tiles)@),
        forall|id: usize| #[trigger] final(node_rects)@.contains_key(id) && !old(node_rects)@.contains_key(id) ==> rect_within(final(node_rects)@[id], area),
        forall|id: usize| #[trigger] final(node_rects)@.contains_key(id) ==> old(node_rects)@.contains_key(id) || exists|i: int|
            old(tiles)@.len() <= i < final(tiles)@.len() && final(tiles)@[i].node.node_id == id,
        forall|id: usize| #[trigger] final(node_rects)@.contains_key(id) && old(node_rects)@.contains_key(id) ==> final(node_rects)@[id] == old(node_rects)@[id]
            || rect_within(final(node_rects)@[id], area),
        forall|id: usize| #[trigger] old(node_rects)@.contains_key(id) ==> final(node_rects)@.contains_key(id),
{
    let ghost t0 = tiles@;
    let ghost m0 = node_rects@;
    if area.width == 0 || area.height == 0 {
        assert(tiles@.take(t0.len() as int) =~= t0);
        assert(tiles@.skip(t0.len() as int) =~= Seq::<TreemapTile>::empty());
        return;
    }
    let prepared = prepare_nodes(nodes, max_nodes, parent_id);
    let limit: usize = if prepared.len() > 1 { prepared.len() } else { 1 };
    let normalized = normalize_areas(&prepared, area, limit);
    let weighted = positive_weighted(&normalized);
    proof {
        let all = pairs_as_weighted(normalized@);
        assert(rect_area(area) <= 0xffff * 0xffffint) by (nonlinear_arith)
            requires area.width <= 0xffff, area.height <= 0xffff;
        if !has_positive(prepared@) {
            assert(all =~= Seq::<WeightedNode>::empty());
            assert(areas_of(all) =~= Seq::<int>::empty());
        }
    }
    let start_len = tiles.len();
    place_rows(&weighted, area, tiles, depth);
    let ghost placed = tiles@;
    proof {
        let laid = strip_tiles(weighted@, 0, Seq::empty(), area, false, depth);
        assert(placed.skip(t0.len() as int) =~= laid);
        assert(limit as int == level_limit(prepared@.len() as int));
        assert(is_prepared(prepared@, nodes@, max_nodes, parent_id));
        assert(is_normalization(normalized@, prepared@, area, level_limit(prepared@.len() as int) as usize));
        assert(weighted@ == pairs_as_weighted(normalized@).filter(|w: WeightedNode| w.area > 0));
    }
    let mut k: usize = start_len;
    while k < tiles.len()
        invariant
            tiles@ == placed,
            t0.len() <= k <= placed.len(),
            start_len == t0.len(),
            placed.take(t0.len() as int) == t0,
            rects_match(node_rects@, placed.take(k as int)),
            tiles_within(placed.skip(t0.len() as int), area),
            rects_from_tiles(node_rects@, placed),
            forall|id: usize| #[trigger] node_rects@.contains_key(id) && !m0.contains_key(id) ==> rect_within(node_rects@[id], area),
            forall|id: usize| #[trigger] node_rects@.contains_key(id) ==> m0.contains_key(id) || exists|i: int|
                t0.len() <= i < placed.len() && placed[i].node.node_id == id,
            forall|id: usize| #[trigger] node_rects@.contains_key(id) && m0.contains_key(id) ==> node_rects@[id] == m0[id]
                || rect_within(node_rects@[id], area),
            forall|id: usize| #[trigger] m0.contains_key(id) ==> node_rects@.contains_key(id),
        decreases placed.len() - k,
    {
        let ghost before = node_rects@;
        insert_node_rect(node_rects, &tiles[k]);
        proof {
            let t = placed[k as int];
            let prev = placed.take(k as int);
            let next = placed.take(k + 1);
            assert(next.drop_last() =~= prev);
            assert(next.last() == t);
            assert forall|id: usize|
                (#[trigger] node_rects@.contains_key(id) <==> last_rect(next, id) is Some) && (node_rects@.contains_key(id)
                    ==> last_rect(next, id) == Some(node_rects@[id])) by {
                assert(before.contains_key(id) <==> last_rect(prev, id) is Some);
            }
            assert(rect_within(t.rect, area)) by {
                assert(placed.skip(t0.len() as int)[k - t0.len()] == t);
            }
            assert forall|id: usize| #[trigger] node_rects@.contains_key(id) implies exists|i: int|
                0 <= i < placed.len() && (#[trigger] placed[i]).node.node_id == id && !placed[i].node.is_aggregated
                    && placed[i].rect == node_rects@[id] by {
                if !t.node.is_aggregated && id == t.node.node_id {
                    assert(placed[k as int].node.node_id == id);
                }
            }
            assert forall|id: usize| #[trigger] node_rects@.contains_key(id) implies m0.contains_key(id) || exists|i: int|
                t0.len() <= i < placed.len() && placed[i].node.node_id == id by {
                if !t.node.is_aggregated && id == t.node.node_id {
                    assert(placed[k as int].node.node_id == id);
                }
            }
        }
        k += 1;
    }
    proof {
        assert(placed.take(placed.len() as int) =~= placed);
    }
}

/// Level `k + 1` of `levels` lays out, one level deeper, the children
/// `kids[k]` that `child_provider` gave for path node `path[k]`, inside the
/// rectangle that node had once the levels before were laid.
pub open spec fn level_below<F: Fn(usize, usize) -> Vec<TreemapNode>>(
    levels: Seq<Seq<TreemapTile>>,
    kids: Seq<Vec<TreemapNode>>,
    path: Seq<usize>,
    k: int,
    max_nodes: usize,
    child_provider: F,
) -> bool {
    let before = levels.take(k + 1).flatten_alt();
    &&& last_rect(before, path[k]) is Some
    &&& call_ensures(child_provider, (path[k], max_nodes), kids[k])
    &&& is_level_layout(levels[k + 1], kids[k]@, last_rect(before, path[k])->0, (k + 1) as usize, path[k], max_nodes)
}

/// `levels` are the levels of a contextual layout: the root level in
/// `bounds`, then one level for each node of the path in turn, as long as
/// that node has a rectangle; the walk stops at the first that has none.
pub open spec fn laid_levels<F: Fn(usize, usize) -> Vec<TreemapNode>>(
    levels: Seq<Seq<TreemapTile>>,
    kids: Seq<Vec<TreemapNode>>,
    root_nodes: Seq<TreemapNode>,
    bounds: Rect,
    path: Seq<usize>,
    max_nodes: usize,
    child_provider: F,
) -> bool {
    &&& 1 <= levels.len() <= path.len() + 1
    &&& kids.len() + 1 == levels.len()
    &&& is_level_layout(levels[0], root_nodes, bounds, 0, 0, max_nodes)
    &&& forall|k: int| 0 <= k < kids.len() ==> #[trigger] level_below(levels, kids, path, k, max_nodes, child_provider)
    &&& levels.len() <= path.len() ==> last_rect(levels.flatten_alt(), path[levels.len() - 1]) is None
}

/// `l` is a contextual layout (see `laid_levels`): its tiles are those of
/// the levels in order, and its rectangles those of its nodes' last tiles.
pub open spec fn is_contextual_layout<F: Fn(usize, usize) -> Vec<TreemapNode>>(
    l: TreemapLayout,
    root_nodes: Seq<TreemapNode>,
    bounds: Rect,
    path: Seq<usize>,
    max_nodes_per_level: usize,
    child_provider: F,
) -> bool {
    &&& exists|levels: Seq<Seq<TreemapTile>>, kids: Seq<Vec<TreemapNode>>|
        #[trigger] laid_levels(levels, kids, root_nodes, bounds, path, level_keep(max_nodes_per_level) as usize, child_provider)
            && l.tiles@ == levels.flatten_alt()
    &&& rects_match(l.node_rects@, l.tiles@)
}

/// Lays the treemap out for a selection: the root level fills `bounds`,
/// then each node along `selection_path` in turn, as long as it has a tile,
/// has its children (from `child_provider`, asked for at most
/// `max(max_nodes_per_level, 2)` of them) laid out inside its tile, one
/// level deeper.
pub fn contextual_treemap_layout<F: Fn(usize, usize) -> Vec<TreemapNode>>(
    root_nodes: &Vec<TreemapNode>,
    bounds: Rect,
    selection_path: &Vec<usize>,
    max_nodes_per_level: usize,
    child_provider: F,
) -> (r: TreemapLayout)
    requires
        forall|a: usize, b: usize| call_requires(child_provider, (a, b)),
    ensures
        is_contextual_layout(r, root_nodes@, bounds, selection_path@, max_nodes_per_level, child_provider),
        tiles_within(r.tiles@, bounds),
        rects_from_tiles(r.node_rects@, r.tiles@),
        forall|id: usize| #[trigger] r.node_rects@.contains_key(id) ==> rect_within(r.node_rects@[id], bounds),
        fits_screen(bounds) ==> forall|i: int, j: int|
            0 <= i < j < r.tiles@.len() && r.tiles@[i].depth == 0 && r.tiles@[j].depth == 0 ==> !rects_overlap(
                #[trigger] r.tiles@[i].rect,
                #[trigger] r.tiles@[j].rect,
            ),
{
    let max_nodes: usize = if max_nodes_per_level < 2 { 2 } else { max_nodes_per_level };
    let mut tiles: Vec<TreemapTile> = Vec::new();
    let mut node_rects: HashMap<usize, Rect> = HashMap::new();
    proof {
        assert(node_rects@ =~= Map::<usize, Rect>::empty());
        assert(max_nodes == level_keep(max_nodes_per_level) as usize);
    }
    layout_nodes(&mut tiles, &mut node_rects, root_nodes, bounds, 0, 0, max_nodes);
    let ghost first = tiles@;
    let ghost mut levels: Seq<Seq<TreemapTile>> = seq![first];
    let ghost mut kids: Seq<Vec<TreemapNode>> = Seq::empty();
    proof {
        assert(tiles@.skip(0) =~= tiles@);
        assert(levels.drop_last() =~= Seq::<Seq<TreemapTile>>::empty());
        assert(Seq::<Seq<TreemapTile>>::empty().flatten_alt() == Seq::<TreemapTile>::empty());
        assert(levels.last() == first);
        assert(levels.flatten_alt() == levels.drop_last().flatten_alt() + levels.last());
        assert(levels.flatten_alt() =~= first);
    }
    let mut depth: usize = 1;
    let mut p: usize = 0;
    while p < selection_path.len()
        invariant
            forall|a: usize, b: usize| call_requires(child_provider, (a, b)),
            max_nodes == level_keep(max_nodes_per_level) as usize,
            depth >= 1,
            p <= selection_path@.len(),
            p < selection_path@.len() ==> depth == p + 1,
            levels.len() == p + 1,
            kids.len() == p,
            levels[0] == first,
            is_level_layout(first, root_nodes@, bounds, 0, 0, max_nodes),
            tiles@ == levels.flatten_alt(),
            forall|k: int| 0 <= k < p ==> #[trigger] level_below(levels, kids, selection_path@, k, max_nodes, child_provider),
            rects_match(node_rects@, tiles@),
            tiles@.len() >= first.len(),
            tiles@.take(first.len() as int) == first,
            forall|i: int| 0 <= i < first.len() ==> (#[trigger] first[i]).depth == 0,
            forall|i: int| first.len() <= i < tiles@.len() ==> (#[trigger] tiles@[i]).depth >= 1,
            fits_screen(bounds) ==> tiles_disjoint(first),
            tiles_within(tiles@, bounds),
            rects_from_tiles(node_rects@, tiles@),
            forall|id: usize| #[trigger] node_rects@.contains_key(id) ==> rect_within(node_rects@[id], bounds),
        ensures
            p <= selection_path@.len(),
            p < selection_path@.len() ==> last_rect(tiles@, selection_path@[p as int]) is None,
        decreases selection_path@.len() - p,
    {
        let node_id = selection_path[p];
        let parent_rect = match node_rects.get(&node_id) {
            Some(rect) => *rect,
            None => break,
        };
        let children = child_provider(node_id, max_nodes);
        let ghost before = tiles@;
        let ghost m_before = node_rects@;
        layout_nodes(&mut tiles, &mut node_rects, &children, parent_rect, depth, node_id, max_nodes);
        proof {
            assert(rect_within(parent_rect, bounds));
            assert forall|i: int| 0 <= i < tiles@.len() implies rect_within(#[trigger] tiles@[i].rect, bounds) by {
                if i < before.len() {
                    assert(tiles@.take(before.len() as int)[i] == tiles@[i]);
                } else {
                    assert(tiles@.skip(before.len() as int)[i - before.len()] == tiles@[i]);
                }
            }
            assert(tiles@.take(first.len() as int) =~= before.take(first.len() as int)) by {
                assert forall|i: int| 0 <= i < first.len() implies tiles@[i] == before[i] by {
                    assert(tiles@.take(before.len() as int)[i] == tiles@[i]);
                }
            }
            assert forall|id: usize| #[trigger] node_rects@.contains_key(id) implies rect_within(node_rects@[id], bounds) by {
                if !m_before.contains_key(id) {
                } else if node_rects@[id] == m_before[id] {
                } else {
                }
            }
            assert forall|i: int| first.len() <= i < tiles@.len() implies (#[trigger] tiles@[i]).depth >= 1 by {
                if i < before.len() {
                    assert(tiles@.take(before.len() as int)[i] == tiles@[i]);
                }
            }
            let laid = tiles@.skip(before.len() as int);
            let old_levels = levels;
            let old_kids = kids;
            assert(tiles@ =~= before + laid);
            assert(last_rect(before, node_id) == Some(parent_rect));
            levels = levels.push(laid);
            kids = kids.push(children);
            assert(levels.drop_last() =~= old_levels);
            assert(levels.take(p as int + 1) =~= old_levels);
            assert(levels[p as int + 1] == laid);
            assert(kids[p as int] == children);
            assert(level_below(levels, kids, selection_path@, p as int, max_nodes, child_provider));
            assert forall|k: int| 0 <= k < p + 1 implies #[trigger] level_below(levels, kids, selection_path@, k, max_nodes, child_provider) by {
                if k < p {
                    assert(levels.take(k + 1) =~= old_levels.take(k + 1));
                    assert(levels[k + 1] == old_levels[k + 1]);
                    assert(kids[k] == old_kids[k]);
                    assert(level_below(old_levels, old_kids, selection_path@, k, max_nodes, child_provider));
                }
            }
        }
        depth = depth.saturating_add(1);
        p += 1;
    }
    proof {
        if fits_screen(bounds) {
            assert forall|i: int, j: int| 0 <= i < j < tiles@.len() && tiles@[i].depth == 0 && tiles@[j].depth == 0 implies
                !rects_overlap(#[trigger] tiles@[i].rect, #[trigger] tiles@[j].rect) by {
                assert(j < first.len());
                assert(tiles@.take(first.len() as int)[i] == tiles@[i]);
                assert(tiles@.take(first.len() as int)[j] == tiles@[j]);
            }
        }
        assert(laid_levels(levels, kids, root_nodes@, bounds, selection_path@, level_keep(max_nodes_per_level) as usize, child_provider));
    }
    TreemapLayout { tiles, node_rects }
}

} // verus!
