//! Snapshots of a scan: where they go, how they are written, and the entries
//! they hold.
use crate::order::{lemma_map_preserves_multiset, lemma_permutation_member, merge_sort, sorted, TotalPreorder};
use crate::paths::{path_components, spec_path_components, spec_path_parent};
use crate::sums::{lemma_sum_concat, lemma_sum_nonneg, lemma_sum_permutation, seq_sum};
use crate::tree::{
    last_with_path, lemma_linked_frame, lemma_parented_frame, lemma_path_above_shorter, linked, node_for_path, parented, path_above,
    same_except_children, FileTree, NodeType, TreeNode,
};
use vstd::prelude::*;

verus! {

/// The encoding of a written snapshot.
#[derive(Clone, Copy, Debug, PartialEq, Eq, Structural)]
pub enum SnapshotFormat {
    Json,
    Binary,
}

/// Where a snapshot is read from or written to.
#[derive(Clone, Debug, PartialEq, Eq)]
pub enum SnapshotEndpoint {
    StdIo,
    File(String),
}

impl SnapshotEndpoint {
    /// A copy of the endpoint.
    pub fn duplicate(&self) -> (r: SnapshotEndpoint)
        ensures
            r == *self,
    {
        match self {
            SnapshotEndpoint::StdIo => SnapshotEndpoint::StdIo,
            SnapshotEndpoint::File(p) => SnapshotEndpoint::File(p.clone()),
        }
    }
}

/// A copy of an optional endpoint.
pub fn duplicate_endpoint(e: &Option<SnapshotEndpoint>) -> (r: Option<SnapshotEndpoint>)
    ensures
        r == *e,
{
    match e {
        Some(x) => Some(x.duplicate()),
        None => None,
    }
}

/// How a snapshot is written.
#[derive(Clone, Copy, Debug, PartialEq, Eq, Structural)]
pub struct ExportOptions {
    pub format: SnapshotFormat,
    pub compress: bool,
    pub compress_level: u32,
    pub block_size: usize,
}

/// The default export: plain JSON, uncompressed, level 6 if compression is
/// asked for later, 64 KiB blocks.
pub open spec fn default_export() -> ExportOptions {
    ExportOptions { format: SnapshotFormat::Json, compress: false, compress_level: 6, block_size: 65536 }
}

impl Default for ExportOptions {
    fn default() -> (r: Self)
        ensures
            r == default_export(),
    {
        ExportOptions { format: SnapshotFormat::Json, compress: false, compress_level: 6, block_size: 65536 }
    }
}

/// The endpoint a command-line value names: `-` for standard input or
/// output, otherwise the file at that path.
pub open spec fn spec_endpoint(value: String) -> SnapshotEndpoint {
    if value@ == seq!['-'] {
        SnapshotEndpoint::StdIo
    } else {
        SnapshotEndpoint::File(value)
    }
}

pub fn parse_endpoint(value: String) -> (r: SnapshotEndpoint)
    ensures
        r == spec_endpoint(value),
{
    let chars = crate::text::str_chars(value.as_str());
    if chars.len() == 1 && chars[0] == '-' {
        assert(value@ =~= seq!['-']);
        SnapshotEndpoint::StdIo
    } else {
        SnapshotEndpoint::File(value)
    }
}

/// One node of a snapshot: its path, kind, sizes and whether it is
/// expanded.
#[derive(Clone, Debug, PartialEq, Eq)]
pub struct SnapshotEntry {
    pub path: String,
    pub kind: NodeType,
    pub size: u64,
    pub disk_size: u64,
    pub expanded: bool,
}

/// The snapshot entry of a node.
pub open spec fn entry_of(n: TreeNode) -> SnapshotEntry {
    SnapshotEntry { path: n.path, kind: n.file_type, size: n.size, disk_size: n.disk_size, expanded: n.expanded }
}

/// The entries of a tree, one per node, in node order.
pub fn snapshot_entries(tree: &FileTree) -> (r: Vec<SnapshotEntry>)
    ensures
        r@ == tree@.map_values(|n: TreeNode| entry_of(n)),
{
    let nodes = tree.nodes();
    let mut out: Vec<SnapshotEntry> = Vec::new();
    let mut i: usize = 0;
    while i < nodes.len()
        invariant
            nodes@ == tree@,
            i <= nodes@.len(),
            out@ =~= tree@.take(i as int).map_values(|n: TreeNode| entry_of(n)),
        decreases nodes@.len() - i,
    {
        let n = &nodes[i];
        out.push(SnapshotEntry {
            path: n.path.clone(),
            kind: n.file_type,
            size: n.size,
            disk_size: n.disk_size,
            expanded: n.expanded,
        });
        i += 1;
    }
    assert(tree@.take(i as int) =~= tree@);
    out
}

/// The depth of an entry: the number of components of its path.
pub open spec fn entry_depth(e: SnapshotEntry) -> nat {
    spec_path_components(e.path@).len()
}

/// Where an entry goes in the import order: by depth, then by position.
#[derive(Clone, Copy, Debug, PartialEq, Eq, Structural)]
pub struct DepthKey {
    pub depth: usize,
    pub index: usize,
}

impl TotalPreorder for DepthKey {
    open spec fn le(self, other: Self) -> bool {
        self.depth < other.depth || (self.depth == other.depth && self.index <= other.index)
    }

    proof fn lemma_total(a: Self, b: Self) {
    }

    proof fn lemma_trans(a: Self, b: Self, c: Self) {
    }

    fn exec_le(&self, other: &Self) -> (r: bool) {
        self.depth < other.depth || (self.depth == other.depth && self.index <= other.index)
    }
}

/// The indices `0..n`.
pub open spec fn index_range(n: nat) -> Seq<usize> {
    Seq::new(n, |i: int| i as usize)
}

/// `order` lists the entries' indices, each once, shallower entries first
/// and entries of one depth in the order the snapshot lists them (a stable sort by
/// depth).
pub open spec fn import_order_ok(es: Seq<SnapshotEntry>, order: Seq<usize>) -> bool {
    &&& order.len() == es.len()
    &&& order.to_multiset() == index_range(es.len()).to_multiset()
    &&& forall|k: int| 0 <= k < order.len() ==> #[trigger] order[k] < es.len()
    &&& forall|k: int, l: int|
        0 <= k < l < order.len() ==> #[trigger] imported_before(es, order[k], order[l])
}

/// Whether entry `i` may be imported before entry `j`: it is shallower, or
/// as deep and no later in the snapshot.
pub open spec fn imported_before(es: Seq<SnapshotEntry>, i: usize, j: usize) -> bool {
    let a = es[i as int];
    let b = es[j as int];
    entry_depth(a) < entry_depth(b) || (entry_depth(a) == entry_depth(b) && i <= j)
}

/// The order in which a snapshot's entries are imported.
pub fn import_order(entries: &Vec<SnapshotEntry>) -> (r: Vec<usize>)
    ensures
        import_order_ok(entries@, r@),
{
    let n: usize = entries.len();
    let mut keys: Vec<DepthKey> = Vec::new();
    let mut i: usize = 0;
    while i < n
        invariant
            n == entries@.len(),
            i <= n,
            keys@.len() == i,
            forall|j: int| 0 <= j < i ==> (#[trigger] keys@[j]).index == j && keys@[j].depth == entry_depth(
                entries@[j],
            ),
        decreases n - i,
    {
        let comps = path_components(entries[i].path.as_str());
        proof {
            assert(comps@.map_values(|c: String| c@).len() == comps@.len());
        }
        keys.push(DepthKey { depth: comps.len(), index: i });
        i += 1;
    }
    let ghost given = keys@;
    let sorted_keys = merge_sort(keys);
    let mut out: Vec<usize> = Vec::new();
    let mut k: usize = 0;
    while k < sorted_keys.len()
        invariant
            out@.len() == k,
            k <= sorted_keys@.len(),
            forall|j: int| 0 <= j < k ==> out@[j] == (#[trigger] sorted_keys@[j]).index,
        decreases sorted_keys@.len() - k,
    {
        out.push(sorted_keys[k].index);
        k += 1;
    }
    proof {
        let f = |d: DepthKey| d.index;
        lemma_map_preserves_multiset(sorted_keys@, given, f);
        assert(out@ =~= sorted_keys@.map_values(f));
        assert(given.map_values(f) =~= index_range(n as nat));
        assert forall|j: int| 0 <= j < sorted_keys@.len() implies (#[trigger] sorted_keys@[j]).index < n
            && sorted_keys@[j].depth == entry_depth(entries@[sorted_keys@[j].index as int]) by {
            lemma_permutation_member(given, sorted_keys@, j);
            let m = choose|m: int| 0 <= m < given.len() && given[m] == sorted_keys@[j];
            assert(given[m].index == m);
        }
        assert forall|a: int, b: int| 0 <= a < b < out@.len() implies #[trigger] imported_before(
            entries@,
            out@[a],
            out@[b],
        ) by {
            assert(sorted_keys@[a].le(sorted_keys@[b]));
            assert(sorted_keys@[a].depth == entry_depth(entries@[sorted_keys@[a].index as int]));
            assert(sorted_keys@[b].depth == entry_depth(entries@[sorted_keys@[b].index as int]));
        }
        assert forall|j: int| 0 <= j < out@.len() implies #[trigger] out@[j] < entries@.len() by {
            assert(sorted_keys@[j].index < n);
        }
        vstd::seq_lib::to_multiset_len(out@);
        vstd::seq_lib::to_multiset_len(index_range(n as nat));
    }
    out
}

/// The most nodes importing an entry can add: one per character of its
/// path, and one more.
pub open spec fn entry_cost(e: SnapshotEntry) -> int {
    e.path@.len() as int + 1
}

/// The most nodes importing the entries can add.
pub open spec fn import_cost(es: Seq<SnapshotEntry>) -> int {
    seq_sum(es.map_values(|e: SnapshotEntry| entry_cost(e)))
}

/// The cost of the first `k` entries of the import order.
pub open spec fn prefix_cost(es: Seq<SnapshotEntry>, order: Seq<usize>, k: int) -> int {
    seq_sum(order.take(k).map_values(|i: usize| entry_cost(es[i as int])))
}

/// The position, among the first `m` of the import order, of the last entry
/// with path `p`; -1 if there is none.
pub open spec fn latest(es: Seq<SnapshotEntry>, order: Seq<usize>, p: Seq<char>, m: int) -> int
    decreases m,
{
    if m <= 0 {
        -1
    } else if es[order[m - 1] as int].path@ == p {
        m - 1
    } else {
        latest(es, order, p, m - 1)
    }
}

/// Each of the first `m` entries in import order has a node, reached by its
/// path, holding the sizes and expansion of the last of those entries with
/// that path.
pub open spec fn holds_entries(ns: Seq<TreeNode>, es: Seq<SnapshotEntry>, order: Seq<usize>, m: int) -> bool {
    forall|k: int|
        0 <= k < m ==> #[trigger] node_holds(ns, es[order[k] as int].path@, es[order[latest(es, order, es[order[k] as int].path@, m)] as int])
}

/// The node reached by path `p` holds the sizes and expansion of `e`.
pub open spec fn node_holds(ns: Seq<TreeNode>, p: Seq<char>, e: SnapshotEntry) -> bool {
    match node_for_path(ns, p) {
        Some(id) => {
            &&& 0 <= id < ns.len()
            &&& ns[id as int].size == e.size
            &&& ns[id as int].disk_size == e.disk_size
            &&& ns[id as int].expanded == e.expanded
        },
        None => false,
    }
}

proof fn lemma_latest_facts(es: Seq<SnapshotEntry>, order: Seq<usize>, p: Seq<char>, m: int)
    requires
        0 <= m <= order.len(),
    ensures
        -1 <= latest(es, order, p, m) < m,
        latest(es, order, p, m) >= 0 ==> es[order[latest(es, order, p, m)] as int].path@ == p,
    decreases m,
{
    if m > 0 {
        lemma_latest_facts(es, order, p, m - 1);
    }
}

proof fn lemma_prefix_cost(es: Seq<SnapshotEntry>, order: Seq<usize>, k: int)
    requires
        0 <= k < order.len(),
    ensures
        prefix_cost(es, order, k + 1) == prefix_cost(es, order, k) + entry_cost(es[order[k] as int]),
        prefix_cost(es, order, k + 1) <= prefix_cost(es, order, order.len() as int),
{
    let f = |i: usize| entry_cost(es[i as int]);
    assert(order.take(k + 1).map_values(f).drop_last() =~= order.take(k).map_values(f));
    let all = order.map_values(f);
    assert(order.take(order.len() as int).map_values(f) =~= all);
    assert(all =~= order.take(k + 1).map_values(f) + all.skip(k + 1));
    lemma_sum_concat(order.take(k + 1).map_values(f), all.skip(k + 1));
    lemma_sum_nonneg(all.skip(k + 1));
}

proof fn lemma_total_cost(es: Seq<SnapshotEntry>, order: Seq<usize>)
    requires
        import_order_ok(es, order),
        es.len() <= usize::MAX,
    ensures
        prefix_cost(es, order, order.len() as int) == import_cost(es),
{
    let f = |i: usize| entry_cost(es[i as int]);
    let range = index_range(es.len());
    lemma_map_preserves_multiset(order, range, f);
    assert(order.take(order.len() as int) =~= order);
    assert forall|i: int| 0 <= i < es.len() implies range.map_values(f)[i] == entry_cost(es[i]) by {
        assert(range[i] as int == i);
    }
    assert(range.map_values(f) =~= es.map_values(|e: SnapshotEntry| entry_cost(e)));
    lemma_sum_permutation(order.map_values(f), range.map_values(f));
}

/// The root is a directory; every other node has the path and kind of an
/// entry, or is a directory above an entry's path.
#[verifier::opaque]
pub open spec fn kinds_from_entries(ns: Seq<TreeNode>, es: Seq<SnapshotEntry>) -> bool {
    &&& ns[0].file_type == NodeType::Directory
    &&& forall|j: int|
        0 < j < ns.len() ==> {
            ||| exists|i: int| 0 <= i < es.len() && (#[trigger] es[i]).path@ == (#[trigger] ns[j]).path@ && es[i].kind == ns[j].file_type
            ||| ns[j].file_type == NodeType::Directory && exists|i: int| 0 <= i < es.len() && path_above(ns[j].path@, (#[trigger] es[i]).path@)
        }
}

/// Adding an entry's node, and directories above its path, keeps the kinds
/// accounted for.
proof fn lemma_import_kinds_step(before: Seq<TreeNode>, after: Seq<TreeNode>, es: Seq<SnapshotEntry>, i: int)
    requires
        kinds_from_entries(before, es),
        0 <= i < es.len(),
        0 < before.len() <= after.len(),
        forall|j: int| 0 <= j < before.len() ==> (#[trigger] after[j]).path == before[j].path && after[j].file_type == before[j].file_type,
        forall|j: int| before.len() <= j < after.len() ==> {
            ||| (#[trigger] after[j]).file_type == NodeType::Directory && path_above(after[j].path@, es[i].path@)
            ||| after[j].path@ == es[i].path@ && after[j].file_type == es[i].kind
        },
    ensures
        kinds_from_entries(after, es),
{
    reveal(kinds_from_entries);
    assert(after[0].file_type == before[0].file_type);
    assert forall|j: int| 0 < j < after.len() implies {
        ||| exists|m: int| 0 <= m < es.len() && (#[trigger] es[m]).path@ == (#[trigger] after[j]).path@ && es[m].kind == after[j].file_type
        ||| after[j].file_type == NodeType::Directory && exists|m: int| 0 <= m < es.len() && path_above(after[j].path@, (#[trigger] es[m]).path@)
    } by {
        if j < before.len() {
            let bj = before[j];
            if exists|m: int| 0 <= m < es.len() && (#[trigger] es[m]).path@ == (#[trigger] before[j]).path@ && es[m].kind == before[j].file_type {
                let m = choose|m: int| 0 <= m < es.len() && (#[trigger] es[m]).path@ == (#[trigger] before[j]).path@ && es[m].kind == before[j].file_type;
                assert(es[m].path@ == after[j].path@);
            } else {
                let m = choose|m: int| 0 <= m < es.len() && path_above(before[j].path@, (#[trigger] es[m]).path@);
                assert(path_above(after[j].path@, es[m].path@));
            }
        } else {
            if after[j].path@ == es[i].path@ && after[j].file_type == es[i].kind {
                assert(es[i].path@ == after[j].path@);
            } else {
                assert(path_above(after[j].path@, es[i].path@));
            }
        }
    }
}

/// Entry `i` has a path of its own: not the root's, no other entry's, and
/// no ancestor of another entry's path.
#[verifier::opaque]
pub open spec fn own_entry_path(root: Seq<char>, es: Seq<SnapshotEntry>, i: int) -> bool {
    &&& es[i].path@ != root
    &&& forall|m: int| 0 <= m < es.len() && m != i ==> (#[trigger] es[m]).path@ != es[i].path@ && !path_above(es[i].path@, es[m].path@)
}

/// The node of an entry with a path of its own has that entry's kind.
pub proof fn lemma_own_entry_kind(ns: Seq<TreeNode>, es: Seq<SnapshotEntry>, i: int)
    requires
        kinds_from_entries(ns, es),
        ns.len() <= usize::MAX,
        0 <= i < es.len(),
        own_entry_path(ns[0].path@, es, i),
    ensures
        node_for_path(ns, es[i].path@) matches Some(n) ==> ns[n as int].file_type == es[i].kind,
{
    reveal(own_entry_path);
    reveal(kinds_from_entries);
    let p = es[i].path@;
    FileTree::lemma_last_with_path_facts(ns, p, ns.len() as int);
    if let Some(n) = node_for_path(ns, p) {
        let n = n as int;
        assert(ns[n].path@ == p);
        assert(n != 0);
        let nn = ns[n];
        if exists|m: int| 0 <= m < es.len() && (#[trigger] es[m]).path@ == nn.path@ && es[m].kind == nn.file_type {
            let m = choose|m: int| 0 <= m < es.len() && (#[trigger] es[m]).path@ == nn.path@ && es[m].kind == nn.file_type;
            if m != i {
                assert(es[m].path@ != es[i].path@);
            }
        } else {
            let m = choose|m: int| 0 <= m < es.len() && path_above(nn.path@, (#[trigger] es[m]).path@);
            if m == i {
                lemma_path_above_shorter(p, p);
            } else {
                assert(!path_above(es[i].path@, es[m].path@));
            }
        }
    }
}

/// Rebuilds a tree from a snapshot's entries. They are imported shallowest
/// first (see [`import_order`]); the first of them names the root (an empty
/// snapshot keeps `default_root`); each entry's path is given a node, with
/// any missing ancestors, and the node takes the entry's sizes and
/// expansion.
pub fn tree_from_entries(entries: Vec<SnapshotEntry>, default_root: String) -> (r: FileTree)
    requires
        import_cost(entries@) + 2 < usize::MAX,
    ensures
        r.wf(),
        linked(r@),
        parented(r@),
        kinds_from_entries(r@, entries@),
        forall|i: int|
            0 <= i < entries@.len() && own_entry_path(r@[0].path@, entries@, i) ==> (node_for_path(
                r@,
                (#[trigger] entries@[i]).path@,
            ) matches Some(n) ==> r@[n as int].file_type == entries@[i].kind),
        exists|order: Seq<usize>|
            #[trigger] import_order_ok(entries@, order) && r@[0].path@ == (if entries@.len() > 0 {
                entries@[order[0] as int].path@
            } else {
                default_root@
            }) && holds_entries(r@, entries@, order, entries@.len() as int),
{
    let order = import_order(&entries);
    let ghost es = entries@;
    let ghost ord = order@;
    proof {
        lemma_total_cost(es, ord);
    }
    let root_path = if order.len() > 0 {
        entries[order[0]].path.clone()
    } else {
        default_root
    };
    let ghost root_view = root_path@;
    let mut tree = FileTree::new(root_path);
    proof {
        assert(kinds_from_entries(tree@, es)) by {
            reveal(kinds_from_entries);
        }
    }
    let n: usize = order.len();
    let mut k: usize = 0;
    while k < n
        invariant
            n == ord.len(),
            n == es.len(),
            es == entries@,
            ord == order@,
            import_order_ok(es, ord),
            k <= n,
            tree.wf(),
            tree@[0].path@ == root_view,
            tree@.len() <= 1 + prefix_cost(es, ord, k as int),
            prefix_cost(es, ord, n as int) == import_cost(es),
            import_cost(es) + 2 < usize::MAX,
            holds_entries(tree@, es, ord, k as int),
            kinds_from_entries(tree@, es),
            linked(tree@),
            parented(tree@),
        decreases n - k,
    {
        let ghost before = tree@;
        let idx = order[k];
        let e = &entries[idx];
        let ghost p = e.path@;
        proof {
            lemma_prefix_cost(es, ord, k as int);
        }
        let id = tree.ensure_node(e.path.clone(), e.kind);
        let ghost mid = tree@;
        proof {
            FileTree::lemma_last_with_path_facts(mid, p, mid.len() as int);
        }
        match tree.node_mut(id) {
            Some(node) => {
                node.size = e.size;
                node.disk_size = e.disk_size;
                node.expanded = e.expanded;
            },
            None => {},
        }
        proof {
            let after = tree@;
            assert(after == mid.update(id as int, after[id as int]));
            assert forall|j: int| 0 <= j < mid.len() implies (#[trigger] mid[j]).path == after[j].path by {
                if j != id {
                    assert(after[j] == mid[j]);
                }
            }
            assert forall|q: Seq<char>| #![trigger node_for_path(after, q)] node_for_path(after, q) == node_for_path(mid, q) by {
                crate::tree::lemma_path_lookup_frame(mid, after, q, mid.len() as int);
            }
            assert(same_except_children(mid[0], before[0]));
            assert(es[idx as int] == *e);
            assert forall|j: int| 0 <= j < before.len() implies (#[trigger] after[j]).path == before[j].path
                && after[j].file_type == before[j].file_type by {
                assert(same_except_children(mid[j], before[j]));
            }
            assert forall|j: int| before.len() <= j < after.len() implies {
                ||| (#[trigger] after[j]).file_type == NodeType::Directory && path_above(after[j].path@, es[idx as int].path@)
                ||| after[j].path@ == es[idx as int].path@ && after[j].file_type == es[idx as int].kind
            } by {
                assert(after[j].file_type == mid[j].file_type && after[j].path == mid[j].path);
            }
            lemma_import_kinds_step(before, after, es, idx as int);
            assert forall|j: int| 0 <= j < mid.len() implies (#[trigger] after[j]).parent == mid[j].parent
                && after[j].path == mid[j].path && after[j].children@.to_multiset() == mid[j].children@.to_multiset() by {
                if j != id {
                    assert(after[j] == mid[j]);
                }
            }
            lemma_linked_frame(mid, after);
            lemma_parented_frame(mid, after);
            assert forall|j: int| 0 <= j < k + 1 implies #[trigger] node_holds(
                after,
                es[ord[j] as int].path@,
                es[ord[latest(es, ord, es[ord[j] as int].path@, k + 1)] as int],
            ) by {
                let q = es[ord[j] as int].path@;
                if q == p {
                    assert(latest(es, ord, q, k + 1) == k);
                    assert(node_for_path(after, q) == Some(id));
                } else {
                    assert(latest(es, ord, q, k + 1) == latest(es, ord, q, k as int));
                    assert(j < k);
                    assert(node_holds(before, q, es[ord[latest(es, ord, q, k as int)] as int]));
                    assert(node_for_path(before, q) is Some);
                    let qid = node_for_path(before, q)->0;
                    assert(node_for_path(mid, q) == Some(qid));
                    FileTree::lemma_last_with_path_facts(before, q, before.len() as int);
                    assert(same_except_children(mid[qid as int], before[qid as int]));
                    assert(mid[qid as int].path@ == q);
                    assert(qid != id);
                    assert(after[qid as int] == mid[qid as int]);
                }
            }
        }
        k += 1;
    }
    proof {
        assert(import_order_ok(entries@, order@));
        assert forall|i: int|
            0 <= i < entries@.len() && own_entry_path(tree@[0].path@, entries@, i) implies (node_for_path(
                tree@,
                (#[trigger] entries@[i]).path@,
            ) matches Some(n) ==> tree@[n as int].file_type == entries@[i].kind) by {
            lemma_own_entry_kind(tree@, entries@, i);
        }
    }
    tree
}

/// No two nodes share a path.
pub open spec fn distinct_paths(ns: Seq<TreeNode>) -> bool {
    forall|i: int, j: int| 0 <= i < ns.len() && 0 <= j < ns.len() && i != j ==> #[trigger] ns[i].path@ != #[trigger] ns[j].path@
}

proof fn lemma_latest_at_least(es: Seq<SnapshotEntry>, order: Seq<usize>, p: Seq<char>, k: int, m: int)
    requires
        0 <= k < m <= order.len(),
        es[order[k] as int].path@ == p,
    ensures
        k <= latest(es, order, p, m) < m,
        es[order[latest(es, order, p, m)] as int].path@ == p,
    decreases m,
{
    if m - 1 > k && es[order[m - 1] as int].path@ != p {
        lemma_latest_at_least(es, order, p, k, m - 1);
    }
}

/// The imported node with the path of `ns[i]` hangs under the imported node
/// with the path of `ns[i]`'s parent.
pub open spec fn parent_path_kept(imported: Seq<TreeNode>, ns: Seq<TreeNode>, i: int) -> bool {
    match (node_for_path(imported, ns[i].path@), ns[i].parent) {
        (Some(n), Some(p)) => match imported[n as int].parent {
            Some(q) => q < imported.len() && imported[q as int].path@ == ns[p as int].path@,
            None => false,
        },
        _ => false,
    }
}

/// Importing a tree's snapshot gives back a node for every path of the
/// tree; when the tree's paths are distinct, every node comes back with its
/// sizes and expansion, a node whose path is its own (see `own_entry_path`)
/// comes back with its kind, and, when the tree hangs every node under the
/// node of its path's parent (see `parented`), a node whose path has a
/// parent comes back under the node of its parent's path (unless it became
/// the imported root).
pub proof fn lemma_snapshot_roundtrip(ns: Seq<TreeNode>, order: Seq<usize>, imported: Seq<TreeNode>)
    requires
        ns.len() <= usize::MAX,
        imported.len() <= usize::MAX,
        import_order_ok(ns.map_values(|n: TreeNode| entry_of(n)), order),
        holds_entries(imported, ns.map_values(|n: TreeNode| entry_of(n)), order, ns.len() as int),
        kinds_from_entries(imported, ns.map_values(|n: TreeNode| entry_of(n))),
        parented(imported),
    ensures
        forall|i: int| 0 <= i < ns.len() ==> #[trigger] node_for_path(imported, ns[i].path@) is Some,
        distinct_paths(ns) ==> forall|i: int|
            0 <= i < ns.len() ==> #[trigger] node_holds(imported, ns[i].path@, entry_of(ns[i])),
        forall|i: int|
            0 <= i < ns.len() && own_entry_path(imported[0].path@, ns.map_values(|n: TreeNode| entry_of(n)), i)
                ==> (node_for_path(imported, (#[trigger] ns[i]).path@) matches Some(n) && imported[n as int].file_type == ns[i].file_type),
        distinct_paths(ns) && linked(ns) && parented(ns) ==> forall|i: int|
            0 < i < ns.len() && (#[trigger] ns[i]).path@ != imported[0].path@ && spec_path_parent(ns[i].path@) is Some
                ==> parent_path_kept(imported, ns, i),
{
    broadcast use vstd::seq_lib::group_to_multiset_ensures;
    let es = ns.map_values(|n: TreeNode| entry_of(n));
    let m = ns.len() as int;
    assert forall|i: int| 0 <= i < m implies #[trigger] node_for_path(imported, ns[i].path@) is Some && (
    distinct_paths(ns) ==> node_holds(imported, ns[i].path@, entry_of(ns[i]))) by {
        let range = index_range(es.len());
        assert(range[i] == i as usize);
        assert(range.to_multiset().count(i as usize) > 0);
        assert(order.to_multiset().count(i as usize) > 0);
        assert(order.contains(i as usize));
        let k = choose|k: int| 0 <= k < order.len() && order[k] == i as usize;
        let p = ns[i].path@;
        assert(es[order[k] as int] == entry_of(ns[i]));
        let l = latest(es, order, p, m);
        lemma_latest_at_least(es, order, p, k, m);
        assert(node_holds(imported, es[order[k] as int].path@, es[order[l] as int]));
        if distinct_paths(ns) {
            assert(order[l] < m);
            assert(es[order[l] as int].path@ == ns[order[l] as int].path@);
            assert(order[l] as int == i);
        }
    }
    assert forall|i: int|
        0 <= i < ns.len() && own_entry_path(imported[0].path@, es, i) implies (node_for_path(imported, (#[trigger] ns[i]).path@) matches Some(n)
            && imported[n as int].file_type == ns[i].file_type) by {
        assert(es[i] == entry_of(ns[i]));
        lemma_own_entry_kind(imported, es, i);
        assert(node_for_path(imported, ns[i].path@) is Some);
    }
    if distinct_paths(ns) && linked(ns) && parented(ns) {
        assert forall|i: int|
            0 < i < ns.len() && (#[trigger] ns[i]).path@ != imported[0].path@ && spec_path_parent(ns[i].path@) is Some
                implies parent_path_kept(imported, ns, i) by {
            let pp = spec_path_parent(ns[i].path@)->0;
            assert(crate::tree::listed_once(ns, i));
            let p = ns[i].parent->0;
            FileTree::lemma_last_with_path_facts(ns, pp, ns.len() as int);
            assert(ns[p as int].path@ == pp);
            assert(node_for_path(imported, ns[p as int].path@) is Some);
            assert(node_for_path(imported, ns[i].path@) is Some);
            let n = node_for_path(imported, ns[i].path@)->0;
            FileTree::lemma_last_with_path_facts(imported, ns[i].path@, imported.len() as int);
            FileTree::lemma_last_with_path_facts(imported, pp, imported.len() as int);
            assert(n != 0);
            assert(imported[n as int].path@ == ns[i].path@);
        }
    }
}

} // verus!
