//! The in-memory tree of filesystem entries.
//!
//! Nodes live in a vector and are addressed by their index; every child has a
//! larger index than its parent, which is what lets sizes be recomputed in a
//! single pass from the last node to the first.
use crate::config::SortMode;
use crate::order::{lex_order, lex_order_chars, merge_sort, sorted, TotalPreorder};
use crate::paths::{compute_path_hash, display_name, path_hash, path_parent, spec_display_name, spec_path_parent};
use std::collections::HashMap;
use vstd::prelude::*;

verus! {

broadcast use vstd::std_specs::hash::group_hash_axioms;

pub type NodeId = usize;

/// Kind of a filesystem entry.
#[derive(Clone, Copy, Debug, PartialEq, Eq, Structural)]
pub enum NodeType {
    File,
    Directory,
    Symlink,
    Other,
}

/// A point in time, as signed nanoseconds relative to the Unix epoch.
#[derive(Clone, Copy, Debug, PartialEq, Eq, Structural)]
pub struct Timestamp {
    pub nanos_since_epoch: i128,
}

/// Metadata that tracks the user's current selection and scroll offset.
#[derive(Clone, Copy, Debug)]
pub struct NavigationState {
    pub selected: Option<NodeId>,
    pub scroll_offset: usize,
}

impl Default for NavigationState {
    fn default() -> (r: Self)
        ensures
            r.selected is None,
            r.scroll_offset == 0,
    {
        NavigationState { selected: None, scroll_offset: 0 }
    }
}

impl NavigationState {
    pub fn select(&mut self, id: NodeId)
        ensures
            final(self).selected == Some(id),
            final(self).scroll_offset == old(self).scroll_offset,
    {
        self.selected = Some(id);
    }

    pub fn clear(&mut self)
        ensures
            final(self).selected is None,
            final(self).scroll_offset == old(self).scroll_offset,
    {
        self.selected = None;
    }

    pub fn set_scroll_offset(&mut self, offset: usize)
        ensures
            final(self).scroll_offset == offset,
            final(self).selected == old(self).selected,
    {
        self.scroll_offset = offset;
    }
}

/// A single entry in the filesystem tree.
#[derive(Clone, Debug)]
pub struct TreeNode {
    pub id: NodeId,
    pub parent: Option<NodeId>,
    pub children: Vec<NodeId>,
    pub path: String,
    pub name: String,
    pub file_type: NodeType,
    pub size: u64,
    pub disk_size: u64,
    pub modified: Option<Timestamp>,
    pub permissions: Option<u32>,
    pub uid: Option<u32>,
    pub gid: Option<u32>,
    pub expanded: bool,
}

/// Optional metadata collected in extended mode.
#[derive(Clone, Copy, Debug)]
pub struct NodeMetadata {
    pub modified: Option<Timestamp>,
    pub permissions: Option<u32>,
    pub uid: Option<u32>,
    pub gid: Option<u32>,
}

/// The fields of `a` and `b` agree except possibly `children`.
pub open spec fn same_except_children(a: TreeNode, b: TreeNode) -> bool {
    &&& a.id == b.id
    &&& a.parent == b.parent
    &&& a.path == b.path
    &&& a.name == b.name
    &&& a.file_type == b.file_type
    &&& a.size == b.size
    &&& a.disk_size == b.disk_size
    &&& a.modified == b.modified
    &&& a.permissions == b.permissions
    &&& a.uid == b.uid
    &&& a.gid == b.gid
    &&& a.expanded == b.expanded
}

/// The fields of `a` and `b` agree except possibly the two sizes.
pub open spec fn same_except_sizes(a: TreeNode, b: TreeNode) -> bool {
    &&& a.id == b.id
    &&& a.parent == b.parent
    &&& a.children == b.children
    &&& a.path == b.path
    &&& a.name == b.name
    &&& a.file_type == b.file_type
    &&& a.modified == b.modified
    &&& a.permissions == b.permissions
    &&& a.uid == b.uid
    &&& a.gid == b.gid
    &&& a.expanded == b.expanded
}

impl TreeNode {
    /// A detached node for `path`; directories start expanded.
    pub fn new(path: String, file_type: NodeType) -> (r: Self)
        ensures
            r.id == usize::MAX,
            r.parent is None,
            r.children@.len() == 0,
            r.path == path,
            r.name@ == spec_display_name(path@),
            r.file_type == file_type,
            r.size == 0,
            r.disk_size == 0,
            r.modified is None,
            r.permissions is None,
            r.uid is None,
            r.gid is None,
            r.expanded == (file_type == NodeType::Directory),
    {
        let name = display_name(path.as_str());
        TreeNode {
            id: usize::MAX,
            parent: None,
            children: Vec::new(),
            path,
            name,
            file_type,
            size: 0,
            disk_size: 0,
            modified: None,
            permissions: None,
            uid: None,
            gid: None,
            expanded: file_type == NodeType::Directory,
        }
    }

    pub fn with_size(self, size: u64) -> (r: Self)
        ensures
            same_except_sizes(r, self),
            r.size == size,
            r.disk_size == self.disk_size,
    {
        let mut node = self;
        node.size = size;
        node
    }

    pub fn with_modified(self, modified: Timestamp) -> (r: Self)
        ensures
            r.modified == Some(modified),
            r.id == self.id && r.parent == self.parent && r.children == self.children,
            r.path == self.path && r.name == self.name && r.file_type == self.file_type,
            r.size == self.size && r.disk_size == self.disk_size,
            r.permissions == self.permissions && r.uid == self.uid && r.gid == self.gid,
            r.expanded == self.expanded,
    {
        let mut node = self;
        node.modified = Some(modified);
        node
    }

    pub fn collapsed(self) -> (r: Self)
        ensures
            !r.expanded,
            r.id == self.id && r.parent == self.parent && r.children == self.children,
            r.path == self.path && r.name == self.name && r.file_type == self.file_type,
            r.size == self.size && r.disk_size == self.disk_size && r.modified == self.modified,
            r.permissions == self.permissions && r.uid == self.uid && r.gid == self.gid,
    {
        let mut node = self;
        node.expanded = false;
        node
    }
}

/// Shape of a well-formed node vector: a root at index 0, each node knows its
/// own index, parents come before their children and children after theirs.
pub open spec fn tree_shape(ns: Seq<TreeNode>) -> bool {
    &&& 0 < ns.len() <= usize::MAX
    &&& forall|i: int| 0 <= i < ns.len() ==> (#[trigger] ns[i]).id == i
    &&& forall|i: int| 0 <= i < ns.len() ==> ((#[trigger] ns[i]).parent matches Some(p) ==> p < i)
    &&& forall|i: int, k: int|
        0 <= i < ns.len() && 0 <= k < ns[i].children@.len() ==> i < #[trigger] ns[i].children@[k] < ns.len()
}

/// The last node (highest index below `n`) whose path is `p`.
pub open spec fn last_with_path(ns: Seq<TreeNode>, p: Seq<char>, n: int) -> Option<usize>
    decreases n,
{
    if n <= 0 {
        None
    } else if ns[n - 1].path@ == p {
        Some((n - 1) as usize)
    } else {
        last_with_path(ns, p, n - 1)
    }
}

/// The node a path resolves to: the most recently added node with that path.
pub open spec fn node_for_path(ns: Seq<TreeNode>, p: Seq<char>) -> Option<usize> {
    last_with_path(ns, p, ns.len() as int)
}

/// Trees whose nodes have the same paths resolve every path alike.
pub proof fn lemma_path_lookup_frame(a: Seq<TreeNode>, b: Seq<TreeNode>, p: Seq<char>, n: int)
    requires
        a.len() == b.len(),
        n <= a.len(),
        forall|j: int| 0 <= j < a.len() ==> (#[trigger] a[j]).path == b[j].path,
    ensures
        last_with_path(a, p, n) == last_with_path(b, p, n),
    decreases n,
{
    if n > 0 {
        assert(a[n - 1].path == b[n - 1].path);
        lemma_path_lookup_frame(a, b, p, n - 1);
    }
}

/// Adding a node with another path leaves the lookup of a path unchanged.
pub proof fn lemma_lookup_after_push(a: Seq<TreeNode>, b: Seq<TreeNode>, q: Seq<char>)
    requires
        b.len() == a.len() + 1,
        forall|j: int| 0 <= j < a.len() ==> (#[trigger] b[j]).path == a[j].path,
        b[a.len() as int].path@ != q,
    ensures
        node_for_path(b, q) == node_for_path(a, q),
{
    lemma_path_lookup_frame(a, b.take(a.len() as int), q, a.len() as int);
    lemma_lookup_prefix(b, q, a.len() as int);
}

/// The lookup among the first `n` nodes depends only on those nodes.
proof fn lemma_lookup_prefix(b: Seq<TreeNode>, q: Seq<char>, n: int)
    requires
        0 <= n < b.len(),
        b[n].path@ != q,
        n + 1 == b.len(),
    ensures
        last_with_path(b, q, b.len() as int) == last_with_path(b.take(n), q, n),
{
    lemma_last_with_path_take(b, q, n, n);
}

proof fn lemma_last_with_path_take(b: Seq<TreeNode>, q: Seq<char>, n: int, m: int)
    requires
        0 <= m <= n < b.len(),
    ensures
        last_with_path(b, q, m) == last_with_path(b.take(n), q, m),
    decreases m,
{
    if m > 0 {
        lemma_last_with_path_take(b, q, n, m - 1);
    }
}

pub open spec fn sat_add(a: u64, b: u64) -> u64 {
    if a + b > u64::MAX {
        u64::MAX
    } else {
        (a + b) as u64
    }
}

pub open spec fn metric(n: TreeNode, disk: bool) -> u64 {
    if disk {
        n.disk_size
    } else {
        n.size
    }
}

/// Saturating sum of the apparent (or disk) sizes of the listed nodes.
pub open spec fn child_sum(ns: Seq<TreeNode>, kids: Seq<usize>, disk: bool) -> u64
    decreases kids.len(),
{
    if kids.len() == 0 {
        0
    } else {
        sat_add(child_sum(ns, kids.drop_last(), disk), metric(ns[kids.last() as int], disk))
    }
}

/// A node with children stores the saturating sums of their sizes.
pub open spec fn node_consistent(ns: Seq<TreeNode>, i: int) -> bool {
    ns[i].children@.len() > 0 ==> {
        &&& forall|k: int| 0 <= k < ns[i].children@.len() ==> #[trigger] ns[i].children@[k] < ns.len()
        &&& ns[i].size == child_sum(ns, ns[i].children@, false)
        &&& ns[i].disk_size == child_sum(ns, ns[i].children@, true)
    }
}

/// Every directory size equals the sum of its children's sizes.
pub open spec fn sizes_consistent(ns: Seq<TreeNode>) -> bool {
    forall|i: int| 0 <= i < ns.len() ==> #[trigger] node_consistent(ns, i)
}

/// `a` is what recomputing the sizes of `o` gives: the same nodes but for
/// their sizes, directories without children empty, other leaves as they
/// were, and every node with children holding the sums of its children.
pub open spec fn recomputed_from(o: Seq<TreeNode>, a: Seq<TreeNode>) -> bool {
    &&& a.len() == o.len()
    &&& sizes_consistent(a)
    &&& forall|j: int| 0 <= j < o.len() ==> same_except_sizes(#[trigger] a[j], o[j])
    &&& forall|j: int|
        0 <= j < o.len() && (#[trigger] a[j]).children@.len() == 0 ==> {
            &&& a[j].size == if o[j].file_type == NodeType::Directory { 0 } else { o[j].size }
            &&& a[j].disk_size == if o[j].file_type == NodeType::Directory { 0 } else { o[j].disk_size }
        }
}

/// Children whose sizes agree give the same sums.
proof fn lemma_child_sum_agree(a: Seq<TreeNode>, b: Seq<TreeNode>, kids: Seq<usize>, disk: bool)
    requires
        forall|k: int| 0 <= k < kids.len() ==> metric(a[#[trigger] kids[k] as int], disk) == metric(b[kids[k] as int], disk),
    ensures
        child_sum(a, kids, disk) == child_sum(b, kids, disk),
    decreases kids.len(),
{
    if kids.len() > 0 {
        let d = kids.drop_last();
        assert forall|k: int| 0 <= k < d.len() implies metric(a[#[trigger] d[k] as int], disk) == metric(b[d[k] as int], disk) by {
            assert(d[k] == kids[k]);
        }
        lemma_child_sum_agree(a, b, d, disk);
        assert(kids.last() == kids[kids.len() - 1]);
    }
}

/// Two recomputations of one tree agree on the sizes of every node from
/// index `n` on.
proof fn lemma_recomputed_sizes_agree(o: Seq<TreeNode>, a: Seq<TreeNode>, b: Seq<TreeNode>, n: int)
    requires
        tree_shape(o),
        recomputed_from(o, a),
        recomputed_from(o, b),
        0 <= n <= o.len(),
    ensures
        forall|j: int| n <= j < o.len() ==> (#[trigger] a[j]).size == b[j].size && a[j].disk_size == b[j].disk_size,
    decreases o.len() - n,
{
    if n < o.len() {
        lemma_recomputed_sizes_agree(o, a, b, n + 1);
        assert(same_except_sizes(a[n], o[n]));
        assert(same_except_sizes(b[n], o[n]));
        if a[n].children@.len() > 0 {
            let kids = o[n].children@;
            assert(node_consistent(a, n));
            assert(node_consistent(b, n));
            assert forall|k: int| 0 <= k < kids.len() implies metric(a[#[trigger] kids[k] as int], false) == metric(b[kids[k] as int], false)
                && metric(a[kids[k] as int], true) == metric(b[kids[k] as int], true) by {
                assert(n < kids[k] < o.len());
            }
            lemma_child_sum_agree(a, b, kids, false);
            lemma_child_sum_agree(a, b, kids, true);
        }
    }
}

/// A tree has one recomputation.
pub proof fn lemma_recomputed_unique(o: Seq<TreeNode>, a: Seq<TreeNode>, b: Seq<TreeNode>)
    requires
        tree_shape(o),
        recomputed_from(o, a),
        recomputed_from(o, b),
    ensures
        a == b,
{
    lemma_recomputed_sizes_agree(o, a, b, 0);
    assert forall|j: int| 0 <= j < a.len() implies a[j] == b[j] by {
        assert(same_except_sizes(a[j], o[j]));
        assert(same_except_sizes(b[j], o[j]));
    }
    assert(a =~= b);
}

/// Recomputing the sizes a second time changes nothing.
pub proof fn lemma_recompute_idempotent(t: Seq<TreeNode>, once: Seq<TreeNode>, twice: Seq<TreeNode>)
    requires
        tree_shape(t),
        recomputed_from(t, once),
        recomputed_from(once, twice),
    ensures
        twice == once,
{
    assert forall|j: int| 0 <= j < once.len() implies same_except_sizes(#[trigger] once[j], once[j]) by {}
    assert forall|j: int| 0 <= j < once.len() implies (#[trigger] once[j]).id == j by {
        assert(same_except_sizes(once[j], t[j]));
    }
    assert forall|j: int| 0 <= j < once.len() implies ((#[trigger] once[j]).parent matches Some(p) ==> p < j) by {
        assert(same_except_sizes(once[j], t[j]));
    }
    assert forall|i: int, k: int| 0 <= i < once.len() && 0 <= k < once[i].children@.len() implies i < #[trigger] once[i].children@[k]
        < once.len() by {
        assert(same_except_sizes(once[i], t[i]));
    }
    assert(tree_shape(once));
    assert(recomputed_from(once, once)) by {
        assert forall|j: int| 0 <= j < once.len() && (#[trigger] once[j]).children@.len() == 0 implies {
            &&& once[j].size == if once[j].file_type == NodeType::Directory { 0 } else { once[j].size }
            &&& once[j].disk_size == if once[j].file_type == NodeType::Directory { 0 } else { once[j].disk_size }
        } by {
            assert(same_except_sizes(once[j], t[j]));
        }
    }
    lemma_recomputed_unique(once, twice, once);
}

/// Node `i` has a parent before it that lists it exactly once among its
/// children.
pub open spec fn listed_once(ns: Seq<TreeNode>, i: int) -> bool {
    match ns[i].parent {
        Some(p) => p < i && ns[p as int].children@.to_multiset().count(i as usize) == 1,
        None => false,
    }
}

/// Every node but the root is listed once by a parent before it; the root
/// has no parent.
pub open spec fn linked(ns: Seq<TreeNode>) -> bool {
    &&& ns.len() > 0
    &&& ns[0].parent is None
    &&& forall|i: int| 0 < i < ns.len() ==> #[trigger] listed_once(ns, i)
}

/// With distinct paths, a path resolves to a node exactly when that node
/// has the path.
pub proof fn lemma_lookup_distinct(ns: Seq<TreeNode>, p: Seq<char>, i: usize)
    requires
        ns.len() <= usize::MAX,
        forall|a: int, b: int| 0 <= a < b < ns.len() ==> (#[trigger] ns[a]).path@ != (#[trigger] ns[b]).path@,
    ensures
        node_for_path(ns, p) == Some(i) <==> (i < ns.len() && ns[i as int].path@ == p),
        node_for_path(ns, p) is None <==> forall|j: int| 0 <= j < ns.len() ==> (#[trigger] ns[j]).path@ != p,
{
    FileTree::lemma_last_with_path_facts(ns, p, ns.len() as int);
    if let Some(k) = node_for_path(ns, p) {
        if i < ns.len() && ns[i as int].path@ == p && i != k {
            if i < k {
                assert(ns[i as int].path@ != ns[k as int].path@);
            } else {
                assert(ns[k as int].path@ != ns[i as int].path@);
            }
        }
    }
}

/// `j` lies on the chain of ancestors starting at `cur` (inclusive).
pub open spec fn on_chain(ns: Seq<TreeNode>, cur: int, j: int) -> bool
    decreases cur,
{
    if cur < 0 || cur >= ns.len() {
        false
    } else if cur == j {
        true
    } else {
        match ns[cur].parent {
            Some(p) => p < cur && on_chain(ns, p as int, j),
            None => false,
        }
    }
}

/// Represents the in-memory tree of filesystem nodes.
#[derive(Debug)]
pub struct FileTree {
    nodes: Vec<TreeNode>,
    pub navigation: NavigationState,
    path_index: HashMap<u64, Vec<NodeId>>,
}

spec fn bucket_ok(ns: Seq<TreeNode>, b: Seq<usize>, h: u64) -> bool {
    &&& forall|k: int| 0 <= k < b.len() ==> (#[trigger] b[k]) < ns.len() && path_hash(ns[b[k] as int].path@) == h
    &&& forall|k1: int, k2: int| 0 <= k1 < k2 < b.len() ==> #[trigger] b[k1] < #[trigger] b[k2]
}

impl View for FileTree {
    type V = Seq<TreeNode>;

    closed spec fn view(&self) -> Seq<TreeNode> {
        self.nodes@
    }
}

impl FileTree {
    pub closed spec fn index_ok(&self) -> bool {
        &&& forall|h: u64| #[trigger] self.path_index@.contains_key(h) ==> bucket_ok(self.nodes@, self.path_index@[h]@, h)
        &&& forall|i: int| 0 <= i < self.nodes@.len() ==> {
            let h = path_hash(#[trigger] self.nodes@[i].path@);
            self.path_index@.contains_key(h) && self.path_index@[h]@.contains(i as usize)
        }
    }

    /// The navigation state kept alongside the tree.
    pub closed spec fn nav(&self) -> NavigationState {
        self.navigation
    }

    /// The tree is well formed: it has the shape of `tree_shape` and its
    /// path lookup table agrees with the nodes.
    pub open spec fn wf(&self) -> bool {
        tree_shape(self@) && self.index_ok()
    }

    /// Create a tree containing only the root node.
    pub fn new(root_path: String) -> (r: Self)
        ensures
            r.wf(),
            r@.len() == 1,
            r@[0].id == 0,
            r@[0].parent is None,
            r@[0].children@.len() == 0,
            r@[0].path == root_path,
            r@[0].name@ == spec_display_name(root_path@),
            r@[0].file_type == NodeType::Directory,
            r@[0].size == 0,
            r@[0].disk_size == 0,
            r@[0].modified is None,
            r@[0].permissions is None && r@[0].uid is None && r@[0].gid is None,
            r@[0].expanded,
            r.nav().selected is None,
            r.nav().scroll_offset == 0,
            linked(r@),
            parented(r@),
    {
        let h = compute_path_hash(root_path.as_str());
        let mut root = TreeNode::new(root_path, NodeType::Directory);
        root.id = 0;
        root.expanded = true;
        let mut path_index: HashMap<u64, Vec<NodeId>> = HashMap::new();
        let mut bucket: Vec<NodeId> = Vec::new();
        bucket.push(0);
        path_index.insert(h, bucket);
        let mut nodes: Vec<TreeNode> = Vec::new();
        nodes.push(root);
        let t = FileTree { nodes, navigation: NavigationState::default(), path_index };
        proof {
            assert(t.path_index@[h]@[0] == 0);
            assert(t.path_index@[h]@.contains(0usize));
        }
        t
    }

    pub fn root(&self) -> (r: NodeId)
        ensures
            r == 0,
    {
        0
    }

    pub fn node(&self, id: NodeId) -> (r: Option<&TreeNode>)
        ensures
            r is Some <==> id < self@.len(),
            r matches Some(n) ==> *n == self@[id as int],
    {
        if id < self.nodes.len() {
            Some(&self.nodes[id])
        } else {
            None
        }
    }

    /// Mutable access to a node. Changing a node's path, id, parent or
    /// children (other than clearing them) can break well-formedness.
    pub fn node_mut(&mut self, id: NodeId) -> (r: Option<&mut TreeNode>)
        ensures
            r is Some <==> id < old(self)@.len(),
            r is None ==> final(self)@ == old(self)@ && final(self).wf() == old(self).wf(),
            r matches Some(n) ==> {
                &&& *n == old(self)@[id as int]
                &&& final(self)@ == old(self)@.update(id as int, *final(n))
                &&& (old(self).wf() && final(n).id == n.id && final(n).parent == n.parent
                    && final(n).path == n.path
                    && (final(n).children == n.children || final(n).children@.len() == 0))
                    ==> final(self).wf()
            },
            final(self).nav() == old(self).nav(),
    {
        if id < self.nodes.len() {
            let r = &mut self.nodes[id];
            Some(r)
        } else {
            None
        }
    }

    pub fn nodes(&self) -> (r: &[TreeNode])
        ensures
            r@ == self@,
    {
        self.nodes.as_slice()
    }
}

impl FileTree {
    /// Attach `node` under `parent`, giving it the next free index.
    pub fn add_child(&mut self, parent: NodeId, node: TreeNode) -> (r: NodeId)
        requires
            old(self)@.len() < usize::MAX,
        ensures
            r == old(self)@.len(),
            final(self)@.len() == old(self)@.len() + 1,
            final(self)@[r as int].id == r,
            final(self)@[r as int].parent == Some(parent),
            parent != r ==> final(self)@[r as int].children == node.children,
            parent == r ==> final(self)@[r as int].children@ == node.children@.push(r),
            final(self)@[r as int].path == node.path,
            final(self)@[r as int].name == node.name,
            final(self)@[r as int].file_type == node.file_type,
            final(self)@[r as int].size == node.size,
            final(self)@[r as int].disk_size == node.disk_size,
            final(self)@[r as int].modified == node.modified,
            final(self)@[r as int].permissions == node.permissions,
            final(self)@[r as int].uid == node.uid,
            final(self)@[r as int].gid == node.gid,
            final(self)@[r as int].expanded == node.expanded,
            forall|j: int| 0 <= j < old(self)@.len() && j != parent ==> final(self)@[j] == old(self)@[j],
            parent < old(self)@.len() ==> same_except_children(final(self)@[parent as int], old(self)@[parent as int])
                && final(self)@[parent as int].children@ == old(self)@[parent as int].children@.push(r),
            node_for_path(final(self)@, node.path@) == Some(r),
            old(self).index_ok() ==> final(self).index_ok(),
            old(self).wf() && parent < old(self)@.len() && node.children@.len() == 0 ==> final(self).wf(),
            old(self).wf() && linked(old(self)@) && parent < old(self)@.len() ==> linked(final(self)@),
            final(self).nav() == old(self).nav(),
    {
        let ghost old_tree = *self;
        let id = self.nodes.len();
        let h = compute_path_hash(node.path.as_str());
        let mut node = node;
        node.id = id;
        node.parent = Some(parent);
        let mut bucket = match self.path_index.remove(&h) {
            Some(b) => b,
            None => Vec::new(),
        };
        let ghost old_bucket = bucket@;
        bucket.push(id);
        self.path_index.insert(h, bucket);
        self.nodes.push(node);
        if parent < self.nodes.len() {
            self.nodes[parent].children.push(id);
        }
        proof {
            let ns = self.nodes@;
            let ons = old_tree.nodes@;
            assert forall|j: int| 0 <= j < ons.len() implies #[trigger] ns[j].path == ons[j].path by {}
            assert(ns[id as int].path == node.path);
            if old_tree.wf() && linked(ons) && parent < ons.len() {
                broadcast use vstd::seq_lib::group_to_multiset_ensures;
                let pc = ons[parent as int].children@;
                assert(!pc.contains(id)) by {
                    if pc.contains(id) {
                        let k = choose|k: int| 0 <= k < pc.len() && pc[k] == id;
                        assert(parent < pc[k] < ons.len());
                    }
                }
                assert(ns[parent as int].children@ == pc.push(id));
                assert forall|i: int| 0 < i < ns.len() implies #[trigger] listed_once(ns, i) by {
                    if i < ons.len() {
                        assert(listed_once(ons, i));
                        assert(ns[i].parent == ons[i].parent);
                        let q = ons[i].parent->0;
                        if q == parent {
                            assert(ns[q as int].children@.to_multiset() == pc.to_multiset().insert(id));
                        } else {
                            assert(ns[q as int] == ons[q as int]);
                        }
                    } else {
                        assert(ns[i].parent == Some(parent));
                        assert(ns[parent as int].children@.to_multiset() == pc.to_multiset().insert(id));
                    }
                }
                assert(ns[0].parent == ons[0].parent);
            }
            if old_tree.index_ok() {
                assert forall|hh: u64| #[trigger] self.path_index@.contains_key(hh) implies bucket_ok(ns, self.path_index@[hh]@, hh) by {
                    if hh == h {
                        let b = self.path_index@[hh]@;
                        if old_tree.path_index@.contains_key(h) {
                            assert(old_bucket == old_tree.path_index@[h]@);
                            assert(bucket_ok(ons, old_bucket, h));
                        } else {
                            assert(old_bucket.len() == 0);
                        }
                        assert(b == old_bucket.push(id));
                        assert forall|k: int| 0 <= k < b.len() implies (#[trigger] b[k]) < ns.len() && path_hash(ns[b[k] as int].path@) == hh by {
                            if k < old_bucket.len() {
                                assert(b[k] == old_bucket[k]);
                            }
                        }
                    } else {
                        assert(old_tree.path_index@.contains_key(hh));
                        assert(bucket_ok(ons, old_tree.path_index@[hh]@, hh));
                    }
                }
                assert forall|i: int| 0 <= i < ns.len() implies {
                    let hi = path_hash(#[trigger] ns[i].path@);
                    self.path_index@.contains_key(hi) && self.path_index@[hi]@.contains(i as usize)
                } by {
                    let hi = path_hash(ns[i].path@);
                    if i == id {
                        assert(self.path_index@[h]@.last() == id);
                    } else {
                        assert(ns[i].path == ons[i].path);
                        assert(old_tree.path_index@.contains_key(hi) && old_tree.path_index@[hi]@.contains(i as usize));
                        if hi == h {
                            assert(old_bucket == old_tree.path_index@[h]@);
                            let k = choose|k: int| 0 <= k < old_bucket.len() && old_bucket[k] == i as usize;
                            assert(self.path_index@[h]@[k] == i as usize);
                        }
                    }
                }
            }
            if old_tree.wf() && parent < ons.len() && self.nodes@[id as int].children@.len() == 0 {
                assert forall|i: int, k: int|
                    0 <= i < ns.len() && 0 <= k < ns[i].children@.len() implies i < #[trigger] ns[i].children@[k] < ns.len() by {
                    if i == parent && k == ns[i].children@.len() - 1 {
                    } else if i < ons.len() {
                        assert(ns[i].children@[k] == ons[i].children@[k]);
                    }
                }
                assert forall|i: int| 0 <= i < ns.len() implies ((#[trigger] ns[i]).parent matches Some(p) ==> p < i) by {}
                assert forall|i: int| 0 <= i < ns.len() implies (#[trigger] ns[i]).id == i by {}
            }
        }
        id
    }

    /// The node that `path` resolves to: the most recently added node with
    /// exactly that path.
    pub fn node_id_for_path(&self, path: &str) -> (r: Option<NodeId>)
        ensures
            self.index_ok() ==> r == node_for_path(self@, path@),
            self.wf() ==> r == node_for_path(self@, path@),
            r matches Some(id) ==> id < self@.len() && self@[id as int].path@ == path@,
    {
        let node_count = self.nodes.len();
        let h = compute_path_hash(path);
        let key = crate::text::owned(path);
        match self.path_index.get(&h) {
            None => {
                proof {
                    if self.index_ok() {
                        self.lemma_absent_when_no_bucket(path@);
                    }
                }
                None
            },
            Some(bucket) => {
                let mut k = bucket.len();
                while k > 0
                    invariant
                        k <= bucket@.len(),
                        bucket@ == self.path_index@[h]@,
                        self.path_index@.contains_key(h),
                        h == path_hash(path@),
                        node_count == self@.len(),
                        key@ == path@,
                        forall|j: int| k <= j < bucket@.len() ==> !(bucket@[j] < self@.len() && self@[bucket@[j] as int].path@ == path@),
                    decreases k,
                {
                    let id = bucket[k - 1];
                    if id < self.nodes.len() && self.nodes[id].path.eq(&key) {
                        proof {
                            if self.index_ok() {
                                self.lemma_found_is_last(path@, h, (k - 1) as int);
                            }
                        }
                        return Some(id);
                    }
                    k -= 1;
                }
                proof {
                    if self.index_ok() {
                        self.lemma_absent_when_bucket_misses(path@, h);
                    }
                }
                None
            },
        }
    }

    pub proof fn lemma_last_with_path_facts(ns: Seq<TreeNode>, p: Seq<char>, n: int)
        requires
            0 <= n <= ns.len(),
            n <= usize::MAX,
        ensures
            last_with_path(ns, p, n) matches Some(i) ==> 0 <= i < n && ns[i as int].path@ == p
                && forall|j: int| i < j < n ==> ns[j].path@ != p,
            last_with_path(ns, p, n) is None ==> forall|j: int| 0 <= j < n ==> ns[j].path@ != p,
        decreases n,
    {
        if n > 0 {
            Self::lemma_last_with_path_facts(ns, p, n - 1);
            if ns[n - 1].path@ != p {
                if let Some(i) = last_with_path(ns, p, n) {
                    assert forall|j: int| i < j < n implies ns[j].path@ != p by {
                        if j < n - 1 {
                        }
                    }
                }
            }
        }
    }

    proof fn lemma_absent_when_no_bucket(&self, p: Seq<char>)
        requires
            self.index_ok(),
            self@.len() <= usize::MAX,
            !self.path_index@.contains_key(path_hash(p)),
        ensures
            node_for_path(self@, p) is None,
    {
        Self::lemma_last_with_path_facts(self@, p, self@.len() as int);
        if let Some(i) = node_for_path(self@, p) {
            assert(self.nodes@[i as int].path@ == p);
        }
    }

    proof fn lemma_absent_when_bucket_misses(&self, p: Seq<char>, h: u64)
        requires
            self.index_ok(),
            self@.len() <= usize::MAX,
            h == path_hash(p),
            self.path_index@.contains_key(h),
            forall|j: int| 0 <= j < self.path_index@[h]@.len() ==> !(self.path_index@[h]@[j] < self@.len() && self@[self.path_index@[h]@[j] as int].path@ == p),
        ensures
            node_for_path(self@, p) is None,
    {
        Self::lemma_last_with_path_facts(self@, p, self@.len() as int);
        if let Some(i) = node_for_path(self@, p) {
            assert(self.nodes@[i as int].path@ == p);
            let b = self.path_index@[h]@;
            assert(b.contains(i));
            let k = choose|k: int| 0 <= k < b.len() && b[k] == i;
            assert(!(b[k] < self@.len() && self@[b[k] as int].path@ == p));
        }
    }

    proof fn lemma_found_is_last(&self, p: Seq<char>, h: u64, k: int)
        requires
            self.index_ok(),
            self@.len() <= usize::MAX,
            h == path_hash(p),
            self.path_index@.contains_key(h),
            0 <= k < self.path_index@[h]@.len(),
            self@[self.path_index@[h]@[k] as int].path@ == p,
            forall|j: int| k < j < self.path_index@[h]@.len() ==> !(self.path_index@[h]@[j] < self@.len() && self@[self.path_index@[h]@[j] as int].path@ == p),
        ensures
            node_for_path(self@, p) == Some(self.path_index@[h]@[k]),
    {
        let b = self.path_index@[h]@;
        assert(bucket_ok(self.nodes@, b, h));
        let e = b[k];
        Self::lemma_last_with_path_facts(self@, p, self@.len() as int);
        match node_for_path(self@, p) {
            Some(i) => {
                assert(b.contains(i));
                let m = choose|m: int| 0 <= m < b.len() && b[m] == i;
                if m > k {
                    assert(b[m] < self@.len());
                } else if m < k {
                    assert(b[m] < b[k]);
                }
            },
            None => {
                assert(self@[e as int].path@ == p);
            },
        }
    }
}

/// `b` keeps every node of `a` (children lists aside) and may add more.
pub open spec fn grows(a: Seq<TreeNode>, b: Seq<TreeNode>) -> bool {
    &&& a.len() <= b.len()
    &&& forall|j: int| 0 <= j < a.len() ==> same_except_children(#[trigger] b[j], a[j])
}

/// `a` is a proper ancestor of the path `b`: reached from `b` by taking
/// parents, each shorter than the path it came from.
pub open spec fn path_above(a: Seq<char>, b: Seq<char>) -> bool
    decreases b.len(),
{
    match spec_path_parent(b) {
        Some(pb) => pb.len() < b.len() && (pb == a || path_above(a, pb)),
        None => false,
    }
}

/// An ancestor path is shorter than the path below it.
pub proof fn lemma_path_above_shorter(a: Seq<char>, b: Seq<char>)
    requires
        path_above(a, b),
    ensures
        a.len() < b.len(),
    decreases b.len(),
{
    if let Some(pb) = spec_path_parent(b) {
        if pb != a {
            lemma_path_above_shorter(a, pb);
        }
    }
}

/// Every node but the root hangs under the node its path's parent resolves
/// to, or, for a path without a parent, under the node of the root's path.
pub open spec fn parented(ns: Seq<TreeNode>) -> bool {
    forall|j: int|
        0 < j < ns.len() ==> (#[trigger] ns[j]).parent == match spec_path_parent(ns[j].path@) {
            Some(pp) => node_for_path(ns, pp),
            None => node_for_path(ns, ns[0].path@),
        }
}

/// Trees with the same parents and the same children (in any order) are
/// linked alike.
pub proof fn lemma_linked_frame(a: Seq<TreeNode>, b: Seq<TreeNode>)
    requires
        linked(a),
        a.len() == b.len(),
        forall|j: int| 0 <= j < a.len() ==> (#[trigger] b[j]).parent == a[j].parent
            && b[j].children@.to_multiset() == a[j].children@.to_multiset(),
    ensures
        linked(b),
{
    assert(b[0].parent == a[0].parent);
    assert forall|i: int| 0 < i < b.len() implies #[trigger] listed_once(b, i) by {
        assert(listed_once(a, i));
        let p = a[i].parent->0;
        assert(b[p as int].children@.to_multiset() == a[p as int].children@.to_multiset());
    }
}

/// Trees with the same paths and parents are parented alike.
pub proof fn lemma_parented_frame(a: Seq<TreeNode>, b: Seq<TreeNode>)
    requires
        parented(a),
        a.len() == b.len(),
        forall|j: int| 0 <= j < a.len() ==> (#[trigger] b[j]).parent == a[j].parent && b[j].path == a[j].path,
    ensures
        parented(b),
{
    assert forall|q: Seq<char>| #[trigger] node_for_path(b, q) == node_for_path(a, q) by {
        lemma_path_lookup_frame(a, b, q, a.len() as int);
    }
    assert forall|j: int| 0 < j < b.len() implies (#[trigger] b[j]).parent == match spec_path_parent(b[j].path@) {
        Some(pp) => node_for_path(b, pp),
        None => node_for_path(b, b[0].path@),
    } by {
        assert(b[j].parent == a[j].parent && b[j].path == a[j].path);
        assert(b[0].path == a[0].path);
    }
}

/// Adding a node with a new path under the node its path's parent resolves
/// to keeps every node where `parented` wants it.
proof fn lemma_parented_push(mid: Seq<TreeNode>, fin: Seq<TreeNode>)
    requires
        linked(mid),
        parented(mid),
        mid.len() <= usize::MAX,
        fin.len() == mid.len() + 1,
        forall|j: int| 0 <= j < mid.len() ==> (#[trigger] fin[j]).parent == mid[j].parent && fin[j].path == mid[j].path,
        node_for_path(mid, fin[mid.len() as int].path@) is None,
        fin[mid.len() as int].parent == match spec_path_parent(fin[mid.len() as int].path@) {
            Some(pp) => node_for_path(fin, pp),
            None => node_for_path(fin, fin[0].path@),
        },
    ensures
        parented(fin),
{
    let path = fin[mid.len() as int].path@;
    assert forall|q: Seq<char>| #[trigger] node_for_path(mid, q) is Some implies node_for_path(fin, q) == node_for_path(mid, q) by {
        assert(q != path);
        lemma_lookup_after_push(mid, fin, q);
    }
    assert forall|j: int| 0 < j < fin.len() implies (#[trigger] fin[j]).parent == match spec_path_parent(fin[j].path@) {
        Some(pp) => node_for_path(fin, pp),
        None => node_for_path(fin, fin[0].path@),
    } by {
        if j < mid.len() {
            assert(fin[j].parent == mid[j].parent);
            assert(listed_once(mid, j));
            assert(fin[0].path == mid[0].path);
        }
    }
}

/// Ancestor chains follow parent links only: trees whose first nodes have
/// the same parents agree on the chains starting among those nodes.
pub proof fn lemma_on_chain_frame(a: Seq<TreeNode>, b: Seq<TreeNode>, c: int, j: int)
    requires
        a.len() <= b.len(),
        forall|k: int| 0 <= k < a.len() ==> (#[trigger] b[k]).parent == a[k].parent,
        c < a.len(),
    ensures
        on_chain(a, c, j) == on_chain(b, c, j),
    decreases c,
{
    if 0 <= c && c != j {
        assert(b[c].parent == a[c].parent);
        if let Some(p) = a[c].parent {
            if p < c {
                lemma_on_chain_frame(a, b, p as int, j);
            }
        }
    }
}

pub proof fn lemma_on_chain_below(ns: Seq<TreeNode>, c: int, j: int)
    requires
        on_chain(ns, c, j),
    ensures
        0 <= j <= c < ns.len(),
    decreases c,
{
    if c != j {
        if let Some(p) = ns[c].parent {
            lemma_on_chain_below(ns, p as int, j);
        }
    }
}

impl FileTree {
    /// Return the node for `path`, creating it and any missing ancestors.
    /// Missing ancestors are created as collapsed directories; a path with no
    /// parent hangs under the node of the root path.
    #[verifier::rlimit(60)]
    #[verifier::spinoff_prover]
    pub fn ensure_node(&mut self, path: String, kind: NodeType) -> (r: NodeId)
        requires
            old(self).wf(),
            old(self)@.len() + path@.len() + 1 < usize::MAX,
        ensures
            final(self).wf(),
            r < final(self)@.len(),
            node_for_path(final(self)@, path@) == Some(r),
            grows(old(self)@, final(self)@),
            final(self)@.len() <= old(self)@.len() + path@.len() + 1,
            forall|j: int| old(self)@.len() <= j < final(self)@.len() ==> (#[trigger] final(self)@[j]).path@.len() <= path@.len(),
            forall|j: int|
                old(self)@.len() <= j < final(self)@.len() && j != r ==> (#[trigger] final(self)@[j]).file_type
                    == NodeType::Directory,
            forall|j: int| old(self)@.len() <= j < final(self)@.len() ==> !(#[trigger] final(self)@[j]).expanded,
            forall|j: int|
                old(self)@.len() <= j < final(self)@.len() ==> (#[trigger] final(self)@[j]).size == 0
                    && final(self)@[j].disk_size == 0,
            node_for_path(old(self)@, path@) is None ==> match spec_path_parent(path@) {
                Some(pp) => final(self)@[r as int].parent == node_for_path(final(self)@, pp),
                None => final(self)@[r as int].parent == node_for_path(old(self)@, old(self)@[0].path@),
            },
            node_for_path(old(self)@, path@) matches Some(i) ==> r == i && final(self)@ == old(self)@,
            linked(old(self)@) ==> linked(final(self)@),
            linked(old(self)@) && parented(old(self)@) ==> parented(final(self)@),
            forall|j: int|
                old(self)@.len() <= j < final(self)@.len() && j != r ==> path_above(
                    (#[trigger] final(self)@[j]).path@,
                    path@,
                ),
            forall|q: Seq<char>|
                #[trigger] node_for_path(old(self)@, q) is Some ==> node_for_path(final(self)@, q)
                    == node_for_path(old(self)@, q),
            node_for_path(old(self)@, path@) is None ==> {
                &&& r >= old(self)@.len()
                &&& final(self)@[r as int].file_type == kind
                &&& !final(self)@[r as int].expanded
                &&& final(self)@[r as int].size == 0
                &&& final(self)@[r as int].disk_size == 0
                &&& final(self)@[r as int].children@.len() == 0
            },
            final(self).nav() == old(self).nav(),
        decreases path@.len(),
    {
        if let Some(id) = self.node_id_for_path(path.as_str()) {
            return id;
        }
        let root = self.root();
        let is_root_path = self.nodes[root].path == path;
        if is_root_path {
            proof {
                Self::lemma_last_with_path_facts(self@, path@, self@.len() as int);
                assert(self@[0].path@ == path@);
            }
            return root;
        }
        let ghost before = self@;
        let parent_id = match path_parent(path.as_str()) {
            Some(parent_path) => self.ensure_node(parent_path, NodeType::Directory),
            None => {
                let root_path = self.nodes[root].path.clone();
                match self.node_id_for_path(root_path.as_str()) {
                    Some(id) => id,
                    None => root,
                }
            },
        };
        proof {
            Self::lemma_last_with_path_facts(before, path@, before.len() as int);
            Self::lemma_last_with_path_facts(self@, path@, self@.len() as int);
            assert forall|j: int| 0 <= j < self@.len() implies self@[j].path@ != path@ by {
                if j < before.len() {
                    assert(same_except_children(self@[j], before[j]));
                } else {
                    assert(self@[j].path@.len() < path@.len());
                }
            }
        }
        let mut node = TreeNode::new(path, kind);
        node.expanded = kind == NodeType::Directory && is_root_path;
        let ghost mid = self@;
        let id = self.add_child(parent_id, node);
        proof {
            Self::lemma_last_with_path_facts(self@, path@, self@.len() as int);
            assert(self@[id as int].path@ == path@);
            assert(node_for_path(self@, path@) == Some(id));
            assert forall|j: int| old(self)@.len() <= j < self@.len() implies (#[trigger] self@[j]).path@.len() <= path@.len() by {
                if j < mid.len() {
                    assert(j != parent_id ==> self@[j] == mid[j]);
                    assert(same_except_children(self@[j], mid[j]) || self@[j] == mid[j]);
                }
            }
            assert forall|j: int| old(self)@.len() <= j < self@.len() && j != id implies (#[trigger] self@[j]).file_type
                == NodeType::Directory by {
                assert(j < mid.len());
                assert(j != parent_id ==> self@[j] == mid[j]);
                assert(same_except_children(self@[j], mid[j]) || self@[j] == mid[j]);
                assert(mid[j].file_type == NodeType::Directory);
            }
            assert forall|j: int| old(self)@.len() <= j < self@.len() implies !(#[trigger] self@[j]).expanded by {
                if j < mid.len() {
                    assert(j != parent_id ==> self@[j] == mid[j]);
                    assert(same_except_children(self@[j], mid[j]) || self@[j] == mid[j]);
                    assert(!mid[j].expanded);
                }
            }
            assert forall|j: int| old(self)@.len() <= j < self@.len() implies (#[trigger] self@[j]).size == 0
                && self@[j].disk_size == 0 by {
                if j < mid.len() {
                    assert(j != parent_id ==> self@[j] == mid[j]);
                    assert(same_except_children(self@[j], mid[j]) || self@[j] == mid[j]);
                    assert(mid[j].size == 0 && mid[j].disk_size == 0);
                }
            }
            match spec_path_parent(path@) {
                Some(pp) => {
                    assert(node_for_path(mid, pp) == Some(parent_id));
                    Self::lemma_last_with_path_facts(mid, pp, mid.len() as int);
                    assert(mid[parent_id as int].path@ == pp);
                    assert(pp != path@);
                    assert forall|j: int| 0 <= j < mid.len() implies (#[trigger] self@[j]).path == mid[j].path by {
                        if j != parent_id {
                            assert(self@[j] == mid[j]);
                        }
                    }
                    lemma_lookup_after_push(mid, self@, pp);
                },
                None => {
                    Self::lemma_last_with_path_facts(old(self)@, old(self)@[0].path@, old(self)@.len() as int);
                },
            }
            assert forall|j: int| 0 <= j < old(self)@.len() implies same_except_children(#[trigger] self@[j], old(self)@[j]) by {
                assert(same_except_children(mid[j], old(self)@[j]));
                if j != parent_id {
                    assert(self@[j] == mid[j]);
                }
            }
            assert forall|q: Seq<char>| #[trigger] node_for_path(old(self)@, q) is Some implies node_for_path(self@, q)
                == node_for_path(old(self)@, q) by {
                assert(node_for_path(mid, q) == node_for_path(old(self)@, q));
                assert(q != path@);
                assert forall|j: int| 0 <= j < mid.len() implies (#[trigger] self@[j]).path == mid[j].path by {
                    if j != parent_id {
                        assert(self@[j] == mid[j]);
                    }
                }
                lemma_lookup_after_push(mid, self@, q);
            }
            assert forall|j: int| 0 <= j < mid.len() implies (#[trigger] self@[j]).parent == mid[j].parent
                && self@[j].path == mid[j].path by {
                if j != parent_id {
                    assert(self@[j] == mid[j]);
                }
            }
            assert forall|j: int| old(self)@.len() <= j < self@.len() && j != id implies path_above(
                (#[trigger] self@[j]).path@,
                path@,
            ) by {
                assert(j < mid.len());
                if let Some(pp) = spec_path_parent(path@) {
                    if j == parent_id {
                        Self::lemma_last_with_path_facts(mid, pp, mid.len() as int);
                    }
                }
            }
            if linked(old(self)@) && parented(old(self)@) {
                Self::lemma_last_with_path_facts(old(self)@, old(self)@[0].path@, old(self)@.len() as int);
                assert(node_for_path(old(self)@, old(self)@[0].path@) is Some);
                assert(same_except_children(self@[0], old(self)@[0]));
                assert(node_for_path(self@, self@[0].path@) == node_for_path(old(self)@, old(self)@[0].path@));
                lemma_parented_push(mid, self@);
            }
        }
        id
    }
}

/// The size `add_size`/`add_disk_size` leave on node `j` when `amount` is
/// added at `start`: every node on the ancestor chain of `start` grows,
/// saturating at `u64::MAX`.
pub open spec fn chain_added(ns: Seq<TreeNode>, start: int, j: int, amount: u64, disk: bool) -> u64 {
    if on_chain(ns, start, j) {
        sat_add(metric(ns[j], disk), amount)
    } else {
        metric(ns[j], disk)
    }
}

proof fn lemma_on_chain_step(ns: Seq<TreeNode>, c: int, j: int)
    requires
        tree_shape(ns),
        0 <= c < ns.len(),
    ensures
        on_chain(ns, c, j) == (j == c || match ns[c].parent {
            Some(p) => on_chain(ns, p as int, j),
            None => false,
        }),
{
    if let Some(p) = ns[c].parent {
        if j == c && on_chain(ns, p as int, j) {
            lemma_on_chain_below(ns, p as int, j);
        }
    }
}

impl FileTree {
    pub fn set_node_metadata(&mut self, node_id: NodeId, metadata: NodeMetadata)
        ensures
            final(self)@.len() == old(self)@.len(),
            forall|j: int| 0 <= j < old(self)@.len() && j != node_id ==> final(self)@[j] == old(self)@[j],
            node_id < old(self)@.len() ==> {
                let n = final(self)@[node_id as int];
                let o = old(self)@[node_id as int];
                &&& n.modified == metadata.modified
                &&& n.permissions == metadata.permissions
                &&& n.uid == metadata.uid
                &&& n.gid == metadata.gid
                &&& n.id == o.id && n.parent == o.parent && n.children == o.children
                &&& n.path == o.path && n.name == o.name && n.file_type == o.file_type
                &&& n.size == o.size && n.disk_size == o.disk_size && n.expanded == o.expanded
            },
            old(self).wf() ==> final(self).wf(),
            final(self).nav() == old(self).nav(),
    {
        if node_id < self.nodes.len() {
            let ghost o = self.nodes@;
            self.nodes[node_id].modified = metadata.modified;
            self.nodes[node_id].permissions = metadata.permissions;
            self.nodes[node_id].uid = metadata.uid;
            self.nodes[node_id].gid = metadata.gid;
            proof {
                assert forall|j: int| 0 <= j < o.len() implies #[trigger] self.nodes@[j].path == o[j].path by {}
            }
        }
    }

    fn add_metric(&mut self, node_id: NodeId, amount: u64, disk: bool)
        requires
            old(self).wf(),
        ensures
            final(self).wf(),
            final(self)@.len() == old(self)@.len(),
            forall|j: int| 0 <= j < old(self)@.len() ==> {
                &&& same_except_sizes(#[trigger] final(self)@[j], old(self)@[j])
                &&& metric(final(self)@[j], disk) == chain_added(old(self)@, node_id as int, j, amount, disk)
                &&& metric(final(self)@[j], !disk) == metric(old(self)@[j], !disk)
            },
            final(self).nav() == old(self).nav(),
    {
        let ghost o = self.nodes@;
        let mut cur: usize = node_id;
        let mut active: bool = node_id < self.nodes.len();
        while active
            invariant
                tree_shape(o),
                self.nodes@.len() == o.len(),
                self.navigation == old(self).navigation,
                self.path_index == old(self).path_index,
                active ==> cur < o.len(),
                forall|j: int| 0 <= j < o.len() ==> {
                    &&& same_except_sizes(#[trigger] self.nodes@[j], o[j])
                    &&& metric(self.nodes@[j], !disk) == metric(o[j], !disk)
                    &&& metric(self.nodes@[j], disk) == if on_chain(o, node_id as int, j) && !(active && on_chain(o, cur as int, j)) {
                        sat_add(metric(o[j], disk), amount)
                    } else {
                        metric(o[j], disk)
                    }
                },
                active ==> forall|j: int| on_chain(o, cur as int, j) ==> on_chain(o, node_id as int, j),
                active ==> on_chain(o, node_id as int, cur as int),
            decreases cur as int + if active { 1int } else { 0int },
        {
            let ghost prev = self.nodes@;
            proof {
                lemma_on_chain_step(o, cur as int, cur as int);
            }
            if disk {
                let v = self.nodes[cur].disk_size.saturating_add(amount);
                self.nodes[cur].disk_size = v;
            } else {
                let v = self.nodes[cur].size.saturating_add(amount);
                self.nodes[cur].size = v;
            }
            let parent = self.nodes[cur].parent;
            let ghost old_cur = cur as int;
            match parent {
                Some(p) => {
                    if p < self.nodes.len() {
                        cur = p;
                    } else {
                        active = false;
                    }
                },
                None => {
                    active = false;
                },
            }
            proof {
                assert forall|j: int| 0 <= j < o.len() implies {
                    &&& same_except_sizes(#[trigger] self.nodes@[j], o[j])
                    &&& metric(self.nodes@[j], !disk) == metric(o[j], !disk)
                    &&& metric(self.nodes@[j], disk) == if on_chain(o, node_id as int, j) && !(active && on_chain(o, cur as int, j)) {
                        sat_add(metric(o[j], disk), amount)
                    } else {
                        metric(o[j], disk)
                    }
                } by {
                    lemma_on_chain_step(o, old_cur, j);
                    if j != old_cur {
                        assert(self.nodes@[j] == prev[j]);
                    } else {
                        if let Some(p) = o[old_cur].parent {
                            if on_chain(o, p as int, j) {
                                lemma_on_chain_below(o, p as int, j);
                            }
                        }
                    }
                }
                if active {
                    assert forall|j: int| on_chain(o, cur as int, j) implies on_chain(o, node_id as int, j) by {
                        lemma_on_chain_step(o, old_cur, j);
                    }
                    lemma_on_chain_step(o, old_cur, cur as int);
                }
            }
        }
        proof {
            assert forall|j: int| 0 <= j < o.len() implies #[trigger] self.nodes@[j].path == o[j].path by {
                assert(same_except_sizes(self.nodes@[j], o[j]));
            }
        }
    }

    /// Add `size` bytes to a node and to each of its ancestors, saturating.
    pub fn add_size(&mut self, node_id: NodeId, size: u64)
        requires
            old(self).wf(),
        ensures
            final(self).wf(),
            final(self)@.len() == old(self)@.len(),
            forall|j: int| 0 <= j < old(self)@.len() ==> {
                &&& same_except_sizes(#[trigger] final(self)@[j], old(self)@[j])
                &&& final(self)@[j].size == chain_added(old(self)@, node_id as int, j, size, false)
                &&& final(self)@[j].disk_size == old(self)@[j].disk_size
            },
            final(self).nav() == old(self).nav(),
    {
        self.add_metric(node_id, size, false);
    }

    /// Add `disk_size` bytes of disk usage to a node and its ancestors, saturating.
    pub fn add_disk_size(&mut self, node_id: NodeId, disk_size: u64)
        requires
            old(self).wf(),
        ensures
            final(self).wf(),
            final(self)@.len() == old(self)@.len(),
            forall|j: int| 0 <= j < old(self)@.len() ==> {
                &&& same_except_sizes(#[trigger] final(self)@[j], old(self)@[j])
                &&& final(self)@[j].disk_size == chain_added(old(self)@, node_id as int, j, disk_size, true)
                &&& final(self)@[j].size == old(self)@[j].size
            },
            final(self).nav() == old(self).nav(),
    {
        self.add_metric(node_id, disk_size, true);
    }
}

/// Sums over the listed nodes only read those nodes' sizes.
proof fn lemma_child_sum_frame(a: Seq<TreeNode>, b: Seq<TreeNode>, kids: Seq<usize>, disk: bool)
    requires
        forall|k: int| 0 <= k < kids.len() ==> metric(a[#[trigger] kids[k] as int], disk) == metric(b[kids[k] as int], disk),
    ensures
        child_sum(a, kids, disk) == child_sum(b, kids, disk),
    decreases kids.len(),
{
    if kids.len() > 0 {
        lemma_child_sum_frame(a, b, kids.drop_last(), disk);
        assert(metric(a[kids[kids.len() - 1] as int], disk) == metric(b[kids[kids.len() - 1] as int], disk));
    }
}

impl FileTree {
    /// Saturating sums of the sizes and disk sizes of a node's children, as
    /// they are now.
    fn children_sums(&self, id: NodeId) -> (r: (u64, u64))
        requires
            id < self@.len(),
            forall|k: int| 0 <= k < self@[id as int].children@.len() ==> #[trigger] self@[id as int].children@[k] < self@.len(),
        ensures
            r.0 == child_sum(self@, self@[id as int].children@, false),
            r.1 == child_sum(self@, self@[id as int].children@, true),
    {
        let mut total_size: u64 = 0;
        let mut total_disk: u64 = 0;
        let mut k: usize = 0;
        let n = self.nodes[id].children.len();
        while k < n
            invariant
                id < self@.len(),
                n == self@[id as int].children@.len(),
                k <= n,
                forall|m: int| 0 <= m < n ==> #[trigger] self@[id as int].children@[m] < self@.len(),
                total_size == child_sum(self@, self@[id as int].children@.take(k as int), false),
                total_disk == child_sum(self@, self@[id as int].children@.take(k as int), true),
            decreases n - k,
        {
            let child = self.nodes[id].children[k];
            proof {
                let kids = self@[id as int].children@;
                assert(kids.take(k as int + 1).drop_last() =~= kids.take(k as int));
                assert(kids.take(k as int + 1).last() == child);
            }
            total_size = total_size.saturating_add(self.nodes[child].size);
            total_disk = total_disk.saturating_add(self.nodes[child].disk_size);
            k += 1;
        }
        proof {
            assert(self@[id as int].children@.take(n as int) =~= self@[id as int].children@);
        }
        (total_size, total_disk)
    }

    /// Whether every node with children stores the saturating sums of its
    /// children's sizes and disk sizes (and all its children exist).
    pub fn verify_size_invariants(&self) -> (r: bool)
        ensures
            r == sizes_consistent(self@),
    {
        let len = self.nodes.len();
        let mut i: usize = 0;
        while i < len
            invariant
                len == self@.len(),
                i <= len,
                forall|j: int| 0 <= j < i ==> #[trigger] node_consistent(self@, j),
            decreases len - i,
        {
            let n = self.nodes[i].children.len();
            if n > 0 {
                let mut k: usize = 0;
                while k < n
                    invariant
                        i < len,
                        len == self@.len(),
                        n == self@[i as int].children@.len(),
                        k <= n,
                        forall|m: int| 0 <= m < k ==> #[trigger] self@[i as int].children@[m] < len,
                    decreases n - k,
                {
                    if self.nodes[i].children[k] >= len {
                        proof {
                            assert(!node_consistent(self@, i as int));
                        }
                        return false;
                    }
                    k += 1;
                }
                let (sum_size, sum_disk) = self.children_sums(i);
                if self.nodes[i].size != sum_size || self.nodes[i].disk_size != sum_disk {
                    proof {
                        assert(!node_consistent(self@, i as int));
                    }
                    return false;
                }
            }
            i += 1;
        }
        true
    }

    /// Recompute every size from the children: directories without children
    /// become empty, other leaves keep their sizes, and every node with
    /// children gets the saturating sums of its children.
    pub fn recompute_sizes(&mut self)
        requires
            old(self).wf(),
        ensures
            final(self).wf(),
            final(self)@.len() == old(self)@.len(),
            sizes_consistent(final(self)@),
            forall|j: int| 0 <= j < old(self)@.len() ==> same_except_sizes(#[trigger] final(self)@[j], old(self)@[j]),
            forall|j: int| 0 <= j < old(self)@.len() && (#[trigger] final(self)@[j]).children@.len() == 0 ==> {
                &&& final(self)@[j].size == if old(self)@[j].file_type == NodeType::Directory { 0 } else { old(self)@[j].size }
                &&& final(self)@[j].disk_size == if old(self)@[j].file_type == NodeType::Directory { 0 } else { old(self)@[j].disk_size }
            },
            recomputed_from(old(self)@, final(self)@),
            final(self).nav() == old(self).nav(),
    {
        let ghost o = self.nodes@;
        let len = self.nodes.len();
        let mut i: usize = 0;
        while i < len
            invariant
                len == o.len(),
                tree_shape(o),
                self.nodes@.len() == len,
                i <= len,
                self.navigation == old(self).navigation,
                self.path_index == old(self).path_index,
                forall|j: int| 0 <= j < len ==> same_except_sizes(#[trigger] self.nodes@[j], o[j]),
                forall|j: int| 0 <= j < len ==> {
                    let zeroed = j < i && o[j].file_type == NodeType::Directory;
                    &&& (#[trigger] self.nodes@[j]).size == if zeroed { 0 } else { o[j].size }
                    &&& self.nodes@[j].disk_size == if zeroed { 0 } else { o[j].disk_size }
                },
            decreases len - i,
        {
            if self.nodes[i].file_type == NodeType::Directory {
                self.nodes[i].size = 0;
                self.nodes[i].disk_size = 0;
            }
            i += 1;
        }
        let ghost z = self.nodes@;
        let mut id: usize = len;
        while id > 0
            invariant
                len == o.len(),
                tree_shape(o),
                self.nodes@.len() == len,
                id <= len,
                self.navigation == old(self).navigation,
                self.path_index == old(self).path_index,
                forall|j: int| 0 <= j < len ==> same_except_sizes(#[trigger] self.nodes@[j], o[j]),
                forall|j: int| 0 <= j < len && (j < id || o[j].children@.len() == 0) ==> {
                    &&& (#[trigger] self.nodes@[j]).size == z[j].size
                    &&& self.nodes@[j].disk_size == z[j].disk_size
                },
                forall|j: int| id <= j < len ==> #[trigger] node_consistent(self.nodes@, j),
                forall|j: int| 0 <= j < len ==> {
                    &&& (#[trigger] z[j]).size == if o[j].file_type == NodeType::Directory { 0 } else { o[j].size }
                    &&& z[j].disk_size == if o[j].file_type == NodeType::Directory { 0 } else { o[j].disk_size }
                },
            decreases id,
        {
            id -= 1;
            let ghost before = self.nodes@;
            proof {
                assert(same_except_sizes(before[id as int], o[id as int]));
                assert forall|k: int| 0 <= k < before[id as int].children@.len() implies #[trigger] before[id as int].children@[k] < before.len() by {
                    assert(o[id as int].children@[k] < o.len());
                }
            }
            if self.nodes[id].children.len() > 0 {
                let (total_size, total_disk) = self.children_sums(id);
                self.nodes[id].size = total_size;
                self.nodes[id].disk_size = total_disk;
                proof {
                    let after = self.nodes@;
                    let kids = o[id as int].children@;
                    assert forall|k: int| 0 <= k < kids.len() implies metric(after[#[trigger] kids[k] as int], false) == metric(before[kids[k] as int], false) by {
                        assert(kids[k] > id);
                    }
                    assert forall|k: int| 0 <= k < kids.len() implies metric(after[#[trigger] kids[k] as int], true) == metric(before[kids[k] as int], true) by {
                        assert(kids[k] > id);
                    }
                    lemma_child_sum_frame(after, before, kids, false);
                    lemma_child_sum_frame(after, before, kids, true);
                    assert(node_consistent(after, id as int));
                    assert forall|j: int| id < j < len implies #[trigger] node_consistent(after, j) by {
                        assert(node_consistent(before, j));
                        let kj = o[j].children@;
                        assert(after[j].children == before[j].children);
                        assert forall|k: int| 0 <= k < kj.len() implies metric(after[#[trigger] kj[k] as int], false) == metric(before[kj[k] as int], false) by {
                            assert(kj[k] > j);
                        }
                        assert forall|k: int| 0 <= k < kj.len() implies metric(after[#[trigger] kj[k] as int], true) == metric(before[kj[k] as int], true) by {
                            assert(kj[k] > j);
                        }
                        lemma_child_sum_frame(after, before, kj, false);
                        lemma_child_sum_frame(after, before, kj, true);
                    }
                }
            }
        }
        proof {
            assert forall|j: int| 0 <= j < o.len() implies #[trigger] self.nodes@[j].path == o[j].path by {
                assert(same_except_sizes(self.nodes@[j], o[j]));
            }
            assert forall|j: int| 0 <= j < o.len() implies #[trigger] node_consistent(self.nodes@, j) by {}
        }
    }
}

/// How long after the epoch a time lies; times before the epoch, and
/// missing times, have none.
pub open spec fn spec_duration(value: Option<Timestamp>) -> Option<i128> {
    match value {
        Some(t) => if t.nanos_since_epoch >= 0 { Some(t.nanos_since_epoch) } else { None },
        None => None,
    }
}

pub fn duration(value: Option<Timestamp>) -> (r: Option<i128>)
    ensures
        r == spec_duration(value),
{
    match value {
        Some(t) => if t.nanos_since_epoch >= 0 { Some(t.nanos_since_epoch) } else { None },
        None => None,
    }
}

/// Three-way comparison of optional values: absent sorts first.
pub open spec fn option_order(x: Option<i128>, y: Option<i128>) -> int {
    match (x, y) {
        (None, None) => 0,
        (None, Some(_)) => -1,
        (Some(_), None) => 1,
        (Some(a), Some(b)) => if a < b { -1 } else if a > b { 1 } else { 0 },
    }
}

pub open spec fn int_order(a: int, b: int) -> int {
    if a < b { -1 } else if a > b { 1 } else { 0 }
}

/// Three-way order of two entries under a sort mode: by size (descending
/// or ascending), by name, or newest first, ties broken by name.
pub open spec fn entry_order(
    mode: SortMode,
    size_a: u64, name_a: Seq<char>, time_a: Option<i128>,
    size_b: u64, name_b: Seq<char>, time_b: Option<i128>,
) -> int {
    let first = match mode {
        SortMode::SizeDesc => int_order(size_b as int, size_a as int),
        SortMode::SizeAsc => int_order(size_a as int, size_b as int),
        SortMode::Name => 0,
        SortMode::ModifiedTime => option_order(time_b, time_a),
    };
    if first != 0 { first } else { lex_order(name_a, name_b) }
}

/// The order `sort_children` puts two nodes in.
pub open spec fn node_order(a: TreeNode, b: TreeNode, mode: SortMode) -> int {
    entry_order(mode, a.size, a.name@, spec_duration(a.modified), b.size, b.name@, spec_duration(b.modified))
}

/// The children of `p` are listed in sort order.
pub open spec fn children_sorted(ns: Seq<TreeNode>, p: int, mode: SortMode) -> bool {
    let kids = ns[p].children@;
    forall|i: int, j: int| 0 <= i < j < kids.len() ==> node_order(ns[#[trigger] kids[i] as int], ns[#[trigger] kids[j] as int], mode) <= 0
}

/// What sorted children look like: under `Name` a child never comes after
/// one whose name is smaller, whatever the sizes; under `SizeDesc` sizes
/// never grow along the list (`SizeAsc`: never shrink), equal sizes in name
/// order; under `ModifiedTime` a child with a time comes before any child
/// without one, times never grow along the list, equal times in name order.
pub proof fn lemma_sorted_children_order(ns: Seq<TreeNode>, p: int, mode: SortMode, i: int, j: int)
    requires
        0 <= p < ns.len(),
        children_sorted(ns, p, mode),
        0 <= i < j < ns[p].children@.len(),
    ensures
        ({
            let a = ns[ns[p].children@[i] as int];
            let b = ns[ns[p].children@[j] as int];
            let by_name = lex_order(a.name@, b.name@) <= 0;
            match mode {
                SortMode::Name => by_name,
                SortMode::SizeDesc => a.size >= b.size && (a.size == b.size ==> by_name),
                SortMode::SizeAsc => a.size <= b.size && (a.size == b.size ==> by_name),
                SortMode::ModifiedTime => {
                    &&& (spec_duration(a.modified) is None ==> spec_duration(b.modified) is None)
                    &&& (spec_duration(a.modified) matches Some(x) ==> (spec_duration(b.modified) matches Some(y) ==> x >= y))
                    &&& (spec_duration(a.modified) == spec_duration(b.modified) ==> by_name)
                },
            }
        }),
{
    let kids = ns[p].children@;
    let a = ns[kids[i] as int];
    let b = ns[kids[j] as int];
    assert(node_order(a, b, mode) <= 0);
}

proof fn lemma_entry_order_laws(
    mode: SortMode,
    sa: u64, na: Seq<char>, ta: Option<i128>,
    sb: u64, nb: Seq<char>, tb: Option<i128>,
    sc: u64, nc: Seq<char>, tc: Option<i128>,
)
    ensures
        entry_order(mode, sa, na, ta, sb, nb, tb) == -entry_order(mode, sb, nb, tb, sa, na, ta),
        entry_order(mode, sa, na, ta, sb, nb, tb) <= 0 && entry_order(mode, sb, nb, tb, sc, nc, tc) <= 0
            ==> entry_order(mode, sa, na, ta, sc, nc, tc) <= 0,
{
    crate::order::lemma_lex_order_antisym(na, nb);
    crate::order::lemma_lex_order_antisym(nb, nc);
    crate::order::lemma_lex_order_antisym(na, nc);
    if lex_order(na, nb) <= 0 && lex_order(nb, nc) <= 0 {
        crate::order::lemma_lex_order_trans(na, nb, nc);
    }
}

/// Sort key for one child: everything `entry_order` looks at.
struct ChildKey {
    id: NodeId,
    mode: SortMode,
    size: u64,
    name: Vec<char>,
    time: Option<i128>,
}

spec fn mode_rank(m: SortMode) -> int {
    match m {
        SortMode::SizeDesc => 0,
        SortMode::SizeAsc => 1,
        SortMode::Name => 2,
        SortMode::ModifiedTime => 3,
    }
}

impl TotalPreorder for ChildKey {
    closed spec fn le(self, other: Self) -> bool {
        if self.mode == other.mode {
            entry_order(self.mode, self.size, self.name@, self.time, other.size, other.name@, other.time) <= 0
        } else {
            mode_rank(self.mode) < mode_rank(other.mode)
        }
    }

    proof fn lemma_total(a: Self, b: Self) {
        lemma_entry_order_laws(a.mode, a.size, a.name@, a.time, b.size, b.name@, b.time, b.size, b.name@, b.time);
    }

    proof fn lemma_trans(a: Self, b: Self, c: Self) {
        lemma_entry_order_laws(a.mode, a.size, a.name@, a.time, b.size, b.name@, b.time, c.size, c.name@, c.time);
    }

    fn exec_le(&self, other: &Self) -> (r: bool) {
        if self.mode != other.mode {
            return mode_index(self.mode) < mode_index(other.mode);
        }
        let first: i8 = match self.mode {
            SortMode::SizeDesc => if other.size < self.size { -1 } else if other.size > self.size { 1 } else { 0 },
            SortMode::SizeAsc => if self.size < other.size { -1 } else if self.size > other.size { 1 } else { 0 },
            SortMode::Name => 0,
            SortMode::ModifiedTime => match (other.time, self.time) {
                (None, None) => 0,
                (None, Some(_)) => -1,
                (Some(_), None) => 1,
                (Some(x), Some(y)) => if x < y { -1 } else if x > y { 1 } else { 0 },
            },
        };
        if first != 0 {
            first < 0
        } else {
            lex_order_chars(&self.name, &other.name) <= 0
        }
    }
}

fn mode_index(m: SortMode) -> (r: u8)
    ensures
        r as int == mode_rank(m),
{
    match m {
        SortMode::SizeDesc => 0,
        SortMode::SizeAsc => 1,
        SortMode::Name => 2,
        SortMode::ModifiedTime => 3,
    }
}

spec fn key_matches(k: ChildKey, ns: Seq<TreeNode>, mode: SortMode) -> bool {
    &&& k.id < ns.len()
    &&& k.mode == mode
    &&& k.size == ns[k.id as int].size
    &&& k.name@ == ns[k.id as int].name@
    &&& k.time == spec_duration(ns[k.id as int].modified)
}

spec fn key_id(k: ChildKey) -> NodeId {
    k.id
}

impl FileTree {
    /// Reorder the children of `parent` by `mode`; the children stay the same.
    pub fn sort_children(&mut self, parent: NodeId, mode: SortMode)
        requires
            old(self).wf(),
        ensures
            final(self).wf(),
            final(self)@.len() == old(self)@.len(),
            forall|j: int| 0 <= j < old(self)@.len() && j != parent ==> final(self)@[j] == old(self)@[j],
            parent >= old(self)@.len() ==> final(self)@ == old(self)@,
            parent < old(self)@.len() ==> {
                &&& same_except_children(final(self)@[parent as int], old(self)@[parent as int])
                &&& final(self)@[parent as int].children@.to_multiset() == old(self)@[parent as int].children@.to_multiset()
                &&& children_sorted(final(self)@, parent as int, mode)
            },
            final(self).nav() == old(self).nav(),
    {
        if parent >= self.nodes.len() {
            return;
        }
        let ghost o = self.nodes@;
        let n = self.nodes[parent].children.len();
        let mut keys: Vec<ChildKey> = Vec::new();
        let mut k: usize = 0;
        while k < n
            invariant
                o == self.nodes@,
                tree_shape(o),
                parent < o.len(),
                n == o[parent as int].children@.len(),
                k <= n,
                keys@.len() == k,
                forall|m: int| 0 <= m < k ==> #[trigger] keys@[m].id == o[parent as int].children@[m],
                forall|m: int| 0 <= m < k ==> key_matches(#[trigger] keys@[m], o, mode),
            decreases n - k,
        {
            let c = self.nodes[parent].children[k];
            proof {
                assert(c < o.len());
            }
            let name = crate::text::str_chars(self.nodes[c].name.as_str());
            let key = ChildKey {
                id: c,
                mode,
                size: self.nodes[c].size,
                name,
                time: duration(self.nodes[c].modified),
            };
            keys.push(key);
            k += 1;
        }
        let ghost keys0 = keys@;
        let sorted_keys = merge_sort(keys);
        let mut ids: Vec<NodeId> = Vec::new();
        let mut m: usize = 0;
        let total = sorted_keys.len();
        while m < total
            invariant
                total == sorted_keys@.len(),
                m <= total,
                ids@ == sorted_keys@.take(m as int).map_values(|q: ChildKey| key_id(q)),
            decreases total - m,
        {
            ids.push(sorted_keys[m].id);
            proof {
                assert(sorted_keys@.take(m as int + 1) =~= sorted_keys@.take(m as int).push(sorted_keys@[m as int]));
            }
            m += 1;
            proof {
                assert(ids@ =~= sorted_keys@.take(m as int).map_values(|q: ChildKey| key_id(q)));
            }
        }
        proof {
            let kids = o[parent as int].children@;
            let sk = sorted_keys@;
            assert(sk.take(total as int) =~= sk);
            assert(keys0.map_values(|q: ChildKey| key_id(q)) =~= kids);
            crate::order::lemma_map_preserves_multiset(keys0, sk, |q: ChildKey| key_id(q));
            assert forall|q: int| 0 <= q < sk.len() implies key_matches(#[trigger] sk[q], o, mode) by {
                crate::order::lemma_permutation_member(keys0, sk, q);
            }
        }
        self.nodes[parent].children = ids;
        proof {
            let ns = self.nodes@;
            let kids = o[parent as int].children@;
            let sk = sorted_keys@;
            assert(ns[parent as int].children@ == sk.map_values(|q: ChildKey| key_id(q)));
            assert forall|a: int, b: int| 0 <= a < b < ns[parent as int].children@.len() implies
                node_order(ns[#[trigger] ns[parent as int].children@[a] as int], ns[#[trigger] ns[parent as int].children@[b] as int], mode) <= 0 by {
                assert(sk[a].le(sk[b]));
                assert(key_matches(sk[a], o, mode));
                assert(key_matches(sk[b], o, mode));
                assert(ns[sk[a].id as int] == o[sk[a].id as int] || sk[a].id == parent);
            }
            assert forall|j: int| 0 <= j < o.len() implies #[trigger] ns[j].path == o[j].path by {}
            let nk = ns[parent as int].children@;
            assert forall|q: int| 0 <= q < nk.len() implies parent < #[trigger] nk[q] < ns.len() by {
                broadcast use vstd::seq_lib::group_to_multiset_ensures;
                assert(nk.contains(nk[q]));
                assert(nk.to_multiset().count(nk[q]) > 0);
                assert(kids.to_multiset().count(nk[q]) > 0);
                assert(kids.contains(nk[q]));
            }
            assert forall|i: int, q: int| 0 <= i < ns.len() && 0 <= q < ns[i].children@.len() implies
                i < #[trigger] ns[i].children@[q] < ns.len() by {
                if i != parent {
                    assert(ns[i] == o[i]);
                }
            }
        }
    }
}

/// Names starting with a dot are hidden.
pub open spec fn is_hidden_name(name: Seq<char>) -> bool {
    name.len() > 0 && name[0] == '.'
}

/// The rows listed for the subtree at `id` (shown at `depth`), in display
/// order: the node, then, if it is expanded, each child's rows in turn.
/// Hidden entries below the top level are skipped with their subtrees unless
/// `show_hidden` is set.
pub open spec fn listed_from(ns: Seq<TreeNode>, id: int, depth: int, show_hidden: bool) -> Seq<(usize, usize)>
    decreases ns.len() - id, 1int, 0int,
{
    if 0 <= id < ns.len() {
        if depth > 0 && !show_hidden && is_hidden_name(ns[id].name@) {
            seq![]
        } else {
            seq![(id as usize, depth as usize)] + if ns[id].expanded {
                listed_kids(ns, id, depth, show_hidden, ns[id].children@.len() as int)
            } else {
                seq![]
            }
        }
    } else {
        seq![]
    }
}

/// Rows of the first `k` children of `id`.
pub open spec fn listed_kids(ns: Seq<TreeNode>, id: int, depth: int, show_hidden: bool, k: int) -> Seq<(usize, usize)>
    decreases ns.len() - id, 0int, k,
{
    if k <= 0 || id < 0 || id >= ns.len() || k > ns[id].children@.len() {
        seq![]
    } else {
        let c = ns[id].children@[k - 1] as int;
        listed_kids(ns, id, depth, show_hidden, k - 1) + if id < c < ns.len() {
            listed_from(ns, c, depth + 1, show_hidden)
        } else {
            seq![]
        }
    }
}

/// Row `q` of `rows` is an expanded directory's row one level above row
/// `k`, and lists `k`'s node among its children.
pub open spec fn shown_under(ns: Seq<TreeNode>, rows: Seq<(usize, usize)>, q: int, k: int) -> bool {
    &&& rows[q].1 + 1 == rows[k].1
    &&& ns[rows[q].0 as int].expanded
    &&& ns[rows[q].0 as int].children@.contains(rows[k].0)
}

/// The rows listed for the subtree at `id` from `depth`: the first is `id`
/// itself at `depth`, every later one lies deeper and comes after the row of
/// an expanded node one level up that lists it as a child, each names a
/// node, and below the top level no hidden entry is listed unless hidden
/// entries are shown.
pub proof fn lemma_listed_rows(ns: Seq<TreeNode>, id: int, depth: int, show_hidden: bool)
    requires
        0 <= depth,
        ns.len() <= usize::MAX,
        depth + (ns.len() - id) <= usize::MAX,
    ensures
        ({
            let rows = listed_from(ns, id, depth, show_hidden);
            &&& rows.len() > 0 ==> rows[0] == (id as usize, depth as usize)
            &&& forall|k: int| #![trigger rows[k]] 0 <= k < rows.len() ==> {
                &&& rows[k].0 < ns.len()
                &&& rows[k].1 >= depth
                &&& (k > 0 ==> rows[k].1 > depth)
                &&& (rows[k].1 > 0 && !show_hidden ==> !is_hidden_name(ns[rows[k].0 as int].name@))
                &&& (k > 0 ==> exists|q: int| 0 <= q < k && #[trigger] shown_under(ns, rows, q, k))
            }
        }),
    decreases ns.len() - id, 1int, 0int,
{
    if 0 <= id < ns.len() {
        let rows = listed_from(ns, id, depth, show_hidden);
        if !(depth > 0 && !show_hidden && is_hidden_name(ns[id].name@)) {
            if ns[id].expanded {
                let kids = listed_kids(ns, id, depth, show_hidden, ns[id].children@.len() as int);
                lemma_listed_kids_rows(ns, id, depth, show_hidden, ns[id].children@.len() as int);
                assert(rows == seq![(id as usize, depth as usize)] + kids);
                assert forall|k: int| 0 < k < rows.len() implies rows[k] == kids[k - 1] by {}
                assert(rows[0] == (id as usize, depth as usize));
                assert forall|k: int| #![trigger rows[k]] 0 < k < rows.len() implies exists|q: int| 0 <= q < k && #[trigger] shown_under(ns, rows, q, k) by {
                    let m = k - 1;
                    assert(rows[k] == kids[m]);
                    if kids[m].1 == depth + 1 && ns[id].children@.contains(kids[m].0) {
                        assert(shown_under(ns, rows, 0, k));
                    } else {
                        let q = choose|q: int| 0 <= q < m && #[trigger] shown_under(ns, kids, q, m);
                        assert(rows[q + 1] == kids[q]);
                        assert(shown_under(ns, rows, q + 1, k));
                    }
                }
            } else {
                assert(rows =~= seq![(id as usize, depth as usize)]);
            }
            assert((id as usize) as int == id && (depth as usize) as int == depth);
        }
    }
}

/// The rows listed for the first `k` children of `id`: each names a node
/// deeper than `depth`, and no hidden entry is listed unless hidden entries
/// are shown.
pub proof fn lemma_listed_kids_rows(ns: Seq<TreeNode>, id: int, depth: int, show_hidden: bool, k: int)
    requires
        0 <= depth,
        0 <= id < ns.len(),
        ns.len() <= usize::MAX,
        depth + (ns.len() - id) <= usize::MAX,
    ensures
        ({
            let rows = listed_kids(ns, id, depth, show_hidden, k);
            forall|m: int| #![trigger rows[m]] 0 <= m < rows.len() ==> {
                &&& rows[m].0 < ns.len()
                &&& rows[m].1 > depth
                &&& (rows[m].1 > 0 && !show_hidden ==> !is_hidden_name(ns[rows[m].0 as int].name@))
                &&& ((rows[m].1 == depth + 1 && ns[id].children@.contains(rows[m].0)) || exists|q: int| 0 <= q < m && #[trigger] shown_under(ns, rows, q, m))
            }
        }),
    decreases ns.len() - id, 0int, k,
{
    if !(k <= 0 || k > ns[id].children@.len()) {
        let c = ns[id].children@[k - 1] as int;
        lemma_listed_kids_rows(ns, id, depth, show_hidden, k - 1);
        let front = listed_kids(ns, id, depth, show_hidden, k - 1);
        if id < c < ns.len() {
            lemma_listed_rows(ns, c, depth + 1, show_hidden);
            let back = listed_from(ns, c, depth + 1, show_hidden);
            let rows = listed_kids(ns, id, depth, show_hidden, k);
            assert(rows == front + back);
            assert forall|m: int| front.len() <= m < rows.len() implies rows[m] == back[m - front.len()] by {}
            assert forall|m: int| 0 <= m < front.len() implies rows[m] == front[m] by {}
            assert forall|m: int| #![trigger rows[m]] 0 <= m < rows.len() implies ((rows[m].1 == depth + 1 && ns[id].children@.contains(rows[m].0))
                || exists|q: int| 0 <= q < m && #[trigger] shown_under(ns, rows, q, m)) by {
                if m < front.len() {
                    if !(front[m].1 == depth + 1 && ns[id].children@.contains(front[m].0)) {
                        let q = choose|q: int| 0 <= q < m && #[trigger] shown_under(ns, front, q, m);
                        assert(shown_under(ns, rows, q, m));
                    }
                } else {
                    let b = m - front.len();
                    assert(0 <= b < back.len());
                    assert(back[b] == rows[m]);
                    if b == 0 {
                        assert(back[0] == (c as usize, (depth + 1) as usize));
                        assert(ns[id].children@[k - 1] == c as usize);
                        assert(ns[id].children@.contains(c as usize));
                    } else {
                        let q = choose|q: int| 0 <= q < b && #[trigger] shown_under(ns, back, q, b);
                        assert(rows.len() == front.len() + back.len());
                        assert(0 <= q + front.len() < rows.len());
                        assert((front + back)[q + front.len()] == back[q]);
                        assert(rows[q + front.len()] == back[q]);
                        assert(shown_under(ns, rows, q + front.len(), m));
                    }
                }
            }
        } else {
            assert(listed_kids(ns, id, depth, show_hidden, k) =~= front);
        }
    }
}

/// An expanded node's rows include, one level down, the row of each child
/// that is a proper node after it and is not hidden (or hidden entries are
/// shown).
pub proof fn lemma_listed_children(ns: Seq<TreeNode>, id: int, depth: int, show_hidden: bool, i: int)
    requires
        0 <= id < ns.len(),
        0 <= depth,
        ns.len() <= usize::MAX,
        depth + (ns.len() - id) <= usize::MAX,
        !(depth > 0 && !show_hidden && is_hidden_name(ns[id].name@)),
        ns[id].expanded,
        0 <= i < ns[id].children@.len(),
        id < ns[id].children@[i] < ns.len(),
        show_hidden || !is_hidden_name(ns[ns[id].children@[i] as int].name@),
    ensures
        listed_from(ns, id, depth, show_hidden).contains((ns[id].children@[i], (depth + 1) as usize)),
{
    let n = ns[id].children@.len() as int;
    lemma_kids_contain(ns, id, depth, show_hidden, i, n);
    let kids = listed_kids(ns, id, depth, show_hidden, n);
    let rows = listed_from(ns, id, depth, show_hidden);
    assert(rows == seq![(id as usize, depth as usize)] + kids);
    let m = choose|m: int| 0 <= m < kids.len() && kids[m] == (ns[id].children@[i], (depth + 1) as usize);
    assert(rows[m + 1] == kids[m]);
}

proof fn lemma_kids_contain(ns: Seq<TreeNode>, id: int, depth: int, show_hidden: bool, i: int, k: int)
    requires
        0 <= id < ns.len(),
        0 <= depth,
        ns.len() <= usize::MAX,
        depth + (ns.len() - id) <= usize::MAX,
        0 <= i < k <= ns[id].children@.len(),
        id < ns[id].children@[i] < ns.len(),
        show_hidden || !is_hidden_name(ns[ns[id].children@[i] as int].name@),
    ensures
        listed_kids(ns, id, depth, show_hidden, k).contains((ns[id].children@[i], (depth + 1) as usize)),
    decreases k,
{
    let c = ns[id].children@[k - 1] as int;
    let front = listed_kids(ns, id, depth, show_hidden, k - 1);
    let target = (ns[id].children@[i], (depth + 1) as usize);
    if i < k - 1 {
        lemma_kids_contain(ns, id, depth, show_hidden, i, k - 1);
        let m = choose|m: int| 0 <= m < front.len() && front[m] == target;
        if id < c < ns.len() {
            let rows = front + listed_from(ns, c, depth + 1, show_hidden);
            assert(rows[m] == front[m]);
        } else {
            assert(listed_kids(ns, id, depth, show_hidden, k) =~= front);
        }
    } else {
        lemma_listed_rows(ns, c, depth + 1, show_hidden);
        let back = listed_from(ns, c, depth + 1, show_hidden);
        assert(back.len() > 0);
        let rows = front + back;
        assert(rows[front.len() as int] == back[0]);
    }
}

pub open spec fn row_id(p: (usize, usize)) -> usize {
    p.0
}

/// Node ids in display order.
pub open spec fn listed_ids(ns: Seq<TreeNode>, show_hidden: bool) -> Seq<usize> {
    listed_from(ns, 0, 0, show_hidden).map_values(|p: (usize, usize)| row_id(p))
}

impl FileTree {
    fn collect_rows(&self, id: NodeId, depth: usize, show_hidden: bool, out: &mut Vec<(NodeId, usize)>)
        requires
            self.wf(),
            id < self@.len(),
            depth <= id,
        ensures
            final(out)@ == old(out)@ + listed_from(self@, id as int, depth as int, show_hidden),
        decreases self@.len() - id,
    {
        let ghost start = out@;
        let node = &self.nodes[id];
        if depth > 0 && !show_hidden && crate::text::starts_with_char(node.name.as_str(), '.') {
            assert(out@ =~= start + listed_from(self@, id as int, depth as int, show_hidden));
            return;
        }
        proof {
            if depth > 0 && !show_hidden {
                assert(!is_hidden_name(node.name@));
            }
        }
        out.push((id, depth));
        if node.expanded {
            let n = node.children.len();
            let mut k: usize = 0;
            while k < n
                invariant
                    self.wf(),
                    id < self@.len(),
                    depth <= id,
                    node == &self@[id as int],
                    n == self@[id as int].children@.len(),
                    k <= n,
                    out@ == start + seq![(id, depth)] + listed_kids(self@, id as int, depth as int, show_hidden, k as int),
                decreases n - k,
            {
                let c = node.children[k];
                proof {
                    assert(id < c < self@.len());
                }
                self.collect_rows(c, depth + 1, show_hidden, out);
                k += 1;
                proof {
                    assert(out@ =~= start + seq![(id, depth)] + listed_kids(self@, id as int, depth as int, show_hidden, k as int));
                }
            }
            proof {
                assert(out@ =~= start + listed_from(self@, id as int, depth as int, show_hidden));
            }
        } else {
            proof {
                assert(out@ =~= start + listed_from(self@, id as int, depth as int, show_hidden));
            }
        }
    }

    /// The (id, depth) rows in display order, hidden entries included or not.
    pub fn visible_rows(&self, show_hidden: bool) -> (r: Vec<(NodeId, usize)>)
        requires
            self.wf(),
        ensures
            r@ == listed_from(self@, 0, 0, show_hidden),
    {
        let mut out: Vec<(NodeId, usize)> = Vec::new();
        self.collect_rows(0, 0, show_hidden, &mut out);
        assert(out@ =~= listed_from(self@, 0, 0, show_hidden));
        out
    }

    /// Ids of the rows in display order, skipping hidden entries unless asked.
    pub fn visible_ids_filtered(&self, show_hidden: bool) -> (r: Vec<NodeId>)
        requires
            self.wf(),
        ensures
            r@ == listed_ids(self@, show_hidden),
    {
        let rows = self.visible_rows(show_hidden);
        let mut ids: Vec<NodeId> = Vec::new();
        let mut k: usize = 0;
        while k < rows.len()
            invariant
                k <= rows@.len(),
                ids@ == rows@.take(k as int).map_values(|p: (usize, usize)| row_id(p)),
            decreases rows@.len() - k,
        {
            ids.push(rows[k].0);
            proof {
                assert(rows@.take(k as int + 1) =~= rows@.take(k as int).push(rows@[k as int]));
            }
            k += 1;
            proof {
                assert(ids@ =~= rows@.take(k as int).map_values(|p: (usize, usize)| row_id(p)));
            }
        }
        proof {
            assert(rows@.take(k as int) =~= rows@);
        }
        ids
    }

    /// Ids of every node reachable through expanded directories, in display order.
    pub fn visible_ids(&self) -> (r: Vec<NodeId>)
        requires
            self.wf(),
        ensures
            r@ == listed_ids(self@, true),
    {
        self.visible_ids_filtered(true)
    }
}

} // verus!
