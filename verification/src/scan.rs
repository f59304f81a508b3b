//! What a filesystem scan reports, and where its entries wait until the scan
//! is complete.
use crate::tree::{NodeType, Timestamp};
use vstd::prelude::*;

verus! {

/// One scanned filesystem entry.
#[derive(Clone, Debug, PartialEq, Eq)]
pub struct ScanNode {
    pub path: String,
    pub kind: NodeType,
    pub size: u64,
    pub disk_size: u64,
    pub modified: Option<Timestamp>,
    pub permissions: Option<u32>,
    pub uid: Option<u32>,
    pub gid: Option<u32>,
}

impl ScanNode {
    /// A field-by-field copy.
    pub fn duplicate(&self) -> (r: ScanNode)
        ensures
            r == *self,
    {
        ScanNode {
            path: self.path.clone(),
            kind: self.kind,
            size: self.size,
            disk_size: self.disk_size,
            modified: self.modified,
            permissions: self.permissions,
            uid: self.uid,
            gid: self.gid,
        }
    }
}

/// Entries seen and errors met so far.
#[derive(Clone, Copy, Debug, PartialEq, Eq, Structural)]
pub struct ScanProgress {
    pub scanned: u64,
    pub errors: u64,
}

/// What the scanner is doing, for the activity panel.
#[derive(Clone, Debug, PartialEq, Eq)]
pub struct ScanActivity {
    pub current_path: Option<String>,
    pub queued_directories: u64,
    pub permission_denied: u64,
    pub skipped_mounts: u64,
    pub skipped_symlinks: u64,
    pub files_processed: u64,
}

/// No activity yet: no current path and every counter zero.
pub open spec fn idle_activity(a: ScanActivity) -> bool {
    &&& a.current_path is None
    &&& a.queued_directories == 0
    &&& a.permission_denied == 0
    &&& a.skipped_mounts == 0
    &&& a.skipped_symlinks == 0
    &&& a.files_processed == 0
}

impl Default for ScanActivity {
    fn default() -> (r: Self)
        ensures
            idle_activity(r),
    {
        ScanActivity {
            current_path: None,
            queued_directories: 0,
            permission_denied: 0,
            skipped_mounts: 0,
            skipped_symlinks: 0,
            files_processed: 0,
        }
    }
}

impl ScanActivity {
    /// A field-by-field copy.
    pub fn duplicate(&self) -> (r: ScanActivity)
        ensures
            r == *self,
    {
        let current_path = match &self.current_path {
            Some(p) => Some(p.clone()),
            None => None,
        };
        ScanActivity {
            current_path,
            queued_directories: self.queued_directories,
            permission_denied: self.permission_denied,
            skipped_mounts: self.skipped_mounts,
            skipped_symlinks: self.skipped_symlinks,
            files_processed: self.files_processed,
        }
    }
}

/// A group of scanned entries, sent together.
#[derive(Clone, Debug, PartialEq, Eq)]
pub struct ScanBatch {
    pub nodes: Vec<ScanNode>,
    pub progress: Option<ScanProgress>,
    pub activity: Option<ScanActivity>,
}

/// An entry the scanner could not read.
#[derive(Clone, Debug, PartialEq, Eq)]
pub struct ScanError {
    pub path: String,
    pub message: String,
}

/// What the scanner reports.
#[derive(Clone, Debug, PartialEq, Eq)]
pub enum ScanEvent {
    Node(ScanNode),
    Progress(ScanProgress),
    Activity(ScanActivity),
    Error(ScanError),
    Completed,
    Batch(ScanBatch),
}

/// How the scanner walks the filesystem.
#[derive(Clone, Copy, Debug, PartialEq, Eq, Structural)]
pub struct ScanOptions {
    pub follow_symlinks: bool,
    pub count_hard_links_once: bool,
    pub same_file_system: bool,
    pub skip_caches: bool,
    pub skip_kernfs: bool,
    pub collect_metadata: bool,
}

/// Requests to the scan manager.
#[derive(Clone, Copy, Debug, PartialEq, Eq, Structural)]
pub enum ScanTrigger {
    /// Start or restart the configured scan.
    Start,
    /// Pause the running scanner (if any) without canceling.
    Pause,
    /// Resume a paused scanner.
    Resume,
    /// Stop the running scanner and abandon the current run.
    Stop,
    /// Cancel any running scan and signal termination.
    Cancel,
}

/// Scanned entries waiting for the scan to complete, in arrival order.
#[derive(Debug)]
pub struct ScanAccumulator {
    nodes: Vec<ScanNode>,
}

impl View for ScanAccumulator {
    type V = Seq<ScanNode>;

    closed spec fn view(&self) -> Seq<ScanNode> {
        self.nodes@
    }
}

impl Default for ScanAccumulator {
    fn default() -> (r: Self)
        ensures
            r@ == Seq::<ScanNode>::empty(),
    {
        ScanAccumulator { nodes: Vec::new() }
    }
}

impl ScanAccumulator {
    /// Appends the entries of a batch, in order.
    pub fn push_batch(&mut self, nodes: Vec<ScanNode>)
        ensures
            final(self)@ == old(self)@ + nodes@,
    {
        let mut nodes = nodes;
        self.nodes.append(&mut nodes);
    }

    /// Appends one entry.
    pub fn push_node(&mut self, node: ScanNode)
        ensures
            final(self)@ == old(self)@.push(node),
    {
        self.nodes.push(node);
    }

    /// Hands out every waiting entry, in arrival order, and forgets them.
    pub fn drain(&mut self) -> (r: Vec<ScanNode>)
        ensures
            r@ == old(self)@,
            final(self)@ == Seq::<ScanNode>::empty(),
    {
        let mut taken: Vec<ScanNode> = Vec::new();
        std::mem::swap(&mut taken, &mut self.nodes);
        taken
    }
}

} // verus!
