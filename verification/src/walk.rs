//! The scanner's decisions. The filesystem walk itself (reading directories
//! and metadata) is done by the caller, which hands each entry to
//! [`ScanWalker::step`] and sends the events it gets back; the walker decides
//! which entries are reported, what size they count for, when entries are
//! sent in a batch, and how the activity counters move.
use crate::glob::{build_excludes, parsed_patterns, spec_globs_match, string_views, ExcludeSet};
use crate::metadata::{spec_disk_usage, disk_usage_bytes, DeviceId, HardLinkKey};
use crate::paths::{has_component, path_has_component};
use crate::scan::{ScanActivity, ScanBatch, ScanError, ScanEvent, ScanNode, ScanOptions, ScanProgress};
use crate::tree::{NodeType, Timestamp};
use std::collections::HashSet;
use vstd::prelude::*;

verus! {

broadcast use vstd::std_specs::hash::group_hash_axioms;

/// How many entries are gathered before they are sent together.
pub const SCAN_BATCH_SIZE: usize = 512;

/// What the platform reports about an entry.
#[derive(Clone, Copy, Debug, PartialEq, Eq, Structural)]
pub struct EntryMetadata {
    /// Apparent size in bytes.
    pub len: u64,
    /// Allocated 512-byte blocks, where the platform reports them.
    pub blocks: Option<u64>,
    /// The device the entry lives on, where the platform reports it.
    pub device: Option<u64>,
    /// The entry's index (inode) on its device, where the platform reports it.
    pub inode: Option<u64>,
    pub modified: Option<Timestamp>,
    pub permissions: Option<u32>,
    pub uid: Option<u32>,
    pub gid: Option<u32>,
}

/// Why an entry's metadata could not be read.
#[derive(Clone, Debug, PartialEq, Eq)]
pub struct MetadataFailure {
    pub permission_denied: bool,
    pub message: String,
}

/// One entry met by the walk.
#[derive(Debug)]
pub struct WalkEntry {
    pub path: String,
    /// Distance from the root (the root itself is at depth 0).
    pub depth: usize,
    pub is_dir: bool,
    pub is_symlink: bool,
    pub is_file: bool,
    pub metadata: Result<EntryMetadata, MetadataFailure>,
}

/// What the walk yields next: an entry, or a failure to read one.
#[derive(Debug)]
pub enum WalkItem {
    Entry(WalkEntry),
    Failure { path: Option<String>, message: String },
}

/// What the caller does after a step: send the events in order, skip the
/// rest of the directory just entered if asked, and stop walking if asked.
#[derive(Debug)]
pub struct StepOutcome {
    pub events: Vec<ScanEvent>,
    pub skip_current_dir: bool,
    pub stop: bool,
}

/// The scanner's state between entries.
#[derive(Debug)]
pub struct ScanWalker {
    pub options: ScanOptions,
    pub root: String,
    /// The root's device, kept only when entries on other devices are to be
    /// skipped here (rather than by the walk itself).
    pub root_device: Option<u64>,
    pub excludes: Option<ExcludeSet>,
    pub scanned: u64,
    pub errors: u64,
    /// Codes of the hard-link keys of the files counted so far.
    pub seen_links: HashSet<u128>,
    pub activity: ScanActivity,
    /// Depths of the directories on the path to the current entry.
    pub dir_stack: Vec<usize>,
    /// Entries waiting to be sent.
    pub batch: Vec<ScanNode>,
}

/// Whether the walk itself keeps to the root's filesystem: asked for, on a
/// platform where the scanner cannot compare devices itself.
pub open spec fn spec_walk_same_file_system(options: ScanOptions, unix: bool) -> bool {
    options.same_file_system && !unix
}

pub fn walk_same_file_system(options: ScanOptions, unix: bool) -> (r: bool)
    ensures
        r == spec_walk_same_file_system(options, unix),
{
    options.same_file_system && !unix
}

/// The directory stack after leaving every directory at `depth` or deeper.
pub open spec fn unwind_stack(stack: Seq<usize>, depth: usize) -> Seq<usize>
    decreases stack.len(),
{
    if stack.len() > 0 && stack.last() >= depth {
        unwind_stack(stack.drop_last(), depth)
    } else {
        stack
    }
}

/// The directory stack once an entry at `depth` is reached (and entered, if
/// it is a directory).
pub open spec fn next_stack(stack: Seq<usize>, depth: usize, is_dir: bool) -> Seq<usize> {
    let s = unwind_stack(stack, depth);
    if is_dir {
        s.push(depth)
    } else {
        s
    }
}

/// Directories still open below the root.
pub open spec fn queued_count(stack_len: nat) -> u64 {
    if stack_len == 0 {
        0
    } else {
        (stack_len - 1) as u64
    }
}

/// The kind recorded for an entry.
pub open spec fn entry_kind(e: WalkEntry) -> NodeType {
    if e.is_dir {
        NodeType::Directory
    } else if e.is_symlink {
        NodeType::Symlink
    } else {
        NodeType::File
    }
}

/// The code of an entry's hard-link key (device and index, see
/// [`HardLinkKey::code`]), where the platform reports both parts.
pub open spec fn link_code_of(md: EntryMetadata) -> Option<int> {
    match (md.device, md.inode) {
        (Some(d), Some(i)) => Some(d * crate::metadata::index_range() + i),
        _ => None,
    }
}

/// The size a saturating increment gives.
pub open spec fn bump(n: u64) -> u64 {
    if n == u64::MAX {
        n
    } else {
        (n + 1) as u64
    }
}

/// A batch event carrying exactly these entries, counts and activity.
pub open spec fn is_batch_event(
    e: ScanEvent,
    nodes: Seq<ScanNode>,
    scanned: u64,
    errors: u64,
    activity: ScanActivity,
) -> bool {
    &&& e matches ScanEvent::Batch(b)
    &&& b.nodes@ == nodes
    &&& b.progress == Some(ScanProgress { scanned, errors })
    &&& b.activity == Some(activity)
}

/// Events that send the waiting entries, if there are any, followed by
/// `tail`.
pub open spec fn flush_then(
    events: Seq<ScanEvent>,
    pending: Seq<ScanNode>,
    scanned: u64,
    errors: u64,
    activity: ScanActivity,
    tail: Seq<ScanEvent>,
) -> bool {
    if pending.len() == 0 {
        events == tail
    } else {
        &&& events.len() == tail.len() + 1
        &&& is_batch_event(events[0], pending, scanned, errors, activity)
        &&& events.drop_first() == tail
    }
}

impl ScanWalker {
    /// Whether the walker's state is consistent: counters that only grow
    /// with scanned entries stay below the scanned count.
    pub open spec fn wf(&self) -> bool {
        &&& self.activity.skipped_mounts <= self.scanned
        &&& self.activity.queued_directories == queued_count(self.dir_stack@.len())
        &&& self.batch@.len() < SCAN_BATCH_SIZE
    }

    /// Whether the exclusion patterns leave the path out.
    pub open spec fn excluded(&self, path: Seq<char>) -> bool {
        match self.excludes {
            Some(s) => spec_globs_match(s.patterns(), path),
            None => false,
        }
    }

    /// Whether the entry is left out without being reported: excluded, or a
    /// cache or kernfs path that the options skip.
    pub open spec fn filtered(&self, path: Seq<char>) -> bool {
        ||| self.excluded(path)
        ||| (self.options.skip_caches && has_component(path, "cache"@))
        ||| (self.options.skip_kernfs && has_component(path, "kernfs"@))
    }

    /// Whether the entry lies on another device than the root, when devices
    /// are compared here.
    pub open spec fn other_device(&self, md: EntryMetadata) -> bool {
        match (self.root_device, md.device) {
            (Some(r), Some(d)) => d != r,
            _ => false,
        }
    }

    /// Whether the entry is a further link to a file already counted.
    pub open spec fn repeated_link(&self, e: WalkEntry, md: EntryMetadata) -> bool {
        &&& self.options.count_hard_links_once
        &&& e.is_file
        &&& link_code_of(md) matches Some(c)
        &&& self.seen_links@.contains(c as u128)
    }

    /// The node reported for an entry.
    pub open spec fn node_for(&self, e: WalkEntry, md: EntryMetadata) -> ScanNode {
        let repeated = self.repeated_link(e, md);
        let collect = self.options.collect_metadata;
        ScanNode {
            path: e.path,
            kind: entry_kind(e),
            size: if repeated { 0 } else { md.len },
            disk_size: if repeated { 0 } else { spec_disk_usage(md.len, md.blocks) },
            modified: if collect { md.modified } else { None },
            permissions: if collect { md.permissions } else { None },
            uid: if collect { md.uid } else { None },
            gid: if collect { md.gid } else { None },
        }
    }
}

/// Every counter of the activity other than the current path, the queue and
/// the ones named, unchanged.
pub open spec fn same_counters(a: ScanActivity, b: ScanActivity) -> bool {
    &&& a.permission_denied == b.permission_denied
    &&& a.skipped_mounts == b.skipped_mounts
    &&& a.skipped_symlinks == b.skipped_symlinks
    &&& a.files_processed == b.files_processed
}

/// What reaching an entry does in every case: it is counted, becomes the
/// current path, and the directory stack follows it.
pub open spec fn entered(old: ScanWalker, e: WalkEntry, new: ScanWalker) -> bool {
    &&& new.scanned == old.scanned + 1
    &&& new.activity.current_path == Some(e.path)
    &&& new.dir_stack@ == next_stack(old.dir_stack@, e.depth, e.is_dir)
}

/// The walker's settings, which no step changes.
pub open spec fn same_settings(old: ScanWalker, new: ScanWalker) -> bool {
    &&& new.options == old.options
    &&& new.root == old.root
    &&& new.root_device == old.root_device
    &&& new.excludes == old.excludes
}

/// The effect of one entry.
pub open spec fn entry_applied(old: ScanWalker, e: WalkEntry, new: ScanWalker, out: StepOutcome) -> bool {
    &&& entered(old, e, new)
    &&& if old.filtered(e.path@) {
        // Left out: nothing reported, nothing else changes.
        &&& out.events@.len() == 0
        &&& !out.skip_current_dir
        &&& new.errors == old.errors
        &&& new.seen_links@ == old.seen_links@
        &&& new.batch@ == old.batch@
        &&& same_counters(new.activity, old.activity)
    } else {
        match e.metadata {
            Ok(md) => if old.other_device(md) {
                // On another filesystem: counted as a skipped mount, its
                // contents skipped, the activity reported.
                &&& new.activity.skipped_mounts == old.activity.skipped_mounts + 1
                &&& new.activity.permission_denied == old.activity.permission_denied
                &&& new.activity.skipped_symlinks == old.activity.skipped_symlinks
                &&& new.activity.files_processed == old.activity.files_processed
                &&& out.events@ == seq![ScanEvent::Activity(new.activity)]
                &&& out.skip_current_dir == e.is_dir
                &&& new.errors == old.errors
                &&& new.seen_links@ == old.seen_links@
                &&& new.batch@ == old.batch@
            } else {
                let node = old.node_for(e, md);
                let all = old.batch@.push(node);
                &&& !out.skip_current_dir
                &&& new.errors == old.errors
                &&& new.seen_links@ == (if old.options.count_hard_links_once && e.is_file
                    && link_code_of(md) is Some {
                    old.seen_links@.insert(link_code_of(md)->0 as u128)
                } else {
                    old.seen_links@
                })
                &&& new.activity.files_processed == (if entry_kind(e) == NodeType::File {
                    bump(old.activity.files_processed)
                } else {
                    old.activity.files_processed
                })
                &&& new.activity.skipped_symlinks == (if entry_kind(e) == NodeType::Symlink
                    && !old.options.follow_symlinks {
                    bump(old.activity.skipped_symlinks)
                } else {
                    old.activity.skipped_symlinks
                })
                &&& new.activity.permission_denied == old.activity.permission_denied
                &&& new.activity.skipped_mounts == old.activity.skipped_mounts
                &&& if all.len() >= SCAN_BATCH_SIZE {
                    &&& out.events@.len() == 1
                    &&& is_batch_event(out.events@[0], all, new.scanned, new.errors, new.activity)
                    &&& new.batch@.len() == 0
                } else {
                    &&& out.events@.len() == 0
                    &&& new.batch@ == all
                }
            },
            Err(f) => {
                // Unreadable: an error, after the waiting entries.
                &&& !out.skip_current_dir
                &&& new.errors == old.errors + 1
                &&& new.seen_links@ == old.seen_links@
                &&& new.activity.permission_denied == (if f.permission_denied {
                    bump(old.activity.permission_denied)
                } else {
                    old.activity.permission_denied
                })
                &&& new.activity.skipped_mounts == old.activity.skipped_mounts
                &&& new.activity.skipped_symlinks == old.activity.skipped_symlinks
                &&& new.activity.files_processed == old.activity.files_processed
                &&& flush_then(
                    out.events@,
                    old.batch@,
                    new.scanned,
                    new.errors,
                    new.activity,
                    seq![ScanEvent::Error(ScanError { path: e.path, message: f.message })],
                )
                &&& new.batch@.len() == 0
            },
        }
    }
}

/// The effect of a failure of the walk itself.
pub open spec fn failure_applied(
    old: ScanWalker,
    path: Option<String>,
    message: String,
    new: ScanWalker,
    out: StepOutcome,
) -> bool {
    let at = match path {
        Some(p) => p,
        None => old.root,
    };
    &&& new.activity.current_path == Some(at)
    &&& new.scanned == old.scanned
    &&& new.errors == old.errors + 1
    &&& new.dir_stack@ == old.dir_stack@
    &&& new.seen_links@ == old.seen_links@
    &&& same_counters(new.activity, old.activity)
    &&& !out.skip_current_dir
    &&& flush_then(
        out.events@,
        old.batch@,
        new.scanned,
        new.errors,
        new.activity,
        seq![ScanEvent::Error(ScanError { path: at, message })],
    )
    &&& new.batch@.len() == 0
}

/// Leaves every directory on the stack at `depth` or deeper.
fn unwind(stack: &mut Vec<usize>, depth: usize)
    ensures
        final(stack)@ == unwind_stack(old(stack)@, depth),
{
    loop
        invariant
            unwind_stack(stack@, depth) == unwind_stack(old(stack)@, depth),
        ensures
            stack@ == unwind_stack(old(stack)@, depth),
        decreases stack@.len(),
    {
        let n = stack.len();
        if n > 0 && stack[n - 1] >= depth {
            stack.pop();
        } else {
            break;
        }
    }
}

impl ScanWalker {
    /// A walker at the start of a scan of `root`. Devices are compared here
    /// only on Unix, where the root's device is known; elsewhere the walk
    /// itself keeps to one filesystem (see [`walk_same_file_system`]).
    pub fn new(
        root: String,
        options: ScanOptions,
        exclude_patterns: &Vec<String>,
        unix: bool,
        root_device: Option<u64>,
    ) -> (w: Self)
        ensures
            w.wf(),
            w.options == options,
            w.root == root,
            w.root_device == (if options.same_file_system && unix { root_device } else { None }),
            exclude_patterns@.len() == 0 ==> w.excludes is None,
            exclude_patterns@.len() > 0 ==> (w.excludes is Some <==> crate::glob::spec_glob_set_builds(
                parsed_patterns(string_views(exclude_patterns@)),
            )),
            w.excludes matches Some(s) ==> s.patterns() == parsed_patterns(
                string_views(exclude_patterns@),
            ),
            w.scanned == 0,
            w.errors == 0,
            w.seen_links@ == Set::<u128>::empty(),
            crate::scan::idle_activity(w.activity),
            w.dir_stack@.len() == 0,
            w.batch@.len() == 0,
    {
        let root_device = if options.same_file_system && unix {
            root_device
        } else {
            None
        };
        ScanWalker {
            options,
            root,
            root_device,
            excludes: build_excludes(exclude_patterns),
            scanned: 0,
            errors: 0,
            seen_links: HashSet::new(),
            activity: ScanActivity::default(),
            dir_stack: Vec::new(),
            batch: Vec::new(),
        }
    }

    /// Sends the waiting entries, if any, with the current counts and
    /// activity.
    fn flush(&mut self) -> (events: Vec<ScanEvent>)
        ensures
            flush_then(
                events@,
                old(self).batch@,
                old(self).scanned,
                old(self).errors,
                old(self).activity,
                Seq::empty(),
            ),
            final(self).batch@.len() == 0,
            final(self).options == old(self).options,
            final(self).root == old(self).root,
            final(self).root_device == old(self).root_device,
            final(self).excludes == old(self).excludes,
            final(self).scanned == old(self).scanned,
            final(self).errors == old(self).errors,
            final(self).seen_links == old(self).seen_links,
            final(self).activity == old(self).activity,
            final(self).dir_stack == old(self).dir_stack,
    {
        let mut events: Vec<ScanEvent> = Vec::new();
        if self.batch.len() == 0 {
            return events;
        }
        let mut nodes: Vec<ScanNode> = Vec::new();
        std::mem::swap(&mut nodes, &mut self.batch);
        let batch = ScanBatch {
            nodes,
            progress: Some(ScanProgress { scanned: self.scanned, errors: self.errors }),
            activity: Some(self.activity.duplicate()),
        };
        events.push(ScanEvent::Batch(batch));
        assert(events@.drop_first() =~= Seq::<ScanEvent>::empty());
        events
    }

    /// Whether the entry's device differs from the root's, when devices are
    /// compared here.
    fn on_other_device(&self, md: &EntryMetadata) -> (r: bool)
        ensures
            r == self.other_device(*md),
    {
        match (self.root_device, md.device) {
            (Some(r), Some(d)) => d != r,
            _ => false,
        }
    }

    /// Whether the path is left out without being reported.
    fn is_filtered(&self, path: &str) -> (r: bool)
        ensures
            r == self.filtered(path@),
    {
        let excluded = match &self.excludes {
            Some(set) => set.is_match(path),
            None => false,
        };
        excluded || (self.options.skip_caches && path_has_component(path, "cache"))
            || (self.options.skip_kernfs && path_has_component(path, "kernfs"))
    }
}

impl ScanWalker {
    /// Handles what the walk yielded next. When the scan has been cancelled
    /// the walker reports completion and asks the caller to stop, changing
    /// nothing.
    #[verifier::rlimit(50)]
    pub fn step(&mut self, cancelled: bool, item: WalkItem) -> (out: StepOutcome)
        requires
            old(self).wf(),
            old(self).scanned < u64::MAX,
            old(self).errors < u64::MAX,
        ensures
            final(self).wf(),
            same_settings(*old(self), *final(self)),
            cancelled ==> {
                &&& out.stop
                &&& !out.skip_current_dir
                &&& out.events@ == seq![ScanEvent::Completed]
                &&& *final(self) == *old(self)
            },
            !cancelled ==> !out.stop && match item {
                WalkItem::Entry(e) => entry_applied(*old(self), e, *final(self), out),
                WalkItem::Failure { path, message } => failure_applied(
                    *old(self),
                    path,
                    message,
                    *final(self),
                    out,
                ),
            },
    {
        if cancelled {
            return StepOutcome { events: vec![ScanEvent::Completed], skip_current_dir: false, stop: true };
        }
        match item {
            WalkItem::Entry(entry) => self.step_entry(entry),
            WalkItem::Failure { path, message } => {
                let at = match path {
                    Some(p) => p,
                    None => self.root.clone(),
                };
                self.activity.current_path = Some(at.clone());
                self.errors = self.errors + 1;
                let mut events = self.flush();
                events.push(ScanEvent::Error(ScanError { path: at, message }));
                proof {
                    if old(self).batch@.len() > 0 {
                        assert(events@.drop_first() =~= seq![ScanEvent::Error(ScanError { path: at, message })]);
                    } else {
                        assert(events@ =~= seq![ScanEvent::Error(ScanError { path: at, message })]);
                    }
                }
                StepOutcome { events, skip_current_dir: false, stop: false }
            },
        }
    }

    #[verifier::rlimit(50)]
    fn step_entry(&mut self, entry: WalkEntry) -> (out: StepOutcome)
        requires
            old(self).wf(),
            old(self).scanned < u64::MAX,
            old(self).errors < u64::MAX,
        ensures
            final(self).wf(),
            same_settings(*old(self), *final(self)),
            !out.stop,
            entry_applied(*old(self), entry, *final(self), out),
    {
        let ghost e = entry;
        let WalkEntry { path, depth, is_dir, is_symlink, is_file, metadata } = entry;
        self.activity.current_path = Some(path.clone());
        self.scanned = self.scanned + 1;
        unwind(&mut self.dir_stack, depth);
        if is_dir {
            self.dir_stack.push(depth);
        }
        let open: usize = self.dir_stack.len();
        self.activity.queued_directories = open.saturating_sub(1) as u64;
        if self.is_filtered(path.as_str()) {
            return StepOutcome { events: Vec::new(), skip_current_dir: false, stop: false };
        }
        match metadata {
            Ok(md) => {
                if self.on_other_device(&md) {
                    self.activity.skipped_mounts = self.activity.skipped_mounts + 1;
                    let mut events: Vec<ScanEvent> = Vec::new();
                    events.push(ScanEvent::Activity(self.activity.duplicate()));
                    assert(events@ =~= seq![ScanEvent::Activity(self.activity)]);
                    return StepOutcome { events, skip_current_dir: is_dir, stop: false };
                }
                let ghost repeated = old(self).repeated_link(e, md);
                let mut size = md.len;
                let mut disk_size = disk_usage_bytes(md.len, md.blocks);
                if self.options.count_hard_links_once && is_file {
                    match (md.device, md.inode) {
                        (Some(d), Some(i)) => {
                            let key = HardLinkKey::new(DeviceId(d), i);
                            let code = key.code();
                            assert(code == link_code_of(md)->0);
                            let fresh = self.seen_links.insert(code);
                            if !fresh {
                                size = 0;
                                disk_size = 0;
                            }
                        },
                        _ => {},
                    }
                }
                let collect = self.options.collect_metadata;
                let kind = if is_dir {
                    NodeType::Directory
                } else if is_symlink {
                    NodeType::Symlink
                } else {
                    NodeType::File
                };
                match kind {
                    NodeType::File => {
                        self.activity.files_processed = self.activity.files_processed.saturating_add(1);
                    },
                    NodeType::Symlink => {
                        if !self.options.follow_symlinks {
                            self.activity.skipped_symlinks = self.activity.skipped_symlinks.saturating_add(1);
                        }
                    },
                    _ => {},
                }
                let node = ScanNode {
                    path,
                    kind,
                    size,
                    disk_size,
                    modified: if collect { md.modified } else { None },
                    permissions: if collect { md.permissions } else { None },
                    uid: if collect { md.uid } else { None },
                    gid: if collect { md.gid } else { None },
                };
                assert(node == old(self).node_for(e, md));
                self.batch.push(node);
                let mut events: Vec<ScanEvent> = Vec::new();
                if self.batch.len() >= SCAN_BATCH_SIZE {
                    events = self.flush();
                }
                StepOutcome { events, skip_current_dir: false, stop: false }
            },
            Err(failure) => {
                if failure.permission_denied {
                    self.activity.permission_denied = self.activity.permission_denied.saturating_add(1);
                }
                self.errors = self.errors + 1;
                let mut events = self.flush();
                let ghost last = ScanEvent::Error(ScanError { path: e.path, message: failure.message });
                events.push(ScanEvent::Error(ScanError { path, message: failure.message }));
                proof {
                    if old(self).batch@.len() > 0 {
                        assert(events@.drop_first() =~= seq![last]);
                    } else {
                        assert(events@ =~= seq![last]);
                    }
                }
                StepOutcome { events, skip_current_dir: false, stop: false }
            },
        }
    }

    /// Ends the scan: sends the waiting entries, clears the current path,
    /// reports the final activity and completion.
    pub fn finish(&mut self) -> (events: Vec<ScanEvent>)
        requires
            old(self).wf(),
        ensures
            final(self).wf(),
            same_settings(*old(self), *final(self)),
            final(self).batch@.len() == 0,
            final(self).activity.current_path is None,
            final(self).activity.queued_directories == old(self).activity.queued_directories,
            same_counters(final(self).activity, old(self).activity),
            final(self).scanned == old(self).scanned,
            final(self).errors == old(self).errors,
            final(self).dir_stack@ == old(self).dir_stack@,
            final(self).seen_links@ == old(self).seen_links@,
            flush_then(
                events@,
                old(self).batch@,
                old(self).scanned,
                old(self).errors,
                old(self).activity,
                seq![ScanEvent::Activity(final(self).activity), ScanEvent::Completed],
            ),
    {
        let mut events = self.flush();
        self.activity.current_path = None;
        events.push(ScanEvent::Activity(self.activity.duplicate()));
        events.push(ScanEvent::Completed);
        let ghost tail = seq![ScanEvent::Activity(self.activity), ScanEvent::Completed];
        proof {
            if old(self).batch@.len() > 0 {
                assert(events@.drop_first() =~= tail);
            } else {
                assert(events@ =~= tail);
            }
        }
        events
    }
}

/// The sum of a sequence of byte counts.
pub open spec fn bytes_total(sizes: Seq<u64>) -> int
    decreases sizes.len(),
{
    if sizes.len() == 0 {
        0
    } else {
        bytes_total(sizes.drop_last()) + sizes.last()
    }
}

/// The total of the sizes of the files found under a path, as `du` counts
/// apparent sizes: their sum, or `None` when it does not fit in a `u64`.
pub fn total_size(sizes: &Vec<u64>) -> (r: Option<u64>)
    ensures
        r == (if bytes_total(sizes@) <= u64::MAX { Some(bytes_total(sizes@) as u64) } else { None::<u64> }),
{
    let mut total: u64 = 0;
    let mut i: usize = 0;
    while i < sizes.len()
        invariant
            i <= sizes@.len(),
            total == bytes_total(sizes@.take(i as int)),
        decreases sizes@.len() - i,
    {
        proof {
            assert(sizes@.take(i as int + 1).drop_last() =~= sizes@.take(i as int));
        }
        match total.checked_add(sizes[i]) {
            Some(t) => total = t,
            None => {
                proof {
                    lemma_bytes_total_prefix(sizes@, i as int + 1);
                }
                return None;
            },
        }
        i += 1;
    }
    proof {
        assert(sizes@.take(i as int) =~= sizes@);
    }
    Some(total)
}

/// A prefix never sums to more than the whole.
proof fn lemma_bytes_total_prefix(s: Seq<u64>, n: int)
    requires
        0 <= n <= s.len(),
    ensures
        bytes_total(s.take(n)) <= bytes_total(s),
    decreases s.len() - n,
{
    if n < s.len() {
        assert(s.take(n + 1).drop_last() =~= s.take(n));
        lemma_bytes_total_prefix(s, n + 1);
    } else {
        assert(s.take(n) =~= s);
    }
}

} // verus!
