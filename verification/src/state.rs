//! The application state shared by the interface and the scanner, and the
//! status line it shows.
use crate::config::{spec_sort_mode_label, SortMode};
use crate::display::{default_display, DisplayOptions};
use crate::scan::{idle_activity, ScanAccumulator, ScanActivity, ScanProgress};
use crate::snapshot::{default_export, ExportOptions};
use crate::text::{decimal, push_str, u64_to_string};
use crate::tree::{children_sorted, listed_ids, same_except_children, FileTree, NodeId, NodeType, TreeNode};
use crate::treemap::{is_ranking, TreemapNode};
use vstd::prelude::*;

verus! {

/// The phase the filesystem scanner is in.
#[derive(Clone, Debug, PartialEq, Eq)]
pub enum ScanState {
    Idle,
    Running(ScanProgress),
    Completed,
    Error(String),
}

/// How an action that can fail went.
#[derive(Clone, Debug, PartialEq, Eq)]
pub enum StatusOutcome {
    Success,
    Failure(String),
}

impl StatusOutcome {
    /// A failure carrying `message`.
    pub fn failure(message: String) -> (r: Self)
        ensures
            r == StatusOutcome::Failure(message),
    {
        StatusOutcome::Failure(message)
    }
}

/// The messages of the status line.
#[derive(Clone, Debug, PartialEq, Eq)]
pub enum StatusMessage {
    FilterPrompt,
    FilterActive(String),
    FilterCleared,
    SortMode(SortMode),
    HiddenFilesVisible(bool),
    HelpOpened,
    HelpClosed,
    ScanHint(String),
    ScanPath(String),
    ScanProgress { scanned: u64, errors: u64 },
    ScanComplete,
    ImportReadOnly,
    DeleteConfirmation(String),
    DeleteSuccess(String),
    DeleteFailure(String),
    OpenResult { path: String, outcome: StatusOutcome },
    ExportResult { path: String, outcome: StatusOutcome },
    ImportResult { path: String, outcome: StatusOutcome },
    RescanResult { path: String, outcome: StatusOutcome },
    Custom(String),
}

/// The text of a status message.
pub open spec fn status_text(m: StatusMessage) -> Seq<char> {
    match m {
        StatusMessage::FilterPrompt => "filter: type name substring and press Enter"@,
        StatusMessage::FilterActive(q) => "filter active: "@ + q@,
        StatusMessage::FilterCleared => "filter cleared"@,
        StatusMessage::SortMode(mode) => "sort mode: "@ + spec_sort_mode_label(mode),
        StatusMessage::HiddenFilesVisible(shown) => if shown {
            "hidden files shown"@
        } else {
            "hidden files hidden"@
        },
        StatusMessage::HelpOpened => "help opened"@,
        StatusMessage::HelpClosed => "help closed"@,
        StatusMessage::ScanHint(p) => "press R to scan "@ + p@,
        StatusMessage::ScanPath(p) => "scanned "@ + p@,
        StatusMessage::ScanProgress { scanned, errors } => "scanned "@ + decimal(scanned as nat) + " entries, "@
            + decimal(errors as nat) + " errors"@,
        StatusMessage::ScanComplete => "scan complete"@,
        StatusMessage::ImportReadOnly => "imported scan is read-only"@,
        StatusMessage::DeleteConfirmation(p) => "press d again to delete "@ + p@,
        StatusMessage::DeleteSuccess(p) => "deleted "@ + p@,
        StatusMessage::DeleteFailure(p) => "delete failed: "@ + p@,
        StatusMessage::OpenResult { path, outcome } => match outcome {
            StatusOutcome::Success => "opened "@ + path@,
            StatusOutcome::Failure(e) => "open failed for "@ + path@ + ": "@ + e@,
        },
        StatusMessage::ExportResult { path, outcome } => match outcome {
            StatusOutcome::Success => "scan exported to "@ + path@,
            StatusOutcome::Failure(e) => "export failed: "@ + e@,
        },
        StatusMessage::ImportResult { path, outcome } => match outcome {
            StatusOutcome::Success => "scan imported from "@ + path@,
            StatusOutcome::Failure(e) => "import failed: "@ + e@,
        },
        StatusMessage::RescanResult { path, outcome } => match outcome {
            StatusOutcome::Success => "rescanned "@ + path@,
            StatusOutcome::Failure(e) => "rescan failed: "@ + e@,
        },
        StatusMessage::Custom(t) => t@,
    }
}

impl StatusMessage {
    /// The text shown for this message.
    pub fn to_text(&self) -> (r: String)
        ensures
            r@ == status_text(*self),
    {
        let mut s = String::new();
        match self {
            StatusMessage::FilterPrompt => push_str(&mut s, "filter: type name substring and press Enter"),
            StatusMessage::FilterActive(q) => {
                push_str(&mut s, "filter active: ");
                push_str(&mut s, q.as_str());
            },
            StatusMessage::FilterCleared => push_str(&mut s, "filter cleared"),
            StatusMessage::SortMode(mode) => {
                push_str(&mut s, "sort mode: ");
                push_str(&mut s, mode.as_label());
            },
            StatusMessage::HiddenFilesVisible(shown) => {
                if *shown {
                    push_str(&mut s, "hidden files shown");
                } else {
                    push_str(&mut s, "hidden files hidden");
                }
            },
            StatusMessage::HelpOpened => push_str(&mut s, "help opened"),
            StatusMessage::HelpClosed => push_str(&mut s, "help closed"),
            StatusMessage::ScanHint(p) => {
                push_str(&mut s, "press R to scan ");
                push_str(&mut s, p.as_str());
            },
            StatusMessage::ScanPath(p) => {
                push_str(&mut s, "scanned ");
                push_str(&mut s, p.as_str());
            },
            StatusMessage::ScanProgress { scanned, errors } => {
                push_str(&mut s, "scanned ");
                let a = u64_to_string(*scanned);
                push_str(&mut s, a.as_str());
                push_str(&mut s, " entries, ");
                let b = u64_to_string(*errors);
                push_str(&mut s, b.as_str());
                push_str(&mut s, " errors");
            },
            StatusMessage::ScanComplete => push_str(&mut s, "scan complete"),
            StatusMessage::ImportReadOnly => push_str(&mut s, "imported scan is read-only"),
            StatusMessage::DeleteConfirmation(p) => {
                push_str(&mut s, "press d again to delete ");
                push_str(&mut s, p.as_str());
            },
            StatusMessage::DeleteSuccess(p) => {
                push_str(&mut s, "deleted ");
                push_str(&mut s, p.as_str());
            },
            StatusMessage::DeleteFailure(p) => {
                push_str(&mut s, "delete failed: ");
                push_str(&mut s, p.as_str());
            },
            StatusMessage::OpenResult { path, outcome } => match outcome {
                StatusOutcome::Success => {
                    push_str(&mut s, "opened ");
                    push_str(&mut s, path.as_str());
                },
                StatusOutcome::Failure(e) => {
                    push_str(&mut s, "open failed for ");
                    push_str(&mut s, path.as_str());
                    push_str(&mut s, ": ");
                    push_str(&mut s, e.as_str());
                },
            },
            StatusMessage::ExportResult { path, outcome } => match outcome {
                StatusOutcome::Success => {
                    push_str(&mut s, "scan exported to ");
                    push_str(&mut s, path.as_str());
                },
                StatusOutcome::Failure(e) => {
                    push_str(&mut s, "export failed: ");
                    push_str(&mut s, e.as_str());
                },
            },
            StatusMessage::ImportResult { path, outcome } => match outcome {
                StatusOutcome::Success => {
                    push_str(&mut s, "scan imported from ");
                    push_str(&mut s, path.as_str());
                },
                StatusOutcome::Failure(e) => {
                    push_str(&mut s, "import failed: ");
                    push_str(&mut s, e.as_str());
                },
            },
            StatusMessage::RescanResult { path, outcome } => match outcome {
                StatusOutcome::Success => {
                    push_str(&mut s, "rescanned ");
                    push_str(&mut s, path.as_str());
                },
                StatusOutcome::Failure(e) => {
                    push_str(&mut s, "rescan failed: ");
                    push_str(&mut s, e.as_str());
                },
            },
            StatusMessage::Custom(t) => push_str(&mut s, t.as_str()),
        }
        s
    }
}

/// Which size the listing shows.
#[derive(Clone, Copy, Debug, PartialEq, Eq, Structural)]
pub enum SizeDisplayMode {
    Apparent,
    Disk,
}

/// The name filter of the listing.
#[derive(Clone, Debug, PartialEq, Eq)]
pub struct FilterState {
    pub query: String,
    pub active: bool,
    pub prompt_active: bool,
}

impl Default for FilterState {
    fn default() -> (r: Self)
        ensures
            r.query@ == Seq::<char>::empty(),
            !r.active,
            !r.prompt_active,
    {
        FilterState { query: String::new(), active: false, prompt_active: false }
    }
}

impl FilterState {
    /// Empties the query and switches the filter and its prompt off.
    pub fn clear(&mut self)
        ensures
            final(self).query@ == Seq::<char>::empty(),
            !final(self).active,
            !final(self).prompt_active,
    {
        self.query = String::new();
        self.active = false;
        self.prompt_active = false;
    }
}

/// The other size mode.
pub open spec fn other_size_mode(m: SizeDisplayMode) -> SizeDisplayMode {
    match m {
        SizeDisplayMode::Apparent => SizeDisplayMode::Disk,
        SizeDisplayMode::Disk => SizeDisplayMode::Apparent,
    }
}

/// Central application state shared across the interface and the scanner.
#[derive(Debug)]
pub struct AppState {
    pub tree: FileTree,
    pub sort_mode: SortMode,
    pub selection: Option<NodeId>,
    pub scroll_offset: usize,
    pub scan_state: ScanState,
    pub scan_activity: ScanActivity,
    pub status_message: Option<StatusMessage>,
    pub spinner_phase: usize,
    pub pending_delete: Option<NodeId>,
    pub size_mode: SizeDisplayMode,
    pub filter: FilterState,
    pub show_help: bool,
    pub treemap_visible: bool,
    pub treemap_nodes: Vec<TreemapNode>,
    pub treemap_revision: u64,
    pub ui_revision: u64,
    pub allow_modifications: bool,
    pub extended_mode: bool,
    pub display_options: DisplayOptions,
    pub export_options: ExportOptions,
    pub scan_accumulator: ScanAccumulator,
}

/// `x + 1`, wrapping to zero past `u64::MAX`.
pub open spec fn wrapping_inc(x: u64) -> u64 {
    if x == u64::MAX {
        0
    } else {
        (x + 1) as u64
    }
}

/// The size a node shows in the given mode.
pub open spec fn node_size_spec(n: TreeNode, mode: SizeDisplayMode) -> u64 {
    match mode {
        SizeDisplayMode::Apparent => n.size,
        SizeDisplayMode::Disk => n.disk_size,
    }
}

/// The treemap entry for a node.
pub open spec fn treemap_entry(n: TreeNode, mode: SizeDisplayMode) -> TreemapNode {
    TreemapNode {
        node_id: n.id,
        name: n.name,
        size: node_size_spec(n, mode),
        is_directory: n.file_type == NodeType::Directory,
        is_aggregated: false,
    }
}

/// The treemap entries for the children of `parent`, in child order.
pub open spec fn child_entries(ns: Seq<TreeNode>, parent: int, mode: SizeDisplayMode) -> Seq<TreemapNode> {
    ns[parent].children@.map_values(|c: usize| treemap_entry(ns[c as int], mode))
}

impl AppState {
    /// The state is consistent: its tree is well formed.
    pub open spec fn wf(&self) -> bool {
        self.tree.wf()
    }

    /// A fresh state for `root`: idle, nothing selected, apparent sizes,
    /// treemap shown, modifications allowed, default options.
    pub fn new(root: String, sort_mode: SortMode) -> (r: Self)
        ensures
            r.wf(),
            r.tree@.len() == 1,
            r.tree@[0].path == root,
            r.sort_mode == sort_mode,
            r.selection is None,
            r.scroll_offset == 0,
            r.scan_state == ScanState::Idle,
            idle_activity(r.scan_activity),
            r.status_message is None,
            r.spinner_phase == 0,
            r.pending_delete is None,
            r.size_mode == SizeDisplayMode::Apparent,
            r.filter.query@ == Seq::<char>::empty() && !r.filter.active && !r.filter.prompt_active,
            !r.show_help,
            r.treemap_visible,
            r.treemap_nodes@.len() == 0,
            r.treemap_revision == 0,
            r.ui_revision == 0,
            r.allow_modifications,
            !r.extended_mode,
            r.display_options == default_display(),
            r.export_options == default_export(),
            r.scan_accumulator@.len() == 0,
    {
        AppState {
            tree: FileTree::new(root),
            sort_mode,
            selection: None,
            scroll_offset: 0,
            scan_state: ScanState::Idle,
            scan_activity: ScanActivity::default(),
            status_message: None,
            spinner_phase: 0,
            pending_delete: None,
            size_mode: SizeDisplayMode::Apparent,
            filter: FilterState::default(),
            show_help: false,
            treemap_visible: true,
            treemap_nodes: Vec::new(),
            treemap_revision: 0,
            ui_revision: 0,
            allow_modifications: true,
            extended_mode: false,
            display_options: DisplayOptions::default(),
            export_options: ExportOptions::default(),
            scan_accumulator: ScanAccumulator::default(),
        }
    }

    pub fn set_extended_mode(&mut self, enabled: bool)
        ensures
            *final(self) == (AppState { extended_mode: enabled, ..*old(self) }),
    {
        self.extended_mode = enabled;
    }

    pub fn set_display_options(&mut self, options: DisplayOptions)
        ensures
            *final(self) == (AppState { display_options: options, ..*old(self) }),
    {
        self.display_options = options;
    }

    pub fn set_export_options(&mut self, options: ExportOptions)
        ensures
            *final(self) == (AppState { export_options: options, ..*old(self) }),
    {
        self.export_options = options;
    }

    pub fn select_node(&mut self, node: NodeId)
        ensures
            *final(self) == (AppState { selection: Some(node), ..*old(self) }),
    {
        self.selection = Some(node);
    }

    pub fn clear_selection(&mut self)
        ensures
            *final(self) == (AppState { selection: None, ..*old(self) }),
    {
        self.selection = None;
    }

    pub fn set_scroll_offset(&mut self, offset: usize)
        ensures
            *final(self) == (AppState { scroll_offset: offset, ..*old(self) }),
    {
        self.scroll_offset = offset;
    }

    pub fn update_status(&mut self, message: StatusMessage)
        ensures
            *final(self) == (AppState { status_message: Some(message), ..*old(self) }),
    {
        self.status_message = Some(message);
    }

    pub fn clear_status(&mut self)
        ensures
            *final(self) == (AppState { status_message: None, ..*old(self) }),
    {
        self.status_message = None;
    }

    /// The status line: the current message's text, or "ready".
    pub fn status_text(&self) -> (r: String)
        ensures
            r@ == match self.status_message {
                Some(m) => status_text(m),
                None => "ready"@,
            },
    {
        match &self.status_message {
            Some(message) => message.to_text(),
            None => crate::text::owned("ready"),
        }
    }

    /// Switches the sort mode and re-sorts the root's children by it.
    pub fn set_sort_mode(&mut self, mode: SortMode)
        requires
            old(self).wf(),
        ensures
            final(self).wf(),
            final(self).sort_mode == mode,
            final(self).tree@.len() == old(self).tree@.len(),
            forall|j: int| 1 <= j < old(self).tree@.len() ==> final(self).tree@[j] == old(self).tree@[j],
            same_except_children(final(self).tree@[0], old(self).tree@[0]),
            final(self).tree@[0].children@.to_multiset() == old(self).tree@[0].children@.to_multiset(),
            children_sorted(final(self).tree@, 0, mode),
            *final(self) == (AppState { tree: final(self).tree, sort_mode: mode, ..*old(self) }),
    {
        self.sort_mode = mode;
        let root = self.tree.root();
        self.tree.sort_children(root, mode);
    }

    pub fn mark_scan_progress(&mut self, progress: ScanProgress)
        ensures
            *final(self) == (AppState { scan_state: ScanState::Running(progress), ..*old(self) }),
    {
        self.scan_state = ScanState::Running(progress);
    }

    /// Moves the spinner one step on, wrapping at `modulo`; a zero modulo
    /// leaves it where it is.
    pub fn advance_spinner(&mut self, modulo: usize)
        requires
            old(self).spinner_phase < usize::MAX,
        ensures
            modulo > 0 ==> *final(self) == (AppState { spinner_phase: ((old(self).spinner_phase + 1) % modulo as int) as usize, ..*old(self) }),
            modulo == 0 ==> *final(self) == *old(self),
    {
        if modulo > 0 {
            self.spinner_phase = (self.spinner_phase + 1) % modulo;
        }
    }

    pub fn mark_scan_complete(&mut self)
        ensures
            *final(self) == (AppState { scan_state: ScanState::Completed, ..*old(self) }),
    {
        self.scan_state = ScanState::Completed;
    }

    pub fn mark_scan_error(&mut self, message: String)
        ensures
            *final(self) == (AppState { scan_state: ScanState::Error(message), ..*old(self) }),
    {
        self.scan_state = ScanState::Error(message);
    }

    /// Switches between apparent and disk sizes.
    pub fn toggle_size_mode(&mut self)
        ensures
            *final(self) == size_mode_toggled(*old(self)),
    {
        self.size_mode = match self.size_mode {
            SizeDisplayMode::Apparent => SizeDisplayMode::Disk,
            SizeDisplayMode::Disk => SizeDisplayMode::Apparent,
        };
    }

    /// Shows or hides the treemap panel and says so on the status line.
    pub fn toggle_treemap_visibility(&mut self)
        ensures
            final(self).treemap_visible == !old(self).treemap_visible,
            final(self).status_message matches Some(StatusMessage::Custom(t)) && t@ == (if final(self).treemap_visible {
                "treemap panel shown"@
            } else {
                "treemap panel hidden"@
            }),
            *final(self) == (AppState {
                treemap_visible: final(self).treemap_visible,
                status_message: final(self).status_message,
                ..*old(self)
            }),
    {
        self.treemap_visible = !self.treemap_visible;
        let message = if self.treemap_visible {
            crate::text::owned("treemap panel shown")
        } else {
            crate::text::owned("treemap panel hidden")
        };
        self.update_status(StatusMessage::Custom(message));
    }

    pub fn is_treemap_visible(&self) -> (r: bool)
        ensures
            r == self.treemap_visible,
    {
        self.treemap_visible
    }

    pub fn clear_filter(&mut self)
        ensures
            final(self).filter.query@ == Seq::<char>::empty(),
            !final(self).filter.active,
            !final(self).filter.prompt_active,
            *final(self) == (AppState { filter: final(self).filter, ..*old(self) }),
    {
        self.filter.clear();
    }

    /// A copy of the scan activity.
    pub fn scan_activity_snapshot(&self) -> (r: ScanActivity)
        ensures
            r == self.scan_activity,
    {
        self.scan_activity.duplicate()
    }

    pub fn mark_ui_dirty(&mut self)
        ensures
            *final(self) == (AppState { ui_revision: wrapping_inc(old(self).ui_revision), ..*old(self) }),
    {
        self.ui_revision = self.ui_revision.wrapping_add(1);
    }

    pub fn ui_revision(&self) -> (r: u64)
        ensures
            r == self.ui_revision,
    {
        self.ui_revision
    }

    /// Ids of the visible rows, in display order (hidden entries only when
    /// the display shows them).
    pub fn visible_node_ids(&self) -> (r: Vec<NodeId>)
        requires
            self.wf(),
        ensures
            r@ == listed_ids(self.tree@, self.display_options.show_hidden),
    {
        self.tree.visible_ids_filtered(self.display_options.show_hidden)
    }
}

/// The selection kept visible: the root when nothing is listed, the current
/// selection when it is listed, else the first listed row.
pub open spec fn visible_selection(ids: Seq<usize>, selection: Option<usize>) -> Option<usize> {
    if ids.len() == 0 {
        Some(0)
    } else if selection matches Some(s) && ids.contains(s) {
        selection
    } else {
        Some(ids[0])
    }
}

/// Whether `id` occurs in `ids`.
pub fn contains_id(ids: &Vec<usize>, id: usize) -> (r: bool)
    ensures
        r == ids@.contains(id),
{
    let mut i: usize = 0;
    while i < ids.len()
        invariant
            i <= ids@.len(),
            forall|k: int| 0 <= k < i ==> ids@[k] != id,
        decreases ids@.len() - i,
    {
        if ids[i] == id {
            return true;
        }
        i += 1;
    }
    false
}

/// The size a node shows in the given mode.
pub fn node_size(node: &TreeNode, mode: SizeDisplayMode) -> (r: u64)
    ensures
        r == node_size_spec(*node, mode),
{
    match mode {
        SizeDisplayMode::Apparent => node.size,
        SizeDisplayMode::Disk => node.disk_size,
    }
}

/// The treemap entries for the children of `parent`, in child order.
pub fn child_treemap_entries(tree: &FileTree, parent: NodeId, mode: SizeDisplayMode) -> (r: Vec<TreemapNode>)
    requires
        tree.wf(),
        parent < tree@.len(),
    ensures
        r@ == child_entries(tree@, parent as int, mode),
{
    let node = tree.node(parent).unwrap();
    let n = node.children.len();
    let mut out: Vec<TreemapNode> = Vec::new();
    let mut k: usize = 0;
    while k < n
        invariant
            tree.wf(),
            parent < tree@.len(),
            *node == tree@[parent as int],
            n == node.children@.len(),
            k <= n,
            out@ == node.children@.take(k as int).map_values(|c: usize| treemap_entry(tree@[c as int], mode)),
        decreases n - k,
    {
        let c = node.children[k];
        let child = tree.node(c).unwrap();
        out.push(TreemapNode {
            node_id: child.id,
            name: child.name.clone(),
            size: node_size(child, mode),
            is_directory: child.file_type == NodeType::Directory,
            is_aggregated: false,
        });
        proof {
            assert(node.children@.take(k as int + 1) =~= node.children@.take(k as int).push(c));
        }
        k += 1;
        assert(out@ =~= node.children@.take(k as int).map_values(|c: usize| treemap_entry(tree@[c as int], mode)));
    }
    assert(node.children@.take(n as int) =~= node.children@);
    out
}

/// `after` is `before` with what the interface shows refreshed: the
/// treemap entries rebuilt from the root's children, both revisions bumped
/// and the selection kept on a listed row.
pub open spec fn refreshed(before: AppState, after: AppState) -> bool {
    &&& after.wf()
    &&& is_ranking(after.treemap_nodes@, child_entries(before.tree@, 0, before.size_mode))
    &&& after == (AppState {
        treemap_nodes: after.treemap_nodes,
        treemap_revision: wrapping_inc(before.treemap_revision),
        ui_revision: wrapping_inc(before.ui_revision),
        selection: visible_selection(listed_ids(before.tree@, before.display_options.show_hidden), before.selection),
        ..before
    })
}

impl AppState {
    /// Keeps the selection on a listed row (see `visible_selection`).
    pub fn ensure_selection_visible(&mut self)
        requires
            old(self).wf(),
        ensures
            *final(self) == (AppState {
                selection: visible_selection(listed_ids(old(self).tree@, old(self).display_options.show_hidden), old(self).selection),
                ..*old(self)
            }),
    {
        let ids = self.visible_node_ids();
        if ids.len() == 0 {
            self.selection = Some(self.tree.root());
            return;
        }
        match self.selection {
            Some(selection) => {
                if contains_id(&ids, selection) {
                    return;
                }
            },
            None => {},
        }
        self.selection = Some(ids[0]);
    }

    /// Rebuilds the treemap entries from the root's children (those with a
    /// size in the current mode, largest first, then by name), bumps the
    /// treemap revision and keeps the selection on a listed row.
    pub fn refresh_treemap_nodes(&mut self)
        requires
            old(self).wf(),
        ensures
            final(self).wf(),
            is_ranking(final(self).treemap_nodes@, child_entries(old(self).tree@, 0, old(self).size_mode)),
            *final(self) == (AppState {
                treemap_nodes: final(self).treemap_nodes,
                treemap_revision: wrapping_inc(old(self).treemap_revision),
                selection: visible_selection(listed_ids(old(self).tree@, old(self).display_options.show_hidden), old(self).selection),
                ..*old(self)
            }),
    {
        let root = self.tree.root();
        let entries = child_treemap_entries(&self.tree, root, self.size_mode);
        self.treemap_nodes = crate::treemap::rank_nodes(&entries);
        self.treemap_revision = self.treemap_revision.wrapping_add(1);
        self.ensure_selection_visible();
    }

    /// Refreshes what the interface shows and marks it for redrawing.
    pub fn refresh_ui(&mut self)
        requires
            old(self).wf(),
        ensures
            refreshed(*old(self), *final(self)),
    {
        self.refresh_treemap_nodes();
        self.mark_ui_dirty();
    }
}

/// The state with the other size mode.
pub open spec fn size_mode_toggled(s: AppState) -> AppState {
    AppState { size_mode: other_size_mode(s.size_mode), ..s }
}

/// Switching the size mode twice gives back the state as it was.
pub proof fn lemma_size_mode_toggle_twice(s: AppState)
    ensures
        size_mode_toggled(size_mode_toggled(s)) == s,
{
}

} // verus!
