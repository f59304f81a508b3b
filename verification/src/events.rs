//! What each user action and each scanner report does to the application
//! state. Work that touches the filesystem or other programs is not done
//! here: an action that needs it returns an `InputEffect` naming it, and the
//! caller reports back how it went.
use crate::config::{spec_sort_mode_label, SortMode};
use crate::state::{
    refreshed, visible_selection, wrapping_inc, AppState, ScanState, StatusMessage, StatusOutcome,
};
use crate::order::{merge_sort, TotalPreorder};
use crate::display::DisplayOptions;
use crate::input::InputAction;
use crate::scan::{ScanActivity, ScanBatch, ScanEvent, ScanNode, ScanProgress};
use crate::state::{child_entries, SizeDisplayMode};
use crate::treemap::is_ranking;
use crate::tree::{
    children_sorted, lemma_linked_frame, lemma_on_chain_below, lemma_on_chain_frame, lemma_parented_frame, lemma_path_above_shorter, lemma_path_lookup_frame, linked, listed_ids, parented, path_above, listed_once, node_for_path,
    same_except_children, same_except_sizes, on_chain, sat_add, sizes_consistent, FileTree, NodeId, NodeMetadata, NodeType, TreeNode,
};
use vstd::prelude::*;

verus! {

/// The sort mode that follows `current`: size descending, size ascending,
/// name, modification time, and round again.
pub open spec fn spec_next_sort_mode(current: SortMode) -> SortMode {
    match current {
        SortMode::SizeDesc => SortMode::SizeAsc,
        SortMode::SizeAsc => SortMode::Name,
        SortMode::Name => SortMode::ModifiedTime,
        SortMode::ModifiedTime => SortMode::SizeDesc,
    }
}

pub fn next_sort_mode(current: SortMode) -> (r: SortMode)
    ensures
        r == spec_next_sort_mode(current),
{
    match current {
        SortMode::SizeDesc => SortMode::SizeAsc,
        SortMode::SizeAsc => SortMode::Name,
        SortMode::Name => SortMode::ModifiedTime,
        SortMode::ModifiedTime => SortMode::SizeDesc,
    }
}

/// Cycling the sort mode four times comes back to where it started.
pub proof fn lemma_sort_mode_cycle(mode: SortMode)
    ensures
        spec_next_sort_mode(spec_next_sort_mode(spec_next_sort_mode(spec_next_sort_mode(mode)))) == mode,
        spec_next_sort_mode(mode) != mode,
{
}

/// The label of a sort mode.
pub fn sort_mode_label(mode: SortMode) -> (r: &'static str)
    ensures
        r@ == spec_sort_mode_label(mode),
{
    mode.as_label()
}

/// The index of the first occurrence of `x` in `s`, or -1.
pub open spec fn position(s: Seq<usize>, x: usize) -> int
    decreases s.len(),
{
    if s.len() == 0 {
        -1
    } else if position(s.drop_last(), x) >= 0 {
        position(s.drop_last(), x)
    } else if s.last() == x {
        s.len() - 1
    } else {
        -1
    }
}

pub(crate) proof fn lemma_position(s: Seq<usize>, x: usize)
    ensures
        -1 <= position(s, x) < s.len(),
        position(s, x) >= 0 ==> s[position(s, x)] == x,
        position(s, x) >= 0 ==> forall|k: int| 0 <= k < position(s, x) ==> s[k] != x,
        position(s, x) < 0 ==> forall|k: int| 0 <= k < s.len() ==> s[k] != x,
    decreases s.len(),
{
    if s.len() > 0 {
        let p = s.drop_last();
        lemma_position(p, x);
        assert forall|k: int| 0 <= k < p.len() implies p[k] == s[k] by {}
    }
}

/// Where `x` first occurs in `ids`, if anywhere.
pub(crate) fn find_position(ids: &Vec<usize>, x: usize) -> (r: Option<usize>)
    ensures
        position(ids@, x) >= 0 ==> r == Some(position(ids@, x) as usize),
        position(ids@, x) < 0 ==> r is None,
{
    proof {
        lemma_position(ids@, x);
    }
    let mut i: usize = 0;
    while i < ids.len()
        invariant
            i <= ids@.len(),
            forall|k: int| 0 <= k < i ==> ids@[k] != x,
            -1 <= position(ids@, x) < ids@.len(),
            position(ids@, x) >= 0 ==> ids@[position(ids@, x)] == x,
            position(ids@, x) >= 0 ==> forall|k: int| 0 <= k < position(ids@, x) ==> ids@[k] != x,
            position(ids@, x) < 0 ==> forall|k: int| 0 <= k < ids@.len() ==> ids@[k] != x,
        decreases ids@.len() - i,
    {
        if ids[i] == x {
            return Some(i);
        }
        i += 1;
    }
    None
}

/// The row above the selected one (the first row stays put, and with no
/// selection among the rows the first row is taken); nothing when no row
/// is listed.
pub open spec fn previous_selection(ids: Seq<usize>, selection: Option<usize>) -> Option<usize> {
    if ids.len() == 0 {
        None
    } else {
        let i = match selection {
            Some(s) => position(ids, s),
            None => -1,
        };
        if i <= 0 {
            Some(ids[0])
        } else {
            Some(ids[i - 1])
        }
    }
}

/// The row below the selected one (the last row stays put, and with no
/// selection among the rows the first row is taken); nothing when no row
/// is listed.
pub open spec fn next_selection(ids: Seq<usize>, selection: Option<usize>) -> Option<usize> {
    if ids.len() == 0 {
        None
    } else {
        let i = match selection {
            Some(s) => position(ids, s),
            None => -1,
        };
        if i < 0 {
            Some(ids[0])
        } else if i + 1 >= ids.len() {
            Some(ids[ids.len() - 1])
        } else {
            Some(ids[i + 1])
        }
    }
}

/// The rows the navigation moves over.
pub open spec fn nav_ids(state: AppState) -> Seq<usize> {
    listed_ids(state.tree@, state.display_options.show_hidden)
}

/// Moves the selection one row up (see `previous_selection`).
pub fn select_previous(state: &mut AppState)
    requires
        old(state).wf(),
    ensures
        *final(state) == (AppState { selection: previous_selection(nav_ids(*old(state)), old(state).selection), ..*old(state) }),
{
    let ids = state.visible_node_ids();
    if ids.len() == 0 {
        state.selection = None;
        return;
    }
    let index: usize = match state.selection {
        Some(s) => match find_position(&ids, s) {
            Some(i) => i,
            None => 0,
        },
        None => 0,
    };
    proof {
        lemma_position(ids@, state.selection.unwrap_or(0));
    }
    let next = if index >= 1 { ids[index - 1] } else { ids[0] };
    state.selection = Some(next);
}

/// Moves the selection one row down (see `next_selection`).
pub fn select_next(state: &mut AppState)
    requires
        old(state).wf(),
    ensures
        *final(state) == (AppState { selection: next_selection(nav_ids(*old(state)), old(state).selection), ..*old(state) }),
{
    let ids = state.visible_node_ids();
    if ids.len() == 0 {
        state.selection = None;
        return;
    }
    let found: Option<usize> = match state.selection {
        Some(s) => find_position(&ids, s),
        None => None,
    };
    proof {
        lemma_position(ids@, state.selection.unwrap_or(0));
    }
    let next = match found {
        None => ids[0],
        Some(index) => if index + 1 >= ids.len() {
            ids[ids.len() - 1]
        } else {
            ids[index + 1]
        },
    };
    state.selection = Some(next);
}

/// Selects the first row, if any.
pub fn select_first(state: &mut AppState)
    requires
        old(state).wf(),
    ensures
        *final(state) == (AppState {
            selection: if nav_ids(*old(state)).len() > 0 { Some(nav_ids(*old(state))[0]) } else { old(state).selection },
            ..*old(state)
        }),
{
    let ids = state.visible_node_ids();
    if ids.len() > 0 {
        state.selection = Some(ids[0]);
    }
}

/// Selects the last row, if any.
pub fn select_last(state: &mut AppState)
    requires
        old(state).wf(),
    ensures
        *final(state) == (AppState {
            selection: if nav_ids(*old(state)).len() > 0 {
                Some(nav_ids(*old(state))[nav_ids(*old(state)).len() - 1])
            } else {
                old(state).selection
            },
            ..*old(state)
        }),
{
    let ids = state.visible_node_ids();
    if ids.len() > 0 {
        state.selection = Some(ids[ids.len() - 1]);
    }
}

/// The node with its expansion set to `expanded`.
pub open spec fn with_expanded(n: TreeNode, expanded: bool) -> TreeNode {
    TreeNode { expanded, ..n }
}

/// The selected node is a directory.
pub open spec fn selected_dir(ns: Seq<TreeNode>, selection: Option<usize>) -> bool {
    selection matches Some(id) && id < ns.len() && ns[id as int].file_type == NodeType::Directory
}

/// Sets the expansion of the selected directory to `expanded` (anything
/// else is left alone).
pub open spec fn expand_tree(ns: Seq<TreeNode>, selection: Option<usize>, expanded: bool) -> Seq<TreeNode> {
    if selected_dir(ns, selection) {
        ns.update(selection.unwrap() as int, with_expanded(ns[selection.unwrap() as int], expanded))
    } else {
        ns
    }
}

/// Flips the expansion of the selected directory.
pub open spec fn toggle_tree(ns: Seq<TreeNode>, selection: Option<usize>) -> Seq<TreeNode> {
    if selected_dir(ns, selection) {
        ns.update(selection.unwrap() as int, with_expanded(ns[selection.unwrap() as int], !ns[selection.unwrap() as int].expanded))
    } else {
        ns
    }
}

/// Toggling the selected directory twice leaves the tree as it was.
pub proof fn lemma_toggle_twice(ns: Seq<TreeNode>, selection: Option<usize>)
    ensures
        toggle_tree(toggle_tree(ns, selection), selection) == ns,
{
    if selected_dir(ns, selection) {
        let id = selection.unwrap() as int;
        assert(toggle_tree(toggle_tree(ns, selection), selection) =~= ns);
    }
}

/// Expanding the selected directory and then collapsing it leaves it
/// collapsed; collapsing and expanding leaves it expanded.
pub proof fn lemma_expand_then_collapse(ns: Seq<TreeNode>, selection: Option<usize>)
    ensures
        expand_tree(expand_tree(ns, selection, true), selection, false) == expand_tree(ns, selection, false),
        expand_tree(expand_tree(ns, selection, false), selection, true) == expand_tree(ns, selection, true),
{
    if selected_dir(ns, selection) {
        assert(expand_tree(expand_tree(ns, selection, true), selection, false) =~= expand_tree(ns, selection, false));
        assert(expand_tree(expand_tree(ns, selection, false), selection, true) =~= expand_tree(ns, selection, true));
    }
}

/// Sets the expansion of node `id` of a well-formed tree (when it exists).
fn set_expanded(tree: &mut FileTree, id: NodeId, expanded: bool)
    requires
        old(tree).wf(),
    ensures
        final(tree).wf(),
        id < old(tree)@.len() ==> final(tree)@ == old(tree)@.update(id as int, with_expanded(old(tree)@[id as int], expanded)),
        id >= old(tree)@.len() ==> final(tree)@ == old(tree)@,
{
    match tree.node_mut(id) {
        Some(node) => {
            node.expanded = expanded;
        },
        None => {},
    }
    proof {
        if id < old(tree)@.len() {
            assert(tree@ =~= old(tree)@.update(id as int, with_expanded(old(tree)@[id as int], expanded)));
        }
    }
}

/// Expands the selected directory.
pub fn expand_selection(state: &mut AppState)
    requires
        old(state).wf(),
    ensures
        final(state).wf(),
        final(state).tree@ == expand_tree(old(state).tree@, old(state).selection, true),
        *final(state) == (AppState { tree: final(state).tree, ..*old(state) }),
{
    if let Some(id) = state.selection {
        let is_dir = match state.tree.node(id) {
            Some(node) => node.file_type == NodeType::Directory,
            None => false,
        };
        if is_dir {
            set_expanded(&mut state.tree, id, true);
        }
    }
}

/// Flips the expansion of the selected directory.
pub fn toggle_selection(state: &mut AppState)
    requires
        old(state).wf(),
    ensures
        final(state).wf(),
        final(state).tree@ == toggle_tree(old(state).tree@, old(state).selection),
        *final(state) == (AppState { tree: final(state).tree, ..*old(state) }),
{
    if let Some(id) = state.selection {
        let current = match state.tree.node(id) {
            Some(node) => if node.file_type == NodeType::Directory { Some(node.expanded) } else { None },
            None => None,
        };
        if let Some(expanded) = current {
            set_expanded(&mut state.tree, id, !expanded);
        }
    }
}

/// `after` is `before` with the selected directory collapsed, or, with
/// something else selected, its parent collapsed and selected instead.
pub open spec fn collapse_applied(before: AppState, after: AppState) -> bool {
    let ns = before.tree@;
    match before.selection {
        Some(id) => if id < ns.len() {
            if ns[id as int].file_type == NodeType::Directory {
                &&& after.tree@ == ns.update(id as int, with_expanded(ns[id as int], false))
                &&& after == (AppState { tree: after.tree, ..before })
            } else {
                match ns[id as int].parent {
                    Some(p) => {
                        &&& after.tree@ == ns.update(p as int, with_expanded(ns[p as int], false))
                        &&& after == (AppState { tree: after.tree, selection: Some(p), ..before })
                    },
                    None => after == before,
                }
            }
        } else {
            after == before
        },
        None => after == before,
    }
}

/// Collapses the selected directory; with a file selected, collapses its
/// parent and selects it instead.
pub fn collapse_selection(state: &mut AppState)
    requires
        old(state).wf(),
    ensures
        final(state).wf(),
        collapse_applied(*old(state), *final(state)),
{
    if let Some(id) = state.selection {
        let info = match state.tree.node(id) {
            Some(node) => Some((node.file_type == NodeType::Directory, node.parent)),
            None => None,
        };
        if let Some((is_dir, parent)) = info {
            if is_dir {
                set_expanded(&mut state.tree, id, false);
                return;
            }
            if let Some(p) = parent {
                set_expanded(&mut state.tree, p, false);
                state.selection = Some(p);
            }
        }
    }
}

/// Collapsing leaves the entry selected afterwards collapsed whenever the
/// selection was an entry that is a directory or has a parent: the
/// directory itself, or the parent, which becomes the selection; no other
/// node changes. Expanding leaves a selected directory expanded and
/// toggling flips it, the selection staying put; with anything else
/// selected the tree is left alone.
pub proof fn lemma_expansion_actions(before: AppState, action: InputAction, after: AppState, effect: InputEffect)
    requires
        before.wf(),
        action_applied(before, action, after, effect),
    ensures
        ({
            let ns = before.tree@;
            match action {
                InputAction::Collapse => match before.selection {
                    Some(id) => (id < ns.len() && (ns[id as int].file_type == NodeType::Directory || ns[id as int].parent is Some))
                        ==> (after.selection matches Some(s) && s < after.tree@.len() && !after.tree@[s as int].expanded
                            && after.tree@.len() == ns.len()
                            && (ns[id as int].file_type == NodeType::Directory ==> s == id)
                            && (ns[id as int].file_type != NodeType::Directory ==> Some(s) == ns[id as int].parent)
                            && forall|j: int| 0 <= j < ns.len() && j != s ==> after.tree@[j] == ns[j]),
                    None => after == before,
                },
                InputAction::Expand => after.selection == before.selection && match before.selection {
                    Some(id) => if id < ns.len() && ns[id as int].file_type == NodeType::Directory {
                        &&& after.tree@[id as int].expanded
                        &&& forall|j: int| 0 <= j < ns.len() && j != id ==> after.tree@[j] == ns[j]
                    } else {
                        after.tree@ == ns
                    },
                    None => after.tree@ == ns,
                },
                InputAction::Select => after.selection == before.selection && match before.selection {
                    Some(id) => if id < ns.len() && ns[id as int].file_type == NodeType::Directory {
                        &&& after.tree@[id as int].expanded == !ns[id as int].expanded
                        &&& forall|j: int| 0 <= j < ns.len() && j != id ==> after.tree@[j] == ns[j]
                    } else {
                        after.tree@ == ns
                    },
                    None => after.tree@ == ns,
                },
                _ => true,
            }
        }),
{
}

/// Collapsing twice does no more than collapsing once when the entry the
/// first collapse selects is a directory: the tree and the selection stay
/// as the first collapse left them.
pub proof fn lemma_collapse_twice(before: AppState, mid: AppState, after: AppState)
    requires
        before.wf(),
        collapse_applied(before, mid),
        collapse_applied(mid, after),
        mid.selection matches Some(s) && s < mid.tree@.len() && mid.tree@[s as int].file_type == NodeType::Directory,
    ensures
        after.tree@ == mid.tree@,
        after.selection == mid.selection,
{
    let ns = before.tree@;
    let s = mid.selection->0;
    match before.selection {
        Some(id) => {
            if id < ns.len() {
                if ns[id as int].file_type == NodeType::Directory {
                    assert(mid.tree@[s as int] == with_expanded(ns[id as int], false));
                } else if let Some(p) = ns[id as int].parent {
                    assert(mid.tree@[s as int] == with_expanded(ns[p as int], false));
                }
            }
        },
        None => {},
    }
    assert(mid.tree@.update(s as int, with_expanded(mid.tree@[s as int], false)) =~= mid.tree@) by {
        if !mid.tree@[s as int].expanded {
            assert(with_expanded(mid.tree@[s as int], false) == mid.tree@[s as int]);
        }
    }
}

/// `after` and `effect` are what asking to delete the selection does to
/// `before`: nothing in a read-only scan but say so; nothing without a
/// selection; a first request marks the entry pending and asks for
/// confirmation; a second request for the same entry asks the caller to
/// remove it (or, when the node is gone, drops the request).
pub open spec fn delete_applied(before: AppState, after: AppState, effect: InputEffect) -> bool {
    if !before.allow_modifications {
        effect == InputEffect::Nothing && after == (AppState { status_message: Some(StatusMessage::ImportReadOnly), ..before })
    } else {
        match before.selection {
            None => effect == InputEffect::Nothing && after == before,
            Some(id) => if before.pending_delete != Some(id) {
                &&& effect == InputEffect::Nothing
                &&& after == (AppState {
                    pending_delete: Some(id),
                    status_message: match selected_path(before) {
                        Some(p) => Some(StatusMessage::DeleteConfirmation(p)),
                        None => before.status_message,
                    },
                    ..before
                })
            } else {
                match selected_path(before) {
                    Some(p) => effect == (InputEffect::DeletePath { node_id: id, path: p }) && after == before,
                    None => effect == InputEffect::Nothing && after == (AppState { pending_delete: None, ..before }),
                }
            },
        }
    }
}

/// `after` and `effect` are what asking to open the selection does to
/// `before`: nothing in a read-only scan but say so, else ask the caller to
/// open the selected path, if any.
pub open spec fn open_applied(before: AppState, after: AppState, effect: InputEffect) -> bool {
    if !before.allow_modifications {
        effect == InputEffect::Nothing && after == (AppState { status_message: Some(StatusMessage::ImportReadOnly), ..before })
    } else {
        after == before && effect == match selected_path(before) {
            Some(p) => InputEffect::OpenPath { path: p },
            None => InputEffect::Nothing,
        }
    }
}

/// `after` and `effect` are what asking to rescan the selection does to
/// `before`: nothing in a read-only scan but say so, else ask the caller to
/// measure the selected node, if any.
pub open spec fn rescan_applied(before: AppState, after: AppState, effect: InputEffect) -> bool {
    if !before.allow_modifications {
        effect == InputEffect::Nothing && after == (AppState { status_message: Some(StatusMessage::ImportReadOnly), ..before })
    } else {
        after == before && effect == match before.selection {
            Some(id) => if id < before.tree@.len() {
                InputEffect::MeasurePath {
                    node_id: id,
                    path: before.tree@[id as int].path,
                    is_directory: before.tree@[id as int].file_type == NodeType::Directory,
                }
            } else {
                InputEffect::Nothing
            },
            None => InputEffect::Nothing,
        }
    }
}

/// The filter prompt opened and the filter on.
pub open spec fn start_filter_applied(before: AppState, after: AppState) -> bool {
    after == (AppState {
        filter: crate::state::FilterState { active: true, prompt_active: true, ..before.filter },
        status_message: Some(StatusMessage::FilterPrompt),
        ..before
    })
}

/// `ch` typed into the query, and the filter on.
pub open spec fn filter_char_applied(before: AppState, ch: char, after: AppState) -> bool {
    &&& after.filter.query@ == before.filter.query@.push(ch)
    &&& after.filter.active
    &&& after.filter.prompt_active == before.filter.prompt_active
    &&& after == (AppState { filter: after.filter, ..before })
}

/// The query's last character removed, if any.
pub open spec fn filter_backspace_applied(before: AppState, after: AppState) -> bool {
    &&& before.filter.query@.len() > 0 ==> after.filter.query@ == before.filter.query@.drop_last()
    &&& before.filter.query@.len() == 0 ==> after.filter.query@ == before.filter.query@
    &&& after.filter.active == before.filter.active
    &&& after.filter.prompt_active == before.filter.prompt_active
    &&& after == (AppState { filter: after.filter, ..before })
}

/// The prompt closed; the filter on exactly when the query is not empty,
/// and the status says which.
pub open spec fn apply_filter_applied(before: AppState, after: AppState) -> bool {
    &&& !after.filter.prompt_active
    &&& after.filter.query == before.filter.query
    &&& after.filter.active == (before.filter.query@.len() > 0)
    &&& before.filter.query@.len() == 0 ==> after.status_message == Some(StatusMessage::FilterCleared)
    &&& before.filter.query@.len() > 0 ==> after.status_message == Some(StatusMessage::FilterActive(before.filter.query))
    &&& after == (AppState { filter: after.filter, status_message: after.status_message, ..before })
}

/// The filter emptied and off, and the status says so.
pub open spec fn clear_filter_applied(before: AppState, after: AppState) -> bool {
    &&& after.filter.query@ == Seq::<char>::empty()
    &&& !after.filter.active
    &&& !after.filter.prompt_active
    &&& after.status_message == Some(StatusMessage::FilterCleared)
    &&& after == (AppState { filter: after.filter, status_message: after.status_message, ..before })
}

/// Opens the filter prompt.
pub fn start_filter(state: &mut AppState)
    ensures
        start_filter_applied(*old(state), *final(state)),
{
    state.filter.active = true;
    state.filter.prompt_active = true;
    state.update_status(StatusMessage::FilterPrompt);
}

/// Adds a character to the filter query and turns the filter on.
pub fn filter_char(state: &mut AppState, ch: char)
    ensures
        filter_char_applied(*old(state), ch, *final(state)),
{
    crate::text::push_char(&mut state.filter.query, ch);
    state.filter.active = true;
}

/// Removes the last character of the filter query, if any.
pub fn filter_backspace(state: &mut AppState)
    ensures
        filter_backspace_applied(*old(state), *final(state)),
{
    let _ = crate::text::pop_char(&mut state.filter.query);
}

/// Closes the prompt; an empty query turns the filter off, any other turns
/// it on, and the status line says which.
pub fn apply_filter(state: &mut AppState)
    ensures
        apply_filter_applied(*old(state), *final(state)),
{
    state.filter.prompt_active = false;
    if state.filter.query.as_str().unicode_len() == 0 {
        state.filter.active = false;
        state.update_status(StatusMessage::FilterCleared);
    } else {
        state.filter.active = true;
        let query = state.filter.query.clone();
        state.update_status(StatusMessage::FilterActive(query));
    }
}

/// Empties and switches off the filter and says so.
pub fn clear_filter(state: &mut AppState)
    ensures
        clear_filter_applied(*old(state), *final(state)),
{
    state.filter.prompt_active = false;
    state.clear_filter();
    state.update_status(StatusMessage::FilterCleared);
}

/// A size after a rescan changed one of its descendants from `previous` to
/// `refreshed`: grown by the difference (saturating) or shrunk by it
/// (saturating at zero).
pub open spec fn adjusted_size(size: u64, previous: u64, refreshed: u64) -> u64 {
    if refreshed >= previous {
        sat_add(size, (refreshed - previous) as u64)
    } else if size >= previous - refreshed {
        (size - (previous - refreshed)) as u64
    } else {
        0
    }
}

/// The node with its size set to `size`.
pub open spec fn with_size(n: TreeNode, size: u64) -> TreeNode {
    TreeNode { size, ..n }
}

/// The tree after adjusting the sizes of `start` and its ancestors.
pub open spec fn adjusted_tree(ns: Seq<TreeNode>, start: Option<usize>, previous: u64, refreshed: u64) -> Seq<TreeNode> {
    Seq::new(
        ns.len(),
        |j: int|
            if start matches Some(s) && on_chain(ns, s as int, j) {
                with_size(ns[j], adjusted_size(ns[j].size, previous, refreshed))
            } else {
                ns[j]
            },
    )
}

/// Sets the size of node `id` of a well-formed tree (when it exists).
fn set_size(tree: &mut FileTree, id: NodeId, size: u64)
    requires
        old(tree).wf(),
    ensures
        final(tree).wf(),
        id < old(tree)@.len() ==> final(tree)@ == old(tree)@.update(id as int, with_size(old(tree)@[id as int], size)),
        id >= old(tree)@.len() ==> final(tree)@ == old(tree)@,
{
    match tree.node_mut(id) {
        Some(node) => {
            node.size = size;
        },
        None => {},
    }
    proof {
        if id < old(tree)@.len() {
            assert(tree@ =~= old(tree)@.update(id as int, with_size(old(tree)@[id as int], size)));
        }
    }
}

proof fn lemma_chain_step(ns: Seq<TreeNode>, c: int, j: int)
    requires
        crate::tree::tree_shape(ns),
        0 <= c < ns.len(),
    ensures
        on_chain(ns, c, j) == (j == c || (ns[c].parent matches Some(p) && on_chain(ns, p as int, j))),
        ns[c].parent matches Some(p) ==> !on_chain(ns, p as int, c),
{
    if let Some(p) = ns[c].parent {
        if on_chain(ns, p as int, c) {
            crate::tree::lemma_on_chain_below(ns, p as int, c);
        }
    }
}

/// The chain from `s` through `c` goes on to `c`'s parent.
proof fn lemma_chain_extend(ns: Seq<TreeNode>, s: int, c: int)
    requires
        crate::tree::tree_shape(ns),
        on_chain(ns, s, c),
        0 <= c < ns.len(),
        ns[c].parent is Some,
    ensures
        on_chain(ns, s, ns[c].parent.unwrap() as int),
    decreases s,
{
    let p = ns[c].parent.unwrap() as int;
    if s == c {
        assert(on_chain(ns, p, p));
    } else {
        let q = ns[s].parent.unwrap() as int;
        lemma_chain_extend(ns, q, c);
    }
}

/// Moves the sizes of `parent` and each of its ancestors by the change of a
/// rescanned child from `previous_size` to `refreshed_size` (see
/// `adjusted_size`).
pub fn adjust_ancestors_after_rescan(state: &mut AppState, parent: Option<usize>, previous_size: u64, refreshed_size: u64)
    requires
        old(state).wf(),
    ensures
        final(state).wf(),
        final(state).tree@ == adjusted_tree(old(state).tree@, parent, previous_size, refreshed_size),
        *final(state) == (AppState { tree: final(state).tree, ..*old(state) }),
{
    let ghost ns = state.tree@;
    let mut current = parent;
    while current.is_some()
        invariant
            state.wf(),
            state.tree@.len() == ns.len(),
            crate::tree::tree_shape(ns),
            *state == (AppState { tree: state.tree, ..*old(state) }),
            ns == old(state).tree@,
            current matches Some(c) ==> (parent matches Some(s) && on_chain(ns, s as int, c as int)) || c >= ns.len(),
            current matches Some(c) && c >= ns.len() ==> current == parent,
            forall|j: int| 0 <= j < ns.len() ==> #[trigger] state.tree@[j] == if (parent matches Some(s) && on_chain(ns, s as int, j))
                && !(current matches Some(c) && on_chain(ns, c as int, j)) {
                with_size(ns[j], adjusted_size(ns[j].size, previous_size, refreshed_size))
            } else {
                ns[j]
            },
        decreases match current {
            Some(c) => c as int + 1,
            None => 0,
        },
    {
        let id = current.unwrap();
        let info = match state.tree.node(id) {
            Some(node) => Some((node.size, node.parent)),
            None => None,
        };
        match info {
            Some((size, next)) => {
                let new_size = if refreshed_size >= previous_size {
                    size.saturating_add(refreshed_size - previous_size)
                } else {
                    size.saturating_sub(previous_size - refreshed_size)
                };
                let ghost before = state.tree@;
                set_size(&mut state.tree, id, new_size);
                proof {
                    assert forall|j: int| 0 <= j < ns.len() implies on_chain(ns, id as int, j) == (j == id || (ns[id as int].parent matches Some(p) && on_chain(ns, p as int, j))) by {
                        lemma_chain_step(ns, id as int, j);
                    }
                    lemma_chain_step(ns, id as int, id as int);
                    if let Some(p) = next {
                        assert(on_chain(ns, parent.unwrap() as int, p as int)) by {
                            lemma_chain_extend(ns, parent.unwrap() as int, id as int);
                        }
                    }
                }
                current = next;
            },
            None => {
                proof {
                    assert forall|j: int| 0 <= j < ns.len() implies !on_chain(ns, parent.unwrap() as int, j) by {}
                }
                current = None;
            },
        }
    }
    proof {
        assert(state.tree@ =~= adjusted_tree(ns, parent, previous_size, refreshed_size));
    }
}

/// Node ids ordered by value, for grouping.
struct IdKey {
    id: usize,
}

impl TotalPreorder for IdKey {
    closed spec fn le(self, other: Self) -> bool {
        self.id <= other.id
    }

    proof fn lemma_total(a: Self, b: Self) {
    }

    proof fn lemma_trans(a: Self, b: Self, c: Self) {
    }

    fn exec_le(&self, other: &Self) -> (r: bool) {
        self.id <= other.id
    }
}

/// The distinct values of `ids`, in increasing order.
fn sorted_unique(ids: Vec<usize>) -> (r: Vec<usize>)
    ensures
        forall|x: usize| r@.contains(x) <==> ids@.contains(x),
        forall|a: int, b: int| 0 <= a < b < r@.len() ==> r@[a] < r@[b],
{
    let mut keys: Vec<IdKey> = Vec::new();
    let mut i: usize = 0;
    while i < ids.len()
        invariant
            i <= ids@.len(),
            keys@.len() == i,
            forall|k: int| 0 <= k < i ==> (#[trigger] keys@[k]).id == ids@[k],
        decreases ids@.len() - i,
    {
        keys.push(IdKey { id: ids[i] });
        i += 1;
    }
    let ghost keys0 = keys@;
    let sorted = merge_sort(keys);
    let ghost sk = sorted@;
    proof {
        broadcast use vstd::seq_lib::group_to_multiset_ensures;
        assert forall|x: usize| ids@.contains(x) implies exists|q: int| 0 <= q < sk.len() && sk[q].id == x by {
            let k = choose|k: int| 0 <= k < ids@.len() && ids@[k] == x;
            assert(keys0[k].id == x);
            assert(keys0.contains(keys0[k]));
            assert(keys0.to_multiset().count(keys0[k]) > 0);
            assert(sk.contains(keys0[k]));
        }
        assert forall|q: int| 0 <= q < sk.len() implies ids@.contains(#[trigger] sk[q].id) by {
            crate::order::lemma_permutation_member(keys0, sk, q);
            let m = choose|m: int| 0 <= m < keys0.len() && keys0[m] == sk[q];
            assert(ids@[m] == sk[q].id);
        }
    }
    let mut out: Vec<usize> = Vec::new();
    let mut m: usize = 0;
    while m < sorted.len()
        invariant
            sk == sorted@,
            m <= sk.len(),
            forall|a: int, b: int| 0 <= a < b < sk.len() ==> sk[a].le(sk[b]),
            forall|a: int, b: int| 0 <= a < b < out@.len() ==> out@[a] < out@[b],
            forall|x: usize| out@.contains(x) <==> exists|q: int| 0 <= q < m && sk[q].id == x,
            m > 0 ==> out@.len() > 0 && out@.last() == sk[m - 1].id,
            m == 0 ==> out@.len() == 0,
        decreases sk.len() - m,
    {
        let v = sorted[m].id;
        let ghost before = out@;
        if out.len() == 0 || out[out.len() - 1] != v {
            proof {
                if m > 0 {
                    assert(sk[m - 1].le(sk[m as int]));
                }
            }
            out.push(v);
            proof {
                assert forall|x: usize| out@.contains(x) <==> exists|q: int| 0 <= q < m + 1 && sk[q].id == x by {
                    if out@.contains(x) {
                        let k = choose|k: int| 0 <= k < out@.len() && out@[k] == x;
                        if k < before.len() {
                            assert(before.contains(x));
                        }
                    }
                    if exists|q: int| 0 <= q < m + 1 && sk[q].id == x {
                        let q = choose|q: int| 0 <= q < m + 1 && sk[q].id == x;
                        if q < m {
                            assert(before.contains(x));
                            let k = choose|k: int| 0 <= k < before.len() && before[k] == x;
                            assert(out@[k] == x);
                        } else {
                            assert(out@[out@.len() - 1] == x);
                        }
                    }
                }
            }
        } else {
            proof {
                assert forall|x: usize| out@.contains(x) <==> exists|q: int| 0 <= q < m + 1 && sk[q].id == x by {
                    if exists|q: int| 0 <= q < m + 1 && sk[q].id == x {
                        let q = choose|q: int| 0 <= q < m + 1 && sk[q].id == x;
                        if q == m {
                            assert(out@[out@.len() - 1] == x);
                        }
                    }
                }
            }
        }
        m += 1;
    }
    proof {
        assert forall|x: usize| out@.contains(x) <==> ids@.contains(x) by {
            if ids@.contains(x) {
                let q = choose|q: int| 0 <= q < sk.len() && sk[q].id == x;
            }
        }
    }
    out
}

/// What a queued entry counts toward node `j` of `ns`: a file whose node
/// lies at or below `j` counts its size (or disk size), anything else
/// nothing.
pub open spec fn entry_share(ns: Seq<TreeNode>, e: ScanNode, j: int, disk: bool) -> int {
    match node_for_path(ns, e.path@) {
        Some(n) => if e.kind == NodeType::File && on_chain(ns, n as int, j) {
            if disk { e.disk_size as int } else { e.size as int }
        } else {
            0
        },
        None => 0,
    }
}

/// Total size (or disk size) of the file entries of `es` whose nodes lie at
/// or below node `j`.
pub open spec fn chain_total(ns: Seq<TreeNode>, es: Seq<ScanNode>, j: int, disk: bool) -> int
    decreases es.len(),
{
    if es.len() == 0 {
        0
    } else {
        chain_total(ns, es.drop_last(), j, disk) + entry_share(ns, es.last(), j, disk)
    }
}

/// A non-negative total as a `u64`, saturating at `u64::MAX`.
pub open spec fn capped(x: int) -> u64 {
    if x > u64::MAX {
        u64::MAX
    } else if x < 0 {
        0
    } else {
        x as u64
    }
}

/// An upper bound on the nodes that adding the entries can create: one per
/// character of each path, plus one per entry.
pub open spec fn pending_cost(es: Seq<ScanNode>) -> int
    decreases es.len(),
{
    if es.len() == 0 {
        0
    } else {
        pending_cost(es.drop_last()) + es.last().path@.len() + 1
    }
}

/// Entry `k` has a path of its own: not the root's, no other entry's, and
/// no ancestor of another entry's path.
#[verifier::opaque]
pub open spec fn own_path(root: Seq<char>, es: Seq<ScanNode>, k: int) -> bool {
    &&& es[k].path@ != root
    &&& forall|m: int| 0 <= m < es.len() && m != k ==> (#[trigger] es[m]).path@ != es[k].path@ && !path_above(es[k].path@, es[m].path@)
}

/// Every node but the root has the path and kind of an entry, or is a
/// directory on the way to an entry's path.
#[verifier::opaque]
pub open spec fn nodes_from_entries(ns: Seq<TreeNode>, es: Seq<ScanNode>) -> bool {
    &&& ns[0].file_type == NodeType::Directory
    &&& forall|j: int|
        0 < j < ns.len() ==> {
            ||| exists|k: int| 0 <= k < es.len() && (#[trigger] es[k]).path@ == (#[trigger] ns[j]).path@ && es[k].kind == ns[j].file_type
            ||| ns[j].file_type == NodeType::Directory && exists|k: int| 0 <= k < es.len() && path_above(ns[j].path@, (#[trigger] es[k]).path@)
        }
}

/// `ns` is a tree built from the queued entries `es`: every node is listed
/// once by its parent and hangs under the node of its path's parent (see
/// `parented`); every entry's path has a node, and an entry with a path of
/// its own (see `own_path`) has a node of its kind; every other node is the
/// root, a directory, or has the kind of an entry with its path; a
/// childless directory is empty, and every other childless node holds the
/// total of the file entries at it (saturating).
pub open spec fn holds_entries(ns: Seq<TreeNode>, es: Seq<ScanNode>) -> bool {
    &&& linked(ns)
    &&& parented(ns)
    &&& nodes_from_entries(ns, es)
    &&& forall|k: int| 0 <= k < es.len() ==> node_for_path(ns, (#[trigger] es[k]).path@) is Some
    &&& forall|k: int|
        0 <= k < es.len() && own_path(ns[0].path@, es, k) ==> (node_for_path(ns, (#[trigger] es[k]).path@) matches Some(n)
            && ns[n as int].file_type == es[k].kind)
    &&& forall|j: int|
        0 <= j < ns.len() && (#[trigger] ns[j]).children@.len() == 0 ==> {
            &&& ns[j].size == if ns[j].file_type == NodeType::Directory { 0 } else { capped(chain_total(ns, es, j, false)) }
            &&& ns[j].disk_size == if ns[j].file_type == NodeType::Directory {
                0
            } else {
                capped(chain_total(ns, es, j, true))
            }
        }
}

/// In a tree built from the entries, an entry with a path of its own has a
/// node of its kind: no other entry, and no entry below it, made that node.
proof fn lemma_own_path_kind(ns: Seq<TreeNode>, es: Seq<ScanNode>, k: int)
    requires
        nodes_from_entries(ns, es),
        ns.len() <= usize::MAX,
        0 <= k < es.len(),
        node_for_path(ns, es[k].path@) is Some,
        own_path(ns[0].path@, es, k),
    ensures
        node_for_path(ns, es[k].path@) matches Some(n) && ns[n as int].file_type == es[k].kind,
{
    reveal(own_path);
    reveal(nodes_from_entries);
    let p = es[k].path@;
    FileTree::lemma_last_with_path_facts(ns, p, ns.len() as int);
    let n = node_for_path(ns, p)->0 as int;
    assert(ns[n].path@ == p);
    assert(n != 0);
    let nn = ns[n];
    if exists|m: int| 0 <= m < es.len() && (#[trigger] es[m]).path@ == nn.path@ && es[m].kind == nn.file_type {
        let m = choose|m: int| 0 <= m < es.len() && (#[trigger] es[m]).path@ == nn.path@ && es[m].kind == nn.file_type;
        if m != k {
            assert(es[m].path@ != es[k].path@);
        }
    } else {
        assert(nn.file_type == NodeType::Directory && exists|m: int| 0 <= m < es.len() && path_above(nn.path@, (#[trigger] es[m]).path@));
        let m = choose|m: int| 0 <= m < es.len() && path_above(nn.path@, (#[trigger] es[m]).path@);
        if m == k {
            lemma_path_above_shorter(p, p);
        } else {
            assert(!path_above(es[k].path@, es[m].path@));
        }
    }
}

/// Every entry with a path of its own has a node of its kind.
#[verifier::spinoff_prover]
proof fn lemma_own_path_kinds(ns: Seq<TreeNode>, es: Seq<ScanNode>)
    requires
        nodes_from_entries(ns, es),
        ns.len() <= usize::MAX,
        forall|k: int| 0 <= k < es.len() ==> node_for_path(ns, (#[trigger] es[k]).path@) is Some,
    ensures
        forall|k: int|
            0 <= k < es.len() && own_path(ns[0].path@, es, k) ==> (node_for_path(ns, (#[trigger] es[k]).path@) matches Some(n)
                && ns[n as int].file_type == es[k].kind),
{
    assert forall|k: int| 0 <= k < es.len() && own_path(ns[0].path@, es, k) implies (node_for_path(ns, (#[trigger] es[k]).path@) matches Some(n)
        && ns[n as int].file_type == es[k].kind) by {
        lemma_own_path_kind(ns, es, k);
    }
}

/// Totals read only the paths and parent links of the tree: a tree that
/// keeps the parents of the first nodes, and resolves every entry's path
/// alike, gives the same totals.
proof fn lemma_chain_total_frame(a: Seq<TreeNode>, b: Seq<TreeNode>, es: Seq<ScanNode>, j: int, disk: bool)
    requires
        a.len() <= b.len(),
        a.len() <= usize::MAX,
        forall|c: int| 0 <= c < a.len() ==> (#[trigger] b[c]).parent == a[c].parent,
        forall|k: int| 0 <= k < es.len() ==> node_for_path(b, (#[trigger] es[k]).path@) == node_for_path(a, es[k].path@),
    ensures
        chain_total(b, es, j, disk) == chain_total(a, es, j, disk),
    decreases es.len(),
{
    if es.len() > 0 {
        let d = es.drop_last();
        assert forall|k: int| 0 <= k < d.len() implies node_for_path(b, (#[trigger] d[k]).path@) == node_for_path(a, d[k].path@) by {
            assert(d[k] == es[k]);
        }
        lemma_chain_total_frame(a, b, d, j, disk);
        let e = es.last();
        assert(e == es[es.len() - 1]);
        if let Some(n) = node_for_path(a, e.path@) {
            FileTree::lemma_last_with_path_facts(a, e.path@, a.len() as int);
            lemma_on_chain_frame(a, b, n as int, j);
        }
    }
}

/// Totals are never negative.
proof fn lemma_chain_total_nonneg(ns: Seq<TreeNode>, es: Seq<ScanNode>, j: int, disk: bool)
    ensures
        chain_total(ns, es, j, disk) >= 0,
    decreases es.len(),
{
    if es.len() > 0 {
        lemma_chain_total_nonneg(ns, es.drop_last(), j, disk);
    }
}

/// No entry counts toward a node the tree does not have.
proof fn lemma_chain_total_outside(ns: Seq<TreeNode>, es: Seq<ScanNode>, j: int, disk: bool)
    requires
        j >= ns.len(),
    ensures
        chain_total(ns, es, j, disk) == 0,
    decreases es.len(),
{
    if es.len() > 0 {
        lemma_chain_total_outside(ns, es.drop_last(), j, disk);
        if let Some(n) = node_for_path(ns, es.last().path@) {
            if on_chain(ns, n as int, j) {
                lemma_on_chain_below(ns, n as int, j);
            }
        }
    }
}

/// The bound grows with each entry and never exceeds that of all entries.
proof fn lemma_pending_cost_prefix(es: Seq<ScanNode>, i: int)
    requires
        0 <= i < es.len(),
    ensures
        pending_cost(es.take(i + 1)) == pending_cost(es.take(i)) + es[i].path@.len() + 1,
        pending_cost(es.take(i + 1)) <= pending_cost(es),
        pending_cost(es.take(i)) >= 0,
    decreases es.len() - i,
{
    assert(es.take(i + 1).drop_last() =~= es.take(i));
    lemma_pending_cost_nonneg(es.take(i));
    if i + 1 < es.len() {
        lemma_pending_cost_prefix(es, i + 1);
    } else {
        assert(es.take(i + 1) =~= es);
    }
}

proof fn lemma_pending_cost_nonneg(es: Seq<ScanNode>)
    ensures
        pending_cost(es) >= 0,
    decreases es.len(),
{
    if es.len() > 0 {
        lemma_pending_cost_nonneg(es.drop_last());
    }
}


/// `ns` is `os` with the entry `e` added: the old nodes keep their parents,
/// paths and kinds; the new ones are directories above `e`'s path or `e`'s
/// own node, of its kind; every path that resolved still resolves to the
/// same node, and `e`'s path now resolves; the tree stays linked and
/// parented; a file's sizes are added (saturating) to its node and every
/// node above it, new nodes starting empty.
pub open spec fn inserted(os: Seq<TreeNode>, ns: Seq<TreeNode>, e: ScanNode) -> bool {
    &&& os.len() <= ns.len() <= os.len() + e.path@.len() + 1
    &&& forall|j: int| 0 <= j < os.len() ==> {
        &&& (#[trigger] ns[j]).parent == os[j].parent
        &&& ns[j].path == os[j].path
        &&& ns[j].file_type == os[j].file_type
    }
    &&& forall|j: int| os.len() <= j < ns.len() ==> {
        ||| (#[trigger] ns[j]).file_type == NodeType::Directory && path_above(ns[j].path@, e.path@)
        ||| ns[j].path@ == e.path@ && ns[j].file_type == e.kind
    }
    &&& forall|q: Seq<char>| #[trigger] node_for_path(os, q) is Some ==> node_for_path(ns, q) == node_for_path(os, q)
    &&& linked(os) ==> linked(ns)
    &&& linked(os) && parented(os) ==> parented(ns)
    &&& node_for_path(ns, e.path@) matches Some(n) && {
        &&& node_for_path(os, e.path@) is None ==> ns[n as int].file_type == e.kind
        &&& forall|j: int| 0 <= j < ns.len() ==> {
            let was = if j < os.len() { os[j].size } else { 0u64 };
            let was_disk = if j < os.len() { os[j].disk_size } else { 0u64 };
            let counted = e.kind == NodeType::File && on_chain(ns, n as int, j);
            &&& (#[trigger] ns[j]).size == if counted { sat_add(was, e.size) } else { was }
            &&& ns[j].disk_size == if counted { sat_add(was_disk, e.disk_size) } else { was_disk }
        }
    }
}

/// The tree after the first `i` entries of `acc` were added to a fresh one.
#[verifier::opaque]
spec fn partly_built(t: Seq<TreeNode>, acc: Seq<ScanNode>, i: int) -> bool {
    &&& t.len() <= 1 + pending_cost(acc.take(i))
    &&& t.len() <= usize::MAX
    &&& linked(t)
    &&& parented(t)
    &&& t[0].file_type == NodeType::Directory
    &&& forall|k: int| 0 <= k < i ==> node_for_path(t, (#[trigger] acc[k]).path@) is Some
    &&& forall|j: int|
        0 < j < t.len() ==> {
            ||| exists|k: int| 0 <= k < i && (#[trigger] acc[k]).path@ == (#[trigger] t[j]).path@ && acc[k].kind == t[j].file_type
            ||| t[j].file_type == NodeType::Directory && exists|k: int| 0 <= k < i && path_above(t[j].path@, (#[trigger] acc[k]).path@)
        }
    &&& forall|j: int|
        0 <= j < t.len() ==> (#[trigger] t[j]).size == capped(chain_total(t, acc.take(i), j, false))
            && t[j].disk_size == capped(chain_total(t, acc.take(i), j, true))
}

/// Adding the next entry extends a partly built tree by one entry.
proof fn lemma_insert_step(t0: Seq<TreeNode>, t1: Seq<TreeNode>, acc: Seq<ScanNode>, i: int)
    requires
        0 <= i < acc.len(),
        partly_built(t0, acc, i),
        inserted(t0, t1, acc[i]),
        pending_cost(acc) + 2 < usize::MAX,
    ensures
        partly_built(t1, acc, i + 1),
{
    reveal(partly_built);
    lemma_pending_cost_prefix(acc, i);
    let e = acc[i];
    let pre = acc.take(i);
    let post = acc.take(i + 1);
    assert(post.drop_last() =~= pre);
    assert(post.last() == e);
    assert(t1[0].file_type == t0[0].file_type);
    assert forall|k: int| 0 <= k < i + 1 implies node_for_path(t1, (#[trigger] acc[k]).path@) is Some by {
        if k < i {
            assert(node_for_path(t0, acc[k].path@) is Some);
        }
    }
    assert forall|k: int| 0 <= k < pre.len() implies node_for_path(t1, (#[trigger] pre[k]).path@)
        == node_for_path(t0, pre[k].path@) by {
        assert(pre[k] == acc[k]);
        assert(node_for_path(t0, acc[k].path@) is Some);
    }
    assert forall|j: int| 0 < j < t1.len() implies {
        ||| exists|k: int| 0 <= k < i + 1 && (#[trigger] acc[k]).path@ == (#[trigger] t1[j]).path@ && acc[k].kind == t1[j].file_type
        ||| t1[j].file_type == NodeType::Directory && exists|k: int| 0 <= k < i + 1 && path_above(t1[j].path@, (#[trigger] acc[k]).path@)
    } by {
        if j < t0.len() {
            assert(t1[j].path == t0[j].path && t1[j].file_type == t0[j].file_type);
            if exists|k: int| 0 <= k < i && (#[trigger] acc[k]).path@ == (#[trigger] t0[j]).path@ && acc[k].kind == t0[j].file_type {
                let k = choose|k: int| 0 <= k < i && (#[trigger] acc[k]).path@ == (#[trigger] t0[j]).path@ && acc[k].kind == t0[j].file_type;
                assert(acc[k].path@ == t1[j].path@);
            } else {
                let k = choose|k: int| 0 <= k < i && path_above(t0[j].path@, (#[trigger] acc[k]).path@);
                assert(path_above(t1[j].path@, acc[k].path@));
            }
        } else {
            if t1[j].path@ == e.path@ && t1[j].file_type == e.kind {
                assert(acc[i].path@ == t1[j].path@);
            } else {
                assert(path_above(t1[j].path@, acc[i].path@));
            }
        }
    }
    assert forall|j: int| 0 <= j < t1.len() implies (#[trigger] t1[j]).size == capped(chain_total(t1, post, j, false))
        && t1[j].disk_size == capped(chain_total(t1, post, j, true)) by {
        lemma_chain_total_frame(t0, t1, pre, j, false);
        lemma_chain_total_frame(t0, t1, pre, j, true);
        if j >= t0.len() {
            lemma_chain_total_outside(t0, pre, j, false);
            lemma_chain_total_outside(t0, pre, j, true);
        }
        lemma_chain_total_nonneg(t1, pre, j, false);
        lemma_chain_total_nonneg(t1, pre, j, true);
    }
}

/// `rebuilt` keeps the shape of `built`: the same parents, paths and kinds,
/// and the same children in some order.
#[verifier::opaque]
spec fn same_shape(built: Seq<TreeNode>, rebuilt: Seq<TreeNode>) -> bool {
    &&& rebuilt.len() == built.len()
    &&& forall|j: int| 0 <= j < built.len() ==> {
        &&& (#[trigger] rebuilt[j]).parent == built[j].parent
        &&& rebuilt[j].children@.to_multiset() == built[j].children@.to_multiset()
        &&& rebuilt[j].path == built[j].path
        &&& rebuilt[j].file_type == built[j].file_type
    }
}

/// Kinds and paths carry over to a tree of the same shape.
#[verifier::spinoff_prover]
proof fn lemma_rebuilt_kinds(built: Seq<TreeNode>, rebuilt: Seq<TreeNode>, acc: Seq<ScanNode>)
    requires
        partly_built(built, acc, acc.len() as int),
        same_shape(built, rebuilt),
    ensures
        nodes_from_entries(rebuilt, acc),
        forall|k: int| 0 <= k < acc.len() ==> node_for_path(rebuilt, (#[trigger] acc[k]).path@) is Some,
        linked(rebuilt),
        parented(rebuilt),
        rebuilt.len() <= usize::MAX,
{
    reveal(partly_built);
    reveal(same_shape);
    assert forall|q: Seq<char>| #[trigger] node_for_path(rebuilt, q) == node_for_path(built, q) by {
        lemma_path_lookup_frame(built, rebuilt, q, built.len() as int);
    }
    assert forall|k: int| 0 <= k < acc.len() implies node_for_path(rebuilt, (#[trigger] acc[k]).path@) is Some by {
        assert(node_for_path(built, acc[k].path@) is Some);
    }
    reveal(nodes_from_entries);
    lemma_linked_frame(built, rebuilt);
    lemma_parented_frame(built, rebuilt);
    assert(rebuilt[0].file_type == built[0].file_type);
    assert forall|j: int| 0 < j < rebuilt.len() implies {
        ||| exists|k: int| 0 <= k < acc.len() && (#[trigger] acc[k]).path@ == (#[trigger] rebuilt[j]).path@ && acc[k].kind == rebuilt[j].file_type
        ||| rebuilt[j].file_type == NodeType::Directory && exists|k: int| 0 <= k < acc.len() && path_above(rebuilt[j].path@, (#[trigger] acc[k]).path@)
    } by {
        assert(built[j].file_type == rebuilt[j].file_type && built[j].path == rebuilt[j].path);
        if exists|k: int| 0 <= k < acc.len() && (#[trigger] acc[k]).path@ == (#[trigger] built[j]).path@ && acc[k].kind == built[j].file_type {
            let k = choose|k: int| 0 <= k < acc.len() && (#[trigger] acc[k]).path@ == (#[trigger] built[j]).path@ && acc[k].kind == built[j].file_type;
            assert(acc[k].path@ == rebuilt[j].path@);
        } else {
            let k = choose|k: int| 0 <= k < acc.len() && path_above(built[j].path@, (#[trigger] acc[k]).path@);
            assert(path_above(rebuilt[j].path@, acc[k].path@));
        }
    }
}

/// Sorting children and recomputing sizes keep what the entries put into
/// the tree: the result holds them.
#[verifier::spinoff_prover]
proof fn lemma_rebuilt_holds(built: Seq<TreeNode>, rebuilt: Seq<TreeNode>, acc: Seq<ScanNode>)
    requires
        partly_built(built, acc, acc.len() as int),
        same_shape(built, rebuilt),
        forall|j: int| 0 <= j < built.len() && (#[trigger] rebuilt[j]).children@.len() == 0 ==> {
            &&& rebuilt[j].size == if built[j].file_type == NodeType::Directory { 0 } else { built[j].size }
            &&& rebuilt[j].disk_size == if built[j].file_type == NodeType::Directory { 0 } else { built[j].disk_size }
        },
    ensures
        holds_entries(rebuilt, acc),
{
    lemma_rebuilt_kinds(built, rebuilt, acc);
    lemma_own_path_kinds(rebuilt, acc);
    lemma_rebuilt_leaves(built, rebuilt, acc);
}

/// The childless nodes of the rebuilt tree hold what the entries put there.
#[verifier::spinoff_prover]
proof fn lemma_rebuilt_leaves(built: Seq<TreeNode>, rebuilt: Seq<TreeNode>, acc: Seq<ScanNode>)
    requires
        partly_built(built, acc, acc.len() as int),
        same_shape(built, rebuilt),
        forall|j: int| 0 <= j < built.len() && (#[trigger] rebuilt[j]).children@.len() == 0 ==> {
            &&& rebuilt[j].size == if built[j].file_type == NodeType::Directory { 0 } else { built[j].size }
            &&& rebuilt[j].disk_size == if built[j].file_type == NodeType::Directory { 0 } else { built[j].disk_size }
        },
    ensures
        forall|j: int| 0 <= j < rebuilt.len() && (#[trigger] rebuilt[j]).children@.len() == 0 ==> {
            &&& rebuilt[j].size == if rebuilt[j].file_type == NodeType::Directory { 0 } else { capped(chain_total(rebuilt, acc, j, false)) }
            &&& rebuilt[j].disk_size == if rebuilt[j].file_type == NodeType::Directory {
                0
            } else {
                capped(chain_total(rebuilt, acc, j, true))
            }
        },
{
    reveal(partly_built);
    reveal(same_shape);
    assert(acc.take(acc.len() as int) =~= acc);
    assert forall|q: Seq<char>| #[trigger] node_for_path(rebuilt, q) == node_for_path(built, q) by {
        lemma_path_lookup_frame(built, rebuilt, q, built.len() as int);
    }
    assert forall|j: int| 0 <= j < rebuilt.len() && (#[trigger] rebuilt[j]).children@.len() == 0 implies {
        &&& rebuilt[j].size == if rebuilt[j].file_type == NodeType::Directory { 0 } else { capped(chain_total(rebuilt, acc, j, false)) }
        &&& rebuilt[j].disk_size == if rebuilt[j].file_type == NodeType::Directory {
            0
        } else {
            capped(chain_total(rebuilt, acc, j, true))
        }
    } by {
        lemma_chain_total_frame(built, rebuilt, acc, j, false);
        lemma_chain_total_frame(built, rebuilt, acc, j, true);
    }
}

/// Adds a scanned entry to the tree: its node (and missing ancestors, as
/// directories), its sizes added along the node's ancestors when it is a
/// file, and its metadata in extended mode. Gives back the entry's path and
/// its node's parent.
fn insert_scan_node(state: &mut AppState, node: &ScanNode) -> (r: Option<(String, Option<usize>)>)
    requires
        old(state).wf(),
        old(state).tree@.len() + node.path@.len() + 1 < usize::MAX,
    ensures
        final(state).wf(),
        *final(state) == (AppState { tree: final(state).tree, ..*old(state) }),
        inserted(old(state).tree@, final(state).tree@, *node),
        node_for_path(final(state).tree@, node.path@) matches Some(n) && {
            let ns = final(state).tree@;
            &&& r == Some((node.path, ns[n as int].parent))
            &&& old(state).extended_mode ==> {
                &&& ns[n as int].modified == node.modified
                &&& ns[n as int].permissions == node.permissions
                &&& ns[n as int].uid == node.uid
                &&& ns[n as int].gid == node.gid
            }
        },
{
    let path = node.path.clone();
    let ghost os = state.tree@;
    let node_id = state.tree.ensure_node(path.clone(), node.kind);
    let ghost placed = state.tree@;
    if node.kind == NodeType::File {
        state.tree.add_size(node_id, node.size);
        let ghost half = state.tree@;
        state.tree.add_disk_size(node_id, node.disk_size);
        proof {
            assert forall|j: int| 0 <= j < placed.len() implies (#[trigger] half[j]).parent == placed[j].parent by {
                assert(same_except_sizes(half[j], placed[j]));
            }
            assert forall|j: int| 0 <= j < placed.len() implies on_chain(half, node_id as int, j)
                == on_chain(placed, node_id as int, j) by {
                if node_id < placed.len() {
                    lemma_on_chain_frame(placed, half, node_id as int, j);
                }
            }
        }
    }
    let ghost sized = state.tree@;
    if state.extended_mode {
        state.tree.set_node_metadata(
            node_id,
            NodeMetadata { modified: node.modified, permissions: node.permissions, uid: node.uid, gid: node.gid },
        );
    }
    proof {
        let ns = state.tree@;
        assert forall|j: int| 0 <= j < placed.len() implies (#[trigger] ns[j]).path == placed[j].path
            && ns[j].parent == placed[j].parent && ns[j].file_type == placed[j].file_type
            && ns[j].children == placed[j].children
            && ns[j].size == sized[j].size && ns[j].disk_size == sized[j].disk_size by {
            assert(same_except_sizes(sized[j], placed[j]) || sized[j] == placed[j]);
        }
        lemma_path_lookup_frame(placed, ns, node.path@, placed.len() as int);
        assert forall|q: Seq<char>| #[trigger] node_for_path(placed, q) == node_for_path(ns, q) by {
            lemma_path_lookup_frame(placed, ns, q, placed.len() as int);
        }
        assert forall|j: int| 0 <= j < ns.len() implies on_chain(ns, node_id as int, j) == on_chain(placed, node_id as int, j) by {
            lemma_on_chain_frame(placed, ns, node_id as int, j);
        }
        if linked(os) {
            assert forall|j: int| 0 <= j < placed.len() implies (#[trigger] ns[j]).parent == placed[j].parent
                && ns[j].children@.to_multiset() == placed[j].children@.to_multiset() by {}
            lemma_linked_frame(placed, ns);
        }
        assert forall|j: int| 0 <= j < os.len() implies (#[trigger] placed[j]).size == os[j].size
            && placed[j].disk_size == os[j].disk_size by {
            assert(same_except_children(placed[j], os[j]));
        }
        FileTree::lemma_last_with_path_facts(placed, node.path@, placed.len() as int);
        assert(node_for_path(ns, node.path@) == Some(node_id));
        assert(path == node.path);
        assert forall|j: int| os.len() <= j < ns.len() implies {
            ||| (#[trigger] ns[j]).file_type == NodeType::Directory && path_above(ns[j].path@, node.path@)
            ||| ns[j].path@ == node.path@ && ns[j].file_type == node.kind
        } by {
            assert(placed[j].file_type == ns[j].file_type);
        }
        if linked(os) && parented(os) {
            lemma_parented_frame(placed, ns);
        }
        assert forall|j: int| 0 <= j < ns.len() implies {
            let was = if j < os.len() { os[j].size } else { 0u64 };
            let was_disk = if j < os.len() { os[j].disk_size } else { 0u64 };
            let counted = node.kind == NodeType::File && on_chain(ns, node_id as int, j);
            &&& (#[trigger] ns[j]).size == if counted { sat_add(was, node.size) } else { was }
            &&& ns[j].disk_size == if counted { sat_add(was_disk, node.disk_size) } else { was_disk }
        } by {
            assert(node_id < placed.len());
            assert(placed[j].size == if j < os.len() { os[j].size } else { 0u64 });
            assert(placed[j].disk_size == if j < os.len() { os[j].disk_size } else { 0u64 });
        }
    }
    let parent = match state.tree.node(node_id) {
        Some(n) => n.parent,
        None => None,
    };
    Some((path, parent))
}

/// Selects the node of `path` when there is one, else the root.
pub fn restore_selection(state: &mut AppState, path: Option<String>)
    requires
        old(state).wf(),
    ensures
        *final(state) == (AppState {
            selection: match path {
                Some(p) => match node_for_path(old(state).tree@, p@) {
                    Some(id) => Some(id),
                    None => Some(0),
                },
                None => Some(0),
            },
            ..*old(state)
        }),
{
    if let Some(p) = path {
        if let Some(id) = state.tree.node_id_for_path(p.as_str()) {
            state.selection = Some(id);
            return;
        }
    }
    state.selection = Some(state.tree.root());
}

/// Rebuilds the tree from the entries gathered during the scan: a new tree
/// rooted at the selected node's path (or the old root's path), every
/// entry added (see `insert_scan_node`), the children of every parent met
/// sorted by the current mode, all sizes recomputed, and the selection put
/// back on the node of the previously selected path (or the root). When
/// the entries' paths are short enough for the nodes to be counted in a
/// `usize` (see `pending_cost`), the tree holds every entry
/// (see `holds_entries`).
#[verifier::rlimit(80)]
#[verifier::spinoff_prover]
fn rebuild_tree_from_pending(state: &mut AppState)
    requires
        old(state).wf(),
    ensures
        final(state).wf(),
        sizes_consistent(final(state).tree@),
        final(state).scan_accumulator@.len() == 0,
        *final(state) == (AppState {
            tree: final(state).tree,
            scan_accumulator: final(state).scan_accumulator,
            selection: final(state).selection,
            ..*old(state)
        }),
        final(state).selection is Some,
        pending_cost(old(state).scan_accumulator@) + 2 < usize::MAX ==> holds_entries(
            final(state).tree@,
            old(state).scan_accumulator@,
        ),
{
    let selected_path: Option<String> = match state.selection {
        Some(id) => match state.tree.node(id) {
            Some(n) => Some(n.path.clone()),
            None => None,
        },
        None => None,
    };
    let root_path: String = match &selected_path {
        Some(p) => p.clone(),
        None => state.tree.node(state.tree.root()).unwrap().path.clone(),
    };
    state.tree = FileTree::new(root_path);
    let drained = state.scan_accumulator.drain();
    let ghost acc = drained@;
    let ghost fits = pending_cost(acc) + 2 < usize::MAX;
    let ghost base = *state;
    proof {
        let t = state.tree@;
        assert(acc.take(0) =~= Seq::<ScanNode>::empty());
        reveal(partly_built);
        assert(partly_built(t, acc, 0));
    }
    let mut parents: Vec<usize> = Vec::new();
    let mut i: usize = 0;
    while i < drained.len()
        invariant
            state.wf(),
            i <= drained@.len(),
            acc == drained@,
            *state == (AppState { tree: state.tree, ..base }),
            fits == (pending_cost(acc) + 2 < usize::MAX),
            fits ==> partly_built(state.tree@, acc, i as int),
        decreases drained@.len() - i,
    {
        let plen = drained[i].path.as_str().unicode_len();
        let len = state.tree.nodes().len();
        let ghost t0 = state.tree@;
        proof {
            if fits {
                lemma_pending_cost_prefix(acc, i as int);
                reveal(partly_built);
            }
        }
        if plen < usize::MAX - 2 && len < usize::MAX - 2 - plen {
            if let Some((_path, Some(parent))) = insert_scan_node(state, &drained[i]) {
                parents.push(parent);
            }
            proof {
                if fits {
                    lemma_insert_step(t0, state.tree@, acc, i as int);
                }
            }
        }
        i += 1;
    }
    let ghost built = state.tree@;
    let unique = sorted_unique(parents);
    let mut k: usize = 0;
    while k < unique.len()
        invariant
            state.wf(),
            k <= unique@.len(),
            *state == (AppState { tree: state.tree, ..base }),
            state.tree@.len() == built.len(),
            forall|j: int| 0 <= j < built.len() ==> {
                &&& same_except_children(#[trigger] state.tree@[j], built[j])
                &&& state.tree@[j].children@.to_multiset() == built[j].children@.to_multiset()
            },
        decreases unique@.len() - k,
    {
        let mode = state.sort_mode;
        state.tree.sort_children(unique[k], mode);
        k += 1;
    }
    let ghost sorted_tree = state.tree@;
    state.tree.recompute_sizes();
    proof {
        let rebuilt = state.tree@;
        if fits {
            assert forall|j: int| 0 <= j < built.len() implies {
                &&& (#[trigger] rebuilt[j]).parent == built[j].parent
                &&& rebuilt[j].children@.to_multiset() == built[j].children@.to_multiset()
                &&& rebuilt[j].path == built[j].path
                &&& rebuilt[j].file_type == built[j].file_type
            } by {
                assert(same_except_children(sorted_tree[j], built[j]));
                assert(same_except_sizes(rebuilt[j], sorted_tree[j]));
            }
            assert(same_shape(built, rebuilt)) by {
                reveal(same_shape);
            }
            assert forall|j: int| 0 <= j < built.len() && (#[trigger] rebuilt[j]).children@.len() == 0 implies {
                &&& rebuilt[j].size == if built[j].file_type == NodeType::Directory { 0 } else { built[j].size }
                &&& rebuilt[j].disk_size == if built[j].file_type == NodeType::Directory { 0 } else { built[j].disk_size }
            } by {
                assert(same_except_children(sorted_tree[j], built[j]));
            }
            lemma_rebuilt_holds(built, rebuilt, acc);
        }
    }
    restore_selection(state, selected_path);
}

/// Applies a scanner report to the state, then refreshes what the
/// interface shows (see `refreshed`):
/// - a batch queues its entries, shows the last one's path, then either
///   records and shows its progress or, without progress, marks the scan
///   complete; a batch with activity replaces the activity;
/// - a single entry is queued; activity replaces the activity;
/// - progress is recorded and shown; an error marks the scan failed with
///   "path: message";
/// - completion marks the scan complete, says so, and rebuilds the tree
///   from the queued entries (see `rebuild_tree_from_pending`), after which
///   every directory's size is the sum of its children's and the tree holds
///   every queued entry (see `holds_entries`).
pub fn process_scan_event(state: &mut AppState, event: ScanEvent)
    requires
        old(state).wf(),
    ensures
        final(state).wf(),
        match event {
            ScanEvent::Completed => {
                &&& sizes_consistent(final(state).tree@)
                &&& final(state).scan_state == ScanState::Completed
                &&& final(state).status_message == Some(StatusMessage::ScanComplete)
                &&& final(state).scan_accumulator@.len() == 0
                &&& pending_cost(old(state).scan_accumulator@) + 2 < usize::MAX ==> holds_entries(
                    final(state).tree@,
                    old(state).scan_accumulator@,
                )
            },
            _ => exists|mid: AppState|
                #[trigger] scan_event_applied(*old(state), event, mid) && refreshed(mid, *final(state)),
        },
{
    let ghost before = *state;
    if let ScanEvent::Completed = event {
        state.mark_scan_complete();
        state.update_status(StatusMessage::ScanComplete);
        rebuild_tree_from_pending(state);
        state.refresh_ui();
        return;
    }
    apply_scan_event(state, event);
    let ghost mid = *state;
    state.refresh_ui();
    proof {
        assert(scan_event_applied(before, event, mid));
    }
}

/// Applies a batch (see `scan_event_applied`).
#[verifier::rlimit(50)]
fn apply_batch(state: &mut AppState, batch: ScanBatch)
    requires
        old(state).wf(),
    ensures
        scan_event_applied(*old(state), ScanEvent::Batch(batch), *final(state)),
{
    let ScanBatch { nodes, progress, activity } = batch;
    let last_path: Option<String> = if nodes.len() > 0 {
        Some(nodes[nodes.len() - 1].path.clone())
    } else {
        None
    };
    state.scan_accumulator.push_batch(nodes);
    match progress {
        Some(p) => {
            state.status_message = Some(StatusMessage::ScanProgress { scanned: p.scanned, errors: p.errors });
            state.scan_state = ScanState::Running(p);
        },
        None => {
            if let Some(path) = last_path {
                state.status_message = Some(StatusMessage::ScanPath(path));
            }
            state.scan_state = ScanState::Completed;
        },
    }
    if let Some(a) = activity {
        state.scan_activity = a;
    }
}

/// Applies a scanner report other than completion (see `scan_event_applied`).
fn apply_scan_event(state: &mut AppState, event: ScanEvent)
    requires
        old(state).wf(),
        !(event is Completed),
    ensures
        scan_event_applied(*old(state), event, *final(state)),
{
    match event {
        ScanEvent::Batch(batch) => apply_batch(state, batch),
        ScanEvent::Node(node) => {
            state.scan_accumulator.push_node(node);
        },
        ScanEvent::Activity(a) => {
            state.scan_activity = a;
        },
        ScanEvent::Progress(p) => {
            state.mark_scan_progress(p);
            state.update_status(StatusMessage::ScanProgress { scanned: p.scanned, errors: p.errors });
        },
        ScanEvent::Error(error) => {
            let mut message = error.path.clone();
            crate::text::push_str(&mut message, ": ");
            crate::text::push_str(&mut message, error.message.as_str());
            state.mark_scan_error(message);
        },
        ScanEvent::Completed => {},
    }
}

/// `after` is `before` with a scanner report other than completion applied
/// (see `process_scan_event`), before the refresh.
pub open spec fn scan_event_applied(before: AppState, event: ScanEvent, after: AppState) -> bool {
    &&& after.wf()
    &&& match event {
        ScanEvent::Batch(batch) => {
            &&& after.scan_accumulator@ == before.scan_accumulator@ + batch.nodes@
            &&& after.scan_state == match batch.progress {
                Some(p) => ScanState::Running(p),
                None => ScanState::Completed,
            }
            &&& after.status_message == match batch.progress {
                Some(p) => Some(StatusMessage::ScanProgress { scanned: p.scanned, errors: p.errors }),
                None => if batch.nodes@.len() > 0 {
                    Some(StatusMessage::ScanPath(batch.nodes@.last().path))
                } else {
                    before.status_message
                },
            }
            &&& after.scan_activity == match batch.activity {
                Some(a) => a,
                None => before.scan_activity,
            }
            &&& after == (AppState {
                scan_accumulator: after.scan_accumulator,
                scan_state: after.scan_state,
                status_message: after.status_message,
                scan_activity: after.scan_activity,
                ..before
            })
        },
        ScanEvent::Node(node) => {
            &&& after.scan_accumulator@ == before.scan_accumulator@.push(node)
            &&& after == (AppState { scan_accumulator: after.scan_accumulator, ..before })
        },
        ScanEvent::Activity(a) => after == (AppState { scan_activity: a, ..before }),
        ScanEvent::Progress(p) => after == (AppState {
            scan_state: ScanState::Running(p),
            status_message: Some(StatusMessage::ScanProgress { scanned: p.scanned, errors: p.errors }),
            ..before
        }),
        ScanEvent::Error(e) => {
            &&& after.scan_state matches ScanState::Error(m) && m@ == e.path@ + ": "@ + e.message@
            &&& after == (AppState { scan_state: after.scan_state, ..before })
        },
        ScanEvent::Completed => false,
    }
}

/// Outside work an action asks for. The caller performs it and reports how
/// it went through the matching `finish_` function.
#[derive(Clone, Debug, PartialEq, Eq)]
pub enum InputEffect {
    /// Nothing to do.
    Nothing,
    /// Remove the file or directory at `path` (the node `node_id`).
    DeletePath { node_id: NodeId, path: String },
    /// Open `path` with the system's default viewer.
    OpenPath { path: String },
    /// Write the tree as a snapshot to `path`.
    ExportSnapshot { path: String },
    /// Read a snapshot from `path`; `default_root` names the root when the
    /// snapshot holds no entries.
    ImportSnapshot { path: String, default_root: String },
    /// Measure the size of `path` (the node `node_id`): the total size of
    /// its files for a directory, its length otherwise.
    MeasurePath { node_id: NodeId, path: String, is_directory: bool },
    /// Ask the scan manager to start a scan.
    StartScan,
}

/// Where scans are exported to and imported from.
pub open spec fn snapshot_file() -> Seq<char> {
    "/tmp/darya-scan.json"@
}

/// The snapshot file's path.
pub fn snapshot_path() -> (r: String)
    ensures
        r@ == snapshot_file(),
{
    crate::text::owned("/tmp/darya-scan.json")
}

/// The path of the selected node, when there is one.
pub open spec fn selected_path(state: AppState) -> Option<String> {
    match state.selection {
        Some(id) => if id < state.tree@.len() {
            Some(state.tree@[id as int].path)
        } else {
            None
        },
        None => None,
    }
}

/// Asks to delete the selected entry. Nothing is deleted from a read-only
/// (imported) scan; the first request only asks for confirmation; a second
/// one for the same entry asks the caller to remove it.
pub fn delete_selection(state: &mut AppState) -> (r: InputEffect)
    requires
        old(state).wf(),
    ensures
        delete_applied(*old(state), *final(state), r),
{
    if !state.allow_modifications {
        state.update_status(StatusMessage::ImportReadOnly);
        return InputEffect::Nothing;
    }
    let selected_id = match state.selection {
        Some(id) => id,
        None => return InputEffect::Nothing,
    };
    let path: Option<String> = match state.tree.node(selected_id) {
        Some(node) => Some(node.path.clone()),
        None => None,
    };
    if state.pending_delete != Some(selected_id) {
        state.pending_delete = Some(selected_id);
        if let Some(p) = path {
            state.update_status(StatusMessage::DeleteConfirmation(p));
        }
        return InputEffect::Nothing;
    }
    match path {
        Some(p) => InputEffect::DeletePath { node_id: selected_id, path: p },
        None => {
            state.pending_delete = None;
            InputEffect::Nothing
        },
    }
}

/// The mark put in front of the name of a deleted entry.
pub open spec fn deleted_mark() -> Seq<char> {
    seq!['\u{2716}', ' ']
}

/// The name shown for a deleted entry: marked once.
pub open spec fn deleted_name(name: Seq<char>) -> Seq<char> {
    if name.len() >= 2 && name[0] == '\u{2716}' && name[1] == ' ' {
        name
    } else {
        deleted_mark() + name
    }
}

/// A deleted entry: marked, empty, without children, collapsed.
pub open spec fn deleted_node(old_node: TreeNode, new_node: TreeNode) -> bool {
    &&& new_node.name@ == deleted_name(old_node.name@)
    &&& new_node.size == 0
    &&& new_node.children@.len() == 0
    &&& !new_node.expanded
    &&& new_node.id == old_node.id && new_node.parent == old_node.parent && new_node.path == old_node.path
    &&& new_node.file_type == old_node.file_type && new_node.disk_size == old_node.disk_size
    &&& new_node.modified == old_node.modified && new_node.permissions == old_node.permissions
    &&& new_node.uid == old_node.uid && new_node.gid == old_node.gid
}

/// Marks node `id` deleted (see `deleted_node`).
fn mark_deleted(tree: &mut FileTree, id: NodeId)
    requires
        old(tree).wf(),
    ensures
        final(tree).wf(),
        final(tree)@.len() == old(tree)@.len(),
        forall|j: int| 0 <= j < old(tree)@.len() && j != id ==> final(tree)@[j] == old(tree)@[j],
        id < old(tree)@.len() ==> deleted_node(old(tree)@[id as int], final(tree)@[id as int]),
{
    match tree.node_mut(id) {
        Some(node) => {
            let ghost old_name = node.name@;
            let chars = crate::text::str_chars(node.name.as_str());
            if !(chars.len() >= 2 && chars[0] == '\u{2716}' && chars[1] == ' ') {
                let mut name = crate::text::owned("\u{2716} ");
                proof {
                    reveal_strlit("\u{2716} ");
                    assert("\u{2716} "@ =~= deleted_mark());
                }
                crate::text::push_str(&mut name, node.name.as_str());
                assert(name@ == deleted_name(old_name));
                node.name = name;
            } else {
                assert(node.name@ == deleted_name(old_name));
            }
            node.size = 0;
            node.children = Vec::new();
            node.expanded = false;
        },
        None => {},
    }
}

/// Records how removing the entry went: on success the node is marked
/// deleted (see `deleted_node`) and the status says so; on failure the scan
/// is marked failed with the reason and the status says the deletion failed.
/// Either way nothing is pending deletion any more, and the interface is
/// refreshed.
pub fn finish_delete(state: &mut AppState, node_id: NodeId, path: String, result: Result<(), String>)
    requires
        old(state).wf(),
    ensures
        final(state).wf(),
        final(state).pending_delete is None,
        match result {
            Ok(()) => {
                &&& final(state).status_message == Some(StatusMessage::DeleteSuccess(path))
                &&& node_id < old(state).tree@.len() ==> deleted_node(old(state).tree@[node_id as int], final(state).tree@[node_id as int])
                &&& forall|j: int| 0 <= j < old(state).tree@.len() && j != node_id ==> final(state).tree@[j] == old(state).tree@[j]
            },
            Err(e) => {
                &&& final(state).status_message == Some(StatusMessage::DeleteFailure(path))
                &&& final(state).scan_state matches ScanState::Error(m) && m@ == "delete failed for "@ + path@ + ": "@ + e@
                &&& final(state).tree@ == old(state).tree@
            },
        },
{
    match result {
        Ok(()) => {
            mark_deleted(&mut state.tree, node_id);
            state.update_status(StatusMessage::DeleteSuccess(path));
        },
        Err(e) => {
            let mut message = crate::text::owned("delete failed for ");
            crate::text::push_str(&mut message, path.as_str());
            crate::text::push_str(&mut message, ": ");
            crate::text::push_str(&mut message, e.as_str());
            state.mark_scan_error(message);
            state.update_status(StatusMessage::DeleteFailure(path));
        },
    }
    state.pending_delete = None;
    state.refresh_ui();
}

/// Asks to open the selected entry with the default viewer (not in a
/// read-only scan).
pub fn open_selection(state: &mut AppState) -> (r: InputEffect)
    requires
        old(state).wf(),
    ensures
        open_applied(*old(state), *final(state), r),
{
    if !state.allow_modifications {
        state.update_status(StatusMessage::ImportReadOnly);
        return InputEffect::Nothing;
    }
    let selected_id = match state.selection {
        Some(id) => id,
        None => return InputEffect::Nothing,
    };
    match state.tree.node(selected_id) {
        Some(node) => InputEffect::OpenPath { path: node.path.clone() },
        None => InputEffect::Nothing,
    }
}

/// The outcome of outside work: success, or failure with its reason.
pub open spec fn outcome_of(result: Result<(), String>) -> StatusOutcome {
    match result {
        Ok(()) => StatusOutcome::Success,
        Err(e) => StatusOutcome::Failure(e),
    }
}

fn outcome(result: Result<(), String>) -> (r: StatusOutcome)
    ensures
        r == outcome_of(result),
{
    match result {
        Ok(()) => StatusOutcome::Success,
        Err(e) => StatusOutcome::failure(e),
    }
}

/// Records how opening went, then refreshes the interface.
pub fn finish_open(state: &mut AppState, path: String, result: Result<(), String>)
    requires
        old(state).wf(),
    ensures
        refreshed(
            AppState { status_message: Some(StatusMessage::OpenResult { path, outcome: outcome_of(result) }), ..*old(state) },
            *final(state),
        ),
{
    let o = outcome(result);
    state.update_status(StatusMessage::OpenResult { path, outcome: o });
    state.refresh_ui();
}

/// Asks to write the tree to the snapshot file.
pub fn export_scan(state: &AppState) -> (r: InputEffect)
    ensures
        r matches InputEffect::ExportSnapshot { path } && path@ == snapshot_file(),
{
    InputEffect::ExportSnapshot { path: snapshot_path() }
}

/// Records how exporting went, then refreshes the interface.
pub fn finish_export(state: &mut AppState, path: String, result: Result<(), String>)
    requires
        old(state).wf(),
    ensures
        refreshed(
            AppState { status_message: Some(StatusMessage::ExportResult { path, outcome: outcome_of(result) }), ..*old(state) },
            *final(state),
        ),
{
    let o = outcome(result);
    state.update_status(StatusMessage::ExportResult { path, outcome: o });
    state.refresh_ui();
}

/// Asks to read the tree back from the snapshot file; the current root's
/// path stands in for an empty snapshot's root.
pub fn import_scan(state: &AppState) -> (r: InputEffect)
    requires
        state.wf(),
    ensures
        r matches InputEffect::ImportSnapshot { path, default_root } && path@ == snapshot_file()
            && default_root == state.tree@[0].path,
{
    let default_root = state.tree.node(state.tree.root()).unwrap().path.clone();
    InputEffect::ImportSnapshot { path: snapshot_path(), default_root }
}

/// Records how importing went: on success the imported tree replaces the
/// current one and its root is selected. Then refreshes the interface.
pub fn finish_import(state: &mut AppState, path: String, result: Result<FileTree, String>)
    requires
        old(state).wf(),
        result matches Ok(t) ==> t.wf(),
    ensures
        match result {
            Ok(t) => refreshed(
                AppState {
                    tree: t,
                    selection: Some(0),
                    status_message: Some(StatusMessage::ImportResult { path, outcome: StatusOutcome::Success }),
                    ..*old(state)
                },
                *final(state),
            ),
            Err(e) => refreshed(
                AppState {
                    status_message: Some(StatusMessage::ImportResult { path, outcome: StatusOutcome::Failure(e) }),
                    ..*old(state)
                },
                *final(state),
            ),
        },
{
    match result {
        Ok(tree) => {
            state.tree = tree;
            state.selection = Some(state.tree.root());
            state.update_status(StatusMessage::ImportResult { path, outcome: StatusOutcome::Success });
        },
        Err(e) => {
            state.update_status(StatusMessage::ImportResult { path, outcome: StatusOutcome::failure(e) });
        },
    }
    state.refresh_ui();
}

/// Asks to measure the selected entry again (not in a read-only scan).
pub fn rescan_selection(state: &mut AppState) -> (r: InputEffect)
    requires
        old(state).wf(),
    ensures
        rescan_applied(*old(state), *final(state), r),
{
    if !state.allow_modifications {
        state.update_status(StatusMessage::ImportReadOnly);
        return InputEffect::Nothing;
    }
    let selected_id = match state.selection {
        Some(id) => id,
        None => return InputEffect::Nothing,
    };
    match state.tree.node(selected_id) {
        Some(node) => InputEffect::MeasurePath {
            node_id: selected_id,
            path: node.path.clone(),
            is_directory: node.file_type == NodeType::Directory,
        },
        None => InputEffect::Nothing,
    }
}

/// Records a new measurement of node `node_id`: on success its size becomes
/// the measured one, its ancestors' sizes move by the change (see
/// `adjust_ancestors_after_rescan`) and the status says it was rescanned;
/// on failure only the status changes. Then refreshes the interface.
pub fn finish_rescan(state: &mut AppState, node_id: NodeId, path: String, result: Result<u64, String>)
    requires
        old(state).wf(),
    ensures
        final(state).wf(),
        match result {
            Ok(size) => node_id < old(state).tree@.len() ==> {
                let ns = old(state).tree@;
                let resized = ns.update(node_id as int, with_size(ns[node_id as int], size));
                refreshed(
                    AppState {
                        tree: final(state).tree,
                        status_message: Some(StatusMessage::RescanResult { path, outcome: StatusOutcome::Success }),
                        ..*old(state)
                    },
                    *final(state),
                ) && final(state).tree@ == adjusted_tree(resized, ns[node_id as int].parent, ns[node_id as int].size, size)
            },
            Err(e) => refreshed(
                AppState {
                    status_message: Some(StatusMessage::RescanResult { path, outcome: StatusOutcome::Failure(e) }),
                    ..*old(state)
                },
                *final(state),
            ),
        },
{
    match result {
        Ok(size) => {
            let info = match state.tree.node(node_id) {
                Some(node) => Some((node.size, node.parent)),
                None => None,
            };
            if let Some((previous, parent)) = info {
                set_size(&mut state.tree, node_id, size);
                adjust_ancestors_after_rescan(state, parent, previous, size);
                state.update_status(StatusMessage::RescanResult { path, outcome: StatusOutcome::Success });
            }
        },
        Err(e) => {
            state.update_status(StatusMessage::RescanResult { path, outcome: StatusOutcome::failure(e) });
        },
    }
    state.refresh_ui();
}

/// Effects whose outcome the caller reports back; the interface is
/// refreshed then.
pub open spec fn is_deferred(effect: InputEffect) -> bool {
    ||| effect is DeletePath
    ||| effect is OpenPath
    ||| effect is ExportSnapshot
    ||| effect is ImportSnapshot
    ||| effect is MeasurePath
}

/// Keeping the selection visible twice is keeping it visible once.
pub proof fn lemma_visible_selection_idempotent(ids: Seq<usize>, selection: Option<usize>)
    ensures
        visible_selection(ids, visible_selection(ids, selection)) == visible_selection(ids, selection),
{
    if ids.len() > 0 {
        assert(ids.contains(ids[0]));
    }
}

/// Hidden entries shown or hidden: the treemap entries rebuilt, the
/// selection kept visible under the new setting, and the status saying
/// which.
pub open spec fn toggle_hidden_applied(before: AppState, after: AppState) -> bool {
    let shown = !before.display_options.show_hidden;
    let b2 = AppState { display_options: DisplayOptions { show_hidden: shown, ..before.display_options }, ..before };
    &&& after.wf()
    &&& is_ranking(after.treemap_nodes@, child_entries(b2.tree@, 0, b2.size_mode))
    &&& after == (AppState {
        treemap_nodes: after.treemap_nodes,
        treemap_revision: wrapping_inc(b2.treemap_revision),
        selection: visible_selection(listed_ids(b2.tree@, shown), b2.selection),
        status_message: Some(StatusMessage::HiddenFilesVisible(shown)),
        ..b2
    })
}

/// The root's children sorted by the next sort mode, which becomes the
/// current one, and the status naming it.
pub open spec fn cycle_sort_applied(before: AppState, after: AppState) -> bool {
    let next = spec_next_sort_mode(before.sort_mode);
    &&& after.wf()
    &&& after.tree@.len() == before.tree@.len()
    &&& forall|j: int| 1 <= j < before.tree@.len() ==> after.tree@[j] == before.tree@[j]
    &&& same_except_children(after.tree@[0], before.tree@[0])
    &&& after.tree@[0].children@.to_multiset() == before.tree@[0].children@.to_multiset()
    &&& children_sorted(after.tree@, 0, next)
    &&& after == (AppState { tree: after.tree, sort_mode: next, status_message: Some(StatusMessage::SortMode(next)), ..before })
}

/// `after` and `effect` are what `action` does to `before`, before the
/// interface is refreshed.
pub open spec fn action_applied(before: AppState, action: InputAction, after: AppState, effect: InputEffect) -> bool {
    match action {
        InputAction::MoveUp => effect == InputEffect::Nothing && after == (AppState {
            selection: previous_selection(nav_ids(before), before.selection),
            ..before
        }),
        InputAction::MoveDown => effect == InputEffect::Nothing && after == (AppState {
            selection: next_selection(nav_ids(before), before.selection),
            ..before
        }),
        InputAction::JumpTop => effect == InputEffect::Nothing && after == (AppState {
            selection: if nav_ids(before).len() > 0 { Some(nav_ids(before)[0]) } else { before.selection },
            ..before
        }),
        InputAction::JumpBottom => effect == InputEffect::Nothing && after == (AppState {
            selection: if nav_ids(before).len() > 0 {
                Some(nav_ids(before)[nav_ids(before).len() - 1])
            } else {
                before.selection
            },
            ..before
        }),
        InputAction::Expand => {
            &&& effect == InputEffect::Nothing
            &&& after.wf()
            &&& after.tree@ == expand_tree(before.tree@, before.selection, true)
            &&& after == (AppState { tree: after.tree, ..before })
        },
        InputAction::Select => {
            &&& effect == InputEffect::Nothing
            &&& after.wf()
            &&& after.tree@ == toggle_tree(before.tree@, before.selection)
            &&& after == (AppState { tree: after.tree, ..before })
        },
        InputAction::Collapse => effect == InputEffect::Nothing && after.wf() && collapse_applied(before, after),
        InputAction::Delete => delete_applied(before, after, effect),
        InputAction::Open => open_applied(before, after, effect),
        InputAction::Rescan => rescan_applied(before, after, effect),
        InputAction::ExportScan => after == before && (effect matches InputEffect::ExportSnapshot { path } && path@
            == snapshot_file()),
        InputAction::ImportScan => after == before && (effect matches InputEffect::ImportSnapshot { path, default_root }
            && path@ == snapshot_file() && default_root == before.tree@[0].path),
        InputAction::ToggleSizeMode => effect == InputEffect::Nothing && after == (AppState {
            size_mode: match before.size_mode {
                SizeDisplayMode::Apparent => SizeDisplayMode::Disk,
                SizeDisplayMode::Disk => SizeDisplayMode::Apparent,
            },
            ..before
        }),
        InputAction::ToggleTreemap => {
            &&& effect == InputEffect::Nothing
            &&& after.treemap_visible == !before.treemap_visible
            &&& after.status_message matches Some(StatusMessage::Custom(t)) && t@ == (if after.treemap_visible {
                "treemap panel shown"@
            } else {
                "treemap panel hidden"@
            })
            &&& after == (AppState { treemap_visible: after.treemap_visible, status_message: after.status_message, ..before })
        },
        InputAction::StartFilter => effect == InputEffect::Nothing && start_filter_applied(before, after),
        InputAction::FilterChar(c) => effect == InputEffect::Nothing && filter_char_applied(before, c, after),
        InputAction::FilterBackspace => effect == InputEffect::Nothing && filter_backspace_applied(before, after),
        InputAction::ApplyFilter => effect == InputEffect::Nothing && apply_filter_applied(before, after),
        InputAction::ClearFilter => effect == InputEffect::Nothing && clear_filter_applied(before, after),
        InputAction::CycleSort => effect == InputEffect::Nothing && cycle_sort_applied(before, after),
        InputAction::ToggleHidden => effect == InputEffect::Nothing && toggle_hidden_applied(before, after),
        InputAction::ToggleHelp => effect == InputEffect::Nothing && after == (AppState {
            show_help: !before.show_help,
            status_message: Some(if !before.show_help { StatusMessage::HelpOpened } else { StatusMessage::HelpClosed }),
            ..before
        }),
        InputAction::StartScan => if before.scan_state is Running {
            effect == InputEffect::Nothing && after == before
        } else {
            effect == InputEffect::StartScan && after == (AppState {
                scan_state: ScanState::Running(ScanProgress { scanned: 0, errors: 0 }),
                ..before
            })
        },
        InputAction::Quit | InputAction::NoAction => effect == InputEffect::Nothing && after == before,
    }
}

/// Applies `action` (see `action_applied`) without refreshing.
fn apply_action(action: InputAction, state: &mut AppState) -> (r: InputEffect)
    requires
        old(state).wf(),
    ensures
        final(state).wf(),
        action_applied(*old(state), action, *final(state), r),
{
    match action {
        InputAction::MoveUp => {
            select_previous(state);
            InputEffect::Nothing
        },
        InputAction::MoveDown => {
            select_next(state);
            InputEffect::Nothing
        },
        InputAction::JumpTop => {
            select_first(state);
            InputEffect::Nothing
        },
        InputAction::JumpBottom => {
            select_last(state);
            InputEffect::Nothing
        },
        InputAction::Expand => {
            expand_selection(state);
            InputEffect::Nothing
        },
        InputAction::Select => {
            toggle_selection(state);
            InputEffect::Nothing
        },
        InputAction::Delete => delete_selection(state),
        InputAction::Open => open_selection(state),
        InputAction::ToggleSizeMode => {
            state.toggle_size_mode();
            InputEffect::Nothing
        },
        InputAction::ToggleTreemap => {
            state.toggle_treemap_visibility();
            InputEffect::Nothing
        },
        InputAction::ExportScan => export_scan(state),
        InputAction::ImportScan => import_scan(state),
        InputAction::Rescan => rescan_selection(state),
        InputAction::StartFilter => {
            start_filter(state);
            InputEffect::Nothing
        },
        InputAction::FilterChar(ch) => {
            filter_char(state, ch);
            InputEffect::Nothing
        },
        InputAction::FilterBackspace => {
            filter_backspace(state);
            InputEffect::Nothing
        },
        InputAction::ApplyFilter => {
            apply_filter(state);
            InputEffect::Nothing
        },
        InputAction::ClearFilter => {
            clear_filter(state);
            InputEffect::Nothing
        },
        InputAction::CycleSort => {
            let next = next_sort_mode(state.sort_mode);
            state.set_sort_mode(next);
            state.update_status(StatusMessage::SortMode(next));
            InputEffect::Nothing
        },
        InputAction::ToggleHidden => {
            let ghost b0 = *state;
            state.display_options.show_hidden = !state.display_options.show_hidden;
            let ghost b2 = *state;
            state.refresh_treemap_nodes();
            state.ensure_selection_visible();
            proof {
                lemma_visible_selection_idempotent(listed_ids(b2.tree@, b2.display_options.show_hidden), b2.selection);
            }
            let shown = state.display_options.show_hidden;
            state.update_status(StatusMessage::HiddenFilesVisible(shown));
            InputEffect::Nothing
        },
        InputAction::ToggleHelp => {
            state.show_help = !state.show_help;
            if state.show_help {
                state.update_status(StatusMessage::HelpOpened);
            } else {
                state.update_status(StatusMessage::HelpClosed);
            }
            InputEffect::Nothing
        },
        InputAction::Collapse => {
            collapse_selection(state);
            InputEffect::Nothing
        },
        InputAction::StartScan => {
            let running = match state.scan_state {
                ScanState::Running(_) => true,
                _ => false,
            };
            if !running {
                state.mark_scan_progress(ScanProgress { scanned: 0, errors: 0 });
                InputEffect::StartScan
            } else {
                InputEffect::Nothing
            }
        },
        InputAction::Quit | InputAction::NoAction => InputEffect::Nothing,
    }
}

/// Applies a user action to the state (see `action_applied`). An action
/// that needs outside work returns it; when the caller is to report back
/// (see `is_deferred`), the interface is refreshed by the `finish_`
/// function it calls then, otherwise it is refreshed here.
pub fn handle_input_action(action: InputAction, state: &mut AppState) -> (r: InputEffect)
    requires
        old(state).wf(),
    ensures
        final(state).wf(),
        is_deferred(r) ==> action_applied(*old(state), action, *final(state), r),
        !is_deferred(r) ==> exists|mid: AppState|
            #[trigger] action_applied(*old(state), action, mid, r) && refreshed(mid, *final(state)),
{
    let effect = apply_action(action, state);
    let deferred = match &effect {
        InputEffect::DeletePath { .. } => true,
        InputEffect::OpenPath { .. } => true,
        InputEffect::ExportSnapshot { .. } => true,
        InputEffect::ImportSnapshot { .. } => true,
        InputEffect::MeasurePath { .. } => true,
        _ => false,
    };
    if !deferred {
        let ghost mid = *state;
        state.refresh_ui();
        assert(action_applied(*old(state), action, mid, effect));
    }
    effect
}

} // verus!
