//! What the panels show, computed from the state: the rows of the
//! filesystem listing and the window of them on screen, the detail and
//! activity entries, the footer's progress line and key bindings, and the
//! nodes the treemap descends into.
use crate::display::DisplayOptions;
use crate::scan::ScanActivity;
use crate::state::{node_size, node_size_spec, treemap_entry, AppState, ScanState, SizeDisplayMode};
use crate::theme::{Color, Theme};
use crate::text::{decimal, push_char, push_str, str_chars, string_from_chars, u64_to_string};
use crate::tree::{is_hidden_name, listed_from, listed_kids, FileTree, NodeType, TreeNode};
use crate::treemap::{is_ranking, rect_within, squarified_treemap, Rect, TreemapNode, TreemapTile};
use vstd::prelude::*;

verus! {

/// One row of the filesystem listing.
#[derive(Clone, Debug, PartialEq, Eq)]
pub struct TreeRow {
    pub id: usize,
    pub depth: usize,
    pub name: String,
    pub size: u64,
    pub disk_size: u64,
    pub kind: NodeType,
}

impl TreeRow {
    /// A field-by-field copy.
    pub fn duplicate(&self) -> (r: TreeRow)
        ensures
            r == *self,
    {
        TreeRow {
            id: self.id,
            depth: self.depth,
            name: self.name.clone(),
            size: self.size,
            disk_size: self.disk_size,
            kind: self.kind,
        }
    }

    pub fn id(&self) -> (r: usize)
        ensures
            r == self.id,
    {
        self.id
    }
}

/// The row for the listed pair (node, depth).
pub open spec fn row_from(ns: Seq<TreeNode>, p: (usize, usize)) -> TreeRow {
    TreeRow {
        id: p.0,
        depth: p.1,
        name: ns[p.0 as int].name,
        size: ns[p.0 as int].size,
        disk_size: ns[p.0 as int].disk_size,
        kind: ns[p.0 as int].file_type,
    }
}

/// The rows of the subtree at `id` shown at `depth` (see `listed_from`).
pub open spec fn rows_from(ns: Seq<TreeNode>, id: int, depth: int, show_hidden: bool) -> Seq<TreeRow> {
    listed_from(ns, id, depth, show_hidden).map_values(|p: (usize, usize)| row_from(ns, p))
}

/// Appends the rows of the subtree at `id`, shown at `depth`: the node, then,
/// when it is expanded, its children's rows; hidden entries below the top
/// are skipped with their subtrees unless `options.show_hidden`.
pub fn traverse(tree: &FileTree, id: usize, depth: usize, rows: &mut Vec<TreeRow>, options: DisplayOptions)
    requires
        tree.wf(),
        depth + (tree@.len() - id) <= usize::MAX,
    ensures
        final(rows)@ == old(rows)@ + rows_from(tree@, id as int, depth as int, options.show_hidden),
    decreases tree@.len() - id,
{
    let ghost start = rows@;
    let ghost ns = tree@;
    let node = match tree.node(id) {
        Some(node) => node,
        None => {
            assert(rows_from(ns, id as int, depth as int, options.show_hidden) =~= Seq::<TreeRow>::empty());
            return;
        },
    };
    if depth > 0 && !options.show_hidden && crate::text::starts_with_char(node.name.as_str(), '.') {
        assert(rows_from(ns, id as int, depth as int, options.show_hidden) =~= Seq::<TreeRow>::empty());
        return;
    }
    rows.push(TreeRow {
        id: node.id,
        depth,
        name: node.name.clone(),
        size: node.size,
        disk_size: node.disk_size,
        kind: node.file_type,
    });
    let ghost f = |p: (usize, usize)| row_from(ns, p);
    if node.expanded {
        let n = node.children.len();
        let mut k: usize = 0;
        while k < n
            invariant
                tree.wf(),
                ns == tree@,
                id < ns.len(),
                depth + (ns.len() - id) <= usize::MAX,
                *node == ns[id as int],
                node.expanded,
                n == ns[id as int].children@.len(),
                k <= n,
                !(depth > 0 && !options.show_hidden && is_hidden_name(ns[id as int].name@)),
                f == (|p: (usize, usize)| row_from(ns, p)),
                rows@ == start + seq![row_from(ns, (id, depth))] + listed_kids(ns, id as int, depth as int, options.show_hidden, k as int).map_values(f),
            decreases n - k,
        {
            let c = node.children[k];
            proof {
                assert(id < c < ns.len());
            }
            traverse(tree, c, depth + 1, rows, options);
            proof {
                let a = listed_kids(ns, id as int, depth as int, options.show_hidden, k as int);
                let b = listed_from(ns, c as int, depth as int + 1, options.show_hidden);
                assert(listed_kids(ns, id as int, depth as int, options.show_hidden, k as int + 1) == a + b);
                assert((a + b).map_values(f) =~= a.map_values(f) + b.map_values(f));
            }
            k += 1;
            proof {
                assert(rows@ =~= start + seq![row_from(ns, (id, depth))] + listed_kids(ns, id as int, depth as int, options.show_hidden, k as int).map_values(f));
            }
        }
        proof {
            let kids = listed_kids(ns, id as int, depth as int, options.show_hidden, n as int);
            assert(listed_from(ns, id as int, depth as int, options.show_hidden) == seq![(id, depth)] + kids);
            assert((seq![(id, depth)] + kids).map_values(f) =~= seq![row_from(ns, (id, depth))] + kids.map_values(f));
            assert(rows@ =~= start + rows_from(ns, id as int, depth as int, options.show_hidden));
        }
    } else {
        proof {
            assert(listed_from(ns, id as int, depth as int, options.show_hidden) == seq![(id, depth)]);
            assert(rows_from(ns, id as int, depth as int, options.show_hidden) =~= seq![row_from(ns, (id, depth))]);
            assert(rows@ =~= start + rows_from(ns, id as int, depth as int, options.show_hidden));
        }
    }
}

/// What `str::to_lowercase` makes of a string that is not all ASCII.
pub uninterp spec fn spec_lowercase(s: Seq<char>) -> Seq<char>;

/// Every character is ASCII.
pub open spec fn is_ascii_text(s: Seq<char>) -> bool {
    forall|i: int| 0 <= i < s.len() ==> (#[trigger] s[i] as int) < 128
}

/// The text with its ASCII capitals made small.
pub open spec fn ascii_lowered(s: Seq<char>) -> Seq<char> {
    s.map_values(|c: char| crate::paths::ascii_lower(c))
}

/// What `str::to_lowercase` makes of a string.
pub open spec fn lowered(s: Seq<char>) -> Seq<char> {
    if is_ascii_text(s) {
        ascii_lowered(s)
    } else {
        spec_lowercase(s)
    }
}

/// Calls `str::to_lowercase`, which maps each character to its Unicode
/// lowercase form: an all-ASCII string has its capitals `A` to `Z` made
/// small and keeps every other character; for any other string the result
/// is the named lowercase form.
#[verifier::external_body]
pub(crate) fn lowercase(s: &str) -> (r: String)
    ensures
        r@ == (if is_ascii_text(s@) {
            ascii_lowered(s@)
        } else {
            spec_lowercase(s@)
        }),
{
    s.to_lowercase()
}

/// `needle` occurs in `hay` as a contiguous run.
pub open spec fn has_substring(hay: Seq<char>, needle: Seq<char>) -> bool {
    exists|i: int| 0 <= i <= hay.len() - needle.len() && #[trigger] hay.subrange(i, i + needle.len()) == needle
}

/// Whether `needle` occurs in `hay`.
pub fn contains_substring(hay: &Vec<char>, needle: &Vec<char>) -> (r: bool)
    ensures
        r == has_substring(hay@, needle@),
{
    if needle.len() > hay.len() {
        return false;
    }
    if needle.len() == 0 {
        assert(hay@.subrange(0, 0int + needle@.len()) =~= needle@);
        return true;
    }
    let n = needle.len();
    let hl = hay.len();
    let mut i: usize = 0;
    while i <= hl - n
        invariant
            hl == hay@.len(),
            n == needle@.len(),
            1 <= n <= hay@.len(),
            i <= hay@.len() - n + 1,
            forall|k: int| 0 <= k < i ==> #[trigger] hay@.subrange(k, k + n) != needle@,
        decreases hay@.len() + 1 - i,
    {
        let mut j: usize = 0;
        let mut same = true;
        while j < n
            invariant
                n == needle@.len(),
                hl == hay@.len(),
                i + n <= hay@.len(),
                j <= n,
                same == forall|m: int| 0 <= m < j ==> hay@[i + m] == needle@[m],
            decreases n - j,
        {
            assert(i + j < hay@.len());
            if hay[i + j] != needle[j] {
                same = false;
            }
            j += 1;
        }
        if same {
            assert(hay@.subrange(i as int, i + needle@.len()) =~= needle@);
            return true;
        }
        proof {
            let m = choose|m: int| 0 <= m < n && hay@[i + m] != needle@[m];
            assert(hay@.subrange(i as int, i + n)[m] != needle@[m]);
        }
        i += 1;
    }
    proof {
        assert forall|k: int| 0 <= k <= hay@.len() - needle@.len() implies #[trigger] hay@.subrange(k, k + needle@.len()) != needle@ by {
            assert(k < i);
        }
    }
    false
}

/// The row passes the name filter: its lowercase name holds the lowercase
/// query.
pub open spec fn row_matches(row: TreeRow, query: Seq<char>) -> bool {
    has_substring(lowered(row.name@), lowered(query))
}

/// `needle` occurs in `hay` with ASCII letters compared without regard to
/// case.
pub open spec fn holds_ignoring_ascii_case(hay: Seq<char>, needle: Seq<char>) -> bool {
    exists|i: int|
        0 <= i <= hay.len() - needle.len() && crate::paths::eq_ignore_ascii_case(#[trigger] hay.subrange(i, i + needle.len()), needle)
}

/// Texts of one length have the same ASCII lowercase exactly when they are
/// equal without regard to ASCII case.
proof fn lemma_ascii_lowered_eq(a: Seq<char>, b: Seq<char>)
    requires
        a.len() == b.len(),
    ensures
        (ascii_lowered(a) == ascii_lowered(b)) <==> crate::paths::eq_ignore_ascii_case(a, b),
{
    if crate::paths::eq_ignore_ascii_case(a, b) {
        assert(ascii_lowered(a) =~= ascii_lowered(b));
    }
    if ascii_lowered(a) == ascii_lowered(b) {
        assert forall|k: int| 0 <= k < a.len() implies crate::paths::ascii_lower(#[trigger] a[k]) == crate::paths::ascii_lower(b[k]) by {
            assert(ascii_lowered(a)[k] == ascii_lowered(b)[k]);
        }
    }
}

/// The name filter ignores case: a row whose name is the query always
/// passes it; with an all-ASCII name and query, a row passes exactly when
/// the query occurs in its name, letters compared without regard to case;
/// and an active, non-empty query keeps exactly the listed rows that pass.
pub proof fn lemma_name_filter(ns: Seq<TreeNode>, query: Seq<char>, options: DisplayOptions, row: TreeRow)
    ensures
        row.name@ == query ==> row_matches(row, query),
        is_ascii_text(row.name@) && is_ascii_text(query) ==> (row_matches(row, query) <==> holds_ignoring_ascii_case(
            row.name@,
            query,
        )),
        query.len() > 0 ==> (listing(ns, query, true, options).contains(row) <==> (rows_from(
            ns,
            0,
            0,
            options.show_hidden,
        ).contains(row) && row_matches(row, query))),
{
    let n = row.name@;
    let m = query.len() as int;
    if n == query {
        assert(lowered(n).subrange(0int, 0int + lowered(query).len()) =~= lowered(query));
    }
    if is_ascii_text(n) && is_ascii_text(query) {
        let ln = ascii_lowered(n);
        let lq = ascii_lowered(query);
        if row_matches(row, query) {
            let i = choose|i: int| 0 <= i <= ln.len() - lq.len() && #[trigger] ln.subrange(i, i + lq.len()) == lq;
            assert(ascii_lowered(n.subrange(i, i + m)) =~= ln.subrange(i, i + lq.len()));
            lemma_ascii_lowered_eq(n.subrange(i, i + m), query);
            assert(crate::paths::eq_ignore_ascii_case(n.subrange(i, i + m), query));
        }
        if holds_ignoring_ascii_case(n, query) {
            let i = choose|i: int| 0 <= i <= n.len() - m && crate::paths::eq_ignore_ascii_case(#[trigger] n.subrange(i, i + m), query);
            lemma_ascii_lowered_eq(n.subrange(i, i + m), query);
            assert(ascii_lowered(n.subrange(i, i + m)) =~= ln.subrange(i, i + lq.len()));
            assert(ln.subrange(i, i + lq.len()) == lq);
        }
    }
    if query.len() > 0 {
        let all = rows_from(ns, 0, 0, options.show_hidden);
        let pred = |r: TreeRow| row_matches(r, query);
        assert(listing(ns, query, true, options) == all.filter(pred));
        if all.filter(pred).contains(row) {
            all.lemma_filter_contains_rev(pred, row);
            let k = choose|k: int| 0 <= k < all.filter(pred).len() && all.filter(pred)[k] == row;
            all.lemma_filter_pred(pred, k);
        }
        if all.contains(row) && row_matches(row, query) {
            let k = choose|k: int| 0 <= k < all.len() && all[k] == row;
            all.lemma_filter_contains(pred, k);
        }
    }
}

/// The listing: every row from the root (see `rows_from`), cut down, when a
/// non-empty filter is active, to the rows whose names hold the query
/// (both compared in lowercase).
pub open spec fn listing(ns: Seq<TreeNode>, query: Seq<char>, filter_active: bool, options: DisplayOptions) -> Seq<TreeRow> {
    let all = rows_from(ns, 0, 0, options.show_hidden);
    if filter_active && query.len() > 0 {
        all.filter(|r: TreeRow| row_matches(r, query))
    } else {
        all
    }
}

/// The unfiltered listing starts with the root's row at depth 0, lists
/// every other row deeper and after the row of an expanded node one level up
/// that has it as a child (so nothing under a collapsed directory shows),
/// shows each row's node's name and sizes, and lists no hidden entry below
/// the top unless hidden entries are shown.
pub proof fn lemma_listing_shape(ns: Seq<TreeNode>, query: Seq<char>, options: DisplayOptions)
    requires
        ns.len() <= usize::MAX,
    ensures
        ({
            let rows = listing(ns, query, false, options);
            &&& ns.len() > 0 ==> rows.len() > 0 && rows[0].id == 0 && rows[0].depth == 0 && rows[0].name == ns[0].name
            &&& forall|k: int| #![trigger rows[k]] 0 <= k < rows.len() ==> {
                &&& rows[k].id < ns.len()
                &&& rows[k].name == ns[rows[k].id as int].name
                &&& rows[k].size == ns[rows[k].id as int].size
                &&& rows[k].disk_size == ns[rows[k].id as int].disk_size
                &&& (k > 0 ==> rows[k].depth > 0)
                &&& (rows[k].depth > 0 && !options.show_hidden ==> !is_hidden_name(rows[k].name@))
                &&& (k > 0 ==> exists|q: int| #![trigger rows[q]]
                    0 <= q < k && rows[q].depth + 1 == rows[k].depth && ns[rows[q].id as int].expanded
                        && ns[rows[q].id as int].children@.contains(rows[k].id))
            }
        }),
{
    crate::tree::lemma_listed_rows(ns, 0, 0, options.show_hidden);
    let l = listed_from(ns, 0, 0, options.show_hidden);
    let rows = listing(ns, query, false, options);
    assert forall|k: int| 0 <= k < rows.len() implies rows[k] == row_from(ns, l[k]) by {}
    assert forall|k: int| #![trigger rows[k]] 0 < k < rows.len() implies exists|q: int| #![trigger rows[q]]
        0 <= q < k && rows[q].depth + 1 == rows[k].depth && ns[rows[q].id as int].expanded
            && ns[rows[q].id as int].children@.contains(rows[k].id) by {
        assert(l[k] == l[k]);
        let q = choose|q: int| 0 <= q < k && #[trigger] crate::tree::shown_under(ns, l, q, k);
        assert(rows[q] == row_from(ns, l[q]));
    }
    if ns.len() > 0 {
        assert(l.len() > 0);
    }
}

/// When the root is expanded, the unfiltered listing shows each of its
/// children (that is a node after it and not hidden, or hidden entries are
/// shown) one level down, with the child's name.
pub proof fn lemma_listing_shows_root_children(ns: Seq<TreeNode>, query: Seq<char>, options: DisplayOptions, i: int)
    requires
        ns.len() <= usize::MAX,
        0 < ns.len(),
        ns[0].expanded,
        0 <= i < ns[0].children@.len(),
        0 < ns[0].children@[i] < ns.len(),
        options.show_hidden || !is_hidden_name(ns[ns[0].children@[i] as int].name@),
    ensures
        exists|k: int|
            0 <= k < listing(ns, query, false, options).len() && #[trigger] listing(ns, query, false, options)[k].id == ns[0].children@[i]
                && listing(ns, query, false, options)[k].depth == 1 && listing(ns, query, false, options)[k].name
                == ns[ns[0].children@[i] as int].name,
{
    crate::tree::lemma_listed_children(ns, 0, 0, options.show_hidden, i);
    let l = listed_from(ns, 0, 0, options.show_hidden);
    let rows = listing(ns, query, false, options);
    let m = choose|m: int| 0 <= m < l.len() && l[m] == (ns[0].children@[i], ((0int + 1) as usize));
    assert(rows[m] == row_from(ns, l[m]));
    assert(listing(ns, query, false, options)[m].id == ns[0].children@[i]);
}

/// The rows of the filesystem listing (see `listing`).
pub fn collect_tree_rows(tree: &FileTree, filter_query: &str, filter_active: bool, options: DisplayOptions) -> (r: Vec<TreeRow>)
    requires
        tree.wf(),
    ensures
        r@ == listing(tree@, filter_query@, filter_active, options),
{
    let mut rows: Vec<TreeRow> = Vec::new();
    traverse(tree, tree.root(), 0, &mut rows, options);
    assert(rows@ =~= rows_from(tree@, 0, 0, options.show_hidden));
    if !(filter_active && !filter_query.is_empty()) {
        return rows;
    }
    let ghost all = rows@;
    let ghost pred = |r: TreeRow| row_matches(r, filter_query@);
    let query_lower = lowercase(filter_query);
    let needle = str_chars(query_lower.as_str());
    let mut kept: Vec<TreeRow> = Vec::new();
    let mut i: usize = 0;
    while i < rows.len()
        invariant
            all == rows@,
            i <= rows@.len(),
            needle@ == lowered(filter_query@),
            pred == (|r: TreeRow| row_matches(r, filter_query@)),
            kept@ == all.take(i as int).filter(pred),
        decreases rows@.len() - i,
    {
        let name = lowercase(rows[i].name.as_str());
        let hay = str_chars(name.as_str());
        let keep = contains_substring(&hay, &needle);
        proof {
            assert(all.take(i as int + 1) =~= all.take(i as int).push(all[i as int]));
            all.take(i as int).lemma_filter_push(all[i as int], pred);
        }
        if keep {
            kept.push(rows[i].duplicate());
        }
        i += 1;
    }
    assert(all.take(all.len() as int) =~= all);
    kept
}

/// The size a row shows: the disk size when the display prefers it,
/// otherwise the size of the current mode.
pub open spec fn spec_chosen_size(row: TreeRow, mode: SizeDisplayMode, options: DisplayOptions) -> u64 {
    if options.prefer_disk {
        row.disk_size
    } else {
        match mode {
            SizeDisplayMode::Apparent => row.size,
            SizeDisplayMode::Disk => row.disk_size,
        }
    }
}

pub fn chosen_size(row: &TreeRow, mode: SizeDisplayMode, options: DisplayOptions) -> (r: u64)
    ensures
        r == spec_chosen_size(*row, mode, options),
{
    if options.prefer_disk {
        row.disk_size
    } else {
        match mode {
            SizeDisplayMode::Apparent => row.size,
            SizeDisplayMode::Disk => row.disk_size,
        }
    }
}

/// A value cut to `width`: empty for no width, whole when its UTF-8 length
/// fits, else its first `width` characters.
pub open spec fn trimmed(value: Seq<char>, width: int) -> Seq<char> {
    if width == 0 {
        Seq::empty()
    } else if (vstd::utf8::encode_utf8(value).len() as usize) <= width {
        value
    } else if width < value.len() {
        value.take(width)
    } else {
        value
    }
}

pub fn trim_to_width(value: &str, width: usize) -> (r: String)
    ensures
        r@ == trimmed(value@, width as int),
{
    if width == 0 {
        return String::new();
    }
    if value.len() <= width {
        return crate::text::owned(value);
    }
    let chars = str_chars(value);
    let mut out: Vec<char> = Vec::new();
    let mut i: usize = 0;
    while i < chars.len() && i < width
        invariant
            i <= chars@.len(),
            i <= width,
            out@ == chars@.take(i as int),
        decreases width - i,
    {
        out.push(chars[i]);
        i += 1;
        assert(out@ =~= chars@.take(i as int));
    }
    proof {
        if width >= chars@.len() {
            assert(chars@.take(i as int) =~= chars@);
        }
    }
    string_from_chars(&out)
}

/// `n` spaces.
pub open spec fn spaces(n: int) -> Seq<char> {
    Seq::new(n as nat, |i: int| ' ')
}

fn push_spaces(s: &mut String, n: usize)
    ensures
        final(s)@ == old(s)@ + spaces(n as int),
{
    let mut i: usize = 0;
    while i < n
        invariant
            i <= n,
            s@ == old(s)@ + spaces(i as int),
        decreases n - i,
    {
        push_char(s, ' ');
        i += 1;
        assert(s@ =~= old(s)@ + spaces(i as int));
    }
}

/// `text` centred in `width` columns, the extra space going right; text at
/// least as wide is left as it is.
pub open spec fn centered(text: Seq<char>, width: int) -> Seq<char> {
    if width <= text.len() {
        text
    } else {
        let total = width - text.len();
        spaces(total / 2) + text + spaces(total - total / 2)
    }
}

pub fn center_text(text: &str, width: usize) -> (r: String)
    ensures
        r@ == centered(text@, width as int),
{
    let text_len = text.unicode_len();
    if width <= text_len {
        return crate::text::owned(text);
    }
    let total = width - text_len;
    let left = total / 2;
    let right = total - left;
    let mut result = String::new();
    push_spaces(&mut result, left);
    push_str(&mut result, text);
    push_spaces(&mut result, right);
    result
}

/// The icon shown before a listed node's name.
pub open spec fn kind_icon(kind: NodeType) -> char {
    match kind {
        NodeType::Directory => '\u{1F4C1}',
        NodeType::File => '\u{1F4C4}',
        NodeType::Symlink => '\u{1F517}',
        NodeType::Other => '\u{2753}',
    }
}

/// The name column of a listing row: two spaces per level of depth, the
/// kind's icon, a space and the name.
pub open spec fn name_cell(row: TreeRow) -> Seq<char> {
    spaces(2 * row.depth) + seq![kind_icon(row.kind), ' '] + row.name@
}

pub fn row_name_cell(row: &TreeRow) -> (r: String)
    ensures
        r@ == name_cell(*row),
{
    let mut out = String::new();
    let mut level: usize = 0;
    while level < row.depth
        invariant
            level <= row.depth,
            out@ == spaces(2 * level),
        decreases row.depth - level,
    {
        push_spaces(&mut out, 2);
        level += 1;
        assert(out@ =~= spaces(2 * level));
    }
    let icon = match row.kind {
        NodeType::Directory => '\u{1F4C1}',
        NodeType::File => '\u{1F4C4}',
        NodeType::Symlink => '\u{1F517}',
        NodeType::Other => '\u{2753}',
    };
    push_char(&mut out, icon);
    push_char(&mut out, ' ');
    push_str(&mut out, row.name.as_str());
    assert(out@ =~= name_cell(*row));
    out
}

/// The colours a listing row is drawn in: its text, its background, the
/// percent bar (with a background of its own, except on the selected row,
/// whose highlight shows through), the percent figure and the size.
#[derive(Clone, Copy, Debug, PartialEq, Eq)]
pub struct RowColors {
    pub foreground: Color,
    pub background: Color,
    pub bar: Color,
    pub bar_background: Option<Color>,
    pub percent: Color,
    pub size: Color,
}

/// The selected row is drawn in the background colour on the selection
/// colour; any other row in the foreground colour on the background.
pub open spec fn spec_row_colors(row_id: usize, selection: Option<usize>, theme: Theme) -> RowColors {
    if selection == Some(row_id) {
        RowColors {
            foreground: theme.background,
            background: theme.selection,
            bar: theme.bar,
            bar_background: None,
            percent: theme.foreground,
            size: theme.bar,
        }
    } else {
        RowColors {
            foreground: theme.foreground,
            background: theme.background,
            bar: theme.bar,
            bar_background: Some(theme.bar_bg),
            percent: theme.foreground,
            size: theme.bar,
        }
    }
}

pub fn row_colors(row: &TreeRow, selection: Option<usize>, theme: Theme) -> (r: RowColors)
    ensures
        r == spec_row_colors(row.id, selection, theme),
{
    let selected = match selection {
        Some(id) => id == row.id,
        None => false,
    };
    if selected {
        RowColors {
            foreground: theme.background,
            background: theme.selection,
            bar: theme.bar,
            bar_background: None,
            percent: theme.foreground,
            size: theme.bar,
        }
    } else {
        RowColors {
            foreground: theme.foreground,
            background: theme.background,
            bar: theme.bar,
            bar_background: Some(theme.bar_bg),
            percent: theme.foreground,
            size: theme.bar,
        }
    }
}

/// How the percent column of `width` is shared with a label `label_len`
/// long: the bar takes what the label leaves, and the padding before them
/// what both leave (each at least zero).
pub open spec fn percent_layout(width: int, label_len: int) -> (int, int) {
    let bar = if width > label_len { width - label_len } else { 0 };
    let used = bar + label_len;
    (bar, if width > used { width - used } else { 0 })
}

pub fn percent_cell_layout(width: usize, label_len: usize) -> (r: (usize, usize))
    ensures
        (r.0 as int, r.1 as int) == percent_layout(width as int, label_len as int),
{
    let bar = width.saturating_sub(label_len);
    let used = if bar > 0 { width } else { label_len };
    (bar, width.saturating_sub(used))
}

/// The size column: the label cut to `width` (see `trimmed`) and aligned to
/// the right of it; empty when there is no width.
pub open spec fn size_cell(label: Seq<char>, width: int) -> Seq<char> {
    let t = trimmed(label, width);
    if width == 0 {
        Seq::empty()
    } else if t.len() < width {
        spaces(width - t.len()) + t
    } else {
        t
    }
}

pub fn size_cell_text(label: &str, width: usize) -> (r: String)
    ensures
        r@ == size_cell(label@, width as int),
{
    if width == 0 {
        return String::new();
    }
    let text = trim_to_width(label, width);
    let len = text.as_str().unicode_len();
    let mut out = String::new();
    if len < width {
        push_spaces(&mut out, width - len);
    }
    push_str(&mut out, text.as_str());
    assert(out@ =~= size_cell(label@, width as int));
    out
}

/// Whether `char::is_alphabetic` holds of a character outside ASCII (the
/// Unicode `Alphabetic` property).
pub uninterp spec fn spec_is_alphabetic(c: char) -> bool;

/// What `char::to_uppercase` makes of a character outside ASCII.
pub uninterp spec fn spec_uppercase(c: char) -> Seq<char>;

/// An ASCII letter.
pub open spec fn ascii_letter(c: char) -> bool {
    ('a' <= c && c <= 'z') || ('A' <= c && c <= 'Z')
}

/// The ASCII upper-case form of a character; other characters are kept.
pub open spec fn ascii_upper(c: char) -> char {
    if 'a' <= c && c <= 'z' {
        ((c as u32) - 32) as char
    } else {
        c
    }
}

/// Whether `char::is_alphabetic` holds of a character.
pub open spec fn alphabetic(c: char) -> bool {
    if (c as int) < 128 {
        ascii_letter(c)
    } else {
        spec_is_alphabetic(c)
    }
}

/// What `char::to_uppercase` makes of a character.
pub open spec fn uppercased(c: char) -> Seq<char> {
    if (c as int) < 128 {
        seq![ascii_upper(c)]
    } else {
        spec_uppercase(c)
    }
}

/// Calls `char::is_alphabetic`, which tests the Unicode `Alphabetic`
/// property: among ASCII characters it holds of the letters only; beyond
/// ASCII the result is the named property.
#[verifier::external_body]
fn is_alphabetic(c: char) -> (r: bool)
    ensures
        r == (if (c as int) < 128 {
            ascii_letter(c)
        } else {
            spec_is_alphabetic(c)
        }),
{
    c.is_alphabetic()
}

/// Calls `char::to_uppercase` and collects what it yields: an ASCII
/// character gives itself, its small letters made capital; beyond ASCII the
/// result is the named uppercase form.
#[verifier::external_body]
fn uppercase_chars(c: char) -> (r: Vec<char>)
    ensures
        r@ == (if (c as int) < 128 {
            seq![ascii_upper(c)]
        } else {
            spec_uppercase(c)
        }),
{
    c.to_uppercase().collect()
}

/// The index of the first alphabetic character of `s` at or after `from`,
/// or `s.len()`.
pub open spec fn first_alpha(s: Seq<char>, from: int) -> int
    decreases s.len() - from,
{
    if from >= s.len() {
        s.len() as int
    } else if alphabetic(s[from]) {
        from
    } else {
        first_alpha(s, from + 1)
    }
}

/// `text` with its first alphabetic character in uppercase.
pub open spec fn capitalized(text: Seq<char>) -> Seq<char> {
    let k = first_alpha(text, 0);
    if k >= text.len() {
        text
    } else {
        text.take(k) + uppercased(text[k]) + text.skip(k + 1)
    }
}

pub fn capitalize_first_alpha(text: &str) -> (r: String)
    ensures
        r@ == capitalized(text@),
{
    let chars = str_chars(text);
    let mut out: Vec<char> = Vec::new();
    let mut i: usize = 0;
    while i < chars.len()
        invariant
            i <= chars@.len(),
            out@ == chars@.take(i as int),
            chars@ == text@,
            first_alpha(chars@, 0) == first_alpha(chars@, i as int),
        decreases chars@.len() - i,
    {
        if is_alphabetic(chars[i]) {
            let up = uppercase_chars(chars[i]);
            let mut result = string_from_chars(&out);
            crate::text::push_chars(&mut result, &up);
            let rest_start = i + 1;
            let mut j: usize = rest_start;
            while j < chars.len()
                invariant
                    i < chars@.len(),
                    rest_start == i + 1,
                    rest_start <= j <= chars@.len(),
                    result@ == chars@.take(i as int) + uppercased(chars@[i as int]) + chars@.subrange(rest_start as int, j as int),
                decreases chars@.len() - j,
            {
                push_char(&mut result, chars[j]);
                assert(chars@.subrange(rest_start as int, j + 1) =~= chars@.subrange(rest_start as int, j as int).push(chars@[j as int]));
                j += 1;
            }
            assert(chars@.subrange(rest_start as int, chars@.len() as int) =~= chars@.skip(i + 1));
            proof {
                assert(first_alpha(chars@, i as int) == i);
                assert(chars@ == text@);
                assert(first_alpha(text@, 0) == i);
                assert(capitalized(text@) == chars@.take(i as int) + uppercased(chars@[i as int]) + chars@.skip(i + 1));
            }
            return result;
        }
        out.push(chars[i]);
        i += 1;
        assert(out@ =~= chars@.take(i as int));
    }
    assert(chars@.take(i as int) =~= chars@);
    string_from_chars(&out)
}

/// The ids from the root's child down to `cur` along parent links (empty
/// for the root itself).
pub open spec fn ancestry(ns: Seq<TreeNode>, cur: int) -> Seq<usize>
    decreases cur,
{
    if cur <= 0 {
        seq![]
    } else if cur < ns.len() && (ns[cur].parent matches Some(p) && p < cur) {
        ancestry(ns, ns[cur].parent.unwrap() as int) + seq![cur as usize]
    } else {
        seq![cur as usize]
    }
}

/// The path of ids from just below the root to the selection (empty with
/// no selection).
pub open spec fn spec_selection_path(state: AppState) -> Seq<usize> {
    match state.selection {
        Some(s) => ancestry(state.tree@, s as int),
        None => seq![],
    }
}

pub fn selection_path(state: &AppState) -> (r: Vec<usize>)
    requires
        state.wf(),
    ensures
        r@ == spec_selection_path(*state),
{
    let mut current = match state.selection {
        Some(s) => s,
        None => return Vec::new(),
    };
    let ghost ns = state.tree@;
    let root = state.tree.root();
    let mut stack: Vec<usize> = Vec::new();
    let ghost start = current;
    while current != root
        invariant
            state.wf(),
            ns == state.tree@,
            root == 0,
            state.selection == Some(start),
            ancestry(ns, start as int) == ancestry(ns, current as int) + stack@.reverse(),
        decreases current,
    {
        let parent = match state.tree.node(current) {
            Some(node) => node.parent,
            None => None,
        };
        match parent {
            Some(p) => {
                proof {
                    assert(ancestry(ns, current as int) == ancestry(ns, p as int) + seq![current]);
                    assert(stack@.push(current).reverse() =~= seq![current] + stack@.reverse());
                }
                stack.push(current);
                current = p;
            },
            None => {
                proof {
                    assert(ancestry(ns, current as int) == seq![current]);
                    assert(ancestry(ns, current as int) + stack@.reverse() =~= stack@.push(current).reverse());
                }
                stack.push(current);
                let r = crate::order::reverse_vec(stack);
                assert(ancestry(ns, start as int) =~= r@);
                return r;
            },
        }
    }
    let r = crate::order::reverse_vec(stack);
    assert(ancestry(ns, start as int) =~= r@);
    r
}

/// At least one child is asked for.
pub open spec fn child_limit(max_children: usize) -> int {
    if max_children < 1 {
        1
    } else {
        max_children as int
    }
}

/// `kids` are the children of `parent_id` with a size in the current mode,
/// largest first and then by name, the first `max(max_children, 1)` of them
/// (none when the node does not exist).
pub open spec fn is_gathered(kids: Seq<TreemapNode>, parent_id: usize, state: AppState, max_children: usize) -> bool {
    if parent_id >= state.tree@.len() {
        kids.len() == 0
    } else {
        exists|ranked: Seq<TreemapNode>|
            #[trigger] is_ranking(ranked, crate::state::child_entries(state.tree@, parent_id as int, state.size_mode))
                && kids == crate::treemap::first_n(ranked, child_limit(max_children))
    }
}

/// The children of a node ready for the treemap (see `is_gathered`).
pub fn gather_child_nodes(parent_id: usize, state: &AppState, max_children: usize) -> (r: Vec<TreemapNode>)
    requires
        state.wf(),
    ensures
        is_gathered(r@, parent_id, *state, max_children),
{
    if parent_id >= state.tree.nodes().len() {
        return Vec::new();
    }
    let entries = crate::state::child_treemap_entries(&state.tree, parent_id, state.size_mode);
    let ranked = crate::treemap::rank_nodes(&entries);
    let limit: usize = if max_children < 1 { 1 } else { max_children };
    let mut out: Vec<TreemapNode> = Vec::new();
    let mut i: usize = 0;
    while i < ranked.len() && i < limit
        invariant
            i <= ranked@.len(),
            i <= limit,
            out@ == ranked@.take(i as int),
        decreases ranked@.len() - i,
    {
        out.push(ranked[i].duplicate());
        i += 1;
        assert(out@ =~= ranked@.take(i as int));
    }
    assert(out@ =~= crate::treemap::first_n(ranked@, limit as int));
    assert(is_ranking(ranked@, crate::state::child_entries(state.tree@, parent_id as int, state.size_mode)));
    out
}

/// `i` is the first tile of node `id`.
pub open spec fn first_tile_of(tiles: Seq<TreemapTile>, id: usize, i: int) -> bool {
    &&& 0 <= i < tiles.len()
    &&& tiles[i].node.node_id == id
    &&& forall|j: int| 0 <= j < i ==> (#[trigger] tiles[j]).node.node_id != id
}

/// The first tile of node `id`, if there is one.
fn find_tile(tiles: &Vec<TreemapTile>, id: usize) -> (r: Option<usize>)
    ensures
        r is None ==> forall|i: int| 0 <= i < tiles@.len() ==> (#[trigger] tiles@[i]).node.node_id != id,
        r matches Some(i) ==> first_tile_of(tiles@, id, i as int),
{
    let mut i: usize = 0;
    while i < tiles.len()
        invariant
            i <= tiles@.len(),
            forall|j: int| 0 <= j < i ==> (#[trigger] tiles@[j]).node.node_id != id,
        decreases tiles@.len() - i,
    {
        if tiles[i].node.node_id == id {
            return Some(i);
        }
        i += 1;
    }
    None
}

/// Step `k` of the outlines: the children of path node `path[k]` are
/// gathered (at most 200), laid out as a squarified treemap in the
/// rectangle before (the top-level tile for the first step), and the
/// outline is the rectangle of the first tile of `path[k + 1]`.
pub open spec fn overlay_step(
    r: Seq<Rect>,
    k: int,
    path: Seq<usize>,
    state: AppState,
    kids: Seq<Seq<TreemapNode>>,
    layouts: Seq<Seq<TreemapTile>>,
    top: Rect,
) -> bool {
    let prev = if k == 0 { top } else { r[k - 1] };
    &&& is_gathered(kids[k], path[k], state, 200)
    &&& kids[k].len() > 0
    &&& crate::treemap::is_squarified(layouts[k], kids[k], prev, kids[k].len() as usize)
    &&& exists|i: int| first_tile_of(layouts[k], path[k + 1], i) && #[trigger] layouts[k][i].rect == r[k]
}

/// Why the outlines stop at `k`: the path node has no sized children, or
/// the next node has no tile among them.
pub open spec fn overlay_stop(
    r: Seq<Rect>,
    k: int,
    path: Seq<usize>,
    state: AppState,
    kids: Seq<Seq<TreemapNode>>,
    layouts: Seq<Seq<TreemapTile>>,
    top: Rect,
) -> bool {
    let prev = if k == 0 { top } else { r[k - 1] };
    &&& is_gathered(kids[k], path[k], state, 200)
    &&& kids[k].len() == 0 || (crate::treemap::is_squarified(layouts[k], kids[k], prev, kids[k].len() as usize)
        && forall|i: int| 0 <= i < layouts[k].len() ==> (#[trigger] layouts[k][i]).node.node_id != path[k + 1])
}

/// The outlines `r` follow the steps (see `overlay_step`) from the
/// top-level tile `top`, and, when they end before the path does, the
/// reason is recorded (see `overlay_stop`).
pub open spec fn overlays_explained(
    r: Seq<Rect>,
    path: Seq<usize>,
    state: AppState,
    kids: Seq<Seq<TreemapNode>>,
    layouts: Seq<Seq<TreemapTile>>,
    top: Rect,
) -> bool {
    &&& kids.len() == layouts.len()
    &&& kids.len() >= r.len()
    &&& forall|k: int| 0 <= k < r.len() ==> #[trigger] overlay_step(r, k, path, state, kids, layouts, top)
    &&& r.len() + 1 < path.len() ==> kids.len() > r.len() && overlay_stop(r, r.len() as int, path, state, kids, layouts, top)
}

/// The outlines that mark the selection below the top level of the treemap:
/// starting from the tile of the path's first node, each further node of the
/// path is found among its parent's children laid out inside the parent's
/// rectangle (see `overlay_step`), and its rectangle is added. It stops at
/// the end of the path, or at a node with no sized children or whose child
/// has no tile there (see `overlay_stop`). No outline is made when the path
/// is empty or its first node has no tile.
pub fn selection_highlight_overlays(tiles: &Vec<TreemapTile>, path: &Vec<usize>, state: &AppState) -> (r: Vec<Rect>)
    requires
        state.wf(),
    ensures
        path@.len() == 0 ==> r@.len() == 0,
        path@.len() > 0 && (forall|i: int| 0 <= i < tiles@.len() ==> (#[trigger] tiles@[i]).node.node_id != path@[0])
            ==> r@.len() == 0,
        path@.len() > 0 ==> r@.len() < path@.len(),
        path@.len() > 0 && (exists|i: int| 0 <= i < tiles@.len() && (#[trigger] tiles@[i]).node.node_id == path@[0])
            ==> exists|top: int|
            #[trigger] first_tile_of(tiles@, path@[0], top) && exists|kids: Seq<Seq<TreemapNode>>, layouts: Seq<Seq<TreemapTile>>|
                #[trigger] overlays_explained(r@, path@, *state, kids, layouts, tiles@[top].rect),
        r@.len() > 0 ==> exists|i: int| first_tile_of(tiles@, path@[0], i) && rect_within(r@[0], #[trigger] tiles@[i].rect),
        forall|k: int| 0 <= k < r@.len() - 1 ==> rect_within(#[trigger] r@[k + 1], r@[k]),
{
    let mut overlays: Vec<Rect> = Vec::new();
    if path.len() == 0 {
        return overlays;
    }
    let root_index = match find_tile(tiles, path[0]) {
        Some(i) => i,
        None => return overlays,
    };
    let root_rect = tiles[root_index].rect;
    let mut current_rect = root_rect;
    let mut parent_id = path[0];
    let mut k: usize = 1;
    let mut done = false;
    let ghost mut kids: Seq<Seq<TreemapNode>> = Seq::empty();
    let ghost mut layouts: Seq<Seq<TreemapTile>> = Seq::empty();
    while k < path.len() && !done
        invariant
            state.wf(),
            1 <= k <= path@.len(),
            overlays@.len() == k - 1,
            first_tile_of(tiles@, path@[0], root_index as int),
            root_rect == tiles@[root_index as int].rect,
            parent_id == path@[k - 1],
            overlays@.len() == 0 ==> current_rect == root_rect,
            overlays@.len() > 0 ==> current_rect == overlays@.last(),
            overlays@.len() > 0 ==> rect_within(overlays@[0], root_rect),
            forall|q: int| 0 <= q < overlays@.len() - 1 ==> rect_within(#[trigger] overlays@[q + 1], overlays@[q]),
            kids.len() == layouts.len(),
            !done ==> kids.len() == overlays@.len(),
            done ==> kids.len() == overlays@.len() + 1 && k < path@.len() && overlay_stop(
                overlays@,
                overlays@.len() as int,
                path@,
                *state,
                kids,
                layouts,
                root_rect,
            ),
            forall|q: int| 0 <= q < overlays@.len() ==> overlay_step(overlays@, q, path@, *state, kids, layouts, root_rect),
        decreases path@.len() - k, if done { 0int } else { 1int },
    {
        let child_id = path[k];
        let children = gather_child_nodes(parent_id, state, 200);
        let ghost step = (k - 1) as int;
        if children.len() == 0 {
            proof {
                let old_kids = kids;
                let old_layouts = layouts;
                kids = kids.push(children@);
                layouts = layouts.push(Seq::empty());
                assert forall|q: int| 0 <= q < overlays@.len() implies overlay_step(overlays@, q, path@, *state, kids, layouts, root_rect) by {
                    assert(kids[q] == old_kids[q]);
                    assert(layouts[q] == old_layouts[q]);
                    assert(overlay_step(overlays@, q, path@, *state, old_kids, old_layouts, root_rect));
                    let iq = choose|iq: int| first_tile_of(old_layouts[q], path@[q + 1], iq) && #[trigger] old_layouts[q][iq].rect == overlays@[q];
                    assert(layouts[q][iq].rect == overlays@[q]);
                }
                assert(kids[overlays@.len() as int] == children@);
            }
            done = true;
        } else {
            let child_tiles = squarified_treemap(&children, current_rect, children.len());
            match find_tile(&child_tiles, child_id) {
                Some(i) => {
                    let rect = child_tiles[i].rect;
                    let ghost before = overlays@;
                    let ghost old_kids = kids;
                    let ghost old_layouts = layouts;
                    overlays.push(rect);
                    proof {
                        kids = kids.push(children@);
                        layouts = layouts.push(child_tiles@);
                        assert(rect_within(rect, current_rect));
                        assert forall|q: int| 0 <= q < overlays@.len() - 1 implies rect_within(#[trigger] overlays@[q + 1], overlays@[q]) by {
                            if q < before.len() - 1 {
                                assert(overlays@[q + 1] == before[q + 1]);
                                assert(overlays@[q] == before[q]);
                            }
                        }
                        let prev = if step == 0 { root_rect } else { overlays@[step - 1] };
                        assert(prev == current_rect) by {
                            if step > 0 {
                                assert(overlays@[step - 1] == before[step - 1]);
                            }
                        }
                        assert(layouts[step][i as int].rect == overlays@[step]);
                        assert(overlay_step(overlays@, step, path@, *state, kids, layouts, root_rect));
                        assert forall|q: int| 0 <= q < overlays@.len() implies overlay_step(overlays@, q, path@, *state, kids, layouts, root_rect) by {
                            if q < step {
                                assert(kids[q] == old_kids[q]);
                                assert(layouts[q] == old_layouts[q]);
                                assert(overlays@[q] == before[q]);
                                if q > 0 {
                                    assert(overlays@[q - 1] == before[q - 1]);
                                }
                                assert(overlay_step(before, q, path@, *state, old_kids, old_layouts, root_rect));
                                let iq = choose|iq: int| first_tile_of(old_layouts[q], path@[q + 1], iq) && #[trigger] old_layouts[q][iq].rect == before[q];
                                assert(layouts[q][iq].rect == overlays@[q]);
                            }
                        }
                    }
                    current_rect = rect;
                    parent_id = child_id;
                    k += 1;
                },
                None => {
                    proof {
                        let old_kids = kids;
                        let old_layouts = layouts;
                        kids = kids.push(children@);
                        layouts = layouts.push(child_tiles@);
                        let prev = if step == 0 { root_rect } else { overlays@[step - 1] };
                        assert(prev == current_rect);
                        assert forall|q: int| 0 <= q < overlays@.len() implies overlay_step(overlays@, q, path@, *state, kids, layouts, root_rect) by {
                            assert(kids[q] == old_kids[q]);
                            assert(layouts[q] == old_layouts[q]);
                            assert(overlay_step(overlays@, q, path@, *state, old_kids, old_layouts, root_rect));
                            let iq = choose|iq: int| first_tile_of(old_layouts[q], path@[q + 1], iq) && #[trigger] old_layouts[q][iq].rect == overlays@[q];
                            assert(layouts[q][iq].rect == overlays@[q]);
                        }
                    }
                    done = true;
                },
            }
        }
    }
    proof {
        assert(first_tile_of(tiles@, path@[0], root_index as int));
        assert(overlays_explained(overlays@, path@, *state, kids, layouts, tiles@[root_index as int].rect));
    }
    overlays
}

/// The name the treemap panel is titled with: the root's name.
pub open spec fn scope_name(state: AppState) -> Seq<char> {
    if state.tree@.len() > 0 {
        state.tree@[0].name@
    } else {
        "root"@
    }
}

pub fn treemap_scope_name(state: &AppState) -> (r: String)
    ensures
        r@ == scope_name(*state),
{
    match state.tree.node(state.tree.root()) {
        Some(root) => root.name.clone(),
        None => crate::text::owned("root"),
    }
}

/// The symbols of the braille spinner `BRAILLE_EIGHT` of
/// `throbber_widgets_tui`, in order.
pub open spec fn spinner_frames() -> Seq<Seq<char>> {
    seq![
        seq!['\u{28f7}'],
        seq!['\u{28ef}'],
        seq!['\u{28df}'],
        seq!['\u{287f}'],
        seq!['\u{28bf}'],
        seq!['\u{28fb}'],
        seq!['\u{28fd}'],
        seq!['\u{28fe}'],
    ]
}

/// Reads how many symbols `throbber_widgets_tui::BRAILLE_EIGHT` has; claims
/// eight, as that crate's source lists.
#[verifier::external_body]
pub(crate) fn braille_symbol_count() -> (r: usize)
    ensures
        r == spinner_frames().len(),
{
    throbber_widgets_tui::BRAILLE_EIGHT.symbols.len()
}

/// Reads symbol `index` of `throbber_widgets_tui::BRAILLE_EIGHT`; claims it
/// is the one `spinner_frames` lists there, as that crate's source shows.
#[verifier::external_body]
fn braille_symbol(index: usize) -> (r: String)
    requires
        index < spinner_frames().len(),
    ensures
        r@ == spinner_frames()[index as int],
{
    throbber_widgets_tui::BRAILLE_EIGHT.symbols[index].to_string()
}

/// The spinner symbol shown at `phase`: the symbols in turn, round and round.
pub fn spinner_symbol(phase: usize) -> (r: String)
    ensures
        r@ == spinner_frames()[(phase as int) % 8],
{
    let count = braille_symbol_count();
    braille_symbol(phase % count)
}

/// Where row `sel` of `len` rows brings a window of `height` rows that
/// started at `offset`: moved just enough to show it, and no further down
/// than the last full window.
pub open spec fn window_offset(len: int, sel: int, height: int, offset: int) -> int {
    let moved = if sel < offset {
        sel
    } else if sel >= offset + height {
        sel + 1 - height
    } else {
        offset
    };
    let max_offset = if len > height { len - height } else { 0 };
    if moved > max_offset {
        max_offset
    } else {
        moved
    }
}

/// The node ids of the rows, in order.
pub open spec fn row_ids(rows: Seq<TreeRow>) -> Seq<usize> {
    rows.map_values(|r: TreeRow| r.id)
}

/// The row index of the selection in the listing (its first row), or 0.
pub open spec fn selected_index(rows: Seq<TreeRow>, selection: Option<usize>) -> int {
    match selection {
        Some(s) => if crate::events::position(row_ids(rows), s) >= 0 {
            crate::events::position(row_ids(rows), s)
        } else {
            0
        },
        None => 0,
    }
}

/// The largest size a row of the listing shows (1 for no rows).
pub open spec fn max_row_size(rows: Seq<TreeRow>, mode: SizeDisplayMode, options: DisplayOptions) -> u64
    decreases rows.len(),
{
    if rows.len() == 0 {
        1
    } else if rows.len() == 1 {
        spec_chosen_size(rows[0], mode, options)
    } else {
        let m = max_row_size(rows.drop_last(), mode, options);
        let v = spec_chosen_size(rows.last(), mode, options);
        if v > m {
            v
        } else {
            m
        }
    }
}

/// The largest size in the listing: it is at least the chosen size of every
/// row and is the chosen size of one of them; an empty listing counts 1.
pub proof fn lemma_max_row_size(rows: Seq<TreeRow>, mode: SizeDisplayMode, options: DisplayOptions)
    ensures
        rows.len() == 0 ==> max_row_size(rows, mode, options) == 1,
        forall|k: int| 0 <= k < rows.len() ==> spec_chosen_size(#[trigger] rows[k], mode, options) <= max_row_size(rows, mode, options),
        rows.len() > 0 ==> exists|k: int| 0 <= k < rows.len() && spec_chosen_size(#[trigger] rows[k], mode, options) == max_row_size(rows, mode, options),
    decreases rows.len(),
{
    if rows.len() > 1 {
        let d = rows.drop_last();
        lemma_max_row_size(d, mode, options);
        assert forall|k: int| 0 <= k < rows.len() implies spec_chosen_size(#[trigger] rows[k], mode, options) <= max_row_size(rows, mode, options) by {
            if k < d.len() {
                assert(rows[k] == d[k]);
            }
        }
        let v = spec_chosen_size(rows.last(), mode, options);
        if v > max_row_size(d, mode, options) {
            assert(spec_chosen_size(rows[rows.len() - 1], mode, options) == max_row_size(rows, mode, options));
        } else {
            let k = choose|k: int| 0 <= k < d.len() && spec_chosen_size(#[trigger] d[k], mode, options) == max_row_size(d, mode, options);
            assert(rows[k] == d[k]);
        }
    } else if rows.len() == 1 {
        assert(spec_chosen_size(rows[0], mode, options) == max_row_size(rows, mode, options));
    }
}

/// The filesystem panel's content: the rows in the window, the largest size
/// in the listing (the 100% of the bars), the widths of the percent and size
/// columns, and the filter prompt's text when it is open.
#[derive(Debug)]
pub struct FilesystemViewModel {
    pub rows: Vec<TreeRow>,
    pub max_size: u64,
    pub percent_width: usize,
    pub size_width: usize,
    pub filter_prompt: Option<String>,
}

fn max_size_of(rows: &Vec<TreeRow>, mode: SizeDisplayMode, options: DisplayOptions) -> (r: u64)
    ensures
        r == max_row_size(rows@, mode, options),
{
    if rows.len() == 0 {
        return 1;
    }
    let mut best = chosen_size(&rows[0], mode, options);
    let mut i: usize = 1;
    while i < rows.len()
        invariant
            1 <= i <= rows@.len(),
            best == max_row_size(rows@.take(i as int), mode, options),
        decreases rows@.len() - i,
    {
        let v = chosen_size(&rows[i], mode, options);
        proof {
            assert(rows@.take(i as int + 1).drop_last() =~= rows@.take(i as int));
            assert(rows@.take(i as int + 1).last() == rows@[i as int]);
            if i == 1 {
                assert(rows@.take(1) =~= seq![rows@[0]]);
            }
        }
        if v > best {
            best = v;
        }
        i += 1;
    }
    proof {
        assert(rows@.take(rows@.len() as int) =~= rows@);
        if rows@.len() == 1 {
            assert(rows@.take(1) =~= rows@);
        }
    }
    best
}

fn find_row(rows: &Vec<TreeRow>, selection: Option<usize>) -> (r: usize)
    ensures
        r == selected_index(rows@, selection),
        rows@.len() > 0 ==> r < rows@.len(),
{
    let mut ids: Vec<usize> = Vec::new();
    let mut i: usize = 0;
    while i < rows.len()
        invariant
            i <= rows@.len(),
            ids@ == row_ids(rows@.take(i as int)),
        decreases rows@.len() - i,
    {
        ids.push(rows[i].id);
        i += 1;
        assert(ids@ =~= row_ids(rows@.take(i as int)));
    }
    assert(rows@.take(i as int) =~= rows@);
    match selection {
        Some(s) => {
            proof {
                crate::events::lemma_position(ids@, s);
            }
            match crate::events::find_position(&ids, s) {
                Some(k) => k,
                None => 0,
            }
        },
        None => 0,
    }
}

impl FilesystemViewModel {
    /// The listing (see `listing`) seen through a window of the panel's
    /// height less its borders: the window keeps the selection in view (see
    /// `window_offset`) and the state remembers where it starts. Columns
    /// take 30% and 15% of the width, at least one each. The prompt shows
    /// the query (a space when empty) when it is open and the panel is taller
    /// than three rows and at least four wide.
    #[verifier::rlimit(80)]
    pub fn build(state: &mut AppState, area_width: u16, area_height: u16) -> (r: Self)
        requires
            old(state).wf(),
        ensures
            ({
                let rows = listing(old(state).tree@, old(state).filter.query@, old(state).filter.active, old(state).display_options);
                let height = if area_height >= 2 { area_height - 2 } else { 0 };
                let offset = if rows.len() > 0 && height > 0 {
                    window_offset(rows.len() as int, selected_index(rows, old(state).selection), height as int, old(state).scroll_offset as int)
                } else {
                    0
                };
                &&& 0 <= offset <= rows.len() <= usize::MAX
                &&& *final(state) == (AppState { scroll_offset: offset as usize, ..*old(state) })
                &&& r.rows@ == if height == 0 { Seq::<TreeRow>::empty() } else { rows.skip(offset).take(
                    if rows.len() - offset < height { rows.len() - offset } else { height as int },
                ) }
                &&& r.max_size == max_row_size(rows, old(state).size_mode, old(state).display_options)
                &&& r.percent_width == if area_width * 30 / 100 < 1 { 1 } else { area_width * 30 / 100 }
                &&& r.size_width == if area_width * 15 / 100 < 1 { 1 } else { area_width * 15 / 100 }
                &&& (r.filter_prompt is Some) == (old(state).filter.prompt_active && area_height > 3 && area_width >= 4)
                &&& (r.filter_prompt matches Some(p) ==> p@ == if old(state).filter.query@.len() == 0 {
                    seq![' ']
                } else {
                    old(state).filter.query@
                })
                &&& (rows.len() > 0 && height > 0 ==> offset <= selected_index(rows, old(state).selection) < offset + height)
            }),
    {
        let tree_rows = collect_tree_rows(&state.tree, state.filter.query.as_str(), state.filter.active, state.display_options);
        let max_size = max_size_of(&tree_rows, state.size_mode, state.display_options);
        let visible_height: usize = if area_height >= 2 { (area_height - 2) as usize } else { 0 };
        let offset = if tree_rows.len() > 0 && visible_height > 0 {
            let selected = find_row(&tree_rows, state.selection);
            window_for(tree_rows.len(), selected, visible_height, state.scroll_offset)
        } else {
            0
        };
        state.set_scroll_offset(offset);
        let width = area_width as usize;
        let percent_width: usize = if width * 30 / 100 < 1 { 1 } else { width * 30 / 100 };
        let size_width: usize = if width * 15 / 100 < 1 { 1 } else { width * 15 / 100 };
        let rows = window_rows(&tree_rows, offset, visible_height);
        let filter_prompt = prompt_text(&state.filter, area_width, area_height);
        FilesystemViewModel { rows, max_size, percent_width, size_width, filter_prompt }
    }
}

/// The window start for the selection (see `window_offset`); the selected
/// row lies in the window.
fn window_for(len: usize, selected: usize, height: usize, offset: usize) -> (r: usize)
    requires
        selected < len,
        height > 0,
    ensures
        r == window_offset(len as int, selected as int, height as int, offset as int),
        r <= selected < r + height,
        r <= len,
{
    let mut offset = offset;
    if selected < offset {
        offset = selected;
    } else if selected - offset >= height {
        offset = selected + 1 - height;
    }
    let max_offset = if len > height { len - height } else { 0 };
    if offset > max_offset {
        offset = max_offset;
    }
    offset
}

/// At most `height` rows from `offset` on (none for no height).
fn window_rows(rows: &Vec<TreeRow>, offset: usize, height: usize) -> (r: Vec<TreeRow>)
    requires
        offset <= rows@.len(),
    ensures
        r@ == if height == 0 { Seq::<TreeRow>::empty() } else { rows@.skip(offset as int).take(
            if rows@.len() - offset < height { rows@.len() - offset } else { height as int },
        ) },
{
    let mut out: Vec<TreeRow> = Vec::new();
    if height == 0 {
        return out;
    }
    let mut i = offset;
    while i < rows.len() && i - offset < height
        invariant
            offset <= i <= rows@.len(),
            i - offset <= height,
            out@ == rows@.subrange(offset as int, i as int),
        decreases rows@.len() - i,
    {
        out.push(rows[i].duplicate());
        i += 1;
        assert(out@ =~= rows@.subrange(offset as int, i as int));
    }
    proof {
        let len = rows@.len() as int;
        let take = if len - offset < height { len - offset } else { height as int };
        assert(out@ =~= rows@.skip(offset as int).take(take));
    }
    out
}

/// The filter prompt's text when it is open and the panel is taller than
/// three rows and at least four wide: the query, or a space for none.
fn prompt_text(filter: &crate::state::FilterState, area_width: u16, area_height: u16) -> (r: Option<String>)
    ensures
        (r is Some) == (filter.prompt_active && area_height > 3 && area_width >= 4),
        r matches Some(p) ==> p@ == if filter.query@.len() == 0 { seq![' '] } else { filter.query@ },
{
    if filter.prompt_active && area_height > 3 && area_width >= 4 {
        if filter.query.as_str().unicode_len() == 0 {
            proof {
                reveal_strlit(" ");
            }
            Some(crate::text::owned(" "))
        } else {
            Some(filter.query.clone())
        }
    } else {
        None
    }
}

/// One line of the activity panel.
#[derive(Debug)]
pub struct ActivityMetric {
    pub label: &'static str,
    pub value: String,
}

/// The activity panel's lines.
#[derive(Debug)]
pub struct ActivityViewModel {
    pub metrics: Vec<ActivityMetric>,
}

/// The activity lines: labels and values, in order.
pub open spec fn activity_lines(a: ScanActivity) -> Seq<(Seq<char>, Seq<char>)> {
    seq![
        ("Path"@, match a.current_path {
            Some(p) => p@,
            None => "idle"@,
        }),
        ("Queued dirs"@, decimal(a.queued_directories as nat)),
        ("Permission denied"@, decimal(a.permission_denied as nat)),
        ("Skipped mounts"@, decimal(a.skipped_mounts as nat)),
        ("Skipped symlinks"@, decimal(a.skipped_symlinks as nat)),
        ("Files processed"@, decimal(a.files_processed as nat)),
    ]
}

pub open spec fn metric_view(m: ActivityMetric) -> (Seq<char>, Seq<char>) {
    (m.label@, m.value@)
}

impl ActivityViewModel {
    /// The scanner's current path (or "idle") and its counters.
    pub fn build(state: &AppState) -> (r: Self)
        ensures
            r.metrics@.map_values(|m: ActivityMetric| metric_view(m)) == activity_lines(state.scan_activity),
    {
        let activity = state.scan_activity_snapshot();
        let path_value = match &activity.current_path {
            Some(p) => p.clone(),
            None => crate::text::owned("idle"),
        };
        let mut metrics: Vec<ActivityMetric> = Vec::new();
        metrics.push(ActivityMetric { label: "Path", value: path_value });
        metrics.push(ActivityMetric { label: "Queued dirs", value: u64_to_string(activity.queued_directories) });
        metrics.push(ActivityMetric { label: "Permission denied", value: u64_to_string(activity.permission_denied) });
        metrics.push(ActivityMetric { label: "Skipped mounts", value: u64_to_string(activity.skipped_mounts) });
        metrics.push(ActivityMetric { label: "Skipped symlinks", value: u64_to_string(activity.skipped_symlinks) });
        metrics.push(ActivityMetric { label: "Files processed", value: u64_to_string(activity.files_processed) });
        let r = ActivityViewModel { metrics };
        assert(r.metrics@.map_values(|m: ActivityMetric| metric_view(m)) =~= activity_lines(state.scan_activity));
        r
    }
}

/// One line of the detail panel.
#[derive(Debug, PartialEq, Eq)]
pub struct DetailEntry {
    pub glyph: String,
    pub key: String,
    pub value: String,
}

/// The detail panel's lines.
#[derive(Debug)]
pub struct DetailViewModel {
    pub entries: Vec<DetailEntry>,
}

/// A detail line: glyph, tab, key and colon, tab, value.
pub open spec fn detail_text(glyph: Seq<char>, key: Seq<char>, value: Seq<char>) -> Seq<char> {
    glyph + seq!['\t'] + key + seq![':', '\t'] + value
}

fn detail_line(glyph: &str, key: &str, value: &str) -> (r: String)
    ensures
        r@ == detail_text(glyph@, key@, value@),
{
    let mut s = crate::text::owned(glyph);
    push_char(&mut s, '\t');
    push_str(&mut s, key);
    push_char(&mut s, ':');
    push_char(&mut s, '\t');
    push_str(&mut s, value);
    assert(s@ =~= detail_text(glyph@, key@, value@));
    s
}

/// The label of a node type.
pub open spec fn kind_label(kind: NodeType) -> Seq<char> {
    match kind {
        NodeType::Directory => "directory"@,
        NodeType::File => "file"@,
        NodeType::Symlink => "symlink"@,
        NodeType::Other => "other"@,
    }
}

/// The selected node, when there is one.
pub open spec fn selected_node(state: AppState) -> Option<TreeNode> {
    match state.selection {
        Some(id) => if id < state.tree@.len() {
            Some(state.tree@[id as int])
        } else {
            None
        },
        None => None,
    }
}

/// The detail lines for the selection: path, type, apparent size, disk size
/// and item count (directories only), or the five keys with empty values
/// when nothing is selected. `apparent` and `disk` are the selected node's
/// sizes as the caller writes them.
pub open spec fn detail_lines(state: AppState, apparent: Seq<char>, disk: Seq<char>) -> Seq<Seq<char>> {
    match selected_node(state) {
        None => seq![
            detail_text("\u{2022}"@, "path"@, seq![]),
            detail_text("\u{2022}"@, "type"@, seq![]),
            detail_text("\u{2022}"@, "apparent"@, seq![]),
            detail_text("\u{2022}"@, "disk"@, seq![]),
            detail_text("\u{2022}"@, "items"@, seq![]),
        ],
        Some(n) => seq![
            detail_text("\u{1f4c2}"@, "path"@, n.path@),
            detail_text("\u{2b24}"@, "type"@, kind_label(n.file_type)),
            detail_text("\u{2696}"@, "apparent"@, apparent),
            detail_text("\u{1f4be}"@, "disk"@, disk),
            detail_text("\u{1f4e6}"@, "items"@, if n.file_type == NodeType::Directory {
                decimal(n.children@.len() as nat)
            } else {
                seq![]
            }),
        ],
    }
}

pub open spec fn string_view(s: String) -> Seq<char> {
    s@
}

/// The detail lines (see `detail_lines`).
pub fn detail_panel_lines(state: &AppState, apparent: &str, disk: &str) -> (r: Vec<String>)
    requires
        state.wf(),
    ensures
        r@.map_values(|s: String| string_view(s)) == detail_lines(*state, apparent@, disk@),
{
    let mut lines: Vec<String> = Vec::new();
    let node = match state.selection {
        Some(id) => state.tree.node(id),
        None => None,
    };
    match node {
        None => {
            lines.push(detail_line("\u{2022}", "path", ""));
            lines.push(detail_line("\u{2022}", "type", ""));
            lines.push(detail_line("\u{2022}", "apparent", ""));
            lines.push(detail_line("\u{2022}", "disk", ""));
            lines.push(detail_line("\u{2022}", "items", ""));
            proof {
                reveal_strlit("");
            }
        },
        Some(n) => {
            let kind = match n.file_type {
                NodeType::Directory => "directory",
                NodeType::File => "file",
                NodeType::Symlink => "symlink",
                NodeType::Other => "other",
            };
            lines.push(detail_line("\u{1f4c2}", "path", n.path.as_str()));
            lines.push(detail_line("\u{2b24}", "type", kind));
            lines.push(detail_line("\u{2696}", "apparent", apparent));
            lines.push(detail_line("\u{1f4be}", "disk", disk));
            if n.file_type == NodeType::Directory {
                let count = crate::text::usize_to_string(n.children.len());
                lines.push(detail_line("\u{1f4e6}", "items", count.as_str()));
            } else {
                lines.push(detail_line("\u{1f4e6}", "items", ""));
                proof {
                    reveal_strlit("");
                }
            }
        },
    }
    assert(lines@.map_values(|s: String| string_view(s)) =~= detail_lines(*state, apparent@, disk@));
    lines
}

/// The position of the first tab at or after `from`, or the length.
pub open spec fn next_tab(s: Seq<char>, from: int) -> int
    decreases s.len() - from,
{
    if from >= s.len() {
        s.len() as int
    } else if s[from] == '\t' {
        from
    } else {
        next_tab(s, from + 1)
    }
}

/// `s` without its trailing colons.
pub open spec fn trim_colons(s: Seq<char>) -> Seq<char>
    decreases s.len(),
{
    if s.len() > 0 && s.last() == ':' {
        trim_colons(s.drop_last())
    } else {
        s
    }
}

/// The three tab-separated fields of a line, the last one holding the rest
/// of the line; missing fields are empty, and the key loses its trailing
/// colons.
pub open spec fn parsed_entry(line: Seq<char>) -> (Seq<char>, Seq<char>, Seq<char>) {
    let t1 = next_tab(line, 0);
    let glyph = line.subrange(0, t1);
    if t1 >= line.len() {
        (glyph, seq![], seq![])
    } else {
        let t2 = next_tab(line, t1 + 1);
        let key = line.subrange(t1 + 1, t2);
        let value = if t2 >= line.len() { seq![] } else { line.subrange(t2 + 1, line.len() as int) };
        (glyph, trim_colons(key), value)
    }
}

pub open spec fn entry_view(e: DetailEntry) -> (Seq<char>, Seq<char>, Seq<char>) {
    (e.glyph@, e.key@, e.value@)
}

fn find_tab(chars: &Vec<char>, from: usize) -> (r: usize)
    requires
        from <= chars@.len(),
    ensures
        r == next_tab(chars@, from as int),
        from <= r <= chars@.len(),
    decreases chars@.len() - from,
{
    if from >= chars.len() {
        chars.len()
    } else if chars[from] == '\t' {
        from
    } else {
        find_tab(chars, from + 1)
    }
}

fn sub_string(chars: &Vec<char>, start: usize, end: usize) -> (r: String)
    requires
        start <= end <= chars@.len(),
    ensures
        r@ == chars@.subrange(start as int, end as int),
{
    let mut s = String::new();
    let mut i = start;
    while i < end
        invariant
            start <= i <= end,
            end <= chars@.len(),
            s@ == chars@.subrange(start as int, i as int),
        decreases end - i,
    {
        push_char(&mut s, chars[i]);
        i += 1;
        assert(s@ =~= chars@.subrange(start as int, i as int));
    }
    s
}

fn trim_end_colons(chars: &Vec<char>, start: usize, end: usize) -> (r: usize)
    requires
        start <= end <= chars@.len(),
    ensures
        start <= r <= end,
        chars@.subrange(start as int, r as int) == trim_colons(chars@.subrange(start as int, end as int)),
    decreases end - start,
{
    if end > start && chars[end - 1] == ':' {
        assert(chars@.subrange(start as int, end as int).drop_last() =~= chars@.subrange(start as int, end - 1));
        trim_end_colons(chars, start, end - 1)
    } else {
        end
    }
}

/// Splits a detail line into its entry (see `parsed_entry`).
pub fn parse_detail_line(line: &str) -> (r: DetailEntry)
    ensures
        entry_view(r) == parsed_entry(line@),
{
    let chars = str_chars(line);
    let t1 = find_tab(&chars, 0);
    let glyph = sub_string(&chars, 0, t1);
    if t1 >= chars.len() {
        return DetailEntry { glyph, key: String::new(), value: String::new() };
    }
    let t2 = find_tab(&chars, t1 + 1);
    let key_end = trim_end_colons(&chars, t1 + 1, t2);
    let key = sub_string(&chars, t1 + 1, key_end);
    let value = if t2 >= chars.len() { String::new() } else { sub_string(&chars, t2 + 1, chars.len()) };
    DetailEntry { glyph, key, value }
}

impl DetailViewModel {
    /// The detail lines (see `detail_lines`), each split into glyph, key
    /// and value (see `parsed_entry`).
    pub fn build(state: &AppState, apparent: &str, disk: &str) -> (r: Self)
        requires
            state.wf(),
        ensures
            r.entries@.map_values(|e: DetailEntry| entry_view(e)) == detail_lines(*state, apparent@, disk@).map_values(
                |l: Seq<char>| parsed_entry(l),
            ),
    {
        let lines = detail_panel_lines(state, apparent, disk);
        let ghost lv = lines@.map_values(|s: String| string_view(s));
        let mut entries: Vec<DetailEntry> = Vec::new();
        let mut i: usize = 0;
        while i < lines.len()
            invariant
                i <= lines@.len(),
                lv == lines@.map_values(|s: String| string_view(s)),
                entries@.map_values(|e: DetailEntry| entry_view(e)) == lv.take(i as int).map_values(|l: Seq<char>| parsed_entry(l)),
            decreases lines@.len() - i,
        {
            let e = parse_detail_line(lines[i].as_str());
            let ghost before = entries@;
            entries.push(e);
            proof {
                assert(lv[i as int] == lines@[i as int]@);
                assert(lv.take(i as int + 1) =~= lv.take(i as int).push(lv[i as int]));
                assert(entries@ == before.push(e));
                assert(entries@.map_values(|e: DetailEntry| entry_view(e)) =~= before.map_values(|e: DetailEntry| entry_view(e)).push(entry_view(e)));
            }
            i += 1;
            assert(entries@.map_values(|e: DetailEntry| entry_view(e)) =~= lv.take(i as int).map_values(|l: Seq<char>| parsed_entry(l)));
        }
        assert(lv.take(i as int) =~= lv);
        DetailViewModel { entries }
    }
}

/// The key bindings the footer lists, in order: key, then what it does.
pub open spec fn footer_bindings() -> Seq<(Seq<char>, Seq<char>)> {
    seq![
        ("R"@, "scan"@),
        ("?"@, "help"@),
        ("j/k"@, "move"@),
        ("h/l"@, "collapse/expand"@),
        ("enter/tab"@, "open"@),
        ("/"@, "filter"@),
        ("c"@, "clear"@),
        ("b"@, "size"@),
        ("s"@, "sort"@),
        ("t"@, "treemap"@),
        ("r"@, "scan"@),
        ("q"@, "quit"@),
    ]
}

pub open spec fn binding_view(b: (&'static str, &'static str)) -> (Seq<char>, Seq<char>) {
    (b.0@, b.1@)
}

/// The footer's key bindings (see `footer_bindings`).
pub fn footer_keybindings() -> (r: Vec<(&'static str, &'static str)>)
    ensures
        r@.map_values(|b: (&'static str, &'static str)| binding_view(b)) == footer_bindings(),
{
    let mut v: Vec<(&'static str, &'static str)> = Vec::new();
    v.push(("R", "scan"));
    v.push(("?", "help"));
    v.push(("j/k", "move"));
    v.push(("h/l", "collapse/expand"));
    v.push(("enter/tab", "open"));
    v.push(("/", "filter"));
    v.push(("c", "clear"));
    v.push(("b", "size"));
    v.push(("s", "sort"));
    v.push(("t", "treemap"));
    v.push(("r", "scan"));
    v.push(("q", "quit"));
    assert(v@.map_values(|b: (&'static str, &'static str)| binding_view(b)) =~= footer_bindings());
    v
}

/// The width of a binding written `key:action`.
pub open spec fn binding_width(b: (Seq<char>, Seq<char>)) -> int {
    b.0.len() as int + 1 + b.1.len() as int
}

/// The widest of the first `k` bindings.
pub open spec fn max_binding_width(bs: Seq<(Seq<char>, Seq<char>)>, k: int) -> int
    decreases k,
{
    if k <= 0 {
        0
    } else {
        let m = max_binding_width(bs, k - 1);
        if binding_width(bs[k - 1]) > m {
            binding_width(bs[k - 1])
        } else {
            m
        }
    }
}

/// How many bindings fit in `width` columns, trying `candidate` of them and
/// fewer, each in an equal chunk that must hold the widest of them; with
/// that chunk. Nothing fits in no width.
pub open spec fn footer_choice(bs: Seq<(Seq<char>, Seq<char>)>, width: int, candidate: int) -> Option<(int, int)>
    decreases candidate,
{
    if candidate <= 0 || width <= 0 {
        None
    } else {
        let chunk = width / candidate;
        if chunk > 0 && max_binding_width(bs, candidate) <= chunk {
            Some((candidate, chunk))
        } else {
            footer_choice(bs, width, candidate - 1)
        }
    }
}

/// One binding of the footer line with the spaces around it.
#[derive(Debug, PartialEq, Eq)]
pub struct FooterItem {
    pub key: &'static str,
    pub action: &'static str,
    pub pad_left: usize,
    pub pad_right: usize,
}

/// The padding around binding `idx` of `count` in chunks of `chunk`
/// columns, the last chunk taking the remainder of `width`: the spare
/// columns, the smaller half on the left.
pub open spec fn item_padding(b: (Seq<char>, Seq<char>), idx: int, count: int, chunk: int, width: int) -> (int, int) {
    let this_chunk = if idx == count - 1 { chunk + (width - chunk * count) } else { chunk };
    let spare = if this_chunk > binding_width(b) { this_chunk - binding_width(b) } else { 0 };
    (spare / 2, spare - spare / 2)
}

pub open spec fn item_view(i: FooterItem) -> (Seq<char>, Seq<char>, int, int) {
    (i.key@, i.action@, i.pad_left as int, i.pad_right as int)
}

proof fn lemma_footer_choice_range(bs: Seq<(Seq<char>, Seq<char>)>, width: int, candidate: int)
    ensures
        footer_choice(bs, width, candidate) matches Some((c, k)) ==> 0 < c <= candidate && k == width / c && 0 < k <= width,
    decreases candidate,
{
    if candidate > 0 && width > 0 {
        lemma_footer_choice_range(bs, width, candidate - 1);
        let chunk = width / candidate;
        assert(chunk <= width) by (nonlinear_arith)
            requires
                chunk == width / candidate,
                candidate > 0,
                width > 0,
        ;
    }
}

/// The footer bindings are short: keys of at most nine characters, actions
/// of at most fifteen.
proof fn lemma_footer_widths()
    ensures
        footer_bindings().len() == 12,
        forall|i: int| 0 <= i < 12 ==> (#[trigger] footer_bindings()[i]).0.len() <= 9 && footer_bindings()[i].1.len() <= 15,
{
    reveal_strlit("R");
    reveal_strlit("scan");
    reveal_strlit("?");
    reveal_strlit("help");
    reveal_strlit("j/k");
    reveal_strlit("move");
    reveal_strlit("h/l");
    reveal_strlit("collapse/expand");
    reveal_strlit("enter/tab");
    reveal_strlit("open");
    reveal_strlit("/");
    reveal_strlit("filter");
    reveal_strlit("c");
    reveal_strlit("clear");
    reveal_strlit("b");
    reveal_strlit("size");
    reveal_strlit("s");
    reveal_strlit("sort");
    reveal_strlit("t");
    reveal_strlit("treemap");
    reveal_strlit("r");
    reveal_strlit("q");
    reveal_strlit("quit");
}

fn max_width_of(bindings: &Vec<(&'static str, &'static str)>, count: usize) -> (r: usize)
    requires
        bindings@.map_values(|b: (&'static str, &'static str)| binding_view(b)) == footer_bindings(),
        count <= 12,
    ensures
        r == max_binding_width(footer_bindings(), count as int),
        r <= 25,
{
    proof {
        lemma_footer_widths();
    }
    let ghost bs = footer_bindings();
    let mut max_len: usize = 0;
    let mut k: usize = 0;
    while k < count
        invariant
            bindings@.map_values(|b: (&'static str, &'static str)| binding_view(b)) == bs,
            bs == footer_bindings(),
            bs.len() == 12,
            forall|i: int| 0 <= i < 12 ==> (#[trigger] bs[i]).0.len() <= 9 && bs[i].1.len() <= 15,
            k <= count <= 12,
            max_len == max_binding_width(bs, k as int),
            max_len <= 25,
        decreases count - k,
    {
        let (key, action) = bindings[k];
        proof {
            assert(binding_view(bindings@[k as int]) == bs[k as int]);
            assert(bs[k as int].0.len() <= 9);
        }
        let w = key.unicode_len() + 1 + action.unicode_len();
        if w > max_len {
            max_len = w;
        }
        k += 1;
    }
    max_len
}

fn choose_footer(bindings: &Vec<(&'static str, &'static str)>, width: usize) -> (r: Option<(usize, usize)>)
    requires
        bindings@.map_values(|b: (&'static str, &'static str)| binding_view(b)) == footer_bindings(),
    ensures
        match footer_choice(footer_bindings(), width as int, 12) {
            None => r is None,
            Some((c, k)) => r == Some((c as usize, k as usize)),
        },
        r matches Some((c, k)) ==> 0 < c <= 12 && k == width / c,
{
    proof {
        lemma_footer_widths();
    }
    if width == 0 {
        return None;
    }
    let mut candidate: usize = 12;
    while candidate > 0
        invariant
            bindings@.map_values(|b: (&'static str, &'static str)| binding_view(b)) == footer_bindings(),
            candidate <= 12,
            width > 0,
            footer_choice(footer_bindings(), width as int, 12) == footer_choice(footer_bindings(), width as int, candidate as int),
        decreases candidate,
    {
        let chunk = width / candidate;
        if chunk > 0 {
            let max_len = max_width_of(bindings, candidate);
            if max_len <= chunk {
                return Some((candidate, chunk));
            }
        }
        candidate -= 1;
    }
    None
}

/// The footer's binding line for `width` columns: as many bindings as fit
/// (see `footer_choice`), each padded to its chunk (see `item_padding`);
/// nothing when none fits.
pub fn footer_binding_line(width: usize) -> (r: Option<Vec<FooterItem>>)
    ensures
        ({
            let bs = footer_bindings();
            match footer_choice(bs, width as int, 12) {
                None => r is None,
                Some((count, chunk)) => r matches Some(items) && items@.len() == count && forall|i: int|
                    0 <= i < count ==> #[trigger] item_view(items@[i]) == (
                        bs[i].0,
                        bs[i].1,
                        item_padding(bs[i], i, count, chunk, width as int).0,
                        item_padding(bs[i], i, count, chunk, width as int).1,
                    ),
            }
        }),
{
    let bindings = footer_keybindings();
    let ghost bs = footer_bindings();
    proof {
        lemma_footer_widths();
    }
    let (count, chunk_width) = match choose_footer(&bindings, width) {
        Some(c) => c,
        None => return None,
    };
    proof {
        lemma_footer_choice_range(bs, width as int, 12);
        assert(count as int * chunk_width as int <= width) by (nonlinear_arith)
            requires
                chunk_width == width / count,
                count > 0,
        ;
        assert(chunk_width as int <= count as int * chunk_width as int) by (nonlinear_arith)
            requires
                count >= 1,
        ;
    }
    let remainder = width - chunk_width * count;
    let mut items: Vec<FooterItem> = Vec::new();
    let mut idx: usize = 0;
    while idx < count
        invariant
            bindings@.map_values(|b: (&'static str, &'static str)| binding_view(b)) == bs,
            bs == footer_bindings(),
            bs.len() == 12,
            forall|i: int| 0 <= i < 12 ==> (#[trigger] bs[i]).0.len() <= 9 && bs[i].1.len() <= 15,
            0 < count <= 12,
            chunk_width * count <= width,
            chunk_width <= chunk_width * count,
            remainder == width - chunk_width * count,
            idx <= count,
            items@.len() == idx,
            forall|i: int| 0 <= i < idx ==> #[trigger] item_view(items@[i]) == (
                bs[i].0,
                bs[i].1,
                item_padding(bs[i], i, count as int, chunk_width as int, width as int).0,
                item_padding(bs[i], i, count as int, chunk_width as int, width as int).1,
            ),
        decreases count - idx,
    {
        let (key, action) = bindings[idx];
        proof {
            assert(binding_view(bindings@[idx as int]) == bs[idx as int]);
            assert(bs[idx as int].0.len() <= 9);
        }
        let chunk = if idx == count - 1 { chunk_width + remainder } else { chunk_width };
        let entry_len = key.unicode_len() + 1 + action.unicode_len();
        let pad_total = if chunk > entry_len { chunk - entry_len } else { 0 };
        let pad_left = pad_total / 2;
        let pad_right = pad_total - pad_left;
        items.push(FooterItem { key, action, pad_left, pad_right });
        idx += 1;
    }
    Some(items)
}

/// The progress line's text: the spinner and the counts while scanning,
/// the error, completion, or idleness, its first letter capitalized.
pub open spec fn progress_label(state: AppState) -> Seq<char> {
    capitalized(
        match state.scan_state {
            ScanState::Running(p) => spinner_frames()[(state.spinner_phase as int) % 8] + " Scanning... "@ + decimal(
                p.scanned as nat,
            ) + " entries, "@ + decimal(p.errors as nat) + " errors"@,
            ScanState::Error(m) => "Error: "@ + m@,
            ScanState::Completed => "scan complete"@,
            ScanState::Idle => "Scan idle"@,
        },
    )
}

/// The progress line (see `progress_label`).
pub fn footer_progress_label(state: &AppState) -> (r: String)
    ensures
        r@ == progress_label(*state),
{
    let raw = match &state.scan_state {
        ScanState::Running(p) => {
            let mut s = spinner_symbol(state.spinner_phase);
            push_str(&mut s, " Scanning... ");
            let a = u64_to_string(p.scanned);
            push_str(&mut s, a.as_str());
            push_str(&mut s, " entries, ");
            let b = u64_to_string(p.errors);
            push_str(&mut s, b.as_str());
            push_str(&mut s, " errors");
            s
        },
        ScanState::Error(m) => {
            let mut s = crate::text::owned("Error: ");
            push_str(&mut s, m.as_str());
            s
        },
        ScanState::Completed => crate::text::owned("scan complete"),
        ScanState::Idle => crate::text::owned("Scan idle"),
    };
    capitalize_first_alpha(raw.as_str())
}

/// The progress line cut and centred to `width` columns.
pub fn footer_progress_text(state: &AppState, width: usize) -> (r: String)
    ensures
        r@ == if width == 0 { Seq::<char>::empty() } else { centered(trimmed(progress_label(*state), width as int), width as int) },
{
    if width == 0 {
        return String::new();
    }
    let label = footer_progress_label(state);
    let trimmed_label = trim_to_width(label.as_str(), width);
    center_text(trimmed_label.as_str(), width)
}

} // verus!
