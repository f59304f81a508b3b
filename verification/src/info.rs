//! The one-line summary of the selected entry's file facts: the metadata
//! the scan collected, in extended mode, or else what the filesystem
//! reports for the entry's path.
use crate::state::AppState;
use crate::text::{decimal, decimal_chars_wide, digit_char, digit_exec, push_char, push_chars, push_str, u64_to_string};
use crate::tree::{Timestamp, TreeNode};
use vstd::prelude::*;

verus! {

/// The octal representation of `n`, without leading zeros.
pub open spec fn octal(n: nat) -> Seq<char>
    decreases n,
{
    if n < 8 {
        seq![digit_char(n as int)]
    } else {
        octal(n / 8).push(digit_char((n % 8) as int))
    }
}

fn octal_chars(n: u32) -> (r: Vec<char>)
    ensures
        r@ == octal(n as nat),
    decreases n,
{
    if n < 8 {
        let mut v: Vec<char> = Vec::new();
        v.push(digit_exec(n as u64));
        v
    } else {
        let mut v = octal_chars(n / 8);
        v.push(digit_exec((n % 8) as u64));
        v
    }
}

/// A signed number in decimal.
pub open spec fn signed_decimal(n: int) -> Seq<char> {
    if n < 0 {
        seq!['-'] + decimal((-n) as nat)
    } else {
        decimal(n as nat)
    }
}

fn push_signed(s: &mut String, n: i64)
    ensures
        final(s)@ == old(s)@ + signed_decimal(n as int),
{
    if n < 0 {
        push_char(s, '-');
        let m: u128 = (0i128 - n as i128) as u128;
        push_chars(s, &decimal_chars_wide(m));
        assert(final(s)@ =~= old(s)@ + signed_decimal(n as int));
    } else {
        push_chars(s, &decimal_chars_wide(n as u128));
    }
}

/// The whole seconds from the Unix epoch to a modification time, or `-`
/// when there is none or it lies before the epoch.
pub open spec fn seconds_text(modified: Option<Timestamp>) -> Seq<char> {
    match modified {
        Some(t) => if t.nanos_since_epoch >= 0 {
            decimal((t.nanos_since_epoch / 1_000_000_000) as nat)
        } else {
            seq!['-']
        },
        None => seq!['-'],
    }
}

fn push_seconds(s: &mut String, modified: Option<Timestamp>)
    ensures
        final(s)@ == old(s)@ + seconds_text(modified),
{
    match modified {
        Some(t) => {
            if t.nanos_since_epoch >= 0 {
                let secs: u128 = (t.nanos_since_epoch / 1_000_000_000) as u128;
                push_chars(s, &decimal_chars_wide(secs));
            } else {
                push_char(s, '-');
            }
        },
        None => push_char(s, '-'),
    }
}

/// The modification time as `mtime:` and the whole seconds from the Unix
/// epoch with an `s`, or `mtime:-` when there is none or it lies before the
/// epoch.
pub open spec fn mtime_label(modified: Option<Timestamp>) -> Seq<char> {
    match modified {
        Some(t) => if t.nanos_since_epoch >= 0 {
            "mtime:"@ + seconds_text(modified) + "s"@
        } else {
            "mtime:-"@
        },
        None => "mtime:-"@,
    }
}

pub fn format_mtime(modified: Option<Timestamp>) -> (r: String)
    ensures
        r@ == mtime_label(modified),
{
    let known = match modified {
        Some(t) => t.nanos_since_epoch >= 0,
        None => false,
    };
    if known {
        let mut line = crate::text::owned("mtime:");
        push_seconds(&mut line, modified);
        push_str(&mut line, "s");
        line
    } else {
        crate::text::owned("mtime:-")
    }
}

/// The line for the metadata the scan collected for a node: its mode in
/// octal, owner and group (on Unix, where all three are needed) and its
/// modification time; none without that metadata.
pub open spec fn node_metadata_text(node: TreeNode, unix: bool) -> Option<Seq<char>> {
    if unix {
        match (node.permissions, node.uid, node.gid) {
            (Some(mode), Some(uid), Some(gid)) => Some(
                "info: mode="@ + octal(mode as nat) + " uid="@ + decimal(uid as nat) + " gid="@ + decimal(gid as nat)
                    + " mtime="@ + seconds_text(node.modified),
            ),
            _ => None,
        }
    } else {
        match node.permissions {
            Some(mode) => Some("info: mode="@ + octal(mode as nat) + " mtime="@ + seconds_text(node.modified)),
            None => None,
        }
    }
}

pub fn format_node_metadata(node: &TreeNode, unix: bool) -> (r: Option<String>)
    ensures
        match r {
            Some(line) => node_metadata_text(*node, unix) == Some(line@),
            None => node_metadata_text(*node, unix) is None,
        },
{
    if unix {
        match (node.permissions, node.uid, node.gid) {
            (Some(mode), Some(uid), Some(gid)) => {
                let mut line = String::new();
                push_str(&mut line, "info: mode=");
                push_chars(&mut line, &octal_chars(mode));
                push_str(&mut line, " uid=");
                let u = u64_to_string(uid as u64);
                push_str(&mut line, u.as_str());
                push_str(&mut line, " gid=");
                let g = u64_to_string(gid as u64);
                push_str(&mut line, g.as_str());
                push_str(&mut line, " mtime=");
                push_seconds(&mut line, node.modified);
                assert(Some(line@) == node_metadata_text(*node, unix));
                Some(line)
            },
            _ => None,
        }
    } else {
        match node.permissions {
            Some(mode) => {
                let mut line = String::new();
                push_str(&mut line, "info: mode=");
                push_chars(&mut line, &octal_chars(mode));
                push_str(&mut line, " mtime=");
                push_seconds(&mut line, node.modified);
                assert(Some(line@) == node_metadata_text(*node, unix));
                Some(line)
            },
            None => None,
        }
    }
}

/// What the filesystem reports of an entry.
#[derive(Clone, Copy, Debug, PartialEq, Eq)]
pub enum FileFacts {
    /// On Unix: the mode bits, owner, group, inode, link count,
    /// modification time and status-change time (whole seconds).
    Unix { mode: u32, uid: u32, gid: u32, inode: u64, nlink: u64, modified: Option<Timestamp>, ctime: i64 },
    /// Elsewhere: whether the entry is read-only, and its modification time.
    Other { readonly: bool, modified: Option<Timestamp> },
}

/// The line for what the filesystem reports: on Unix the permission bits in
/// octal, owner, group, inode, link count and times; elsewhere whether the
/// entry is read-only, and its modification time.
pub open spec fn facts_text(f: FileFacts) -> Seq<char> {
    match f {
        FileFacts::Unix { mode, uid, gid, inode, nlink, modified, ctime } => "info: mode="@ + octal((mode & 0o777u32) as nat)
            + " uid="@ + decimal(uid as nat) + " gid="@ + decimal(gid as nat) + " inode="@ + decimal(inode as nat)
            + " nlink="@ + decimal(nlink as nat) + " mtime="@ + seconds_text(modified) + " ctime="@ + signed_decimal(
            ctime as int,
        ),
        FileFacts::Other { readonly, modified } => "info: readonly="@ + (if readonly {
            "true"@
        } else {
            "false"@
        }) + " mtime="@ + seconds_text(modified),
    }
}

fn facts_line(f: FileFacts) -> (r: String)
    ensures
        r@ == facts_text(f),
{
    let mut line = String::new();
    match f {
        FileFacts::Unix { mode, uid, gid, inode, nlink, modified, ctime } => {
            push_str(&mut line, "info: mode=");
            push_chars(&mut line, &octal_chars(mode & 0o777u32));
            push_str(&mut line, " uid=");
            let u = u64_to_string(uid as u64);
            push_str(&mut line, u.as_str());
            push_str(&mut line, " gid=");
            let g = u64_to_string(gid as u64);
            push_str(&mut line, g.as_str());
            push_str(&mut line, " inode=");
            let i = u64_to_string(inode);
            push_str(&mut line, i.as_str());
            push_str(&mut line, " nlink=");
            let n = u64_to_string(nlink);
            push_str(&mut line, n.as_str());
            push_str(&mut line, " mtime=");
            push_seconds(&mut line, modified);
            push_str(&mut line, " ctime=");
            push_signed(&mut line, ctime);
        },
        FileFacts::Other { readonly, modified } => {
            push_str(&mut line, "info: readonly=");
            if readonly {
                push_str(&mut line, "true");
            } else {
                push_str(&mut line, "false");
            }
            push_str(&mut line, " mtime=");
            push_seconds(&mut line, modified);
        },
    }
    assert(line@ =~= facts_text(f));
    line
}

/// The info line for the selection: says when there is no selection or no
/// such node; in extended mode the collected metadata, when the node has
/// it; otherwise what the filesystem reported for its path (`facts`), or
/// that nothing could be read.
pub open spec fn info_text(state: AppState, unix: bool, facts: Option<FileFacts>) -> Seq<char> {
    match state.selection {
        None => "info: no selection"@,
        Some(id) => if id >= state.tree@.len() {
            "info: no node"@
        } else if state.extended_mode && node_metadata_text(state.tree@[id as int], unix) is Some {
            node_metadata_text(state.tree@[id as int], unix)->0
        } else {
            match facts {
                Some(f) => facts_text(f),
                None => "info: metadata unavailable for "@ + state.tree@[id as int].path@,
            }
        },
    }
}

/// The path whose filesystem facts the info line may need: the selected
/// node's, when there is one.
pub open spec fn info_path(state: AppState) -> Option<Seq<char>> {
    match state.selection {
        Some(id) => if id < state.tree@.len() {
            Some(state.tree@[id as int].path@)
        } else {
            None
        },
        None => None,
    }
}

pub fn info_source_path(state: &AppState) -> (r: Option<String>)
    ensures
        match r {
            Some(p) => info_path(*state) == Some(p@),
            None => info_path(*state) is None,
        },
{
    match state.selection {
        Some(id) => match state.tree.node(id) {
            Some(node) => Some(node.path.clone()),
            None => None,
        },
        None => None,
    }
}

/// The info line (see `info_text`); `facts` is what the filesystem reported
/// for the path `info_source_path` gives, if it could be read.
pub fn selected_info_line(state: &AppState, unix: bool, facts: Option<FileFacts>) -> (r: String)
    ensures
        r@ == info_text(*state, unix, facts),
{
    let selected = match state.selection {
        Some(id) => id,
        None => return crate::text::owned("info: no selection"),
    };
    let node = match state.tree.node(selected) {
        Some(node) => node,
        None => return crate::text::owned("info: no node"),
    };
    if state.extended_mode {
        if let Some(line) = format_node_metadata(node, unix) {
            return line;
        }
    }
    match facts {
        Some(f) => facts_line(f),
        None => {
            let mut line = crate::text::owned("info: metadata unavailable for ");
            push_str(&mut line, node.path.as_str());
            line
        },
    }
}

} // verus!
