//! The command line: the options as parsed, and how they become the settings
//! the application runs with.
use crate::display::{default_display, DisplayOptions};
use crate::snapshot::{parse_endpoint, spec_endpoint, SnapshotEndpoint};
use crate::text::{decimal, trim_chars, trim_whitespace};
use vstd::prelude::*;

verus! {

/// The command-line options, as the parser leaves them.
#[derive(Clone, Debug, PartialEq, Eq)]
pub struct DaryaCli {
    /// Optional starting directory (default: the current directory).
    pub root: Option<String>,
    /// Import a snapshot from this file (`-` for standard input).
    pub import_snapshot: Option<String>,
    /// Export the scan tree to this file as JSON.
    pub export_json: Option<String>,
    /// Export the scan tree to this file in binary form.
    pub export_binary: Option<String>,
    pub extended: bool,
    pub no_extended: bool,
    pub one_file_system: bool,
    pub cross_file_system: bool,
    pub follow_symlinks: bool,
    pub no_follow_symlinks: bool,
    pub include_caches: bool,
    pub exclude_caches: bool,
    pub include_kernfs: bool,
    pub exclude_kernfs: bool,
    pub thread_count: Option<usize>,
    pub compress: bool,
    pub compress_level: Option<u32>,
    pub export_block_size: Option<usize>,
    pub force_tui: bool,
    pub force_progress: bool,
    pub force_summary: bool,
    pub ignore_config: bool,
    /// Glob patterns to exclude.
    pub exclude: Vec<String>,
    /// Files to read exclusion patterns from.
    pub exclude_from: Vec<String>,
    pub si: bool,
    pub disk_usage: bool,
    pub apparent_size: bool,
    pub show_hidden: bool,
    pub hide_hidden: bool,
    pub show_itemcount: bool,
    pub hide_itemcount: bool,
    pub show_mtime: bool,
    pub hide_mtime: bool,
    pub show_percent: bool,
    pub hide_percent: bool,
    pub no_graph: bool,
}

/// How the application presents a scan.
#[derive(Clone, Copy, Debug, PartialEq, Eq, Structural)]
pub enum InterfaceMode {
    Tui,
    Progress,
    Summary,
}

/// The settings the application runs with.
#[derive(Clone, Debug, PartialEq, Eq)]
pub struct CliArgs {
    pub root: String,
    pub exclude_patterns: Vec<String>,
    pub extended: bool,
    pub import_snapshot: Option<SnapshotEndpoint>,
    pub export_json: Option<SnapshotEndpoint>,
    pub export_binary: Option<SnapshotEndpoint>,
    pub ignore_config: bool,
    pub same_fs_override: Option<bool>,
    pub cache_policy: Option<bool>,
    pub kernfs_policy: Option<bool>,
    pub thread_count: Option<usize>,
    pub follow_symlinks_override: Option<bool>,
    pub export_compress: bool,
    pub export_compress_level: Option<u32>,
    pub export_block_size: Option<usize>,
    pub interface_mode: InterfaceMode,
    pub display_options: DisplayOptions,
}

/// Why the command line cannot be used.
#[derive(Clone, Debug, PartialEq, Eq)]
pub enum CliParseError {
    /// The parser refused the arguments (its message).
    Clap(String),
    /// An exclude-from file could not be read (its path and the reason).
    ExcludeFile(String, String),
    /// The current directory could not be determined (the reason).
    CurrentDir(String),
    InvalidThreadCount(String),
    InvalidCompressionLevel(String),
    InvalidExportBlockSize(String),
}

/// The interface flags `-0`, `-1` and `-2` written as the long options
/// `--0`, `--1` and `--2`; every other argument kept.
pub open spec fn interface_arg(a: Seq<char>) -> Seq<char> {
    if a == seq!['-', '0'] {
        seq!['-', '-', '0']
    } else if a == seq!['-', '1'] {
        seq!['-', '-', '1']
    } else if a == seq!['-', '2'] {
        seq!['-', '-', '2']
    } else {
        a
    }
}

fn preprocess_arg(a: String) -> (r: String)
    ensures
        r@ == interface_arg(a@),
{
    let chars = crate::text::str_chars(a.as_str());
    if chars.len() == 2 && chars[0] == '-' && (chars[1] == '0' || chars[1] == '1' || chars[1] == '2') {
        let mut out = String::new();
        crate::text::push_char(&mut out, '-');
        crate::text::push_char(&mut out, '-');
        crate::text::push_char(&mut out, chars[1]);
        assert(a@ =~= seq!['-', chars@[1]]);
        assert(out@ =~= seq!['-', '-', chars@[1]]);
        out
    } else {
        proof {
            if a@.len() == 2 {
                assert(a@[0] == chars@[0] && a@[1] == chars@[1]);
            }
        }
        a
    }
}

impl DaryaCli {
    /// Rewrites `-0`, `-1` and `-2` as `--0`, `--1` and `--2` so that the
    /// parser takes them for the interface options.
    pub fn preprocess_interface_args(args: Vec<String>) -> (r: Vec<String>)
        ensures
            r@.len() == args@.len(),
            forall|i: int| 0 <= i < args@.len() ==> (#[trigger] r@[i])@ == interface_arg(args@[i]@),
    {
        let mut out: Vec<String> = Vec::new();
        let mut args = args;
        let ghost all = args@;
        let n: usize = args.len();
        let mut i: usize = 0;
        while i < n
            invariant
                n == all.len(),
                i <= n,
                args@ =~= all.skip(i as int),
                out@.len() == i,
                forall|j: int| 0 <= j < i ==> (#[trigger] out@[j])@ == interface_arg(all[j]@),
            decreases n - i,
        {
            let a = args.remove(0);
            assert(a == all[i as int]);
            assert(all.skip(i as int + 1) =~= all.skip(i as int).subrange(1, (n - i) as int));
            out.push(preprocess_arg(a));
            i += 1;
        }
        out
    }
}

/// Splits text at each newline; the newlines are dropped, and an empty
/// piece after the last newline does not count. Returns the finished
/// pieces and the piece still open.
pub open spec fn line_scan(s: Seq<char>) -> (Seq<Seq<char>>, Seq<char>)
    decreases s.len(),
{
    if s.len() == 0 {
        (Seq::empty(), Seq::empty())
    } else {
        let (done, open) = line_scan(s.drop_last());
        if s.last() == '\n' {
            (done.push(open), Seq::empty())
        } else {
            (done, open.push(s.last()))
        }
    }
}

/// The lines of a text.
pub open spec fn text_lines(s: Seq<char>) -> Seq<Seq<char>> {
    let (done, open) = line_scan(s);
    if open.len() == 0 {
        done
    } else {
        done.push(open)
    }
}

/// Whether a trimmed line is a pattern: not empty, not a `#` comment.
pub open spec fn is_pattern_line(l: Seq<char>) -> bool {
    l.len() > 0 && l[0] != '#'
}

/// The patterns among lines: each line trimmed, blank lines and comments
/// left out.
pub open spec fn keep_patterns(lines: Seq<Seq<char>>) -> Seq<Seq<char>>
    decreases lines.len(),
{
    if lines.len() == 0 {
        Seq::empty()
    } else {
        let rest = keep_patterns(lines.drop_last());
        let l = trim_whitespace(lines.last());
        if is_pattern_line(l) {
            rest.push(l)
        } else {
            rest
        }
    }
}

/// The patterns of an exclude-from file: one per line, trimmed, skipping
/// blank lines and lines starting with `#`.
pub open spec fn file_patterns(text: Seq<char>) -> Seq<Seq<char>> {
    keep_patterns(text_lines(text))
}

/// The character views of a list of strings.
pub open spec fn views(v: Seq<String>) -> Seq<Seq<char>> {
    v.map_values(|s: String| s@)
}

/// Appends the pattern of a line, if it is one.
fn keep_line(out: &mut Vec<String>, line: &Vec<char>)
    ensures
        views(final(out)@) == (if is_pattern_line(trim_whitespace(line@)) {
            views(old(out)@).push(trim_whitespace(line@))
        } else {
            views(old(out)@)
        }),
{
    let t = trim_chars(line);
    if t.len() > 0 && t[0] != '#' {
        out.push(crate::text::string_from_chars(&t));
        assert(views(out@) =~= views(old(out)@).push(t@));
    } else {
        assert(views(out@) =~= views(old(out)@));
    }
}

/// The exclusion patterns written in a text, one per line.
pub fn patterns_from_text(text: &str) -> (r: Vec<String>)
    ensures
        views(r@) == file_patterns(text@),
{
    let chars = crate::text::str_chars(text);
    let mut out: Vec<String> = Vec::new();
    let mut open: Vec<char> = Vec::new();
    let ghost mut done: Seq<Seq<char>> = Seq::empty();
    let mut i: usize = 0;
    while i < chars.len()
        invariant
            chars@ == text@,
            i <= chars@.len(),
            line_scan(chars@.take(i as int)) == (done, open@),
            views(out@) == keep_patterns(done),
        decreases chars@.len() - i,
    {
        let c = chars[i];
        assert(chars@.take(i as int + 1).drop_last() =~= chars@.take(i as int));
        if c == '\n' {
            keep_line(&mut out, &open);
            proof {
                assert(done.push(open@).drop_last() =~= done);
                done = done.push(open@);
            }
            open = Vec::new();
            assert(open@ =~= Seq::<char>::empty());
        } else {
            open.push(c);
        }
        i += 1;
    }
    assert(chars@.take(i as int) =~= text@);
    if open.len() > 0 {
        keep_line(&mut out, &open);
        assert(done.push(open@).drop_last() =~= done);
    }
    out
}

/// The patterns of the exclude-from files, in order, each file's patterns
/// in its order.
pub open spec fn files_patterns(files: Seq<Result<String, String>>) -> Seq<Seq<char>>
    decreases files.len(),
{
    if files.len() == 0 {
        Seq::empty()
    } else {
        let rest = files_patterns(files.drop_last());
        match files.last() {
            Ok(t) => rest + file_patterns(t@),
            Err(_) => rest,
        }
    }
}

/// An override chosen by a pair of opposite flags: the first of the pair
/// wins when both are given.
pub open spec fn flag_override(winner: bool, winner_value: bool, other: bool) -> Option<bool> {
    if winner {
        Some(winner_value)
    } else if other {
        Some(!winner_value)
    } else {
        None
    }
}

/// The display switches the flags ask for, starting from the defaults; of
/// two opposite flags the later-listed one wins.
pub open spec fn display_from(c: DaryaCli) -> DisplayOptions {
    let d = default_display();
    DisplayOptions {
        use_si: c.si || d.use_si,
        prefer_disk: if c.apparent_size { false } else if c.disk_usage { true } else { d.prefer_disk },
        show_hidden: if c.hide_hidden { false } else if c.show_hidden { true } else { d.show_hidden },
        show_item_count: if c.hide_itemcount {
            false
        } else if c.show_itemcount {
            true
        } else {
            d.show_item_count
        },
        show_mtime: if c.hide_mtime { false } else if c.show_mtime { true } else { d.show_mtime },
        show_percent: if c.hide_percent { false } else if c.show_percent { true } else { d.show_percent },
        show_graph: if c.no_graph { false } else { d.show_graph },
    }
}

/// The interface the flags ask for: the summary over progress over the UI.
pub open spec fn interface_from(c: DaryaCli) -> InterfaceMode {
    if c.force_summary {
        InterfaceMode::Summary
    } else if c.force_progress {
        InterfaceMode::Progress
    } else {
        InterfaceMode::Tui
    }
}

/// An endpoint for an optional command-line value.
pub open spec fn endpoint_of(v: Option<String>) -> Option<SnapshotEndpoint> {
    match v {
        Some(s) => Some(spec_endpoint(s)),
        None => None,
    }
}

fn endpoint_for(v: Option<String>) -> (r: Option<SnapshotEndpoint>)
    ensures
        r == endpoint_of(v),
{
    match v {
        Some(s) => Some(parse_endpoint(s)),
        None => None,
    }
}

/// Whether every exclude-from file was read.
pub open spec fn all_read(files: Seq<Result<String, String>>) -> bool {
    forall|k: int| 0 <= k < files.len() ==> (#[trigger] files[k]) is Ok
}

/// Whether the `k`-th exclude-from file is the first that could not be
/// read.
pub open spec fn first_unread(files: Seq<Result<String, String>>, k: int) -> bool {
    &&& 0 <= k < files.len()
    &&& files[k] is Err
    &&& forall|j: int| 0 <= j < k ==> (#[trigger] files[j]) is Ok
}

/// Whether a compression level lies outside 1 to 9.
pub open spec fn bad_level(level: Option<u32>) -> bool {
    match level {
        Some(l) => l == 0 || l > 9,
        None => false,
    }
}

/// The settings the options give, once the root is known and every file was
/// read.
pub open spec fn settings_from(
    c: DaryaCli,
    root: String,
    files: Seq<Result<String, String>>,
    a: CliArgs,
) -> bool {
    &&& a.root == root
    &&& views(a.exclude_patterns@) == views(c.exclude@) + files_patterns(files)
    &&& a.extended == (c.extended && !c.no_extended)
    &&& a.import_snapshot == endpoint_of(c.import_snapshot)
    &&& a.export_json == endpoint_of(c.export_json)
    &&& a.export_binary == endpoint_of(c.export_binary)
    &&& a.ignore_config == c.ignore_config
    &&& a.same_fs_override == flag_override(c.cross_file_system, false, c.one_file_system)
    &&& a.cache_policy == flag_override(c.exclude_caches, false, c.include_caches)
    &&& a.kernfs_policy == flag_override(c.exclude_kernfs, false, c.include_kernfs)
    &&& a.thread_count == c.thread_count
    &&& a.follow_symlinks_override == flag_override(c.no_follow_symlinks, false, c.follow_symlinks)
    &&& a.export_compress == c.compress
    &&& a.export_compress_level == c.compress_level
    &&& a.export_block_size == c.export_block_size
    &&& a.interface_mode == interface_from(c)
    &&& a.display_options == display_from(c)
}

fn override_for(winner: bool, winner_value: bool, other: bool) -> (r: Option<bool>)
    ensures
        r == flag_override(winner, winner_value, other),
{
    if winner {
        Some(winner_value)
    } else if other {
        Some(!winner_value)
    } else {
        None
    }
}

/// The patterns given directly, followed by those of each exclude-from
/// file; or the error for the first file that could not be read.
fn gather_patterns(
    exclude: Vec<String>,
    exclude_from: &Vec<String>,
    exclude_files: Vec<Result<String, String>>,
) -> (r: Result<Vec<String>, CliParseError>)
    requires
        exclude_files@.len() == exclude_from@.len(),
    ensures
        forall|k: int|
            #[trigger] first_unread(exclude_files@, k) ==> r == Err::<Vec<String>, CliParseError>(
                CliParseError::ExcludeFile(exclude_from@[k], exclude_files@[k]->Err_0),
            ),
        all_read(exclude_files@) ==> (r matches Ok(p) && views(p@) == views(exclude@) + files_patterns(
            exclude_files@,
        )),
{
    let mut exclude_patterns = exclude;
    let ghost files = exclude_files@;
    let mut pending = exclude_files;
    let n: usize = pending.len();
    let mut k: usize = 0;
    while k < n
        invariant
            n == files.len(),
            n == exclude_from@.len(),
            k <= n,
            files == exclude_files@,
            pending@ =~= files.skip(k as int),
            forall|j: int| 0 <= j < k ==> (#[trigger] files[j]) is Ok,
            views(exclude_patterns@) == views(exclude@) + files_patterns(files.take(k as int)),
        decreases n - k,
    {
        let item = pending.remove(0);
        assert(item == files[k as int]);
        assert(files.skip(k as int + 1) =~= files.skip(k as int).subrange(1, (n - k) as int));
        assert(files.take(k as int + 1).drop_last() =~= files.take(k as int));
        match item {
            Ok(text) => {
                let found = patterns_from_text(text.as_str());
                let ghost before = exclude_patterns@;
                let mut found = found;
                exclude_patterns.append(&mut found);
                assert(views(exclude_patterns@) =~= views(before) + file_patterns(text@));
            },
            Err(e) => {
                let path = exclude_from[k].clone();
                assert(first_unread(files, k as int));
                proof {
                    assert forall|m: int| #[trigger] first_unread(files, m) implies m == k by {
                        if m < k {
                            assert(files[m] is Ok);
                        }
                        if m > k {
                            assert(files[k as int] is Ok);
                        }
                    }
                }
                return Err(CliParseError::ExcludeFile(path, e));
            },
        }
        k += 1;
    }
    assert(files.take(n as int) =~= files);
    proof {
        assert forall|m: int| !(#[trigger] first_unread(files, m)) by {
            if 0 <= m < n {
                assert(files[m] is Ok);
            }
        }
    }
    Ok(exclude_patterns)
}

impl DaryaCli {
    /// Turns the parsed options into the settings. `current_dir` is the
    /// current directory (or why it is unknown), used when no root is given;
    /// `exclude_files` holds the text of each exclude-from file (or why it
    /// could not be read), in the order of `exclude_from`.
    ///
    /// The first failure wins: an unknown current directory (when needed),
    /// then the first unreadable exclude-from file, then a thread count of
    /// zero, a compression level outside 1 to 9, and a block size of zero.
    #[verifier::rlimit(50)]
    pub fn into_cli_args(self, current_dir: Result<String, String>, exclude_files: Vec<Result<String, String>>) -> (r:
        Result<CliArgs, CliParseError>)
        requires
            exclude_files@.len() == self.exclude_from@.len(),
        ensures
            ({
                let root_failed = self.root is None && current_dir is Err;
                let root = match self.root {
                    Some(p) => p,
                    None => current_dir->Ok_0,
                };
                let files = exclude_files@;
                &&& root_failed ==> r == Err::<CliArgs, CliParseError>(
                    CliParseError::CurrentDir(current_dir->Err_0),
                )
                &&& forall|k: int|
                    !root_failed && #[trigger] first_unread(files, k) ==> r == Err::<
                        CliArgs,
                        CliParseError,
                    >(CliParseError::ExcludeFile(self.exclude_from@[k], files[k]->Err_0))
                &&& !root_failed && all_read(files) && self.thread_count == Some(0usize) ==> (r matches Err(
                    CliParseError::InvalidThreadCount(s),
                ) && s@ == "0"@)
                &&& !root_failed && all_read(files) && self.thread_count != Some(0usize) && bad_level(
                    self.compress_level,
                ) ==> (r matches Err(CliParseError::InvalidCompressionLevel(s)) && s@ == decimal(
                    self.compress_level->0 as nat,
                ))
                &&& !root_failed && all_read(files) && self.thread_count != Some(0usize) && !bad_level(
                    self.compress_level,
                ) && self.export_block_size == Some(0usize) ==> (r matches Err(
                    CliParseError::InvalidExportBlockSize(s),
                ) && s@ == "0"@)
                &&& !root_failed && all_read(files) && self.thread_count != Some(0usize) && !bad_level(
                    self.compress_level,
                ) && self.export_block_size != Some(0usize) ==> (r matches Ok(a) && settings_from(
                    self,
                    root,
                    files,
                    a,
                ))
            }),
    {
        let ghost cli = self;
        let root = match self.root {
            Some(p) => p,
            None => match current_dir {
                Ok(d) => d,
                Err(e) => {
                    return Err(CliParseError::CurrentDir(e));
                },
            },
        };
        let exclude_patterns = match gather_patterns(self.exclude, &self.exclude_from, exclude_files) {
            Ok(p) => p,
            Err(e) => {
                return Err(e);
            },
        };
        let extended = self.extended && !self.no_extended;
        let same_fs_override = override_for(self.cross_file_system, false, self.one_file_system);
        let cache_policy = override_for(self.exclude_caches, false, self.include_caches);
        let kernfs_policy = override_for(self.exclude_kernfs, false, self.include_kernfs);
        let follow_symlinks_override = override_for(self.no_follow_symlinks, false, self.follow_symlinks);
        let interface_mode = if self.force_summary {
            InterfaceMode::Summary
        } else if self.force_progress {
            InterfaceMode::Progress
        } else {
            InterfaceMode::Tui
        };
        let mut display_options = DisplayOptions::default();
        if self.si {
            display_options.use_si = true;
        }
        if self.disk_usage {
            display_options.prefer_disk = true;
        }
        if self.apparent_size {
            display_options.prefer_disk = false;
        }
        if self.show_hidden {
            display_options.show_hidden = true;
        }
        if self.hide_hidden {
            display_options.show_hidden = false;
        }
        if self.show_itemcount {
            display_options.show_item_count = true;
        }
        if self.hide_itemcount {
            display_options.show_item_count = false;
        }
        if self.show_mtime {
            display_options.show_mtime = true;
        }
        if self.hide_mtime {
            display_options.show_mtime = false;
        }
        if self.show_percent {
            display_options.show_percent = true;
        }
        if self.hide_percent {
            display_options.show_percent = false;
        }
        if self.no_graph {
            display_options.show_graph = false;
        }
        if self.thread_count == Some(0usize) {
            return Err(CliParseError::InvalidThreadCount(crate::text::owned("0")));
        }
        match self.compress_level {
            Some(l) => {
                if l == 0 || l > 9 {
                    return Err(CliParseError::InvalidCompressionLevel(crate::text::u64_to_string(l as u64)));
                }
            },
            None => {},
        }
        if self.export_block_size == Some(0usize) {
            return Err(CliParseError::InvalidExportBlockSize(crate::text::owned("0")));
        }
        let import_snapshot = endpoint_for(self.import_snapshot);
        let export_json = endpoint_for(self.export_json);
        let export_binary = endpoint_for(self.export_binary);
        Ok(CliArgs {
            root,
            exclude_patterns,
            extended,
            import_snapshot,
            export_json,
            export_binary,
            ignore_config: self.ignore_config,
            same_fs_override,
            cache_policy,
            kernfs_policy,
            thread_count: self.thread_count,
            follow_symlinks_override,
            export_compress: self.compress,
            export_compress_level: self.compress_level,
            export_block_size: self.export_block_size,
            interface_mode,
            display_options,
        })
    }
}

/// What the scan switches do to a scan: `--exclude-caches` skips cache
/// directories, winning over `--include-caches`, which keeps them; the
/// kernfs switches alike; `--cross-file-system` lets the scan cross
/// filesystems, winning over `--one-file-system`, which keeps it on one;
/// `--no-follow-symlinks` stops symlinks from being followed, winning over
/// `--follow-symlinks`; without either switch of a pair the configuration
/// decides.
pub proof fn lemma_scan_switches(
    c: DaryaCli,
    root: String,
    files: Seq<Result<String, String>>,
    a: CliArgs,
    config: crate::config::ScanConfig,
)
    requires
        settings_from(c, root, files, a),
    ensures
        ({
            let o = crate::launch::spec_scan_options(a, config);
            &&& o.skip_caches == if c.exclude_caches { true } else if c.include_caches { false } else { config.exclude_caches }
            &&& o.skip_kernfs == if c.exclude_kernfs { true } else if c.include_kernfs { false } else { config.exclude_kernfs }
            &&& o.same_file_system == if c.cross_file_system { false } else if c.one_file_system { true } else { config.one_file_system }
            &&& o.follow_symlinks == if c.no_follow_symlinks { false } else if c.follow_symlinks { true } else { config.follow_symlinks }
        }),
{
}

} // verus!
