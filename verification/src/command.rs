//! A plain command-line reader: it recognises help and version requests, or
//! reads the options of a run one argument at a time.
//!
//! Exclude-from files are read by the caller. The reader asks for them one
//! at a time: when it reaches an `-X` whose file it has not been given, it
//! answers [`ParseStep::NeedFile`]; the caller reads that file, appends the
//! outcome to the list it passes, and asks again.
use crate::cli::{file_patterns, views};
use crate::snapshot::{parse_endpoint, spec_endpoint, SnapshotEndpoint};
use crate::text::{parse_bounded, same_text, spec_parse_bounded, starts_with_char};
use vstd::prelude::*;

verus! {

/// What the command line asks for.
#[derive(Clone, Debug, PartialEq, Eq)]
pub enum CliCommand {
    Run(CliArgs),
    Help,
    Version,
}

/// The settings of a run.
#[derive(Clone, Debug, PartialEq, Eq)]
pub struct CliArgs {
    pub root: String,
    pub exclude_patterns: Vec<String>,
    pub extended: bool,
    pub import_snapshot: Option<SnapshotEndpoint>,
    pub export_json: Option<SnapshotEndpoint>,
    pub export_binary: Option<SnapshotEndpoint>,
    pub ignore_config: bool,
    pub same_fs_override: Option<bool>,
    pub cache_policy: Option<bool>,
    pub kernfs_policy: Option<bool>,
    pub thread_count: Option<usize>,
    pub follow_symlinks_override: Option<bool>,
    pub export_compress: bool,
    pub export_compress_level: Option<u32>,
    pub export_block_size: Option<usize>,
}

/// Why the command line cannot be used.
#[derive(Clone, Debug, PartialEq, Eq)]
pub enum CliParseError {
    TooManyArguments,
    UnknownOption(String),
    MissingOptionValue(String),
    InvalidThreadCount(String),
    InvalidCompressionLevel(String),
    InvalidExportBlockSize(String),
    /// An exclude-from file could not be read (its path and the reason).
    ExcludeFile(String, String),
    /// The current directory could not be determined (the reason).
    CurrentDir(String),
}

/// The reader's answer: the outcome, or the exclude-from file it needs next.
#[derive(Debug, PartialEq, Eq)]
pub enum ParseStep {
    Done(Result<CliCommand, CliParseError>),
    NeedFile(String),
}

/// The meaning of one argument.
#[derive(Clone, Copy, Debug, PartialEq, Eq, Structural)]
pub enum OptionKind {
    Exclude,
    ExcludeFrom,
    Compress,
    CompressLevel,
    BlockSize,
    Import,
    ExportJson,
    ExportBinary,
    Extended,
    NoExtended,
    OneFileSystem,
    CrossFileSystem,
    IncludeCaches,
    ExcludeCaches,
    IncludeKernfs,
    ExcludeKernfs,
    Threads,
    Follow,
    NoFollow,
    IgnoreConfig,
    Unknown,
    Positional,
}

/// The meaning of an argument: an option by its exact spelling; any other
/// argument starting with `-` is unknown; the rest are paths.
pub open spec fn spec_kind(a: Seq<char>) -> OptionKind {
    if a == "--exclude"@ {
        OptionKind::Exclude
    } else if a == "-X"@ || a == "--exclude-from"@ {
        OptionKind::ExcludeFrom
    } else if a == "-c"@ || a == "--compress"@ {
        OptionKind::Compress
    } else if a == "--compress-level"@ {
        OptionKind::CompressLevel
    } else if a == "--export-block-size"@ {
        OptionKind::BlockSize
    } else if a == "-f"@ {
        OptionKind::Import
    } else if a == "-o"@ {
        OptionKind::ExportJson
    } else if a == "-O"@ {
        OptionKind::ExportBinary
    } else if a == "-e"@ || a == "--extended"@ {
        OptionKind::Extended
    } else if a == "--no-extended"@ {
        OptionKind::NoExtended
    } else if a == "-x"@ || a == "--one-file-system"@ {
        OptionKind::OneFileSystem
    } else if a == "--cross-file-system"@ {
        OptionKind::CrossFileSystem
    } else if a == "--include-caches"@ {
        OptionKind::IncludeCaches
    } else if a == "--exclude-caches"@ {
        OptionKind::ExcludeCaches
    } else if a == "--include-kernfs"@ {
        OptionKind::IncludeKernfs
    } else if a == "--exclude-kernfs"@ {
        OptionKind::ExcludeKernfs
    } else if a == "-t"@ {
        OptionKind::Threads
    } else if a == "-L"@ || a == "--follow-symlinks"@ {
        OptionKind::Follow
    } else if a == "--no-follow-symlinks"@ {
        OptionKind::NoFollow
    } else if a == "--ignore-config"@ {
        OptionKind::IgnoreConfig
    } else if a.len() > 0 && a[0] == '-' {
        OptionKind::Unknown
    } else {
        OptionKind::Positional
    }
}

/// Whether an option is followed by a value.
pub open spec fn takes_value(k: OptionKind) -> bool {
    match k {
        OptionKind::Exclude | OptionKind::ExcludeFrom | OptionKind::CompressLevel
        | OptionKind::BlockSize | OptionKind::Import | OptionKind::ExportJson
        | OptionKind::ExportBinary | OptionKind::Threads => true,
        _ => false,
    }
}

pub fn option_kind(a: &str) -> (k: OptionKind)
    ensures
        k == spec_kind(a@),
{
    if same_text(a, "--exclude") {
        OptionKind::Exclude
    } else if same_text(a, "-X") || same_text(a, "--exclude-from") {
        OptionKind::ExcludeFrom
    } else if same_text(a, "-c") || same_text(a, "--compress") {
        OptionKind::Compress
    } else if same_text(a, "--compress-level") {
        OptionKind::CompressLevel
    } else if same_text(a, "--export-block-size") {
        OptionKind::BlockSize
    } else if same_text(a, "-f") {
        OptionKind::Import
    } else if same_text(a, "-o") {
        OptionKind::ExportJson
    } else if same_text(a, "-O") {
        OptionKind::ExportBinary
    } else if same_text(a, "-e") || same_text(a, "--extended") {
        OptionKind::Extended
    } else if same_text(a, "--no-extended") {
        OptionKind::NoExtended
    } else if same_text(a, "-x") || same_text(a, "--one-file-system") {
        OptionKind::OneFileSystem
    } else if same_text(a, "--cross-file-system") {
        OptionKind::CrossFileSystem
    } else if same_text(a, "--include-caches") {
        OptionKind::IncludeCaches
    } else if same_text(a, "--exclude-caches") {
        OptionKind::ExcludeCaches
    } else if same_text(a, "--include-kernfs") {
        OptionKind::IncludeKernfs
    } else if same_text(a, "--exclude-kernfs") {
        OptionKind::ExcludeKernfs
    } else if same_text(a, "-t") {
        OptionKind::Threads
    } else if same_text(a, "-L") || same_text(a, "--follow-symlinks") {
        OptionKind::Follow
    } else if same_text(a, "--no-follow-symlinks") {
        OptionKind::NoFollow
    } else if same_text(a, "--ignore-config") {
        OptionKind::IgnoreConfig
    } else if starts_with_char(a, '-') {
        OptionKind::Unknown
    } else {
        OptionKind::Positional
    }
}

/// Whether an argument asks for help.
pub open spec fn is_help(a: Seq<char>) -> bool {
    a == "--help"@ || a == "-h"@
}

/// Whether an argument asks for the version.
pub open spec fn is_version(a: Seq<char>) -> bool {
    a == "-v"@ || a == "-V"@ || a == "--version"@
}

fn is_help_flag(a: &str) -> (r: bool)
    ensures
        r == is_help(a@),
{
    same_text(a, "--help") || same_text(a, "-h")
}

fn is_version_flag(a: &str) -> (r: bool)
    ensures
        r == is_version(a@),
{
    same_text(a, "-v") || same_text(a, "-V") || same_text(a, "--version")
}

/// The settings read so far, as characters.
pub struct ArgsView {
    pub root: Option<Seq<char>>,
    pub exclude_patterns: Seq<Seq<char>>,
    pub extended: bool,
    pub import_snapshot: Option<Seq<char>>,
    pub export_json: Option<Seq<char>>,
    pub export_binary: Option<Seq<char>>,
    pub ignore_config: bool,
    pub same_fs_override: Option<bool>,
    pub cache_policy: Option<bool>,
    pub kernfs_policy: Option<bool>,
    pub thread_count: Option<usize>,
    pub follow_symlinks_override: Option<bool>,
    pub export_compress: bool,
    pub export_compress_level: Option<u32>,
    pub export_block_size: Option<usize>,
}

/// A reason for refusal, as characters.
pub enum FailureView {
    TooManyArguments,
    UnknownOption(Seq<char>),
    MissingOptionValue(Seq<char>),
    InvalidThreadCount(Seq<char>),
    InvalidCompressionLevel(Seq<char>),
    InvalidExportBlockSize(Seq<char>),
    ExcludeFile(Seq<char>, Seq<char>),
}

/// Where reading the arguments ends.
pub enum WalkView {
    Done(ArgsView),
    Fail(FailureView),
    NeedFile(Seq<char>),
}

/// Nothing set yet.
pub open spec fn empty_view() -> ArgsView {
    ArgsView {
        root: None,
        exclude_patterns: Seq::empty(),
        extended: false,
        import_snapshot: None,
        export_json: None,
        export_binary: None,
        ignore_config: false,
        same_fs_override: None,
        cache_policy: None,
        kernfs_policy: None,
        thread_count: None,
        follow_symlinks_override: None,
        export_compress: false,
        export_compress_level: None,
        export_block_size: None,
    }
}

/// A compression level: a number from 1 to 9.
pub open spec fn spec_level(v: Seq<char>) -> Option<u32> {
    match spec_parse_bounded(v, u32::MAX as nat) {
        Some(n) => if 1 <= n <= 9 { Some(n as u32) } else { None },
        None => None,
    }
}

/// A count that must be at least one and fit in `usize`.
pub open spec fn spec_positive(v: Seq<char>) -> Option<usize> {
    match spec_parse_bounded(v, usize::MAX as nat) {
        Some(n) => if n > 0 { Some(n as usize) } else { None },
        None => None,
    }
}

/// Reads the arguments from position `i` on, with the settings `st` read so
/// far and the first `k` exclude-from files used.
pub open spec fn walk(
    args: Seq<Seq<char>>,
    i: int,
    st: ArgsView,
    files: Seq<Result<Seq<char>, Seq<char>>>,
    k: int,
) -> WalkView
    decreases args.len() - i,
{
    if i < 0 || i >= args.len() {
        WalkView::Done(st)
    } else {
        let a = args[i];
        let kind = spec_kind(a);
        if takes_value(kind) {
            if i + 1 >= args.len() {
                WalkView::Fail(FailureView::MissingOptionValue(a))
            } else {
                let v = args[i + 1];
                match kind {
                    OptionKind::Exclude => walk(
                        args,
                        i + 2,
                        ArgsView { exclude_patterns: st.exclude_patterns.push(v), ..st },
                        files,
                        k,
                    ),
                    OptionKind::ExcludeFrom => if 0 <= k < files.len() {
                        match files[k] {
                            Ok(t) => walk(
                                args,
                                i + 2,
                                ArgsView { exclude_patterns: st.exclude_patterns + file_patterns(t), ..st },
                                files,
                                k + 1,
                            ),
                            Err(e) => WalkView::Fail(FailureView::ExcludeFile(v, e)),
                        }
                    } else {
                        WalkView::NeedFile(v)
                    },
                    OptionKind::CompressLevel => match spec_level(v) {
                        Some(l) => walk(args, i + 2, ArgsView { export_compress_level: Some(l), ..st }, files, k),
                        None => WalkView::Fail(FailureView::InvalidCompressionLevel(v)),
                    },
                    OptionKind::BlockSize => match spec_positive(v) {
                        Some(b) => walk(args, i + 2, ArgsView { export_block_size: Some(b), ..st }, files, k),
                        None => WalkView::Fail(FailureView::InvalidExportBlockSize(v)),
                    },
                    OptionKind::Import => walk(args, i + 2, ArgsView { import_snapshot: Some(v), ..st }, files, k),
                    OptionKind::ExportJson => walk(args, i + 2, ArgsView { export_json: Some(v), ..st }, files, k),
                    OptionKind::ExportBinary => walk(
                        args,
                        i + 2,
                        ArgsView { export_binary: Some(v), ..st },
                        files,
                        k,
                    ),
                    _ => match spec_positive(v) {
                        Some(n) => walk(args, i + 2, ArgsView { thread_count: Some(n), ..st }, files, k),
                        None => WalkView::Fail(FailureView::InvalidThreadCount(v)),
                    },
                }
            }
        } else {
            match kind {
                OptionKind::Compress => walk(args, i + 1, ArgsView { export_compress: true, ..st }, files, k),
                OptionKind::Extended => walk(args, i + 1, ArgsView { extended: true, ..st }, files, k),
                OptionKind::NoExtended => walk(args, i + 1, ArgsView { extended: false, ..st }, files, k),
                OptionKind::OneFileSystem => walk(
                    args,
                    i + 1,
                    ArgsView { same_fs_override: Some(true), ..st },
                    files,
                    k,
                ),
                OptionKind::CrossFileSystem => walk(
                    args,
                    i + 1,
                    ArgsView { same_fs_override: Some(false), ..st },
                    files,
                    k,
                ),
                OptionKind::IncludeCaches => walk(args, i + 1, ArgsView { cache_policy: Some(true), ..st }, files, k),
                OptionKind::ExcludeCaches => walk(
                    args,
                    i + 1,
                    ArgsView { cache_policy: Some(false), ..st },
                    files,
                    k,
                ),
                OptionKind::IncludeKernfs => walk(
                    args,
                    i + 1,
                    ArgsView { kernfs_policy: Some(true), ..st },
                    files,
                    k,
                ),
                OptionKind::ExcludeKernfs => walk(
                    args,
                    i + 1,
                    ArgsView { kernfs_policy: Some(false), ..st },
                    files,
                    k,
                ),
                OptionKind::Follow => walk(
                    args,
                    i + 1,
                    ArgsView { follow_symlinks_override: Some(true), ..st },
                    files,
                    k,
                ),
                OptionKind::NoFollow => walk(
                    args,
                    i + 1,
                    ArgsView { follow_symlinks_override: Some(false), ..st },
                    files,
                    k,
                ),
                OptionKind::IgnoreConfig => walk(args, i + 1, ArgsView { ignore_config: true, ..st }, files, k),
                OptionKind::Unknown => WalkView::Fail(FailureView::UnknownOption(a)),
                _ => if st.root is None {
                    walk(args, i + 1, ArgsView { root: Some(a), ..st }, files, k)
                } else {
                    WalkView::Fail(FailureView::TooManyArguments)
                },
            }
        }
    }
}

/// What the reader concludes, before the current directory is consulted.
pub enum ParseView {
    Help,
    Version,
    Walked(WalkView),
}

/// Help wins over everything, then the version; otherwise the arguments are
/// read in order.
pub open spec fn spec_parse(args: Seq<Seq<char>>, files: Seq<Result<Seq<char>, Seq<char>>>) -> ParseView {
    if exists|i: int| 0 <= i < args.len() && is_help(#[trigger] args[i]) {
        ParseView::Help
    } else if exists|i: int| 0 <= i < args.len() && is_version(#[trigger] args[i]) {
        ParseView::Version
    } else {
        ParseView::Walked(walk(args, 0, empty_view(), files, 0))
    }
}

/// The character views of the outcomes of reading files.
pub open spec fn file_views(files: Seq<Result<String, String>>) -> Seq<Result<Seq<char>, Seq<char>>> {
    files.map_values(
        |f: Result<String, String>|
            match f {
                Ok(t) => Ok(t@),
                Err(e) => Err(e@),
            },
    )
}

/// An endpoint as given on the command line, read as `parse_endpoint` reads
/// it.
pub open spec fn endpoint_matches(e: Option<SnapshotEndpoint>, v: Option<Seq<char>>) -> bool {
    match (e, v) {
        (None, None) => true,
        (Some(SnapshotEndpoint::StdIo), Some(s)) => s == seq!['-'],
        (Some(SnapshotEndpoint::File(p)), Some(s)) => p@ == s && s != seq!['-'],
        _ => false,
    }
}

/// The run settings for the settings read and the root.
pub open spec fn args_match(a: CliArgs, st: ArgsView, root: Seq<char>) -> bool {
    &&& a.root@ == root
    &&& views(a.exclude_patterns@) == st.exclude_patterns
    &&& a.extended == st.extended
    &&& endpoint_matches(a.import_snapshot, st.import_snapshot)
    &&& endpoint_matches(a.export_json, st.export_json)
    &&& endpoint_matches(a.export_binary, st.export_binary)
    &&& a.ignore_config == st.ignore_config
    &&& a.same_fs_override == st.same_fs_override
    &&& a.cache_policy == st.cache_policy
    &&& a.kernfs_policy == st.kernfs_policy
    &&& a.thread_count == st.thread_count
    &&& a.follow_symlinks_override == st.follow_symlinks_override
    &&& a.export_compress == st.export_compress
    &&& a.export_compress_level == st.export_compress_level
    &&& a.export_block_size == st.export_block_size
}

/// A refusal with the reason given.
pub open spec fn failure_matches(e: CliParseError, f: FailureView) -> bool {
    match (e, f) {
        (CliParseError::TooManyArguments, FailureView::TooManyArguments) => true,
        (CliParseError::UnknownOption(s), FailureView::UnknownOption(t)) => s@ == t,
        (CliParseError::MissingOptionValue(s), FailureView::MissingOptionValue(t)) => s@ == t,
        (CliParseError::InvalidThreadCount(s), FailureView::InvalidThreadCount(t)) => s@ == t,
        (CliParseError::InvalidCompressionLevel(s), FailureView::InvalidCompressionLevel(t)) => s@ == t,
        (CliParseError::InvalidExportBlockSize(s), FailureView::InvalidExportBlockSize(t)) => s@ == t,
        (CliParseError::ExcludeFile(p, m), FailureView::ExcludeFile(q, n)) => p@ == q && m@ == n,
        _ => false,
    }
}

/// What the reader answers, given the arguments, the exclude-from files
/// read so far and the current directory.
pub open spec fn parse_matches(
    args: Seq<Seq<char>>,
    files: Seq<Result<Seq<char>, Seq<char>>>,
    cwd: Result<String, String>,
    r: ParseStep,
) -> bool {
    match spec_parse(args, files) {
        ParseView::Help => r == ParseStep::Done(Ok(CliCommand::Help)),
        ParseView::Version => r == ParseStep::Done(Ok(CliCommand::Version)),
        ParseView::Walked(WalkView::NeedFile(p)) => r matches ParseStep::NeedFile(q) && q@ == p,
        ParseView::Walked(WalkView::Fail(f)) => r matches ParseStep::Done(Err(e)) && failure_matches(e, f),
        ParseView::Walked(WalkView::Done(st)) => match st.root {
            Some(root) => r matches ParseStep::Done(Ok(CliCommand::Run(a))) && args_match(a, st, root),
            None => match cwd {
                Err(e) => r == ParseStep::Done(Err(CliParseError::CurrentDir(e))),
                Ok(d) => r matches ParseStep::Done(Ok(CliCommand::Run(a))) && args_match(a, st, d@),
            },
        },
    }
}

/// An optional text as characters.
pub open spec fn opt_view(o: Option<String>) -> Option<Seq<char>> {
    match o {
        Some(s) => Some(s@),
        None => None,
    }
}

/// The settings read so far.
struct Pending {
    root: Option<String>,
    exclude_patterns: Vec<String>,
    extended: bool,
    import_snapshot: Option<String>,
    export_json: Option<String>,
    export_binary: Option<String>,
    ignore_config: bool,
    same_fs_override: Option<bool>,
    cache_policy: Option<bool>,
    kernfs_policy: Option<bool>,
    thread_count: Option<usize>,
    follow_symlinks_override: Option<bool>,
    export_compress: bool,
    export_compress_level: Option<u32>,
    export_block_size: Option<usize>,
}

impl Pending {
    spec fn view(&self) -> ArgsView {
        ArgsView {
            root: opt_view(self.root),
            exclude_patterns: views(self.exclude_patterns@),
            extended: self.extended,
            import_snapshot: opt_view(self.import_snapshot),
            export_json: opt_view(self.export_json),
            export_binary: opt_view(self.export_binary),
            ignore_config: self.ignore_config,
            same_fs_override: self.same_fs_override,
            cache_policy: self.cache_policy,
            kernfs_policy: self.kernfs_policy,
            thread_count: self.thread_count,
            follow_symlinks_override: self.follow_symlinks_override,
            export_compress: self.export_compress,
            export_compress_level: self.export_compress_level,
            export_block_size: self.export_block_size,
        }
    }
}

fn endpoint_for(v: Option<String>) -> (r: Option<SnapshotEndpoint>)
    ensures
        endpoint_matches(r, opt_view(v)),
{
    match v {
        Some(s) => Some(parse_endpoint(s)),
        None => None,
    }
}

/// A compression level from 1 to 9.
fn parse_level(v: &str) -> (r: Option<u32>)
    ensures
        r == spec_level(v@),
{
    match parse_bounded(v, u32::MAX as u64) {
        Some(n) => if 1 <= n && n <= 9 {
            Some(n as u32)
        } else {
            None
        },
        None => None,
    }
}

/// A count of at least one.
fn parse_positive(v: &str) -> (r: Option<usize>)
    ensures
        r == spec_positive(v@),
{
    match parse_bounded(v, usize::MAX as u64) {
        Some(n) => if n > 0 {
            Some(n as usize)
        } else {
            None
        },
        None => None,
    }
}

impl CliCommand {
    /// Reads the command line. `current_dir` is the current directory (or
    /// why it is unknown), the root when no path is given; `exclude_files`
    /// holds the outcomes of reading the exclude-from files the reader has
    /// asked for so far, in order.
    #[verifier::rlimit(100)]
    pub fn parse_from_iter(
        args: Vec<String>,
        current_dir: Result<String, String>,
        exclude_files: Vec<Result<String, String>>,
    ) -> (r: ParseStep)
        ensures
            parse_matches(views(args@), file_views(exclude_files@), current_dir, r),
    {
        let ghost av = views(args@);
        let ghost fv = file_views(exclude_files@);
        let n: usize = args.len();
        let mut i: usize = 0;
        while i < n
            invariant
                n == args@.len(),
                av == views(args@),
                i <= n,
                forall|j: int| 0 <= j < i ==> !is_help(#[trigger] av[j]),
            decreases n - i,
        {
            if is_help_flag(args[i].as_str()) {
                assert(is_help(av[i as int]));
                return ParseStep::Done(Ok(CliCommand::Help));
            }
            i += 1;
        }
        let mut i: usize = 0;
        while i < n
            invariant
                n == args@.len(),
                av == views(args@),
                i <= n,
                forall|j: int| 0 <= j < i ==> !is_version(#[trigger] av[j]),
                forall|j: int| 0 <= j < n ==> !is_help(#[trigger] av[j]),
            decreases n - i,
        {
            if is_version_flag(args[i].as_str()) {
                assert(is_version(av[i as int]));
                return ParseStep::Done(Ok(CliCommand::Version));
            }
            i += 1;
        }
        let mut st = Pending {
            root: None,
            exclude_patterns: Vec::new(),
            extended: false,
            import_snapshot: None,
            export_json: None,
            export_binary: None,
            ignore_config: false,
            same_fs_override: None,
            cache_policy: None,
            kernfs_policy: None,
            thread_count: None,
            follow_symlinks_override: None,
            export_compress: false,
            export_compress_level: None,
            export_block_size: None,
        };
        assert(views(st.exclude_patterns@) =~= Seq::<Seq<char>>::empty());
        assert(st.view() == empty_view());
        let nf: usize = exclude_files.len();
        let mut i: usize = 0;
        let mut k: usize = 0;
        while i < n
            invariant
                n == args@.len(),
                nf == exclude_files@.len(),
                av == views(args@),
                fv == file_views(exclude_files@),
                i <= n,
                k <= nf,
                forall|j: int| 0 <= j < n ==> !is_help(#[trigger] av[j]),
                forall|j: int| 0 <= j < n ==> !is_version(#[trigger] av[j]),
                walk(av, i as int, st.view(), fv, k as int) == walk(av, 0, empty_view(), fv, 0),
            decreases n - i,
        {
            let ghost before = st.view();
            let kind = option_kind(args[i].as_str());
            assert(av[i as int] == args@[i as int]@);
            if i + 1 >= n && (kind == OptionKind::Exclude || kind == OptionKind::ExcludeFrom || kind
                == OptionKind::CompressLevel || kind == OptionKind::BlockSize || kind == OptionKind::Import
                || kind == OptionKind::ExportJson || kind == OptionKind::ExportBinary || kind
                == OptionKind::Threads) {
                return ParseStep::Done(Err(CliParseError::MissingOptionValue(args[i].clone())));
            }
            match kind {
                OptionKind::Exclude => {
                    let v = args[i + 1].clone();
                    assert(av[i + 1] == v@);
                    st.exclude_patterns.push(v);
                    assert(views(st.exclude_patterns@) =~= before.exclude_patterns.push(av[i + 1]));
                    i += 2;
                },
                OptionKind::ExcludeFrom => {
                    let v = args[i + 1].clone();
                    assert(av[i + 1] == v@);
                    if k >= nf {
                        return ParseStep::NeedFile(v);
                    }
                    match &exclude_files[k] {
                        Ok(t) => {
                            assert(fv[k as int] == Ok::<Seq<char>, Seq<char>>(t@));
                            let mut found = crate::cli::patterns_from_text(t.as_str());
                            let ghost old_patterns = st.exclude_patterns@;
                            st.exclude_patterns.append(&mut found);
                            assert(views(st.exclude_patterns@) =~= before.exclude_patterns + file_patterns(t@));
                            i += 2;
                            k += 1;
                        },
                        Err(e) => {
                            assert(fv[k as int] == Err::<Seq<char>, Seq<char>>(e@));
                            return ParseStep::Done(Err(CliParseError::ExcludeFile(v, e.clone())));
                        },
                    }
                },
                OptionKind::CompressLevel => {
                    let v = args[i + 1].clone();
                    assert(av[i + 1] == v@);
                    match parse_level(v.as_str()) {
                        Some(l) => {
                            st.export_compress_level = Some(l);
                            i += 2;
                        },
                        None => {
                            return ParseStep::Done(Err(CliParseError::InvalidCompressionLevel(v)));
                        },
                    }
                },
                OptionKind::BlockSize => {
                    let v = args[i + 1].clone();
                    assert(av[i + 1] == v@);
                    match parse_positive(v.as_str()) {
                        Some(b) => {
                            st.export_block_size = Some(b);
                            i += 2;
                        },
                        None => {
                            return ParseStep::Done(Err(CliParseError::InvalidExportBlockSize(v)));
                        },
                    }
                },
                OptionKind::Import => {
                    let v = args[i + 1].clone();
                    assert(av[i + 1] == v@);
                    st.import_snapshot = Some(v);
                    i += 2;
                },
                OptionKind::ExportJson => {
                    let v = args[i + 1].clone();
                    assert(av[i + 1] == v@);
                    st.export_json = Some(v);
                    i += 2;
                },
                OptionKind::ExportBinary => {
                    let v = args[i + 1].clone();
                    assert(av[i + 1] == v@);
                    st.export_binary = Some(v);
                    i += 2;
                },
                OptionKind::Threads => {
                    let v = args[i + 1].clone();
                    assert(av[i + 1] == v@);
                    match parse_positive(v.as_str()) {
                        Some(c) => {
                            st.thread_count = Some(c);
                            i += 2;
                        },
                        None => {
                            return ParseStep::Done(Err(CliParseError::InvalidThreadCount(v)));
                        },
                    }
                },
                OptionKind::Compress => {
                    st.export_compress = true;
                    i += 1;
                },
                OptionKind::Extended => {
                    st.extended = true;
                    i += 1;
                },
                OptionKind::NoExtended => {
                    st.extended = false;
                    i += 1;
                },
                OptionKind::OneFileSystem => {
                    st.same_fs_override = Some(true);
                    i += 1;
                },
                OptionKind::CrossFileSystem => {
                    st.same_fs_override = Some(false);
                    i += 1;
                },
                OptionKind::IncludeCaches => {
                    st.cache_policy = Some(true);
                    i += 1;
                },
                OptionKind::ExcludeCaches => {
                    st.cache_policy = Some(false);
                    i += 1;
                },
                OptionKind::IncludeKernfs => {
                    st.kernfs_policy = Some(true);
                    i += 1;
                },
                OptionKind::ExcludeKernfs => {
                    st.kernfs_policy = Some(false);
                    i += 1;
                },
                OptionKind::Follow => {
                    st.follow_symlinks_override = Some(true);
                    i += 1;
                },
                OptionKind::NoFollow => {
                    st.follow_symlinks_override = Some(false);
                    i += 1;
                },
                OptionKind::IgnoreConfig => {
                    st.ignore_config = true;
                    i += 1;
                },
                OptionKind::Unknown => {
                    return ParseStep::Done(Err(CliParseError::UnknownOption(args[i].clone())));
                },
                OptionKind::Positional => {
                    if st.root.is_none() {
                        st.root = Some(args[i].clone());
                        i += 1;
                    } else {
                        return ParseStep::Done(Err(CliParseError::TooManyArguments));
                    }
                },
            }
        }
        let ghost fin = st.view();
        let root = match st.root {
            Some(r) => r,
            None => match current_dir {
                Ok(d) => d,
                Err(e) => {
                    return ParseStep::Done(Err(CliParseError::CurrentDir(e)));
                },
            },
        };
        let args = CliArgs {
            root,
            exclude_patterns: st.exclude_patterns,
            extended: st.extended,
            import_snapshot: endpoint_for(st.import_snapshot),
            export_json: endpoint_for(st.export_json),
            export_binary: endpoint_for(st.export_binary),
            ignore_config: st.ignore_config,
            same_fs_override: st.same_fs_override,
            cache_policy: st.cache_policy,
            kernfs_policy: st.kernfs_policy,
            thread_count: st.thread_count,
            follow_symlinks_override: st.follow_symlinks_override,
            export_compress: st.export_compress,
            export_compress_level: st.export_compress_level,
            export_block_size: st.export_block_size,
        };
        ParseStep::Done(Ok(CliCommand::Run(args)))
    }
}

/// The help screen shown for `--help`.
pub const HELP_TEXT: &'static str = "dar 0.1.0 - ncdu-inspired disk usage explorer\nSee https://dev.yorhel.nl/ncdu/man for the reference ncdu manual.\n\nUSAGE:\n    dar [PATH]\n\nARGS:\n    PATH        Optional starting directory (default: current working directory)\n\nOPTIONS:\n    -h, --help  Print this help screen\n    -v, --version  Print the version information\n    -f FILE  Import snapshot from FILE (use '-' for stdin, JSON only)\n    -o FILE  Export scan tree to FILE in JSON format\n    -O FILE  Export scan tree to FILE in binary format\n    -e, --extended  Enable extended metadata mode for owner/permissions/mtime\n    --no-extended  Disable extended metadata mode\n    -x, --one-file-system  Stay on the starting filesystem\n    --cross-file-system  Allow crossing filesystem boundaries\n    -L, --follow-symlinks  Follow symbolic links while scanning\n    --no-follow-symlinks  Do not follow symlinks\n    --include-caches  Explicitly include cache directories\n    --exclude-caches  Skip directories named cache\n    --include-kernfs  Include kernfs-mounted directories\n    --exclude-kernfs  Skip kernfs namespaces\n    -t N  Limit the runtime worker threads to N\n    -c, --compress  Compress the exported JSON with gzip\n    --compress-level N  Set gzip compression level (1-9)\n    --export-block-size BYTES  Set buffered block size for exports\n    --ignore-config  Do not load configuration files\n    --exclude PATTERN  Exclude files/directories by glob pattern (repeatable)\n";

/// The name and version shown for `--version`.
pub const VERSION_TEXT: &'static str = "dar 0.1.0";

impl CliCommand {
    /// The help screen shown for `--help`.
    pub fn help_text() -> (r: &'static str)
        ensures
            r@ == HELP_TEXT@,
    {
        HELP_TEXT
    }

    /// The name and version shown for `--version`.
    pub fn version_text() -> (r: &'static str)
        ensures
            r@ == VERSION_TEXT@,
    {
        VERSION_TEXT
    }
}

/// No argument from position `i` on is `f` or `g`.
pub open spec fn lacks_flags(args: Seq<Seq<char>>, i: int, f: Seq<char>, g: Seq<char>) -> bool {
    forall|j: int| i <= j < args.len() ==> #[trigger] args[j] != f && args[j] != g
}

/// Reading arguments none of which is a cache flag leaves the cache policy
/// as it was, and likewise for the kernfs flags.
proof fn lemma_walk_keeps_policies(
    args: Seq<Seq<char>>,
    i: int,
    st: ArgsView,
    files: Seq<Result<Seq<char>, Seq<char>>>,
    k: int,
)
    requires
        0 <= i,
    ensures
        walk(args, i, st, files, k) matches WalkView::Done(r) ==> {
            &&& lacks_flags(args, i, "--include-caches"@, "--exclude-caches"@) ==> r.cache_policy == st.cache_policy
            &&& lacks_flags(args, i, "--include-kernfs"@, "--exclude-kernfs"@) ==> r.kernfs_policy == st.kernfs_policy
            &&& lacks_flags(args, i, "--one-file-system"@, "--cross-file-system"@) && lacks_flags(args, i, "-x"@, "-x"@)
                ==> r.same_fs_override == st.same_fs_override
            &&& lacks_flags(args, i, "--follow-symlinks"@, "--no-follow-symlinks"@) && lacks_flags(args, i, "-L"@, "-L"@)
                ==> r.follow_symlinks_override == st.follow_symlinks_override
        },
    decreases args.len() - i,
{
    if i < args.len() {
        let a = args[i];
        let kind = spec_kind(a);
        if takes_value(kind) {
            if i + 1 < args.len() {
                let v = args[i + 1];
                match kind {
                    OptionKind::Exclude => {
                        lemma_walk_keeps_policies(args, i + 2, ArgsView { exclude_patterns: st.exclude_patterns.push(v), ..st }, files, k);
                    },
                    OptionKind::ExcludeFrom => {
                        if 0 <= k < files.len() {
                            if let Ok(t) = files[k] {
                                lemma_walk_keeps_policies(
                                    args,
                                    i + 2,
                                    ArgsView { exclude_patterns: st.exclude_patterns + file_patterns(t), ..st },
                                    files,
                                    k + 1,
                                );
                            }
                        }
                    },
                    OptionKind::CompressLevel => {
                        if let Some(l) = spec_level(v) {
                            lemma_walk_keeps_policies(args, i + 2, ArgsView { export_compress_level: Some(l), ..st }, files, k);
                        }
                    },
                    OptionKind::BlockSize => {
                        if let Some(b) = spec_positive(v) {
                            lemma_walk_keeps_policies(args, i + 2, ArgsView { export_block_size: Some(b), ..st }, files, k);
                        }
                    },
                    OptionKind::Import => {
                        lemma_walk_keeps_policies(args, i + 2, ArgsView { import_snapshot: Some(v), ..st }, files, k);
                    },
                    OptionKind::ExportJson => {
                        lemma_walk_keeps_policies(args, i + 2, ArgsView { export_json: Some(v), ..st }, files, k);
                    },
                    OptionKind::ExportBinary => {
                        lemma_walk_keeps_policies(args, i + 2, ArgsView { export_binary: Some(v), ..st }, files, k);
                    },
                    _ => {
                        if let Some(n) = spec_positive(v) {
                            lemma_walk_keeps_policies(args, i + 2, ArgsView { thread_count: Some(n), ..st }, files, k);
                        }
                    },
                }
            }
        } else {
            match kind {
                OptionKind::Compress => {
                    lemma_walk_keeps_policies(args, i + 1, ArgsView { export_compress: true, ..st }, files, k);
                },
                OptionKind::Extended => {
                    lemma_walk_keeps_policies(args, i + 1, ArgsView { extended: true, ..st }, files, k);
                },
                OptionKind::NoExtended => {
                    lemma_walk_keeps_policies(args, i + 1, ArgsView { extended: false, ..st }, files, k);
                },
                OptionKind::OneFileSystem => {
                    lemma_walk_keeps_policies(args, i + 1, ArgsView { same_fs_override: Some(true), ..st }, files, k);
                    assert(args[i] == a);
                },
                OptionKind::CrossFileSystem => {
                    lemma_walk_keeps_policies(args, i + 1, ArgsView { same_fs_override: Some(false), ..st }, files, k);
                    assert(args[i] == a);
                },
                OptionKind::IncludeCaches => {
                    lemma_walk_keeps_policies(args, i + 1, ArgsView { cache_policy: Some(true), ..st }, files, k);
                    assert(args[i] == a);
                },
                OptionKind::ExcludeCaches => {
                    lemma_walk_keeps_policies(args, i + 1, ArgsView { cache_policy: Some(false), ..st }, files, k);
                    assert(args[i] == a);
                },
                OptionKind::IncludeKernfs => {
                    lemma_walk_keeps_policies(args, i + 1, ArgsView { kernfs_policy: Some(true), ..st }, files, k);
                    assert(args[i] == a);
                },
                OptionKind::ExcludeKernfs => {
                    lemma_walk_keeps_policies(args, i + 1, ArgsView { kernfs_policy: Some(false), ..st }, files, k);
                    assert(args[i] == a);
                },
                OptionKind::Follow => {
                    lemma_walk_keeps_policies(args, i + 1, ArgsView { follow_symlinks_override: Some(true), ..st }, files, k);
                    assert(args[i] == a);
                },
                OptionKind::NoFollow => {
                    lemma_walk_keeps_policies(args, i + 1, ArgsView { follow_symlinks_override: Some(false), ..st }, files, k);
                    assert(args[i] == a);
                },
                OptionKind::IgnoreConfig => {
                    lemma_walk_keeps_policies(args, i + 1, ArgsView { ignore_config: true, ..st }, files, k);
                },
                OptionKind::Unknown => {},
                _ => {
                    if st.root is None {
                        lemma_walk_keeps_policies(args, i + 1, ArgsView { root: Some(a), ..st }, files, k);
                    }
                },
            }
        }
    }
}

/// The cache and kernfs flags are read as those options, and none of them
/// asks for help or the version.
proof fn lemma_policy_flag_kinds()
    ensures
        spec_kind("--exclude-caches"@) == OptionKind::ExcludeCaches,
        spec_kind("--include-caches"@) == OptionKind::IncludeCaches,
        spec_kind("--exclude-kernfs"@) == OptionKind::ExcludeKernfs,
        spec_kind("--include-kernfs"@) == OptionKind::IncludeKernfs,
        !is_help("--exclude-caches"@) && !is_version("--exclude-caches"@),
        !is_help("--include-caches"@) && !is_version("--include-caches"@),
        !is_help("--exclude-kernfs"@) && !is_version("--exclude-kernfs"@),
        !is_help("--include-kernfs"@) && !is_version("--include-kernfs"@),
        spec_kind("--one-file-system"@) == OptionKind::OneFileSystem,
        spec_kind("--cross-file-system"@) == OptionKind::CrossFileSystem,
        spec_kind("--follow-symlinks"@) == OptionKind::Follow,
        spec_kind("--no-follow-symlinks"@) == OptionKind::NoFollow,
        !is_help("--one-file-system"@) && !is_version("--one-file-system"@),
        !is_help("--cross-file-system"@) && !is_version("--cross-file-system"@),
        !is_help("--follow-symlinks"@) && !is_version("--follow-symlinks"@),
        !is_help("--no-follow-symlinks"@) && !is_version("--no-follow-symlinks"@),
{
    reveal_strlit("--exclude");
    reveal_strlit("-X");
    reveal_strlit("--exclude-from");
    reveal_strlit("-c");
    reveal_strlit("--compress");
    reveal_strlit("--compress-level");
    reveal_strlit("--export-block-size");
    reveal_strlit("-f");
    reveal_strlit("-o");
    reveal_strlit("-O");
    reveal_strlit("-e");
    reveal_strlit("--extended");
    reveal_strlit("--no-extended");
    reveal_strlit("-x");
    reveal_strlit("--one-file-system");
    reveal_strlit("--cross-file-system");
    reveal_strlit("--include-caches");
    reveal_strlit("--exclude-caches");
    reveal_strlit("--include-kernfs");
    reveal_strlit("--exclude-kernfs");
    reveal_strlit("--help");
    reveal_strlit("-h");
    reveal_strlit("-v");
    reveal_strlit("-V");
    reveal_strlit("--version");
    assert("--exclude"@.len() == 9);
    assert("-X"@.len() == 2);
    assert("--exclude-from"@.len() == 14);
    assert("-c"@.len() == 2);
    assert("--compress"@.len() == 10);
    assert("--compress-level"@.len() == 16);
    assert("--export-block-size"@.len() == 19);
    assert("-f"@.len() == 2);
    assert("-o"@.len() == 2);
    assert("-O"@.len() == 2);
    assert("-e"@.len() == 2);
    assert("--extended"@.len() == 10);
    assert("--no-extended"@.len() == 13);
    assert("-x"@.len() == 2);
    assert("--one-file-system"@.len() == 17);
    assert("--cross-file-system"@.len() == 19);
    assert("--include-caches"@.len() == 16);
    assert("--exclude-caches"@.len() == 16);
    assert("--include-kernfs"@.len() == 16);
    assert("--exclude-kernfs"@.len() == 16);
    assert("--help"@.len() == 6);
    assert("-h"@.len() == 2);
    assert("-v"@.len() == 2);
    assert("-V"@.len() == 2);
    assert("--version"@.len() == 9);
    reveal_strlit("-t");
    reveal_strlit("-L");
    reveal_strlit("--follow-symlinks");
    reveal_strlit("--no-follow-symlinks");
    assert("-t"@.len() == 2);
    assert("-L"@.len() == 2);
    assert("--follow-symlinks"@.len() == 17);
    assert("--no-follow-symlinks"@.len() == 20);
    assert("--one-file-system"@[2] != "--follow-symlinks"@[2]);
    assert("--cross-file-system"@[2] != "--export-block-size"@[2]);
    assert("--exclude-caches"@[2] != "--compress-level"@[2]);
    assert("--include-caches"@[2] != "--compress-level"@[2]);
    assert("--exclude-kernfs"@[2] != "--compress-level"@[2]);
    assert("--include-kernfs"@[2] != "--compress-level"@[2]);
    assert("--exclude-caches"@[3] != "--include-caches"@[3]);
    assert("--exclude-kernfs"@[3] != "--include-kernfs"@[3]);
    assert("--exclude-caches"@[10] != "--exclude-kernfs"@[10]);
    assert("--include-caches"@[10] != "--include-kernfs"@[10]);
    assert("--exclude-caches"@[3] != "--include-kernfs"@[3]);
    assert("--include-caches"@[3] != "--exclude-kernfs"@[3]);
}

/// `--exclude-caches` makes a scan skip cache directories and
/// `--include-caches` makes it keep them, whatever the configuration says:
/// given first and followed by no other cache flag, a command line that is
/// read through ends with the policy under which the scan options skip (or
/// keep) caches. The kernfs flags work alike.
pub proof fn lemma_policy_flags(
    rest: Seq<Seq<char>>,
    files: Seq<Result<Seq<char>, Seq<char>>>,
    config: crate::config::ScanConfig,
    run: crate::cli::CliArgs,
)
    ensures
        lacks_flags(rest, 0, "--include-caches"@, "--exclude-caches"@) ==> {
            &&& (spec_parse(seq!["--exclude-caches"@] + rest, files) matches ParseView::Walked(WalkView::Done(st))
                && run.cache_policy == st.cache_policy) ==> crate::launch::spec_scan_options(run, config).skip_caches
            &&& (spec_parse(seq!["--include-caches"@] + rest, files) matches ParseView::Walked(WalkView::Done(st))
                && run.cache_policy == st.cache_policy) ==> !crate::launch::spec_scan_options(run, config).skip_caches
        },
        lacks_flags(rest, 0, "--one-file-system"@, "--cross-file-system"@) && lacks_flags(rest, 0, "-x"@, "-x"@) ==> {
            &&& (spec_parse(seq!["--one-file-system"@] + rest, files) matches ParseView::Walked(WalkView::Done(st))
                && run.same_fs_override == st.same_fs_override) ==> crate::launch::spec_scan_options(run, config).same_file_system
            &&& (spec_parse(seq!["--cross-file-system"@] + rest, files) matches ParseView::Walked(WalkView::Done(st))
                && run.same_fs_override == st.same_fs_override) ==> !crate::launch::spec_scan_options(run, config).same_file_system
        },
        lacks_flags(rest, 0, "--follow-symlinks"@, "--no-follow-symlinks"@) && lacks_flags(rest, 0, "-L"@, "-L"@) ==> {
            &&& (spec_parse(seq!["--follow-symlinks"@] + rest, files) matches ParseView::Walked(WalkView::Done(st))
                && run.follow_symlinks_override == st.follow_symlinks_override) ==> crate::launch::spec_scan_options(run, config).follow_symlinks
            &&& (spec_parse(seq!["--no-follow-symlinks"@] + rest, files) matches ParseView::Walked(WalkView::Done(st))
                && run.follow_symlinks_override == st.follow_symlinks_override) ==> !crate::launch::spec_scan_options(run, config).follow_symlinks
        },
        lacks_flags(rest, 0, "--include-kernfs"@, "--exclude-kernfs"@) ==> {
            &&& (spec_parse(seq!["--exclude-kernfs"@] + rest, files) matches ParseView::Walked(WalkView::Done(st))
                && run.kernfs_policy == st.kernfs_policy) ==> crate::launch::spec_scan_options(run, config).skip_kernfs
            &&& (spec_parse(seq!["--include-kernfs"@] + rest, files) matches ParseView::Walked(WalkView::Done(st))
                && run.kernfs_policy == st.kernfs_policy) ==> !crate::launch::spec_scan_options(run, config).skip_kernfs
        },
{
    lemma_policy_flag_kinds();
    let flags = seq!["--exclude-caches"@, "--include-caches"@, "--exclude-kernfs"@, "--include-kernfs"@];
    assert forall|f: int| 0 <= f < 4 implies {
        let args = seq![#[trigger] flags[f]] + rest;
        &&& args[0] == flags[f]
        &&& (lacks_flags(rest, 0, "--include-caches"@, "--exclude-caches"@) ==> lacks_flags(args, 1, "--include-caches"@, "--exclude-caches"@))
        &&& (lacks_flags(rest, 0, "--include-kernfs"@, "--exclude-kernfs"@) ==> lacks_flags(args, 1, "--include-kernfs"@, "--exclude-kernfs"@))
    } by {
        let args = seq![flags[f]] + rest;
        assert forall|j: int| 1 <= j < args.len() implies #[trigger] args[j] == rest[j - 1] by {}
    }
    let a0 = seq!["--exclude-caches"@] + rest;
    let a1 = seq!["--include-caches"@] + rest;
    let a2 = seq!["--exclude-kernfs"@] + rest;
    let a3 = seq!["--include-kernfs"@] + rest;
    assert(flags[0] == "--exclude-caches"@ && flags[1] == "--include-caches"@);
    assert(flags[2] == "--exclude-kernfs"@ && flags[3] == "--include-kernfs"@);
    lemma_walk_keeps_policies(a0, 1, ArgsView { cache_policy: Some(false), ..empty_view() }, files, 0);
    lemma_walk_keeps_policies(a1, 1, ArgsView { cache_policy: Some(true), ..empty_view() }, files, 0);
    lemma_walk_keeps_policies(a2, 1, ArgsView { kernfs_policy: Some(false), ..empty_view() }, files, 0);
    lemma_walk_keeps_policies(a3, 1, ArgsView { kernfs_policy: Some(true), ..empty_view() }, files, 0);
    let b0 = seq!["--one-file-system"@] + rest;
    let b1 = seq!["--cross-file-system"@] + rest;
    let b2 = seq!["--follow-symlinks"@] + rest;
    let b3 = seq!["--no-follow-symlinks"@] + rest;
    lemma_prepended_lacks(rest, "--one-file-system"@);
    lemma_prepended_lacks(rest, "--cross-file-system"@);
    lemma_prepended_lacks(rest, "--follow-symlinks"@);
    lemma_prepended_lacks(rest, "--no-follow-symlinks"@);
    lemma_walk_keeps_policies(b0, 1, ArgsView { same_fs_override: Some(true), ..empty_view() }, files, 0);
    lemma_walk_keeps_policies(b1, 1, ArgsView { same_fs_override: Some(false), ..empty_view() }, files, 0);
    lemma_walk_keeps_policies(b2, 1, ArgsView { follow_symlinks_override: Some(true), ..empty_view() }, files, 0);
    lemma_walk_keeps_policies(b3, 1, ArgsView { follow_symlinks_override: Some(false), ..empty_view() }, files, 0);
}

/// Putting one argument before `rest` shifts `rest` by one place.
proof fn lemma_prepended_lacks(rest: Seq<Seq<char>>, first: Seq<char>)
    ensures
        (seq![first] + rest)[0] == first,
        forall|f: Seq<char>, g: Seq<char>| #[trigger] lacks_flags(rest, 0, f, g) ==> lacks_flags(seq![first] + rest, 1, f, g),
{
    let args = seq![first] + rest;
    assert forall|j: int| 1 <= j < args.len() implies #[trigger] args[j] == rest[j - 1] by {}
    assert forall|f: Seq<char>, g: Seq<char>| #[trigger] lacks_flags(rest, 0, f, g) implies lacks_flags(args, 1, f, g) by {
        assert forall|j: int| 1 <= j < args.len() implies #[trigger] args[j] != f && args[j] != g by {
            assert(args[j] == rest[j - 1]);
        }
    }
}

} // verus!
