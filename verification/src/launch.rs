//! How the application starts: which mode runs, and the scan and export
//! settings that the command line and the configuration give together.
use crate::cli::{CliArgs, InterfaceMode};
use crate::config::ScanConfig;
use crate::scan::ScanOptions;
use crate::snapshot::{default_export, duplicate_endpoint, ExportOptions, SnapshotEndpoint};
use vstd::prelude::*;

verus! {

/// What the application does.
#[derive(Clone, Debug, PartialEq, Eq)]
pub enum RunMode {
    /// Show an imported snapshot.
    Import(SnapshotEndpoint),
    /// Scan and write the snapshots asked for.
    Export { json: Option<SnapshotEndpoint>, binary: Option<SnapshotEndpoint> },
    /// Scan under the given interface.
    Interface(InterfaceMode),
}

/// An import wins over exports, which win over the interface mode.
pub open spec fn spec_run_mode(cli: CliArgs) -> RunMode {
    match cli.import_snapshot {
        Some(e) => RunMode::Import(e),
        None => if cli.export_json is Some || cli.export_binary is Some {
            RunMode::Export { json: cli.export_json, binary: cli.export_binary }
        } else {
            RunMode::Interface(cli.interface_mode)
        },
    }
}

pub fn run_mode(cli: &CliArgs) -> (r: RunMode)
    ensures
        r == spec_run_mode(*cli),
{
    match &cli.import_snapshot {
        Some(e) => RunMode::Import(e.duplicate()),
        None => if cli.export_json.is_some() || cli.export_binary.is_some() {
            RunMode::Export {
                json: duplicate_endpoint(&cli.export_json),
                binary: duplicate_endpoint(&cli.export_binary),
            }
        } else {
            RunMode::Interface(cli.interface_mode)
        },
    }
}

/// The scan options: each command-line override wins over the configured
/// value; a policy that keeps an entry means "do not skip", one that drops it "skip".
/// Entry metadata is collected in extended mode.
pub open spec fn spec_scan_options(cli: CliArgs, config: ScanConfig) -> ScanOptions {
    ScanOptions {
        follow_symlinks: match cli.follow_symlinks_override {
            Some(v) => v,
            None => config.follow_symlinks,
        },
        count_hard_links_once: config.count_hard_links_once,
        same_file_system: match cli.same_fs_override {
            Some(v) => v,
            None => config.one_file_system,
        },
        skip_caches: match cli.cache_policy {
            Some(keep) => !keep,
            None => config.exclude_caches,
        },
        skip_kernfs: match cli.kernfs_policy {
            Some(keep) => !keep,
            None => config.exclude_kernfs,
        },
        collect_metadata: cli.extended,
    }
}

pub fn scan_options(cli: &CliArgs, config: &ScanConfig) -> (r: ScanOptions)
    ensures
        r == spec_scan_options(*cli, *config),
{
    let follow_symlinks = match cli.follow_symlinks_override {
        Some(v) => v,
        None => config.follow_symlinks,
    };
    let same_file_system = match cli.same_fs_override {
        Some(v) => v,
        None => config.one_file_system,
    };
    let skip_caches = match cli.cache_policy {
        Some(keep) => !keep,
        None => config.exclude_caches,
    };
    let skip_kernfs = match cli.kernfs_policy {
        Some(keep) => !keep,
        None => config.exclude_kernfs,
    };
    ScanOptions {
        follow_symlinks,
        count_hard_links_once: config.count_hard_links_once,
        same_file_system,
        skip_caches,
        skip_kernfs,
        collect_metadata: cli.extended,
    }
}

/// The configured exclusion patterns followed by those of the command line.
pub fn exclude_patterns(cli: &CliArgs, config: &ScanConfig) -> (r: Vec<String>)
    ensures
        r@ == config.exclude_patterns@ + cli.exclude_patterns@,
{
    let mut out: Vec<String> = Vec::new();
    let mut i: usize = 0;
    while i < config.exclude_patterns.len()
        invariant
            i <= config.exclude_patterns@.len(),
            out@ == config.exclude_patterns@.take(i as int),
        decreases config.exclude_patterns@.len() - i,
    {
        out.push(config.exclude_patterns[i].clone());
        assert(config.exclude_patterns@.take(i as int + 1) =~= config.exclude_patterns@.take(
            i as int,
        ).push(config.exclude_patterns@[i as int]));
        i += 1;
    }
    let mut j: usize = 0;
    while j < cli.exclude_patterns.len()
        invariant
            j <= cli.exclude_patterns@.len(),
            out@ == config.exclude_patterns@ + cli.exclude_patterns@.take(j as int),
        decreases cli.exclude_patterns@.len() - j,
    {
        out.push(cli.exclude_patterns[j].clone());
        assert(cli.exclude_patterns@.take(j as int + 1) =~= cli.exclude_patterns@.take(j as int).push(
            cli.exclude_patterns@[j as int],
        ));
        j += 1;
    }
    assert(config.exclude_patterns@.take(config.exclude_patterns@.len() as int)
        =~= config.exclude_patterns@);
    assert(cli.exclude_patterns@.take(cli.exclude_patterns@.len() as int) =~= cli.exclude_patterns@);
    out
}

/// The number of runtime worker threads to ask for: the command line's
/// count, else the configured one; none (the runtime's default) when
/// neither is given or the count is zero.
pub open spec fn spec_worker_threads(cli: CliArgs, config: ScanConfig) -> Option<usize> {
    let chosen = match cli.thread_count {
        Some(n) => Some(n),
        None => config.thread_count,
    };
    match chosen {
        Some(n) => if n > 0 { Some(n) } else { None },
        None => None,
    }
}

pub fn worker_threads(cli: &CliArgs, config: &ScanConfig) -> (r: Option<usize>)
    ensures
        r == spec_worker_threads(*cli, *config),
{
    let chosen = match cli.thread_count {
        Some(n) => Some(n),
        None => config.thread_count,
    };
    match chosen {
        Some(n) => if n > 0 {
            Some(n)
        } else {
            None
        },
        None => None,
    }
}

/// The export settings: compression as asked, the level asked for (at most
/// 9) or the default, the block size asked for or the default.
pub open spec fn spec_export_options(cli: CliArgs) -> ExportOptions {
    let base = default_export();
    let level = match cli.export_compress_level {
        Some(l) => l,
        None => base.compress_level,
    };
    ExportOptions {
        format: base.format,
        compress: cli.export_compress,
        compress_level: if level > 9 { 9 } else { level },
        block_size: match cli.export_block_size {
            Some(b) => b,
            None => base.block_size,
        },
    }
}

pub fn export_options_from_cli(cli: &CliArgs) -> (r: ExportOptions)
    ensures
        r == spec_export_options(*cli),
{
    let base = ExportOptions::default();
    let level = match cli.export_compress_level {
        Some(l) => l,
        None => base.compress_level,
    };
    ExportOptions {
        format: base.format,
        compress: cli.export_compress,
        compress_level: if level > 9 {
            9
        } else {
            level
        },
        block_size: match cli.export_block_size {
            Some(b) => b,
            None => base.block_size,
        },
    }
}

/// Command-line overrides always win over the configuration: a given
/// override decides its option, and without one the configured value
/// stands.
pub proof fn lemma_command_line_wins(cli: CliArgs, config: ScanConfig)
    ensures
        ({
            let o = spec_scan_options(cli, config);
            &&& o.follow_symlinks == match cli.follow_symlinks_override {
                Some(v) => v,
                None => config.follow_symlinks,
            }
            &&& o.same_file_system == match cli.same_fs_override {
                Some(v) => v,
                None => config.one_file_system,
            }
            &&& o.skip_caches == match cli.cache_policy {
                Some(keep) => !keep,
                None => config.exclude_caches,
            }
            &&& o.skip_kernfs == match cli.kernfs_policy {
                Some(keep) => !keep,
                None => config.exclude_kernfs,
            }
            &&& spec_worker_threads(cli, config) == match cli.thread_count {
                Some(n) => if n > 0 { Some(n) } else { None },
                None => match config.thread_count {
                    Some(n) => if n > 0 { Some(n) } else { None },
                    None => None,
                },
            }
        }),
{
}

} // verus!
