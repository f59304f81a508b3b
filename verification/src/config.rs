//! Configuration values and the rule by which configuration files are merged.
use vstd::prelude::*;

verus! {

/// Order in which directory children are listed.
#[derive(Clone, Copy, Debug, PartialEq, Eq, Structural)]
pub enum SortMode {
    SizeDesc,
    SizeAsc,
    Name,
    ModifiedTime,
}

impl Default for SortMode {
    fn default() -> (r: Self)
        ensures
            r == SortMode::SizeDesc,
    {
        SortMode::SizeDesc
    }
}

pub open spec fn spec_sort_mode_label(mode: SortMode) -> Seq<char> {
    match mode {
        SortMode::SizeDesc => "size_desc"@,
        SortMode::SizeAsc => "size_asc"@,
        SortMode::Name => "name"@,
        SortMode::ModifiedTime => "modified_time"@,
    }
}

impl SortMode {
    /// The label shown for a sort mode.
    pub fn as_label(&self) -> (r: &'static str)
        ensures
            r@ == spec_sort_mode_label(*self),
    {
        match self {
            SortMode::SizeDesc => "size_desc",
            SortMode::SizeAsc => "size_asc",
            SortMode::Name => "name",
            SortMode::ModifiedTime => "modified_time",
        }
    }
}

/// Interface settings read from a configuration file.
#[derive(Clone, Copy, Debug, PartialEq, Eq, Structural)]
pub struct UiConfig {
    pub show_bars: bool,
    pub show_hidden: bool,
}

impl Default for UiConfig {
    fn default() -> (r: Self)
        ensures
            !r.show_bars && !r.show_hidden,
    {
        UiConfig { show_bars: false, show_hidden: false }
    }
}

/// Sorting settings read from a configuration file.
#[derive(Clone, Copy, Debug, PartialEq, Eq, Structural)]
pub struct SortingConfig {
    pub mode: SortMode,
}

impl Default for SortingConfig {
    fn default() -> (r: Self)
        ensures
            r.mode == SortMode::SizeDesc,
    {
        SortingConfig { mode: SortMode::SizeDesc }
    }
}

/// Scan settings read from a configuration file.
#[derive(Clone, Debug, PartialEq, Eq)]
pub struct ScanConfig {
    pub follow_symlinks: bool,
    pub max_depth: usize,
    pub exclude_patterns: Vec<String>,
    pub count_hard_links_once: bool,
    pub one_file_system: bool,
    pub exclude_caches: bool,
    pub exclude_kernfs: bool,
    pub thread_count: Option<usize>,
}

/// The scan settings used when no file sets them: nothing followed,
/// excluded or limited.
pub open spec fn default_scan_config(c: ScanConfig) -> bool {
    &&& !c.follow_symlinks
    &&& c.max_depth == 0
    &&& c.exclude_patterns@.len() == 0
    &&& !c.count_hard_links_once
    &&& !c.one_file_system
    &&& !c.exclude_caches
    &&& !c.exclude_kernfs
    &&& c.thread_count is None
}

impl Default for ScanConfig {
    fn default() -> (r: Self)
        ensures
            default_scan_config(r),
    {
        ScanConfig {
            follow_symlinks: false,
            max_depth: 0,
            exclude_patterns: Vec::new(),
            count_hard_links_once: false,
            one_file_system: false,
            exclude_caches: false,
            exclude_kernfs: false,
            thread_count: None,
        }
    }
}

/// A configuration file's settings.
#[derive(Clone, Debug, PartialEq, Eq)]
pub struct Config {
    pub ui: UiConfig,
    pub sorting: SortingConfig,
    pub scan: ScanConfig,
}

/// The configuration used when no file is read.
pub open spec fn default_config(c: Config) -> bool {
    &&& !c.ui.show_bars && !c.ui.show_hidden
    &&& c.sorting.mode == SortMode::SizeDesc
    &&& default_scan_config(c.scan)
}

impl Default for Config {
    fn default() -> (r: Self)
        ensures
            default_config(r),
    {
        Config { ui: UiConfig::default(), sorting: SortingConfig::default(), scan: ScanConfig::default() }
    }
}

/// Why a configuration file could not be used.
#[derive(Clone, Debug, PartialEq, Eq)]
pub enum ConfigError {
    /// The file could not be read.
    Io { path: String, message: String },
    /// The file is not a valid configuration.
    Decode { path: String, message: String },
}

impl ConfigError {
    /// The error as a line of text.
    pub fn to_text(&self) -> (r: String)
        ensures
            r@ == match self {
                ConfigError::Io { path, message } => "failed to read config file "@ + path@ + ": "@
                    + message@,
                ConfigError::Decode { path, message } => "failed to parse config file "@ + path@
                    + ": "@ + message@,
            },
    {
        let mut out = String::new();
        match self {
            ConfigError::Io { path, message } => {
                crate::text::push_str(&mut out, "failed to read config file ");
                crate::text::push_str(&mut out, path.as_str());
                crate::text::push_str(&mut out, ": ");
                crate::text::push_str(&mut out, message.as_str());
            },
            ConfigError::Decode { path, message } => {
                crate::text::push_str(&mut out, "failed to parse config file ");
                crate::text::push_str(&mut out, path.as_str());
                crate::text::push_str(&mut out, ": ");
                crate::text::push_str(&mut out, message.as_str());
            },
        }
        out
    }
}

/// The outcome of loading configuration files.
#[derive(Clone, Debug, PartialEq, Eq)]
pub struct ConfigLoad {
    pub config: Config,
    pub config_path: Option<String>,
    pub error: Option<ConfigError>,
}

/// The load state after one more file: a file that parses replaces the
/// configuration, becomes the source and clears any earlier error; a file
/// that fails is remembered (with its path) only if no error is remembered
/// yet.
pub open spec fn load_step(acc: ConfigLoad, path: String, result: Result<Config, ConfigError>) -> ConfigLoad {
    match result {
        Ok(c) => ConfigLoad { config: c, config_path: Some(path), error: None },
        Err(e) => if acc.error is None {
            ConfigLoad { config: acc.config, config_path: Some(path), error: Some(e) }
        } else {
            acc
        },
    }
}

/// The load state after the files in order, from `acc`.
pub open spec fn load_all(
    acc: ConfigLoad,
    files: Seq<(String, Result<Config, ConfigError>)>,
) -> ConfigLoad
    decreases files.len(),
{
    if files.len() == 0 {
        acc
    } else {
        load_step(load_all(acc, files.drop_last()), files.last().0, files.last().1)
    }
}

/// The load state before any file: default configuration, no source, no
/// error.
pub open spec fn initial_load(l: ConfigLoad) -> bool {
    &&& default_config(l.config)
    &&& l.config_path is None
    &&& l.error is None
}

impl ConfigLoad {
    /// The remembered error, if any.
    pub fn error(&self) -> (r: Option<&ConfigError>)
        ensures
            r == match self.error {
                Some(e) => Some(&e),
                None => None::<&ConfigError>,
            },
    {
        match &self.error {
            Some(e) => Some(e),
            None => None,
        }
    }

    /// Where the configuration came from: `from <path>`, or `defaults`.
    pub fn source_description(&self) -> (r: String)
        ensures
            r@ == match self.config_path {
                Some(p) => "from "@ + p@,
                None => "defaults"@,
            },
    {
        match &self.config_path {
            Some(p) => {
                let mut out = String::new();
                crate::text::push_str(&mut out, "from ");
                crate::text::push_str(&mut out, p.as_str());
                out
            },
            None => crate::text::owned("defaults"),
        }
    }
}

/// Loads configuration from the files read, in order (the system file, the
/// ncdu file, then the user's file, where each exists). With
/// `ignore_config` the files are not consulted and the defaults stand.
pub fn load(ignore_config: bool, files: Vec<(String, Result<Config, ConfigError>)>) -> (r: ConfigLoad)
    ensures
        exists|init: ConfigLoad|
            initial_load(init) && r == (if ignore_config { init } else { load_all(init, files@) }),
{
    let mut load = ConfigLoad { config: Config::default(), config_path: None, error: None };
    let ghost init = load;
    assert(initial_load(init));
    if ignore_config {
        return load;
    }
    let mut files = files;
    let ghost all = files@;
    let n: usize = files.len();
    let mut i: usize = 0;
    while i < n
        invariant
            n == all.len(),
            i <= n,
            files@ =~= all.skip(i as int),
            load == load_all(init, all.take(i as int)),
            initial_load(init),
        decreases n - i,
    {
        let (path, result) = files.remove(0);
        assert(all.take(i as int + 1).drop_last() =~= all.take(i as int));
        assert(all.skip(i as int)[0] == all[i as int]);
        assert(all.skip(i as int + 1) =~= all.skip(i as int).subrange(1, (n - i) as int));
        match result {
            Ok(config) => {
                load = ConfigLoad { config, config_path: Some(path), error: None };
            },
            Err(err) => {
                if load.error.is_none() {
                    load.error = Some(err);
                    load.config_path = Some(path);
                }
            },
        }
        i += 1;
    }
    assert(all.take(n as int) =~= all);
    load
}

} // verus!
